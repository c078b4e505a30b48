# ff_transcode_helper

Batch conversion of media files with FFmpeg, built around a verified core.

- `src/` (verified with Verus): the grammar of encoder option strings
  (`options.rs`, `parse_opts` in `lib.rs`), the conversion settings and the
  output file naming (`convert.rs`), and the stream plan that decides which
  input streams are transcoded, copied or dropped and where every packet goes
  (`streams.rs`). Laws about these live next to them as proof functions.
- `app/`: everything that talks to FFmpeg and the terminal — opening and
  writing files, decoders and encoders, the progress bar, and the two
  ready-made conversions (AV1 video in WebM, x265 video in MP4; audio is
  copied).
- `tests/`: tests of the library on concrete values.
