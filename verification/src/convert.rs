//! The settings of a conversion and the decisions that depend on them alone.
use vstd::prelude::*;
use crate::error::TranscoderError;
use crate::options::{Options, opt_view, scan_opts, spec_parse_opts, free_of_nul, assigned_before_error, law_parse_joined, dictionary_of, law_reapply_is_idempotent};
use crate::text::push_char;

verus! {

/// The abstract value of a [`Converter`].
pub struct ConverterView {
    /// File extension of the outputs, without the leading `.`; it also picks
    /// the output container format.
    pub ext: Seq<char>,
    pub v_encoder_name: Seq<char>,
    pub a_encoder_name: Seq<char>,
    pub v_opts: Seq<(Seq<char>, Seq<char>)>,
    pub a_opts: Seq<(Seq<char>, Seq<char>)>,
    pub v_filters: Option<Seq<char>>,
    pub a_filters: Option<Seq<char>>,
}

/// The settings of a conversion: output extension, encoder names, encoder
/// options and filters for video and audio.
#[derive(Debug, Clone)]
pub struct Converter {
    ext: String,
    v_encoder_name: String,
    a_encoder_name: String,
    v_opts: Options,
    a_opts: Options,
    v_filters: Option<String>,
    a_filters: Option<String>,
}

impl View for Converter {
    type V = ConverterView;

    closed spec fn view(&self) -> ConverterView {
        ConverterView {
            ext: self.ext@,
            v_encoder_name: self.v_encoder_name@,
            a_encoder_name: self.a_encoder_name@,
            v_opts: self.v_opts@,
            a_opts: self.a_opts@,
            v_filters: opt_view(self.v_filters),
            a_filters: opt_view(self.a_filters),
        }
    }
}

/// The abstract value of an optional string slice.
pub open spec fn opt_str_view(o: Option<&str>) -> Option<Seq<char>> {
    match o {
        Some(s) => Some(s@),
        None => None,
    }
}

/// The output file name for an input whose file stem is `stem`: the stem,
/// a `.`, and the extension.
pub open spec fn output_name_for(stem: Seq<char>, ext: Seq<char>) -> Seq<char> {
    stem.push('.') + ext
}

fn owned_opt(o: Option<&str>) -> (r: Option<String>)
    ensures
        opt_view(r) == opt_str_view(o),
{
    match o {
        Some(s) => Some(s.to_owned()),
        None => None,
    }
}

fn append_str(s: &mut String, t: &str)
    ensures
        final(s)@ == old(s)@ + t@,
{
    let v = crate::text::chars_of(t);
    let mut i: usize = 0;
    while i < v.len()
        invariant
            v@ == t@,
            i <= v@.len(),
            s@ == old(s)@ + v@.take(i as int),
        decreases v@.len() - i,
    {
        push_char(s, v[i]);
        assert(v@.take(i + 1) =~= v@.take(i as int).push(v@[i as int]));
        i = i + 1;
    }
    assert(v@.take(v@.len() as int) =~= v@);
}

/// `s` occurs in `t` as a contiguous run of characters.
pub open spec fn is_infix(s: Seq<char>, t: Seq<char>) -> bool {
    exists|i: int| 0 <= i && i + s.len() <= t.len() && #[trigger] t.subrange(i, i + s.len()) == s
}

/// `i` is the position of the last `.` in `s`.
pub open spec fn is_last_dot(s: Seq<char>, i: int) -> bool {
    &&& 0 <= i < s.len()
    &&& s[i] == '.'
    &&& forall|j: int| i < j < s.len() ==> s[j] != '.'
}

/// A path that is a bare file name on every platform: not empty, without
/// `/`, `\` or `:`, and neither `.` nor `..`.
pub open spec fn is_plain_name(s: Seq<char>) -> bool {
    &&& s.len() > 0
    &&& !s.contains('/')
    &&& !s.contains('\\')
    &&& !s.contains(':')
    &&& s != seq!['.']
    &&& s != seq!['.', '.']
}

/// `s` is a directory `d`, a `/`, and a plain name `p`, where `d` holds no
/// `\\` or `:` and `s` does not begin with `//`: a path, relative or
/// absolute, that every platform splits at its last `/`, so that its file
/// name is `p`.
pub open spec fn dir_and_name(s: Seq<char>, d: Seq<char>, p: Seq<char>) -> bool {
    &&& s == d.push('/') + p
    &&& !d.contains('\\')
    &&& !d.contains(':')
    &&& !(s.len() >= 2 && s[0] == '/' && s[1] == '/')
    &&& is_plain_name(p)
}

/// `s` names no file on any platform: it holds no `\\`, does not begin with
/// `//`, and is the root `/`, `.`, `..`, or a path ending in `/..`.
pub open spec fn names_no_file(s: Seq<char>) -> bool {
    &&& !s.contains('\\')
    &&& !(s.len() >= 2 && s[0] == '/' && s[1] == '/')
    &&& {
        ||| s == seq!['/']
        ||| s == seq!['.']
        ||| s == seq!['.', '.']
        ||| (s.len() >= 3 && s.skip(s.len() - 3) == seq!['/', '.', '.'])
    }
}

/// Any path built from a directory `d` without `\\` or `:`, a `/`, and a plain
/// name `p` splits as `d` and `p`, unless it begins with `//`; in particular
/// absolute paths `/dir/.../name` do.
pub proof fn law_dir_and_name(d: Seq<char>, p: Seq<char>)
    requires
        !d.contains('\\'),
        !d.contains(':'),
        is_plain_name(p),
        !(d.len() >= 1 && d[0] == '/' && (d.len() == 1 || d[1] == '/')),
    ensures
        dir_and_name(d.push('/') + p, d, p),
{
    let s = d.push('/') + p;
    if d.len() == 0 {
        assert(s[0] == '/');
        assert(s[1] == p[0]);
        assert(p.contains(p[0]));
    } else if d.len() >= 2 {
        assert(s[0] == d[0] && s[1] == d[1]);
    } else {
        assert(s[0] == d[0]);
    }
}

/// The file stem of a plain name: the name cut at its last `.`, unless there
/// is none or it is the first character, in which case the whole name.
pub open spec fn plain_stem(s: Seq<char>) -> Seq<char> {
    if exists|i: int| is_last_dot(s, i) {
        let i = choose|i: int| is_last_dot(s, i);
        if i == 0 {
            s
        } else {
            s.take(i)
        }
    } else {
        s
    }
}

/// `Path::file_stem` on `input`, as text: the file name of the path's last
/// component without its final extension, or `None` when the path has no
/// file name. How a path splits into components depends on the platform, so
/// the contract claims only what holds on every platform: an empty path, a
/// root, `.`, `..` and a path ending in `/..` have no stem (`names_no_file`);
/// a plain name is its own file name, whose stem is `plain_stem`;
/// a plain name after a directory of `/`-separated parts (`dir_and_name`)
/// is the file name too; and any stem is a piece of `input`. For other
/// paths it leaves open which piece, or whether there is one.
#[verifier::external_body]
fn file_stem(input: &str) -> (stem: Option<String>)
    ensures
        input@.len() == 0 ==> opt_view(stem) == None::<Seq<char>>,
        names_no_file(input@) ==> opt_view(stem) == None::<Seq<char>>,
        is_plain_name(input@) ==> opt_view(stem) == Some(plain_stem(input@)),
        forall|d: Seq<char>, p: Seq<char>| #[trigger] dir_and_name(input@, d, p) ==> opt_view(stem) == Some(plain_stem(p)),
        stem matches Some(s) ==> is_infix(s@, input@),
{
    match std::path::Path::new(input).file_stem() {
        Some(s) => s.to_str().map(String::from),
        None => None,
    }
}

impl Converter {
    /// Settings from their parts; this never fails.
    pub fn new(
        ext: &str,
        v_encoder_name: &str,
        a_encoder_name: &str,
        v_opts: Options,
        a_opts: Options,
        v_filters: Option<&str>,
        a_filters: Option<&str>,
    ) -> (r: Result<Converter, TranscoderError>)
        ensures
            r matches Ok(c) && c@ == (ConverterView {
                ext: ext@,
                v_encoder_name: v_encoder_name@,
                a_encoder_name: a_encoder_name@,
                v_opts: v_opts@,
                a_opts: a_opts@,
                v_filters: opt_str_view(v_filters),
                a_filters: opt_str_view(a_filters),
            }),
    {
        Ok(Converter {
            ext: ext.to_owned(),
            v_encoder_name: v_encoder_name.to_owned(),
            a_encoder_name: a_encoder_name.to_owned(),
            v_opts,
            a_opts,
            v_filters: owned_opt(v_filters),
            a_filters: owned_opt(a_filters),
        })
    }

    /// Replaces the video encoder options by those of `opts`; on a malformed
    /// option string nothing changes.
    pub fn set_v_opts(&mut self, opts: &str) -> (r: Result<(), TranscoderError>)
        requires
            free_of_nul(assigned_before_error(opts@)),
        ensures
            match spec_parse_opts(opts@) {
                Ok(pairs) => r is Ok && final(self)@ == (ConverterView { v_opts: pairs, ..old(self)@ }),
                Err(bad) => r matches Err(TranscoderError::OptionParseError { part }) && part@ == bad
                    && final(self)@ == old(self)@,
            },
    {
        let (pairs, bad) = scan_opts(opts);
        match bad {
            Some(part) => Err(TranscoderError::OptionParseError { part }),
            None => {
                self.v_opts = pairs;
                Ok(())
            },
        }
    }

    /// Replaces the audio encoder options by those of `opts`; on a malformed
    /// option string nothing changes.
    pub fn set_a_opts(&mut self, opts: &str) -> (r: Result<(), TranscoderError>)
        requires
            free_of_nul(assigned_before_error(opts@)),
        ensures
            match spec_parse_opts(opts@) {
                Ok(pairs) => r is Ok && final(self)@ == (ConverterView { a_opts: pairs, ..old(self)@ }),
                Err(bad) => r matches Err(TranscoderError::OptionParseError { part }) && part@ == bad
                    && final(self)@ == old(self)@,
            },
    {
        let (pairs, bad) = scan_opts(opts);
        match bad {
            Some(part) => Err(TranscoderError::OptionParseError { part }),
            None => {
                self.a_opts = pairs;
                Ok(())
            },
        }
    }

    /// Applies the assignments of `opts` on top of the video encoder options;
    /// on a malformed option string nothing changes.
    pub fn update_v_opts(&mut self, opts: &str) -> (r: Result<(), TranscoderError>)
        requires
            free_of_nul(assigned_before_error(opts@)),
        ensures
            match spec_parse_opts(opts@) {
                Ok(pairs) => r is Ok && final(self)@ == (ConverterView { v_opts: old(self)@.v_opts + pairs, ..old(self)@ }),
                Err(bad) => r matches Err(TranscoderError::OptionParseError { part }) && part@ == bad
                    && final(self)@ == old(self)@,
            },
    {
        let (pairs, bad) = scan_opts(opts);
        match bad {
            Some(part) => Err(TranscoderError::OptionParseError { part }),
            None => {
                Self::apply_all(&mut self.v_opts, &pairs);
                Ok(())
            },
        }
    }

    /// Applies the assignments of `opts` on top of the audio encoder options;
    /// on a malformed option string nothing changes.
    pub fn update_a_opts(&mut self, opts: &str) -> (r: Result<(), TranscoderError>)
        requires
            free_of_nul(assigned_before_error(opts@)),
        ensures
            match spec_parse_opts(opts@) {
                Ok(pairs) => r is Ok && final(self)@ == (ConverterView { a_opts: old(self)@.a_opts + pairs, ..old(self)@ }),
                Err(bad) => r matches Err(TranscoderError::OptionParseError { part }) && part@ == bad
                    && final(self)@ == old(self)@,
            },
    {
        let (pairs, bad) = scan_opts(opts);
        match bad {
            Some(part) => Err(TranscoderError::OptionParseError { part }),
            None => {
                Self::apply_all(&mut self.a_opts, &pairs);
                Ok(())
            },
        }
    }

    fn apply_all(target: &mut Options, pairs: &Options)
        ensures
            final(target)@ == old(target)@ + pairs@,
    {
        let n = pairs.len();
        let mut i: usize = 0;
        while i < n
            invariant
                n == pairs@.len(),
                i <= n,
                target@ == old(target)@ + pairs@.take(i as int),
            decreases n - i,
        {
            target.set(pairs.key(i), pairs.value(i));
            assert(pairs@.take(i + 1) =~= pairs@.take(i as int).push(pairs@[i as int]));
            i = i + 1;
        }
        assert(pairs@.take(n as int) =~= pairs@);
    }

    /// The output file name for an input whose file stem is `stem`, or
    /// `NotAFileError` naming `input` when it has none.
    pub fn output_name(&self, stem: Option<String>, input: &str) -> (r: Result<String, TranscoderError>)
        ensures
            match stem {
                Some(s) => r matches Ok(o) && o@ == output_name_for(s@, self@.ext),
                None => r matches Err(TranscoderError::NotAFileError { path }) && path@ == input@,
            },
    {
        match stem {
            Some(s) => {
                let mut o = s;
                push_char(&mut o, '.');
                append_str(&mut o, self.ext.as_str());
                Ok(o)
            },
            None => Err(TranscoderError::NotAFileError { path: input.to_owned() }),
        }
    }

    /// The file that converting `input` writes: the input's file stem with the
    /// configured extension, placed in the working directory. An empty input,
    /// a root, `.`, `..` and a path ending in `/..` name no file; a plain name, alone or after `/`-separated directories,
    /// always has a stem.
    pub fn output_path(&self, input: &str) -> (r: Result<String, TranscoderError>)
        ensures
            match r {
                Ok(o) => exists|stem: Seq<char>| {
                    &&& is_infix(stem, input@)
                    &&& o@ == output_name_for(stem, self@.ext)
                },
                Err(e) => e matches TranscoderError::NotAFileError { path } && path@ == input@,
            },
            input@.len() == 0 ==> r is Err,
            names_no_file(input@) ==> (r matches Err(TranscoderError::NotAFileError { path }) && path@ == input@),
            is_plain_name(input@) ==> (r matches Ok(o) && o@ == output_name_for(plain_stem(input@), self@.ext)),
            forall|d: Seq<char>, p: Seq<char>| #[trigger] dir_and_name(input@, d, p)
                ==> (r matches Ok(o) && o@ == output_name_for(plain_stem(p), self@.ext)),
    {
        let stem = file_stem(input);
        let ghost g = opt_view(stem);
        let r = self.output_name(stem, input);
        proof {
            if let Some(s) = g {
                assert(is_infix(s, input@));
            }
        }
        r
    }

    /// The output file extension.
    pub fn ext(&self) -> (s: &str)
        ensures
            s@ == self@.ext,
    {
        self.ext.as_str()
    }

    /// The name of the video encoder.
    pub fn v_encoder_name(&self) -> (s: &str)
        ensures
            s@ == self@.v_encoder_name,
    {
        self.v_encoder_name.as_str()
    }

    /// The name of the audio encoder.
    pub fn a_encoder_name(&self) -> (s: &str)
        ensures
            s@ == self@.a_encoder_name,
    {
        self.a_encoder_name.as_str()
    }

    /// The video encoder options.
    pub fn v_opts(&self) -> (o: &Options)
        ensures
            o@ == self@.v_opts,
    {
        &self.v_opts
    }

    /// The audio encoder options.
    pub fn a_opts(&self) -> (o: &Options)
        ensures
            o@ == self@.a_opts,
    {
        &self.a_opts
    }
    /// The video filter description, if any.
    pub fn v_filters(&self) -> (f: Option<&str>)
        ensures
            opt_str_view(f) == self@.v_filters,
    {
        match &self.v_filters {
            Some(s) => Some(s.as_str()),
            None => None,
        }
    }

    /// The audio filter description, if any.
    pub fn a_filters(&self) -> (f: Option<&str>)
        ensures
            opt_str_view(f) == self@.a_filters,
    {
        match &self.a_filters {
            Some(s) => Some(s.as_str()),
            None => None,
        }
    }
}

/// Updating options twice, with `a` and then with `b`, leaves the same
/// assignments as updating them once with `a` and `b` joined by a comma.
pub proof fn law_updates_compose(opts: Seq<(Seq<char>, Seq<char>)>, a: Seq<char>, b: Seq<char>)
    requires
        spec_parse_opts(a) is Ok,
        spec_parse_opts(b) is Ok,
    ensures
        match (spec_parse_opts(a), spec_parse_opts(b), spec_parse_opts(a.push(',') + b)) {
            (Ok(pa), Ok(pb), Ok(pab)) => (opts + pa) + pb == opts + pab,
            _ => false,
        },
{
    law_parse_joined(a, b);
    let pa = spec_parse_opts(a)->Ok_0;
    let pb = spec_parse_opts(b)->Ok_0;
    assert((opts + pa) + pb =~= opts + (pa + pb));
}

/// Updating options twice with the same string leaves the same FFmpeg
/// dictionary as updating them once.
pub proof fn law_repeated_update_is_idempotent(opts: Seq<(Seq<char>, Seq<char>)>, s: Seq<char>)
    requires
        spec_parse_opts(s) is Ok,
    ensures
        dictionary_of(opts + spec_parse_opts(s)->Ok_0 + spec_parse_opts(s)->Ok_0)
            == dictionary_of(opts + spec_parse_opts(s)->Ok_0),
{
    law_reapply_is_idempotent(opts, spec_parse_opts(s)->Ok_0);
}

} // verus!
