//! Converting media files with FFmpeg: the option-string grammar, the
//! conversion settings, and the plan that decides, stream by stream and
//! packet by packet, what a conversion does.
use vstd::prelude::*;

pub mod convert;
pub mod error;
pub mod options;
pub mod streams;
pub mod text;
pub mod transcode;

pub use convert::Converter;
pub use error::TranscoderError;
pub use options::Options;
pub use transcode::AudioTranscoder;

use crate::options::{assigned_before_error, free_of_nul, scan_opts, spec_parse_opts};
use crate::text::has_nul;

verus! {

/// Parses an option string `key=value,key=value,...` into the assignments it
/// stands for, one per comma-separated part. Each part is trimmed of white
/// space and split at its first `=`; key and value are not trimmed further.
/// The first part without `=` is reported as `OptionParseError`.
///
/// A NUL character in a key or value read before that part cannot be handed
/// to FFmpeg; such strings are outside the domain.
pub fn parse_opts(opts: &str) -> (r: Result<Options, TranscoderError>)
    requires
        free_of_nul(assigned_before_error(opts@)),
    ensures
        match spec_parse_opts(opts@) {
            Ok(pairs) => r matches Ok(o) && o@ == pairs,
            Err(bad) => r matches Err(TranscoderError::OptionParseError { part }) && part@ == bad,
        },
{
    let (pairs, bad) = scan_opts(opts);
    match bad {
        Some(part) => Err(TranscoderError::OptionParseError { part }),
        None => Ok(pairs),
    }
}

/// Whether reading `opts` would hand a key or value holding a NUL character
/// to FFmpeg, which `parse_opts` cannot do.
pub fn opts_assign_nul(opts: &str) -> (b: bool)
    ensures
        b == !free_of_nul(assigned_before_error(opts@)),
{
    let (pairs, _bad) = scan_opts(opts);
    let n = pairs.len();
    let mut i: usize = 0;
    while i < n
        invariant
            n == pairs@.len(),
            pairs@ == assigned_before_error(opts@),
            i <= n,
            forall|j: int| 0 <= j < i ==> !(#[trigger] pairs@[j]).0.contains('\0') && !pairs@[j].1.contains('\0'),
        decreases n - i,
    {
        if has_nul(pairs.key(i)) || has_nul(pairs.value(i)) {
            return true;
        }
        i = i + 1;
    }
    false
}

} // verus!
