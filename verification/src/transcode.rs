//! The audio transcoder.
use vstd::prelude::*;

verus! {

/// The audio transcoder. It holds no state: conversions copy audio streams
/// rather than transcode them, so none is ever put to work.
#[derive(Debug, Clone, Copy)]
pub struct AudioTranscoder {}

} // verus!
