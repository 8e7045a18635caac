//! zstd frames: the section table and the file contents are stored in them.

use std::io::{Read, Write};
use vstd::prelude::*;

verus! {

/// What decoding the zstd frame `data` with `dictionary` yields: `None`
/// where the frame is not valid. An empty dictionary stands for none.
pub uninterp spec fn zstd_decoded(dictionary: Seq<u8>, data: Seq<u8>) -> Option<Seq<u8>>;

/// The zstd frame that encoding `data` at `level` with `dictionary` yields.
pub uninterp spec fn zstd_encoded(level: i32, dictionary: Seq<u8>, data: Seq<u8>) -> Option<
    Seq<u8>,
>;

/// Relies on zstd's `stream::read::Decoder::with_dictionary` read to the
/// end (with an empty dictionary it is the plain decoder).
#[verifier::external_body]
pub(crate) fn decode_frame(dictionary: &[u8], data: &[u8]) -> (r: Option<Vec<u8>>)
    ensures
        r matches Some(v) ==> zstd_decoded(dictionary@, data@) == Some(v@),
        r is None ==> zstd_decoded(dictionary@, data@) is None,
{
    let mut out = Vec::new();
    let mut decoder = zstd::stream::read::Decoder::with_dictionary(data, dictionary).ok()?;
    decoder.read_to_end(&mut out).ok()?;
    Some(out)
}

/// Relies on zstd's `stream::write::Encoder::with_dictionary`: `data` is
/// written and the encoder finished; its frame decodes to `data` again
/// with the same dictionary.
#[verifier::external_body]
pub(crate) fn encode_frame(level: i32, dictionary: &[u8], data: &[u8]) -> (r: Option<Vec<u8>>)
    ensures
        r matches Some(v) ==> zstd_encoded(level, dictionary@, data@) == Some(v@),
        r matches Some(v) ==> zstd_decoded(dictionary@, v@) == Some(data@),
        r is None ==> zstd_encoded(level, dictionary@, data@) is None,
{
    let mut encoder = zstd::stream::write::Encoder::with_dictionary(Vec::new(), level, dictionary).ok()?;
    encoder.write_all(data).ok()?;
    encoder.finish().ok()
}

} // verus!
