use vstd::prelude::*;
use std::io::Read;

verus! {

/// What bzip2 decompression yields for a byte sequence: `Some` with the
/// decompressed bytes of the leading stream, or `None` when the stream is
/// malformed. Decompression is deterministic in the input bytes alone.
pub uninterp spec fn bz_inflate(data: Seq<u8>) -> Option<Seq<u8>>;

/// What xz decompression yields for a byte sequence: `Some` with the
/// decompressed bytes of the leading stream, or `None` when the stream is
/// malformed. Decompression is deterministic in the input bytes alone.
pub uninterp spec fn xz_inflate(data: Seq<u8>) -> Option<Seq<u8>>;

/// Relies on bzip2::read::BzDecoder over an in-memory slice: reading to the
/// end yields the decompressed stream, or fails on malformed input; the
/// outcome depends on the input bytes alone.
#[verifier::external_body]
pub(crate) fn bz_decompress(data: &[u8]) -> (r: Option<Vec<u8>>)
    ensures
        r is Some <==> bz_inflate(data@) is Some,
        r is Some ==> r.unwrap()@ == bz_inflate(data@).unwrap(),
{
    let mut decoder = bzip2::read::BzDecoder::new(data);
    let mut out = Vec::new();
    match decoder.read_to_end(&mut out) {
        Ok(_) => Some(out),
        Err(_) => None,
    }
}

/// Relies on xz2::read::XzDecoder over an in-memory slice: reading to the
/// end yields the decompressed stream, or fails on malformed input; the
/// outcome depends on the input bytes alone.
#[verifier::external_body]
pub(crate) fn xz_decompress(data: &[u8]) -> (r: Option<Vec<u8>>)
    ensures
        r is Some <==> xz_inflate(data@) is Some,
        r is Some ==> r.unwrap()@ == xz_inflate(data@).unwrap(),
{
    let mut decoder = xz2::read::XzDecoder::new(data);
    let mut out = Vec::new();
    match decoder.read_to_end(&mut out) {
        Ok(_) => Some(out),
        Err(_) => None,
    }
}

} // verus!
