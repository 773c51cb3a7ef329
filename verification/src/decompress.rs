//! The decompression transforms, taken as black-box functions from a byte
//! stream to a byte stream.

use vstd::prelude::*;

verus! {

/// What gzip decompression yields on `s`: the decoded bytes, or nothing
/// when `s` is not a well-formed gzip stream.
pub uninterp spec fn gunzip_of(s: Seq<u8>) -> Option<Seq<u8>>;

/// What xz decompression yields on `s` (all streams concatenated), or
/// nothing when `s` is not well-formed xz.
pub uninterp spec fn unxz_of(s: Seq<u8>) -> Option<Seq<u8>>;

/// What bzip2 decompression yields on `s`, or nothing when `s` is not a
/// well-formed bzip2 stream.
pub uninterp spec fn unbz2_of(s: Seq<u8>) -> Option<Seq<u8>>;

/// What zstd decompression yields on `s`, or nothing when `s` is not a
/// well-formed zstd stream.
pub uninterp spec fn unzstd_of(s: Seq<u8>) -> Option<Seq<u8>>;

/// Relies on `flate2::read::GzDecoder`: gzip decompression of in-memory
/// bytes is a function of those bytes alone.
#[verifier::external_body]
pub(crate) fn gunzip(data: &[u8]) -> (r: Result<Vec<u8>, std::io::Error>)
    ensures
        r is Ok <==> gunzip_of(data@) is Some,
        r is Ok ==> r->Ok_0@ == gunzip_of(data@)->Some_0,
{
    let mut out = Vec::new();
    let mut dec = flate2::read::GzDecoder::new(data);
    match std::io::Read::read_to_end(&mut dec, &mut out) {
        Ok(_) => Ok(out),
        Err(e) => Err(e),
    }
}

/// Relies on `xz2::read::XzDecoder::new_multi_decoder`: xz decompression of
/// in-memory bytes is a function of those bytes alone.
#[verifier::external_body]
pub(crate) fn unxz(data: &[u8]) -> (r: Result<Vec<u8>, std::io::Error>)
    ensures
        r is Ok <==> unxz_of(data@) is Some,
        r is Ok ==> r->Ok_0@ == unxz_of(data@)->Some_0,
{
    let mut out = Vec::new();
    let mut dec = xz2::read::XzDecoder::new_multi_decoder(data);
    match std::io::Read::read_to_end(&mut dec, &mut out) {
        Ok(_) => Ok(out),
        Err(e) => Err(e),
    }
}

/// Relies on `bzip2::read::BzDecoder`: bzip2 decompression of in-memory
/// bytes is a function of those bytes alone.
#[verifier::external_body]
pub(crate) fn unbz2(data: &[u8]) -> (r: Result<Vec<u8>, std::io::Error>)
    ensures
        r is Ok <==> unbz2_of(data@) is Some,
        r is Ok ==> r->Ok_0@ == unbz2_of(data@)->Some_0,
{
    let mut out = Vec::new();
    let mut dec = bzip2::read::BzDecoder::new(data);
    match std::io::Read::read_to_end(&mut dec, &mut out) {
        Ok(_) => Ok(out),
        Err(e) => Err(e),
    }
}

/// Relies on `zstd::stream::read::Decoder`: zstd decompression of in-memory
/// bytes is a function of those bytes alone.
#[verifier::external_body]
pub(crate) fn unzstd(data: &[u8]) -> (r: Result<Vec<u8>, std::io::Error>)
    ensures
        r is Ok <==> unzstd_of(data@) is Some,
        r is Ok ==> r->Ok_0@ == unzstd_of(data@)->Some_0,
{
    let mut out = Vec::new();
    let mut dec = zstd::stream::read::Decoder::new(data)?;
    match std::io::Read::read_to_end(&mut dec, &mut out) {
        Ok(_) => Ok(out),
        Err(e) => Err(e),
    }
}

} // verus!
