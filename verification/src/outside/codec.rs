//! The `zstd` and `xz2` crates: the two codecs a payload is compressed with.

use vstd::prelude::*;

verus! {

/// What `zstd::stream::copy_decode` writes for the given input: the
/// decompressed bytes, or nothing where it reports an error.
pub uninterp spec fn zstd_decoded(data: Seq<u8>) -> Option<Seq<u8>>;

/// What `zstd::stream::copy_encode` writes for the given input at the given
/// level: the compressed bytes, or nothing where it reports an error.
pub uninterp spec fn zstd_encoded(data: Seq<u8>, level: i32) -> Option<Seq<u8>>;

/// What an `xz2::read::XzDecoder` over the given input yields when read to its
/// end: the decompressed bytes, or nothing where it reports an error.
pub uninterp spec fn xz_decoded(data: Seq<u8>) -> Option<Seq<u8>>;

/// What an `xz2::write::XzEncoder` of the given level has written when all of
/// the given input went through it and it was finished: the compressed bytes, or
/// nothing where it reports an error.
pub uninterp spec fn xz_encoded(data: Seq<u8>, level: u32) -> Option<Seq<u8>>;

/// `zstd::stream::copy_decode` from a slice into an empty vector.
#[verifier::external_body]
pub(crate) fn zstd_decode(data: &[u8]) -> (done: Result<Vec<u8>, std::io::Error>)
    ensures
        match done {
            Ok(plain) => zstd_decoded(data@) == Some(plain@),
            Err(_) => zstd_decoded(data@) is None,
        },
{
    let mut plain = Vec::new();
    zstd::stream::copy_decode(data, &mut plain)?;
    Ok(plain)
}

/// `zstd::stream::copy_encode` from a slice into an empty vector.
#[verifier::external_body]
pub(crate) fn zstd_encode(data: &[u8], level: i32) -> (done: Result<Vec<u8>, std::io::Error>)
    ensures
        match done {
            Ok(packed) => zstd_encoded(data@, level) == Some(packed@),
            Err(_) => zstd_encoded(data@, level) is None,
        },
{
    let mut packed = Vec::new();
    zstd::stream::copy_encode(data, &mut packed, level)?;
    Ok(packed)
}

/// `xz2::read::XzDecoder::new` over a slice, read to its end.
#[verifier::external_body]
pub(crate) fn xz_decode(data: &[u8]) -> (done: Result<Vec<u8>, std::io::Error>)
    ensures
        match done {
            Ok(plain) => xz_decoded(data@) == Some(plain@),
            Err(_) => xz_decoded(data@) is None,
        },
{
    let mut plain = Vec::new();
    std::io::Read::read_to_end(&mut xz2::read::XzDecoder::new(data), &mut plain)?;
    Ok(plain)
}

/// `xz2::write::XzEncoder::new` over an empty vector, `write_all` of the input
/// and `finish`. The encoder takes the presets 0 to 9 and panics on others.
#[verifier::external_body]
pub(crate) fn xz_encode(data: &[u8], level: u32) -> (done: Result<Vec<u8>, std::io::Error>)
    requires
        level <= 9,
    ensures
        match done {
            Ok(packed) => xz_encoded(data@, level) == Some(packed@),
            Err(_) => xz_encoded(data@, level) is None,
        },
{
    let mut encoder = xz2::write::XzEncoder::new(Vec::new(), level);
    std::io::Write::write_all(&mut encoder, data)?;
    encoder.finish()
}

} // verus!
