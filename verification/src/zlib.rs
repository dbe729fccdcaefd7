use vstd::prelude::*;

verus! {

/// The error type of the standard library's readers and writers, through
/// which the compressor reports a stream that it cannot read.
#[verifier::external_type_specification]
#[verifier::external_body]
pub struct ExIoError(std::io::Error);

/// The zlib stream that the compressor makes of `data` at `level`, or
/// `None` where it reports an error.
pub uninterp spec fn zlib_deflated(data: Seq<u8>, level: u32) -> Option<Seq<u8>>;

/// The bytes that the decompressor gets out of the zlib stream `data`, or
/// `None` where it reports an error.
pub uninterp spec fn zlib_inflated(data: Seq<u8>) -> Option<Seq<u8>>;

/// Runs `flate2::write::ZlibEncoder` over `data`: a new encoder at
/// `Compression::new(level)` that writes into an empty vector, one
/// `write_all` and `finish`. The result is named, not described.
#[verifier::external_body]
pub(crate) fn deflate(data: &[u8], level: u32) -> (res: Result<Vec<u8>, std::io::Error>)
    requires
        level <= 9,
    ensures
        res matches Ok(v) ==> zlib_deflated(data@, level) == Some(v@),
        res is Err ==> zlib_deflated(data@, level) is None,
{
    let mut encoder = flate2::write::ZlibEncoder::new(Vec::new(), flate2::Compression::new(level));
    std::io::Write::write_all(&mut encoder, data)?;
    encoder.finish()
}

/// Runs `flate2::read::ZlibDecoder` over `data` and reads it to its end.
/// The result is named, not described.
#[verifier::external_body]
pub(crate) fn inflate(data: &[u8]) -> (res: Result<Vec<u8>, std::io::Error>)
    ensures
        res matches Ok(v) ==> zlib_inflated(data@) == Some(v@),
        res is Err ==> zlib_inflated(data@) is None,
{
    let mut decoder = flate2::read::ZlibDecoder::new(data);
    let mut out = Vec::new();
    std::io::Read::read_to_end(&mut decoder, &mut out)?;
    Ok(out)
}

} // verus!
