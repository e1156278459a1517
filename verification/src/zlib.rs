//! The zlib stream compressor of the `flate2` crate, as the codec sees it.

use vstd::prelude::*;

verus! {

/// The error of std's readers and writers, carried through unopened.
#[verifier::external_type_specification]
#[verifier::external_body]
pub struct ExIoError(std::io::Error);

/// What `flate2`'s zlib encoder, at its default level, makes of `data`:
/// the compressed stream, or `None` where the encoder reports an error.
pub uninterp spec fn zlib_compressed(data: Seq<u8>) -> Option<Seq<u8>>;

/// What `flate2`'s zlib decoder reads out of `data`: the bytes of the first
/// zlib stream in it, or `None` where the decoder reports an error.
pub uninterp spec fn zlib_decompressed(data: Seq<u8>) -> Option<Seq<u8>>;

/// Compresses `data` with `flate2::write::ZlibEncoder` at
/// `Compression::default()`, writing into a vector.
///
/// Not proved: that the stream returned is the one named by
/// `zlib_compressed`, and that an error is returned only where that name
/// holds none. Nothing is claimed of what the stream holds.
#[verifier::external_body]
pub(crate) fn deflate(data: &[u8]) -> (res: Result<Vec<u8>, std::io::Error>)
    ensures
        match res {
            Ok(stream) => zlib_compressed(data@) == Some(stream@),
            Err(_) => zlib_compressed(data@) is None,
        },
{
    let mut encoder = flate2::write::ZlibEncoder::new(Vec::new(), flate2::Compression::default());
    std::io::Write::write_all(&mut encoder, data)?;
    encoder.finish()
}

/// Decompresses `data` with `flate2::read::ZlibDecoder`, reading to the end
/// of the stream.
///
/// Not proved: that the bytes returned are those named by
/// `zlib_decompressed`, and that an error is returned only where that name
/// holds none.
#[verifier::external_body]
pub(crate) fn inflate(data: &[u8]) -> (res: Result<Vec<u8>, std::io::Error>)
    ensures
        match res {
            Ok(raw) => zlib_decompressed(data@) == Some(raw@),
            Err(_) => zlib_decompressed(data@) is None,
        },
{
    let mut decoder = flate2::read::ZlibDecoder::new(data);
    let mut raw = Vec::new();
    std::io::Read::read_to_end(&mut decoder, &mut raw)?;
    Ok(raw)
}

} // verus!
