//! The object codec: an envelope compressed for storage, and back.

use crate::envelope::{
    bytes_eq, envelope_bytes, envelope_of, frame, lemma_envelope_round_trip, unframe, unframed,
    EnvelopeView, ObjectEnvelope, ObjectKind,
};
use crate::error::ObjectError;
use crate::zlib::{deflate, inflate, zlib_compressed, zlib_decompressed};
use vstd::prelude::*;

verus! {

/// What stored bytes decode to: they decompress to the bytes of an
/// envelope, or they are malformed.
pub open spec fn decoded(stored: Seq<u8>) -> Result<EnvelopeView, ObjectError> {
    match zlib_decompressed(stored) {
        None => Err(ObjectError::MalformedEnvelope),
        Some(raw) => match unframed(raw) {
            None => Err(ObjectError::MalformedEnvelope),
            Some(envelope) => Ok(envelope),
        },
    }
}

/// The stream that the compressor makes of `data`, where it makes one and
/// the decompressor reads `data` back out of it.
pub open spec fn compressed(data: Seq<u8>) -> Option<Seq<u8>> {
    match zlib_compressed(data) {
        None => None,
        Some(stream) => if zlib_decompressed(stream) == Some(data) {
            Some(stream)
        } else {
            None
        },
    }
}

/// What a typed payload is stored as: its envelope, compressed.
pub open spec fn encoded(kind: ObjectKind, payload: Seq<u8>) -> Result<Seq<u8>, ObjectError> {
    match compressed(envelope_bytes(kind, payload)) {
        None => Err(ObjectError::CompressionFailed),
        Some(stream) => Ok(stream),
    }
}

/// The view of an envelope, or the error met in place of one.
pub open spec fn envelope_result_view(res: Result<ObjectEnvelope, ObjectError>) -> Result<
    EnvelopeView,
    ObjectError,
> {
    match res {
        Ok(envelope) => Ok(envelope@),
        Err(e) => Err(e),
    }
}

/// The view of bytes, or the error met in place of them.
pub open spec fn bytes_result_view(res: Result<Vec<u8>, ObjectError>) -> Result<
    Seq<u8>,
    ObjectError,
> {
    match res {
        Ok(bytes) => Ok(bytes@),
        Err(e) => Err(e),
    }
}

/// What `compress` makes of the compressor's answer: its stream, or
/// `CompressionFailed` in place of its error.
pub fn stream_or_error(answer: Result<Vec<u8>, std::io::Error>) -> (res: Result<
    Vec<u8>,
    ObjectError,
>)
    ensures
        match answer {
            Ok(stream) => res == Ok::<Vec<u8>, ObjectError>(stream),
            Err(_) => res == Err::<Vec<u8>, ObjectError>(ObjectError::CompressionFailed),
        },
{
    match answer {
        Ok(stream) => Ok(stream),
        Err(_) => Err(ObjectError::CompressionFailed),
    }
}

/// What `decode_reader_raw` makes of the decompressor's answer: its bytes, or
/// `MalformedEnvelope` in place of its error.
pub fn raw_or_error(answer: Result<Vec<u8>, std::io::Error>) -> (res: Result<
    Vec<u8>,
    ObjectError,
>)
    ensures
        match answer {
            Ok(raw) => res == Ok::<Vec<u8>, ObjectError>(raw),
            Err(_) => res == Err::<Vec<u8>, ObjectError>(ObjectError::MalformedEnvelope),
        },
{
    match answer {
        Ok(raw) => Ok(raw),
        Err(_) => Err(ObjectError::MalformedEnvelope),
    }
}

/// What `compress` makes of a stream once it was read back: the stream,
/// where reading it gave `data`, and else `CompressionFailed`.
pub fn stream_if_read_back(
    data: &[u8],
    stream: Vec<u8>,
    read_back: Result<Vec<u8>, std::io::Error>,
) -> (res: Result<Vec<u8>, ObjectError>)
    ensures
        match read_back {
            Ok(raw) if raw@ == data@ => res == Ok::<Vec<u8>, ObjectError>(stream),
            _ => res == Err::<Vec<u8>, ObjectError>(ObjectError::CompressionFailed),
        },
{
    match read_back {
        Ok(raw) => {
            if bytes_eq(raw.as_slice(), data) {
                Ok(stream)
            } else {
                Err(ObjectError::CompressionFailed)
            }
        },
        Err(_) => Err(ObjectError::CompressionFailed),
    }
}

/// Compresses `data` into a zlib stream at the default level, and reads the
/// stream back before handing it out: a stream that is returned decompresses
/// to `data`.
pub fn compress(data: &[u8]) -> (res: Result<Vec<u8>, ObjectError>)
    ensures
        match res {
            Ok(stream) => compressed(data@) == Some(stream@),
            Err(e) => e == ObjectError::CompressionFailed && compressed(data@) is None,
        },
        res matches Ok(stream) ==> zlib_decompressed(stream@) == Some(data@),
{
    match stream_or_error(deflate(data)) {
        Ok(stream) => {
            let read_back = inflate(stream.as_slice());
            stream_if_read_back(data, stream, read_back)
        },
        Err(e) => Err(e),
    }
}

/// Decompresses the zlib stream in `stored`.
pub fn decode_reader_raw(stored: &[u8]) -> (res: Result<Vec<u8>, ObjectError>)
    ensures
        match res {
            Ok(raw) => zlib_decompressed(stored@) == Some(raw@),
            Err(e) => e == ObjectError::MalformedEnvelope && zlib_decompressed(stored@) is None,
        },
{
    raw_or_error(inflate(stored))
}

/// The text that std's `String::from_utf8` makes of `bytes`, `None` where
/// it refuses them as no UTF-8.
pub uninterp spec fn utf8_text(bytes: Seq<u8>) -> Option<Seq<char>>;

/// Turns bytes into text with `String::from_utf8`.
///
/// Not proved: that the text returned is the one named by `utf8_text`, and
/// that none is returned only where that name holds none.
#[verifier::external_body]
pub(crate) fn text_of(bytes: Vec<u8>) -> (text: Option<String>)
    ensures
        match text {
            Some(t) => utf8_text(bytes@) == Some(t@),
            None => utf8_text(bytes@) is None,
        },
{
    String::from_utf8(bytes).ok()
}

/// What `decode_reader` makes of stored bytes: the text of what they
/// decompress to, or `MalformedEnvelope` where they do not decompress or
/// what comes out is no text.
pub open spec fn decoded_text(stored: Seq<u8>) -> Result<Seq<char>, ObjectError> {
    match zlib_decompressed(stored) {
        None => Err(ObjectError::MalformedEnvelope),
        Some(raw) => match utf8_text(raw) {
            None => Err(ObjectError::MalformedEnvelope),
            Some(text) => Ok(text),
        },
    }
}

/// The view of text, or the error met in place of it.
pub open spec fn text_result_view(res: Result<String, ObjectError>) -> Result<
    Seq<char>,
    ObjectError,
> {
    match res {
        Ok(text) => Ok(text@),
        Err(e) => Err(e),
    }
}

/// Decompresses the zlib stream in `stored` into text.
pub fn decode_reader(stored: &[u8]) -> (res: Result<String, ObjectError>)
    ensures
        text_result_view(res) == decoded_text(stored@),
{
    match decode_reader_raw(stored) {
        Ok(raw) => match text_of(raw) {
            Some(text) => Ok(text),
            None => Err(ObjectError::MalformedEnvelope),
        },
        Err(e) => Err(e),
    }
}

/// Encodes a typed payload for storage: writes its envelope and compresses
/// it. What is returned decodes to the kind and the payload given.
pub fn encode(kind: ObjectKind, payload: &[u8]) -> (res: Result<Vec<u8>, ObjectError>)
    ensures
        bytes_result_view(res) == encoded(kind, payload@),
        res matches Ok(stored) ==> decoded(stored@) == Ok::<EnvelopeView, ObjectError>(
            envelope_of(kind, payload@),
        ),
{
    let raw = frame(kind, payload);
    proof {
        lemma_envelope_round_trip(kind, payload@);
    }
    compress(raw.as_slice())
}

/// Decodes stored bytes: decompresses them and reads the envelope.
pub fn decode(stored: &[u8]) -> (res: Result<ObjectEnvelope, ObjectError>)
    ensures
        envelope_result_view(res) == decoded(stored@),
{
    match decode_reader_raw(stored) {
        Ok(raw) => unframe(raw.as_slice()),
        Err(e) => Err(e),
    }
}

/// Encodes the content of a file as a blob for storage.
pub fn compress_object_blob(file_content: &[u8]) -> (res: Result<Vec<u8>, ObjectError>)
    ensures
        bytes_result_view(res) == encoded(ObjectKind::Blob, file_content@),
        res matches Ok(stored) ==> decoded(stored@) == Ok::<EnvelopeView, ObjectError>(
            envelope_of(ObjectKind::Blob, file_content@),
        ),
{
    encode(ObjectKind::Blob, file_content)
}

} // verus!
