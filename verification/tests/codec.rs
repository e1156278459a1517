use objstore::codec::{
    compress, compress_object_blob, decode, decode_reader, decode_reader_raw, encode,
    raw_or_error, stream_if_read_back, stream_or_error,
};
use objstore::envelope::{ObjectEnvelope, ObjectKind};
use objstore::error::ObjectError;
use std::io::Write;

// "blob 5\0hello" as one stored deflate block in a zlib stream, written by hand.
fn stored_hello() -> Vec<u8> {
    vec![
        120, 1, 1, 12, 0, 243, 255, 98, 108, 111, 98, 32, 53, 0, 104, 101, 108, 108, 111, 25, 170,
        4, 9,
    ]
}

// "blob 5\0hello" as another zlib implementation compresses it at its default level.
fn peer_hello() -> Vec<u8> {
    vec![120, 156, 75, 202, 201, 79, 82, 48, 101, 200, 72, 205, 201, 201, 7, 0, 25, 170, 4, 9]
}

fn compressed_at(level: u32, data: &[u8]) -> Vec<u8> {
    let mut encoder = flate2::write::ZlibEncoder::new(Vec::new(), flate2::Compression::new(level));
    encoder.write_all(data).unwrap();
    encoder.finish().unwrap()
}

#[test]
fn decode_reader_raw_reads_a_hand_made_stream() {
    assert_eq!(decode_reader_raw(&stored_hello()), Ok(b"blob 5\0hello".to_vec()));
}

#[test]
fn decode_reader_raw_reads_a_peer_stream() {
    assert_eq!(decode_reader_raw(&peer_hello()), Ok(b"blob 5\0hello".to_vec()));
    let empty_tree = [120, 156, 43, 41, 74, 77, 85, 48, 96, 0, 0, 10, 44, 2, 1];
    assert_eq!(decode_reader_raw(&empty_tree), Ok(b"tree 0\0".to_vec()));
}

#[test]
fn decode_reader_raw_refuses_what_is_no_stream() {
    assert_eq!(decode_reader_raw(b""), Err(ObjectError::MalformedEnvelope));
    assert_eq!(decode_reader_raw(b"blob 5\0hello"), Err(ObjectError::MalformedEnvelope));
    assert_eq!(decode_reader_raw(&[120]), Err(ObjectError::MalformedEnvelope));
}

#[test]
fn decode_reader_raw_refuses_a_stream_cut_short() {
    let stream = stored_hello();
    assert_eq!(decode_reader_raw(&stream[..10]), Err(ObjectError::MalformedEnvelope));
}

#[test]
fn decode_reader_raw_refuses_a_wrong_checksum() {
    let mut stream = stored_hello();
    let last = stream.len() - 1;
    stream[last] ^= 1;
    assert_eq!(decode_reader_raw(&stream), Err(ObjectError::MalformedEnvelope));
}

#[test]
fn decode_reader_gives_text() {
    assert_eq!(decode_reader(&stored_hello()), Ok(String::from("blob 5\0hello")));
}

#[test]
fn decode_reader_refuses_what_is_no_text() {
    let stream = compressed_at(6, &[0x62, 0xff, 0xfe]);
    assert_eq!(decode_reader_raw(&stream), Ok(vec![0x62, 0xff, 0xfe]));
    assert_eq!(decode_reader(&stream), Err(ObjectError::MalformedEnvelope));
    assert_eq!(decode_reader(b"not a stream"), Err(ObjectError::MalformedEnvelope));
}

#[test]
fn compress_gives_a_zlib_stream_that_reads_back() {
    let data = b"blob 5\0hello";
    let stream = compress(data).unwrap();
    assert_ne!(stream, data.to_vec());
    assert_eq!(stream[0], 0x78);
    assert_eq!(decode_reader_raw(&stream), Ok(data.to_vec()));
}

#[test]
fn compress_is_the_default_level_of_the_compressor() {
    let data: Vec<u8> = (0..2000u32).map(|i| (i % 7) as u8).collect();
    assert_eq!(compress(&data), Ok(compressed_at(6, &data)));
}

#[test]
fn compress_repeats_itself() {
    let data = b"the same bytes in, the same bytes out";
    assert_eq!(compress(data), compress(data));
}

#[test]
fn compress_shrinks_what_repeats() {
    let data = vec![b'a'; 10000];
    let stream = compress(&data).unwrap();
    assert!(stream.len() < 200);
    assert_eq!(decode_reader_raw(&stream), Ok(data));
}

#[test]
fn compress_takes_empty_input() {
    let stream = compress(b"").unwrap();
    assert!(!stream.is_empty());
    assert_eq!(decode_reader_raw(&stream), Ok(vec![]));
}

#[test]
fn stream_or_error_maps_the_outside_error() {
    assert_eq!(stream_or_error(Ok(vec![1, 2, 3])), Ok(vec![1, 2, 3]));
    let failed = std::io::Error::new(std::io::ErrorKind::InvalidInput, "corrupt deflate stream");
    assert_eq!(stream_or_error(Err(failed)), Err(ObjectError::CompressionFailed));
}

#[test]
fn stream_if_read_back_keeps_a_stream_that_gave_the_data() {
    assert_eq!(stream_if_read_back(b"data", vec![1, 2], Ok(b"data".to_vec())), Ok(vec![1, 2]));
    assert_eq!(stream_if_read_back(b"", vec![3], Ok(vec![])), Ok(vec![3]));
}

#[test]
fn stream_if_read_back_refuses_a_stream_that_gave_something_else() {
    let failed = Err(ObjectError::CompressionFailed);
    assert_eq!(stream_if_read_back(b"data", vec![1, 2], Ok(b"date".to_vec())), failed);
    assert_eq!(stream_if_read_back(b"data", vec![1, 2], Ok(b"dat".to_vec())), failed);
    assert_eq!(stream_if_read_back(b"data", vec![1, 2], Ok(vec![])), failed);
    let unread = std::io::Error::new(std::io::ErrorKind::InvalidInput, "corrupt deflate stream");
    assert_eq!(stream_if_read_back(b"data", vec![1, 2], Err(unread)), failed);
}

#[test]
fn raw_or_error_maps_the_outside_error() {
    assert_eq!(raw_or_error(Ok(vec![])), Ok(vec![]));
    assert_eq!(raw_or_error(Ok(vec![9])), Ok(vec![9]));
    let failed = std::io::Error::new(std::io::ErrorKind::UnexpectedEof, "incomplete");
    assert_eq!(raw_or_error(Err(failed)), Err(ObjectError::MalformedEnvelope));
}

#[test]
fn decode_inverts_encode() {
    let payloads: Vec<Vec<u8>> = vec![
        vec![],
        b"hello".to_vec(),
        b"hello\n".to_vec(),
        b" \0 \0".to_vec(),
        (0..=255u8).collect(),
        vec![7; 70000],
    ];
    for payload in payloads {
        for kind in [ObjectKind::Blob, ObjectKind::Tree] {
            let stored = encode(kind, &payload).unwrap();
            let envelope = decode(&stored).unwrap();
            assert_eq!(envelope.kind(), kind);
            assert_eq!(envelope.length(), payload.len());
            assert_eq!(envelope.payload(), &payload[..]);
        }
    }
}

#[test]
fn encode_compresses_the_envelope() {
    let stored = encode(ObjectKind::Blob, b"hello").unwrap();
    assert_eq!(decode_reader_raw(&stored), Ok(b"blob 5\0hello".to_vec()));
    assert_eq!(stored, compress(b"blob 5\0hello").unwrap());
}

#[test]
fn decode_reads_hand_made_and_peer_objects() {
    let hello = ObjectEnvelope::new(ObjectKind::Blob, b"hello".to_vec());
    assert_eq!(decode(&stored_hello()), Ok(hello.clone()));
    assert_eq!(decode(&peer_hello()), Ok(hello));
}

#[test]
fn decode_does_not_depend_on_the_compression_level() {
    let raw = b"tree 0\0";
    for level in [0, 1, 6, 9] {
        let envelope = decode(&compressed_at(level, raw)).unwrap();
        assert_eq!(envelope, ObjectEnvelope::new(ObjectKind::Tree, vec![]));
    }
}

#[test]
fn decode_refuses_what_does_not_decompress() {
    assert_eq!(decode(b""), Err(ObjectError::MalformedEnvelope));
    assert_eq!(decode(b"blob 5\0hello"), Err(ObjectError::MalformedEnvelope));
}

#[test]
fn decode_refuses_a_stream_without_an_envelope() {
    assert_eq!(decode(&compressed_at(6, b"")), Err(ObjectError::MalformedEnvelope));
    assert_eq!(decode(&compressed_at(6, b"hello")), Err(ObjectError::MalformedEnvelope));
    assert_eq!(decode(&compressed_at(6, b"blob 6\0hello")), Err(ObjectError::MalformedEnvelope));
    assert_eq!(decode(&compressed_at(6, b"blob 5hello")), Err(ObjectError::MalformedEnvelope));
    assert_eq!(decode(&compressed_at(6, b"commit 0\0")), Err(ObjectError::MalformedEnvelope));
}

#[test]
fn compress_object_blob_encodes_a_blob() {
    let stored = compress_object_blob(b"what is up, doc?").unwrap();
    assert_eq!(decode_reader_raw(&stored), Ok(b"blob 16\0what is up, doc?".to_vec()));
    assert_eq!(stored, encode(ObjectKind::Blob, b"what is up, doc?").unwrap());
    let envelope = decode(&stored).unwrap();
    assert_eq!(envelope.kind(), ObjectKind::Blob);
    assert_eq!(envelope.payload(), &b"what is up, doc?"[..]);
}
