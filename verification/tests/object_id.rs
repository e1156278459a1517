use objstore::error::ObjectError;
use objstore::object_id::ObjectId;

const NAME: &str = "0102030405060708090a0b0c0d0e0f1011121314";

fn sample() -> [u8; 20] {
    [1, 2, 3, 4, 5, 6, 7, 8, 9, 10, 11, 12, 13, 14, 15, 16, 17, 18, 19, 20]
}

#[test]
fn to_hex_writes_forty_lower_case_digits() {
    let id = ObjectId::from_bytes(sample());
    assert_eq!(id.to_hex(), NAME);
    let high = ObjectId::from_bytes([0xab; 20]);
    assert_eq!(high.to_hex(), "abababababababababababababababababababab");
    assert_eq!(ObjectId::from_bytes([0; 20]).to_hex().len(), 40);
}

#[test]
fn from_hex_reads_a_name() {
    assert_eq!(ObjectId::from_hex(NAME), Ok(ObjectId::from_bytes(sample())));
}

#[test]
fn from_hex_reads_upper_case_too() {
    let upper = "ABABABABABABABABABABABABABABABABABABABAB";
    assert_eq!(ObjectId::from_hex(upper), Ok(ObjectId::from_bytes([0xab; 20])));
}

#[test]
fn from_hex_inverts_to_hex() {
    let id = ObjectId::from_bytes([0x5a; 20]);
    assert_eq!(ObjectId::from_hex(&id.to_hex()), Ok(id));
    let id = ObjectId::from_bytes(sample());
    assert_eq!(ObjectId::from_hex(&id.to_hex()), Ok(id));
}

#[test]
fn from_hex_refuses_three_characters() {
    assert_eq!(ObjectId::from_hex("abc"), Err(ObjectError::InvalidObjectId));
}

#[test]
fn from_hex_refuses_other_lengths() {
    assert_eq!(ObjectId::from_hex(""), Err(ObjectError::InvalidObjectId));
    assert_eq!(ObjectId::from_hex(&NAME[..39]), Err(ObjectError::InvalidObjectId));
    assert_eq!(ObjectId::from_hex(&NAME[..38]), Err(ObjectError::InvalidObjectId));
    let long = format!("{}0", NAME);
    assert_eq!(ObjectId::from_hex(&long), Err(ObjectError::InvalidObjectId));
    let longer = format!("{}00", NAME);
    assert_eq!(ObjectId::from_hex(&longer), Err(ObjectError::InvalidObjectId));
}

#[test]
fn from_hex_refuses_other_characters() {
    let bad = "g102030405060708090a0b0c0d0e0f1011121314";
    assert_eq!(bad.len(), 40);
    assert_eq!(ObjectId::from_hex(bad), Err(ObjectError::InvalidObjectId));
    let spaced = "0102030405060708090a0b0c0d0e0f101112131 ";
    assert_eq!(ObjectId::from_hex(spaced), Err(ObjectError::InvalidObjectId));
    let accented = "\u{e9}02030405060708090a0b0c0d0e0f1011121314";
    assert_eq!(ObjectId::from_hex(accented), Err(ObjectError::InvalidObjectId));
}

#[test]
fn from_slice_takes_exactly_twenty_bytes() {
    assert_eq!(ObjectId::from_slice(&sample()), Some(ObjectId::from_bytes(sample())));
    assert_eq!(ObjectId::from_slice(&sample()[..19]), None);
    assert_eq!(ObjectId::from_slice(&[0u8; 21]), None);
    assert_eq!(ObjectId::from_slice(&[]), None);
}

#[test]
fn as_bytes_gives_the_bytes_back() {
    let id = ObjectId::from_bytes(sample());
    assert_eq!(id.as_bytes(), &sample()[..]);
    assert_eq!(id.to_bytes(), sample());
}
