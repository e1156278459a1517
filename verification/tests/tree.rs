use objstore::codec::encode;
use objstore::envelope::{ObjectEnvelope, ObjectKind};
use objstore::error::ObjectError;
use objstore::object_id::ObjectId;
use objstore::scan::Cursor;
use objstore::sorting::sort_by_name;
use objstore::tree::{decode_tree, list_tree, parse_tree, read_record, TreeEntry};

fn d1() -> [u8; 20] {
    [1, 2, 3, 4, 5, 6, 7, 8, 9, 10, 11, 12, 13, 14, 15, 16, 17, 18, 19, 20]
}

fn d2() -> [u8; 20] {
    [21, 22, 23, 24, 25, 26, 27, 28, 29, 30, 31, 32, 33, 34, 35, 36, 37, 38, 39, 40]
}

fn entry(mode: &[u8], name: &[u8], target: [u8; 20]) -> TreeEntry {
    TreeEntry { mode: mode.to_vec(), name: name.to_vec(), target: ObjectId::from_bytes(target) }
}

fn record(mode: &[u8], name: &[u8], target: &[u8]) -> Vec<u8> {
    let mut out = mode.to_vec();
    out.push(b' ');
    out.extend_from_slice(name);
    out.push(0);
    out.extend_from_slice(target);
    out
}

fn payload_of(entries: &[TreeEntry]) -> Vec<u8> {
    let mut out = Vec::new();
    for e in entries {
        out.extend_from_slice(&record(&e.mode, &e.name, e.target.as_bytes()));
    }
    out
}

fn tree(payload: Vec<u8>) -> ObjectEnvelope {
    ObjectEnvelope::new(ObjectKind::Tree, payload)
}

fn names(entries: &[TreeEntry]) -> Vec<Vec<u8>> {
    entries.iter().map(|e| e.name.clone()).collect()
}

#[test]
fn tree_round_trip_on_synthetic_input() {
    let entries = vec![entry(b"100644", b"a.txt", d1()), entry(b"40000", b"sub", d2())];
    let payload = payload_of(&entries);
    assert_eq!(payload.len(), 63);
    assert_eq!(parse_tree(&payload), Ok(entries.clone()));
    let sorted = decode_tree(&tree(payload)).unwrap();
    assert_eq!(names(&sorted), vec![b"a.txt".to_vec(), b"sub".to_vec()]);
    assert_eq!(sorted, entries);
}

#[test]
fn parse_tree_keeps_the_order_of_the_payload() {
    let entries = vec![entry(b"40000", b"sub", d2()), entry(b"100644", b"a.txt", d1())];
    let payload = payload_of(&entries);
    assert_eq!(parse_tree(&payload), Ok(entries.clone()));
    let sorted = decode_tree(&tree(payload)).unwrap();
    assert_eq!(sorted, vec![entries[1].clone(), entries[0].clone()]);
}

#[test]
fn parse_tree_reads_the_digest_raw() {
    let digest = [0x20, 0, 0x20, 0, 0xff, 0xfe, 0, 0, 0x20, 0x20, 1, 2, 3, 4, 5, 6, 7, 8, 9, 0];
    let entries = vec![entry(b"100755", b"run.sh", digest), entry(b"120000", b"link", d1())];
    assert_eq!(parse_tree(&payload_of(&entries)), Ok(entries));
}

#[test]
fn parse_tree_takes_names_with_spaces_and_bytes_that_are_no_text() {
    let entries = vec![
        entry(b"100644", b"a b c.txt", d1()),
        entry(b"100644", &[0xff, 0xfe, 0x80], d2()),
        entry(b"", b"", d1()),
    ];
    assert_eq!(parse_tree(&payload_of(&entries)), Ok(entries));
}

#[test]
fn empty_tree_has_no_entries() {
    assert_eq!(parse_tree(b""), Ok(vec![]));
    assert_eq!(decode_tree(&tree(vec![])), Ok(vec![]));
    let stored = encode(ObjectKind::Tree, b"").unwrap();
    assert_eq!(list_tree(&stored), Ok(vec![]));
}

#[test]
fn empty_tree_from_its_envelope_bytes() {
    let envelope = objstore::envelope::unframe(b"tree 0\0").unwrap();
    assert_eq!(envelope.kind(), ObjectKind::Tree);
    assert_eq!(envelope.length(), 0);
    assert_eq!(decode_tree(&envelope), Ok(vec![]));
}

#[test]
fn truncating_the_last_digest_is_detected() {
    let entries = vec![entry(b"100644", b"a.txt", d1()), entry(b"40000", b"sub", d2())];
    let payload = payload_of(&entries);
    for cut in 1..=20 {
        let short = &payload[..payload.len() - cut];
        assert_eq!(parse_tree(short), Err(ObjectError::TruncatedTree));
        assert_eq!(decode_tree(&tree(short.to_vec())), Err(ObjectError::TruncatedTree));
    }
}

#[test]
fn truncating_the_only_digest_is_detected() {
    let payload = record(b"100644", b"a.txt", &d1());
    for cut in 1..=20 {
        let short = &payload[..payload.len() - cut];
        assert_eq!(parse_tree(short), Err(ObjectError::TruncatedTree));
    }
}

#[test]
fn a_record_without_space_or_nul_is_truncated() {
    assert_eq!(parse_tree(b"100644"), Err(ObjectError::TruncatedTree));
    assert_eq!(parse_tree(b"100644 a.txt"), Err(ObjectError::TruncatedTree));
    assert_eq!(parse_tree(b"100644 a.txt\0"), Err(ObjectError::TruncatedTree));
    assert_eq!(parse_tree(b"x"), Err(ObjectError::TruncatedTree));
    let mut payload = record(b"100644", b"a.txt", &d1());
    payload.extend_from_slice(b"40000");
    assert_eq!(parse_tree(&payload), Err(ObjectError::TruncatedTree));
}

#[test]
fn a_trailing_byte_is_a_truncated_record() {
    let mut payload = record(b"100644", b"a.txt", &d1());
    payload.push(b'1');
    assert_eq!(parse_tree(&payload), Err(ObjectError::TruncatedTree));
}

#[test]
fn decode_tree_refuses_a_blob() {
    let payload = record(b"100644", b"a.txt", &d1());
    let blob = ObjectEnvelope::new(ObjectKind::Blob, payload);
    assert_eq!(decode_tree(&blob), Err(ObjectError::NotATree));
    let empty = ObjectEnvelope::new(ObjectKind::Blob, vec![]);
    assert_eq!(decode_tree(&empty), Err(ObjectError::NotATree));
    let broken = ObjectEnvelope::new(ObjectKind::Blob, b"x".to_vec());
    assert_eq!(decode_tree(&broken), Err(ObjectError::NotATree));
}

#[test]
fn read_record_advances_past_one_record() {
    let entries = vec![entry(b"100644", b"a.txt", d1()), entry(b"40000", b"sub", d2())];
    let payload = payload_of(&entries);
    let mut cursor = Cursor::new(&payload);
    assert_eq!(read_record(&mut cursor), Some(entries[0].clone()));
    assert_eq!(cursor.remaining_len(), 30);
    assert_eq!(read_record(&mut cursor), Some(entries[1].clone()));
    assert!(cursor.is_at_end());
    assert_eq!(read_record(&mut cursor), None);
}

#[test]
fn read_record_refuses_a_short_digest() {
    let payload = record(b"100644", b"a.txt", &d1()[..19]);
    let mut cursor = Cursor::new(&payload);
    assert_eq!(read_record(&mut cursor), None);
}

#[test]
fn sort_by_name_orders_byte_wise() {
    let entries = vec![
        entry(b"100644", b"b", d1()),
        entry(b"100644", b"a.txt", d1()),
        entry(b"100644", b"a", d1()),
        entry(b"100644", b"B", d1()),
        entry(b"100644", &[0xc3, 0xa9], d1()),
        entry(b"100644", b"", d1()),
        entry(b"100644", b"ab", d1()),
    ];
    let sorted = sort_by_name(entries);
    assert_eq!(
        names(&sorted),
        vec![
            b"".to_vec(),
            b"B".to_vec(),
            b"a".to_vec(),
            b"a.txt".to_vec(),
            b"ab".to_vec(),
            b"b".to_vec(),
            vec![0xc3, 0xa9],
        ]
    );
}

#[test]
fn sort_by_name_keeps_entries_of_one_name_in_their_order() {
    let entries = vec![
        entry(b"3", b"same", d2()),
        entry(b"1", b"zz", d1()),
        entry(b"1", b"same", d1()),
        entry(b"2", b"aa", d1()),
        entry(b"2", b"same", d2()),
    ];
    let sorted = sort_by_name(entries.clone());
    assert_eq!(
        sorted,
        vec![
            entries[3].clone(),
            entries[0].clone(),
            entries[2].clone(),
            entries[4].clone(),
            entries[1].clone(),
        ]
    );
}

#[test]
fn sort_by_name_agrees_with_the_standard_stable_sort() {
    let mut entries = Vec::new();
    let mut seed: u32 = 12345;
    for i in 0..200u32 {
        seed = seed.wrapping_mul(1103515245).wrapping_add(12345);
        let len = (seed >> 16) % 4;
        let mut name = Vec::new();
        for _ in 0..len {
            seed = seed.wrapping_mul(1103515245).wrapping_add(12345);
            name.push((seed >> 16) as u8 % 3 + b'a');
        }
        entries.push(entry(i.to_string().as_bytes(), &name, d1()));
    }
    let mut expected = entries.clone();
    expected.sort_by(|a, b| a.name.cmp(&b.name));
    assert_eq!(sort_by_name(entries), expected);
}

#[test]
fn sort_by_name_takes_empty_and_single_input() {
    assert_eq!(sort_by_name(vec![]), vec![]);
    let one = vec![entry(b"40000", b"sub", d2())];
    assert_eq!(sort_by_name(one.clone()), one);
}

#[test]
fn subtree_is_the_mode_40000_and_nothing_else() {
    assert!(entry(b"40000", b"sub", d1()).is_subtree());
    assert_eq!(entry(b"40000", b"sub", d1()).kind(), ObjectKind::Tree);
    for mode in [&b"100644"[..], b"100755", b"120000", b"040000", b"4000", b"400000", b""] {
        assert!(!entry(mode, b"f", d1()).is_subtree());
        assert_eq!(entry(mode, b"f", d1()).kind(), ObjectKind::Blob);
    }
}

#[test]
fn list_tree_decodes_stored_bytes() {
    let entries = vec![entry(b"40000", b"sub", d2()), entry(b"100644", b"a.txt", d1())];
    let stored = encode(ObjectKind::Tree, &payload_of(&entries)).unwrap();
    assert_eq!(list_tree(&stored), Ok(vec![entries[1].clone(), entries[0].clone()]));
}

#[test]
fn list_tree_reports_each_failure() {
    assert_eq!(list_tree(b"garbage"), Err(ObjectError::MalformedEnvelope));
    let blob = encode(ObjectKind::Blob, b"hello").unwrap();
    assert_eq!(list_tree(&blob), Err(ObjectError::NotATree));
    let payload = record(b"100644", b"a.txt", &d1()[..19]);
    let cut = encode(ObjectKind::Tree, &payload).unwrap();
    assert_eq!(list_tree(&cut), Err(ObjectError::TruncatedTree));
}
