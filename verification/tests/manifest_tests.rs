use leveldb_parser::manifest_parser::csv_string;
use leveldb_parser::manifest_parser::manifest_entry_text;
use leveldb_parser::manifest_parser::parse_entries;
use leveldb_parser::manifest_parser::parse_manifest;
use leveldb_parser::manifest_parser::ManifestEntry;
use leveldb_parser::utils::mask_crc32c;

fn physical_block(block_type: u8, payload: &[u8]) -> Vec<u8> {
    let mut covered = vec![block_type];
    covered.extend_from_slice(payload);
    let stored = mask_crc32c(crc32c::crc32c(&covered));
    let mut out = Vec::new();
    out.extend_from_slice(&stored.to_le_bytes());
    out.extend_from_slice(&(payload.len() as u16).to_le_bytes());
    out.push(block_type);
    out.extend_from_slice(payload);
    out
}

#[test]
fn log_number_tag_decodes() {
    // tag 2 followed by varint 42
    let file = physical_block(1, &[0x02, 42]);
    let manifest = parse_manifest(&file);
    assert_eq!(manifest.entries.len(), 1);
    let set = &manifest.entries[0];
    assert_eq!(set.entries.len(), 1);
    assert!(matches!(set.entries[0], ManifestEntry::LogNumber(42)));

    let csv = csv_string(&manifest, "MANIFEST-000001");
    let mut lines = csv.lines();
    assert_eq!(
        lines.next().unwrap(),
        "\"Tag\",\"TagValue\",\"CRC\",\"BlockOffset\",\"File\""
    );
    assert_eq!(
        lines.next().unwrap(),
        "\"LogNumber\",\"42\",\"valid\",\"0\",\"MANIFEST-000001\""
    );
}

#[test]
fn several_tags_in_one_record() {
    // comparator name, next file number, last sequence, previous log number
    let mut payload = vec![0x01, 4];
    payload.extend_from_slice(b"name");
    payload.extend_from_slice(&[0x03, 7]);
    payload.extend_from_slice(&[0x04, 9]);
    payload.extend_from_slice(&[0x09, 3]);
    let set = parse_entries(&payload, 0);
    assert_eq!(set.entries.len(), 4);
    assert!(matches!(&set.entries[0], ManifestEntry::Comparator(v) if v == b"name"));
    assert!(matches!(set.entries[1], ManifestEntry::NextFileNumber(7)));
    assert!(matches!(set.entries[2], ManifestEntry::LastSeq(9)));
    assert!(matches!(set.entries[3], ManifestEntry::PrevLogNumber(3)));
}

#[test]
fn remove_and_add_file_tags() {
    let mut payload = vec![0x06, 2, 8]; // RemoveFile level 2, file 8
    // AddFile level 1, file 12, size 300, then two internal keys
    payload.extend_from_slice(&[0x07, 1, 12, 0xac, 0x02]);
    let mut small = b"aaa".to_vec();
    small.extend_from_slice(&[1, 0, 0, 0, 0, 0, 0, 0]);
    payload.push(small.len() as u8);
    payload.extend_from_slice(&small);
    let mut large = b"zzz".to_vec();
    large.extend_from_slice(&[1, 5, 0, 0, 0, 0, 0, 0]);
    payload.push(large.len() as u8);
    payload.extend_from_slice(&large);

    let set = parse_entries(&payload, 0);
    assert_eq!(set.entries.len(), 2);
    assert!(matches!(set.entries[0], ManifestEntry::RemoveFile { level: 2, file_no: 8 }));
    match &set.entries[1] {
        ManifestEntry::AddFile { level, file_no, file_size, sm_key, sm_seq, sm_state, lg_key, lg_seq, lg_state } => {
            assert_eq!(*level, 1);
            assert_eq!(*file_no, 12);
            assert_eq!(*file_size, 300);
            assert_eq!(sm_key, b"aaa");
            assert_eq!(*sm_seq, 0);
            assert_eq!(*sm_state, 1);
            assert_eq!(lg_key, b"zzz");
            assert_eq!(*lg_seq, 5);
            assert_eq!(*lg_state, 1);
        },
        other => panic!("expected AddFile, got {:?}", manifest_entry_text(other)),
    }

    let (tag, value) = manifest_entry_text(&set.entries[1]);
    assert_eq!(tag, "AddFile");
    assert_eq!(
        value,
        "Level: 1, No.: 12, Size: 300 Bytes, Key-Range: 'aaa' @ 0 : 1 .. 'zzz' @ 5 : 1"
    );
}

#[test]
fn compact_pointer_tag() {
    let mut payload = vec![0x05, 3];
    let mut key = b"ptr".to_vec();
    key.extend_from_slice(&[1, 9, 0, 0, 0, 0, 0, 0]);
    payload.push(key.len() as u8);
    payload.extend_from_slice(&key);
    let set = parse_entries(&payload, 0);
    assert_eq!(set.entries.len(), 1);
    let (tag, value) = manifest_entry_text(&set.entries[0]);
    assert_eq!(tag, "CompactPointer");
    assert_eq!(value, "Level: 3, Key: ptr @ 9 : 1");
}

#[test]
fn unknown_tag_consumes_no_payload() {
    // the unknown tag is recorded and the next byte is read as a new tag
    let payload = vec![0xaa, 0x02, 5];
    let set = parse_entries(&payload, 0);
    assert_eq!(set.entries.len(), 2);
    assert!(matches!(set.entries[0], ManifestEntry::Unknown(0xaa)));
    assert!(matches!(set.entries[1], ManifestEntry::LogNumber(5)));
    let (tag, value) = manifest_entry_text(&set.entries[0]);
    assert_eq!(tag, "Unknown");
    assert_eq!(value, "AA");
}

#[test]
fn split_record_reassembles() {
    let payload = vec![0x02, 42, 0x03, 43];
    let mut file = Vec::new();
    file.extend_from_slice(&physical_block(2, &payload[..1]));
    file.extend_from_slice(&physical_block(3, &payload[1..3]));
    file.extend_from_slice(&physical_block(4, &payload[3..]));
    let manifest = parse_manifest(&file);
    assert_eq!(manifest.entries.len(), 1);
    let set = &manifest.entries[0];
    assert_eq!(set.offset, 0);
    assert_eq!(set.entries.len(), 2);
    assert!(matches!(set.entries[0], ManifestEntry::LogNumber(42)));
    assert!(matches!(set.entries[1], ManifestEntry::NextFileNumber(43)));
}

#[test]
fn truncated_field_keeps_earlier_fields() {
    // the second tag's payload is missing
    let payload = vec![0x02, 42, 0x01];
    let set = parse_entries(&payload, 0);
    assert_eq!(set.entries.len(), 1);
    assert!(matches!(set.entries[0], ManifestEntry::LogNumber(42)));
}
