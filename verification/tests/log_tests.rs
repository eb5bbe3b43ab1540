use leveldb_parser::log_parser::csv_string;
use leveldb_parser::log_parser::parse_batch;
use leveldb_parser::log_parser::parse_log;
use leveldb_parser::utils::mask_crc32c;

/// A physical block with a correct masked checksum.
fn physical_block(block_type: u8, payload: &[u8]) -> Vec<u8> {
    let mut covered = vec![block_type];
    covered.extend_from_slice(payload);
    let stored = mask_crc32c(crc32c::crc32c(&covered));
    let mut out = Vec::new();
    out.extend_from_slice(&stored.to_le_bytes());
    out.extend_from_slice(&(payload.len() as u16).to_le_bytes());
    out.push(block_type);
    out.extend_from_slice(payload);
    out
}

/// A batch with the given starting sequence number and live records.
fn batch_payload(seq_no: u64, records: &[(&[u8], &[u8])]) -> Vec<u8> {
    let mut out = Vec::new();
    out.extend_from_slice(&seq_no.to_le_bytes());
    out.extend_from_slice(&(records.len() as u32).to_le_bytes());
    for (key, value) in records {
        out.push(1);
        out.push(key.len() as u8);
        out.extend_from_slice(key);
        out.push(value.len() as u8);
        out.extend_from_slice(value);
    }
    out
}

#[test]
fn full_block_two_records() {
    let payload = batch_payload(5, &[(b"k1", b"v1"), (b"k2", b"v2")]);
    let file = physical_block(1, &payload);

    let log = parse_log(&file);
    assert_eq!(log.blocks.len(), 1);
    assert!(log.blocks[0].crc_valid);
    assert_eq!(log.blocks[0].block_type, 1);
    assert_eq!(log.batches.len(), 1);
    let batch = &log.batches[0];
    assert_eq!(batch.header.seq_no, 5);
    assert_eq!(batch.header.rec_count, 2);
    assert_eq!(batch.records.len(), 2);
    assert_eq!(batch.records[0].seq, 5);
    assert_eq!(batch.records[1].seq, 6);
    assert_eq!(batch.records[0].key, b"k1".to_vec());
    assert_eq!(batch.records[1].value, Some(b"v2".to_vec()));
}

#[test]
fn split_batch_matches_full_batch() {
    let payload = batch_payload(9, &[(b"alpha", b"one"), (b"beta", b"two"), (b"gamma", b"three")]);

    let full_file = physical_block(1, &payload);
    let full = parse_log(&full_file);

    // the same payload split at arbitrary points into First, Middle, Last
    let cut1 = 5usize;
    let cut2 = 13usize;
    let mut split_file = Vec::new();
    split_file.extend_from_slice(&physical_block(2, &payload[..cut1]));
    split_file.extend_from_slice(&physical_block(3, &payload[cut1..cut2]));
    split_file.extend_from_slice(&physical_block(4, &payload[cut2..]));
    let split = parse_log(&split_file);

    assert_eq!(full.batches.len(), 1);
    assert_eq!(split.batches.len(), 1);
    let a = &full.batches[0];
    let b = &split.batches[0];
    assert_eq!(a.header.seq_no, b.header.seq_no);
    assert_eq!(a.header.rec_count, b.header.rec_count);
    assert_eq!(a.records.len(), b.records.len());
    for (ra, rb) in a.records.iter().zip(b.records.iter()) {
        assert_eq!(ra.seq, rb.seq);
        assert_eq!(ra.state, rb.state);
        assert_eq!(ra.key, rb.key);
        assert_eq!(ra.value, rb.value);
    }
}

#[test]
fn boundary_crossing_header_is_skipped() {
    // a header at the start of the file declaring more payload than fits in
    // the 32768-byte chunk: skipped without an error, and the block in the
    // next chunk is still found
    let mut file = vec![0u8; 32768];
    file[0] = 0xaa;
    file[1] = 0xbb;
    file[2] = 0xcc;
    file[3] = 0xdd;
    let bogus_len: u16 = 32762; // 7 + 32762 > 32768
    file[4..6].copy_from_slice(&bogus_len.to_le_bytes());
    file[6] = 1;

    let payload = batch_payload(1, &[(b"k", b"v")]);
    file.extend_from_slice(&physical_block(1, &payload));

    let log = parse_log(&file);
    assert_eq!(log.blocks.len(), 1);
    assert_eq!(log.blocks[0].offset, 32768);
    assert_eq!(log.batches.len(), 1);
    assert_eq!(log.batches[0].records[0].key, b"k".to_vec());
}

#[test]
fn orphan_middle_and_last_blocks_are_ignored() {
    let payload = batch_payload(3, &[(b"x", b"y")]);
    let mut file = Vec::new();
    file.extend_from_slice(&physical_block(3, b"orphan middle"));
    file.extend_from_slice(&physical_block(4, b"orphan last"));
    file.extend_from_slice(&physical_block(1, &payload));
    let log = parse_log(&file);
    assert_eq!(log.blocks.len(), 3);
    assert_eq!(log.batches.len(), 1);
    assert_eq!(log.batches[0].records[0].key, b"x".to_vec());
}

#[test]
fn corrupted_block_is_flagged_not_dropped() {
    let payload = batch_payload(7, &[(b"key", b"val")]);
    let mut file = physical_block(1, &payload);
    // flip one payload bit after the checksum was computed
    let last = file.len() - 1;
    file[last] ^= 0x40;

    let log = parse_log(&file);
    assert_eq!(log.blocks.len(), 1);
    assert!(!log.blocks[0].crc_valid);
    // the batch is still decoded and the row carries the failure flag
    assert_eq!(log.batches.len(), 1);
    let csv = csv_string(&log, "f.log", "/tmp/f.log");
    assert!(csv.contains("\"failed!\""));
}

#[test]
fn zero_padding_is_skipped() {
    // a zeroed header means trailer padding: the rest of the chunk is skipped
    let file = vec![0u8; 64];
    let log = parse_log(&file);
    assert_eq!(log.blocks.len(), 0);
    assert_eq!(log.batches.len(), 0);
}

#[test]
fn deletion_record_has_no_value() {
    let mut payload = Vec::new();
    payload.extend_from_slice(&4u64.to_le_bytes());
    payload.extend_from_slice(&1u32.to_le_bytes());
    payload.push(0); // deletion
    payload.push(3);
    payload.extend_from_slice(b"del");
    let batch = parse_batch(&payload, 0).unwrap();
    assert_eq!(batch.records.len(), 1);
    assert_eq!(batch.records[0].state, 0);
    assert_eq!(batch.records[0].value, None);
    assert_eq!(batch.records[0].key, b"del".to_vec());
}

#[test]
fn truncated_batch_keeps_decoded_records() {
    // the header promises three records but the buffer ends after one
    let mut payload = Vec::new();
    payload.extend_from_slice(&10u64.to_le_bytes());
    payload.extend_from_slice(&3u32.to_le_bytes());
    payload.push(1);
    payload.push(2);
    payload.extend_from_slice(b"ok");
    payload.push(1);
    payload.extend_from_slice(b"ok");
    let batch = parse_batch(&payload, 0).unwrap();
    assert_eq!(batch.header.rec_count, 3);
    assert_eq!(batch.records.len(), 1);
    assert_eq!(batch.records[0].key, b"ok".to_vec());
}

#[test]
fn log_csv_layout() {
    let payload = batch_payload(5, &[(b"name", b"value")]);
    let file = physical_block(1, &payload);
    let log = parse_log(&file);
    let csv = csv_string(&log, "000003.log", "/data/000003.log");
    let mut lines = csv.lines();
    assert_eq!(
        lines.next().unwrap(),
        "\"Seq\",\"K\",\"V\",\"Cr\",\"St\",\"BO\",\"C\",\"F\",\"FP\""
    );
    assert_eq!(
        lines.next().unwrap(),
        "\"5\",\"name\",\"value\",\"valid\",\"live\",\"0\",\"false\",\"000003.log\",\"/data/000003.log\""
    );
}
