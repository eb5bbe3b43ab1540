use leveldb_parser::decoder::StorageKind;
use leveldb_parser::error::FormatError;
use leveldb_parser::ldb_parser::csv_string;
use leveldb_parser::ldb_parser::parse_block_handle;
use leveldb_parser::ldb_parser::parse_table;
use leveldb_parser::ldb_parser::read_block_data_kvs;
use leveldb_parser::utils::encode_varint;
use leveldb_parser::utils::mask_crc32c;

const MAGIC: [u8; 8] = [0x57, 0xfb, 0x80, 0x8b, 0x24, 0x75, 0x47, 0xdb];

/// Append one stored block (payload, compression type, masked checksum) and
/// return its handle (offset, size).
fn append_block(file: &mut Vec<u8>, payload: &[u8], compression_type: u8) -> (u64, u64) {
    let offset = file.len() as u64;
    let mut covered = payload.to_vec();
    covered.push(compression_type);
    let stored = mask_crc32c(crc32c::crc32c(&covered));
    file.extend_from_slice(payload);
    file.push(compression_type);
    file.extend_from_slice(&stored.to_le_bytes());
    (offset, payload.len() as u64)
}

/// Block bytes holding the given full-key entries, with one restart point.
fn block_with_entries(entries: &[(usize, &[u8], &[u8])]) -> Vec<u8> {
    let mut out = Vec::new();
    for (shared, inline, value) in entries {
        out.extend_from_slice(&encode_varint(*shared as u64));
        out.extend_from_slice(&encode_varint(inline.len() as u64));
        out.extend_from_slice(&encode_varint(value.len() as u64));
        out.extend_from_slice(inline);
        out.extend_from_slice(value);
    }
    out.extend_from_slice(&0u32.to_le_bytes()); // one restart point at 0
    out.extend_from_slice(&1u32.to_le_bytes()); // restart count
    out
}

fn footer(meta_index: (u64, u64), index: (u64, u64)) -> Vec<u8> {
    let mut out = Vec::new();
    out.extend_from_slice(&encode_varint(meta_index.0));
    out.extend_from_slice(&encode_varint(meta_index.1));
    out.extend_from_slice(&encode_varint(index.0));
    out.extend_from_slice(&encode_varint(index.1));
    while out.len() < 40 {
        out.push(0);
    }
    out.extend_from_slice(&MAGIC);
    out
}

#[test]
fn empty_table_with_valid_magic() {
    // zero-sized meta-index and index handles, correct magic: a valid,
    // empty table
    let mut file = vec![0u8; 8]; // room for the zero-size block trailers
    file.extend_from_slice(&footer((0, 0), (0, 0)));
    assert_eq!(file.len(), 56);

    let ldb = parse_table(&file, StorageKind::Generic).unwrap();
    assert!(ldb.footer.is_valid);
    assert_eq!(ldb.footer.meta_index_handle.offset, 0);
    assert_eq!(ldb.footer.meta_index_handle.size, 0);
    assert_eq!(ldb.meta_index_block.records.len(), 0);
    assert_eq!(ldb.index_block.records.len(), 0);
    assert_eq!(ldb.meta_blocks.len(), 0);
    assert_eq!(ldb.data_blocks.len(), 0);
}

#[test]
fn bad_magic_is_recorded_not_fatal() {
    let mut file = vec![0u8; 8];
    let mut f = footer((0, 0), (0, 0));
    let flen = f.len();
    f[flen - 1] ^= 0xff;
    file.extend_from_slice(&f);
    let ldb = parse_table(&file, StorageKind::Generic).unwrap();
    assert!(!ldb.footer.is_valid);
}

fn single_record_table() -> Vec<u8> {
    // one data block holding one record with a 16-byte stored key:
    // 8 user-key bytes, then state 1 and sequence 0
    let mut key = b"userkey!".to_vec();
    key.extend_from_slice(&[0x01, 0, 0, 0, 0, 0, 0, 0]);
    let data_block = block_with_entries(&[(0, &key, b"hello")]);

    let mut file = Vec::new();
    let data_handle = append_block(&mut file, &data_block, 0);

    // primary index: one entry whose value is the data block's handle
    let mut handle_bytes = encode_varint(data_handle.0);
    handle_bytes.extend_from_slice(&encode_varint(data_handle.1));
    let index_block = block_with_entries(&[(0, b"zzz", &handle_bytes)]);
    let index_handle = append_block(&mut file, &index_block, 0);

    // empty meta index
    let meta_index_block = block_with_entries(&[]);
    let meta_index_handle = append_block(&mut file, &meta_index_block, 0);

    file.extend_from_slice(&footer(meta_index_handle, index_handle));
    file
}

#[test]
fn single_record_decodes_live() {
    let file = single_record_table();
    let ldb = parse_table(&file, StorageKind::Generic).unwrap();
    assert!(ldb.footer.is_valid);
    assert_eq!(ldb.data_blocks.len(), 1);
    let block = &ldb.data_blocks[0];
    assert!(block.raw_block.crc_valid);
    assert_eq!(block.records.len(), 1);
    let rec = &block.records[0];
    assert_eq!(rec.state, 1);
    assert_eq!(rec.seq, 0);
    assert_eq!(rec.key, b"userkey!".to_vec());
    assert_eq!(rec.value, b"hello".to_vec());

    let csv = csv_string(&ldb, "000001.ldb", "/db/000001.ldb", false);
    let mut lines = csv.lines();
    assert_eq!(
        lines.next().unwrap(),
        "\"Seq\",\"K\",\"V\",\"Cr\",\"St\",\"BO\",\"C\",\"F\",\"FP\",\"Kind\""
    );
    let row = lines.next().unwrap();
    assert!(row.contains("\"live\""));
    assert!(row.contains("\"userkey!\""));
    assert!(row.contains("\"hello\""));
    assert!(row.contains("\"valid\""));
}

#[test]
fn hex_view_bypasses_decoding() {
    let file = single_record_table();
    let ldb = parse_table(&file, StorageKind::Generic).unwrap();
    let csv = csv_string(&ldb, "t.ldb", "/db/t.ldb", true);
    assert!(csv.contains("\\x68\\x65\\x6C\\x6C\\x6F")); // "hello" in hex
}

#[test]
fn prefix_compression_reconstructs_keys() {
    // the second entry shares the first three bytes of the first key
    let mut k1 = b"abc0000!".to_vec();
    k1.extend_from_slice(&[1, 0, 0, 0, 0, 0, 0, 0]);
    let block = block_with_entries(&[(0, &k1, b"v1"), (3, b"xyz11111\x01\x00\x00\x00\x00\x00\x00\x00", b"v2")]);
    let kvs = read_block_data_kvs(&block);
    assert_eq!(kvs.len(), 2);
    assert_eq!(kvs[0].key, k1);
    let mut expected = b"abc".to_vec();
    expected.extend_from_slice(b"xyz11111\x01\x00\x00\x00\x00\x00\x00\x00");
    assert_eq!(kvs[1].key, expected);
    assert_eq!(kvs[1].shared_len, 3);
}

#[test]
fn snappy_block_is_decompressed() {
    let mut key = b"userkey!".to_vec();
    key.extend_from_slice(&[1, 0, 0, 0, 0, 0, 0, 0]);
    let data_block = block_with_entries(&[(0, &key, b"hello hello hello hello")]);
    let compressed = snap::raw::Encoder::new().compress_vec(&data_block).unwrap();
    assert_ne!(compressed, data_block);

    let mut file = Vec::new();
    let data_handle = append_block(&mut file, &compressed, 1);
    let mut handle_bytes = encode_varint(data_handle.0);
    handle_bytes.extend_from_slice(&encode_varint(data_handle.1));
    let index_block = block_with_entries(&[(0, b"zzz", &handle_bytes)]);
    let index_handle = append_block(&mut file, &index_block, 0);
    let meta_index_handle = append_block(&mut file, &block_with_entries(&[]), 0);
    file.extend_from_slice(&footer(meta_index_handle, index_handle));

    let ldb = parse_table(&file, StorageKind::Generic).unwrap();
    assert_eq!(ldb.data_blocks.len(), 1);
    assert!(ldb.data_blocks[0].raw_block.crc_valid);
    assert_eq!(ldb.data_blocks[0].records[0].value, b"hello hello hello hello".to_vec());
    let csv = csv_string(&ldb, "c.ldb", "/db/c.ldb", false);
    assert!(csv.contains("\"true\"")); // the compression column
}

#[test]
fn zstd_block_is_decompressed() {
    let mut key = b"userkey!".to_vec();
    key.extend_from_slice(&[1, 0, 0, 0, 0, 0, 0, 0]);
    let data_block = block_with_entries(&[(0, &key, b"zzzz zzzz zzzz zzzz")]);
    let compressed = zstd::encode_all(data_block.as_slice(), 0).unwrap();
    assert_ne!(compressed, data_block);

    let mut file = Vec::new();
    let data_handle = append_block(&mut file, &compressed, 2);
    let mut handle_bytes = encode_varint(data_handle.0);
    handle_bytes.extend_from_slice(&encode_varint(data_handle.1));
    let index_handle = append_block(&mut file, &block_with_entries(&[(0, b"zzz", &handle_bytes)]), 0);
    let meta_index_handle = append_block(&mut file, &block_with_entries(&[]), 0);
    file.extend_from_slice(&footer(meta_index_handle, index_handle));

    let ldb = parse_table(&file, StorageKind::Generic).unwrap();
    assert_eq!(ldb.data_blocks[0].records[0].value, b"zzzz zzzz zzzz zzzz".to_vec());
}

#[test]
fn bloom_filter_block_is_parsed() {
    let mut file = Vec::new();

    // the filter meta block: filter bytes, offset array, trailer
    let mut meta = vec![0xaa, 0xbb, 0xcc];
    meta.extend_from_slice(&3u32.to_le_bytes()); // array offset
    meta.push(11); // base log
    let meta_handle = append_block(&mut file, &meta, 0);

    let mut handle_bytes = encode_varint(meta_handle.0);
    handle_bytes.extend_from_slice(&encode_varint(meta_handle.1));
    let meta_index_block =
        block_with_entries(&[(0, b"filter.leveldb.BuiltinBloomFilter2", &handle_bytes)]);
    let meta_index_handle = append_block(&mut file, &meta_index_block, 0);
    let index_handle = append_block(&mut file, &block_with_entries(&[]), 0);
    file.extend_from_slice(&footer(meta_index_handle, index_handle));

    let ldb = parse_table(&file, StorageKind::Generic).unwrap();
    assert_eq!(ldb.meta_blocks.len(), 1);
    assert_eq!(ldb.meta_blocks[0].name, "filter.leveldb.BuiltinBloomFilter2");
    let bloom = ldb.meta_blocks[0].bloom_filter.as_ref().unwrap();
    assert_eq!(bloom.filter_data, vec![0xaa, 0xbb, 0xcc]);
    assert_eq!(bloom.array_offset, 3);
    assert_eq!(bloom.base_log, 11);
}

#[test]
fn truncated_file_is_fatal() {
    let file = vec![0u8; 20];
    assert!(parse_table(&file, StorageKind::Generic).is_err());
}

#[test]
fn block_handle_from_bytes() {
    let mut bytes = encode_varint(1234);
    bytes.extend_from_slice(&encode_varint(567));
    let h = parse_block_handle(&bytes).unwrap();
    assert_eq!(h.offset, 1234);
    assert_eq!(h.size, 567);
}

#[test]
fn corrupt_compressed_block_is_fatal() {
    // a block marked as compressed whose bytes are not a valid compressed
    // stream: decompression failure is a hard error
    let mut file = Vec::new();
    let data_handle = append_block(&mut file, &[0x99, 0x98, 0x97], 1);
    let mut handle_bytes = encode_varint(data_handle.0);
    handle_bytes.extend_from_slice(&encode_varint(data_handle.1));
    let index_handle = append_block(&mut file, &block_with_entries(&[(0, b"z", &handle_bytes)]), 0);
    let meta_index_handle = append_block(&mut file, &block_with_entries(&[]), 0);
    file.extend_from_slice(&footer(meta_index_handle, index_handle));

    assert!(matches!(
        parse_table(&file, StorageKind::Generic),
        Err(FormatError::DecompressionFailed)
    ));
}
