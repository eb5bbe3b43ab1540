use leveldb_parser::utils::crc_verified;
use leveldb_parser::utils::decode_key;
use leveldb_parser::utils::decode_varint;
use leveldb_parser::utils::encode_varint;
use leveldb_parser::utils::mask_crc32c;
use leveldb_parser::utils::read_slice;
use leveldb_parser::utils::read_varint;
use leveldb_parser::utils::read_varint_slice;
use leveldb_parser::utils::unmask_crc32c;
use leveldb_parser::error::FormatError;

#[test]
fn varint_round_trip_small() {
    for v in [0u64, 1, 127, 128, 129, 300, 16383, 16384, 0xffff_ffff] {
        let enc = encode_varint(v);
        assert!(enc.len() <= 10);
        let mut pos = 0usize;
        let dec = read_varint(enc.as_slice(), &mut pos).unwrap();
        assert_eq!(dec, v);
        assert_eq!(pos, enc.len());
    }
}

#[test]
fn varint_round_trip_large() {
    for v in [u64::MAX, u64::MAX - 1, 1u64 << 63, 0x0123_4567_89ab_cdef] {
        let enc = encode_varint(v);
        assert!(enc.len() <= 10);
        let mut pos = 0usize;
        assert_eq!(read_varint(enc.as_slice(), &mut pos).unwrap(), v);
    }
}

#[test]
fn varint_known_encoding() {
    assert_eq!(encode_varint(300), vec![0xac, 0x02]);
    assert_eq!(encode_varint(1), vec![0x01]);
    let mut pos = 0usize;
    assert_eq!(read_varint(&[0xac, 0x02, 0x99], &mut pos).unwrap(), 300);
    assert_eq!(pos, 2);
}

#[test]
fn varint_errors() {
    // ten continuation bytes: malformed
    let mut pos = 0usize;
    assert_eq!(
        read_varint(&[0x80; 10], &mut pos),
        Err(FormatError::MalformedVarint)
    );
    assert_eq!(pos, 0);
    // input ends before the terminator: truncated
    let mut pos = 0usize;
    assert_eq!(
        read_varint(&[0x80, 0x80], &mut pos),
        Err(FormatError::TruncatedEntry)
    );
}

#[test]
fn decode_varint_permissive() {
    // an already-extracted buffer decodes leniently
    assert_eq!(decode_varint(&[]), Ok(0));
    assert_eq!(decode_varint(&[0x80]), Ok(0));
    assert_eq!(decode_varint(&[0xac, 0x02]), Ok(300));
    assert_eq!(decode_varint(&[0x80; 10]), Err(FormatError::MalformedVarint));
}

#[test]
fn checksum_mask_round_trip() {
    for x in [0u32, 1, 0xdead_beef, 0xffff_ffff, 0xa282_ead8] {
        assert_eq!(unmask_crc32c(mask_crc32c(x)), x);
    }
}

#[test]
fn checksum_verification_against_reference() {
    // crc32c("123456789") is the well-known check value 0xe3069283
    let payload = b"123456789".to_vec();
    let mut buf = payload.clone();
    buf.push(7);
    let stored = mask_crc32c(crc32c::crc32c(&buf));
    assert!(crc_verified(stored, &payload, 7, true));
    // the log ordering checksums the type byte first, so the same stored
    // value must not verify there
    assert!(!crc_verified(stored, &payload, 7, false));
}

#[test]
fn checksum_flipped_bit_fails() {
    let payload = b"some block payload".to_vec();
    let mut buf = vec![1u8];
    buf.extend_from_slice(&payload);
    let stored = mask_crc32c(crc32c::crc32c(&buf));
    assert!(crc_verified(stored, &payload, 1, false));
    let mut corrupted = payload.clone();
    corrupted[0] ^= 0x01;
    assert!(!crc_verified(stored, &corrupted, 1, false));
}

#[test]
fn key_split_state_and_seq() {
    // a 16-byte key: 8 user-key bytes, then state 1 and sequence 0
    let mut key = b"userkey!".to_vec();
    key.extend_from_slice(&[0x01, 0, 0, 0, 0, 0, 0, 0]);
    let (user_key, state, seq) = decode_key(&key).unwrap();
    assert_eq!(user_key, b"userkey!".to_vec());
    assert_eq!(state, 1);
    assert_eq!(seq, 0);
}

#[test]
fn key_split_matches_le_number() {
    let mut key = b"k".to_vec();
    let suffix = [0x2a, 0x01, 0x02, 0x03, 0x04, 0x05, 0x06, 0x07];
    key.extend_from_slice(&suffix);
    let n = u64::from_le_bytes(suffix);
    let (_, state, seq) = decode_key(&key).unwrap();
    assert_eq!(state as u64, n & 0xff);
    assert_eq!(seq, n >> 8);
}

#[test]
fn key_too_short() {
    assert_eq!(decode_key(&[1, 2, 3]), Err(FormatError::KeyTooShort));
}

#[test]
fn slice_reads_clip_at_end() {
    let data = [1u8, 2, 3, 4, 5];
    let mut pos = 3usize;
    let taken = read_slice(&data, &mut pos, 10);
    assert_eq!(taken, vec![4, 5]);
    assert_eq!(pos, 5);
}

#[test]
fn varint_slice_reads_prefixed_bytes() {
    let data = [0x03, 0xaa, 0xbb, 0xcc, 0xdd];
    let mut pos = 0usize;
    let taken = read_varint_slice(&data, &mut pos).unwrap();
    assert_eq!(taken, vec![0xaa, 0xbb, 0xcc]);
    assert_eq!(pos, 4);
}
