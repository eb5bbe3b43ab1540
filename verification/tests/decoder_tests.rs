use leveldb_parser::decoder::bytes_to_ascii;
use leveldb_parser::decoder::bytes_to_ascii_with_hex;
use leveldb_parser::decoder::bytes_to_hex;
use leveldb_parser::decoder::bytes_to_latin1_hex_escaped;
use leveldb_parser::decoder::bytes_to_utf8_lossy;
use leveldb_parser::decoder::decode_indexeddb_entry;
use leveldb_parser::decoder::decode_indexeddb_key;
use leveldb_parser::decoder::decode_kv;
use leveldb_parser::decoder::decode_local_storage_key;
use leveldb_parser::decoder::decode_local_storage_meta;
use leveldb_parser::decoder::decode_local_storage_value;
use leveldb_parser::decoder::detect_storage_kind;
use leveldb_parser::decoder::parse_varint;
use leveldb_parser::decoder::try_utf16be;
use leveldb_parser::decoder::try_utf16le;
use leveldb_parser::decoder::StorageKind;

fn utf16le(s: &str) -> Vec<u8> {
    let mut out = Vec::new();
    for unit in s.encode_utf16() {
        out.extend_from_slice(&unit.to_le_bytes());
    }
    out
}

#[test]
fn storage_kind_detection() {
    assert_eq!(
        detect_storage_kind("/profile/Local Storage/leveldb/000001.ldb"),
        StorageKind::LocalStorage
    );
    assert_eq!(
        detect_storage_kind("/profile/SESSION STORAGE/000001.log"),
        StorageKind::SessionStorage
    );
    assert_eq!(
        detect_storage_kind("/profile/IndexedDB/db.leveldb/x.ldb"),
        StorageKind::IndexedDb
    );
    assert_eq!(detect_storage_kind("/tmp/whatever.ldb"), StorageKind::Generic);
    // the first marker wins
    assert_eq!(
        detect_storage_kind("/Local Storage/Session Storage/x"),
        StorageKind::LocalStorage
    );
}

#[test]
fn session_storage_map_value_is_utf16() {
    let (k, v) = decode_kv(
        StorageKind::SessionStorage,
        b"map-foo",
        Some(&utf16le("bar")),
    );
    assert_eq!(k, "map-foo");
    assert_eq!(v, "bar");
}

#[test]
fn session_storage_other_value_is_utf8() {
    let (k, v) = decode_kv(StorageKind::SessionStorage, b"namespace-x", Some(b"plain"));
    assert_eq!(k, "namespace-x");
    assert_eq!(v, "plain");
}

#[test]
fn generic_kind_is_lossy_utf8() {
    let (k, v) = decode_kv(StorageKind::Generic, b"some key", Some(b"some value"));
    assert_eq!(k, "some key");
    assert_eq!(v, "some value");
}

#[test]
fn deletion_decodes_to_empty_value() {
    let (k, v) = decode_kv(StorageKind::Generic, b"gone", None);
    assert_eq!(k, "gone");
    assert_eq!(v, "");
}

#[test]
fn hex_and_ascii_renderings() {
    assert_eq!(bytes_to_hex(&[0xde, 0xad, 0x01]), "\\xDE\\xAD\\x01");
    assert_eq!(bytes_to_ascii(b"a\x01b "), "a.b ");
    assert_eq!(bytes_to_ascii_with_hex(b"a\x01b"), "a\\x01b");
    assert_eq!(bytes_to_latin1_hex_escaped(&[0x61, 0x07, 0xe9]), "a\\x07\u{e9}");
}

#[test]
fn utf8_lossy_strips_control_chars() {
    assert_eq!(bytes_to_utf8_lossy(b"a\x01b\ncd"), "abcd");
    assert_eq!(bytes_to_utf8_lossy(&[]), "");
}

#[test]
fn utf16_decoders() {
    assert_eq!(try_utf16le(&utf16le("hi")).unwrap(), "hi");
    assert_eq!(try_utf16be(&[0x00, 0x68, 0x00, 0x69]).unwrap(), "hi");
    // an odd byte count cannot be UTF-16
    assert!(try_utf16le(&[0x68]).is_none());
    // all-control text is rejected
    assert!(try_utf16le(&utf16le("\u{1}")).is_none());
}

#[test]
fn local_storage_item_key_utf16_flag() {
    let mut key = b"_https://example.org".to_vec();
    key.push(0x00);
    key.push(0x00); // UTF-16LE flag
    key.extend_from_slice(&utf16le("item"));
    assert_eq!(decode_local_storage_key(&key), "_https://example.org item");
}

#[test]
fn local_storage_item_key_latin1_flag() {
    let mut key = b"_origin".to_vec();
    key.push(0x00);
    key.push(0x01); // Latin-1 flag
    key.extend_from_slice(b"item");
    assert_eq!(decode_local_storage_key(&key), "_origin item");
}

#[test]
fn local_storage_key_without_nul_falls_back() {
    assert_eq!(decode_local_storage_key(b"_plain"), "_plain");
}

#[test]
fn local_storage_values() {
    let mut v = vec![0x00];
    v.extend_from_slice(&utf16le("wide"));
    assert_eq!(decode_local_storage_value(&v), "wide");

    let mut v = vec![0x01];
    v.extend_from_slice(b"narrow");
    assert_eq!(decode_local_storage_value(&v), "narrow");

    // no known flag byte: hex of the whole value
    assert_eq!(decode_local_storage_value(&[0x7f, 0x41]), "\\x7F\\x41");
}

#[test]
fn local_storage_meta_value() {
    // field 1: creation time in microseconds since 1601; field 2: size
    let ts: u64 = 13200000000000000;
    let unix_seconds = (ts - 11644473600000000) / 1_000_000;
    let expected_time = chrono::DateTime::from_timestamp(unix_seconds as i64, 0)
        .unwrap()
        .to_rfc3339_opts(chrono::SecondsFormat::Millis, true);

    let mut value = vec![0x08]; // field 1, varint
    let mut t = ts;
    while t >= 0x80 {
        value.push(((t & 0x7f) as u8) | 0x80);
        t >>= 7;
    }
    value.push(t as u8);
    value.push(0x10); // field 2, varint
    value.push(5);

    let text = decode_local_storage_meta(&value);
    assert_eq!(text, format!("{} (5)", expected_time));
}

#[test]
fn local_storage_meta_empty_falls_back_to_hex() {
    assert_eq!(decode_local_storage_meta(&[0xff, 0x01]), "\\xFF\\x01");
}

#[test]
fn local_storage_version_key() {
    let (k, v) = decode_kv(StorageKind::LocalStorage, b"VERSION", Some(b"1"));
    assert_eq!(k, "VERSION");
    assert_eq!(v, "1");
}

#[test]
fn indexeddb_string_key() {
    // entry type 1: a varint code-unit count, then UTF-16BE units
    let mut payload = vec![0x03];
    payload.extend_from_slice(&[0x00, 0x62, 0x00, 0x61, 0x00, 0x72]);
    assert_eq!(decode_indexeddb_key(0x01, &payload), "bar");
}

#[test]
fn indexeddb_other_key_is_hex() {
    assert_eq!(decode_indexeddb_key(0x00, &[0xab]), "\\xAB");
}

#[test]
fn indexeddb_record_key_pattern() {
    // bytes 0..3 arbitrary, byte 3 is 0x01, byte 4 the entry type
    let mut key = vec![0x00, 0x01, 0x02, 0x01, 0x01];
    key.push(0x02);
    key.extend_from_slice(&[0x00, 0x68, 0x00, 0x69]);
    let (k, _) = decode_kv(StorageKind::IndexedDb, &key, None);
    assert_eq!(k, "hi");

    // a key that does not match the pattern is hex-escaped
    let (k, _) = decode_kv(StorageKind::IndexedDb, &[0x09, 0x08], None);
    assert_eq!(k, "\\x09\\x08");
}

#[test]
fn v8_object_value() {
    let mut value = vec![0xff, 0xff, 0x01];
    value.push(0x6f); // object start
    value.push(0x22); // one-byte string "ab"
    value.push(2);
    value.extend_from_slice(b"ab");
    value.push(0x22); // one-byte string "cd"
    value.push(2);
    value.extend_from_slice(b"cd");
    value.push(0x7b); // object end
    value.push(1); // property count
    assert_eq!(decode_indexeddb_entry(&value), "{\"ab\":\"cd\"}");
}

#[test]
fn v8_array_and_primitives() {
    let mut value = vec![0xff, 0xff, 0x01];
    value.push(0x41); // dense array start
    value.push(3); // length
    value.push(0x54); // true
    value.push(0x46); // false
    value.push(0x30); // null
    value.push(0x24); // dense array end
    value.push(3);
    value.push(3);
    assert_eq!(decode_indexeddb_entry(&value), "[true,false,null]");
}

#[test]
fn v8_zigzag_integers() {
    let mut value = vec![0xff, 0xff, 0x01];
    value.push(0x49);
    value.push(0x04); // zigzag 4 -> 2
    value.push(0x49);
    value.push(0x03); // zigzag 3 -> -2
    assert_eq!(decode_indexeddb_entry(&value), "2 -2");
}

#[test]
fn v8_utf16_string() {
    let mut value = vec![0xff, 0xff, 0x01];
    value.push(0x63);
    let body = utf16le("wide");
    value.push(body.len() as u8);
    value.extend_from_slice(&body);
    assert_eq!(decode_indexeddb_entry(&value), "\"wide\"");
}

#[test]
fn v8_unknown_tag_is_hex_escaped() {
    let value = vec![0xff, 0xff, 0x01, 0x99];
    assert_eq!(decode_indexeddb_entry(&value), "\\x99");
}

#[test]
fn v8_missing_header_falls_back_to_utf8() {
    assert_eq!(decode_indexeddb_entry(b"just text"), "just text");
}

#[test]
fn v8_double_shows_raw_bytes() {
    // binary64 scalars stay outside verified code: their eight bytes are
    // shown hex-escaped
    let mut value = vec![0xff, 0xff, 0x01];
    value.push(0x4e);
    value.extend_from_slice(&[0, 0, 0, 0, 0, 0, 0xf0, 0x3f]);
    assert_eq!(
        decode_indexeddb_entry(&value),
        "\\x00\\x00\\x00\\x00\\x00\\x00\\xF0\\x3F"
    );
}

#[test]
fn loose_varint_parse() {
    assert_eq!(parse_varint(&[0xac, 0x02, 0x07]), (300, 2));
    assert_eq!(parse_varint(&[]), (0, 0));
    assert_eq!(parse_varint(&[0x80, 0x80]), (0, 2));
}

#[test]
fn utf8_lossy_decodes_multibyte_chars() {
    // a two-byte UTF-8 sequence is one char, not two Latin-1 chars
    assert_eq!(bytes_to_utf8_lossy("caf\u{e9}".as_bytes()), "caf\u{e9}");
    // an invalid byte becomes the replacement char
    assert_eq!(bytes_to_utf8_lossy(&[0x61, 0xff]), "a\u{fffd}");
}

#[test]
fn utf16_surrogate_pairs_decode_to_one_char() {
    let bytes = utf16le("\u{1f600}");
    assert_eq!(bytes.len(), 4);
    assert_eq!(try_utf16le(&bytes).unwrap(), "\u{1f600}");
    // an unpaired surrogate is rejected
    assert!(try_utf16le(&[0x00, 0xd8]).is_none());
}

#[test]
fn meta_timestamp_at_unix_epoch() {
    // the metadata epoch offset itself lands exactly on the Unix epoch
    let ts: u64 = 11644473600000000;
    let mut value = vec![0x08];
    let mut t = ts;
    while t >= 0x80 {
        value.push(((t & 0x7f) as u8) | 0x80);
        t >>= 7;
    }
    value.push(t as u8);
    assert_eq!(decode_local_storage_meta(&value), "1970-01-01T00:00:00.000Z");
}
