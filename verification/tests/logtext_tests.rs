use leveldb_parser::log_text_parser::csv_string;
use leveldb_parser::log_text_parser::parse_log_text;

#[test]
fn lines_split_into_fields() {
    let lines: Vec<Vec<u8>> = vec![
        b"2024/01/05-10:00:01.123 7f2c Recovering log #3".to_vec(),
        b"short line".to_vec(),
        b"2024/01/05-10:00:02.456 7f2c Delete type=0 #3".to_vec(),
    ];
    let log = parse_log_text(&lines);
    assert_eq!(log.entries.len(), 2);
    assert_eq!(log.entries[0].timestamp, "2024/01/05-10:00:01.123");
    assert_eq!(log.entries[0].thread_id, "7f2c");
    assert_eq!(log.entries[0].message, "Recovering log #3");
    assert_eq!(log.entries[1].message, "Delete type=0 #3");
}

#[test]
fn empty_segments_are_kept() {
    let lines: Vec<Vec<u8>> = vec![b"a  b".to_vec()];
    let log = parse_log_text(&lines);
    assert_eq!(log.entries.len(), 1);
    assert_eq!(log.entries[0].timestamp, "a");
    assert_eq!(log.entries[0].thread_id, "");
    assert_eq!(log.entries[0].message, "b");
}

#[test]
fn csv_escapes_the_message() {
    let lines: Vec<Vec<u8>> = vec![b"t1 id1 say \"hi\"".to_vec()];
    let log = parse_log_text(&lines);
    let csv = csv_string(&log, "LOG");
    let mut it = csv.lines();
    assert_eq!(it.next().unwrap(), "\"Date\",\"ThreadId\",\"Msg\",\"File\"");
    assert_eq!(it.next().unwrap(), "\"t1\",\"id1\",\"say \"\"hi\"\"\",\"LOG\"");
}
