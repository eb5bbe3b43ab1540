//! Plain-text status-log decoding: each line splits at its first two spaces
//! into a timestamp, a thread id, and a message.

use vstd::prelude::*;

use crate::csv;
use crate::decoder::spec_find_byte_from;
use crate::foreign;
use crate::foreign::utf8_lossy_of;
use crate::utils;

verus! {

/// One line of a status log.
pub struct LogEntry {
    pub timestamp: String,
    pub thread_id: String,
    pub message: String,
}

/// Mathematical model of a `LogEntry`.
pub struct LogEntryModel {
    pub timestamp: Seq<char>,
    pub thread_id: Seq<char>,
    pub message: Seq<char>,
}

impl View for LogEntry {
    type V = LogEntryModel;

    open spec fn view(&self) -> LogEntryModel {
        LogEntryModel {
            timestamp: self.timestamp@,
            thread_id: self.thread_id@,
            message: self.message@,
        }
    }
}

/// A decoded status log.
pub struct LogTextFile {
    pub entries: Vec<LogEntry>,
}

/// The entry a line's bytes split into: the text before the first space,
/// the text between the first and second spaces, and the rest. A line with
/// fewer than two spaces carries no entry. Each part is decoded as lossy
/// UTF-8.
pub open spec fn spec_log_text_entry(line: Seq<u8>) -> Option<LogEntryModel> {
    match spec_find_byte_from(line, 0, 0x20) {
        None => None,
        Some(p1) => match spec_find_byte_from(line, p1 + 1, 0x20) {
            None => None,
            Some(p2) => Some(
                LogEntryModel {
                    timestamp: utf8_lossy_of(line.subrange(0, p1)),
                    thread_id: utf8_lossy_of(line.subrange(p1 + 1, p2)),
                    message: utf8_lossy_of(line.subrange(p2 + 1, line.len() as int)),
                },
            ),
        },
    }
}

/// The entries of the lines from `i` on; lines with fewer than two spaces
/// are skipped.
pub open spec fn spec_log_text_entries(lines: Seq<Seq<u8>>, i: int) -> Seq<LogEntryModel>
    decreases lines.len() - i,
{
    if i < 0 || i >= lines.len() {
        Seq::empty()
    } else {
        match spec_log_text_entry(lines[i]) {
            None => spec_log_text_entries(lines, i + 1),
            Some(e) => seq![e] + spec_log_text_entries(lines, i + 1),
        }
    }
}

/// Find the first space in `line` at or after `from`.
#[verifier::loop_isolation(false)]
fn find_space(line: &[u8], from: usize) -> (r: Option<usize>)
    requires
        from <= line@.len(),
    ensures
        match r {
            Some(p) => spec_find_byte_from(line@, from as int, 0x20) == Some(p as int) && from <= p
                < line@.len(),
            None => spec_find_byte_from(line@, from as int, 0x20) is None,
        },
{
    let mut i: usize = from;
    loop
        invariant
            from <= i <= line@.len(),
            spec_find_byte_from(line@, from as int, 0x20) == spec_find_byte_from(
                line@,
                i as int,
                0x20,
            ),
        decreases line@.len() - i,
    {
        if i >= line.len() {
            return None;
        }
        if line[i] == 0x20 {
            return Some(i);
        }
        i = i + 1;
    }
}

/// Split one line into an entry (see `spec_log_text_entry`).
fn parse_line(line: &[u8]) -> (r: Option<LogEntry>)
    ensures
        match r {
            Some(e) => spec_log_text_entry(line@) == Some(e@),
            None => spec_log_text_entry(line@) is None,
        },
{
    let line_len = line.len();
    let p1 = match find_space(line, 0) {
        Some(p) => p,
        None => {
            return None;
        },
    };
    let p2 = match find_space(line, p1 + 1) {
        Some(p) => p,
        None => {
            return None;
        },
    };
    let ts = foreign::utf8_lossy_chars(vstd::slice::slice_subrange(line, 0, p1));
    let tid = foreign::utf8_lossy_chars(vstd::slice::slice_subrange(line, p1 + 1, p2));
    let msg = foreign::utf8_lossy_chars(vstd::slice::slice_subrange(line, p2 + 1, line_len));
    Some(
        LogEntry {
            timestamp: foreign::chars_to_string(&ts),
            thread_id: foreign::chars_to_string(&tid),
            message: foreign::chars_to_string(&msg),
        },
    )
}

/// Decode a status log from its lines: each line with at least two spaces
/// yields an entry (see `spec_log_text_entry`); the rest are skipped.
#[verifier::loop_isolation(false)]
pub fn parse_log_text(lines: &Vec<Vec<u8>>) -> (r: LogTextFile)
    ensures
        r.entries@.map_values(|e: LogEntry| e@) == spec_log_text_entries(
            lines@.map_values(|l: Vec<u8>| l@),
            0,
        ),
{
    let ghost lm = lines@.map_values(|l: Vec<u8>| l@);
    let mut entries: Vec<LogEntry> = Vec::new();
    let mut i: usize = 0;

    loop
        invariant
            i <= lines@.len(),
            lm == lines@.map_values(|l: Vec<u8>| l@),
            spec_log_text_entries(lm, 0) == entries@.map_values(|e: LogEntry| e@)
                + spec_log_text_entries(lm, i as int),
        decreases lines@.len() - i,
    {
        let ghost map0 = entries@.map_values(|e: LogEntry| e@);
        if i >= lines.len() {
            proof {
                utils::lemma_seq_concat_empty(map0);
            }
            return LogTextFile { entries };
        }
        match parse_line(lines[i].as_slice()) {
            Some(entry) => {
                proof {
                    utils::lemma_map_values_push(entries@, |e: LogEntry| e@, entry);
                    utils::lemma_seq_push_concat(map0, entry@);
                    utils::lemma_seq_concat_assoc(
                        map0,
                        seq![entry@],
                        spec_log_text_entries(lm, i as int + 1),
                    );
                }
                entries.push(entry);
            },
            None => {},
        }
        i = i + 1;
    }
}

/// One CSV row of a status log: timestamp, thread id, message (escaped),
/// and file name.
pub open spec fn spec_log_text_row(e: LogEntryModel, filename: Seq<char>) -> Seq<char> {
    csv::spec_quoted(e.timestamp) + seq![','] + csv::spec_quoted(e.thread_id) + seq![',']
        + csv::spec_quoted(csv::spec_csv_escape(e.message)) + seq![','] + csv::spec_quoted(filename)
        + seq!['\n']
}

/// The CSV rows of the entries from `i` on.
pub open spec fn spec_log_text_rows(entries: Seq<LogEntryModel>, i: int, filename: Seq<char>) -> Seq<
    char,
>
    decreases entries.len() - i,
{
    if i < 0 || i >= entries.len() {
        Seq::empty()
    } else {
        spec_log_text_row(entries[i], filename) + spec_log_text_rows(entries, i + 1, filename)
    }
}

/// The CSV text of a status log: a fixed header, then one row per entry.
pub open spec fn spec_log_text_csv(entries: Seq<LogEntryModel>, filename: Seq<char>) -> Seq<char> {
    ("\"Date\",\"ThreadId\",\"Msg\",\"File\"\n")@ + spec_log_text_rows(entries, 0, filename)
}

/// Render a status log as CSV (see `spec_log_text_csv`).
#[verifier::loop_isolation(false)]
pub fn csv_string(log_file: &LogTextFile, filename: &str) -> (r: String)
    ensures
        r@ == spec_log_text_csv(log_file.entries@.map_values(|e: LogEntry| e@), filename@),
{
    let ghost em = log_file.entries@.map_values(|e: LogEntry| e@);
    let fname = foreign::str_chars(filename);
    let mut out: Vec<char> = Vec::new();
    csv::push_lit(&mut out, "\"Date\",\"ThreadId\",\"Msg\",\"File\"\n");
    proof {
        utils::lemma_seq_empty_concat(("\"Date\",\"ThreadId\",\"Msg\",\"File\"\n")@);
    }

    let mut i: usize = 0;
    loop
        invariant
            i <= log_file.entries@.len(),
            em == log_file.entries@.map_values(|e: LogEntry| e@),
            fname@ == filename@,
            spec_log_text_csv(em, filename@) == out@ + spec_log_text_rows(em, i as int, filename@),
        decreases log_file.entries@.len() - i,
    {
        let ghost out0 = out@;
        if i >= log_file.entries.len() {
            proof {
                utils::lemma_seq_concat_empty(out@);
            }
            return foreign::chars_to_string(&out);
        }
        let entry = &log_file.entries[i];
        let ts = foreign::str_chars(entry.timestamp.as_str());
        let tid = foreign::str_chars(entry.thread_id.as_str());
        let msg = foreign::str_chars(entry.message.as_str());

        csv::push_quoted_raw(&mut out, ts.as_slice());
        out.push(',');
        csv::push_quoted_raw(&mut out, tid.as_slice());
        out.push(',');
        csv::push_quoted_escaped(&mut out, msg.as_slice());
        out.push(',');
        csv::push_quoted_raw(&mut out, fname.as_slice());
        out.push('\n');

        proof {
            assert(out@ =~= out0 + spec_log_text_row(em[i as int], filename@));
            utils::lemma_seq_concat_assoc(
                out0,
                spec_log_text_row(em[i as int], filename@),
                spec_log_text_rows(em, i as int + 1, filename@),
            );
        }
        i = i + 1;
    }
}

} // verus!
