use serial_logger::args::StringParsingMode;
use serial_logger::error::Error;
use serial_logger::loops::{contains_newline, normalize_byte, ReadLoop, ReadOutcome};
use serial_logger::time_stamp::{decode_record, frame_record, stamp_record};

fn reassembler(capacity: usize) -> ReadLoop {
    ReadLoop::new(capacity, StringParsingMode::Utf8, false)
}

fn feed(chunks: &[&[u8]], capacity: usize) -> (Vec<Vec<u8>>, Vec<u8>) {
    let mut r = reassembler(capacity);
    let mut records = Vec::new();
    for chunk in chunks {
        records.extend(r.ingest(chunk).unwrap());
    }
    (records, r.pending_bytes())
}

#[test]
fn two_chunks_with_capacity_sixteen() {
    let mut r = reassembler(16);
    let first = r.ingest(b"AB").unwrap();
    assert!(first.is_empty());
    assert_eq!(r.pending_bytes(), b"AB".to_vec());
    let second = r.ingest(b"CD\nEFGH\n").unwrap();
    assert_eq!(second, vec![b"ABCD\n".to_vec(), b"EFGH\n".to_vec()]);
    assert!(r.pending_bytes().is_empty());
}

#[test]
fn carriage_return_becomes_space() {
    let mut r = reassembler(16);
    let records = r.ingest(b"X\r\nY\n").unwrap();
    assert_eq!(records, vec![b"X \n".to_vec(), b"Y\n".to_vec()]);
    assert!(r.pending_bytes().is_empty());
}

#[test]
fn bare_carriage_return_is_not_a_delimiter() {
    let mut r = reassembler(16);
    let records = r.ingest(b"A\rB").unwrap();
    assert!(records.is_empty());
    assert_eq!(r.pending_bytes(), b"A B".to_vec());
}

#[test]
fn consecutive_delimiters_give_an_empty_record() {
    let mut r = reassembler(16);
    let records = r.ingest(b"A\n\nB\n").unwrap();
    assert_eq!(records, vec![b"A\n".to_vec(), b"\n".to_vec(), b"B\n".to_vec()]);
}

#[test]
fn delimiter_split_across_reads_gives_the_same_record() {
    let whole = feed(&[b"HELLO\nWOR", b"LD\n"], 32);
    let split = feed(&[b"HEL", b"LO", b"\n", b"WORLD", b"\n"], 32);
    let single = feed(&[b"HELLO\nWORLD\n"], 32);
    assert_eq!(whole, single);
    assert_eq!(split, single);
    assert_eq!(single.0, vec![b"HELLO\n".to_vec(), b"WORLD\n".to_vec()]);
}

#[test]
fn rechunking_keeps_the_stream() {
    let stream: &[u8] = b"a\r\nbb\n\nccc\r\nd";
    let expected: Vec<u8> = stream.iter().map(|&b| if b == b'\r' { b' ' } else { b }).collect();
    for cut in 0..=stream.len() {
        let (first, second) = stream.split_at(cut);
        let (records, pending) = feed(&[first, second], 64);
        let mut joined: Vec<u8> = records.concat();
        joined.extend(pending);
        assert_eq!(joined, expected);
    }
    let one_by_one: Vec<&[u8]> = stream.chunks(1).collect();
    let (records, pending) = feed(&one_by_one, 64);
    assert_eq!(records.len(), 4);
    assert_eq!(pending, b"d".to_vec());
}

#[test]
fn bytes_beyond_capacity_overflow() {
    let mut r = reassembler(4);
    assert_eq!(r.ingest(b"AB"), Ok(vec![]));
    assert_eq!(r.ingest(b"CDE"), Err(Error::BufferOverflow));
    assert_eq!(r.pending_bytes(), b"AB".to_vec());
}

#[test]
fn filling_the_buffer_without_delimiter_overflows() {
    let mut r = reassembler(4);
    assert_eq!(r.ingest(b"ABCD"), Err(Error::BufferOverflow));
    assert!(r.pending_bytes().is_empty());
    assert_eq!(r.ingest(b"ABC\n"), Ok(vec![b"ABC\n".to_vec()]));
}

#[test]
fn empty_read_is_a_no_op() {
    let mut r = reassembler(8);
    r.ingest(b"AB").unwrap();
    assert_eq!(r.ingest(b""), Ok(vec![]));
    assert_eq!(r.pending_bytes(), b"AB".to_vec());
    assert_eq!(r.free_space(), 6);
}

#[test]
fn nul_substitution_when_enabled() {
    let mut on = ReadLoop::new(8, StringParsingMode::Utf8, true);
    assert_eq!(on.ingest(b"a\0\n"), Ok(vec![b"a?\n".to_vec()]));
    let mut off = ReadLoop::new(8, StringParsingMode::Utf8, false);
    assert_eq!(off.ingest(b"a\0\n"), Ok(vec![b"a\0\n".to_vec()]));
}

#[test]
fn transient_reads_are_empty() {
    let mut r = reassembler(8);
    r.ingest(b"AB").unwrap();
    assert_eq!(r.run(ReadOutcome::TimedOut), Ok(vec![]));
    assert_eq!(r.run(ReadOutcome::Interrupted), Ok(vec![]));
    assert_eq!(r.pending_bytes(), b"AB".to_vec());
}

#[test]
fn other_read_errors_are_fatal() {
    let mut r = reassembler(8);
    assert_eq!(r.run(ReadOutcome::Failed), Err(Error::DeviceReadFailed));
}

#[test]
fn run_returns_each_record() {
    let mut r = reassembler(16);
    assert!(r.run(ReadOutcome::Data(b"AB".to_vec())).unwrap().is_empty());
    let records = r.run(ReadOutcome::Data(b"CD\nE\r\n".to_vec())).unwrap();
    assert_eq!(records, vec![b"ABCD\n".to_vec(), b"E \n".to_vec()]);
    assert_eq!(r.mode(), StringParsingMode::Utf8);
}

#[test]
fn stamp_record_frames_the_decoded_record() {
    let line = stamp_record(b"ABCD\n", StringParsingMode::Utf8, "2024-05-06 07:08:09 +00:00");
    assert_eq!(line, "2024-05-06 07:08:09 +00:00: ABCD\n");
    assert_eq!(stamp_record(b"\n", StringParsingMode::Utf8, "T"), "T: \n");
}

#[test]
fn run_reports_overflow() {
    let mut r = reassembler(4);
    assert_eq!(r.run(ReadOutcome::Data(b"ABCDE".to_vec())), Err(Error::BufferOverflow));
}

#[test]
fn frame_record_joins_with_separator() {
    assert_eq!(frame_record("2024-01-01 00:00:00", "hi\n"), "2024-01-01 00:00:00: hi\n");
}

#[test]
fn invalid_utf8_is_replaced() {
    assert_eq!(decode_record(&[b'a', 0xff, b'\n'], StringParsingMode::Utf8), "a\u{FFFD}\n");
    let line = stamp_record(&[0xff, b'\n'], StringParsingMode::Utf8, "T");
    assert_eq!(line, "T: \u{FFFD}\n");
}

#[test]
fn byte_helpers() {
    assert_eq!(normalize_byte(b'\r', false), b' ');
    assert_eq!(normalize_byte(0, true), b'?');
    assert_eq!(normalize_byte(0, false), 0);
    assert_eq!(normalize_byte(b'\n', true), b'\n');
    assert!(contains_newline(b"ab\ncd"));
    assert!(!contains_newline(b"ab\rcd"));
    assert!(!contains_newline(b""));
}
