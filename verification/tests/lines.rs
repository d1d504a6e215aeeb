use agent_communication_hub::line::{LineReader, LineResult, ReadLineError, MAX_LINE_BYTES};
use agent_communication_hub::wire::to_jsonl;

fn read(chunks: &[&[u8]]) -> LineResult {
    let mut reader = LineReader::new();
    for chunk in chunks {
        if let Some(result) = reader.feed(chunk).result {
            return result;
        }
    }
    reader.feed(&[]).result.unwrap()
}

#[test]
fn a_line_ends_at_the_newline() {
    let mut reader = LineReader::new();
    let step = reader.feed(b"hello\nrest");
    assert_eq!(step.consumed, 6);
    assert_eq!(step.result.unwrap().unwrap(), Some("hello".to_string()));
}

#[test]
fn the_reader_goes_on_with_the_next_line() {
    let mut reader = LineReader::new();
    let stream = b"one\ntwo\n";
    let first = reader.feed(stream);
    assert_eq!(first.result.unwrap().unwrap(), Some("one".to_string()));
    let second = reader.feed(&stream[first.consumed..]);
    assert_eq!(second.consumed, 4);
    assert_eq!(second.result.unwrap().unwrap(), Some("two".to_string()));
}

#[test]
fn chunks_make_no_difference() {
    let whole: &[u8] = "gr\u{fc}n\nmore".as_bytes();
    let expected = Some("gr\u{fc}n".to_string());
    assert_eq!(read(&[whole]).unwrap(), expected);
    for cut in 1..whole.len() {
        assert_eq!(read(&[&whole[..cut], &whole[cut..]]).unwrap(), expected);
    }
    let bytes: Vec<&[u8]> = whole.chunks(1).collect();
    assert_eq!(read(&bytes).unwrap(), expected);
}

#[test]
fn an_empty_line_is_a_line() {
    assert_eq!(read(&[b"\n"]).unwrap(), Some(String::new()));
}

#[test]
fn closing_between_lines_is_clean() {
    assert_eq!(read(&[]).unwrap(), None);
}

#[test]
fn closing_within_a_line_is_not() {
    let error = read(&[b"hel", b"lo"]).unwrap_err();
    assert!(matches!(error, ReadLineError::TruncatedLine { received: 5 }));
    assert_eq!(error.to_string(), "connection closed mid-line after 5 bytes");
}

#[test]
fn invalid_utf8_is_refused() {
    let error = read(&[&[0xff, 0xfe, b'\n']]).unwrap_err();
    assert!(matches!(error, ReadLineError::NotUtf8));
    assert_eq!(error.to_string(), "line is not valid UTF-8");
}

#[test]
fn the_longest_line_fits() {
    let mut stream = vec![b'x'; MAX_LINE_BYTES];
    stream.push(b'\n');
    let line = read(&[&stream]).unwrap().unwrap();
    assert_eq!(line.len(), 1_048_576);
}

#[test]
fn a_longer_line_is_refused_with_or_without_its_newline() {
    let mut stream = vec![b'x'; MAX_LINE_BYTES + 1];
    let open = read(&[&stream]).unwrap_err();
    assert!(matches!(open, ReadLineError::TooLong));
    assert_eq!(open.to_string(), "line exceeds 1048576 byte limit");
    stream.push(b'\n');
    assert!(matches!(read(&[&stream]).unwrap_err(), ReadLineError::TooLong));
}

#[test]
fn a_failed_read_is_told_with_its_cause() {
    let error = ReadLineError::Io { source: "connection reset".to_string() };
    assert_eq!(error.to_string(), "socket read failed: connection reset");
}

#[test]
fn what_is_framed_is_read_back() {
    let json = "{\"ok\":{}}".to_string();
    let line = to_jsonl(Ok(json.clone())).unwrap();
    let mut reader = LineReader::new();
    let step = reader.feed(line.as_bytes());
    assert_eq!(step.consumed, line.len());
    assert_eq!(step.result.unwrap().unwrap(), Some(json));
}
