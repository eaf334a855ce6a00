use vmemcached::parser::{parse_response, ErrorKind, FramingError, ParseOutcome, Response, Status, Value};
use vmemcached::wire::get_line;

fn complete(resp: Response, n: usize) -> Result<ParseOutcome, FramingError> {
    Ok(ParseOutcome::Complete(resp, n))
}

#[test]
fn get_reply_with_one_value() {
    let buf = b"VALUE foo 0 3\r\nbar\r\nEND\r\n";
    let expected = Value { key: b"foo".to_vec(), cas: None, flags: 0, data: b"bar".to_vec() };
    assert_eq!(parse_response(buf), complete(Response::Data(vec![expected]), buf.len()));
}

#[test]
fn get_reply_with_no_value() {
    assert_eq!(parse_response(b"END\r\n"), complete(Response::Data(vec![]), 5));
}

#[test]
fn delete_replies() {
    assert_eq!(parse_response(b"NOT_FOUND\r\n"), complete(Response::Status(Status::NotFound), 11));
    assert_eq!(parse_response(b"DELETED\r\n"), complete(Response::Status(Status::Deleted), 9));
}

#[test]
fn every_status_word() {
    let cases: Vec<(&[u8], Status)> = vec![
        (b"STORED\r\n", Status::Stored),
        (b"NOT_STORED\r\n", Status::NotStored),
        (b"EXISTS\r\n", Status::Exists),
        (b"TOUCHED\r\n", Status::Touched),
    ];
    for (buf, status) in cases {
        assert_eq!(parse_response(buf), complete(Response::Status(status), buf.len()));
    }
}

#[test]
fn client_error_reply() {
    let buf = b"CLIENT_ERROR bad command line format\r\n";
    assert_eq!(
        parse_response(buf),
        complete(Response::Error(ErrorKind::Client("bad command line format".to_string())), buf.len())
    );
}

#[test]
fn server_error_reply() {
    let buf = b"SERVER_ERROR out of memory storing object\r\n";
    let r = parse_response(buf);
    assert_eq!(
        r,
        complete(Response::Error(ErrorKind::Server("out of memory storing object".to_string())), buf.len())
    );
    if let Ok(ParseOutcome::Complete(resp, _)) = r {
        assert!(resp.is_server_error());
    }
    assert!(!Response::Status(Status::Stored).is_server_error());
}

#[test]
fn error_text_must_be_utf8() {
    assert_eq!(parse_response(b"CLIENT_ERROR \xff\xfe\r\n"), Err(FramingError));
}

#[test]
fn nonexistent_command_reply() {
    assert_eq!(parse_response(b"ERROR\r\n"), complete(Response::Error(ErrorKind::NonexistentCommand), 7));
}

#[test]
fn incr_decr_reply() {
    assert_eq!(parse_response(b"42\r\n"), complete(Response::IncrDecr(42), 4));
    assert_eq!(
        parse_response(b"18446744073709551615\r\n"),
        complete(Response::IncrDecr(u64::MAX), 22)
    );
    assert_eq!(parse_response(b"18446744073709551616\r\n"), Err(FramingError));
}

#[test]
fn short_data_block_is_incomplete_then_complete() {
    let partial = b"VALUE k 7 5\r\nabc";
    assert_eq!(parse_response(partial), Ok(ParseOutcome::Incomplete));
    let whole = b"VALUE k 7 5\r\nabcde\r\nEND\r\n";
    let expected = Value { key: b"k".to_vec(), cas: None, flags: 7, data: b"abcde".to_vec() };
    assert_eq!(parse_response(whole), complete(Response::Data(vec![expected]), whole.len()));
}

#[test]
fn data_block_without_terminator_is_rejected() {
    assert_eq!(parse_response(b"VALUE k 0 3\r\nbarXYEND\r\n"), Err(FramingError));
}

#[test]
fn several_records_with_cas() {
    let buf = b"VALUE a 1 2 10\r\nxy\r\nVALUE b 2 0 11\r\n\r\nEND\r\n";
    let a = Value { key: b"a".to_vec(), cas: Some(10), flags: 1, data: b"xy".to_vec() };
    let b = Value { key: b"b".to_vec(), cas: Some(11), flags: 2, data: vec![] };
    assert_eq!(parse_response(buf), complete(Response::Data(vec![a, b]), buf.len()));
}

#[test]
fn data_may_contain_line_terminators() {
    let buf = b"VALUE k 0 4\r\n\r\n\r\n\r\nEND\r\n";
    let v = Value { key: b"k".to_vec(), cas: None, flags: 0, data: b"\r\n\r\n".to_vec() };
    assert_eq!(parse_response(buf), complete(Response::Data(vec![v]), buf.len()));
}

#[test]
fn malformed_headers_are_rejected() {
    assert_eq!(parse_response(b"VALUE k 0\r\n"), Err(FramingError));
    assert_eq!(parse_response(b"VALUE k x 3\r\nabc\r\nEND\r\n"), Err(FramingError));
    assert_eq!(parse_response(b"VALUE k 4294967296 1\r\na\r\nEND\r\n"), Err(FramingError));
    assert_eq!(parse_response(b"VALUE  0 1\r\na\r\nEND\r\n"), Err(FramingError));
    assert_eq!(parse_response(b"VALUE k 0 1 2 3\r\na\r\nEND\r\n"), Err(FramingError));
}

#[test]
fn unknown_line_is_rejected() {
    assert_eq!(parse_response(b"HELLO\r\n"), Err(FramingError));
    assert_eq!(parse_response(b"stored\r\n"), Err(FramingError));
}

#[test]
fn no_line_yet_is_incomplete() {
    assert_eq!(parse_response(b""), Ok(ParseOutcome::Incomplete));
    assert_eq!(parse_response(b"STORED"), Ok(ParseOutcome::Incomplete));
    assert_eq!(parse_response(b"STORED\r"), Ok(ParseOutcome::Incomplete));
    assert_eq!(parse_response(b"VALUE foo 0 3\r\nbar\r\nEN"), Ok(ParseOutcome::Incomplete));
}

#[test]
fn trailing_bytes_are_not_consumed() {
    assert_eq!(parse_response(b"STORED\r\nDELETED\r\n"), complete(Response::Status(Status::Stored), 8));
}

#[test]
fn parsing_twice_gives_the_same_result() {
    let buf = b"VALUE foo 0 3\r\nbar\r\nEND\r\n";
    let first = parse_response(buf);
    let second = parse_response(buf);
    assert_eq!(first, second);
    assert!(matches!(first, Ok(ParseOutcome::Complete(_, 25))));
}

#[test]
fn every_chunking_gives_the_same_response() {
    let whole: &[u8] = b"VALUE foo 5 3 99\r\nbar\r\nVALUE baz 0 2\r\nqq\r\nEND\r\n";
    let expected = parse_response(whole);
    assert!(matches!(expected, Ok(ParseOutcome::Complete(_, n)) if n == whole.len()));
    for k in 0..=whole.len() {
        let r = parse_response(&whole[..k]);
        assert!(r == Ok(ParseOutcome::Incomplete) || r == expected, "prefix of {} bytes", k);
    }
}

#[test]
fn line_length_includes_terminator() {
    assert_eq!(get_line(b"END\r\nrest"), Some(5));
    assert_eq!(get_line(b"END\r"), None);
    assert_eq!(get_line(b"\r\n"), Some(2));
}
