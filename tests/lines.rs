use vmemcached::driver::expect_found;
use vmemcached::error::{check_keys_len, ClientError, DriverError};
use vmemcached::line_reader::{AsciiProtocol, CappedLineReader, LineStatus, LINE_CAPACITY};
use vmemcached::parser::{parse_get_line, take_data_block, ErrorKind, FramingError, Status};
use vmemcached::reply::{parse_error_line, parse_ok_response, parse_stat_line, parse_stats, parse_version, LineOutcome, Stat, StatsOutcome};

#[test]
fn get_lines_of_a_retrieval_reply() {
    assert!(matches!(parse_get_line(b"END"), Ok(None)));
    let h = parse_get_line(b"VALUE foo 3 5 77").unwrap().unwrap();
    assert_eq!(h.key, b"foo".to_vec());
    assert_eq!(h.flags, 3);
    assert_eq!(h.len, 5);
    assert_eq!(h.cas, Some(77));
    let h = parse_get_line(b"VALUE foo 0 2").unwrap().unwrap();
    assert_eq!(h.cas, None);
    assert!(parse_get_line(b"END ").is_err());
    assert!(parse_get_line(b"VALUE foo").is_err());
}

#[test]
fn data_blocks_end_in_a_terminator() {
    assert_eq!(take_data_block(b"hello\r\n", 5), Ok(b"hello".to_vec()));
    assert_eq!(take_data_block(b"\r\n", 0), Ok(vec![]));
    assert_eq!(take_data_block(b"hello\r\n", 4), Err(FramingError));
    assert_eq!(take_data_block(b"hello!!", 5), Err(FramingError));
    assert_eq!(take_data_block(b"", 0), Err(FramingError));
}

#[test]
fn one_line_replies() {
    assert_eq!(parse_version(b"VERSION 1.6.9\r\n"), Ok(LineOutcome::Text("1.6.9".to_string(), 15)));
    assert_eq!(parse_version(b"VERSION 1.6.9"), Ok(LineOutcome::Incomplete));
    assert_eq!(parse_version(b"VERSION\r\n"), Err(FramingError));
    assert_eq!(parse_ok_response(b"OK\r\nxx"), Ok(LineOutcome::Text(String::new(), 4)));
    assert_eq!(
        parse_ok_response(b"CLIENT_ERROR no\r\n"),
        Ok(LineOutcome::Refused(ErrorKind::Client("no".to_string()), 17))
    );
}

#[test]
fn error_lines() {
    assert_eq!(parse_error_line(b"ERROR"), Some(ErrorKind::NonexistentCommand));
    assert_eq!(parse_error_line(b"SERVER_ERROR x y"), Some(ErrorKind::Server("x y".to_string())));
    assert_eq!(parse_error_line(b"CLIENT_ERROR "), Some(ErrorKind::Client(String::new())));
    assert_eq!(parse_error_line(b"ERRORS"), None);
    assert_eq!(parse_error_line(b"SERVER_ERROR \xc3"), None);
}

#[test]
fn stat_lines() {
    assert_eq!(
        parse_stat_line(b"STAT uptime 42"),
        Some(Stat { name: b"uptime".to_vec(), value: b"42".to_vec() })
    );
    assert_eq!(parse_stat_line(b"STAT uptime"), None);
    assert_eq!(parse_stat_line(b"STAT  42"), None);
    assert_eq!(parse_stat_line(b"STATS a b"), None);
    assert_eq!(parse_stats(b"STAT a 1\r\nEND\r\nmore"), Ok(StatsOutcome::Listing(vec![Stat { name: b"a".to_vec(), value: b"1".to_vec() }], 15)));
    assert_eq!(parse_stats(b"STAT a 1\r\n"), Ok(StatsOutcome::Incomplete));
    assert_eq!(parse_stats(b"ERROR\r\n"), Ok(StatsOutcome::Refused(ErrorKind::NonexistentCommand, 7)));
    assert_eq!(parse_stats(b"STAT a 1\r\nERROR\r\n"), Err(FramingError));
}

#[test]
fn found_or_not() {
    assert_eq!(expect_found(Status::Deleted, Status::Deleted), Ok(true));
    assert_eq!(expect_found(Status::NotFound, Status::Touched), Ok(false));
    assert_eq!(expect_found(Status::Stored, Status::Touched), Err(DriverError::Mismatch));
}

#[test]
fn keys_checked_together() {
    assert_eq!(check_keys_len(&[b"a".to_vec(), vec![b'k'; 250]]), Ok(()));
    assert_eq!(check_keys_len(&[b"a".to_vec(), vec![b'k'; 251]]), Err(ClientError::KeyTooLong));
    assert_eq!(check_keys_len(&[]), Ok(()));
}

#[test]
fn messages_for_people() {
    assert_eq!(Status::NotStored.as_str(), "not stored");
    assert_eq!(Status::NotFound.as_str(), "not found");
    assert_eq!(ErrorKind::Client("bad".to_string()).message(), "client: bad");
    assert_eq!(ErrorKind::Protocol(None).message(), "protocol");
    assert_eq!(ErrorKind::Protocol(Some("eof".to_string())).message(), "protocol: eof");
    assert_eq!(ErrorKind::Generic("g".to_string()).message(), "generic: g");
    assert_eq!(ErrorKind::Server("s".to_string()).message(), "server: s");
    assert_eq!(ErrorKind::NonexistentCommand.message(), "command does not exist");
    assert_eq!(ClientError::KeyTooLong.message(), "The provided key was too long.");
    assert_eq!(ClientError::Error("boom".to_string()).message(), "boom");
}

#[test]
fn full_buffer_without_a_line_is_too_long() {
    let mut r = CappedLineReader::new(());
    r.fill(&vec![b'x'; LINE_CAPACITY - 1]);
    assert_eq!(r.next_line(), LineStatus::NeedMore);
    r.fill(b"\r");
    assert_eq!(r.spare(), 0);
    assert_eq!(r.next_line(), LineStatus::TooLong);
    let mut r = CappedLineReader::new(());
    r.fill(b"OK\r\n");
    assert_eq!(r.next_line(), LineStatus::Line(b"OK\r\n".to_vec()));
}

#[test]
fn protocol_holds_its_stream_behind_the_buffer() {
    let mut p = AsciiProtocol::new(vec![1u8]);
    p.reader_mut().fill(b"END\r\n");
    p.reader_mut().get_mut().push(2);
    assert_eq!(*p.reader_mut().get_mut(), vec![1u8, 2]);
    assert_eq!(p.reader_mut().take_line(), Some(b"END\r\n".to_vec()));
}
