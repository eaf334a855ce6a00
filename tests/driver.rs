use vmemcached::connection::{port_or_default, probe_is_broken, Probe, DEFAULT_PORT};
use vmemcached::driver::{expect_number, expect_status, expect_values, Exchange, Step};
use vmemcached::error::{check_key_len, ClientError, DriverError};
use vmemcached::line_reader::{CappedLineReader, LINE_CAPACITY};
use vmemcached::parser::{ErrorKind, Response, Status, Value};
use vmemcached::reply::Stat;
use vmemcached::settings::{Settings, DEFAULT_BUFFER_SIZE};

fn feed(whole: &[u8], chunk: usize) -> Step<Response> {
    let mut ex = Exchange::new(4, 1 << 20);
    for piece in whole.chunks(chunk) {
        match ex.receive_response(piece) {
            Step::Wait => continue,
            other => return other,
        }
    }
    Step::Wait
}

#[test]
fn exchange_result_does_not_depend_on_chunking() {
    let whole = b"VALUE foo 0 3\r\nbar\r\nEND\r\n";
    let expected = Step::Done(Response::Data(vec![Value {
        key: b"foo".to_vec(),
        cas: None,
        flags: 0,
        data: b"bar".to_vec(),
    }]));
    for size in 1..=whole.len() {
        assert_eq!(feed(whole, size), expected, "chunks of {}", size);
    }
}

#[test]
fn exchange_waits_for_the_whole_data_block() {
    let mut ex = Exchange::new(8, 1024);
    assert_eq!(ex.receive_response(b"VALUE k 0 5\r\nabc"), Step::Wait);
    assert!(!ex.finished());
    let step = ex.receive_response(b"de\r\nEND\r\n");
    let v = Value { key: b"k".to_vec(), cas: None, flags: 0, data: b"abcde".to_vec() };
    assert_eq!(step, Step::Done(Response::Data(vec![v])));
    assert!(ex.finished());
    assert!(ex.leftover().is_empty());
}

#[test]
fn exchange_keeps_bytes_after_the_reply() {
    let mut ex = Exchange::new(8, 1024);
    assert_eq!(ex.receive_response(b"STORED\r\nEXTRA"), Step::Done(Response::Status(Status::Stored)));
    assert_eq!(ex.leftover(), b"EXTRA");
}

#[test]
fn exchange_closed_connection_is_unexpected_eof() {
    let mut ex = Exchange::new(8, 1024);
    assert_eq!(ex.receive_response(b"VALUE k 0 5\r\n"), Step::Wait);
    assert_eq!(ex.receive_response(b""), Step::Failed(DriverError::UnexpectedEof));
    assert!(ex.finished());
}

#[test]
fn exchange_rejects_a_malformed_reply() {
    let mut ex = Exchange::new(8, 1024);
    assert_eq!(ex.receive_response(b"BOGUS\r\n"), Step::Failed(DriverError::Framing));
}

#[test]
fn exchange_bounds_an_incomplete_reply() {
    let mut ex = Exchange::new(8, 16);
    assert_eq!(ex.receive_response(b"VALUE k 0 100\r\n"), Step::Wait);
    assert_eq!(ex.receive_response(b"0123456789"), Step::Failed(DriverError::TooLarge));
}

#[test]
fn exchange_version_reply() {
    let mut ex = Exchange::new(8, 1024);
    assert_eq!(ex.receive_version(b"VERSION 1.6"), Step::Wait);
    assert_eq!(ex.receive_version(b".9\r\n"), Step::Done("1.6.9".to_string()));
    let mut ex = Exchange::new(8, 1024);
    assert_eq!(ex.receive_version(b"VERSION 38.0.0 mcrouter\r\n"), Step::Done("38.0.0 mcrouter".to_string()));
    let mut ex = Exchange::new(8, 1024);
    assert_eq!(
        ex.receive_version(b"SERVER_ERROR busy\r\n"),
        Step::Failed(DriverError::Server(ErrorKind::Server("busy".to_string())))
    );
    let mut ex = Exchange::new(8, 1024);
    assert_eq!(ex.receive_version(b"STORED\r\n"), Step::Failed(DriverError::Framing));
}

#[test]
fn exchange_ok_reply() {
    let mut ex = Exchange::new(8, 1024);
    assert_eq!(ex.receive_ok(b"OK\r\n"), Step::Done(String::new()));
    let mut ex = Exchange::new(8, 1024);
    assert_eq!(ex.receive_ok(b"ERROR\r\n"), Step::Failed(DriverError::Server(ErrorKind::NonexistentCommand)));
    let mut ex = Exchange::new(8, 1024);
    assert_eq!(ex.receive_ok(b"OKAY\r\n"), Step::Failed(DriverError::Framing));
}

#[test]
fn exchange_stats_listing() {
    let mut ex = Exchange::new(8, 1024);
    assert_eq!(ex.receive_stats(b"STAT pid 12\r\nSTAT version 1.6.9\r\n"), Step::Wait);
    let step = ex.receive_stats(b"STAT libevent 2.1 stable\r\nEND\r\n");
    let stat = |n: &[u8], v: &[u8]| Stat { name: n.to_vec(), value: v.to_vec() };
    assert_eq!(
        step,
        Step::Done(vec![
            stat(b"pid", b"12"),
            stat(b"version", b"1.6.9"),
            stat(b"libevent", b"2.1 stable"),
        ])
    );
    let mut ex = Exchange::new(8, 1024);
    assert_eq!(ex.receive_stats(b"END\r\n"), Step::Done(vec![]));
    let mut ex = Exchange::new(8, 1024);
    assert_eq!(ex.receive_stats(b"STAT pid\r\nEND\r\n"), Step::Failed(DriverError::Framing));
}

#[test]
fn projections_of_a_response() {
    assert_eq!(expect_status(Response::Status(Status::Exists)), Ok(Status::Exists));
    assert_eq!(expect_status(Response::IncrDecr(1)), Err(DriverError::Mismatch));
    let e = ErrorKind::Client("bad".to_string());
    assert_eq!(expect_status(Response::Error(e.clone())), Err(DriverError::Server(e)));
    assert_eq!(expect_values(Response::Data(vec![])), Ok(None));
    let v = Value { key: b"k".to_vec(), cas: Some(1), flags: 0, data: vec![1] };
    assert_eq!(expect_values(Response::Data(vec![v.clone()])), Ok(Some(vec![v])));
    assert_eq!(expect_values(Response::Status(Status::Stored)), Err(DriverError::Mismatch));
    assert_eq!(expect_number(Response::IncrDecr(9)), Ok(Some(9)));
    assert_eq!(expect_number(Response::Status(Status::NotFound)), Ok(None));
    assert_eq!(expect_number(Response::Status(Status::Stored)), Err(DriverError::Mismatch));
}

#[test]
fn which_errors_evict_the_connection() {
    assert!(!DriverError::Server(ErrorKind::NonexistentCommand).evicts_connection());
    assert!(DriverError::Framing.evicts_connection());
    assert!(DriverError::UnexpectedEof.evicts_connection());
    assert!(DriverError::TooLarge.evicts_connection());
    assert!(DriverError::Mismatch.evicts_connection());
}

#[test]
fn key_length_limit() {
    assert_eq!(check_key_len(&[b'a'; 250]), Ok(()));
    assert_eq!(check_key_len(&[b'a'; 251]), Err(ClientError::KeyTooLong));
    assert_eq!(check_key_len(b""), Ok(()));
}

#[test]
fn probe_outcomes() {
    assert!(probe_is_broken(Probe::Closed));
    assert!(probe_is_broken(Probe::Failed));
    assert!(!probe_is_broken(Probe::WouldBlock));
    assert!(!probe_is_broken(Probe::Ready));
    assert_eq!(port_or_default(None), DEFAULT_PORT);
    assert_eq!(port_or_default(Some(21311)), 21311);
}

#[test]
fn settings_builders() {
    let s = Settings::new();
    assert_eq!(s.buffer_size, DEFAULT_BUFFER_SIZE);
    let s = s.buffer_size(256).max_response_size(4096);
    assert_eq!(s.buffer_size, 256);
    assert_eq!(s.max_response_size, 4096);
}

#[test]
fn capped_line_reader_takes_lines_and_blocks() {
    let mut r = CappedLineReader::new(7u32);
    assert_eq!(r.spare(), LINE_CAPACITY);
    r.fill(b"VALUE k 0 3\r\nba");
    assert_eq!(r.take_line(), Some(b"VALUE k 0 3\r\n".to_vec()));
    assert_eq!(r.take_line(), None);
    r.fill(b"r\r\nEND\r\n");
    assert_eq!(r.read_exact(5), b"bar\r\n".to_vec());
    assert_eq!(r.read_exact(100), b"END\r\n".to_vec());
    assert_eq!(r.read_exact(1), Vec::<u8>::new());
    r.fill(b"abc");
    r.consume(2);
    assert_eq!(r.read_exact(10), b"c".to_vec());
    *r.get_mut() += 1;
    assert_eq!(*r.get_mut(), 8);
}
