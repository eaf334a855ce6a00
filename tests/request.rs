use vmemcached::decimal::{parse_u64, push_decimal};
use vmemcached::request::{
    encode_arith, encode_delete, encode_flush_all, encode_retrieval, encode_stats, encode_storage,
    encode_touch, encode_version, Command, RetrievalCommand, StorageCommand,
};
use vmemcached::parser::Status;

#[test]
fn set_request_bytes() {
    let r = encode_storage(StorageCommand::SetValue, b"foo", 0, 0, b"bar", None, false);
    assert_eq!(r, b"set foo 0 0 3\r\nbar\r\n".to_vec());
}

#[test]
fn storage_request_with_every_field() {
    let r = encode_storage(StorageCommand::Cas, b"k", 42, 3600, b"hello", Some(12345), true);
    assert_eq!(r, b"cas k 42 3600 5 12345 noreply\r\nhello\r\n".to_vec());
    let r = encode_storage(StorageCommand::Add, b"k", 1, 2, b"", None, false);
    assert_eq!(r, b"add k 1 2 0\r\n\r\n".to_vec());
    let r = encode_storage(StorageCommand::Replace, b"k", 0, 0, b"x", None, true);
    assert_eq!(r, b"replace k 0 0 1 noreply\r\nx\r\n".to_vec());
    let r = encode_storage(StorageCommand::Append, b"k", 0, 0, b"x", None, false);
    assert_eq!(r, b"append k 0 0 1\r\nx\r\n".to_vec());
    let r = encode_storage(StorageCommand::Prepend, b"k", u32::MAX, u64::MAX, b"x", None, false);
    assert_eq!(r, b"prepend k 4294967295 18446744073709551615 1\r\nx\r\n".to_vec());
}

#[test]
fn retrieval_request_bytes() {
    let keys = vec![b"a".to_vec(), b"bc".to_vec()];
    assert_eq!(encode_retrieval(RetrievalCommand::Get, &keys), b"get a bc\r\n".to_vec());
    assert_eq!(encode_retrieval(RetrievalCommand::Gets, &keys[..1]), b"gets a\r\n".to_vec());
}

#[test]
fn other_request_bytes() {
    assert_eq!(encode_delete(b"missing", false), b"delete missing\r\n".to_vec());
    assert_eq!(encode_delete(b"k", true), b"delete k noreply\r\n".to_vec());
    assert_eq!(encode_touch(b"k", 123, false), b"touch k 123\r\n".to_vec());
    assert_eq!(encode_touch(b"k", 0, true), b"touch k 0 noreply\r\n".to_vec());
    assert_eq!(encode_arith(true, b"n", 7), b"incr n 7\r\n".to_vec());
    assert_eq!(encode_arith(false, b"n", 10), b"decr n 10\r\n".to_vec());
    assert_eq!(encode_version(), b"version\r\n".to_vec());
    assert_eq!(encode_flush_all(None), b"flush_all\r\n".to_vec());
    assert_eq!(encode_flush_all(Some(30)), b"flush_all 30\r\n".to_vec());
    assert_eq!(encode_stats(), b"stats\r\n".to_vec());
}

#[test]
fn noreply_commands_assume_success() {
    assert_eq!(StorageCommand::SetValue.command().assumed_status(), Some(Status::Stored));
    assert_eq!(Command::Delete.assumed_status(), Some(Status::Deleted));
    assert_eq!(Command::Touch.assumed_status(), Some(Status::Touched));
    assert_eq!(RetrievalCommand::Get.command().assumed_status(), None);
    assert_eq!(Command::Increment.assumed_status(), None);
}

#[test]
fn decimal_rendering_and_reading() {
    let mut out = b"x".to_vec();
    push_decimal(&mut out, 0);
    push_decimal(&mut out, 1234567890);
    assert_eq!(out, b"x01234567890".to_vec());
    assert_eq!(parse_u64(b"0"), Some(0));
    assert_eq!(parse_u64(b"007"), Some(7));
    assert_eq!(parse_u64(b"18446744073709551615"), Some(u64::MAX));
    assert_eq!(parse_u64(b"18446744073709551616"), None);
    assert_eq!(parse_u64(b""), None);
    assert_eq!(parse_u64(b"1a"), None);
}
