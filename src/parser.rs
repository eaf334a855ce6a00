//! Framing of server responses out of an accumulating byte buffer.
//!
//! The parser never performs I/O: it looks at the bytes buffered so far and
//! either frames one complete response, reports that more bytes are needed,
//! or rejects a response whose shape the protocol does not allow.
use vstd::prelude::*;
use vstd::slice::slice_to_vec;
use vstd::string::StringSliceAdditionalSpecFns;
use vstd::utf8::{encode_utf8, encode_utf8_valid_utf8, valid_utf8, valid_utf8_concat};
use crate::decimal::{all_digits, digits_value, is_decimal, parse_u64};
use crate::wire::{
    bytes_eq, crlf_at, fields, find_crlf, has_prefix, lemma_line_end_bounds, line_end,
    split_fields, starts_with, CLIENT_ERROR, CR, DELETED, END, ERROR, EXISTS, LF, NOT_FOUND,
    NOT_STORED, SERVER_ERROR, STORED, TOUCHED, VALUE,
};

verus! {

/// A value from memcached.
#[derive(Clone, Debug, PartialEq)]
pub struct Value {
    /// The key.
    pub key: Vec<u8>,
    /// CAS identifier, present when the server was asked for it.
    pub cas: Option<u64>,
    /// Flags for this key.
    pub flags: u32,
    /// Data for this key.
    pub data: Vec<u8>,
}

/// The mathematical content of a [`Value`].
pub struct ValueModel {
    pub key: Seq<u8>,
    pub cas: Option<u64>,
    pub flags: u32,
    pub data: Seq<u8>,
}

impl View for Value {
    type V = ValueModel;

    open spec fn view(&self) -> ValueModel {
        ValueModel { key: self.key@, cas: self.cas, flags: self.flags, data: self.data@ }
    }
}

/// Status of a memcached operation.
#[derive(Clone, Copy, Debug, PartialEq, Eq, Structural)]
pub enum Status {
    /// The value was stored.
    Stored,
    /// The value was not stored.
    NotStored,
    /// The key was deleted.
    Deleted,
    /// The key was touched.
    Touched,
    /// The key already exists.
    Exists,
    /// The key was not found.
    NotFound,
}

/// How a status reads in words.
pub open spec fn status_words(s: Status) -> Seq<char> {
    match s {
        Status::Stored => "stored"@,
        Status::NotStored => "not stored"@,
        Status::Deleted => "deleted"@,
        Status::Touched => "touched"@,
        Status::Exists => "exists"@,
        Status::NotFound => "not found"@,
    }
}

impl Status {
    /// The status in words, as shown to a person.
    pub fn as_str(&self) -> (r: &'static str)
        ensures
            r@ == status_words(*self),
    {
        match self {
            Status::Stored => "stored",
            Status::NotStored => "not stored",
            Status::Deleted => "deleted",
            Status::Touched => "touched",
            Status::Exists => "exists",
            Status::NotFound => "not found",
        }
    }
}

/// Errors related to a memcached operation.
#[derive(Clone, Debug, PartialEq)]
pub enum ErrorKind {
    /// General error that may or may not have come from either the server or this crate.
    Generic(String),
    /// The command sent by the client does not exist.
    NonexistentCommand,
    /// Protocol-level error i.e. an invalid response from memcached for the given operation.
    Protocol(Option<String>),
    /// An error from memcached related to CLIENT_ERROR.
    Client(String),
    /// An error from memcached related to SERVER_ERROR.
    Server(String),
}

/// The mathematical content of an [`ErrorKind`]: each text as its UTF-8 bytes.
pub enum ErrorModel {
    Generic(Seq<u8>),
    NonexistentCommand,
    Protocol(Option<Seq<u8>>),
    Client(Seq<u8>),
    Server(Seq<u8>),
}

/// The UTF-8 bytes of a string.
pub open spec fn text(s: String) -> Seq<u8> {
    encode_utf8(s@)
}

impl View for ErrorKind {
    type V = ErrorModel;

    open spec fn view(&self) -> ErrorModel {
        match self {
            ErrorKind::Generic(s) => ErrorModel::Generic(text(*s)),
            ErrorKind::NonexistentCommand => ErrorModel::NonexistentCommand,
            ErrorKind::Protocol(s) => ErrorModel::Protocol(
                match s {
                    Some(t) => Some(text(*t)),
                    None => None,
                },
            ),
            ErrorKind::Client(s) => ErrorModel::Client(text(*s)),
            ErrorKind::Server(s) => ErrorModel::Server(text(*s)),
        }
    }
}

/// The message that describes an error: a word for its kind, and its text
/// if it has one, both as UTF-8 bytes.
pub open spec fn error_message(e: ErrorModel) -> Seq<u8> {
    match e {
        ErrorModel::Generic(t) => encode_utf8("generic: "@) + t,
        ErrorModel::NonexistentCommand => encode_utf8("command does not exist"@),
        ErrorModel::Protocol(Some(t)) => encode_utf8("protocol: "@) + t,
        ErrorModel::Protocol(None) => encode_utf8("protocol"@),
        ErrorModel::Client(t) => encode_utf8("client: "@) + t,
        ErrorModel::Server(t) => encode_utf8("server: "@) + t,
    }
}

/// `prefix` followed by `s`.
pub(crate) fn prefixed(prefix: &str, s: &String) -> (r: String)
    ensures
        text(r) == encode_utf8(prefix@) + text(*s),
{
    let mut bytes = slice_to_vec(prefix.as_bytes());
    bytes.extend_from_slice(s.as_str().as_bytes());
    proof {
        encode_utf8_valid_utf8(prefix@);
        encode_utf8_valid_utf8(s@);
        valid_utf8_concat(encode_utf8(prefix@), encode_utf8(s@));
        assert(bytes@ =~= encode_utf8(prefix@) + text(*s));
    }
    match string_from_utf8(bytes) {
        Some(r) => r,
        None => String::new(),
    }
}

impl ErrorKind {
    /// The error as shown to a person.
    pub fn message(&self) -> (r: String)
        ensures
            text(r) == error_message(self@),
    {
        match self {
            ErrorKind::Generic(s) => prefixed("generic: ", s),
            ErrorKind::NonexistentCommand => "command does not exist".to_owned(),
            ErrorKind::Protocol(Some(s)) => prefixed("protocol: ", s),
            ErrorKind::Protocol(None) => "protocol".to_owned(),
            ErrorKind::Client(s) => prefixed("client: ", s),
            ErrorKind::Server(s) => prefixed("server: ", s),
        }
    }
}

/// Response to a memcached operation.
#[derive(Clone, Debug, PartialEq)]
pub enum Response {
    /// The status of a given operation, which may or may not have succeeded.
    Status(Status),
    /// Data response, which is only returned for reads; empty when no key was found.
    Data(Vec<Value>),
    /// Resulting value of a key after an increment/decrement operation.
    IncrDecr(u64),
    /// An error reported by the server for the given operation.
    Error(ErrorKind),
}

/// The mathematical content of a [`Response`].
pub enum ResponseModel {
    Status(Status),
    Data(Seq<ValueModel>),
    IncrDecr(u64),
    Error(ErrorModel),
}

pub open spec fn values_view(v: Seq<Value>) -> Seq<ValueModel> {
    v.map_values(|x: Value| x@)
}

impl View for Response {
    type V = ResponseModel;

    open spec fn view(&self) -> ResponseModel {
        match self {
            Response::Status(s) => ResponseModel::Status(*s),
            Response::Data(v) => ResponseModel::Data(values_view(v@)),
            Response::IncrDecr(n) => ResponseModel::IncrDecr(*n),
            Response::Error(e) => ResponseModel::Error(e@),
        }
    }
}

impl Response {
    /// Whether the server reported a `SERVER_ERROR`.
    pub fn is_server_error(&self) -> (r: bool)
        ensures
            r == (self@ matches ResponseModel::Error(ErrorModel::Server(_))),
    {
        match self {
            Response::Error(ErrorKind::Server(_)) => true,
            _ => false,
        }
    }
}

/// What the parser makes of a buffer when it succeeds.
#[derive(Clone, Debug, PartialEq)]
pub enum ParseOutcome {
    /// No complete response has been buffered yet; nothing was consumed.
    Incomplete,
    /// A complete response, and the number of bytes it took.
    Complete(Response, usize),
}

/// The buffered bytes do not have a shape that the protocol allows.
#[derive(Clone, Copy, Debug, PartialEq, Eq)]
pub struct FramingError;

/// The meaning of a buffer: more bytes needed, one response and its length,
/// or a shape that the protocol does not allow.
pub enum Frame {
    Incomplete,
    Complete(ResponseModel, nat),
    Invalid,
}

pub open spec fn outcome_frame(r: Result<ParseOutcome, FramingError>) -> Frame {
    match r {
        Ok(ParseOutcome::Incomplete) => Frame::Incomplete,
        Ok(ParseOutcome::Complete(resp, n)) => Frame::Complete(resp@, n as nat),
        Err(_) => Frame::Invalid,
    }
}

/// The fields of a `VALUE <key> <flags> <bytes>[ <cas>]` line.
pub struct HeaderModel {
    pub key: Seq<u8>,
    pub flags: u32,
    pub len: nat,
    pub cas: Option<u64>,
}

/// A number that fits in `max`.
pub open spec fn bounded_decimal(s: Seq<u8>, max: nat) -> bool {
    is_decimal(s) && digits_value(s) <= max
}

/// The header of a data record, if `l` is one.
pub open spec fn header(l: Seq<u8>) -> Option<HeaderModel> {
    let f = fields(l);
    if (f.len() == 4 || f.len() == 5) && f[0] == VALUE@ && f[1].len() > 0 && bounded_decimal(
        f[2],
        u32::MAX as nat,
    ) && bounded_decimal(f[3], usize::MAX as nat) && (f.len() == 5 ==> bounded_decimal(
        f[4],
        u64::MAX as nat,
    )) {
        Some(
            HeaderModel {
                key: f[1],
                flags: digits_value(f[2]) as u32,
                len: digits_value(f[3]),
                cas: if f.len() == 5 {
                    Some(digits_value(f[4]) as u64)
                } else {
                    None
                },
            },
        )
    } else {
        None
    }
}

/// The data records from position `i` on, after the records `acc`, up to
/// and including the closing `END` line.
pub open spec fn records(b: Seq<u8>, i: int, acc: Seq<ValueModel>) -> Frame
    decreases b.len() - i
    via records_decreases
{
    match line_end(b, i) {
        None => Frame::Incomplete,
        Some(k) => {
            let line = b.subrange(i, k);
            if line == END@ {
                Frame::Complete(ResponseModel::Data(acc), (k + 2) as nat)
            } else {
                match header(line) {
                    None => Frame::Invalid,
                    Some(h) => {
                        let start = k + 2;
                        let stop = start + h.len;
                        if stop + 2 > b.len() {
                            Frame::Incomplete
                        } else if !crlf_at(b, stop) {
                            Frame::Invalid
                        } else {
                            records(
                                b,
                                stop + 2,
                                acc.push(
                                    ValueModel {
                                        key: h.key,
                                        cas: h.cas,
                                        flags: h.flags,
                                        data: b.subrange(start, stop),
                                    },
                                ),
                            )
                        }
                    },
                }
            }
        },
    }
}

#[via_fn]
proof fn records_decreases(b: Seq<u8>, i: int, acc: Seq<ValueModel>) {
    lemma_line_end_bounds(b, i);
}

/// A server error line carrying `t` as its text.
pub open spec fn error_text(t: Seq<u8>, client: bool, next: nat) -> Frame {
    if !valid_utf8(t) {
        Frame::Invalid
    } else if client {
        Frame::Complete(ResponseModel::Error(ErrorModel::Client(t)), next)
    } else {
        Frame::Complete(ResponseModel::Error(ErrorModel::Server(t)), next)
    }
}

/// The response that begins with the complete line `line`, which ends at `next`.
pub open spec fn frame_line(b: Seq<u8>, line: Seq<u8>, next: nat) -> Frame {
    if line == STORED@ {
        Frame::Complete(ResponseModel::Status(Status::Stored), next)
    } else if line == NOT_STORED@ {
        Frame::Complete(ResponseModel::Status(Status::NotStored), next)
    } else if line == DELETED@ {
        Frame::Complete(ResponseModel::Status(Status::Deleted), next)
    } else if line == NOT_FOUND@ {
        Frame::Complete(ResponseModel::Status(Status::NotFound), next)
    } else if line == EXISTS@ {
        Frame::Complete(ResponseModel::Status(Status::Exists), next)
    } else if line == TOUCHED@ {
        Frame::Complete(ResponseModel::Status(Status::Touched), next)
    } else if line == ERROR@ {
        Frame::Complete(ResponseModel::Error(ErrorModel::NonexistentCommand), next)
    } else if has_prefix(line, CLIENT_ERROR@) {
        error_text(line.skip(CLIENT_ERROR@.len() as int), true, next)
    } else if has_prefix(line, SERVER_ERROR@) {
        error_text(line.skip(SERVER_ERROR@.len() as int), false, next)
    } else if is_decimal(line) {
        if digits_value(line) <= u64::MAX {
            Frame::Complete(ResponseModel::IncrDecr(digits_value(line) as u64), next)
        } else {
            Frame::Invalid
        }
    } else {
        records(b, 0, Seq::empty())
    }
}

/// What the buffered bytes `b` hold: the response at their start, framed by
/// its first line.
pub open spec fn frame(b: Seq<u8>) -> Frame {
    match line_end(b, 0) {
        None => Frame::Incomplete,
        Some(k) => frame_line(b, b.subrange(0, k), (k + 2) as nat),
    }
}

/// Relies on `String::from_utf8`: it accepts exactly the valid UTF-8
/// sequences, and the string it returns holds the same bytes.
#[verifier::external_body]
pub(crate) fn string_from_utf8(bytes: Vec<u8>) -> (r: Option<String>)
    ensures
        r is Some <==> valid_utf8(bytes@),
        r matches Some(s) ==> encode_utf8(s@) == bytes@,
{
    String::from_utf8(bytes).ok()
}

/// The decoded header of a data record.
pub struct RecordHeader {
    pub key: Vec<u8>,
    pub flags: u32,
    pub len: usize,
    pub cas: Option<u64>,
}

impl View for RecordHeader {
    type V = HeaderModel;

    open spec fn view(&self) -> HeaderModel {
        HeaderModel { key: self.key@, flags: self.flags, len: self.len as nat, cas: self.cas }
    }
}

/// Reads a number that must not exceed `max`.
fn parse_bounded(s: &[u8], max: u64) -> (r: Option<u64>)
    ensures
        match r {
            Some(v) => bounded_decimal(s@, max as nat) && v == digits_value(s@),
            None => !bounded_decimal(s@, max as nat),
        },
{
    match parse_u64(s) {
        Some(v) => {
            if v <= max {
                Some(v)
            } else {
                None
            }
        },
        None => None,
    }
}

fn parse_header(line: &[u8]) -> (r: Option<RecordHeader>)
    ensures
        match r {
            Some(h) => header(line@) == Some(h@),
            None => header(line@) is None,
        },
{
    let f = split_fields(line);
    let n = f.len();
    if n != 4 && n != 5 {
        return None;
    }
    assert(f@[0]@ == fields(line@)[0] && f@[1]@ == fields(line@)[1]);
    assert(f@[2]@ == fields(line@)[2] && f@[3]@ == fields(line@)[3]);
    if !bytes_eq(f[0].as_slice(), VALUE.as_slice()) || f[1].len() == 0 {
        return None;
    }
    let flags = match parse_bounded(f[2].as_slice(), u32::MAX as u64) {
        Some(v) => v as u32,
        None => return None,
    };
    let len = match parse_bounded(f[3].as_slice(), usize::MAX as u64) {
        Some(v) => v as usize,
        None => return None,
    };
    let cas = if n == 5 {
        assert(f@[4]@ == fields(line@)[4]);
        match parse_bounded(f[4].as_slice(), u64::MAX) {
            Some(v) => Some(v),
            None => return None,
        }
    } else {
        None
    };
    Some(RecordHeader { key: slice_to_vec(f[1].as_slice()), flags, len, cas })
}

/// Reads one line of a retrieval reply, its terminator left off: `END`
/// (`None`) or the header of the next record.
pub fn parse_get_line(line: &[u8]) -> (r: Result<Option<RecordHeader>, FramingError>)
    ensures
        line@ == END@ ==> r == Ok::<Option<RecordHeader>, FramingError>(None),
        line@ != END@ ==> match header(line@) {
            Some(h) => r matches Ok(Some(x)) && x@ == h,
            None => r is Err,
        },
{
    if bytes_eq(line, END.as_slice()) {
        return Ok(None);
    }
    match parse_header(line) {
        Some(h) => Ok(Some(h)),
        None => Err(FramingError),
    }
}

/// Checks a data block read after a header that announced `len` bytes: the
/// data and then the line terminator. Returns the data alone.
pub fn take_data_block(block: &[u8], len: usize) -> (r: Result<Vec<u8>, FramingError>)
    ensures
        block@.len() == len + 2 && crlf_at(block@, len as int) ==> (r matches Ok(d) && d@
            == block@.take(len as int)),
        !(block@.len() == len + 2 && crlf_at(block@, len as int)) ==> r is Err,
{
    if block.len() < 2 || block.len() - 2 != len || block[len] != CR || block[len + 1] != LF {
        return Err(FramingError);
    }
    Ok(slice_to_vec(&block[0..len]))
}

/// Frames the data records that start at `from`, up to the closing `END` line.
fn parse_records(buf: &[u8], from: usize) -> (r: Result<ParseOutcome, FramingError>)
    requires
        from <= buf@.len(),
    ensures
        outcome_frame(r) == records(buf@, from as int, Seq::empty()),
{
    let mut values: Vec<Value> = Vec::new();
    let mut i: usize = from;
    assert(values_view(values@) =~= Seq::<ValueModel>::empty());
    loop
        invariant
            i <= buf@.len(),
            records(buf@, from as int, Seq::empty()) == records(
                buf@,
                i as int,
                values_view(values@),
            ),
        decreases buf@.len() - i,
    {
        let k = match find_crlf(buf, i) {
            Some(k) => k,
            None => return Ok(ParseOutcome::Incomplete),
        };
        proof {
            lemma_line_end_bounds(buf@, i as int);
        }
        let line = &buf[i..k];
        if bytes_eq(line, END.as_slice()) {
            return Ok(ParseOutcome::Complete(Response::Data(values), k + 2));
        }
        let h = match parse_header(line) {
            Some(h) => h,
            None => return Err(FramingError),
        };
        let start = k + 2;
        if h.len > buf.len() - start || buf.len() - start - h.len < 2 {
            return Ok(ParseOutcome::Incomplete);
        }
        let stop = start + h.len;
        if buf[stop] != CR || buf[stop + 1] != LF {
            return Err(FramingError);
        }
        let v = Value { key: h.key, cas: h.cas, flags: h.flags, data: slice_to_vec(&buf[start..stop]) };
        let ghost before = values_view(values@);
        values.push(v);
        assert(values_view(values@) =~= before.push(v@));
        i = stop + 2;
    }
}

/// The text after a `CLIENT_ERROR ` or `SERVER_ERROR ` prefix of `line`.
fn error_reply(line: &[u8], skip: usize, client: bool, next: usize) -> (r: Result<
    ParseOutcome,
    FramingError,
>)
    requires
        skip <= line@.len(),
    ensures
        outcome_frame(r) == error_text(line@.skip(skip as int), client, next as nat),
{
    let t = slice_to_vec(&line[skip..line.len()]);
    assert(t@ =~= line@.skip(skip as int));
    match string_from_utf8(t) {
        Some(s) => {
            let e = if client {
                ErrorKind::Client(s)
            } else {
                ErrorKind::Server(s)
            };
            Ok(ParseOutcome::Complete(Response::Error(e), next))
        },
        None => Err(FramingError),
    }
}

/// Frames the response at the start of `buf`.
///
/// Returns `Incomplete`, consuming nothing, until the whole response has been
/// buffered; bytes after the response are left alone.
pub fn parse_response(buf: &[u8]) -> (r: Result<ParseOutcome, FramingError>)
    ensures
        outcome_frame(r) == frame(buf@),
{
    let k = match find_crlf(buf, 0) {
        Some(k) => k,
        None => return Ok(ParseOutcome::Incomplete),
    };
    proof {
        lemma_line_end_bounds(buf@, 0);
    }
    let next = k + 2;
    let line = &buf[0..k];
    let status = if bytes_eq(line, STORED.as_slice()) {
        Some(Status::Stored)
    } else if bytes_eq(line, NOT_STORED.as_slice()) {
        Some(Status::NotStored)
    } else if bytes_eq(line, DELETED.as_slice()) {
        Some(Status::Deleted)
    } else if bytes_eq(line, NOT_FOUND.as_slice()) {
        Some(Status::NotFound)
    } else if bytes_eq(line, EXISTS.as_slice()) {
        Some(Status::Exists)
    } else if bytes_eq(line, TOUCHED.as_slice()) {
        Some(Status::Touched)
    } else {
        None
    };
    if let Some(s) = status {
        return Ok(ParseOutcome::Complete(Response::Status(s), next));
    }
    if bytes_eq(line, ERROR.as_slice()) {
        return Ok(ParseOutcome::Complete(Response::Error(ErrorKind::NonexistentCommand), next));
    }
    if starts_with(line, CLIENT_ERROR.as_slice()) {
        return error_reply(line, CLIENT_ERROR.len(), true, next);
    }
    if starts_with(line, SERVER_ERROR.as_slice()) {
        return error_reply(line, SERVER_ERROR.len(), false, next);
    }
    if all_digits(line) {
        return match parse_u64(line) {
            Some(v) => Ok(ParseOutcome::Complete(Response::IncrDecr(v), next)),
            None => Err(FramingError),
        };
    }
    parse_records(buf, 0)
}

proof fn lemma_line_end_extend(b: Seq<u8>, c: Seq<u8>, i: int)
    requires
        line_end(b, i) is Some,
    ensures
        line_end(b + c, i) == line_end(b, i),
    decreases b.len() - i,
{
    if !(i < 0 || i + 1 >= b.len()) {
        assert((b + c)[i] == b[i] && (b + c)[i + 1] == b[i + 1]);
        if !crlf_at(b, i) {
            lemma_line_end_extend(b, c, i + 1);
        }
    }
}

proof fn lemma_line_end_shrink(b: Seq<u8>, i: int, m: int)
    requires
        line_end(b, i) matches Some(k) && k + 2 <= m <= b.len(),
    ensures
        line_end(b.take(m), i) == line_end(b, i),
    decreases b.len() - i,
{
    if !(i < 0 || i + 1 >= b.len()) {
        lemma_line_end_bounds(b, i);
        assert(b.take(m)[i] == b[i] && b.take(m)[i + 1] == b[i + 1]);
        if !crlf_at(b, i) {
            lemma_line_end_shrink(b, i + 1, m);
        }
    }
}

proof fn lemma_records_extend(b: Seq<u8>, c: Seq<u8>, i: int, acc: Seq<ValueModel>)
    requires
        !(records(b, i, acc) is Incomplete),
    ensures
        records(b + c, i, acc) == records(b, i, acc),
    decreases b.len() - i,
{
    lemma_line_end_bounds(b, i);
    if let Some(k) = line_end(b, i) {
        lemma_line_end_extend(b, c, i);
        let line = b.subrange(i, k);
        assert((b + c).subrange(i, k) =~= line);
        if line != END@ {
            if let Some(h) = header(line) {
                let start = k + 2;
                let stop = start + h.len;
                if stop + 2 <= b.len() {
                    assert((b + c)[stop] == b[stop] && (b + c)[stop + 1] == b[stop + 1]);
                    assert((b + c).subrange(start, stop) =~= b.subrange(start, stop));
                    if crlf_at(b, stop) {
                        lemma_records_extend(
                            b,
                            c,
                            stop + 2,
                            acc.push(
                                ValueModel {
                                    key: h.key,
                                    cas: h.cas,
                                    flags: h.flags,
                                    data: b.subrange(start, stop),
                                },
                            ),
                        );
                    }
                }
            }
        }
    }
}

proof fn lemma_records_shrink(b: Seq<u8>, i: int, acc: Seq<ValueModel>, m: int)
    requires
        records(b, i, acc) matches Frame::Complete(_, n) && n <= m <= b.len(),
    ensures
        records(b.take(m), i, acc) == records(b, i, acc),
        records(b, i, acc) matches Frame::Complete(_, n) && line_end(b, i) matches Some(k) && i
            <= k && k + 2 <= n,
    decreases b.len() - i,
{
    lemma_line_end_bounds(b, i);
    if let Some(k) = line_end(b, i) {
        let line = b.subrange(i, k);
        if line == END@ {
            lemma_line_end_shrink(b, i, m);
            assert(b.take(m).subrange(i, k) =~= line);
        } else if let Some(h) = header(line) {
            let start = k + 2;
            let stop = start + h.len;
            let v = ValueModel {
                key: h.key,
                cas: h.cas,
                flags: h.flags,
                data: b.subrange(start, stop),
            };
            lemma_records_shrink(b, stop + 2, acc.push(v), m);
            lemma_line_end_bounds(b, stop + 2);
            lemma_line_end_shrink(b, i, m);
            assert(b.take(m).subrange(i, k) =~= line);
            assert(b.take(m)[stop] == b[stop] && b.take(m)[stop + 1] == b[stop + 1]);
            assert(b.take(m).subrange(start, stop) =~= b.subrange(start, stop));
        }
    }
}

/// Once the buffered bytes frame a response, or are found malformed, more
/// bytes arriving after them change nothing: the same response and the same
/// count of consumed bytes, or the same rejection.
pub proof fn lemma_frame_stable(b: Seq<u8>, c: Seq<u8>)
    requires
        !(frame(b) is Incomplete),
    ensures
        frame(b + c) == frame(b),
{
    lemma_line_end_bounds(b, 0);
    if let Some(k) = line_end(b, 0) {
        lemma_line_end_extend(b, c, 0);
        assert((b + c).subrange(0, k) =~= b.subrange(0, k));
        let line = b.subrange(0, k);
        if frame_line(b, line, (k + 2) as nat) == records(b, 0, Seq::empty()) {
            lemma_records_extend(b, c, 0, Seq::empty());
        }
    }
}

/// Chunk invariance: however a complete response is cut into reads, parsing
/// what has arrived after each read gives either `Incomplete` or exactly the
/// response (and byte count) that the whole buffer gives.
pub proof fn lemma_chunk_invariance(whole: Seq<u8>, k: int)
    requires
        frame(whole) is Complete,
        0 <= k <= whole.len(),
    ensures
        frame(whole.take(k)) is Incomplete || frame(whole.take(k)) == frame(whole),
{
    if !(frame(whole.take(k)) is Incomplete) {
        lemma_frame_stable(whole.take(k), whole.skip(k));
        assert(whole.take(k) + whole.skip(k) =~= whole);
    }
}

/// The bytes of successive reads, one after the other.
pub open spec fn joined(chunks: Seq<Seq<u8>>) -> Seq<u8>
    decreases chunks.len(),
{
    if chunks.len() == 0 {
        Seq::empty()
    } else {
        joined(chunks.drop_last()) + chunks.last()
    }
}

proof fn lemma_joined_prefix(chunks: Seq<Seq<u8>>, j: int)
    requires
        0 <= j <= chunks.len(),
    ensures
        joined(chunks.take(j)).len() <= joined(chunks).len(),
        joined(chunks.take(j)) == joined(chunks).take(joined(chunks.take(j)).len() as int),
    decreases chunks.len(),
{
    if j == chunks.len() {
        assert(chunks.take(j) =~= chunks);
        assert(joined(chunks).take(joined(chunks).len() as int) =~= joined(chunks));
    } else {
        lemma_joined_prefix(chunks.drop_last(), j);
        assert(chunks.drop_last().take(j) =~= chunks.take(j));
        let p = joined(chunks.take(j));
        assert(joined(chunks).take(p.len() as int) =~= joined(chunks.drop_last()).take(
            p.len() as int,
        ));
    }
}

/// Chunk invariance over reads: when a complete response arrives in any
/// number of reads of any sizes, parsing after each read gives either
/// `Incomplete` or exactly the response (and byte count) of the whole.
pub proof fn lemma_reads_frame_alike(chunks: Seq<Seq<u8>>, j: int)
    requires
        frame(joined(chunks)) is Complete,
        0 <= j <= chunks.len(),
    ensures
        frame(joined(chunks.take(j))) is Incomplete || frame(joined(chunks.take(j))) == frame(
            joined(chunks),
        ),
{
    lemma_joined_prefix(chunks, j);
    lemma_chunk_invariance(joined(chunks), joined(chunks.take(j)).len() as int);
}

/// Parsing is repeatable: a framed response never reaches past the buffer,
/// and the consumed bytes on their own frame the very same response.
pub proof fn lemma_consumed_prefix_reparses(b: Seq<u8>)
    requires
        frame(b) is Complete,
    ensures
        frame(b) matches Frame::Complete(_, n) && n <= b.len() && frame(b.take(n as int)) == frame(
            b,
        ),
{
    lemma_line_end_bounds(b, 0);
    let k = line_end(b, 0)->0;
    let line = b.subrange(0, k);
    if frame_line(b, line, (k + 2) as nat) == records(b, 0, Seq::empty()) {
        let n = frame(b)->Complete_1;
        lemma_records_bounded(b, 0, Seq::empty());
        lemma_records_shrink(b, 0, Seq::empty(), n as int);
        lemma_line_end_bounds(b.take(n as int), 0);
        lemma_line_end_shrink(b, 0, n as int);
        assert(b.take(n as int).subrange(0, k) =~= line);
    } else {
        lemma_line_end_shrink(b, 0, k + 2);
        assert(b.take(k + 2).subrange(0, k) =~= line);
    }
}

proof fn lemma_records_bounded(b: Seq<u8>, i: int, acc: Seq<ValueModel>)
    ensures
        records(b, i, acc) matches Frame::Complete(_, n) ==> n <= b.len(),
    decreases b.len() - i,
{
    lemma_line_end_bounds(b, i);
    if let Some(k) = line_end(b, i) {
        let line = b.subrange(i, k);
        if line != END@ {
            if let Some(h) = header(line) {
                let start = k + 2;
                let stop = start + h.len;
                if stop + 2 <= b.len() && crlf_at(b, stop) {
                    lemma_records_bounded(
                        b,
                        stop + 2,
                        acc.push(
                            ValueModel {
                                key: h.key,
                                cas: h.cas,
                                flags: h.flags,
                                data: b.subrange(start, stop),
                            },
                        ),
                    );
                }
            }
        }
    }
}

} // verus!
