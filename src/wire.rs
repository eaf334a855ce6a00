//! The byte-level vocabulary of the text protocol: line terminators, the
//! words that the server and the client send, and splitting a line into
//! space-separated fields.
use vstd::prelude::*;
use vstd::slice::slice_to_vec;

verus! {

/// Carriage return.
pub const CR: u8 = 13;

/// Line feed.
pub const LF: u8 = 10;

/// The field separator.
pub const SP: u8 = 32;

/// The line terminator `\r\n`.
pub const CRLF: [u8; 2] = [13, 10];

/// `STORED`
pub const STORED: [u8; 6] = [83, 84, 79, 82, 69, 68];

/// `NOT_STORED`
pub const NOT_STORED: [u8; 10] = [78, 79, 84, 95, 83, 84, 79, 82, 69, 68];

/// `DELETED`
pub const DELETED: [u8; 7] = [68, 69, 76, 69, 84, 69, 68];

/// `NOT_FOUND`
pub const NOT_FOUND: [u8; 9] = [78, 79, 84, 95, 70, 79, 85, 78, 68];

/// `EXISTS`
pub const EXISTS: [u8; 6] = [69, 88, 73, 83, 84, 83];

/// `TOUCHED`
pub const TOUCHED: [u8; 7] = [84, 79, 85, 67, 72, 69, 68];

/// `END`
pub const END: [u8; 3] = [69, 78, 68];

/// `ERROR`
pub const ERROR: [u8; 5] = [69, 82, 82, 79, 82];

/// `VALUE`
pub const VALUE: [u8; 5] = [86, 65, 76, 85, 69];

/// `CLIENT_ERROR` (with its trailing space)
pub const CLIENT_ERROR: [u8; 13] = [67, 76, 73, 69, 78, 84, 95, 69, 82, 82, 79, 82, 32];

/// `SERVER_ERROR` (with its trailing space)
pub const SERVER_ERROR: [u8; 13] = [83, 69, 82, 86, 69, 82, 95, 69, 82, 82, 79, 82, 32];

/// `VERSION` (with its trailing space)
pub const VERSION: [u8; 8] = [86, 69, 82, 83, 73, 79, 78, 32];

/// `OK`
pub const OK: [u8; 2] = [79, 75];

/// `STAT`
pub const STAT: [u8; 4] = [83, 84, 65, 84];

/// `set`
pub const SET: [u8; 3] = [115, 101, 116];

/// `add`
pub const ADD: [u8; 3] = [97, 100, 100];

/// `replace`
pub const REPLACE: [u8; 7] = [114, 101, 112, 108, 97, 99, 101];

/// `append`
pub const APPEND: [u8; 6] = [97, 112, 112, 101, 110, 100];

/// `prepend`
pub const PREPEND: [u8; 7] = [112, 114, 101, 112, 101, 110, 100];

/// `cas`
pub const CAS: [u8; 3] = [99, 97, 115];

/// `get`
pub const GET: [u8; 3] = [103, 101, 116];

/// `gets`
pub const GETS: [u8; 4] = [103, 101, 116, 115];

/// `delete`
pub const DELETE: [u8; 6] = [100, 101, 108, 101, 116, 101];

/// `touch`
pub const TOUCH: [u8; 5] = [116, 111, 117, 99, 104];

/// `incr`
pub const INCR: [u8; 4] = [105, 110, 99, 114];

/// `decr`
pub const DECR: [u8; 4] = [100, 101, 99, 114];

/// `version`
pub const VERSION_CMD: [u8; 7] = [118, 101, 114, 115, 105, 111, 110];

/// `flush_all`
pub const FLUSH_ALL: [u8; 9] = [102, 108, 117, 115, 104, 95, 97, 108, 108];

/// `stats`
pub const STATS: [u8; 5] = [115, 116, 97, 116, 115];

/// `noreply`
pub const NOREPLY: [u8; 7] = [110, 111, 114, 101, 112, 108, 121];

/// `p` is a prefix of `s`.
pub open spec fn has_prefix(s: Seq<u8>, p: Seq<u8>) -> bool {
    p.len() <= s.len() && s.take(p.len() as int) == p
}

/// A line terminator starts at `i`.
pub open spec fn crlf_at(b: Seq<u8>, i: int) -> bool {
    0 <= i && i + 1 < b.len() && b[i] == CR && b[i + 1] == LF
}

/// The position of the first line terminator at or after `i`.
pub open spec fn line_end(b: Seq<u8>, i: int) -> Option<int>
    decreases b.len() - i,
{
    if i < 0 || i + 1 >= b.len() {
        None
    } else if crlf_at(b, i) {
        Some(i)
    } else {
        line_end(b, i + 1)
    }
}

/// The position of the first space at or after `i`, or the end of `l`.
pub open spec fn next_space(l: Seq<u8>, i: int) -> int
    decreases l.len() - i,
{
    if i < 0 || i >= l.len() {
        l.len() as int
    } else if l[i] == SP {
        i
    } else {
        next_space(l, i + 1)
    }
}

/// The fields of `l` from `i` on, as split at every single space.
pub open spec fn fields_from(l: Seq<u8>, i: int) -> Seq<Seq<u8>>
    decreases l.len() - i
    via fields_from_decreases
{
    if i < 0 || i > l.len() {
        Seq::empty()
    } else {
        let j = next_space(l, i);
        if j >= l.len() {
            seq![l.subrange(i, l.len() as int)]
        } else {
            seq![l.subrange(i, j)] + fields_from(l, j + 1)
        }
    }
}

#[via_fn]
proof fn fields_from_decreases(l: Seq<u8>, i: int) {
    if 0 <= i <= l.len() {
        lemma_next_space_bounds(l, i);
    }
}

/// The space-separated fields of a line.
pub open spec fn fields(l: Seq<u8>) -> Seq<Seq<u8>> {
    fields_from(l, 0)
}

pub proof fn lemma_line_end_bounds(b: Seq<u8>, i: int)
    ensures
        line_end(b, i) matches Some(k) ==> i <= k && crlf_at(b, k),
    decreases b.len() - i,
{
    if !(i < 0 || i + 1 >= b.len()) && !crlf_at(b, i) {
        lemma_line_end_bounds(b, i + 1);
    }
}

pub proof fn lemma_next_space_bounds(l: Seq<u8>, i: int)
    requires
        0 <= i,
    ensures
        i <= next_space(l, i) <= l.len() || (i > l.len() && next_space(l, i) == l.len()),
    decreases l.len() - i,
{
    if i < l.len() && l[i] != SP {
        lemma_next_space_bounds(l, i + 1);
    }
}

/// Byte-wise equality of two slices.
pub fn bytes_eq(a: &[u8], b: &[u8]) -> (r: bool)
    ensures
        r == (a@ == b@),
{
    if a.len() != b.len() {
        return false;
    }
    let mut i: usize = 0;
    while i < a.len()
        invariant
            a@.len() == b@.len(),
            0 <= i <= a@.len(),
            forall|j: int| 0 <= j < i ==> a@[j] == b@[j],
        decreases a.len() - i,
    {
        if a[i] != b[i] {
            return false;
        }
        i = i + 1;
    }
    assert(a@ =~= b@);
    true
}

/// Whether `s` begins with `p`.
pub fn starts_with(s: &[u8], p: &[u8]) -> (r: bool)
    ensures
        r == has_prefix(s@, p@),
{
    if p.len() > s.len() {
        return false;
    }
    bytes_eq(&s[0..p.len()], p)
}

/// The position of the first line terminator at or after `from`.
pub fn find_crlf(buf: &[u8], from: usize) -> (r: Option<usize>)
    ensures
        match r {
            Some(k) => line_end(buf@, from as int) == Some(k as int) && crlf_at(buf@, k as int)
                && k + 2 <= buf.len(),
            None => line_end(buf@, from as int) is None,
        },
{
    let mut i: usize = from;
    while i < buf.len() && i + 1 < buf.len()
        invariant
            from <= i,
            line_end(buf@, from as int) == line_end(buf@, i as int),
        decreases buf.len() - i,
    {
        if buf[i] == CR && buf[i + 1] == LF {
            return Some(i);
        }
        i = i + 1;
    }
    None
}

/// The length of the first line of `buf`, terminator included, if the
/// terminator has arrived.
pub fn get_line(buf: &[u8]) -> (r: Option<usize>)
    ensures
        match r {
            Some(n) => line_end(buf@, 0) == Some(n - 2),
            None => line_end(buf@, 0) is None,
        },
{
    let n: usize = buf.len();
    match find_crlf(buf, 0) {
        Some(k) => {
            assert(k + 1 < n);
            Some(k + 2)
        },
        None => None,
    }
}

/// The position of the first space at or after `from`, or the end of `l`.
pub fn find_space(l: &[u8], from: usize) -> (r: usize)
    requires
        from <= l@.len(),
    ensures
        r as int == next_space(l@, from as int),
        from <= r <= l@.len(),
{
    let mut i: usize = from;
    while i < l.len()
        invariant
            from <= i <= l@.len(),
            next_space(l@, from as int) == next_space(l@, i as int),
        decreases l.len() - i,
    {
        if l[i] == SP {
            return i;
        }
        i = i + 1;
    }
    i
}

/// Splits a line at every single space.
pub fn split_fields(l: &[u8]) -> (r: Vec<Vec<u8>>)
    ensures
        r@.len() == fields(l@).len(),
        forall|k: int| 0 <= k < r@.len() ==> #[trigger] r@[k]@ == fields(l@)[k],
{
    let mut out: Vec<Vec<u8>> = Vec::new();
    let mut i: usize = 0;
    loop
        invariant
            0 <= i <= l@.len(),
            out@.len() + fields_from(l@, i as int).len() == fields(l@).len(),
            forall|k: int| 0 <= k < out@.len() ==> #[trigger] out@[k]@ == fields(l@)[k],
            forall|k: int|
                0 <= k < fields_from(l@, i as int).len() ==> fields(l@)[out@.len() + k]
                    == #[trigger] fields_from(l@, i as int)[k],
        decreases l@.len() - i,
    {
        let j = find_space(l, i);
        let part = slice_to_vec(&l[i..j]);
        let ghost rest = fields_from(l@, i as int);
        assert(rest[0] == part@);
        out.push(part);
        if j == l.len() {
            assert(rest.len() == 1);
            return out;
        }
        assert(rest == seq![l@.subrange(i as int, j as int)] + fields_from(l@, j + 1));
        i = j + 1;
        assert forall|k: int| 0 <= k < fields_from(l@, i as int).len() implies fields(l@)[out@.len()
            + k] == #[trigger] fields_from(l@, i as int)[k] by {
            assert(fields_from(l@, i as int)[k] == rest[k + 1]);
        }
    }
}

} // verus!
