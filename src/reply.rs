//! Replies that stand outside [`Response`](crate::parser::Response):
//! `VERSION <text>` to `version`, `OK` to `flush_all`, and the
//! `STAT <name> <value>` listing to `stats`. Each of these commands may
//! instead be answered by an error line.
use vstd::prelude::*;
use vstd::slice::slice_to_vec;
use vstd::utf8::valid_utf8;
use crate::parser::{string_from_utf8, text, ErrorKind, ErrorModel, FramingError};
use crate::wire::{
    bytes_eq, find_crlf, find_space, has_prefix, lemma_line_end_bounds, line_end, next_space,
    starts_with, CLIENT_ERROR, END, ERROR, OK, SERVER_ERROR, SP, STAT, VERSION,
};

verus! {

/// The error that a complete line reports, if it is an error line.
pub open spec fn error_line(line: Seq<u8>) -> Option<ErrorModel> {
    if line == ERROR@ {
        Some(ErrorModel::NonexistentCommand)
    } else if has_prefix(line, CLIENT_ERROR@) && valid_utf8(line.skip(CLIENT_ERROR@.len() as int)) {
        Some(ErrorModel::Client(line.skip(CLIENT_ERROR@.len() as int)))
    } else if has_prefix(line, SERVER_ERROR@) && valid_utf8(line.skip(SERVER_ERROR@.len() as int)) {
        Some(ErrorModel::Server(line.skip(SERVER_ERROR@.len() as int)))
    } else {
        None
    }
}

/// The meaning of a buffer that should start with a one-line reply.
pub enum LineFrame {
    Incomplete,
    /// The reply's text, and the length of the line.
    Text(Seq<u8>, nat),
    /// An error line, and its length.
    Refused(ErrorModel, nat),
    Invalid,
}

/// What the parser makes of a one-line reply when it succeeds.
#[derive(Clone, Debug, PartialEq)]
pub enum LineOutcome {
    /// The line has not been completely buffered yet.
    Incomplete,
    /// The reply's text, and the length of the line.
    Text(String, usize),
    /// The server's error, and the length of the line.
    Refused(ErrorKind, usize),
}

pub open spec fn line_outcome_frame(r: Result<LineOutcome, FramingError>) -> LineFrame {
    match r {
        Ok(LineOutcome::Incomplete) => LineFrame::Incomplete,
        Ok(LineOutcome::Text(s, n)) => LineFrame::Text(text(s), n as nat),
        Ok(LineOutcome::Refused(e, n)) => LineFrame::Refused(e@, n as nat),
        Err(_) => LineFrame::Invalid,
    }
}

/// A complete line that is no expected reply: an error line, or else invalid.
pub open spec fn other_line(line: Seq<u8>, next: nat) -> LineFrame {
    match error_line(line) {
        Some(e) => LineFrame::Refused(e, next),
        None => LineFrame::Invalid,
    }
}

/// The reply to `version`: `VERSION <text>`.
pub open spec fn version_frame(b: Seq<u8>) -> LineFrame {
    match line_end(b, 0) {
        None => LineFrame::Incomplete,
        Some(k) => {
            let line = b.subrange(0, k);
            let rest = line.skip(VERSION@.len() as int);
            if has_prefix(line, VERSION@) && valid_utf8(rest) {
                LineFrame::Text(rest, (k + 2) as nat)
            } else {
                other_line(line, (k + 2) as nat)
            }
        },
    }
}

/// The reply to `flush_all`: `OK`, with an empty text.
pub open spec fn ok_frame(b: Seq<u8>) -> LineFrame {
    match line_end(b, 0) {
        None => LineFrame::Incomplete,
        Some(k) => {
            let line = b.subrange(0, k);
            if line == OK@ {
                LineFrame::Text(Seq::empty(), (k + 2) as nat)
            } else {
                other_line(line, (k + 2) as nat)
            }
        },
    }
}

/// The text after the first `skip` bytes of `line`, if it is UTF-8.
fn text_after(line: &[u8], skip: usize) -> (r: Option<String>)
    requires
        skip <= line@.len(),
    ensures
        r is Some <==> valid_utf8(line@.skip(skip as int)),
        r matches Some(s) ==> text(s) == line@.skip(skip as int),
{
    let t = slice_to_vec(&line[skip..line.len()]);
    assert(t@ =~= line@.skip(skip as int));
    string_from_utf8(t)
}

/// Recognises an error line.
pub fn parse_error_line(line: &[u8]) -> (r: Option<ErrorKind>)
    ensures
        match r {
            Some(e) => error_line(line@) == Some(e@),
            None => error_line(line@) is None,
        },
{
    if bytes_eq(line, ERROR.as_slice()) {
        return Some(ErrorKind::NonexistentCommand);
    }
    if starts_with(line, CLIENT_ERROR.as_slice()) {
        if let Some(s) = text_after(line, CLIENT_ERROR.len()) {
            return Some(ErrorKind::Client(s));
        }
    }
    if starts_with(line, SERVER_ERROR.as_slice()) {
        if let Some(s) = text_after(line, SERVER_ERROR.len()) {
            return Some(ErrorKind::Server(s));
        }
    }
    None
}

fn other_reply(line: &[u8], next: usize) -> (r: Result<LineOutcome, FramingError>)
    ensures
        line_outcome_frame(r) == other_line(line@, next as nat),
{
    match parse_error_line(line) {
        Some(e) => Ok(LineOutcome::Refused(e, next)),
        None => Err(FramingError),
    }
}

/// Frames the reply to `version` at the start of `buf`.
pub fn parse_version(buf: &[u8]) -> (r: Result<LineOutcome, FramingError>)
    ensures
        line_outcome_frame(r) == version_frame(buf@),
        r matches Ok(LineOutcome::Text(_, n)) ==> n <= buf@.len(),
        r matches Ok(LineOutcome::Refused(_, n)) ==> n <= buf@.len(),
{
    let k = match find_crlf(buf, 0) {
        Some(k) => k,
        None => return Ok(LineOutcome::Incomplete),
    };
    let line = &buf[0..k];
    if starts_with(line, VERSION.as_slice()) {
        if let Some(s) = text_after(line, VERSION.len()) {
            return Ok(LineOutcome::Text(s, k + 2));
        }
    }
    other_reply(line, k + 2)
}

/// Frames the reply to `flush_all` at the start of `buf`.
pub fn parse_ok_response(buf: &[u8]) -> (r: Result<LineOutcome, FramingError>)
    ensures
        line_outcome_frame(r) == ok_frame(buf@),
        r matches Ok(LineOutcome::Text(_, n)) ==> n <= buf@.len(),
        r matches Ok(LineOutcome::Refused(_, n)) ==> n <= buf@.len(),
{
    let k = match find_crlf(buf, 0) {
        Some(k) => k,
        None => return Ok(LineOutcome::Incomplete),
    };
    let line = &buf[0..k];
    if bytes_eq(line, OK.as_slice()) {
        let s = String::new();
        assert(text(s) =~= Seq::<u8>::empty());
        return Ok(LineOutcome::Text(s, k + 2));
    }
    other_reply(line, k + 2)
}

/// One line of the `stats` listing.
#[derive(Clone, Debug, PartialEq)]
pub struct Stat {
    /// The statistic's name.
    pub name: Vec<u8>,
    /// Its value: the rest of the line.
    pub value: Vec<u8>,
}

/// The name and value of a `STAT <name> <value>` line, if `line` is one.
pub open spec fn stat_line(line: Seq<u8>) -> Option<(Seq<u8>, Seq<u8>)> {
    let p = STAT@.len() as int;
    if has_prefix(line, STAT@) && line.len() > p && line[p] == SP {
        let j = next_space(line, p + 1);
        if p + 1 < j && j < line.len() {
            Some((line.subrange(p + 1, j), line.skip(j + 1)))
        } else {
            None
        }
    } else {
        None
    }
}

/// The meaning of a buffer that should start with the `stats` listing.
pub enum StatsFrame {
    Incomplete,
    /// The statistics in order, and the length of the listing.
    Listing(Seq<(Seq<u8>, Seq<u8>)>, nat),
    /// An error line, and its length.
    Refused(ErrorModel, nat),
    Invalid,
}

/// The listing from position `i` on, after the statistics `acc`.
pub open spec fn stats_from(b: Seq<u8>, i: int, acc: Seq<(Seq<u8>, Seq<u8>)>) -> StatsFrame
    decreases b.len() - i
    via stats_from_decreases
{
    match line_end(b, i) {
        None => StatsFrame::Incomplete,
        Some(k) => {
            let line = b.subrange(i, k);
            if line == END@ {
                StatsFrame::Listing(acc, (k + 2) as nat)
            } else {
                match stat_line(line) {
                    Some(p) => stats_from(b, k + 2, acc.push(p)),
                    None => if i == 0 && error_line(line) is Some {
                        StatsFrame::Refused(error_line(line)->0, (k + 2) as nat)
                    } else {
                        StatsFrame::Invalid
                    },
                }
            }
        },
    }
}

#[via_fn]
proof fn stats_from_decreases(b: Seq<u8>, i: int, acc: Seq<(Seq<u8>, Seq<u8>)>) {
    lemma_line_end_bounds(b, i);
}

/// The reply to `stats`.
pub open spec fn stats_frame(b: Seq<u8>) -> StatsFrame {
    stats_from(b, 0, Seq::empty())
}

pub open spec fn stats_view(v: Seq<Stat>) -> Seq<(Seq<u8>, Seq<u8>)> {
    v.map_values(|s: Stat| (s.name@, s.value@))
}

/// What the parser makes of the `stats` listing when it succeeds.
#[derive(Clone, Debug, PartialEq)]
pub enum StatsOutcome {
    /// The listing has not been completely buffered yet.
    Incomplete,
    /// The statistics in order, and the length of the listing.
    Listing(Vec<Stat>, usize),
    /// The server's error, and the length of the line.
    Refused(ErrorKind, usize),
}

pub open spec fn stats_outcome_frame(r: Result<StatsOutcome, FramingError>) -> StatsFrame {
    match r {
        Ok(StatsOutcome::Incomplete) => StatsFrame::Incomplete,
        Ok(StatsOutcome::Listing(v, n)) => StatsFrame::Listing(stats_view(v@), n as nat),
        Ok(StatsOutcome::Refused(e, n)) => StatsFrame::Refused(e@, n as nat),
        Err(_) => StatsFrame::Invalid,
    }
}

/// Recognises a `STAT <name> <value>` line.
pub fn parse_stat_line(line: &[u8]) -> (r: Option<Stat>)
    ensures
        match r {
            Some(s) => stat_line(line@) == Some((s.name@, s.value@)),
            None => stat_line(line@) is None,
        },
{
    let p = STAT.len();
    if !starts_with(line, STAT.as_slice()) || line.len() <= p || line[p] != SP {
        return None;
    }
    let j = find_space(line, p + 1);
    if j <= p + 1 || j >= line.len() {
        return None;
    }
    let name = slice_to_vec(&line[p + 1..j]);
    let value = slice_to_vec(&line[j + 1..line.len()]);
    assert(value@ =~= line@.skip(j + 1));
    Some(Stat { name, value })
}

/// Frames the reply to `stats` at the start of `buf`.
pub fn parse_stats(buf: &[u8]) -> (r: Result<StatsOutcome, FramingError>)
    ensures
        stats_outcome_frame(r) == stats_frame(buf@),
        r matches Ok(StatsOutcome::Listing(_, n)) ==> n <= buf@.len(),
        r matches Ok(StatsOutcome::Refused(_, n)) ==> n <= buf@.len(),
{
    let mut stats: Vec<Stat> = Vec::new();
    let mut i: usize = 0;
    assert(stats_view(stats@) =~= Seq::<(Seq<u8>, Seq<u8>)>::empty());
    loop
        invariant
            i <= buf@.len(),
            i == 0 ==> stats@.len() == 0,
            stats_frame(buf@) == stats_from(buf@, i as int, stats_view(stats@)),
        decreases buf@.len() - i,
    {
        let k = match find_crlf(buf, i) {
            Some(k) => k,
            None => return Ok(StatsOutcome::Incomplete),
        };
        proof {
            lemma_line_end_bounds(buf@, i as int);
        }
        let line = &buf[i..k];
        if bytes_eq(line, END.as_slice()) {
            return Ok(StatsOutcome::Listing(stats, k + 2));
        }
        match parse_stat_line(line) {
            Some(st) => {
                let ghost before = stats_view(stats@);
                let ghost pair = (st.name@, st.value@);
                stats.push(st);
                assert(stats_view(stats@) =~= before.push(pair));
                i = k + 2;
            },
            None => {
                if i == 0 {
                    if let Some(e) = parse_error_line(line) {
                        return Ok(StatsOutcome::Refused(e, k + 2));
                    }
                }
                return Err(FramingError);
            },
        }
    }
}

} // verus!
