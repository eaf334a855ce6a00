//! One command's exchange with the server, from the request having been
//! written to the reply having been framed.
//!
//! The exchange owns the growing read buffer. The caller performs the
//! reads and hands every chunk to the exchange, which frames what has
//! arrived so far and says whether to read again, what the reply was, or
//! why the command failed. A zero-byte chunk means the peer closed.
use vstd::prelude::*;
use vstd::slice::slice_to_vec;
use crate::error::DriverError;
use crate::parser::{
    frame, lemma_consumed_prefix_reparses, parse_response, text, values_view, FramingError,
    Frame, ParseOutcome, Response, ResponseModel, Status, Value,
};
use crate::reply::{
    line_outcome_frame, ok_frame, parse_ok_response, parse_stats, parse_version, stats_frame,
    stats_view, version_frame, LineFrame, LineOutcome, Stat, StatsFrame, StatsOutcome,
};

verus! {

/// What to do after a chunk has been handed to an [`Exchange`].
#[derive(Clone, Debug, PartialEq)]
pub enum Step<T> {
    /// The reply is not complete yet: read again.
    Wait,
    /// The reply, complete.
    Done(T),
    /// The command failed.
    Failed(DriverError),
}

/// How a one-line reply `f`, framed out of the bytes `b`, ends the
/// exchange `after` with the step `r`.
pub open spec fn line_step(
    f: LineFrame,
    b: Seq<u8>,
    limit: nat,
    r: Step<String>,
    after: Exchange,
) -> bool {
    match f {
        LineFrame::Incomplete => if b.len() > limit {
            r == Step::<String>::Failed(DriverError::TooLarge) && after.is_finished()
        } else {
            r == Step::<String>::Wait && !after.is_finished() && after.buffered() == b
        },
        LineFrame::Text(t, n) => r matches Step::Done(s) && text(s) == t && after.is_finished()
            && after.buffered() == b.skip(n as int),
        LineFrame::Refused(e, n) => r matches Step::Failed(DriverError::Server(k)) && k@ == e
            && after.is_finished() && after.buffered() == b.skip(n as int),
        LineFrame::Invalid => r == Step::<String>::Failed(DriverError::Framing)
            && after.is_finished(),
    }
}

/// The reading side of one command on one leased connection.
#[derive(Debug)]
pub struct Exchange {
    buffer: Vec<u8>,
    limit: usize,
    finished: bool,
}

impl Exchange {
    /// The bytes received and not yet consumed by a reply.
    pub closed spec fn buffered(&self) -> Seq<u8> {
        self.buffer@
    }

    /// The most bytes that an incomplete reply may hold.
    pub closed spec fn limit(&self) -> nat {
        self.limit as nat
    }

    /// A reply was framed or the command failed: nothing more is read.
    pub closed spec fn is_finished(&self) -> bool {
        self.finished
    }

    /// Starts an exchange whose buffer first has room for `capacity` bytes
    /// and grows as needed, up to `limit` bytes of an incomplete reply.
    pub fn new(capacity: usize, limit: usize) -> (r: Exchange)
        ensures
            r.buffered() == Seq::<u8>::empty(),
            r.limit() == limit,
            !r.is_finished(),
    {
        Exchange { buffer: Vec::with_capacity(capacity), limit, finished: false }
    }

    /// Whether the exchange is over.
    pub fn finished(&self) -> (r: bool)
        ensures
            r == self.is_finished(),
    {
        self.finished
    }

    /// The bytes received and not yet consumed by a reply.
    pub fn leftover(&self) -> (r: &[u8])
        ensures
            r@ == self.buffered(),
    {
        self.buffer.as_slice()
    }

    /// Takes the next chunk read from the connection and frames a
    /// [`Response`] out of everything received so far.
    pub fn receive_response(&mut self, chunk: &[u8]) -> (r: Step<Response>)
        requires
            !old(self).is_finished(),
        ensures
            final(self).limit() == old(self).limit(),
            chunk@.len() == 0 ==> r == Step::<Response>::Failed(DriverError::UnexpectedEof)
                && final(self).is_finished(),
            chunk@.len() > 0 ==> match frame(old(self).buffered() + chunk@) {
                Frame::Incomplete => if old(self).buffered().len() + chunk@.len() > old(
                    self,
                ).limit() {
                    r == Step::<Response>::Failed(DriverError::TooLarge) && final(self).is_finished()
                } else {
                    r == Step::<Response>::Wait && !final(self).is_finished()
                        && final(self).buffered() == old(self).buffered() + chunk@
                },
                Frame::Complete(m, n) => r matches Step::Done(resp) && resp@ == m
                    && final(self).is_finished() && final(self).buffered() == (old(
                    self,
                ).buffered() + chunk@).skip(n as int),
                Frame::Invalid => r == Step::<Response>::Failed(DriverError::Framing)
                    && final(self).is_finished(),
            },
    {
        if chunk.len() == 0 {
            self.finished = true;
            return Step::Failed(DriverError::UnexpectedEof);
        }
        self.buffer.extend_from_slice(chunk);
        assert(self.buffer@ =~= old(self).buffer@ + chunk@);
        match parse_response(self.buffer.as_slice()) {
            Ok(ParseOutcome::Incomplete) => {
                if self.buffer.len() > self.limit {
                    self.finished = true;
                    Step::Failed(DriverError::TooLarge)
                } else {
                    Step::Wait
                }
            },
            Ok(ParseOutcome::Complete(resp, n)) => {
                proof {
                    lemma_consumed_prefix_reparses(self.buffer@);
                }
                self.consume(n);
                self.finished = true;
                Step::Done(resp)
            },
            Err(_) => {
                self.finished = true;
                Step::Failed(DriverError::Framing)
            },
        }
    }
}

impl Exchange {
    fn finish_line(&mut self, out: Result<LineOutcome, FramingError>) -> (r: Step<String>)
        requires
            !old(self).is_finished(),
            out matches Ok(LineOutcome::Text(_, n)) ==> n <= old(self).buffered().len(),
            out matches Ok(LineOutcome::Refused(_, n)) ==> n <= old(self).buffered().len(),
        ensures
            final(self).limit() == old(self).limit(),
            line_step(
                line_outcome_frame(out),
                old(self).buffered(),
                old(self).limit(),
                r,
                *final(self),
            ),
    {
        match out {
            Ok(LineOutcome::Incomplete) => {
                if self.buffer.len() > self.limit {
                    self.finished = true;
                    Step::Failed(DriverError::TooLarge)
                } else {
                    Step::Wait
                }
            },
            Ok(LineOutcome::Text(s, n)) => {
                self.consume(n);
                self.finished = true;
                Step::Done(s)
            },
            Ok(LineOutcome::Refused(e, n)) => {
                self.consume(n);
                self.finished = true;
                Step::Failed(DriverError::Server(e))
            },
            Err(_) => {
                self.finished = true;
                Step::Failed(DriverError::Framing)
            },
        }
    }

    fn consume(&mut self, n: usize)
        requires
            n <= old(self).buffered().len(),
        ensures
            final(self).buffered() == old(self).buffered().skip(n as int),
            final(self).limit() == old(self).limit(),
            final(self).is_finished() == old(self).is_finished(),
    {
        let rest = slice_to_vec(&self.buffer.as_slice()[n..self.buffer.len()]);
        assert(rest@ =~= self.buffer@.skip(n as int));
        self.buffer = rest;
    }

    /// Takes the next chunk read from the connection and frames the reply
    /// to `version` out of everything received so far.
    pub fn receive_version(&mut self, chunk: &[u8]) -> (r: Step<String>)
        requires
            !old(self).is_finished(),
        ensures
            final(self).limit() == old(self).limit(),
            chunk@.len() == 0 ==> r == Step::<String>::Failed(DriverError::UnexpectedEof)
                && final(self).is_finished(),
            chunk@.len() > 0 ==> line_step(
                version_frame(old(self).buffered() + chunk@),
                old(self).buffered() + chunk@,
                old(self).limit(),
                r,
                *final(self),
            ),
    {
        if chunk.len() == 0 {
            self.finished = true;
            return Step::Failed(DriverError::UnexpectedEof);
        }
        self.buffer.extend_from_slice(chunk);
        assert(self.buffer@ =~= old(self).buffer@ + chunk@);
        let out = parse_version(self.buffer.as_slice());
        self.finish_line(out)
    }

    /// Takes the next chunk read from the connection and frames the reply
    /// to `flush_all` out of everything received so far; `OK` is done with
    /// an empty text.
    pub fn receive_ok(&mut self, chunk: &[u8]) -> (r: Step<String>)
        requires
            !old(self).is_finished(),
        ensures
            final(self).limit() == old(self).limit(),
            chunk@.len() == 0 ==> r == Step::<String>::Failed(DriverError::UnexpectedEof)
                && final(self).is_finished(),
            chunk@.len() > 0 ==> line_step(
                ok_frame(old(self).buffered() + chunk@),
                old(self).buffered() + chunk@,
                old(self).limit(),
                r,
                *final(self),
            ),
    {
        if chunk.len() == 0 {
            self.finished = true;
            return Step::Failed(DriverError::UnexpectedEof);
        }
        self.buffer.extend_from_slice(chunk);
        assert(self.buffer@ =~= old(self).buffer@ + chunk@);
        let out = parse_ok_response(self.buffer.as_slice());
        self.finish_line(out)
    }
}

impl Exchange {
    /// Takes the next chunk read from the connection and frames the reply
    /// to `stats` out of everything received so far.
    pub fn receive_stats(&mut self, chunk: &[u8]) -> (r: Step<Vec<Stat>>)
        requires
            !old(self).is_finished(),
        ensures
            final(self).limit() == old(self).limit(),
            chunk@.len() == 0 ==> r == Step::<Vec<Stat>>::Failed(DriverError::UnexpectedEof)
                && final(self).is_finished(),
            chunk@.len() > 0 ==> match stats_frame(old(self).buffered() + chunk@) {
                StatsFrame::Incomplete => if old(self).buffered().len() + chunk@.len() > old(
                    self,
                ).limit() {
                    r == Step::<Vec<Stat>>::Failed(DriverError::TooLarge)
                        && final(self).is_finished()
                } else {
                    r == Step::<Vec<Stat>>::Wait && !final(self).is_finished()
                        && final(self).buffered() == old(self).buffered() + chunk@
                },
                StatsFrame::Listing(l, n) => r matches Step::Done(v) && stats_view(v@) == l
                    && final(self).is_finished() && final(self).buffered() == (old(
                    self,
                ).buffered() + chunk@).skip(n as int),
                StatsFrame::Refused(e, n) => r matches Step::Failed(DriverError::Server(k))
                    && k@ == e && final(self).is_finished() && final(self).buffered() == (old(
                    self,
                ).buffered() + chunk@).skip(n as int),
                StatsFrame::Invalid => r == Step::<Vec<Stat>>::Failed(DriverError::Framing)
                    && final(self).is_finished(),
            },
    {
        if chunk.len() == 0 {
            self.finished = true;
            return Step::Failed(DriverError::UnexpectedEof);
        }
        self.buffer.extend_from_slice(chunk);
        assert(self.buffer@ =~= old(self).buffer@ + chunk@);
        match parse_stats(self.buffer.as_slice()) {
            Ok(StatsOutcome::Incomplete) => {
                if self.buffer.len() > self.limit {
                    self.finished = true;
                    Step::Failed(DriverError::TooLarge)
                } else {
                    Step::Wait
                }
            },
            Ok(StatsOutcome::Listing(v, n)) => {
                self.consume(n);
                self.finished = true;
                Step::Done(v)
            },
            Ok(StatsOutcome::Refused(e, n)) => {
                self.consume(n);
                self.finished = true;
                Step::Failed(DriverError::Server(e))
            },
            Err(_) => {
                self.finished = true;
                Step::Failed(DriverError::Framing)
            },
        }
    }
}

/// The status that a storage, `delete` or `touch` command calls for.
pub fn expect_status(resp: Response) -> (r: Result<Status, DriverError>)
    ensures
        match resp@ {
            ResponseModel::Status(s) => r == Ok::<Status, DriverError>(s),
            ResponseModel::Error(e) => r matches Err(DriverError::Server(k)) && k@ == e,
            _ => r == Err::<Status, DriverError>(DriverError::Mismatch),
        },
{
    match resp {
        Response::Status(s) => Ok(s),
        Response::Error(e) => Err(DriverError::Server(e)),
        _ => Err(DriverError::Mismatch),
    }
}

/// Whether a `delete` or `touch` found its key: its status must be
/// `success` (found) or `NotFound`.
pub fn expect_found(status: Status, success: Status) -> (r: Result<bool, DriverError>)
    ensures
        r == if status == success {
            Ok::<bool, DriverError>(true)
        } else if status == Status::NotFound {
            Ok::<bool, DriverError>(false)
        } else {
            Err::<bool, DriverError>(DriverError::Mismatch)
        },
{
    if status == success {
        Ok(true)
    } else if status == Status::NotFound {
        Ok(false)
    } else {
        Err(DriverError::Mismatch)
    }
}

/// The records that a retrieval command calls for; `None` when no key was found.
pub fn expect_values(resp: Response) -> (r: Result<Option<Vec<Value>>, DriverError>)
    ensures
        match resp@ {
            ResponseModel::Data(vs) => if vs.len() == 0 {
                r == Ok::<Option<Vec<Value>>, DriverError>(None)
            } else {
                r matches Ok(Some(v)) && values_view(v@) == vs
            },
            ResponseModel::Error(e) => r matches Err(DriverError::Server(k)) && k@ == e,
            _ => r == Err::<Option<Vec<Value>>, DriverError>(DriverError::Mismatch),
        },
{
    match resp {
        Response::Data(values) => {
            if values.len() == 0 {
                Ok(None)
            } else {
                Ok(Some(values))
            }
        },
        Response::Error(e) => Err(DriverError::Server(e)),
        _ => Err(DriverError::Mismatch),
    }
}

/// The new value that `incr` or `decr` calls for; `None` when the key was not found.
pub fn expect_number(resp: Response) -> (r: Result<Option<u64>, DriverError>)
    ensures
        match resp@ {
            ResponseModel::IncrDecr(n) => r == Ok::<Option<u64>, DriverError>(Some(n)),
            ResponseModel::Status(Status::NotFound) => r == Ok::<Option<u64>, DriverError>(None),
            ResponseModel::Error(e) => r matches Err(DriverError::Server(k)) && k@ == e,
            _ => r == Err::<Option<u64>, DriverError>(DriverError::Mismatch),
        },
{
    match resp {
        Response::IncrDecr(n) => Ok(Some(n)),
        Response::Status(Status::NotFound) => Ok(None),
        Response::Error(e) => Err(DriverError::Server(e)),
        _ => Err(DriverError::Mismatch),
    }
}

} // verus!
