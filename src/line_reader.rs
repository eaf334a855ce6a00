//! A fixed-capacity buffer in front of a reader, from which whole lines
//! and exact byte counts are taken.
//!
//! The reader is only carried here: the caller reads from it (through
//! [`CappedLineReader::get_mut`]) and hands the bytes to
//! [`CappedLineReader::fill`].
use vstd::prelude::*;
use vstd::slice::slice_to_vec;
use crate::wire::{find_crlf, line_end};

verus! {

/// The most bytes the buffer holds: a line must fit in it.
pub const LINE_CAPACITY: usize = 2048;

/// What the buffer holds at its front.
#[derive(Clone, Debug, PartialEq)]
pub enum LineStatus {
    /// A whole line, terminator included.
    Line(Vec<u8>),
    /// No whole line yet, and room to read more.
    NeedMore,
    /// The buffer is full and holds no whole line.
    TooLong,
}

/// A reader with a bounded buffer of bytes read from it and not yet taken.
#[derive(Debug)]
pub struct CappedLineReader<C> {
    inner: C,
    buf: Vec<u8>,
}

pub open spec fn min(a: nat, b: nat) -> nat {
    if a <= b {
        a
    } else {
        b
    }
}

impl<C> CappedLineReader<C> {
    /// The bytes buffered and not yet taken.
    pub closed spec fn buffered(&self) -> Seq<u8> {
        self.buf@
    }

    /// The reader behind the buffer.
    pub closed spec fn inner(&self) -> C {
        self.inner
    }

    /// Puts an empty buffer in front of `inner`.
    pub fn new(inner: C) -> (r: Self)
        ensures
            r.buffered() == Seq::<u8>::empty(),
            r.inner() == inner,
    {
        Self { inner, buf: Vec::new() }
    }

    /// The reader behind the buffer, to read from or write to.
    pub fn get_mut(&mut self) -> (r: &mut C)
        ensures
            *r == old(self).inner(),
            final(self).inner() == *final(r),
            final(self).buffered() == old(self).buffered(),
    {
        &mut self.inner
    }

    /// How many more bytes the buffer takes.
    pub fn spare(&self) -> (r: usize)
        ensures
            r == if self.buffered().len() <= LINE_CAPACITY {
                LINE_CAPACITY - self.buffered().len()
            } else {
                0
            },
    {
        if self.buf.len() <= LINE_CAPACITY {
            LINE_CAPACITY - self.buf.len()
        } else {
            0
        }
    }

    /// Adds bytes read from the reader.
    pub fn fill(&mut self, chunk: &[u8])
        requires
            old(self).buffered().len() + chunk@.len() <= LINE_CAPACITY,
        ensures
            final(self).buffered() == old(self).buffered() + chunk@,
            final(self).inner() == old(self).inner(),
    {
        self.buf.extend_from_slice(chunk);
        assert(self.buf@ =~= old(self).buf@ + chunk@);
    }

    /// Takes the first buffered line, terminator included, if it is complete.
    pub fn take_line(&mut self) -> (r: Option<Vec<u8>>)
        ensures
            final(self).inner() == old(self).inner(),
            match line_end(old(self).buffered(), 0) {
                None => r is None && final(self).buffered() == old(self).buffered(),
                Some(k) => r matches Some(l) && l@ == old(self).buffered().take(k + 2)
                    && final(self).buffered() == old(self).buffered().skip(k + 2),
            },
    {
        match find_crlf(self.buf.as_slice(), 0) {
            Some(k) => {
                let line = slice_to_vec(&self.buf.as_slice()[0..k + 2]);
                self.consume(k + 2);
                Some(line)
            },
            None => None,
        }
    }

    /// Takes the next whole line, or says that more must be read, or that
    /// the buffer is full without holding a whole line.
    pub fn next_line(&mut self) -> (r: LineStatus)
        ensures
            final(self).inner() == old(self).inner(),
            match line_end(old(self).buffered(), 0) {
                None => final(self).buffered() == old(self).buffered() && if old(
                    self,
                ).buffered().len() >= LINE_CAPACITY {
                    r == LineStatus::TooLong
                } else {
                    r == LineStatus::NeedMore
                },
                Some(k) => r matches LineStatus::Line(l) && l@ == old(self).buffered().take(k + 2)
                    && final(self).buffered() == old(self).buffered().skip(k + 2),
            },
    {
        match self.take_line() {
            Some(l) => LineStatus::Line(l),
            None => {
                if self.buf.len() >= LINE_CAPACITY {
                    LineStatus::TooLong
                } else {
                    LineStatus::NeedMore
                }
            },
        }
    }

    /// Takes up to `want` buffered bytes; what is missing must be read from
    /// the reader itself.
    pub fn read_exact(&mut self, want: usize) -> (r: Vec<u8>)
        ensures
            final(self).inner() == old(self).inner(),
            r@ == old(self).buffered().take(min(want as nat, old(self).buffered().len()) as int),
            final(self).buffered() == old(self).buffered().skip(
                min(want as nat, old(self).buffered().len()) as int,
            ),
    {
        let n = if want < self.buf.len() {
            want
        } else {
            self.buf.len()
        };
        let taken = slice_to_vec(&self.buf.as_slice()[0..n]);
        self.consume(n);
        taken
    }

    /// Drops up to `amount` buffered bytes from the front.
    pub fn consume(&mut self, amount: usize)
        ensures
            final(self).inner() == old(self).inner(),
            final(self).buffered() == old(self).buffered().skip(
                min(amount as nat, old(self).buffered().len()) as int,
            ),
    {
        let n = if amount < self.buf.len() {
            amount
        } else {
            self.buf.len()
        };
        let rest = slice_to_vec(&self.buf.as_slice()[n..self.buf.len()]);
        assert(rest@ =~= self.buf@.skip(n as int));
        self.buf = rest;
    }
}

/// The text protocol spoken over a blocking stream: the stream, behind a
/// line buffer.
#[derive(Debug)]
pub struct AsciiProtocol<C> {
    reader: CappedLineReader<C>,
}

impl<C> AsciiProtocol<C> {
    /// The line buffer in front of the stream.
    pub closed spec fn reader(&self) -> CappedLineReader<C> {
        self.reader
    }

    /// Speaks the protocol over `stream`, with nothing buffered yet.
    pub fn new(stream: C) -> (r: Self)
        ensures
            r.reader().buffered() == Seq::<u8>::empty(),
            r.reader().inner() == stream,
    {
        Self { reader: CappedLineReader::new(stream) }
    }

    /// The line buffer in front of the stream.
    pub fn reader_mut(&mut self) -> (r: &mut CappedLineReader<C>)
        ensures
            *r == old(self).reader(),
            final(self).reader() == *final(r),
    {
        &mut self.reader
    }
}

} // verus!
