//! Decisions about the health of a pooled connection and where it connects.
use vstd::prelude::*;

verus! {

/// The port a target without one connects to.
pub const DEFAULT_PORT: u16 = 11211;

/// What a non-blocking read of zero bytes on a connection's socket reported.
#[derive(Clone, Copy, Debug, PartialEq, Eq, Structural)]
pub enum Probe {
    /// The read half is closed: the peer will send nothing more.
    Closed,
    /// Bytes are waiting to be read.
    Ready,
    /// Nothing to read yet, and the socket is open.
    WouldBlock,
    /// The read failed.
    Failed,
}

/// Whether a connection whose probe reported `p` is broken and must be
/// evicted: a closed read half or any error says so; anything else, an
/// idle socket included, means alive.
pub fn probe_is_broken(p: Probe) -> (r: bool)
    ensures
        r == (p == Probe::Closed || p == Probe::Failed),
{
    match p {
        Probe::Closed | Probe::Failed => true,
        Probe::Ready | Probe::WouldBlock => false,
    }
}

/// The port to connect to, given the one the target names, if any.
pub fn port_or_default(port: Option<u16>) -> (r: u16)
    ensures
        r == match port {
            Some(p) => p,
            None => DEFAULT_PORT,
        },
{
    match port {
        Some(p) => p,
        None => DEFAULT_PORT,
    }
}

} // verus!
