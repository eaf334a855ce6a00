//! Encoding of client requests into the exact bytes the protocol defines.
//!
//! Keys are written as given: that they hold no whitespace or line
//! terminator, and are short enough, is checked before they get here.
use vstd::prelude::*;
use crate::decimal::{decimal, push_decimal};
use crate::parser::Status;
use crate::wire::{
    ADD, APPEND, CAS, CRLF, DECR, DELETE, FLUSH_ALL, GET, GETS, INCR, NOREPLY, PREPEND, REPLACE,
    SET, SP, STATS, TOUCH, VERSION_CMD,
};

verus! {

/// The commands of the protocol that this client issues.
#[derive(Clone, Copy, Debug, PartialEq, Eq, Structural)]
pub enum Command {
    SetValue,
    Add,
    Replace,
    Cas,
    Append,
    Prepend,
    Get,
    Gets,
    Delete,
    Touch,
    Increment,
    Decrement,
    Version,
    FlushAll,
    Stats,
}

impl Command {
    /// The command's name on the wire.
    pub open spec fn word(self) -> Seq<u8> {
        match self {
            Command::SetValue => SET@,
            Command::Add => ADD@,
            Command::Replace => REPLACE@,
            Command::Cas => CAS@,
            Command::Append => APPEND@,
            Command::Prepend => PREPEND@,
            Command::Get => GET@,
            Command::Gets => GETS@,
            Command::Delete => DELETE@,
            Command::Touch => TOUCH@,
            Command::Increment => INCR@,
            Command::Decrement => DECR@,
            Command::Version => VERSION_CMD@,
            Command::FlushAll => FLUSH_ALL@,
            Command::Stats => STATS@,
        }
    }

    /// Appends the command's name to `out`.
    pub fn push_word(&self, out: &mut Vec<u8>)
        ensures
            final(out)@ == old(out)@ + self.word(),
    {
        match self {
            Command::SetValue => out.extend_from_slice(SET.as_slice()),
            Command::Add => out.extend_from_slice(ADD.as_slice()),
            Command::Replace => out.extend_from_slice(REPLACE.as_slice()),
            Command::Cas => out.extend_from_slice(CAS.as_slice()),
            Command::Append => out.extend_from_slice(APPEND.as_slice()),
            Command::Prepend => out.extend_from_slice(PREPEND.as_slice()),
            Command::Get => out.extend_from_slice(GET.as_slice()),
            Command::Gets => out.extend_from_slice(GETS.as_slice()),
            Command::Delete => out.extend_from_slice(DELETE.as_slice()),
            Command::Touch => out.extend_from_slice(TOUCH.as_slice()),
            Command::Increment => out.extend_from_slice(INCR.as_slice()),
            Command::Decrement => out.extend_from_slice(DECR.as_slice()),
            Command::Version => out.extend_from_slice(VERSION_CMD.as_slice()),
            Command::FlushAll => out.extend_from_slice(FLUSH_ALL.as_slice()),
            Command::Stats => out.extend_from_slice(STATS.as_slice()),
        }
        assert(out@ =~= old(out)@ + self.word());
    }

    /// The status that a command sent with `noreply` is taken to have had,
    /// since the server sends nothing back; `None` for commands whose reply
    /// carries data and so cannot be skipped.
    pub fn assumed_status(&self) -> (r: Option<Status>)
        ensures
            r == match self {
                Command::SetValue | Command::Add | Command::Replace | Command::Cas | Command::Append
                | Command::Prepend => Some(Status::Stored),
                Command::Delete => Some(Status::Deleted),
                Command::Touch => Some(Status::Touched),
                _ => None::<Status>,
            },
    {
        match self {
            Command::SetValue | Command::Add | Command::Replace | Command::Cas | Command::Append
            | Command::Prepend => Some(Status::Stored),
            Command::Delete => Some(Status::Deleted),
            Command::Touch => Some(Status::Touched),
            _ => None,
        }
    }
}

/// Storage command
#[derive(Clone, Copy, Debug, PartialEq, Eq, Structural)]
pub enum StorageCommand {
    /// "set" means "store this data".
    SetValue,
    /// "add" means "store this data, but only if the server *doesn't* already
    /// hold data for this key".
    Add,
    /// "replace" means "store this data, but only if the server *does*
    /// already hold data for this key".
    Replace,
    /// "append" means "add this data to an existing key after existing data".
    Append,
    /// "prepend" means "add this data to an existing key before existing data".
    Prepend,
    /// "cas" means "store this data, but only if no one else has updated it
    /// since I last fetched it".
    Cas,
}

impl StorageCommand {
    pub open spec fn spec_command(self) -> Command {
        match self {
            StorageCommand::SetValue => Command::SetValue,
            StorageCommand::Add => Command::Add,
            StorageCommand::Replace => Command::Replace,
            StorageCommand::Append => Command::Append,
            StorageCommand::Prepend => Command::Prepend,
            StorageCommand::Cas => Command::Cas,
        }
    }

    /// The general command this one is.
    #[verifier::when_used_as_spec(spec_command)]
    pub fn command(self) -> (r: Command)
        ensures
            r == self.spec_command(),
    {
        match self {
            StorageCommand::SetValue => Command::SetValue,
            StorageCommand::Add => Command::Add,
            StorageCommand::Replace => Command::Replace,
            StorageCommand::Append => Command::Append,
            StorageCommand::Prepend => Command::Prepend,
            StorageCommand::Cas => Command::Cas,
        }
    }
}

/// Retrieval command
#[derive(Clone, Copy, Debug, PartialEq, Eq, Structural)]
pub enum RetrievalCommand {
    /// "get" means "get this data".
    Get,
    /// "gets" means "get this data, with its CAS identifier".
    Gets,
}

impl RetrievalCommand {
    pub open spec fn spec_command(self) -> Command {
        match self {
            RetrievalCommand::Get => Command::Get,
            RetrievalCommand::Gets => Command::Gets,
        }
    }

    /// The general command this one is.
    #[verifier::when_used_as_spec(spec_command)]
    pub fn command(self) -> (r: Command)
        ensures
            r == self.spec_command(),
    {
        match self {
            RetrievalCommand::Get => Command::Get,
            RetrievalCommand::Gets => Command::Gets,
        }
    }
}

/// A space and then `s`.
pub open spec fn spaced(s: Seq<u8>) -> Seq<u8> {
    seq![SP] + s
}

/// ` noreply` when it is asked for.
pub open spec fn noreply_suffix(noreply: bool) -> Seq<u8> {
    if noreply {
        spaced(NOREPLY@)
    } else {
        Seq::empty()
    }
}

/// `<cmd> <key> <flags> <exptime> <bytes>[ <cas>][ noreply]\r\n<data>\r\n`
pub open spec fn storage_request(
    command: StorageCommand,
    key: Seq<u8>,
    flags: u32,
    exptime: u64,
    data: Seq<u8>,
    cas: Option<u64>,
    noreply: bool,
) -> Seq<u8> {
    command.command().word() + spaced(key) + spaced(decimal(flags as nat)) + spaced(
        decimal(exptime as nat),
    ) + spaced(decimal(data.len())) + match cas {
        Some(c) => spaced(decimal(c as nat)),
        None => Seq::empty(),
    } + noreply_suffix(noreply) + CRLF@ + data + CRLF@
}

/// ` <key>` for each key in turn.
pub open spec fn spaced_keys(keys: Seq<Seq<u8>>) -> Seq<u8>
    decreases keys.len(),
{
    if keys.len() == 0 {
        Seq::empty()
    } else {
        spaced_keys(keys.drop_last()) + spaced(keys.last())
    }
}

/// `get <key>*\r\n` or `gets <key>*\r\n`
pub open spec fn retrieval_request(command: RetrievalCommand, keys: Seq<Seq<u8>>) -> Seq<u8> {
    command.command().word() + spaced_keys(keys) + CRLF@
}

/// `delete <key>[ noreply]\r\n`
pub open spec fn delete_request(key: Seq<u8>, noreply: bool) -> Seq<u8> {
    DELETE@ + spaced(key) + noreply_suffix(noreply) + CRLF@
}

/// `touch <key> <exptime>[ noreply]\r\n`
pub open spec fn touch_request(key: Seq<u8>, exptime: u64, noreply: bool) -> Seq<u8> {
    TOUCH@ + spaced(key) + spaced(decimal(exptime as nat)) + noreply_suffix(noreply) + CRLF@
}

/// `incr <key> <amount>\r\n` or `decr <key> <amount>\r\n`
pub open spec fn arith_request(increment: bool, key: Seq<u8>, amount: u64) -> Seq<u8> {
    (if increment {
        INCR@
    } else {
        DECR@
    }) + spaced(key) + spaced(decimal(amount as nat)) + CRLF@
}

/// `flush_all[ <delay>]\r\n`
pub open spec fn flush_all_request(delay: Option<u32>) -> Seq<u8> {
    FLUSH_ALL@ + match delay {
        Some(d) => spaced(decimal(d as nat)),
        None => Seq::empty(),
    } + CRLF@
}

fn push_spaced(out: &mut Vec<u8>, s: &[u8])
    ensures
        final(out)@ == old(out)@ + spaced(s@),
{
    out.push(SP);
    out.extend_from_slice(s);
    assert(out@ =~= old(out)@ + spaced(s@));
}

fn push_spaced_number(out: &mut Vec<u8>, n: u64)
    ensures
        final(out)@ == old(out)@ + spaced(decimal(n as nat)),
{
    out.push(SP);
    push_decimal(out, n);
    assert(out@ =~= old(out)@ + spaced(decimal(n as nat)));
}

fn push_noreply(out: &mut Vec<u8>, noreply: bool)
    ensures
        final(out)@ == old(out)@ + noreply_suffix(noreply),
{
    if noreply {
        push_spaced(out, NOREPLY.as_slice());
    } else {
        assert(out@ =~= out@ + noreply_suffix(noreply));
    }
}

/// `<command name> <key> <flags> <exptime> <bytes>[ <cas unique>][ noreply]\r\n<data block>\r\n`
pub fn encode_storage(
    command: StorageCommand,
    key: &[u8],
    flags: u32,
    exptime: u64,
    data: &[u8],
    cas: Option<u64>,
    noreply: bool,
) -> (r: Vec<u8>)
    ensures
        r@ == storage_request(command, key@, flags, exptime, data@, cas, noreply),
{
    let mut out: Vec<u8> = Vec::new();
    command.command().push_word(&mut out);
    push_spaced(&mut out, key);
    push_spaced_number(&mut out, flags as u64);
    push_spaced_number(&mut out, exptime);
    push_spaced_number(&mut out, data.len() as u64);
    let ghost head = out@;
    match cas {
        Some(c) => push_spaced_number(&mut out, c),
        None => {},
    }
    assert(out@ =~= head + match cas {
        Some(c) => spaced(decimal(c as nat)),
        None => Seq::empty(),
    });
    push_noreply(&mut out, noreply);
    out.extend_from_slice(CRLF.as_slice());
    out.extend_from_slice(data);
    out.extend_from_slice(CRLF.as_slice());
    assert(out@ =~= storage_request(command, key@, flags, exptime, data@, cas, noreply));
    out
}

/// `get <key>*\r\n` / `gets <key>*\r\n`: each key after a single space.
pub fn encode_retrieval(command: RetrievalCommand, keys: &[Vec<u8>]) -> (r: Vec<u8>)
    ensures
        r@ == retrieval_request(command, keys@.map_values(|k: Vec<u8>| k@)),
{
    let ghost all = keys@.map_values(|k: Vec<u8>| k@);
    let mut out: Vec<u8> = Vec::new();
    command.command().push_word(&mut out);
    let mut i: usize = 0;
    while i < keys.len()
        invariant
            0 <= i <= keys@.len(),
            all == keys@.map_values(|k: Vec<u8>| k@),
            out@ == command.command().word() + spaced_keys(all.take(i as int)),
        decreases keys.len() - i,
    {
        push_spaced(&mut out, keys[i].as_slice());
        assert(all.take(i + 1).drop_last() =~= all.take(i as int));
        i = i + 1;
    }
    assert(all.take(i as int) =~= all);
    out.extend_from_slice(CRLF.as_slice());
    out
}

/// `delete <key>[ noreply]\r\n`
pub fn encode_delete(key: &[u8], noreply: bool) -> (r: Vec<u8>)
    ensures
        r@ == delete_request(key@, noreply),
{
    let mut out: Vec<u8> = Vec::new();
    out.extend_from_slice(DELETE.as_slice());
    push_spaced(&mut out, key);
    push_noreply(&mut out, noreply);
    out.extend_from_slice(CRLF.as_slice());
    assert(out@ =~= delete_request(key@, noreply));
    out
}

/// `touch <key> <exptime>[ noreply]\r\n`
pub fn encode_touch(key: &[u8], exptime: u64, noreply: bool) -> (r: Vec<u8>)
    ensures
        r@ == touch_request(key@, exptime, noreply),
{
    let mut out: Vec<u8> = Vec::new();
    out.extend_from_slice(TOUCH.as_slice());
    push_spaced(&mut out, key);
    push_spaced_number(&mut out, exptime);
    push_noreply(&mut out, noreply);
    out.extend_from_slice(CRLF.as_slice());
    assert(out@ =~= touch_request(key@, exptime, noreply));
    out
}

/// `incr <key> <amount>\r\n` when `increment`, else `decr <key> <amount>\r\n`.
pub fn encode_arith(increment: bool, key: &[u8], amount: u64) -> (r: Vec<u8>)
    ensures
        r@ == arith_request(increment, key@, amount),
{
    let mut out: Vec<u8> = Vec::new();
    if increment {
        out.extend_from_slice(INCR.as_slice());
    } else {
        out.extend_from_slice(DECR.as_slice());
    }
    push_spaced(&mut out, key);
    push_spaced_number(&mut out, amount);
    out.extend_from_slice(CRLF.as_slice());
    assert(out@ =~= arith_request(increment, key@, amount));
    out
}

/// `version\r\n`
pub fn encode_version() -> (r: Vec<u8>)
    ensures
        r@ == VERSION_CMD@ + CRLF@,
{
    let mut out: Vec<u8> = Vec::new();
    out.extend_from_slice(VERSION_CMD.as_slice());
    out.extend_from_slice(CRLF.as_slice());
    assert(out@ =~= VERSION_CMD@ + CRLF@);
    out
}

/// `flush_all[ <delay>]\r\n`
pub fn encode_flush_all(delay: Option<u32>) -> (r: Vec<u8>)
    ensures
        r@ == flush_all_request(delay),
{
    let mut out: Vec<u8> = Vec::new();
    out.extend_from_slice(FLUSH_ALL.as_slice());
    match delay {
        Some(d) => push_spaced_number(&mut out, d as u64),
        None => {},
    }
    out.extend_from_slice(CRLF.as_slice());
    assert(out@ =~= flush_all_request(delay));
    out
}

/// `stats\r\n`
pub fn encode_stats() -> (r: Vec<u8>)
    ensures
        r@ == STATS@ + CRLF@,
{
    let mut out: Vec<u8> = Vec::new();
    out.extend_from_slice(STATS.as_slice());
    out.extend_from_slice(CRLF.as_slice());
    assert(out@ =~= STATS@ + CRLF@);
    out
}

} // verus!
