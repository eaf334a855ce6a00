//! Errors of the client and of a single command's exchange.
use vstd::prelude::*;
use crate::parser::ErrorKind;

verus! {

/// The longest key the protocol allows, in bytes.
pub const MAX_KEY_LENGTH: usize = 250;

/// Client-side errors
#[derive(Clone, Debug, PartialEq)]
pub enum ClientError {
    /// The key provided was longer than 250 bytes.
    KeyTooLong,
    /// The server returned an error prefixed with CLIENT_ERROR in response to a command.
    Error(String),
}

/// Rejects a key longer than the protocol allows.
pub fn check_key_len(key: &[u8]) -> (r: Result<(), ClientError>)
    ensures
        r is Err <==> key@.len() > MAX_KEY_LENGTH,
        r is Err ==> r == Err::<(), ClientError>(ClientError::KeyTooLong),
{
    if key.len() > MAX_KEY_LENGTH {
        Err(ClientError::KeyTooLong)
    } else {
        Ok(())
    }
}

impl ClientError {
    /// The error as shown to a person.
    pub fn message(&self) -> (r: String)
        ensures
            r@ == match self {
                ClientError::KeyTooLong => "The provided key was too long."@,
                ClientError::Error(s) => s@,
            },
    {
        match self {
            ClientError::KeyTooLong => "The provided key was too long.".to_owned(),
            ClientError::Error(s) => s.clone(),
        }
    }
}

/// Rejects a request whose keys are not all short enough.
pub fn check_keys_len(keys: &[Vec<u8>]) -> (r: Result<(), ClientError>)
    ensures
        r is Err <==> exists|i: int| 0 <= i < keys@.len() && #[trigger] keys@[i]@.len() > MAX_KEY_LENGTH,
        r is Err ==> r == Err::<(), ClientError>(ClientError::KeyTooLong),
{
    let mut i: usize = 0;
    while i < keys.len()
        invariant
            0 <= i <= keys@.len(),
            forall|j: int| 0 <= j < i ==> #[trigger] keys@[j]@.len() <= MAX_KEY_LENGTH,
        decreases keys.len() - i,
    {
        if check_key_len(keys[i].as_slice()).is_err() {
            return Err(ClientError::KeyTooLong);
        }
        i = i + 1;
    }
    Ok(())
}

/// Why a command did not produce the result it calls for.
#[derive(Clone, Debug, PartialEq)]
pub enum DriverError {
    /// The server understood the request and rejected it.
    Server(ErrorKind),
    /// The bytes from the server do not have a shape that the protocol allows.
    Framing,
    /// The connection closed before the whole reply had arrived.
    UnexpectedEof,
    /// The reply grew past the size limit before it was complete.
    TooLarge,
    /// A well-formed reply of another kind than the command calls for.
    Mismatch,
}

impl DriverError {
    /// Whether the connection that saw this error must be evicted: its
    /// framing state can no longer be trusted. A server-reported error
    /// leaves the connection healthy.
    pub fn evicts_connection(&self) -> (r: bool)
        ensures
            r == !(self is Server),
    {
        match self {
            DriverError::Server(_) => false,
            _ => true,
        }
    }
}

} // verus!
