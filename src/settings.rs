//! Client settings.
use vstd::prelude::*;

verus! {

/// The default room, in bytes, first made for a reply.
pub const DEFAULT_BUFFER_SIZE: usize = 128;

/// The default bound, in bytes, on a reply that has not been completely received.
pub const DEFAULT_MAX_RESPONSE_SIZE: usize = 16777216;

/// Client settings
#[derive(Clone, Debug)]
pub struct Settings {
    /// Response buffer size
    pub buffer_size: usize,
    /// The most bytes that an incomplete reply may take before the command fails
    pub max_response_size: usize,
}

impl Settings {
    /// Constructs a new `Settings`.
    ///
    /// Parameters are initialized with their default values.
    pub fn new() -> (r: Self)
        ensures
            r.buffer_size == DEFAULT_BUFFER_SIZE,
            r.max_response_size == DEFAULT_MAX_RESPONSE_SIZE,
    {
        Self::default()
    }

    /// Set response buffer size
    pub fn buffer_size(self, buffer_size: usize) -> (r: Self)
        ensures
            r.buffer_size == buffer_size,
            r.max_response_size == self.max_response_size,
    {
        Self { buffer_size, ..self }
    }

    /// Set the bound on a reply that has not been completely received
    pub fn max_response_size(self, max_response_size: usize) -> (r: Self)
        ensures
            r.buffer_size == self.buffer_size,
            r.max_response_size == max_response_size,
    {
        Self { max_response_size, ..self }
    }
}

impl Default for Settings {
    fn default() -> (r: Self)
        ensures
            r.buffer_size == DEFAULT_BUFFER_SIZE,
            r.max_response_size == DEFAULT_MAX_RESPONSE_SIZE,
    {
        Self { buffer_size: DEFAULT_BUFFER_SIZE, max_response_size: DEFAULT_MAX_RESPONSE_SIZE }
    }
}

} // verus!
