//! Client-side codec and connection logic for the memcached text protocol.
pub mod connection;
pub mod decimal;
pub mod driver;
pub mod error;
pub mod line_reader;
pub mod parser;
pub mod reply;
pub mod request;
pub mod settings;
pub mod wire;
