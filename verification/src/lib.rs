//! A small HTTP/1.1 server core: request parsing, routing, handlers, response
//! serialisation and the per-connection state machine, all on plain bytes.
//! Nothing here reads or writes: the program around the library does, as the
//! state machine of a connection tells it to.

pub mod bytes;
pub mod client;
pub mod config;
pub mod connection;
pub mod decimal;
pub mod files;
pub mod handlers;
pub mod headers;
pub mod laws;
pub mod request;
pub mod response;
pub mod router;
