//! An in-memory key-value service: the store, the handlers that read and
//! write it, and the rules that decide how a request is admitted and how a
//! failure is reported.
//!
//! The library holds no socket, no clock and no lock. A server around it
//! routes each request to a handler, keeps the store behind a
//! readers-writer lock, waits for the deadline, and hands what it found to
//! the functions here.

pub mod admission;
pub mod failure;
pub mod handlers;
pub mod store;

pub use admission::Limiter;
pub use failure::{classify, handle_error, respond, Failure, Response};
pub use handlers::{kv_get, kv_set, list_keys};
pub use store::Store;
