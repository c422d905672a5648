//! The server around the adapters: who may use it, what is counted, and how
//! answers and errors go out.

pub mod auth;
pub mod error;
pub mod runtime_log;
pub mod stats;
pub mod store;
pub mod stream;
