//! A verified core for a public-proxy gathering and validation pipeline.
//!
//! The library models proxy endpoints, the protocols they may speak, the
//! binary handshakes used to probe them, and the filtering and accounting
//! rules of the fetch/validate pipeline. Network transport, TLS and the
//! asynchronous plumbing live outside the library; every decision the
//! pipeline takes is a verified function in here.

pub mod addr;
pub mod cli;
pub mod errors;
pub mod fetcher;
pub mod geo;
pub mod json;
pub mod judge;
pub mod models;
pub mod negotiators;
pub mod providers;
pub mod proxy;
pub mod text;
pub mod validator;

pub use models::{Anonymity, Protocol};
