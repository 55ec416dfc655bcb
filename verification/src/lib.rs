//! A top-of-book quote pipeline: raw best-bid/offer messages from
//! three cryptocurrency exchanges, each in its own wire schema, are
//! normalized into one canonical quote record and folded into a
//! shared latest-quote-per-instrument store, with one latency log
//! line per update.
//!
//! The transport — opening a socket, resubscribing, framing — is an
//! external collaborator that delivers complete text messages; this
//! crate holds everything from the raw message on: the per-exchange
//! schemas ([`models`]), the exact-decimal numerals they carry
//! ([`decimal`]), the adapters ([`adapters`]), the ingestion step and
//! its ordering laws ([`pipeline`]), the lock-guarded store
//! ([`store`]), and the log-line rendering ([`render`]).

pub mod adapters;
pub mod decimal;
mod json;
pub mod models;
pub mod pipeline;
pub mod render;
pub mod store;
