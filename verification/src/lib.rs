//! Streaming request engine for a terminal chat client.
//!
//! The library holds the verified core: reassembling server-sent frames from
//! raw network chunks, decoding events, repairing split escape sequences,
//! deciding retries, and driving the per-attempt state machine.  The thin
//! unverified shell around it (argument parsing, configuration loading,
//! readline handling, the HTTP call itself) lives outside the library and
//! exchanges plain values with it.

pub mod chars;
pub mod completion;
pub mod config;
pub mod engine;
pub mod events;
pub mod frames;
pub mod json;
pub mod output;
pub mod payload;
pub mod retry;
pub mod runstate;
pub mod text;
pub mod url;
