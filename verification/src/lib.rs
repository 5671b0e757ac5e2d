//! Transport-agnostic engine of a serial / TCP terminal: a shared byte inbox,
//! a frame assembler for the `AA 55 | length | payload | checksum` wire
//! format, bounded per-channel sample histories, the decisions of the
//! background reader and of the session controller, and hex text helpers.
//!
//! Everything here works on plain values. Opening devices, sockets, threads,
//! clocks and the scripting runtime that decodes a payload into samples are
//! the caller's business.

pub mod channel;
pub mod config;
pub mod frame;
pub mod inbox;
pub mod reader;
pub mod session;
pub mod utils;
