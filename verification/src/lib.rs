//! A durable, single-writer/multi-reader record queue engine.
//!
//! A producer appends typed binary records to an append-only log; independent
//! named consumers each keep their own read cursor over that log and advance
//! it only on an explicit commit.  The engine itself works on plain log bytes
//! and cursor values; reading and writing the backing files is left to the
//! caller, who hands the durable bytes in and persists what comes back.

pub mod consumer;
pub mod convert;
pub mod queue;
pub mod record;
