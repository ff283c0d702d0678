//! A durable storage layer for a small embedded device, verified down to
//! the bytes: a page-addressable virtual flash that emulates NOR-flash
//! erase/write semantics over a flat byte image, and an append-only,
//! length-prefixed record log with bounded, filtered scans.  Every
//! operation is specified against a mathematical model of the stored bytes;
//! the thin unverified shell that moves those bytes between this library
//! and the backing files lives outside the crate.

use vstd::prelude::*;

pub mod config;
pub mod db;
pub mod error;
pub mod exchange;
pub mod flash;
pub mod log;
pub mod util;

verus! {

/// Byte value of a fully erased flash cell: every bit set.
pub const ERASED_BYTE: u8 = 0xFF;

} // verus!
