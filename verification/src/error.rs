use vstd::prelude::*;

verus! {

/// Errors of the storage layer.
///
/// Only recoverable conditions are represented here; violations of a
/// precondition (an out-of-range page index, an offset that runs past the
/// page end) are programmer errors and are excluded by `requires` clauses
/// instead of being reported at run time.
#[derive(Debug, Clone, Copy, PartialEq, Eq, Structural)]
pub enum StorageError {
    /// A write attempted to set a bit back to 1 without an intervening
    /// erase, while flash-bit enforcement was switched on.
    FlashBitViolation,
    /// A record payload did not conform to the expected schema.  The
    /// verified core never produces this on its own: it is raised by the
    /// caller-supplied decoding predicate during a scan, and forwarded.
    Serialization,
    /// An operating-system I/O operation failed.  Produced only by the
    /// unverified shell that moves bytes between this library and the
    /// backing files, never by the verified core itself.
    IoFailure,
}

} // verus!
