//! Deterministic error types.
//!
//! Every error defined here is a *deterministic* error: given the same input
//! bytes and the same chain data, every node produces exactly the same error
//! value. None of these carry timing, addresses or any other machine-local
//! information.

use vstd::prelude::*;

verus! {

/// Failure of a deterministic host-side operation: encoding or decoding a
/// value for the guest ABI, or an out-of-bounds access into guest memory.
#[derive(Debug, Clone, Copy, PartialEq, Eq, Structural)]
pub enum DeterministicHostError {
    /// A decode was handed a byte sequence whose length differs from the
    /// exact encoded size of the requested type.
    BadSize { expected: usize, got: usize },
    /// A read or write would touch bytes past the current size of the guest
    /// module's linear memory.
    OutOfBounds { offset: u64, len: u64, memory: u64 },
    /// An allocation would push the guest heap past the largest offset an
    /// `AscPtr` can represent.
    AllocationTooLarge { requested: u64 },
}

/// Failure of the block stream. `DeepReorg`, `MissingParent` and
/// `BeyondRetention` are fatal: the stream stops, since resolving them
/// silently would risk non-canonical results.
#[derive(Debug, Clone, Copy, PartialEq, Eq, Structural)]
pub enum StreamError {
    /// The divergence point of a competing branch lies more than
    /// `reorg_threshold` blocks behind the tip.
    DeepReorg { tip_number: u64, divergence_bound: u64 },
    /// A competing block (or one of its ancestors) has no parent pointer, so
    /// no common ancestor can ever be found.
    MissingParent { number: u64 },
    /// The common ancestor would lie before the oldest locally retained
    /// block.
    BeyondRetention { number: u64 },
    /// A candidate block skips ahead of the tip by more than one height.
    NonSequential { tip_number: u64, got_number: u64 },
    /// While resolving a reorg, the supplied block is not the parent the
    /// stream asked for.
    UnexpectedBlock,
    /// The block had a malformed identity (wrong hash length, or a parent
    /// pointer that does not sit one height below the block).
    InvalidBlock,
    /// The stream received a stop signal and processes nothing further.
    Stopped,
}

impl StreamError {
    /// Fatal errors stop the stream permanently.
    pub open spec fn is_fatal(self) -> bool {
        match self {
            StreamError::DeepReorg { .. } => true,
            StreamError::MissingParent { .. } => true,
            StreamError::BeyondRetention { .. } => true,
            _ => false,
        }
    }
}

} // verus!
