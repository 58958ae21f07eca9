//! Execution core of a chain-agnostic blockchain indexer.
//!
//! The crate has two halves. The chain half models block identity
//! ([`BlockPtr`](block_ptr::BlockPtr)), the per-chain configuration
//! ([`ChainDescriptor`](chain::ChainDescriptor)) and the reorg-aware
//! [`BlockStream`](block_stream::BlockStream) that delivers canonical blocks
//! in order and rolls back on chain reorganizations. The memory half is the
//! deterministic ABI used to move host values into and out of a guest
//! module's linear memory: the [`AscType`](codec::AscType) codec, the typed
//! bounds-checked offset [`AscPtr`](asc_ptr::AscPtr), and the heap accessor
//! with `asc_new` / `asc_get` (in [`heap`]).
//!
//! Everything here must be bit-for-bit reproducible across independently
//! operated nodes, so every fallible step fails with a deterministic error
//! derived only from the input bytes and the chain data.

pub mod asc_ptr;
pub mod block;
pub mod block_ptr;
pub mod block_stream;
pub mod chain;
pub mod codec;
pub mod errors;
pub mod heap;
