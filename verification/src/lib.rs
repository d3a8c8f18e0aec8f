//! Public-input aggregation for batches of chunk hash commitments.
//!
//! A chunk is a contiguous group of blocks summarized by four 32-byte hashes
//! plus a chain id; its public-input hash is derived by hashing those fields.
//! A batch is an ordered, continuous sequence of chunks aggregated into a
//! batch data hash and a batch public-input hash. This crate holds the
//! hash-commitment model, the row-layout allocator that places hash preimages
//! into the shared permutation table, and the public-input codec.

use vstd::prelude::*;

pub mod batch;
pub mod chunk;
pub mod circuit;
pub mod hashing;
pub mod util;

verus! {

/// Log of the circuit degree bound handed to the proving backend (provisional default).
pub const LOG_DEGREE: u32 = 19;

/// A chain id is a u64 and uses 8 bytes.
pub const CHAIN_ID_LEN: usize = 8;

/// Rows the hash permutation table spends on each of its sub-steps.
pub const DEFAULT_KECCAK_ROWS: usize = 12;

/// Permutation rounds per absorption block.
pub const NUM_ROUNDS: usize = 24;

/// Rows of one full absorption block: (NUM_ROUNDS + 1) * DEFAULT_KECCAK_ROWS.
pub const KECCAK_BLOCK_HEIGHT: usize = 300;

/// Bytes absorbed by one block of the underlying hash.
pub const KECCAK_RATE: usize = 136;

/// Elements of the circuit's public input: one element per byte of the four
/// 32-byte fields, then the chain id as 8 byte-valued elements.
pub const PUBLIC_INPUT_LEN: usize = 4 * 32 + CHAIN_ID_LEN;

/// Why constructing or laying out a batch was refused.
#[derive(Clone, Copy, Debug, PartialEq, Eq, Structural)]
pub enum AggregationError {
    /// A stored hash field is not exactly 32 bytes.
    WrongFieldLength,
    /// The batch holds no chunks.
    EmptyBatch,
    /// Some chunk carries a chain id different from the first chunk's.
    ChainIdMismatch,
    /// Adjacent chunks do not link: a post state root differs from the next
    /// chunk's prev state root.
    ContinuityViolation,
    /// The preimage list needs more absorption blocks than the table can host.
    CapacityExceeded,
}

} // verus!
