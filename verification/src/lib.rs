//! Core of a Bitcoin anchoring service: a federation of validators running a
//! replicated ledger periodically commits a checkpoint (ledger height and
//! block hash) into the Bitcoin blockchain through a chain of multisignature
//! transactions.
//!
//! The crate holds the verified heart of the protocol: the storage schema
//! that tracks each validator's belief about the latest anchoring transaction
//! (its "lect"), the majority vote that resolves those beliefs into a single
//! canonical one, the partial-signature registry with its deduplication
//! rules, and the deterministic construction of the next transaction in the
//! chain. I/O (the Bitcoin relay, the host ledger's transport) stays outside;
//! the outside `bitcoin` crate supplies the digests and the base58 encoding
//! through a few trusted wrappers.

use vstd::prelude::*;

pub mod assembly;
pub mod builder;
pub mod config;
pub mod digest;
pub mod relay;
pub mod schema;
pub mod tx;
pub mod types;

verus! {

/// Number of identical votes that makes a Byzantine-fault-tolerant
/// supermajority among `n` validators: more than two thirds of them.
pub open spec fn spec_majority_count(n: int) -> int {
    2 * n / 3 + 1
}

/// Supermajority threshold for a validator set of the given size.
pub fn majority_count(total_validators: u8) -> (r: u32)
    ensures
        r == spec_majority_count(total_validators as int),
{
    (total_validators as u32) * 2 / 3 + 1
}

/// The threshold is a strict supermajority: three times the threshold
/// exceeds twice the validator count, so two disjoint groups can never
/// both reach it; and the threshold is attainable by the set itself.
pub proof fn lemma_majority_count_bounds(n: int)
    requires
        1 <= n,
    ensures
        3 * spec_majority_count(n) > 2 * n,
        spec_majority_count(n) <= n,
{
}

} // verus!
