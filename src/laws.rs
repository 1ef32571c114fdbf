//! Properties of the store that relate several of its operations, stated over the models
//! that the operations' contracts use: the overlay (`Staged`), the engine (`Stored`),
//! `observed` for reads and `committed` for what a commit plan does to the engine.
use vstd::prelude::*;

use crate::codec::{branch_key_text, lemma_branch_key_injective, lemma_branch_key_len};
use crate::store::{apply_plan, committed, observed, CommitOp, Staged, Stored};

verus! {

/// After `put(k, v)` a read of `k` returns `v` without a commit, whatever the engine
/// holds; staging does not touch the engine.
pub proof fn law_put_then_get(staged: Staged, b: Stored, k: Seq<u8>, v: Seq<u8>)
    ensures
        observed(staged.insert(k, Some(v)), b, k) == Some(v),
{
}

/// After `delete(k)` a read of `k` returns nothing without a commit, although the engine
/// still holds its old value.
pub proof fn law_delete_then_get(staged: Staged, b: Stored, k: Seq<u8>)
    requires
        b.contains_key(k),
    ensures
        observed(staged.insert(k, None), b, k) is None,
        b.contains_key(k),
{
}

/// Staging the same value, or the same deletion, twice leaves the overlay as one call does.
pub proof fn law_stage_idempotent(staged: Staged, k: Seq<u8>, e: Option<Seq<u8>>)
    ensures
        staged.insert(k, e).insert(k, e) == staged.insert(k, e),
{
    assert(staged.insert(k, e).insert(k, e) =~= staged.insert(k, e));
}

/// `put(k, v)`, a commit, and an emptied overlay: a read of `k` now comes from the engine
/// and returns `v`.
pub proof fn law_commit_write(staged: Staged, b: Stored, k: Seq<u8>, v: Seq<u8>)
    ensures
        observed(Staged::empty(), committed(b, staged.insert(k, Some(v))), k) == Some(v),
{
}

/// The engine holds `k`; `delete(k)` and a commit remove it from the engine, and a later
/// read of `k` returns nothing.
pub proof fn law_commit_delete(staged: Staged, b: Stored, k: Seq<u8>)
    requires
        b.contains_key(k),
    ensures
        !committed(b, staged.insert(k, None)).contains_key(k),
        observed(Staged::empty(), committed(b, staged.insert(k, None)), k) is None,
{
}

/// A commit of an empty overlay has no operation and leaves the engine as it was.
pub proof fn law_commit_empty(b: Stored, ops: Seq<CommitOp>)
    requires
        ops.len() == 0,
    ensures
        apply_plan(b, ops) == b,
        committed(b, Staged::empty()) == b,
{
    assert(committed(b, Staged::empty()) =~= b);
}

/// Deleting a key that neither the overlay nor the engine holds changes nothing that a
/// commit does to the engine: its erase finds nothing to remove.
pub proof fn law_delete_absent(staged: Staged, b: Stored, k: Seq<u8>)
    requires
        !staged.contains_key(k),
        !b.contains_key(k),
    ensures
        committed(b, staged.insert(k, None)) == committed(b, staged),
        b.remove(k) == b,
{
    assert(committed(b, staged.insert(k, None)) =~= committed(b, staged));
    assert(b.remove(k) =~= b);
}

/// Distinct branch identifiers have distinct storage keys, so staging an entry for one
/// branch leaves what is staged for any other branch as it was.
pub proof fn law_branch_write_isolated(
    staged: Staged,
    h1: u8,
    k1: Seq<u8>,
    h2: u8,
    k2: Seq<u8>,
    e: Option<Seq<u8>>,
)
    requires
        k1.len() == 32,
        k2.len() == 32,
        h1 != h2 || k1 != k2,
    ensures
        branch_key_text(h1, k1) != branch_key_text(h2, k2),
        staged.insert(branch_key_text(h1, k1), e).contains_key(branch_key_text(h2, k2))
            == staged.contains_key(branch_key_text(h2, k2)),
        staged.insert(branch_key_text(h1, k1), e)[branch_key_text(h2, k2)]
            == staged[branch_key_text(h2, k2)],
{
    if branch_key_text(h1, k1) == branch_key_text(h2, k2) {
        lemma_branch_key_injective(h1, k1, h2, k2);
    }
}

/// A branch's storage key never equals a leaf's 32 hash bytes, so branches and leaves
/// never overwrite each other.
pub proof fn law_branch_not_leaf(height: u8, node_key: Seq<u8>, leaf_key: Seq<u8>)
    requires
        node_key.len() == 32,
        leaf_key.len() == 32,
    ensures
        branch_key_text(height, node_key) != leaf_key,
{
    lemma_branch_key_len(height, node_key);
}

} // verus!
