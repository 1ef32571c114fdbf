use vstd::prelude::*;

use crate::codec::{encode_branch_key, encode_leaf_key, branch_key_text};
use crate::error::StoreError;
use crate::overlay::{copy_bytes, lemma_to_map_push, to_map, CacheOverlay, Entry};

verus! {

/// The engine's state: each stored key with its value.
pub type Stored = Map<Seq<u8>, Seq<u8>>;

/// The overlay's state: each staged key with its value, or `None` for a tombstone.
pub type Staged = Map<Seq<u8>, Option<Seq<u8>>>;

/// What the overlay says about a key.
#[derive(Debug)]
pub enum CacheRead {
    /// A value is staged for the key.
    Hit(Vec<u8>),
    /// A deletion is staged for the key: it reads as absent, whatever the engine holds.
    Deleted,
    /// Nothing is staged: the engine must be asked for the carried storage key.
    Miss(Vec<u8>),
}

/// One engine operation of a commit.
#[derive(Debug)]
pub enum CommitOp {
    /// Store the value under the key.
    Write(Vec<u8>, Vec<u8>),
    /// Remove the key if the engine holds it; an absent key is left alone.
    Erase(Vec<u8>),
}

/// The engine's state after one operation.
pub open spec fn apply_op(b: Stored, op: CommitOp) -> Stored {
    match op {
        CommitOp::Write(k, v) => b.insert(k@, v@),
        CommitOp::Erase(k) => b.remove(k@),
    }
}

/// The engine's state after the operations, in order.
pub open spec fn apply_plan(b: Stored, ops: Seq<CommitOp>) -> Stored
    decreases ops.len(),
{
    if ops.len() == 0 {
        b
    } else {
        apply_op(apply_plan(b, ops.drop_last()), ops.last())
    }
}

/// The engine's state once every staged entry is reconciled into `b`: a staged value
/// replaces, a tombstone removes, an unstaged key keeps what `b` holds.
pub open spec fn committed(b: Stored, staged: Staged) -> Stored {
    Map::new(
        |k: Seq<u8>|
            if staged.contains_key(k) {
                staged[k] is Some
            } else {
                b.contains_key(k)
            },
        |k: Seq<u8>|
            if staged.contains_key(k) {
                staged[k]->0
            } else {
                b[k]
            },
    )
}

/// What a read of `k` returns when the overlay is `staged` and the engine holds `b`: the
/// overlay's answer when the key is staged, the engine's otherwise.
pub open spec fn observed(staged: Staged, b: Stored, k: Seq<u8>) -> Option<Seq<u8>> {
    if staged.contains_key(k) {
        staged[k]
    } else if b.contains_key(k) {
        Some(b[k])
    } else {
        None
    }
}

/// The operation that reconciles one staged entry.
pub open spec fn op_reconciles(op: CommitOp, k: Seq<u8>, e: Option<Seq<u8>>) -> bool {
    match op {
        CommitOp::Write(k2, v) => k2@ == k && e == Some(v@),
        CommitOp::Erase(k2) => k2@ == k && e is None,
    }
}

/// Reconciling one more entry is one more operation.
proof fn lemma_committed_insert(b: Stored, staged: Staged, op: CommitOp, k: Seq<u8>, e: Option<Seq<u8>>)
    requires
        op_reconciles(op, k, e),
    ensures
        committed(b, staged.insert(k, e)) == apply_op(committed(b, staged), op),
{
    assert(committed(b, staged.insert(k, e)) =~= apply_op(committed(b, staged), op));
}

proof fn lemma_apply_plan_push(b: Stored, ops: Seq<CommitOp>, op: CommitOp)
    ensures
        apply_plan(b, ops.push(op)) == apply_op(apply_plan(b, ops), op),
{
    assert(ops.push(op).drop_last() =~= ops);
}

/// The operation that reconciles a staged (key, entry) pair.
fn op_for(key: &Vec<u8>, e: &Entry) -> (r: CommitOp)
    ensures
        op_reconciles(r, key@, e@),
{
    match e {
        Entry::Value(v) => CommitOp::Write(copy_bytes(key.as_slice()), copy_bytes(v.as_slice())),
        Entry::Tombstone => CommitOp::Erase(copy_bytes(key.as_slice())),
    }
}

/// A call on the durable engine.
#[derive(Debug)]
pub enum EngineCall {
    Put(Vec<u8>, Vec<u8>),
    Get(Vec<u8>),
    Delete(Vec<u8>),
}

/// What a commit does once the engine has answered a call.
#[derive(Debug)]
pub enum CommitStep {
    /// The current operation is done: go on with the next one.
    Advance,
    /// The current operation needs one more engine call.
    Call(EngineCall),
    /// The engine failed: the commit stops here, earlier operations stay applied.
    Stop(StoreError),
}

/// The first engine call for an operation of a commit plan: a write stores its value, an
/// erase first asks whether the engine holds the key.
pub fn first_call(op: &CommitOp) -> (r: EngineCall)
    ensures
        match op {
            CommitOp::Write(k, v) => r matches EngineCall::Put(k2, v2) && k2@ == k@ && v2@ == v@,
            CommitOp::Erase(k) => r matches EngineCall::Get(k2) && k2@ == k@,
        },
{
    match op {
        CommitOp::Write(k, v) => EngineCall::Put(copy_bytes(k.as_slice()), copy_bytes(v.as_slice())),
        CommitOp::Erase(k) => EngineCall::Get(copy_bytes(k.as_slice())),
    }
}

/// The decision after the engine answered `call` with `outcome` (the value read, for a
/// lookup): the first failure stops the commit; a lookup that found the key is followed by
/// its deletion; a lookup that found nothing, a store and a deletion complete the operation.
pub fn commit_step(call: &EngineCall, outcome: Result<Option<Vec<u8>>, String>) -> (r: CommitStep)
    ensures
        outcome matches Err(m) ==> r matches CommitStep::Stop(StoreError::Backend(m2)) && m2@ == m@,
        outcome matches Ok(found) ==> match call {
            EngineCall::Get(k) => if found is Some {
                r matches CommitStep::Call(EngineCall::Delete(k2)) && k2@ == k@
            } else {
                r is Advance
            },
            _ => r is Advance,
        },
{
    match outcome {
        Err(m) => CommitStep::Stop(StoreError::Backend(m)),
        Ok(found) => match call {
            EngineCall::Get(k) => match found {
                Some(_) => CommitStep::Call(EngineCall::Delete(copy_bytes(k.as_slice()))),
                None => CommitStep::Advance,
            },
            _ => CommitStep::Advance,
        },
    }
}

/// A write-back store for tree nodes: mutations are staged in an overlay until a commit
/// writes them to the engine, which the caller drives.
pub struct MerkleStore {
    cache: CacheOverlay,
}

impl MerkleStore {
    /// The staged mutations.
    pub closed spec fn overlay(&self) -> Staged {
        self.cache@
    }

    /// A store with nothing staged.
    pub fn new() -> (r: MerkleStore)
        ensures
            r.overlay() == Staged::empty(),
    {
        MerkleStore { cache: CacheOverlay::new() }
    }

    /// The staged (key, entry) pairs, in the order in which their keys were first staged.
    pub closed spec fn staged_pairs(&self) -> Seq<(Vec<u8>, Entry)> {
        self.cache.pairs()
    }

    /// A store over an existing overlay.
    pub fn with_cache(cache: CacheOverlay) -> (r: MerkleStore)
        ensures
            r.overlay() == cache@,
    {
        MerkleStore { cache }
    }

    /// The number of staged keys.
    pub fn pending(&self) -> (r: usize)
        ensures
            r == self.overlay().len(),
    {
        self.cache.len()
    }

    /// Reads `key` from the overlay: a staged value, a staged deletion, or a miss that
    /// names the key to read from the engine.
    pub fn get(&self, key: &[u8]) -> (r: CacheRead)
        ensures
            match r {
                CacheRead::Hit(v) => self.overlay().contains_key(key@)
                    && self.overlay()[key@] == Some(v@),
                CacheRead::Deleted => self.overlay().contains_key(key@)
                    && self.overlay()[key@] is None,
                CacheRead::Miss(k) => !self.overlay().contains_key(key@) && k@ == key@,
            },
    {
        match self.cache.get(key) {
            Some(Entry::Value(v)) => CacheRead::Hit(copy_bytes(v.as_slice())),
            Some(Entry::Tombstone) => CacheRead::Deleted,
            None => CacheRead::Miss(copy_bytes(key)),
        }
    }

    /// The answer to a read once the engine has been asked: on a miss, what the engine
    /// returned for the key; otherwise the overlay's answer.
    pub fn resolve(read: CacheRead, stored: Option<Vec<u8>>) -> (r: Option<Vec<u8>>)
        ensures
            match read {
                CacheRead::Hit(v) => r == Some(v),
                CacheRead::Deleted => r is None,
                CacheRead::Miss(_) => r == stored,
            },
    {
        match read {
            CacheRead::Hit(v) => Some(v),
            CacheRead::Deleted => None,
            CacheRead::Miss(_) => stored,
        }
    }

    /// Stages `value` under `key`; the engine is not touched.
    pub fn put(&mut self, key: &[u8], value: &[u8])
        ensures
            final(self).overlay() == old(self).overlay().insert(key@, Some(value@)),
    {
        self.cache.put(key, value);
    }

    /// Stages the deletion of `key`; the engine is not touched.
    pub fn delete(&mut self, key: &[u8])
        ensures
            final(self).overlay() == old(self).overlay().insert(key@, None::<Seq<u8>>),
    {
        self.cache.delete(key);
    }

    /// Discards every staged mutation; the engine is not touched.
    pub fn clear_cache(&mut self)
        ensures
            final(self).overlay() == Staged::empty(),
    {
        self.cache.clear();
    }

    /// The engine operations that reconcile the overlay, one per staged key. Applied in
    /// order to any engine state `b`, they leave `committed(b, overlay)`.
    pub fn commit_plan(&self) -> (r: Vec<CommitOp>)
        ensures
            r@.len() == self.overlay().len(),
            r@.len() == self.staged_pairs().len(),
            forall|i: int|
                0 <= i < r@.len() ==> op_reconciles(
                    #[trigger] r@[i],
                    self.staged_pairs()[i].0@,
                    self.staged_pairs()[i].1@,
                ),
            forall|b: Stored| #[trigger] apply_plan(b, r@) == committed(b, self.overlay()),
            forall|b: Stored, j: int|
                0 <= j <= r@.len() ==> #[trigger] apply_plan(b, r@.take(j)) == committed(
                    b,
                    to_map(self.staged_pairs().take(j)),
                ),
    {
        let n = self.cache.len();
        let pairs = self.cache.drain_for_commit();
        let mut ops: Vec<CommitOp> = Vec::with_capacity(n);
        let mut i: usize = 0;
        assert(pairs@.take(0) =~= Seq::<(Vec<u8>, Entry)>::empty());
        assert forall|b: Stored, j: int| 0 <= j <= 0 implies #[trigger] apply_plan(b, ops@.take(j))
            == committed(b, to_map(pairs@.take(j))) by {
            assert(ops@.take(j) =~= Seq::<CommitOp>::empty());
            assert(pairs@.take(j) =~= Seq::<(Vec<u8>, Entry)>::empty());
            assert(committed(b, Staged::empty()) =~= b);
        }
        while i < n
            invariant
                n == pairs@.len(),
                i <= n,
                ops@.len() == i,
                forall|j: int|
                    0 <= j < i ==> op_reconciles(#[trigger] ops@[j], pairs@[j].0@, pairs@[j].1@),
                forall|b: Stored, j: int|
                    0 <= j <= i ==> #[trigger] apply_plan(b, ops@.take(j)) == committed(
                        b,
                        to_map(pairs@.take(j)),
                    ),
            decreases n - i,
        {
            let op = op_for(&pairs[i].0, &pairs[i].1);
            let ghost prev = ops@;
            proof {
                assert(pairs@.take(i + 1) =~= pairs@.take(i as int).push(pairs@[i as int]));
                lemma_to_map_push(pairs@.take(i as int), pairs@[i as int]);
            }
            ops.push(op);
            proof {
                assert(prev.take(i as int) =~= prev);
                assert forall|b: Stored, j: int| 0 <= j <= i + 1 implies #[trigger] apply_plan(
                    b,
                    ops@.take(j),
                ) == committed(b, to_map(pairs@.take(j))) by {
                    if j == i + 1 {
                        assert(ops@.take(j) =~= prev.push(op));
                        assert(apply_plan(b, prev.take(i as int)) == committed(
                            b,
                            to_map(pairs@.take(i as int)),
                        ));
                        lemma_apply_plan_push(b, prev, op);
                        lemma_committed_insert(
                            b,
                            to_map(pairs@.take(i as int)),
                            op,
                            pairs@[i as int].0@,
                            pairs@[i as int].1@,
                        );
                    } else {
                        assert(ops@.take(j) =~= prev.take(j));
                    }
                }
                assert forall|j: int| 0 <= j < i + 1 implies op_reconciles(
                    #[trigger] ops@[j],
                    pairs@[j].0@,
                    pairs@[j].1@,
                ) by {
                    if j < i {
                        assert(ops@[j] == prev[j]);
                    }
                }
            }
            i = i + 1;
        }
        assert(pairs@.take(n as int) =~= pairs@);
        assert(ops@.take(n as int) =~= ops@);
        assert forall|b: Stored| #[trigger] apply_plan(b, ops@) == committed(b, self.overlay()) by {
            assert(apply_plan(b, ops@.take(n as int)) == committed(b, to_map(pairs@.take(n as int))));
        }
        ops
    }

    /// Ends a commit whose operations the caller applied with outcome `applied`: on success
    /// the overlay is emptied, on failure it is kept so that the commit can be retried.
    pub fn commit(&mut self, applied: Result<(), StoreError>) -> (r: Result<(), StoreError>)
        ensures
            r == applied,
            applied is Ok ==> final(self).overlay() == Staged::empty(),
            applied is Err ==> final(self).overlay() == old(self).overlay(),
    {
        if applied.is_ok() {
            self.cache.clear();
        }
        applied
    }

    /// Reads a branch node: the overlay's answer for its storage key.
    pub fn get_branch(&self, height: u8, node_key: &[u8; 32]) -> (r: Result<CacheRead, StoreError>)
        ensures
            r is Ok,
            r matches Ok(c) ==> match c {
                CacheRead::Hit(v) => self.overlay().contains_key(branch_key_text(height, node_key@))
                    && self.overlay()[branch_key_text(height, node_key@)] == Some(v@),
                CacheRead::Deleted => self.overlay().contains_key(branch_key_text(height, node_key@))
                    && self.overlay()[branch_key_text(height, node_key@)] is None,
                CacheRead::Miss(k) => !self.overlay().contains_key(branch_key_text(height, node_key@))
                    && k@ == branch_key_text(height, node_key@),
            },
    {
        let key = encode_branch_key(height, node_key)?;
        Ok(self.get(key.as_slice()))
    }

    /// Reads a leaf: the overlay's answer for its hash bytes.
    pub fn get_leaf(&self, leaf_key: &[u8; 32]) -> (r: CacheRead)
        ensures
            match r {
                CacheRead::Hit(v) => self.overlay().contains_key(leaf_key@)
                    && self.overlay()[leaf_key@] == Some(v@),
                CacheRead::Deleted => self.overlay().contains_key(leaf_key@)
                    && self.overlay()[leaf_key@] is None,
                CacheRead::Miss(k) => !self.overlay().contains_key(leaf_key@) && k@ == leaf_key@,
            },
    {
        let key = encode_leaf_key(leaf_key);
        self.get(key.as_slice())
    }

    /// Stages an encoded branch node under its storage key.
    pub fn insert_branch(&mut self, height: u8, node_key: &[u8; 32], branch: &[u8]) -> (r: Result<(), StoreError>)
        ensures
            r is Ok,
            final(self).overlay() == old(self).overlay().insert(
                branch_key_text(height, node_key@),
                Some(branch@),
            ),
    {
        let key = encode_branch_key(height, node_key)?;
        self.put(key.as_slice(), branch);
        Ok(())
    }

    /// Stages an encoded leaf under its hash bytes.
    pub fn insert_leaf(&mut self, leaf_key: &[u8; 32], leaf: &[u8])
        ensures
            final(self).overlay() == old(self).overlay().insert(leaf_key@, Some(leaf@)),
    {
        let key = encode_leaf_key(leaf_key);
        self.put(key.as_slice(), leaf);
    }

    /// Stages the deletion of a branch node.
    pub fn remove_branch(&mut self, height: u8, node_key: &[u8; 32]) -> (r: Result<(), StoreError>)
        ensures
            r is Ok,
            final(self).overlay() == old(self).overlay().insert(
                branch_key_text(height, node_key@),
                None::<Seq<u8>>,
            ),
    {
        let key = encode_branch_key(height, node_key)?;
        self.delete(key.as_slice());
        Ok(())
    }

    /// Stages the deletion of a leaf.
    pub fn remove_leaf(&mut self, leaf_key: &[u8; 32])
        ensures
            final(self).overlay() == old(self).overlay().insert(leaf_key@, None::<Seq<u8>>),
    {
        let key = encode_leaf_key(leaf_key);
        self.delete(key.as_slice());
    }
}

} // verus!
