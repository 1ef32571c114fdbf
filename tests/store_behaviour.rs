use std::collections::BTreeMap;

use merkle_store::codec::{encode_branch_key, encode_leaf_key};
use merkle_store::error::StoreError;
use merkle_store::overlay::{CacheOverlay, Entry};
use merkle_store::store::{
    commit_step, first_call, CacheRead, CommitOp, CommitStep, EngineCall, MerkleStore,
};

type Engine = BTreeMap<Vec<u8>, Vec<u8>>;

/// Runs a commit against an in-memory engine the way an engine driver does; the engine
/// fails every call on `broken`.
fn run_commit_failing(
    store: &mut MerkleStore,
    engine: &mut Engine,
    broken: Option<&[u8]>,
) -> Result<(), StoreError> {
    let mut outcome: Result<(), StoreError> = Ok(());
    'ops: for op in store.commit_plan() {
        let mut call = first_call(&op);
        loop {
            let key = match &call {
                EngineCall::Put(k, _) | EngineCall::Get(k) | EngineCall::Delete(k) => k.clone(),
            };
            let answer = if Some(key.as_slice()) == broken {
                Err("io error".to_string())
            } else {
                match &call {
                    EngineCall::Put(k, v) => {
                        engine.insert(k.clone(), v.clone());
                        Ok(None)
                    }
                    EngineCall::Get(k) => Ok(engine.get(k).cloned()),
                    EngineCall::Delete(k) => {
                        engine.remove(k);
                        Ok(None)
                    }
                }
            };
            match commit_step(&call, answer) {
                CommitStep::Advance => break,
                CommitStep::Call(next) => call = next,
                CommitStep::Stop(e) => {
                    outcome = Err(e);
                    break 'ops;
                }
            }
        }
    }
    store.commit(outcome)
}

fn run_commit(store: &mut MerkleStore, engine: &mut Engine) -> Result<(), StoreError> {
    run_commit_failing(store, engine, None)
}

/// A full read: the overlay first, the engine on a miss.
fn read(store: &MerkleStore, engine: &Engine, key: &[u8]) -> Option<Vec<u8>> {
    let r = store.get(key);
    let stored = match &r {
        CacheRead::Miss(k) => engine.get(k).cloned(),
        _ => None,
    };
    MerkleStore::resolve(r, stored)
}

fn amount_json(n: u64) -> Vec<u8> {
    let mut m: BTreeMap<String, u64> = BTreeMap::new();
    m.insert("amount".to_string(), n);
    serde_json::to_vec(&m).unwrap()
}

#[test]
fn put_then_get_returns_value_and_leaves_engine() {
    let mut engine: Engine = BTreeMap::new();
    engine.insert(b"k".to_vec(), b"old".to_vec());
    let before = engine.clone();
    let mut store = MerkleStore::new();
    store.put(b"k", b"new");
    assert_eq!(read(&store, &engine, b"k"), Some(b"new".to_vec()));
    assert_eq!(engine, before);
}

#[test]
fn delete_then_get_is_absent_while_engine_keeps_value() {
    let mut engine: Engine = BTreeMap::new();
    engine.insert(b"k".to_vec(), b"v".to_vec());
    let mut store = MerkleStore::new();
    store.delete(b"k");
    assert!(matches!(store.get(b"k"), CacheRead::Deleted));
    assert_eq!(read(&store, &engine, b"k"), None);
    assert_eq!(engine.get(b"k".as_slice()), Some(&b"v".to_vec()));
}

#[test]
fn repeated_put_or_delete_stages_once() {
    let mut store = MerkleStore::new();
    store.put(b"a", b"1");
    store.put(b"a", b"1");
    assert_eq!(store.pending(), 1);
    store.delete(b"b");
    store.delete(b"b");
    assert_eq!(store.pending(), 2);
    assert!(matches!(store.get(b"a"), CacheRead::Hit(v) if v == b"1".to_vec()));
    assert!(matches!(store.get(b"b"), CacheRead::Deleted));
}

#[test]
fn commit_write_then_clear_reads_from_engine() {
    let mut engine: Engine = BTreeMap::new();
    let mut store = MerkleStore::new();
    store.put(b"k", b"v");
    assert!(run_commit(&mut store, &mut engine).is_ok());
    store.clear_cache();
    assert!(matches!(store.get(b"k"), CacheRead::Miss(k) if k == b"k".to_vec()));
    assert_eq!(read(&store, &engine, b"k"), Some(b"v".to_vec()));
}

#[test]
fn commit_delete_removes_key_from_engine() {
    let mut engine: Engine = BTreeMap::new();
    engine.insert(b"k".to_vec(), b"v".to_vec());
    let mut store = MerkleStore::new();
    store.delete(b"k");
    assert!(run_commit(&mut store, &mut engine).is_ok());
    assert!(!engine.contains_key(b"k".as_slice()));
    assert_eq!(read(&store, &engine, b"k"), None);
}

#[test]
fn commit_of_empty_overlay_does_nothing() {
    let mut engine: Engine = BTreeMap::new();
    engine.insert(b"x".to_vec(), b"1".to_vec());
    let before = engine.clone();
    let mut store = MerkleStore::new();
    assert!(store.commit_plan().is_empty());
    assert!(run_commit(&mut store, &mut engine).is_ok());
    assert_eq!(engine, before);
}

#[test]
fn delete_of_absent_key_commits_cleanly() {
    let mut engine: Engine = BTreeMap::new();
    let mut store = MerkleStore::new();
    store.delete(b"ghost");
    let plan = store.commit_plan();
    assert_eq!(plan.len(), 1);
    assert!(matches!(&plan[0], CommitOp::Erase(k) if k == &b"ghost".to_vec()));
    assert!(run_commit(&mut store, &mut engine).is_ok());
    assert!(engine.is_empty());
    assert_eq!(store.pending(), 0);
}

#[test]
fn leaf_lifecycle_through_engine() {
    let mut engine: Engine = BTreeMap::new();
    let mut store = MerkleStore::new();
    let value = amount_json(10);
    store.put(b"leafA", &value);
    assert_eq!(read(&store, &engine, b"leafA"), Some(value.clone()));
    assert!(run_commit(&mut store, &mut engine).is_ok());
    assert_eq!(store.pending(), 0);
    let got = read(&store, &engine, b"leafA").unwrap();
    let decoded: BTreeMap<String, u64> = serde_json::from_slice(&got).unwrap();
    assert_eq!(decoded.get("amount"), Some(&10));
    store.delete(b"leafA");
    assert_eq!(read(&store, &engine, b"leafA"), None);
    assert!(engine.contains_key(b"leafA".as_slice()));
    assert!(run_commit(&mut store, &mut engine).is_ok());
    assert!(!engine.contains_key(b"leafA".as_slice()));
}

#[test]
fn typed_leaf_operations_use_hash_bytes_as_key() {
    let mut engine: Engine = BTreeMap::new();
    let mut store = MerkleStore::new();
    let leaf = [7u8; 32];
    store.insert_leaf(&leaf, &amount_json(10));
    assert!(matches!(store.get(&leaf), CacheRead::Hit(v) if v == amount_json(10)));
    assert!(run_commit(&mut store, &mut engine).is_ok());
    assert_eq!(engine.get(leaf.as_slice()), Some(&amount_json(10)));
    assert!(matches!(store.get_leaf(&leaf), CacheRead::Miss(k) if k == leaf.to_vec()));
    store.remove_leaf(&leaf);
    assert!(matches!(store.get_leaf(&leaf), CacheRead::Deleted));
    assert!(run_commit(&mut store, &mut engine).is_ok());
    assert!(engine.is_empty());
}

#[test]
fn typed_branch_operations_use_encoded_key() {
    let mut engine: Engine = BTreeMap::new();
    let mut store = MerkleStore::new();
    let node = [1u8; 32];
    assert!(store.insert_branch(3, &node, b"children").is_ok());
    let key = encode_branch_key(3, &node).unwrap();
    assert!(matches!(store.get(&key), CacheRead::Hit(v) if v == b"children".to_vec()));
    assert!(matches!(store.get_branch(4, &node), Ok(CacheRead::Miss(_))));
    assert!(run_commit(&mut store, &mut engine).is_ok());
    assert_eq!(engine.get(&key), Some(&b"children".to_vec()));
    assert!(store.remove_branch(3, &node).is_ok());
    assert!(matches!(store.get_branch(3, &node), Ok(CacheRead::Deleted)));
    assert!(run_commit(&mut store, &mut engine).is_ok());
    assert!(engine.is_empty());
}

#[test]
fn branch_key_is_json_of_height_and_node() {
    let mut node = [0u8; 32];
    node[0] = 255;
    let key = encode_branch_key(3, &node).unwrap();
    let mut expected = String::from("[3,[255");
    for _ in 1..32 {
        expected.push_str(",0");
    }
    expected.push_str("]]");
    assert_eq!(key, expected.into_bytes());
    assert_ne!(encode_branch_key(4, &node).unwrap(), key);
}

#[test]
fn leaf_key_is_hash_bytes() {
    let mut leaf = [0u8; 32];
    for (i, b) in leaf.iter_mut().enumerate() {
        *b = i as u8;
    }
    assert_eq!(encode_leaf_key(&leaf), leaf.to_vec());
}

#[test]
fn failed_commit_keeps_overlay() {
    let mut store = MerkleStore::new();
    store.put(b"a", b"1");
    store.delete(b"b");
    let r = store.commit(Err(StoreError::Backend("disk full".to_string())));
    assert!(matches!(r, Err(StoreError::Backend(m)) if m == "disk full"));
    assert_eq!(store.pending(), 2);
    assert_eq!(store.commit_plan().len(), 2);
}

#[test]
fn plan_follows_staging_order_and_last_write() {
    let mut store = MerkleStore::new();
    store.put(b"a", b"1");
    store.delete(b"b");
    store.put(b"b", b"2");
    store.delete(b"a");
    let plan = store.commit_plan();
    assert_eq!(plan.len(), 2);
    assert!(matches!(&plan[0], CommitOp::Erase(k) if k == &b"a".to_vec()));
    assert!(matches!(&plan[1], CommitOp::Write(k, v) if k == &b"b".to_vec() && v == &b"2".to_vec()));
}

#[test]
fn resolve_prefers_overlay() {
    let stored = Some(b"engine".to_vec());
    assert_eq!(MerkleStore::resolve(CacheRead::Hit(b"o".to_vec()), stored.clone()), Some(b"o".to_vec()));
    assert_eq!(MerkleStore::resolve(CacheRead::Deleted, stored.clone()), None);
    assert_eq!(MerkleStore::resolve(CacheRead::Miss(b"k".to_vec()), stored.clone()), stored);
}

#[test]
fn empty_value_is_not_a_tombstone() {
    let mut store = MerkleStore::new();
    store.put(b"k", b"");
    assert!(matches!(store.get(b"k"), CacheRead::Hit(v) if v.is_empty()));
    let mut engine: Engine = BTreeMap::new();
    assert!(run_commit(&mut store, &mut engine).is_ok());
    assert_eq!(engine.get(b"k".as_slice()), Some(&Vec::new()));
}

#[test]
fn overlay_entries_and_clear() {
    let mut overlay = CacheOverlay::new();
    overlay.put(b"a", b"1");
    overlay.delete(b"b");
    assert_eq!(overlay.len(), 2);
    assert!(matches!(overlay.get(b"a"), Some(Entry::Value(v)) if v == &b"1".to_vec()));
    assert!(matches!(overlay.get(b"b"), Some(Entry::Tombstone)));
    assert!(overlay.get(b"c").is_none());
    assert_eq!(overlay.drain_for_commit().len(), 2);
    let store = MerkleStore::with_cache(overlay);
    assert_eq!(store.pending(), 2);
    let mut overlay = CacheOverlay::new();
    overlay.put(b"z", b"9");
    overlay.clear();
    assert_eq!(overlay.len(), 0);
}

#[test]
fn commit_stops_at_first_engine_failure() {
    let mut engine: Engine = BTreeMap::new();
    let mut store = MerkleStore::new();
    store.put(b"a", b"1");
    store.put(b"b", b"2");
    store.put(b"c", b"3");
    let r = run_commit_failing(&mut store, &mut engine, Some(b"b".as_slice()));
    assert!(matches!(r, Err(StoreError::Backend(m)) if m == "io error"));
    assert_eq!(engine.get(b"a".as_slice()), Some(&b"1".to_vec()));
    assert!(!engine.contains_key(b"b".as_slice()));
    assert!(!engine.contains_key(b"c".as_slice()));
    assert_eq!(store.pending(), 3);
    assert!(run_commit(&mut store, &mut engine).is_ok());
    assert_eq!(engine.len(), 3);
    assert_eq!(store.pending(), 0);
}

#[test]
fn step_decisions_follow_engine_answers() {
    let erase = CommitOp::Erase(b"k".to_vec());
    let probe = first_call(&erase);
    assert!(matches!(&probe, EngineCall::Get(k) if k == &b"k".to_vec()));
    assert!(matches!(
        commit_step(&probe, Ok(Some(b"v".to_vec()))),
        CommitStep::Call(EngineCall::Delete(k)) if k == b"k".to_vec()
    ));
    assert!(matches!(commit_step(&probe, Ok(None)), CommitStep::Advance));
    let write = first_call(&CommitOp::Write(b"k".to_vec(), b"v".to_vec()));
    assert!(matches!(&write, EngineCall::Put(k, v) if k == &b"k".to_vec() && v == &b"v".to_vec()));
    assert!(matches!(commit_step(&write, Ok(None)), CommitStep::Advance));
    assert!(matches!(
        commit_step(&write, Err("boom".to_string())),
        CommitStep::Stop(StoreError::Backend(m)) if m == "boom"
    ));
    assert!(matches!(
        commit_step(&EngineCall::Delete(b"k".to_vec()), Ok(None)),
        CommitStep::Advance
    ));
}

#[test]
fn branch_and_leaf_keys_never_meet() {
    let node = [9u8; 32];
    let mut store = MerkleStore::new();
    assert!(store.insert_branch(0, &node, b"branch").is_ok());
    store.insert_leaf(&node, b"leaf");
    assert_eq!(store.pending(), 2);
    assert!(matches!(store.get_branch(0, &node), Ok(CacheRead::Hit(v)) if v == b"branch".to_vec()));
    assert!(matches!(store.get_leaf(&node), CacheRead::Hit(v) if v == b"leaf".to_vec()));
    assert_ne!(encode_branch_key(1, &node).unwrap(), encode_branch_key(0, &node).unwrap());
}
