use vstd::prelude::*;

verus! {

/// What the overlay holds for one key: a staged value, or a tombstone that records a
/// staged deletion.
#[derive(Debug)]
pub enum Entry {
    Value(Vec<u8>),
    Tombstone,
}

impl View for Entry {
    /// `Some(bytes)` for a staged value, `None` for a tombstone.
    type V = Option<Seq<u8>>;

    open spec fn view(&self) -> Option<Seq<u8>> {
        match self {
            Entry::Value(v) => Some(v@),
            Entry::Tombstone => None,
        }
    }
}

/// The map that a sequence of (key, entry) pairs describes; a later pair for a key
/// overrides an earlier one.
pub open spec fn to_map(s: Seq<(Vec<u8>, Entry)>) -> Map<Seq<u8>, Option<Seq<u8>>>
    decreases s.len(),
{
    if s.len() == 0 {
        Map::empty()
    } else {
        to_map(s.drop_last()).insert(s.last().0@, s.last().1@)
    }
}

/// No key occurs twice.
pub open spec fn keys_unique(s: Seq<(Vec<u8>, Entry)>) -> bool {
    forall|i: int, j: int| 0 <= i < s.len() && 0 <= j < s.len() && i != j ==> s[i].0@ != s[j].0@
}

/// Appending a pair inserts it into the described map.
pub proof fn lemma_to_map_push(s: Seq<(Vec<u8>, Entry)>, p: (Vec<u8>, Entry))
    ensures
        to_map(s.push(p)) == to_map(s).insert(p.0@, p.1@),
{
    assert(s.push(p).drop_last() =~= s);
}

/// With unique keys, every pair is found in the described map, and every key of the map
/// comes from some pair.
pub proof fn lemma_to_map_index(s: Seq<(Vec<u8>, Entry)>)
    requires
        keys_unique(s),
    ensures
        forall|i: int| 0 <= i < s.len() ==> #[trigger] to_map(s).contains_key(s[i].0@)
            && to_map(s)[s[i].0@] == s[i].1@,
        forall|k: Seq<u8>| #[trigger] to_map(s).contains_key(k) ==> exists|i: int|
            0 <= i < s.len() && #[trigger] s[i].0@ == k,
    decreases s.len(),
{
    if s.len() > 0 {
        let d = s.drop_last();
        assert(keys_unique(d));
        lemma_to_map_index(d);
        assert forall|i: int| 0 <= i < s.len() implies #[trigger] to_map(s).contains_key(s[i].0@)
            && to_map(s)[s[i].0@] == s[i].1@ by {
            assert(to_map(s) == to_map(d).insert(s.last().0@, s.last().1@));
            if i < s.len() - 1 {
                assert(s[i] == d[i]);
                assert(to_map(d).contains_key(d[i].0@));
                assert(s[i].0@ != s[s.len() - 1].0@);
            }
        }
        assert forall|k: Seq<u8>| #[trigger] to_map(s).contains_key(k) implies exists|i: int|
            0 <= i < s.len() && #[trigger] s[i].0@ == k by {
            if k != s.last().0@ {
                assert(to_map(d).contains_key(k));
                let i = choose|i: int| 0 <= i < d.len() && #[trigger] d[i].0@ == k;
                assert(s[i] == d[i]);
                assert(s[i].0@ == k);
            } else {
                assert(s[s.len() - 1].0@ == k);
            }
        }
    }
}

/// With unique keys, replacing the entry of the pair at `i` replaces it in the map.
pub proof fn lemma_to_map_update(s: Seq<(Vec<u8>, Entry)>, i: int, e: Entry)
    requires
        keys_unique(s),
        0 <= i < s.len(),
    ensures
        to_map(s.update(i, (s[i].0, e))) == to_map(s).insert(s[i].0@, e@),
    decreases s.len(),
{
    let t = s.update(i, (s[i].0, e));
    let d = s.drop_last();
    if i == s.len() - 1 {
        assert(t.drop_last() =~= d);
        assert(to_map(t) =~= to_map(s).insert(s[i].0@, e@));
    } else {
        assert(t.drop_last() =~= d.update(i, (s[i].0, e)));
        assert(keys_unique(d));
        lemma_to_map_update(d, i, e);
        assert(s.last().0@ != s[i].0@);
        assert(to_map(t) =~= to_map(s).insert(s[i].0@, e@));
    }
}

/// Two sequences whose pairs have equal views describe the same map.
proof fn lemma_to_map_congruent(s: Seq<(Vec<u8>, Entry)>, t: Seq<(Vec<u8>, Entry)>)
    requires
        s.len() == t.len(),
        forall|i: int| 0 <= i < s.len() ==> s[i].0@ == t[i].0@ && s[i].1@ == t[i].1@,
    ensures
        to_map(s) == to_map(t),
        keys_unique(s) == keys_unique(t),
    decreases s.len(),
{
    if s.len() > 0 {
        lemma_to_map_congruent(s.drop_last(), t.drop_last());
    }
}

/// The staging area: a list of (key, entry) pairs in which no key occurs twice.
pub struct CacheOverlay {
    entries: Vec<(Vec<u8>, Entry)>,
}

impl View for CacheOverlay {
    type V = Map<Seq<u8>, Option<Seq<u8>>>;

    closed spec fn view(&self) -> Map<Seq<u8>, Option<Seq<u8>>> {
        to_map(self.entries@)
    }
}

/// Position of `key` among the pairs, if it is staged.
fn find_in(entries: &Vec<(Vec<u8>, Entry)>, key: &[u8]) -> (r: Option<usize>)
    requires
        keys_unique(entries@),
    ensures
        match r {
            Some(i) => i < entries@.len() && entries@[i as int].0@ == key@,
            None => !to_map(entries@).contains_key(key@),
        },
{
    proof {
        lemma_to_map_index(entries@);
    }
    let mut i: usize = 0;
    while i < entries.len()
        invariant
            i <= entries@.len(),
            forall|j: int| 0 <= j < i ==> entries@[j].0@ != key@,
        decreases entries@.len() - i,
    {
        if bytes_equal(entries[i].0.as_slice(), key) {
            return Some(i);
        }
        i = i + 1;
    }
    None
}

/// Records `e` for `key`: in place when the key is already staged, as a new pair otherwise.
fn stage_in(entries: &mut Vec<(Vec<u8>, Entry)>, key: &[u8], e: Entry)
    requires
        keys_unique(old(entries)@),
    ensures
        keys_unique(final(entries)@),
        to_map(final(entries)@) == to_map(old(entries)@).insert(key@, e@),
{
    proof {
        lemma_to_map_index(entries@);
    }
    match find_in(entries, key) {
        Some(i) => {
            let ghost before = entries@;
            let ghost target = before.update(i as int, (before[i as int].0, e));
            proof {
                lemma_to_map_update(before, i as int, e);
            }
            let k = copy_bytes(key);
            entries.set(i, (k, e));
            proof {
                lemma_to_map_congruent(entries@, target);
            }
        },
        None => {
            let k = copy_bytes(key);
            let ghost p = (k, e);
            proof {
                lemma_to_map_push(entries@, p);
                lemma_to_map_index(entries@);
            }
            entries.push((k, e));
            assert forall|i: int, j: int|
                0 <= i < entries@.len() && 0 <= j < entries@.len() && i != j implies
                entries@[i].0@ != entries@[j].0@ by {
                if i == entries@.len() - 1 {
                    assert(old(entries)@[j] == entries@[j]);
                    assert(to_map(old(entries)@).contains_key(old(entries)@[j].0@));
                } else if j == entries@.len() - 1 {
                    assert(old(entries)@[i] == entries@[i]);
                    assert(to_map(old(entries)@).contains_key(old(entries)@[i].0@));
                } else {
                    assert(old(entries)@[i] == entries@[i]);
                    assert(old(entries)@[j] == entries@[j]);
                }
            }
        },
    }
}

impl CacheOverlay {
    #[verifier::type_invariant]
    spec fn wf(&self) -> bool {
        keys_unique(self.entries@)
    }

    /// The overlay's pairs, in the order in which their keys were first staged.
    pub closed spec fn pairs(&self) -> Seq<(Vec<u8>, Entry)> {
        self.entries@
    }

    /// An empty overlay.
    pub fn new() -> (r: CacheOverlay)
        ensures
            r@ == Map::<Seq<u8>, Option<Seq<u8>>>::empty(),
            r.pairs().len() == 0,
    {
        CacheOverlay { entries: Vec::new() }
    }

    /// The number of staged keys.
    pub fn len(&self) -> (r: usize)
        ensures
            r == self.pairs().len(),
            r == self@.len(),
    {
        proof {
            use_type_invariant(self);
            lemma_unique_len(self.entries@);
        }
        self.entries.len()
    }

    /// What is staged for `key`: `Some(entry)` when the key is staged, `None` otherwise.
    /// The overlay alone is consulted.
    pub fn get(&self, key: &[u8]) -> (r: Option<&Entry>)
        ensures
            match r {
                Some(e) => self@.contains_key(key@) && self@[key@] == e@,
                None => !self@.contains_key(key@),
            },
    {
        proof {
            use_type_invariant(self);
            lemma_to_map_index(self.entries@);
        }
        match find_in(&self.entries, key) {
            Some(i) => {
                assert(to_map(self.entries@).contains_key(self.entries@[i as int].0@));
                Some(&self.entries[i].1)
            },
            None => None,
        }
    }

    fn stage(&mut self, key: &[u8], e: Entry)
        ensures
            final(self)@ == old(self)@.insert(key@, e@),
    {
        proof {
            use_type_invariant(&*self);
        }
        let mut entries: Vec<(Vec<u8>, Entry)> = Vec::new();
        std::mem::swap(&mut entries, &mut self.entries);
        stage_in(&mut entries, key, e);
        self.entries = entries;
    }

    /// Stages `value` for `key`, replacing whatever was staged for it.
    pub fn put(&mut self, key: &[u8], value: &[u8])
        ensures
            final(self)@ == old(self)@.insert(key@, Some(value@)),
    {
        let v = copy_bytes(value);
        self.stage(key, Entry::Value(v));
    }

    /// Stages a tombstone for `key`, replacing whatever was staged for it.
    pub fn delete(&mut self, key: &[u8])
        ensures
            final(self)@ == old(self)@.insert(key@, None::<Seq<u8>>),
    {
        self.stage(key, Entry::Tombstone);
    }

    /// Discards every staged entry.
    pub fn clear(&mut self)
        ensures
            final(self)@ == Map::<Seq<u8>, Option<Seq<u8>>>::empty(),
            final(self).pairs().len() == 0,
    {
        self.entries = Vec::new();
    }

    /// Every staged (key, entry) pair, for the commit routine; the overlay is left as it is.
    pub fn drain_for_commit(&self) -> (r: &Vec<(Vec<u8>, Entry)>)
        ensures
            r@ == self.pairs(),
            self@ == to_map(r@),
            keys_unique(r@),
    {
        proof {
            use_type_invariant(self);
        }
        &self.entries
    }
}

proof fn lemma_unique_len(s: Seq<(Vec<u8>, Entry)>)
    requires
        keys_unique(s),
    ensures
        to_map(s).len() == s.len(),
        to_map(s).dom().finite(),
    decreases s.len(),
{
    if s.len() > 0 {
        let d = s.drop_last();
        assert(keys_unique(d));
        lemma_unique_len(d);
        lemma_to_map_index(d);
        if to_map(d).contains_key(s.last().0@) {
            let i = choose|i: int| 0 <= i < d.len() && #[trigger] d[i].0@ == s.last().0@;
            assert(s[i].0@ == s[s.len() - 1].0@);
        }
    }
}

/// Byte-wise equality of two slices.
pub fn bytes_equal(a: &[u8], b: &[u8]) -> (r: bool)
    ensures
        r == (a@ == b@),
{
    if a.len() != b.len() {
        return false;
    }
    let mut i: usize = 0;
    while i < a.len()
        invariant
            a@.len() == b@.len(),
            i <= a@.len(),
            forall|j: int| 0 <= j < i ==> a@[j] == b@[j],
        decreases a@.len() - i,
    {
        if a[i] != b[i] {
            return false;
        }
        i = i + 1;
    }
    assert(a@ =~= b@);
    true
}

/// An owned copy of a byte slice.
pub fn copy_bytes(a: &[u8]) -> (r: Vec<u8>)
    ensures
        r@ == a@,
{
    let mut r: Vec<u8> = Vec::with_capacity(a.len());
    let mut i: usize = 0;
    while i < a.len()
        invariant
            i <= a@.len(),
            r@ == a@.subrange(0, i as int),
        decreases a@.len() - i,
    {
        r.push(a[i]);
        i = i + 1;
        assert(r@ =~= a@.subrange(0, i as int));
    }
    assert(r@ =~= a@);
    r
}

} // verus!
