//! A map from string keys to byte strings, kept as a list of distinct keys in
//! the order they were first inserted. It backs the buffer store and the
//! state tiers.
use vstd::prelude::*;

verus! {

/// Copies a byte vector.
pub fn copy_bytes(v: &Vec<u8>) -> (r: Vec<u8>)
    ensures
        r@ == v@,
{
    let mut r: Vec<u8> = Vec::new();
    let mut i: usize = 0;
    while i < v.len()
        invariant
            i <= v@.len(),
            r@ == v@.subrange(0, i as int),
        decreases v@.len() - i,
    {
        r.push(v[i]);
        i = i + 1;
        assert(r@ =~= v@.subrange(0, i as int));
    }
    assert(r@ =~= v@);
    r
}

/// A string-keyed map of byte strings.
pub struct ByteMap {
    entries: Vec<(String, Vec<u8>)>,
}

impl ByteMap {
    /// Well-formed: no key occurs twice.
    pub closed spec fn wf(&self) -> bool {
        self.keys_distinct()
    }

    #[verifier::type_invariant]
    spec fn keys_distinct(&self) -> bool {
        forall|i: int, j: int|
            0 <= i < self.entries@.len() && 0 <= j < self.entries@.len() && i != j
                ==> #[trigger] self.entries@[i].0@ != #[trigger] self.entries@[j].0@
    }

    spec fn index_of(&self, k: Seq<char>) -> int {
        choose|i: int| 0 <= i < self.entries@.len() && #[trigger] self.entries@[i].0@ == k
    }

    spec fn has(&self, k: Seq<char>) -> bool {
        exists|i: int| 0 <= i < self.entries@.len() && #[trigger] self.entries@[i].0@ == k
    }

    /// The key at position `i` in insertion order.
    pub closed spec fn key_at(&self, i: int) -> Seq<char> {
        self.entries@[i].0@
    }

    /// The number of keys.
    pub closed spec fn spec_len(&self) -> nat {
        self.entries@.len()
    }
}

impl View for ByteMap {
    type V = Map<Seq<char>, Seq<u8>>;

    closed spec fn view(&self) -> Map<Seq<char>, Seq<u8>> {
        Map::new(|k: Seq<char>| self.has(k), |k: Seq<char>| self.entries@[self.index_of(k)].1@)
    }
}

impl ByteMap {
    proof fn lemma_lookup(&self, i: int)
        requires
            self.keys_distinct(),
            0 <= i < self.entries@.len(),
        ensures
            self@.contains_key(self.entries@[i].0@),
            self@[self.entries@[i].0@] == self.entries@[i].1@,
            self.key_at(i) == self.entries@[i].0@,
    {
        let k = self.entries@[i].0@;
        assert(self.has(k));
        let j = self.index_of(k);
        assert(self.entries@[j].0@ == k);
    }

    proof fn lemma_keys(&self)
        requires
            self.keys_distinct(),
        ensures
            forall|k: Seq<char>|
                #[trigger] self@.contains_key(k) ==> exists|i: int|
                    0 <= i < self.spec_len() && #[trigger] self.key_at(i) == k,
            forall|i: int|
                0 <= i < self.spec_len() ==> #[trigger] self@.contains_key(self.key_at(i)),
            forall|i: int, j: int|
                0 <= i < self.spec_len() && 0 <= j < self.spec_len() && i != j
                    ==> #[trigger] self.key_at(i) != #[trigger] self.key_at(j),
    {
        assert forall|i: int| 0 <= i < self.spec_len() implies #[trigger] self@.contains_key(
            self.key_at(i),
        ) by {
            self.lemma_lookup(i);
        }
        assert forall|k: Seq<char>| #[trigger] self@.contains_key(k) implies exists|i: int|
            0 <= i < self.spec_len() && #[trigger] self.key_at(i) == k by {
            let i = self.index_of(k);
            assert(self.key_at(i) == k);
        }
    }

    /// In a well-formed map every key is at some position, and the
    /// positions hold distinct keys.
    pub proof fn lemma_wf_keys(&self)
        requires
            self.wf(),
        ensures
            forall|k: Seq<char>|
                #[trigger] self@.contains_key(k) ==> exists|i: int|
                    0 <= i < self.spec_len() && #[trigger] self.key_at(i) == k,
            forall|i: int|
                0 <= i < self.spec_len() ==> #[trigger] self@.contains_key(self.key_at(i)),
            forall|i: int, j: int|
                0 <= i < self.spec_len() && 0 <= j < self.spec_len() && i != j
                    ==> #[trigger] self.key_at(i) != #[trigger] self.key_at(j),
    {
        self.lemma_keys();
    }

    /// An empty map.
    pub fn new() -> (r: ByteMap)
        ensures
            r.wf(),
            r@ == Map::<Seq<char>, Seq<u8>>::empty(),
            r.spec_len() == 0,
    {
        let r = ByteMap { entries: Vec::new() };
        assert(r@ =~= Map::<Seq<char>, Seq<u8>>::empty());
        r
    }

    /// The number of keys.
    pub fn len(&self) -> (r: usize)
        requires
            self.wf(),
        ensures
            r == self.spec_len(),
            r == self@.len(),
    {
        proof {
            self.lemma_keys();
            let f = |i: int| self.key_at(i);
            let ks = Seq::new(self.spec_len(), f);
            assert(ks.no_duplicates());
            assert(ks.to_set() =~= self@.dom()) by {
                assert forall|k: Seq<char>| ks.to_set().contains(k) implies self@.dom().contains(
                    k,
                ) by {
                    let i = choose|i: int| 0 <= i < ks.len() && ks[i] == k;
                    assert(self.key_at(i) == k);
                }
                assert forall|k: Seq<char>| self@.dom().contains(k) implies ks.to_set().contains(
                    k,
                ) by {
                    let i = choose|i: int| 0 <= i < self.spec_len() && #[trigger] self.key_at(i) == k;
                    assert(ks[i] == k);
                }
            }
            ks.unique_seq_to_set();
        }
        self.entries.len()
    }

    fn find(&self, k: &String) -> (r: Option<usize>)
        requires
            self.wf(),
        ensures
            r is Some <==> self@.contains_key(k@),
            r is Some ==> r->0 < self.entries@.len() && self.entries@[r->0 as int].0@ == k@,
    {
        let mut i: usize = 0;
        while i < self.entries.len()
            invariant
                self.wf(),
                i <= self.entries@.len(),
                forall|j: int| 0 <= j < i ==> #[trigger] self.entries@[j].0@ != k@,
            decreases self.entries@.len() - i,
        {
            if self.entries[i].0 == *k {
                proof {
                    self.lemma_lookup(i as int);
                }
                return Some(i);
            }
            i = i + 1;
        }
        proof {
            if self@.contains_key(k@) {
                let j = self.index_of(k@);
                assert(self.entries@[j].0@ == k@);
            }
        }
        None
    }

    /// Whether `k` has a value.
    pub fn contains_key(&self, k: &String) -> (r: bool)
        requires
            self.wf(),
        ensures
            r == self@.contains_key(k@),
    {
        self.find(k).is_some()
    }

    /// The value at `k`, if any.
    pub fn get(&self, k: &String) -> (r: Option<&Vec<u8>>)
        requires
            self.wf(),
        ensures
            r is Some <==> self@.contains_key(k@),
            r is Some ==> r->0@ == self@[k@],
    {
        match self.find(k) {
            Some(i) => {
                proof {
                    self.lemma_lookup(i as int);
                }
                Some(&self.entries[i].1)
            },
            None => None,
        }
    }

    /// The key and value at position `i` in insertion order.
    pub fn entry_at(&self, i: usize) -> (r: (&String, &Vec<u8>))
        requires
            self.wf(),
            i < self.spec_len(),
        ensures
            r.0@ == self.key_at(i as int),
            self@.contains_key(r.0@),
            r.1@ == self@[r.0@],
    {
        proof {
            self.lemma_lookup(i as int);
        }
        (&self.entries[i].0, &self.entries[i].1)
    }

    /// Sets the value at `k`.
    pub fn insert(&mut self, k: String, v: Vec<u8>)
        requires
            old(self).wf(),
        ensures
            final(self).wf(),
            final(self)@ == old(self)@.insert(k@, v@),
    {
        let ghost kv = k@;
        let ghost vv = v@;
        let ghost before = *self;
        let pos = self.find(&k);
        let mut tmp = ByteMap::new();
        core::mem::swap(self, &mut tmp);
        let ByteMap { mut entries } = tmp;
        let ghost old_entries = entries@;
        assert(old_entries == before.entries@);
        match pos {
            Some(i) => {
                entries.set(i, (k, v));
                assert forall|a: int, b: int|
                    0 <= a < entries@.len() && 0 <= b < entries@.len() && a != b
                        implies #[trigger] entries@[a].0@ != #[trigger] entries@[b].0@ by {
                    assert(old_entries[a].0@ != old_entries[b].0@);
                    if a == i {
                        assert(entries@[a].0@ == old_entries[a].0@);
                    }
                    if b == i {
                        assert(entries@[b].0@ == old_entries[b].0@);
                    }
                }
                *self = ByteMap { entries };
                proof {
                    let target = before@.insert(kv, vv);
                    assert forall|key: Seq<char>| #[trigger] target.contains_key(key) implies self@.contains_key(key) && self@[key] == target[key] by {
                        if key == kv {
                            self.lemma_lookup(i as int);
                        } else {
                            let j = before.index_of(key);
                            before.lemma_lookup(j);
                            assert(j != i);
                            self.lemma_lookup(j);
                        }
                    }
                    assert forall|key: Seq<char>| #[trigger] self@.contains_key(key) implies target.contains_key(key) by {
                        let j = self.index_of(key);
                        self.lemma_lookup(j);
                        if key != kv {
                            before.lemma_lookup(j);
                        }
                    }
                    assert(self@ =~= target);
                }
            },
            None => {
                entries.push((k, v));
                assert forall|a: int, b: int|
                    0 <= a < entries@.len() && 0 <= b < entries@.len() && a != b
                        implies #[trigger] entries@[a].0@ != #[trigger] entries@[b].0@ by {
                    if a < old_entries.len() && b < old_entries.len() {
                        assert(old_entries[a].0@ != old_entries[b].0@);
                    } else if a < old_entries.len() {
                        before.lemma_lookup(a);
                    } else {
                        before.lemma_lookup(b);
                    }
                }
                *self = ByteMap { entries };
                proof {
                    let n = old_entries.len() as int;
                    let target = before@.insert(kv, vv);
                    assert forall|key: Seq<char>| #[trigger] target.contains_key(key) implies self@.contains_key(key) && self@[key] == target[key] by {
                        if key == kv {
                            self.lemma_lookup(n);
                        } else {
                            let j = before.index_of(key);
                            before.lemma_lookup(j);
                            self.lemma_lookup(j);
                        }
                    }
                    assert forall|key: Seq<char>| #[trigger] self@.contains_key(key) implies target.contains_key(key) by {
                        let j = self.index_of(key);
                        self.lemma_lookup(j);
                        if j < n {
                            before.lemma_lookup(j);
                        }
                    }
                    assert(self@ =~= target);
                }
            },
        }
    }
}

impl ByteMap {
    /// Every map is well formed: its keys are distinct.
    pub fn confirm_wf(&self)
        ensures
            self.wf(),
    {
        proof {
            use_type_invariant(self);
        }
    }

    /// Removes the value at `k`, returning it.
    pub fn remove(&mut self, k: &String) -> (r: Option<Vec<u8>>)
        requires
            old(self).wf(),
        ensures
            final(self).wf(),
            final(self)@ == old(self)@.remove(k@),
            r is Some <==> old(self)@.contains_key(k@),
            r is Some ==> r->0@ == old(self)@[k@],
    {
        let ghost before = *self;
        match self.find(k) {
            Some(i) => {
                proof {
                    before.lemma_lookup(i as int);
                }
                let mut tmp = ByteMap::new();
                core::mem::swap(self, &mut tmp);
                let ByteMap { mut entries } = tmp;
                let ghost old_entries = entries@;
                assert(old_entries == before.entries@);
                let (_, v) = entries.remove(i);
                assert(entries@ =~= old_entries.remove(i as int));
                assert forall|a: int, b: int|
                    0 <= a < entries@.len() && 0 <= b < entries@.len() && a != b
                        implies #[trigger] entries@[a].0@ != #[trigger] entries@[b].0@ by {
                    let a2 = if a < i { a } else { a + 1 };
                    let b2 = if b < i { b } else { b + 1 };
                    assert(old_entries[a2].0@ != old_entries[b2].0@);
                }
                *self = ByteMap { entries };
                proof {
                    let target = before@.remove(k@);
                    assert forall|key: Seq<char>| #[trigger] target.contains_key(key) implies self@.contains_key(key) && self@[key] == target[key] by {
                        let j = before.index_of(key);
                        before.lemma_lookup(j);
                        assert(j != i);
                        let j2 = if j < i { j } else { j - 1 };
                        assert(self.entries@[j2] == old_entries[j]);
                        self.lemma_lookup(j2);
                    }
                    assert forall|key: Seq<char>| #[trigger] self@.contains_key(key) implies target.contains_key(key) by {
                        let j = self.index_of(key);
                        self.lemma_lookup(j);
                        let j2 = if j < i { j } else { j + 1 };
                        assert(self.entries@[j] == old_entries[j2]);
                        before.lemma_lookup(j2);
                    }
                    assert(self@ =~= target);
                }
                Some(v)
            },
            None => {
                assert(self@ =~= before@.remove(k@));
                None
            },
        }
    }

    /// Removes every key.
    pub fn clear(&mut self)
        ensures
            final(self).wf(),
            final(self)@ == Map::<Seq<char>, Seq<u8>>::empty(),
    {
        *self = ByteMap::new();
    }

    /// A copy of the map, with the keys in the same order.
    pub fn duplicate(&self) -> (r: ByteMap)
        requires
            self.wf(),
        ensures
            r.wf(),
            r@ == self@,
            r.spec_len() == self.spec_len(),
            forall|i: int| 0 <= i < self.spec_len() ==> #[trigger] r.key_at(i) == self.key_at(i),
    {
        let mut entries: Vec<(String, Vec<u8>)> = Vec::new();
        let mut i: usize = 0;
        while i < self.entries.len()
            invariant
                i <= self.entries@.len(),
                entries@.len() == i,
                forall|j: int|
                    0 <= j < i ==> #[trigger] entries@[j].0@ == self.entries@[j].0@
                        && entries@[j].1@ == self.entries@[j].1@,
            decreases self.entries@.len() - i,
        {
            let k = self.entries[i].0.clone();
            let v = copy_bytes(&self.entries[i].1);
            entries.push((k, v));
            i = i + 1;
        }
        assert forall|a: int, b: int|
            0 <= a < entries@.len() && 0 <= b < entries@.len() && a != b
                implies #[trigger] entries@[a].0@ != #[trigger] entries@[b].0@ by {
            assert(self.entries@[a].0@ != self.entries@[b].0@);
        }
        let r = ByteMap { entries };
        proof {
            assert forall|key: Seq<char>| #[trigger] self@.contains_key(key) implies r@.contains_key(key) && r@[key] == self@[key] by {
                let j = self.index_of(key);
                self.lemma_lookup(j);
                r.lemma_lookup(j);
            }
            assert forall|key: Seq<char>| #[trigger] r@.contains_key(key) implies self@.contains_key(key) by {
                let j = r.index_of(key);
                r.lemma_lookup(j);
                self.lemma_lookup(j);
            }
            assert(r@ =~= self@);
        }
        r
    }
}

} // verus!
