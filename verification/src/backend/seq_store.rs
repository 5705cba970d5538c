//! A store of values keyed by sequence number that remembers insertion
//! order and holds at most a fixed number of entries, evicting the
//! oldest first.

use std::collections::{HashMap, VecDeque};

use vstd::prelude::*;

verus! {

broadcast use vstd::std_specs::hash::group_hash_axioms;

/// Bounded map from sequence numbers to values. Inserting a new key
/// into a full store first evicts the key inserted longest ago;
/// re-inserting a present key overwrites its value in place.
pub struct SeqStore<V> {
    by_seq: HashMap<u64, V>,
    /// Keys in insertion order, oldest first.
    order: VecDeque<u64>,
    capacity: usize,
}

/// The keys after inserting `seq` into a store holding `keys`, where
/// `present` tells whether `seq` is already held.
pub open spec fn inserted_keys(keys: Seq<u64>, present: bool, cap: nat, seq: u64) -> Seq<u64> {
    if present {
        keys
    } else if keys.len() == cap {
        keys.subrange(1, keys.len() as int).push(seq)
    } else {
        keys.push(seq)
    }
}

/// The entries after inserting `seq -> v` into a store holding
/// `entries` with keys `keys`.
pub open spec fn inserted_entries<V>(
    entries: Map<u64, V>,
    keys: Seq<u64>,
    cap: nat,
    seq: u64,
    v: V,
) -> Map<u64, V> {
    if entries.contains_key(seq) {
        entries.insert(seq, v)
    } else if keys.len() == cap {
        entries.remove(keys[0]).insert(seq, v)
    } else {
        entries.insert(seq, v)
    }
}

proof fn lemma_push_contains(s: Seq<u64>, x: u64, k: u64)
    ensures
        s.push(x).contains(k) <==> (s.contains(k) || k == x),
{
    if s.contains(k) {
        let i = choose|i: int| 0 <= i < s.len() && s[i] == k;
        assert(s.push(x)[i] == k);
    }
    if k == x {
        assert(s.push(x)[s.len() as int] == x);
    }
    if s.push(x).contains(k) {
        let i = choose|i: int| 0 <= i < s.len() + 1 && s.push(x)[i] == k;
        if i < s.len() {
            assert(s[i] == k);
        }
    }
}

proof fn lemma_drop_first_contains(s: Seq<u64>, k: u64)
    requires
        s.len() > 0,
        s.no_duplicates(),
    ensures
        s.subrange(1, s.len() as int).contains(k) <==> (s.contains(k) && k != s[0]),
{
    let t = s.subrange(1, s.len() as int);
    if t.contains(k) {
        let i = choose|i: int| 0 <= i < t.len() && t[i] == k;
        assert(s[i + 1] == k);
    }
    if s.contains(k) && k != s[0] {
        let i = choose|i: int| 0 <= i < s.len() && s[i] == k;
        assert(i != 0);
        assert(t[i - 1] == k);
    }
}

/// The insert law of a bounded store keyed by sequence number, over its
/// keys (oldest first) and entries: from a well-formed store, inserting
/// `seq -> v` keeps it well formed (at most `cap` distinct keys, exactly
/// those of the entries) and holds `v` for `seq`. A held `seq` keeps
/// the keys and their order; a new `seq` goes last, and when the store
/// was full the oldest key, and only it, is evicted.
pub proof fn lemma_store_insert<V>(keys: Seq<u64>, entries: Map<u64, V>, cap: nat, seq: u64, v: V)
    requires
        1 <= cap,
        keys.len() <= cap,
        keys.no_duplicates(),
        forall|k: u64| #[trigger] entries.contains_key(k) <==> keys.contains(k),
    ensures
        ({
            let nk = inserted_keys(keys, entries.contains_key(seq), cap, seq);
            let ne = inserted_entries(entries, keys, cap, seq, v);
            &&& nk.len() <= cap
            &&& nk.no_duplicates()
            &&& forall|k: u64| #[trigger] ne.contains_key(k) <==> nk.contains(k)
            &&& ne.contains_key(seq) && ne[seq] == v
            &&& entries.contains_key(seq) ==> nk == keys
            &&& !entries.contains_key(seq) ==> nk.last() == seq
            &&& !entries.contains_key(seq) && keys.len() < cap ==> nk == keys.push(seq)
            &&& !entries.contains_key(seq) && keys.len() == cap ==> {
                &&& nk == keys.subrange(1, keys.len() as int).push(seq)
                &&& !ne.contains_key(keys[0])
                &&& forall|k: u64| k != keys[0] && k != seq ==> (#[trigger] ne.contains_key(k) <==> entries.contains_key(k))
            }
        }),
{
    let nk = inserted_keys(keys, entries.contains_key(seq), cap, seq);
    let ne = inserted_entries(entries, keys, cap, seq, v);
    if entries.contains_key(seq) {
        assert forall|k: u64| #[trigger] ne.contains_key(k) <==> nk.contains(k) by {}
    } else if keys.len() == cap {
        let t = keys.subrange(1, keys.len() as int);
        assert(!keys.contains(seq));
        assert(keys.contains(keys[0]));
        assert forall|k: u64| #[trigger] ne.contains_key(k) <==> nk.contains(k) by {
            lemma_push_contains(t, seq, k);
            lemma_drop_first_contains(keys, k);
        }
        assert(t.no_duplicates()) by {
            assert forall|i: int, j: int| 0 <= i < t.len() && 0 <= j < t.len() && i != j implies t[i] != t[j] by {
                assert(t[i] == keys[i + 1] && t[j] == keys[j + 1]);
            }
        }
        assert(nk.no_duplicates()) by {
            assert forall|i: int, j: int| 0 <= i < nk.len() && 0 <= j < nk.len() && i != j implies nk[i] != nk[j] by {
                if i < t.len() && j == t.len() {
                    assert(t[i] == keys[i + 1]);
                    assert(keys.contains(keys[i + 1]));
                } else if j < t.len() && i == t.len() {
                    assert(t[j] == keys[j + 1]);
                    assert(keys.contains(keys[j + 1]));
                }
            }
        }
        lemma_drop_first_contains(keys, keys[0]);
        assert(!t.contains(keys[0]));
        lemma_push_contains(t, seq, keys[0]);
        assert forall|k: u64| k != keys[0] && k != seq implies (#[trigger] ne.contains_key(k) <==> entries.contains_key(k)) by {}
    } else {
        assert(!keys.contains(seq));
        assert forall|k: u64| #[trigger] ne.contains_key(k) <==> nk.contains(k) by {
            lemma_push_contains(keys, seq, k);
        }
        assert(nk.no_duplicates()) by {
            assert forall|i: int, j: int| 0 <= i < nk.len() && 0 <= j < nk.len() && i != j implies nk[i] != nk[j] by {
                if i < keys.len() && j == keys.len() {
                    assert(keys.contains(keys[i]));
                } else if j < keys.len() && i == keys.len() {
                    assert(keys.contains(keys[j]));
                }
            }
        }
    }
}

impl<V> SeqStore<V> {
    /// The stored values by key.
    pub closed spec fn entries(self) -> Map<u64, V> {
        self.by_seq@
    }

    /// The stored keys, oldest first.
    pub closed spec fn keys(self) -> Seq<u64> {
        self.order@
    }

    /// The most entries the store holds at once.
    pub closed spec fn cap(self) -> nat {
        self.capacity as nat
    }

    /// The keys are distinct, at most `cap` of them, and exactly the keys
    /// of the entries.
    pub open spec fn wf(self) -> bool {
        &&& 1 <= self.cap()
        &&& self.keys().len() <= self.cap()
        &&& self.keys().no_duplicates()
        &&& forall|k: u64| #[trigger] self.entries().contains_key(k) <==> self.keys().contains(k)
    }

    /// An empty store holding at most `capacity` entries (at least one).
    pub fn new(capacity: usize) -> (r: Self)
        ensures
            r.wf(),
            r.entries() == Map::<u64, V>::empty(),
            r.keys() == Seq::<u64>::empty(),
            r.cap() == if capacity == 0 { 1 } else { capacity as nat },
    {
        let capacity = if capacity == 0 { 1 } else { capacity };
        let r = SeqStore {
            by_seq: HashMap::with_capacity(capacity),
            order: VecDeque::with_capacity(capacity),
            capacity,
        };
        assert(r.keys() =~= Seq::<u64>::empty());
        r
    }

    /// Insert `v` under `seq`, evicting the oldest key when `seq` is new
    /// and the store is full.
    pub fn insert(&mut self, seq: u64, v: V)
        requires
            old(self).wf(),
        ensures
            final(self).wf(),
            final(self).cap() == old(self).cap(),
            final(self).keys() == inserted_keys(
                old(self).keys(),
                old(self).entries().contains_key(seq),
                old(self).cap(),
                seq,
            ),
            final(self).entries() == inserted_entries(
                old(self).entries(),
                old(self).keys(),
                old(self).cap(),
                seq,
                v,
            ),
    {
        let ghost e0 = self.by_seq@;
        let ghost k0 = self.order@;
        if self.by_seq.contains_key(&seq) {
            let _ = self.by_seq.insert(seq, v);
            proof {
                assert forall|k: u64| #[trigger] self.by_seq@.contains_key(k) <==> self.order@.contains(k) by {
                    assert(old(self).entries().contains_key(k) == old(self).keys().contains(k));
                }
            }
            return;
        }
        assert(!k0.contains(seq)) by {
            assert(old(self).entries().contains_key(seq) == old(self).keys().contains(seq));
        }
        if self.order.len() == self.capacity {
            let oldest = self.order.pop_front();
            if let Some(old_key) = oldest {
                let _ = self.by_seq.remove(&old_key);
            }
        }
        let ghost k1 = self.order@;
        let ghost e1 = self.by_seq@;
        proof {
            if k0.len() == self.capacity {
                assert(k1 == k0.subrange(1, k0.len() as int));
                assert(e1 == e0.remove(k0[0]));
                assert forall|k: u64| #[trigger] e1.contains_key(k) <==> k1.contains(k) by {
                    assert(old(self).entries().contains_key(k) == old(self).keys().contains(k));
                    lemma_drop_first_contains(k0, k);
                }
            } else {
                assert(k1 == k0 && e1 == e0);
                assert forall|k: u64| #[trigger] e1.contains_key(k) <==> k1.contains(k) by {
                    assert(old(self).entries().contains_key(k) == old(self).keys().contains(k));
                }
            }
            assert(!k1.contains(seq)) by {
                if k1.contains(seq) {
                    let i = choose|i: int| 0 <= i < k1.len() && k1[i] == seq;
                    if k0.len() == self.capacity {
                        assert(k0[i + 1] == seq);
                    } else {
                        assert(k0[i] == seq);
                    }
                }
            }
            assert(k1.no_duplicates()) by {
                if k0.len() == self.capacity {
                    assert forall|a: int, b: int| 0 <= a < k1.len() && 0 <= b < k1.len() && a != b
                        implies k1[a] != k1[b] by {
                        assert(k1[a] == k0[a + 1] && k1[b] == k0[b + 1]);
                    }
                }
            }
        }
        self.order.push_back(seq);
        let _ = self.by_seq.insert(seq, v);
        proof {
            assert forall|k: u64| #[trigger] self.by_seq@.contains_key(k) <==> self.order@.contains(k) by {
                assert(e1.contains_key(k) == k1.contains(k));
                lemma_push_contains(k1, seq, k);
            }
            assert(self.order@.no_duplicates()) by {
                assert forall|a: int, b: int|
                    0 <= a < self.order@.len() && 0 <= b < self.order@.len() && a != b
                    implies self.order@[a] != self.order@[b] by {
                    if a < k1.len() && b < k1.len() {
                        assert(self.order@[a] == k1[a] && self.order@[b] == k1[b]);
                    } else if a < k1.len() {
                        assert(self.order@[a] == k1[a]);
                        assert(k1.contains(k1[a]));
                    } else if b < k1.len() {
                        assert(self.order@[b] == k1[b]);
                        assert(k1.contains(k1[b]));
                    }
                }
            }
        }
    }

    /// Remove `seq` and hand back its value; `None` (and no change) when
    /// it is not held.
    pub fn take(&mut self, seq: u64) -> (r: Option<V>)
        requires
            old(self).wf(),
        ensures
            final(self).wf(),
            final(self).cap() == old(self).cap(),
            match r {
                Some(v) => {
                    &&& old(self).entries().contains_key(seq)
                    &&& v == old(self).entries()[seq]
                    &&& final(self).entries() == old(self).entries().remove(seq)
                    &&& exists|i: int|
                        0 <= i < old(self).keys().len() && old(self).keys()[i] == seq
                            && final(self).keys() == old(self).keys().remove(i)
                },
                None => {
                    &&& !old(self).entries().contains_key(seq)
                    &&& final(self).entries() == old(self).entries()
                    &&& final(self).keys() == old(self).keys()
                },
            },
    {
        let ghost e0 = self.by_seq@;
        let r = self.by_seq.remove(&seq);
        match r {
            None => {
                assert(!e0.contains_key(seq));
                assert(e0.remove(seq) =~= e0);
                assert(self.by_seq@ == e0);
                assert(self.entries() == old(self).entries());
                assert(self.keys() == old(self).keys());
                None
            },
            Some(v) => {
                let ghost keys0 = self.order@;
                assert(keys0.contains(seq)) by {
                    assert(old(self).entries().contains_key(seq) == old(self).keys().contains(seq));
                }
                let mut i: usize = 0;
                while i < self.order.len() && self.order[i] != seq
                    invariant
                        self.order@ == keys0,
                        keys0.contains(seq),
                        i <= keys0.len(),
                        forall|j: int| 0 <= j < i ==> keys0[j] != seq,
                    decreases keys0.len() - i,
                {
                    i += 1;
                }
                assert(i < keys0.len()) by {
                    if i == keys0.len() {
                        let j = choose|j: int| 0 <= j < keys0.len() && keys0[j] == seq;
                        assert(keys0[j] != seq);
                    }
                }
                let _ = self.order.remove(i);
                proof {
                    assert(keys0[i as int] == seq);
                    assert forall|k: u64| #[trigger] self.by_seq@.contains_key(k) <==> self.order@.contains(k) by {
                        assert(old(self).entries().contains_key(k) == old(self).keys().contains(k));
                        if self.order@.contains(k) {
                            let m = choose|m: int| 0 <= m < self.order@.len() && self.order@[m] == k;
                            if m < i {
                                assert(keys0[m] == k);
                            } else {
                                assert(keys0[m + 1] == k);
                                assert(m + 1 != i);
                            }
                            assert(k != seq);
                        }
                        if self.by_seq@.contains_key(k) {
                            assert(keys0.contains(k));
                            let m = choose|m: int| 0 <= m < keys0.len() && keys0[m] == k;
                            assert(m != i);
                            if m < i {
                                assert(self.order@[m] == k);
                            } else {
                                assert(self.order@[m - 1] == k);
                            }
                        }
                    }
                    assert(self.order@.no_duplicates()) by {
                        assert forall|a: int, b: int|
                            0 <= a < self.order@.len() && 0 <= b < self.order@.len() && a != b
                            implies self.order@[a] != self.order@[b] by {
                            let a0 = if a < i { a } else { a + 1 };
                            let b0 = if b < i { b } else { b + 1 };
                            assert(self.order@[a] == keys0[a0]);
                            assert(self.order@[b] == keys0[b0]);
                        }
                    }
                }
                Some(v)
            },
        }
    }

    /// The value held under `seq`, if any.
    pub fn get(&self, seq: u64) -> (r: Option<&V>)
        ensures
            match r {
                Some(v) => self.entries().contains_key(seq) && *v == self.entries()[seq],
                None => !self.entries().contains_key(seq),
            },
    {
        self.by_seq.get(&seq)
    }

    /// Number of entries held.
    pub fn len(&self) -> (n: usize)
        requires
            self.wf(),
        ensures
            n == self.keys().len(),
            n == self.entries().dom().len(),
    {
        proof {
            assert forall|k: u64| self.by_seq@.dom().contains(k) <==> self.order@.to_set().contains(k) by {
                assert(self.entries().contains_key(k) == self.keys().contains(k));
            }
            assert(self.by_seq@.dom() =~= self.order@.to_set());
            self.order@.unique_seq_to_set();
        }
        self.by_seq.len()
    }

    /// True when nothing is held.
    pub fn is_empty(&self) -> (b: bool)
        requires
            self.wf(),
        ensures
            b == (self.keys().len() == 0),
    {
        self.len() == 0
    }

    /// The capacity the store was made with (after raising 0 to 1).
    pub fn capacity(&self) -> (n: usize)
        ensures
            n == self.cap(),
    {
        self.capacity
    }
}

} // verus!
