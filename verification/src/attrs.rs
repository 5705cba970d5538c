//! Attribute maps: key/value pairs kept sorted by key, the canonical
//! order in which the wire emits them.

use vstd::prelude::*;

use crate::text::{chars_of, string_of};

verus! {

/// `a` sorts strictly before `b` when both are compared from position
/// `i` on, character by character by code point, a proper prefix first.
pub open spec fn lex_lt_from(a: Seq<char>, b: Seq<char>, i: int) -> bool
    decreases a.len() - i,
{
    if i < 0 || i >= a.len() {
        0 <= i < b.len()
    } else if i >= b.len() {
        false
    } else if a[i] != b[i] {
        (a[i] as u32) < (b[i] as u32)
    } else {
        lex_lt_from(a, b, i + 1)
    }
}

/// Lexicographic order on character sequences (the order of `String`).
pub open spec fn lex_lt(a: Seq<char>, b: Seq<char>) -> bool {
    lex_lt_from(a, b, 0)
}

pub proof fn lemma_lex_irreflexive(a: Seq<char>, i: int)
    requires
        0 <= i,
    ensures
        !lex_lt_from(a, a, i),
    decreases a.len() - i,
{
    if i < a.len() {
        lemma_lex_irreflexive(a, i + 1);
    }
}

pub proof fn lemma_lex_transitive(a: Seq<char>, b: Seq<char>, c: Seq<char>, i: int)
    requires
        0 <= i,
        lex_lt_from(a, b, i),
        lex_lt_from(b, c, i),
    ensures
        lex_lt_from(a, c, i),
    decreases a.len() - i,
{
    if i < a.len() && i < b.len() && i < c.len() && a[i] == b[i] && b[i] == c[i] {
        lemma_lex_transitive(a, b, c, i + 1);
    }
}

pub proof fn lemma_lex_total(a: Seq<char>, b: Seq<char>, i: int)
    requires
        0 <= i <= a.len(),
        i <= b.len(),
        a.subrange(0, i) == b.subrange(0, i),
        !lex_lt_from(a, b, i),
        !lex_lt_from(b, a, i),
    ensures
        a == b,
    decreases a.len() - i,
{
    if i < a.len() && i < b.len() {
        assert(a[i] == b[i]) by {
            if a[i] != b[i] {
                assert((a[i] as u32) != (b[i] as u32)) by {
                    vstd::utf8::char_u32_cast(a[i], a[i] as u32);
                    vstd::utf8::char_u32_cast(b[i], b[i] as u32);
                }
            }
        }
        assert(a.subrange(0, i + 1) =~= a.subrange(0, i).push(a[i]));
        assert(b.subrange(0, i + 1) =~= b.subrange(0, i).push(b[i]));
        lemma_lex_total(a, b, i + 1);
    } else {
        assert(a.len() == i && b.len() == i);
        assert(a =~= a.subrange(0, i));
        assert(b =~= b.subrange(0, i));
    }
}

/// Keys strictly increase along `s`.
pub open spec fn sorted_keys<V>(s: Seq<(Seq<char>, V)>) -> bool {
    forall|i: int, j: int| 0 <= i < j < s.len() ==> lex_lt(#[trigger] s[i].0, #[trigger] s[j].0)
}

/// Insert `(k, v)` into the key-sorted list `s`, replacing the value of
/// an equal key.
pub open spec fn sorted_insert<V>(s: Seq<(Seq<char>, V)>, k: Seq<char>, v: V) -> Seq<(Seq<char>, V)>
    decreases s.len(),
{
    if s.len() == 0 {
        seq![(k, v)]
    } else if s[0].0 == k {
        seq![(k, v)] + s.drop_first()
    } else if lex_lt(k, s[0].0) {
        seq![(k, v)] + s
    } else {
        seq![s[0]] + sorted_insert(s.drop_first(), k, v)
    }
}

pub proof fn lemma_sorted_insert<V>(s: Seq<(Seq<char>, V)>, k: Seq<char>, v: V)
    requires
        sorted_keys(s),
    ensures
        sorted_keys(sorted_insert(s, k, v)),
        sorted_insert(s, k, v).len() > 0,
        forall|j: int| 0 <= j < sorted_insert(s, k, v).len() ==>
            (#[trigger] sorted_insert(s, k, v)[j].0 == k || s.contains(sorted_insert(s, k, v)[j])),
        forall|j: int| 0 <= j < sorted_insert(s, k, v).len() ==>
            (#[trigger] sorted_insert(s, k, v)[j]).0 == k ==> sorted_insert(s, k, v)[j].1 == v,
        s.len() > 0 ==> sorted_insert(s, k, v)[0].0 == k || sorted_insert(s, k, v)[0] == s[0],
    decreases s.len(),
{
    let r = sorted_insert(s, k, v);
    if s.len() == 0 {
    } else if s[0].0 == k {
        assert forall|i: int, j: int| 0 <= i < j < r.len() implies lex_lt(#[trigger] r[i].0, #[trigger] r[j].0) by {
            if i == 0 {
                assert(r[j] == s[j]);
                assert(lex_lt(s[0].0, s[j].0));
            } else {
                assert(r[i] == s[i]);
                assert(r[j] == s[j]);
            }
        }
        assert forall|j: int| 0 <= j < r.len() implies (#[trigger] r[j].0 == k || s.contains(r[j])) by {
            if j > 0 {
                assert(r[j] == s[j]);
            }
        }
        assert forall|j: int| 0 <= j < r.len() implies ((#[trigger] r[j]).0 == k ==> r[j].1 == v) by {
            if j > 0 {
                assert(r[j] == s[j]);
                assert(lex_lt(s[0].0, s[j].0));
                lemma_lex_irreflexive(k, 0);
            }
        }
    } else if lex_lt(k, s[0].0) {
        assert forall|i: int, j: int| 0 <= i < j < r.len() implies lex_lt(#[trigger] r[i].0, #[trigger] r[j].0) by {
            if i == 0 {
                assert(r[j] == s[j - 1]);
                if j - 1 > 0 {
                    assert(lex_lt(s[0].0, s[j - 1].0));
                    lemma_lex_transitive(k, s[0].0, s[j - 1].0, 0);
                }
            } else {
                assert(r[i] == s[i - 1]);
                assert(r[j] == s[j - 1]);
            }
        }
        assert forall|j: int| 0 <= j < r.len() implies (#[trigger] r[j].0 == k || s.contains(r[j])) by {
            if j > 0 {
                assert(r[j] == s[j - 1]);
            }
        }
        assert forall|j: int| 0 <= j < r.len() implies ((#[trigger] r[j]).0 == k ==> r[j].1 == v) by {
            if j > 0 {
                assert(r[j] == s[j - 1]);
                if j - 1 > 0 {
                    assert(lex_lt(s[0].0, s[j - 1].0));
                    lemma_lex_transitive(k, s[0].0, s[j - 1].0, 0);
                }
                if r[j].0 == k {
                    lemma_lex_irreflexive(k, 0);
                }
            }
        }
    } else {
        let t = s.drop_first();
        assert(sorted_keys(t)) by {
            assert forall|i: int, j: int| 0 <= i < j < t.len() implies lex_lt(#[trigger] t[i].0, #[trigger] t[j].0) by {
                assert(t[i] == s[i + 1]);
                assert(t[j] == s[j + 1]);
            }
        }
        lemma_sorted_insert(t, k, v);
        let rt = sorted_insert(t, k, v);
        assert(lex_lt(s[0].0, k)) by {
            assert(k.subrange(0, 0) =~= s[0].0.subrange(0, 0));
            if !lex_lt(s[0].0, k) {
                lemma_lex_total(k, s[0].0, 0);
            }
        }
        assert forall|j: int| 0 <= j < rt.len() implies lex_lt(s[0].0, #[trigger] rt[j].0) by {
            if rt[j].0 != k {
                assert(t.contains(rt[j]));
                let m = choose|m: int| 0 <= m < t.len() && t[m] == rt[j];
                assert(s[m + 1] == t[m]);
                assert(lex_lt(s[0].0, s[m + 1].0));
            }
        }
        assert forall|i: int, j: int| 0 <= i < j < r.len() implies lex_lt(#[trigger] r[i].0, #[trigger] r[j].0) by {
            if i == 0 {
                assert(r[j] == rt[j - 1]);
            } else {
                assert(r[i] == rt[i - 1]);
                assert(r[j] == rt[j - 1]);
            }
        }
        assert forall|j: int| 0 <= j < r.len() implies (#[trigger] r[j].0 == k || s.contains(r[j])) by {
            if j > 0 {
                assert(r[j] == rt[j - 1]);
                if rt[j - 1].0 != k {
                    assert(t.contains(rt[j - 1]));
                    let m = choose|m: int| 0 <= m < t.len() && t[m] == rt[j - 1];
                    assert(s[m + 1] == t[m]);
                }
            } else {
                assert(r[0] == s[0]);
            }
        }
        assert forall|j: int| 0 <= j < r.len() implies ((#[trigger] r[j]).0 == k ==> r[j].1 == v) by {
            if j > 0 {
                assert(r[j] == rt[j - 1]);
            } else {
                lemma_lex_irreflexive(k, 0);
            }
        }
    }
}

/// Compare two character slices: `-1`, `0` or `1` as `a` sorts before,
/// equal to, or after `b`.
pub fn compare_chars(a: &[char], b: &[char]) -> (r: i8)
    ensures
        r == 0 <==> a@ == b@,
        r < 0 <==> lex_lt(a@, b@),
        r > 0 <==> lex_lt(b@, a@),
        -1 <= r <= 1,
{
    let mut i: usize = 0;
    while i < a.len() && i < b.len()
        invariant
            i <= a.len(),
            i <= b.len(),
            a@.subrange(0, i as int) == b@.subrange(0, i as int),
            lex_lt(a@, b@) == lex_lt_from(a@, b@, i as int),
            lex_lt(b@, a@) == lex_lt_from(b@, a@, i as int),
        decreases a.len() - i,
    {
        if a[i] != b[i] {
            let x = a[i] as u32;
            let y = b[i] as u32;
            proof {
                vstd::utf8::char_u32_cast(a@[i as int], x);
                vstd::utf8::char_u32_cast(b@[i as int], y);
            }
            if x < y {
                proof {
                    assert(!lex_lt(b@, a@));
                }
                return -1;
            } else {
                return 1;
            }
        }
        assert(a@.subrange(0, i + 1) =~= a@.subrange(0, i as int).push(a@[i as int]));
        assert(b@.subrange(0, i + 1) =~= b@.subrange(0, i as int).push(b@[i as int]));
        i += 1;
    }
    if a.len() == b.len() {
        assert(a@ =~= a@.subrange(0, i as int));
        assert(b@ =~= b@.subrange(0, i as int));
        proof {
            lemma_lex_irreflexive(a@, 0);
        }
        0
    } else if a.len() < b.len() {
        -1
    } else {
        1
    }
}

/// Where `sorted_insert` puts a key that sorts after the first `i` keys
/// and not after the key at `i`.
pub proof fn lemma_sorted_insert_at<V>(s: Seq<(Seq<char>, V)>, k: Seq<char>, v: V, i: int)
    requires
        sorted_keys(s),
        0 <= i <= s.len(),
        forall|j: int| 0 <= j < i ==> lex_lt(#[trigger] s[j].0, k),
        i < s.len() ==> !lex_lt(s[i].0, k),
    ensures
        i < s.len() && s[i].0 == k ==> sorted_insert(s, k, v) == s.take(i) + seq![(k, v)] + s.skip(i + 1),
        !(i < s.len() && s[i].0 == k) ==> sorted_insert(s, k, v) == s.take(i) + seq![(k, v)] + s.skip(i),
    decreases i,
{
    if i == 0 {
        assert(s.take(0) =~= Seq::<(Seq<char>, V)>::empty());
        if s.len() > 0 && s[0].0 != k {
            assert(k.subrange(0, 0) =~= s[0].0.subrange(0, 0));
            if !lex_lt(k, s[0].0) {
                lemma_lex_total(k, s[0].0, 0);
            }
        }
        assert(s.skip(1) =~= s.drop_first());
        assert(s.skip(0) =~= s);
    } else {
        let t = s.drop_first();
        assert(sorted_keys(t)) by {
            assert forall|a: int, b: int| 0 <= a < b < t.len() implies lex_lt(#[trigger] t[a].0, #[trigger] t[b].0) by {
                assert(t[a] == s[a + 1]);
                assert(t[b] == s[b + 1]);
            }
        }
        assert forall|j: int| 0 <= j < i - 1 implies lex_lt(#[trigger] t[j].0, k) by {
            assert(t[j] == s[j + 1]);
        }
        lemma_sorted_insert_at(t, k, v, i - 1);
        assert(lex_lt(s[0].0, k));
        assert(s[0].0 != k) by {
            lemma_lex_irreflexive(k, 0);
        }
        assert(!lex_lt(k, s[0].0)) by {
            if lex_lt(k, s[0].0) {
                lemma_lex_transitive(k, s[0].0, k, 0);
                lemma_lex_irreflexive(k, 0);
            }
        }
        assert(s.take(i) =~= seq![s[0]] + t.take(i - 1));
        if i < s.len() {
            assert(s.skip(i + 1) =~= t.skip(i));
        }
        assert(s.skip(i) =~= t.skip(i - 1));
    }
}

/// Attribute map of a node: keys kept unique and sorted.
#[derive(Debug, PartialEq, Eq)]
pub struct Attrs {
    entries: Vec<(Vec<char>, Vec<char>)>,
}

/// The pairs held by `e`, as character sequences.
pub open spec fn entries_view(e: Seq<(Vec<char>, Vec<char>)>) -> Seq<(Seq<char>, Seq<char>)> {
    e.map_values(|p: (Vec<char>, Vec<char>)| (p.0@, p.1@))
}

impl View for Attrs {
    type V = Seq<(Seq<char>, Seq<char>)>;

    closed spec fn view(&self) -> Seq<(Seq<char>, Seq<char>)> {
        entries_view(self.entries@)
    }
}

impl Attrs {
    #[verifier::type_invariant]
    closed spec fn inv(self) -> bool {
        sorted_keys(entries_view(self.entries@))
    }

    /// An empty map.
    pub fn new() -> (a: Attrs)
        ensures
            a@ == Seq::<(Seq<char>, Seq<char>)>::empty(),
    {
        let a = Attrs { entries: Vec::new() };
        assert(a@ =~= Seq::<(Seq<char>, Seq<char>)>::empty());
        a
    }

    /// Number of keys.
    pub fn len(&self) -> (n: usize)
        ensures
            n == self@.len(),
            sorted_keys(self@),
    {
        proof {
            use_type_invariant(self);
        }
        self.entries.len()
    }

    /// True when no key is present.
    pub fn is_empty(&self) -> (b: bool)
        ensures
            b == (self@.len() == 0),
    {
        self.entries.len() == 0
    }

    /// Key and value at position `i` in key order.
    pub fn entry(&self, i: usize) -> (p: (&Vec<char>, &Vec<char>))
        requires
            i < self@.len(),
        ensures
            p.0@ == self@[i as int].0,
            p.1@ == self@[i as int].1,
    {
        let e = &self.entries[i];
        (&e.0, &e.1)
    }

    /// Set `key` to `value`, keeping the keys sorted.
    pub fn insert(&mut self, key: String, value: String)
        ensures
            final(self)@ == sorted_insert(old(self)@, key@, value@),
    {
        let k = chars_of(key.as_str());
        let v = chars_of(value.as_str());
        self.insert_chars(k, v);
    }

    /// Set `key` to `value` (given as characters), keeping the keys sorted.
    pub fn insert_chars(&mut self, key: Vec<char>, value: Vec<char>)
        ensures
            final(self)@ == sorted_insert(old(self)@, key@, value@),
    {
        proof {
            use_type_invariant(&*self);
        }
        let ghost s = self@;
        let mut e: Vec<(Vec<char>, Vec<char>)> = Vec::new();
        std::mem::swap(&mut e, &mut self.entries);
        assert(entries_view(e@) == s);
        let mut i: usize = 0;
        while i < e.len() && compare_chars(&e[i].0, &key) < 0
            invariant
                i <= e.len(),
                entries_view(e@) == s,
                sorted_keys(s),
                forall|j: int| 0 <= j < i ==> lex_lt(#[trigger] s[j].0, key@),
            decreases e.len() - i,
        {
            assert(s[i as int].0 == e@[i as int].0@);
            i += 1;
        }
        proof {
            if i < e.len() {
                assert(s[i as int].0 == e@[i as int].0@);
            }
            lemma_sorted_insert_at(s, key@, value@, i as int);
            lemma_sorted_insert(s, key@, value@);
        }
        if i < e.len() && compare_chars(&e[i].0, &key) == 0 {
            let ghost before = e@;
            e.set(i, (key, value));
            assert(entries_view(e@) =~= s.take(i as int) + seq![(key@, value@)] + s.skip(i + 1));
        } else {
            let ghost before = e@;
            e.insert(i, (key, value));
            assert(entries_view(e@) =~= s.take(i as int) + seq![(key@, value@)] + s.skip(i as int));
        }
        self.entries = e;
    }

    /// True when both maps hold the same pairs.
    pub fn same_as(&self, other: &Attrs) -> (b: bool)
        ensures
            b == (self@ == other@),
    {
        assert(self@.len() == self.entries@.len() && other@.len() == other.entries@.len());
        if self.entries.len() != other.entries.len() {
            return false;
        }
        let mut i: usize = 0;
        while i < self.entries.len()
            invariant
                i <= self.entries.len(),
                self.entries.len() == other.entries.len(),
                forall|j: int| 0 <= j < i ==> self@[j] == other@[j],
            decreases self.entries.len() - i,
        {
            assert(self@[i as int] == (self.entries@[i as int].0@, self.entries@[i as int].1@));
            assert(other@[i as int] == (other.entries@[i as int].0@, other.entries@[i as int].1@));
            if !crate::text::eq_chars(&self.entries[i].0, &other.entries[i].0)
                || !crate::text::eq_chars(&self.entries[i].1, &other.entries[i].1) {
                return false;
            }
            i += 1;
        }
        assert(self@ =~= other@);
        true
    }

    /// A copy with the same pairs.
    pub fn duplicate(&self) -> (c: Attrs)
        ensures
            c@ == self@,
    {
        proof {
            use_type_invariant(self);
        }
        let mut e: Vec<(Vec<char>, Vec<char>)> = Vec::new();
        let mut i: usize = 0;
        while i < self.entries.len()
            invariant
                i <= self.entries.len(),
                entries_view(e@) == self@.take(i as int),
                e.len() == i,
            decreases self.entries.len() - i,
        {
            let k = vstd::slice::slice_to_vec(self.entries[i].0.as_slice());
            let v = vstd::slice::slice_to_vec(self.entries[i].1.as_slice());
            assert(self@[i as int] == (k@, v@));
            let ghost kv = (k@, v@);
            let ghost old_e = e@;
            e.push((k, v));
            assert(e@[i as int].0@ == kv.0 && e@[i as int].1@ == kv.1);
            assert(forall|j: int| 0 <= j < i ==> e@[j] == old_e[j]);
            assert(entries_view(e@) =~= self@.take(i + 1));
            i += 1;
        }
        assert(self@.take(self@.len() as int) =~= self@);
        Attrs { entries: e }
    }
}

impl Clone for Attrs {
    fn clone(&self) -> (c: Attrs)
        ensures
            c@ == self@,
    {
        self.duplicate()
    }
}

} // verus!
