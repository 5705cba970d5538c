//! Laws of deltas: what diffing a tree against itself gives, and what
//! applying no op does.

use vstd::prelude::*;

use crate::delta::apply::{apply_spec, first_idx, lemma_first_idx};
use crate::delta::diff::{adds, diff_children_spec, diff_node_spec, diff_spec, has_ref, moves, node_diffs, removes};
use crate::delta::DeltaOpV;
use crate::error::ParseErrorView;
use crate::tree::NodeV;

verus! {

/// No two nodes of `s` share a ref.
pub open spec fn distinct_refs(s: Seq<NodeV>) -> bool {
    forall|i: int, j: int| 0 <= i < j < s.len() ==> (#[trigger] s[i]).r != (#[trigger] s[j]).r
}

/// In every list of siblings of the forest `s`, no two nodes share a ref.
pub open spec fn refs_unique(s: Seq<NodeV>) -> bool
    decreases s,
{
    if s.len() == 0 {
        true
    } else {
        distinct_refs(s) && refs_unique(s[0].children) && refs_unique(s.drop_first())
    }
}

/// Each node of `a` has its ref found in `a`, at its own position when
/// the refs of `a` are distinct.
pub proof fn lemma_has_own_ref(a: Seq<NodeV>, k: int)
    requires
        0 <= k < a.len(),
    ensures
        has_ref(a, a[k].r),
        first_idx(a, a[k].r, 0) <= k,
        distinct_refs(a) ==> first_idx(a, a[k].r, 0) == k,
{
    lemma_first_idx(a, a[k].r, 0);
}

proof fn lemma_removes_none(s: Seq<NodeV>, a: Seq<NodeV>)
    requires
        forall|k: int| 0 <= k < s.len() ==> has_ref(a, #[trigger] s[k].r),
    ensures
        removes(s, a) == Seq::<DeltaOpV>::empty(),
    decreases s.len(),
{
    if s.len() > 0 {
        assert(has_ref(a, s[0].r));
        assert forall|k: int| 0 <= k < s.drop_first().len() implies has_ref(a, #[trigger] s.drop_first()[k].r) by {
            assert(s.drop_first()[k] == s[k + 1]);
        }
        lemma_removes_none(s.drop_first(), a);
        assert(removes(s, a) =~= Seq::<DeltaOpV>::empty());
    }
}

proof fn lemma_adds_none(s: Seq<NodeV>, off: int, a: Seq<NodeV>, p: u32)
    requires
        forall|k: int| 0 <= k < s.len() ==> has_ref(a, #[trigger] s[k].r),
    ensures
        adds(s, off, a, p) == Seq::<DeltaOpV>::empty(),
    decreases s.len(),
{
    if s.len() > 0 {
        assert(has_ref(a, s[0].r));
        assert forall|k: int| 0 <= k < s.drop_first().len() implies has_ref(a, #[trigger] s.drop_first()[k].r) by {
            assert(s.drop_first()[k] == s[k + 1]);
        }
        lemma_adds_none(s.drop_first(), off + 1, a, p);
        assert(adds(s, off, a, p) =~= Seq::<DeltaOpV>::empty());
    }
}

proof fn lemma_moves_none(s: Seq<NodeV>, off: int, a: Seq<NodeV>, p: u32)
    ensures
        moves(s, off, a, a, p) == Seq::<DeltaOpV>::empty(),
    decreases s.len(),
{
    if s.len() > 0 {
        lemma_moves_none(s.drop_first(), off + 1, a, p);
        assert(moves(s, off, a, a, p) =~= Seq::<DeltaOpV>::empty());
    }
}

/// Every part of a forest with unique sibling refs has unique sibling refs.
pub proof fn lemma_refs_unique_parts(s: Seq<NodeV>, k: int)
    requires
        refs_unique(s),
        0 <= k < s.len(),
    ensures
        refs_unique(s[k].children),
        refs_unique(s.skip(k)),
        distinct_refs(s),
    decreases k,
{
    if k > 0 {
        assert(s.drop_first()[k - 1] == s[k]);
        lemma_refs_unique_parts(s.drop_first(), k - 1);
        assert(s.drop_first().skip(k - 1) =~= s.skip(k));
    } else {
        assert(s.skip(0) =~= s);
    }
}

proof fn lemma_node_diffs_none(a: Seq<NodeV>, i: int)
    requires
        refs_unique(a),
        0 <= i <= a.len(),
    ensures
        node_diffs(a.skip(i), a) == Seq::<DeltaOpV>::empty(),
    decreases a, a.len() - i,
{
    if i < a.len() {
        let s = a.skip(i);
        assert(s[0] == a[i]);
        assert(s.drop_first() =~= a.skip(i + 1));
        lemma_refs_unique_parts(a, i);
        lemma_has_own_ref(a, i);
        assert(decreases_to!(a => a[i]));
        lemma_diff_node_none(a[i]);
        lemma_node_diffs_none(a, i + 1);
        assert(node_diffs(s, a) =~= Seq::<DeltaOpV>::empty());
    } else {
        assert(a.skip(i) =~= Seq::<NodeV>::empty());
    }
}

proof fn lemma_diff_node_none(n: NodeV)
    requires
        refs_unique(n.children),
    ensures
        diff_node_spec(n, n) == Seq::<DeltaOpV>::empty(),
    decreases n, 0nat,
{
    lemma_diff_children_none(n.children, n.r);
    assert(diff_node_spec(n, n) =~= Seq::<DeltaOpV>::empty());
}

proof fn lemma_diff_children_none(a: Seq<NodeV>, p: u32)
    requires
        refs_unique(a),
    ensures
        diff_children_spec(a, a, p) == Seq::<DeltaOpV>::empty(),
    decreases a, a.len() + 1,
{
    assert forall|k: int| 0 <= k < a.len() implies has_ref(a, #[trigger] a[k].r) by {
        lemma_has_own_ref(a, k);
    }
    lemma_removes_none(a, a);
    lemma_adds_none(a, 0, a, p);
    lemma_moves_none(a, 0, a, p);
    assert(a.skip(0) =~= a);
    lemma_node_diffs_none(a, 0);
    assert(diff_children_spec(a, a, p) =~= Seq::<DeltaOpV>::empty());
}

/// Diffing a forest with unique sibling refs against itself gives no op.
pub proof fn lemma_diff_identity(t: Seq<NodeV>)
    requires
        refs_unique(t),
    ensures
        diff_spec(t, t) == Seq::<DeltaOpV>::empty(),
{
    lemma_diff_children_none(t, 0);
}

/// Applying no op gives the forest back.
pub proof fn lemma_apply_nothing(t: Seq<NodeV>)
    ensures
        apply_spec(t, Seq::empty()) == Ok::<Seq<NodeV>, ParseErrorView>(t),
{
}

} // verus!
