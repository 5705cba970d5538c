//! The parts of a level that a diff works on: the children whose ref
//! both sides share, in the order of either side, and the children of
//! the target as they stand in the source. Also: applying two op lists
//! in a row is applying their concatenation.

use vstd::prelude::*;

use crate::delta::apply::{apply_op_spec, apply_spec, first_idx, lemma_first_idx};
use crate::delta::diff::{has_ref, kept_pos, moves};
use crate::delta::laws::{distinct_refs, lemma_has_own_ref};
use crate::delta::DeltaOpV;
use crate::tree::NodeV;

verus! {

/// The refs of the nodes of `a` whose ref also occurs in `b`, in the
/// order of `a`.
pub open spec fn kept_refs(a: Seq<NodeV>, b: Seq<NodeV>) -> Seq<u32>
    decreases a.len(),
{
    if a.len() == 0 {
        Seq::empty()
    } else {
        (if has_ref(b, a[0].r) {
            seq![a[0].r]
        } else {
            Seq::empty()
        }) + kept_refs(a.drop_first(), b)
    }
}

/// The nodes of `a` whose ref also occurs in `b`, in the order of `a`.
pub open spec fn kept_nodes(a: Seq<NodeV>, b: Seq<NodeV>) -> Seq<NodeV>
    decreases a.len(),
{
    if a.len() == 0 {
        Seq::empty()
    } else {
        (if has_ref(b, a[0].r) {
            seq![a[0]]
        } else {
            Seq::empty()
        }) + kept_nodes(a.drop_first(), b)
    }
}

/// The node of `a` with ref `r` (the first one).
pub open spec fn node_of(a: Seq<NodeV>, r: u32) -> NodeV {
    a[first_idx(a, r, 0)]
}

/// The node `n` as it stands in `a` when `a` has its ref, else itself.
pub open spec fn old_node(a: Seq<NodeV>, n: NodeV) -> NodeV {
    if has_ref(a, n.r) {
        node_of(a, n.r)
    } else {
        n
    }
}

/// For each node of `bs` whose ref occurs in `a`, the node of `a` with
/// that ref, in the order of `bs`.
pub open spec fn old_kept(bs: Seq<NodeV>, a: Seq<NodeV>) -> Seq<NodeV>
    decreases bs.len(),
{
    if bs.len() == 0 {
        Seq::empty()
    } else {
        (if has_ref(a, bs[0].r) {
            seq![node_of(a, bs[0].r)]
        } else {
            Seq::empty()
        }) + old_kept(bs.drop_first(), a)
    }
}

/// Every node of `bs` as it stands in `a` (see [`old_node`]).
pub open spec fn old_nodes(bs: Seq<NodeV>, a: Seq<NodeV>) -> Seq<NodeV> {
    bs.map_values(|n: NodeV| old_node(a, n))
}

/// Position of `r` in `k`, or the length of `k` when it is absent.
pub open spec fn pos_in(k: Seq<u32>, r: u32) -> int
    decreases k.len(),
{
    if k.len() == 0 {
        0
    } else if k[0] == r {
        0
    } else {
        1 + pos_in(k.drop_first(), r)
    }
}

proof fn lemma_kept_pos(a: Seq<NodeV>, b: Seq<NodeV>, r: u32)
    ensures
        kept_pos(a, b, r) == pos_in(kept_refs(a, b), r),
    decreases a.len(),
{
    if a.len() > 0 {
        lemma_kept_pos(a.drop_first(), b, r);
        let k = kept_refs(a, b);
        if has_ref(b, a[0].r) {
            assert(k[0] == a[0].r);
            assert(k.drop_first() =~= kept_refs(a.drop_first(), b));
        } else {
            assert(k =~= kept_refs(a.drop_first(), b));
        }
    }
}

pub proof fn lemma_no_moves(bs: Seq<NodeV>, off: int, a: Seq<NodeV>, b: Seq<NodeV>, p: u32)
    requires
        kept_refs(a, b) == kept_refs(b, a),
    ensures
        moves(bs, off, a, b, p) == Seq::<DeltaOpV>::empty(),
    decreases bs.len(),
{
    if bs.len() > 0 {
        lemma_kept_pos(a, b, bs[0].r);
        lemma_kept_pos(b, a, bs[0].r);
        lemma_no_moves(bs.drop_first(), off + 1, a, b, p);
        assert(moves(bs, off, a, b, p) =~= Seq::<DeltaOpV>::empty());
    }
}

/// Applying two op lists in a row is applying their concatenation.
pub proof fn lemma_apply_append(ns: Seq<NodeV>, x: Seq<DeltaOpV>, y: Seq<DeltaOpV>)
    ensures
        apply_spec(ns, x + y) == match apply_spec(ns, x) {
            Ok(t) => apply_spec(t, y),
            Err(e) => Err(e),
        },
    decreases x.len(),
{
    if x.len() == 0 {
        assert(x + y =~= y);
    } else {
        assert((x + y)[0] == x[0]);
        assert((x + y).drop_first() =~= x.drop_first() + y);
        match apply_op_spec(ns, x[0]) {
            Ok(t) => lemma_apply_append(t, x.drop_first(), y),
            Err(_) => {},
        }
    }
}

/// The node of `a` with the ref of `n`, when there is one, has that ref.
pub proof fn lemma_node_of(a: Seq<NodeV>, r: u32)
    requires
        has_ref(a, r),
    ensures
        0 <= first_idx(a, r, 0) < a.len(),
        node_of(a, r).r == r,
{
    lemma_first_idx(a, r, 0);
}

pub proof fn lemma_kept_nodes_suffix(a: Seq<NodeV>, b: Seq<NodeV>, i: int)
    requires
        distinct_refs(a),
        0 <= i <= a.len(),
    ensures
        kept_nodes(a.skip(i), b) == kept_refs(a.skip(i), b).map_values(|r: u32| node_of(a, r)),
    decreases a.len() - i,
{
    let s = a.skip(i);
    if i == a.len() {
        assert(s =~= Seq::<NodeV>::empty());
        assert(kept_nodes(s, b) =~= kept_refs(s, b).map_values(|r: u32| node_of(a, r)));
    } else {
        lemma_kept_nodes_suffix(a, b, i + 1);
        assert(s[0] == a[i]);
        assert(s.drop_first() =~= a.skip(i + 1));
        lemma_has_own_ref(a, i);
        assert(node_of(a, a[i].r) == a[i]);
        if has_ref(b, a[i].r) {
            assert(kept_nodes(s, b) =~= kept_refs(s, b).map_values(|r: u32| node_of(a, r)));
        } else {
            assert(kept_nodes(s, b) =~= kept_refs(s, b).map_values(|r: u32| node_of(a, r)));
        }
    }
}

pub proof fn lemma_old_kept_map(bs: Seq<NodeV>, a: Seq<NodeV>)
    ensures
        old_kept(bs, a) == kept_refs(bs, a).map_values(|r: u32| node_of(a, r)),
    decreases bs.len(),
{
    if bs.len() > 0 {
        lemma_old_kept_map(bs.drop_first(), a);
        assert(old_kept(bs, a) =~= kept_refs(bs, a).map_values(|r: u32| node_of(a, r)));
    } else {
        assert(old_kept(bs, a) =~= kept_refs(bs, a).map_values(|r: u32| node_of(a, r)));
    }
}

} // verus!
