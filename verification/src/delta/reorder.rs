//! The reorders a diff puts right. After the removals, additions and
//! node diffs of a level, the common children stand in the order of the
//! source; the level's Move ops then take each out and put it back at
//! its position in the target. This module states that order and those
//! moves over the children of one level.

use vstd::prelude::*;

use crate::delta::apply::{clamp_pos, first_idx, lemma_first_idx};
use crate::delta::diff::{has_ref, moves};
use crate::delta::diff_parts::{
    kept_nodes, kept_refs, lemma_kept_nodes_suffix, lemma_no_moves, lemma_node_of, lemma_old_kept_map, node_of,
    old_kept,
};
use crate::delta::laws::distinct_refs;
use crate::delta::DeltaOpV;
use crate::tree::NodeV;

verus! {

broadcast use {vstd::seq_lib::to_multiset_remove, vstd::seq_lib::to_multiset_insert, vstd::seq_lib::to_multiset_len, vstd::seq_lib::to_multiset_contains};

/// The children `bs` with their common slots (those whose ref occurs in
/// `ka`) filled, in turn, by the nodes of `ks`; the other children stay,
/// and nodes of `ks` left over come last.
pub open spec fn arrange(bs: Seq<NodeV>, ka: Seq<NodeV>, ks: Seq<NodeV>) -> Seq<NodeV>
    decreases bs.len(),
{
    if bs.len() == 0 {
        ks
    } else if has_ref(ka, bs[0].r) {
        if ks.len() == 0 {
            arrange(bs.drop_first(), ka, ks)
        } else {
            seq![ks[0]] + arrange(bs.drop_first(), ka, ks.drop_first())
        }
    } else {
        seq![bs[0]] + arrange(bs.drop_first(), ka, ks)
    }
}

/// The target children `kb` with the common ones in the order of the
/// source children `ka`: where a level stands before its moves.
pub open spec fn in_a_order(ka: Seq<NodeV>, kb: Seq<NodeV>) -> Seq<NodeV> {
    arrange(kb, ka, old_kept(ka, kb))
}

/// The children `l` after moving the child of ref `r` to `pos`: taken
/// out, then put back at `pos` (or last); `None` when no child has `r`.
pub open spec fn move_one(l: Seq<NodeV>, r: u32, pos: Option<u32>) -> Option<Seq<NodeV>> {
    let i = first_idx(l, r, 0);
    if 0 <= i < l.len() {
        Some(l.remove(i).insert(clamp_pos(pos, (l.len() - 1) as nat), l[i]))
    } else {
        None
    }
}

/// The children `l` after the Move ops `ops` in turn, read as moves
/// within one level; `None` when an op is no Move or moves a ref `l`
/// lacks.
pub open spec fn run_moves(l: Seq<NodeV>, ops: Seq<DeltaOpV>) -> Option<Seq<NodeV>>
    decreases ops.len(),
{
    if ops.len() == 0 {
        Some(l)
    } else {
        match ops[0] {
            DeltaOpV::Move { r, pos, .. } => match move_one(l, r, pos) {
                Some(l2) => run_moves(l2, ops.drop_first()),
                None => None,
            },
            _ => None,
        }
    }
}

/// The Move ops of the level from children `ka` to `kb` put the common
/// children, standing in the order of `ka`, into the order of `kb`.
pub open spec fn moves_settle(ka: Seq<NodeV>, kb: Seq<NodeV>) -> bool {
    run_moves(in_a_order(ka, kb), moves(kb, 0, ka, kb, 0)) == Some(kb)
}

/// The number of children of `bs` whose ref occurs in `ka`.
pub open spec fn common_count(bs: Seq<NodeV>, ka: Seq<NodeV>) -> nat {
    kept_refs(bs, ka).len()
}

pub proof fn lemma_has_ref_iff(s: Seq<NodeV>, r: u32)
    ensures
        has_ref(s, r) <==> exists|j: int| 0 <= j < s.len() && (#[trigger] s[j]).r == r,
{
    lemma_first_idx(s, r, 0);
    if exists|j: int| 0 <= j < s.len() && (#[trigger] s[j]).r == r {
        let j = choose|j: int| 0 <= j < s.len() && (#[trigger] s[j]).r == r;
        assert(first_idx(s, r, 0) <= j);
    }
}

/// The parent field of the moves does not matter to [`run_moves`].
pub proof fn lemma_run_moves_parent(l: Seq<NodeV>, bs: Seq<NodeV>, off: int, ka: Seq<NodeV>, kb: Seq<NodeV>, p: u32)
    ensures
        run_moves(l, moves(bs, off, ka, kb, p)) == run_moves(l, moves(bs, off, ka, kb, 0)),
    decreases bs.len(),
{
    if bs.len() > 0 {
        let m1 = moves(bs, off, ka, kb, p);
        let m0 = moves(bs, off, ka, kb, 0);
        let t1 = moves(bs.drop_first(), off + 1, ka, kb, p);
        let t0 = moves(bs.drop_first(), off + 1, ka, kb, 0);
        if has_ref(ka, bs[0].r) && crate::delta::diff::kept_pos(ka, kb, bs[0].r) != crate::delta::diff::kept_pos(
            kb,
            ka,
            bs[0].r,
        ) {
            assert(m1.drop_first() =~= t1);
            assert(m0.drop_first() =~= t0);
            match move_one(l, bs[0].r, Some(crate::delta::apply::sat_u32(off))) {
                Some(l2) => lemma_run_moves_parent(l2, bs.drop_first(), off + 1, ka, kb, p),
                None => {},
            }
        } else {
            assert(m1 =~= t1);
            assert(m0 =~= t0);
            lemma_run_moves_parent(l, bs.drop_first(), off + 1, ka, kb, p);
        }
    }
}

/// Every op of a level's moves is a Move under `p`.
pub proof fn lemma_moves_are_moves(bs: Seq<NodeV>, off: int, ka: Seq<NodeV>, kb: Seq<NodeV>, p: u32)
    ensures
        forall|t: int| 0 <= t < moves(bs, off, ka, kb, p).len() ==> (#[trigger] moves(bs, off, ka, kb, p)[t]) is Move
            && moves(bs, off, ka, kb, p)[t]->Move_parent == p,
    decreases bs.len(),
{
    if bs.len() > 0 {
        lemma_moves_are_moves(bs.drop_first(), off + 1, ka, kb, p);
        let m = moves(bs, off, ka, kb, p);
        let t1 = moves(bs.drop_first(), off + 1, ka, kb, p);
        assert forall|t: int| 0 <= t < m.len() implies (#[trigger] m[t]) is Move && m[t]->Move_parent == p by {
            if m.len() > t1.len() {
                if t > 0 {
                    assert(m[t] == t1[t - 1]);
                }
            } else {
                assert(m =~= t1);
            }
        }
    }
}

/// Moves keep the children, only their order changes.
pub proof fn lemma_run_moves_perm(l: Seq<NodeV>, ops: Seq<DeltaOpV>)
    ensures
        run_moves(l, ops) matches Some(m) ==> m.to_multiset() == l.to_multiset(),
    decreases ops.len(),
{
    if ops.len() > 0 {
        match ops[0] {
            DeltaOpV::Move { r, pos, .. } => match move_one(l, r, pos) {
                Some(l2) => {
                    let i = first_idx(l, r, 0);
                    let j = clamp_pos(pos, (l.len() - 1) as nat);
                    assert(l.remove(i).to_multiset() == l.to_multiset().remove(l[i]));
                    assert(l.remove(i).insert(j, l[i]).to_multiset() == l.remove(i).to_multiset().insert(l[i]));
                    assert(l.to_multiset().count(l[i]) > 0) by {
                        assert(l.contains(l[i]));
                    }
                    assert(l2.to_multiset() =~= l.to_multiset());
                    lemma_run_moves_perm(l2, ops.drop_first());
                },
                None => {},
            },
            _ => {},
        }
    }
}

/// The length of an arrangement: the children kept as they are, plus
/// every node filled in.
pub proof fn lemma_arrange_len(bs: Seq<NodeV>, ka: Seq<NodeV>, ks: Seq<NodeV>)
    ensures
        arrange(bs, ka, ks).len() == bs.len() - common_count(bs, ka) + ks.len(),
    decreases bs.len(),
{
    if bs.len() > 0 {
        lemma_arrange_len(bs.drop_first(), ka, ks);
        if ks.len() > 0 {
            lemma_arrange_len(bs.drop_first(), ka, ks.drop_first());
        }
        assert(kept_refs(bs, ka).len() == (if has_ref(ka, bs[0].r) { 1int } else { 0int }) + kept_refs(
            bs.drop_first(),
            ka,
        ).len());
    }
}

/// When the common children of `bs` come in the order of `ka`, filling
/// them in with themselves leaves `bs` as it is.
pub proof fn lemma_arrange_self(bs: Seq<NodeV>, ka: Seq<NodeV>)
    ensures
        arrange(bs, ka, kept_nodes(bs, ka)) == bs,
    decreases bs.len(),
{
    if bs.len() > 0 {
        lemma_arrange_self(bs.drop_first(), ka);
        if has_ref(ka, bs[0].r) {
            let ks = kept_nodes(bs, ka);
            assert(ks =~= seq![bs[0]] + kept_nodes(bs.drop_first(), ka));
            assert(ks.drop_first() =~= kept_nodes(bs.drop_first(), ka));
            assert(arrange(bs, ka, ks) =~= seq![bs[0]] + bs.drop_first());
        } else {
            assert(kept_nodes(bs, ka) =~= kept_nodes(bs.drop_first(), ka));
            assert(arrange(bs, ka, kept_nodes(bs, ka)) =~= seq![bs[0]] + bs.drop_first());
        }
        assert(seq![bs[0]] + bs.drop_first() =~= bs);
    } else {
        assert(kept_nodes(bs, ka) =~= Seq::<NodeV>::empty());
    }
}

/// Children whose common ones already come in the order of the source
/// need no move: the level settles.
pub proof fn lemma_ordered_settles(ka: Seq<NodeV>, kb: Seq<NodeV>)
    requires
        distinct_refs(kb),
        kept_refs(ka, kb) == kept_refs(kb, ka),
    ensures
        in_a_order(ka, kb) == kb,
        moves_settle(ka, kb),
{
    lemma_old_kept_map(ka, kb);
    assert(kb.skip(0) =~= kb);
    lemma_kept_nodes_suffix(kb, ka, 0);
    assert(old_kept(ka, kb) == kept_nodes(kb, ka));
    lemma_arrange_self(kb, ka);
    lemma_no_moves(kb, 0, ka, kb, 0);
}

/// The refs that two sides share are refs of both.
pub proof fn lemma_kept_refs_mem(a: Seq<NodeV>, b: Seq<NodeV>)
    ensures
        forall|t: int| 0 <= t < kept_refs(a, b).len() ==> has_ref(b, #[trigger] kept_refs(a, b)[t]) && has_ref(
            a,
            kept_refs(a, b)[t],
        ),
    decreases a.len(),
{
    if a.len() > 0 {
        let r = a.drop_first();
        lemma_kept_refs_mem(r, b);
        let k = kept_refs(a, b);
        let kr = kept_refs(r, b);
        assert forall|t: int| 0 <= t < k.len() implies has_ref(b, #[trigger] k[t]) && has_ref(a, k[t]) by {
            lemma_has_ref_iff(a, k[t]);
            lemma_has_ref_iff(r, k[t]);
            if has_ref(b, a[0].r) {
                if t == 0 {
                    assert(k[0] == a[0].r);
                    assert(a[0].r == a[0].r);
                } else {
                    assert(k[t] == kr[t - 1]);
                    let j = choose|j: int| 0 <= j < r.len() && (#[trigger] r[j]).r == k[t];
                    assert(a[j + 1] == r[j]);
                }
            } else {
                assert(k =~= kr);
                let j = choose|j: int| 0 <= j < r.len() && (#[trigger] r[j]).r == k[t];
                assert(a[j + 1] == r[j]);
            }
        }
    }
}

/// The refs of the common nodes of `kb`, taken in the order of `ka`, are
/// the shared refs in the order of `ka`, each a ref of `ka`.
pub proof fn lemma_old_kept_refs(ka: Seq<NodeV>, kb: Seq<NodeV>)
    ensures
        old_kept(ka, kb).map_values(|n: NodeV| n.r) == kept_refs(ka, kb),
        forall|t: int| 0 <= t < old_kept(ka, kb).len() ==> has_ref(ka, (#[trigger] old_kept(ka, kb)[t]).r),
{
    lemma_old_kept_map(ka, kb);
    lemma_kept_refs_mem(ka, kb);
    let k = kept_refs(ka, kb);
    assert forall|t: int| 0 <= t < k.len() implies (#[trigger] old_kept(ka, kb)[t]).r == k[t] by {
        assert(has_ref(kb, k[t]));
        lemma_node_of(kb, k[t]);
    }
    assert(old_kept(ka, kb).map_values(|n: NodeV| n.r) =~= kept_refs(ka, kb));
}

/// Shared refs, common nodes and removals against `x` depend only on
/// which refs `x` has.
pub proof fn lemma_same_refs(ka: Seq<NodeV>, x: Seq<NodeV>, y: Seq<NodeV>)
    requires
        forall|r: u32| has_ref(x, r) == has_ref(y, r),
    ensures
        kept_refs(ka, x) == kept_refs(ka, y),
        kept_nodes(ka, x) == kept_nodes(ka, y),
        crate::delta::diff::removes(ka, x) == crate::delta::diff::removes(ka, y),
    decreases ka.len(),
{
    if ka.len() > 0 {
        lemma_same_refs(ka.drop_first(), x, y);
        assert(has_ref(x, ka[0].r) == has_ref(y, ka[0].r));
        assert(kept_refs(ka, x) =~= kept_refs(ka, y));
        assert(kept_nodes(ka, x) =~= kept_nodes(ka, y));
        assert(crate::delta::diff::removes(ka, x) =~= crate::delta::diff::removes(ka, y));
    }
}

/// Children whose refs all occur in `ka` share them all, in order.
pub proof fn lemma_kept_refs_all(ks: Seq<NodeV>, ka: Seq<NodeV>)
    requires
        forall|t: int| 0 <= t < ks.len() ==> has_ref(ka, (#[trigger] ks[t]).r),
    ensures
        kept_refs(ks, ka) == ks.map_values(|n: NodeV| n.r),
    decreases ks.len(),
{
    if ks.len() > 0 {
        assert forall|t: int| 0 <= t < ks.drop_first().len() implies has_ref(ka, (#[trigger] ks.drop_first()[t]).r) by {
            assert(ks.drop_first()[t] == ks[t + 1]);
        }
        lemma_kept_refs_all(ks.drop_first(), ka);
        assert(has_ref(ka, ks[0].r));
        assert(kept_refs(ks, ka) =~= ks.map_values(|n: NodeV| n.r));
    } else {
        assert(kept_refs(ks, ka) =~= ks.map_values(|n: NodeV| n.r));
    }
}

/// Filling the common slots exactly (one node of `ks` per slot, each a
/// node whose ref occurs in `ka`) leaves the additions as they are, and
/// the shared refs of the result are those of `ks`.
pub proof fn lemma_arrange_exact(bs: Seq<NodeV>, ka: Seq<NodeV>, ks: Seq<NodeV>, off: int, p: u32)
    requires
        ks.len() == common_count(bs, ka),
        forall|t: int| 0 <= t < ks.len() ==> has_ref(ka, (#[trigger] ks[t]).r),
    ensures
        crate::delta::diff::adds(arrange(bs, ka, ks), off, ka, p) == crate::delta::diff::adds(bs, off, ka, p),
        kept_refs(arrange(bs, ka, ks), ka) == ks.map_values(|n: NodeV| n.r),
    decreases bs.len(),
{
    let t = bs.drop_first();
    if bs.len() == 0 {
        assert(ks.len() == 0);
        assert(ks =~= Seq::<NodeV>::empty());
        assert(kept_refs(ks, ka) =~= ks.map_values(|n: NodeV| n.r));
    } else {
        assert(kept_refs(bs, ka).len() == (if has_ref(ka, bs[0].r) { 1int } else { 0int }) + kept_refs(t, ka).len());
        if has_ref(ka, bs[0].r) {
            let k2 = ks.drop_first();
            assert forall|u: int| 0 <= u < k2.len() implies has_ref(ka, (#[trigger] k2[u]).r) by {
                assert(k2[u] == ks[u + 1]);
            }
            lemma_arrange_exact(t, ka, k2, off + 1, p);
            let r = arrange(bs, ka, ks);
            assert(r =~= seq![ks[0]] + arrange(t, ka, k2));
            assert(r[0] == ks[0]);
            assert(r.drop_first() =~= arrange(t, ka, k2));
            assert(has_ref(ka, ks[0].r));
            assert(kept_refs(r, ka) =~= seq![ks[0].r] + kept_refs(arrange(t, ka, k2), ka));
            assert(ks.map_values(|n: NodeV| n.r) =~= seq![ks[0].r] + k2.map_values(|n: NodeV| n.r));
        } else {
            lemma_arrange_exact(t, ka, ks, off + 1, p);
            let r = arrange(bs, ka, ks);
            assert(r =~= seq![bs[0]] + arrange(t, ka, ks));
            assert(r[0] == bs[0]);
            assert(r.drop_first() =~= arrange(t, ka, ks));
            assert(kept_refs(r, ka) =~= kept_refs(arrange(t, ka, ks), ka));
        }
    }
}

/// Where a level that settles stands before its moves: the target
/// children in another order, with the same refs; its common children
/// come in the order of the source, and its additions and removals are
/// those of the target.
pub proof fn lemma_settled_order(ka: Seq<NodeV>, kb: Seq<NodeV>, p: u32)
    requires
        distinct_refs(ka),
        distinct_refs(kb),
        moves_settle(ka, kb),
    ensures
        ({
            let kbp = in_a_order(ka, kb);
            &&& kbp.to_multiset() == kb.to_multiset()
            &&& kbp.len() == kb.len()
            &&& forall|x: NodeV| kbp.contains(x) <==> kb.contains(x)
            &&& forall|r: u32| has_ref(kbp, r) == has_ref(kb, r)
            &&& distinct_refs(kbp)
            &&& crate::delta::diff::adds(kbp, 0, ka, p) == crate::delta::diff::adds(kb, 0, ka, p)
            &&& crate::delta::diff::removes(ka, kbp) == crate::delta::diff::removes(ka, kb)
            &&& kept_nodes(ka, kbp) == kept_nodes(ka, kb)
            &&& kept_refs(kbp, ka) == kept_refs(ka, kbp)
            &&& old_kept(kbp, ka) == kept_nodes(ka, kb)
            &&& moves_settle(ka, kbp)
            &&& in_a_order(ka, kbp) == kbp
        }),
{
    let ks = old_kept(ka, kb);
    let kbp = in_a_order(ka, kb);
    lemma_run_moves_perm(kbp, moves(kb, 0, ka, kb, 0));
    assert(kbp.to_multiset() == kb.to_multiset());
    assert(kbp.len() == kb.len()) by {
        assert(kbp.to_multiset().len() == kb.to_multiset().len());
    }
    assert forall|x: NodeV| kbp.contains(x) <==> kb.contains(x) by {
        assert(kbp.to_multiset().count(x) == kb.to_multiset().count(x));
    }
    assert forall|r: u32| has_ref(kbp, r) == has_ref(kb, r) by {
        lemma_has_ref_iff(kbp, r);
        lemma_has_ref_iff(kb, r);
        if has_ref(kbp, r) {
            let j = choose|j: int| 0 <= j < kbp.len() && (#[trigger] kbp[j]).r == r;
            assert(kbp.contains(kbp[j]));
            let s = choose|s: int| 0 <= s < kb.len() && kb[s] == kbp[j];
            assert(kb[s].r == r);
        }
        if has_ref(kb, r) {
            let j = choose|j: int| 0 <= j < kb.len() && (#[trigger] kb[j]).r == r;
            assert(kb.contains(kb[j]));
            let s = choose|s: int| 0 <= s < kbp.len() && kbp[s] == kb[j];
            assert(kbp[s].r == r);
        }
    }
    assert(distinct_refs(kbp)) by {
        assert(kb.no_duplicates()) by {
            assert forall|i: int, j: int| 0 <= i < kb.len() && 0 <= j < kb.len() && i != j implies kb[i] != kb[j] by {
                if i < j {
                    assert(kb[i].r != kb[j].r);
                } else {
                    assert(kb[j].r != kb[i].r);
                }
            }
        }
        kb.lemma_multiset_has_no_duplicates();
        assert forall|x: NodeV| kbp.to_multiset().contains(x) implies kbp.to_multiset().count(x) == 1 by {
            assert(kb.to_multiset().contains(x));
        }
        kbp.lemma_multiset_has_no_duplicates_conv();
        assert forall|i: int, j: int| 0 <= i < j < kbp.len() implies (#[trigger] kbp[i]).r != (#[trigger] kbp[j]).r by {
            assert(kbp.contains(kbp[i]));
            assert(kbp.contains(kbp[j]));
            let s = choose|s: int| 0 <= s < kb.len() && kb[s] == kbp[i];
            let t = choose|t: int| 0 <= t < kb.len() && kb[t] == kbp[j];
            assert(kbp[i] != kbp[j]);
            assert(s != t);
            if s < t {
                assert(kb[s].r != kb[t].r);
            } else {
                assert(kb[t].r != kb[s].r);
            }
        }
    }
    lemma_old_kept_refs(ka, kb);
    lemma_arrange_len(kb, ka, ks);
    assert(ks.len() == common_count(kb, ka));
    lemma_arrange_exact(kb, ka, ks, 0, p);
    lemma_same_refs(ka, kbp, kb);
    assert(kept_refs(kbp, ka) == kept_refs(ka, kb)) by {
        assert(ks.map_values(|n: NodeV| n.r) == kept_refs(ka, kb));
    }
    lemma_old_kept_map(kbp, ka);
    assert(ka.skip(0) =~= ka);
    lemma_kept_nodes_suffix(ka, kb, 0);
    lemma_ordered_settles(ka, kbp);
}

/// Two children swapped settle: the moves put them back in the target's
/// order.
pub proof fn lemma_swap_settles(ka: Seq<NodeV>, kb: Seq<NodeV>)
    requires
        ka.len() == 2,
        kb.len() == 2,
        ka[0].r != ka[1].r,
        kb[0].r == ka[1].r,
        kb[1].r == ka[0].r,
    ensures
        moves_settle(ka, kb),
{
    let x = kb[1];
    let y = kb[0];
    assert(has_ref(ka, y.r)) by {
        lemma_has_ref_iff(ka, y.r);
        assert(ka[1].r == y.r);
    }
    assert(has_ref(ka, x.r)) by {
        lemma_has_ref_iff(ka, x.r);
        assert(ka[0].r == x.r);
    }
    assert(has_ref(kb, ka[0].r)) by {
        lemma_has_ref_iff(kb, ka[0].r);
    }
    assert(has_ref(kb, ka[1].r)) by {
        lemma_has_ref_iff(kb, ka[1].r);
    }
    reveal_with_fuel(kept_refs, 3);
    let kr = kept_refs(ka, kb);
    assert(ka.drop_first().drop_first() =~= Seq::<NodeV>::empty());
    assert(kr =~= seq![ka[0].r, ka[1].r]);
    let krb = kept_refs(kb, ka);
    assert(kb.drop_first().drop_first() =~= Seq::<NodeV>::empty());
    assert(krb =~= seq![kb[0].r, kb[1].r]);
    lemma_old_kept_map(ka, kb);
    lemma_node_of(kb, ka[0].r);
    lemma_node_of(kb, ka[1].r);
    assert(first_idx(kb, x.r, 0) == 1);
    assert(first_idx(kb, y.r, 0) == 0);
    let ks = old_kept(ka, kb);
    assert(ks =~= seq![x, y]);
    reveal_with_fuel(arrange, 3);
    assert(kb.drop_first()[0] == x);
    assert(ks.drop_first() =~= seq![y]);
    assert(arrange(kb.drop_first().drop_first(), ka, Seq::<NodeV>::empty()) =~= Seq::<NodeV>::empty());
    assert(arrange(kb.drop_first(), ka, seq![y]) =~= seq![y]);
    let l = in_a_order(ka, kb);
    assert(l =~= seq![x, y]);
    reveal_with_fuel(crate::delta::diff::kept_pos, 3);
    assert(crate::delta::diff::kept_pos(ka, kb, y.r) == 1);
    assert(crate::delta::diff::kept_pos(kb, ka, y.r) == 0);
    assert(crate::delta::diff::kept_pos(ka, kb, x.r) == 0);
    assert(crate::delta::diff::kept_pos(kb, ka, x.r) == 1);
    let m = moves(kb, 0, ka, kb, 0);
    reveal_with_fuel(moves, 3);
    assert(moves(kb.drop_first().drop_first(), 2, ka, kb, 0) =~= Seq::<DeltaOpV>::empty());
    assert(m =~= seq![
        DeltaOpV::Move { r: y.r, parent: 0, pos: Some(crate::delta::apply::sat_u32(0)) },
        DeltaOpV::Move { r: x.r, parent: 0, pos: Some(crate::delta::apply::sat_u32(1)) },
    ]);
    reveal_with_fuel(first_idx, 3);
    assert(l[0].r != y.r && l[1].r == y.r);
    assert(first_idx(l, y.r, 0) == 1);
    let l1 = seq![y, x];
    assert(move_one(l, y.r, Some(0u32)) == Some(l1)) by {
        assert(l.remove(1) =~= seq![x]);
        assert(seq![x].insert(0, y) =~= l1);
    }
    assert(l1[0].r != x.r && l1[1].r == x.r);
    assert(first_idx(l1, x.r, 0) == 1);
    assert(move_one(l1, x.r, Some(1u32)) == Some(l1)) by {
        assert(l1.remove(1) =~= seq![y]);
        assert(seq![y].insert(1, x) =~= l1);
    }
    reveal_with_fuel(run_moves, 3);
    assert(m.drop_first().drop_first() =~= Seq::<DeltaOpV>::empty());
    assert(l1 =~= kb);
}

} // verus!
