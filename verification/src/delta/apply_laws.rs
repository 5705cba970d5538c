//! Applying a diff reproduces its target, for nested trees.
//!
//! In a forest where every ref occurs once, each op of a delta acts at
//! the one place its ref names. This module proves that, and from it
//! that applying `diff(a, b)` to `a` gives `b` whenever the two forests
//! have unique refs, every node of `b` whose ref occurs in `a` hangs
//! under the node with the same parent ref in both, the moves of each
//! level put its common children, standing in the order of `a`, into the
//! order of `b` (as they do when that order is the same, or when two
//! children swap), and the nodes of `b` that are new carry refs that `a`
//! does not have.

use vstd::prelude::*;

use crate::delta::apply::{
    add_child_fn, apply_op_spec, apply_spec, clamp_pos, edit_node, edit_nodes, find_in_node, find_in_nodes,
    first_idx, insert_at_spec, lemma_first_idx, locate_in, locate_kids, locate_roots, locate_tree, sat_u32, take_each,
    take_sub, take_tree, with_attrs_fn,
};
use crate::delta::diff::{adds, diff_children_spec, diff_node_spec, diff_spec, has_ref, moves, node_diffs, removes};
use crate::delta::laws::distinct_refs;
use crate::delta::diff_parts::{
    kept_nodes, lemma_node_of, node_of,
    old_kept, old_node, old_nodes,
};
use crate::delta::reorder::{
    in_a_order, lemma_has_ref_iff, lemma_moves_are_moves, lemma_run_moves_parent, lemma_settled_order, move_one,
    moves_settle, run_moves,
};
use crate::delta::DeltaOpV;
use crate::error::ParseErrorView;
use crate::tree::NodeV;

verus! {

// ---------------------------------------------------------------------
// Membership.

/// True when `r` is the ref of `n` or of one of its descendants.
pub open spec fn inn(n: NodeV, r: u32) -> bool {
    find_in_node(n, r) is Some
}

/// True when `r` is the ref of a node of the forest `f`, at any depth.
pub open spec fn inf(f: Seq<NodeV>, r: u32) -> bool {
    find_in_nodes(f, r) is Some
}

/// A ref is in a forest exactly when it is in one of its trees.
pub proof fn lemma_inf_exists(f: Seq<NodeV>, r: u32)
    ensures
        inf(f, r) <==> exists|j: int| 0 <= j < f.len() && #[trigger] inn(f[j], r),
    decreases f.len(),
{
    if f.len() > 0 {
        let t = f.drop_first();
        lemma_inf_exists(t, r);
        if !inn(f[0], r) {
            if inf(t, r) {
                let j = choose|j: int| 0 <= j < t.len() && #[trigger] inn(t[j], r);
                assert(t[j] == f[j + 1]);
                assert(inn(f[j + 1], r));
            }
            if exists|j: int| 0 <= j < f.len() && #[trigger] inn(f[j], r) {
                let j = choose|j: int| 0 <= j < f.len() && #[trigger] inn(f[j], r);
                assert(j != 0);
                assert(t[j - 1] == f[j]);
                assert(inn(t[j - 1], r));
            }
        } else {
            assert(inn(f[0], r));
        }
    }
}

/// A ref is in a tree of a forest, hence in the forest.
pub proof fn lemma_inf_at(f: Seq<NodeV>, r: u32, j: int)
    requires
        0 <= j < f.len(),
        inn(f[j], r),
    ensures
        inf(f, r),
{
    lemma_inf_exists(f, r);
}

/// A ref in no tree of a forest is not in the forest.
pub proof fn lemma_not_inf(f: Seq<NodeV>, r: u32)
    requires
        forall|j: int| 0 <= j < f.len() ==> !inn(#[trigger] f[j], r),
    ensures
        !inf(f, r),
{
    lemma_inf_exists(f, r);
}

/// What is found under ref `r` has ref `r`, and its refs are refs of
/// where it was found.
pub proof fn lemma_found_node(n: NodeV, r: u32)
    requires
        inn(n, r),
    ensures
        find_in_node(n, r)->Some_0.r == r,
        forall|q: u32| inn(find_in_node(n, r)->Some_0, q) ==> inn(n, q),
    decreases n, 0nat,
{
    if n.r != r {
        lemma_found_nodes(n.children, r);
        assert forall|q: u32| inn(find_in_node(n, r)->Some_0, q) implies inn(n, q) by {
            if n.r != q {
                assert(inf(n.children, q));
            }
        }
    }
}

pub proof fn lemma_found_nodes(f: Seq<NodeV>, r: u32)
    requires
        inf(f, r),
    ensures
        find_in_nodes(f, r)->Some_0.r == r,
        forall|q: u32| inn(find_in_nodes(f, r)->Some_0, q) ==> inf(f, q),
    decreases f, 1nat,
{
    if inn(f[0], r) {
        lemma_found_node(f[0], r);
        assert forall|q: u32| inn(find_in_nodes(f, r)->Some_0, q) implies inf(f, q) by {
            lemma_inf_at(f, q, 0);
        }
    } else {
        let t = f.drop_first();
        lemma_found_nodes(t, r);
        assert forall|q: u32| inn(find_in_nodes(f, r)->Some_0, q) implies inf(f, q) by {
            lemma_inf_exists(t, q);
            let j = choose|j: int| 0 <= j < t.len() && #[trigger] inn(t[j], q);
            assert(t[j] == f[j + 1]);
            lemma_inf_at(f, q, j + 1);
        }
    }
}

// ---------------------------------------------------------------------
// Unique refs.

/// True when no ref of `x` is a ref of `y`.
pub open spec fn disjoint_nodes(x: NodeV, y: NodeV) -> bool {
    forall|r: u32| inn(x, r) ==> !inn(y, r)
}

/// True when every ref occurs once in the tree `n`.
pub open spec fn uniq_node(n: NodeV) -> bool
    decreases n, 1nat,
{
    !inf(n.children, n.r) && uniq_forest(n.children)
}

/// True when every ref occurs once in the forest `f`.
pub open spec fn uniq_forest(f: Seq<NodeV>) -> bool
    decreases f, 0nat,
{
    if f.len() == 0 {
        true
    } else {
        uniq_node(f[0]) && uniq_forest(f.drop_first()) && (forall|r: u32| inn(f[0], r) ==> !inf(f.drop_first(), r))
    }
}

/// Every tree of `f` has unique refs.
pub open spec fn all_uniq(f: Seq<NodeV>) -> bool {
    forall|j: int| 0 <= j < f.len() ==> uniq_node(#[trigger] f[j])
}

/// The trees of `f` share no ref.
pub open spec fn pw_disjoint(f: Seq<NodeV>) -> bool {
    forall|i: int, j: int| 0 <= i < f.len() && 0 <= j < f.len() && i != j ==> disjoint_nodes(#[trigger] f[i], #[trigger] f[j])
}

/// A forest has unique refs exactly when its trees do and share none.
pub proof fn lemma_uniq_forest(f: Seq<NodeV>)
    ensures
        uniq_forest(f) <==> all_uniq(f) && pw_disjoint(f),
    decreases f.len(),
{
    if f.len() > 0 {
        let t = f.drop_first();
        lemma_uniq_forest(t);
        if uniq_forest(f) {
            assert forall|j: int| 0 <= j < f.len() implies uniq_node(#[trigger] f[j]) by {
                if j > 0 {
                    assert(t[j - 1] == f[j]);
                }
            }
            assert forall|i: int, j: int| 0 <= i < f.len() && 0 <= j < f.len() && i != j implies disjoint_nodes(
                #[trigger] f[i],
                #[trigger] f[j],
            ) by {
                if i > 0 && j > 0 {
                    assert(t[i - 1] == f[i]);
                    assert(t[j - 1] == f[j]);
                } else if i == 0 {
                    assert(t[j - 1] == f[j]);
                    assert forall|r: u32| inn(f[i], r) implies !inn(f[j], r) by {
                        if inn(f[j], r) {
                            lemma_inf_at(t, r, j - 1);
                        }
                    }
                } else {
                    assert(t[i - 1] == f[i]);
                    assert forall|r: u32| inn(f[i], r) implies !inn(f[j], r) by {
                        if inn(f[j], r) {
                            lemma_inf_at(t, r, i - 1);
                        }
                    }
                }
            }
        }
        if all_uniq(f) && pw_disjoint(f) {
            assert forall|j: int| 0 <= j < t.len() implies uniq_node(#[trigger] t[j]) by {
                assert(t[j] == f[j + 1]);
            }
            assert forall|i: int, j: int| 0 <= i < t.len() && 0 <= j < t.len() && i != j implies disjoint_nodes(
                #[trigger] t[i],
                #[trigger] t[j],
            ) by {
                assert(t[i] == f[i + 1]);
                assert(t[j] == f[j + 1]);
            }
            assert(uniq_node(f[0]));
            assert forall|r: u32| inn(f[0], r) implies !inf(t, r) by {
                assert forall|j: int| 0 <= j < t.len() implies !inn(#[trigger] t[j], r) by {
                    assert(t[j] == f[j + 1]);
                    assert(disjoint_nodes(f[0], f[j + 1]));
                }
                lemma_not_inf(t, r);
            }
        }
    }
}

/// In a forest with unique refs, the node found under a ref is the one
/// found in the tree that has the ref.
pub proof fn lemma_find_in_tree(f: Seq<NodeV>, r: u32, j: int)
    requires
        uniq_forest(f),
        0 <= j < f.len(),
        inn(f[j], r),
    ensures
        find_in_nodes(f, r) == find_in_node(f[j], r),
    decreases j,
{
    lemma_uniq_forest(f);
    if j > 0 {
        assert(disjoint_nodes(f[j], f[0]));
        let t = f.drop_first();
        assert(t[j - 1] == f[j]);
        lemma_uniq_forest(t);
        assert forall|i: int| 0 <= i < t.len() implies uniq_node(#[trigger] t[i]) by {
            assert(t[i] == f[i + 1]);
        }
        assert forall|a: int, b: int| 0 <= a < t.len() && 0 <= b < t.len() && a != b implies disjoint_nodes(
            #[trigger] t[a],
            #[trigger] t[b],
        ) by {
            assert(t[a] == f[a + 1]);
            assert(t[b] == f[b + 1]);
        }
        lemma_find_in_tree(t, r, j - 1);
    }
}

// ---------------------------------------------------------------------
// Editing one node in place.

/// The function that sets a node to `y`.
pub open spec fn const_fn(y: NodeV) -> spec_fn(NodeV) -> NodeV {
    |n: NodeV| y
}

/// Editing finds exactly the refs that are there.
pub proof fn lemma_edit_some(n: NodeV, r: u32, g: spec_fn(NodeV) -> NodeV)
    ensures
        (edit_node(n, r, g) is Some) == inn(n, r),
    decreases n, 0nat,
{
    if n.r != r {
        lemma_edits_some(n.children, r, g);
    }
}

pub proof fn lemma_edits_some(f: Seq<NodeV>, r: u32, g: spec_fn(NodeV) -> NodeV)
    ensures
        (edit_nodes(f, r, g) is Some) == inf(f, r),
    decreases f, 1nat,
{
    if f.len() > 0 {
        lemma_edit_some(f[0], r, g);
        lemma_edits_some(f.drop_first(), r, g);
    }
}

/// In a forest with unique refs, an edit at `r` edits the tree that has
/// `r` and leaves the others.
pub proof fn lemma_edits_at(f: Seq<NodeV>, r: u32, g: spec_fn(NodeV) -> NodeV, j: int)
    requires
        uniq_forest(f),
        0 <= j < f.len(),
        inn(f[j], r),
    ensures
        edit_nodes(f, r, g) == Some(f.update(j, edit_node(f[j], r, g)->Some_0)),
    decreases j,
{
    lemma_uniq_forest(f);
    lemma_edit_some(f[j], r, g);
    if j == 0 {
    } else {
        assert(disjoint_nodes(f[j], f[0]));
        lemma_edit_some(f[0], r, g);
        let t = f.drop_first();
        assert(t[j - 1] == f[j]);
        lemma_uniq_forest(t);
        assert forall|i: int| 0 <= i < t.len() implies uniq_node(#[trigger] t[i]) by {
            assert(t[i] == f[i + 1]);
        }
        assert forall|a: int, b: int| 0 <= a < t.len() && 0 <= b < t.len() && a != b implies disjoint_nodes(
            #[trigger] t[a],
            #[trigger] t[b],
        ) by {
            assert(t[a] == f[a + 1]);
            assert(t[b] == f[b + 1]);
        }
        lemma_edits_at(t, r, g, j - 1);
        assert(seq![f[0]] + t.update(j - 1, edit_node(f[j], r, g)->Some_0) =~= f.update(
            j,
            edit_node(f[j], r, g)->Some_0,
        ));
    }
}


/// Replacing one tree of a forest with unique refs by a tree whose refs
/// are either its own or new to the forest keeps the refs unique, and
/// the forest then has the refs of the other trees and of the new one.
pub proof fn lemma_update_tree(f: Seq<NodeV>, j: int, x: NodeV)
    requires
        uniq_forest(f),
        0 <= j < f.len(),
        uniq_node(x),
        forall|q: u32| inn(x, q) ==> inn(f[j], q) || !inf(f, q),
    ensures
        uniq_forest(f.update(j, x)),
        forall|q: u32| inf(f.update(j, x), q) <==> (inf(f, q) && !inn(f[j], q)) || inn(x, q),
{
    let g = f.update(j, x);
    lemma_uniq_forest(f);
    assert forall|q: u32| inf(g, q) <==> (inf(f, q) && !inn(f[j], q)) || inn(x, q) by {
        lemma_inf_exists(f, q);
        lemma_inf_exists(g, q);
        if inf(g, q) {
            let k = choose|k: int| 0 <= k < g.len() && #[trigger] inn(g[k], q);
            if k != j {
                assert(g[k] == f[k]);
                lemma_inf_at(f, q, k);
                assert(disjoint_nodes(f[k], f[j]));
            }
        }
        if inf(f, q) && !inn(f[j], q) {
            let k = choose|k: int| 0 <= k < f.len() && #[trigger] inn(f[k], q);
            assert(k != j);
            assert(g[k] == f[k]);
            lemma_inf_at(g, q, k);
        }
        if inn(x, q) {
            assert(g[j] == x);
            lemma_inf_at(g, q, j);
        }
    }
    assert forall|k: int| 0 <= k < g.len() implies uniq_node(#[trigger] g[k]) by {
        if k != j {
            assert(g[k] == f[k]);
        }
    }
    assert forall|a: int, b: int| 0 <= a < g.len() && 0 <= b < g.len() && a != b implies disjoint_nodes(
        #[trigger] g[a],
        #[trigger] g[b],
    ) by {
        if a != j && b != j {
            assert(g[a] == f[a]);
            assert(g[b] == f[b]);
            assert(disjoint_nodes(f[a], f[b]));
        } else if a == j {
            assert(g[b] == f[b]);
            assert forall|q: u32| inn(g[a], q) implies !inn(g[b], q) by {
                assert(disjoint_nodes(f[j], f[b]));
                if inn(f[b], q) {
                    lemma_inf_at(f, q, b);
                }
            }
        } else {
            assert(g[a] == f[a]);
            assert forall|q: u32| inn(g[a], q) implies !inn(g[b], q) by {
                assert(disjoint_nodes(f[a], f[j]));
                lemma_inf_at(f, q, a);
            }
        }
    }
    lemma_uniq_forest(g);
}

/// Setting the node of ref `p` in a tree with unique refs to a tree `y`
/// with ref `p`, unique refs, and no ref found elsewhere in the tree,
/// gives a tree with unique refs and the refs of `y` in place of those
/// of the old node.
pub proof fn lemma_set_node(n: NodeV, p: u32, y: NodeV)
    requires
        uniq_node(n),
        inn(n, p),
        y.r == p,
        uniq_node(y),
        forall|q: u32| inn(y, q) ==> !(inn(n, q) && !inn(find_in_node(n, p)->Some_0, q)),
    ensures
        edit_node(n, p, const_fn(y)) is Some,
        edit_node(n, p, const_fn(y))->Some_0.r == n.r,
        uniq_node(edit_node(n, p, const_fn(y))->Some_0),
        forall|q: u32| inn(edit_node(n, p, const_fn(y))->Some_0, q) <==> (inn(n, q) && !inn(
            find_in_node(n, p)->Some_0,
            q,
        )) || inn(y, q),
    decreases n, 0nat,
{
    if n.r != p {
        let old = find_in_node(n, p)->Some_0;
        lemma_set_nodes(n.children, p, y);
        let c2 = edit_nodes(n.children, p, const_fn(y))->Some_0;
        let n2 = edit_node(n, p, const_fn(y))->Some_0;
        assert(n2 == NodeV { children: c2, ..n });
        assert(find_in_node(n, p) == find_in_nodes(n.children, p));
        assert forall|q: u32| inn(n2, q) <==> (inn(n, q) && !inn(old, q)) || inn(y, q) by {
            if q == n.r {
                lemma_found_nodes(n.children, p);
                assert(!inn(old, q));
                if inn(y, q) {
                    assert(inn(n, q));
                }
            }
        }
        assert(!inf(c2, n.r)) by {
            lemma_found_nodes(n.children, p);
            if inn(y, n.r) {
                assert(inn(n, n.r));
            }
        }
    }
}

/// [`lemma_set_node`] for a forest.
pub proof fn lemma_set_nodes(f: Seq<NodeV>, p: u32, y: NodeV)
    requires
        uniq_forest(f),
        inf(f, p),
        y.r == p,
        uniq_node(y),
        forall|q: u32| inn(y, q) ==> !(inf(f, q) && !inn(find_in_nodes(f, p)->Some_0, q)),
    ensures
        edit_nodes(f, p, const_fn(y)) is Some,
        edit_nodes(f, p, const_fn(y))->Some_0.len() == f.len(),
        uniq_forest(edit_nodes(f, p, const_fn(y))->Some_0),
        forall|q: u32| inf(edit_nodes(f, p, const_fn(y))->Some_0, q) <==> (inf(f, q) && !inn(
            find_in_nodes(f, p)->Some_0,
            q,
        )) || inn(y, q),
    decreases f, 1nat,
{
    lemma_inf_exists(f, p);
    let j = choose|j: int| 0 <= j < f.len() && #[trigger] inn(f[j], p);
    lemma_uniq_forest(f);
    lemma_find_in_tree(f, p, j);
    lemma_edits_at(f, p, const_fn(y), j);
    let old = find_in_nodes(f, p)->Some_0;
    assert forall|q: u32| inn(y, q) implies !(inn(f[j], q) && !inn(find_in_node(f[j], p)->Some_0, q)) by {
        if inn(f[j], q) {
            lemma_inf_at(f, q, j);
        }
    }
    assert(decreases_to!(f => f[j]));
    lemma_set_node(f[j], p, y);
    let x = edit_node(f[j], p, const_fn(y))->Some_0;
    lemma_found_node(f[j], p);
    assert forall|q: u32| inn(x, q) implies inn(f[j], q) || !inf(f, q) by {}
    lemma_update_tree(f, j, x);
    let g = edit_nodes(f, p, const_fn(y))->Some_0;
    assert forall|q: u32| inf(g, q) <==> (inf(f, q) && !inn(old, q)) || inn(y, q) by {
        if inn(f[j], q) {
            lemma_inf_at(f, q, j);
        }
    }
}


/// After setting the node of ref `p` to `y`, what is found under a ref
/// of `y` is what `y` holds under it.
pub proof fn lemma_find_after_set(n: NodeV, p: u32, y: NodeV, q: u32)
    requires
        uniq_node(n),
        inn(n, p),
        y.r == p,
        uniq_node(y),
        forall|q2: u32| inn(y, q2) ==> !(inn(n, q2) && !inn(find_in_node(n, p)->Some_0, q2)),
        inn(y, q),
    ensures
        find_in_node(edit_node(n, p, const_fn(y))->Some_0, q) == find_in_node(y, q),
    decreases n, 0nat,
{
    lemma_set_node(n, p, y);
    if n.r != p {
        lemma_set_nodes(n.children, p, y);
        lemma_finds_after_set(n.children, p, y, q);
        assert(q != n.r) by {
            lemma_found_nodes(n.children, p);
        }
    }
}

/// [`lemma_find_after_set`] for a forest.
pub proof fn lemma_finds_after_set(f: Seq<NodeV>, p: u32, y: NodeV, q: u32)
    requires
        uniq_forest(f),
        inf(f, p),
        y.r == p,
        uniq_node(y),
        forall|q2: u32| inn(y, q2) ==> !(inf(f, q2) && !inn(find_in_nodes(f, p)->Some_0, q2)),
        inn(y, q),
    ensures
        find_in_nodes(edit_nodes(f, p, const_fn(y))->Some_0, q) == find_in_node(y, q),
    decreases f, 1nat,
{
    lemma_inf_exists(f, p);
    let j = choose|j: int| 0 <= j < f.len() && #[trigger] inn(f[j], p);
    lemma_uniq_forest(f);
    lemma_find_in_tree(f, p, j);
    lemma_edits_at(f, p, const_fn(y), j);
    assert forall|q2: u32| inn(y, q2) implies !(inn(f[j], q2) && !inn(find_in_node(f[j], p)->Some_0, q2)) by {
        if inn(f[j], q2) {
            lemma_inf_at(f, q2, j);
        }
    }
    assert(decreases_to!(f => f[j]));
    lemma_set_node(f[j], p, y);
    lemma_find_after_set(f[j], p, y, q);
    lemma_set_nodes(f, p, y);
    let g = edit_nodes(f, p, const_fn(y))->Some_0;
    assert(g[j] == edit_node(f[j], p, const_fn(y))->Some_0);
    lemma_find_in_tree(g, q, j);
}


// ---------------------------------------------------------------------
// Locating and taking out a node below the root.

proof fn lemma_locate_none(m: NodeV, c: u32)
    requires
        !inn(m, c),
    ensures
        locate_in(m, c) is None,
    decreases m, 0nat,
{
    lemma_locate_kids_none(m.r, m.children, 0, c);
}

proof fn lemma_locate_kids_none(pr: u32, cs: Seq<NodeV>, off: int, c: u32)
    requires
        !inf(cs, c),
    ensures
        locate_kids(pr, cs, off, c) is None,
    decreases cs, 1nat,
{
    if cs.len() > 0 {
        assert(!inn(cs[0], c));
        assert(cs[0].r != c);
        assert(!inf(cs.drop_first(), c));
        lemma_locate_none(cs[0], c);
        lemma_locate_kids_none(pr, cs.drop_first(), off + 1, c);
    }
}

proof fn lemma_take_none(m: NodeV, c: u32)
    requires
        !inn(m, c),
    ensures
        take_sub(m, c) is None,
    decreases m, 0nat,
{
    lemma_first_idx(m.children, c, 0);
    let i = first_idx(m.children, c, 0);
    if 0 <= i < m.children.len() {
        lemma_inf_at(m.children, c, i);
    }
    lemma_take_each_none(m.children, c);
}

proof fn lemma_take_each_none(cs: Seq<NodeV>, c: u32)
    requires
        !inf(cs, c),
    ensures
        take_each(cs, c) is None,
    decreases cs, 1nat,
{
    if cs.len() > 0 {
        lemma_take_none(cs[0], c);
        lemma_take_each_none(cs.drop_first(), c);
    }
}

/// The parent ref and position `locate_in` reports for `c` below `n`.
pub open spec fn parent_of(n: NodeV, c: u32) -> u32 {
    locate_in(n, c)->Some_0.0
}

/// The node under which `c` hangs, below `n`.
pub open spec fn parent_node(n: NodeV, c: u32) -> NodeV {
    find_in_node(n, parent_of(n, c))->Some_0
}

/// The position of `c` among the children of its parent, below `n`.
pub open spec fn child_index(n: NodeV, c: u32) -> int {
    first_idx(parent_node(n, c).children, c, 0)
}

/// `x` without its child at position `i`.
pub open spec fn without_child(x: NodeV, i: int) -> NodeV {
    NodeV { children: x.children.remove(i), ..x }
}

/// In a tree with unique refs, a ref strictly below the root hangs under
/// the node `locate_in` names, at the position it reports, and taking
/// the ref out removes that child from that node.
pub proof fn lemma_below(n: NodeV, c: u32)
    requires
        uniq_node(n),
        inn(n, c),
        c != n.r,
    ensures
        locate_in(n, c) is Some,
        inn(n, parent_of(n, c)),
        0 <= child_index(n, c) < parent_node(n, c).children.len(),
        parent_node(n, c).children[child_index(n, c)].r == c,
        locate_in(n, c)->Some_0.1 == sat_u32(child_index(n, c)),
        take_sub(n, c) == Some(
            (
                edit_node(n, parent_of(n, c), const_fn(without_child(parent_node(n, c), child_index(n, c))))->Some_0,
                parent_node(n, c).children[child_index(n, c)],
            ),
        ),
    decreases n,
{
    let cs = n.children;
    lemma_uniq_forest(cs);
    lemma_first_idx(cs, c, 0);
    let i0 = first_idx(cs, c, 0);
    assert(inf(cs, c));
    lemma_inf_exists(cs, c);
    let j = choose|j: int| 0 <= j < cs.len() && #[trigger] inn(cs[j], c);
    if 0 <= i0 < cs.len() {
        // A child of the root.
        assert(i0 == j) by {
            if i0 != j {
                assert(inn(cs[i0], c));
                assert(disjoint_nodes(cs[i0], cs[j]));
            }
        }
        lemma_locate_kids_at(n.r, cs, 0, c, j);
        assert(parent_of(n, c) == n.r);
        assert(parent_node(n, c) == n);
        assert(child_index(n, c) == i0);
    } else {
        // Below the child `j`.
        assert(cs[j].r != c);
        assert(decreases_to!(n => n.children));
        assert(decreases_to!(n.children => n.children[j]));
        lemma_below(cs[j], c);
        lemma_locate_kids_in(n.r, cs, 0, c, j);
        let p = parent_of(cs[j], c);
        assert(parent_of(n, c) == p);
        assert(p != n.r) by {
            lemma_inf_at(cs, p, j);
        }
        lemma_find_in_tree(cs, p, j);
        assert(parent_node(n, c) == parent_node(cs[j], c));
        lemma_take_each_at(cs, c, j);
        let y = without_child(parent_node(n, c), child_index(n, c));
        lemma_edits_at(cs, p, const_fn(y), j);
    }
}

proof fn lemma_locate_kids_at(pr: u32, cs: Seq<NodeV>, off: int, c: u32, j: int)
    requires
        uniq_forest(cs),
        0 <= j < cs.len(),
        cs[j].r == c,
    ensures
        locate_kids(pr, cs, off, c) == Some((pr, sat_u32(off + j))),
    decreases j,
{
    lemma_uniq_forest(cs);
    if j > 0 {
        assert(disjoint_nodes(cs[j], cs[0]));
        assert(inn(cs[j], c));
        lemma_locate_none(cs[0], c);
        let t = cs.drop_first();
        assert(t[j - 1] == cs[j]);
        lemma_uniq_forest(t);
        assert forall|a: int| 0 <= a < t.len() implies uniq_node(#[trigger] t[a]) by {
            assert(t[a] == cs[a + 1]);
        }
        assert forall|a: int, b: int| 0 <= a < t.len() && 0 <= b < t.len() && a != b implies disjoint_nodes(
            #[trigger] t[a],
            #[trigger] t[b],
        ) by {
            assert(t[a] == cs[a + 1]);
            assert(t[b] == cs[b + 1]);
        }
        lemma_locate_kids_at(pr, t, off + 1, c, j - 1);
    }
}

proof fn lemma_locate_kids_in(pr: u32, cs: Seq<NodeV>, off: int, c: u32, j: int)
    requires
        uniq_forest(cs),
        0 <= j < cs.len(),
        inn(cs[j], c),
        forall|k: int| 0 <= k < cs.len() ==> (#[trigger] cs[k]).r != c,
        locate_in(cs[j], c) is Some,
    ensures
        locate_kids(pr, cs, off, c) == locate_in(cs[j], c),
    decreases j,
{
    lemma_uniq_forest(cs);
    if j > 0 {
        assert(disjoint_nodes(cs[j], cs[0]));
        lemma_locate_none(cs[0], c);
        let t = cs.drop_first();
        assert(t[j - 1] == cs[j]);
        lemma_uniq_forest(t);
        assert forall|a: int| 0 <= a < t.len() implies uniq_node(#[trigger] t[a]) by {
            assert(t[a] == cs[a + 1]);
        }
        assert forall|a: int, b: int| 0 <= a < t.len() && 0 <= b < t.len() && a != b implies disjoint_nodes(
            #[trigger] t[a],
            #[trigger] t[b],
        ) by {
            assert(t[a] == cs[a + 1]);
            assert(t[b] == cs[b + 1]);
        }
        assert forall|k: int| 0 <= k < t.len() implies (#[trigger] t[k]).r != c by {
            assert(t[k] == cs[k + 1]);
        }
        lemma_locate_kids_in(pr, t, off + 1, c, j - 1);
    } else {
        assert(cs[0].r != c);
    }
}

proof fn lemma_take_each_at(cs: Seq<NodeV>, c: u32, j: int)
    requires
        uniq_forest(cs),
        0 <= j < cs.len(),
        inn(cs[j], c),
        take_sub(cs[j], c) is Some,
    ensures
        take_each(cs, c) == Some((cs.update(j, take_sub(cs[j], c)->Some_0.0), take_sub(cs[j], c)->Some_0.1)),
    decreases j,
{
    lemma_uniq_forest(cs);
    if j > 0 {
        assert(disjoint_nodes(cs[j], cs[0]));
        lemma_take_none(cs[0], c);
        let t = cs.drop_first();
        assert(t[j - 1] == cs[j]);
        lemma_uniq_forest(t);
        assert forall|a: int| 0 <= a < t.len() implies uniq_node(#[trigger] t[a]) by {
            assert(t[a] == cs[a + 1]);
        }
        assert forall|a: int, b: int| 0 <= a < t.len() && 0 <= b < t.len() && a != b implies disjoint_nodes(
            #[trigger] t[a],
            #[trigger] t[b],
        ) by {
            assert(t[a] == cs[a + 1]);
            assert(t[b] == cs[b + 1]);
        }
        lemma_take_each_at(t, c, j - 1);
        assert(seq![cs[0]] + t.update(j - 1, take_sub(cs[j], c)->Some_0.0) =~= cs.update(
            j,
            take_sub(cs[j], c)->Some_0.0,
        ));
    }
}


// ---------------------------------------------------------------------
// Edits as settings, and their composition.

/// In a tree with unique refs, an edit at `p` sets the node of `p` to
/// the edit of the node found there.
pub proof fn lemma_edit_as_set(n: NodeV, p: u32, g: spec_fn(NodeV) -> NodeV)
    requires
        uniq_node(n),
        inn(n, p),
    ensures
        edit_node(n, p, g) == edit_node(n, p, const_fn(g(find_in_node(n, p)->Some_0))),
    decreases n, 0nat,
{
    if n.r != p {
        lemma_edits_as_set(n.children, p, g);
    }
}

/// [`lemma_edit_as_set`] for a forest.
pub proof fn lemma_edits_as_set(f: Seq<NodeV>, p: u32, g: spec_fn(NodeV) -> NodeV)
    requires
        uniq_forest(f),
        inf(f, p),
    ensures
        edit_nodes(f, p, g) == edit_nodes(f, p, const_fn(g(find_in_nodes(f, p)->Some_0))),
    decreases f, 1nat,
{
    lemma_inf_exists(f, p);
    let j = choose|j: int| 0 <= j < f.len() && #[trigger] inn(f[j], p);
    lemma_uniq_forest(f);
    lemma_find_in_tree(f, p, j);
    let y = g(find_in_nodes(f, p)->Some_0);
    lemma_edits_at(f, p, g, j);
    lemma_edits_at(f, p, const_fn(y), j);
    assert(decreases_to!(f => f[j]));
    lemma_edit_as_set(f[j], p, g);
}

/// Setting a node twice is setting it to the second value.
pub proof fn lemma_set_twice(n: NodeV, p: u32, y: NodeV, z: NodeV)
    requires
        uniq_node(n),
        inn(n, p),
        y.r == p,
        uniq_node(y),
        forall|q: u32| inn(y, q) ==> !(inn(n, q) && !inn(find_in_node(n, p)->Some_0, q)),
    ensures
        edit_node(edit_node(n, p, const_fn(y))->Some_0, p, const_fn(z)) == edit_node(n, p, const_fn(z)),
    decreases n, 0nat,
{
    if n.r != p {
        lemma_sets_twice(n.children, p, y, z);
        lemma_set_nodes(n.children, p, y);
    }
}

/// [`lemma_set_twice`] for a forest.
pub proof fn lemma_sets_twice(f: Seq<NodeV>, p: u32, y: NodeV, z: NodeV)
    requires
        uniq_forest(f),
        inf(f, p),
        y.r == p,
        uniq_node(y),
        forall|q: u32| inn(y, q) ==> !(inf(f, q) && !inn(find_in_nodes(f, p)->Some_0, q)),
    ensures
        edit_nodes(edit_nodes(f, p, const_fn(y))->Some_0, p, const_fn(z)) == edit_nodes(f, p, const_fn(z)),
    decreases f, 1nat,
{
    lemma_inf_exists(f, p);
    let j = choose|j: int| 0 <= j < f.len() && #[trigger] inn(f[j], p);
    lemma_uniq_forest(f);
    lemma_find_in_tree(f, p, j);
    lemma_edits_at(f, p, const_fn(y), j);
    lemma_edits_at(f, p, const_fn(z), j);
    assert forall|q: u32| inn(y, q) implies !(inn(f[j], q) && !inn(find_in_node(f[j], p)->Some_0, q)) by {
        if inn(f[j], q) {
            lemma_inf_at(f, q, j);
        }
    }
    assert(decreases_to!(f => f[j]));
    lemma_set_node(f[j], p, y);
    lemma_set_twice(f[j], p, y, z);
    lemma_set_nodes(f, p, y);
    let g = edit_nodes(f, p, const_fn(y))->Some_0;
    let x = edit_node(f[j], p, const_fn(y))->Some_0;
    assert(g[j] == x);
    assert(inn(y, p));
    assert(inn(x, p));
    lemma_edits_at(g, p, const_fn(z), j);
    assert(g.update(j, edit_node(x, p, const_fn(z))->Some_0) =~= f.update(j, edit_node(f[j], p, const_fn(z))->Some_0));
}

/// `x` with its child at position `i` set to `y`.
pub open spec fn with_child(x: NodeV, i: int, y: NodeV) -> NodeV {
    NodeV { children: x.children.update(i, y), ..x }
}

/// In a tree with unique refs, setting the node of a child is setting
/// its parent with that child changed.
pub proof fn lemma_set_child(n: NodeV, p: u32, i: int, y: NodeV)
    requires
        uniq_node(n),
        inn(n, p),
        0 <= i < find_in_node(n, p)->Some_0.children.len(),
        y.r == find_in_node(n, p)->Some_0.children[i].r,
    ensures
        edit_node(n, find_in_node(n, p)->Some_0.children[i].r, const_fn(y)) == edit_node(
            n,
            p,
            const_fn(with_child(find_in_node(n, p)->Some_0, i, y)),
        ),
    decreases n, 0nat,
{
    let np = find_in_node(n, p)->Some_0;
    let c = np.children[i].r;
    lemma_found_node(n, p);
    lemma_uniq_forest(n.children);
    if n.r == p {
        assert(np == n);
        assert(inn(n.children[i], c));
        lemma_edits_at(n.children, c, const_fn(y), i);
        assert(c != n.r) by {
            lemma_inf_at(n.children, c, i);
        }
        assert(n.children.update(i, y) =~= n.children.update(i, edit_node(n.children[i], c, const_fn(y))->Some_0));
    } else {
        lemma_inf_exists(n.children, p);
        let j = choose|j: int| 0 <= j < n.children.len() && #[trigger] inn(n.children[j], p);
        lemma_find_in_tree(n.children, p, j);
        lemma_found_node(n.children[j], p);
        assert(inn(np, c)) by {
            lemma_inf_at(np.children, c, i);
        }
        assert(inn(n.children[j], c));
        assert(c != n.r) by {
            lemma_inf_at(n.children, c, j);
        }
        assert(decreases_to!(n => n.children));
        assert(decreases_to!(n.children => n.children[j]));
        lemma_set_child(n.children[j], p, i, y);
        lemma_edits_at(n.children, c, const_fn(y), j);
        lemma_edits_at(n.children, p, const_fn(with_child(np, i, y)), j);
    }
}


/// In a forest with unique refs the refs of the roots are distinct, so a
/// root's ref is first found at its own position.
pub proof fn lemma_root_first(f: Seq<NodeV>, i: int)
    requires
        uniq_forest(f),
        0 <= i < f.len(),
    ensures
        first_idx(f, f[i].r, 0) == i,
{
    lemma_uniq_forest(f);
    lemma_first_idx(f, f[i].r, 0);
    let k = first_idx(f, f[i].r, 0);
    if k != i {
        assert(f[k].r == f[i].r);
        assert(inn(f[k], f[i].r));
        assert(inn(f[i], f[i].r));
        assert(disjoint_nodes(f[k], f[i]));
    }
}

/// In a tree with unique refs, the child at position `i` of the node of
/// `p` hangs under `p` at `i` as far as `locate_in` and `take_sub` see.
pub proof fn lemma_parent_is(n: NodeV, p: u32, i: int)
    requires
        uniq_node(n),
        inn(n, p),
        0 <= i < find_in_node(n, p)->Some_0.children.len(),
    ensures
        find_in_node(n, p)->Some_0.children[i].r != n.r,
        inn(n, find_in_node(n, p)->Some_0.children[i].r),
        parent_of(n, find_in_node(n, p)->Some_0.children[i].r) == p,
        child_index(n, find_in_node(n, p)->Some_0.children[i].r) == i,
    decreases n, 0nat,
{
    let np = find_in_node(n, p)->Some_0;
    let c = np.children[i].r;
    lemma_found_node(n, p);
    lemma_uniq_forest(n.children);
    assert(inn(np.children[i], c));
    assert(inn(np, c)) by {
        lemma_inf_at(np.children, c, i);
    }
    if n.r == p {
        assert(np == n);
        assert(c != n.r) by {
            lemma_inf_at(n.children, c, i);
        }
        lemma_locate_kids_at(n.r, n.children, 0, c, i);
        lemma_root_first(n.children, i);
    } else {
        lemma_inf_exists(n.children, p);
        let j = choose|j: int| 0 <= j < n.children.len() && #[trigger] inn(n.children[j], p);
        let cj = n.children[j];
        lemma_find_in_tree(n.children, p, j);
        lemma_found_node(cj, p);
        assert(inn(cj, c));
        assert(c != n.r) by {
            lemma_inf_at(n.children, c, j);
        }
        assert(cj.r != c) by {
            if cj.r == p {
                assert(np == cj);
                assert(inf(np.children, c)) by {
                    lemma_inf_at(np.children, c, i);
                }
            } else {
                lemma_found_nodes(cj.children, p);
                assert(inf(cj.children, c));
            }
        }
        assert forall|k: int| 0 <= k < n.children.len() implies (#[trigger] n.children[k]).r != c by {
            if k != j && n.children[k].r == c {
                assert(inn(n.children[k], c));
                assert(disjoint_nodes(n.children[k], cj));
            }
        }
        assert(decreases_to!(n => n.children));
        assert(decreases_to!(n.children => n.children[j]));
        lemma_parent_is(cj, p, i);
        lemma_below(cj, c);
        lemma_first_idx(n.children, c, 0);
        lemma_locate_kids_in(n.r, n.children, 0, c, j);
        assert(parent_of(n, c) == p);
        assert(find_in_node(n, p) == find_in_node(cj, p));
    }
}

/// In a forest with unique refs, setting the node of a root's ref sets
/// that root.
pub proof fn lemma_set_root(f: Seq<NodeV>, i: int, y: NodeV)
    requires
        uniq_forest(f),
        0 <= i < f.len(),
    ensures
        edit_nodes(f, f[i].r, const_fn(y)) == Some(f.update(i, y)),
{
    assert(inn(f[i], f[i].r));
    lemma_edits_at(f, f[i].r, const_fn(y), i);
}

/// [`lemma_set_child`] for a forest.
pub proof fn lemma_sets_child(f: Seq<NodeV>, p: u32, i: int, y: NodeV)
    requires
        uniq_forest(f),
        inf(f, p),
        0 <= i < find_in_nodes(f, p)->Some_0.children.len(),
        y.r == find_in_nodes(f, p)->Some_0.children[i].r,
    ensures
        edit_nodes(f, find_in_nodes(f, p)->Some_0.children[i].r, const_fn(y)) == edit_nodes(
            f,
            p,
            const_fn(with_child(find_in_nodes(f, p)->Some_0, i, y)),
        ),
{
    lemma_inf_exists(f, p);
    let j = choose|j: int| 0 <= j < f.len() && #[trigger] inn(f[j], p);
    lemma_uniq_forest(f);
    lemma_find_in_tree(f, p, j);
    let np = find_in_nodes(f, p)->Some_0;
    let c = np.children[i].r;
    lemma_found_node(f[j], p);
    assert(inn(np, c)) by {
        assert(inn(np.children[i], c));
        lemma_inf_at(np.children, c, i);
    }
    lemma_set_child(f[j], p, i, y);
    lemma_edits_at(f, c, const_fn(y), j);
    lemma_edits_at(f, p, const_fn(with_child(np, i, y)), j);
}

/// In a forest with unique refs, taking out a root's ref removes that
/// root, and it is located at root level at its position.
pub proof fn lemma_take_root(f: Seq<NodeV>, i: int)
    requires
        uniq_forest(f),
        0 <= i < f.len(),
    ensures
        take_tree(f, f[i].r) == Some((f.remove(i), f[i])),
        locate_tree(f, f[i].r) == Some((0u32, sat_u32(i))),
{
    lemma_root_first(f, i);
}

/// In a forest with unique refs, taking out the child at `i` of the node
/// of `p` removes that child from that node, and it is located under
/// `p` at `i`.
pub proof fn lemma_take_child(f: Seq<NodeV>, p: u32, i: int)
    requires
        uniq_forest(f),
        inf(f, p),
        0 <= i < find_in_nodes(f, p)->Some_0.children.len(),
    ensures
        take_tree(f, find_in_nodes(f, p)->Some_0.children[i].r) == Some(
            (
                edit_nodes(f, p, const_fn(without_child(find_in_nodes(f, p)->Some_0, i)))->Some_0,
                find_in_nodes(f, p)->Some_0.children[i],
            ),
        ),
        locate_tree(f, find_in_nodes(f, p)->Some_0.children[i].r) == Some((p, sat_u32(i))),
{
    lemma_inf_exists(f, p);
    let j = choose|j: int| 0 <= j < f.len() && #[trigger] inn(f[j], p);
    lemma_uniq_forest(f);
    lemma_find_in_tree(f, p, j);
    let np = find_in_nodes(f, p)->Some_0;
    let c = np.children[i].r;
    lemma_parent_is(f[j], p, i);
    lemma_below(f[j], c);
    assert forall|k: int| 0 <= k < f.len() implies (#[trigger] f[k]).r != c by {
        if k != j && f[k].r == c {
            assert(inn(f[k], c));
            assert(disjoint_nodes(f[k], f[j]));
        }
    }
    lemma_first_idx(f, c, 0);
    lemma_take_each_at(f, c, j);
    lemma_edits_at(f, p, const_fn(without_child(np, i)), j);
    lemma_locate_roots_in(f, c, j);
}

proof fn lemma_locate_roots_in(f: Seq<NodeV>, c: u32, j: int)
    requires
        uniq_forest(f),
        0 <= j < f.len(),
        inn(f[j], c),
        locate_in(f[j], c) is Some,
    ensures
        locate_roots(f, c) == locate_in(f[j], c),
    decreases j,
{
    lemma_uniq_forest(f);
    if j > 0 {
        assert(disjoint_nodes(f[j], f[0]));
        lemma_locate_none(f[0], c);
        let t = f.drop_first();
        assert(t[j - 1] == f[j]);
        lemma_uniq_forest(t);
        assert forall|a: int| 0 <= a < t.len() implies uniq_node(#[trigger] t[a]) by {
            assert(t[a] == f[a + 1]);
        }
        assert forall|a: int, b: int| 0 <= a < t.len() && 0 <= b < t.len() && a != b implies disjoint_nodes(
            #[trigger] t[a],
            #[trigger] t[b],
        ) by {
            assert(t[a] == f[a + 1]);
            assert(t[b] == f[b + 1]);
        }
        lemma_locate_roots_in(t, c, j - 1);
    }
}


// ---------------------------------------------------------------------
// Places for children: the root level, or a node.

/// The children at `p` in `w`: the roots for `p == 0`, else the children
/// of the node of `p`.
pub open spec fn kids_at(w: Seq<NodeV>, p: u32) -> Seq<NodeV> {
    if p == 0 {
        w
    } else {
        find_in_nodes(w, p)->Some_0.children
    }
}

/// `w` with the children at `p` set to `k`.
pub open spec fn with_kids(w: Seq<NodeV>, p: u32, k: Seq<NodeV>) -> Seq<NodeV> {
    if p == 0 {
        k
    } else {
        edit_nodes(w, p, const_fn(NodeV { children: k, ..find_in_nodes(w, p)->Some_0 }))->Some_0
    }
}

/// `w` has unique refs, none of them 0, and `p` is the root level or a
/// node of `w`.
pub open spec fn ctx_ok(w: Seq<NodeV>, p: u32) -> bool {
    uniq_forest(w) && !inf(w, 0) && (p == 0 || inf(w, p))
}

/// `k` may stand as the children at `p` in `w`: its refs are unique, not
/// 0 nor `p`, and each is a ref of the children at `p` or not in `w`.
pub open spec fn kids_ok(w: Seq<NodeV>, p: u32, k: Seq<NodeV>) -> bool {
    &&& uniq_forest(k)
    &&& !inf(k, 0)
    &&& (p != 0 ==> !inf(k, p))
    &&& forall|q: u32| inf(k, q) ==> inf(kids_at(w, p), q) || !inf(w, q)
}

/// Setting the children at a place: the place stays, holds the new
/// children, the refs are those outside the place plus the new ones,
/// and setting again is setting once.
pub proof fn lemma_with_kids(w: Seq<NodeV>, p: u32, k: Seq<NodeV>)
    requires
        ctx_ok(w, p),
        kids_ok(w, p, k),
    ensures
        ctx_ok(with_kids(w, p, k), p),
        kids_at(with_kids(w, p, k), p) == k,
        forall|q: u32| inf(with_kids(w, p, k), q) <==> (inf(w, q) && !inf(kids_at(w, p), q)) || inf(k, q),
        forall|k2: Seq<NodeV>| kids_ok(w, p, k2) ==> #[trigger] with_kids(with_kids(w, p, k), p, k2) == with_kids(w, p, k2),
{
    if p != 0 {
        let np = find_in_nodes(w, p)->Some_0;
        let y = NodeV { children: k, ..np };
        lemma_found_nodes(w, p);
        assert(uniq_node(y));
        assert forall|q: u32| inn(y, q) implies !(inf(w, q) && !inn(np, q)) by {
            if q != p {
                assert(inf(k, q));
            }
        }
        lemma_set_nodes(w, p, y);
        let w1 = with_kids(w, p, k);
        assert(inn(y, p));
        lemma_finds_after_set(w, p, y, p);
        assert(find_in_nodes(w1, p) == Some(y));
        assert forall|q: u32| inf(w1, q) <==> (inf(w, q) && !inf(kids_at(w, p), q)) || inf(k, q) by {
            if q == p {
                lemma_uniq_forest(w);
                lemma_inf_exists(w, p);
                let j = choose|j: int| 0 <= j < w.len() && #[trigger] inn(w[j], p);
                lemma_find_in_tree(w, p, j);
                assert(!inf(np.children, p)) by {
                    lemma_found_node(w[j], p);
                    assert(uniq_node(np)) by {
                        lemma_found_uniq(w[j], p);
                    }
                }
            }
        }
        assert(!inf(w1, 0));
        assert forall|k2: Seq<NodeV>| kids_ok(w, p, k2) implies #[trigger] with_kids(w1, p, k2) == with_kids(w, p, k2) by {
            let y2 = NodeV { children: k2, ..np };
            assert(NodeV { children: k2, ..y } == y2);
            lemma_sets_twice(w, p, y, y2);
        }
    }
}

/// The node found in a tree with unique refs has unique refs.
pub proof fn lemma_found_uniq(n: NodeV, p: u32)
    requires
        uniq_node(n),
        inn(n, p),
    ensures
        uniq_node(find_in_node(n, p)->Some_0),
    decreases n, 0nat,
{
    if n.r != p {
        lemma_founds_uniq(n.children, p);
    }
}

/// [`lemma_found_uniq`] for a forest.
pub proof fn lemma_founds_uniq(f: Seq<NodeV>, p: u32)
    requires
        uniq_forest(f),
        inf(f, p),
    ensures
        uniq_node(find_in_nodes(f, p)->Some_0),
    decreases f, 1nat,
{
    lemma_inf_exists(f, p);
    let j = choose|j: int| 0 <= j < f.len() && #[trigger] inn(f[j], p);
    lemma_uniq_forest(f);
    lemma_find_in_tree(f, p, j);
    assert(decreases_to!(f => f[j]));
    lemma_found_uniq(f[j], p);
}


/// Dropping a child keeps the children fit for their place.
pub proof fn lemma_kids_ok_remove(w: Seq<NodeV>, p: u32, k: Seq<NodeV>, i: int)
    requires
        kids_ok(w, p, k),
        0 <= i < k.len(),
    ensures
        kids_ok(w, p, k.remove(i)),
        forall|q: u32| inf(k.remove(i), q) ==> inf(k, q),
{
    let k2 = k.remove(i);
    lemma_uniq_forest(k);
    assert forall|a: int| 0 <= a < k2.len() implies uniq_node(#[trigger] k2[a]) by {
        if a < i {
            assert(k2[a] == k[a]);
        } else {
            assert(k2[a] == k[a + 1]);
        }
    }
    assert forall|a: int, b: int| 0 <= a < k2.len() && 0 <= b < k2.len() && a != b implies disjoint_nodes(
        #[trigger] k2[a],
        #[trigger] k2[b],
    ) by {
        let a2 = if a < i { a } else { a + 1 };
        let b2 = if b < i { b } else { b + 1 };
        assert(k2[a] == k[a2]);
        assert(k2[b] == k[b2]);
        assert(disjoint_nodes(k[a2], k[b2]));
    }
    lemma_uniq_forest(k2);
    assert forall|q: u32| inf(k2, q) implies inf(k, q) by {
        lemma_inf_exists(k2, q);
        let a = choose|a: int| 0 <= a < k2.len() && #[trigger] inn(k2[a], q);
        let a2 = if a < i { a } else { a + 1 };
        assert(k2[a] == k[a2]);
        lemma_inf_at(k, q, a2);
    }
}

/// Inserting a tree of new refs keeps the children fit for their place.
pub proof fn lemma_kids_ok_insert(w: Seq<NodeV>, p: u32, k: Seq<NodeV>, j: int, x: NodeV)
    requires
        kids_ok(w, p, k),
        0 <= j <= k.len(),
        uniq_node(x),
        forall|q: u32| inn(x, q) ==> !inf(w, q) && !inf(k, q) && q != 0 && (p != 0 ==> q != p),
    ensures
        kids_ok(w, p, k.insert(j, x)),
        forall|q: u32| inf(k.insert(j, x), q) <==> inf(k, q) || inn(x, q),
{
    let k2 = k.insert(j, x);
    lemma_uniq_forest(k);
    assert forall|a: int| 0 <= a < k2.len() implies uniq_node(#[trigger] k2[a]) by {
        if a < j {
            assert(k2[a] == k[a]);
        } else if a > j {
            assert(k2[a] == k[a - 1]);
        }
    }
    assert forall|a: int, b: int| 0 <= a < k2.len() && 0 <= b < k2.len() && a != b implies disjoint_nodes(
        #[trigger] k2[a],
        #[trigger] k2[b],
    ) by {
        if a != j && b != j {
            let a2 = if a < j { a } else { a - 1 };
            let b2 = if b < j { b } else { b - 1 };
            assert(k2[a] == k[a2]);
            assert(k2[b] == k[b2]);
            assert(disjoint_nodes(k[a2], k[b2]));
        } else if a == j {
            let b2 = if b < j { b } else { b - 1 };
            assert(k2[b] == k[b2]);
            assert forall|q: u32| inn(k2[a], q) implies !inn(k2[b], q) by {
                if inn(k[b2], q) {
                    lemma_inf_at(k, q, b2);
                }
            }
        } else {
            let a2 = if a < j { a } else { a - 1 };
            assert(k2[a] == k[a2]);
            assert forall|q: u32| inn(k2[a], q) implies !inn(k2[b], q) by {
                lemma_inf_at(k, q, a2);
            }
        }
    }
    lemma_uniq_forest(k2);
    assert forall|q: u32| inf(k2, q) <==> inf(k, q) || inn(x, q) by {
        lemma_inf_exists(k2, q);
        lemma_inf_exists(k, q);
        if inf(k2, q) {
            let a = choose|a: int| 0 <= a < k2.len() && #[trigger] inn(k2[a], q);
            if a < j {
                assert(k2[a] == k[a]);
            } else if a > j {
                assert(k2[a] == k[a - 1]);
            }
        }
        if inf(k, q) {
            let a = choose|a: int| 0 <= a < k.len() && #[trigger] inn(k[a], q);
            let a2 = if a < j { a } else { a + 1 };
            assert(k2[a2] == k[a]);
            lemma_inf_at(k2, q, a2);
        }
        if inn(x, q) {
            assert(k2[j] == x);
            lemma_inf_at(k2, q, j);
        }
    }
}

/// Replacing a child by a tree whose refs are its own or new keeps the
/// children fit for their place.
pub proof fn lemma_kids_ok_update(w: Seq<NodeV>, p: u32, k: Seq<NodeV>, i: int, z: NodeV)
    requires
        kids_ok(w, p, k),
        0 <= i < k.len(),
        uniq_node(z),
        forall|q: u32| inn(z, q) ==> inn(k[i], q) || (!inf(w, q) && !inf(k, q) && q != 0 && (p != 0 ==> q != p)),
    ensures
        kids_ok(w, p, k.update(i, z)),
        forall|q: u32| inf(k.update(i, z), q) <==> (inf(k, q) && !inn(k[i], q)) || inn(z, q),
{
    lemma_update_tree(k, i, z);
    assert forall|q: u32| inf(k.update(i, z), q) implies inf(kids_at(w, p), q) || !inf(w, q) by {
        if inn(k[i], q) {
            lemma_inf_at(k, q, i);
        }
    }
    assert(!inf(k.update(i, z), 0)) by {
        if inn(z, 0) {
            if inn(k[i], 0) {
                lemma_inf_at(k, 0, i);
            }
        }
    }
    if p != 0 {
        assert(!inf(k.update(i, z), p)) by {
            if inn(z, p) {
                if inn(k[i], p) {
                    lemma_inf_at(k, p, i);
                }
            }
        }
    }
}

/// The state with children `k` at `p`.
pub open spec fn st(w: Seq<NodeV>, p: u32, k: Seq<NodeV>) -> Seq<NodeV> {
    with_kids(w, p, k)
}

/// Removing the child at `i` of a place.
pub proof fn lemma_op_remove(w: Seq<NodeV>, p: u32, k: Seq<NodeV>, i: int)
    requires
        ctx_ok(w, p),
        kids_ok(w, p, k),
        0 <= i < k.len(),
    ensures
        apply_op_spec(st(w, p, k), DeltaOpV::Remove { r: k[i].r }) == Ok::<Seq<NodeV>, ParseErrorView>(
            st(w, p, k.remove(i)),
        ),
{
    lemma_with_kids(w, p, k);
    lemma_kids_ok_remove(w, p, k, i);
    let w1 = st(w, p, k);
    if p == 0 {
        lemma_take_root(k, i);
    } else {
        lemma_take_child(w1, p, i);
        let y = find_in_nodes(w1, p)->Some_0;
        assert(without_child(y, i) == NodeV { children: k.remove(i), ..y });
        assert(with_kids(w1, p, k.remove(i)) == with_kids(w, p, k.remove(i)));
    }
}

/// Adding a leaf of a new ref at a position of a place.
pub proof fn lemma_op_add(w: Seq<NodeV>, p: u32, k: Seq<NodeV>, pos: Option<u32>, x: NodeV)
    requires
        ctx_ok(w, p),
        kids_ok(w, p, k),
        x.children.len() == 0,
        x.r != 0,
        p != 0 ==> x.r != p,
        !inf(w, x.r),
        !inf(k, x.r),
    ensures
        apply_op_spec(
            st(w, p, k),
            DeltaOpV::Add { r: x.r, parent: p, pos, role: x.role, label: x.label, ops: x.ops, attrs: x.attrs },
        ) == Ok::<Seq<NodeV>, ParseErrorView>(st(w, p, k.insert(clamp_pos(pos, k.len()), x))),
{
    lemma_with_kids(w, p, k);
    let w1 = st(w, p, k);
    let leaf = NodeV { r: x.r, role: x.role, label: x.label, ops: x.ops, attrs: x.attrs, children: Seq::empty() };
    assert(x.children =~= Seq::<NodeV>::empty());
    assert(leaf == x);
    assert(!inf(w1, x.r));
    assert(uniq_node(x));
    assert forall|q: u32| inn(x, q) implies !inf(w, q) && !inf(k, q) && q != 0 && (p != 0 ==> q != p) by {
        assert(q == x.r);
    }
    let j = clamp_pos(pos, k.len());
    lemma_kids_ok_insert(w, p, k, j, x);
    if p != 0 {
        lemma_edits_as_set(w1, p, add_child_fn(pos, leaf));
        lemma_edits_some(w1, p, const_fn(add_child_fn(pos, leaf)(find_in_nodes(w1, p)->Some_0)));
        assert(add_child_fn(pos, leaf)(find_in_nodes(w1, p)->Some_0) == NodeV {
            children: k.insert(j, x),
            ..find_in_nodes(w1, p)->Some_0
        });
        assert(with_kids(w1, p, k.insert(j, x)) == with_kids(w, p, k.insert(j, x)));
    }
}

/// Setting the node of the child at `i` of a place.
pub proof fn lemma_set_kid(w: Seq<NodeV>, p: u32, k: Seq<NodeV>, i: int, z: NodeV)
    requires
        ctx_ok(w, p),
        kids_ok(w, p, k),
        0 <= i < k.len(),
        z.r == k[i].r,
        kids_ok(w, p, k.update(i, z)),
    ensures
        edit_nodes(st(w, p, k), k[i].r, const_fn(z)) == Some(st(w, p, k.update(i, z))),
{
    lemma_with_kids(w, p, k);
    let w1 = st(w, p, k);
    if p == 0 {
        lemma_set_root(k, i, z);
    } else {
        lemma_sets_child(w1, p, i, z);
        let y = find_in_nodes(w1, p)->Some_0;
        lemma_edits_some(w1, p, const_fn(with_child(y, i, z)));
        assert(with_child(y, i, z) == NodeV { children: k.update(i, z), ..y });
        assert(with_kids(w1, p, k.update(i, z)) == with_kids(w, p, k.update(i, z)));
    }
}

/// Replacing the child at `i` of a place by a subtree with its ref.
pub proof fn lemma_op_replace(w: Seq<NodeV>, p: u32, k: Seq<NodeV>, i: int, z: NodeV)
    requires
        ctx_ok(w, p),
        kids_ok(w, p, k),
        0 <= i < k.len(),
        i <= u32::MAX,
        z.r == k[i].r,
        kids_ok(w, p, k.update(i, z)),
    ensures
        apply_op_spec(st(w, p, k), DeltaOpV::Replace { r: k[i].r, subtree: seq![z] }) == Ok::<
            Seq<NodeV>,
            ParseErrorView,
        >(st(w, p, k.update(i, z))),
{
    lemma_with_kids(w, p, k);
    lemma_kids_ok_remove(w, p, k, i);
    let w1 = st(w, p, k);
    assert(sat_u32(i) == i);
    let kr = k.remove(i);
    assert(kr.insert(i, z) =~= k.update(i, z));
    assert(clamp_pos(Some(i as u32), kr.len()) == i);
    if p == 0 {
        lemma_take_root(k, i);
    } else {
        lemma_take_child(w1, p, i);
        let y = find_in_nodes(w1, p)->Some_0;
        assert(without_child(y, i) == NodeV { children: kr, ..y });
        let w2 = with_kids(w1, p, kr);
        assert(w2 == with_kids(w, p, kr));
        lemma_with_kids(w, p, kr);
        let y2 = find_in_nodes(w2, p)->Some_0;
        lemma_edits_as_set(w2, p, add_child_fn(Some(i as u32), z));
        lemma_edits_some(w2, p, const_fn(add_child_fn(Some(i as u32), z)(y2)));
        assert(add_child_fn(Some(i as u32), z)(y2) == NodeV { children: k.update(i, z), ..y2 });
        assert(with_kids(w2, p, k.update(i, z)) == with_kids(w, p, k.update(i, z)));
    }
}


// ---------------------------------------------------------------------
// Moving a child within its place.

/// Where the child at `a` of the children after moving the child at `i`
/// to `j` comes from.
pub open spec fn move_src(i: int, j: int, a: int) -> int {
    if a == j {
        i
    } else {
        let c = if a < j { a } else { a - 1 };
        if c < i { c } else { c + 1 }
    }
}

/// Where the child at `m` goes when the child at `i` moves to `j`.
pub open spec fn move_dst(i: int, j: int, m: int) -> int {
    if m == i {
        j
    } else {
        let c = if m < i { m } else { m - 1 };
        if c < j { c } else { c + 1 }
    }
}

/// Moving a child within its place keeps the children fit for it, with
/// the same refs.
pub proof fn lemma_kids_ok_move(w: Seq<NodeV>, p: u32, k: Seq<NodeV>, i: int, j: int)
    requires
        kids_ok(w, p, k),
        0 <= i < k.len(),
        0 <= j < k.len(),
    ensures
        kids_ok(w, p, k.remove(i).insert(j, k[i])),
        forall|q: u32| inf(k.remove(i).insert(j, k[i]), q) <==> inf(k, q),
{
    let k2 = k.remove(i).insert(j, k[i]);
    assert(k2.len() == k.len());
    assert forall|a: int| 0 <= a < k2.len() implies #[trigger] k2[a] == k[move_src(i, j, a)] && 0 <= move_src(i, j, a) < k.len() by {}
    assert forall|m: int| 0 <= m < k.len() implies 0 <= move_dst(i, j, m) < k2.len() && k2[move_dst(i, j, m)] == #[trigger] k[m] by {
        assert(move_src(i, j, move_dst(i, j, m)) == m);
    }
    lemma_uniq_forest(k);
    assert forall|a: int| 0 <= a < k2.len() implies uniq_node(#[trigger] k2[a]) by {
        assert(k2[a] == k[move_src(i, j, a)]);
    }
    assert forall|a: int, b: int| 0 <= a < k2.len() && 0 <= b < k2.len() && a != b implies disjoint_nodes(
        #[trigger] k2[a],
        #[trigger] k2[b],
    ) by {
        assert(k2[a] == k[move_src(i, j, a)]);
        assert(k2[b] == k[move_src(i, j, b)]);
        assert(move_src(i, j, a) != move_src(i, j, b));
    }
    lemma_uniq_forest(k2);
    assert forall|q: u32| inf(k2, q) <==> inf(k, q) by {
        lemma_inf_exists(k2, q);
        lemma_inf_exists(k, q);
        if inf(k2, q) {
            let a = choose|a: int| 0 <= a < k2.len() && #[trigger] inn(k2[a], q);
            assert(k2[a] == k[move_src(i, j, a)]);
            lemma_inf_at(k, q, move_src(i, j, a));
        }
        if inf(k, q) {
            let m = choose|m: int| 0 <= m < k.len() && #[trigger] inn(k[m], q);
            assert(k2[move_dst(i, j, m)] == k[m]);
            lemma_inf_at(k2, q, move_dst(i, j, m));
        }
    }
}

/// A forest with distinct roots holding the trees of one with unique
/// refs has unique refs, and the same ones.
pub proof fn lemma_uniq_perm(x: Seq<NodeV>, y: Seq<NodeV>)
    requires
        uniq_forest(y),
        distinct_refs(x),
        forall|v: NodeV| x.contains(v) <==> y.contains(v),
    ensures
        uniq_forest(x),
        forall|q: u32| inf(x, q) <==> inf(y, q),
{
    lemma_uniq_forest(y);
    assert forall|a: int| 0 <= a < x.len() implies uniq_node(#[trigger] x[a]) by {
        assert(x.contains(x[a]));
        let s = choose|s: int| 0 <= s < y.len() && y[s] == x[a];
    }
    assert forall|a: int, b: int| 0 <= a < x.len() && 0 <= b < x.len() && a != b implies disjoint_nodes(
        #[trigger] x[a],
        #[trigger] x[b],
    ) by {
        assert(x.contains(x[a]));
        assert(x.contains(x[b]));
        let s = choose|s: int| 0 <= s < y.len() && y[s] == x[a];
        let t = choose|t: int| 0 <= t < y.len() && y[t] == x[b];
        if a < b {
            assert(x[a].r != x[b].r);
        } else {
            assert(x[b].r != x[a].r);
        }
    }
    lemma_uniq_forest(x);
    assert forall|q: u32| inf(x, q) <==> inf(y, q) by {
        lemma_inf_exists(x, q);
        lemma_inf_exists(y, q);
        if inf(x, q) {
            let a = choose|a: int| 0 <= a < x.len() && #[trigger] inn(x[a], q);
            assert(x.contains(x[a]));
            let s = choose|s: int| 0 <= s < y.len() && y[s] == x[a];
            lemma_inf_at(y, q, s);
        }
        if inf(y, q) {
            let a = choose|a: int| 0 <= a < y.len() && #[trigger] inn(y[a], q);
            assert(y.contains(y[a]));
            let s = choose|s: int| 0 <= s < x.len() && x[s] == y[a];
            lemma_inf_at(x, q, s);
        }
    }
}

/// Moving the child at `i` of a place to `pos`.
pub proof fn lemma_op_move(w: Seq<NodeV>, p: u32, k: Seq<NodeV>, i: int, pos: Option<u32>)
    requires
        ctx_ok(w, p),
        kids_ok(w, p, k),
        0 <= i < k.len(),
    ensures
        apply_op_spec(st(w, p, k), DeltaOpV::Move { r: k[i].r, parent: p, pos }) == Ok::<Seq<NodeV>, ParseErrorView>(
            st(w, p, k.remove(i).insert(clamp_pos(pos, (k.len() - 1) as nat), k[i])),
        ),
{
    let x = k[i];
    let j = clamp_pos(pos, (k.len() - 1) as nat);
    lemma_with_kids(w, p, k);
    lemma_kids_ok_remove(w, p, k, i);
    lemma_kids_ok_move(w, p, k, i, j);
    let w1 = st(w, p, k);
    let kr = k.remove(i);
    assert(kr.len() == k.len() - 1);
    if p == 0 {
        lemma_take_root(k, i);
    } else {
        lemma_take_child(w1, p, i);
        let y = find_in_nodes(w1, p)->Some_0;
        assert(without_child(y, i) == NodeV { children: kr, ..y });
        let w2 = with_kids(w1, p, kr);
        assert(w2 == with_kids(w, p, kr));
        lemma_with_kids(w, p, kr);
        let y2 = find_in_nodes(w2, p)->Some_0;
        lemma_edits_as_set(w2, p, add_child_fn(pos, x));
        lemma_edits_some(w2, p, const_fn(add_child_fn(pos, x)(y2)));
        assert(add_child_fn(pos, x)(y2) == NodeV { children: kr.insert(j, x), ..y2 });
        assert(with_kids(w2, p, kr.insert(j, x)) == with_kids(w, p, kr.insert(j, x)));
    }
}

/// The moves of a level, each a Move under `p` of one of its children,
/// do to the place what [`run_moves`] does to its children.
pub proof fn lemma_phase_moves(w: Seq<NodeV>, p: u32, l: Seq<NodeV>, ops: Seq<DeltaOpV>, m: Seq<NodeV>, rest: Seq<DeltaOpV>)
    requires
        ctx_ok(w, p),
        kids_ok(w, p, l),
        run_moves(l, ops) == Some(m),
        forall|t: int| 0 <= t < ops.len() ==> (#[trigger] ops[t]) is Move && ops[t]->Move_parent == p,
    ensures
        kids_ok(w, p, m),
        apply_spec(st(w, p, l), ops + rest) == apply_spec(st(w, p, m), rest),
    decreases ops.len(),
{
    if ops.len() == 0 {
        assert(ops + rest =~= rest);
    } else {
        let op = ops[0];
        assert(op is Move && op->Move_parent == p);
        let r = op->Move_r;
        let pos = op->Move_pos;
        let i = first_idx(l, r, 0);
        lemma_first_idx(l, r, 0);
        let l2 = move_one(l, r, pos)->Some_0;
        assert(l[i].r == r);
        assert(op == DeltaOpV::Move { r: l[i].r, parent: p, pos });
        lemma_op_move(w, p, l, i, pos);
        lemma_kids_ok_move(w, p, l, i, clamp_pos(pos, (l.len() - 1) as nat));
        assert((ops + rest)[0] == op);
        assert((ops + rest).drop_first() =~= ops.drop_first() + rest);
        assert forall|t: int| 0 <= t < ops.drop_first().len() implies (#[trigger] ops.drop_first()[t]) is Move
            && ops.drop_first()[t]->Move_parent == p by {
            assert(ops.drop_first()[t] == ops[t + 1]);
        }
        lemma_phase_moves(w, p, l2, ops.drop_first(), m, rest);
    }
}

/// An Add with no position puts the new node last: in a forest with
/// unique refs, adding a leaf of a new ref under `p` (the root level for
/// 0) with no position leaves the children of `p` as they were, followed
/// by the leaf.
pub proof fn lemma_add_without_position_appends(w: Seq<NodeV>, p: u32, x: NodeV)
    requires
        ctx_ok(w, p),
        kids_at(w, p).len() <= u32::MAX,
        x.children.len() == 0,
        x.r != 0,
        p != 0 ==> x.r != p,
        !inf(w, x.r),
    ensures
        apply_op_spec(
            w,
            DeltaOpV::Add { r: x.r, parent: p, pos: None, role: x.role, label: x.label, ops: x.ops, attrs: x.attrs },
        ) == Ok::<Seq<NodeV>, ParseErrorView>(with_kids(w, p, kids_at(w, p).push(x))),
{
    let k = kids_at(w, p);
    lemma_kids_at_ok(w, p);
    lemma_op_add(w, p, k, None, x);
    assert(k.insert(k.len() as int, x) =~= k.push(x));
}

/// A Move with no position puts the node last: in a forest with unique
/// refs, moving the child at `i` of `p` with no position takes it out
/// and puts it after the other children.
pub proof fn lemma_move_without_position_appends(w: Seq<NodeV>, p: u32, i: int)
    requires
        ctx_ok(w, p),
        0 <= i < kids_at(w, p).len(),
        kids_at(w, p).len() <= u32::MAX + 1,
    ensures
        apply_op_spec(w, DeltaOpV::Move { r: kids_at(w, p)[i].r, parent: p, pos: None }) == Ok::<
            Seq<NodeV>,
            ParseErrorView,
        >(with_kids(w, p, kids_at(w, p).remove(i).push(kids_at(w, p)[i]))),
{
    let k = kids_at(w, p);
    lemma_kids_at_ok(w, p);
    lemma_op_move(w, p, k, i, None);
    assert(k.remove(i).insert((k.len() - 1) as int, k[i]) =~= k.remove(i).push(k[i]));
}

// ---------------------------------------------------------------------
// When the diff of two forests is faithful.

/// The children `ka` of a place in `a` and `kb` of the same place in the
/// target agree: the level's moves put the common children, standing in
/// the order of `ka`, into the order of `kb` (as when they already come
/// in the same order), there are at most `u32::MAX` of `kb`, and each
/// child of `kb` is compatible.
pub open spec fn compat_level(ka: Seq<NodeV>, kb: Seq<NodeV>, a: Seq<NodeV>) -> bool
    decreases kb, 2nat,
{
    &&& moves_settle(ka, kb)
    &&& kb.len() <= u32::MAX
    &&& all_compat(ka, kb, a)
}

/// Every child of `kb` is compatible with `ka`.
pub open spec fn all_compat(ka: Seq<NodeV>, kb: Seq<NodeV>, a: Seq<NodeV>) -> bool
    decreases kb, 1nat,
{
    if kb.len() == 0 {
        true
    } else {
        compat_child(ka, kb[0], a) && all_compat(ka, kb.drop_first(), a)
    }
}

/// A child `x` of the target is compatible with the children `ka` of its
/// place in `a`: when `ka` has its ref, the children of both agree;
/// else no ref of its subtree is a ref of `a`, and its own children
/// agree with none.
pub open spec fn compat_child(ka: Seq<NodeV>, x: NodeV, a: Seq<NodeV>) -> bool
    decreases x, 0nat,
{
    if has_ref(ka, x.r) {
        compat_level(node_of(ka, x.r).children, x.children, a)
    } else {
        (forall|q: u32| inn(x, q) ==> !inf(a, q)) && compat_level(Seq::empty(), x.children, a)
    }
}

pub proof fn lemma_all_compat(ka: Seq<NodeV>, kb: Seq<NodeV>, a: Seq<NodeV>)
    ensures
        all_compat(ka, kb, a) <==> forall|j: int| 0 <= j < kb.len() ==> compat_child(ka, #[trigger] kb[j], a),
    decreases kb.len(),
{
    if kb.len() > 0 {
        let t = kb.drop_first();
        lemma_all_compat(ka, t, a);
        if all_compat(ka, kb, a) {
            assert forall|j: int| 0 <= j < kb.len() implies compat_child(ka, #[trigger] kb[j], a) by {
                if j > 0 {
                    assert(t[j - 1] == kb[j]);
                }
            }
        }
        if forall|j: int| 0 <= j < kb.len() ==> compat_child(ka, #[trigger] kb[j], a) {
            assert forall|j: int| 0 <= j < t.len() implies compat_child(ka, #[trigger] t[j], a) by {
                assert(t[j] == kb[j + 1]);
            }
            assert(compat_child(ka, kb[0], a));
        }
    }
}

/// The refs of `x` that the compatible node `y` of `a` (same ref) lacks
/// are not refs of `a`.
pub proof fn lemma_compat_fresh(y: NodeV, x: NodeV, a: Seq<NodeV>, q: u32)
    requires
        y.r == x.r,
        compat_level(y.children, x.children, a),
        inn(x, q),
        !inn(y, q),
    ensures
        !inf(a, q),
    decreases x,
{
    assert(q != x.r);
    assert(inf(x.children, q));
    lemma_inf_exists(x.children, q);
    let j = choose|j: int| 0 <= j < x.children.len() && #[trigger] inn(x.children[j], q);
    let xc = x.children[j];
    lemma_all_compat(y.children, x.children, a);
    assert(compat_child(y.children, xc, a));
    assert(decreases_to!(x => x.children));
    assert(decreases_to!(x.children => x.children[j]));
    if has_ref(y.children, xc.r) {
        lemma_node_of(y.children, xc.r);
        let yc = node_of(y.children, xc.r);
        assert(!inn(yc, q)) by {
            if inn(yc, q) {
                lemma_inf_at(y.children, q, first_idx(y.children, xc.r, 0));
            }
        }
        lemma_compat_fresh(yc, xc, a, q);
    }
}

/// The refs of the node of `ka` with ref `r` are refs of `ka`.
pub proof fn lemma_node_of_in(ka: Seq<NodeV>, r: u32)
    requires
        has_ref(ka, r),
    ensures
        forall|q: u32| inn(node_of(ka, r), q) ==> inf(ka, q),
        node_of(ka, r).r == r,
{
    lemma_node_of(ka, r);
    assert forall|q: u32| inn(node_of(ka, r), q) implies inf(ka, q) by {
        lemma_inf_at(ka, q, first_idx(ka, r, 0));
    }
}

/// A forest with unique refs has distinct root refs.
pub proof fn lemma_uniq_distinct(f: Seq<NodeV>)
    requires
        uniq_forest(f),
    ensures
        distinct_refs(f),
{
    lemma_uniq_forest(f);
    assert forall|i: int, j: int| 0 <= i < j < f.len() implies (#[trigger] f[i]).r != (#[trigger] f[j]).r by {
        assert(disjoint_nodes(f[i], f[j]));
        assert(inn(f[i], f[i].r));
        assert(inn(f[j], f[j].r));
    }
}

/// In the state with children `k` at `p`, each child is found under its
/// ref.
pub proof fn lemma_find_kid(w: Seq<NodeV>, p: u32, k: Seq<NodeV>, i: int)
    requires
        ctx_ok(w, p),
        kids_ok(w, p, k),
        0 <= i < k.len(),
    ensures
        find_in_nodes(st(w, p, k), k[i].r) == Some(k[i]),
        inf(st(w, p, k), k[i].r),
{
    let c = k[i].r;
    assert(inn(k[i], c));
    lemma_inf_at(k, c, i);
    lemma_find_in_tree(k, c, i);
    lemma_with_kids(w, p, k);
    if p != 0 {
        let np = find_in_nodes(w, p)->Some_0;
        let y = NodeV { children: k, ..np };
        lemma_found_nodes(w, p);
        assert forall|q: u32| inn(y, q) implies !(inf(w, q) && !inn(np, q)) by {
            if q != p {
                assert(inf(k, q));
            }
        }
        assert(inn(y, c));
        lemma_finds_after_set(w, p, y, c);
        assert(c != p);
    }
}

/// Setting a node to what it is changes nothing.
pub proof fn lemma_set_same(n: NodeV, p: u32)
    requires
        uniq_node(n),
        inn(n, p),
    ensures
        edit_node(n, p, const_fn(find_in_node(n, p)->Some_0)) == Some(n),
    decreases n, 0nat,
{
    if n.r != p {
        lemma_sets_same(n.children, p);
        assert(NodeV { children: n.children, ..n } == n);
    }
}

/// [`lemma_set_same`] for a forest.
pub proof fn lemma_sets_same(f: Seq<NodeV>, p: u32)
    requires
        uniq_forest(f),
        inf(f, p),
    ensures
        edit_nodes(f, p, const_fn(find_in_nodes(f, p)->Some_0)) == Some(f),
    decreases f, 1nat,
{
    lemma_inf_exists(f, p);
    let j = choose|j: int| 0 <= j < f.len() && #[trigger] inn(f[j], p);
    lemma_uniq_forest(f);
    lemma_find_in_tree(f, p, j);
    lemma_edits_at(f, p, const_fn(find_in_nodes(f, p)->Some_0), j);
    assert(decreases_to!(f => f[j]));
    lemma_set_same(f[j], p);
    assert(f.update(j, f[j]) =~= f);
}

/// The children at a place are fit for it, and setting them changes
/// nothing.
pub proof fn lemma_kids_at_ok(w: Seq<NodeV>, p: u32)
    requires
        ctx_ok(w, p),
    ensures
        kids_ok(w, p, kids_at(w, p)),
        st(w, p, kids_at(w, p)) == w,
        forall|q: u32| inf(kids_at(w, p), q) ==> inf(w, q),
{
    if p != 0 {
        let np = find_in_nodes(w, p)->Some_0;
        lemma_founds_uniq(w, p);
        lemma_found_nodes(w, p);
        assert forall|q: u32| inf(np.children, q) implies inf(w, q) by {
            assert(inn(np, q));
        }
        assert(NodeV { children: np.children, ..np } == np);
        lemma_sets_same(w, p);
    }
}


// ---------------------------------------------------------------------
// Helpers on concatenations and the lists of a level.

pub proof fn lemma_inf_concat(x: Seq<NodeV>, y: Seq<NodeV>, q: u32)
    ensures
        inf(x + y, q) <==> inf(x, q) || inf(y, q),
{
    let z = x + y;
    lemma_inf_exists(z, q);
    lemma_inf_exists(x, q);
    lemma_inf_exists(y, q);
    if inf(z, q) {
        let j = choose|j: int| 0 <= j < z.len() && #[trigger] inn(z[j], q);
        if j < x.len() {
            assert(z[j] == x[j]);
        } else {
            assert(z[j] == y[j - x.len()]);
        }
    }
    if inf(x, q) {
        let j = choose|j: int| 0 <= j < x.len() && #[trigger] inn(x[j], q);
        assert(z[j] == x[j]);
        lemma_inf_at(z, q, j);
    }
    if inf(y, q) {
        let j = choose|j: int| 0 <= j < y.len() && #[trigger] inn(y[j], q);
        assert(z[j + x.len()] == y[j]);
        lemma_inf_at(z, q, j + x.len());
    }
}

pub proof fn lemma_old_kept_in(bs: Seq<NodeV>, ka: Seq<NodeV>, q: u32)
    ensures
        inf(old_kept(bs, ka), q) ==> inf(ka, q),
    decreases bs.len(),
{
    if bs.len() > 0 {
        lemma_old_kept_in(bs.drop_first(), ka, q);
        if has_ref(ka, bs[0].r) {
            lemma_node_of_in(ka, bs[0].r);
            lemma_inf_concat(seq![node_of(ka, bs[0].r)], old_kept(bs.drop_first(), ka), q);
            if inf(seq![node_of(ka, bs[0].r)], q) {
                lemma_inf_exists(seq![node_of(ka, bs[0].r)], q);
            }
        } else {
            assert(old_kept(bs, ka) =~= old_kept(bs.drop_first(), ka));
        }
    }
}

pub proof fn lemma_old_nodes_in(bs: Seq<NodeV>, ka: Seq<NodeV>, q: u32)
    ensures
        inf(old_nodes(bs, ka), q) ==> inf(ka, q) || inf(bs, q),
{
    let o = old_nodes(bs, ka);
    lemma_inf_exists(o, q);
    if inf(o, q) {
        let j = choose|j: int| 0 <= j < o.len() && #[trigger] inn(o[j], q);
        if has_ref(ka, bs[j].r) {
            lemma_node_of_in(ka, bs[j].r);
        } else {
            lemma_inf_at(bs, q, j);
        }
    }
}

/// The refs of a tree of a forest with unique refs are in no other tree.
pub proof fn lemma_only_in(f: Seq<NodeV>, j: int, q: u32)
    requires
        uniq_forest(f),
        0 <= j < f.len(),
        inn(f[j], q),
    ensures
        forall|m: int| 0 <= m < f.len() && m != j ==> !inn(#[trigger] f[m], q),
        !inf(f.take(j), q),
        !inf(f.skip(j + 1), q),
{
    lemma_uniq_forest(f);
    assert forall|m: int| 0 <= m < f.len() && m != j implies !inn(#[trigger] f[m], q) by {
        assert(disjoint_nodes(f[j], f[m]));
    }
    assert forall|m: int| 0 <= m < f.take(j).len() implies !inn(#[trigger] f.take(j)[m], q) by {
        assert(f.take(j)[m] == f[m]);
    }
    lemma_not_inf(f.take(j), q);
    assert forall|m: int| 0 <= m < f.skip(j + 1).len() implies !inn(#[trigger] f.skip(j + 1)[m], q) by {
        assert(f.skip(j + 1)[m] == f[m + j + 1]);
    }
    lemma_not_inf(f.skip(j + 1), q);
}

// ---------------------------------------------------------------------
// Applying the diff of one level.

/// The conditions of a level: in `w`, the place `p` holds the children
/// `ka`, to be turned into `kb`; `a` is the whole source forest.
pub open spec fn level_pre(w: Seq<NodeV>, p: u32, ka: Seq<NodeV>, kb: Seq<NodeV>, a: Seq<NodeV>) -> bool {
    &&& ctx_ok(w, p)
    &&& kids_at(w, p) == ka
    &&& compat_level(ka, kb, a)
    &&& uniq_forest(kb)
    &&& !inf(kb, 0)
    &&& (p != 0 ==> !inf(kb, p))
    &&& (forall|q: u32| inf(kb, q) && !inf(ka, q) ==> !inf(w, q))
    &&& (forall|q: u32| inf(ka, q) ==> inf(a, q))
}

/// The removals of a level leave the children whose ref is kept.
pub proof fn lemma_phase_removes(
    w: Seq<NodeV>,
    p: u32,
    pre: Seq<NodeV>,
    s: Seq<NodeV>,
    kb: Seq<NodeV>,
    rest: Seq<DeltaOpV>,
)
    requires
        ctx_ok(w, p),
        kids_ok(w, p, pre + s),
    ensures
        kids_ok(w, p, pre + kept_nodes(s, kb)),
        apply_spec(st(w, p, pre + s), removes(s, kb) + rest) == apply_spec(st(w, p, pre + kept_nodes(s, kb)), rest),
    decreases s.len(),
{
    if s.len() == 0 {
        assert(removes(s, kb) + rest =~= rest);
        assert(kept_nodes(s, kb) =~= s);
    } else {
        let x = s[0];
        let t = s.drop_first();
        let q = pre.push(x);
        assert(q + t =~= pre + s);
        if has_ref(kb, x.r) {
            assert(removes(s, kb) =~= removes(t, kb));
            lemma_phase_removes(w, p, q, t, kb, rest);
            assert(kept_nodes(s, kb) =~= seq![x] + kept_nodes(t, kb));
            assert(q + kept_nodes(t, kb) =~= pre + kept_nodes(s, kb));
        } else {
            let ops = removes(s, kb) + rest;
            assert(removes(s, kb) =~= seq![DeltaOpV::Remove { r: x.r }] + removes(t, kb));
            assert(ops[0] == DeltaOpV::Remove { r: x.r });
            assert(ops.drop_first() =~= removes(t, kb) + rest);
            let ps = pre + s;
            assert(ps[pre.len() as int] == x);
            lemma_op_remove(w, p, ps, pre.len() as int);
            lemma_kids_ok_remove(w, p, ps, pre.len() as int);
            assert(ps.remove(pre.len() as int) =~= pre + t);
            lemma_phase_removes(w, p, pre, t, kb, rest);
            assert(kept_nodes(s, kb) =~= kept_nodes(t, kb));
        }
    }
}


/// Applying the diff of one level turns its children into the target's:
/// the removals leave the common children in the order of the source,
/// the additions put in the new ones, the node diffs bring each common
/// child to its target, and the moves put them in the target's order.
pub proof fn lemma_level(w: Seq<NodeV>, p: u32, ka: Seq<NodeV>, kb: Seq<NodeV>, a: Seq<NodeV>, rest: Seq<DeltaOpV>)
    requires
        level_pre(w, p, ka, kb, a),
    ensures
        apply_spec(w, diff_children_spec(ka, kb, p) + rest) == apply_spec(st(w, p, kb), rest),
    decreases kb, 3nat, 0int,
{
    let e = Seq::<NodeV>::empty();
    lemma_kids_at_ok(w, p);
    lemma_uniq_distinct(ka);
    lemma_uniq_distinct(kb);
    lemma_settled_order(ka, kb, p);
    let kbp = in_a_order(ka, kb);
    lemma_uniq_perm(kbp, kb);
    // The level before its moves meets the conditions of a level.
    assert(level_pre(w, p, ka, kbp, a)) by {
        lemma_all_compat(ka, kb, a);
        assert forall|j: int| 0 <= j < kbp.len() implies compat_child(ka, #[trigger] kbp[j], a) by {
            assert(kbp.contains(kbp[j]));
            let s = choose|s: int| 0 <= s < kb.len() && kb[s] == kbp[j];
        }
        lemma_all_compat(ka, kbp, a);
    }
    let ad = adds(kb, 0, ka, p);
    let nd = node_diffs(kb, ka);
    let mv = moves(kb, 0, ka, kb, p);
    assert(diff_children_spec(ka, kb, p) + rest =~= removes(ka, kbp) + (adds(kbp, 0, ka, p) + (nd + (mv + rest))));
    assert(e + ka =~= ka);
    lemma_phase_removes(w, p, e, ka, kbp, adds(kbp, 0, ka, p) + (nd + (mv + rest)));
    assert(kbp.take(0) =~= Seq::<NodeV>::empty());
    assert(old_nodes(kbp.take(0), ka) =~= Seq::<NodeV>::empty());
    assert(kbp.skip(0) =~= kbp);
    assert(e + kept_nodes(ka, kbp) =~= old_nodes(kbp.take(0), ka) + old_kept(kbp.skip(0), ka));
    lemma_phase_adds(w, p, ka, kbp, a, 0, nd + (mv + rest), kb);
    assert(kb.skip(0) =~= kb);
    assert(partly(kbp, ka, kb.skip(0)) =~= old_nodes(kbp, ka)) by {
        assert forall|j: int| 0 <= j < kbp.len() implies has_ref(kb, (#[trigger] kbp[j]).r) by {
            lemma_has_ref_iff(kbp, kbp[j].r);
        }
    }
    lemma_phase_nodes_gen(w, p, ka, kb, kbp, a, 0, mv + rest);
    lemma_moves_are_moves(kb, 0, ka, kb, p);
    lemma_run_moves_parent(kbp, kb, 0, ka, kb, p);
    lemma_phase_moves(w, p, kbp, mv, kb, rest);
}

/// The additions of a level put each new child, with its subtree, at
/// its position.
pub proof fn lemma_phase_adds(
    w: Seq<NodeV>,
    p: u32,
    ka: Seq<NodeV>,
    kb: Seq<NodeV>,
    a: Seq<NodeV>,
    k: int,
    rest: Seq<DeltaOpV>,
    top: Seq<NodeV>,
)
    requires
        level_pre(w, p, ka, kb, a),
        0 <= k <= kb.len(),
        kids_ok(w, p, old_nodes(kb.take(k), ka) + old_kept(kb.skip(k), ka)),
        forall|y: NodeV| kb.contains(y) ==> top.contains(y),
    ensures
        kids_ok(w, p, old_nodes(kb, ka)),
        apply_spec(st(w, p, old_nodes(kb.take(k), ka) + old_kept(kb.skip(k), ka)), adds(kb.skip(k), k, ka, p) + rest)
            == apply_spec(st(w, p, old_nodes(kb, ka)), rest),
    decreases top, 2nat, kb.len() - k,
{
    let kk = old_nodes(kb.take(k), ka) + old_kept(kb.skip(k), ka);
    if k == kb.len() {
        assert(kb.skip(k) =~= Seq::<NodeV>::empty());
        assert(kb.take(k) =~= kb);
        assert(adds(kb.skip(k), k, ka, p) + rest =~= rest);
        assert(kk =~= old_nodes(kb, ka));
    } else {
        let x = kb[k];
        let bs = kb.skip(k);
        assert(bs[0] == x);
        assert(bs.drop_first() =~= kb.skip(k + 1));
        assert(old_nodes(kb.take(k + 1), ka) =~= old_nodes(kb.take(k), ka).push(old_node(ka, x)));
        lemma_all_compat(ka, kb, a);
        assert(compat_child(ka, x, a));
        lemma_uniq_forest(kb);
        assert(uniq_node(x));
        assert(!inn(x, 0)) by {
            if inn(x, 0) {
                lemma_inf_at(kb, 0, k);
            }
        }
        if p != 0 {
            assert(!inn(x, p)) by {
                if inn(x, p) {
                    lemma_inf_at(kb, p, k);
                }
            }
        }
        if has_ref(ka, x.r) {
            assert(adds(bs, k, ka, p) =~= adds(kb.skip(k + 1), k + 1, ka, p));
            assert(old_kept(bs, ka) =~= seq![node_of(ka, x.r)] + old_kept(kb.skip(k + 1), ka));
            assert(old_nodes(kb.take(k + 1), ka) + old_kept(kb.skip(k + 1), ka) =~= kk);
            lemma_phase_adds(w, p, ka, kb, a, k + 1, rest, top);
        } else {
            let lx = NodeV { children: Seq::empty(), ..x };
            let pre = old_nodes(kb.take(k), ka);
            let tail = old_kept(kb.skip(k + 1), ka);
            assert(old_kept(bs, ka) =~= tail);
            assert(kk =~= pre + tail);
            assert(pre.len() == k);
            // Where the refs of `x` stand.
            assert forall|q: u32| inn(x, q) implies !inf(a, q) && !inf(ka, q) && !inf(w, q) && !inf(kk, q) && q != 0 && (
            p != 0 ==> q != p) by {
                assert(!inf(a, q));
                lemma_inf_at(kb, q, k);
                lemma_only_in(kb, k, q);
                lemma_inf_concat(pre, tail, q);
                lemma_old_nodes_in(kb.take(k), ka, q);
                lemma_old_kept_in(kb.skip(k + 1), ka, q);
            }
            assert(inn(x, x.r));
            // The add of the leaf.
            let add = DeltaOpV::Add {
                r: x.r,
                parent: p,
                pos: Some(sat_u32(k)),
                role: x.role,
                label: x.label,
                ops: x.ops,
                attrs: x.attrs,
            };
            let dcs = diff_children_spec(Seq::empty(), x.children, x.r);
            let rest2 = adds(kb.skip(k + 1), k + 1, ka, p) + rest;
            assert(adds(bs, k, ka, p) =~= seq![add] + dcs + adds(kb.skip(k + 1), k + 1, ka, p));
            let ops = adds(bs, k, ka, p) + rest;
            assert(ops[0] == add);
            assert(ops.drop_first() =~= dcs + rest2);
            assert(sat_u32(k) == k);
            assert(clamp_pos(Some(k as u32), kk.len()) == k);
            lemma_op_add(w, p, kk, Some(k as u32), lx);
            let k1 = kk.insert(k, lx);
            let w1 = st(w, p, k1);
            assert(uniq_node(lx));
            assert forall|q: u32| inn(lx, q) implies !inf(w, q) && !inf(kk, q) && q != 0 && (p != 0 ==> q != p) by {
                assert(q == x.r);
            }
            lemma_kids_ok_insert(w, p, kk, k, lx);
            lemma_with_kids(w, p, k1);
            lemma_find_kid(w, p, k1, k);
            assert(k1[k] == lx);
            // The subtree of the new child.
            assert(level_pre(w1, x.r, Seq::empty(), x.children, a)) by {
                assert(kids_at(w1, x.r) =~= Seq::<NodeV>::empty());
                assert forall|q: u32| inf(x.children, q) && !inf(Seq::<NodeV>::empty(), q) implies !inf(w1, q) by {
                    assert(inn(x, q));
                    assert(q != x.r);
                    lemma_kids_ok_insert(w, p, kk, k, lx);
                }
            }
            assert(kb.contains(x));
            let tj = choose|tj: int| 0 <= tj < top.len() && top[tj] == x;
            assert(decreases_to!(top => top[tj]));
            assert(decreases_to!(top[tj] => top[tj].children));
            lemma_level(w1, x.r, Seq::empty(), x.children, a, rest2);
            // The new child in place.
            let k2 = kk.insert(k, x);
            lemma_kids_ok_insert(w, p, kk, k, x);
            assert(k1.update(k, x) =~= k2);
            lemma_set_kid(w, p, k1, k, x);
            assert(NodeV { children: x.children, ..lx } == x);
            assert(st(w1, x.r, x.children) == st(w, p, k2));
            assert(k2 =~= old_nodes(kb.take(k + 1), ka) + old_kept(kb.skip(k + 1), ka));
            lemma_phase_adds(w, p, ka, kb, a, k + 1, rest, top);
        }
    }
}

/// The children `kbp` with the common ones whose ref is still among
/// `rem` as they stand in `ka`.
pub open spec fn partly(kbp: Seq<NodeV>, ka: Seq<NodeV>, rem: Seq<NodeV>) -> Seq<NodeV> {
    kbp.map_values(|n: NodeV| if has_ref(ka, n.r) && has_ref(rem, n.r) { node_of(ka, n.r) } else { n })
}

/// The node diffs of a level, taken in the order of the target, bring
/// each common child to its target wherever it stands.
pub proof fn lemma_phase_nodes_gen(
    w: Seq<NodeV>,
    p: u32,
    ka: Seq<NodeV>,
    kb: Seq<NodeV>,
    kbp: Seq<NodeV>,
    a: Seq<NodeV>,
    k: int,
    rest: Seq<DeltaOpV>,
)
    requires
        level_pre(w, p, ka, kb, a),
        distinct_refs(kbp),
        kbp.len() == kb.len(),
        forall|y: NodeV| kbp.contains(y) <==> kb.contains(y),
        0 <= k <= kb.len(),
        kids_ok(w, p, partly(kbp, ka, kb.skip(k))),
    ensures
        kids_ok(w, p, kbp),
        apply_spec(st(w, p, partly(kbp, ka, kb.skip(k))), node_diffs(kb.skip(k), ka) + rest) == apply_spec(
            st(w, p, kbp),
            rest,
        ),
    decreases kb, 1nat, kb.len() - k,
{
    let l = partly(kbp, ka, kb.skip(k));
    lemma_uniq_distinct(kb);
    if k == kb.len() {
        assert(kb.skip(k) =~= Seq::<NodeV>::empty());
        assert forall|r: u32| !has_ref(kb.skip(k), r) by {
            lemma_has_ref_iff(kb.skip(k), r);
        }
        assert(l =~= kbp);
        assert(node_diffs(kb.skip(k), ka) + rest =~= rest);
    } else {
        let x = kb[k];
        let bs = kb.skip(k);
        let bt = kb.skip(k + 1);
        assert(bs[0] == x);
        assert(bs.drop_first() =~= bt);
        // Which refs remain.
        assert forall|r: u32| has_ref(bs, r) == (r == x.r || has_ref(bt, r)) && !(r == x.r && has_ref(bt, r)) by {
            lemma_has_ref_iff(bs, r);
            lemma_has_ref_iff(bt, r);
            if has_ref(bt, r) {
                let j = choose|j: int| 0 <= j < bt.len() && (#[trigger] bt[j]).r == r;
                assert(bs[j + 1] == bt[j]);
                assert(kb[k + 1 + j] == bt[j]);
                if r == x.r {
                    assert(kb[k].r != kb[k + 1 + j].r);
                }
            }
            if has_ref(bs, r) {
                let j = choose|j: int| 0 <= j < bs.len() && (#[trigger] bs[j]).r == r;
                if j > 0 {
                    assert(bt[j - 1] == bs[j]);
                }
            }
            if r == x.r {
                assert(bs[0].r == r);
            }
        }
        let l2 = partly(kbp, ka, bt);
        if has_ref(ka, x.r) {
            assert(kb.contains(x));
            let i = choose|i: int| 0 <= i < kbp.len() && kbp[i] == x;
            lemma_node_of_in(ka, x.r);
            let ax = node_of(ka, x.r);
            assert(l[i] == ax);
            assert(l.update(i, x) =~= l2) by {
                assert forall|j: int| 0 <= j < kbp.len() implies #[trigger] l.update(i, x)[j] == l2[j] by {
                    if j != i {
                        if j < i {
                            assert(kbp[j].r != kbp[i].r);
                        } else {
                            assert(kbp[i].r != kbp[j].r);
                        }
                    }
                }
            }
            lemma_all_compat(ka, kb, a);
            assert(compat_child(ka, x, a));
            lemma_uniq_forest(kb);
            assert(uniq_node(x));
            assert(!inn(x, 0)) by {
                if inn(x, 0) {
                    lemma_inf_at(kb, 0, k);
                }
            }
            if p != 0 {
                assert(!inn(x, p)) by {
                    if inn(x, p) {
                        lemma_inf_at(kb, p, k);
                    }
                }
            }
            // The refs of `x` that `ax` lacks are new.
            assert forall|q: u32| inn(x, q) && !inn(ax, q) implies !inf(w, q) && !inf(l, q) && !inf(ka, q) by {
                lemma_compat_fresh(ax, x, a, q);
                lemma_inf_at(kb, q, k);
                lemma_only_in(kb, k, q);
                lemma_inf_exists(l, q);
                if inf(l, q) {
                    let m = choose|m: int| 0 <= m < l.len() && #[trigger] inn(l[m], q);
                    if m != i {
                        if has_ref(ka, kbp[m].r) && has_ref(bs, kbp[m].r) {
                            lemma_node_of_in(ka, kbp[m].r);
                        } else {
                            assert(l[m] == kbp[m]);
                            assert(kbp.contains(kbp[m]));
                            let s = choose|s: int| 0 <= s < kb.len() && kb[s] == kbp[m];
                            if s == k {
                                if m < i {
                                    assert(kbp[m].r != kbp[i].r);
                                } else {
                                    assert(kbp[i].r != kbp[m].r);
                                }
                            }
                        }
                    }
                }
            }
            lemma_kids_ok_update(w, p, l, i, x);
            lemma_with_kids(w, p, l);
            assert forall|q: u32| inn(x, q) && !inn(l[i], q) implies !inf(st(w, p, l), q) by {}
            assert(forall|q: u32| inn(l[i], q) ==> inf(a, q));
            assert(node_diffs(bs, ka) =~= diff_node_spec(ax, x) + node_diffs(bt, ka));
            assert(ka[first_idx(ka, x.r, 0)] == ax);
            assert(node_diffs(bs, ka) + rest =~= diff_node_spec(l[i], x) + (node_diffs(bt, ka) + rest));
            assert(i < kb.len() <= u32::MAX);
            assert(decreases_to!(kb => kb[k]));
            lemma_node(w, p, l, i, x, a, node_diffs(bt, ka) + rest);
            lemma_phase_nodes_gen(w, p, ka, kb, kbp, a, k + 1, rest);
        } else {
            assert(l =~= l2);
            assert(node_diffs(bs, ka) =~= node_diffs(bt, ka));
            lemma_phase_nodes_gen(w, p, ka, kb, kbp, a, k + 1, rest);
        }
    }
}

/// Applying the diff of a node against its target, at its place, gives
/// the target there.
pub proof fn lemma_node(
    w: Seq<NodeV>,
    p: u32,
    k: Seq<NodeV>,
    i: int,
    x: NodeV,
    a: Seq<NodeV>,
    rest: Seq<DeltaOpV>,
)
    requires
        ctx_ok(w, p),
        kids_ok(w, p, k),
        0 <= i < k.len(),
        i <= u32::MAX,
        k[i].r == x.r,
        compat_level(k[i].children, x.children, a),
        uniq_node(x),
        !inn(x, 0),
        p != 0 ==> !inn(x, p),
        forall|q: u32| inn(x, q) && !inn(k[i], q) ==> !inf(st(w, p, k), q),
        forall|q: u32| inn(k[i], q) ==> inf(a, q),
        kids_ok(w, p, k.update(i, x)),
    ensures
        apply_spec(st(w, p, k), diff_node_spec(k[i], x) + rest) == apply_spec(st(w, p, k.update(i, x)), rest),
    decreases x, 4nat, 0int,
{
    let ac = k[i];
    let c = x.r;
    let w0 = st(w, p, k);
    lemma_with_kids(w, p, k);
    lemma_find_kid(w, p, k, i);
    lemma_uniq_forest(k);
    assert(uniq_node(ac));
    if ac.role != x.role || ac.label != x.label || ac.ops != x.ops {
        let rep = DeltaOpV::Replace { r: ac.r, subtree: seq![x] };
        assert(diff_node_spec(ac, x) == seq![rep]);
        let ops = diff_node_spec(ac, x) + rest;
        assert(ops[0] == rep);
        assert(ops.drop_first() =~= rest);
        lemma_op_replace(w, p, k, i, x);
    } else {
        let dcs = diff_children_spec(ac.children, x.children, ac.r);
        assert(decreases_to!(x => x.children));
        if ac.attrs != x.attrs {
            let upd = DeltaOpV::Update { r: ac.r, attrs: x.attrs };
            assert(diff_node_spec(ac, x) =~= seq![upd] + dcs);
            let ops = diff_node_spec(ac, x) + rest;
            assert(ops[0] == upd);
            assert(ops.drop_first() =~= dcs + rest);
            let ac2 = NodeV { attrs: x.attrs, ..ac };
            lemma_edits_as_set(w0, c, with_attrs_fn(x.attrs));
            assert(with_attrs_fn(x.attrs)(ac) == ac2);
            assert forall|q: u32| inn(ac2, q) <==> inn(ac, q) by {
                if ac.r != q {
                    assert(find_in_node(ac2, q) == find_in_nodes(ac.children, q));
                }
            }
            assert(uniq_node(ac2));
            lemma_kids_ok_update(w, p, k, i, ac2);
            lemma_set_kid(w, p, k, i, ac2);
            let k1 = k.update(i, ac2);
            let w1 = st(w, p, k1);
            lemma_with_kids(w, p, k1);
            lemma_find_kid(w, p, k1, i);
            assert(k1[i] == ac2);
            assert(level_pre(w1, c, ac.children, x.children, a)) by {
                assert(kids_at(w1, c) == ac.children);
                assert forall|q: u32| inf(x.children, q) && !inf(ac.children, q) implies !inf(w1, q) by {
                    assert(q != c);
                    assert(inn(x, q));
                    assert(!inn(ac, q));
                    lemma_kids_ok_update(w, p, k, i, ac2);
                }
                assert forall|q: u32| inf(ac.children, q) implies inf(a, q) by {
                    assert(inn(ac, q));
                }
            }
            lemma_level(w1, c, ac.children, x.children, a, rest);
            assert(NodeV { children: x.children, ..ac2 } == x);
            assert(k1.update(i, x) =~= k.update(i, x));
            lemma_set_kid(w, p, k1, i, x);
        } else {
            assert(diff_node_spec(ac, x) =~= dcs);
            assert(level_pre(w0, c, ac.children, x.children, a)) by {
                assert(kids_at(w0, c) == ac.children);
                assert forall|q: u32| inf(x.children, q) && !inf(ac.children, q) implies !inf(w0, q) by {
                    assert(q != c);
                    assert(inn(x, q));
                }
                assert forall|q: u32| inf(ac.children, q) implies inf(a, q) by {
                    assert(inn(ac, q));
                }
            }
            lemma_level(w0, c, ac.children, x.children, a, rest);
            assert(NodeV { children: x.children, ..ac } == x);
            lemma_set_kid(w, p, k, i, x);
        }
    }
}

/// Applying a diff reproduces its target: for forests `a` and `b` with
/// unique refs, none of them 0, where each node of `b` whose ref occurs
/// in `a` hangs under the node with the same parent ref (or at root
/// level in both), the moves of each level put its common children into
/// the order of `b` (see [`moves_settle`]; it holds when the common
/// children keep their order, and for two swapped children), each list
/// of children of `b` has at most `u32::MAX` nodes, and the other nodes
/// of `b` carry refs that `a` lacks, applying `diff(a, b)` to `a` gives
/// `b`.
pub proof fn lemma_apply_diff(a: Seq<NodeV>, b: Seq<NodeV>)
    requires
        uniq_forest(a),
        uniq_forest(b),
        !inf(a, 0),
        !inf(b, 0),
        compat_level(a, b, a),
    ensures
        apply_spec(a, diff_spec(a, b)) == Ok::<Seq<NodeV>, ParseErrorView>(b),
{
    let e = Seq::<DeltaOpV>::empty();
    assert(level_pre(a, 0, a, b, a));
    lemma_level(a, 0, a, b, a, e);
    assert(diff_spec(a, b) + e =~= diff_spec(a, b));
}

} // verus!
