//! Compute a delta between two trees.

use vstd::prelude::*;

use crate::delta::apply::{first_idx, first_index, lemma_first_idx, sat_u32, to_u32_sat};
use crate::delta::{op_view, ops_view, DeltaOp, DeltaOpV};
use crate::tree::{duplicate_nodes, lemma_nodes_view, node_view, nodes_view, tree_view, Node, NodeV, Ref, Tree};

verus! {

/// True when a node of `ns` has ref `r`.
pub open spec fn has_ref(ns: Seq<NodeV>, r: u32) -> bool {
    first_idx(ns, r, 0) < ns.len()
}

/// A Remove for every node of `a` whose ref is not in `b`.
pub open spec fn removes(a: Seq<NodeV>, b: Seq<NodeV>) -> Seq<DeltaOpV>
    decreases a.len(),
{
    if a.len() == 0 {
        Seq::empty()
    } else {
        (if has_ref(b, a[0].r) {
            Seq::empty()
        } else {
            seq![DeltaOpV::Remove { r: a[0].r }]
        }) + removes(a.drop_first(), b)
    }
}

/// Position of the first node of ref `r` among the nodes of `a` whose
/// ref is in `b`.
pub open spec fn kept_pos(a: Seq<NodeV>, b: Seq<NodeV>, r: u32) -> int
    decreases a.len(),
{
    if a.len() == 0 {
        0
    } else if has_ref(b, a[0].r) {
        if a[0].r == r {
            0
        } else {
            1 + kept_pos(a.drop_first(), b, r)
        }
    } else {
        kept_pos(a.drop_first(), b, r)
    }
}

/// A Move (to its position in `b`, under `parent`) for every node of
/// `bs` (the part of `b` from position `off`) present in `a` whose rank
/// among the kept nodes differs between `a` and `b`.
pub open spec fn moves(bs: Seq<NodeV>, off: int, a: Seq<NodeV>, b: Seq<NodeV>, parent: u32) -> Seq<DeltaOpV>
    decreases bs.len(),
{
    if bs.len() == 0 {
        Seq::empty()
    } else {
        (if has_ref(a, bs[0].r) && kept_pos(a, b, bs[0].r) != kept_pos(b, a, bs[0].r) {
            seq![DeltaOpV::Move { r: bs[0].r, parent, pos: Some(sat_u32(off)) }]
        } else {
            Seq::empty()
        }) + moves(bs.drop_first(), off + 1, a, b, parent)
    }
}

/// The ops that turn the children `a` into `b` under `parent`.
pub open spec fn diff_children_spec(a: Seq<NodeV>, b: Seq<NodeV>, parent: u32) -> Seq<DeltaOpV>
    decreases b, 3int,
{
    removes(a, b) + adds(b, 0, a, parent) + node_diffs(b, a) + moves(b, 0, a, b, parent)
}

/// For every node of `bs` (the part of `b` from position `off`) not in
/// `a`: an Add at its position, then Adds for its whole subtree.
pub open spec fn adds(bs: Seq<NodeV>, off: int, a: Seq<NodeV>, parent: u32) -> Seq<DeltaOpV>
    decreases bs, 2int,
{
    if bs.len() == 0 {
        Seq::empty()
    } else {
        let n = bs[0];
        (if has_ref(a, n.r) {
            Seq::empty()
        } else {
            seq![
                DeltaOpV::Add {
                    r: n.r,
                    parent,
                    pos: Some(sat_u32(off)),
                    role: n.role,
                    label: n.label,
                    ops: n.ops,
                    attrs: n.attrs,
                },
            ] + diff_children_spec(Seq::empty(), n.children, n.r)
        }) + adds(bs.drop_first(), off + 1, a, parent)
    }
}

/// For every node of `bs` present in `a`: the ops that turn the first
/// node of `a` with its ref into it.
pub open spec fn node_diffs(bs: Seq<NodeV>, a: Seq<NodeV>) -> Seq<DeltaOpV>
    decreases bs, 2int,
{
    if bs.len() == 0 {
        Seq::empty()
    } else {
        (if has_ref(a, bs[0].r) {
            diff_node_spec(a[first_idx(a, bs[0].r, 0)], bs[0])
        } else {
            Seq::empty()
        }) + node_diffs(bs.drop_first(), a)
    }
}

/// The ops that turn node `a` into node `b` (same ref): a Replace when
/// role, label or ops differ; else an Update when the attributes differ,
/// then the ops for the children.
pub open spec fn diff_node_spec(a: NodeV, b: NodeV) -> Seq<DeltaOpV>
    decreases b, 1int,
{
    if a.role != b.role || a.label != b.label || a.ops != b.ops {
        seq![DeltaOpV::Replace { r: a.r, subtree: seq![b] }]
    } else {
        (if a.attrs != b.attrs {
            seq![DeltaOpV::Update { r: a.r, attrs: b.attrs }]
        } else {
            Seq::empty()
        }) + diff_children_spec(a.children, b.children, a.r)
    }
}

/// What [`diff`] gives for the forests `a` and `b`.
pub open spec fn diff_spec(a: Seq<NodeV>, b: Seq<NodeV>) -> Seq<DeltaOpV> {
    diff_children_spec(a, b, 0)
}

/// Appending an op extends the contents accordingly.
pub proof fn lemma_ops_view_push(s: Seq<DeltaOp>, x: DeltaOp)
    ensures
        ops_view(s.push(x)) == ops_view(s).push(op_view(x)),
{
    assert(ops_view(s.push(x)) =~= ops_view(s).push(op_view(x)));
}

/// True when a node of `ns` has ref `r`.
fn has_ref_exec(ns: &Vec<Node>, r: Ref) -> (b: bool)
    ensures
        b == has_ref(nodes_view(ns@), r.0),
{
    proof {
        lemma_nodes_view(ns@);
    }
    first_index(ns, r) < ns.len()
}

/// Push a Remove for every node of `a` whose ref is not in `b`.
fn push_removes(a: &Vec<Node>, b: &Vec<Node>, ops: &mut Vec<DeltaOp>)
    ensures
        ops_view(final(ops)@) == ops_view(old(ops)@) + removes(nodes_view(a@), nodes_view(b@)),
{
    let ghost av = nodes_view(a@);
    let ghost bv = nodes_view(b@);
    proof {
        lemma_nodes_view(a@);
    }
    let mut i: usize = 0;
    assert(av.skip(0) =~= av);
    while i < a.len()
        invariant
            i <= a.len(),
            av == nodes_view(a@),
            bv == nodes_view(b@),
            av.len() == a@.len(),
            forall|k: int| 0 <= k < a@.len() ==> #[trigger] av[k] == node_view(a@[k]),
            ops_view(ops@) + removes(av.skip(i as int), bv) == ops_view(old(ops)@) + removes(av, bv),
        decreases a.len() - i,
    {
        let ghost before = ops@;
        let ghost sk = av.skip(i as int);
        assert(sk[0] == av[i as int]);
        assert(sk.drop_first() =~= av.skip(i + 1));
        let r = a[i].r;
        assert(av[i as int].r == r.0);
        if !has_ref_exec(b, r) {
            let op = DeltaOp::Remove { r };
            ops.push(op);
            proof {
                lemma_ops_view_push(before, op);
                assert(ops_view(ops@) + removes(av.skip(i + 1), bv) =~= ops_view(before) + removes(sk, bv));
            }
        } else {
            assert(removes(sk, bv) =~= removes(av.skip(i + 1), bv));
        }
        i += 1;
    }
    assert(av.skip(a.len() as int) =~= Seq::<NodeV>::empty());
    assert(ops_view(ops@) + Seq::<DeltaOpV>::empty() =~= ops_view(ops@));
}

/// Position of the first node of ref `r` among the nodes of `a` whose ref
/// is in `b`.
fn kept_pos_exec(a: &Vec<Node>, b: &Vec<Node>, r: Ref) -> (p: usize)
    ensures
        p == kept_pos(nodes_view(a@), nodes_view(b@), r.0),
{
    let ghost av = nodes_view(a@);
    let ghost bv = nodes_view(b@);
    proof {
        lemma_nodes_view(a@);
    }
    let mut count: usize = 0;
    let mut k: usize = 0;
    assert(av.skip(0) =~= av);
    while k < a.len()
        invariant
            k <= a.len(),
            count <= k,
            av == nodes_view(a@),
            bv == nodes_view(b@),
            av.len() == a@.len(),
            forall|j: int| 0 <= j < a@.len() ==> #[trigger] av[j] == node_view(a@[j]),
            kept_pos(av, bv, r.0) == count + kept_pos(av.skip(k as int), bv, r.0),
        decreases a.len() - k,
    {
        let ghost sk = av.skip(k as int);
        assert(sk[0] == av[k as int]);
        assert(sk.drop_first() =~= av.skip(k + 1));
        let x = a[k].r;
        assert(av[k as int].r == x.0);
        if has_ref_exec(b, x) {
            if x == r {
                return count;
            }
            count += 1;
        }
        k += 1;
    }
    assert(av.skip(a.len() as int) =~= Seq::<NodeV>::empty());
    count
}

/// Push the Moves for the nodes of `b` kept from `a` whose rank changed.
fn push_moves(a: &Vec<Node>, b: &Vec<Node>, parent: Ref, ops: &mut Vec<DeltaOp>)
    ensures
        ops_view(final(ops)@) == ops_view(old(ops)@) + moves(
            nodes_view(b@),
            0,
            nodes_view(a@),
            nodes_view(b@),
            parent.0,
        ),
{
    let ghost av = nodes_view(a@);
    let ghost bv = nodes_view(b@);
    proof {
        lemma_nodes_view(b@);
    }
    let mut i: usize = 0;
    assert(bv.skip(0) =~= bv);
    while i < b.len()
        invariant
            i <= b.len(),
            av == nodes_view(a@),
            bv == nodes_view(b@),
            bv.len() == b@.len(),
            forall|k: int| 0 <= k < b@.len() ==> #[trigger] bv[k] == node_view(b@[k]),
            ops_view(ops@) + moves(bv.skip(i as int), i as int, av, bv, parent.0) == ops_view(old(ops)@) + moves(
                bv,
                0,
                av,
                bv,
                parent.0,
            ),
        decreases b.len() - i,
    {
        let ghost before = ops@;
        let ghost sk = bv.skip(i as int);
        assert(sk[0] == bv[i as int]);
        assert(sk.drop_first() =~= bv.skip(i + 1));
        let r = b[i].r;
        assert(bv[i as int].r == r.0);
        if has_ref_exec(a, r) && kept_pos_exec(a, b, r) != kept_pos_exec(b, a, r) {
            let op = DeltaOp::Move { r, parent, pos: Some(to_u32_sat(i)) };
            ops.push(op);
            proof {
                lemma_ops_view_push(before, op);
                assert(ops_view(ops@) + moves(bv.skip(i + 1), i + 1, av, bv, parent.0) =~= ops_view(before) + moves(
                    sk,
                    i as int,
                    av,
                    bv,
                    parent.0,
                ));
            }
        } else {
            assert(moves(sk, i as int, av, bv, parent.0) =~= moves(bv.skip(i + 1), i + 1, av, bv, parent.0));
        }
        i += 1;
    }
    assert(bv.skip(b.len() as int) =~= Seq::<NodeV>::empty());
    assert(ops_view(ops@) + Seq::<DeltaOpV>::empty() =~= ops_view(ops@));
}

/// Push the ops that turn the children `a` into `b` under `parent`.
fn diff_children(a: &Vec<Node>, b: &Vec<Node>, parent: Ref, ops: &mut Vec<DeltaOp>)
    ensures
        ops_view(final(ops)@) == ops_view(old(ops)@) + diff_children_spec(nodes_view(a@), nodes_view(b@), parent.0),
    decreases b, 3int,
{
    let ghost start = ops_view(ops@);
    push_removes(a, b, ops);
    let ghost s1 = ops_view(ops@);
    push_adds(b, a, parent, ops);
    let ghost s2 = ops_view(ops@);
    push_node_diffs(b, a, ops);
    let ghost s3 = ops_view(ops@);
    push_moves(a, b, parent, ops);
    proof {
        assert(nodes_view(b@).skip(0) =~= nodes_view(b@));
        let av = nodes_view(a@);
        let bv = nodes_view(b@);
        assert(ops_view(ops@) =~= start + (removes(av, bv) + adds(bv, 0, av, parent.0) + node_diffs(bv, av) + moves(
            bv,
            0,
            av,
            bv,
            parent.0,
        )));
    }
}

/// Push, for every node of `b` not in `a`, an Add at its position and
/// the Adds of its subtree.
fn push_adds(b: &Vec<Node>, a: &Vec<Node>, parent: Ref, ops: &mut Vec<DeltaOp>)
    ensures
        ops_view(final(ops)@) == ops_view(old(ops)@) + adds(nodes_view(b@), 0, nodes_view(a@), parent.0),
    decreases b, 2int,
{
    let ghost av = nodes_view(a@);
    let ghost bv = nodes_view(b@);
    proof {
        lemma_nodes_view(b@);
    }
    let empty: Vec<Node> = Vec::new();
    assert(nodes_view(empty@) =~= Seq::<NodeV>::empty());
    let mut i: usize = 0;
    assert(bv.skip(0) =~= bv);
    while i < b.len()
        invariant
            i <= b.len(),
            av == nodes_view(a@),
            bv == nodes_view(b@),
            nodes_view(empty@) == Seq::<NodeV>::empty(),
            bv.len() == b@.len(),
            forall|k: int| 0 <= k < b@.len() ==> #[trigger] bv[k] == node_view(b@[k]),
            ops_view(ops@) + adds(bv.skip(i as int), i as int, av, parent.0) == ops_view(old(ops)@) + adds(
                bv,
                0,
                av,
                parent.0,
            ),
        decreases b.len() - i,
    {
        let ghost before = ops_view(ops@);
        let ghost sk = bv.skip(i as int);
        assert(sk[0] == bv[i as int]);
        assert(sk.drop_first() =~= bv.skip(i + 1));
        let n = &b[i];
        assert(bv[i as int] == node_view(*n));
        if !has_ref_exec(a, n.r) {
            let op = DeltaOp::Add {
                r: n.r,
                parent,
                pos: Some(to_u32_sat(i)),
                role: n.role,
                label: n.label.clone(),
                ops: n.ops,
                attrs: n.attrs.duplicate(),
            };
            let ghost ov = op_view(op);
            let ghost pre = ops@;
            ops.push(op);
            proof {
                lemma_ops_view_push(pre, op);
            }
            assert(decreases_to!(b => b@[i as int]));
            assert(decreases_to!(b@[i as int] => b@[i as int].children));
            diff_children(&empty, &n.children, n.r, ops);
            proof {
                let sub = diff_children_spec(Seq::empty(), nodes_view(n.children@), n.r.0);
                assert(node_view(*n).children == nodes_view(n.children@));
                assert(ops_view(ops@) =~= before + (seq![ov] + sub));
                assert(ops_view(ops@) + adds(bv.skip(i + 1), i + 1, av, parent.0) =~= before + adds(
                    sk,
                    i as int,
                    av,
                    parent.0,
                ));
            }
        } else {
            assert(adds(sk, i as int, av, parent.0) =~= adds(bv.skip(i + 1), i + 1, av, parent.0));
        }
        i += 1;
    }
    assert(bv.skip(b.len() as int) =~= Seq::<NodeV>::empty());
    assert(ops_view(ops@) + Seq::<DeltaOpV>::empty() =~= ops_view(ops@));
}

/// Push, for every node of `b` present in `a`, the ops that turn the
/// first node of `a` with its ref into it.
fn push_node_diffs(b: &Vec<Node>, a: &Vec<Node>, ops: &mut Vec<DeltaOp>)
    ensures
        ops_view(final(ops)@) == ops_view(old(ops)@) + node_diffs(nodes_view(b@), nodes_view(a@)),
    decreases b, 2int,
{
    let ghost av = nodes_view(a@);
    let ghost bv = nodes_view(b@);
    proof {
        lemma_nodes_view(b@);
        lemma_nodes_view(a@);
    }
    let mut i: usize = 0;
    assert(bv.skip(0) =~= bv);
    while i < b.len()
        invariant
            i <= b.len(),
            av == nodes_view(a@),
            bv == nodes_view(b@),
            bv.len() == b@.len(),
            av.len() == a@.len(),
            forall|k: int| 0 <= k < b@.len() ==> #[trigger] bv[k] == node_view(b@[k]),
            forall|k: int| 0 <= k < a@.len() ==> #[trigger] av[k] == node_view(a@[k]),
            ops_view(ops@) + node_diffs(bv.skip(i as int), av) == ops_view(old(ops)@) + node_diffs(bv, av),
        decreases b.len() - i,
    {
        let ghost before = ops_view(ops@);
        let ghost sk = bv.skip(i as int);
        assert(sk[0] == bv[i as int]);
        assert(sk.drop_first() =~= bv.skip(i + 1));
        let bn = &b[i];
        assert(bv[i as int] == node_view(*bn));
        let j = first_index(a, bn.r);
        if j < a.len() {
            assert(decreases_to!(b => b@[i as int]));
            diff_node(&a[j], bn, ops);
            proof {
                assert(av[j as int] == node_view(a@[j as int]));
                assert(ops_view(ops@) + node_diffs(bv.skip(i + 1), av) =~= before + node_diffs(sk, av));
            }
        } else {
            assert(node_diffs(sk, av) =~= node_diffs(bv.skip(i + 1), av));
        }
        i += 1;
    }
    assert(bv.skip(b.len() as int) =~= Seq::<NodeV>::empty());
    assert(ops_view(ops@) + Seq::<DeltaOpV>::empty() =~= ops_view(ops@));
}

/// Push the ops that turn node `a` into node `b`.
fn diff_node(a: &Node, b: &Node, ops: &mut Vec<DeltaOp>)
    ensures
        ops_view(final(ops)@) == ops_view(old(ops)@) + diff_node_spec(node_view(*a), node_view(*b)),
    decreases b, 1int,
{
    let ghost before = ops_view(ops@);
    if a.role != b.role || a.label != b.label || a.ops != b.ops {
        let mut sub: Vec<Node> = Vec::new();
        let c = b.duplicate();
        sub.push(c);
        proof {
            lemma_nodes_view(sub@);
            assert(nodes_view(sub@) =~= seq![node_view(*b)]);
        }
        let op = DeltaOp::Replace { r: a.r, subtree: sub };
        let ghost pre = ops@;
        ops.push(op);
        proof {
            lemma_ops_view_push(pre, op);
        }
        return;
    }
    let ghost mid0 = ops@;
    if !a.attrs.same_as(&b.attrs) {
        let op = DeltaOp::Update { r: a.r, attrs: b.attrs.duplicate() };
        ops.push(op);
        proof {
            lemma_ops_view_push(mid0, op);
        }
    }
    let ghost mid = ops_view(ops@);
    diff_children(&a.children, &b.children, a.r, ops);
    proof {
        let head: Seq<DeltaOpV> = if node_view(*a).attrs != node_view(*b).attrs {
            seq![DeltaOpV::Update { r: a.r.0, attrs: node_view(*b).attrs }]
        } else {
            Seq::empty()
        };
        assert(mid =~= before + head);
        assert(ops_view(ops@) =~= before + (head + diff_children_spec(
            nodes_view(a.children@),
            nodes_view(b.children@),
            a.r.0,
        )));
    }
}

/// Compute a delta that transforms `a` into `b`.
///
/// The diff is structurally faithful but not optimized: it never emits
/// a Replace to collapse a whole subtree.
pub fn diff(a: &Tree, b: &Tree) -> (ops: Vec<DeltaOp>)
    ensures
        ops_view(ops@) == diff_spec(tree_view(*a), tree_view(*b)),
{
    let mut ops: Vec<DeltaOp> = Vec::new();
    assert(ops_view(ops@) =~= Seq::<DeltaOpV>::empty());
    diff_children(&a.roots, &b.roots, Ref(0), &mut ops);
    assert(ops_view(ops@) =~= diff_spec(tree_view(*a), tree_view(*b)));
    ops
}

} // verus!
