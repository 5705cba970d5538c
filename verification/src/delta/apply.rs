//! Apply a [`DeltaOp`] sequence to a [`Tree`].

use vstd::prelude::*;

use crate::attrs::Attrs;
use crate::delta::{op_view, ops_view, DeltaOp, DeltaOpV};
use crate::error::{ParseError, ParseErrorView};
use crate::tree::{
    duplicate_nodes, lemma_nodes_view, lemma_nodes_view_edits, node_view, nodes_view, tree_view, Node, NodeV, Ref,
    Tree,
};

verus! {

/// First position at or after `i` whose node has ref `r`, or `ns.len()`.
pub open spec fn first_idx(ns: Seq<NodeV>, r: u32, i: int) -> int
    decreases ns.len() - i,
{
    if i < 0 || i >= ns.len() {
        ns.len() as int
    } else if ns[i].r == r {
        i
    } else {
        first_idx(ns, r, i + 1)
    }
}

pub proof fn lemma_first_idx(ns: Seq<NodeV>, r: u32, i: int)
    requires
        0 <= i <= ns.len(),
    ensures
        i <= first_idx(ns, r, i) <= ns.len(),
        first_idx(ns, r, i) < ns.len() ==> ns[first_idx(ns, r, i)].r == r,
        forall|k: int| i <= k < first_idx(ns, r, i) ==> (#[trigger] ns[k]).r != r,
    decreases ns.len() - i,
{
    if i < ns.len() && ns[i].r != r {
        lemma_first_idx(ns, r, i + 1);
    }
}

/// The first node with ref `r` in a pre-order walk of `n`.
pub open spec fn find_in_node(n: NodeV, r: u32) -> Option<NodeV>
    decreases n,
{
    if n.r == r {
        Some(n)
    } else {
        find_in_nodes(n.children, r)
    }
}

/// The first node with ref `r` in a pre-order walk of the forest `ns`.
pub open spec fn find_in_nodes(ns: Seq<NodeV>, r: u32) -> Option<NodeV>
    decreases ns,
{
    if ns.len() == 0 {
        None
    } else {
        match find_in_node(ns[0], r) {
            Some(x) => Some(x),
            None => find_in_nodes(ns.drop_first(), r),
        }
    }
}

/// `n` with `f` applied to the first node of ref `r` in a pre-order walk.
pub open spec fn edit_node(n: NodeV, r: u32, f: spec_fn(NodeV) -> NodeV) -> Option<NodeV>
    decreases n,
{
    if n.r == r {
        Some(f(n))
    } else {
        match edit_nodes(n.children, r, f) {
            Some(cs) => Some(NodeV { children: cs, ..n }),
            None => None,
        }
    }
}

/// The forest `ns` with `f` applied to the first node of ref `r` in a
/// pre-order walk.
pub open spec fn edit_nodes(ns: Seq<NodeV>, r: u32, f: spec_fn(NodeV) -> NodeV) -> Option<Seq<NodeV>>
    decreases ns,
{
    if ns.len() == 0 {
        None
    } else {
        match edit_node(ns[0], r, f) {
            Some(x) => Some(ns.update(0, x)),
            None => match edit_nodes(ns.drop_first(), r, f) {
                Some(rest) => Some(seq![ns[0]] + rest),
                None => None,
            },
        }
    }
}

/// Replace the attributes of a node by `a`.
pub open spec fn with_attrs_fn(a: Seq<(Seq<char>, Seq<char>)>) -> spec_fn(NodeV) -> NodeV {
    |n: NodeV| NodeV { attrs: a, ..n }
}

/// Where a child given at `pos` lands among `len` children: the end
/// when no position is given or it is past the end.
pub open spec fn clamp_pos(pos: Option<u32>, len: nat) -> int {
    let p: int = match pos {
        Some(p) => p as int,
        None => u32::MAX as int,
    };
    if p < len {
        p
    } else {
        len as int
    }
}

/// Insert `x` among the children of a node at `pos`.
pub open spec fn add_child_fn(pos: Option<u32>, x: NodeV) -> spec_fn(NodeV) -> NodeV {
    |n: NodeV| NodeV { children: n.children.insert(clamp_pos(pos, n.children.len()), x), ..n }
}

/// The forest `ns` with `x` inserted under `parent` (root level for `0`)
/// at `pos`, or the error for a missing parent.
pub open spec fn insert_at_spec(ns: Seq<NodeV>, parent: u32, pos: Option<u32>, x: NodeV) -> Result<
    Seq<NodeV>,
    ParseErrorView,
> {
    if parent == 0 {
        Ok(ns.insert(clamp_pos(pos, ns.len()), x))
    } else {
        match edit_nodes(ns, parent, add_child_fn(pos, x)) {
            Some(t) => Ok(t),
            None => Err(ParseErrorView::ApplyMissingParent(parent)),
        }
    }
}

/// `n` without the subtree of ref `r` found first among its children,
/// then among its descendants child by child; and that subtree.
pub open spec fn take_sub(n: NodeV, r: u32) -> Option<(NodeV, NodeV)>
    decreases n,
{
    let i = first_idx(n.children, r, 0);
    if 0 <= i < n.children.len() {
        Some((NodeV { children: n.children.remove(i), ..n }, n.children[i]))
    } else {
        match take_each(n.children, r) {
            Some((cs, t)) => Some((NodeV { children: cs, ..n }, t)),
            None => None,
        }
    }
}

/// [`take_sub`] tried on each node of `ns` in turn.
pub open spec fn take_each(ns: Seq<NodeV>, r: u32) -> Option<(Seq<NodeV>, NodeV)>
    decreases ns,
{
    if ns.len() == 0 {
        None
    } else {
        match take_sub(ns[0], r) {
            Some((x, t)) => Some((ns.update(0, x), t)),
            None => match take_each(ns.drop_first(), r) {
                Some((rest, t)) => Some((seq![ns[0]] + rest, t)),
                None => None,
            },
        }
    }
}

/// The forest `ns` without the subtree of ref `r` (a root first, then
/// inside each root in turn), and that subtree.
pub open spec fn take_tree(ns: Seq<NodeV>, r: u32) -> Option<(Seq<NodeV>, NodeV)> {
    let i = first_idx(ns, r, 0);
    if 0 <= i < ns.len() {
        Some((ns.remove(i), ns[i]))
    } else {
        take_each(ns, r)
    }
}

/// `i` as a `u32`, saturating.
pub open spec fn sat_u32(i: int) -> u32 {
    if i <= u32::MAX {
        i as u32
    } else {
        u32::MAX
    }
}

/// Parent and position of the first child of ref `r` met when walking the
/// children `cs` (of the node `pr`, from position `off`) and their
/// descendants in pre-order.
pub open spec fn locate_kids(pr: u32, cs: Seq<NodeV>, off: int, r: u32) -> Option<(u32, u32)>
    decreases cs,
{
    if cs.len() == 0 {
        None
    } else if cs[0].r == r {
        Some((pr, sat_u32(off)))
    } else {
        match locate_in(cs[0], r) {
            Some(x) => Some(x),
            None => locate_kids(pr, cs.drop_first(), off + 1, r),
        }
    }
}

/// Parent and position of the first descendant of `n` with ref `r`.
pub open spec fn locate_in(n: NodeV, r: u32) -> Option<(u32, u32)>
    decreases n,
{
    locate_kids(n.r, n.children, 0, r)
}

/// [`locate_in`] tried on each node of `ns` in turn.
pub open spec fn locate_roots(ns: Seq<NodeV>, r: u32) -> Option<(u32, u32)>
    decreases ns,
{
    if ns.len() == 0 {
        None
    } else {
        match locate_in(ns[0], r) {
            Some(x) => Some(x),
            None => locate_roots(ns.drop_first(), r),
        }
    }
}

/// Parent (`0` for root level) and position of the node of ref `r`.
pub open spec fn locate_tree(ns: Seq<NodeV>, r: u32) -> Option<(u32, u32)> {
    let i = first_idx(ns, r, 0);
    if 0 <= i < ns.len() {
        Some((0, sat_u32(i)))
    } else {
        locate_roots(ns, r)
    }
}

/// The forest `ns` after `op`, or the error that refuses it.
pub open spec fn apply_op_spec(ns: Seq<NodeV>, op: DeltaOpV) -> Result<Seq<NodeV>, ParseErrorView> {
    match op {
        DeltaOpV::Remove { r } => Ok(
            match take_tree(ns, r) {
                Some((t, _)) => t,
                None => ns,
            },
        ),
        DeltaOpV::Add { r, parent, pos, role, label, ops, attrs } => if find_in_nodes(ns, r) is Some {
            Err(ParseErrorView::ApplyDuplicateRef(r))
        } else {
            insert_at_spec(ns, parent, pos, NodeV { r, role, label, ops, attrs, children: Seq::empty() })
        },
        DeltaOpV::Update { r, attrs } => match edit_nodes(ns, r, with_attrs_fn(attrs)) {
            Some(t) => Ok(t),
            None => Err(ParseErrorView::ApplyMissingRef(r)),
        },
        DeltaOpV::Move { r, parent, pos } => match take_tree(ns, r) {
            None => Err(ParseErrorView::ApplyMissingRef(r)),
            Some((t, x)) => insert_at_spec(t, parent, pos, x),
        },
        DeltaOpV::Replace { r, subtree } => if subtree.len() == 0 || subtree[0].r != r {
            Err(ParseErrorView::MalformedLine { line: 0, message: "Replace subtree root ref mismatch"@ })
        } else {
            match take_tree(ns, r) {
                None => Err(ParseErrorView::ApplyMissingRef(r)),
                Some((t, _)) => match locate_tree(ns, r) {
                    Some((p, i)) => insert_at_spec(t, p, Some(i), subtree[0]),
                    None => Ok(t),
                },
            }
        },
    }
}

/// The forest `ns` after every op of `ops` in order, or the first error.
pub open spec fn apply_spec(ns: Seq<NodeV>, ops: Seq<DeltaOpV>) -> Result<Seq<NodeV>, ParseErrorView>
    decreases ops.len(),
{
    if ops.len() == 0 {
        Ok(ns)
    } else {
        match apply_op_spec(ns, ops[0]) {
            Err(e) => Err(e),
            Ok(t) => apply_spec(t, ops.drop_first()),
        }
    }
}

/// Copies of `nodes[from..]`.
fn copy_from(nodes: &Vec<Node>, from: usize) -> (v: Vec<Node>)
    requires
        from <= nodes.len(),
    ensures
        nodes_view(v@) == nodes_view(nodes@).skip(from as int),
{
    let mut out: Vec<Node> = Vec::new();
    let mut i = from;
    proof {
        lemma_nodes_view(nodes@);
    }
    while i < nodes.len()
        invariant
            from <= i <= nodes.len(),
            nodes_view(nodes@).len() == nodes@.len(),
            forall|k: int| 0 <= k < nodes@.len() ==> #[trigger] nodes_view(nodes@)[k] == node_view(nodes@[k]),
            nodes_view(out@) == nodes_view(nodes@).subrange(from as int, i as int),
        decreases nodes.len() - i,
    {
        let x = nodes[i].duplicate();
        let ghost before = out@;
        out.push(x);
        proof {
            lemma_nodes_view_edits(before, before, 0, x);
            assert(nodes_view(nodes@).subrange(from as int, i + 1) =~= nodes_view(nodes@).subrange(
                from as int,
                i as int,
            ).push(node_view(nodes@[i as int])));
        }
        i += 1;
    }
    assert(nodes_view(nodes@).subrange(from as int, nodes.len() as int) =~= nodes_view(nodes@).skip(from as int));
    out
}

/// `x` followed by `rest`.
fn cons_node(x: Node, rest: Vec<Node>) -> (v: Vec<Node>)
    ensures
        nodes_view(v@) == seq![node_view(x)] + nodes_view(rest@),
{
    let mut v: Vec<Node> = Vec::new();
    v.push(x);
    let mut rest = rest;
    let ghost r = rest@;
    let ghost one = v@;
    v.append(&mut rest);
    proof {
        assert(v@ == one + r);
        lemma_nodes_view_edits(one, r, 0, x);
        lemma_nodes_view(one);
        assert(nodes_view(one) =~= seq![node_view(x)]);
    }
    v
}

/// Position of the first node of ref `r` in `nodes`, or `nodes.len()`.
pub(crate) fn first_index(nodes: &Vec<Node>, r: Ref) -> (i: usize)
    ensures
        i == first_idx(nodes_view(nodes@), r.0, 0),
{
    let ghost nv = nodes_view(nodes@);
    proof {
        lemma_nodes_view(nodes@);
    }
    let mut i: usize = 0;
    while i < nodes.len() && nodes[i].r != r
        invariant
            i <= nodes.len(),
            nv == nodes_view(nodes@),
            nv.len() == nodes@.len(),
            forall|k: int| 0 <= k < nodes@.len() ==> #[trigger] nv[k] == node_view(nodes@[k]),
            first_idx(nv, r.0, 0) == first_idx(nv, r.0, i as int),
        decreases nodes.len() - i,
    {
        assert(nv[i as int].r == nodes@[i as int].r.0);
        i += 1;
    }
    proof {
        if i < nodes.len() {
            assert(nv[i as int].r == nodes@[i as int].r.0);
        }
    }
    i
}

/// The first node of ref `r` in a pre-order walk of `nodes[i..]`.
fn find_from_nodes(nodes: &Vec<Node>, i: usize, r: Ref) -> (res: Option<&Node>)
    requires
        i <= nodes.len(),
    ensures
        match res {
            Some(n) => find_in_nodes(nodes_view(nodes@).skip(i as int), r.0) == Some(node_view(*n)),
            None => find_in_nodes(nodes_view(nodes@).skip(i as int), r.0) is None,
        },
    decreases nodes, nodes.len() - i,
{
    let ghost nv = nodes_view(nodes@);
    proof {
        lemma_nodes_view(nodes@);
    }
    if i >= nodes.len() {
        assert(nv.skip(i as int) =~= Seq::<NodeV>::empty());
        return None;
    }
    let n = &nodes[i];
    let ghost sk = nv.skip(i as int);
    proof {
        assert(sk[0] == node_view(*n));
        assert(sk.drop_first() =~= nv.skip(i + 1));
    }
    if n.r == r {
        assert(find_in_node(sk[0], r.0) == Some(sk[0]));
        return Some(n);
    }
    assert(find_in_node(sk[0], r.0) == find_in_nodes(sk[0].children, r.0));
    assert(sk[0].children == nodes_view(n.children@));
    assert(decreases_to!(nodes => nodes@[i as int]));
    assert(nodes_view(n.children@).skip(0) =~= nodes_view(n.children@));
    match find_from_nodes(&n.children, 0, r) {
        Some(x) => Some(x),
        None => find_from_nodes(nodes, i + 1, r),
    }
}

/// The first node of ref `r` in a pre-order walk of `tree`.
pub fn find(tree: &Tree, r: Ref) -> (res: Option<&Node>)
    ensures
        match res {
            Some(n) => find_in_nodes(tree_view(*tree), r.0) == Some(node_view(*n)),
            None => find_in_nodes(tree_view(*tree), r.0) is None,
        },
{
    assert(nodes_view(tree.roots@).skip(0) =~= nodes_view(tree.roots@));
    find_from_nodes(&tree.roots, 0, r)
}

/// A copy of `n` with the attributes `a`.
fn with_attrs(n: &Node, a: &Attrs) -> (x: Node)
    ensures
        node_view(x) == (with_attrs_fn(a@))(node_view(*n)),
{
    Node {
        r: n.r,
        role: n.role,
        label: n.label.clone(),
        ops: n.ops,
        attrs: a.duplicate(),
        children: duplicate_nodes(&n.children),
    }
}

/// A copy of `n` with the children `cs`.
fn with_children(n: &Node, cs: Vec<Node>) -> (x: Node)
    ensures
        node_view(x) == (NodeV { children: nodes_view(cs@), ..node_view(*n) }),
{
    Node { r: n.r, role: n.role, label: n.label.clone(), ops: n.ops, attrs: n.attrs.duplicate(), children: cs }
}

/// Where a child given at `pos` lands among `len` children.
fn clamp(pos: Option<u32>, len: usize) -> (p: usize)
    ensures
        p == clamp_pos(pos, len as nat),
{
    let p: usize = match pos {
        Some(p) => p as usize,
        None => u32::MAX as usize,
    };
    if p < len {
        p
    } else {
        len
    }
}

/// A copy of `n` with `x` inserted among its children at `pos`.
fn with_child(n: &Node, pos: Option<u32>, x: &Node) -> (y: Node)
    ensures
        node_view(y) == (add_child_fn(pos, node_view(*x)))(node_view(*n)),
{
    let mut cs = duplicate_nodes(&n.children);
    let p = clamp(pos, cs.len());
    let ghost before = cs@;
    let xc = x.duplicate();
    cs.insert(p, xc);
    proof {
        lemma_nodes_view(before);
        lemma_nodes_view_edits(before, before, p as int, xc);
    }
    with_children(n, cs)
}

/// What an edit does to a node: set its attributes, or insert a child.
pub enum Edit<'a> {
    SetAttrs(&'a Attrs),
    AddChild(Option<u32>, &'a Node),
}

/// The node function of an edit.
pub open spec fn edit_fn(e: Edit) -> spec_fn(NodeV) -> NodeV {
    match e {
        Edit::SetAttrs(a) => with_attrs_fn(a@),
        Edit::AddChild(pos, x) => add_child_fn(pos, node_view(*x)),
    }
}

fn apply_edit(n: &Node, e: &Edit) -> (x: Node)
    ensures
        node_view(x) == (edit_fn(*e))(node_view(*n)),
{
    match e {
        Edit::SetAttrs(a) => with_attrs(n, a),
        Edit::AddChild(pos, c) => with_child(n, *pos, c),
    }
}

/// `nodes[i..]` with the edit applied to the first node of ref `r` in a
/// pre-order walk, if there is one.
fn edit_from(nodes: &Vec<Node>, i: usize, r: Ref, e: &Edit) -> (res: Option<Vec<Node>>)
    requires
        i <= nodes.len(),
    ensures
        match res {
            Some(v) => edit_nodes(nodes_view(nodes@).skip(i as int), r.0, edit_fn(*e)) == Some(nodes_view(v@)),
            None => edit_nodes(nodes_view(nodes@).skip(i as int), r.0, edit_fn(*e)) is None,
        },
    decreases nodes, nodes.len() - i,
{
    let ghost nv = nodes_view(nodes@);
    proof {
        lemma_nodes_view(nodes@);
    }
    if i >= nodes.len() {
        assert(nv.skip(i as int) =~= Seq::<NodeV>::empty());
        return None;
    }
    let n = &nodes[i];
    let ghost sk = nv.skip(i as int);
    proof {
        assert(sk[0] == node_view(*n));
        assert(sk.drop_first() =~= nv.skip(i + 1));
    }
    if n.r == r {
        assert(edit_node(sk[0], r.0, edit_fn(*e)) == Some((edit_fn(*e))(sk[0])));
        let x = apply_edit(n, e);
        let rest = copy_from(nodes, i + 1);
        let v = cons_node(x, rest);
        assert(nodes_view(v@) =~= sk.update(0, node_view(x)));
        return Some(v);
    }
    assert(decreases_to!(nodes => nodes@[i as int]));
    assert(nodes_view(n.children@).skip(0) =~= nodes_view(n.children@));
    assert(sk[0].children == nodes_view(n.children@));
    assert(edit_node(sk[0], r.0, edit_fn(*e)) == match edit_nodes(sk[0].children, r.0, edit_fn(*e)) {
        Some(cs) => Some(NodeV { children: cs, ..sk[0] }),
        None => None,
    });
    match edit_from(&n.children, 0, r, e) {
        Some(cs) => {
            let x = with_children(n, cs);
            let rest = copy_from(nodes, i + 1);
            let v = cons_node(x, rest);
            assert(nodes_view(v@) =~= sk.update(0, node_view(x)));
            Some(v)
        },
        None => match edit_from(nodes, i + 1, r, e) {
            Some(w) => {
                let x = n.duplicate();
                let v = cons_node(x, w);
                Some(v)
            },
            None => None,
        },
    }
}

/// `n` without its subtree of ref `r` (see [`take_sub`]), and that subtree.
fn take_sub_exec(n: &Node, r: Ref) -> (res: Option<(Node, Node)>)
    ensures
        match res {
            Some((x, t)) => take_sub(node_view(*n), r.0) == Some((node_view(x), node_view(t))),
            None => take_sub(node_view(*n), r.0) is None,
        },
    decreases n, 0int,
{
    let ghost cv = nodes_view(n.children@);
    let i = first_index(&n.children, r);
    proof {
        lemma_first_idx(cv, r.0, 0);
        lemma_nodes_view(n.children@);
    }
    if i < n.children.len() {
        let mut cs = duplicate_nodes(&n.children);
        let ghost before = cs@;
        proof {
            lemma_nodes_view(before);
        }
        let t = cs.remove(i);
        proof {
            lemma_nodes_view_edits(before, before, i as int, t);
            assert(cs@ == before.remove(i as int));
        }
        let x = with_children(n, cs);
        return Some((x, t));
    }
    assert(nodes_view(n.children@).skip(0) =~= nodes_view(n.children@));
    match take_each_from(&n.children, 0, r) {
        Some((cs, t)) => Some((with_children(n, cs), t)),
        None => None,
    }
}

/// [`take_sub_exec`] tried on each node of `nodes[i..]` in turn.
fn take_each_from(nodes: &Vec<Node>, i: usize, r: Ref) -> (res: Option<(Vec<Node>, Node)>)
    requires
        i <= nodes.len(),
    ensures
        match res {
            Some((v, t)) => take_each(nodes_view(nodes@).skip(i as int), r.0) == Some((nodes_view(v@), node_view(t))),
            None => take_each(nodes_view(nodes@).skip(i as int), r.0) is None,
        },
    decreases nodes, (nodes.len() - i) as int,
{
    let ghost nv = nodes_view(nodes@);
    proof {
        lemma_nodes_view(nodes@);
    }
    if i >= nodes.len() {
        assert(nv.skip(i as int) =~= Seq::<NodeV>::empty());
        return None;
    }
    let n = &nodes[i];
    let ghost sk = nv.skip(i as int);
    proof {
        assert(sk[0] == node_view(*n));
        assert(sk.drop_first() =~= nv.skip(i + 1));
    }
    assert(decreases_to!(nodes => nodes@[i as int]));
    match take_sub_exec(n, r) {
        Some((x, t)) => {
            let rest = copy_from(nodes, i + 1);
            let v = cons_node(x, rest);
            assert(nodes_view(v@) =~= sk.update(0, node_view(x)));
            Some((v, t))
        },
        None => match take_each_from(nodes, i + 1, r) {
            Some((w, t)) => {
                let x = n.duplicate();
                Some((cons_node(x, w), t))
            },
            None => None,
        },
    }
}

/// The roots without the subtree of ref `r` (see [`take_tree`]), and that
/// subtree.
fn take_roots(roots: &Vec<Node>, r: Ref) -> (res: Option<(Vec<Node>, Node)>)
    ensures
        match res {
            Some((v, t)) => take_tree(nodes_view(roots@), r.0) == Some((nodes_view(v@), node_view(t))),
            None => take_tree(nodes_view(roots@), r.0) is None,
        },
{
    let ghost nv = nodes_view(roots@);
    let i = first_index(roots, r);
    proof {
        lemma_first_idx(nv, r.0, 0);
        lemma_nodes_view(roots@);
    }
    if i < roots.len() {
        let mut cs = duplicate_nodes(roots);
        let ghost before = cs@;
        proof {
            lemma_nodes_view(before);
        }
        let t = cs.remove(i);
        proof {
            lemma_nodes_view_edits(before, before, i as int, t);
        }
        return Some((cs, t));
    }
    assert(nv.skip(0) =~= nv);
    take_each_from(roots, 0, r)
}

/// Remove the subtree rooted at `r` from `tree` and return it; `None`
/// (and the tree unchanged) when `r` is not present.
pub fn take_subtree(tree: &mut Tree, r: Ref) -> (res: Option<Node>)
    ensures
        match take_tree(tree_view(*old(tree)), r.0) {
            Some((t, x)) => res matches Some(n) && node_view(n) == x && tree_view(*final(tree)) == t,
            None => res is None && tree_view(*final(tree)) == tree_view(*old(tree)),
        },
{
    match take_roots(&tree.roots, r) {
        Some((v, t)) => {
            tree.roots = v;
            Some(t)
        },
        None => None,
    }
}

/// `i` as a `u32`, saturating.
pub(crate) fn to_u32_sat(i: usize) -> (v: u32)
    ensures
        v == sat_u32(i as int),
{
    if i <= u32::MAX as usize {
        i as u32
    } else {
        u32::MAX
    }
}

/// Parent and position of the first child of ref `r` among `cs[i..]` and
/// their descendants (see [`locate_kids`]).
fn locate_kids_exec(pr: Ref, cs: &Vec<Node>, i: usize, r: Ref) -> (res: Option<(Ref, u32)>)
    requires
        i <= cs.len(),
    ensures
        match res {
            Some((p, k)) => locate_kids(pr.0, nodes_view(cs@).skip(i as int), i as int, r.0) == Some((p.0, k)),
            None => locate_kids(pr.0, nodes_view(cs@).skip(i as int), i as int, r.0) is None,
        },
    decreases cs, (cs.len() - i) as int,
{
    let ghost nv = nodes_view(cs@);
    proof {
        lemma_nodes_view(cs@);
    }
    if i >= cs.len() {
        assert(nv.skip(i as int) =~= Seq::<NodeV>::empty());
        return None;
    }
    let c = &cs[i];
    let ghost sk = nv.skip(i as int);
    proof {
        assert(sk[0] == node_view(*c));
        assert(sk.drop_first() =~= nv.skip(i + 1));
    }
    if c.r == r {
        return Some((pr, to_u32_sat(i)));
    }
    assert(decreases_to!(cs => cs@[i as int]));
    match locate_in_exec(c, r) {
        Some(x) => Some(x),
        None => locate_kids_exec(pr, cs, i + 1, r),
    }
}

/// Parent and position of the first descendant of `n` with ref `r`.
fn locate_in_exec(n: &Node, r: Ref) -> (res: Option<(Ref, u32)>)
    ensures
        match res {
            Some((p, k)) => locate_in(node_view(*n), r.0) == Some((p.0, k)),
            None => locate_in(node_view(*n), r.0) is None,
        },
    decreases n, 0int,
{
    assert(nodes_view(n.children@).skip(0) =~= nodes_view(n.children@));
    locate_kids_exec(n.r, &n.children, 0, r)
}

/// [`locate_in_exec`] tried on each root of `roots[i..]` in turn.
fn locate_roots_exec(roots: &Vec<Node>, i: usize, r: Ref) -> (res: Option<(Ref, u32)>)
    requires
        i <= roots.len(),
    ensures
        match res {
            Some((p, k)) => locate_roots(nodes_view(roots@).skip(i as int), r.0) == Some((p.0, k)),
            None => locate_roots(nodes_view(roots@).skip(i as int), r.0) is None,
        },
    decreases roots.len() - i,
{
    let ghost nv = nodes_view(roots@);
    proof {
        lemma_nodes_view(roots@);
    }
    if i >= roots.len() {
        assert(nv.skip(i as int) =~= Seq::<NodeV>::empty());
        return None;
    }
    proof {
        assert(nv.skip(i as int)[0] == node_view(roots@[i as int]));
        assert(nv.skip(i as int).drop_first() =~= nv.skip(i + 1));
    }
    match locate_in_exec(&roots[i], r) {
        Some(x) => Some(x),
        None => locate_roots_exec(roots, i + 1, r),
    }
}

/// Parent (`0` for root level) and position of the node of ref `r`.
fn locate(tree: &Tree, r: Ref) -> (res: Option<(Ref, u32)>)
    ensures
        match res {
            Some((p, k)) => locate_tree(tree_view(*tree), r.0) == Some((p.0, k)),
            None => locate_tree(tree_view(*tree), r.0) is None,
        },
{
    let ghost nv = tree_view(*tree);
    let i = first_index(&tree.roots, r);
    proof {
        lemma_first_idx(nv, r.0, 0);
        lemma_nodes_view(tree.roots@);
    }
    if i < tree.roots.len() {
        return Some((Ref(0), to_u32_sat(i)));
    }
    assert(nv.skip(0) =~= nv);
    locate_roots_exec(&tree.roots, 0, r)
}

/// Insert `node` under `parent` (root level for `0`) at `pos`, clamped to
/// the end.
fn insert_at(tree: &mut Tree, parent: Ref, pos: Option<u32>, node: Node) -> (res: Result<(), ParseError>)
    ensures
        match insert_at_spec(tree_view(*old(tree)), parent.0, pos, node_view(node)) {
            Ok(t) => res is Ok && tree_view(*final(tree)) == t,
            Err(e) => res matches Err(x) && x@ == e,
        },
{
    if parent.is_root() {
        let p = clamp(pos, tree.roots.len());
        let ghost before = tree.roots@;
        let ghost nv = node_view(node);
        tree.roots.insert(p, node);
        proof {
            lemma_nodes_view(before);
            lemma_nodes_view_edits(before, before, p as int, tree.roots@[p as int]);
            assert(tree.roots@ == before.insert(p as int, tree.roots@[p as int]));
        }
        return Ok(());
    }
    let e = Edit::AddChild(pos, &node);
    assert(nodes_view(tree.roots@).skip(0) =~= nodes_view(tree.roots@));
    match edit_from(&tree.roots, 0, parent, &e) {
        Some(v) => {
            tree.roots = v;
            Ok(())
        },
        None => Err(ParseError::ApplyMissingParent(parent.0)),
    }
}

/// A leaf node with the content of an Add op.
fn added_leaf(op: &DeltaOp) -> (n: Node)
    requires
        op is Add,
    ensures
        match op_view(*op) {
            DeltaOpV::Add { r, role, label, ops, attrs, .. } => node_view(n) == (NodeV {
                r,
                role,
                label,
                ops,
                attrs,
                children: Seq::empty(),
            }),
            _ => false,
        },
{
    match op {
        DeltaOp::Add { r, role, label, ops, attrs, .. } => {
            let n = Node {
                r: *r,
                role: *role,
                label: label.clone(),
                ops: *ops,
                attrs: attrs.duplicate(),
                children: Vec::new(),
            };
            assert(nodes_view(n.children@) =~= Seq::<NodeV>::empty());
            n
        },
        _ => {
            assert(false);
            Node::leaf(Ref(0), crate::codes::Role::Doc, "")
        },
    }
}

/// Apply one op to `tree`.
fn apply_one(tree: &mut Tree, op: &DeltaOp) -> (res: Result<(), ParseError>)
    ensures
        match apply_op_spec(tree_view(*old(tree)), op_view(*op)) {
            Ok(t) => res is Ok && tree_view(*final(tree)) == t,
            Err(e) => res matches Err(x) && x@ == e,
        },
{
    match op {
        DeltaOp::Remove { r } => {
            let _ = take_subtree(tree, *r);
            Ok(())
        },
        DeltaOp::Add { r, parent, pos, .. } => {
            if find(tree, *r).is_some() {
                return Err(ParseError::ApplyDuplicateRef(r.0));
            }
            let node = added_leaf(op);
            insert_at(tree, *parent, *pos, node)
        },
        DeltaOp::Update { r, attrs } => {
            let e = Edit::SetAttrs(attrs);
            assert(nodes_view(tree.roots@).skip(0) =~= nodes_view(tree.roots@));
            match edit_from(&tree.roots, 0, *r, &e) {
                Some(v) => {
                    tree.roots = v;
                    Ok(())
                },
                None => Err(ParseError::ApplyMissingRef(r.0)),
            }
        },
        DeltaOp::Move { r, parent, pos } => {
            match take_subtree(tree, *r) {
                None => Err(ParseError::ApplyMissingRef(r.0)),
                Some(node) => insert_at(tree, *parent, *pos, node),
            }
        },
        DeltaOp::Replace { r, subtree } => {
            proof {
                lemma_nodes_view(subtree@);
            }
            if subtree.len() == 0 || subtree[0].r != *r {
                return Err(ParseError::MalformedLine { line: 0, message: "Replace subtree root ref mismatch" });
            }
            let location = locate(tree, *r);
            match take_subtree(tree, *r) {
                None => Err(ParseError::ApplyMissingRef(r.0)),
                Some(_) => {
                    let new_node = subtree[0].duplicate();
                    match location {
                        Some((parent, pos)) => insert_at(tree, parent, Some(pos), new_node),
                        None => Ok(()),
                    }
                },
            }
        },
    }
}

/// Apply `ops` to a copy of `prev` and return the resulting tree, or the
/// error of the first op that cannot apply.
pub fn apply(prev: &Tree, ops: &[DeltaOp]) -> (res: Result<Tree, ParseError>)
    ensures
        match apply_spec(tree_view(*prev), ops_view(ops@)) {
            Ok(t) => res matches Ok(x) && tree_view(x) == t,
            Err(e) => res matches Err(x) && x@ == e,
        },
{
    let mut tree = prev.clone();
    let ghost all = ops_view(ops@);
    let mut i: usize = 0;
    assert(all.skip(0) =~= all);
    while i < ops.len()
        invariant
            i <= ops.len(),
            all == ops_view(ops@),
            apply_spec(tree_view(tree), all.skip(i as int)) == apply_spec(tree_view(*prev), all),
        decreases ops.len() - i,
    {
        proof {
            assert(all.skip(i as int)[0] == op_view(ops@[i as int]));
            assert(all.skip(i as int).drop_first() =~= all.skip(i + 1));
        }
        match apply_one(&mut tree, &ops[i]) {
            Err(e) => {
                return Err(e);
            },
            Ok(()) => {},
        }
        i += 1;
    }
    assert(all.skip(ops.len() as int) =~= Seq::<DeltaOpV>::empty());
    Ok(tree)
}

} // verus!
