//! In-memory tree representation and the full-tree wire format.
//!
//! Each node line is
//!
//! ```text
//! <ref> <role> <label> [op[,op]...] [k=v]...
//! ```
//!
//! prefixed by two spaces of indent per nesting level. The encoder emits
//! a canonical form (attributes sorted by key, ops in source order); the
//! parser accepts either order.

use vstd::prelude::*;

use crate::attrs::{sorted_insert, Attrs};
use crate::codes::{Op, Role};
use crate::num::{dec, push_dec};
use crate::error::{ParseError, ParseErrorView};
use crate::num::{parse_u32, parse_u32_spec};
use crate::text::{
    all_white_space, chars_of, find_from, is_blank_line, lemma_find_from, lines, lines_spec, string_of,
    vecs_view,
};
use crate::tokenize::{
    copy_range, quote_label, quote_label_spec, quote_value, quote_value_spec, split_indent,
    split_indent_spec, strip_quotes, strip_quotes_spec, tokens, Tokenizer,
};

verus! {

/// A stable session-scoped element identifier. `0` is reserved as the
/// wire sentinel for "root level" in delta operations.
#[derive(Debug, Clone, Copy, PartialEq, Eq, Structural, Hash, PartialOrd, Ord)]
pub struct Ref(pub u32);

impl Ref {
    /// The wire sentinel for "root level" parents in delta `Add` / `Move`.
    pub fn root() -> (r: Ref)
        ensures
            r.0 == 0,
    {
        Ref(0)
    }

    /// True if this ref is the root sentinel.
    pub fn is_root(self) -> (b: bool)
        ensures
            b == (self.0 == 0),
    {
        self.0 == 0
    }

    /// Decimal wire form.
    pub fn to_string(self) -> (s: String)
        ensures
            s@ == dec(self.0 as nat),
    {
        let mut v: Vec<char> = Vec::new();
        push_dec(&mut v, self.0 as u64);
        assert(v@ =~= dec(self.0 as nat));
        string_of(&v)
    }
}

/// The set of ops a node offers, one flag per [`Op`].
#[derive(Debug, Clone, Copy, PartialEq, Eq, Structural, Hash, Default)]
pub struct OpSet {
    pub click: bool,
    pub fill: bool,
    pub scroll: bool,
    pub key: bool,
    pub submit: bool,
    pub hover: bool,
    pub focus: bool,
}

impl OpSet {
    /// True when `op` is in the set.
    pub open spec fn has(self, op: Op) -> bool {
        match op {
            Op::Click => self.click,
            Op::Fill => self.fill,
            Op::Scroll => self.scroll,
            Op::Key => self.key,
            Op::Submit => self.submit,
            Op::Hover => self.hover,
            Op::Focus => self.focus,
        }
    }

    /// True when the set is empty.
    pub open spec fn spec_is_empty(self) -> bool {
        forall|op: Op| !self.has(op)
    }

    /// The ops of the set whose source index is at least `i`, in source order.
    pub open spec fn list_from(self, i: int) -> Seq<Op>
        decreases 7 - i,
    {
        if i < 0 || i >= 7 {
            Seq::empty()
        } else {
            let op = Op::spec_all()[i];
            if self.has(op) {
                seq![op] + self.list_from(i + 1)
            } else {
                self.list_from(i + 1)
            }
        }
    }

    /// The ops of the set, in source order.
    pub open spec fn list(self) -> Seq<Op> {
        self.list_from(0)
    }

    /// The set with no op.
    pub open spec fn none() -> OpSet {
        OpSet {
            click: false,
            fill: false,
            scroll: false,
            key: false,
            submit: false,
            hover: false,
            focus: false,
        }
    }

    /// The set with `op` added.
    pub open spec fn with(self, op: Op) -> OpSet {
        match op {
            Op::Click => OpSet { click: true, ..self },
            Op::Fill => OpSet { fill: true, ..self },
            Op::Scroll => OpSet { scroll: true, ..self },
            Op::Key => OpSet { key: true, ..self },
            Op::Submit => OpSet { submit: true, ..self },
            Op::Hover => OpSet { hover: true, ..self },
            Op::Focus => OpSet { focus: true, ..self },
        }
    }

    /// The empty set.
    pub fn new() -> (s: OpSet)
        ensures
            s == OpSet::none(),
            s.spec_is_empty(),
    {
        OpSet {
            click: false,
            fill: false,
            scroll: false,
            key: false,
            submit: false,
            hover: false,
            focus: false,
        }
    }

    /// A set holding exactly the given ops.
    pub fn from_ops(ops: &[Op]) -> (s: OpSet)
        ensures
            forall|op: Op| s.has(op) <==> ops@.contains(op),
    {
        let mut s = OpSet::new();
        let mut i: usize = 0;
        while i < ops.len()
            invariant
                i <= ops.len(),
                forall|op: Op| s.has(op) <==> ops@.take(i as int).contains(op),
            decreases ops.len() - i,
        {
            s.insert(ops[i]);
            assert forall|op: Op| s.has(op) <==> ops@.take(i + 1).contains(op) by {
                let t = ops@.take(i as int);
                let t1 = ops@.take(i + 1);
                assert(t1 =~= t.push(ops@[i as int]));
                if t.contains(op) {
                    let k = choose|k: int| 0 <= k < t.len() && t[k] == op;
                    assert(t1[k] == op);
                }
                if op == ops@[i as int] {
                    assert(t1[i as int] == op);
                }
                if t1.contains(op) {
                    let k = choose|k: int| 0 <= k < t1.len() && t1[k] == op;
                    if k < i {
                        assert(t[k] == op);
                    }
                }
            }
            i += 1;
        }
        assert(ops@.take(ops.len() as int) =~= ops@);
        s
    }

    /// True when `op` is in the set.
    pub fn contains(&self, op: Op) -> (b: bool)
        ensures
            b == self.has(op),
    {
        match op {
            Op::Click => self.click,
            Op::Fill => self.fill,
            Op::Scroll => self.scroll,
            Op::Key => self.key,
            Op::Submit => self.submit,
            Op::Hover => self.hover,
            Op::Focus => self.focus,
        }
    }

    /// Add `op`.
    pub fn insert(&mut self, op: Op)
        ensures
            *final(self) == old(self).with(op),
            forall|o: Op| final(self).has(o) == (old(self).has(o) || o == op),
    {
        match op {
            Op::Click => self.click = true,
            Op::Fill => self.fill = true,
            Op::Scroll => self.scroll = true,
            Op::Key => self.key = true,
            Op::Submit => self.submit = true,
            Op::Hover => self.hover = true,
            Op::Focus => self.focus = true,
        }
    }

    /// True when the set is empty.
    pub fn is_empty(&self) -> (b: bool)
        ensures
            b == self.spec_is_empty(),
    {
        proof {
            assert(self.has(Op::Click) == self.click);
            assert(self.has(Op::Fill) == self.fill);
            assert(self.has(Op::Scroll) == self.scroll);
            assert(self.has(Op::Key) == self.key);
            assert(self.has(Op::Submit) == self.submit);
            assert(self.has(Op::Hover) == self.hover);
            assert(self.has(Op::Focus) == self.focus);
        }
        !(self.click || self.fill || self.scroll || self.key || self.submit || self.hover
            || self.focus)
    }

    /// Number of ops in the set.
    pub fn len(&self) -> (n: usize)
        ensures
            n == self.list().len(),
    {
        let mut n: usize = 0;
        if self.click {
            n += 1;
        }
        if self.fill {
            n += 1;
        }
        if self.scroll {
            n += 1;
        }
        if self.key {
            n += 1;
        }
        if self.submit {
            n += 1;
        }
        if self.hover {
            n += 1;
        }
        if self.focus {
            n += 1;
        }
        proof {
            reveal_with_fuel(OpSet::list_from, 8);
        }
        n
    }
}

/// One node in the a11y tree.
#[derive(Debug, PartialEq, Eq)]
pub struct Node {
    pub r: Ref,
    pub role: Role,
    pub label: String,
    pub ops: OpSet,
    pub attrs: Attrs,
    pub children: Vec<Node>,
}

/// The content of a node, with every text as characters.
pub struct NodeV {
    pub r: u32,
    pub role: Role,
    pub label: Seq<char>,
    pub ops: OpSet,
    pub attrs: Seq<(Seq<char>, Seq<char>)>,
    pub children: Seq<NodeV>,
}

/// The content of `n`.
pub open spec fn node_view(n: Node) -> NodeV
    decreases n,
{
    NodeV {
        r: n.r.0,
        role: n.role,
        label: n.label@,
        ops: n.ops,
        attrs: n.attrs@,
        children: nodes_view(n.children@),
    }
}

/// The contents of the nodes of `s`.
pub open spec fn nodes_view(s: Seq<Node>) -> Seq<NodeV>
    decreases s,
{
    if s.len() == 0 {
        Seq::empty()
    } else {
        seq![node_view(s[0])] + nodes_view(s.drop_first())
    }
}

pub proof fn lemma_nodes_view(s: Seq<Node>)
    ensures
        nodes_view(s).len() == s.len(),
        forall|i: int| 0 <= i < s.len() ==> #[trigger] nodes_view(s)[i] == node_view(s[i]),
    decreases s.len(),
{
    if s.len() > 0 {
        lemma_nodes_view(s.drop_first());
        assert forall|i: int| 0 <= i < s.len() implies #[trigger] nodes_view(s)[i] == node_view(s[i]) by {
            if i > 0 {
                assert(s.drop_first()[i - 1] == s[i]);
            }
        }
    }
}

/// The contents of nodes follow the edits of their sequence.
pub proof fn lemma_nodes_view_edits(s: Seq<Node>, t: Seq<Node>, i: int, x: Node)
    ensures
        0 <= i <= s.len() ==> nodes_view(s.insert(i, x)) == nodes_view(s).insert(i, node_view(x)),
        0 <= i < s.len() ==> nodes_view(s.remove(i)) == nodes_view(s).remove(i),
        0 <= i < s.len() ==> nodes_view(s.update(i, x)) == nodes_view(s).update(i, node_view(x)),
        0 <= i <= s.len() ==> nodes_view(s.skip(i)) == nodes_view(s).skip(i),
        nodes_view(s.push(x)) == nodes_view(s).push(node_view(x)),
        nodes_view(s + t) == nodes_view(s) + nodes_view(t),
{
    lemma_nodes_view(s);
    lemma_nodes_view(t);
    lemma_nodes_view(s.push(x));
    lemma_nodes_view(s + t);
    assert(nodes_view(s.push(x)) =~= nodes_view(s).push(node_view(x)));
    assert(nodes_view(s + t) =~= nodes_view(s) + nodes_view(t));
    if 0 <= i <= s.len() {
        lemma_nodes_view(s.insert(i, x));
        lemma_nodes_view(s.skip(i));
        assert(nodes_view(s.insert(i, x)) =~= nodes_view(s).insert(i, node_view(x)));
        assert(nodes_view(s.skip(i)) =~= nodes_view(s).skip(i));
    }
    if 0 <= i < s.len() {
        lemma_nodes_view(s.remove(i));
        lemma_nodes_view(s.update(i, x));
        assert(nodes_view(s.remove(i)) =~= nodes_view(s).remove(i));
        assert(nodes_view(s.update(i, x)) =~= nodes_view(s).update(i, node_view(x)));
    }
}

impl Node {
    /// Build a leaf node with no ops, attrs, or children.
    pub fn leaf(r: Ref, role: Role, label: &str) -> (n: Node)
        ensures
            n.r == r,
            n.role == role,
            n.label@ == label@,
            n.ops.spec_is_empty(),
            n.attrs@.len() == 0,
            n.children@.len() == 0,
    {
        let l = chars_of(label);
        Node { r, role, label: string_of(&l), ops: OpSet::new(), attrs: Attrs::new(), children: Vec::new() }
    }

    /// A deep copy with the same content.
    pub fn duplicate(&self) -> (c: Node)
        ensures
            node_view(c) == node_view(*self),
        decreases self, 0nat,
    {
        let children = duplicate_nodes(&self.children);
        Node {
            r: self.r,
            role: self.role,
            label: self.label.clone(),
            ops: self.ops,
            attrs: self.attrs.duplicate(),
            children,
        }
    }
}

/// Deep copies of every node of `nodes`, in order.
pub fn duplicate_nodes(nodes: &Vec<Node>) -> (c: Vec<Node>)
    ensures
        nodes_view(c@) == nodes_view(nodes@),
    decreases nodes, 1nat,
{
    let mut out: Vec<Node> = Vec::new();
    let mut i: usize = 0;
    while i < nodes.len()
        invariant
            i <= nodes.len(),
            out.len() == i,
            forall|j: int| 0 <= j < i ==> node_view(#[trigger] out@[j]) == node_view(nodes@[j]),
        decreases nodes.len() - i,
    {
        assert(decreases_to!(nodes => nodes@[i as int]));
        let n = nodes[i].duplicate();
        out.push(n);
        i += 1;
    }
    proof {
        lemma_nodes_view(out@);
        lemma_nodes_view(nodes@);
        assert(nodes_view(out@) =~= nodes_view(nodes@));
    }
    out
}

impl Clone for Node {
    fn clone(&self) -> (c: Node)
        ensures
            node_view(c) == node_view(*self),
    {
        self.duplicate()
    }
}

/// A full a11y tree as exchanged on the wire.
#[derive(Debug, PartialEq, Eq)]
pub struct Tree {
    pub roots: Vec<Node>,
}

/// The content of a tree: its root nodes.
pub open spec fn tree_view(t: Tree) -> Seq<NodeV> {
    nodes_view(t.roots@)
}

impl Tree {
    /// An empty tree.
    pub fn new() -> (t: Tree)
        ensures
            t.roots@.len() == 0,
    {
        Tree { roots: Vec::new() }
    }

    /// A tree with the single root `root`.
    pub fn from_root(root: Node) -> (t: Tree)
        ensures
            t.roots@ == seq![root],
    {
        let mut roots = Vec::new();
        roots.push(root);
        Tree { roots }
    }
}

impl Clone for Tree {
    fn clone(&self) -> (c: Tree)
        ensures
            tree_view(c) == tree_view(*self),
    {
        Tree { roots: duplicate_nodes(&self.roots) }
    }
}

/// Comma-joined wire forms of `l`.
pub open spec fn join_ops(l: Seq<Op>) -> Seq<char>
    decreases l.len(),
{
    if l.len() == 0 {
        Seq::empty()
    } else if l.len() == 1 {
        l[0].wire()
    } else {
        l[0].wire() + seq![','] + join_ops(l.drop_first())
    }
}

/// ` <ops>` when the set is non-empty, nothing otherwise.
pub open spec fn ops_part(ops: OpSet) -> Seq<char> {
    if ops.list().len() == 0 {
        Seq::empty()
    } else {
        seq![' '] + join_ops(ops.list())
    }
}

/// ` k=v` for every pair, values quoted as needed.
pub open spec fn attrs_part(a: Seq<(Seq<char>, Seq<char>)>) -> Seq<char>
    decreases a.len(),
{
    if a.len() == 0 {
        Seq::empty()
    } else {
        seq![' '] + a[0].0 + seq!['='] + quote_value_spec(a[0].1) + attrs_part(a.drop_first())
    }
}

/// `<role> <label>[ ops][ attrs]` — the part of a node line after its ref.
pub open spec fn node_tail(role: Role, label: Seq<char>, ops: OpSet, attrs: Seq<(Seq<char>, Seq<char>)>) -> Seq<char> {
    role.wire() + seq![' '] + quote_label_spec(label) + ops_part(ops) + attrs_part(attrs)
}

/// Two spaces per level.
pub open spec fn indent(depth: nat) -> Seq<char> {
    Seq::new(2 * depth, |i: int| ' ')
}

/// One node line at `depth`, newline included.
pub open spec fn node_line(n: NodeV, depth: nat) -> Seq<char> {
    indent(depth) + dec(n.r as nat) + seq![' '] + node_tail(n.role, n.label, n.ops, n.attrs) + seq!['\n']
}

/// The lines of `n` and its subtree, in pre-order, starting at `depth`.
pub open spec fn encode_node_spec(n: NodeV, depth: nat) -> Seq<char>
    decreases n,
{
    node_line(n, depth) + encode_nodes_spec(n.children, depth + 1)
}

/// The lines of every node of `s` and their subtrees, at `depth`.
pub open spec fn encode_nodes_spec(s: Seq<NodeV>, depth: nat) -> Seq<char>
    decreases s,
{
    if s.len() == 0 {
        Seq::empty()
    } else {
        encode_node_spec(s[0], depth) + encode_nodes_spec(s.drop_first(), depth)
    }
}

pub(crate) fn push_all(out: &mut Vec<char>, s: &[char])
    ensures
        final(out)@ == old(out)@ + s@,
{
    let mut i: usize = 0;
    while i < s.len()
        invariant
            i <= s.len(),
            out@ == old(out)@ + s@.take(i as int),
        decreases s.len() - i,
    {
        out.push(s[i]);
        assert(s@.take(i + 1) =~= s@.take(i as int).push(s@[i as int]));
        i += 1;
    }
    assert(s@.take(s.len() as int) =~= s@);
}

pub(crate) fn push_str(out: &mut Vec<char>, s: &str)
    ensures
        final(out)@ == old(out)@ + s@,
{
    let v = chars_of(s);
    push_all(out, &v);
}

/// Append ` <ops>` when `ops` is non-empty.
pub fn push_ops(out: &mut Vec<char>, ops: &OpSet)
    ensures
        final(out)@ == old(out)@ + ops_part(*ops),
{
    let all = Op::all();
    let ghost start = out@;
    let mut first = true;
    let mut i: usize = 0;
    proof {
        reveal_with_fuel(OpSet::list_from, 8);
    }
    while i < all.len()
        invariant
            all@ == Op::spec_all(),
            i <= 7,
            first == (ops.list().len() == ops.list_from(i as int).len()),
            first ==> out@ == start,
            !first ==> out@ == start + seq![' '] + join_ops(ops.list().take(ops.list().len() - ops.list_from(i as int).len())),
            ops.list() == ops.list().take(ops.list().len() - ops.list_from(i as int).len()) + ops.list_from(i as int),
        decreases 7 - i,
    {
        let op = all[i];
        if ops.contains(op) {
            let ghost done = ops.list().take(ops.list().len() - ops.list_from(i as int).len());
            if first {
                out.push(' ');
            } else {
                out.push(',');
            }
            push_str(out, op.as_str());
            proof {
                lemma_join_ops_push(done, op);
                assert(ops.list_from(i as int) == seq![op] + ops.list_from(i + 1));
                assert(ops.list().take(ops.list().len() - ops.list_from(i + 1).len()) =~= done.push(op));
            }
            first = false;
        }
        i += 1;
    }
    proof {
        assert(ops.list_from(7) == Seq::<Op>::empty());
        assert(ops.list().take(ops.list().len() as int) =~= ops.list());
    }
}

pub proof fn lemma_join_ops_push(l: Seq<Op>, op: Op)
    ensures
        l.len() == 0 ==> join_ops(l.push(op)) == op.wire(),
        l.len() > 0 ==> join_ops(l.push(op)) == join_ops(l) + seq![','] + op.wire(),
    decreases l.len(),
{
    if l.len() == 0 {
        assert(seq![op].len() == 1);
        assert(l.push(op) =~= seq![op]);
    } else if l.len() == 1 {
        assert(l.push(op).drop_first() =~= seq![op]);
        assert(join_ops(l) == l[0].wire());
        assert(seq![op].len() == 1 && seq![op][0] == op);
        assert(join_ops(seq![op]) == op.wire());
        assert(l.push(op)[0] == l[0]);
    } else {
        lemma_join_ops_push(l.drop_first(), op);
        assert(l.push(op).drop_first() =~= l.drop_first().push(op));
        assert(l.push(op)[0] == l[0]);
        assert(join_ops(l.push(op)) =~= join_ops(l) + seq![','] + op.wire());
    }
}

/// Append ` k=v` for every pair of `a`.
pub fn push_attrs(out: &mut Vec<char>, a: &Attrs)
    ensures
        final(out)@ == old(out)@ + attrs_part(a@),
{
    let ghost start = out@;
    let n = a.len();
    let mut i: usize = 0;
    assert(a@.skip(0) =~= a@);
    while i < n
        invariant
            n == a@.len(),
            i <= n,
            out@ + attrs_part(a@.skip(i as int)) == start + attrs_part(a@),
        decreases n - i,
    {
        let (k, v) = a.entry(i);
        let ghost before = out@;
        out.push(' ');
        push_all(out, k.as_slice());
        out.push('=');
        let q = quote_value(v.as_slice());
        push_all(out, &q);
        proof {
            assert(a@.skip(i as int).drop_first() =~= a@.skip(i + 1));
            assert(a@.skip(i as int)[0] == a@[i as int]);
            assert(out@ =~= before + (seq![' '] + k@ + seq!['='] + quote_value_spec(v@)));
        }
        i += 1;
    }
    assert(a@.skip(n as int) =~= Seq::<(Seq<char>, Seq<char>)>::empty());
    assert(a@.skip(0) =~= a@);
}

/// Append `<role> <label>[ ops][ attrs]`.
pub fn push_tail(out: &mut Vec<char>, role: Role, label: &[char], ops: &OpSet, attrs: &Attrs)
    ensures
        final(out)@ == old(out)@ + node_tail(role, label@, *ops, attrs@),
{
    push_str(out, role.as_str());
    out.push(' ');
    let q = quote_label(label);
    push_all(out, &q);
    push_ops(out, ops);
    push_attrs(out, attrs);
    assert(final(out)@ =~= old(out)@ + node_tail(role, label@, *ops, attrs@));
}

/// Append the lines of `node` and its subtree at `depth`, whose indent is `pad`.
fn encode_node(node: &Node, pad: &Vec<char>, Ghost(depth): Ghost<nat>, out: &mut Vec<char>)
    requires
        pad@ == indent(depth),
    ensures
        final(out)@ == old(out)@ + encode_node_spec(node_view(*node), depth),
    decreases node, 0nat,
{
    let ghost start = out@;
    push_all(out, pad.as_slice());
    push_dec(out, node.r.0 as u64);
    out.push(' ');
    let label = chars_of(node.label.as_str());
    push_tail(out, node.role, &label, &node.ops, &node.attrs);
    out.push('\n');
    assert(out@ =~= start + node_line(node_view(*node), depth));
    let mut child_pad = vstd::slice::slice_to_vec(pad.as_slice());
    child_pad.push(' ');
    child_pad.push(' ');
    assert(child_pad@ =~= indent(depth + 1));
    encode_children(&node.children, &child_pad, Ghost(depth + 1), out);
    proof {
        assert(node_view(*node).children == nodes_view(node.children@));
    }
}

/// Append the lines of every node of `nodes` at `depth`, whose indent is `pad`.
pub(crate) fn encode_children(nodes: &Vec<Node>, pad: &Vec<char>, Ghost(depth): Ghost<nat>, out: &mut Vec<char>)
    requires
        pad@ == indent(depth),
    ensures
        final(out)@ == old(out)@ + encode_nodes_spec(nodes_view(nodes@), depth),
    decreases nodes, 1nat,
{
    let ghost start = out@;
    let mut i: usize = 0;
    assert(nodes@.skip(0) =~= nodes@);
    while i < nodes.len()
        invariant
            i <= nodes.len(),
            pad@ == indent(depth),
            out@ + encode_nodes_spec(nodes_view(nodes@.skip(i as int)), depth) == start
                + encode_nodes_spec(nodes_view(nodes@), depth),
        decreases nodes.len() - i,
    {
        let ghost before = out@;
        assert(decreases_to!(nodes => nodes@[i as int]));
        encode_node(&nodes[i], pad, Ghost(depth), out);
        proof {
            let rest = nodes@.skip(i as int);
            assert(rest[0] == nodes@[i as int]);
            assert(rest.drop_first() =~= nodes@.skip(i + 1));
            assert(nodes_view(rest) == seq![node_view(rest[0])] + nodes_view(rest.drop_first()));
            assert(nodes_view(rest)[0] == node_view(rest[0]));
            assert(nodes_view(rest).drop_first() =~= nodes_view(rest.drop_first()));
        }
        i += 1;
    }
    assert(nodes@.skip(nodes.len() as int) =~= Seq::<Node>::empty());
    assert(nodes@.skip(0) =~= nodes@);
}

impl Tree {
    /// Encode the tree as a sequence of indented lines (no trailing
    /// blank line, no envelope).
    pub fn encode(&self) -> (s: String)
        ensures
            s@ == encode_nodes_spec(tree_view(*self), 0),
    {
        let mut out: Vec<char> = Vec::new();
        let pad: Vec<char> = Vec::new();
        assert(pad@ =~= indent(0));
        encode_children(&self.roots, &pad, Ghost(0), &mut out);
        assert(out@ =~= encode_nodes_spec(tree_view(*self), 0));
        string_of(&out)
    }
}

/// What one node line says, before its children are known.
pub struct ShellV {
    pub r: u32,
    pub role: Role,
    pub label: Seq<char>,
    pub ops: OpSet,
    pub attrs: Seq<(Seq<char>, Seq<char>)>,
}

/// The node that `sh` describes, with `children`.
pub open spec fn shell_node(sh: ShellV, children: Seq<NodeV>) -> NodeV {
    NodeV { r: sh.r, role: sh.role, label: sh.label, ops: sh.ops, attrs: sh.attrs, children }
}

/// `ops` with every op of the comma-separated cluster `t` added, or the
/// error of the first bad piece: `empty` for an empty one.
pub open spec fn parse_cluster(t: Seq<char>, ops: OpSet, empty: ParseErrorView) -> Result<OpSet, ParseErrorView>
    decreases t.len(),
{
    let i = find_from(t, ',', 0);
    let piece = t.take(i);
    if i <= 0 {
        Err(empty)
    } else {
        match Op::from_wire(piece) {
            None => Err(ParseErrorView::UnknownCode { kind: "op"@, value: piece }),
            Some(op) => if i >= t.len() {
                Ok(ops.with(op))
            } else {
                parse_cluster(t.skip(i + 1), ops.with(op), empty)
            },
        }
    }
}

/// The error for an empty op in the cluster `t` on line `line`: a
/// malformed line in a tree, an invalid attribute in a delta.
pub open spec fn empty_op_error(t: Seq<char>, line: nat, delta: bool) -> ParseErrorView {
    if delta {
        ParseErrorView::InvalidAttribute { raw: t }
    } else {
        ParseErrorView::MalformedLine { line, message: "empty op in cluster"@ }
    }
}

/// The ops and attributes of the tokens after the label, added to
/// `ops` and `attrs`: a token holding `=` is `key=value` (value
/// unquoted), any other is an op cluster.
pub open spec fn parse_extras(
    toks: Seq<Seq<char>>,
    ops: OpSet,
    attrs: Seq<(Seq<char>, Seq<char>)>,
    line: nat,
    delta: bool,
) -> Result<(OpSet, Seq<(Seq<char>, Seq<char>)>), ParseErrorView>
    decreases toks.len(),
{
    if toks.len() == 0 {
        Ok((ops, attrs))
    } else {
        let t = toks[0];
        let e = find_from(t, '=', 0);
        if e < t.len() {
            if e <= 0 {
                Err(ParseErrorView::InvalidAttribute { raw: t })
            } else {
                parse_extras(
                    toks.drop_first(),
                    ops,
                    sorted_insert(attrs, t.take(e), strip_quotes_spec(t.skip(e + 1))),
                    line,
                    delta,
                )
            }
        } else {
            match parse_cluster(t, ops, empty_op_error(t, line, delta)) {
                Err(x) => Err(x),
                Ok(o) => parse_extras(toks.drop_first(), o, attrs, line, delta),
            }
        }
    }
}

/// What the node line `body` (indent removed) on line `line` says.
pub open spec fn parse_line_spec(body: Seq<char>, line: nat) -> Result<ShellV, ParseErrorView> {
    let toks = tokens(body);
    if toks.len() == 0 {
        Err(ParseErrorView::MalformedLine { line, message: "missing ref"@ })
    } else if toks.len() == 1 {
        Err(ParseErrorView::MalformedLine { line, message: "missing role"@ })
    } else if toks.len() == 2 {
        Err(ParseErrorView::MalformedLine { line, message: "missing label"@ })
    } else {
        match parse_u32_spec(toks[0]) {
            None => Err(ParseErrorView::InvalidRef { raw: toks[0] }),
            Some(r) => match Role::from_wire(toks[1]) {
                None => Err(ParseErrorView::UnknownCode { kind: "role"@, value: toks[1] }),
                Some(role) => match parse_extras(toks.skip(3), OpSet::none(), Seq::empty(), line, false) {
                    Err(x) => Err(x),
                    Ok((ops, attrs)) => Ok(
                        ShellV { r, role, label: strip_quotes_spec(toks[2]), ops, attrs },
                    ),
                },
            },
        }
    }
}

/// The depth and content of every non-blank line of `ls`, whose first
/// line has number `first`; or the error of the first bad line.
pub open spec fn parse_entries(ls: Seq<Seq<char>>, first: nat) -> Result<
    Seq<(nat, ShellV)>,
    ParseErrorView,
>
    decreases ls.len(),
{
    if ls.len() == 0 {
        Ok(Seq::empty())
    } else if all_white_space(ls[0]) {
        parse_entries(ls.drop_first(), first + 1)
    } else {
        let (d, body) = split_indent_spec(ls[0]);
        match parse_line_spec(body, first) {
            Err(e) => Err(e),
            Ok(sh) => match parse_entries(ls.drop_first(), first + 1) {
                Err(e) => Err(e),
                Ok(rest) => Ok(seq![(d as nat, sh)] + rest),
            },
        }
    }
}

/// First position at or after `i` whose depth is at most `d`, or the end.
pub open spec fn run_end(es: Seq<(nat, ShellV)>, d: nat, i: int) -> int
    decreases es.len() - i,
{
    if i < 0 || i >= es.len() {
        es.len() as int
    } else if es[i].0 <= d {
        i
    } else {
        run_end(es, d, i + 1)
    }
}

pub proof fn lemma_run_end(es: Seq<(nat, ShellV)>, d: nat, i: int)
    requires
        0 <= i <= es.len(),
    ensures
        i <= run_end(es, d, i) <= es.len(),
        run_end(es, d, i) < es.len() ==> es[run_end(es, d, i)].0 <= d,
        forall|k: int| i <= k < run_end(es, d, i) ==> (#[trigger] es[k]).0 > d,
    decreases es.len() - i,
{
    if i < es.len() && es[i].0 > d {
        lemma_run_end(es, d, i + 1);
    }
}

/// The nodes of the pre-order entries `es`: each entry's children are
/// the entries that follow it and are deeper, up to the next entry that
/// is not.
pub open spec fn forest(es: Seq<(nat, ShellV)>) -> Seq<NodeV>
    decreases es.len(),
{
    if es.len() == 0 {
        Seq::empty()
    } else {
        let k = run_end(es, es[0].0, 1);
        proof {
            lemma_run_end(es, es[0].0, 1);
        }
        seq![shell_node(es[0].1, forest(es.subrange(1, k)))] + forest(es.subrange(k, es.len() as int))
    }
}

/// What [`Tree::parse`] gives for `input`: the roots, or the error of
/// the first bad line.
pub open spec fn parse_tree_spec(input: Seq<char>) -> Result<Seq<NodeV>, ParseErrorView> {
    match parse_entries(lines_spec(input), 1) {
        Err(e) => Err(e),
        Ok(es) => Ok(forest(es)),
    }
}

/// A parsed node line.
pub struct Shell {
    pub r: Ref,
    pub role: Role,
    pub label: Vec<char>,
    pub ops: OpSet,
    pub attrs: Attrs,
}

/// The content of `sh`.
pub open spec fn shell_view(sh: Shell) -> ShellV {
    ShellV { r: sh.r.0, role: sh.role, label: sh.label@, ops: sh.ops, attrs: sh.attrs@ }
}

/// Every token of `s`.
pub fn all_tokens(s: &[char]) -> (ts: Vec<Vec<char>>)
    ensures
        vecs_view(ts@) == tokens(s@),
{
    let mut tk = Tokenizer::from_chars(s);
    let mut out: Vec<Vec<char>> = Vec::new();
    assert(vecs_view(out@) + tk.remaining() =~= tokens(s@));
    loop
        invariant
            tk.wf(),
            tk.input() == s@,
            vecs_view(out@) + tk.remaining() == tokens(s@),
        decreases tk.remaining().len(),
    {
        let ghost before = out@;
        let ghost rem = tk.remaining();
        match tk.next() {
            None => {
                assert(vecs_view(out@) + tk.remaining() =~= vecs_view(out@));
                return out;
            },
            Some(t) => {
                out.push(t);
                assert(vecs_view(out@) =~= vecs_view(before).push(rem[0]));
                assert(vecs_view(out@) + tk.remaining() =~= vecs_view(before) + rem);
            },
        }
    }
}

/// Add the ops of the comma-separated cluster `t` to `ops`; `empty` is
/// the error for an empty piece.
fn parse_cluster_exec(t: &[char], ops: OpSet, empty: ParseError) -> (res: Result<OpSet, ParseError>)
    ensures
        match res {
            Ok(o) => parse_cluster(t@, ops, empty@) == Ok::<OpSet, ParseErrorView>(o),
            Err(e) => parse_cluster(t@, ops, empty@) == Err::<OpSet, ParseErrorView>(e@),
        },
{
    let mut cur: Vec<char> = vstd::slice::slice_to_vec(t);
    let mut acc = ops;
    loop
        invariant
            parse_cluster(cur@, acc, empty@) == parse_cluster(t@, ops, empty@),
        decreases cur@.len(),
    {
        let mut i: usize = 0;
        while i < cur.len() && cur[i] != ','
            invariant
                i <= cur.len(),
                find_from(cur@, ',', 0) == find_from(cur@, ',', i as int),
            decreases cur.len() - i,
        {
            i += 1;
        }
        proof {
            lemma_find_from(cur@, ',', 0);
        }
        if i == 0 {
            return Err(empty);
        }
        let piece = copy_range(cur.as_slice(), 0, i);
        assert(piece@ =~= cur@.take(i as int));
        match Op::parse_chars(piece.as_slice()) {
            Err(u) => {
                assert(Op::from_wire(piece@) is None);
                return Err(ParseError::UnknownCode(u));
            },
            Ok(op) => {
                proof {
                    crate::codes::lemma_op_from_wire(op);
                }
                acc.insert(op);
                if i >= cur.len() {
                    return Ok(acc);
                }
                let rest = copy_range(cur.as_slice(), i + 1, cur.len());
                assert(rest@ =~= cur@.skip(i + 1));
                cur = rest;
            },
        }
    }
}

/// Add the ops and attributes of the tokens `toks` to `ops` and `attrs`.
pub(crate) fn parse_extras_exec(toks: &Vec<Vec<char>>, ops: OpSet, attrs: Attrs, line: usize, delta: bool) -> (res: Result<
    (OpSet, Attrs),
    ParseError,
>)
    ensures
        match res {
            Ok((o, a)) => parse_extras(vecs_view(toks@), ops, attrs@, line as nat, delta) == Ok::<
                (OpSet, Seq<(Seq<char>, Seq<char>)>),
                ParseErrorView,
            >((o, a@)),
            Err(e) => parse_extras(vecs_view(toks@), ops, attrs@, line as nat, delta) == Err::<
                (OpSet, Seq<(Seq<char>, Seq<char>)>),
                ParseErrorView,
            >(e@),
        },
{
    let ghost all = vecs_view(toks@);
    let mut o = ops;
    let mut a = attrs;
    let mut i: usize = 0;
    assert(all.skip(0) =~= all);
    while i < toks.len()
        invariant
            i <= toks.len(),
            all == vecs_view(toks@),
            parse_extras(all.skip(i as int), o, a@, line as nat, delta) == parse_extras(all, ops, attrs@, line as nat, delta),
        decreases toks.len() - i,
    {
        let t = &toks[i];
        proof {
            assert(all.skip(i as int)[0] == t@);
            assert(all.skip(i as int).drop_first() =~= all.skip(i + 1));
        }
        let mut e: usize = 0;
        while e < t.len() && t[e] != '='
            invariant
                e <= t.len(),
                find_from(t@, '=', 0) == find_from(t@, '=', e as int),
            decreases t.len() - e,
        {
            e += 1;
        }
        proof {
            lemma_find_from(t@, '=', 0);
        }
        if e < t.len() {
            if e == 0 {
                return Err(ParseError::InvalidAttribute { raw: string_of(t.as_slice()) });
            }
            let k = copy_range(t.as_slice(), 0, e);
            let rest = copy_range(t.as_slice(), e + 1, t.len());
            let v = strip_quotes(rest.as_slice());
            assert(k@ =~= t@.take(e as int));
            assert(rest@ =~= t@.skip(e + 1));
            a.insert_chars(k, v);
        } else {
            let empty = if delta {
                ParseError::InvalidAttribute { raw: string_of(t.as_slice()) }
            } else {
                ParseError::MalformedLine { line, message: "empty op in cluster" }
            };
            match parse_cluster_exec(t.as_slice(), o, empty) {
                Err(x) => {
                    return Err(x);
                },
                Ok(no) => {
                    o = no;
                },
            }
        }
        i += 1;
    }
    proof {
        assert(all.skip(toks.len() as int) =~= Seq::<Seq<char>>::empty());
    }
    Ok((o, a))
}

/// Parse one node line `body` (indent removed) found on line `line`.
pub fn parse_node_line(body: &[char], line: usize) -> (res: Result<Shell, ParseError>)
    ensures
        match res {
            Ok(sh) => parse_line_spec(body@, line as nat) == Ok::<ShellV, ParseErrorView>(shell_view(sh)),
            Err(e) => parse_line_spec(body@, line as nat) == Err::<ShellV, ParseErrorView>(e@),
        },
{
    let toks = all_tokens(body);
    let ghost tv = vecs_view(toks@);
    assert(tv.len() == toks@.len());
    if toks.len() == 0 {
        return Err(ParseError::MalformedLine { line, message: "missing ref" });
    }
    if toks.len() == 1 {
        return Err(ParseError::MalformedLine { line, message: "missing role" });
    }
    if toks.len() == 2 {
        return Err(ParseError::MalformedLine { line, message: "missing label" });
    }
    assert(tv[0] == toks@[0]@ && tv[1] == toks@[1]@ && tv[2] == toks@[2]@);
    let r = match parse_u32(toks[0].as_slice()) {
        None => {
            return Err(ParseError::InvalidRef { raw: string_of(toks[0].as_slice()) });
        },
        Some(r) => r,
    };
    let role = match Role::parse_chars(toks[1].as_slice()) {
        Err(u) => {
            assert(Role::from_wire(tv[1]) is None);
            return Err(ParseError::UnknownCode(u));
        },
        Ok(role) => {
            proof {
                crate::codes::lemma_role_from_wire(role);
            }
            role
        },
    };
    let label = strip_quotes(toks[2].as_slice());
    let mut rest: Vec<Vec<char>> = Vec::new();
    let mut i: usize = 3;
    while i < toks.len()
        invariant
            3 <= i <= toks.len(),
            tv == vecs_view(toks@),
            vecs_view(rest@) == tv.subrange(3, i as int),
        decreases toks.len() - i,
    {
        let ghost before = rest@;
        rest.push(vstd::slice::slice_to_vec(toks[i].as_slice()));
        assert(vecs_view(rest@) =~= vecs_view(before).push(tv[i as int]));
        assert(tv.subrange(3, i + 1) =~= tv.subrange(3, i as int).push(tv[i as int]));
        i += 1;
    }
    assert(vecs_view(rest@) =~= tv.skip(3));
    let attrs = Attrs::new();
    match parse_extras_exec(&rest, OpSet::new(), attrs, line, false) {
        Err(x) => Err(x),
        Ok((ops, attrs)) => Ok(Shell { r: Ref(r), role, label, ops, attrs }),
    }
}

/// The depth and content of every entry of `es`.
pub open spec fn entries_view(es: Seq<(usize, Shell)>) -> Seq<(nat, ShellV)> {
    es.map_values(|e: (usize, Shell)| (e.0 as nat, shell_view(e.1)))
}

/// `Ok(p + x)` for `Ok(x)`, the error unchanged.
pub open spec fn prepend_entries(
    p: Seq<(nat, ShellV)>,
    r: Result<Seq<(nat, ShellV)>, ParseErrorView>,
) -> Result<Seq<(nat, ShellV)>, ParseErrorView> {
    match r {
        Err(e) => Err(e),
        Ok(x) => Ok(p + x),
    }
}

/// A copy of the node that `sh` describes, with `children`.
fn shell_to_node(sh: &Shell, children: Vec<Node>) -> (n: Node)
    ensures
        node_view(n) == shell_node(shell_view(*sh), nodes_view(children@)),
{
    Node {
        r: sh.r,
        role: sh.role,
        label: string_of(sh.label.as_slice()),
        ops: sh.ops,
        attrs: sh.attrs.duplicate(),
        children,
    }
}

pub proof fn lemma_run_end_sub(es: Seq<(nat, ShellV)>, lo: int, hi: int, d: nat, k: int)
    requires
        0 <= lo < hi <= es.len(),
        lo + 1 <= k <= hi,
        forall|m: int| lo + 1 <= m < k ==> (#[trigger] es[m]).0 > d,
        k < hi ==> es[k].0 <= d,
    ensures
        run_end(es.subrange(lo, hi), d, 1) == k - lo,
    decreases k - lo,
{
    let w = es.subrange(lo, hi);
    lemma_run_end(w, d, 1);
    let j = run_end(w, d, 1);
    if j < k - lo {
        assert(w[j] == es[lo + j]);
    }
    if j > k - lo {
        assert(w[k - lo] == es[k]);
    }
}

/// The nodes of the entries `es[lo..hi]` (see [`forest`]).
fn build_forest(es: &Vec<(usize, Shell)>, lo: usize, hi: usize) -> (ns: Vec<Node>)
    requires
        lo <= hi <= es.len(),
    ensures
        nodes_view(ns@) == forest(entries_view(es@).subrange(lo as int, hi as int)),
    decreases hi - lo,
{
    let ghost ev = entries_view(es@);
    let mut out: Vec<Node> = Vec::new();
    let mut i = lo;
    assert(nodes_view(out@) + forest(ev.subrange(lo as int, hi as int)) =~= forest(ev.subrange(lo as int, hi as int)));
    while i < hi
        invariant
            lo <= i <= hi <= es.len(),
            ev == entries_view(es@),
            nodes_view(out@) + forest(ev.subrange(i as int, hi as int)) == forest(ev.subrange(lo as int, hi as int)),
        decreases hi - i,
    {
        let d = es[i].0;
        let mut j = i + 1;
        while j < hi && es[j].0 > d
            invariant
                i + 1 <= j <= hi <= es.len(),
                ev == entries_view(es@),
                d == es@[i as int].0,
                forall|m: int| i + 1 <= m < j ==> (#[trigger] ev[m]).0 > d,
            decreases hi - j,
        {
            assert(ev[j as int].0 == es@[j as int].0);
            j += 1;
        }
        proof {
            if j < hi {
                assert(ev[j as int].0 == es@[j as int].0);
            }
            assert(ev[i as int].0 == d);
            lemma_run_end_sub(ev, i as int, hi as int, d as nat, j as int);
            let w = ev.subrange(i as int, hi as int);
            assert(w[0] == ev[i as int]);
            assert(w.subrange(1, j - i) =~= ev.subrange(i + 1, j as int));
            assert(w.subrange(j - i, w.len() as int) =~= ev.subrange(j as int, hi as int));
        }
        let children = build_forest(es, i + 1, j);
        let node = shell_to_node(&es[i].1, children);
        let ghost before = out@;
        out.push(node);
        proof {
            lemma_nodes_view(before);
            lemma_nodes_view(out@);
            assert(nodes_view(out@) =~= nodes_view(before).push(node_view(node)));
            assert(ev[i as int].1 == shell_view(es@[i as int].1));
        }
        i = j;
    }
    assert(ev.subrange(hi as int, hi as int) =~= Seq::<(nat, ShellV)>::empty());
    assert(nodes_view(out@) + Seq::<NodeV>::empty() =~= nodes_view(out@));
    out
}

impl Tree {
    /// Parse the body of a `vs_view` response: tree lines only, no
    /// envelope and no warnings. Blank lines are skipped; two leading
    /// spaces make one level of depth, and each node's parent is the
    /// nearest earlier node of smaller depth.
    pub fn parse(input: &str) -> (res: Result<Tree, ParseError>)
        ensures
            match res {
                Ok(t) => parse_tree_spec(input@) == Ok::<Seq<NodeV>, ParseErrorView>(tree_view(t)),
                Err(e) => parse_tree_spec(input@) == Err::<Seq<NodeV>, ParseErrorView>(e@),
            },
    {
        let chars = chars_of(input);
        let ls = lines(chars.as_slice());
        let ghost lv = vecs_view(ls@);
        let mut entries: Vec<(usize, Shell)> = Vec::new();
        let mut idx: usize = 0;
        assert(lv.skip(0) =~= lv);
        assert(prepend_entries(entries_view(entries@), parse_entries(lv, 1)) =~= parse_entries(lv, 1)) by {
            assert(entries_view(entries@) =~= Seq::<(nat, ShellV)>::empty());
            match parse_entries(lv, 1) {
                Err(e) => {},
                Ok(x) => {
                    assert(Seq::<(nat, ShellV)>::empty() + x =~= x);
                },
            }
        }
        while idx < ls.len()
            invariant
                idx <= ls.len(),
                lv == vecs_view(ls@),
                lv == lines_spec(input@),
                prepend_entries(entries_view(entries@), parse_entries(lv.skip(idx as int), (idx + 1) as nat))
                    == parse_entries(lv, 1),
            decreases ls.len() - idx,
        {
            let line = &ls[idx];
            proof {
                assert(lv.skip(idx as int)[0] == line@);
                assert(lv.skip(idx as int).drop_first() =~= lv.skip(idx + 1));
            }
            if !is_blank_line(line.as_slice()) {
                let (depth, body) = split_indent(line.as_slice());
                match parse_node_line(body.as_slice(), idx + 1) {
                    Err(e) => {
                        return Err(e);
                    },
                    Ok(sh) => {
                        let ghost before = entries@;
                        let ghost shv = shell_view(sh);
                        entries.push((depth, sh));
                        proof {
                            assert(entries_view(entries@) =~= entries_view(before) + seq![(depth as nat, shv)]);
                            let r = parse_entries(lv.skip(idx + 1), (idx + 2) as nat);
                            match r {
                                Err(e) => {},
                                Ok(x) => {
                                    assert(entries_view(before) + (seq![(depth as nat, shv)] + x) =~= entries_view(
                                        entries@,
                                    ) + x);
                                },
                            }
                        }
                    },
                }
            }
            idx += 1;
        }
        proof {
            assert(lv.skip(ls.len() as int) =~= Seq::<Seq<char>>::empty());
            assert(entries_view(entries@) + Seq::<(nat, ShellV)>::empty() =~= entries_view(entries@));
            assert(entries_view(entries@).subrange(0, entries@.len() as int) =~= entries_view(entries@));
        }
        let roots = build_forest(&entries, 0, entries.len());
        Ok(Tree { roots })
    }
}

/// `n` followed by its descendants, in pre-order.
pub open spec fn preorder(n: Node) -> Seq<Node>
    decreases n,
{
    seq![n] + preorder_all(n.children@)
}

/// The pre-order walks of the nodes of `s`, one after the other.
pub open spec fn preorder_all(s: Seq<Node>) -> Seq<Node>
    decreases s,
{
    if s.len() == 0 {
        Seq::empty()
    } else {
        preorder(s[0]) + preorder_all(s.drop_first())
    }
}

/// The pre-order walks of the nodes of a stack, top (last) first.
pub open spec fn stack_order(st: Seq<&Node>) -> Seq<Node>
    decreases st.len(),
{
    if st.len() == 0 {
        Seq::empty()
    } else {
        preorder(*st.last()) + stack_order(st.drop_last())
    }
}

/// Pre-order walk over the nodes of a tree.
pub struct TreeIter<'a> {
    stack: Vec<&'a Node>,
}

impl<'a> TreeIter<'a> {
    /// The nodes still to come, in order.
    pub closed spec fn remaining(&self) -> Seq<Node> {
        stack_order(self.stack@)
    }

    /// The next node in pre-order, or `None` when the walk is over.
    pub fn next(&mut self) -> (n: Option<&'a Node>)
        ensures
            old(self).remaining().len() == 0 ==> n is None && final(self).remaining().len() == 0,
            old(self).remaining().len() > 0 ==> (n matches Some(x) && *x == old(self).remaining()[0]
                && final(self).remaining() == old(self).remaining().drop_first()),
    {
        let ghost st = self.stack@;
        match self.stack.pop() {
            None => {
                assert(st.len() == 0);
                None
            },
            Some(node) => {
                let ghost base = self.stack@;
                assert(base =~= st.drop_last());
                assert(stack_order(st) == seq![*node] + preorder_all(node.children@) + stack_order(base));
                let mut k = node.children.len();
                assert(node.children@.skip(k as int) =~= Seq::<Node>::empty());
                assert(self.stack@ =~= base);
                assert(preorder_all(node.children@.skip(k as int)) + stack_order(base) =~= stack_order(base));
                while k > 0
                    invariant
                        k <= node.children.len(),
                        stack_order(self.stack@) == preorder_all(node.children@.skip(k as int)) + stack_order(base),
                    decreases k,
                {
                    k -= 1;
                    let ghost prev = self.stack@;
                    self.stack.push(&node.children[k]);
                    proof {
                        assert(self.stack@.drop_last() =~= prev);
                        let sk = node.children@.skip(k as int);
                        assert(sk[0] == node.children@[k as int]);
                        assert(sk.drop_first() =~= node.children@.skip(k + 1));
                        assert(stack_order(self.stack@) =~= preorder_all(sk) + stack_order(base));
                    }
                }
                assert(node.children@.skip(0) =~= node.children@);
                assert(stack_order(self.stack@) =~= stack_order(st).drop_first());
                Some(node)
            },
        }
    }
}

impl Tree {
    /// Walk every node of the tree in pre-order.
    pub fn iter(&self) -> (it: TreeIter<'_>)
        ensures
            it.remaining() == preorder_all(self.roots@),
    {
        let mut stack: Vec<&Node> = Vec::new();
        let mut k = self.roots.len();
        assert(self.roots@.skip(k as int) =~= Seq::<Node>::empty());
        while k > 0
            invariant
                k <= self.roots.len(),
                stack_order(stack@) == preorder_all(self.roots@.skip(k as int)),
            decreases k,
        {
            k -= 1;
            let ghost prev = stack@;
            stack.push(&self.roots[k]);
            proof {
                assert(stack@.drop_last() =~= prev);
                let sk = self.roots@.skip(k as int);
                assert(sk[0] == self.roots@[k as int]);
                assert(sk.drop_first() =~= self.roots@.skip(k + 1));
            }
        }
        assert(self.roots@.skip(0) =~= self.roots@);
        TreeIter { stack }
    }
}

} // verus!
