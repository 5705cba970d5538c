//! Delta operations: encoding, parsing, application, and diffing.
//!
//! Five operations, one wire line each (Replace adds its subtree lines):
//!
//! | Op      | Wire                                          |
//! | ------- | --------------------------------------------- |
//! | Add     | `+<ref>@<parent>[:<pos>] <role> <label> ...`  |
//! | Remove  | `-<ref>`                                      |
//! | Update  | `~<ref> <k>=<v> ...`                          |
//! | Move    | `><ref>@<parent>[:<pos>]`                     |
//! | Replace | `*<ref>` then indented subtree                |
//!
//! The wire encoding is canonical (attributes sorted, ops in source
//! order); the parser is tolerant.

use vstd::prelude::*;

use crate::attrs::{sorted_insert, Attrs};
use crate::codes::Role;
use crate::error::{ParseError, ParseErrorView};
use crate::num::{dec, parse_u32, parse_u32_spec, push_dec};
use crate::text::{
    all_white_space, chars_of, find_char, find_from, is_blank_line, lemma_find_from, lines, lines_spec,
    string_of, trim, trim_spec, vecs_view,
};
use crate::tokenize::{copy_range, split_indent, split_indent_spec, strip_quotes, strip_quotes_spec, tokens};
use crate::tree::{
    all_tokens, attrs_part, duplicate_nodes, encode_children, encode_nodes_spec, indent, node_tail,
    nodes_view, parse_extras, parse_extras_exec, parse_tree_spec, push_all, push_attrs, push_tail,
    tree_view, Node, NodeV, OpSet, Ref, Tree,
};

pub mod apply;
pub mod apply_laws;
pub mod diff;
pub mod diff_parts;
pub mod reorder;
pub mod laws;
pub mod wire_laws;

verus! {

/// One delta operation.
#[derive(Debug, PartialEq, Eq)]
pub enum DeltaOp {
    /// Insert a new leaf node under `parent` at `pos` (or at the end if
    /// `None`). A `parent` of `0` means root level.
    Add { r: Ref, parent: Ref, pos: Option<u32>, role: Role, label: String, ops: OpSet, attrs: Attrs },
    /// Remove the subtree rooted at `r`.
    Remove { r: Ref },
    /// Replace the attribute map at `r` (role, label and ops changes go
    /// through [`DeltaOp::Replace`]).
    Update { r: Ref, attrs: Attrs },
    /// Reparent or reorder `r` to `parent` at `pos`.
    Move { r: Ref, parent: Ref, pos: Option<u32> },
    /// Drop the subtree at `r` and install `subtree` in its place; the
    /// wire form indents these lines under the `*<ref>` header.
    Replace { r: Ref, subtree: Vec<Node> },
}

/// The content of a [`DeltaOp`], with every text as characters.
pub enum DeltaOpV {
    Add {
        r: u32,
        parent: u32,
        pos: Option<u32>,
        role: Role,
        label: Seq<char>,
        ops: OpSet,
        attrs: Seq<(Seq<char>, Seq<char>)>,
    },
    Remove { r: u32 },
    Update { r: u32, attrs: Seq<(Seq<char>, Seq<char>)> },
    Move { r: u32, parent: u32, pos: Option<u32> },
    Replace { r: u32, subtree: Seq<NodeV> },
}

/// The content of `op`.
pub open spec fn op_view(op: DeltaOp) -> DeltaOpV {
    match op {
        DeltaOp::Add { r, parent, pos, role, label, ops, attrs } => DeltaOpV::Add {
            r: r.0,
            parent: parent.0,
            pos,
            role,
            label: label@,
            ops,
            attrs: attrs@,
        },
        DeltaOp::Remove { r } => DeltaOpV::Remove { r: r.0 },
        DeltaOp::Update { r, attrs } => DeltaOpV::Update { r: r.0, attrs: attrs@ },
        DeltaOp::Move { r, parent, pos } => DeltaOpV::Move { r: r.0, parent: parent.0, pos },
        DeltaOp::Replace { r, subtree } => DeltaOpV::Replace { r: r.0, subtree: nodes_view(subtree@) },
    }
}

/// The contents of the ops of `s`, in order.
pub open spec fn ops_view(s: Seq<DeltaOp>) -> Seq<DeltaOpV> {
    s.map_values(|op: DeltaOp| op_view(op))
}

/// The ref an op works on.
pub open spec fn target_spec(op: DeltaOpV) -> u32 {
    match op {
        DeltaOpV::Add { r, .. } => r,
        DeltaOpV::Remove { r } => r,
        DeltaOpV::Update { r, .. } => r,
        DeltaOpV::Move { r, .. } => r,
        DeltaOpV::Replace { r, .. } => r,
    }
}

impl DeltaOp {
    /// The ref this op operates on.
    pub fn target(&self) -> (r: Ref)
        ensures
            r.0 == target_spec(op_view(*self)),
    {
        match self {
            DeltaOp::Add { r, .. } => *r,
            DeltaOp::Remove { r } => *r,
            DeltaOp::Update { r, .. } => *r,
            DeltaOp::Move { r, .. } => *r,
            DeltaOp::Replace { r, .. } => *r,
        }
    }

    /// A copy with the same content.
    pub fn duplicate(&self) -> (c: DeltaOp)
        ensures
            op_view(c) == op_view(*self),
    {
        match self {
            DeltaOp::Add { r, parent, pos, role, label, ops, attrs } => DeltaOp::Add {
                r: *r,
                parent: *parent,
                pos: *pos,
                role: *role,
                label: label.clone(),
                ops: *ops,
                attrs: attrs.duplicate(),
            },
            DeltaOp::Remove { r } => DeltaOp::Remove { r: *r },
            DeltaOp::Update { r, attrs } => DeltaOp::Update { r: *r, attrs: attrs.duplicate() },
            DeltaOp::Move { r, parent, pos } => DeltaOp::Move { r: *r, parent: *parent, pos: *pos },
            DeltaOp::Replace { r, subtree } => DeltaOp::Replace { r: *r, subtree: duplicate_nodes(subtree) },
        }
    }
}

impl Clone for DeltaOp {
    fn clone(&self) -> (c: DeltaOp)
        ensures
            op_view(c) == op_view(*self),
    {
        self.duplicate()
    }
}

/// `:<pos>` when a position is given.
pub open spec fn pos_part(pos: Option<u32>) -> Seq<char> {
    match pos {
        Some(p) => seq![':'] + dec(p as nat),
        None => Seq::empty(),
    }
}

/// `<ref>@<parent>[:<pos>]`.
pub open spec fn ref_at_part(r: u32, parent: u32, pos: Option<u32>) -> Seq<char> {
    dec(r as nat) + seq!['@'] + dec(parent as nat) + pos_part(pos)
}

/// The wire lines of one op.
pub open spec fn encode_op_spec(op: DeltaOpV) -> Seq<char> {
    match op {
        DeltaOpV::Add { r, parent, pos, role, label, ops, attrs } => seq!['+'] + ref_at_part(r, parent, pos)
            + seq![' '] + node_tail(role, label, ops, attrs) + seq!['\n'],
        DeltaOpV::Remove { r } => seq!['-'] + dec(r as nat) + seq!['\n'],
        DeltaOpV::Update { r, attrs } => seq!['~'] + dec(r as nat) + attrs_part(attrs) + seq!['\n'],
        DeltaOpV::Move { r, parent, pos } => seq!['>'] + ref_at_part(r, parent, pos) + seq!['\n'],
        DeltaOpV::Replace { r, subtree } => seq!['*'] + dec(r as nat) + seq!['\n'] + encode_nodes_spec(
            subtree,
            1,
        ),
    }
}

/// The wire lines of every op of `s`, in order.
pub open spec fn encode_ops_spec(s: Seq<DeltaOpV>) -> Seq<char>
    decreases s.len(),
{
    if s.len() == 0 {
        Seq::empty()
    } else {
        encode_op_spec(s[0]) + encode_ops_spec(s.drop_first())
    }
}

fn push_ref_at(out: &mut Vec<char>, r: Ref, parent: Ref, pos: Option<u32>)
    ensures
        final(out)@ == old(out)@ + ref_at_part(r.0, parent.0, pos),
{
    push_dec(out, r.0 as u64);
    out.push('@');
    push_dec(out, parent.0 as u64);
    let ghost mid = out@;
    match pos {
        Some(p) => {
            out.push(':');
            push_dec(out, p as u64);
        },
        None => {},
    }
    assert(final(out)@ =~= old(out)@ + ref_at_part(r.0, parent.0, pos));
}

/// Append the wire lines of `op`.
fn encode_one(op: &DeltaOp, out: &mut Vec<char>)
    ensures
        final(out)@ == old(out)@ + encode_op_spec(op_view(*op)),
{
    match op {
        DeltaOp::Add { r, parent, pos, role, label, ops, attrs } => {
            out.push('+');
            push_ref_at(out, *r, *parent, *pos);
            out.push(' ');
            let l = chars_of(label.as_str());
            push_tail(out, *role, &l, ops, attrs);
            out.push('\n');
        },
        DeltaOp::Remove { r } => {
            out.push('-');
            push_dec(out, r.0 as u64);
            out.push('\n');
        },
        DeltaOp::Update { r, attrs } => {
            out.push('~');
            push_dec(out, r.0 as u64);
            push_attrs(out, attrs);
            out.push('\n');
        },
        DeltaOp::Move { r, parent, pos } => {
            out.push('>');
            push_ref_at(out, *r, *parent, *pos);
            out.push('\n');
        },
        DeltaOp::Replace { r, subtree } => {
            out.push('*');
            push_dec(out, r.0 as u64);
            out.push('\n');
            let mut pad: Vec<char> = Vec::new();
            pad.push(' ');
            pad.push(' ');
            assert(pad@ =~= indent(1));
            encode_children(subtree, &pad, Ghost(1), out);
        },
    }
    assert(final(out)@ =~= old(out)@ + encode_op_spec(op_view(*op)));
}

/// Encode a sequence of delta ops as the wire body.
pub fn encode(ops: &[DeltaOp]) -> (s: String)
    ensures
        s@ == encode_ops_spec(ops_view(ops@)),
{
    let mut out: Vec<char> = Vec::new();
    let mut i: usize = 0;
    let ghost all = ops_view(ops@);
    assert(all.skip(0) =~= all);
    while i < ops.len()
        invariant
            i <= ops.len(),
            all == ops_view(ops@),
            out@ + encode_ops_spec(all.skip(i as int)) == encode_ops_spec(all),
        decreases ops.len() - i,
    {
        let ghost before = out@;
        encode_one(&ops[i], &mut out);
        proof {
            assert(all.skip(i as int)[0] == op_view(ops@[i as int]));
            assert(all.skip(i as int).drop_first() =~= all.skip(i + 1));
            assert(out@ + encode_ops_spec(all.skip(i + 1)) =~= before + encode_ops_spec(all.skip(i as int)));
        }
        i += 1;
    }
    assert(all.skip(ops.len() as int) =~= Seq::<DeltaOpV>::empty());
    assert(out@ + Seq::<char>::empty() =~= out@);
    string_of(&out)
}

/// `<ref>@<parent>[:<pos>]` read from `s` on line `line`.
pub open spec fn ref_at_parent_spec(s: Seq<char>, line: nat) -> Result<(u32, u32, Option<u32>), ParseErrorView> {
    let a = find_from(s, '@', 0);
    if a >= s.len() {
        Err(ParseErrorView::MalformedLine { line, message: "expected ref@parent"@ })
    } else {
        let rp = s.take(a);
        let pp = s.skip(a + 1);
        match parse_u32_spec(rp) {
            None => Err(ParseErrorView::InvalidRef { raw: rp }),
            Some(r) => {
                let c = find_from(pp, ':', 0);
                let p = if c < pp.len() { pp.take(c) } else { pp };
                match parse_u32_spec(p) {
                    None => Err(ParseErrorView::InvalidRef { raw: p }),
                    Some(parent) => if c < pp.len() {
                        let q = pp.skip(c + 1);
                        match parse_u32_spec(q) {
                            None => Err(ParseErrorView::InvalidPosition { raw: q }),
                            Some(pos) => Ok((r, parent, Some(pos))),
                        }
                    } else {
                        Ok((r, parent, None))
                    },
                }
            },
        }
    }
}

/// An Add line after its `+`.
pub open spec fn parse_add_spec(rest: Seq<char>, line: nat) -> Result<DeltaOpV, ParseErrorView> {
    let toks = tokens(rest);
    if toks.len() == 0 {
        Err(ParseErrorView::MalformedLine { line, message: "missing ref@parent"@ })
    } else {
        match ref_at_parent_spec(toks[0], line) {
            Err(e) => Err(e),
            Ok((r, parent, pos)) => if toks.len() == 1 {
                Err(ParseErrorView::MalformedLine { line, message: "missing role"@ })
            } else if toks.len() == 2 {
                Err(ParseErrorView::MalformedLine { line, message: "missing label"@ })
            } else {
                match Role::from_wire(toks[1]) {
                    None => Err(ParseErrorView::UnknownCode { kind: "role"@, value: toks[1] }),
                    Some(role) => match parse_extras(toks.skip(3), OpSet::none(), Seq::empty(), line, true) {
                        Err(e) => Err(e),
                        Ok((ops, attrs)) => Ok(
                            DeltaOpV::Add {
                                r,
                                parent,
                                pos,
                                role,
                                label: strip_quotes_spec(toks[2]),
                                ops,
                                attrs,
                            },
                        ),
                    },
                }
            },
        }
    }
}

/// A Remove line after its `-`.
pub open spec fn parse_remove_spec(rest: Seq<char>, line: nat) -> Result<DeltaOpV, ParseErrorView> {
    let t = trim_spec(rest);
    if t.len() == 0 {
        Err(ParseErrorView::MalformedLine { line, message: "missing ref"@ })
    } else {
        match parse_u32_spec(t) {
            None => Err(ParseErrorView::InvalidRef { raw: t }),
            Some(r) => Ok(DeltaOpV::Remove { r }),
        }
    }
}

/// The attribute tokens of an Update line added to `attrs`.
pub open spec fn update_attrs(toks: Seq<Seq<char>>, attrs: Seq<(Seq<char>, Seq<char>)>) -> Result<
    Seq<(Seq<char>, Seq<char>)>,
    ParseErrorView,
>
    decreases toks.len(),
{
    if toks.len() == 0 {
        Ok(attrs)
    } else {
        let t = toks[0];
        let e = find_from(t, '=', 0);
        if e >= t.len() || e <= 0 {
            Err(ParseErrorView::InvalidAttribute { raw: t })
        } else {
            update_attrs(toks.drop_first(), sorted_insert(attrs, t.take(e), strip_quotes_spec(t.skip(e + 1))))
        }
    }
}

/// An Update line after its `~`.
pub open spec fn parse_update_spec(rest: Seq<char>, line: nat) -> Result<DeltaOpV, ParseErrorView> {
    let toks = tokens(rest);
    if toks.len() == 0 {
        Err(ParseErrorView::MalformedLine { line, message: "missing ref"@ })
    } else {
        match parse_u32_spec(toks[0]) {
            None => Err(ParseErrorView::InvalidRef { raw: toks[0] }),
            Some(r) => match update_attrs(toks.drop_first(), Seq::empty()) {
                Err(e) => Err(e),
                Ok(attrs) => Ok(DeltaOpV::Update { r, attrs }),
            },
        }
    }
}

/// A Move line after its `>`.
pub open spec fn parse_move_spec(rest: Seq<char>, line: nat) -> Result<DeltaOpV, ParseErrorView> {
    let t = trim_spec(rest);
    if t.len() == 0 {
        Err(ParseErrorView::MalformedLine { line, message: "missing ref@parent"@ })
    } else {
        match ref_at_parent_spec(t, line) {
            Err(e) => Err(e),
            Ok((r, parent, pos)) => Ok(DeltaOpV::Move { r, parent, pos }),
        }
    }
}

/// First line at or after `j` that is neither blank nor indented.
pub open spec fn replace_end(ls: Seq<Seq<char>>, j: int) -> int
    decreases ls.len() - j,
{
    if j < 0 || j >= ls.len() {
        ls.len() as int
    } else if !all_white_space(ls[j]) && split_indent_spec(ls[j]).0 == 0 {
        j
    } else {
        replace_end(ls, j + 1)
    }
}

/// `l` without one leading two-space indent.
pub open spec fn dedent(l: Seq<char>) -> Seq<char> {
    if l.len() >= 2 && l[0] == ' ' && l[1] == ' ' {
        l.skip(2)
    } else {
        l
    }
}

/// The non-blank lines of `ls`, dedented, each followed by a line break.
pub open spec fn dedented_text(ls: Seq<Seq<char>>) -> Seq<char>
    decreases ls.len(),
{
    if ls.len() == 0 {
        Seq::empty()
    } else if all_white_space(ls[0]) {
        dedented_text(ls.drop_first())
    } else {
        dedent(ls[0]) + seq!['\n'] + dedented_text(ls.drop_first())
    }
}

/// True when `ls` holds a non-blank line.
pub open spec fn has_content(ls: Seq<Seq<char>>) -> bool {
    exists|k: int| 0 <= k < ls.len() && !all_white_space(#[trigger] ls[k])
}

pub proof fn lemma_replace_end(ls: Seq<Seq<char>>, j: int)
    requires
        0 <= j <= ls.len(),
    ensures
        j <= replace_end(ls, j) <= ls.len(),
        replace_end(ls, j) < ls.len() ==> !all_white_space(ls[replace_end(ls, j)]) && split_indent_spec(
            ls[replace_end(ls, j)],
        ).0 == 0,
        forall|k: int| j <= k < replace_end(ls, j) ==> all_white_space(#[trigger] ls[k]) || split_indent_spec(ls[k]).0 != 0,
    decreases ls.len() - j,
{
    if j < ls.len() && !(!all_white_space(ls[j]) && split_indent_spec(ls[j]).0 == 0) {
        lemma_replace_end(ls, j + 1);
    }
}

/// The Replace op whose header is line `idx` of `ls`; its subtree
/// lines run up to `replace_end(ls, idx + 1)`.
pub open spec fn parse_replace_spec(ls: Seq<Seq<char>>, idx: int) -> Result<DeltaOpV, ParseErrorView> {
    let header = trim_spec(ls[idx].skip(1));
    let line = (idx + 1) as nat;
    match parse_u32_spec(header) {
        None => Err(ParseErrorView::InvalidRef { raw: header }),
        Some(r) => {
            let end = replace_end(ls, idx + 1);
            let body = ls.subrange(idx + 1, end);
            if !has_content(body) {
                Err(ParseErrorView::MalformedLine { line, message: "Replace missing subtree"@ })
            } else {
                match parse_tree_spec(dedented_text(body)) {
                    Err(e) => Err(e),
                    Ok(roots) => if roots.len() == 0 {
                        Err(ParseErrorView::MalformedLine { line, message: "Replace subtree empty"@ })
                    } else {
                        Ok(DeltaOpV::Replace { r, subtree: roots })
                    },
                }
            }
        },
    }
}

/// `Ok(seq![op] + rest)` when both parts are `Ok`, else the first error.
pub open spec fn cons_op(
    op: Result<DeltaOpV, ParseErrorView>,
    rest: Result<Seq<DeltaOpV>, ParseErrorView>,
) -> Result<Seq<DeltaOpV>, ParseErrorView> {
    match op {
        Err(e) => Err(e),
        Ok(o) => match rest {
            Err(e) => Err(e),
            Ok(s) => Ok(seq![o] + s),
        },
    }
}

/// The single-line op with sigil `sig`, whose text after the sigil is
/// `rest`, on line `line`.
pub open spec fn parse_line_op_spec(sig: char, rest: Seq<char>, line: nat) -> Result<DeltaOpV, ParseErrorView> {
    if sig == '+' {
        parse_add_spec(rest, line)
    } else if sig == '-' {
        parse_remove_spec(rest, line)
    } else if sig == '~' {
        parse_update_spec(rest, line)
    } else if sig == '>' {
        parse_move_spec(rest, line)
    } else {
        Err(ParseErrorView::MalformedLine { line, message: "unknown delta sigil"@ })
    }
}

/// The ops of the lines `ls[idx..]`, or the error of the first bad line.
#[verifier::opaque]
pub open spec fn parse_delta_from(ls: Seq<Seq<char>>, idx: int) -> Result<Seq<DeltaOpV>, ParseErrorView>
    decreases ls.len() - idx,
{
    if idx < 0 || idx >= ls.len() {
        Ok(Seq::empty())
    } else {
        let raw = ls[idx];
        let line = (idx + 1) as nat;
        if all_white_space(raw) {
            parse_delta_from(ls, idx + 1)
        } else {
            let (d, body) = split_indent_spec(raw);
            if d != 0 {
                Err(ParseErrorView::IndentJump { from: 0, to: d as nat, line })
            } else if body.len() == 0 {
                Err(ParseErrorView::MalformedLine { line, message: "empty delta line"@ })
            } else {
                let sig = body[0];
                if sig == '*' {
                    let end = replace_end(ls, idx + 1);
                    proof {
                        lemma_replace_end(ls, idx + 1);
                    }
                    cons_op(parse_replace_spec(ls, idx), parse_delta_from(ls, end))
                } else {
                    cons_op(parse_line_op_spec(sig, body.skip(1), line), parse_delta_from(ls, idx + 1))
                }
            }
        }
    }
}

/// One step of [`parse_delta_from`].
pub proof fn lemma_delta_step(ls: Seq<Seq<char>>, idx: int)
    requires
        0 <= idx < ls.len(),
    ensures
        parse_delta_from(ls, idx) == ({
            let raw = ls[idx];
            let line = (idx + 1) as nat;
            let (d, body) = split_indent_spec(raw);
            if all_white_space(raw) {
                parse_delta_from(ls, idx + 1)
            } else if d != 0 {
                Err(ParseErrorView::IndentJump { from: 0, to: d as nat, line })
            } else if body.len() == 0 {
                Err(ParseErrorView::MalformedLine { line, message: "empty delta line"@ })
            } else if body[0] == '*' {
                cons_op(parse_replace_spec(ls, idx), parse_delta_from(ls, replace_end(ls, idx + 1)))
            } else {
                cons_op(parse_line_op_spec(body[0], body.skip(1), line), parse_delta_from(ls, idx + 1))
            }
        }),
{
    reveal(parse_delta_from);
}

/// Past the last line there is nothing more to read.
pub proof fn lemma_delta_end(ls: Seq<Seq<char>>)
    ensures
        parse_delta_from(ls, ls.len() as int) == Ok::<Seq<DeltaOpV>, ParseErrorView>(Seq::empty()),
{
    reveal(parse_delta_from);
}

/// What [`parse`] gives for `input`.
pub open spec fn parse_delta_spec(input: Seq<char>) -> Result<Seq<DeltaOpV>, ParseErrorView> {
    parse_delta_from(lines_spec(input), 0)
}

/// Read `<ref>@<parent>[:<pos>]`.
fn ref_at_parent(s: &[char], line: usize) -> (res: Result<(Ref, Ref, Option<u32>), ParseError>)
    ensures
        match res {
            Ok((r, p, q)) => ref_at_parent_spec(s@, line as nat) == Ok::<(u32, u32, Option<u32>), ParseErrorView>(
                (r.0, p.0, q),
            ),
            Err(e) => ref_at_parent_spec(s@, line as nat) == Err::<(u32, u32, Option<u32>), ParseErrorView>(e@),
        },
{
    let a = find_char(s, '@');
    if a >= s.len() {
        return Err(ParseError::MalformedLine { line, message: "expected ref@parent" });
    }
    let rp = copy_range(s, 0, a);
    let pp = copy_range(s, a + 1, s.len());
    assert(rp@ =~= s@.take(a as int));
    assert(pp@ =~= s@.skip(a + 1));
    let r = match parse_u32(rp.as_slice()) {
        None => {
            return Err(ParseError::InvalidRef { raw: string_of(rp.as_slice()) });
        },
        Some(r) => r,
    };
    let c = find_char(pp.as_slice(), ':');
    let p = if c < pp.len() { copy_range(pp.as_slice(), 0, c) } else { vstd::slice::slice_to_vec(pp.as_slice()) };
    assert(c < pp@.len() ==> p@ =~= pp@.take(c as int));
    let parent = match parse_u32(p.as_slice()) {
        None => {
            return Err(ParseError::InvalidRef { raw: string_of(p.as_slice()) });
        },
        Some(x) => x,
    };
    if c < pp.len() {
        let q = copy_range(pp.as_slice(), c + 1, pp.len());
        assert(q@ =~= pp@.skip(c + 1));
        match parse_u32(q.as_slice()) {
            None => Err(ParseError::InvalidPosition { raw: string_of(q.as_slice()) }),
            Some(pos) => Ok((Ref(r), Ref(parent), Some(pos))),
        }
    } else {
        Ok((Ref(r), Ref(parent), None))
    }
}

/// The tokens `toks[from..]`.
fn tail_tokens(toks: &Vec<Vec<char>>, from: usize) -> (t: Vec<Vec<char>>)
    requires
        from <= toks.len(),
    ensures
        vecs_view(t@) == vecs_view(toks@).skip(from as int),
{
    let ghost tv = vecs_view(toks@);
    let mut out: Vec<Vec<char>> = Vec::new();
    let mut i = from;
    while i < toks.len()
        invariant
            from <= i <= toks.len(),
            tv == vecs_view(toks@),
            vecs_view(out@) == tv.subrange(from as int, i as int),
        decreases toks.len() - i,
    {
        let ghost before = out@;
        out.push(vstd::slice::slice_to_vec(toks[i].as_slice()));
        assert(vecs_view(out@) =~= vecs_view(before).push(tv[i as int]));
        assert(tv.subrange(from as int, i + 1) =~= tv.subrange(from as int, i as int).push(tv[i as int]));
        i += 1;
    }
    assert(vecs_view(out@) =~= tv.skip(from as int));
    out
}

/// Read an Add line after its `+`.
fn parse_add(rest: &[char], line: usize) -> (res: Result<DeltaOp, ParseError>)
    ensures
        match res {
            Ok(op) => parse_add_spec(rest@, line as nat) == Ok::<DeltaOpV, ParseErrorView>(op_view(op)),
            Err(e) => parse_add_spec(rest@, line as nat) == Err::<DeltaOpV, ParseErrorView>(e@),
        },
{
    let toks = all_tokens(rest);
    let ghost tv = vecs_view(toks@);
    if toks.len() == 0 {
        return Err(ParseError::MalformedLine { line, message: "missing ref@parent" });
    }
    assert(tv[0] == toks@[0]@);
    let (r, parent, pos) = match ref_at_parent(toks[0].as_slice(), line) {
        Err(e) => {
            return Err(e);
        },
        Ok(x) => x,
    };
    if toks.len() == 1 {
        return Err(ParseError::MalformedLine { line, message: "missing role" });
    }
    if toks.len() == 2 {
        return Err(ParseError::MalformedLine { line, message: "missing label" });
    }
    assert(tv[1] == toks@[1]@ && tv[2] == toks@[2]@);
    let role = match Role::parse_chars(toks[1].as_slice()) {
        Err(u) => {
            assert(Role::from_wire(tv[1]) is None);
            return Err(ParseError::UnknownCode(u));
        },
        Ok(role) => {
            proof {
                crate::codes::lemma_role_from_wire(role);
            }
            role
        },
    };
    let label = strip_quotes(toks[2].as_slice());
    let extra = tail_tokens(&toks, 3);
    match parse_extras_exec(&extra, OpSet::new(), Attrs::new(), line, true) {
        Err(e) => Err(e),
        Ok((ops, attrs)) => Ok(DeltaOp::Add { r, parent, pos, role, label: string_of(label.as_slice()), ops, attrs }),
    }
}

/// Read a Remove line after its `-`.
fn parse_remove(rest: &[char], line: usize) -> (res: Result<DeltaOp, ParseError>)
    ensures
        match res {
            Ok(op) => parse_remove_spec(rest@, line as nat) == Ok::<DeltaOpV, ParseErrorView>(op_view(op)),
            Err(e) => parse_remove_spec(rest@, line as nat) == Err::<DeltaOpV, ParseErrorView>(e@),
        },
{
    let t = trim(rest);
    if t.len() == 0 {
        return Err(ParseError::MalformedLine { line, message: "missing ref" });
    }
    match parse_u32(t.as_slice()) {
        None => Err(ParseError::InvalidRef { raw: string_of(t.as_slice()) }),
        Some(r) => Ok(DeltaOp::Remove { r: Ref(r) }),
    }
}

/// Read an Update line after its `~`.
fn parse_update(rest: &[char], line: usize) -> (res: Result<DeltaOp, ParseError>)
    ensures
        match res {
            Ok(op) => parse_update_spec(rest@, line as nat) == Ok::<DeltaOpV, ParseErrorView>(op_view(op)),
            Err(e) => parse_update_spec(rest@, line as nat) == Err::<DeltaOpV, ParseErrorView>(e@),
        },
{
    let toks = all_tokens(rest);
    let ghost tv = vecs_view(toks@);
    if toks.len() == 0 {
        return Err(ParseError::MalformedLine { line, message: "missing ref" });
    }
    assert(tv[0] == toks@[0]@);
    let r = match parse_u32(toks[0].as_slice()) {
        None => {
            return Err(ParseError::InvalidRef { raw: string_of(toks[0].as_slice()) });
        },
        Some(r) => r,
    };
    let mut attrs = Attrs::new();
    let mut i: usize = 1;
    assert(tv.skip(1) =~= tv.drop_first());
    assert(attrs@ =~= Seq::<(Seq<char>, Seq<char>)>::empty());
    while i < toks.len()
        invariant
            1 <= i <= toks.len(),
            tv == vecs_view(toks@),
            tv == tokens(rest@),
            parse_u32_spec(tv[0]) == Some(r),
            update_attrs(tv.skip(i as int), attrs@) == update_attrs(tv.drop_first(), Seq::empty()),
        decreases toks.len() - i,
    {
        let t = &toks[i];
        proof {
            assert(tv.skip(i as int)[0] == t@);
            assert(tv.skip(i as int).drop_first() =~= tv.skip(i + 1));
        }
        let e = find_char(t.as_slice(), '=');
        if e >= t.len() || e == 0 {
            assert(update_attrs(tv.skip(i as int), attrs@) == Err::<Seq<(Seq<char>, Seq<char>)>, ParseErrorView>(
                ParseErrorView::InvalidAttribute { raw: t@ },
            ));
            return Err(ParseError::InvalidAttribute { raw: string_of(t.as_slice()) });
        }
        let k = copy_range(t.as_slice(), 0, e);
        let v0 = copy_range(t.as_slice(), e + 1, t.len());
        let v = strip_quotes(v0.as_slice());
        assert(k@ =~= t@.take(e as int));
        assert(v0@ =~= t@.skip(e + 1));
        attrs.insert_chars(k, v);
        i += 1;
    }
    assert(tv.skip(toks.len() as int) =~= Seq::<Seq<char>>::empty());
    Ok(DeltaOp::Update { r: Ref(r), attrs })
}

/// Read a Move line after its `>`.
fn parse_move(rest: &[char], line: usize) -> (res: Result<DeltaOp, ParseError>)
    ensures
        match res {
            Ok(op) => parse_move_spec(rest@, line as nat) == Ok::<DeltaOpV, ParseErrorView>(op_view(op)),
            Err(e) => parse_move_spec(rest@, line as nat) == Err::<DeltaOpV, ParseErrorView>(e@),
        },
{
    let t = trim(rest);
    if t.len() == 0 {
        return Err(ParseError::MalformedLine { line, message: "missing ref@parent" });
    }
    match ref_at_parent(t.as_slice(), line) {
        Err(e) => Err(e),
        Ok((r, parent, pos)) => Ok(DeltaOp::Move { r, parent, pos }),
    }
}

/// Read the Replace op whose header is line `idx` of `ls`, and the number
/// of lines it spans.
fn parse_replace(ls: &Vec<Vec<char>>, idx: usize) -> (res: Result<(DeltaOp, usize), ParseError>)
    requires
        idx < ls.len(),
        ls@[idx as int]@.len() > 0,
    ensures
        match res {
            Ok((op, n)) => parse_replace_spec(vecs_view(ls@), idx as int) == Ok::<DeltaOpV, ParseErrorView>(op_view(op))
                && idx + n == replace_end(vecs_view(ls@), idx + 1),
            Err(e) => parse_replace_spec(vecs_view(ls@), idx as int) == Err::<DeltaOpV, ParseErrorView>(e@),
        },
{
    let ghost lv = vecs_view(ls@);
    let raw = &ls[idx];
    assert(lv[idx as int] == raw@);
    let h0 = copy_range(raw.as_slice(), 1, raw.len());
    assert(h0@ =~= raw@.skip(1));
    let header = trim(h0.as_slice());
    let r = match parse_u32(header.as_slice()) {
        None => {
            return Err(ParseError::InvalidRef { raw: string_of(header.as_slice()) });
        },
        Some(r) => r,
    };
    let mut end = idx + 1;
    let mut text: Vec<char> = Vec::new();
    let mut any = false;
    while end < ls.len()
        invariant
            idx + 1 <= end <= ls.len(),
            lv == vecs_view(ls@),
            replace_end(lv, idx + 1) == replace_end(lv, end as int),
            text@ == dedented_text(lv.subrange(idx + 1, end as int)),
            any == has_content(lv.subrange(idx + 1, end as int)),
        ensures
            end == replace_end(lv, idx + 1),
        decreases ls.len() - end,
    {
        let l = &ls[end];
        assert(lv[end as int] == l@);
        let blank = is_blank_line(l.as_slice());
        if !blank {
            let (d, _) = split_indent(l.as_slice());
            if d == 0 {
                break;
            }
        }
        let ghost prev = lv.subrange(idx + 1, end as int);
        let ghost next = lv.subrange(idx + 1, end + 1);
        assert(next =~= prev.push(l@));
        proof {
            lemma_dedented_push(prev, l@);
        }
        if !blank {
            if l.len() >= 2 && l[0] == ' ' && l[1] == ' ' {
                let dl = copy_range(l.as_slice(), 2, l.len());
                assert(dl@ =~= l@.skip(2));
                push_all(&mut text, dl.as_slice());
            } else {
                push_all(&mut text, l.as_slice());
            }
            text.push('\n');
            assert(next[next.len() - 1] == l@);
            any = true;
        } else {
            assert(has_content(next) == has_content(prev)) by {
                if has_content(next) {
                    let k = choose|k: int| 0 <= k < next.len() && !all_white_space(#[trigger] next[k]);
                    assert(k < prev.len());
                    assert(prev[k] == next[k]);
                }
            }
        }
        proof {
            if !blank {
                assert(!all_white_space(next[next.len() - 1]));
            }
            assert(has_content(prev) ==> has_content(next)) by {
                if has_content(prev) {
                    let k = choose|k: int| 0 <= k < prev.len() && !all_white_space(#[trigger] prev[k]);
                    assert(next[k] == prev[k]);
                }
            }
        }
        end += 1;
    }
    if !any {
        return Err(ParseError::MalformedLine { line: idx + 1, message: "Replace missing subtree" });
    }
    let s = string_of(text.as_slice());
    match Tree::parse(s.as_str()) {
        Err(e) => Err(e),
        Ok(t) => {
            if t.roots.len() == 0 {
                return Err(ParseError::MalformedLine { line: idx + 1, message: "Replace subtree empty" });
            }
            Ok((DeltaOp::Replace { r: Ref(r), subtree: t.roots }, end - idx))
        },
    }
}

/// Appending one line to a run extends its dedented text accordingly.
pub proof fn lemma_dedented_push(ls: Seq<Seq<char>>, l: Seq<char>)
    ensures
        dedented_text(ls.push(l)) == dedented_text(ls) + (if all_white_space(l) {
            Seq::<char>::empty()
        } else {
            dedent(l) + seq!['\n']
        }),
    decreases ls.len(),
{
    if ls.len() == 0 {
        assert(dedented_text(Seq::<Seq<char>>::empty()) == Seq::<char>::empty());
        assert(ls.push(l).drop_first() =~= Seq::<Seq<char>>::empty());
        assert(ls.push(l)[0] == l);
        assert(dedented_text(ls.push(l)) =~= dedented_text(ls) + (if all_white_space(l) {
            Seq::<char>::empty()
        } else {
            dedent(l) + seq!['\n']
        }));
    } else {
        lemma_dedented_push(ls.drop_first(), l);
        assert(ls.push(l).drop_first() =~= ls.drop_first().push(l));
        assert(ls.push(l)[0] == ls[0]);
        let tail: Seq<char> = if all_white_space(l) {
            Seq::<char>::empty()
        } else {
            dedent(l) + seq!['\n']
        };
        assert(dedented_text(ls.drop_first().push(l)) == dedented_text(ls.drop_first()) + tail);
        if all_white_space(ls[0]) {
            assert(dedented_text(ls.push(l)) == dedented_text(ls.drop_first().push(l)));
            assert(dedented_text(ls) == dedented_text(ls.drop_first()));
        } else {
            let h = dedent(ls[0]) + seq!['\n'];
            assert(dedented_text(ls.push(l)) == h + dedented_text(ls.drop_first().push(l)));
            assert(dedented_text(ls) == h + dedented_text(ls.drop_first()));
            assert(h + (dedented_text(ls.drop_first()) + tail) =~= (h + dedented_text(ls.drop_first())) + tail);
        }
    }
}

/// Read a single-line op with sigil `sig` whose text after the sigil is `rest`.
fn parse_line_op(sig: char, rest: &[char], line: usize) -> (res: Result<DeltaOp, ParseError>)
    ensures
        match res {
            Ok(op) => parse_line_op_spec(sig, rest@, line as nat) == Ok::<DeltaOpV, ParseErrorView>(op_view(op)),
            Err(e) => parse_line_op_spec(sig, rest@, line as nat) == Err::<DeltaOpV, ParseErrorView>(e@),
        },
{
    if sig == '+' {
        parse_add(rest, line)
    } else if sig == '-' {
        parse_remove(rest, line)
    } else if sig == '~' {
        parse_update(rest, line)
    } else if sig == '>' {
        parse_move(rest, line)
    } else {
        Err(ParseError::MalformedLine { line, message: "unknown delta sigil" })
    }
}

/// The ops in `p` followed by those of `r`, or the error of `r`.
pub open spec fn prepend_ops(p: Seq<DeltaOpV>, r: Result<Seq<DeltaOpV>, ParseErrorView>) -> Result<
    Seq<DeltaOpV>,
    ParseErrorView,
> {
    match r {
        Err(e) => Err(e),
        Ok(x) => Ok(p + x),
    }
}

/// Parse a delta-op stream.
pub fn parse(input: &str) -> (res: Result<Vec<DeltaOp>, ParseError>)
    ensures
        match res {
            Ok(ops) => parse_delta_spec(input@) == Ok::<Seq<DeltaOpV>, ParseErrorView>(ops_view(ops@)),
            Err(e) => parse_delta_spec(input@) == Err::<Seq<DeltaOpV>, ParseErrorView>(e@),
        },
{
    let chars = chars_of(input);
    let ls = lines(chars.as_slice());
    let ghost lv = vecs_view(ls@);
    let mut idx: usize = 0;
    let mut out: Vec<DeltaOp> = Vec::new();
    assert(prepend_ops(ops_view(out@), parse_delta_from(lv, 0)) =~= parse_delta_from(lv, 0)) by {
        assert(ops_view(out@) =~= Seq::<DeltaOpV>::empty());
        match parse_delta_from(lv, 0) {
            Err(e) => {},
            Ok(x) => {
                assert(Seq::<DeltaOpV>::empty() + x =~= x);
            },
        }
    }
    while idx < ls.len()
        invariant
            idx <= ls.len(),
            lv == vecs_view(ls@),
            lv == lines_spec(input@),
            prepend_ops(ops_view(out@), parse_delta_from(lv, idx as int)) == parse_delta_from(lv, 0),
        decreases ls.len() - idx,
    {
        let raw = &ls[idx];
        assert(lv[idx as int] == raw@);
        proof {
            lemma_delta_step(lv, idx as int);
        }
        let line = idx + 1;
        if is_blank_line(raw.as_slice()) {
            idx += 1;
            continue;
        }
        let (depth, body) = split_indent(raw.as_slice());
        if depth != 0 {
            return Err(ParseError::IndentJump { from: 0, to: depth, line });
        }
        if body.len() == 0 {
            return Err(ParseError::MalformedLine { line, message: "empty delta line" });
        }
        let sig = body[0];
        let rest = copy_range(body.as_slice(), 1, body.len());
        assert(rest@ =~= body@.skip(1));
        let ghost before = out@;
        if sig == '*' {
            proof {
                lemma_replace_end(lv, idx + 1);
            }
            match parse_replace(&ls, idx) {
                Err(e) => {
                    return Err(e);
                },
                Ok((op, n)) => {
                    let ghost ov = op_view(op);
                    out.push(op);
                    proof {
                        assert(ops_view(out@) =~= ops_view(before) + seq![ov]);
                        match parse_delta_from(lv, idx + n) {
                            Err(e) => {},
                            Ok(x) => {
                                assert(ops_view(before) + (seq![ov] + x) =~= ops_view(out@) + x);
                            },
                        }
                    }
                    idx = idx + n;
                },
            }
        } else {
            match parse_line_op(sig, rest.as_slice(), line) {
                Err(e) => {
                    return Err(e);
                },
                Ok(op) => {
                    let ghost ov = op_view(op);
                    out.push(op);
                    proof {
                        assert(ops_view(out@) =~= ops_view(before) + seq![ov]);
                        match parse_delta_from(lv, idx + 1) {
                            Err(e) => {},
                            Ok(x) => {
                                assert(ops_view(before) + (seq![ov] + x) =~= ops_view(out@) + x);
                            },
                        }
                    }
                    idx += 1;
                },
            }
        }
    }
    proof {
        lemma_delta_end(lv);
        assert(ops_view(out@) + Seq::<DeltaOpV>::empty() =~= ops_view(out@));
    }
    Ok(out)
}

} // verus!
