//! The delta wire format reads back what its encoder writes.

use vstd::prelude::*;

use super::{
    encode_op_spec, encode_ops_spec, parse_delta_from, parse_delta_spec, parse_line_op_spec,
    parse_add_spec, parse_move_spec, parse_remove_spec, parse_update_spec, pos_part,
    ref_at_parent_spec, ref_at_part, update_attrs, DeltaOpV,
};
use crate::attrs::sorted_keys;
use crate::error::ParseErrorView;
use crate::num::{dec, is_digit, lemma_dec, lemma_parse_dec};
use crate::text::{all_white_space, find_from, is_white_space, ws_prefix, ws_suffix, trim_spec};
use crate::tokenize::{quote_label_spec, quote_value_spec, split_indent_spec, skip_spaces, strip_quotes_spec, tokens};
use crate::tree::{attrs_part, indent, node_tail, NodeV, OpSet};
use crate::text::lines_spec;
use super::{dedent, dedented_text, has_content, parse_replace_spec, replace_end};
use crate::tree::encode_nodes_spec;
use crate::tree_laws::{
    attr_tok, attr_toks, clean_tok, lemma_attr_tok_clean, lemma_attrs_part, lemma_clean_plain,
    lemma_dec_plain, lemma_extras, lemma_find_after, lemma_no_nl_add, lemma_find_none, lemma_join_ops_plain,
    lemma_label_back, lemma_label_clean, lemma_ops_part, lemma_role_word, lemma_sorted_insert_last,
    lemma_spaced_add, lemma_tokens_line, lemma_value_back, lemma_word_plain, no_nl, ops_toks, plain,
    safe_fields, safe_key, safe_pairs, safe_text, spaced, concat_lines, flat_node, flat_nodes, line_body, line_rest,
    lemma_lines_cons,
};

verus! {

/// A run of decimal digits: no white space, no quote, no `@` or `:`.
proof fn lemma_dec_chars(n: nat)
    ensures
        dec(n).len() > 0,
        plain(dec(n)),
        no_nl(dec(n)),
        forall|i: int| 0 <= i < dec(n).len() ==> is_digit(#[trigger] dec(n)[i]),
        forall|i: int| 0 <= i < dec(n).len() ==> !is_white_space(#[trigger] dec(n)[i]) && dec(n)[i] != '@' && dec(n)[i] != ':'
            && dec(n)[i] != '=',
{
    lemma_dec(n);
    lemma_dec_plain(n);
    assert forall|i: int| 0 <= i < dec(n).len() implies !is_white_space(#[trigger] dec(n)[i]) && dec(n)[i] != '@'
        && dec(n)[i] != ':' && dec(n)[i] != '=' by {
        assert(is_digit(dec(n)[i]));
    }
}

/// Text whose first and last characters are not white space trims to
/// itself.
proof fn lemma_trim_id(s: Seq<char>)
    requires
        s.len() > 0,
        !is_white_space(s[0]),
        !is_white_space(s[s.len() - 1]),
    ensures
        trim_spec(s) == s,
{
    assert(ws_prefix(s, 0) == 0);
    assert(ws_suffix(s, s.len() as int) == s.len());
    assert(s.subrange(0, s.len() as int) =~= s);
}

/// A line starting with a non-space character has depth 0 and is its own
/// body.
proof fn lemma_split_indent_zero(l: Seq<char>)
    requires
        l.len() > 0,
        l[0] != ' ',
    ensures
        split_indent_spec(l) == (0int, l),
{
    assert(skip_spaces(l, 0) == 0);
    assert(l.subrange(0, l.len() as int) =~= l);
}

/// `<ref>@<parent>[:<pos>]` is a plain run, and reads back.
proof fn lemma_ref_at(r: u32, parent: u32, pos: Option<u32>, line: nat)
    ensures
        ref_at_part(r, parent, pos).len() > 0,
        plain(ref_at_part(r, parent, pos)),
        no_nl(ref_at_part(r, parent, pos)),
        !is_white_space(ref_at_part(r, parent, pos)[0]),
        !is_white_space(ref_at_part(r, parent, pos)[ref_at_part(r, parent, pos).len() - 1]),
        ref_at_parent_spec(ref_at_part(r, parent, pos), line) == Ok::<(u32, u32, Option<u32>), ParseErrorView>(
            (r, parent, pos),
        ),
{
    let dr = dec(r as nat);
    let dp = dec(parent as nat);
    let pp = pos_part(pos);
    let s = ref_at_part(r, parent, pos);
    lemma_dec_chars(r as nat);
    lemma_dec_chars(parent as nat);
    lemma_parse_dec(r);
    lemma_parse_dec(parent);
    assert(s =~= dr + (seq!['@'] + dp + pp));
    lemma_find_after(dr, seq!['@'] + dp + pp, '@');
    assert((seq!['@'] + dp + pp)[0] == '@');
    assert(find_from(seq!['@'] + dp + pp, '@', 0) == 0);
    assert(s.take(dr.len() as int) =~= dr);
    assert(s.skip(dr.len() as int + 1) =~= dp + pp);
    match pos {
        Some(q) => {
            let dq = dec(q as nat);
            lemma_dec_chars(q as nat);
            lemma_parse_dec(q);
            assert(pp =~= seq![':'] + dq);
            lemma_find_after(dp, pp, ':');
            assert(pp[0] == ':');
            assert(find_from(pp, ':', 0) == 0);
            assert((dp + pp).take(dp.len() as int) =~= dp);
            assert((dp + pp).skip(dp.len() as int + 1) =~= dq);
            assert(s[s.len() - 1] == dq[dq.len() - 1]);
            assert forall|i: int| 0 <= i < s.len() implies #[trigger] s[i] != '"' && !crate::tokenize::is_blank(s[i])
                && s[i] != '\n' && s[i] != '\r' by {
                if i < dr.len() {
                    assert(s[i] == dr[i]);
                } else if i == dr.len() {
                } else if i < dr.len() + 1 + dp.len() {
                    assert(s[i] == dp[i - dr.len() - 1]);
                } else if i == dr.len() + 1 + dp.len() {
                } else {
                    assert(s[i] == dq[i - dr.len() - 2 - dp.len()]);
                }
            }
        },
        None => {
            assert(pp =~= Seq::<char>::empty());
            assert(dp + pp =~= dp);
            lemma_find_none(dp, ':');
            assert(s[s.len() - 1] == dp[dp.len() - 1]);
            assert forall|i: int| 0 <= i < s.len() implies #[trigger] s[i] != '"' && !crate::tokenize::is_blank(s[i])
                && s[i] != '\n' && s[i] != '\r' by {
                if i < dr.len() {
                    assert(s[i] == dr[i]);
                } else if i == dr.len() {
                } else {
                    assert(s[i] == dp[i - dr.len() - 1]);
                }
            }
        },
    }
    assert(s[0] == dr[0]);
}

/// Reading back attribute tokens with `update_attrs` gives the pairs.
proof fn lemma_update_attrs(a: Seq<(Seq<char>, Seq<char>)>, i: int)
    requires
        0 <= i <= a.len(),
        sorted_keys(a),
        safe_pairs(a),
    ensures
        update_attrs(attr_toks(a).skip(i), a.take(i)) == Ok::<Seq<(Seq<char>, Seq<char>)>, ParseErrorView>(a),
    decreases a.len() - i,
{
    let ts = attr_toks(a).skip(i);
    if i == a.len() {
        assert(ts =~= Seq::<Seq<char>>::empty());
        assert(a.take(i) =~= a);
    } else {
        let p = a[i];
        let k = p.0;
        let qv = quote_value_spec(p.1);
        let t = attr_tok(p);
        assert(ts[0] == t);
        assert(safe_key(k) && safe_text(p.1));
        assert(t == k + (seq!['='] + qv));
        lemma_find_after(k, seq!['='] + qv, '=');
        assert((seq!['='] + qv)[0] == '=');
        assert(find_from(seq!['='] + qv, '=', 0) == 0);
        assert(t.take(k.len() as int) =~= k);
        assert(t.skip(k.len() as int + 1) =~= qv);
        lemma_value_back(p.1);
        assert forall|j: int| 0 <= j < a.take(i).len() implies crate::attrs::lex_lt(#[trigger] a.take(i)[j].0, k) by {
            assert(a.take(i)[j] == a[j]);
        }
        lemma_sorted_insert_last(a.take(i), k, p.1);
        assert(a.take(i).push((k, p.1)) =~= a.take(i + 1));
        assert(ts.drop_first() =~= attr_toks(a).skip(i + 1));
        lemma_update_attrs(a, i + 1);
    }
}

/// Both parts of text without line breaks have none.
proof fn lemma_no_nl_parts(a: Seq<char>, b: Seq<char>)
    requires
        no_nl(a + b),
    ensures
        no_nl(a),
        no_nl(b),
{
    assert forall|i: int| 0 <= i < a.len() implies #[trigger] a[i] != '\n' && a[i] != '\r' by {
        assert((a + b)[i] == a[i]);
    }
    assert forall|i: int| 0 <= i < b.len() implies #[trigger] b[i] != '\n' && b[i] != '\r' by {
        assert((a + b)[i + a.len()] == b[i]);
    }
}

/// The tail of a node line written with safe fields has no line break.
proof fn lemma_tail_no_nl(role: crate::codes::Role, label: Seq<char>, ops: OpSet, attrs: Seq<(Seq<char>, Seq<char>)>)
    requires
        safe_fields(label, attrs),
    ensures
        no_nl(node_tail(role, label, ops, attrs)),
        no_nl(attrs_part(attrs)),
{
    let n = crate::tree::NodeV { r: 0, role, label, ops, attrs, children: Seq::empty() };
    let e = (0nat, n);
    crate::tree_laws::lemma_line_body_no_nl(e);
    let t = node_tail(role, label, ops, attrs);
    assert(crate::tree_laws::line_body(e) =~= (crate::tree::indent(0) + dec(0) + seq![' ']) + t);
    lemma_no_nl_parts(crate::tree::indent(0) + dec(0) + seq![' '], t);
    assert(t =~= (role.wire() + seq![' '] + quote_label_spec(label) + crate::tree::ops_part(ops)) + attrs_part(attrs));
    lemma_no_nl_parts(role.wire() + seq![' '] + quote_label_spec(label) + crate::tree::ops_part(ops), attrs_part(attrs));
}

/// The tokens of `d` followed by a node tail: `d`, the role, the quoted
/// label, the op cluster and the attribute tokens.
proof fn lemma_tail_tokens(
    d: Seq<char>,
    role: crate::codes::Role,
    label: Seq<char>,
    ops: OpSet,
    attrs: Seq<(Seq<char>, Seq<char>)>,
)
    requires
        d.len() > 0,
        plain(d),
        safe_fields(label, attrs),
    ensures
        tokens(d + seq![' '] + node_tail(role, label, ops, attrs)) == seq![d, role.wire(), quote_label_spec(label)]
            + (ops_toks(ops) + attr_toks(attrs)),
{
    let w = role.wire();
    let ql = quote_label_spec(label);
    let rest = ops_toks(ops) + attr_toks(attrs);
    let lt = seq![w, ql] + rest;
    let body = d + seq![' '] + node_tail(role, label, ops, attrs);
    lemma_ops_part(ops);
    lemma_attrs_part(attrs);
    lemma_spaced_add(ops_toks(ops), attr_toks(attrs));
    lemma_spaced_add(seq![w, ql], rest);
    assert(seq![w, ql].drop_first() =~= seq![ql]);
    assert(seq![ql].drop_first() =~= Seq::<Seq<char>>::empty());
    assert(spaced(Seq::<Seq<char>>::empty()) == Seq::<char>::empty());
    assert(spaced(seq![ql]) =~= seq![' '] + ql);
    assert(spaced(seq![w, ql]) =~= seq![' '] + w + seq![' '] + ql);
    assert(body =~= d + spaced(lt));
    lemma_clean_plain(d);
    lemma_role_word(role);
    lemma_word_plain(w);
    lemma_clean_plain(w);
    lemma_label_clean(label);
    assert forall|i: int| 0 <= i < lt.len() implies clean_tok(#[trigger] lt[i]) by {
        if i == 0 {
        } else if i == 1 {
        } else if ops.list().len() > 0 && i == 2 {
            assert(lt[i] == crate::tree::join_ops(ops.list()));
            lemma_join_ops_plain(ops.list());
            lemma_clean_plain(crate::tree::join_ops(ops.list()));
        } else {
            let j = i - 2 - ops_toks(ops).len();
            assert(lt[i] == attr_toks(attrs)[j]);
            assert(safe_key(attrs[j].0));
            lemma_attr_tok_clean(attrs[j]);
        }
    }
    lemma_tokens_line(d, lt);
    assert(seq![d] + lt =~= seq![d, w, ql] + rest);
}

/// Every op whose texts survive the wire: labels and attribute values
/// without `"` or line breaks, attribute keys without `=` or blanks and
/// in sorted order, and a non-empty replacement subtree of such nodes.
pub open spec fn op_safe(op: DeltaOpV) -> bool {
    match op {
        DeltaOpV::Add { label, attrs, .. } => safe_fields(label, attrs),
        DeltaOpV::Remove { .. } => true,
        DeltaOpV::Update { attrs, .. } => sorted_keys(attrs) && safe_pairs(attrs),
        DeltaOpV::Move { .. } => true,
        DeltaOpV::Replace { subtree, .. } => subtree.len() > 0 && crate::tree_laws::wire_safe(subtree),
    }
}

/// The first line an op writes, without its line break (for a Replace,
/// the `*<ref>` header).
pub open spec fn op_line(op: DeltaOpV) -> Seq<char> {
    match op {
        DeltaOpV::Add { r, parent, pos, role, label, ops, attrs } => seq!['+'] + ref_at_part(r, parent, pos)
            + seq![' '] + node_tail(role, label, ops, attrs),
        DeltaOpV::Remove { r } => seq!['-'] + dec(r as nat),
        DeltaOpV::Update { r, attrs } => seq!['~'] + dec(r as nat) + attrs_part(attrs),
        DeltaOpV::Move { r, parent, pos } => seq!['>'] + ref_at_part(r, parent, pos),
        DeltaOpV::Replace { r, .. } => seq!['*'] + dec(r as nat),
    }
}

/// The first line of a safe op has no line break, starts with its sigil
/// at depth 0, and (for the single-line ops) reads back as the op.
#[verifier::rlimit(60)]
proof fn lemma_op_line(op: DeltaOpV, line: nat)
    requires
        op_safe(op),
    ensures
        no_nl(op_line(op)),
        op_line(op).len() > 0,
        !is_white_space(op_line(op)[0]),
        !all_white_space(op_line(op)),
        split_indent_spec(op_line(op)) == (0int, op_line(op)),
        !(op is Replace) ==> op_line(op)[0] != '*' && parse_line_op_spec(op_line(op)[0], op_line(op).skip(1), line)
            == Ok::<DeltaOpV, ParseErrorView>(op),
        op is Replace ==> op_line(op)[0] == '*' && trim_spec(op_line(op).skip(1)) == dec(op->Replace_r as nat),
{
    let l = op_line(op);
    match op {
        DeltaOpV::Add { r, parent, pos, role, label, ops, attrs } => {
            let rap = ref_at_part(r, parent, pos);
            lemma_ref_at(r, parent, pos, line);
            lemma_tail_tokens(rap, role, label, ops, attrs);
            lemma_tail_no_nl(role, label, ops, attrs);
            let rest = rap + seq![' '] + node_tail(role, label, ops, attrs);
            assert(l =~= seq!['+'] + rest);
            assert(l.skip(1) =~= rest);
            lemma_no_nl_add(rap, seq![' ']);
            lemma_no_nl_add(rap + seq![' '], node_tail(role, label, ops, attrs));
            lemma_no_nl_add(seq!['+'], rest);
            let toks = tokens(rest);
            assert(toks[0] == rap);
            assert(toks[1] == role.wire());
            assert(toks[2] == quote_label_spec(label));
            assert(toks.skip(3) =~= ops_toks(ops) + attr_toks(attrs));
            crate::codes::lemma_role_from_wire(role);
            lemma_label_back(label);
            lemma_extras(ops, attrs, line, true);
            assert(parse_add_spec(rest, line) == Ok::<DeltaOpV, ParseErrorView>(op));
        },
        DeltaOpV::Remove { r } => {
            lemma_dec_chars(r as nat);
            lemma_parse_dec(r);
            assert(l.skip(1) =~= dec(r as nat));
            lemma_trim_id(dec(r as nat));
            lemma_no_nl_add(seq!['-'], dec(r as nat));
        },
        DeltaOpV::Update { r, attrs } => {
            let d = dec(r as nat);
            lemma_dec_chars(r as nat);
            lemma_parse_dec(r);
            lemma_attrs_part(attrs);
            let rest = d + attrs_part(attrs);
            assert(l =~= seq!['~'] + rest);
            assert(l.skip(1) =~= rest);
            lemma_clean_plain(d);
            assert forall|i: int| 0 <= i < attr_toks(attrs).len() implies clean_tok(#[trigger] attr_toks(attrs)[i]) by {
                assert(attr_toks(attrs)[i] == attr_tok(attrs[i]));
                assert(safe_key(attrs[i].0));
                lemma_attr_tok_clean(attrs[i]);
            }
            lemma_tokens_line(d, attr_toks(attrs));
            assert(tokens(rest).drop_first() =~= attr_toks(attrs));
            lemma_update_attrs(attrs, 0);
            assert(attr_toks(attrs).skip(0) =~= attr_toks(attrs));
            assert(attrs.take(0) =~= Seq::<(Seq<char>, Seq<char>)>::empty());
            assert(safe_fields(Seq::<char>::empty(), attrs));
            lemma_tail_no_nl(crate::codes::Role::El, Seq::<char>::empty(), OpSet::none(), attrs);
            lemma_no_nl_add(d, attrs_part(attrs));
            lemma_no_nl_add(seq!['~'], rest);
            assert(parse_update_spec(rest, line) == Ok::<DeltaOpV, ParseErrorView>(op));
        },
        DeltaOpV::Move { r, parent, pos } => {
            let rap = ref_at_part(r, parent, pos);
            lemma_ref_at(r, parent, pos, line);
            assert(l.skip(1) =~= rap);
            lemma_trim_id(rap);
            lemma_no_nl_add(seq!['>'], rap);
        },
        DeltaOpV::Replace { r, subtree } => {
            lemma_dec_chars(r as nat);
            assert(l.skip(1) =~= dec(r as nat));
            lemma_trim_id(dec(r as nat));
            lemma_no_nl_add(seq!['*'], dec(r as nat));
        },
    }
    assert(l[0] != ' ');
    assert(!all_white_space(l)) by {
        assert(!is_white_space(l[0]));
    }
    lemma_split_indent_zero(l);
}

/// The wire lines of an op: its first line and, for a Replace, the lines
/// of its subtree one level deep.
pub open spec fn op_lines(op: DeltaOpV) -> Seq<Seq<char>> {
    match op {
        DeltaOpV::Replace { subtree, .. } => seq![op_line(op)] + flat_nodes(subtree, 1).map_values(
            |e: (nat, NodeV)| line_body(e),
        ),
        _ => seq![op_line(op)],
    }
}

/// The wire lines of every op of `s`, in order.
pub open spec fn all_op_lines(s: Seq<DeltaOpV>) -> Seq<Seq<char>>
    decreases s.len(),
{
    if s.len() == 0 {
        Seq::empty()
    } else {
        op_lines(s[0]) + all_op_lines(s.drop_first())
    }
}

/// Every op of `s` survives the wire.
pub open spec fn ops_safe(s: Seq<DeltaOpV>) -> bool {
    forall|i: int| 0 <= i < s.len() ==> op_safe(#[trigger] s[i])
}

/// Entry `e` one level deeper.
pub open spec fn deeper(e: (nat, NodeV)) -> (nat, NodeV) {
    ((e.0 + 1) as nat, e.1)
}

/// The lines of concatenated entry lines followed by more text.
proof fn lemma_lines_concat_then(es: Seq<(nat, NodeV)>, r: Seq<char>)
    requires
        forall|i: int| 0 <= i < es.len() ==> no_nl(line_body(#[trigger] es[i])),
    ensures
        lines_spec(concat_lines(es) + r) == es.map_values(|e: (nat, NodeV)| line_body(e)) + lines_spec(r),
    decreases es.len(),
{
    if es.len() == 0 {
        assert(concat_lines(es) + r =~= r);
        assert(es.map_values(|e: (nat, NodeV)| line_body(e)) =~= Seq::<Seq<char>>::empty());
        assert(Seq::<Seq<char>>::empty() + lines_spec(r) =~= lines_spec(r));
    } else {
        let t = es.drop_first();
        assert(no_nl(line_body(es[0])));
        assert forall|i: int| 0 <= i < t.len() implies no_nl(line_body(#[trigger] t[i])) by {
            assert(t[i] == es[i + 1]);
        }
        lemma_lines_concat_then(t, r);
        assert(concat_lines(es) + r =~= line_body(es[0]) + seq!['\n'] + (concat_lines(t) + r));
        lemma_lines_cons(line_body(es[0]), concat_lines(t) + r);
        assert(es.map_values(|e: (nat, NodeV)| line_body(e)) =~= seq![line_body(es[0])]
            + t.map_values(|e: (nat, NodeV)| line_body(e)));
    }
}

/// The flattened entries of a forest one level deeper are its entries
/// each one level deeper.
proof fn lemma_flat_deeper(s: Seq<NodeV>, d: nat)
    ensures
        flat_nodes(s, d + 1) == flat_nodes(s, d).map_values(|e: (nat, NodeV)| deeper(e)),
    decreases s,
{
    if s.len() == 0 {
        assert(flat_nodes(s, d).map_values(|e: (nat, NodeV)| deeper(e)) =~= Seq::<(nat, NodeV)>::empty());
    } else {
        let n = s[0];
        assert(decreases_to!(s => s[0]));
        lemma_flat_deeper(n.children, d + 1);
        lemma_flat_deeper(s.drop_first(), d);
        let a = flat_nodes(n.children, d + 1);
        let b = flat_nodes(s.drop_first(), d);
        assert(flat_node(n, d) == seq![(d, n)] + a);
        assert(flat_nodes(s, d) == flat_node(n, d) + b);
        assert(flat_node(n, (d + 1) as nat) == seq![((d + 1) as nat, n)] + flat_nodes(n.children, (d + 2) as nat));
        assert(flat_nodes(s, d + 1) == flat_node(n, (d + 1) as nat) + flat_nodes(s.drop_first(), d + 1));
        assert((seq![(d, n)] + a + b).map_values(|e: (nat, NodeV)| deeper(e)) =~= seq![((d + 1) as nat, n)]
            + a.map_values(|e: (nat, NodeV)| deeper(e)) + b.map_values(|e: (nat, NodeV)| deeper(e)));
    }
}

/// The line of an entry one level deeper, dedented, is the entry's line.
proof fn lemma_dedent_deeper(e: (nat, NodeV))
    ensures
        dedent(line_body(deeper(e))) == line_body(e),
{
    let l = line_body(deeper(e));
    assert(indent((e.0 + 1) as nat) =~= seq![' ', ' '] + indent(e.0));
    assert(l =~= seq![' ', ' '] + line_body(e));
    assert(l[0] == ' ' && l[1] == ' ');
    assert(l.skip(2) =~= line_body(e));
}

/// Dedenting the lines of entries one level deeper gives the entries'
/// own lines.
proof fn lemma_dedented_deeper(es: Seq<(nat, NodeV)>)
    requires
        forall|i: int| 0 <= i < es.len() ==> safe_fields((#[trigger] es[i]).1.label, es[i].1.attrs),
    ensures
        dedented_text(es.map_values(|e: (nat, NodeV)| deeper(e)).map_values(|e: (nat, NodeV)| line_body(e)))
            == concat_lines(es),
    decreases es.len(),
{
    let ls = es.map_values(|e: (nat, NodeV)| deeper(e)).map_values(|e: (nat, NodeV)| line_body(e));
    if es.len() == 0 {
        assert(ls =~= Seq::<Seq<char>>::empty());
    } else {
        let t = es.drop_first();
        assert forall|i: int| 0 <= i < t.len() implies safe_fields((#[trigger] t[i]).1.label, t[i].1.attrs) by {
            assert(t[i] == es[i + 1]);
        }
        lemma_dedented_deeper(t);
        assert(ls.drop_first() =~= t.map_values(|e: (nat, NodeV)| deeper(e)).map_values(|e: (nat, NodeV)| line_body(e)));
        assert(ls[0] == line_body(deeper(es[0])));
        crate::tree_laws::lemma_line_body_no_nl(deeper(es[0]));
        let l = ls[0];
        let pad = indent((es[0].0 + 1) as nat);
        assert(l[pad.len() as int] == line_rest(deeper(es[0]))[0]);
        assert(!all_white_space(l));
        lemma_dedent_deeper(es[0]);
    }
}

/// Every line of the entries of a forest one level deep or more is
/// indented, and none is blank.
proof fn lemma_deep_lines(es: Seq<(nat, NodeV)>, k: int)
    requires
        0 <= k < es.len(),
        es[k].0 >= 1,
        safe_fields(es[k].1.label, es[k].1.attrs),
    ensures
        !all_white_space(line_body(es[k])),
        split_indent_spec(line_body(es[k])).0 != 0,
{
    let e = es[k];
    let l = line_body(e);
    let pad = indent(e.0);
    crate::tree_laws::lemma_line_body_no_nl(e);
    assert(l[pad.len() as int] == line_rest(e)[0]);
    assert(!all_white_space(l));
    assert forall|j: int| 0 <= j < pad.len() implies #[trigger] l[j] == ' ' by {
        assert(l[j] == pad[j]);
    }
    crate::tree_laws::lemma_skip_spaces_run(l, 0, pad.len() as int);
    assert(skip_spaces(l, pad.len() as int) == pad.len());
    assert(split_indent_spec(l).0 == e.0);
}

/// The lines of the encoding of safe ops are their wire lines.
proof fn lemma_ops_lines(s: Seq<DeltaOpV>)
    requires
        ops_safe(s),
    ensures
        lines_spec(encode_ops_spec(s)) == all_op_lines(s),
    decreases s.len(),
{
    if s.len() == 0 {
        assert(lines_spec(Seq::<char>::empty()) =~= Seq::<Seq<char>>::empty());
    } else {
        let op = s[0];
        let t = s.drop_first();
        assert(op_safe(op));
        assert forall|i: int| 0 <= i < t.len() implies op_safe(#[trigger] t[i]) by {
            assert(t[i] == s[i + 1]);
        }
        lemma_ops_lines(t);
        lemma_op_line(op, 0);
        let rest = encode_ops_spec(t);
        match op {
            DeltaOpV::Replace { r, subtree } => {
                let f = flat_nodes(subtree, 1);
                crate::tree_laws::lemma_encode_flat(subtree, 1);
                crate::tree_laws::lemma_flat_facts(subtree, 1);
                assert forall|i: int| 0 <= i < f.len() implies no_nl(line_body(#[trigger] f[i])) by {
                    crate::tree_laws::lemma_line_body_no_nl(f[i]);
                }
                lemma_lines_concat_then(f, rest);
                assert(encode_op_spec(op) + rest =~= op_line(op) + seq!['\n'] + (concat_lines(f) + rest));
                lemma_lines_cons(op_line(op), concat_lines(f) + rest);
                assert(seq![op_line(op)] + (f.map_values(|e: (nat, NodeV)| line_body(e)) + all_op_lines(t))
                    =~= op_lines(op) + all_op_lines(t));
            },
            _ => {
                assert(encode_op_spec(op) =~= op_line(op) + seq!['\n']);
                assert(encode_op_spec(op) + rest =~= op_line(op) + seq!['\n'] + rest);
                lemma_lines_cons(op_line(op), rest);
            },
        }
    }
}

/// The first line of the wire lines of non-empty safe ops is the first
/// op's first line.
proof fn lemma_first_line(s: Seq<DeltaOpV>)
    requires
        s.len() > 0,
    ensures
        all_op_lines(s).len() > 0,
        all_op_lines(s)[0] == op_line(s[0]),
{
    assert(op_lines(s[0])[0] == op_line(s[0]));
}

/// The subtree lines of a safe Replace read back as its Replace op, and
/// they end where the next op's lines begin.
#[verifier::rlimit(60)]
proof fn lemma_replace_lines(pre: Seq<Seq<char>>, op: DeltaOpV, rest: Seq<DeltaOpV>)
    requires
        op is Replace,
        op_safe(op),
        ops_safe(rest),
    ensures
        ({
            let ls = pre + op_lines(op) + all_op_lines(rest);
            let idx = pre.len() as int;
            &&& replace_end(ls, idx + 1) == pre.len() + op_lines(op).len()
            &&& parse_replace_spec(ls, idx) == Ok::<DeltaOpV, ParseErrorView>(op)
        }),
{
    let r = op->Replace_r;
    let sub = op->Replace_subtree;
    let ls = pre + op_lines(op) + all_op_lines(rest);
    let idx = pre.len() as int;
    let f = flat_nodes(sub, 1);
    let b = f.map_values(|e: (nat, NodeV)| line_body(e));
    let k = idx + 1 + b.len();
    lemma_op_line(op, (idx + 1) as nat);
    crate::tree_laws::lemma_flat_facts(sub, 1);
    assert(ls[idx] == op_line(op));
    assert forall|j: int| idx + 1 <= j < k implies #[trigger] ls[j] == b[j - idx - 1] by {
        assert(ls[j] == op_lines(op)[j - idx]);
    }
    // Where the subtree ends.
    crate::delta::lemma_replace_end(ls, idx + 1);
    let e = replace_end(ls, idx + 1);
    assert(e == k) by {
        if e < k {
            assert(ls[e] == b[e - idx - 1]);
            lemma_deep_lines(f, e - idx - 1);
        }
        if e > k {
            assert(k < ls.len());
            assert(rest.len() > 0) by {
                if rest.len() == 0 {
                    assert(all_op_lines(rest).len() == 0);
                    assert(ls.len() == k);
                }
            }
            lemma_first_line(rest);
            assert(ls[k] == all_op_lines(rest)[0]);
            assert(op_safe(rest[0]));
            lemma_op_line(rest[0], 0);
            assert(all_white_space(ls[k]) || split_indent_spec(ls[k]).0 != 0);
        }
    }
    // The subtree reads back.
    let body = ls.subrange(idx + 1, e);
    assert(body =~= b);
    assert(has_content(body)) by {
        lemma_deep_lines(f, 0);
        assert(!all_white_space(body[0]));
    }
    lemma_flat_deeper(sub, 0);
    let f0 = flat_nodes(sub, 0);
    crate::tree_laws::lemma_flat_facts(sub, 0);
    assert forall|i: int| 0 <= i < f0.len() implies safe_fields((#[trigger] f0[i]).1.label, f0[i].1.attrs) by {}
    lemma_dedented_deeper(f0);
    crate::tree_laws::lemma_encode_flat(sub, 0);
    crate::tree_laws::lemma_tree_round_trip(sub);
    assert(dedented_text(body) == encode_nodes_spec(sub, 0));
    lemma_parse_dec(r);
}

/// Reading the wire lines of safe ops, after any earlier lines, gives
/// the ops.
proof fn lemma_parse_op_lines(pre: Seq<Seq<char>>, s: Seq<DeltaOpV>)
    requires
        ops_safe(s),
    ensures
        parse_delta_from(pre + all_op_lines(s), pre.len() as int) == Ok::<Seq<DeltaOpV>, ParseErrorView>(s),
    decreases s.len(),
{
    let ls = pre + all_op_lines(s);
    let idx = pre.len() as int;
    if s.len() == 0 {
        assert(ls =~= pre);
        crate::delta::lemma_delta_end(ls);
        assert(s =~= Seq::<DeltaOpV>::empty());
    } else {
        let op = s[0];
        let t = s.drop_first();
        assert(op_safe(op));
        assert forall|i: int| 0 <= i < t.len() implies op_safe(#[trigger] t[i]) by {
            assert(t[i] == s[i + 1]);
        }
        let line = (idx + 1) as nat;
        lemma_op_line(op, line);
        assert(ls =~= pre + op_lines(op) + all_op_lines(t));
        assert(ls[idx] == op_line(op));
        crate::delta::lemma_delta_step(ls, idx);
        let pre2 = pre + op_lines(op);
        assert(ls =~= pre2 + all_op_lines(t));
        lemma_parse_op_lines(pre2, t);
        if op is Replace {
            lemma_replace_lines(pre, op, t);
        } else {
            assert(op_lines(op).len() == 1);
        }
        assert(seq![op] + t =~= s);
    }
}

/// Reading back the encoding of ops whose texts survive the wire gives
/// the same ops.
pub proof fn lemma_delta_round_trip(s: Seq<DeltaOpV>)
    requires
        ops_safe(s),
    ensures
        parse_delta_spec(encode_ops_spec(s)) == Ok::<Seq<DeltaOpV>, ParseErrorView>(s),
{
    lemma_ops_lines(s);
    lemma_parse_op_lines(Seq::empty(), s);
    assert(Seq::<Seq<char>>::empty() + all_op_lines(s) =~= all_op_lines(s));
}

} // verus!
