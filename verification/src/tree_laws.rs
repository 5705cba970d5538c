//! Laws of the tree wire format: reading back what the encoder wrote
//! gives the same tree.

use vstd::prelude::*;

use crate::attrs::{lemma_lex_irreflexive, lemma_lex_transitive, lex_lt, sorted_insert, sorted_keys};
use crate::codes::{Op, Role};
use crate::num::{all_digits, dec, lemma_dec, lemma_parse_dec, parse_u32_spec};
use crate::text::{all_white_space, find_from, is_white_space, lemma_find_from, lines_spec, strip_cr};
use crate::tokenize::{
    clean, has_blank, is_blank, label_needs_quotes, next_token, quote_label_spec, quote_value_spec,
    quoted, skip_blanks, skip_spaces, split_indent_spec, strip_quotes_spec, token_end, tokens,
    tokens_from,
};
use crate::error::ParseErrorView;
use crate::tree::{
    attrs_part, encode_node_spec, encode_nodes_spec, forest, indent, join_ops, lemma_run_end, node_line,
    node_tail, ops_part, parse_cluster, parse_entries, parse_extras, parse_line_spec, parse_tree_spec,
    run_end, shell_node, NodeV, OpSet, ShellV,
};

verus! {

/// No `"` and no blank.
pub open spec fn plain(s: Seq<char>) -> bool {
    forall|i: int| 0 <= i < s.len() ==> #[trigger] s[i] != '"' && !is_blank(s[i])
}

/// No `"`.
pub open spec fn no_quote(s: Seq<char>) -> bool {
    forall|i: int| 0 <= i < s.len() ==> #[trigger] s[i] != '"'
}

/// A token the tokenizer reads back whole: a non-empty plain run,
/// optionally followed by one `"..."` span without inner quotes.
pub open spec fn clean_tok(t: Seq<char>) -> bool {
    let j = find_from(t, '"', 0);
    &&& t.len() > 0
    &&& forall|k: int| 0 <= k < j ==> !is_blank(#[trigger] t[k])
    &&& (j >= t.len() || (t.len() - j >= 2 && t.last() == '"' && no_quote(
        t.subrange(j + 1, t.len() - 1),
    )))
}

/// Each token of `ts` preceded by one space.
pub open spec fn spaced(ts: Seq<Seq<char>>) -> Seq<char>
    decreases ts.len(),
{
    if ts.len() == 0 {
        Seq::empty()
    } else {
        seq![' '] + ts[0] + spaced(ts.drop_first())
    }
}

proof fn lemma_token_end_plain(s: Seq<char>, i: int, n: int)
    requires
        0 <= i,
        0 <= n,
        i + n <= s.len(),
        forall|k: int| i <= k < i + n ==> #[trigger] s[k] != '"' && !is_blank(s[k]),
    ensures
        token_end(s, i, false) == token_end(s, i + n, false),
    decreases n,
{
    if n > 0 {
        lemma_token_end_plain(s, i + 1, n - 1);
    }
}

proof fn lemma_token_end_inside(s: Seq<char>, j: int, end: int)
    requires
        0 <= j <= end < s.len(),
        forall|k: int| j <= k < end ==> #[trigger] s[k] != '"',
        s[end] == '"',
    ensures
        token_end(s, j, true) == token_end(s, end + 1, false),
    decreases end - j,
{
    if j < end {
        lemma_token_end_inside(s, j + 1, end);
    }
}

/// A clean token followed by a blank or the end is read whole.
pub proof fn lemma_token_end_clean(s: Seq<char>, st: int, t: Seq<char>)
    requires
        0 <= st,
        st + t.len() <= s.len(),
        s.subrange(st, st + t.len()) == t,
        clean_tok(t),
        st + t.len() == s.len() || is_blank(s[st + t.len()]),
    ensures
        token_end(s, st, false) == st + t.len(),
{
    let j = find_from(t, '"', 0);
    lemma_find_from(t, '"', 0);
    assert forall|k: int| st <= k < st + j implies #[trigger] s[k] != '"' && !is_blank(s[k]) by {
        assert(s[k] == t[k - st]);
    }
    lemma_token_end_plain(s, st, j);
    if j < t.len() {
        let e = st + t.len() - 1;
        assert(s[st + j] == t[j]);
        assert(s[e] == t[t.len() - 1]);
        assert forall|k: int| st + j + 1 <= k < e implies #[trigger] s[k] != '"' by {
            assert(s[k] == t[k - st]);
            assert(t[k - st] == t.subrange(j + 1, t.len() - 1)[k - st - j - 1]);
        }
        lemma_token_end_inside(s, st + j + 1, e);
    }
}

/// Tokens after a prefix: each token of `ts` preceded by one space
/// reads back as `ts`.
pub proof fn lemma_tokens_spaced(x: Seq<char>, ts: Seq<Seq<char>>)
    requires
        forall|i: int| 0 <= i < ts.len() ==> clean_tok(#[trigger] ts[i]),
    ensures
        tokens_from(x + spaced(ts), x.len() as int) == ts,
    decreases ts.len(),
{
    let s = x + spaced(ts);
    let p = x.len() as int;
    if ts.len() == 0 {
        assert(s =~= x);
        assert(skip_blanks(s, p) == p);
        assert(next_token(s, p) is None);
    } else {
        let t0 = ts[0];
        let rest = ts.drop_first();
        assert(clean_tok(t0));
        let x2 = x + seq![' '] + t0;
        assert(s =~= x2 + spaced(rest));
        assert(s[p] == ' ');
        assert(s[p + 1] == t0[0]);
        lemma_find_from(t0, '"', 0);
        assert(!is_blank(t0[0])) by {
            if find_from(t0, '"', 0) == 0 {
                assert(t0[0] == '"');
            }
        }
        assert(skip_blanks(s, p + 1) == p + 1);
        assert(skip_blanks(s, p) == p + 1);
        assert(s.subrange(p + 1, p + 1 + t0.len()) =~= t0);
        if rest.len() > 0 {
            assert(s[p + 1 + t0.len()] == ' ');
        } else {
            assert(s.len() == p + 1 + t0.len());
        }
        lemma_token_end_clean(s, p + 1, t0);
        assert(next_token(s, p) == Some((t0, p + 1 + t0.len())));
        lemma_tokens_spaced(x2, rest);
        assert(x2.len() == p + 1 + t0.len());
        assert(tokens_from(s, p) == seq![t0] + tokens_from(s, p + 1 + t0.len()));
        assert(ts =~= seq![t0] + rest);
    }
}

/// A clean token followed by spaced clean tokens reads back as all of them.
pub proof fn lemma_tokens_line(t0: Seq<char>, ts: Seq<Seq<char>>)
    requires
        clean_tok(t0),
        forall|i: int| 0 <= i < ts.len() ==> clean_tok(#[trigger] ts[i]),
    ensures
        tokens(t0 + spaced(ts)) == seq![t0] + ts,
{
    let s = t0 + spaced(ts);
    lemma_find_from(t0, '"', 0);
    assert(!is_blank(t0[0])) by {
        if find_from(t0, '"', 0) == 0 {
            assert(t0[0] == '"');
        }
    }
    assert(s[0] == t0[0]);
    assert(skip_blanks(s, 0) == 0);
    assert(s.subrange(0, t0.len() as int) =~= t0);
    if ts.len() > 0 {
        assert(s[t0.len() as int] == ' ');
    } else {
        assert(s.len() == t0.len());
    }
    lemma_token_end_clean(s, 0, t0);
    lemma_tokens_spaced(t0, ts);
    assert(tokens_from(s, 0) == seq![t0] + tokens_from(s, t0.len() as int));
}

/// Text that survives the wire unchanged: no `"` (the encoder turns it
/// into `'`) and no line break.
pub open spec fn safe_text(s: Seq<char>) -> bool {
    forall|i: int| 0 <= i < s.len() ==> #[trigger] s[i] != '"' && s[i] != '\n' && s[i] != '\r'
}

/// An attribute key that survives the wire: non-empty, safe, and
/// without `=` or blanks.
pub open spec fn safe_key(k: Seq<char>) -> bool {
    &&& k.len() > 0
    &&& safe_text(k)
    &&& forall|i: int| 0 <= i < k.len() ==> #[trigger] k[i] != '=' && !is_blank(k[i])
}

/// The wire token of one attribute pair.
pub open spec fn attr_tok(p: (Seq<char>, Seq<char>)) -> Seq<char> {
    p.0 + seq!['='] + quote_value_spec(p.1)
}

/// The wire tokens of the attribute pairs of `a`, in order.
pub open spec fn attr_toks(a: Seq<(Seq<char>, Seq<char>)>) -> Seq<Seq<char>> {
    a.map_values(|p: (Seq<char>, Seq<char>)| attr_tok(p))
}

/// The op-cluster token of `o`, if it has ops.
pub open spec fn ops_toks(o: OpSet) -> Seq<Seq<char>> {
    if o.list().len() == 0 {
        Seq::empty()
    } else {
        seq![join_ops(o.list())]
    }
}

proof fn lemma_find_from_skip(s: Seq<char>, c: char, a: int, k: int)
    requires
        0 <= a <= s.len(),
        0 <= k,
    ensures
        find_from(s, c, a + k) == a + find_from(s.skip(a), c, k),
    decreases s.len() - a - k,
{
    if a + k < s.len() {
        assert(s.skip(a)[k] == s[a + k]);
        if s[a + k] != c {
            lemma_find_from_skip(s, c, a, k + 1);
        }
    }
}

proof fn lemma_find_from_free(s: Seq<char>, c: char, i: int, n: int)
    requires
        0 <= i <= n <= s.len(),
        forall|k: int| i <= k < n ==> #[trigger] s[k] != c,
    ensures
        find_from(s, c, i) == find_from(s, c, n),
    decreases n - i,
{
    if i < n {
        lemma_find_from_free(s, c, i + 1, n);
    }
}

/// In `p + q` with no `c` in `p`, the first `c` is the first of `q`.
pub proof fn lemma_find_after(p: Seq<char>, q: Seq<char>, c: char)
    requires
        forall|k: int| 0 <= k < p.len() ==> #[trigger] p[k] != c,
    ensures
        find_from(p + q, c, 0) == p.len() + find_from(q, c, 0),
{
    let s = p + q;
    assert forall|k: int| 0 <= k < p.len() implies #[trigger] s[k] != c by {
        assert(s[k] == p[k]);
    }
    lemma_find_from_free(s, c, 0, p.len() as int);
    lemma_find_from_skip(s, c, p.len() as int, 0);
    assert(s.skip(p.len() as int) =~= q);
}

/// With no `c` in `s`, there is none to find.
pub proof fn lemma_find_none(s: Seq<char>, c: char)
    requires
        forall|k: int| 0 <= k < s.len() ==> #[trigger] s[k] != c,
    ensures
        find_from(s, c, 0) == s.len(),
{
    lemma_find_after(s, Seq::empty(), c);
    assert(s + Seq::<char>::empty() =~= s);
}

/// A non-empty plain run is a clean token.
pub proof fn lemma_clean_plain(t: Seq<char>)
    requires
        t.len() > 0,
        plain(t),
    ensures
        clean_tok(t),
{
    lemma_find_none(t, '"');
}

/// A plain run followed by a quoted span without inner quotes is a
/// clean token.
pub proof fn lemma_clean_plain_quoted(p: Seq<char>, x: Seq<char>)
    requires
        plain(p),
        no_quote(x),
    ensures
        clean_tok(p + quoted(x)),
{
    let t = p + quoted(x);
    lemma_find_after(p, quoted(x), '"');
    assert(quoted(x)[0] == '"');
    assert(find_from(quoted(x), '"', 0) == 0);
    assert forall|k: int| 0 <= k < p.len() implies !is_blank(#[trigger] t[k]) by {
        assert(t[k] == p[k]);
    }
    assert(t.subrange(p.len() as int + 1, t.len() as int - 1) =~= x);
}

/// `clean(s)` has no `"`.
pub proof fn lemma_clean_no_quote(s: Seq<char>)
    ensures
        no_quote(clean(s)),
        clean(s).len() == s.len(),
{
}

/// Text without `"` is its own cleaned form.
pub proof fn lemma_clean_id(s: Seq<char>)
    requires
        no_quote(s),
    ensures
        clean(s) == s,
{
    assert(clean(s) =~= s);
}

/// The wire form of a label is a clean token.
pub proof fn lemma_label_clean(l: Seq<char>)
    ensures
        clean_tok(quote_label_spec(l)),
{
    let c = clean(l);
    lemma_clean_no_quote(l);
    if label_needs_quotes(c) {
        lemma_clean_plain_quoted(Seq::empty(), c);
        assert(Seq::<char>::empty() + quoted(c) =~= quoted(c));
    } else {
        assert(plain(c));
        lemma_clean_plain(c);
    }
}

/// Unquoting the wire form of a safe label gives the label back.
pub proof fn lemma_label_back(l: Seq<char>)
    requires
        safe_text(l),
    ensures
        strip_quotes_spec(quote_label_spec(l)) == l,
{
    lemma_clean_id(l);
    let c = clean(l);
    if label_needs_quotes(c) {
        assert(quoted(c).subrange(1, quoted(c).len() - 1) =~= c);
    } else if c.len() >= 2 {
        assert(c[0] != '"');
    }
}

/// Unquoting the wire form of a safe value gives the value back.
pub proof fn lemma_value_back(v: Seq<char>)
    requires
        safe_text(v),
    ensures
        strip_quotes_spec(quote_value_spec(v)) == v,
{
    lemma_clean_id(v);
    let c = clean(v);
    if has_blank(c) {
        assert(quoted(c).subrange(1, quoted(c).len() - 1) =~= c);
    } else if c.len() >= 2 {
        assert(c[0] != '"');
    }
}

/// The token of a pair with a safe key is clean.
pub proof fn lemma_attr_tok_clean(p: (Seq<char>, Seq<char>))
    requires
        safe_key(p.0),
    ensures
        clean_tok(attr_tok(p)),
{
    let k = p.0 + seq!['='];
    assert(plain(k)) by {
        assert forall|i: int| 0 <= i < k.len() implies #[trigger] k[i] != '"' && !is_blank(k[i]) by {
            if i < p.0.len() {
                assert(k[i] == p.0[i]);
            }
        }
    }
    let c = clean(p.1);
    lemma_clean_no_quote(p.1);
    if has_blank(c) {
        lemma_clean_plain_quoted(k, c);
    } else {
        let t = k + c;
        assert(plain(t)) by {
            assert forall|i: int| 0 <= i < t.len() implies #[trigger] t[i] != '"' && !is_blank(t[i]) by {
                if i < k.len() {
                    assert(t[i] == k[i]);
                } else {
                    assert(t[i] == c[i - k.len()]);
                }
            }
        }
        lemma_clean_plain(t);
    }
}

/// Spacing two runs of tokens is spacing each.
pub proof fn lemma_spaced_add(a: Seq<Seq<char>>, b: Seq<Seq<char>>)
    ensures
        spaced(a + b) == spaced(a) + spaced(b),
    decreases a.len(),
{
    if a.len() == 0 {
        assert(a + b =~= b);
        assert(Seq::<char>::empty() + spaced(b) =~= spaced(b));
    } else {
        lemma_spaced_add(a.drop_first(), b);
        assert((a + b).drop_first() =~= a.drop_first() + b);
        assert((a + b)[0] == a[0]);
        assert(spaced(a + b) =~= spaced(a) + spaced(b));
    }
}

/// The attribute part of a node line is its attribute tokens, spaced.
pub proof fn lemma_attrs_part(a: Seq<(Seq<char>, Seq<char>)>)
    ensures
        attrs_part(a) == spaced(attr_toks(a)),
    decreases a.len(),
{
    if a.len() > 0 {
        lemma_attrs_part(a.drop_first());
        assert(attr_toks(a).drop_first() =~= attr_toks(a.drop_first()));
        assert(attr_toks(a)[0] == attr_tok(a[0]));
        assert(attrs_part(a) =~= spaced(attr_toks(a)));
    } else {
        assert(attr_toks(a) =~= Seq::<Seq<char>>::empty());
    }
}

/// The op part of a node line is its op token, spaced.
pub proof fn lemma_ops_part(o: OpSet)
    ensures
        ops_part(o) == spaced(ops_toks(o)),
{
    if o.list().len() > 0 {
        let t = join_ops(o.list());
        assert(seq![t].drop_first() =~= Seq::<Seq<char>>::empty());
        assert(seq![t][0] == t);
        assert(spaced(Seq::<Seq<char>>::empty()) == Seq::<char>::empty());
        assert(spaced(seq![t]) =~= seq![' '] + t);
    }
}

/// A non-empty run of lower-case ASCII letters.
pub open spec fn word(s: Seq<char>) -> bool {
    &&& s.len() > 0
    &&& forall|i: int| 0 <= i < s.len() ==> 'a' <= #[trigger] s[i] && s[i] <= 'z'
}

/// The wire string of a role is a lower-case word.
pub proof fn lemma_role_word(c: Role)
    ensures
        word(c.wire()),
{
    match c {
        Role::Doc => {
            reveal_strlit("doc");
        },
        Role::Btn => {
            reveal_strlit("btn");
        },
        Role::Lnk => {
            reveal_strlit("lnk");
        },
        Role::Tf => {
            reveal_strlit("tf");
        },
        Role::Ta => {
            reveal_strlit("ta");
        },
        Role::Sel => {
            reveal_strlit("sel");
        },
        Role::Chk => {
            reveal_strlit("chk");
        },
        Role::Rad => {
            reveal_strlit("rad");
        },
        Role::Img => {
            reveal_strlit("img");
        },
        Role::Hd => {
            reveal_strlit("hd");
        },
        Role::P => {
            reveal_strlit("p");
        },
        Role::Li => {
            reveal_strlit("li");
        },
        Role::Lst => {
            reveal_strlit("lst");
        },
        Role::Tbl => {
            reveal_strlit("tbl");
        },
        Role::Row => {
            reveal_strlit("row");
        },
        Role::Cell => {
            reveal_strlit("cell");
        },
        Role::Hdr => {
            reveal_strlit("hdr");
        },
        Role::Nav => {
            reveal_strlit("nav");
        },
        Role::Frm => {
            reveal_strlit("frm");
        },
        Role::Dlg => {
            reveal_strlit("dlg");
        },
        Role::Itm => {
            reveal_strlit("itm");
        },
        Role::Sec => {
            reveal_strlit("sec");
        },
        Role::Art => {
            reveal_strlit("art");
        },
        Role::Mn => {
            reveal_strlit("mn");
        },
        Role::El => {
            reveal_strlit("el");
        },
    }
}

/// The wire string of an op is a lower-case word.
pub proof fn lemma_op_word(c: Op)
    ensures
        word(c.wire()),
{
    match c {
        Op::Click => {
            reveal_strlit("click");
        },
        Op::Fill => {
            reveal_strlit("fill");
        },
        Op::Scroll => {
            reveal_strlit("scroll");
        },
        Op::Key => {
            reveal_strlit("key");
        },
        Op::Submit => {
            reveal_strlit("submit");
        },
        Op::Hover => {
            reveal_strlit("hover");
        },
        Op::Focus => {
            reveal_strlit("focus");
        },
    }
}

/// `o` with every op of `l` added, in order.
pub open spec fn with_all(o: OpSet, l: Seq<Op>) -> OpSet
    decreases l.len(),
{
    if l.len() == 0 {
        o
    } else {
        with_all(o.with(l[0]), l.drop_first())
    }
}

/// A joined op list is a clean token without `=`.
pub proof fn lemma_join_ops_plain(l: Seq<Op>)
    requires
        l.len() > 0,
    ensures
        plain(join_ops(l)),
        join_ops(l).len() > 0,
        forall|i: int| 0 <= i < join_ops(l).len() ==> #[trigger] join_ops(l)[i] != '=' && join_ops(l)[i] != '\n'
            && join_ops(l)[i] != '\r',
    decreases l.len(),
{
    lemma_op_word(l[0]);
    let w = l[0].wire();
    if l.len() > 1 {
        lemma_join_ops_plain(l.drop_first());
        let t = join_ops(l);
        let r = join_ops(l.drop_first());
        assert forall|i: int| 0 <= i < t.len() implies #[trigger] t[i] != '"' && !is_blank(t[i]) && t[i] != '='
            && t[i] != '\n' && t[i] != '\r' by {
            if i < w.len() {
                assert(t[i] == w[i]);
            } else if i == w.len() {
                assert(t[i] == ',');
            } else {
                assert(t[i] == r[i - w.len() - 1]);
            }
        }
    }
}

/// Reading back a joined op list adds its ops.
pub proof fn lemma_parse_cluster_join(l: Seq<Op>, o: OpSet, e: ParseErrorView)
    requires
        l.len() > 0,
    ensures
        parse_cluster(join_ops(l), o, e) == Ok::<OpSet, ParseErrorView>(with_all(o, l)),
    decreases l.len(),
{
    let w = l[0].wire();
    lemma_op_word(l[0]);
    crate::codes::lemma_op_from_wire(l[0]);
    let t = join_ops(l);
    if l.len() == 1 {
        lemma_find_none(w, ',');
        assert(w.take(w.len() as int) =~= w);
        assert(l.drop_first().len() == 0);
        assert(t == w);
        assert(with_all(o, l) == with_all(o.with(l[0]), l.drop_first()));
        assert(with_all(o, l) == o.with(l[0]));
        assert(find_from(t, ',', 0) == t.len());
        assert(Op::from_wire(t.take(t.len() as int)) == Some(l[0]));
    } else {
        let r = join_ops(l.drop_first());
        assert(t == w + (seq![','] + r));
        lemma_find_after(w, seq![','] + r, ',');
        assert((seq![','] + r)[0] == ',');
        assert(find_from(seq![','] + r, ',', 0) == 0);
        assert(t.take(w.len() as int) =~= w);
        assert(t.skip(w.len() as int + 1) =~= r);
        lemma_parse_cluster_join(l.drop_first(), o.with(l[0]), e);
        assert(find_from(t, ',', 0) == w.len());
        assert(Op::from_wire(t.take(w.len() as int)) == Some(l[0]));
        assert(with_all(o, l) == with_all(o.with(l[0]), l.drop_first()));
    }
}

proof fn lemma_list_from_has(o: OpSet, i: int, x: Op)
    requires
        0 <= i <= 7,
    ensures
        o.list_from(i).contains(x) <==> (o.has(x) && x.index() >= i),
    decreases 7 - i,
{
    if i < 7 {
        lemma_list_from_has(o, i + 1, x);
        let a = Op::spec_all()[i];
        let rest = o.list_from(i + 1);
        assert(a.index() == i);
        if o.has(a) {
            assert(o.list_from(i) == seq![a] + rest);
            if x == a {
                assert(o.list_from(i)[0] == a);
            }
            if rest.contains(x) {
                let k = choose|k: int| 0 <= k < rest.len() && rest[k] == x;
                assert(o.list_from(i)[k + 1] == x);
            }
            if o.list_from(i).contains(x) {
                let k = choose|k: int| 0 <= k < o.list_from(i).len() && o.list_from(i)[k] == x;
                if k > 0 {
                    assert(rest[k - 1] == x);
                }
            }
        } else {
            assert(o.list_from(i) == rest);
        }
    } else {
        assert(o.list_from(7) =~= Seq::<Op>::empty());
    }
}

/// The list of a set holds exactly its ops.
pub proof fn lemma_list_has(o: OpSet)
    ensures
        forall|x: Op| #[trigger] o.list().contains(x) <==> o.has(x),
{
    assert forall|x: Op| #[trigger] o.list().contains(x) <==> o.has(x) by {
        lemma_list_from_has(o, 0, x);
    }
}

proof fn lemma_with_all_has(o: OpSet, l: Seq<Op>, x: Op)
    ensures
        with_all(o, l).has(x) <==> (o.has(x) || l.contains(x)),
    decreases l.len(),
{
    if l.len() > 0 {
        lemma_with_all_has(o.with(l[0]), l.drop_first(), x);
        if l.drop_first().contains(x) {
            let k = choose|k: int| 0 <= k < l.drop_first().len() && l.drop_first()[k] == x;
            assert(l[k + 1] == x);
        }
        if l.contains(x) {
            let k = choose|k: int| 0 <= k < l.len() && l[k] == x;
            if k > 0 {
                assert(l.drop_first()[k - 1] == x);
            }
        }
    }
}

/// Two sets with the same ops are equal.
pub proof fn lemma_opset_ext(a: OpSet, b: OpSet)
    requires
        forall|x: Op| a.has(x) == b.has(x),
    ensures
        a == b,
{
    assert(a.has(Op::Click) == b.has(Op::Click));
    assert(a.has(Op::Fill) == b.has(Op::Fill));
    assert(a.has(Op::Scroll) == b.has(Op::Scroll));
    assert(a.has(Op::Key) == b.has(Op::Key));
    assert(a.has(Op::Submit) == b.has(Op::Submit));
    assert(a.has(Op::Hover) == b.has(Op::Hover));
    assert(a.has(Op::Focus) == b.has(Op::Focus));
}

/// Adding the listed ops of `o` to the empty set gives `o`.
pub proof fn lemma_with_all_list(o: OpSet)
    ensures
        with_all(OpSet::none(), o.list()) == o,
{
    lemma_list_has(o);
    assert forall|x: Op| with_all(OpSet::none(), o.list()).has(x) == o.has(x) by {
        lemma_with_all_has(OpSet::none(), o.list(), x);
    }
    lemma_opset_ext(with_all(OpSet::none(), o.list()), o);
}

/// A word is a plain run.
pub proof fn lemma_word_plain(s: Seq<char>)
    requires
        word(s),
    ensures
        plain(s),
        forall|i: int| 0 <= i < s.len() ==> #[trigger] s[i] != '=' && s[i] != ',' && s[i] != '\n' && s[i] != '\r',
{
}

/// A decimal rendering is a non-empty plain run.
pub proof fn lemma_dec_plain(n: nat)
    ensures
        plain(dec(n)),
        dec(n).len() > 0,
        forall|i: int| 0 <= i < dec(n).len() ==> #[trigger] dec(n)[i] != ' ' && dec(n)[i] != '\n' && dec(n)[i] != '\r',
{
    lemma_dec(n);
    assert forall|i: int| 0 <= i < dec(n).len() implies #[trigger] dec(n)[i] != '"' && !is_blank(dec(n)[i]) by {
        assert(crate::num::is_digit(dec(n)[i]));
    }
    assert forall|i: int| 0 <= i < dec(n).len() implies #[trigger] dec(n)[i] != ' ' && dec(n)[i] != '\n' && dec(n)[i] != '\r' by {
        assert(crate::num::is_digit(dec(n)[i]));
    }
}

/// Attribute pairs whose keys and values survive the wire unchanged.
pub open spec fn safe_pairs(a: Seq<(Seq<char>, Seq<char>)>) -> bool {
    forall|j: int| 0 <= j < a.len() ==> safe_key(#[trigger] a[j].0) && safe_text(a[j].1)
}

/// A label and attributes that survive the wire unchanged.
pub open spec fn safe_fields(label: Seq<char>, attrs: Seq<(Seq<char>, Seq<char>)>) -> bool {
    &&& safe_text(label)
    &&& sorted_keys(attrs)
    &&& safe_pairs(attrs)
}

/// Inserting a key above every key of a sorted list appends it.
pub proof fn lemma_sorted_insert_last<V>(s: Seq<(Seq<char>, V)>, k: Seq<char>, v: V)
    requires
        forall|j: int| 0 <= j < s.len() ==> lex_lt(#[trigger] s[j].0, k),
    ensures
        sorted_insert(s, k, v) == s.push((k, v)),
    decreases s.len(),
{
    if s.len() > 0 {
        assert(lex_lt(s[0].0, k));
        lemma_lex_irreflexive(k, 0);
        if lex_lt(k, s[0].0) {
            lemma_lex_transitive(k, s[0].0, k, 0);
        }
        assert forall|j: int| 0 <= j < s.drop_first().len() implies lex_lt(#[trigger] s.drop_first()[j].0, k) by {
            assert(s.drop_first()[j] == s[j + 1]);
        }
        lemma_sorted_insert_last(s.drop_first(), k, v);
        assert(s.push((k, v)) =~= seq![s[0]] + s.drop_first().push((k, v)));
    } else {
        assert(s.push((k, v)) =~= seq![(k, v)]);
    }
}

proof fn lemma_extras_attrs(a: Seq<(Seq<char>, Seq<char>)>, i: int, ops: OpSet, line: nat, delta: bool)
    requires
        0 <= i <= a.len(),
        sorted_keys(a),
        safe_pairs(a),
    ensures
        parse_extras(attr_toks(a).skip(i), ops, a.take(i), line, delta) == Ok::<
            (OpSet, Seq<(Seq<char>, Seq<char>)>),
            ParseErrorView,
        >((ops, a)),
    decreases a.len() - i,
{
    let ts = attr_toks(a).skip(i);
    if i == a.len() {
        assert(ts =~= Seq::<Seq<char>>::empty());
        assert(a.take(i) =~= a);
    } else {
        let p = a[i];
        let k = p.0;
        let qv = quote_value_spec(p.1);
        let t = attr_tok(p);
        assert(ts[0] == t);
        assert(safe_key(k) && safe_text(p.1));
        assert(t == k + (seq!['='] + qv));
        lemma_find_after(k, seq!['='] + qv, '=');
        assert((seq!['='] + qv)[0] == '=');
        assert(find_from(seq!['='] + qv, '=', 0) == 0);
        assert(t.take(k.len() as int) =~= k);
        assert(t.skip(k.len() as int + 1) =~= qv);
        lemma_value_back(p.1);
        assert forall|j: int| 0 <= j < a.take(i).len() implies lex_lt(#[trigger] a.take(i)[j].0, k) by {
            assert(a.take(i)[j] == a[j]);
        }
        lemma_sorted_insert_last(a.take(i), k, p.1);
        assert(a.take(i).push((k, p.1)) =~= a.take(i + 1));
        assert(ts.drop_first() =~= attr_toks(a).skip(i + 1));
        lemma_extras_attrs(a, i + 1, ops, line, delta);
    }
}

/// Reading back the tokens after the label gives the ops and attributes.
pub proof fn lemma_extras(o: OpSet, a: Seq<(Seq<char>, Seq<char>)>, line: nat, delta: bool)
    requires
        sorted_keys(a),
        safe_pairs(a),
    ensures
        parse_extras(ops_toks(o) + attr_toks(a), OpSet::none(), Seq::empty(), line, delta) == Ok::<
            (OpSet, Seq<(Seq<char>, Seq<char>)>),
            ParseErrorView,
        >((o, a)),
{
    lemma_with_all_list(o);
    assert(a.take(0) =~= Seq::<(Seq<char>, Seq<char>)>::empty());
    assert(attr_toks(a).skip(0) =~= attr_toks(a));
    if o.list().len() == 0 {
        assert(ops_toks(o) + attr_toks(a) =~= attr_toks(a));
        assert(with_all(OpSet::none(), o.list()) == OpSet::none());
        lemma_extras_attrs(a, 0, o, line, delta);
    } else {
        let t = join_ops(o.list());
        let all = ops_toks(o) + attr_toks(a);
        assert(all[0] == t);
        assert(all.drop_first() =~= attr_toks(a));
        lemma_join_ops_plain(o.list());
        lemma_find_none(t, '=');
        lemma_parse_cluster_join(o.list(), OpSet::none(), crate::tree::empty_op_error(t, line, delta));
        lemma_extras_attrs(a, 0, o, line, delta);
    }
}

/// Reading back the part of a node line after its indent gives what
/// the encoder wrote.
pub proof fn lemma_parse_line(
    r: u32,
    role: Role,
    label: Seq<char>,
    ops: OpSet,
    attrs: Seq<(Seq<char>, Seq<char>)>,
    line: nat,
)
    requires
        safe_fields(label, attrs),
    ensures
        parse_line_spec(dec(r as nat) + seq![' '] + node_tail(role, label, ops, attrs), line) == Ok::<
            ShellV,
            ParseErrorView,
        >(ShellV { r, role, label, ops, attrs }),
{
    let d = dec(r as nat);
    let w = role.wire();
    let ql = quote_label_spec(label);
    let rest = ops_toks(ops) + attr_toks(attrs);
    let lt = seq![w, ql] + rest;
    let body = d + seq![' '] + node_tail(role, label, ops, attrs);
    lemma_ops_part(ops);
    lemma_attrs_part(attrs);
    lemma_spaced_add(ops_toks(ops), attr_toks(attrs));
    lemma_spaced_add(seq![w, ql], rest);
    assert(seq![w, ql].drop_first() =~= seq![ql]);
    assert(seq![ql].drop_first() =~= Seq::<Seq<char>>::empty());
    assert(spaced(Seq::<Seq<char>>::empty()) == Seq::<char>::empty());
    assert(spaced(seq![ql]) =~= seq![' '] + ql);
    assert(spaced(seq![w, ql]) =~= seq![' '] + w + seq![' '] + ql);
    assert(body =~= d + spaced(lt));
    lemma_dec_plain(r as nat);
    lemma_clean_plain(d);
    lemma_role_word(role);
    lemma_word_plain(w);
    lemma_clean_plain(w);
    lemma_label_clean(label);
    assert forall|i: int| 0 <= i < lt.len() implies clean_tok(#[trigger] lt[i]) by {
        if i == 0 {
        } else if i == 1 {
        } else if ops.list().len() > 0 && i == 2 {
            assert(lt[i] == join_ops(ops.list()));
            lemma_join_ops_plain(ops.list());
            lemma_clean_plain(join_ops(ops.list()));
        } else {
            let j = i - 2 - ops_toks(ops).len();
            assert(lt[i] == attr_toks(attrs)[j]);
            assert(safe_key(attrs[j].0));
            lemma_attr_tok_clean(attrs[j]);
        }
    }
    lemma_tokens_line(d, lt);
    let toks = seq![d] + lt;
    assert(tokens(body) == toks);
    assert(toks[0] == d && toks[1] == w && toks[2] == ql);
    assert(toks.skip(3) =~= rest);
    lemma_parse_dec(r);
    crate::codes::lemma_role_from_wire(role);
    lemma_label_back(label);
    lemma_extras(ops, attrs, line, false);
}

/// No line break.
pub open spec fn no_nl(s: Seq<char>) -> bool {
    forall|i: int| 0 <= i < s.len() ==> #[trigger] s[i] != '\n' && s[i] != '\r'
}

pub proof fn lemma_no_nl_add(a: Seq<char>, b: Seq<char>)
    requires
        no_nl(a),
        no_nl(b),
    ensures
        no_nl(a + b),
{
    assert forall|i: int| 0 <= i < (a + b).len() implies #[trigger] (a + b)[i] != '\n' && (a + b)[i] != '\r' by {
        if i < a.len() {
            assert((a + b)[i] == a[i]);
        } else {
            assert((a + b)[i] == b[i - a.len()]);
        }
    }
}

pub proof fn lemma_no_nl_spaced(ts: Seq<Seq<char>>)
    requires
        forall|i: int| 0 <= i < ts.len() ==> no_nl(#[trigger] ts[i]),
    ensures
        no_nl(spaced(ts)),
    decreases ts.len(),
{
    if ts.len() > 0 {
        assert(no_nl(ts[0]));
        assert forall|i: int| 0 <= i < ts.drop_first().len() implies no_nl(#[trigger] ts.drop_first()[i]) by {
            assert(ts.drop_first()[i] == ts[i + 1]);
        }
        lemma_no_nl_spaced(ts.drop_first());
        lemma_no_nl_add(seq![' '], ts[0]);
        lemma_no_nl_add(seq![' '] + ts[0], spaced(ts.drop_first()));
    }
}

pub proof fn lemma_no_nl_clean(s: Seq<char>)
    requires
        safe_text(s),
    ensures
        no_nl(clean(s)),
        no_nl(quoted(clean(s))),
{
    lemma_no_nl_add(seq!['"'], clean(s));
    lemma_no_nl_add(seq!['"'] + clean(s), seq!['"']);
}

/// The part of the line for entry `e` after its indent.
pub open spec fn line_rest(e: (nat, NodeV)) -> Seq<char> {
    dec(e.1.r as nat) + seq![' '] + node_tail(e.1.role, e.1.label, e.1.ops, e.1.attrs)
}

/// The line for entry `e`, without its line break.
pub open spec fn line_body(e: (nat, NodeV)) -> Seq<char> {
    indent(e.0) + line_rest(e)
}

/// The content of the line for entry `e`.
pub open spec fn shell_of(n: NodeV) -> ShellV {
    ShellV { r: n.r, role: n.role, label: n.label, ops: n.ops, attrs: n.attrs }
}

/// The depth and content of entry `e`.
pub open spec fn shell_entry(e: (nat, NodeV)) -> (nat, ShellV) {
    (e.0, shell_of(e.1))
}

/// `n` at depth `d` and its descendants below it, in pre-order.
pub open spec fn flat_node(n: NodeV, d: nat) -> Seq<(nat, NodeV)>
    decreases n, 0nat,
{
    seq![(d, n)] + flat_nodes(n.children, d + 1)
}

/// The pre-order entries of the nodes of `s`, at depth `d`.
pub open spec fn flat_nodes(s: Seq<NodeV>, d: nat) -> Seq<(nat, NodeV)>
    decreases s, 1nat,
{
    if s.len() == 0 {
        Seq::empty()
    } else {
        flat_node(s[0], d) + flat_nodes(s.drop_first(), d)
    }
}

/// Every line of `es`, each followed by a line break.
pub open spec fn concat_lines(es: Seq<(nat, NodeV)>) -> Seq<char>
    decreases es.len(),
{
    if es.len() == 0 {
        Seq::empty()
    } else {
        line_body(es[0]) + seq!['\n'] + concat_lines(es.drop_first())
    }
}

/// Every node of `s` and of their subtrees has a label and attributes
/// that survive the wire.
pub open spec fn wire_safe(s: Seq<NodeV>) -> bool
    decreases s,
{
    if s.len() == 0 {
        true
    } else {
        safe_fields(s[0].label, s[0].attrs) && wire_safe(s[0].children) && wire_safe(s.drop_first())
    }
}

pub proof fn lemma_concat_lines_add(a: Seq<(nat, NodeV)>, b: Seq<(nat, NodeV)>)
    ensures
        concat_lines(a + b) == concat_lines(a) + concat_lines(b),
    decreases a.len(),
{
    if a.len() == 0 {
        assert(a + b =~= b);
        assert(Seq::<char>::empty() + concat_lines(b) =~= concat_lines(b));
    } else {
        lemma_concat_lines_add(a.drop_first(), b);
        assert((a + b).drop_first() =~= a.drop_first() + b);
        assert((a + b)[0] == a[0]);
        assert(concat_lines(a + b) =~= concat_lines(a) + concat_lines(b));
    }
}

/// The encoding of a forest is its pre-order lines.
pub proof fn lemma_encode_flat(s: Seq<NodeV>, d: nat)
    ensures
        encode_nodes_spec(s, d) == concat_lines(flat_nodes(s, d)),
    decreases s,
{
    if s.len() > 0 {
        let n = s[0];
        assert(decreases_to!(s => s[0]));
        lemma_encode_flat(n.children, d + 1);
        lemma_encode_flat(s.drop_first(), d);
        let head = seq![(d, n)];
        assert(head.drop_first() =~= Seq::<(nat, NodeV)>::empty());
        assert(head[0] == (d, n));
        assert(concat_lines(Seq::<(nat, NodeV)>::empty()) == Seq::<char>::empty());
        assert(concat_lines(head) =~= line_body((d, n)) + seq!['\n']);
        assert(node_line(n, d) =~= line_body((d, n)) + seq!['\n']);
        lemma_concat_lines_add(head, flat_nodes(n.children, d + 1));
        lemma_concat_lines_add(flat_node(n, d), flat_nodes(s.drop_first(), d));
        assert(encode_node_spec(n, d) == concat_lines(flat_node(n, d)));
    } else {
        assert(encode_nodes_spec(s, d) == Seq::<char>::empty());
    }
}

/// Every entry of `flat_nodes(s, d)` is at least `d` deep, the first is
/// exactly `d` deep, and each comes from a safe node when `s` is safe.
pub proof fn lemma_flat_facts(s: Seq<NodeV>, d: nat)
    ensures
        forall|i: int| 0 <= i < flat_nodes(s, d).len() ==> (#[trigger] flat_nodes(s, d)[i]).0 >= d,
        s.len() > 0 ==> flat_nodes(s, d).len() > 0 && flat_nodes(s, d)[0] == (d, s[0]),
        s.len() == 0 ==> flat_nodes(s, d).len() == 0,
        wire_safe(s) ==> forall|i: int| 0 <= i < flat_nodes(s, d).len() ==> safe_fields(
            (#[trigger] flat_nodes(s, d)[i]).1.label,
            flat_nodes(s, d)[i].1.attrs,
        ),
    decreases s,
{
    if s.len() > 0 {
        let n = s[0];
        assert(decreases_to!(s => s[0]));
        lemma_flat_facts(n.children, d + 1);
        lemma_flat_facts(s.drop_first(), d);
        let a = seq![(d, n)];
        let c = flat_nodes(n.children, d + 1);
        let r = flat_nodes(s.drop_first(), d);
        let f = flat_nodes(s, d);
        assert(flat_node(n, d) == a + c);
        assert(f == flat_node(n, d) + r);
        assert(f =~= a + c + r);
        assert forall|i: int| 0 <= i < f.len() implies (#[trigger] f[i]).0 >= d by {
            if i >= 1 + c.len() {
                assert(f[i] == r[i - 1 - c.len()]);
            } else if i >= 1 {
                assert(f[i] == c[i - 1]);
            }
        }
        if wire_safe(s) {
            assert forall|i: int| 0 <= i < f.len() implies safe_fields((#[trigger] f[i]).1.label, f[i].1.attrs) by {
                if i >= 1 + c.len() {
                    assert(f[i] == r[i - 1 - c.len()]);
                } else if i >= 1 {
                    assert(f[i] == c[i - 1]);
                }
            }
        }
    }
}

/// A line followed by a line break splits off as one line.
pub proof fn lemma_lines_cons(l: Seq<char>, r: Seq<char>)
    requires
        no_nl(l),
    ensures
        lines_spec(l + seq!['\n'] + r) == seq![l] + lines_spec(r),
{
    let s = l + seq!['\n'] + r;
    assert(s =~= l + (seq!['\n'] + r));
    assert forall|k: int| 0 <= k < l.len() implies #[trigger] l[k] != '\n' by {}
    lemma_find_after(l, seq!['\n'] + r, '\n');
    assert((seq!['\n'] + r)[0] == '\n');
    assert(find_from(seq!['\n'] + r, '\n', 0) == 0);
    assert(s.take(l.len() as int) =~= l);
    assert(strip_cr(l) == l) by {
        if l.len() > 0 {
            assert(l.last() != '\r');
        }
    }
    assert(s.skip(l.len() as int + 1) =~= r);
}

/// The lines of concatenated entry lines are the entry lines.
pub proof fn lemma_lines_concat(es: Seq<(nat, NodeV)>)
    requires
        forall|i: int| 0 <= i < es.len() ==> no_nl(line_body(#[trigger] es[i])),
    ensures
        lines_spec(concat_lines(es)) == es.map_values(|e: (nat, NodeV)| line_body(e)),
    decreases es.len(),
{
    if es.len() == 0 {
        assert(es.map_values(|e: (nat, NodeV)| line_body(e)) =~= Seq::<Seq<char>>::empty());
    } else {
        assert(no_nl(line_body(es[0])));
        assert forall|i: int| 0 <= i < es.drop_first().len() implies no_nl(line_body(#[trigger] es.drop_first()[i])) by {
            assert(es.drop_first()[i] == es[i + 1]);
        }
        lemma_lines_concat(es.drop_first());
        lemma_lines_cons(line_body(es[0]), concat_lines(es.drop_first()));
        assert(es.map_values(|e: (nat, NodeV)| line_body(e)) =~= seq![line_body(es[0])]
            + es.drop_first().map_values(|e: (nat, NodeV)| line_body(e)));
    }
}

/// The line of a safe entry has no line break.
pub proof fn lemma_line_body_no_nl(e: (nat, NodeV))
    requires
        safe_fields(e.1.label, e.1.attrs),
    ensures
        no_nl(line_body(e)),
        line_rest(e).len() > 0,
        line_rest(e)[0] != ' ',
        !is_white_space(line_rest(e)[0]),
{
    let n = e.1;
    let w = n.role.wire();
    let ql = quote_label_spec(n.label);
    let lt = seq![w, ql] + ops_toks(n.ops) + attr_toks(n.attrs);
    lemma_ops_part(n.ops);
    lemma_attrs_part(n.attrs);
    lemma_spaced_add(ops_toks(n.ops), attr_toks(n.attrs));
    lemma_spaced_add(seq![w, ql], ops_toks(n.ops) + attr_toks(n.attrs));
    assert(seq![w, ql].drop_first() =~= seq![ql]);
    assert(seq![ql].drop_first() =~= Seq::<Seq<char>>::empty());
    assert(spaced(Seq::<Seq<char>>::empty()) == Seq::<char>::empty());
    assert(spaced(seq![ql]) =~= seq![' '] + ql);
    assert(seq![w, ql] + ops_toks(n.ops) + attr_toks(n.attrs) =~= seq![w, ql] + (ops_toks(n.ops) + attr_toks(n.attrs)));
    assert(line_rest(e) =~= dec(n.r as nat) + spaced(lt));
    lemma_role_word(n.role);
    lemma_word_plain(w);
    lemma_no_nl_clean(n.label);
    assert forall|i: int| 0 <= i < lt.len() implies no_nl(#[trigger] lt[i]) by {
        if i == 0 {
        } else if i == 1 {
        } else if n.ops.list().len() > 0 && i == 2 {
            assert(lt[i] == join_ops(n.ops.list()));
            lemma_join_ops_plain(n.ops.list());
            assert(no_nl(lt[i]));
        } else {
            let j = i - 2 - ops_toks(n.ops).len();
            assert(lt[i] == attr_toks(n.attrs)[j]);
            let p = n.attrs[j];
            assert(safe_key(p.0) && safe_text(p.1));
            lemma_no_nl_clean(p.1);
            lemma_no_nl_add(p.0, seq!['=']);
            lemma_no_nl_add(p.0 + seq!['='], quote_value_spec(p.1));
        }
    }
    lemma_no_nl_spaced(lt);
    lemma_dec_plain(n.r as nat);
    lemma_no_nl_add(dec(n.r as nat), spaced(lt));
    lemma_no_nl_add(indent(e.0), line_rest(e));
    lemma_dec(n.r as nat);
    assert(crate::num::is_digit(dec(n.r as nat)[0]));
    assert(line_rest(e)[0] == dec(n.r as nat)[0]);
}

pub proof fn lemma_skip_spaces_run(s: Seq<char>, i: int, n: int)
    requires
        0 <= i <= n <= s.len(),
        forall|k: int| i <= k < n ==> #[trigger] s[k] == ' ',
    ensures
        skip_spaces(s, i) == skip_spaces(s, n),
    decreases n - i,
{
    if i < n {
        lemma_skip_spaces_run(s, i + 1, n);
    }
}

/// Reading back the lines of safe entries gives their depths and contents.
pub proof fn lemma_parse_entries(es: Seq<(nat, NodeV)>, first: nat)
    requires
        forall|i: int| 0 <= i < es.len() ==> safe_fields((#[trigger] es[i]).1.label, es[i].1.attrs),
    ensures
        parse_entries(es.map_values(|e: (nat, NodeV)| line_body(e)), first) == Ok::<
            Seq<(nat, ShellV)>,
            ParseErrorView,
        >(es.map_values(|e: (nat, NodeV)| shell_entry(e))),
    decreases es.len(),
{
    let ls = es.map_values(|e: (nat, NodeV)| line_body(e));
    if es.len() == 0 {
        assert(es.map_values(|e: (nat, NodeV)| shell_entry(e)) =~= Seq::<(nat, ShellV)>::empty());
    } else {
        let e = es[0];
        let l = line_body(e);
        assert(ls[0] == l);
        assert(safe_fields(e.1.label, e.1.attrs));
        lemma_line_body_no_nl(e);
        let pad = indent(e.0);
        assert(l[pad.len() as int] == line_rest(e)[0]);
        assert(!all_white_space(l));
        assert forall|k: int| 0 <= k < pad.len() implies #[trigger] l[k] == ' ' by {
            assert(l[k] == pad[k]);
        }
        lemma_skip_spaces_run(l, 0, pad.len() as int);
        assert(skip_spaces(l, pad.len() as int) == pad.len());
        assert(pad.len() == 2 * e.0);
        assert(split_indent_spec(l).0 == e.0);
        assert(l.subrange(pad.len() as int, l.len() as int) =~= line_rest(e));
        lemma_parse_line(e.1.r, e.1.role, e.1.label, e.1.ops, e.1.attrs, first);
        assert forall|i: int| 0 <= i < es.drop_first().len() implies safe_fields(
            (#[trigger] es.drop_first()[i]).1.label,
            es.drop_first()[i].1.attrs,
        ) by {
            assert(es.drop_first()[i] == es[i + 1]);
        }
        lemma_parse_entries(es.drop_first(), first + 1);
        assert(ls.drop_first() =~= es.drop_first().map_values(|e: (nat, NodeV)| line_body(e)));
        assert(es.map_values(|e: (nat, NodeV)| shell_entry(e)) =~= seq![shell_entry(e)]
            + es.drop_first().map_values(|e: (nat, NodeV)| shell_entry(e)));
    }
}

/// Rebuilding the pre-order entries of a forest gives the forest back.
pub proof fn lemma_forest_flat(s: Seq<NodeV>, d: nat)
    ensures
        forest(flat_nodes(s, d).map_values(|e: (nat, NodeV)| shell_entry(e))) == s,
    decreases s,
{
    let f = flat_nodes(s, d);
    let m = f.map_values(|e: (nat, NodeV)| shell_entry(e));
    if s.len() == 0 {
        lemma_flat_facts(s, d);
        assert(m =~= Seq::<(nat, ShellV)>::empty());
        assert(s =~= Seq::<NodeV>::empty());
    } else {
        let n = s[0];
        assert(decreases_to!(s => s[0]));
        let c = flat_nodes(n.children, d + 1);
        let r = flat_nodes(s.drop_first(), d);
        lemma_flat_facts(n.children, d + 1);
        lemma_flat_facts(s.drop_first(), d);
        assert(flat_node(n, d) == seq![(d, n)] + c);
        assert(f == flat_node(n, d) + r);
        assert(f =~= seq![(d, n)] + c + r);
        let k: int = 1 + c.len() as int;
        assert forall|i: int| 1 <= i < k implies (#[trigger] m[i]).0 > d by {
            assert(m[i].0 == f[i].0);
            assert(f[i] == c[i - 1]);
        }
        if k < m.len() {
            assert(f[k] == r[0]);
            assert(m[k].0 == d);
        }
        assert(m[0] == (d, shell_of(n)));
        lemma_run_end(m, d, 1);
        let j = run_end(m, d, 1);
        assert(j == k) by {
            if j < k {
                assert(m[j].0 > d);
            }
            if j > k {
                assert(m[k].0 <= d);
            }
        }
        assert(m.subrange(1, k) =~= c.map_values(|e: (nat, NodeV)| shell_entry(e)));
        assert(m.subrange(k, m.len() as int) =~= r.map_values(|e: (nat, NodeV)| shell_entry(e)));
        lemma_forest_flat(n.children, d + 1);
        lemma_forest_flat(s.drop_first(), d);
        assert(shell_node(shell_of(n), n.children) == n);
        assert(s =~= seq![n] + s.drop_first());
    }
}

/// Reading back the encoding of a forest whose texts survive the wire
/// gives the same forest.
pub proof fn lemma_tree_round_trip(s: Seq<NodeV>)
    requires
        wire_safe(s),
    ensures
        parse_tree_spec(encode_nodes_spec(s, 0)) == Ok::<Seq<NodeV>, ParseErrorView>(s),
{
    let f = flat_nodes(s, 0);
    lemma_encode_flat(s, 0);
    lemma_flat_facts(s, 0);
    assert forall|i: int| 0 <= i < f.len() implies no_nl(line_body(#[trigger] f[i])) by {
        lemma_line_body_no_nl(f[i]);
    }
    lemma_lines_concat(f);
    lemma_parse_entries(f, 1);
    lemma_forest_flat(s, 0);
}

} // verus!
