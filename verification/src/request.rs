//! Request line: `<primitive> [arg]... [--flag[=val]]...`
//!
//! The primitive is a lowercase identifier; positional args may be bare
//! or `"..."`-quoted; flags use the long form (`--name` or
//! `--name=value`). Args and flag values are backslash-escaped before
//! quoting, so a value holding line breaks or quotes survives the
//! line-framed transport.

use vstd::prelude::*;

use crate::attrs::{compare_chars, lemma_sorted_insert, lemma_sorted_insert_at, lex_lt, sorted_insert, sorted_keys};
use crate::error::{ParseError, ParseErrorView};
use crate::envelope::{strings_view, trim_end_nl};
use crate::text::{chars_of, find_char, find_from, lemma_find_from, string_of, trim, trim_spec, vecs_view};
use crate::tokenize::{
    copy_range, has_blank, is_blank, lemma_skip_blanks_bounds, quoted, skip_blanks, strip_quotes,
    strip_quotes_spec,
};
use crate::tree::push_all;
use crate::tree_laws::{lemma_sorted_insert_last, spaced, lemma_spaced_add};
use crate::text::{is_white_space, ws_prefix, ws_suffix, lemma_ws_bounds};

verus! {

/// The escaped form of one character.
pub open spec fn escape_char(c: char) -> Seq<char> {
    if c == '\\' {
        seq!['\\', '\\']
    } else if c == '"' {
        seq!['\\', '"']
    } else if c == '\n' {
        seq!['\\', 'n']
    } else if c == '\r' {
        seq!['\\', 'r']
    } else if c == '\t' {
        seq!['\\', 't']
    } else {
        seq![c]
    }
}

/// `s` with `\`, `"`, line feed, carriage return and tab backslash-escaped.
pub open spec fn escape_spec(s: Seq<char>) -> Seq<char>
    decreases s.len(),
{
    if s.len() == 0 {
        Seq::empty()
    } else {
        escape_char(s[0]) + escape_spec(s.drop_first())
    }
}

/// The character an escape `\c` stands for, or the escape kept whole
/// when `c` is not one of the five.
pub open spec fn unescape_pair(c: char) -> Seq<char> {
    if c == '\\' {
        seq!['\\']
    } else if c == '"' {
        seq!['"']
    } else if c == 'n' {
        seq!['\n']
    } else if c == 'r' {
        seq!['\r']
    } else if c == 't' {
        seq!['\t']
    } else {
        seq!['\\', c]
    }
}

/// Inverse of [`escape_spec`]; an unknown escape is kept verbatim and a
/// trailing lone `\` stays.
pub open spec fn unescape_spec(s: Seq<char>) -> Seq<char>
    decreases s.len(),
{
    if s.len() == 0 {
        Seq::empty()
    } else if s[0] != '\\' {
        seq![s[0]] + unescape_spec(s.drop_first())
    } else if s.len() == 1 {
        seq!['\\']
    } else {
        unescape_pair(s[1]) + unescape_spec(s.skip(2))
    }
}

/// An escaped value, quoted when it is empty or holds a blank.
pub open spec fn quote_arg_spec(e: Seq<char>) -> Seq<char> {
    if e.len() == 0 || has_blank(e) {
        quoted(e)
    } else {
        e
    }
}

/// End of the request token that continues at `i`: a backslash takes the
/// next character along, `"` toggles a quoted span, and a blank outside
/// quotes ends the token.
pub open spec fn rtoken_end(s: Seq<char>, i: int, q: bool) -> int
    decreases s.len() + 1 - i,
{
    if i < 0 || i >= s.len() {
        s.len() as int
    } else if s[i] == '\\' {
        rtoken_end(s, i + 2, q)
    } else if s[i] == '"' {
        rtoken_end(s, i + 1, !q)
    } else if is_blank(s[i]) && !q {
        i
    } else {
        rtoken_end(s, i + 1, q)
    }
}

pub proof fn lemma_rtoken_end_bounds(s: Seq<char>, i: int, q: bool)
    requires
        0 <= i <= s.len(),
    ensures
        i <= rtoken_end(s, i, q) <= s.len(),
        i < s.len() && !is_blank(s[i]) ==> rtoken_end(s, i, q) > i,
    decreases s.len() + 1 - i,
{
    if i < s.len() {
        if s[i] == '\\' {
            if i + 2 <= s.len() {
                lemma_rtoken_end_bounds(s, i + 2, q);
            } else {
                assert(rtoken_end(s, i + 2, q) == s.len());
            }
            assert(rtoken_end(s, i, q) == rtoken_end(s, i + 2, q));
        } else if s[i] == '"' {
            lemma_rtoken_end_bounds(s, i + 1, !q);
        } else if !(is_blank(s[i]) && !q) {
            lemma_rtoken_end_bounds(s, i + 1, q);
        }
    }
}

/// The request tokens of `s` from position `p` on.
pub open spec fn rtokens_from(s: Seq<char>, p: int) -> Seq<Seq<char>>
    decreases s.len() - p,
{
    if 0 <= p <= s.len() {
        let st = skip_blanks(s, p);
        if st >= s.len() {
            Seq::empty()
        } else {
            let e = rtoken_end(s, st, false);
            proof {
                lemma_skip_blanks_bounds(s, p);
                lemma_rtoken_end_bounds(s, st, false);
            }
            seq![s.subrange(st, e)] + rtokens_from(s, e)
        }
    } else {
        Seq::empty()
    }
}

/// True for a primitive name: lowercase letters, digits and `_`, at
/// least one.
pub open spec fn valid_primitive(s: Seq<char>) -> bool {
    &&& s.len() > 0
    &&& forall|i: int|
        0 <= i < s.len() ==> ('a' <= #[trigger] s[i] && s[i] <= 'z') || ('0' <= s[i] && s[i] <= '9') || s[i] == '_'
}

/// Flags of a request: names kept unique and sorted, each with an
/// optional value.
#[derive(Debug, PartialEq, Eq)]
pub struct Flags {
    entries: Vec<(Vec<char>, Option<Vec<char>>)>,
}

/// The characters of an optional value.
pub open spec fn opt_view(v: Option<Vec<char>>) -> Option<Seq<char>> {
    match v {
        Some(x) => Some(x@),
        None => None,
    }
}

/// The pairs held by `e`, as character sequences.
pub open spec fn flag_entries_view(e: Seq<(Vec<char>, Option<Vec<char>>)>) -> Seq<(Seq<char>, Option<Seq<char>>)> {
    e.map_values(|p: (Vec<char>, Option<Vec<char>>)| (p.0@, opt_view(p.1)))
}

impl View for Flags {
    type V = Seq<(Seq<char>, Option<Seq<char>>)>;

    closed spec fn view(&self) -> Seq<(Seq<char>, Option<Seq<char>>)> {
        flag_entries_view(self.entries@)
    }
}

fn copy_opt(v: &Option<Vec<char>>) -> (c: Option<Vec<char>>)
    ensures
        opt_view(c) == opt_view(*v),
{
    match v {
        Some(x) => Some(vstd::slice::slice_to_vec(x.as_slice())),
        None => None,
    }
}

impl Flags {
    #[verifier::type_invariant]
    closed spec fn inv(self) -> bool {
        sorted_keys(flag_entries_view(self.entries@))
    }

    /// No flag.
    pub fn new() -> (f: Flags)
        ensures
            f@ == Seq::<(Seq<char>, Option<Seq<char>>)>::empty(),
    {
        let f = Flags { entries: Vec::new() };
        assert(f@ =~= Seq::<(Seq<char>, Option<Seq<char>>)>::empty());
        f
    }

    /// Number of flags.
    pub fn len(&self) -> (n: usize)
        ensures
            n == self@.len(),
            sorted_keys(self@),
    {
        proof {
            use_type_invariant(self);
        }
        self.entries.len()
    }

    /// Name and value of the flag at position `i` in name order.
    pub fn entry(&self, i: usize) -> (p: (&Vec<char>, &Option<Vec<char>>))
        requires
            i < self@.len(),
        ensures
            p.0@ == self@[i as int].0,
            opt_view(*p.1) == self@[i as int].1,
    {
        let e = &self.entries[i];
        (&e.0, &e.1)
    }

    /// Set flag `name` to `value`, keeping the names sorted.
    pub fn insert_chars(&mut self, name: Vec<char>, value: Option<Vec<char>>)
        ensures
            final(self)@ == sorted_insert(old(self)@, name@, opt_view(value)),
    {
        proof {
            use_type_invariant(&*self);
        }
        let ghost s = self@;
        let ghost vv = opt_view(value);
        let mut e: Vec<(Vec<char>, Option<Vec<char>>)> = Vec::new();
        std::mem::swap(&mut e, &mut self.entries);
        assert(flag_entries_view(e@) == s);
        let mut i: usize = 0;
        while i < e.len() && compare_chars(&e[i].0, &name) < 0
            invariant
                i <= e.len(),
                flag_entries_view(e@) == s,
                sorted_keys(s),
                forall|j: int| 0 <= j < i ==> lex_lt(#[trigger] s[j].0, name@),
            decreases e.len() - i,
        {
            assert(s[i as int].0 == e@[i as int].0@);
            i += 1;
        }
        proof {
            if i < e.len() {
                assert(s[i as int].0 == e@[i as int].0@);
            }
            lemma_sorted_insert_at(s, name@, vv, i as int);
            lemma_sorted_insert(s, name@, vv);
        }
        if i < e.len() && compare_chars(&e[i].0, &name) == 0 {
            e.set(i, (name, value));
            assert(flag_entries_view(e@) =~= s.take(i as int) + seq![(name@, vv)] + s.skip(i + 1));
        } else {
            e.insert(i, (name, value));
            assert(flag_entries_view(e@) =~= s.take(i as int) + seq![(name@, vv)] + s.skip(i as int));
        }
        self.entries = e;
    }

    /// A copy with the same flags.
    pub fn duplicate(&self) -> (c: Flags)
        ensures
            c@ == self@,
    {
        proof {
            use_type_invariant(self);
        }
        let mut e: Vec<(Vec<char>, Option<Vec<char>>)> = Vec::new();
        let mut i: usize = 0;
        while i < self.entries.len()
            invariant
                i <= self.entries.len(),
                flag_entries_view(e@) == self@.take(i as int),
                e.len() == i,
            decreases self.entries.len() - i,
        {
            let k = vstd::slice::slice_to_vec(self.entries[i].0.as_slice());
            let v = copy_opt(&self.entries[i].1);
            assert(self@[i as int] == (k@, opt_view(v)));
            let ghost kv = (k@, opt_view(v));
            let ghost old_e = e@;
            e.push((k, v));
            assert(e@[i as int].0@ == kv.0 && opt_view(e@[i as int].1) == kv.1);
            assert(forall|j: int| 0 <= j < i ==> e@[j] == old_e[j]);
            assert(flag_entries_view(e@) =~= self@.take(i + 1));
            i += 1;
        }
        assert(self@.take(self@.len() as int) =~= self@);
        Flags { entries: e }
    }
}

impl Clone for Flags {
    fn clone(&self) -> (c: Flags)
        ensures
            c@ == self@,
    {
        self.duplicate()
    }
}

fn push_escaped(out: &mut Vec<char>, c: char)
    ensures
        final(out)@ == old(out)@ + escape_char(c),
{
    if c == '\\' {
        out.push('\\');
        out.push('\\');
    } else if c == '"' {
        out.push('\\');
        out.push('"');
    } else if c == '\n' {
        out.push('\\');
        out.push('n');
    } else if c == '\r' {
        out.push('\\');
        out.push('r');
    } else if c == '\t' {
        out.push('\\');
        out.push('t');
    } else {
        out.push(c);
    }
    assert(final(out)@ =~= old(out)@ + escape_char(c));
}

/// Backslash-escape `\`, `"`, line feed, carriage return and tab.
pub fn escape_wire(s: &[char]) -> (r: Vec<char>)
    ensures
        r@ == escape_spec(s@),
{
    let mut out: Vec<char> = Vec::new();
    let mut i: usize = 0;
    assert(s@.skip(0) =~= s@);
    while i < s.len()
        invariant
            i <= s.len(),
            out@ + escape_spec(s@.skip(i as int)) == escape_spec(s@),
        decreases s.len() - i,
    {
        let ghost before = out@;
        push_escaped(&mut out, s[i]);
        proof {
            let sk = s@.skip(i as int);
            assert(sk[0] == s@[i as int]);
            assert(sk.drop_first() =~= s@.skip(i + 1));
            assert(out@ + escape_spec(s@.skip(i + 1)) =~= before + escape_spec(sk));
        }
        i += 1;
    }
    assert(s@.skip(s.len() as int) =~= Seq::<char>::empty());
    assert(out@ + Seq::<char>::empty() =~= out@);
    out
}

/// Inverse of [`escape_wire`]: an unknown escape is kept verbatim.
pub fn unescape_wire(s: &[char]) -> (r: Vec<char>)
    ensures
        r@ == unescape_spec(s@),
{
    let mut out: Vec<char> = Vec::new();
    let mut i: usize = 0;
    assert(s@.skip(0) =~= s@);
    while i < s.len()
        invariant
            i <= s.len(),
            out@ + unescape_spec(s@.skip(i as int)) == unescape_spec(s@),
        decreases s.len() - i,
    {
        let ghost before = out@;
        let ghost sk = s@.skip(i as int);
        assert(sk[0] == s@[i as int]);
        if s[i] != '\\' {
            out.push(s[i]);
            assert(sk.drop_first() =~= s@.skip(i + 1));
            assert(out@ + unescape_spec(s@.skip(i + 1)) =~= before + unescape_spec(sk));
            i += 1;
        } else if i + 1 >= s.len() {
            out.push('\\');
            assert(sk.len() == 1);
            assert(s@.skip(i + 1) =~= Seq::<char>::empty());
            assert(out@ + unescape_spec(s@.skip(i + 1)) =~= before + unescape_spec(sk));
            i += 1;
        } else {
            let c = s[i + 1];
            assert(sk[1] == c);
            if c == '\\' {
                out.push('\\');
            } else if c == '"' {
                out.push('"');
            } else if c == 'n' {
                out.push('\n');
            } else if c == 'r' {
                out.push('\r');
            } else if c == 't' {
                out.push('\t');
            } else {
                out.push('\\');
                out.push(c);
            }
            assert(out@ =~= before + unescape_pair(c));
            assert(sk.skip(2) =~= s@.skip(i + 2));
            assert(out@ + unescape_spec(s@.skip(i + 2)) =~= before + unescape_spec(sk));
            i += 2;
        }
    }
    assert(s@.skip(i as int) =~= Seq::<char>::empty());
    assert(out@ + Seq::<char>::empty() =~= out@);
    out
}

/// Wrap an escaped value in `"..."` when it is empty or holds a blank.
pub fn quote_arg(e: &[char]) -> (r: Vec<char>)
    ensures
        r@ == quote_arg_spec(e@),
{
    let mut blank = false;
    let mut i: usize = 0;
    while i < e.len()
        invariant
            i <= e.len(),
            blank == exists|k: int| 0 <= k < i && is_blank(#[trigger] e@[k]),
        decreases e.len() - i,
    {
        if e[i] == ' ' || e[i] == '\t' {
            blank = true;
        }
        i += 1;
    }
    if e.len() == 0 || blank {
        let mut out: Vec<char> = Vec::new();
        out.push('"');
        push_all(&mut out, e);
        out.push('"');
        assert(out@ =~= quoted(e@));
        out
    } else {
        vstd::slice::slice_to_vec(e)
    }
}

/// Split a request line into raw tokens (quotes and escapes kept),
/// breaking on blanks outside quotes; a backslash escapes the character
/// after it.
pub fn raw_tokens(s: &[char]) -> (ts: Vec<Vec<char>>)
    ensures
        vecs_view(ts@) == rtokens_from(s@, 0),
{
    let mut out: Vec<Vec<char>> = Vec::new();
    let mut p: usize = 0;
    assert(vecs_view(out@) + rtokens_from(s@, 0) =~= rtokens_from(s@, 0));
    loop
        invariant
            p <= s.len(),
            vecs_view(out@) + rtokens_from(s@, p as int) == rtokens_from(s@, 0),
        decreases s.len() - p,
    {
        let mut st = p;
        while st < s.len() && (s[st] == ' ' || s[st] == '\t')
            invariant
                p <= st <= s.len(),
                skip_blanks(s@, p as int) == skip_blanks(s@, st as int),
            decreases s.len() - st,
        {
            st += 1;
        }
        proof {
            lemma_skip_blanks_bounds(s@, p as int);
        }
        if st >= s.len() {
            assert(rtokens_from(s@, p as int) =~= Seq::<Seq<char>>::empty());
            assert(vecs_view(out@) + Seq::<Seq<char>>::empty() =~= vecs_view(out@));
            return out;
        }
        let mut e = st;
        let mut q = false;
        while e < s.len()
            invariant
                st <= e <= s.len(),
                rtoken_end(s@, st as int, false) == rtoken_end(s@, e as int, q),
            ensures
                e == rtoken_end(s@, st as int, false),
            decreases s.len() - e,
        {
            let c = s[e];
            if c == '\\' {
                if e + 1 < s.len() {
                    e += 2;
                } else {
                    assert(rtoken_end(s@, e + 2, q) == s.len());
                    e = s.len();
                }
            } else if c == '"' {
                q = !q;
                e += 1;
            } else if (c == ' ' || c == '\t') && !q {
                break;
            } else {
                e += 1;
            }
        }
        proof {
            lemma_rtoken_end_bounds(s@, st as int, false);
        }
        let tok = copy_range(s, st, e);
        let ghost before = out@;
        out.push(tok);
        proof {
            assert(vecs_view(out@) =~= vecs_view(before).push(tok@));
            assert(rtokens_from(s@, p as int) == seq![tok@] + rtokens_from(s@, e as int));
            assert(vecs_view(out@) + rtokens_from(s@, e as int) =~= vecs_view(before) + rtokens_from(s@, p as int));
        }
        p = e;
    }
}

/// True for a primitive name.
pub fn is_valid_primitive(s: &[char]) -> (b: bool)
    ensures
        b == valid_primitive(s@),
{
    if s.len() == 0 {
        return false;
    }
    let mut i: usize = 0;
    while i < s.len()
        invariant
            i <= s.len(),
            s.len() > 0,
            forall|k: int|
                0 <= k < i ==> ('a' <= #[trigger] s@[k] && s@[k] <= 'z') || ('0' <= s@[k] && s@[k] <= '9') || s@[k]
                    == '_',
        decreases s.len() - i,
    {
        let c = s[i];
        if !(('a' <= c && c <= 'z') || ('0' <= c && c <= '9') || c == '_') {
            return false;
        }
        i += 1;
    }
    true
}

/// One request from the CLI to the daemon.
#[derive(Debug, PartialEq, Eq)]
pub struct Request {
    /// Primitive name, e.g. `vs_open`.
    pub primitive: String,
    /// Positional arguments, in order.
    pub args: Vec<String>,
    /// Flags: `None` for a bare flag (`--full-page`), `Some(v)` for
    /// `--name=v`.
    pub flags: Flags,
}

/// One positional argument on the wire: a space, then the escaped,
/// possibly quoted value.
pub open spec fn arg_item(a: Seq<char>) -> Seq<char> {
    seq![' '] + quote_arg_spec(escape_spec(a))
}

/// Every positional argument on the wire, in order.
pub open spec fn args_items(args: Seq<Seq<char>>) -> Seq<char>
    decreases args.len(),
{
    if args.len() == 0 {
        Seq::empty()
    } else {
        arg_item(args[0]) + args_items(args.drop_first())
    }
}

/// One flag on the wire: ` --name` or ` --name=value`.
pub open spec fn flag_item(f: (Seq<char>, Option<Seq<char>>)) -> Seq<char> {
    seq![' ', '-', '-'] + f.0 + match f.1 {
        Some(v) => seq!['='] + quote_arg_spec(escape_spec(v)),
        None => Seq::empty(),
    }
}

/// Every flag on the wire, in order.
pub open spec fn flags_items(fs: Seq<(Seq<char>, Option<Seq<char>>)>) -> Seq<char>
    decreases fs.len(),
{
    if fs.len() == 0 {
        Seq::empty()
    } else {
        flag_item(fs[0]) + flags_items(fs.drop_first())
    }
}

/// The wire line of a request, with its line break.
pub open spec fn request_line(
    primitive: Seq<char>,
    args: Seq<Seq<char>>,
    flags: Seq<(Seq<char>, Option<Seq<char>>)>,
) -> Seq<char> {
    primitive + args_items(args) + flags_items(flags) + seq!['\n']
}

/// The arguments and flags of the request tokens `toks`, added to `args`
/// and `flags`.
pub open spec fn request_items(
    toks: Seq<Seq<char>>,
    args: Seq<Seq<char>>,
    flags: Seq<(Seq<char>, Option<Seq<char>>)>,
) -> Result<(Seq<Seq<char>>, Seq<(Seq<char>, Option<Seq<char>>)>), ParseErrorView>
    decreases toks.len(),
{
    if toks.len() == 0 {
        Ok((args, flags))
    } else {
        let t = toks[0];
        if t.len() >= 2 && t[0] == '-' && t[1] == '-' {
            let rest = t.skip(2);
            if rest.len() == 0 {
                Err(ParseErrorView::InvalidRequest { detail: "flag with no name"@ })
            } else {
                let e = find_from(rest, '=', 0);
                if e < rest.len() {
                    if e <= 0 {
                        Err(ParseErrorView::InvalidRequest { detail: "flag with empty name"@ })
                    } else {
                        request_items(
                            toks.drop_first(),
                            args,
                            sorted_insert(flags, rest.take(e), Some(unescape_spec(strip_quotes_spec(rest.skip(e + 1))))),
                        )
                    }
                } else {
                    request_items(toks.drop_first(), args, sorted_insert(flags, rest, None))
                }
            }
        } else {
            request_items(toks.drop_first(), args.push(unescape_spec(strip_quotes_spec(t))), flags)
        }
    }
}

/// What [`Request::parse`] gives for `line`: primitive, arguments and flags.
pub open spec fn parse_request_spec(line: Seq<char>) -> Result<
    (Seq<char>, Seq<Seq<char>>, Seq<(Seq<char>, Option<Seq<char>>)>),
    ParseErrorView,
> {
    let t = trim_spec(trim_end_nl(line));
    if t.len() == 0 {
        Err(ParseErrorView::InvalidRequest { detail: "empty request line"@ })
    } else {
        let toks = rtokens_from(t, 0);
        if toks.len() == 0 {
            Err(ParseErrorView::InvalidRequest { detail: "missing primitive"@ })
        } else if !valid_primitive(toks[0]) {
            Err(ParseErrorView::InvalidRequest { detail: "invalid primitive name"@ })
        } else {
            match request_items(toks.skip(1), Seq::empty(), Seq::empty()) {
                Err(e) => Err(e),
                Ok((args, flags)) => Ok((toks[0], args, flags)),
            }
        }
    }
}

impl Request {
    /// The request line without its line break(s), as `Display` would
    /// show it.
    pub open spec fn shown(&self) -> Seq<char> {
        trim_end_nl(request_line(self.primitive@, strings_view(self.args@), self.flags@))
    }

    /// A request for `primitive` with no argument and no flag.
    pub fn new(primitive: &str) -> (r: Request)
        ensures
            r.primitive@ == primitive@,
            r.args@.len() == 0,
            r.flags@.len() == 0,
    {
        let p = chars_of(primitive);
        Request { primitive: string_of(p.as_slice()), args: Vec::new(), flags: Flags::new() }
    }

    /// The same request with `value` added after its arguments.
    pub fn arg(self, value: &str) -> (r: Request)
        ensures
            r.primitive@ == self.primitive@,
            strings_view(r.args@) == strings_view(self.args@).push(value@),
            r.flags@ == self.flags@,
    {
        let mut s = self;
        let v = chars_of(value);
        let ghost before = s.args@;
        s.args.push(string_of(v.as_slice()));
        assert(strings_view(s.args@) =~= strings_view(before).push(value@));
        s
    }

    /// The same request with the bare flag `name` set.
    pub fn flag(self, name: &str) -> (r: Request)
        ensures
            r.primitive@ == self.primitive@,
            r.args@ == self.args@,
            r.flags@ == sorted_insert(self.flags@, name@, None::<Seq<char>>),
    {
        let mut s = self;
        let n = chars_of(name);
        s.flags.insert_chars(n, None);
        s
    }

    /// The same request with the flag `name` set to `value`.
    pub fn flag_value(self, name: &str, value: &str) -> (r: Request)
        ensures
            r.primitive@ == self.primitive@,
            r.args@ == self.args@,
            r.flags@ == sorted_insert(self.flags@, name@, Some(value@)),
    {
        let mut s = self;
        let n = chars_of(name);
        let v = chars_of(value);
        s.flags.insert_chars(n, Some(v));
        s
    }

    /// Encode the request as one wire line, with its line break. Args and
    /// flag values are escaped before quoting.
    pub fn encode(&self) -> (s: String)
        ensures
            s@ == request_line(self.primitive@, strings_view(self.args@), self.flags@),
    {
        let out = self.encode_chars();
        string_of(out.as_slice())
    }

    fn encode_chars(&self) -> (out: Vec<char>)
        ensures
            out@ == request_line(self.primitive@, strings_view(self.args@), self.flags@),
    {
        let mut out = chars_of(self.primitive.as_str());
        let ghost av = strings_view(self.args@);
        let mut i: usize = 0;
        assert(av.skip(0) =~= av);
        while i < self.args.len()
            invariant
                i <= self.args.len(),
                av == strings_view(self.args@),
                out@ + args_items(av.skip(i as int)) == self.primitive@ + args_items(av),
            decreases self.args.len() - i,
        {
            let ghost before = out@;
            out.push(' ');
            let a = chars_of(self.args[i].as_str());
            let e = escape_wire(a.as_slice());
            let q = quote_arg(e.as_slice());
            push_all(&mut out, q.as_slice());
            proof {
                let sk = av.skip(i as int);
                assert(sk[0] == self.args@[i as int]@);
                assert(sk.drop_first() =~= av.skip(i + 1));
                assert(out@ + args_items(av.skip(i + 1)) =~= before + args_items(sk));
            }
            i += 1;
        }
        assert(av.skip(self.args.len() as int) =~= Seq::<Seq<char>>::empty());
        let ghost fv = self.flags@;
        let ghost mid = out@;
        let n = self.flags.len();
        let mut j: usize = 0;
        assert(fv.skip(0) =~= fv);
        while j < n
            invariant
                j <= n,
                n == fv.len(),
                fv == self.flags@,
                out@ + flags_items(fv.skip(j as int)) == mid + flags_items(fv),
            decreases n - j,
        {
            let ghost before = out@;
            let (k, v) = self.flags.entry(j);
            out.push(' ');
            out.push('-');
            out.push('-');
            push_all(&mut out, k.as_slice());
            match v {
                Some(x) => {
                    out.push('=');
                    let e = escape_wire(x.as_slice());
                    let q = quote_arg(e.as_slice());
                    push_all(&mut out, q.as_slice());
                },
                None => {},
            }
            proof {
                let sk = fv.skip(j as int);
                assert(sk[0] == fv[j as int]);
                assert(sk.drop_first() =~= fv.skip(j + 1));
                assert(out@ =~= before + flag_item(fv[j as int]));
                assert(out@ + flags_items(fv.skip(j + 1)) =~= before + flags_items(sk));
            }
            j += 1;
        }
        assert(fv.skip(n as int) =~= Seq::<(Seq<char>, Option<Seq<char>>)>::empty());
        out.push('\n');
        assert(out@ =~= request_line(self.primitive@, av, fv));
        out
    }

    /// The request line without its trailing line break (what `Display`
    /// shows).
    pub fn to_string(&self) -> (s: String)
        ensures
            s@ == self.shown(),
    {
        let out = self.encode_chars();
        let mut n = out.len();
        assert(out@.take(n as int) =~= out@);
        while n > 0 && out[n - 1] == '\n'
            invariant
                n <= out.len(),
                trim_end_nl(out@) == trim_end_nl(out@.take(n as int)),
            decreases n,
        {
            assert(out@.take(n as int).drop_last() =~= out@.take(n - 1));
            n -= 1;
        }
        assert(n > 0 ==> out@.take(n as int).last() == out@[n - 1]);
        let t = copy_range(out.as_slice(), 0, n);
        string_of(t.as_slice())
    }

    /// Parse one request line; the trailing newline is optional.
    pub fn parse(line: &str) -> (res: Result<Request, ParseError>)
        ensures
            match res {
                Ok(r) => parse_request_spec(line@) == Ok::<
                    (Seq<char>, Seq<Seq<char>>, Seq<(Seq<char>, Option<Seq<char>>)>),
                    ParseErrorView,
                >((r.primitive@, strings_view(r.args@), r.flags@)),
                Err(e) => parse_request_spec(line@) == Err::<
                    (Seq<char>, Seq<Seq<char>>, Seq<(Seq<char>, Option<Seq<char>>)>),
                    ParseErrorView,
                >(e@),
            },
    {
        let v = chars_of(line);
        let mut n = v.len();
        assert(v@.take(n as int) =~= v@);
        while n > 0 && v[n - 1] == '\n'
            invariant
                n <= v.len(),
                trim_end_nl(v@) == trim_end_nl(v@.take(n as int)),
            decreases n,
        {
            assert(v@.take(n as int).drop_last() =~= v@.take(n - 1));
            n -= 1;
        }
        assert(n > 0 ==> v@.take(n as int).last() == v@[n - 1]);
        let head = copy_range(v.as_slice(), 0, n);
        let t = trim(head.as_slice());
        if t.len() == 0 {
            return Err(ParseError::InvalidRequest { detail: "empty request line" });
        }
        let toks = raw_tokens(t.as_slice());
        let ghost tv = vecs_view(toks@);
        if toks.len() == 0 {
            return Err(ParseError::InvalidRequest { detail: "missing primitive" });
        }
        assert(tv[0] == toks@[0]@);
        if !is_valid_primitive(toks[0].as_slice()) {
            return Err(ParseError::InvalidRequest { detail: "invalid primitive name" });
        }
        let mut args: Vec<String> = Vec::new();
        let mut flags = Flags::new();
        let mut i: usize = 1;
        assert(tv.skip(1) =~= tv.drop_first());
        assert(strings_view(args@) =~= Seq::<Seq<char>>::empty());
        let ghost whole = match request_items(tv.skip(1), Seq::empty(), Seq::empty()) {
            Err(e) => Err(e),
            Ok((a, f)) => Ok((tv[0], a, f)),
        };
        assert(parse_request_spec(line@) == whole);
        while i < toks.len()
            invariant
                1 <= i <= toks.len(),
                tv == vecs_view(toks@),
                tv.len() > 0,
                parse_request_spec(line@) == whole,
                whole == match request_items(tv.skip(1), Seq::empty(), Seq::empty()) {
                    Err(e) => Err(e),
                    Ok((a, f)) => Ok((tv[0], a, f)),
                },
                request_items(tv.skip(i as int), strings_view(args@), flags@) == request_items(
                    tv.skip(1),
                    Seq::empty(),
                    Seq::empty(),
                ),
            decreases toks.len() - i,
        {
            let t = &toks[i];
            proof {
                assert(tv.skip(i as int)[0] == t@);
                assert(tv.skip(i as int).drop_first() =~= tv.skip(i + 1));
            }
            if t.len() >= 2 && t[0] == '-' && t[1] == '-' {
                let rest = copy_range(t.as_slice(), 2, t.len());
                assert(rest@ =~= t@.skip(2));
                if rest.len() == 0 {
                    return Err(ParseError::InvalidRequest { detail: "flag with no name" });
                }
                let e = find_char(rest.as_slice(), '=');
                if e < rest.len() {
                    if e == 0 {
                        return Err(ParseError::InvalidRequest { detail: "flag with empty name" });
                    }
                    let name = copy_range(rest.as_slice(), 0, e);
                    let raw = copy_range(rest.as_slice(), e + 1, rest.len());
                    assert(name@ =~= rest@.take(e as int));
                    assert(raw@ =~= rest@.skip(e + 1));
                    let value = unescape_wire(strip_quotes(raw.as_slice()).as_slice());
                    flags.insert_chars(name, Some(value));
                } else {
                    flags.insert_chars(rest, None);
                }
            } else {
                let value = unescape_wire(strip_quotes(t.as_slice()).as_slice());
                let ghost before = args@;
                args.push(string_of(value.as_slice()));
                assert(strings_view(args@) =~= strings_view(before).push(value@));
            }
            i += 1;
        }
        assert(tv.skip(toks.len() as int) =~= Seq::<Seq<char>>::empty());
        Ok(Request { primitive: string_of(toks[0].as_slice()), args, flags })
    }
}

/// A run of escaped text: no bare `"`, and every `\` followed by one
/// more character that it takes along.
pub open spec fn esc_run(e: Seq<char>) -> bool
    decreases e.len(),
{
    if e.len() == 0 {
        true
    } else if e[0] == '\\' {
        e.len() >= 2 && esc_run(e.skip(2))
    } else {
        e[0] != '"' && esc_run(e.drop_first())
    }
}

/// No blank outside the escape pairs of an escaped run.
pub open spec fn esc_no_blank(e: Seq<char>) -> bool
    decreases e.len(),
{
    if e.len() == 0 {
        true
    } else if e[0] == '\\' {
        e.len() >= 2 && esc_no_blank(e.skip(2))
    } else {
        !is_blank(e[0]) && esc_no_blank(e.drop_first())
    }
}

/// A token that the request tokenizer reads whole wherever it stands,
/// when a blank or the end follows it.
pub open spec fn rtok_ok(t: Seq<char>) -> bool {
    &&& t.len() > 0
    &&& !is_blank(t[0])
    &&& forall|s: Seq<char>, i: int|
        0 <= i && i + t.len() <= s.len() && #[trigger] s.subrange(i, i + t.len()) == t && (i + t.len() == s.len()
            || is_blank(s[i + t.len()])) ==> rtoken_end(s, i, false) == i + t.len()
}

proof fn lemma_rend_run(s: Seq<char>, i: int, e: Seq<char>, q: bool)
    requires
        0 <= i,
        i + e.len() <= s.len(),
        s.subrange(i, i + e.len()) == e,
        esc_run(e),
        q || esc_no_blank(e),
    ensures
        rtoken_end(s, i, q) == rtoken_end(s, i + e.len(), q),
    decreases e.len(),
{
    if e.len() > 0 {
        assert(s[i] == e[0]);
        if e[0] == '\\' {
            assert(s.subrange(i + 2, i + e.len()) =~= e.skip(2));
            lemma_rend_run(s, i + 2, e.skip(2), q);
        } else {
            assert(s.subrange(i + 1, i + e.len()) =~= e.drop_first());
            lemma_rend_run(s, i + 1, e.drop_first(), q);
        }
    }
}

proof fn lemma_rend_stop(s: Seq<char>, j: int)
    requires
        0 <= j <= s.len(),
        j == s.len() || is_blank(s[j]),
    ensures
        rtoken_end(s, j, false) == j,
{
}

/// A plain run followed by an escaped run: the escaped run is either
/// bare (then free of blanks) or wrapped in one pair of quotes.
pub open spec fn rtok_shape(p: Seq<char>, e: Seq<char>, quote: bool) -> Seq<char> {
    if quote {
        p + quoted(e)
    } else {
        p + e
    }
}

/// Such a token is read whole.
pub proof fn lemma_rtok_shape(p: Seq<char>, e: Seq<char>, quote: bool)
    requires
        forall|k: int| 0 <= k < p.len() ==> #[trigger] p[k] != '\\' && p[k] != '"' && !is_blank(p[k]),
        esc_run(e),
        !quote ==> esc_no_blank(e),
        p.len() > 0 || quote || (e.len() > 0 && !is_blank(e[0])),
    ensures
        rtok_ok(rtok_shape(p, e, quote)),
{
    let t = rtok_shape(p, e, quote);
    assert(t.len() > 0);
    assert(!is_blank(t[0])) by {
        if p.len() > 0 {
            assert(t[0] == p[0]);
        } else if quote {
            assert(t[0] == '"');
        } else {
            assert(t[0] == e[0]);
        }
    }
    assert forall|s: Seq<char>, i: int|
        0 <= i && i + t.len() <= s.len() && #[trigger] s.subrange(i, i + t.len()) == t && (i + t.len() == s.len()
            || is_blank(s[i + t.len()])) implies rtoken_end(s, i, false) == i + t.len() by {
        let ss = s.subrange(i, i + t.len());
        let pl: int = p.len() as int;
        let el: int = e.len() as int;
        assert(ss == t);
        assert(s.subrange(i, i + p.len()) =~= ss.subrange(0, p.len() as int));
        assert(ss.subrange(0, p.len() as int) =~= p);
        lemma_rend_plain(s, i, p);
        let j = i + p.len();
        if quote {
            assert(s[j] == ss[p.len() as int]);
            assert(s[j] == '"');
            assert(s.subrange(j + 1, j + 1 + e.len()) =~= ss.subrange(pl + 1, pl + 1 + el));
            assert(ss.subrange(pl + 1, pl + 1 + el) =~= e);
            lemma_rend_run(s, j + 1, e, true);
            assert(s[j + 1 + e.len()] == ss[pl + 1 + el]);
            assert(s[j + 1 + e.len()] == '"');
            assert(rtoken_end(s, j + 1 + e.len(), true) == rtoken_end(s, j + 2 + e.len(), false));
            lemma_rend_stop(s, i + t.len());
        } else {
            assert(s.subrange(j, j + e.len()) =~= ss.subrange(pl, pl + el));
            assert(ss.subrange(pl, pl + el) =~= e);
            lemma_rend_run(s, j, e, false);
            lemma_rend_stop(s, i + t.len());
        }
    }
}

proof fn lemma_rend_plain(s: Seq<char>, i: int, p: Seq<char>)
    requires
        0 <= i,
        i + p.len() <= s.len(),
        s.subrange(i, i + p.len()) == p,
        forall|k: int| 0 <= k < p.len() ==> #[trigger] p[k] != '\\' && p[k] != '"' && !is_blank(p[k]),
    ensures
        rtoken_end(s, i, false) == rtoken_end(s, i + p.len(), false),
    decreases p.len(),
{
    if p.len() > 0 {
        assert(s[i] == p[0]);
        assert(s.subrange(i + 1, i + p.len()) =~= p.drop_first());
        lemma_rend_plain(s, i + 1, p.drop_first());
    }
}

/// Request tokens after a prefix: each token of `ts` preceded by one
/// space reads back as `ts`.
pub proof fn lemma_rtokens_spaced(x: Seq<char>, ts: Seq<Seq<char>>)
    requires
        forall|i: int| 0 <= i < ts.len() ==> rtok_ok(#[trigger] ts[i]),
    ensures
        rtokens_from(x + spaced(ts), x.len() as int) == ts,
    decreases ts.len(),
{
    let s = x + spaced(ts);
    let p = x.len() as int;
    if ts.len() == 0 {
        assert(s =~= x);
        assert(skip_blanks(s, p) == p);
    } else {
        let t0 = ts[0];
        let rest = ts.drop_first();
        assert(rtok_ok(t0));
        let x2 = x + seq![' '] + t0;
        assert(s =~= x2 + spaced(rest));
        assert(s[p] == ' ');
        assert(s[p + 1] == t0[0]);
        assert(skip_blanks(s, p + 1) == p + 1);
        assert(skip_blanks(s, p) == p + 1);
        assert(s.subrange(p + 1, p + 1 + t0.len()) =~= t0);
        if rest.len() > 0 {
            assert(s[p + 1 + t0.len()] == ' ');
        } else {
            assert(s.len() == p + 1 + t0.len());
        }
        assert(rtoken_end(s, p + 1, false) == p + 1 + t0.len());
        assert forall|i: int| 0 <= i < rest.len() implies rtok_ok(#[trigger] rest[i]) by {
            assert(rest[i] == ts[i + 1]);
        }
        lemma_rtokens_spaced(x2, rest);
        assert(rtokens_from(s, p) == seq![t0] + rtokens_from(s, p + 1 + t0.len()));
        assert(ts =~= seq![t0] + rest);
    }
}

/// Escaping gives an escaped run, free of blanks unless the text holds a
/// space, and unescaping gives the text back.
pub proof fn lemma_escape(a: Seq<char>)
    ensures
        esc_run(escape_spec(a)),
        !has_blank(escape_spec(a)) <==> !a.contains(' '),
        !a.contains(' ') ==> esc_no_blank(escape_spec(a)),
        unescape_spec(escape_spec(a)) == a,
        escape_spec(a).len() == 0 <==> a.len() == 0,
        escape_spec(a).len() > 0 ==> escape_spec(a)[0] != '"',
        a.len() > 0 && a[0] != '\\' && a[0] != '"' && a[0] != '\n' && a[0] != '\r' && a[0] != '\t' ==> escape_spec(a)[0] == a[0],
        escape_spec(a).len() >= 2 && escape_spec(a)[0] == '-' && escape_spec(a)[1] == '-' ==> a.len() >= 2 && a[0] == '-'
            && a[1] == '-',
    decreases a.len(),
{
    if a.len() > 0 {
        let r = a.drop_first();
        lemma_escape(r);
        let c = a[0];
        let h = escape_char(c);
        let e = escape_spec(a);
        let er = escape_spec(r);
        assert(e == h + er);
        if h.len() == 2 {
            assert(e[0] == '\\');
            assert(e.skip(2) =~= er);
            assert(unescape_pair(h[1]) =~= seq![c]);
            assert(unescape_spec(e) == unescape_pair(e[1]) + unescape_spec(e.skip(2)));
        } else {
            assert(h =~= seq![c]);
            assert(e.drop_first() =~= er);
            assert(unescape_spec(e) == seq![c] + unescape_spec(e.drop_first()));
        }
        assert(a =~= seq![c] + r);
        assert(has_blank(e) <==> (is_blank(h[0]) && h.len() == 1) || (h.len() == 2 && is_blank(h[1])) || has_blank(er)) by {
            if has_blank(e) {
                let k = choose|k: int| 0 <= k < e.len() && is_blank(#[trigger] e[k]);
                if k >= h.len() {
                    assert(er[k - h.len()] == e[k]);
                }
            }
            if has_blank(er) {
                let k = choose|k: int| 0 <= k < er.len() && is_blank(#[trigger] er[k]);
                assert(e[k + h.len()] == er[k]);
            }
            if h.len() == 1 && is_blank(h[0]) {
                assert(e[0] == h[0]);
            }
        }
        assert(a.contains(' ') <==> c == ' ' || r.contains(' ')) by {
            if a.contains(' ') {
                let k = choose|k: int| 0 <= k < a.len() && a[k] == ' ';
                if k > 0 {
                    assert(r[k - 1] == ' ');
                }
            }
            if r.contains(' ') {
                let k = choose|k: int| 0 <= k < r.len() && r[k] == ' ';
                assert(a[k + 1] == ' ');
            }
        }
        if e.len() >= 2 && e[0] == '-' && e[1] == '-' {
            assert(h =~= seq![c]);
            assert(er[0] == '-');
            assert(r.len() > 0);
        }
    } else {
        assert(escape_spec(a) =~= Seq::<char>::empty());
    }
}

/// A flag name that survives the wire: non-empty, without `=`, `"`, `\`
/// or blanks.
pub open spec fn safe_flag_name(k: Seq<char>) -> bool {
    &&& k.len() > 0
    &&& forall|i: int| 0 <= i < k.len() ==> #[trigger] k[i] != '=' && k[i] != '"' && k[i] != '\\' && !is_blank(k[i])
}

/// An argument that is not read back as a flag: it starts with `--`
/// only when it holds a space (and so is quoted).
pub open spec fn arg_not_flag(a: Seq<char>) -> bool {
    a.len() >= 2 && a[0] == '-' && a[1] == '-' ==> a.contains(' ')
}

/// The wire token of an argument.
pub open spec fn arg_tok(a: Seq<char>) -> Seq<char> {
    quote_arg_spec(escape_spec(a))
}

/// The wire token of a flag.
pub open spec fn flag_tok(f: (Seq<char>, Option<Seq<char>>)) -> Seq<char> {
    seq!['-', '-'] + f.0 + match f.1 {
        Some(v) => seq!['='] + quote_arg_spec(escape_spec(v)),
        None => Seq::empty(),
    }
}

proof fn lemma_arg_tok(a: Seq<char>)
    requires
        arg_not_flag(a),
    ensures
        rtok_ok(arg_tok(a)),
        unescape_spec(strip_quotes_spec(arg_tok(a))) == a,
        !(arg_tok(a).len() >= 2 && arg_tok(a)[0] == '-' && arg_tok(a)[1] == '-'),
{
    lemma_escape(a);
    let e = escape_spec(a);
    if e.len() == 0 || has_blank(e) {
        lemma_rtok_shape(Seq::empty(), e, true);
        assert(rtok_shape(Seq::empty(), e, true) =~= quoted(e));
        assert(quoted(e).subrange(1, quoted(e).len() - 1) =~= e);
    } else {
        lemma_rtok_shape(Seq::empty(), e, false);
        assert(rtok_shape(Seq::empty(), e, false) =~= e);
        assert(!is_blank(e[0])) by {
            if is_blank(e[0]) {
                assert(has_blank(e));
            }
        }
    }
}

proof fn lemma_flag_tok(f: (Seq<char>, Option<Seq<char>>))
    requires
        safe_flag_name(f.0),
    ensures
        rtok_ok(flag_tok(f)),
        flag_tok(f).len() >= 2 && flag_tok(f)[0] == '-' && flag_tok(f)[1] == '-',
        flag_tok(f).skip(2) == f.0 + match f.1 {
            Some(v) => seq!['='] + quote_arg_spec(escape_spec(v)),
            None => Seq::<char>::empty(),
        },
{
    let t = flag_tok(f);
    match f.1 {
        Some(v) => {
            lemma_escape(v);
            let e = escape_spec(v);
            let p = seq!['-', '-'] + f.0 + seq!['='];
            assert forall|k: int| 0 <= k < p.len() implies #[trigger] p[k] != '\\' && p[k] != '"' && !is_blank(p[k]) by {
                if 2 <= k < 2 + f.0.len() {
                    assert(p[k] == f.0[k - 2]);
                }
            }
            if e.len() == 0 || has_blank(e) {
                lemma_rtok_shape(p, e, true);
                assert(t =~= rtok_shape(p, e, true));
            } else {
                lemma_rtok_shape(p, e, false);
                assert(t =~= rtok_shape(p, e, false));
            }
        },
        None => {
            let p = seq!['-', '-'] + f.0;
            assert forall|k: int| 0 <= k < p.len() implies #[trigger] p[k] != '\\' && p[k] != '"' && !is_blank(p[k]) by {
                if 2 <= k {
                    assert(p[k] == f.0[k - 2]);
                }
            }
            lemma_rtok_shape(p, Seq::empty(), false);
            assert(t =~= rtok_shape(p, Seq::empty(), false));
        },
    }
    assert(t.skip(2) =~= f.0 + match f.1 {
        Some(v) => seq!['='] + quote_arg_spec(escape_spec(v)),
        None => Seq::<char>::empty(),
    });
}

/// The argument and flag tokens of a request, in order.
pub open spec fn item_toks(args: Seq<Seq<char>>, flags: Seq<(Seq<char>, Option<Seq<char>>)>) -> Seq<Seq<char>> {
    args.map_values(|a: Seq<char>| arg_tok(a)) + flags.map_values(
        |f: (Seq<char>, Option<Seq<char>>)| flag_tok(f),
    )
}

proof fn lemma_items_spaced(args: Seq<Seq<char>>, flags: Seq<(Seq<char>, Option<Seq<char>>)>)
    ensures
        args_items(args) + flags_items(flags) == spaced(item_toks(args, flags)),
{
    lemma_args_spaced(args);
    lemma_flags_spaced(flags);
    lemma_spaced_add(args.map_values(|a: Seq<char>| arg_tok(a)), flags.map_values(|f: (Seq<char>, Option<Seq<char>>)| flag_tok(f)));
}

proof fn lemma_args_spaced(args: Seq<Seq<char>>)
    ensures
        args_items(args) == spaced(args.map_values(|a: Seq<char>| arg_tok(a))),
    decreases args.len(),
{
    let m = args.map_values(|a: Seq<char>| arg_tok(a));
    if args.len() > 0 {
        lemma_args_spaced(args.drop_first());
        assert(m.drop_first() =~= args.drop_first().map_values(|a: Seq<char>| arg_tok(a)));
        assert(m[0] == arg_tok(args[0]));
        assert(args_items(args) =~= spaced(m));
    } else {
        assert(m =~= Seq::<Seq<char>>::empty());
    }
}

proof fn lemma_flags_spaced(fs: Seq<(Seq<char>, Option<Seq<char>>)>)
    ensures
        flags_items(fs) == spaced(fs.map_values(|f: (Seq<char>, Option<Seq<char>>)| flag_tok(f))),
    decreases fs.len(),
{
    let m = fs.map_values(|f: (Seq<char>, Option<Seq<char>>)| flag_tok(f));
    if fs.len() > 0 {
        lemma_flags_spaced(fs.drop_first());
        assert(m.drop_first() =~= fs.drop_first().map_values(|f: (Seq<char>, Option<Seq<char>>)| flag_tok(f)));
        assert(m[0] == flag_tok(fs[0]));
        assert(flag_item(fs[0]) =~= seq![' '] + flag_tok(fs[0]));
        assert(flags_items(fs) =~= spaced(m));
    } else {
        assert(m =~= Seq::<Seq<char>>::empty());
    }
}

/// How the request parser reads the token of a flag.
proof fn lemma_flag_parts(f: (Seq<char>, Option<Seq<char>>))
    requires
        safe_flag_name(f.0),
    ensures
        ({
            let t = flag_tok(f);
            let rest = t.skip(2);
            &&& t.len() >= 2 && t[0] == '-' && t[1] == '-'
            &&& rest.len() > 0
            &&& match f.1 {
                Some(v) => find_from(rest, '=', 0) == f.0.len() && rest.take(f.0.len() as int) == f.0 && Some(
                    unescape_spec(strip_quotes_spec(rest.skip(f.0.len() as int + 1))),
                ) == f.1,
                None => find_from(rest, '=', 0) >= rest.len() && rest == f.0,
            }
        }),
{
    lemma_flag_tok(f);
    let t = flag_tok(f);
    let rest = t.skip(2);
    match f.1 {
        Some(v) => {
            let q = seq!['='] + quote_arg_spec(escape_spec(v));
            assert(rest == f.0 + q);
            assert forall|k: int| 0 <= k < f.0.len() implies #[trigger] f.0[k] != '=' by {}
            crate::tree_laws::lemma_find_after(f.0, q, '=');
            assert(q[0] == '=');
            assert(find_from(q, '=', 0) == 0);
            assert(rest.take(f.0.len() as int) =~= f.0);
            assert(rest.skip(f.0.len() as int + 1) =~= quote_arg_spec(escape_spec(v)));
            lemma_escape(v);
            let e = escape_spec(v);
            if e.len() == 0 || has_blank(e) {
                assert(quoted(e).subrange(1, quoted(e).len() - 1) =~= e);
            }
        },
        None => {
            assert(rest =~= f.0);
            assert forall|k: int| 0 <= k < f.0.len() implies #[trigger] f.0[k] != '=' by {}
            crate::tree_laws::lemma_find_none(f.0, '=');
        },
    }
}

#[verifier::rlimit(40)]
proof fn lemma_request_items(
    args: Seq<Seq<char>>,
    flags: Seq<(Seq<char>, Option<Seq<char>>)>,
    i: int,
    j: int,
)
    requires
        0 <= i <= args.len(),
        0 <= j <= flags.len(),
        j > 0 ==> i == args.len(),
        forall|k: int| 0 <= k < args.len() ==> arg_not_flag(#[trigger] args[k]),
        forall|k: int| 0 <= k < flags.len() ==> safe_flag_name(#[trigger] flags[k].0),
        sorted_keys(flags),
    ensures
        request_items(item_toks(args, flags).skip(i + j), args.take(i), flags.take(j)) == Ok::<
            (Seq<Seq<char>>, Seq<(Seq<char>, Option<Seq<char>>)>),
            ParseErrorView,
        >((args, flags)),
    decreases args.len() + flags.len() - i - j,
{
    let ts = item_toks(args, flags);
    let am = args.map_values(|a: Seq<char>| arg_tok(a));
    let fm = flags.map_values(|f: (Seq<char>, Option<Seq<char>>)| flag_tok(f));
    let sk = ts.skip(i + j);
    if i < args.len() {
        let a = args[i];
        assert(ts[i] == arg_tok(a));
        assert(sk[0] == ts[i]);
        assert(sk.drop_first() =~= ts.skip(i + 1 + j));
        lemma_arg_tok(a);
        assert(args.take(i).push(a) =~= args.take(i + 1));
        lemma_request_items(args, flags, i + 1, j);
    } else if j < flags.len() {
        let f = flags[j];
        assert(ts[i + j] == fm[j]);
        assert(sk[0] == flag_tok(f));
        assert(sk.drop_first() =~= ts.skip(i + j + 1));
        lemma_flag_parts(f);
        assert forall|m: int| 0 <= m < j implies lex_lt(#[trigger] flags.take(j)[m].0, f.0) by {
            assert(flags.take(j)[m] == flags[m]);
        }
        lemma_sorted_insert_last(flags.take(j), f.0, f.1);
        assert(flags.take(j).push(f) =~= flags.take(j + 1));
        lemma_request_items(args, flags, i, j + 1);
    } else {
        assert(sk =~= Seq::<Seq<char>>::empty());
        assert(args.take(i) =~= args);
        assert(flags.take(j) =~= flags);
    }
}

/// Reading back the wire line of a request gives the request, when its
/// primitive is valid, its flag names survive the wire, no argument
/// looks like a flag, and the line does not end in white space.
pub proof fn lemma_request_round_trip(
    primitive: Seq<char>,
    args: Seq<Seq<char>>,
    flags: Seq<(Seq<char>, Option<Seq<char>>)>,
)
    requires
        valid_primitive(primitive),
        forall|k: int| 0 <= k < args.len() ==> arg_not_flag(#[trigger] args[k]),
        forall|k: int| 0 <= k < flags.len() ==> safe_flag_name(#[trigger] flags[k].0),
        sorted_keys(flags),
        !is_white_space(request_line(primitive, args, flags).drop_last().last()),
    ensures
        parse_request_spec(request_line(primitive, args, flags)) == Ok::<
            (Seq<char>, Seq<Seq<char>>, Seq<(Seq<char>, Option<Seq<char>>)>),
            ParseErrorView,
        >((primitive, args, flags)),
{
    let line = request_line(primitive, args, flags);
    let c = primitive + args_items(args) + flags_items(flags);
    assert(line =~= c + seq!['\n']);
    assert(line.drop_last() =~= c);
    assert(c.len() > 0);
    assert(c.last() != '\n');
    assert(trim_end_nl(c) == c);
    assert(line.last() == '\n');
    assert(trim_end_nl(line) == trim_end_nl(c));
    assert(c[0] == primitive[0]);
    assert(!is_white_space(c[0]));
    lemma_ws_bounds(c, 0, c.len() as int);
    assert(ws_prefix(c, 0) == 0);
    assert(ws_suffix(c, c.len() as int) == c.len());
    assert(trim_spec(c) =~= c);
    lemma_items_spaced(args, flags);
    let ts = item_toks(args, flags);
    assert(c =~= primitive + spaced(ts));
    assert forall|k: int| 0 <= k < ts.len() implies rtok_ok(#[trigger] ts[k]) by {
        if k < args.len() {
            assert(ts[k] == arg_tok(args[k]));
            lemma_arg_tok(args[k]);
        } else {
            assert(ts[k] == flag_tok(flags[k - args.len()]));
            lemma_flag_tok(flags[k - args.len()]);
        }
    }
    lemma_rtokens_spaced(primitive, ts);
    assert forall|k: int| 0 <= k < primitive.len() implies #[trigger] primitive[k] != '\\' && primitive[k] != '"'
        && !is_blank(primitive[k]) by {}
    assert(c.subrange(0, primitive.len() as int) =~= primitive);
    lemma_rend_plain(c, 0, primitive);
    if ts.len() > 0 {
        assert(c[primitive.len() as int] == ' ');
    }
    assert(rtoken_end(c, primitive.len() as int, false) == primitive.len());
    assert(skip_blanks(c, 0) == 0);
    assert(rtokens_from(c, 0) == seq![primitive] + rtokens_from(c, primitive.len() as int));
    let toks = seq![primitive] + ts;
    assert(toks[0] == primitive);
    assert(toks.skip(1) =~= ts);
    lemma_request_items(args, flags, 0, 0);
    assert(ts.skip(0) =~= ts);
    assert(args.take(0) =~= Seq::<Seq<char>>::empty());
    assert(flags.take(0) =~= Seq::<(Seq<char>, Option<Seq<char>>)>::empty());
}

/// True when the only white space `s` holds is space, tab, line feed and
/// carriage return (the characters the wire form quotes or escapes).
pub open spec fn wire_space_only(s: Seq<char>) -> bool {
    forall|i: int| 0 <= i < s.len() && is_white_space(#[trigger] s[i]) ==> s[i] == ' ' || s[i] == '\t' || s[i] == '\n'
        || s[i] == '\r'
}

proof fn lemma_escape_last(s: Seq<char>)
    requires
        s.len() > 0,
    ensures
        escape_spec(s).len() > 0,
        escape_spec(s).last() == escape_char(s.last()).last(),
    decreases s.len(),
{
    let r = s.drop_first();
    assert(escape_spec(s) == escape_char(s[0]) + escape_spec(r));
    if r.len() == 0 {
        assert(escape_spec(r) =~= Seq::<char>::empty());
        assert(escape_spec(s) =~= escape_char(s[0]));
    } else {
        lemma_escape_last(r);
        assert(r.last() == s.last());
    }
}

proof fn lemma_tok_end_clean(a: Seq<char>)
    requires
        wire_space_only(a),
    ensures
        quote_arg_spec(escape_spec(a)).len() > 0,
        !is_white_space(quote_arg_spec(escape_spec(a)).last()),
{
    let e = escape_spec(a);
    if e.len() == 0 || has_blank(e) {
        assert(quoted(e).last() == '"');
    } else {
        lemma_escape_last(a);
        let c = a.last();
        assert(is_white_space(c) ==> c == ' ' || c == '\t' || c == '\n' || c == '\r') by {
            assert(a[a.len() - 1] == c);
        }
        if c == ' ' {
            assert(escape_char(c) == seq![' ']);
            assert(is_blank(e[e.len() - 1]));
        }
    }
}

proof fn lemma_args_items_last(args: Seq<Seq<char>>)
    requires
        args.len() > 0,
    ensures
        args_items(args).len() > 0,
        args_items(args).last() == quote_arg_spec(escape_spec(args.last())).last(),
    decreases args.len(),
{
    let r = args.drop_first();
    let t = quote_arg_spec(escape_spec(args[0]));
    assert(t.len() > 0) by {
        let e = escape_spec(args[0]);
        if !(e.len() == 0 || has_blank(e)) {
        }
    }
    assert(arg_item(args[0]).last() == t.last());
    if r.len() == 0 {
        assert(args_items(r) =~= Seq::<char>::empty());
        assert(args_items(args) =~= arg_item(args[0]));
    } else {
        lemma_args_items_last(r);
        assert(r.last() == args.last());
    }
}

proof fn lemma_flags_items_last(fs: Seq<(Seq<char>, Option<Seq<char>>)>)
    requires
        fs.len() > 0,
    ensures
        flags_items(fs).len() > 0,
        flags_items(fs).last() == flag_item(fs.last()).last(),
    decreases fs.len(),
{
    let r = fs.drop_first();
    if r.len() == 0 {
        assert(flags_items(r) =~= Seq::<char>::empty());
        assert(flags_items(fs) =~= flag_item(fs[0]));
    } else {
        lemma_flags_items_last(r);
        assert(r.last() == fs.last());
    }
}

/// Reading back the wire line of a request gives the request, when its
/// primitive is valid, its flag names are non-empty and hold no white
/// space, `=`, `"` or `\`, its flags are sorted, no argument looks like a
/// flag, and arguments and flag values hold no white space but space,
/// tab, line feed and carriage return.
pub proof fn lemma_request_wire_round_trip(
    primitive: Seq<char>,
    args: Seq<Seq<char>>,
    flags: Seq<(Seq<char>, Option<Seq<char>>)>,
)
    requires
        valid_primitive(primitive),
        forall|k: int| 0 <= k < args.len() ==> arg_not_flag(#[trigger] args[k]),
        forall|k: int| 0 <= k < args.len() ==> wire_space_only(#[trigger] args[k]),
        forall|k: int| 0 <= k < flags.len() ==> safe_flag_name(#[trigger] flags[k].0),
        forall|k: int, i: int| 0 <= k < flags.len() && 0 <= i < flags[k].0.len() ==> !is_white_space(
            #[trigger] flags[k].0[i],
        ),
        forall|k: int| 0 <= k < flags.len() && (#[trigger] flags[k]).1 is Some ==> wire_space_only(flags[k].1->0),
        sorted_keys(flags),
    ensures
        parse_request_spec(request_line(primitive, args, flags)) == Ok::<
            (Seq<char>, Seq<Seq<char>>, Seq<(Seq<char>, Option<Seq<char>>)>),
            ParseErrorView,
        >((primitive, args, flags)),
{
    let line = request_line(primitive, args, flags);
    let a = args_items(args);
    let f = flags_items(flags);
    let c = primitive + a + f;
    assert(line =~= c + seq!['\n']);
    assert(line.drop_last() =~= c);
    if f.len() > 0 || flags.len() > 0 {
        lemma_flags_items_last(flags);
        let fl = flags.last();
        assert(fl == flags[flags.len() - 1]);
        assert(c.last() == f.last());
        match fl.1 {
            Some(v) => {
                lemma_tok_end_clean(v);
                assert(flag_item(fl).last() == quote_arg_spec(escape_spec(v)).last());
            },
            None => {
                assert(fl.0.len() > 0);
                assert(flag_item(fl) =~= seq![' ', '-', '-'] + fl.0);
                assert(flag_item(fl).last() == fl.0[fl.0.len() - 1]);
            },
        }
    } else if args.len() > 0 {
        assert(flags_items(flags) =~= Seq::<char>::empty());
        lemma_args_items_last(args);
        lemma_tok_end_clean(args.last());
        assert(c.last() == a.last());
    } else {
        assert(flags_items(flags) =~= Seq::<char>::empty());
        assert(args_items(args) =~= Seq::<char>::empty());
        assert(c =~= primitive);
        assert(primitive[primitive.len() - 1] == c.last());
    }
    lemma_request_round_trip(primitive, args, flags);
}

/// Unescaping keeps a backslash that does not start one of the five
/// escapes: text in which every backslash is last or followed by a
/// character other than `\\`, `"`, `n`, `r` and `t` reads back as it
/// stands, both characters of each such pair kept.
pub proof fn lemma_unknown_escapes_kept(s: Seq<char>)
    requires
        forall|i: int|
            0 <= i < s.len() - 1 && #[trigger] s[i] == '\\' ==> s[i + 1] != '\\' && s[i + 1] != '"' && s[i + 1] != 'n'
                && s[i + 1] != 'r' && s[i + 1] != 't',
    ensures
        unescape_spec(s) == s,
    decreases s.len(),
{
    if s.len() == 0 {
    } else if s[0] != '\\' {
        let t = s.drop_first();
        assert forall|i: int|
            0 <= i < t.len() - 1 && #[trigger] t[i] == '\\' implies t[i + 1] != '\\' && t[i + 1] != '"' && t[i + 1]
                != 'n' && t[i + 1] != 'r' && t[i + 1] != 't' by {
            assert(s[i + 1] == t[i]);
        }
        lemma_unknown_escapes_kept(t);
        assert(seq![s[0]] + t =~= s);
    } else if s.len() == 1 {
        assert(s =~= seq!['\\']);
    } else {
        let t = s.skip(2);
        assert forall|i: int|
            0 <= i < t.len() - 1 && #[trigger] t[i] == '\\' implies t[i + 1] != '\\' && t[i + 1] != '"' && t[i + 1]
                != 'n' && t[i + 1] != 'r' && t[i + 1] != 't' by {
            assert(s[i + 2] == t[i]);
        }
        lemma_unknown_escapes_kept(t);
        assert(s[0] == '\\');
        assert(seq![s[0], s[1]] + t =~= s);
    }
}

/// A request argument that is not quoted, does not start with `--`, and
/// holds no escape of the five is read as it stands: a backslash before
/// any other character is kept with it (`/\d+/` reads as `/\d+/`).
pub proof fn lemma_plain_argument_read_as_is(
    toks: Seq<Seq<char>>,
    args: Seq<Seq<char>>,
    flags: Seq<(Seq<char>, Option<Seq<char>>)>,
)
    requires
        toks.len() > 0,
        toks[0].len() == 0 || toks[0][0] != '"',
        !(toks[0].len() >= 2 && toks[0][0] == '-' && toks[0][1] == '-'),
        forall|i: int|
            0 <= i < toks[0].len() - 1 && #[trigger] toks[0][i] == '\\' ==> toks[0][i + 1] != '\\' && toks[0][i + 1]
                != '"' && toks[0][i + 1] != 'n' && toks[0][i + 1] != 'r' && toks[0][i + 1] != 't',
    ensures
        request_items(toks, args, flags) == request_items(toks.drop_first(), args.push(toks[0]), flags),
{
    lemma_unknown_escapes_kept(toks[0]);
}

} // verus!
