//! Quote-aware tokenizer shared by the tree, delta, and envelope parsers.
//!
//! The wire format treats blanks (space and tab) as token boundaries,
//! except inside a `"..."` span. The tokenizer emits one token per
//! blank-separated chunk and keeps quoted spans verbatim (including the
//! surrounding quotes) so the caller decides whether the quotes were
//! significant. Inner quotes are not escaped on the wire: encoders
//! substitute `'` for `"` inside labels and attribute values.

use vstd::prelude::*;

use crate::text::chars_of;

verus! {

/// A token separator outside quotes.
pub open spec fn is_blank(c: char) -> bool {
    c == ' ' || c == '\t'
}

/// First position at or after `i` that is not a blank.
pub open spec fn skip_blanks(s: Seq<char>, i: int) -> int
    decreases s.len() - i,
{
    if 0 <= i < s.len() && is_blank(s[i]) {
        skip_blanks(s, i + 1)
    } else {
        i
    }
}

/// End of the token that continues at `i`; `quoted` says whether a
/// `"` span is open.
pub open spec fn token_end(s: Seq<char>, i: int, quoted: bool) -> int
    decreases s.len() - i,
{
    if i < 0 || i >= s.len() {
        s.len() as int
    } else if quoted {
        token_end(s, i + 1, s[i] != '"')
    } else if s[i] == '"' {
        token_end(s, i + 1, true)
    } else if is_blank(s[i]) {
        i
    } else {
        token_end(s, i + 1, false)
    }
}

pub proof fn lemma_skip_blanks_bounds(s: Seq<char>, i: int)
    requires
        0 <= i <= s.len(),
    ensures
        i <= skip_blanks(s, i) <= s.len(),
        skip_blanks(s, i) < s.len() ==> !is_blank(s[skip_blanks(s, i)]),
        forall|k: int| i <= k < skip_blanks(s, i) ==> is_blank(#[trigger] s[k]),
    decreases s.len() - i,
{
    if i < s.len() && is_blank(s[i]) {
        lemma_skip_blanks_bounds(s, i + 1);
    }
}

pub proof fn lemma_token_end_bounds(s: Seq<char>, i: int, quoted: bool)
    requires
        0 <= i <= s.len(),
    ensures
        i <= token_end(s, i, quoted) <= s.len(),
    decreases s.len() - i,
{
    if i < s.len() {
        if quoted {
            lemma_token_end_bounds(s, i + 1, s[i] != '"');
        } else if s[i] == '"' {
            lemma_token_end_bounds(s, i + 1, true);
        } else if !is_blank(s[i]) {
            lemma_token_end_bounds(s, i + 1, false);
        }
    }
}

/// The next token at or after position `p`, with the position just
/// past it; `None` when only blanks remain.
pub open spec fn next_token(s: Seq<char>, p: int) -> Option<(Seq<char>, int)> {
    let start = skip_blanks(s, p);
    if start >= s.len() {
        None
    } else {
        let end = token_end(s, start, false);
        Some((s.subrange(start, end), end))
    }
}

/// Every token from position `p` on, in order.
pub open spec fn tokens_from(s: Seq<char>, p: int) -> Seq<Seq<char>>
    decreases s.len() - p,
{
    if 0 <= p <= s.len() {
        match next_token(s, p) {
            None => Seq::empty(),
            Some((t, q)) => {
                proof {
                    lemma_skip_blanks_bounds(s, p);
                    lemma_token_end_bounds(s, skip_blanks(s, p), false);
                    lemma_token_end_advances(s, skip_blanks(s, p));
                }
                seq![t] + tokens_from(s, q)
            },
        }
    } else {
        Seq::empty()
    }
}

/// Every token of `s`, in order.
pub open spec fn tokens(s: Seq<char>) -> Seq<Seq<char>> {
    tokens_from(s, 0)
}

pub proof fn lemma_token_end_advances(s: Seq<char>, i: int)
    requires
        0 <= i < s.len(),
        !is_blank(s[i]),
    ensures
        token_end(s, i, false) > i,
{
    if s[i] == '"' {
        lemma_token_end_bounds(s, i + 1, true);
    } else {
        lemma_token_end_bounds(s, i + 1, false);
    }
}

/// Splits a line into tokens on blanks outside `"..."` spans.
#[derive(Debug, Clone)]
pub struct Tokenizer {
    chars: Vec<char>,
    pos: usize,
}

impl Tokenizer {
    /// The whole input this tokenizer walks.
    pub closed spec fn input(&self) -> Seq<char> {
        self.chars@
    }

    /// Position of the first unconsumed character.
    pub closed spec fn position(&self) -> int {
        self.pos as int
    }

    pub closed spec fn wf(&self) -> bool {
        self.pos <= self.chars@.len()
    }

    /// The tokens not yet returned.
    pub open spec fn remaining(&self) -> Seq<Seq<char>> {
        tokens_from(self.input(), self.position())
    }

    pub fn new(s: &str) -> (t: Tokenizer)
        ensures
            t.wf(),
            t.input() == s@,
            t.position() == 0,
    {
        Tokenizer { chars: chars_of(s), pos: 0 }
    }

    pub fn from_chars(v: &[char]) -> (t: Tokenizer)
        ensures
            t.wf(),
            t.input() == v@,
            t.position() == 0,
    {
        Tokenizer { chars: vstd::slice::slice_to_vec(v), pos: 0 }
    }

    /// The unconsumed remainder of the input, leading blanks retained.
    pub fn rest(&self) -> (r: Vec<char>)
        requires
            self.wf(),
        ensures
            r@ == self.input().subrange(self.position(), self.input().len() as int),
    {
        let mut r: Vec<char> = Vec::new();
        let mut i = self.pos;
        while i < self.chars.len()
            invariant
                self.pos <= i <= self.chars.len(),
                r@ == self.chars@.subrange(self.pos as int, i as int),
            decreases self.chars.len() - i,
        {
            r.push(self.chars[i]);
            i += 1;
        }
        r
    }

    /// True if the remaining input is empty or blanks only.
    pub fn is_done(&self) -> (b: bool)
        requires
            self.wf(),
        ensures
            b == (skip_blanks(self.input(), self.position()) >= self.input().len()),
            b == (self.remaining().len() == 0),
    {
        let i = self.skip(self.pos);
        proof {
            lemma_skip_blanks_bounds(self.chars@, self.pos as int);
        }
        i >= self.chars.len()
    }

    fn skip(&self, from: usize) -> (i: usize)
        requires
            from <= self.chars@.len(),
        ensures
            i == skip_blanks(self.chars@, from as int),
    {
        let mut i = from;
        while i < self.chars.len() && (self.chars[i] == ' ' || self.chars[i] == '\t')
            invariant
                from <= i <= self.chars.len(),
                skip_blanks(self.chars@, from as int) == skip_blanks(self.chars@, i as int),
            decreases self.chars.len() - i,
        {
            i += 1;
        }
        i
    }

    /// The next token, or `None` when only blanks remain.
    pub fn next(&mut self) -> (tok: Option<Vec<char>>)
        requires
            old(self).wf(),
        ensures
            final(self).wf(),
            final(self).input() == old(self).input(),
            match next_token(old(self).input(), old(self).position()) {
                None => tok is None && final(self).position() == old(self).input().len(),
                Some((t, q)) => tok matches Some(v) && v@ == t && final(self).position() == q,
            },
            match tok {
                None => old(self).remaining().len() == 0 && final(self).remaining().len() == 0,
                Some(v) => old(self).remaining().len() > 0 && v@ == old(self).remaining()[0]
                    && final(self).remaining() == old(self).remaining().drop_first(),
            },
    {
        let start = self.skip(self.pos);
        proof {
            lemma_skip_blanks_bounds(self.chars@, self.pos as int);
        }
        if start >= self.chars.len() {
            self.pos = self.chars.len();
            proof {
                assert(skip_blanks(self.chars@, self.chars@.len() as int) == self.chars@.len());
            }
            return None;
        }
        let mut end = start;
        let mut quoted = false;
        while end < self.chars.len()
            invariant
                start <= end <= self.chars.len(),
                start < self.chars.len(),
                token_end(self.chars@, start as int, false) == token_end(self.chars@, end as int, quoted),
                end == start ==> !quoted,
            ensures
                end == token_end(self.chars@, start as int, false),
            decreases self.chars.len() - end,
        {
            let c = self.chars[end];
            if quoted {
                if c == '"' {
                    quoted = false;
                }
            } else if c == '"' {
                quoted = true;
            } else if c == ' ' || c == '\t' {
                break;
            }
            end += 1;
        }
        let mut tok: Vec<char> = Vec::new();
        let mut k = start;
        while k < end
            invariant
                start <= k <= end <= self.chars.len(),
                tok@ == self.chars@.subrange(start as int, k as int),
            decreases end - k,
        {
            tok.push(self.chars[k]);
            k += 1;
        }
        proof {
            lemma_token_end_advances(self.chars@, start as int);
            let s = self.chars@;
            let p = old(self).pos as int;
            assert(tokens_from(s, p) == seq![tok@] + tokens_from(s, end as int));
            assert(tokens_from(s, p).drop_first() =~= tokens_from(s, end as int));
        }
        self.pos = end;
        Some(tok)
    }
}

/// `s` with every `"` replaced by `'` (the wire never escapes quotes).
pub open spec fn clean(s: Seq<char>) -> Seq<char> {
    Seq::new(s.len(), |i: int| if s[i] == '"' { '\'' } else { s[i] })
}

/// True when `s` holds a blank.
pub open spec fn has_blank(s: Seq<char>) -> bool {
    exists|i: int| 0 <= i < s.len() && is_blank(#[trigger] s[i])
}

/// `s` wrapped in one pair of `"`.
pub open spec fn quoted(s: Seq<char>) -> Seq<char> {
    seq!['"'] + s + seq!['"']
}

/// True when a label must be wrapped in quotes: it is empty or holds a blank.
pub open spec fn label_needs_quotes(s: Seq<char>) -> bool {
    s.len() == 0 || has_blank(s)
}

/// Wire form of a label: cleaned, and quoted when empty or blank-bearing.
pub open spec fn quote_label_spec(s: Seq<char>) -> Seq<char> {
    let c = clean(s);
    if label_needs_quotes(c) {
        quoted(c)
    } else {
        c
    }
}

/// Wire form of an attribute value: cleaned, and quoted when blank-bearing.
pub open spec fn quote_value_spec(s: Seq<char>) -> Seq<char> {
    let c = clean(s);
    if has_blank(c) {
        quoted(c)
    } else {
        c
    }
}

/// `s` without one layer of surrounding `"`, when it is fully quoted.
pub open spec fn strip_quotes_spec(s: Seq<char>) -> Seq<char> {
    if s.len() >= 2 && s[0] == '"' && s[s.len() - 1] == '"' {
        s.subrange(1, s.len() - 1)
    } else {
        s
    }
}

/// First position at or after `i` that is not a space.
pub open spec fn skip_spaces(s: Seq<char>, i: int) -> int
    decreases s.len() - i,
{
    if 0 <= i < s.len() && s[i] == ' ' {
        skip_spaces(s, i + 1)
    } else {
        i
    }
}

/// Indent depth (two spaces per level) and the rest of the line.
pub open spec fn split_indent_spec(line: Seq<char>) -> (int, Seq<char>) {
    let n = skip_spaces(line, 0);
    (n / 2, line.subrange(n, line.len() as int))
}

pub proof fn lemma_skip_spaces_bounds(s: Seq<char>, i: int)
    requires
        0 <= i <= s.len(),
    ensures
        i <= skip_spaces(s, i) <= s.len(),
        skip_spaces(s, i) < s.len() ==> s[skip_spaces(s, i)] != ' ',
        forall|k: int| i <= k < skip_spaces(s, i) ==> #[trigger] s[k] == ' ',
    decreases s.len() - i,
{
    if i < s.len() && s[i] == ' ' {
        lemma_skip_spaces_bounds(s, i + 1);
    }
}

/// Replace every `"` by `'`, and report whether a blank occurs.
fn clean_chars(s: &[char]) -> (r: (Vec<char>, bool))
    ensures
        r.0@ == clean(s@),
        r.1 == has_blank(s@),
        r.1 == has_blank(clean(s@)),
{
    let mut out: Vec<char> = Vec::new();
    let mut blank = false;
    let mut i: usize = 0;
    while i < s.len()
        invariant
            i <= s.len(),
            out@ == clean(s@).take(i as int),
            blank == (exists|j: int| 0 <= j < i && is_blank(#[trigger] s@[j])),
        decreases s.len() - i,
    {
        let c = s[i];
        if c == ' ' || c == '\t' {
            blank = true;
        }
        out.push(if c == '"' { '\'' } else { c });
        assert(clean(s@).take(i + 1) =~= clean(s@).take(i as int).push(clean(s@)[i as int]));
        i += 1;
    }
    assert(clean(s@).take(s.len() as int) =~= clean(s@));
    assert(has_blank(s@) == has_blank(clean(s@))) by {
        if has_blank(s@) {
            let j = choose|j: int| 0 <= j < s@.len() && is_blank(#[trigger] s@[j]);
            assert(is_blank(clean(s@)[j]));
        }
        if has_blank(clean(s@)) {
            let j = choose|j: int| 0 <= j < clean(s@).len() && is_blank(#[trigger] clean(s@)[j]);
            assert(is_blank(s@[j]));
        }
    }
    (out, blank)
}

/// `"` + `s` + `"`.
fn wrap_quotes(s: &[char]) -> (r: Vec<char>)
    ensures
        r@ == quoted(s@),
{
    let mut out: Vec<char> = Vec::new();
    out.push('"');
    let mut i: usize = 0;
    while i < s.len()
        invariant
            i <= s.len(),
            out@ == seq!['"'] + s@.take(i as int),
        decreases s.len() - i,
    {
        out.push(s[i]);
        assert(s@.take(i + 1) =~= s@.take(i as int).push(s@[i as int]));
        i += 1;
    }
    out.push('"');
    assert(s@.take(s.len() as int) =~= s@);
    assert(out@ =~= quoted(s@));
    out
}

/// Strip a single layer of `"` from `s` if it is fully quoted.
pub fn strip_quotes(s: &[char]) -> (r: Vec<char>)
    ensures
        r@ == strip_quotes_spec(s@),
{
    let n = s.len();
    if n >= 2 && s[0] == '"' && s[n - 1] == '"' {
        copy_range(s, 1, n - 1)
    } else {
        vstd::slice::slice_to_vec(s)
    }
}

/// The characters `s[from..to]`.
pub fn copy_range(s: &[char], from: usize, to: usize) -> (r: Vec<char>)
    requires
        from <= to <= s.len(),
    ensures
        r@ == s@.subrange(from as int, to as int),
{
    let mut out: Vec<char> = Vec::new();
    let mut i = from;
    while i < to
        invariant
            from <= i <= to <= s.len(),
            out@ == s@.subrange(from as int, i as int),
        decreases to - i,
    {
        out.push(s[i]);
        i += 1;
    }
    out
}

/// Quote `s` if it is empty or holds a blank; inner `"` become `'`.
pub fn quote_label(s: &[char]) -> (r: Vec<char>)
    ensures
        r@ == quote_label_spec(s@),
{
    let (cleaned, blank) = clean_chars(s);
    if needs_quoting(&cleaned, blank) {
        wrap_quotes(&cleaned)
    } else {
        cleaned
    }
}

/// Quote `s` if it holds a blank; inner `"` become `'`.
pub fn quote_value(s: &[char]) -> (r: Vec<char>)
    ensures
        r@ == quote_value_spec(s@),
{
    let (cleaned, blank) = clean_chars(s);
    if blank {
        wrap_quotes(&cleaned)
    } else {
        cleaned
    }
}

fn needs_quoting(s: &[char], blank: bool) -> (b: bool)
    requires
        blank == has_blank(s@),
    ensures
        b == label_needs_quotes(s@),
{
    if s.len() == 0 {
        return true;
    }
    blank
}

/// `s` without its leading blanks.
pub fn trim_start_spaces(s: &[char]) -> (r: Vec<char>)
    ensures
        r@ == s@.subrange(skip_blanks(s@, 0), s@.len() as int),
{
    let mut i: usize = 0;
    while i < s.len() && (s[i] == ' ' || s[i] == '\t')
        invariant
            i <= s.len(),
            skip_blanks(s@, 0) == skip_blanks(s@, i as int),
        decreases s.len() - i,
    {
        i += 1;
    }
    copy_range(s, i, s.len())
}

/// Count leading two-space indents on `line` and return `(depth, rest)`.
/// Three leading spaces give depth 1 and the rest keeps no spaces.
pub fn split_indent(line: &[char]) -> (r: (usize, Vec<char>))
    ensures
        r.0 == split_indent_spec(line@).0,
        r.1@ == split_indent_spec(line@).1,
{
    let mut i: usize = 0;
    while i < line.len() && line[i] == ' '
        invariant
            i <= line.len(),
            skip_spaces(line@, 0) == skip_spaces(line@, i as int),
        decreases line.len() - i,
    {
        i += 1;
    }
    (i / 2, copy_range(line, i, line.len()))
}

} // verus!
