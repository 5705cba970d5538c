//! Character-level helpers shared by the wire encoders and parsers.

use vstd::prelude::*;

verus! {

/// Position of the first `c` in `s` at or after `i`, or `s.len()` when
/// there is none.
pub open spec fn find_from(s: Seq<char>, c: char, i: int) -> int
    decreases s.len() - i,
{
    if i < 0 || i >= s.len() {
        s.len() as int
    } else if s[i] == c {
        i
    } else {
        find_from(s, c, i + 1)
    }
}

pub proof fn lemma_find_from(s: Seq<char>, c: char, i: int)
    requires
        0 <= i <= s.len(),
    ensures
        i <= find_from(s, c, i) <= s.len(),
        find_from(s, c, i) < s.len() ==> s[find_from(s, c, i)] == c,
        forall|k: int| i <= k < find_from(s, c, i) ==> #[trigger] s[k] != c,
    decreases s.len() - i,
{
    if i < s.len() && s[i] != c {
        lemma_find_from(s, c, i + 1);
    }
}

/// Position of the first `c` in `s`, or `s.len()`.
pub fn find_char(s: &[char], c: char) -> (i: usize)
    ensures
        i == find_from(s@, c, 0),
        i <= s.len(),
{
    let mut i: usize = 0;
    while i < s.len() && s[i] != c
        invariant
            i <= s.len(),
            find_from(s@, c, 0) == find_from(s@, c, i as int),
        decreases s.len() - i,
    {
        i += 1;
    }
    proof {
        lemma_find_from(s@, c, 0);
    }
    i
}

/// `s` without one trailing carriage return.
pub open spec fn strip_cr(s: Seq<char>) -> Seq<char> {
    if s.len() > 0 && s.last() == '\r' {
        s.drop_last()
    } else {
        s
    }
}

/// The lines of `s`: split at each `\n`, a `\r` just before the `\n`
/// dropped, and no empty last line after a final `\n`.
pub open spec fn lines_spec(s: Seq<char>) -> Seq<Seq<char>>
    decreases s.len(),
{
    if s.len() == 0 {
        Seq::empty()
    } else {
        let i = find_from(s, '\n', 0);
        if i >= s.len() {
            seq![s]
        } else {
            proof {
                lemma_find_from(s, '\n', 0);
            }
            seq![strip_cr(s.take(i))] + lines_spec(s.skip(i + 1))
        }
    }
}

/// The character sequences held by `v`.
pub open spec fn vecs_view(v: Seq<Vec<char>>) -> Seq<Seq<char>> {
    v.map_values(|x: Vec<char>| x@)
}

/// The lines of `s` (see [`lines_spec`]).
pub fn lines(s: &[char]) -> (ls: Vec<Vec<char>>)
    ensures
        vecs_view(ls@) == lines_spec(s@),
{
    let mut out: Vec<Vec<char>> = Vec::new();
    let mut start: usize = 0;
    assert(s@.skip(0) =~= s@);
    assert(vecs_view(out@) + lines_spec(s@) =~= lines_spec(s@));
    while start < s.len()
        invariant
            start <= s.len(),
            vecs_view(out@) + lines_spec(s@.skip(start as int)) == lines_spec(s@),
        decreases s.len() - start,
    {
        let ghost rest = s@.skip(start as int);
        let mut end = start;
        while end < s.len() && s[end] != '\n'
            invariant
                start <= end <= s.len(),
                rest == s@.skip(start as int),
                find_from(rest, '\n', 0) == find_from(rest, '\n', end - start),
            decreases s.len() - end,
        {
            assert(rest[end - start] == s@[end as int]);
            end += 1;
        }
        proof {
            lemma_find_from(rest, '\n', 0);
            if end < s.len() {
                assert(rest[end - start] == s@[end as int]);
            }
            assert(find_from(rest, '\n', 0) == end - start);
        }
        let ghost before = out@;
        if end < s.len() {
            let mut line_end = end;
            if line_end > start && s[line_end - 1] == '\r' {
                line_end = line_end - 1;
            }
            let mut line: Vec<char> = Vec::new();
            let mut k = start;
            while k < line_end
                invariant
                    start <= k <= line_end <= s.len(),
                    line@ == s@.subrange(start as int, k as int),
                decreases line_end - k,
            {
                line.push(s[k]);
                k += 1;
            }
            out.push(line);
            proof {
                assert(rest.take(end - start) =~= s@.subrange(start as int, end as int));
                assert(strip_cr(rest.take(end - start)) =~= line@);
                assert(rest.skip(end - start + 1) =~= s@.skip(end + 1));
                assert(vecs_view(out@) =~= vecs_view(before).push(line@));
                assert(lines_spec(rest) == seq![line@] + lines_spec(s@.skip(end + 1)));
            }
            start = end + 1;
        } else {
            let mut line: Vec<char> = Vec::new();
            let mut k = start;
            while k < s.len()
                invariant
                    start <= k <= s.len(),
                    line@ == s@.subrange(start as int, k as int),
                decreases s.len() - k,
            {
                line.push(s[k]);
                k += 1;
            }
            out.push(line);
            proof {
                assert(rest =~= line@);
                assert(vecs_view(out@) =~= vecs_view(before).push(line@));
                assert(s@.skip(s.len() as int) =~= Seq::<char>::empty());
            }
            start = s.len();
        }
    }
    proof {
        assert(s@.skip(start as int) =~= Seq::<char>::empty());
        assert(vecs_view(out@) + Seq::<Seq<char>>::empty() =~= vecs_view(out@));
    }
    out
}

/// True for the characters that `char::is_whitespace` accepts (the
/// Unicode `White_Space` property).
pub open spec fn is_white_space(c: char) -> bool {
    ('\t' <= c && c <= '\r') || c == ' ' || c == '\u{85}' || c == '\u{a0}' || c == '\u{1680}'
        || ('\u{2000}' <= c && c <= '\u{200a}') || c == '\u{2028}' || c == '\u{2029}'
        || c == '\u{202f}' || c == '\u{205f}' || c == '\u{3000}'
}

/// True when `s` is empty or holds white space only (`str::trim` leaves
/// nothing).
pub open spec fn all_white_space(s: Seq<char>) -> bool {
    forall|i: int| 0 <= i < s.len() ==> is_white_space(#[trigger] s[i])
}

/// True for a white-space character (see [`is_white_space`]).
pub fn white_space(c: char) -> (b: bool)
    ensures
        b == is_white_space(c),
{
    ('\t' <= c && c <= '\r') || c == ' ' || c == '\u{85}' || c == '\u{a0}' || c == '\u{1680}'
        || ('\u{2000}' <= c && c <= '\u{200a}') || c == '\u{2028}' || c == '\u{2029}'
        || c == '\u{202f}' || c == '\u{205f}' || c == '\u{3000}'
}

/// True when `s` is empty or white space only.
pub fn is_blank_line(s: &[char]) -> (b: bool)
    ensures
        b == all_white_space(s@),
{
    let mut i: usize = 0;
    while i < s.len()
        invariant
            i <= s.len(),
            forall|j: int| 0 <= j < i ==> is_white_space(#[trigger] s@[j]),
        decreases s.len() - i,
    {
        if !white_space(s[i]) {
            return false;
        }
        i += 1;
    }
    true
}

/// First position at or after `i` that is not white space.
pub open spec fn ws_prefix(s: Seq<char>, i: int) -> int
    decreases s.len() - i,
{
    if 0 <= i < s.len() && is_white_space(s[i]) {
        ws_prefix(s, i + 1)
    } else {
        i
    }
}

/// Position just past the last character before `j` that is not
/// white space (0 when there is none).
pub open spec fn ws_suffix(s: Seq<char>, j: int) -> int
    decreases j,
{
    if 0 < j <= s.len() && is_white_space(s[j - 1]) {
        ws_suffix(s, j - 1)
    } else {
        j
    }
}

/// `s` without leading and trailing white space (as `str::trim`).
pub open spec fn trim_spec(s: Seq<char>) -> Seq<char> {
    let a = ws_prefix(s, 0);
    if a >= s.len() {
        Seq::empty()
    } else {
        s.subrange(a, ws_suffix(s, s.len() as int))
    }
}

pub proof fn lemma_ws_bounds(s: Seq<char>, i: int, j: int)
    requires
        0 <= i <= s.len(),
        0 <= j <= s.len(),
    ensures
        i <= ws_prefix(s, i) <= s.len(),
        0 <= ws_suffix(s, j) <= j,
        ws_prefix(s, i) < s.len() ==> !is_white_space(s[ws_prefix(s, i)]),
        ws_suffix(s, j) > 0 ==> !is_white_space(s[ws_suffix(s, j) - 1]),
        forall|k: int| i <= k < ws_prefix(s, i) ==> is_white_space(#[trigger] s[k]),
        forall|k: int| ws_suffix(s, j) <= k < j ==> is_white_space(#[trigger] s[k]),
    decreases s.len() - i + j,
{
    if i < s.len() && is_white_space(s[i]) {
        lemma_ws_bounds(s, i + 1, j);
    } else if j > 0 && is_white_space(s[j - 1]) {
        lemma_ws_bounds(s, i, j - 1);
    }
}

/// `s` without leading and trailing white space.
pub fn trim(s: &[char]) -> (r: Vec<char>)
    ensures
        r@ == trim_spec(s@),
{
    let mut a: usize = 0;
    while a < s.len() && white_space(s[a])
        invariant
            a <= s.len(),
            ws_prefix(s@, 0) == ws_prefix(s@, a as int),
        decreases s.len() - a,
    {
        a += 1;
    }
    if a >= s.len() {
        return Vec::new();
    }
    let mut b: usize = s.len();
    while b > 0 && white_space(s[b - 1])
        invariant
            b <= s.len(),
            ws_suffix(s@, s@.len() as int) == ws_suffix(s@, b as int),
        decreases b,
    {
        b -= 1;
    }
    proof {
        lemma_ws_bounds(s@, 0, s@.len() as int);
        assert(!is_white_space(s@[a as int]));
        assert(a < b);
    }
    let mut out: Vec<char> = Vec::new();
    let mut k = a;
    while k < b
        invariant
            a <= k <= b <= s.len(),
            out@ == s@.subrange(a as int, k as int),
        decreases b - k,
    {
        out.push(s[k]);
        k += 1;
    }
    out
}

/// Appends `c` to `s` through `String::push`.
#[verifier::external_body]
pub(crate) fn push_char(s: &mut String, c: char)
    ensures
        final(s)@ == old(s)@.push(c),
{
    s.push(c);
}

/// The characters of `s`, in order.
pub fn chars_of(s: &str) -> (v: Vec<char>)
    ensures
        v@ == s@,
{
    let mut v: Vec<char> = Vec::new();
    for c in it: s.chars()
        invariant
            v@ == it.seq().take(it.index() as int),
    {
        v.push(c);
    }
    v
}

/// A `String` holding exactly the characters of `v`.
pub fn string_of(v: &[char]) -> (s: String)
    ensures
        s@ == v@,
{
    let mut s = String::new();
    let mut i: usize = 0;
    while i < v.len()
        invariant
            i <= v.len(),
            s@ == v@.take(i as int),
        decreases v.len() - i,
    {
        push_char(&mut s, v[i]);
        assert(v@.take(i + 1) == v@.take(i as int).push(v@[i as int]));
        i += 1;
    }
    assert(v@.take(v.len() as int) == v@);
    s
}

/// True when `v` holds exactly the characters of `lit`.
pub fn eq_lit(v: &[char], lit: &str) -> (b: bool)
    ensures
        b == (v@ == lit@),
{
    let l = chars_of(lit);
    eq_chars(v, &l)
}

/// True when the two character slices are equal.
pub fn eq_chars(a: &[char], b: &[char]) -> (r: bool)
    ensures
        r == (a@ == b@),
{
    if a.len() != b.len() {
        return false;
    }
    let mut i: usize = 0;
    while i < a.len()
        invariant
            i <= a.len(),
            a.len() == b.len(),
            forall|j: int| 0 <= j < i ==> a@[j] == b@[j],
        decreases a.len() - i,
    {
        if a[i] != b[i] {
            return false;
        }
        i += 1;
    }
    assert(a@ =~= b@);
    true
}

/// `c` with an ASCII capital letter mapped to its small letter.
pub open spec fn lower_char(c: char) -> char {
    if 'A' <= c <= 'Z' {
        ((c as u32) + 32) as char
    } else {
        c
    }
}

/// `c` with an ASCII small letter mapped to its capital letter.
pub open spec fn upper_char(c: char) -> char {
    if 'a' <= c <= 'z' {
        ((c as u32) - 32) as char
    } else {
        c
    }
}

/// `s` with every ASCII capital letter mapped to its small letter, as
/// `str::to_ascii_lowercase` does.
pub open spec fn ascii_lower(s: Seq<char>) -> Seq<char> {
    s.map_values(|c: char| lower_char(c))
}

/// [`lower_char`] in executable form.
pub fn to_lower_char(c: char) -> (r: char)
    ensures
        r == lower_char(c),
{
    let u = c as u32;
    if 65 <= u && u <= 90 {
        ((u + 32) as u8) as char
    } else {
        c
    }
}

/// [`upper_char`] in executable form.
pub fn to_upper_char(c: char) -> (r: char)
    ensures
        r == upper_char(c),
{
    let u = c as u32;
    if 97 <= u && u <= 122 {
        ((u - 32) as u8) as char
    } else {
        c
    }
}

/// The characters of `s` with ASCII capitals made small.
pub fn ascii_lowercase(s: &[char]) -> (r: Vec<char>)
    ensures
        r@ == ascii_lower(s@),
{
    let mut r: Vec<char> = Vec::new();
    let mut i: usize = 0;
    while i < s.len()
        invariant
            i <= s.len(),
            r@ == ascii_lower(s@.take(i as int)),
        decreases s.len() - i,
    {
        let c = to_lower_char(s[i]);
        r.push(c);
        assert(ascii_lower(s@.take(i + 1)) =~= ascii_lower(s@.take(i as int)).push(lower_char(s@[i as int])));
        i += 1;
    }
    assert(s@.take(s.len() as int) == s@);
    r
}

/// Position of the first `c` in `s` at or after `from`, or `s.len()`.
pub fn find_char_from(s: &[char], c: char, from: usize) -> (i: usize)
    requires
        from <= s.len(),
    ensures
        from <= i <= s.len(),
        i - from == find_from(s@.skip(from as int), c, 0),
{
    let ghost rest = s@.skip(from as int);
    let mut i: usize = from;
    while i < s.len() && s[i] != c
        invariant
            from <= i <= s.len(),
            rest == s@.skip(from as int),
            find_from(rest, c, 0) == find_from(rest, c, i - from),
        decreases s.len() - i,
    {
        assert(rest[i - from] == s@[i as int]);
        i += 1;
    }
    proof {
        lemma_find_from(rest, c, 0);
        if i < s.len() {
            assert(rest[i - from] == s@[i as int]);
        }
    }
    i
}

} // verus!
