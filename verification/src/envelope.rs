//! Response envelope, warnings, and the state token.
//!
//! - `@<token>` — success.
//! - `! <CODE> [arg]...` — error.
//! - `? <code> [arg]...` — warning (one per line, before the success
//!   envelope).
//!
//! The full message (warnings, then success or error, then body) is
//! composed by callers; this module deals with the individual lines.

use vstd::prelude::*;

use crate::codes::{ErrorCode, WarningCode};
use crate::error::{ParseError, ParseErrorView};
use crate::text::{all_white_space, chars_of, is_blank_line, lines, lines_spec, string_of, vecs_view};
use crate::tokenize::{copy_range, quote_value, quote_value_spec, strip_quotes, strip_quotes_spec, tokens};
use crate::tree::{all_tokens, push_all, push_str};
use crate::tree_laws::{
    clean_tok, lemma_clean_no_quote, lemma_clean_plain, lemma_clean_plain_quoted, lemma_lines_cons, lemma_tokens_spaced,
    lemma_value_back, no_nl, plain, safe_text, spaced,
};
use crate::tokenize::{clean, has_blank, is_blank, quoted};

verus! {

/// The lowercase hexadecimal digit for `d` (`0 <= d < 16`).
pub open spec fn hex_char(d: int) -> char {
    if d < 10 {
        ((d + 48) as u32) as char
    } else {
        ((d + 87) as u32) as char
    }
}

/// True for `0`..=`9` and `a`..=`f`.
pub open spec fn is_hex_lower(c: char) -> bool {
    ('0' <= c && c <= '9') || ('a' <= c && c <= 'f')
}

/// Value of a lowercase hexadecimal digit.
pub open spec fn hex_value(c: char) -> int {
    if '0' <= c && c <= '9' {
        (c as int) - 48
    } else {
        (c as int) - 87
    }
}

/// Two lowercase hex digits per byte, most significant first.
pub open spec fn hex_text(b: Seq<u8>) -> Seq<char>
    decreases b.len(),
{
    if b.len() == 0 {
        Seq::empty()
    } else {
        seq![hex_char(b[0] as int / 16), hex_char(b[0] as int % 16)] + hex_text(b.drop_first())
    }
}

/// The bytes spelled by pairs of lowercase hex digits.
pub open spec fn hex_bytes(s: Seq<char>) -> Seq<u8> {
    Seq::new(s.len() / 2, |i: int| (hex_value(s[2 * i]) * 16 + hex_value(s[2 * i + 1])) as u8)
}

/// True for 16 lowercase hex digits: the wire form of a state token.
pub open spec fn valid_token_text(s: Seq<char>) -> bool {
    s.len() == 16 && forall|i: int| 0 <= i < s.len() ==> is_hex_lower(#[trigger] s[i])
}

/// A 64-bit state token, rendered as 16 lowercase hex chars on the wire.
#[derive(Debug, Clone, Copy, PartialEq, Eq, Hash, PartialOrd, Ord)]
pub struct StateToken(pub [u8; 8]);

/// The wire form of a token: its bytes in lowercase hex.
pub open spec fn token_text(t: StateToken) -> Seq<char> {
    hex_text(t.0@)
}

fn hex_digit(d: u8) -> (c: char)
    requires
        d < 16,
    ensures
        c == hex_char(d as int),
{
    let c = if d == 0 {
        '0'
    } else if d == 1 {
        '1'
    } else if d == 2 {
        '2'
    } else if d == 3 {
        '3'
    } else if d == 4 {
        '4'
    } else if d == 5 {
        '5'
    } else if d == 6 {
        '6'
    } else if d == 7 {
        '7'
    } else if d == 8 {
        '8'
    } else if d == 9 {
        '9'
    } else if d == 10 {
        'a'
    } else if d == 11 {
        'b'
    } else if d == 12 {
        'c'
    } else if d == 13 {
        'd'
    } else if d == 14 {
        'e'
    } else {
        'f'
    };
    c
}

fn hex_digit_value(c: char) -> (v: u8)
    requires
        is_hex_lower(c),
    ensures
        v == hex_value(c),
        v < 16,
{
    if '0' <= c && c <= '9' {
        ((c as u32) - 48) as u8
    } else {
        ((c as u32) - 87) as u8
    }
}

fn is_hex_lower_exec(c: char) -> (b: bool)
    ensures
        b == is_hex_lower(c),
{
    ('0' <= c && c <= '9') || ('a' <= c && c <= 'f')
}

impl StateToken {
    /// The all-zero token. Useful as a sentinel in tests; the daemon
    /// never emits it in production.
    pub fn zero() -> (t: StateToken)
        ensures
            t.0@ == seq![0u8, 0u8, 0u8, 0u8, 0u8, 0u8, 0u8, 0u8],
    {
        let t = StateToken([0u8; 8]);
        assert(t.0@ =~= seq![0u8, 0u8, 0u8, 0u8, 0u8, 0u8, 0u8, 0u8]);
        t
    }

    /// A token holding exactly `bytes`.
    pub fn from_bytes(bytes: [u8; 8]) -> (t: StateToken)
        ensures
            t.0 == bytes,
    {
        StateToken(bytes)
    }

    /// The 16 lowercase hex chars of the wire form.
    pub fn to_string(&self) -> (s: String)
        ensures
            s@ == token_text(*self),
    {
        let mut out: Vec<char> = Vec::new();
        let mut i: usize = 0;
        let ghost b = self.0@;
        assert(b.skip(0) =~= b);
        while i < 8
            invariant
                i <= 8,
                b == self.0@,
                b.len() == 8,
                out@ + hex_text(b.skip(i as int)) == hex_text(b),
            decreases 8 - i,
        {
            let x = self.0[i];
            let ghost before = out@;
            out.push(hex_digit(x / 16));
            out.push(hex_digit(x % 16));
            proof {
                let sk = b.skip(i as int);
                assert(sk[0] == x);
                assert(sk.drop_first() =~= b.skip(i + 1));
                assert(out@ + hex_text(b.skip(i + 1)) =~= before + hex_text(sk));
            }
            i += 1;
        }
        assert(b.skip(8) =~= Seq::<u8>::empty());
        assert(out@ + Seq::<char>::empty() =~= out@);
        string_of(out.as_slice())
    }

    /// Parse the wire form: exactly 16 lowercase hex digits.
    pub fn parse(s: &str) -> (res: Result<StateToken, ParseError>)
        ensures
            match res {
                Ok(t) => valid_token_text(s@) && t.0@ == hex_bytes(s@),
                Err(e) => !valid_token_text(s@) && e@ == (ParseErrorView::InvalidToken { raw: s@ }),
            },
    {
        let v = chars_of(s);
        Self::parse_chars(v.as_slice())
    }

    /// Parse the wire form given as characters.
    pub fn parse_chars(v: &[char]) -> (res: Result<StateToken, ParseError>)
        ensures
            match res {
                Ok(t) => valid_token_text(v@) && t.0@ == hex_bytes(v@),
                Err(e) => !valid_token_text(v@) && e@ == (ParseErrorView::InvalidToken { raw: v@ }),
            },
    {
        if v.len() != 16 {
            return Err(ParseError::InvalidToken { raw: string_of(v) });
        }
        let mut k: usize = 0;
        while k < 16
            invariant
                k <= 16,
                v.len() == 16,
                forall|j: int| 0 <= j < k ==> is_hex_lower(#[trigger] v@[j]),
            decreases 16 - k,
        {
            if !is_hex_lower_exec(v[k]) {
                return Err(ParseError::InvalidToken { raw: string_of(v) });
            }
            k += 1;
        }
        let mut bytes = [0u8; 8];
        let mut i: usize = 0;
        while i < 8
            invariant
                i <= 8,
                v.len() == 16,
                valid_token_text(v@),
                forall|j: int| 0 <= j < i ==> #[trigger] bytes@[j] == hex_bytes(v@)[j],
            decreases 8 - i,
        {
            let hi = hex_digit_value(v[2 * i]);
            let lo = hex_digit_value(v[2 * i + 1]);
            bytes[i] = hi * 16 + lo;
            i += 1;
        }
        let t = StateToken(bytes);
        assert(t.0@ =~= hex_bytes(v@));
        Ok(t)
    }
}

/// Reading back the wire form of any byte string gives it back.
pub proof fn lemma_hex_round_trip(b: Seq<u8>)
    ensures
        hex_bytes(hex_text(b)) == b,
        valid_token_text(hex_text(b)) <==> b.len() == 8,
        hex_text(b).len() == 2 * b.len(),
        forall|i: int| 0 <= i < hex_text(b).len() ==> is_hex_lower(#[trigger] hex_text(b)[i]),
    decreases b.len(),
{
    if b.len() > 0 {
        lemma_hex_round_trip(b.drop_first());
        let t = hex_text(b);
        let r = hex_text(b.drop_first());
        let x = b[0];
        assert(t =~= seq![hex_char(x as int / 16), hex_char(x as int % 16)] + r);
        assert(is_hex_lower(hex_char(x as int / 16)) && hex_value(hex_char(x as int / 16)) == x as int / 16);
        assert(is_hex_lower(hex_char(x as int % 16)) && hex_value(hex_char(x as int % 16)) == x as int % 16);
        assert forall|i: int| 0 <= i < t.len() implies is_hex_lower(#[trigger] t[i]) by {
            if i >= 2 {
                assert(t[i] == r[i - 2]);
            }
        }
        assert forall|i: int| 0 <= i < b.len() implies #[trigger] hex_bytes(t)[i] == b[i] by {
            if i > 0 {
                assert(t[2 * i] == r[2 * (i - 1)]);
                assert(t[2 * i + 1] == r[2 * (i - 1) + 1]);
                assert(hex_bytes(r)[i - 1] == b.drop_first()[i - 1]);
            } else {
                assert(x == (x / 16) * 16 + x % 16);
            }
        }
        assert(hex_bytes(t) =~= b);
    } else {
        assert(hex_bytes(Seq::<char>::empty()) =~= Seq::<u8>::empty());
    }
}

/// The wire form of the bytes spelled by a valid token text is that text.
pub proof fn lemma_hex_text_bytes(s: Seq<char>)
    requires
        valid_token_text(s),
    ensures
        hex_text(hex_bytes(s)) == s,
{
    let b = hex_bytes(s);
    lemma_hex_round_trip(b);
    let t = hex_text(b);
    assert forall|i: int| 0 <= i < 16 implies #[trigger] t[i] == s[i] by {
        lemma_hex_text_index(b, i / 2);
        let k = i / 2;
        let c1 = s[2 * k];
        let c2 = s[2 * k + 1];
        assert(is_hex_lower(c1) && is_hex_lower(c2));
        assert(b[k] == (hex_value(c1) * 16 + hex_value(c2)) as u8);
        assert(0 <= hex_value(c1) < 16 && 0 <= hex_value(c2) < 16);
        assert(b[k] as int / 16 == hex_value(c1));
        assert(b[k] as int % 16 == hex_value(c2));
        assert(hex_char(hex_value(c1)) == c1);
        assert(hex_char(hex_value(c2)) == c2);
    }
    assert(t =~= s);
}

proof fn lemma_hex_text_index(b: Seq<u8>, k: int)
    requires
        0 <= k < b.len(),
    ensures
        hex_text(b).len() == 2 * b.len(),
        hex_text(b)[2 * k] == hex_char(b[k] as int / 16),
        hex_text(b)[2 * k + 1] == hex_char(b[k] as int % 16),
    decreases b.len(),
{
    lemma_hex_round_trip(b);
    if k > 0 {
        lemma_hex_text_index(b.drop_first(), k - 1);
        lemma_hex_round_trip(b.drop_first());
    }
}

impl std::str::FromStr for StateToken {
    type Err = ParseError;

    /// [`StateToken::parse`]: exactly 16 lowercase hex digits.
    fn from_str(s: &str) -> (res: Result<StateToken, ParseError>)
        ensures
            match res {
                Ok(t) => valid_token_text(s@) && t.0@ == hex_bytes(s@),
                Err(e) => !valid_token_text(s@) && e@ == (ParseErrorView::InvalidToken { raw: s@ }),
            },
    {
        StateToken::parse(s)
    }
}

/// Reading back a token's text gives the token: the text is accepted,
/// and the token whose bytes it spells is the token itself.
pub proof fn lemma_token_text_reads_back(t: StateToken)
    ensures
        valid_token_text(token_text(t)),
        forall|u: StateToken| u.0@ == hex_bytes(token_text(t)) ==> u == t,
{
    lemma_token_round_trip(t);
    assert forall|u: StateToken| u.0@ == hex_bytes(token_text(t)) implies u == t by {
        assert(u.0@ == t.0@);
        assert(u.0 =~= t.0);
    }
}

/// The wire text of a state token is the standard lowercase hex of its
/// bytes: sixteen characters, character `2i` the digit of byte `i / 16`
/// and character `2i + 1` the digit of byte `i % 16`, where the digit of
/// `d` is the character with code `48 + d` below ten and `87 + d` from
/// ten on.
pub proof fn lemma_token_text_is_lower_hex(t: StateToken)
    ensures
        token_text(t).len() == 16,
        forall|i: int|
            0 <= i < 8 ==> (#[trigger] token_text(t)[2 * i]) as int == (if t.0[i] as int / 16 < 10 {
                48 + t.0[i] as int / 16
            } else {
                87 + t.0[i] as int / 16
            }),
        forall|i: int|
            0 <= i < 8 ==> (#[trigger] token_text(t)[2 * i + 1]) as int == (if t.0[i] as int % 16 < 10 {
                48 + t.0[i] as int % 16
            } else {
                87 + t.0[i] as int % 16
            }),
{
    lemma_hex_text_index(t.0@, 0);
    assert forall|i: int| 0 <= i < 8 implies (#[trigger] token_text(t)[2 * i]) as int == (if t.0[i] as int / 16 < 10 {
        48 + t.0[i] as int / 16
    } else {
        87 + t.0[i] as int / 16
    }) by {
        lemma_hex_text_index(t.0@, i);
        assert(t.0@[i] == t.0[i]);
    }
    assert forall|i: int| 0 <= i < 8 implies (#[trigger] token_text(t)[2 * i + 1]) as int == (if t.0[i] as int % 16 < 10 {
        48 + t.0[i] as int % 16
    } else {
        87 + t.0[i] as int % 16
    }) by {
        lemma_hex_text_index(t.0@, i);
        assert(t.0@[i] == t.0[i]);
    }
}

/// Reading a token's wire text takes byte `i` from characters `2i` and
/// `2i + 1` as two lowercase hex digits, high digit first: the value of
/// a digit of code `c` is `c - 48` for `0`-`9` and `c - 87` for `a`-`f`.
pub proof fn lemma_token_text_reads_lower_hex(s: Seq<char>)
    requires
        valid_token_text(s),
    ensures
        hex_bytes(s).len() == 8,
        forall|i: int|
            0 <= i < 8 ==> (#[trigger] hex_bytes(s)[i]) as int == 16 * (if s[2 * i] <= '9' {
                s[2 * i] as int - 48
            } else {
                s[2 * i] as int - 87
            }) + (if s[2 * i + 1] <= '9' {
                s[2 * i + 1] as int - 48
            } else {
                s[2 * i + 1] as int - 87
            }),
{
    assert forall|i: int| 0 <= i < 8 implies (#[trigger] hex_bytes(s)[i]) as int == 16 * (if s[2 * i] <= '9' {
        s[2 * i] as int - 48
    } else {
        s[2 * i] as int - 87
    }) + (if s[2 * i + 1] <= '9' {
        s[2 * i + 1] as int - 48
    } else {
        s[2 * i + 1] as int - 87
    }) by {
        assert(is_hex_lower(s[2 * i]));
        assert(is_hex_lower(s[2 * i + 1]));
    }
}

/// Reading back the wire form of a token gives the token back.
pub proof fn lemma_token_round_trip(t: StateToken)
    ensures
        valid_token_text(token_text(t)),
        hex_bytes(token_text(t)) == t.0@,
{
    lemma_hex_round_trip(t.0@);
}

/// The characters of each string of `v`.
pub open spec fn strings_view(v: Seq<String>) -> Seq<Seq<char>> {
    v.map_values(|x: String| x@)
}

/// Each argument preceded by a space, quoted as attribute values are.
pub open spec fn args_part(args: Seq<Seq<char>>) -> Seq<char>
    decreases args.len(),
{
    if args.len() == 0 {
        Seq::empty()
    } else {
        seq![' '] + quote_value_spec(args[0]) + args_part(args.drop_first())
    }
}

/// `s` without its trailing line breaks.
pub open spec fn trim_end_nl(s: Seq<char>) -> Seq<char>
    decreases s.len(),
{
    if s.len() > 0 && s.last() == '\n' {
        trim_end_nl(s.drop_last())
    } else {
        s
    }
}

/// Every token unquoted once.
pub open spec fn unquoted_all(toks: Seq<Seq<char>>) -> Seq<Seq<char>> {
    toks.map_values(|t: Seq<char>| strip_quotes_spec(t))
}

/// One warning line, preceding the success envelope.
#[derive(Debug, Clone, PartialEq, Eq)]
pub struct Warning {
    pub code: WarningCode,
    pub args: Vec<String>,
}

/// The wire line of a warning with `code` and `args`.
pub open spec fn warning_line(code: WarningCode, args: Seq<Seq<char>>) -> Seq<char> {
    seq!['?', ' '] + code.wire() + args_part(args) + seq!['\n']
}

/// What [`Warning::parse`] gives for `line`: the code and the arguments.
pub open spec fn parse_warning_spec(line: Seq<char>) -> Result<(WarningCode, Seq<Seq<char>>), ParseErrorView> {
    let t = trim_end_nl(line);
    if t.len() == 0 || t[0] != '?' {
        Err(ParseErrorView::InvalidEnvelope { detail: "warning line must start with `?`"@ })
    } else {
        let toks = tokens(t.skip(1));
        if toks.len() == 0 {
            Err(ParseErrorView::InvalidEnvelope { detail: "warning missing code"@ })
        } else {
            match WarningCode::from_wire(toks[0]) {
                None => Err(ParseErrorView::UnknownCode { kind: "warning"@, value: toks[0] }),
                Some(c) => Ok((c, unquoted_all(toks.skip(1)))),
            }
        }
    }
}

/// `s` without its trailing line breaks.
fn trim_end_newlines(s: &[char]) -> (r: Vec<char>)
    ensures
        r@ == trim_end_nl(s@),
{
    let mut n = s.len();
    assert(s@.take(n as int) =~= s@);
    while n > 0 && s[n - 1] == '\n'
        invariant
            n <= s.len(),
            trim_end_nl(s@) == trim_end_nl(s@.take(n as int)),
        decreases n,
    {
        assert(s@.take(n as int).drop_last() =~= s@.take(n - 1));
        n -= 1;
    }
    assert(n > 0 ==> s@.take(n as int).last() == s@[n - 1]);
    copy_range(s, 0, n)
}

/// Append each argument preceded by a space, quoted as needed.
fn push_args(out: &mut Vec<char>, args: &Vec<String>)
    ensures
        final(out)@ == old(out)@ + args_part(strings_view(args@)),
{
    let ghost all = strings_view(args@);
    let mut i: usize = 0;
    assert(all.skip(0) =~= all);
    while i < args.len()
        invariant
            i <= args.len(),
            all == strings_view(args@),
            out@ + args_part(all.skip(i as int)) == old(out)@ + args_part(all),
        decreases args.len() - i,
    {
        let ghost before = out@;
        out.push(' ');
        let a = chars_of(args[i].as_str());
        let q = quote_value(a.as_slice());
        push_all(out, q.as_slice());
        proof {
            let sk = all.skip(i as int);
            assert(sk[0] == args@[i as int]@);
            assert(sk.drop_first() =~= all.skip(i + 1));
            assert(out@ + args_part(all.skip(i + 1)) =~= before + args_part(sk));
        }
        i += 1;
    }
    assert(all.skip(args.len() as int) =~= Seq::<Seq<char>>::empty());
    assert(out@ + Seq::<char>::empty() =~= out@);
}

/// Every token of `toks[from..]`, unquoted once, as strings.
fn unquoted_strings(toks: &Vec<Vec<char>>, from: usize) -> (v: Vec<String>)
    requires
        from <= toks.len(),
    ensures
        strings_view(v@) == unquoted_all(vecs_view(toks@).skip(from as int)),
{
    let ghost tv = vecs_view(toks@);
    let mut out: Vec<String> = Vec::new();
    let mut i = from;
    while i < toks.len()
        invariant
            from <= i <= toks.len(),
            tv == vecs_view(toks@),
            strings_view(out@) == unquoted_all(tv.subrange(from as int, i as int)),
        decreases toks.len() - i,
    {
        let u = strip_quotes(toks[i].as_slice());
        let ghost before = out@;
        out.push(string_of(u.as_slice()));
        proof {
            assert(tv[i as int] == toks@[i as int]@);
            assert(strings_view(out@) =~= strings_view(before).push(strip_quotes_spec(tv[i as int])));
            assert(unquoted_all(tv.subrange(from as int, i + 1)) =~= unquoted_all(tv.subrange(from as int, i as int)).push(
                strip_quotes_spec(tv[i as int]),
            ));
        }
        i += 1;
    }
    assert(tv.subrange(from as int, toks.len() as int) =~= tv.skip(from as int));
    out
}

impl Warning {
    /// A warning with no argument.
    pub fn new(code: WarningCode) -> (w: Warning)
        ensures
            w.code == code,
            w.args@.len() == 0,
    {
        Warning { code, args: Vec::new() }
    }

    /// A warning with the given arguments.
    pub fn with_args(code: WarningCode, args: Vec<String>) -> (w: Warning)
        ensures
            w.code == code,
            w.args == args,
    {
        Warning { code, args }
    }

    /// Encode as a single wire line, including the trailing newline.
    pub fn encode(&self) -> (s: String)
        ensures
            s@ == warning_line(self.code, strings_view(self.args@)),
    {
        let mut out: Vec<char> = Vec::new();
        out.push('?');
        out.push(' ');
        push_str(&mut out, self.code.as_str());
        push_args(&mut out, &self.args);
        out.push('\n');
        assert(out@ =~= warning_line(self.code, strings_view(self.args@)));
        string_of(out.as_slice())
    }

    /// Parse one warning line; the trailing newline is optional.
    pub fn parse(line: &str) -> (res: Result<Warning, ParseError>)
        ensures
            match res {
                Ok(w) => parse_warning_spec(line@) == Ok::<(WarningCode, Seq<Seq<char>>), ParseErrorView>(
                    (w.code, strings_view(w.args@)),
                ),
                Err(e) => parse_warning_spec(line@) == Err::<(WarningCode, Seq<Seq<char>>), ParseErrorView>(e@),
            },
    {
        let v = chars_of(line);
        Self::parse_chars(v.as_slice())
    }

    /// Parse one warning line given as characters.
    pub fn parse_chars(line: &[char]) -> (res: Result<Warning, ParseError>)
        ensures
            match res {
                Ok(w) => parse_warning_spec(line@) == Ok::<(WarningCode, Seq<Seq<char>>), ParseErrorView>(
                    (w.code, strings_view(w.args@)),
                ),
                Err(e) => parse_warning_spec(line@) == Err::<(WarningCode, Seq<Seq<char>>), ParseErrorView>(e@),
            },
    {
        let t = trim_end_newlines(line);
        if t.len() == 0 || t[0] != '?' {
            return Err(ParseError::InvalidEnvelope { detail: "warning line must start with `?`" });
        }
        let body = copy_range(t.as_slice(), 1, t.len());
        assert(body@ =~= t@.skip(1));
        let toks = all_tokens(body.as_slice());
        let ghost tv = vecs_view(toks@);
        if toks.len() == 0 {
            return Err(ParseError::InvalidEnvelope { detail: "warning missing code" });
        }
        assert(tv[0] == toks@[0]@);
        let code = match WarningCode::parse_chars(toks[0].as_slice()) {
            Err(u) => {
                assert(WarningCode::from_wire(tv[0]) is None);
                return Err(ParseError::UnknownCode(u));
            },
            Ok(c) => {
                proof {
                    crate::codes::lemma_warning_code_from_wire(c);
                }
                c
            },
        };
        let args = unquoted_strings(&toks, 1);
        Ok(Warning { code, args })
    }
}

/// The single envelope line of a response.
#[derive(Debug, Clone, PartialEq, Eq)]
pub enum Envelope {
    Success(StateToken),
    Error { code: ErrorCode, args: Vec<String> },
}

/// The content of an [`Envelope`].
pub enum EnvelopeView {
    Success(Seq<u8>),
    Error { code: ErrorCode, args: Seq<Seq<char>> },
}

/// The content of `e`.
pub open spec fn envelope_view(e: Envelope) -> EnvelopeView {
    match e {
        Envelope::Success(t) => EnvelopeView::Success(t.0@),
        Envelope::Error { code, args } => EnvelopeView::Error { code, args: strings_view(args@) },
    }
}

/// The wire line of an envelope.
pub open spec fn envelope_line(e: EnvelopeView) -> Seq<char> {
    match e {
        EnvelopeView::Success(b) => seq!['@'] + hex_text(b) + seq!['\n'],
        EnvelopeView::Error { code, args } => seq!['!', ' '] + code.wire() + args_part(args) + seq!['\n'],
    }
}

/// What [`Envelope::parse`] gives for `line`.
pub open spec fn parse_envelope_spec(line: Seq<char>) -> Result<EnvelopeView, ParseErrorView> {
    let t = trim_end_nl(line);
    if t.len() > 0 && t[0] == '@' {
        let rest = t.skip(1);
        if valid_token_text(rest) {
            Ok(EnvelopeView::Success(hex_bytes(rest)))
        } else {
            Err(ParseErrorView::InvalidToken { raw: rest })
        }
    } else if t.len() > 0 && t[0] == '!' {
        let toks = tokens(t.skip(1));
        if toks.len() == 0 {
            Err(ParseErrorView::InvalidEnvelope { detail: "error missing code"@ })
        } else {
            match ErrorCode::from_wire(toks[0]) {
                None => Err(ParseErrorView::UnknownCode { kind: "error"@, value: toks[0] }),
                Some(c) => Ok(EnvelopeView::Error { code: c, args: unquoted_all(toks.skip(1)) }),
            }
        }
    } else {
        Err(ParseErrorView::InvalidEnvelope { detail: "envelope must start with `@` or `!`"@ })
    }
}

impl Envelope {
    /// Encode this envelope as one wire line, including the trailing
    /// newline.
    pub fn encode(&self) -> (s: String)
        ensures
            s@ == envelope_line(envelope_view(*self)),
    {
        let mut out: Vec<char> = Vec::new();
        match self {
            Envelope::Success(t) => {
                out.push('@');
                let h = t.to_string();
                push_str(&mut out, h.as_str());
            },
            Envelope::Error { code, args } => {
                out.push('!');
                out.push(' ');
                push_str(&mut out, code.as_str());
                push_args(&mut out, args);
            },
        }
        out.push('\n');
        assert(out@ =~= envelope_line(envelope_view(*self)));
        string_of(out.as_slice())
    }

    /// Parse a single envelope line; the trailing newline is optional.
    pub fn parse(line: &str) -> (res: Result<Envelope, ParseError>)
        ensures
            match res {
                Ok(e) => parse_envelope_spec(line@) == Ok::<EnvelopeView, ParseErrorView>(envelope_view(e)),
                Err(e) => parse_envelope_spec(line@) == Err::<EnvelopeView, ParseErrorView>(e@),
            },
    {
        let v = chars_of(line);
        Self::parse_chars(v.as_slice())
    }

    /// Parse a single envelope line given as characters.
    pub fn parse_chars(line: &[char]) -> (res: Result<Envelope, ParseError>)
        ensures
            match res {
                Ok(e) => parse_envelope_spec(line@) == Ok::<EnvelopeView, ParseErrorView>(envelope_view(e)),
                Err(e) => parse_envelope_spec(line@) == Err::<EnvelopeView, ParseErrorView>(e@),
            },
    {
        let t = trim_end_newlines(line);
        if t.len() > 0 && t[0] == '@' {
            let rest = copy_range(t.as_slice(), 1, t.len());
            assert(rest@ =~= t@.skip(1));
            return match StateToken::parse_chars(rest.as_slice()) {
                Ok(tok) => Ok(Envelope::Success(tok)),
                Err(e) => Err(e),
            };
        }
        if t.len() > 0 && t[0] == '!' {
            let body = copy_range(t.as_slice(), 1, t.len());
            assert(body@ =~= t@.skip(1));
            let toks = all_tokens(body.as_slice());
            let ghost tv = vecs_view(toks@);
            if toks.len() == 0 {
                return Err(ParseError::InvalidEnvelope { detail: "error missing code" });
            }
            assert(tv[0] == toks@[0]@);
            let code = match ErrorCode::parse_chars(toks[0].as_slice()) {
                Err(u) => {
                    assert(ErrorCode::from_wire(tv[0]) is None);
                    return Err(ParseError::UnknownCode(u));
                },
                Ok(c) => {
                    proof {
                        crate::codes::lemma_error_code_from_wire(c);
                    }
                    c
                },
            };
            let args = unquoted_strings(&toks, 1);
            return Ok(Envelope::Error { code, args });
        }
        Err(ParseError::InvalidEnvelope { detail: "envelope must start with `@` or `!`" })
    }
}

/// A response head: zero or more warnings followed by an envelope.
#[derive(Debug, Clone, PartialEq, Eq)]
pub struct ResponseHead {
    pub warnings: Vec<Warning>,
    pub envelope: Envelope,
}

/// The code and arguments of each warning of `w`.
pub open spec fn warnings_view(w: Seq<Warning>) -> Seq<(WarningCode, Seq<Seq<char>>)> {
    w.map_values(|x: Warning| (x.code, strings_view(x.args@)))
}

/// The wire lines of the warnings `w`, in order.
pub open spec fn warning_lines(w: Seq<(WarningCode, Seq<Seq<char>>)>) -> Seq<char>
    decreases w.len(),
{
    if w.len() == 0 {
        Seq::empty()
    } else {
        warning_line(w[0].0, w[0].1) + warning_lines(w.drop_first())
    }
}

/// What [`ResponseHead::parse`] gives for the lines `ls[i..]`, with the
/// warnings `ws` already read.
pub open spec fn parse_head_from(
    ls: Seq<Seq<char>>,
    i: int,
    ws: Seq<(WarningCode, Seq<Seq<char>>)>,
) -> Result<(Seq<(WarningCode, Seq<Seq<char>>)>, EnvelopeView), ParseErrorView>
    decreases ls.len() - i,
{
    if i < 0 || i >= ls.len() {
        Err(ParseErrorView::InvalidEnvelope { detail: "no envelope line found"@ })
    } else {
        let l = ls[i];
        if all_white_space(l) {
            parse_head_from(ls, i + 1, ws)
        } else if l[0] == '?' {
            match parse_warning_spec(l) {
                Err(e) => Err(e),
                Ok(w) => parse_head_from(ls, i + 1, ws.push(w)),
            }
        } else if l[0] == '@' || l[0] == '!' {
            match parse_envelope_spec(l) {
                Err(e) => Err(e),
                Ok(env) => Ok((ws, env)),
            }
        } else {
            Err(ParseErrorView::InvalidEnvelope { detail: "expected `?`, `@`, or `!` at start of line"@ })
        }
    }
}

impl ResponseHead {
    /// A success head with no warning.
    pub fn ok(token: StateToken) -> (h: ResponseHead)
        ensures
            h.warnings@.len() == 0,
            h.envelope == Envelope::Success(token),
    {
        ResponseHead { warnings: Vec::new(), envelope: Envelope::Success(token) }
    }

    /// An error head with no warning.
    pub fn err(code: ErrorCode, args: Vec<String>) -> (h: ResponseHead)
        ensures
            h.warnings@.len() == 0,
            h.envelope == (Envelope::Error { code, args }),
    {
        ResponseHead { warnings: Vec::new(), envelope: Envelope::Error { code, args } }
    }

    /// The same head with `w` added after its warnings.
    pub fn with_warning(self, w: Warning) -> (h: ResponseHead)
        ensures
            h.warnings@ == self.warnings@.push(w),
            h.envelope == self.envelope,
    {
        let mut s = self;
        s.warnings.push(w);
        s
    }

    /// Encode the head: warnings (one per line) then the envelope line.
    /// The blank line that ends a full response is the caller's.
    pub fn encode(&self) -> (s: String)
        ensures
            s@ == warning_lines(warnings_view(self.warnings@)) + envelope_line(envelope_view(self.envelope)),
    {
        let mut out: Vec<char> = Vec::new();
        let ghost all = warnings_view(self.warnings@);
        let mut i: usize = 0;
        assert(all.skip(0) =~= all);
        while i < self.warnings.len()
            invariant
                i <= self.warnings.len(),
                all == warnings_view(self.warnings@),
                out@ + warning_lines(all.skip(i as int)) == warning_lines(all),
            decreases self.warnings.len() - i,
        {
            let w = self.warnings[i].encode();
            let ghost before = out@;
            push_str(&mut out, w.as_str());
            proof {
                let sk = all.skip(i as int);
                assert(sk[0] == (self.warnings@[i as int].code, strings_view(self.warnings@[i as int].args@)));
                assert(sk.drop_first() =~= all.skip(i + 1));
                assert(out@ + warning_lines(all.skip(i + 1)) =~= before + warning_lines(sk));
            }
            i += 1;
        }
        assert(all.skip(self.warnings.len() as int) =~= Seq::<(WarningCode, Seq<Seq<char>>)>::empty());
        let e = self.envelope.encode();
        push_str(&mut out, e.as_str());
        assert(out@ =~= warning_lines(all) + envelope_line(envelope_view(self.envelope)));
        string_of(out.as_slice())
    }

    /// Parse a head from a multi-line string. Stops at the envelope line:
    /// what follows it is the body, which the caller handles.
    pub fn parse(input: &str) -> (res: Result<ResponseHead, ParseError>)
        ensures
            match res {
                Ok(h) => parse_head_from(lines_spec(input@), 0, Seq::empty()) == Ok::<
                    (Seq<(WarningCode, Seq<Seq<char>>)>, EnvelopeView),
                    ParseErrorView,
                >((warnings_view(h.warnings@), envelope_view(h.envelope))),
                Err(e) => parse_head_from(lines_spec(input@), 0, Seq::empty()) == Err::<
                    (Seq<(WarningCode, Seq<Seq<char>>)>, EnvelopeView),
                    ParseErrorView,
                >(e@),
            },
    {
        let chars = chars_of(input);
        let ls = lines(chars.as_slice());
        let ghost lv = vecs_view(ls@);
        let mut warnings: Vec<Warning> = Vec::new();
        let mut i: usize = 0;
        assert(warnings_view(warnings@) =~= Seq::<(WarningCode, Seq<Seq<char>>)>::empty());
        while i < ls.len()
            invariant
                i <= ls.len(),
                lv == vecs_view(ls@),
                lv == lines_spec(input@),
                parse_head_from(lv, i as int, warnings_view(warnings@)) == parse_head_from(lv, 0, Seq::empty()),
            decreases ls.len() - i,
        {
            let l = &ls[i];
            assert(lv[i as int] == l@);
            if is_blank_line(l.as_slice()) {
                i += 1;
                continue;
            }
            if l[0] == '?' {
                match Warning::parse_chars(l.as_slice()) {
                    Err(e) => {
                        return Err(e);
                    },
                    Ok(w) => {
                        let ghost before = warnings@;
                        warnings.push(w);
                        assert(warnings_view(warnings@) =~= warnings_view(before).push((w.code, strings_view(w.args@))));
                    },
                }
            } else if l[0] == '@' || l[0] == '!' {
                return match Envelope::parse_chars(l.as_slice()) {
                    Err(e) => Err(e),
                    Ok(envelope) => Ok(ResponseHead { warnings, envelope }),
                };
            } else {
                return Err(ParseError::InvalidEnvelope { detail: "expected `?`, `@`, or `!` at start of line" });
            }
            i += 1;
        }
        Err(ParseError::InvalidEnvelope { detail: "no envelope line found" })
    }
}

/// A non-empty run of ASCII letters and underscores.
pub open spec fn code_word(s: Seq<char>) -> bool {
    &&& s.len() > 0
    &&& forall|i: int|
        0 <= i < s.len() ==> ('a' <= #[trigger] s[i] && s[i] <= 'z') || ('A' <= s[i] && s[i] <= 'Z') || s[i] == '_'
}

/// The wire string of a warning code is a code word.
pub proof fn lemma_warning_code_word(c: WarningCode)
    ensures
        code_word(c.wire()),
{
    match c {
        WarningCode::Nav => {
            reveal_strlit("nav");
        },
        WarningCode::CaptchaVisible => {
            reveal_strlit("captcha_visible");
        },
        WarningCode::AuthLoaded => {
            reveal_strlit("auth_loaded");
        },
        WarningCode::ViewportChanged => {
            reveal_strlit("viewport_changed");
        },
        WarningCode::IdempotentHit => {
            reveal_strlit("idempotent_hit");
        },
        WarningCode::ConsoleError => {
            reveal_strlit("console_error");
        },
        WarningCode::HiddenTarget => {
            reveal_strlit("hidden_target");
        },
    }
}

/// The wire string of an error code is a code word.
pub proof fn lemma_error_code_word(c: ErrorCode)
    ensures
        code_word(c.wire()),
{
    match c {
        ErrorCode::StaleToken => {
            reveal_strlit("STALE_TOKEN");
        },
        ErrorCode::EngineUnsupported => {
            reveal_strlit("ENGINE_UNSUPPORTED");
        },
        ErrorCode::PolicyDeny => {
            reveal_strlit("POLICY_DENY");
        },
        ErrorCode::Timeout => {
            reveal_strlit("TIMEOUT");
        },
        ErrorCode::NotFound => {
            reveal_strlit("NOT_FOUND");
        },
        ErrorCode::WrongSession => {
            reveal_strlit("WRONG_SESSION");
        },
        ErrorCode::ConfirmRequired => {
            reveal_strlit("CONFIRM_REQUIRED");
        },
        ErrorCode::DaemonStartFailed => {
            reveal_strlit("DAEMON_START_FAILED");
        },
        ErrorCode::EngineCrash => {
            reveal_strlit("ENGINE_CRASH");
        },
        ErrorCode::BadRequest => {
            reveal_strlit("BAD_REQUEST");
        },
        ErrorCode::UnknownKind => {
            reveal_strlit("UNKNOWN_KIND");
        },
        ErrorCode::EvalError => {
            reveal_strlit("EVAL_ERROR");
        },
        ErrorCode::EvalSyntax => {
            reveal_strlit("EVAL_SYNTAX");
        },
    }
}

/// A code word is a clean token without line breaks.
pub proof fn lemma_code_word_clean(s: Seq<char>)
    requires
        code_word(s),
    ensures
        clean_tok(s),
        no_nl(s),
        plain(s),
{
    lemma_clean_plain(s);
}

/// Arguments that survive the wire unchanged: non-empty, without `"` and
/// without line breaks.
pub open spec fn safe_args(args: Seq<Seq<char>>) -> bool {
    forall|i: int| 0 <= i < args.len() ==> (#[trigger] args[i]).len() > 0 && safe_text(args[i])
}

/// The wire tokens of `args`.
pub open spec fn arg_toks(args: Seq<Seq<char>>) -> Seq<Seq<char>> {
    args.map_values(|a: Seq<char>| quote_value_spec(a))
}

/// The argument part of a line is its argument tokens, spaced.
pub proof fn lemma_args_part(args: Seq<Seq<char>>)
    ensures
        args_part(args) == spaced(arg_toks(args)),
    decreases args.len(),
{
    if args.len() > 0 {
        lemma_args_part(args.drop_first());
        assert(arg_toks(args).drop_first() =~= arg_toks(args.drop_first()));
        assert(arg_toks(args)[0] == quote_value_spec(args[0]));
        assert(args_part(args) =~= spaced(arg_toks(args)));
    } else {
        assert(arg_toks(args) =~= Seq::<Seq<char>>::empty());
    }
}

/// The wire token of a safe argument is clean, has no line break, and
/// does not end with a line break.
pub proof fn lemma_arg_tok(a: Seq<char>)
    requires
        a.len() > 0,
        safe_text(a),
    ensures
        clean_tok(quote_value_spec(a)),
        no_nl(quote_value_spec(a)),
        strip_quotes_spec(quote_value_spec(a)) == a,
        quote_value_spec(a).len() > 0,
{
    let c = clean(a);
    lemma_clean_no_quote(a);
    crate::tree_laws::lemma_clean_id(a);
    lemma_value_back(a);
    if has_blank(c) {
        crate::tree_laws::lemma_clean_plain_quoted(Seq::empty(), c);
        assert(Seq::<char>::empty() + quoted(c) =~= quoted(c));
        assert forall|i: int| 0 <= i < quoted(c).len() implies #[trigger] quoted(c)[i] != '\n' && quoted(c)[i] != '\r' by {
            if 0 < i < quoted(c).len() - 1 {
                assert(quoted(c)[i] == c[i - 1]);
            }
        }
    } else {
        assert(plain(c));
        lemma_clean_plain(c);
    }
}

proof fn lemma_no_nl_spaced_args(ts: Seq<Seq<char>>)
    requires
        forall|i: int| 0 <= i < ts.len() ==> no_nl(#[trigger] ts[i]),
    ensures
        no_nl(spaced(ts)),
    decreases ts.len(),
{
    if ts.len() > 0 {
        assert(no_nl(ts[0]));
        assert forall|i: int| 0 <= i < ts.drop_first().len() implies no_nl(#[trigger] ts.drop_first()[i]) by {
            assert(ts.drop_first()[i] == ts[i + 1]);
        }
        lemma_no_nl_spaced_args(ts.drop_first());
        let s = spaced(ts);
        let r = spaced(ts.drop_first());
        assert forall|k: int| 0 <= k < s.len() implies #[trigger] s[k] != '\n' && s[k] != '\r' by {
            if k == 0 {
            } else if k <= ts[0].len() {
                assert(s[k] == ts[0][k - 1]);
            } else {
                assert(s[k] == r[k - 1 - ts[0].len()]);
            }
        }
    }
}

/// A code word followed by safe arguments: its tokens and its shape.
pub proof fn lemma_code_args_line(code: Seq<char>, args: Seq<Seq<char>>)
    requires
        code_word(code),
        safe_args(args),
    ensures
        tokens(seq![' '] + code + args_part(args)) == seq![code] + arg_toks(args),
        unquoted_all(arg_toks(args)) == args,
        no_nl(code + args_part(args)),
        (code + args_part(args)).len() > 0,
{
    lemma_args_part(args);
    let ts = seq![code] + arg_toks(args);
    lemma_code_word_clean(code);
    assert forall|i: int| 0 <= i < ts.len() implies clean_tok(#[trigger] ts[i]) && no_nl(ts[i]) by {
        if i > 0 {
            assert(ts[i] == quote_value_spec(args[i - 1]));
            assert(args[i - 1].len() > 0 && safe_text(args[i - 1]));
            lemma_arg_tok(args[i - 1]);
        }
    }
    assert(seq![code].drop_first() =~= Seq::<Seq<char>>::empty());
    crate::tree_laws::lemma_spaced_add(seq![code], arg_toks(args));
    assert(seq![code][0] == code);
    assert(spaced(Seq::<Seq<char>>::empty()) == Seq::<char>::empty());
    assert(spaced(seq![code]) =~= seq![' '] + code);
    assert(seq![' '] + code + args_part(args) =~= Seq::<char>::empty() + spaced(ts));
    lemma_tokens_spaced(Seq::empty(), ts);
    assert forall|i: int| 0 <= i < args.len() implies #[trigger] unquoted_all(arg_toks(args))[i] == args[i] by {
        lemma_arg_tok(args[i]);
    }
    assert(unquoted_all(arg_toks(args)) =~= args);
    lemma_no_nl_spaced_args(ts);
    assert(spaced(ts) =~= seq![' '] + (code + args_part(args)));
    assert forall|k: int| 0 <= k < (code + args_part(args)).len() implies #[trigger] (code + args_part(args))[k] != '\n'
        && (code + args_part(args))[k] != '\r' by {
        assert((code + args_part(args))[k] == spaced(ts)[k + 1]);
    }
}

/// Removing trailing line breaks from a line that ends with one, and
/// has no other, leaves its content.
pub proof fn lemma_trim_end_nl(c: Seq<char>)
    requires
        no_nl(c),
    ensures
        trim_end_nl(c + seq!['\n']) == c,
        trim_end_nl(c) == c,
{
    assert((c + seq!['\n']).drop_last() =~= c);
    if c.len() > 0 {
        assert(c.last() != '\n');
    }
    assert(trim_end_nl(c) == c);
    assert((c + seq!['\n']).last() == '\n');
    assert(trim_end_nl(c + seq!['\n']) == trim_end_nl(c));
}

/// Reading back a warning line with safe arguments gives the warning.
pub proof fn lemma_warning_round_trip(code: WarningCode, args: Seq<Seq<char>>)
    requires
        safe_args(args),
    ensures
        parse_warning_spec(warning_line(code, args)) == Ok::<(WarningCode, Seq<Seq<char>>), ParseErrorView>((code, args)),
        parse_warning_spec(warning_line(code, args).drop_last()) == Ok::<(WarningCode, Seq<Seq<char>>), ParseErrorView>(
            (code, args),
        ),
        no_nl(warning_line(code, args).drop_last()),
{
    lemma_warning_code_word(code);
    lemma_code_args_line(code.wire(), args);
    crate::codes::lemma_warning_code_from_wire(code);
    let c = seq!['?'] + (seq![' '] + code.wire() + args_part(args));
    assert(warning_line(code, args) =~= c + seq!['\n']);
    assert(warning_line(code, args).drop_last() =~= c);
    assert(no_nl(c)) by {
        assert forall|k: int| 0 <= k < c.len() implies #[trigger] c[k] != '\n' && c[k] != '\r' by {
            if k >= 2 {
                assert(c[k] == (code.wire() + args_part(args))[k - 2]);
            }
        }
    }
    lemma_trim_end_nl(c);
    assert(c.skip(1) =~= seq![' '] + code.wire() + args_part(args));
    let toks = seq![code.wire()] + arg_toks(args);
    assert(toks[0] == code.wire());
    assert(toks.skip(1) =~= arg_toks(args));
}

/// Reading back an envelope line gives the envelope, when its token has
/// eight bytes and its arguments are safe.
pub proof fn lemma_envelope_round_trip(e: EnvelopeView)
    requires
        e is Success ==> e->Success_0.len() == 8,
        e is Error ==> safe_args(e->args),
    ensures
        parse_envelope_spec(envelope_line(e)) == Ok::<EnvelopeView, ParseErrorView>(e),
        parse_envelope_spec(envelope_line(e).drop_last()) == Ok::<EnvelopeView, ParseErrorView>(e),
        no_nl(envelope_line(e).drop_last()),
        envelope_line(e).drop_last().len() > 0,
        envelope_line(e)[0] == '@' || envelope_line(e)[0] == '!',
{
    match e {
        EnvelopeView::Success(b) => {
            lemma_hex_round_trip(b);
            let c = seq!['@'] + hex_text(b);
            assert(envelope_line(e) =~= c + seq!['\n']);
            assert(envelope_line(e).drop_last() =~= c);
            assert(no_nl(c)) by {
                assert forall|k: int| 0 <= k < c.len() implies #[trigger] c[k] != '\n' && c[k] != '\r' by {
                    if k >= 1 {
                        assert(c[k] == hex_text(b)[k - 1]);
                        assert(is_hex_lower(hex_text(b)[k - 1]));
                    }
                }
            }
            lemma_trim_end_nl(c);
            assert(c.skip(1) =~= hex_text(b));
        },
        EnvelopeView::Error { code, args } => {
            lemma_error_code_word(code);
            lemma_code_args_line(code.wire(), args);
            crate::codes::lemma_error_code_from_wire(code);
            let c = seq!['!'] + (seq![' '] + code.wire() + args_part(args));
            assert(envelope_line(e) =~= c + seq!['\n']);
            assert(envelope_line(e).drop_last() =~= c);
            assert(no_nl(c)) by {
                assert forall|k: int| 0 <= k < c.len() implies #[trigger] c[k] != '\n' && c[k] != '\r' by {
                    if k >= 2 {
                        assert(c[k] == (code.wire() + args_part(args))[k - 2]);
                    }
                }
            }
            lemma_trim_end_nl(c);
            assert(c.skip(1) =~= seq![' '] + code.wire() + args_part(args));
            let toks = seq![code.wire()] + arg_toks(args);
            assert(toks[0] == code.wire());
            assert(toks.skip(1) =~= arg_toks(args));
        },
    }
}

/// The lines of warning lines followed by an envelope line.
pub open spec fn head_lines(ws: Seq<(WarningCode, Seq<Seq<char>>)>, e: EnvelopeView) -> Seq<Seq<char>> {
    ws.map_values(|w: (WarningCode, Seq<Seq<char>>)| warning_line(w.0, w.1).drop_last()) + seq![
        envelope_line(e).drop_last(),
    ]
}

proof fn lemma_head_lines(ws: Seq<(WarningCode, Seq<Seq<char>>)>, e: EnvelopeView)
    requires
        forall|i: int| 0 <= i < ws.len() ==> safe_args((#[trigger] ws[i]).1),
        e is Success ==> e->Success_0.len() == 8,
        e is Error ==> safe_args(e->args),
    ensures
        lines_spec(warning_lines(ws) + envelope_line(e)) == head_lines(ws, e),
    decreases ws.len(),
{
    lemma_envelope_round_trip(e);
    if ws.len() == 0 {
        let c = envelope_line(e).drop_last();
        assert(envelope_line(e) =~= c + seq!['\n']);
        lemma_lines_cons(c, Seq::empty());
        assert(c + seq!['\n'] + Seq::<char>::empty() =~= c + seq!['\n']);
        assert(lines_spec(Seq::<char>::empty()) == Seq::<Seq<char>>::empty());
        assert(warning_lines(ws) + envelope_line(e) =~= envelope_line(e));
        assert(head_lines(ws, e) =~= seq![c]);
    } else {
        assert forall|i: int| 0 <= i < ws.drop_first().len() implies safe_args((#[trigger] ws.drop_first()[i]).1) by {
            assert(ws.drop_first()[i] == ws[i + 1]);
        }
        lemma_head_lines(ws.drop_first(), e);
        assert(safe_args(ws[0].1));
        lemma_warning_round_trip(ws[0].0, ws[0].1);
        let w = warning_line(ws[0].0, ws[0].1);
        let c = w.drop_last();
        assert(w =~= c + seq!['\n']);
        let rest = warning_lines(ws.drop_first()) + envelope_line(e);
        lemma_lines_cons(c, rest);
        assert(warning_lines(ws) + envelope_line(e) =~= c + seq!['\n'] + rest);
        assert(head_lines(ws, e) =~= seq![c] + head_lines(ws.drop_first(), e));
    }
}

proof fn lemma_head_parse(ws: Seq<(WarningCode, Seq<Seq<char>>)>, e: EnvelopeView, k: int)
    requires
        0 <= k <= ws.len(),
        forall|i: int| 0 <= i < ws.len() ==> safe_args((#[trigger] ws[i]).1),
        e is Success ==> e->Success_0.len() == 8,
        e is Error ==> safe_args(e->args),
    ensures
        parse_head_from(head_lines(ws, e), k, ws.take(k)) == Ok::<
            (Seq<(WarningCode, Seq<Seq<char>>)>, EnvelopeView),
            ParseErrorView,
        >((ws, e)),
    decreases ws.len() - k,
{
    let ls = head_lines(ws, e);
    lemma_envelope_round_trip(e);
    if k == ws.len() {
        let l = envelope_line(e).drop_last();
        assert(ls[k] == l);
        assert(l[0] == envelope_line(e)[0]);
        assert(!crate::text::is_white_space(l[0]));
        assert(!all_white_space(l));
        assert(ws.take(k) =~= ws);
    } else {
        assert(safe_args(ws[k].1));
        lemma_warning_round_trip(ws[k].0, ws[k].1);
        let l = warning_line(ws[k].0, ws[k].1).drop_last();
        assert(ls[k] == l);
        assert(l[0] == '?');
        assert(!all_white_space(l));
        assert(ws.take(k).push((ws[k].0, ws[k].1)) =~= ws.take(k + 1));
        lemma_head_parse(ws, e, k + 1);
    }
}

/// Reading back an encoded response head gives its warnings and envelope,
/// when every argument is safe and the token has eight bytes.
pub proof fn lemma_head_round_trip(ws: Seq<(WarningCode, Seq<Seq<char>>)>, e: EnvelopeView)
    requires
        forall|i: int| 0 <= i < ws.len() ==> safe_args((#[trigger] ws[i]).1),
        e is Success ==> e->Success_0.len() == 8,
        e is Error ==> safe_args(e->args),
    ensures
        parse_head_from(lines_spec(warning_lines(ws) + envelope_line(e)), 0, Seq::empty()) == Ok::<
            (Seq<(WarningCode, Seq<Seq<char>>)>, EnvelopeView),
            ParseErrorView,
        >((ws, e)),
{
    lemma_head_lines(ws, e);
    lemma_head_parse(ws, e, 0);
    assert(ws.take(0) =~= Seq::<(WarningCode, Seq<Seq<char>>)>::empty());
}

#[verifier::rlimit(40)]
proof fn lemma_head_lines_then(ws: Seq<(WarningCode, Seq<Seq<char>>)>, e: EnvelopeView, body: Seq<char>)
    requires
        forall|i: int| 0 <= i < ws.len() ==> safe_args((#[trigger] ws[i]).1),
        e is Success ==> e->Success_0.len() == 8,
        e is Error ==> safe_args(e->args),
    ensures
        lines_spec(warning_lines(ws) + envelope_line(e) + body) == head_lines(ws, e) + lines_spec(body),
    decreases ws.len(),
{
    lemma_envelope_round_trip(e);
    if ws.len() == 0 {
        let c = envelope_line(e).drop_last();
        assert(envelope_line(e) =~= c + seq!['\n']);
        lemma_lines_cons(c, body);
        assert(warning_lines(ws) + envelope_line(e) + body =~= c + seq!['\n'] + body);
        assert(head_lines(ws, e) =~= seq![c]);
    } else {
        assert forall|i: int| 0 <= i < ws.drop_first().len() implies safe_args((#[trigger] ws.drop_first()[i]).1) by {
            assert(ws.drop_first()[i] == ws[i + 1]);
        }
        lemma_head_lines_then(ws.drop_first(), e, body);
        assert(safe_args(ws[0].1));
        lemma_warning_round_trip(ws[0].0, ws[0].1);
        let w = warning_line(ws[0].0, ws[0].1);
        let c = w.drop_last();
        assert(w =~= c + seq!['\n']);
        let rest = warning_lines(ws.drop_first()) + envelope_line(e) + body;
        lemma_lines_cons(c, rest);
        assert(warning_lines(ws) + envelope_line(e) + body =~= c + seq!['\n'] + rest);
        assert(head_lines(ws, e) =~= seq![c] + head_lines(ws.drop_first(), e));
        assert(head_lines(ws, e) + lines_spec(body) =~= seq![c] + (head_lines(ws.drop_first(), e) + lines_spec(body)));
    }
}

proof fn lemma_head_parse_prefix(
    ls: Seq<Seq<char>>,
    ws: Seq<(WarningCode, Seq<Seq<char>>)>,
    e: EnvelopeView,
    k: int,
)
    requires
        0 <= k <= ws.len(),
        ls.len() > ws.len(),
        forall|i: int| 0 <= i <= ws.len() ==> #[trigger] ls[i] == head_lines(ws, e)[i],
        forall|i: int| 0 <= i < ws.len() ==> safe_args((#[trigger] ws[i]).1),
        e is Success ==> e->Success_0.len() == 8,
        e is Error ==> safe_args(e->args),
    ensures
        parse_head_from(ls, k, ws.take(k)) == Ok::<
            (Seq<(WarningCode, Seq<Seq<char>>)>, EnvelopeView),
            ParseErrorView,
        >((ws, e)),
    decreases ws.len() - k,
{
    lemma_envelope_round_trip(e);
    assert(ls[k] == head_lines(ws, e)[k]);
    if k == ws.len() {
        let l = envelope_line(e).drop_last();
        assert(ls[k] == l);
        assert(l[0] == envelope_line(e)[0]);
        assert(!crate::text::is_white_space(l[0]));
        assert(!all_white_space(l));
        assert(ws.take(k) =~= ws);
    } else {
        assert(safe_args(ws[k].1));
        lemma_warning_round_trip(ws[k].0, ws[k].1);
        let l = warning_line(ws[k].0, ws[k].1).drop_last();
        assert(ls[k] == l);
        assert(l[0] == '?');
        assert(!all_white_space(l));
        assert(ws.take(k).push((ws[k].0, ws[k].1)) =~= ws.take(k + 1));
        lemma_head_parse_prefix(ls, ws, e, k + 1);
    }
}

/// Reading back an encoded response head followed by any body gives its
/// warnings, in order, and its envelope: everything after the envelope
/// line is left alone. This holds when every argument is safe and the
/// token has eight bytes.
pub proof fn lemma_head_then_body(ws: Seq<(WarningCode, Seq<Seq<char>>)>, e: EnvelopeView, body: Seq<char>)
    requires
        forall|i: int| 0 <= i < ws.len() ==> safe_args((#[trigger] ws[i]).1),
        e is Success ==> e->Success_0.len() == 8,
        e is Error ==> safe_args(e->args),
    ensures
        parse_head_from(lines_spec(warning_lines(ws) + envelope_line(e) + body), 0, Seq::empty()) == Ok::<
            (Seq<(WarningCode, Seq<Seq<char>>)>, EnvelopeView),
            ParseErrorView,
        >((ws, e)),
{
    lemma_head_lines_then(ws, e, body);
    let ls = head_lines(ws, e) + lines_spec(body);
    assert forall|i: int| 0 <= i <= ws.len() implies #[trigger] ls[i] == head_lines(ws, e)[i] by {}
    lemma_head_parse_prefix(ls, ws, e, 0);
    assert(ws.take(0) =~= Seq::<(WarningCode, Seq<Seq<char>>)>::empty());
}

/// Input whose lines from `k` on are all blank or well-formed warning
/// lines holds no envelope: reading it is `InvalidEnvelope` with "no
/// envelope line found".
pub proof fn lemma_no_envelope_line(ls: Seq<Seq<char>>, k: int, ws: Seq<(WarningCode, Seq<Seq<char>>)>)
    requires
        0 <= k,
        forall|i: int| k <= i < ls.len() ==> all_white_space(#[trigger] ls[i]) || (ls[i][0] == '?'
            && parse_warning_spec(ls[i]) is Ok),
    ensures
        parse_head_from(ls, k, ws) == Err::<(Seq<(WarningCode, Seq<Seq<char>>)>, EnvelopeView), ParseErrorView>(
            ParseErrorView::InvalidEnvelope { detail: "no envelope line found"@ },
        ),
    decreases ls.len() - k,
{
    if k < ls.len() {
        let l = ls[k];
        if all_white_space(l) {
            lemma_no_envelope_line(ls, k + 1, ws);
        } else {
            lemma_no_envelope_line(ls, k + 1, ws.push(parse_warning_spec(l)->Ok_0));
        }
    }
}

} // verus!
