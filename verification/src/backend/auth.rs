//! The auth-blob schema shared across backends.
//!
//! The first schema carried cookies as one `document.cookie`-style
//! string, which cannot hold `HttpOnly` cookies; the second carries them
//! as structured records read from the engine's cookie store. Loaders
//! accept both, turning a first-schema blob's cookie string into records
//! with blank attributes.

use std::collections::BTreeMap;

use vstd::prelude::*;

use crate::text::{
    chars_of, find_char, find_char_from, find_from, lemma_find_from, string_of, trim, trim_spec,
};
use crate::tokenize::copy_range;

verus! {

/// One cookie as saved in an auth blob.
#[derive(Debug, Clone, PartialEq, Eq)]
pub struct CookieData {
    pub name: String,
    pub value: String,
    pub domain: String,
    pub path: String,
    /// Expiry in seconds since the epoch; `None` for a session cookie.
    pub expires_unix: Option<i64>,
    pub secure: bool,
    pub http_only: bool,
    /// `Strict`, `Lax` or `None` as the source spelled it; absent here
    /// when the source had none.
    pub same_site: Option<String>,
}

/// The second auth-blob schema: structured cookies plus the page's local
/// and session storage.
#[derive(Debug, Default, Clone)]
pub struct AuthBlobV2 {
    /// Schema version; always 2 on save.
    pub version: u32,
    /// URL the blob was captured against (informational).
    pub url: String,
    pub origin: String,
    pub cookies: Vec<CookieData>,
    pub local_storage: BTreeMap<String, String>,
    pub session_storage: BTreeMap<String, String>,
}

/// The first auth-blob schema, read for compatibility and never written.
#[derive(Debug, Default, Clone)]
pub struct AuthBlobV1 {
    pub cookies: String,
    pub local_storage: BTreeMap<String, String>,
    pub session_storage: BTreeMap<String, String>,
    pub url: String,
    pub origin: String,
}

/// `s` cut at every `c`, as `str::split` does: always at least one
/// piece, empty pieces kept.
pub open spec fn split_on(s: Seq<char>, c: char) -> Seq<Seq<char>>
    decreases s.len(),
{
    let i = find_from(s, c, 0);
    if i >= s.len() {
        seq![s]
    } else {
        proof {
            lemma_find_from(s, c, 0);
        }
        seq![s.take(i)] + split_on(s.skip(i + 1), c)
    }
}

/// The name and value of one trimmed, non-empty `document.cookie` piece:
/// split at the first `=` (no `=`: all name), each side trimmed.
pub open spec fn cookie_pair(t: Seq<char>) -> (Seq<char>, Seq<char>) {
    let j = find_from(t, '=', 0);
    if j >= t.len() {
        (trim_spec(t), Seq::empty())
    } else {
        (trim_spec(t.take(j)), trim_spec(t.skip(j + 1)))
    }
}

/// The name/value pairs of the pieces that are not blank after trimming.
pub open spec fn cookie_pairs(pieces: Seq<Seq<char>>) -> Seq<(Seq<char>, Seq<char>)>
    decreases pieces.len(),
{
    if pieces.len() == 0 {
        Seq::empty()
    } else {
        let rest = cookie_pairs(pieces.drop_first());
        let t = trim_spec(pieces[0]);
        if t.len() == 0 {
            rest
        } else {
            seq![cookie_pair(t)] + rest
        }
    }
}

/// The cookies a `document.cookie` string names: one per `;`-separated
/// piece that is not blank.
pub open spec fn document_cookie_pairs(s: Seq<char>) -> Seq<(Seq<char>, Seq<char>)> {
    cookie_pairs(split_on(s, ';'))
}

/// A cookie made from a name and value alone: no domain, path `/`, no
/// expiry and no attribute.
pub open spec fn bare_cookie(c: CookieData, pair: (Seq<char>, Seq<char>)) -> bool {
    &&& c.name@ == pair.0
    &&& c.value@ == pair.1
    &&& c.domain@ == Seq::<char>::empty()
    &&& c.path@ == "/"@
    &&& c.expires_unix is None
    &&& !c.secure
    &&& !c.http_only
    &&& c.same_site is None
}

proof fn lemma_cookie_pairs_cons(p: Seq<char>, rest: Seq<Seq<char>>)
    ensures
        cookie_pairs(seq![p] + rest) == if trim_spec(p).len() == 0 {
            cookie_pairs(rest)
        } else {
            seq![cookie_pair(trim_spec(p))] + cookie_pairs(rest)
        },
{
    assert((seq![p] + rest).drop_first() =~= rest);
    assert((seq![p] + rest)[0] == p);
}

fn bare_cookie_from(t: &[char]) -> (c: CookieData)
    ensures
        bare_cookie(c, cookie_pair(t@)),
{
    let j = find_char(t, '=');
    let (name, value) = if j >= t.len() {
        (trim(t), Vec::new())
    } else {
        let n = copy_range(t, 0, j);
        let v = copy_range(t, j + 1, t.len());
        proof {
            assert(n@ =~= t@.take(j as int));
            assert(v@ =~= t@.skip(j + 1));
        }
        (trim(&n), trim(&v))
    };
    proof {
        reveal_strlit("/");
    }
    CookieData {
        name: string_of(&name),
        value: string_of(&value),
        domain: String::new(),
        path: string_of(&chars_of("/")),
        expires_unix: None,
        secure: false,
        http_only: false,
        same_site: None,
    }
}

/// Best-effort parse of a `document.cookie` string into cookies with
/// blank attributes (see [`document_cookie_pairs`] and [`bare_cookie`]).
pub fn parse_document_cookie_string(s: &str) -> (r: Vec<CookieData>)
    ensures
        r@.len() == document_cookie_pairs(s@).len(),
        forall|i: int| 0 <= i < r@.len() ==> bare_cookie(#[trigger] r@[i], document_cookie_pairs(s@)[i]),
{
    let v = chars_of(s);
    let mut out: Vec<CookieData> = Vec::new();
    let mut start: usize = 0;
    let ghost whole = cookie_pairs(split_on(v@, ';'));
    let ghost mut done: Seq<(Seq<char>, Seq<char>)> = Seq::empty();
    assert(v@.skip(0) =~= v@);
    loop
        invariant_except_break
            done + cookie_pairs(split_on(v@.skip(start as int), ';')) == whole,
        invariant
            start <= v@.len(),
            v@ == s@,
            whole == cookie_pairs(split_on(v@, ';')),
            out@.len() == done.len(),
            forall|i: int| 0 <= i < out@.len() ==> bare_cookie(#[trigger] out@[i], done[i]),
        ensures
            done == whole,
        decreases v@.len() - start,
    {
        let ghost rest = v@.skip(start as int);
        let end = find_char_from(&v, ';', start);
        let piece = copy_range(&v, start, end);
        let t = trim(&piece);
        proof {
            lemma_find_from(rest, ';', 0);
            assert(piece@ =~= rest.take(end - start));
        }
        let ghost before = done;
        if t.len() > 0 {
            let c = bare_cookie_from(&t);
            out.push(c);
            proof {
                done = done.push(cookie_pair(t@));
            }
        }
        proof {
            if end < v.len() {
                assert(split_on(rest, ';') == seq![rest.take(end - start)] + split_on(rest.skip(end - start + 1), ';'));
                assert(rest.skip(end - start + 1) =~= v@.skip(end + 1));
                lemma_cookie_pairs_cons(piece@, split_on(v@.skip(end + 1), ';'));
            } else {
                assert(rest.take(end - start) =~= rest);
                assert(split_on(rest, ';') == seq![rest]);
                assert(seq![rest] =~= seq![rest] + Seq::<Seq<char>>::empty());
                lemma_cookie_pairs_cons(piece@, Seq::empty());
                assert(cookie_pairs(Seq::<Seq<char>>::empty()) =~= Seq::<(Seq<char>, Seq<char>)>::empty());
            }
            if t@.len() > 0 {
                assert(done == before + seq![cookie_pair(t@)]);
            }
            assert forall|i: int| 0 <= i < out@.len() implies bare_cookie(#[trigger] out@[i], done[i]) by {
                if i < before.len() {
                    assert(done[i] == before[i]);
                }
            }
        }
        if end >= v.len() {
            proof {
                if t@.len() > 0 {
                    assert(before + seq![cookie_pair(t@)] =~= before + (seq![cookie_pair(t@)] + Seq::<(Seq<char>, Seq<char>)>::empty()));
                } else {
                    assert(before =~= before + Seq::<(Seq<char>, Seq<char>)>::empty());
                }
                assert(done == whole);
            }
            break;
        }
        proof {
            assert((before + seq![cookie_pair(t@)]) + cookie_pairs(split_on(v@.skip(end + 1), ';')) =~= before + (seq![cookie_pair(t@)] + cookie_pairs(split_on(v@.skip(end + 1), ';'))));
        }
        start = end + 1;
    }
    out
}

/// A first-schema blob in the second schema: the cookie string parsed
/// into bare cookies, everything else carried over.
pub fn from_v1(v1: AuthBlobV1) -> (r: AuthBlobV2)
    ensures
        r.version == 2,
        r.url == v1.url,
        r.origin == v1.origin,
        r.local_storage == v1.local_storage,
        r.session_storage == v1.session_storage,
        r.cookies@.len() == document_cookie_pairs(v1.cookies@).len(),
        forall|i: int| 0 <= i < r.cookies@.len() ==> bare_cookie(#[trigger] r.cookies@[i], document_cookie_pairs(v1.cookies@)[i]),
{
    let cookies = parse_document_cookie_string(v1.cookies.as_str());
    AuthBlobV2 {
        version: 2,
        url: v1.url,
        origin: v1.origin,
        cookies,
        local_storage: v1.local_storage,
        session_storage: v1.session_storage,
    }
}

} // verus!
