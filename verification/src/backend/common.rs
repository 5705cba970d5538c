//! Backend-shared helpers with no platform dependency: the role a
//! snapshot's role code stands for and the ops each role admits.

use vstd::prelude::*;

use crate::codes::{Op, Role};
use crate::engine::{Action, WaitCondition};
use crate::num::{dec, push_dec};
use crate::text::{ascii_lower, ascii_lowercase, chars_of, string_of};
use crate::inspector::StorageEntry;
use super::auth::CookieData;
use crate::attrs::{sorted_insert, Attrs};
use crate::tree::{node_view, nodes_view, lemma_nodes_view_edits, push_all, push_str, Node, NodeV, OpSet, Ref, Tree, tree_view};

verus! {

/// The role a snapshot role code stands for: the role whose wire code it
/// is, or `El` for any other code.
pub open spec fn role_named(s: Seq<char>) -> Role {
    match Role::from_wire(s) {
        Some(r) => r,
        None => Role::El,
    }
}

/// The role a snapshot role code stands for (see [`role_named`]).
pub fn parse_role(s: &str) -> (r: Role)
    ensures
        r == role_named(s@),
{
    match Role::parse(s) {
        Ok(r) => {
            proof {
                crate::codes::lemma_role_from_wire(r);
            }
            r
        },
        Err(_) => Role::El,
    }
}

/// The ops a node of role `role` admits: clicks and focus for buttons,
/// links, checkboxes and radios; fill and focus for text fields and
/// areas; focus for selects; submit for forms; none otherwise.
pub open spec fn role_ops(role: Role) -> OpSet {
    match role {
        Role::Btn | Role::Lnk | Role::Chk | Role::Rad => OpSet::none().with(Op::Click).with(Op::Focus),
        Role::Tf | Role::Ta => OpSet::none().with(Op::Fill).with(Op::Focus),
        Role::Sel => OpSet::none().with(Op::Focus),
        Role::Frm => OpSet::none().with(Op::Submit),
        _ => OpSet::none(),
    }
}

/// The ops a node of role `role` admits (see [`role_ops`]).
pub fn ops_for_role(role: Role) -> (s: OpSet)
    ensures
        s == role_ops(role),
{
    let mut s = OpSet::new();
    match role {
        Role::Btn | Role::Lnk | Role::Chk | Role::Rad => {
            s.insert(Op::Click);
            s.insert(Op::Focus);
        },
        Role::Tf | Role::Ta => {
            s.insert(Op::Fill);
            s.insert(Op::Focus);
        },
        Role::Sel => {
            s.insert(Op::Focus);
        },
        Role::Frm => {
            s.insert(Op::Submit);
        },
        _ => {},
    }
    s
}

/// Names what `serde_json::to_string` writes for a string: its JSON
/// string literal; `None` when serialization fails.
pub uninterp spec fn json_string_literal(s: Seq<char>) -> Option<Seq<char>>;

/// `serde_json::to_string` of a string.
#[verifier::external_body]
fn json_string_of(s: &str) -> (r: Option<String>)
    ensures
        match r {
            Some(q) => json_string_literal(s@) == Some(q@),
            None => json_string_literal(s@) == None::<Seq<char>>,
        },
{
    serde_json::to_string(s).ok()
}

/// The JSON literal of `s`, or `""` when it cannot be written.
pub open spec fn jq(s: Seq<char>) -> Seq<char> {
    match json_string_literal(s) {
        Some(q) => q,
        None => "\"\""@,
    }
}

/// [`jq`] in executable form.
pub fn json_string(s: &str) -> (r: Vec<char>)
    ensures
        r@ == jq(s@),
{
    match json_string_of(s) {
        Some(q) => chars_of(q.as_str()),
        None => chars_of("\"\""),
    }
}

/// The full mouse-click event sequence dispatched on the resolved
/// element `el`, at its centre, falling back to `el.click()`.
pub open spec fn click_sequence_js() -> Seq<char> {
    "const rc = el.getBoundingClientRect(); const x = rc.left + rc.width / 2, y = rc.top + rc.height / 2; const mk = (b) => ({ bubbles: true, cancelable: true, composed: true, view: window, clientX: x, clientY: y, screenX: x, screenY: y, button: 0, buttons: b }); const mkp = (b) => Object.assign(mk(b), { pointerId: 1, pointerType: 'mouse', isPrimary: true, width: 1, height: 1 }); try { el.dispatchEvent(new PointerEvent('pointerover', mkp(0))); el.dispatchEvent(new MouseEvent('mouseover', mk(0))); el.dispatchEvent(new PointerEvent('pointermove', mkp(0))); el.dispatchEvent(new PointerEvent('pointerdown', mkp(1))); el.dispatchEvent(new MouseEvent('mousedown', mk(1))); if (typeof el.focus === 'function') { try { el.focus(); } catch (e) {} } el.dispatchEvent(new PointerEvent('pointerup', mkp(0))); el.dispatchEvent(new MouseEvent('mouseup', mk(0))); el.dispatchEvent(new MouseEvent('click', mk(0))); } catch (e) { el.click(); } return 'ok';"@
}

/// The part of the act script that performs `action` on `el`.
pub open spec fn act_body_js(action: Action) -> Seq<char> {
    match action {
        Action::Click => click_sequence_js(),
        Action::Fill { value } => "el.focus(); if (el instanceof HTMLSelectElement) { var want = "@ + jq(value@) + "; var opt = Array.prototype.find.call(el.options, function(o){ return o.value === want || o.text === want || o.label === want; }) || Array.prototype.find.call(el.options, function(o){ return (o.text || '').trim() === (want || '').trim(); }); if (!opt) return 'err:no_matching_option'; var ss = Object.getOwnPropertyDescriptor(HTMLSelectElement.prototype, 'value').set; ss.call(el, opt.value); el.dispatchEvent(new Event('input', {bubbles: true})); el.dispatchEvent(new Event('change', {bubbles: true})); return 'ok'; } var p = (el instanceof HTMLTextAreaElement) ? HTMLTextAreaElement.prototype : (el instanceof HTMLInputElement ? HTMLInputElement.prototype : null); if (p) { Object.getOwnPropertyDescriptor(p, 'value').set.call(el, "@ + jq(value@) + "); } else { el.value = "@ + jq(value@) + "; } el.dispatchEvent(new Event('input', {bubbles: true})); el.dispatchEvent(new Event('change', {bubbles: true})); return 'ok';"@,
        Action::Scroll => "el.scrollIntoView({behavior: 'instant', block: 'center'}); return 'ok';"@,
        Action::Key { chord } => "el.focus(); el.dispatchEvent(new KeyboardEvent('keydown', {key: "@ + jq(chord@) + ", bubbles: true})); el.dispatchEvent(new KeyboardEvent('keyup', {key: "@ + jq(chord@) + ", bubbles: true})); return 'ok';"@,
        Action::Submit => "if (el.form) { el.form.submit(); } else if (typeof el.click === 'function') { el.click(); } return 'ok';"@,
        Action::Hover => "el.dispatchEvent(new MouseEvent('mouseenter', {bubbles: true})); el.dispatchEvent(new MouseEvent('mouseover', {bubbles: true})); return 'ok';"@,
        Action::Focus => "el.focus(); return 'ok';"@,
    }
}

/// The act script for ref `r`: find the element, answer
/// `err:not_found` when it is missing, else perform the action.
pub open spec fn act_js(r: Ref, action: Action) -> Seq<char> {
    "(function() { const el = (window.__vsFindRef ? window.__vsFindRef("@ + dec(r.0 as nat) + ") : null) || document.querySelector('[data-vs-ref=\""@ + dec(r.0 as nat) + "\"]'); if (!el) return 'err:not_found'; "@ + act_body_js(action) + " })()"@
}

fn act_body(action: &Action) -> (b: Vec<char>)
    ensures
        b@ == act_body_js(*action),
{
    let mut out: Vec<char> = Vec::new();
    match action {
        Action::Click => {
            push_str(&mut out, "const rc = el.getBoundingClientRect(); const x = rc.left + rc.width / 2, y = rc.top + rc.height / 2; const mk = (b) => ({ bubbles: true, cancelable: true, composed: true, view: window, clientX: x, clientY: y, screenX: x, screenY: y, button: 0, buttons: b }); const mkp = (b) => Object.assign(mk(b), { pointerId: 1, pointerType: 'mouse', isPrimary: true, width: 1, height: 1 }); try { el.dispatchEvent(new PointerEvent('pointerover', mkp(0))); el.dispatchEvent(new MouseEvent('mouseover', mk(0))); el.dispatchEvent(new PointerEvent('pointermove', mkp(0))); el.dispatchEvent(new PointerEvent('pointerdown', mkp(1))); el.dispatchEvent(new MouseEvent('mousedown', mk(1))); if (typeof el.focus === 'function') { try { el.focus(); } catch (e) {} } el.dispatchEvent(new PointerEvent('pointerup', mkp(0))); el.dispatchEvent(new MouseEvent('mouseup', mk(0))); el.dispatchEvent(new MouseEvent('click', mk(0))); } catch (e) { el.click(); } return 'ok';");
        },
        Action::Fill { value } => {
            let qv = json_string(value.as_str());
                push_str(&mut out, "el.focus(); if (el instanceof HTMLSelectElement) { var want = ");
                push_all(&mut out, &qv);
                push_str(&mut out, "; var opt = Array.prototype.find.call(el.options, function(o){ return o.value === want || o.text === want || o.label === want; }) || Array.prototype.find.call(el.options, function(o){ return (o.text || '').trim() === (want || '').trim(); }); if (!opt) return 'err:no_matching_option'; var ss = Object.getOwnPropertyDescriptor(HTMLSelectElement.prototype, 'value').set; ss.call(el, opt.value); el.dispatchEvent(new Event('input', {bubbles: true})); el.dispatchEvent(new Event('change', {bubbles: true})); return 'ok'; } var p = (el instanceof HTMLTextAreaElement) ? HTMLTextAreaElement.prototype : (el instanceof HTMLInputElement ? HTMLInputElement.prototype : null); if (p) { Object.getOwnPropertyDescriptor(p, 'value').set.call(el, ");
                push_all(&mut out, &qv);
                push_str(&mut out, "); } else { el.value = ");
                push_all(&mut out, &qv);
                push_str(&mut out, "; } el.dispatchEvent(new Event('input', {bubbles: true})); el.dispatchEvent(new Event('change', {bubbles: true})); return 'ok';");
        },
        Action::Scroll => {
            push_str(&mut out, "el.scrollIntoView({behavior: 'instant', block: 'center'}); return 'ok';");
        },
        Action::Key { chord } => {
            let qc = json_string(chord.as_str());
                push_str(&mut out, "el.focus(); el.dispatchEvent(new KeyboardEvent('keydown', {key: ");
                push_all(&mut out, &qc);
                push_str(&mut out, ", bubbles: true})); el.dispatchEvent(new KeyboardEvent('keyup', {key: ");
                push_all(&mut out, &qc);
                push_str(&mut out, ", bubbles: true})); return 'ok';");
        },
        Action::Submit => {
            push_str(&mut out, "if (el.form) { el.form.submit(); } else if (typeof el.click === 'function') { el.click(); } return 'ok';");
        },
        Action::Hover => {
            push_str(&mut out, "el.dispatchEvent(new MouseEvent('mouseenter', {bubbles: true})); el.dispatchEvent(new MouseEvent('mouseover', {bubbles: true})); return 'ok';");
        },
        Action::Focus => {
            push_str(&mut out, "el.focus(); return 'ok';");
        },
    }
    assert(out@ =~= act_body_js(*action));
    out
}

/// Build the act script for ref `r` (see [`act_js`]).
pub fn build_act_js(r: Ref, action: &Action) -> (s: String)
    ensures
        s@ == act_js(r, *action),
{
    let body = act_body(action);
    let mut dr: Vec<char> = Vec::new();
    push_dec(&mut dr, r.0 as u64);
    assert(dr@ =~= dec(r.0 as nat));
    let mut out: Vec<char> = Vec::new();
    push_str(&mut out, "(function() { const el = (window.__vsFindRef ? window.__vsFindRef(");
    push_all(&mut out, &dr);
    push_str(&mut out, ") : null) || document.querySelector('[data-vs-ref=\"");
    push_all(&mut out, &dr);
    push_str(&mut out, "\"]'); if (!el) return 'err:not_found'; ");
    push_all(&mut out, &body);
    push_str(&mut out, " })()");
    assert(out@ =~= act_js(r, *action));
    string_of(&out)
}

/// The predicate script polled for a wait condition: it answers `'1'`
/// once the condition holds and `'0'` before.
pub open spec fn wait_js(cond: WaitCondition) -> Seq<char> {
    match cond {
        WaitCondition::Stable => "(function() { return document.readyState === 'complete' ? '1' : '0'; })()"@,
        WaitCondition::Text(t) => "(function() { return document.body && document.body.innerText && document.body.innerText.indexOf("@ + jq(t@) + ") >= 0 ? '1' : '0'; })()"@,
        WaitCondition::RefAppears(r) => "(function() { const el = (window.__vsFindRef ? window.__vsFindRef("@ + dec(r.0 as nat) + ") : null) || document.querySelector('[data-vs-ref=\""@ + dec(r.0 as nat) + "\"]'); return el ? '1' : '0'; })()"@,
        WaitCondition::RefGone(r) => "(function() { const el = (window.__vsFindRef ? window.__vsFindRef("@ + dec(r.0 as nat) + ") : null) || document.querySelector('[data-vs-ref=\""@ + dec(r.0 as nat) + "\"]'); return el ? '0' : '1'; })()"@,
        WaitCondition::NetIdle => "(function() {\n              if (!window.__vsNetWatch) {\n                window.__vsNetWatch = { lastActivity: performance.now() };\n                if (window.PerformanceObserver) {\n                  try {\n                    var obs = new PerformanceObserver(function(list) {\n                      window.__vsNetWatch.lastActivity = performance.now();\n                    });\n                    obs.observe({ type: 'resource', buffered: true });\n                  } catch (e) {}\n                }\n                var origFetch = window.fetch;\n                if (origFetch) {\n                  window.fetch = function() {\n                    window.__vsNetWatch.lastActivity = performance.now();\n                    return origFetch.apply(this, arguments);\n                  };\n                }\n                var XHR = window.XMLHttpRequest;\n                if (XHR && XHR.prototype) {\n                  var origSend = XHR.prototype.send;\n                  XHR.prototype.send = function() {\n                    window.__vsNetWatch.lastActivity = performance.now();\n                    return origSend.apply(this, arguments);\n                  };\n                }\n              }\n              return (performance.now() - window.__vsNetWatch.lastActivity) > 500 ? '1' : '0';\n            })()"@,
        WaitCondition::TokenChange => "(function() {\n              if (!window.__vsTokWatch) {\n                window.__vsTokWatch = { changed: false };\n                try {\n                  var obs = new MutationObserver(function() {\n                    window.__vsTokWatch.changed = true;\n                  });\n                  obs.observe(document.documentElement, {\n                    subtree: true,\n                    childList: true,\n                    attributes: true,\n                    characterData: true,\n                  });\n                } catch (e) {}\n              }\n              return window.__vsTokWatch.changed ? '1' : '0';\n            })()"@,
    }
}

/// Build the predicate script for `cond` (see [`wait_js`]).
pub fn build_wait_predicate(cond: &WaitCondition) -> (s: String)
    ensures
        s@ == wait_js(*cond),
{
    let mut out: Vec<char> = Vec::new();
    match cond {
        WaitCondition::Stable => {
            push_str(&mut out, "(function() { return document.readyState === 'complete' ? '1' : '0'; })()");
        },
        WaitCondition::Text(t) => {
            let qt = json_string(t.as_str());
            push_str(&mut out, "(function() { return document.body && document.body.innerText && document.body.innerText.indexOf(");
            push_all(&mut out, &qt);
            push_str(&mut out, ") >= 0 ? '1' : '0'; })()");
        },
        WaitCondition::RefAppears(r) => {
            let mut dr: Vec<char> = Vec::new();
            push_dec(&mut dr, r.0 as u64);
            assert(dr@ =~= dec(r.0 as nat));
            push_str(&mut out, "(function() { const el = (window.__vsFindRef ? window.__vsFindRef(");
            push_all(&mut out, &dr);
            push_str(&mut out, ") : null) || document.querySelector('[data-vs-ref=\"");
            push_all(&mut out, &dr);
            push_str(&mut out, "\"]'); return el ? '1' : '0'; })()");
        },
        WaitCondition::RefGone(r) => {
            let mut dr: Vec<char> = Vec::new();
            push_dec(&mut dr, r.0 as u64);
            assert(dr@ =~= dec(r.0 as nat));
            push_str(&mut out, "(function() { const el = (window.__vsFindRef ? window.__vsFindRef(");
            push_all(&mut out, &dr);
            push_str(&mut out, ") : null) || document.querySelector('[data-vs-ref=\"");
            push_all(&mut out, &dr);
            push_str(&mut out, "\"]'); return el ? '0' : '1'; })()");
        },
        WaitCondition::NetIdle => {
            push_str(&mut out, "(function() {\n              if (!window.__vsNetWatch) {\n                window.__vsNetWatch = { lastActivity: performance.now() };\n                if (window.PerformanceObserver) {\n                  try {\n                    var obs = new PerformanceObserver(function(list) {\n                      window.__vsNetWatch.lastActivity = performance.now();\n                    });\n                    obs.observe({ type: 'resource', buffered: true });\n                  } catch (e) {}\n                }\n                var origFetch = window.fetch;\n                if (origFetch) {\n                  window.fetch = function() {\n                    window.__vsNetWatch.lastActivity = performance.now();\n                    return origFetch.apply(this, arguments);\n                  };\n                }\n                var XHR = window.XMLHttpRequest;\n                if (XHR && XHR.prototype) {\n                  var origSend = XHR.prototype.send;\n                  XHR.prototype.send = function() {\n                    window.__vsNetWatch.lastActivity = performance.now();\n                    return origSend.apply(this, arguments);\n                  };\n                }\n              }\n              return (performance.now() - window.__vsNetWatch.lastActivity) > 500 ? '1' : '0';\n            })()");
        },
        WaitCondition::TokenChange => {
            push_str(&mut out, "(function() {\n              if (!window.__vsTokWatch) {\n                window.__vsTokWatch = { changed: false };\n                try {\n                  var obs = new MutationObserver(function() {\n                    window.__vsTokWatch.changed = true;\n                  });\n                  obs.observe(document.documentElement, {\n                    subtree: true,\n                    childList: true,\n                    attributes: true,\n                    characterData: true,\n                  });\n                } catch (e) {}\n              }\n              return window.__vsTokWatch.changed ? '1' : '0';\n            })()");
        },
    }
    assert(out@ =~= wait_js(*cond));
    string_of(&out)
}

/// True when `n` occurs in `s`.
pub open spec fn contains_text(s: Seq<char>, n: Seq<char>) -> bool {
    exists|i: int| 0 <= i && i + n.len() <= s.len() && #[trigger] s.subrange(i, i + n.len()) == n
}

/// True when `n` occurs in `s`.
fn contains_chars(s: &[char], lit: &str) -> (b: bool)
    ensures
        b == contains_text(s@, lit@),
{
    let n = chars_of(lit);
    if n.len() > s.len() {
        return false;
    }
    let mut i: usize = 0;
    while i <= s.len() - n.len()
        invariant
            n@ == lit@,
            n.len() <= s.len(),
            i <= s.len() - n.len() + 1,
            forall|j: int| 0 <= j < i ==> #[trigger] s@.subrange(j, j + n@.len()) != n@,
        decreases s.len() - i,
    {
        let mut k: usize = 0;
        while k < n.len() && s[i + k] == n[k]
            invariant
                i + n.len() <= s.len(),
                k <= n.len(),
                forall|m: int| 0 <= m < k ==> s@[i + m] == n@[m],
            decreases n.len() - k,
        {
            k += 1;
        }
        if k == n.len() {
            assert(s@.subrange(i as int, i + n@.len()) =~= n@);
            return true;
        }
        assert(s@.subrange(i as int, i + n@.len())[k as int] != n@[k as int]);
        i += 1;
    }
    assert forall|j: int| 0 <= j && j + n@.len() <= s@.len() implies #[trigger] s@.subrange(j, j + n@.len()) != n@ by {
        assert(j < i);
    }
    false
}

/// Cookie names that look like credentials: their lower-case form holds
/// `session_id`, `auth`, `token`, `secret`, `password` or `csrf`.
pub open spec fn sensitive_name(name: Seq<char>) -> bool {
    let l = ascii_lower(name);
    contains_text(l, "session_id"@) || contains_text(l, "auth"@) || contains_text(l, "token"@)
        || contains_text(l, "secret"@) || contains_text(l, "password"@) || contains_text(l, "csrf"@)
}

/// The decimal text of a signed integer.
pub open spec fn signed_dec(x: i64) -> Seq<char> {
    if x < 0 {
        seq!['-'] + dec((-(x as int)) as nat)
    } else {
        dec(x as nat)
    }
}

/// The storage-entry flags of a cookie: `secure`, `httponly`,
/// `samesite=<lower-case value>` and `expires=<seconds>`, each when set.
pub open spec fn cookie_flags(c: CookieData) -> Seq<Seq<char>> {
    (if c.secure { seq!["secure"@] } else { Seq::empty() }) + (if c.http_only {
        seq!["httponly"@]
    } else {
        Seq::empty()
    }) + (match c.same_site {
        Some(ss) => seq!["samesite="@ + ascii_lower(ss@)],
        None => Seq::empty(),
    }) + (match c.expires_unix {
        Some(u) => seq!["expires="@ + signed_dec(u)],
        None => Seq::empty(),
    })
}

/// The texts of a sequence of strings.
pub open spec fn texts(v: Seq<String>) -> Seq<Seq<char>> {
    v.map_values(|s: String| s@)
}

fn push_signed_dec(out: &mut Vec<char>, x: i64)
    ensures
        final(out)@ == old(out)@ + signed_dec(x),
{
    if x < 0 {
        out.push('-');
        let m = (0i128 - x as i128) as u64;
        push_dec(out, m);
    } else {
        push_dec(out, x as u64);
    }
}

/// The flags of a cookie (see [`cookie_flags`]).
fn flags_of(c: &CookieData) -> (flags: Vec<String>)
    ensures
        texts(flags@) == cookie_flags(*c),
{
    let mut flags: Vec<String> = Vec::new();
    let ghost mut want: Seq<Seq<char>> = Seq::empty();
    if c.secure {
        flags.push(string_of(&chars_of("secure")));
        proof {
            want = want + seq!["secure"@];
        }
    }
    assert(texts(flags@) =~= want);
    if c.http_only {
        flags.push(string_of(&chars_of("httponly")));
        proof {
            want = want + seq!["httponly"@];
        }
    }
    assert(texts(flags@) =~= want);
    match &c.same_site {
        Some(ss) => {
            let mut t = chars_of("samesite=");
            let l = ascii_lowercase(&chars_of(ss.as_str()));
            push_all(&mut t, &l);
            flags.push(string_of(&t));
            proof {
                want = want + seq!["samesite="@ + ascii_lower(ss@)];
            }
        },
        None => {},
    }
    assert(texts(flags@) =~= want);
    match c.expires_unix {
        Some(u) => {
            let mut t = chars_of("expires=");
            push_signed_dec(&mut t, u);
            flags.push(string_of(&t));
            proof {
                want = want + seq!["expires="@ + signed_dec(u)];
            }
        },
        None => {},
    }
    assert(texts(flags@) =~= want);
    assert(want =~= cookie_flags(*c));
    flags
}

/// A cookie from the engine's cookie store as a storage entry, so the
/// storage inspection shows `HttpOnly` cookies that page script cannot
/// see.
pub fn cookie_to_storage_entry(c: &CookieData) -> (e: StorageEntry)
    ensures
        e.key@ == c.name@,
        e.value@ == c.value@,
        e.sensitive == sensitive_name(c.name@),
        texts(e.flags@) == cookie_flags(*c),
{
    let name = chars_of(c.name.as_str());
    let lower = ascii_lowercase(&name);
    let sensitive = contains_chars(&lower, "session_id") || contains_chars(&lower, "auth") || contains_chars(
        &lower,
        "token",
    ) || contains_chars(&lower, "secret") || contains_chars(&lower, "password") || contains_chars(&lower, "csrf");
    let flags = flags_of(c);
    StorageEntry { key: c.name.clone(), value: c.value.clone(), flags, sensitive }
}



// ---------------------------------------------------------------------
// Cookie changes.

/// What happened to a cookie between two reads of the cookie store.
#[derive(Debug, Clone, Copy, PartialEq, Eq, Structural)]
pub enum CookieAction {
    Added,
    Removed,
}

/// One change of the cookie store, numbered by `seq` and stamped with
/// the clock's reading in epoch milliseconds.
#[derive(Debug, Clone, PartialEq, Eq)]
pub struct CookieEvent {
    pub seq: u64,
    pub ts_ms: u64,
    pub action: CookieAction,
    pub name: String,
    pub domain: String,
    pub path: String,
    pub flags: Vec<String>,
}

/// A cookie's identity: its name, domain and path.
pub open spec fn cookie_key(c: CookieData) -> (Seq<char>, Seq<char>, Seq<char>) {
    (c.name@, c.domain@, c.path@)
}

/// True when some cookie of `cs` has the key `k`.
pub open spec fn holds_key(cs: Seq<CookieData>, k: (Seq<char>, Seq<char>, Seq<char>)) -> bool {
    exists|j: int| 0 <= j < cs.len() && #[trigger] cookie_key(cs[j]) == k
}

/// The cookies of `cs`, in order, whose key no cookie of `other` has.
pub open spec fn missing_from(cs: Seq<CookieData>, other: Seq<CookieData>) -> Seq<CookieData>
    decreases cs.len(),
{
    if cs.len() == 0 {
        Seq::empty()
    } else {
        let r = missing_from(cs.drop_last(), other);
        if holds_key(other, cookie_key(cs.last())) {
            r
        } else {
            r.push(cs.last())
        }
    }
}

/// The previous read, or none.
pub open spec fn read_or_empty(previous: Option<Seq<CookieData>>) -> Seq<CookieData> {
    match previous {
        Some(p) => p,
        None => Seq::empty(),
    }
}

/// The changes between two reads: the cookies of `current` whose key
/// the previous read lacks (all of them when there was none), then the
/// cookies of the previous read whose key `current` lacks.
pub open spec fn cookie_changes(previous: Option<Seq<CookieData>>, current: Seq<CookieData>) -> Seq<(CookieAction, CookieData)> {
    missing_from(current, read_or_empty(previous)).map_values(|c: CookieData| (CookieAction::Added, c))
        + missing_from(read_or_empty(previous), current).map_values(|c: CookieData| (CookieAction::Removed, c))
}

proof fn lemma_missing_contains(cs: Seq<CookieData>, other: Seq<CookieData>, c: CookieData)
    ensures
        missing_from(cs, other).contains(c) <==> cs.contains(c) && !holds_key(other, cookie_key(c)),
    decreases cs.len(),
{
    if cs.len() > 0 {
        let t = cs.drop_first();
        let init = cs.drop_last();
        lemma_missing_contains(init, other, c);
        let r = missing_from(init, other);
        if missing_from(cs, other).contains(c) {
            let k = choose|k: int| 0 <= k < missing_from(cs, other).len() && missing_from(cs, other)[k] == c;
            if holds_key(other, cookie_key(cs.last())) {
                assert(r.contains(c));
            } else if k < r.len() {
                assert(r[k] == c);
                assert(r.contains(c));
            } else {
                assert(c == cs.last());
                assert(cs[cs.len() - 1] == c);
            }
            if r.contains(c) {
                let m = choose|m: int| 0 <= m < init.len() && init[m] == c;
                assert(cs[m] == c);
            }
        }
        if cs.contains(c) && !holds_key(other, cookie_key(c)) {
            let m = choose|m: int| 0 <= m < cs.len() && cs[m] == c;
            if m < cs.len() - 1 {
                assert(init[m] == c);
                assert(r.contains(c));
                let k = choose|k: int| 0 <= k < r.len() && r[k] == c;
                if !holds_key(other, cookie_key(cs.last())) {
                    assert(r.push(cs.last())[k] == c);
                }
            } else {
                assert(cs.last() == c);
                assert(r.push(c)[r.len() as int] == c);
            }
        }
    }
}

/// Cookie changes are told apart by name, domain and path together: a
/// cookie of the current read is reported added exactly when no cookie
/// of the previous read (none when there was no previous read) has the
/// same name, the same domain and the same path, and a cookie of the
/// previous read is reported removed exactly when no cookie of the
/// current read has the same three. Cookies that differ only in domain
/// are different cookies.
pub proof fn lemma_cookie_changes_by_identity(
    previous: Option<Seq<CookieData>>,
    current: Seq<CookieData>,
    c: CookieData,
)
    ensures
        cookie_changes(previous, current).contains((CookieAction::Added, c)) <==> current.contains(c) && !exists|j: int|
            0 <= j < read_or_empty(previous).len() && (#[trigger] read_or_empty(previous)[j]).name@ == c.name@
                && read_or_empty(previous)[j].domain@ == c.domain@ && read_or_empty(previous)[j].path@ == c.path@,
        cookie_changes(previous, current).contains((CookieAction::Removed, c)) <==> read_or_empty(previous).contains(c)
            && !exists|j: int|
            0 <= j < current.len() && (#[trigger] current[j]).name@ == c.name@ && current[j].domain@ == c.domain@
                && current[j].path@ == c.path@,
{
    let p = read_or_empty(previous);
    let ad = missing_from(current, p);
    let rm = missing_from(p, current);
    let am = ad.map_values(|x: CookieData| (CookieAction::Added, x));
    let rmm = rm.map_values(|x: CookieData| (CookieAction::Removed, x));
    let ch = cookie_changes(previous, current);
    assert(ch == am + rmm);
    lemma_missing_contains(current, p, c);
    lemma_missing_contains(p, current, c);
    assert(holds_key(p, cookie_key(c)) <==> exists|j: int|
        0 <= j < p.len() && (#[trigger] p[j]).name@ == c.name@ && p[j].domain@ == c.domain@ && p[j].path@ == c.path@) by {
        if holds_key(p, cookie_key(c)) {
            let j = choose|j: int| 0 <= j < p.len() && #[trigger] cookie_key(p[j]) == cookie_key(c);
            assert(p[j].name@ == c.name@);
        }
        if exists|j: int|
            0 <= j < p.len() && (#[trigger] p[j]).name@ == c.name@ && p[j].domain@ == c.domain@ && p[j].path@ == c.path@ {
            let j = choose|j: int|
                0 <= j < p.len() && (#[trigger] p[j]).name@ == c.name@ && p[j].domain@ == c.domain@ && p[j].path@
                    == c.path@;
            assert(cookie_key(p[j]) == cookie_key(c));
        }
    }
    assert(holds_key(current, cookie_key(c)) <==> exists|j: int|
        0 <= j < current.len() && (#[trigger] current[j]).name@ == c.name@ && current[j].domain@ == c.domain@
            && current[j].path@ == c.path@) by {
        if holds_key(current, cookie_key(c)) {
            let j = choose|j: int| 0 <= j < current.len() && #[trigger] cookie_key(current[j]) == cookie_key(c);
            assert(current[j].name@ == c.name@);
        }
        if exists|j: int|
            0 <= j < current.len() && (#[trigger] current[j]).name@ == c.name@ && current[j].domain@ == c.domain@
                && current[j].path@ == c.path@ {
            let j = choose|j: int|
                0 <= j < current.len() && (#[trigger] current[j]).name@ == c.name@ && current[j].domain@ == c.domain@
                    && current[j].path@ == c.path@;
            assert(cookie_key(current[j]) == cookie_key(c));
        }
    }
    // Membership in the two halves of the changes.
    assert(ch.contains((CookieAction::Added, c)) <==> ad.contains(c)) by {
        if ch.contains((CookieAction::Added, c)) {
            let k = choose|k: int| 0 <= k < ch.len() && ch[k] == (CookieAction::Added, c);
            if k < am.len() {
                assert(am[k] == (CookieAction::Added, ad[k]));
                assert(ad[k] == c);
            } else {
                assert(ch[k] == rmm[k - am.len()]);
            }
        }
        if ad.contains(c) {
            let k = choose|k: int| 0 <= k < ad.len() && ad[k] == c;
            assert(ch[k] == am[k]);
        }
    }
    assert(ch.contains((CookieAction::Removed, c)) <==> rm.contains(c)) by {
        if ch.contains((CookieAction::Removed, c)) {
            let k = choose|k: int| 0 <= k < ch.len() && ch[k] == (CookieAction::Removed, c);
            if k < am.len() {
                assert(ch[k] == am[k]);
            } else {
                assert(ch[k] == rmm[k - am.len()]);
                assert(rm[k - am.len()] == c);
            }
        }
        if rm.contains(c) {
            let k = choose|k: int| 0 <= k < rm.len() && rm[k] == c;
            assert(ch[k + am.len()] == rmm[k]);
        }
    }
}

/// The event reports `action` on cookie `c` under `seq` at `ts`.
pub open spec fn event_is(ev: CookieEvent, action: CookieAction, c: CookieData, seq: int, ts: u64) -> bool {
    &&& ev.seq == seq
    &&& ev.ts_ms == ts
    &&& ev.action == action
    &&& ev.name@ == c.name@
    &&& ev.domain@ == c.domain@
    &&& ev.path@ == c.path@
    &&& texts(ev.flags@) == cookie_flags(c)
}

/// The events list `changes` in order, numbered from `first`.
pub open spec fn events_are(out: Seq<CookieEvent>, changes: Seq<(CookieAction, CookieData)>, first: int, ts: u64) -> bool {
    &&& out.len() == changes.len()
    &&& forall|k: int| 0 <= k < out.len() ==> event_is(#[trigger] out[k], changes[k].0, changes[k].1, first + k, ts)
}

proof fn lemma_missing_len(cs: Seq<CookieData>, other: Seq<CookieData>)
    ensures
        missing_from(cs, other).len() <= cs.len(),
    decreases cs.len(),
{
    if cs.len() > 0 {
        lemma_missing_len(cs.drop_last(), other);
    }
}

fn has_key(cs: &[CookieData], c: &CookieData) -> (b: bool)
    ensures
        b == holds_key(cs@, cookie_key(*c)),
{
    let mut j: usize = 0;
    while j < cs.len()
        invariant
            j <= cs.len(),
            forall|i: int| 0 <= i < j ==> cookie_key(#[trigger] cs@[i]) != cookie_key(*c),
        decreases cs.len() - j,
    {
        let d = &cs[j];
        if d.name == c.name && d.domain == c.domain && d.path == c.path {
            assert(cookie_key(cs@[j as int]) == cookie_key(*c));
            return true;
        }
        j += 1;
    }
    false
}

fn event_of(c: &CookieData, action: CookieAction, seq: u64, ts: u64) -> (ev: CookieEvent)
    ensures
        event_is(ev, action, *c, seq as int, ts),
{
    CookieEvent {
        seq,
        ts_ms: ts,
        action,
        name: c.name.clone(),
        domain: c.domain.clone(),
        path: c.path.clone(),
        flags: flags_of(c),
    }
}

/// Append to `out` an event for each cookie of `cs` whose key `other`
/// lacks, numbering them on from `next_seq`.
fn push_missing(
    out: &mut Vec<CookieEvent>,
    cs: &[CookieData],
    other: &[CookieData],
    action: CookieAction,
    next_seq: &mut u64,
    ts: u64,
)
    requires
        *old(next_seq) + cs@.len() <= u64::MAX,
    ensures
        *final(next_seq) == *old(next_seq) + missing_from(cs@, other@).len(),
        final(out)@.len() == old(out)@.len() + missing_from(cs@, other@).len(),
        final(out)@.take(old(out)@.len() as int) == old(out)@,
        events_are(
            final(out)@.skip(old(out)@.len() as int),
            missing_from(cs@, other@).map_values(|c: CookieData| (action, c)),
            *old(next_seq) + 1,
            ts,
        ),
{
    let ghost o0 = out@;
    let ghost s0 = *next_seq;
    let mut i: usize = 0;
    while i < cs.len()
        invariant
            i <= cs.len(),
            s0 + cs@.len() <= u64::MAX,
            out@.take(o0.len() as int) == o0,
            out@.len() == o0.len() + missing_from(cs@.take(i as int), other@).len(),
            *next_seq == s0 + missing_from(cs@.take(i as int), other@).len(),
            missing_from(cs@.take(i as int), other@).len() <= i,
            events_are(
                out@.skip(o0.len() as int),
                missing_from(cs@.take(i as int), other@).map_values(|c: CookieData| (action, c)),
                s0 + 1,
                ts,
            ),
        decreases cs.len() - i,
    {
        let ghost pre = missing_from(cs@.take(i as int), other@);
        assert(cs@.take(i + 1).drop_last() =~= cs@.take(i as int));
        assert(cs@.take(i + 1).last() == cs@[i as int]);
        let c = &cs[i];
        if !has_key(other, c) {
            *next_seq = *next_seq + 1;
            let ev = event_of(c, action, *next_seq, ts);
            let ghost before = out@;
            out.push(ev);
            proof {
                let now = missing_from(cs@.take(i + 1), other@);
                assert(now == pre.push(cs@[i as int]));
                assert(out@.skip(o0.len() as int) =~= before.skip(o0.len() as int).push(ev));
                assert(out@.take(o0.len() as int) =~= before.take(o0.len() as int));
                assert(now.map_values(|c: CookieData| (action, c)) =~= pre.map_values(|c: CookieData| (action, c)).push((action, *c)));
            }
        } else {
            assert(missing_from(cs@.take(i + 1), other@) == pre);
        }
        i += 1;
    }
    assert(cs@.take(cs@.len() as int) =~= cs@);
}

/// The cookies of a read, if there was one.
pub open spec fn read_view(previous: Option<&[CookieData]>) -> Option<Seq<CookieData>> {
    match previous {
        Some(p) => Some(p@),
        None => None,
    }
}

proof fn lemma_events_concat(
    out: Seq<CookieEvent>,
    n: int,
    a: Seq<(CookieAction, CookieData)>,
    b: Seq<(CookieAction, CookieData)>,
    first: int,
    ts: u64,
)
    requires
        0 <= n <= out.len(),
        events_are(out.take(n), a, first, ts),
        events_are(out.skip(n), b, first + n, ts),
    ensures
        events_are(out, a + b, first, ts),
{
    assert forall|k: int| 0 <= k < out.len() implies event_is(#[trigger] out[k], (a + b)[k].0, (a + b)[k].1, first + k, ts) by {
        if k < n {
            assert(out.take(n)[k] == out[k]);
        } else {
            assert(out.skip(n)[k - n] == out[k]);
        }
    }
}

/// The events between two reads of the cookie store (see
/// [`cookie_changes`]), numbered on from `next_seq` and stamped `now_ms`;
/// `next_seq` ends at the last number given.
pub fn diff_cookies_at(
    previous: Option<&[CookieData]>,
    current: &[CookieData],
    next_seq: &mut u64,
    now_ms: u64,
) -> (out: Vec<CookieEvent>)
    requires
        *old(next_seq) + current@.len() + read_or_empty(read_view(previous)).len() <= u64::MAX,
    ensures
        events_are(out@, cookie_changes(read_view(previous), current@), *old(next_seq) + 1, now_ms),
        *final(next_seq) == *old(next_seq) + cookie_changes(read_view(previous), current@).len(),
{
    let ghost s0 = *next_seq;
    let empty: Vec<CookieData> = Vec::new();
    let prev: &[CookieData] = match previous {
        Some(p) => p,
        None => empty.as_slice(),
    };
    assert(prev@ == read_or_empty(read_view(previous)));
    let mut out: Vec<CookieEvent> = Vec::new();
    push_missing(&mut out, current, prev, CookieAction::Added, next_seq, now_ms);
    let ghost out1 = out@;
    let ghost added = missing_from(current@, prev@).map_values(|c: CookieData| (CookieAction::Added, c));
    assert(out1.skip(0) =~= out1);
    proof {
        lemma_missing_len(current@, prev@);
    }
    match previous {
        Some(p) => {
            push_missing(&mut out, p, current, CookieAction::Removed, next_seq, now_ms);
            proof {
                let removed = missing_from(p@, current@).map_values(|c: CookieData| (CookieAction::Removed, c));
                lemma_events_concat(out@, out1.len() as int, added, removed, s0 + 1, now_ms);
            }
        },
        None => {
            proof {
                assert(missing_from(Seq::<CookieData>::empty(), current@) =~= Seq::<CookieData>::empty());
                assert(cookie_changes(read_view(previous), current@) =~= added);
            }
        },
    }
    out
}

/// `SystemTime::now().duration_since(UNIX_EPOCH)` in milliseconds; `None`
/// when the clock reads before the epoch. The clock is read, so nothing
/// is claimed of the value.
#[verifier::external_body]
fn millis_since_epoch() -> Option<u128> {
    std::time::SystemTime::now().duration_since(std::time::UNIX_EPOCH).ok().map(|d| d.as_millis())
}

/// The stamp of a clock reading: its milliseconds, or 0 for a reading
/// before the epoch or past `u64::MAX`.
pub open spec fn stamp_millis(reading: Option<u128>) -> u64 {
    match reading {
        Some(ms) => if ms <= u64::MAX {
            ms as u64
        } else {
            0
        },
        None => 0,
    }
}

fn stamp_of_reading(reading: Option<u128>) -> (t: u64)
    ensures
        t == stamp_millis(reading),
{
    match reading {
        Some(ms) => if ms <= 0xffff_ffff_ffff_ffffu128 {
            ms as u64
        } else {
            0
        },
        None => 0,
    }
}

/// The events between two reads of the cookie store, stamped with the
/// clock's current reading (see [`diff_cookies_at`]).
pub fn diff_cookies(previous: Option<&[CookieData]>, current: &[CookieData], next_seq: &mut u64) -> (out: Vec<
    CookieEvent,
>)
    requires
        *old(next_seq) + current@.len() + read_or_empty(read_view(previous)).len() <= u64::MAX,
    ensures
        exists|now: u64| #[trigger] events_are(out@, cookie_changes(read_view(previous), current@), *old(next_seq) + 1, now),
        *final(next_seq) == *old(next_seq) + cookie_changes(read_view(previous), current@).len(),
{
    let now = stamp_of_reading(millis_since_epoch());
    diff_cookies_at(previous, current, next_seq, now)
}

// ---------------------------------------------------------------------
// Snapshot decoding.

/// One node of a DOM snapshot as the snapshot walker emits it, by the
/// fields the decoder reads: ref number, role code, label, hidden mark
/// and children. A field is `None` where the record lacks it or holds a
/// value of another JSON type; `children` is empty where there is no
/// array of them.
pub struct SnapshotValue {
    pub r: Option<u64>,
    pub role: Option<String>,
    pub label: Option<String>,
    pub hid: Option<u64>,
    pub children: Vec<SnapshotValue>,
}

/// The attributes a snapshot record gives its node: `hid=1` when its
/// hidden mark is 1, none otherwise.
pub open spec fn snapshot_attrs(hid: Option<u64>) -> Seq<(Seq<char>, Seq<char>)> {
    if hid == Some(1u64) {
        sorted_insert(Seq::<(Seq<char>, Seq<char>)>::empty(), "hid"@, "1"@)
    } else {
        Seq::empty()
    }
}

/// The node a snapshot record stands for: `None` when it lacks a ref
/// that fits in 32 bits or a role code. The role is read from its code,
/// the ops follow from the role, a missing label is empty, and children
/// that stand for no node are dropped.
pub open spec fn snapshot_node(v: SnapshotValue) -> Option<NodeV>
    decreases v, 0nat,
{
    match v.r {
        Some(r) => match v.role {
            Some(role) => if r <= u32::MAX {
                Some(
                    NodeV {
                        r: r as u32,
                        role: role_named(role@),
                        label: match v.label {
                            Some(l) => l@,
                            None => Seq::empty(),
                        },
                        ops: role_ops(role_named(role@)),
                        attrs: snapshot_attrs(v.hid),
                        children: snapshot_children(v.children@),
                    },
                )
            } else {
                None
            },
            None => None,
        },
        None => None,
    }
}

/// The nodes a sequence of snapshot records stands for, in order, those
/// that stand for none left out.
pub open spec fn snapshot_children(s: Seq<SnapshotValue>) -> Seq<NodeV>
    decreases s, 1nat,
{
    if s.len() == 0 {
        Seq::empty()
    } else {
        snapshot_children(s.drop_last()) + match snapshot_node(s.last()) {
            Some(n) => seq![n],
            None => Seq::empty(),
        }
    }
}

/// Build the node a snapshot record stands for (see [`snapshot_node`]).
pub fn build_node(v: &SnapshotValue) -> (n: Option<Node>)
    ensures
        match n {
            Some(node) => snapshot_node(*v) == Some(node_view(node)),
            None => snapshot_node(*v) is None,
        },
    decreases v, 0nat,
{
    let r = match v.r {
        Some(r) => r,
        None => return None,
    };
    if r > 0xffff_ffffu64 {
        return None;
    }
    let role_s = match &v.role {
        Some(s) => s,
        None => return None,
    };
    let label = match &v.label {
        Some(l) => l.clone(),
        None => String::new(),
    };
    let role = parse_role(role_s.as_str());
    let children = build_children(&v.children);
    let mut attrs = Attrs::new();
    if v.hid == Some(1u64) {
        attrs.insert(string_of(&chars_of("hid")), string_of(&chars_of("1")));
    }
    let node = Node { r: Ref(r as u32), role, label, ops: ops_for_role(role), attrs, children };
    proof {
        reveal_strlit("hid");
        reveal_strlit("1");
    }
    assert(node_view(node) == snapshot_node(*v)->Some_0);
    Some(node)
}

/// Build the nodes a sequence of snapshot records stands for (see
/// [`snapshot_children`]).
pub fn build_children(vs: &Vec<SnapshotValue>) -> (out: Vec<Node>)
    ensures
        nodes_view(out@) == snapshot_children(vs@),
    decreases vs, 1nat,
{
    let mut out: Vec<Node> = Vec::new();
    let mut i: usize = 0;
    while i < vs.len()
        invariant
            i <= vs.len(),
            nodes_view(out@) == snapshot_children(vs@.take(i as int)),
        decreases vs.len() - i,
    {
        assert(decreases_to!(vs => vs@[i as int]));
        assert(vs@.take(i as int + 1).drop_last() =~= vs@.take(i as int));
        assert(vs@.take(i as int + 1).last() == vs@[i as int]);
        let ghost prev = out@;
        match build_node(&vs[i]) {
            Some(n) => {
                out.push(n);
                proof {
                    lemma_nodes_view_edits(prev, prev, 0, n);
                    assert(out@ =~= prev.push(n));
                }
            },
            None => {},
        }
        i += 1;
    }
    assert(vs@.take(i as int) =~= vs@);
    out
}

/// The tree a decoded snapshot stands for: its root record's node as the
/// only root, or the error `missing root` when the root record stands
/// for no node.
pub fn snapshot_tree(root: &SnapshotValue) -> (r: Result<Tree, String>)
    ensures
        match r {
            Ok(t) => snapshot_node(*root) matches Some(n) && tree_view(t) == seq![n],
            Err(e) => snapshot_node(*root) is None && e@ == "missing root"@,
        },
{
    match build_node(root) {
        Some(n) => {
            let mut roots: Vec<Node> = Vec::new();
            roots.push(n);
            let t = Tree { roots };
            proof {
                lemma_nodes_view_edits(Seq::<Node>::empty(), Seq::<Node>::empty(), 0, n);
                assert(t.roots@ =~= Seq::<Node>::empty().push(n));
                assert(nodes_view(Seq::<Node>::empty()) =~= Seq::<NodeV>::empty());
            }
            Ok(t)
        },
        None => Err(string_of(&chars_of("missing root"))),
    }
}

} // verus!
