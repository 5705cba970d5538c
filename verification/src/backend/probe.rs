//! Probes that run a script in the page through the engine's script
//! evaluator and decode its JSON answer: evaluation of caller source,
//! storage listing, script listing and source, DOM detail of one ref,
//! and the act primitive.
//!
//! Each probe takes the evaluator as a closure, so the same decoding
//! serves every backend. An answer may come back wrapped in one level of
//! JSON string quoting, which is removed first. Decoding is lenient
//! where the page's answer is only informative: a malformed answer
//! gives an empty result rather than an error.

use std::time::Duration;

use vstd::prelude::*;

use super::common::{act_js, build_act_js, jq, json_string};
use super::inspector_bridge::{
    json_array_items, json_array_items_at, json_bool, json_bool_at, json_decode_string,
    json_error_text, json_is_null, json_null_at, json_pairs, json_pairs_at, json_parse_error,
    json_parses, json_str, json_str_at, json_string_content, json_string_list,
    json_string_list_literal, json_u64, json_u64_at, opt_str, pair_view, JsonPair,
};
use crate::engine::{ActTarget, Action, EngineError};
use crate::humanize::keys::{duration_from_millis, millis_duration};
use crate::inspector::{
    DomDetail, EvalResult, ScriptEntry, ScriptSource, ScriptState, StorageEntry, StorageScope,
};
use crate::num::{dec, push_dec};
use crate::tree::Ref;
use crate::text::{chars_of, eq_lit, string_of};
use crate::tree::{push_all, push_str};

verus! {

/// The budget each probe script gets from the engine, in milliseconds.
pub const PROBE_BUDGET_MS: u64 = 5000;

/// Expression mode: `expr` is evaluated as one expression inside a
/// function and its outcome is reported as a tagged JSON record
/// (`ok` with `type` and `value`, `thrown` with `name` and `message`,
/// or `syntax` with `message`).
pub open spec fn eval_expression_js(expr: Seq<char>) -> Seq<char> {
    "(function() {\n            try {\n                var __v = (function() { return "@ + expr + "; })();\n                return JSON.stringify({\n                    kind: 'ok',\n                    type: typeof __v,\n                    value: (typeof __v === 'string') ? __v : JSON.stringify(__v),\n                });\n            } catch (e) {\n                var msg = (e && e.message) || String(e);\n                var name = (e && e.name) || 'Error';\n                if (name === 'SyntaxError') {\n                    return JSON.stringify({ kind: 'syntax', message: msg });\n                }\n                return JSON.stringify({ kind: 'thrown', name: name, message: msg });\n            }\n        })()"@
}

/// Program mode: the source is handed, as a JSON string literal, to an
/// indirect `eval`, which runs it as a program and yields the value of
/// its last statement; the outcome is reported as in expression mode.
pub open spec fn eval_program_js(expr: Seq<char>) -> Seq<char> {
    "(function() {\n            try {\n                var __v = (0, eval)("@ + jq(expr) + ");\n                return JSON.stringify({\n                    kind: 'ok',\n                    type: typeof __v,\n                    value: (typeof __v === 'string') ? __v : JSON.stringify(__v),\n                });\n            } catch (e) {\n                var msg = (e && e.message) || String(e);\n                var name = (e && e.name) || 'Error';\n                if (name === 'SyntaxError') {\n                    return JSON.stringify({ kind: 'syntax', message: msg });\n                }\n                return JSON.stringify({ kind: 'thrown', name: name, message: msg });\n            }\n        })()"@
}

fn eval_expression_script(expr: &str) -> (s: String)
    ensures
        s@ == eval_expression_js(expr@),
{
    let mut out: Vec<char> = Vec::new();
    push_str(&mut out, "(function() {\n            try {\n                var __v = (function() { return ");
    push_str(&mut out, expr);
    push_str(&mut out, "; })();\n                return JSON.stringify({\n                    kind: 'ok',\n                    type: typeof __v,\n                    value: (typeof __v === 'string') ? __v : JSON.stringify(__v),\n                });\n            } catch (e) {\n                var msg = (e && e.message) || String(e);\n                var name = (e && e.name) || 'Error';\n                if (name === 'SyntaxError') {\n                    return JSON.stringify({ kind: 'syntax', message: msg });\n                }\n                return JSON.stringify({ kind: 'thrown', name: name, message: msg });\n            }\n        })()");
    assert(out@ =~= eval_expression_js(expr@));
    string_of(&out)
}

fn eval_program_script(expr: &str) -> (s: String)
    ensures
        s@ == eval_program_js(expr@),
{
    let lit = json_string(expr);
    let mut out: Vec<char> = Vec::new();
    push_str(&mut out, "(function() {\n            try {\n                var __v = (0, eval)(");
    push_all(&mut out, &lit);
    push_str(&mut out, ");\n                return JSON.stringify({\n                    kind: 'ok',\n                    type: typeof __v,\n                    value: (typeof __v === 'string') ? __v : JSON.stringify(__v),\n                });\n            } catch (e) {\n                var msg = (e && e.message) || String(e);\n                var name = (e && e.name) || 'Error';\n                if (name === 'SyntaxError') {\n                    return JSON.stringify({ kind: 'syntax', message: msg });\n                }\n                return JSON.stringify({ kind: 'thrown', name: name, message: msg });\n            }\n        })()");
    assert(out@ =~= eval_program_js(expr@));
    string_of(&out)
}

/// What an evaluation comes to, by the characters of its texts;
/// `Failed` carries the message of an engine error.
pub enum EvalOutcome {
    Value { value: Seq<char>, js_type: Seq<char> },
    Thrown { kind: Seq<char>, message: Seq<char> },
    Syntax { message: Seq<char> },
    Failed { message: Seq<char> },
}

/// An evaluation result as an outcome; `None` for an engine error other
/// than [`EngineError::Other`].
pub open spec fn eval_view(r: Result<EvalResult, EngineError>) -> Option<EvalOutcome> {
    match r {
        Ok(EvalResult::Value { value, js_type }) => Some(EvalOutcome::Value { value: value@, js_type: js_type@ }),
        Ok(EvalResult::Thrown { kind, message }) => Some(EvalOutcome::Thrown { kind: kind@, message: message@ }),
        Ok(EvalResult::Syntax { message }) => Some(EvalOutcome::Syntax { message: message@ }),
        Err(EngineError::Other(m)) => Some(EvalOutcome::Failed { message: m@ }),
        Err(_) => None,
    }
}

/// The string found, or `d` when there is none.
pub open spec fn str_or(o: Option<Seq<char>>, d: Seq<char>) -> Seq<char> {
    match o {
        Some(s) => s,
        None => d,
    }
}

/// The text a probe answered, with one level of JSON string quoting
/// removed when the engine added it.
pub open spec fn unquoted(json: Seq<char>) -> Seq<char> {
    str_or(json_string_content(json), json)
}

/// The outcome a tagged evaluation record stands for. Text that does
/// not parse, or whose `kind` is none of `ok`, `thrown` and `syntax`,
/// is a failure; missing fields take their defaults (`undefined` for
/// type and value, `Error` for the thrown kind, empty messages).
pub open spec fn eval_json_outcome(json: Seq<char>) -> EvalOutcome {
    let u = unquoted(json);
    match json_error_text(u) {
        Some(e) => EvalOutcome::Failed { message: "eval: invalid wrapper json: "@ + e },
        None => {
            let kind = str_or(json_str_at(u, "kind"@), Seq::empty());
            if kind == "ok"@ {
                EvalOutcome::Value {
                    value: str_or(json_str_at(u, "value"@), "undefined"@),
                    js_type: str_or(json_str_at(u, "type"@), "undefined"@),
                }
            } else if kind == "thrown"@ {
                EvalOutcome::Thrown {
                    kind: str_or(json_str_at(u, "name"@), "Error"@),
                    message: str_or(json_str_at(u, "message"@), Seq::empty()),
                }
            } else if kind == "syntax"@ {
                EvalOutcome::Syntax { message: str_or(json_str_at(u, "message"@), Seq::empty()) }
            } else {
                EvalOutcome::Failed { message: "eval: unexpected kind "@ + kind }
            }
        },
    }
}

fn json_str_or(body: &str, key: &str, d: &str) -> (s: String)
    ensures
        s@ == str_or(json_str_at(body@, key@), d@),
{
    match json_str(body, key) {
        Some(v) => v,
        None => string_of(&chars_of(d)),
    }
}

pub(crate) fn unquote(json: &str) -> (s: String)
    ensures
        s@ == unquoted(json@),
{
    match json_decode_string(json) {
        Some(v) => v,
        None => string_of(&chars_of(json)),
    }
}

fn prefixed(prefix: &str, rest: &[char]) -> (s: String)
    ensures
        s@ == prefix@ + rest@,
{
    let mut out = chars_of(prefix);
    push_all(&mut out, rest);
    string_of(&out)
}

/// Decode the tagged record an evaluation wrapper answers (see
/// [`eval_json_outcome`]). An `Err` tells the caller that the wrapper
/// did not run as such, as with the bare `null` some engines return for
/// a script that does not compile.
pub fn parse_eval_json(json: &str) -> (r: Result<EvalResult, EngineError>)
    ensures
        eval_view(r) == Some(eval_json_outcome(json@)),
{
    let u = unquote(json);
    let body = u.as_str();
    if let Some(e) = json_parse_error(body) {
        let msg = prefixed("eval: invalid wrapper json: ", &chars_of(e.as_str()));
        assert(body@ == unquoted(json@));
        assert(json_error_text(body@) == Some(e@));
        assert(eval_json_outcome(json@) == (EvalOutcome::Failed { message: msg@ }));
        return Err(EngineError::Other(msg));
    }
    let kind = json_str_or(body, "kind", "");
    let kc = chars_of(kind.as_str());
    proof {
        reveal_strlit("ok");
        reveal_strlit("thrown");
        reveal_strlit("syntax");
        reveal_strlit("");
        assert(""@ =~= Seq::<char>::empty());
        assert("ok"@.len() != "thrown"@.len());
        assert("ok"@.len() != "syntax"@.len());
        assert("thrown"@[0] != "syntax"@[0]);
    }
    if eq_lit(&kc, "ok") {
        let js_type = json_str_or(body, "type", "undefined");
        let value = json_str_or(body, "value", "undefined");
        assert(json_error_text(body@) is None);
        assert(kind@ == "ok"@);
        assert(eval_json_outcome(json@) == (EvalOutcome::Value { value: value@, js_type: js_type@ }));
        Ok(EvalResult::Value { value, js_type })
    } else if eq_lit(&kc, "thrown") {
        let kind = json_str_or(body, "name", "Error");
        let message = json_str_or(body, "message", "");
        assert(json_error_text(body@) is None);
        assert(kc@ == "thrown"@);
        assert(eval_json_outcome(json@) == (EvalOutcome::Thrown { kind: kind@, message: message@ }));
        Ok(EvalResult::Thrown { kind, message })
    } else if eq_lit(&kc, "syntax") {
        let message = json_str_or(body, "message", "");
        assert(json_error_text(body@) is None);
        assert(kc@ == "syntax"@);
        assert(eval_json_outcome(json@) == (EvalOutcome::Syntax { message: message@ }));
        Ok(EvalResult::Syntax { message })
    } else {
        let msg = prefixed("eval: unexpected kind ", &kc);
        assert(eval_json_outcome(json@) == (EvalOutcome::Failed { message: msg@ }));
        Err(EngineError::Other(msg))
    }
}

/// True when an expression-mode answer settles the evaluation: the
/// engine answered and the answer is a tagged record.
pub open spec fn eval_settles(o: Result<String, EngineError>) -> bool {
    match o {
        Ok(j) => !(eval_json_outcome(j@) is Failed),
        Err(_) => false,
    }
}

/// Evaluate `expr` through the engine's script evaluator `eval`.
///
/// Expression mode runs first. When the engine refuses that wrapper, or
/// answers something that is not a tagged record (a statement block
/// such as `const a=1; f(); a` does not compile as an expression), the
/// source is run again in program mode, whose answer, or the engine's
/// error, is the result.
pub fn run_eval<F>(eval: F, expr: &str) -> (r: Result<EvalResult, EngineError>)
    where
        F: Fn(&str, Duration) -> Result<String, EngineError>,
    requires
        forall|s: &str, d: Duration| #[trigger] eval.requires((s, d)),
    ensures
        exists|s1: &str, o1: Result<String, EngineError>|
            #![trigger eval.ensures((s1, millis_duration(PROBE_BUDGET_MS)), o1)]
            {
                &&& s1@ == eval_expression_js(expr@)
                &&& eval.ensures((s1, millis_duration(PROBE_BUDGET_MS)), o1)
                &&& if eval_settles(o1) {
                    eval_view(r) == Some(eval_json_outcome(o1->Ok_0@))
                } else {
                    exists|s2: &str, o2: Result<String, EngineError>|
                        #![trigger eval.ensures((s2, millis_duration(PROBE_BUDGET_MS)), o2)]
                        {
                            &&& s2@ == eval_program_js(expr@)
                            &&& eval.ensures((s2, millis_duration(PROBE_BUDGET_MS)), o2)
                            &&& match o2 {
                                Ok(j) => eval_view(r) == Some(eval_json_outcome(j@)),
                                Err(e) => r == Err::<EvalResult, EngineError>(e),
                            }
                        }
                }
            },
{
    let script = eval_expression_script(expr);
    let first = eval(script.as_str(), duration_from_millis(PROBE_BUDGET_MS));
    if let Ok(json) = &first {
        let parsed = parse_eval_json(json.as_str());
        if parsed.is_ok() {
            return parsed;
        }
    }
    let program = eval_program_script(expr);
    let second = eval(program.as_str(), duration_from_millis(PROBE_BUDGET_MS));
    match second {
        Ok(j) => parse_eval_json(j.as_str()),
        Err(e) => Err(e),
    }
}


/// The name a storage scope goes by in the storage probe.
pub open spec fn probe_scope_name(scope: StorageScope) -> Seq<char> {
    match scope {
        StorageScope::Cookies => "cookies"@,
        StorageScope::Local => "local"@,
        StorageScope::Session => "session"@,
        StorageScope::IndexedDb => "indexeddb"@,
    }
}

/// The storage probe for `scope`: it lists the entries of the scope as a
/// JSON array of `{ key, value, sensitive }` records, where `sensitive`
/// marks credential-shaped keys. The cookie scope reads
/// `document.cookie`; the IndexedDB scope lists database names and
/// versions from the last snapshot and re-arms a refresh.
pub open spec fn storage_js(scope: StorageScope) -> Seq<char> {
    "(function() {\n            var scope = "@ + seq!['"'] + probe_scope_name(scope) + seq!['"'] + ";\n            function isSensitive(k) {\n                var lower = String(k).toLowerCase();\n                return lower.includes('session_id')\n                    || lower.includes('auth')\n                    || lower.includes('token')\n                    || lower.includes('secret')\n                    || lower.includes('password')\n                    || lower.includes('csrf');\n            }\n            var entries = [];\n            if (scope === 'cookies') {\n                var s = document.cookie || '';\n                var parts = s.split(';');\n                for (var i = 0; i < parts.length; i++) {\n                    var p = parts[i].trim();\n                    if (!p) continue;\n                    var idx = p.indexOf('=');\n                    var k = idx >= 0 ? p.slice(0, idx) : p;\n                    var v = idx >= 0 ? p.slice(idx + 1) : '';\n                    entries.push({ key: k, value: v, sensitive: isSensitive(k) });\n                }\n            } else if (scope === 'local') {\n                for (var i = 0; i < localStorage.length; i++) {\n                    var k = localStorage.key(i);\n                    var v = localStorage.getItem(k) || '';\n                    entries.push({ key: k, value: v, sensitive: isSensitive(k) });\n                }\n            } else if (scope === 'session') {\n                for (var i = 0; i < sessionStorage.length; i++) {\n                    var k = sessionStorage.key(i);\n                    var v = sessionStorage.getItem(k) || '';\n                    entries.push({ key: k, value: v, sensitive: isSensitive(k) });\n                }\n            } else if (scope === 'indexeddb') {\n                // indexedDB.databases() is async (returns a Promise)\n                // and WKWebView's evaluateJavaScript can't await it.\n                // Each call returns the last snapshot and re-arms a\n                // refresh, so call → settle → call converges on fresh\n                // data. (A one-shot watcher used to cache the first\n                // resolution forever — an empty list if queried before\n                // the page created its db.)\n                if (!window.__vsIdbList) {\n                    window.__vsIdbList = [];\n                }\n                if (indexedDB && indexedDB.databases) {\n                    try {\n                        indexedDB.databases().then(function(dbs) {\n                            window.__vsIdbList = dbs.map(function(d) {\n                                return { name: d.name || '', version: d.version || 0 };\n                            });\n                        });\n                    } catch (e) {}\n                }\n                for (var i = 0; i < window.__vsIdbList.length; i++) {\n                    var d = window.__vsIdbList[i];\n                    entries.push({\n                        key: d.name,\n                        value: String(d.version || ''),\n                        sensitive: false,\n                    });\n                }\n            }\n            return JSON.stringify(entries);\n        })()"@
}

fn storage_script(scope: StorageScope) -> (s: String)
    ensures
        s@ == storage_js(scope),
{
    let mut out: Vec<char> = Vec::new();
    push_str(&mut out, "(function() {\n            var scope = ");
    out.push('"');
    match scope {
        StorageScope::Cookies => push_str(&mut out, "cookies"),
        StorageScope::Local => push_str(&mut out, "local"),
        StorageScope::Session => push_str(&mut out, "session"),
        StorageScope::IndexedDb => push_str(&mut out, "indexeddb"),
    }
    out.push('"');
    push_str(&mut out, ";\n            function isSensitive(k) {\n                var lower = String(k).toLowerCase();\n                return lower.includes('session_id')\n                    || lower.includes('auth')\n                    || lower.includes('token')\n                    || lower.includes('secret')\n                    || lower.includes('password')\n                    || lower.includes('csrf');\n            }\n            var entries = [];\n            if (scope === 'cookies') {\n                var s = document.cookie || '';\n                var parts = s.split(';');\n                for (var i = 0; i < parts.length; i++) {\n                    var p = parts[i].trim();\n                    if (!p) continue;\n                    var idx = p.indexOf('=');\n                    var k = idx >= 0 ? p.slice(0, idx) : p;\n                    var v = idx >= 0 ? p.slice(idx + 1) : '';\n                    entries.push({ key: k, value: v, sensitive: isSensitive(k) });\n                }\n            } else if (scope === 'local') {\n                for (var i = 0; i < localStorage.length; i++) {\n                    var k = localStorage.key(i);\n                    var v = localStorage.getItem(k) || '';\n                    entries.push({ key: k, value: v, sensitive: isSensitive(k) });\n                }\n            } else if (scope === 'session') {\n                for (var i = 0; i < sessionStorage.length; i++) {\n                    var k = sessionStorage.key(i);\n                    var v = sessionStorage.getItem(k) || '';\n                    entries.push({ key: k, value: v, sensitive: isSensitive(k) });\n                }\n            } else if (scope === 'indexeddb') {\n                // indexedDB.databases() is async (returns a Promise)\n                // and WKWebView's evaluateJavaScript can't await it.\n                // Each call returns the last snapshot and re-arms a\n                // refresh, so call → settle → call converges on fresh\n                // data. (A one-shot watcher used to cache the first\n                // resolution forever — an empty list if queried before\n                // the page created its db.)\n                if (!window.__vsIdbList) {\n                    window.__vsIdbList = [];\n                }\n                if (indexedDB && indexedDB.databases) {\n                    try {\n                        indexedDB.databases().then(function(dbs) {\n                            window.__vsIdbList = dbs.map(function(d) {\n                                return { name: d.name || '', version: d.version || 0 };\n                            });\n                        });\n                    } catch (e) {}\n                }\n                for (var i = 0; i < window.__vsIdbList.length; i++) {\n                    var d = window.__vsIdbList[i];\n                    entries.push({\n                        key: d.name,\n                        value: String(d.version || ''),\n                        sensitive: false,\n                    });\n                }\n            }\n            return JSON.stringify(entries);\n        })()");
    assert(out@ =~= storage_js(scope));
    string_of(&out)
}

/// One storage entry as the probe reports it: key, value and the
/// sensitivity mark, by the characters of the texts.
pub open spec fn probe_entry(item: Seq<char>) -> (Seq<char>, Seq<char>, bool) {
    (
        str_or(json_str_at(item, "key"@), Seq::empty()),
        str_or(json_str_at(item, "value"@), Seq::empty()),
        match json_bool_at(item, "sensitive"@) {
            Some(b) => b,
            None => false,
        },
    )
}

/// The entries a storage probe answer stands for: one per element of
/// the array it holds, with empty key and value and no sensitivity mark
/// where the element lacks them; no entries when the answer is not an
/// array.
pub open spec fn probe_entries(json: Seq<char>) -> Seq<(Seq<char>, Seq<char>, bool)> {
    match json_array_items_at(unquoted(json)) {
        Some(items) => items.map_values(|it: Seq<char>| probe_entry(it)),
        None => Seq::empty(),
    }
}

/// Storage entries by key, value and sensitivity mark.
pub open spec fn entry_views(v: Seq<StorageEntry>) -> Seq<(Seq<char>, Seq<char>, bool)> {
    v.map_values(|e: StorageEntry| (e.key@, e.value@, e.sensitive))
}

/// True when no entry carries flags.
pub open spec fn no_flags(v: Seq<StorageEntry>) -> bool {
    forall|i: int| 0 <= i < v.len() ==> (#[trigger] v[i]).flags@.len() == 0
}

/// Decode the answer of the storage probe (see [`probe_entries`]).
/// Lenient: an answer that is not an array gives no entries.
pub fn parse_storage_entries(json: &str) -> (r: Vec<StorageEntry>)
    ensures
        entry_views(r@) == probe_entries(json@),
        no_flags(r@),
{
    let u = unquote(json);
    let items = match json_array_items(u.as_str()) {
        Some(items) => items,
        None => {
            assert(entry_views(Seq::<StorageEntry>::empty()) =~= probe_entries(json@));
            return Vec::new();
        },
    };
    let ghost want = items@.map_values(|t: String| t@).map_values(|it: Seq<char>| probe_entry(it));
    let mut out: Vec<StorageEntry> = Vec::new();
    let mut i: usize = 0;
    while i < items.len()
        invariant
            i <= items.len(),
            want.len() == items.len(),
            want == items@.map_values(|t: String| t@).map_values(|it: Seq<char>| probe_entry(it)),
            entry_views(out@) =~= want.take(i as int),
            no_flags(out@),
        decreases items.len() - i,
    {
        let item = items[i].as_str();
        proof {
            reveal_strlit("");
            assert(""@ =~= Seq::<char>::empty());
        }
        let key = json_str_or(item, "key", "");
        let value = json_str_or(item, "value", "");
        let sensitive = match json_bool(item, "sensitive") {
            Some(b) => b,
            None => false,
        };
        let ghost prev = out@;
        out.push(StorageEntry { key, value, flags: Vec::new(), sensitive });
        proof {
            assert(want[i as int] == probe_entry(items@[i as int]@));
            assert(entry_views(out@) =~= entry_views(prev).push(want[i as int]));
            assert(want.take(i as int + 1) =~= want.take(i as int).push(want[i as int]));
        }
        i += 1;
    }
    assert(want.take(i as int) =~= want);
    out
}

/// Read the entries of one storage scope through the engine's script
/// evaluator `eval`: the probe runs once and its answer is decoded; an
/// engine error is handed back as is.
pub fn run_storage<F>(eval: F, scope: StorageScope) -> (r: Result<Vec<StorageEntry>, EngineError>)
    where
        F: Fn(&str, Duration) -> Result<String, EngineError>,
    requires
        forall|s: &str, d: Duration| #[trigger] eval.requires((s, d)),
    ensures
        exists|s: &str, o: Result<String, EngineError>|
            #![trigger eval.ensures((s, millis_duration(PROBE_BUDGET_MS)), o)]
            {
                &&& s@ == storage_js(scope)
                &&& eval.ensures((s, millis_duration(PROBE_BUDGET_MS)), o)
                &&& match o {
                    Ok(j) => r matches Ok(v) && entry_views(v@) == probe_entries(j@) && no_flags(v@),
                    Err(e) => r == Err::<Vec<StorageEntry>, EngineError>(e),
                }
            },
{
    let js = storage_script(scope);
    let answer = eval(js.as_str(), duration_from_millis(PROBE_BUDGET_MS));
    match answer {
        Ok(j) => Ok(parse_storage_entries(j.as_str())),
        Err(e) => Err(e),
    }
}


// ---------------------------------------------------------------------
// The act primitive.

/// What the answer of an act script, after unquoting, stands for: `ok`
/// is success; `err:<rest>` is a ref that was not found, with `<rest>`
/// as its id; anything else is an unexpected answer.
pub open spec fn act_reply(u: Seq<char>, r: Result<(), EngineError>) -> bool {
    if u == "ok"@ {
        r is Ok
    } else if u.len() >= 4 && u.take(4) == "err:"@ {
        r matches Err(EngineError::NotFound { kind, id }) && kind@ == "ref"@ && id@ == u.skip(4)
    } else {
        r matches Err(EngineError::Other(m)) && m@ == "unexpected act result: "@ + u
    }
}

/// True when `v` begins with `lit`.
fn starts_with_lit(v: &[char], lit: &str) -> (b: bool)
    ensures
        b == (v@.len() >= lit@.len() && v@.take(lit@.len() as int) == lit@),
{
    let l = chars_of(lit);
    if v.len() < l.len() {
        return false;
    }
    let mut i: usize = 0;
    while i < l.len()
        invariant
            i <= l.len(),
            l.len() <= v.len(),
            l@ == lit@,
            forall|j: int| 0 <= j < i ==> v@[j] == l@[j],
        decreases l.len() - i,
    {
        if v[i] != l[i] {
            assert(v@.take(l@.len() as int)[i as int] != lit@[i as int]);
            return false;
        }
        i += 1;
    }
    assert(v@.take(l@.len() as int) =~= lit@);
    true
}

/// The characters of `v` from position `from` on.
fn chars_from(v: &[char], from: usize) -> (r: String)
    requires
        from <= v.len(),
    ensures
        r@ == v@.skip(from as int),
{
    let mut out: Vec<char> = Vec::new();
    let mut i: usize = from;
    while i < v.len()
        invariant
            from <= i <= v.len(),
            out@ == v@.subrange(from as int, i as int),
        decreases v.len() - i,
    {
        out.push(v[i]);
        i += 1;
        assert(out@ =~= v@.subrange(from as int, i as int));
    }
    assert(v@.subrange(from as int, v.len() as int) =~= v@.skip(from as int));
    string_of(&out)
}

/// Run the act primitive on `target` through `eval`. A mark target is
/// not served by the shared path and gives `NotImplemented` without a
/// script being run; a ref target runs the act script (see
/// [`act_js`]) and its answer decides (see [`act_reply`]).
pub fn run_act<F>(eval: F, target: &ActTarget, action: &Action) -> (r: Result<(), EngineError>)
    where
        F: Fn(&str, Duration) -> Result<String, EngineError>,
    requires
        forall|s: &str, d: Duration| #[trigger] eval.requires((s, d)),
    ensures
        match target {
            ActTarget::Mark(_) => r matches Err(EngineError::NotImplemented { engine, primitive })
                && engine@ == "shared"@ && primitive@ == "act:mark-target"@,
            ActTarget::Ref(rf) => exists|s: &str, o: Result<String, EngineError>|
                #![trigger eval.ensures((s, millis_duration(PROBE_BUDGET_MS)), o)]
                {
                    &&& s@ == act_js(*rf, *action)
                    &&& eval.ensures((s, millis_duration(PROBE_BUDGET_MS)), o)
                    &&& match o {
                        Ok(j) => act_reply(unquoted(j@), r),
                        Err(e) => r == Err::<(), EngineError>(e),
                    }
                },
        },
{
    let rf = match target {
        ActTarget::Ref(rf) => *rf,
        ActTarget::Mark(_) => {
            return Err(EngineError::NotImplemented { engine: "shared", primitive: "act:mark-target" });
        },
    };
    let js = build_act_js(rf, action);
    let answer = eval(js.as_str(), duration_from_millis(PROBE_BUDGET_MS));
    let json = match answer {
        Ok(j) => j,
        Err(e) => return Err(e),
    };
    let u = unquote(json.as_str());
    let uc = chars_of(u.as_str());
    proof {
        reveal_strlit("ok");
        reveal_strlit("err:");
    }
    if eq_lit(&uc, "ok") {
        Ok(())
    } else if starts_with_lit(&uc, "err:") {
        let id = chars_from(&uc, 4);
        Err(EngineError::NotFound { kind: "ref", id })
    } else {
        Err(EngineError::Other(prefixed("unexpected act result: ", &uc)))
    }
}

// ---------------------------------------------------------------------
// Scripts.

/// The script listing probe: one `{ seq, source, size }` record per
/// `<script>` element, `seq` counting from 1, `source` the URL or
/// `inline:doc[<index>]`, `size` the inline text length (0 for external
/// scripts).
pub open spec fn scripts_js() -> Seq<char> {
    "(function() {\n        var out = [];\n        var els = document.scripts;\n        for (var i = 0; i < els.length; i++) {\n            var s = els[i];\n            out.push({\n                seq: i + 1,\n                source: s.src ? s.src : ('inline:doc[' + i + ']'),\n                size: (s.src ? 0 : (s.text ? s.text.length : 0)),\n            });\n        }\n        return JSON.stringify(out);\n    })()"@
}

/// The number under `key`, or 0 when there is none.
pub open spec fn u64_or_zero(o: Option<u64>) -> u64 {
    match o {
        Some(n) => n,
        None => 0,
    }
}

/// One listed script as the probe reports it: sequence number, source
/// and size, zero and empty where absent.
pub open spec fn probe_script(item: Seq<char>) -> (u64, Seq<char>, u64) {
    (
        u64_or_zero(json_u64_at(item, "seq"@)),
        str_or(json_str_at(item, "source"@), Seq::empty()),
        u64_or_zero(json_u64_at(item, "size"@)),
    )
}

/// The scripts a listing answer stands for; none when the answer is not
/// an array.
pub open spec fn probe_scripts(json: Seq<char>) -> Seq<(u64, Seq<char>, u64)> {
    match json_array_items_at(unquoted(json)) {
        Some(items) => items.map_values(|it: Seq<char>| probe_script(it)),
        None => Seq::empty(),
    }
}

/// Script entries by sequence number, source and size.
pub open spec fn script_views(v: Seq<ScriptEntry>) -> Seq<(u64, Seq<char>, u64)> {
    v.map_values(|e: ScriptEntry| (e.seq, e.source@, e.size))
}

/// True when every entry is marked parsed.
pub open spec fn all_parsed(v: Seq<ScriptEntry>) -> bool {
    forall|i: int| 0 <= i < v.len() ==> (#[trigger] v[i]).state == ScriptState::Parsed
}

fn json_u64_or_zero(body: &str, key: &str) -> (n: u64)
    ensures
        n == u64_or_zero(json_u64_at(body@, key@)),
{
    match json_u64(body, key) {
        Some(v) => v,
        None => 0,
    }
}

/// Decode the answer of the script listing probe (see
/// [`probe_scripts`]); every script is reported as parsed.
pub fn parse_script_entries(json: &str) -> (r: Vec<ScriptEntry>)
    ensures
        script_views(r@) == probe_scripts(json@),
        all_parsed(r@),
{
    let u = unquote(json);
    let items = match json_array_items(u.as_str()) {
        Some(items) => items,
        None => {
            assert(script_views(Seq::<ScriptEntry>::empty()) =~= probe_scripts(json@));
            return Vec::new();
        },
    };
    let ghost want = items@.map_values(|t: String| t@).map_values(|it: Seq<char>| probe_script(it));
    let mut out: Vec<ScriptEntry> = Vec::new();
    let mut i: usize = 0;
    while i < items.len()
        invariant
            i <= items.len(),
            want.len() == items.len(),
            want == items@.map_values(|t: String| t@).map_values(|it: Seq<char>| probe_script(it)),
            script_views(out@) =~= want.take(i as int),
            all_parsed(out@),
        decreases items.len() - i,
    {
        let item = items[i].as_str();
        proof {
            reveal_strlit("");
            assert(""@ =~= Seq::<char>::empty());
        }
        let seq = json_u64_or_zero(item, "seq");
        let source = json_str_or(item, "source", "");
        let size = json_u64_or_zero(item, "size");
        let ghost prev = out@;
        out.push(ScriptEntry { seq, source, size, state: ScriptState::Parsed });
        proof {
            assert(want[i as int] == probe_script(items@[i as int]@));
            assert(script_views(out@) =~= script_views(prev).push(want[i as int]));
            assert(want.take(i as int + 1) =~= want.take(i as int).push(want[i as int]));
        }
        i += 1;
    }
    assert(want.take(i as int) =~= want);
    out
}

/// List the page's scripts through `eval` (see [`scripts_js`] and
/// [`parse_script_entries`]); an engine error is handed back as is.
pub fn run_scripts<F>(eval: F) -> (r: Result<Vec<ScriptEntry>, EngineError>)
    where
        F: Fn(&str, Duration) -> Result<String, EngineError>,
    requires
        forall|s: &str, d: Duration| #[trigger] eval.requires((s, d)),
    ensures
        exists|s: &str, o: Result<String, EngineError>|
            #![trigger eval.ensures((s, millis_duration(PROBE_BUDGET_MS)), o)]
            {
                &&& s@ == scripts_js()
                &&& eval.ensures((s, millis_duration(PROBE_BUDGET_MS)), o)
                &&& match o {
                    Ok(j) => r matches Ok(v) && script_views(v@) == probe_scripts(j@) && all_parsed(v@),
                    Err(e) => r == Err::<Vec<ScriptEntry>, EngineError>(e),
                }
            },
{
    let answer = eval("(function() {\n        var out = [];\n        var els = document.scripts;\n        for (var i = 0; i < els.length; i++) {\n            var s = els[i];\n            out.push({\n                seq: i + 1,\n                source: s.src ? s.src : ('inline:doc[' + i + ']'),\n                size: (s.src ? 0 : (s.text ? s.text.length : 0)),\n            });\n        }\n        return JSON.stringify(out);\n    })()", duration_from_millis(PROBE_BUDGET_MS));
    match answer {
        Ok(j) => Ok(parse_script_entries(j.as_str())),
        Err(e) => Err(e),
    }
}

/// The script source probe for the script numbered `seq` (from 1): it
/// answers `null` when there is no such script, else its URL (or
/// `inline:doc[<index>]`) and inline text.
pub open spec fn script_source_js(seq: u64) -> Seq<char> {
    "(function() {\n            var i = "@ + dec(seq as nat) + " - 1;\n            var s = document.scripts[i];\n            if (!s) return JSON.stringify(null);\n            return JSON.stringify({\n                source_url: s.src || ('inline:doc[' + i + ']'),\n                body: s.text || '',\n            });\n        })()"@
}

/// True when a probe answer, after unquoting, is not a JSON value or is
/// `null`: the probe found nothing.
pub open spec fn probe_found_nothing(json: Seq<char>) -> bool {
    !json_parses(unquoted(json)) || json_null_at(unquoted(json))
}

/// Decode the answer of the script source probe for script `seq`:
/// nothing when the probe found nothing, else the source URL and body,
/// empty where absent.
pub fn parse_script_source(json: &str, seq: u64) -> (r: Option<ScriptSource>)
    ensures
        probe_found_nothing(json@) <==> r is None,
        r matches Some(src) ==> {
            &&& src.seq == seq
            &&& src.source_url@ == str_or(json_str_at(unquoted(json@), "source_url"@), Seq::empty())
            &&& src.body@ == str_or(json_str_at(unquoted(json@), "body"@), Seq::empty())
        },
{
    let u = unquote(json);
    let body = u.as_str();
    if json_parse_error(body).is_some() || json_is_null(body) {
        return None;
    }
    proof {
        reveal_strlit("");
        assert(""@ =~= Seq::<char>::empty());
    }
    let source_url = json_str_or(body, "source_url", "");
    let text = json_str_or(body, "body", "");
    Some(ScriptSource { seq, source_url, body: text })
}

/// Read the source of script `seq` through `eval` (see
/// [`script_source_js`] and [`parse_script_source`]).
pub fn run_script_source<F>(eval: F, seq: u64) -> (r: Result<Option<ScriptSource>, EngineError>)
    where
        F: Fn(&str, Duration) -> Result<String, EngineError>,
    requires
        forall|s: &str, d: Duration| #[trigger] eval.requires((s, d)),
    ensures
        exists|s: &str, o: Result<String, EngineError>|
            #![trigger eval.ensures((s, millis_duration(PROBE_BUDGET_MS)), o)]
            {
                &&& s@ == script_source_js(seq)
                &&& eval.ensures((s, millis_duration(PROBE_BUDGET_MS)), o)
                &&& match o {
                    Ok(j) => r matches Ok(found) && (probe_found_nothing(j@) <==> found is None)
                        && (found matches Some(src) ==> {
                            &&& src.seq == seq
                            &&& src.source_url@ == str_or(json_str_at(unquoted(j@), "source_url"@), Seq::empty())
                            &&& src.body@ == str_or(json_str_at(unquoted(j@), "body"@), Seq::empty())
                        }),
                    Err(e) => r == Err::<Option<ScriptSource>, EngineError>(e),
                }
            },
{
    let mut out: Vec<char> = Vec::new();
    push_str(&mut out, "(function() {\n            var i = ");
    push_dec(&mut out, seq);
    push_str(&mut out, " - 1;\n            var s = document.scripts[i];\n            if (!s) return JSON.stringify(null);\n            return JSON.stringify({\n                source_url: s.src || ('inline:doc[' + i + ']'),\n                body: s.text || '',\n            });\n        })()");
    assert(out@ =~= script_source_js(seq));
    let js = string_of(&out);
    let answer = eval(js.as_str(), duration_from_millis(PROBE_BUDGET_MS));
    match answer {
        Ok(j) => Ok(parse_script_source(j.as_str(), seq)),
        Err(e) => Err(e),
    }
}

// ---------------------------------------------------------------------
// DOM detail.

/// The JSON array literal of the extra style properties, or `[]` when it
/// cannot be written.
pub open spec fn extras_literal(extra: Seq<Seq<char>>) -> Seq<char> {
    str_or(json_string_list_literal(extra), "[]"@)
}

/// The DOM probe for ref `r`: it finds the element (through the
/// snapshot's ref finder, else by its `data-vs-ref` attribute), answers
/// `null` when there is none, else its outer HTML and the computed
/// values of the default style properties followed by the extra ones,
/// each name once.
pub open spec fn dom_js(r: Ref, extra: Seq<Seq<char>>) -> Seq<char> {
    "(function() {\n            var el = (window.__vsFindRef ? window.__vsFindRef("@ + dec(r.0 as nat) + ") : null) || document.querySelector(`[data-vs-ref=\"${r}\"]`);\n            if (!el) return JSON.stringify(null);\n            var cs = getComputedStyle(el);\n            var defaultProps = ['display','visibility','position','color','background-color','font-size','z-index'];\n            var extras = "@ + extras_literal(extra) + ";\n            var seen = {};\n            var pairs = [];\n            for (var i = 0; i < defaultProps.length; i++) {\n                var k = defaultProps[i];\n                if (seen[k]) continue;\n                seen[k] = true;\n                pairs.push([k, cs.getPropertyValue(k)]);\n            }\n            for (var j = 0; j < extras.length; j++) {\n                var k = extras[j];\n                if (seen[k]) continue;\n                seen[k] = true;\n                pairs.push([k, cs.getPropertyValue(k)]);\n            }\n            return JSON.stringify({\n                outer_html: el.outerHTML,\n                computed: pairs,\n            });\n        })()"@
}

/// The pairs of `ps` that are present, with absent strings as empty.
pub open spec fn kept_pairs(ps: Seq<Option<(Option<Seq<char>>, Option<Seq<char>>)>>) -> Seq<(Seq<char>, Seq<char>)>
    decreases ps.len(),
{
    if ps.len() == 0 {
        Seq::empty()
    } else {
        kept_pairs(ps.drop_last()) + match ps.last() {
            Some(p) => seq![(str_or(p.0, Seq::empty()), str_or(p.1, Seq::empty()))],
            None => Seq::empty(),
        }
    }
}

/// The computed-style pairs a DOM answer holds: one per element of its
/// `computed` array that is itself an array, by its first two strings
/// (empty where absent).
pub open spec fn probe_computed(u: Seq<char>) -> Seq<(Seq<char>, Seq<char>)> {
    match json_pairs_at(u, "computed"@) {
        Some(ps) => kept_pairs(ps),
        None => Seq::empty(),
    }
}

/// String pairs by their characters.
pub open spec fn string_pairs(v: Seq<(String, String)>) -> Seq<(Seq<char>, Seq<char>)> {
    v.map_values(|p: (String, String)| (p.0@, p.1@))
}

fn string_or_empty(o: &Option<String>) -> (s: String)
    ensures
        s@ == str_or(opt_str(*o), Seq::empty()),
{
    match o {
        Some(v) => v.clone(),
        None => String::new(),
    }
}

/// Decode the answer of the DOM probe for ref `r`: nothing when the
/// probe found nothing, else the outer HTML (empty where absent) and the
/// computed-style pairs (see [`probe_computed`]).
pub fn parse_dom_detail(json: &str, r: Ref) -> (d: Option<DomDetail>)
    ensures
        probe_found_nothing(json@) <==> d is None,
        d matches Some(dd) ==> {
            &&& dd.r == r.0
            &&& dd.outer_html@ == str_or(json_str_at(unquoted(json@), "outer_html"@), Seq::empty())
            &&& string_pairs(dd.computed@) == probe_computed(unquoted(json@))
        },
{
    let u = unquote(json);
    let body = u.as_str();
    if json_parse_error(body).is_some() || json_is_null(body) {
        return None;
    }
    proof {
        reveal_strlit("");
        assert(""@ =~= Seq::<char>::empty());
    }
    let outer = json_str_or(body, "outer_html", "");
    let mut computed: Vec<(String, String)> = Vec::new();
    match json_pairs(body, "computed") {
        Some(ps) => {
            let ghost pv = ps@.map_values(|p: Option<JsonPair>| pair_view(p));
            let mut i: usize = 0;
            while i < ps.len()
                invariant
                    i <= ps.len(),
                    pv == ps@.map_values(|p: Option<JsonPair>| pair_view(p)),
                    string_pairs(computed@) =~= kept_pairs(pv.take(i as int)),
                decreases ps.len() - i,
            {
                let ghost prev = computed@;
                assert(pv.take(i as int + 1).drop_last() =~= pv.take(i as int));
                match &ps[i] {
                    Some(p) => {
                        let k = string_or_empty(&p.first);
                        let v = string_or_empty(&p.second);
                        computed.push((k, v));
                        assert(string_pairs(computed@) =~= string_pairs(prev).push(
                            (str_or(opt_str(p.first), Seq::empty()), str_or(opt_str(p.second), Seq::empty())),
                        ));
                    },
                    None => {
                        assert(string_pairs(computed@) =~= string_pairs(prev));
                    },
                }
                i += 1;
            }
            assert(pv.take(i as int) =~= pv);
        },
        None => {},
    }
    Some(DomDetail { r: r.0, outer_html: outer, computed })
}

/// Read the outer HTML and computed style of ref `r` through `eval` (see
/// [`dom_js`] and [`parse_dom_detail`]).
pub fn run_dom<F>(eval: F, r: Ref, extra_props: &[String]) -> (res: Result<Option<DomDetail>, EngineError>)
    where
        F: Fn(&str, Duration) -> Result<String, EngineError>,
    requires
        forall|s: &str, d: Duration| #[trigger] eval.requires((s, d)),
    ensures
        exists|s: &str, o: Result<String, EngineError>|
            #![trigger eval.ensures((s, millis_duration(PROBE_BUDGET_MS)), o)]
            {
                &&& s@ == dom_js(r, extra_props@.map_values(|t: String| t@))
                &&& eval.ensures((s, millis_duration(PROBE_BUDGET_MS)), o)
                &&& match o {
                    Ok(j) => res matches Ok(found) && (probe_found_nothing(j@) <==> found is None)
                        && (found matches Some(dd) ==> {
                            &&& dd.r == r.0
                            &&& dd.outer_html@ == str_or(json_str_at(unquoted(j@), "outer_html"@), Seq::empty())
                            &&& string_pairs(dd.computed@) == probe_computed(unquoted(j@))
                        }),
                    Err(e) => res == Err::<Option<DomDetail>, EngineError>(e),
                }
            },
{
    let extras = match json_string_list(extra_props) {
        Some(l) => chars_of(l.as_str()),
        None => chars_of("[]"),
    };
    let mut out: Vec<char> = Vec::new();
    push_str(&mut out, "(function() {\n            var el = (window.__vsFindRef ? window.__vsFindRef(");
    push_dec(&mut out, r.0 as u64);
    push_str(&mut out, ") : null) || document.querySelector(`[data-vs-ref=\"${r}\"]`);\n            if (!el) return JSON.stringify(null);\n            var cs = getComputedStyle(el);\n            var defaultProps = ['display','visibility','position','color','background-color','font-size','z-index'];\n            var extras = ");
    push_all(&mut out, &extras);
    push_str(&mut out, ";\n            var seen = {};\n            var pairs = [];\n            for (var i = 0; i < defaultProps.length; i++) {\n                var k = defaultProps[i];\n                if (seen[k]) continue;\n                seen[k] = true;\n                pairs.push([k, cs.getPropertyValue(k)]);\n            }\n            for (var j = 0; j < extras.length; j++) {\n                var k = extras[j];\n                if (seen[k]) continue;\n                seen[k] = true;\n                pairs.push([k, cs.getPropertyValue(k)]);\n            }\n            return JSON.stringify({\n                outer_html: el.outerHTML,\n                computed: pairs,\n            });\n        })()");
    assert(out@ =~= dom_js(r, extra_props@.map_values(|t: String| t@)));
    let js = string_of(&out);
    let answer = eval(js.as_str(), duration_from_millis(PROBE_BUDGET_MS));
    match answer {
        Ok(j) => Ok(parse_dom_detail(j.as_str(), r)),
        Err(e) => Err(e),
    }
}

} // verus!
