use std::cell::Cell;
use std::time::Duration;

use vibesurfer::backend::probe::{parse_eval_json, parse_storage_entries, run_eval, run_storage};
use vibesurfer::engine::EngineError;
use vibesurfer::inspector::{EvalResult, StorageScope};

// Program-mode wrappers contain `(0, eval)`; expression-mode ones do
// not. Tests use that to fake each engine's behavior per mode.
fn is_program_mode(js: &str) -> bool {
    js.contains("(0, eval)")
}

#[test]
fn single_expression_uses_expression_mode() {
    let eval = |js: &str, _b: Duration| -> Result<String, EngineError> {
        assert!(!is_program_mode(js), "should not reach program mode");
        Ok(r#"{"kind":"ok","type":"number","value":"2"}"#.to_string())
    };
    match run_eval(eval, "1 + 1").unwrap() {
        EvalResult::Value { value, .. } => assert_eq!(value, "2"),
        other => panic!("expected Ok(2), got {other:?}"),
    }
}

#[test]
fn webkit_err_triggers_program_fallback() {
    let eval = |js: &str, _b: Duration| -> Result<String, EngineError> {
        if is_program_mode(js) {
            Ok(r#"{"kind":"ok","type":"number","value":"6"}"#.to_string())
        } else {
            Err(EngineError::Other("SyntaxError: ...".into()))
        }
    };
    match run_eval(eval, "const a=2;\nconst b=3;\na*b").unwrap() {
        EvalResult::Value { value, .. } => assert_eq!(value, "6"),
        other => panic!("expected Ok(6), got {other:?}"),
    }
}

#[test]
fn webview2_null_triggers_program_fallback() {
    let eval = |js: &str, _b: Duration| -> Result<String, EngineError> {
        if is_program_mode(js) {
            Ok(r#"{"kind":"ok","type":"number","value":"6"}"#.to_string())
        } else {
            Ok("null".to_string())
        }
    };
    match run_eval(eval, "const a=2;\nconst b=3;\na*b").unwrap() {
        EvalResult::Value { value, .. } => assert_eq!(value, "6"),
        other => panic!("expected Ok(6), got {other:?}"),
    }
}

#[test]
fn eval_scripts_carry_the_source_and_the_budget() {
    let seen: Cell<u32> = Cell::new(0);
    let eval = |js: &str, budget: Duration| -> Result<String, EngineError> {
        assert_eq!(budget, Duration::from_secs(5));
        seen.set(seen.get() + 1);
        if is_program_mode(js) {
            assert!(js.contains("(0, eval)(\"x = \\\"q\\\"\")"), "{js}");
            Err(EngineError::Crashed)
        } else {
            assert!(js.contains("return x = \"q\"; })();"), "{js}");
            Err(EngineError::Closed)
        }
    };
    assert!(matches!(run_eval(eval, "x = \"q\""), Err(EngineError::Crashed)));
    assert_eq!(seen.get(), 2);
}

#[test]
fn eval_program_mode_error_record_is_the_result() {
    let eval = |js: &str, _b: Duration| -> Result<String, EngineError> {
        if is_program_mode(js) {
            Ok("\"{\\\"kind\\\":\\\"syntax\\\",\\\"message\\\":\\\"bad\\\"}\"".to_string())
        } else {
            Ok("null".to_string())
        }
    };
    match run_eval(eval, "}{").unwrap() {
        EvalResult::Syntax { message } => assert_eq!(message, "bad"),
        other => panic!("expected a syntax record, got {other:?}"),
    }
}

#[test]
fn parse_eval_json_records() {
    match parse_eval_json(r#"{"kind":"ok"}"#).unwrap() {
        EvalResult::Value { value, js_type } => {
            assert_eq!(value, "undefined");
            assert_eq!(js_type, "undefined");
        },
        other => panic!("{other:?}"),
    }
    match parse_eval_json(r#"{"kind":"thrown","message":"boom"}"#).unwrap() {
        EvalResult::Thrown { kind, message } => {
            assert_eq!(kind, "Error");
            assert_eq!(message, "boom");
        },
        other => panic!("{other:?}"),
    }
    match parse_eval_json(r#"{"kind":"thrown","name":"TypeError","message":"m"}"#).unwrap() {
        EvalResult::Thrown { kind, .. } => assert_eq!(kind, "TypeError"),
        other => panic!("{other:?}"),
    }
    match parse_eval_json(r#"{"kind":"syntax"}"#).unwrap() {
        EvalResult::Syntax { message } => assert_eq!(message, ""),
        other => panic!("{other:?}"),
    }
}

#[test]
fn parse_eval_json_failures() {
    match parse_eval_json("null") {
        Err(EngineError::Other(m)) => assert_eq!(m, "eval: unexpected kind "),
        other => panic!("{other:?}"),
    }
    match parse_eval_json(r#"{"kind":"weird"}"#) {
        Err(EngineError::Other(m)) => assert_eq!(m, "eval: unexpected kind weird"),
        other => panic!("{other:?}"),
    }
    match parse_eval_json("not json") {
        Err(EngineError::Other(m)) => assert!(m.starts_with("eval: invalid wrapper json: "), "{m}"),
        other => panic!("{other:?}"),
    }
}

#[test]
fn parse_storage_entries_reads_records() {
    let json = r#"[{"key":"session_id","value":"abc","sensitive":true},{"key":"theme"},{"value":3}]"#;
    let v = parse_storage_entries(json);
    assert_eq!(v.len(), 3);
    assert_eq!(v[0].key, "session_id");
    assert_eq!(v[0].value, "abc");
    assert!(v[0].sensitive);
    assert!(v[0].flags.is_empty());
    assert_eq!(v[1].key, "theme");
    assert_eq!(v[1].value, "");
    assert!(!v[1].sensitive);
    assert_eq!(v[2].key, "");
    assert_eq!(v[2].value, "");
}

#[test]
fn parse_storage_entries_unquotes_and_tolerates_garbage() {
    let quoted = "\"[{\\\"key\\\":\\\"k\\\",\\\"value\\\":\\\"v\\\"}]\"";
    let v = parse_storage_entries(quoted);
    assert_eq!(v.len(), 1);
    assert_eq!(v[0].key, "k");
    assert_eq!(v[0].value, "v");
    assert!(parse_storage_entries("garbage").is_empty());
    assert!(parse_storage_entries(r#"{"key":"k"}"#).is_empty());
}

#[test]
fn run_storage_names_the_scope() {
    let eval = |js: &str, budget: Duration| -> Result<String, EngineError> {
        assert_eq!(budget, Duration::from_secs(5));
        assert!(js.contains("var scope = \"local\";"), "{js}");
        Ok(r#"[{"key":"a","value":"b","sensitive":false}]"#.to_string())
    };
    let v = run_storage(eval, StorageScope::Local).unwrap();
    assert_eq!(v.len(), 1);
    assert_eq!(v[0].key, "a");
    let failing = |_js: &str, _b: Duration| -> Result<String, EngineError> { Err(EngineError::Closed) };
    assert!(matches!(run_storage(failing, StorageScope::Cookies), Err(EngineError::Closed)));
}

use vibesurfer::backend::probe::{
    parse_dom_detail, parse_script_entries, parse_script_source, run_act, run_dom, run_script_source,
    run_scripts,
};
use vibesurfer::engine::{ActTarget, Action};
use vibesurfer::inspector::ScriptState;
use vibesurfer::tree::Ref;

#[test]
fn act_mark_target_is_not_implemented_and_runs_nothing() {
    let eval = |_js: &str, _b: Duration| -> Result<String, EngineError> { panic!("no script expected") };
    match run_act(eval, &ActTarget::Mark("m".to_string()), &Action::Click) {
        Err(EngineError::NotImplemented { engine, primitive }) => {
            assert_eq!(engine, "shared");
            assert_eq!(primitive, "act:mark-target");
        },
        other => panic!("{other:?}"),
    }
}

#[test]
fn act_answers_decide_the_result() {
    let ok = |js: &str, _b: Duration| -> Result<String, EngineError> {
        assert!(js.contains("window.__vsFindRef(12)"), "{js}");
        Ok("\"ok\"".to_string())
    };
    assert!(run_act(ok, &ActTarget::Ref(Ref(12)), &Action::Focus).is_ok());
    let missing = |_js: &str, _b: Duration| -> Result<String, EngineError> { Ok("err:not_found".to_string()) };
    match run_act(missing, &ActTarget::Ref(Ref(3)), &Action::Click) {
        Err(EngineError::NotFound { kind, id }) => {
            assert_eq!(kind, "ref");
            assert_eq!(id, "not_found");
        },
        other => panic!("{other:?}"),
    }
    let odd = |_js: &str, _b: Duration| -> Result<String, EngineError> { Ok("maybe".to_string()) };
    match run_act(odd, &ActTarget::Ref(Ref(3)), &Action::Click) {
        Err(EngineError::Other(m)) => assert_eq!(m, "unexpected act result: maybe"),
        other => panic!("{other:?}"),
    }
    let down = |_js: &str, _b: Duration| -> Result<String, EngineError> { Err(EngineError::Crashed) };
    assert!(matches!(run_act(down, &ActTarget::Ref(Ref(3)), &Action::Click), Err(EngineError::Crashed)));
}

#[test]
fn script_listing_decodes_records() {
    let json = r#"[{"seq":1,"source":"https://x/a.js","size":0},{"seq":2,"source":"inline:doc[1]","size":42},{}]"#;
    let v = parse_script_entries(json);
    assert_eq!(v.len(), 3);
    assert_eq!(v[0].seq, 1);
    assert_eq!(v[0].source, "https://x/a.js");
    assert_eq!(v[1].size, 42);
    assert_eq!(v[2].seq, 0);
    assert_eq!(v[2].source, "");
    assert!(v.iter().all(|e| e.state == ScriptState::Parsed));
    assert!(parse_script_entries("oops").is_empty());
    let eval = |js: &str, _b: Duration| -> Result<String, EngineError> {
        assert!(js.contains("document.scripts"), "{js}");
        Ok(r#"[{"seq":7,"source":"s","size":1}]"#.to_string())
    };
    let listed = run_scripts(eval).unwrap();
    assert_eq!(listed.len(), 1);
    assert_eq!(listed[0].seq, 7);
}

#[test]
fn script_source_decodes_or_finds_nothing() {
    assert!(parse_script_source("null", 2).is_none());
    assert!(parse_script_source("\"null\"", 2).is_none());
    assert!(parse_script_source("{", 2).is_none());
    let s = parse_script_source(r#"{"source_url":"inline:doc[0]","body":"let a = 1;"}"#, 1).unwrap();
    assert_eq!(s.seq, 1);
    assert_eq!(s.source_url, "inline:doc[0]");
    assert_eq!(s.body, "let a = 1;");
    let t = parse_script_source("{}", 4).unwrap();
    assert_eq!(t.source_url, "");
    assert_eq!(t.body, "");
    let eval = |js: &str, _b: Duration| -> Result<String, EngineError> {
        assert!(js.contains("var i = 3 - 1;"), "{js}");
        Ok("null".to_string())
    };
    assert!(run_script_source(eval, 3).unwrap().is_none());
}

#[test]
fn dom_detail_decodes_pairs() {
    let json = r#"{"outer_html":"<b>x</b>","computed":[["display","block"],"junk",["color"]]}"#;
    let d = parse_dom_detail(json, Ref(9)).unwrap();
    assert_eq!(d.r, 9);
    assert_eq!(d.outer_html, "<b>x</b>");
    assert_eq!(
        d.computed,
        vec![("display".to_string(), "block".to_string()), ("color".to_string(), String::new())]
    );
    assert!(parse_dom_detail("null", Ref(9)).is_none());
    let eval = |js: &str, _b: Duration| -> Result<String, EngineError> {
        assert!(js.contains("window.__vsFindRef(5)"), "{js}");
        assert!(js.contains("var extras = [\"cursor\"];"), "{js}");
        Ok(r#"{"outer_html":"<i></i>"}"#.to_string())
    };
    let found = run_dom(eval, Ref(5), &["cursor".to_string()]).unwrap().unwrap();
    assert_eq!(found.outer_html, "<i></i>");
    assert!(found.computed.is_empty());
}

use vibesurfer::backend::common::{build_node, snapshot_tree, SnapshotValue};
use vibesurfer::codes::{Op, Role};

fn rec(r: Option<u64>, role: Option<&str>, label: Option<&str>, hid: Option<u64>, children: Vec<SnapshotValue>) -> SnapshotValue {
    SnapshotValue {
        r,
        role: role.map(str::to_string),
        label: label.map(str::to_string),
        hid,
        children,
    }
}

#[test]
fn snapshot_records_build_nodes() {
    let child_ok = rec(Some(2), Some("btn"), Some("Go"), Some(1), vec![]);
    let child_no_ref = rec(None, Some("btn"), Some("x"), None, vec![]);
    let child_big_ref = rec(Some(1u64 << 32), Some("btn"), None, None, vec![]);
    let child_no_role = rec(Some(4), None, None, None, vec![]);
    let root = rec(Some(1), Some("mn"), None, Some(0), vec![child_ok, child_no_ref, child_big_ref, child_no_role]);
    let n = build_node(&root).unwrap();
    assert_eq!(n.r, Ref(1));
    assert_eq!(n.label, "");
    assert_eq!(n.children.len(), 1);
    let c = &n.children[0];
    assert_eq!(c.r, Ref(2));
    assert_eq!(c.role, Role::Btn);
    assert_eq!(c.label, "Go");
    assert!(c.ops.contains(Op::Click));
    assert_eq!(c.attrs.len(), 1);
    let (k, v) = c.attrs.entry(0);
    assert_eq!(k.iter().collect::<String>(), "hid");
    assert_eq!(v.iter().collect::<String>(), "1");
    assert!(n.attrs.is_empty());
    assert_eq!(n.role, Role::Mn);
}

#[test]
fn snapshot_without_root_node_is_an_error() {
    let t = snapshot_tree(&rec(Some(1), Some("mn"), Some("page"), None, vec![])).unwrap();
    assert_eq!(t.roots.len(), 1);
    assert_eq!(t.roots[0].label, "page");
    match snapshot_tree(&rec(None, Some("mn"), None, None, vec![])) {
        Err(e) => assert_eq!(e, "missing root"),
        Ok(_) => panic!("expected an error"),
    }
}
