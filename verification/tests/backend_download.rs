use std::time::Duration;

use vibesurfer::backend::download::{
    download_step, parse_download_entry, Download, DownloadAction, DownloadEvent, DownloadSource,
    DownloadState, MAX_DOWNLOAD_BYTES,
};
use vibesurfer::engine::EngineError;

/// Drive a download against a scripted page: `answer` maps each script
/// to the page's reply; the clock advances by `step_ms` per event.
fn drive(
    source: DownloadSource,
    budget_ms: u64,
    step_ms: u64,
    answer: &dyn Fn(&str) -> Result<String, EngineError>,
    log: &mut Vec<String>,
) -> Result<Download, EngineError> {
    let mut state = DownloadState::Start { source, budget_ms };
    let mut event = DownloadEvent::Begin;
    let mut now = 0u64;
    for _ in 0..1000 {
        let (next, action) = download_step(state, event, now);
        state = next;
        now += step_ms;
        event = match action {
            DownloadAction::Eval { js, .. } => {
                log.push(js.clone());
                DownloadEvent::Answer(answer(&js))
            }
            DownloadAction::RunScript { .. } => {
                log.push("<script>".to_string());
                DownloadEvent::Answer(answer("<script>"))
            }
            DownloadAction::Tick => {
                log.push("<tick>".to_string());
                DownloadEvent::Ticked
            }
            DownloadAction::Finish(r) => return r,
        };
    }
    panic!("download did not finish");
}

fn other(r: Result<Download, EngineError>) -> String {
    match r {
        Err(EngineError::Other(m)) => m,
        _ => panic!("expected an Other error"),
    }
}

#[test]
fn parse_download_entry_reads_fields_and_defaults() {
    let e = parse_download_entry(
        r#"{"id":7,"name":"a.pdf","mime":"application/pdf","url":"https://x/a.pdf","size":12,"err":"boom","done":true}"#,
    )
    .expect("json");
    assert_eq!(e.id, 7);
    assert_eq!(e.filename, "a.pdf");
    assert_eq!(e.mime, "application/pdf");
    assert_eq!(e.url, "https://x/a.pdf");
    assert_eq!(e.size, 12);
    assert_eq!(e.error.as_deref(), Some("boom"));
    assert!(e.done);
    let d = parse_download_entry("{}").expect("json");
    assert_eq!(d.id, 0);
    assert_eq!(d.filename, "");
    assert_eq!(d.size, 0);
    assert_eq!(d.error, None);
    assert!(!d.done);
    assert!(parse_download_entry("not json").is_none());
}

#[test]
fn captured_download_polls_reads_and_releases() {
    let polls = std::cell::Cell::new(0);
    let page = |js: &str| -> Result<String, EngineError> {
        Ok(match js {
            "(typeof window.__vsDl)" => "\"object\"".to_string(),
            "window.__vsDl.meta(3)" => {
                polls.set(polls.get() + 1);
                if polls.get() < 2 {
                    r#"{"id":3,"done":false}"#.to_string()
                } else {
                    r#"{"id":3,"name":"h.txt","mime":"text/plain","url":"u","size":5,"done":true}"#
                        .to_string()
                }
            }
            "window.__vsDl.read(3, 0, 5)" => "\"aGVsbG8=\"".to_string(),
            "window.__vsDl.drop(3)" => "null".to_string(),
            other => panic!("unexpected script {other}"),
        })
    };
    let mut log = Vec::new();
    let d = drive(DownloadSource::Captured { id: Some(3) }, 10_000, 1, &page, &mut log)
        .expect("download");
    assert_eq!(d.bytes, b"hello".to_vec());
    assert_eq!(d.filename, "h.txt");
    assert_eq!(d.mime, "text/plain");
    assert_eq!(d.url, "u");
    assert_eq!(
        log,
        vec![
            "(typeof window.__vsDl)",
            "window.__vsDl.meta(3)",
            "<tick>",
            "window.__vsDl.meta(3)",
            "window.__vsDl.read(3, 0, 5)",
            "window.__vsDl.drop(3)",
        ]
    );
}

#[test]
fn missing_script_is_installed_once_then_refused() {
    let page = |js: &str| -> Result<String, EngineError> {
        Ok(match js {
            "(typeof window.__vsDl)" => "\"undefined\"".to_string(),
            "<script>" => "null".to_string(),
            other => panic!("unexpected script {other}"),
        })
    };
    let mut log = Vec::new();
    let r = drive(DownloadSource::Captured { id: None }, 1000, 1, &page, &mut log);
    assert_eq!(other(r), "download shim failed to install on this page");
    assert_eq!(log, vec!["(typeof window.__vsDl)", "<script>", "(typeof window.__vsDl)"]);
}

#[test]
fn url_download_needs_a_numeric_id() {
    let page = |js: &str| -> Result<String, EngineError> {
        Ok(match js {
            "(typeof window.__vsDl)" => "object".to_string(),
            "window.__vsDl.fetch(\"https://x/f\", null)" => "abc".to_string(),
            other => panic!("unexpected script {other}"),
        })
    };
    let mut log = Vec::new();
    let r = drive(DownloadSource::Url("https://x/f".to_string()), 1000, 1, &page, &mut log);
    assert_eq!(other(r), "download: shim returned no id (\"abc\")");
}

#[test]
fn url_download_polls_the_id_it_was_given() {
    let page = |js: &str| -> Result<String, EngineError> {
        Ok(match js {
            "(typeof window.__vsDl)" => "object".to_string(),
            "window.__vsDl.fetch(\"https://x/f\", null)" => " 9 ".to_string(),
            "window.__vsDl.meta(9)" => r#"{"id":9,"size":0,"done":true}"#.to_string(),
            "window.__vsDl.drop(9)" => "null".to_string(),
            other => panic!("unexpected script {other}"),
        })
    };
    let mut log = Vec::new();
    let d = drive(DownloadSource::Url("https://x/f".to_string()), 1000, 1, &page, &mut log)
        .expect("download");
    assert!(d.bytes.is_empty());
}

#[test]
fn polling_past_the_deadline_times_out() {
    let page = |js: &str| -> Result<String, EngineError> {
        Ok(match js {
            "(typeof window.__vsDl)" => "object".to_string(),
            "window.__vsDl.meta(0)" => "null".to_string(),
            other => panic!("unexpected script {other}"),
        })
    };
    let mut log = Vec::new();
    let r = drive(DownloadSource::Captured { id: None }, 50, 10, &page, &mut log);
    match r {
        Err(EngineError::Timeout { budget, primitive }) => {
            assert_eq!(budget, Duration::from_millis(50));
            assert_eq!(primitive, "download");
        }
        _ => panic!("expected a timeout"),
    }
}

#[test]
fn failed_and_oversized_downloads_are_errors() {
    let failed = |js: &str| -> Result<String, EngineError> {
        Ok(match js {
            "(typeof window.__vsDl)" => "object".to_string(),
            _ => r#"{"id":1,"err":"boom","done":true}"#.to_string(),
        })
    };
    let mut log = Vec::new();
    let r = drive(DownloadSource::Captured { id: Some(1) }, 1000, 1, &failed, &mut log);
    assert_eq!(other(r), "download failed: boom");

    let big = MAX_DOWNLOAD_BYTES as u64 + 1;
    let meta = format!(r#"{{"id":1,"size":{big},"done":true}}"#);
    let huge = move |js: &str| -> Result<String, EngineError> {
        Ok(match js {
            "(typeof window.__vsDl)" => "object".to_string(),
            _ => meta.clone(),
        })
    };
    let r = drive(DownloadSource::Captured { id: Some(1) }, 1000, 1, &huge, &mut log);
    assert_eq!(other(r), "download too large: 67108865 bytes (cap 67108864)");
}

#[test]
fn large_downloads_are_read_in_chunks() {
    let page = |js: &str| -> Result<String, EngineError> {
        Ok(match js {
            "(typeof window.__vsDl)" => "object".to_string(),
            "window.__vsDl.meta(2)" => r#"{"id":2,"size":786435,"done":true}"#.to_string(),
            "window.__vsDl.read(2, 0, 786432)" => "\"AAAA\"".to_string(),
            "window.__vsDl.read(2, 3, 786432)" => "\"\"".to_string(),
            "window.__vsDl.drop(2)" => "null".to_string(),
            other => panic!("unexpected script {other}"),
        })
    };
    let mut log = Vec::new();
    let r = drive(DownloadSource::Captured { id: Some(2) }, 1000, 1, &page, &mut log);
    assert_eq!(other(r), "download truncated: read 3 of 786435 bytes");
}

#[test]
fn bad_base64_and_bad_meta_are_errors() {
    let page = |js: &str| -> Result<String, EngineError> {
        Ok(match js {
            "(typeof window.__vsDl)" => "object".to_string(),
            "window.__vsDl.meta(4)" => r#"{"id":4,"size":3,"done":true}"#.to_string(),
            "window.__vsDl.read(4, 0, 3)" => "\"!!!!\"".to_string(),
            other => panic!("unexpected script {other}"),
        })
    };
    let mut log = Vec::new();
    let r = drive(DownloadSource::Captured { id: Some(4) }, 1000, 1, &page, &mut log);
    assert!(other(r).starts_with("download: bad base64 chunk: "));

    let meta = |js: &str| -> Result<String, EngineError> {
        Ok(match js {
            "(typeof window.__vsDl)" => "object".to_string(),
            _ => "{oops".to_string(),
        })
    };
    let r = drive(DownloadSource::Captured { id: Some(4) }, 1000, 1, &meta, &mut log);
    assert!(other(r).starts_with("download: bad meta \"{oops\": "));
}

#[test]
fn evaluator_errors_end_the_download() {
    let page = |_js: &str| -> Result<String, EngineError> { Err(EngineError::Closed) };
    let mut log = Vec::new();
    let r = drive(DownloadSource::Captured { id: None }, 1000, 1, &page, &mut log);
    assert!(matches!(r, Err(EngineError::Closed)));
}
