use vibesurfer::backend::inspector_bridge::{
    ingest_console, ingest_network, InspectorSlots, NetworkIngestSlot, RequestDetailStore,
};
use vibesurfer::engine::{Action, EngineCapabilities, InputMode, Viewport, DEFAULT_USER_AGENT};
use vibesurfer::codes::Op;
use vibesurfer::inspector::{
    ConsoleLevel, NetworkStatus, RequestDetail, RingBuffer, ScriptState, StorageScope,
    DEFAULT_BUFFER_CAPACITY,
};

#[test]
fn ring_buffer_evicts_fifo() {
    let mut rb: RingBuffer<u32> = RingBuffer::new(3);
    for i in 0..5 {
        rb.push(i);
    }
    assert_eq!(rb.snapshot(), vec![2, 3, 4]);
    assert_eq!(rb.len(), 3);
}

#[test]
fn ring_buffer_capacity_zero_is_clamped() {
    let mut rb: RingBuffer<u8> = RingBuffer::new(0);
    rb.push(1);
    assert_eq!(rb.snapshot(), vec![1]);
    assert_eq!(rb.capacity(), 1);
}

#[test]
fn console_level_parse() {
    assert_eq!(ConsoleLevel::parse("error"), Some(ConsoleLevel::Error));
    assert_eq!(ConsoleLevel::parse("WARN"), Some(ConsoleLevel::Warn));
    assert_eq!(ConsoleLevel::parse("garbage"), None);
}

#[test]
fn console_level_aliases() {
    assert_eq!(ConsoleLevel::parse("Err"), Some(ConsoleLevel::Error));
    assert_eq!(ConsoleLevel::parse("warning"), Some(ConsoleLevel::Warn));
    assert_eq!(ConsoleLevel::parse("TRACE"), Some(ConsoleLevel::Debug));
    assert_eq!(ConsoleLevel::Info.as_str(), "info");
}

#[test]
fn network_status_str() {
    assert_eq!(NetworkStatus::Code(200).as_str(), "200");
    assert_eq!(NetworkStatus::Pending.as_str(), "pending");
    assert_eq!(NetworkStatus::Cors.as_str(), "cors");
    assert_eq!(NetworkStatus::Code(7).as_str(), "7");
    assert_eq!(NetworkStatus::Code(65535).as_str(), "65535");
}

#[test]
fn storage_scope_and_script_state_names() {
    assert_eq!(StorageScope::parse("localStorage"), Some(StorageScope::Local));
    assert_eq!(StorageScope::parse("idb"), Some(StorageScope::IndexedDb));
    assert_eq!(StorageScope::parse("Local"), None);
    assert_eq!(StorageScope::Session.as_str(), "session");
    assert_eq!(ScriptState::BlockedCsp.as_str(), "blocked-csp");
}

#[test]
fn default_user_agent_has_safari_suffix() {
    let ua = DEFAULT_USER_AGENT;
    assert!(ua.starts_with("Mozilla/5.0 "), "UA should start with `Mozilla/5.0 `; got {ua:?}");
    assert!(ua.contains("AppleWebKit/"), "UA should advertise WebKit; got {ua:?}");
    assert!(ua.contains("Version/"), "UA missing `Version/X`; got {ua:?}");
    assert!(ua.contains("Safari/"), "UA missing `Safari/X`; got {ua:?}");
    assert!(!ua.contains('\n') && !ua.contains('\r') && !ua.contains('\t'), "UA must be a single line; got {ua:?}");
}

#[test]
fn input_mode_parse_and_names() {
    assert_eq!(InputMode::parse("HUMAN"), Some(InputMode::Human));
    assert_eq!(InputMode::parse("c"), Some(InputMode::Careful));
    assert_eq!(InputMode::parse("robot"), None);
    assert_eq!(InputMode::Robotic.as_str(), "robotic");
}

#[test]
fn action_ops_and_viewport_presets() {
    assert_eq!(Action::Fill { value: "x".into() }.op(), Op::Fill);
    assert_eq!(Action::Hover.op(), Op::Hover);
    assert_eq!(Viewport::preset("desktop-xl"), Some(Viewport::new(2560, 1440, 2)));
    assert_eq!(Viewport::preset("mobile"), Some(Viewport::mobile()));
    assert_eq!(Viewport::preset("watch"), None);
    let caps = EngineCapabilities::test_engine();
    assert_eq!(caps.name, "test");
    assert!(caps.renders && caps.inspector_cookie_events);
}

fn detail(seq: u64) -> RequestDetail {
    RequestDetail {
        seq,
        method: "GET".into(),
        url: format!("http://x/{seq}"),
        status: NetworkStatus::Code(200),
        request_headers: vec![],
        request_body: None,
        response_headers: vec![],
        response_body: None,
    }
}

fn ingest(slots: &mut InspectorSlots, body: &str) {
    ingest_network(
        NetworkIngestSlot {
            entries: &mut slots.network,
            details: &mut slots.details,
            pending: &mut slots.pending,
        },
        body,
    );
}

fn ingest_pair(slots: &mut InspectorSlots, seq: u64) {
    let start = format!(
        r#"{{"seq":{seq},"phase":"start","ts_ms":1000,"req_headers":[["X-Test","y"]],"req_body":"hi"}}"#
    );
    let end = format!(
        r#"{{"seq":{seq},"phase":"end","ts_ms":1100,"method":"GET","url":"http://x/{seq}","status":200,"size":42}}"#
    );
    ingest(slots, &start);
    ingest(slots, &end);
}

#[test]
fn details_store_evicts_oldest_at_capacity() {
    let mut slots = InspectorSlots::new(3);
    for seq in 1..=5 {
        ingest_pair(&mut slots, seq);
    }
    let details = &slots.details;
    assert_eq!(details.len(), 3, "details store must stay bounded");
    assert_eq!(details.capacity(), 3);
    assert!(details.get(1).is_none(), "oldest seq 1 should have been evicted");
    assert!(details.get(2).is_none(), "second-oldest seq 2 should have been evicted");
    assert!(details.get(3).is_some(), "seq 3 still in window");
    assert!(details.get(5).is_some(), "seq 5 still in window");
}

#[test]
fn pending_evicts_oldest_when_starts_pile_up_without_ends() {
    let mut slots = InspectorSlots::new(3);
    for seq in 1..=5 {
        let body = format!(
            r#"{{"seq":{seq},"phase":"start","ts_ms":{},"req_headers":[],"req_body":null}}"#,
            seq * 100
        );
        ingest(&mut slots, &body);
    }
    assert_eq!(slots.pending.len(), 3, "pending must stay bounded by capacity");
    assert_eq!(slots.pending.capacity(), 3);
    assert!(!slots.pending.is_empty());
}

#[test]
fn end_event_drains_pending_back_to_empty() {
    let mut slots = InspectorSlots::new(DEFAULT_BUFFER_CAPACITY);
    ingest_pair(&mut slots, 42);
    assert!(slots.pending.is_empty());
    assert_eq!(slots.details.len(), 1);
    let d = slots.details.get(42).expect("seq 42 present");
    assert_eq!(d.method, "GET");
    assert_eq!(d.url, "http://x/42");
    assert_eq!(d.request_headers.len(), 1);
    assert_eq!(d.request_headers[0].name, "X-Test");
    assert_eq!(d.request_body.as_deref(), Some("hi"));
    let entries = slots.network.snapshot();
    assert_eq!(entries.len(), 1);
    assert_eq!(entries[0].latency_ms, Some(100));
    assert_eq!(entries[0].size, 42);
    assert_eq!(entries[0].status, NetworkStatus::Code(200));
}

#[test]
fn network_end_without_status_is_abort_and_bad_bodies_are_dropped() {
    let mut slots = InspectorSlots::new(4);
    ingest(&mut slots, "not json");
    ingest(&mut slots, r#"{"phase":"end"}"#);
    ingest(&mut slots, r#"{"seq":1,"phase":"middle"}"#);
    assert_eq!(slots.network.len(), 0);
    ingest(&mut slots, r#"{"seq":9,"phase":"end","ts_ms":50}"#);
    let entries = slots.network.snapshot();
    assert_eq!(entries.len(), 1);
    assert_eq!(entries[0].status, NetworkStatus::Abort);
    assert_eq!(entries[0].method, "GET");
    assert_eq!(entries[0].latency_ms, Some(0));
    assert!(slots.details.get(9).is_some());
}

#[test]
fn details_remove_clears_order_too() {
    let mut store = RequestDetailStore::new(4);
    for seq in 1..=3 {
        store.insert(seq, detail(seq));
    }
    assert_eq!(store.len(), 3);
    store.remove(2);
    assert_eq!(store.len(), 2);
    for seq in 4..=5 {
        store.insert(seq, detail(seq));
    }
    assert_eq!(store.len(), 4);
    assert!(store.get(1).is_some(), "seq 1 should not have been evicted");
    assert!(store.get(2).is_none(), "seq 2 was removed");
    assert!(store.get(5).is_some());
}

#[test]
fn details_reinsert_overwrites_in_place() {
    let mut store = RequestDetailStore::new(2);
    store.insert(1, detail(1));
    store.insert(2, detail(2));
    let mut d = detail(1);
    d.method = "POST".into();
    store.insert(1, d);
    assert_eq!(store.len(), 2);
    assert_eq!(store.get(1).unwrap().method, "POST");
    store.insert(3, detail(3));
    assert!(store.get(1).is_none(), "seq 1 is still the oldest key");
    assert!(store.get(2).is_some());
}

#[test]
fn console_ring_buffer_evicts_at_capacity() {
    let mut slots = InspectorSlots::new(3);
    for i in 0..5 {
        let body = format!(r#"{{"level":"log","message":"m{i}","ts_ms":{}}}"#, 1000 + i);
        ingest_console(&mut slots.console, &body);
    }
    let snap = slots.console.snapshot();
    assert_eq!(snap.len(), 3);
    assert_eq!(snap[0].message, "m2", "oldest two should have been evicted");
    assert_eq!(snap[2].message, "m4");
}

#[test]
fn console_levels_and_defaults() {
    let mut buf = RingBuffer::new(8);
    ingest_console(&mut buf, r#"{"level":"warn","message":"w","stack":"at x"}"#);
    ingest_console(&mut buf, r#"{"level":"weird"}"#);
    ingest_console(&mut buf, "{");
    let snap = buf.snapshot();
    assert_eq!(snap.len(), 2);
    assert_eq!(snap[0].level, ConsoleLevel::Warn);
    assert_eq!(snap[0].stack.as_deref(), Some("at x"));
    assert_eq!(snap[1].level, ConsoleLevel::Log);
    assert_eq!(snap[1].message, "");
}

#[test]
fn ring_buffer_keeps_the_last_capacity_pushes() {
    let mut rb: RingBuffer<u32> = RingBuffer::new(3);
    for i in 0..7 {
        rb.push(i);
        assert!(rb.len() <= rb.capacity());
        assert_eq!(rb.len(), rb.snapshot().len());
        assert_eq!(rb.is_empty(), rb.len() == 0);
    }
    assert_eq!(rb.snapshot(), vec![4, 5, 6]);
}

#[test]
fn console_stamps_past_the_year_9999_are_read_as_its_last_millisecond() {
    let mut buf = RingBuffer::new(4);
    ingest_console(&mut buf, r#"{"level":"log","message":"far","ts_ms":9000000000000000000}"#);
    ingest_console(&mut buf, r#"{"level":"log","message":"near","ts_ms":1500}"#);
    let snap = buf.snapshot();
    let epoch = std::time::UNIX_EPOCH;
    assert_eq!(snap[0].timestamp, epoch + std::time::Duration::from_millis(253_402_300_799_999));
    assert_eq!(snap[1].timestamp, epoch + std::time::Duration::from_millis(1500));
}
