//! The download primitive: a page-side script (`window.__vsDl`) buffers
//! downloads the page starts; the engine looks one up, waits until it is
//! complete, and reads its bytes back in base64 chunks.
//!
//! The decisions are a step function from state and event to the next
//! state and the action to perform; the host runs the loop, evaluating
//! scripts in the page, pumping its run loop between polls and reading
//! the clock.

use vstd::prelude::*;

use super::common::{jq, json_string};
use super::inspector_bridge::{
    json_bool, json_bool_at, json_error_text, json_parse_error, json_parses, json_str, json_str_at,
    json_u64, json_u64_at, opt_str,
};
use super::probe::{str_or, u64_or_zero, unquote, unquoted};
use crate::engine::EngineError;
use crate::humanize::keys::{duration_from_millis, millis_duration};
use crate::num::{dec, parse_u64, parse_u64_spec, push_dec};
use crate::text::{chars_of, eq_lit, string_of, trim, trim_spec};
use crate::tree::push_all;

verus! {

/// Raw bytes pulled per read: 768 KiB, one MiB of base64 on the way out.
pub const DOWNLOAD_CHUNK: usize = 786432;

/// Largest download the engine materializes: 64 MiB.
pub const MAX_DOWNLOAD_BYTES: usize = 67108864;

/// Budget of the script probe and of running the download script.
pub const SCRIPT_PROBE_MS: u64 = 5000;

/// Budget of starting a download of a URL.
pub const FETCH_MS: u64 = 10000;

/// Budget of one poll of a download's metadata.
pub const META_MS: u64 = 5000;

/// Budget of one chunk read.
pub const READ_MS: u64 = 30000;

/// Budget of releasing the page-side copy.
pub const RELEASE_MS: u64 = 5000;

/// What to download: a URL the page fetches, or a download the page
/// already started (`None`: the newest).
#[derive(Debug, Clone, PartialEq, Eq)]
pub enum DownloadSource {
    Url(String),
    Captured { id: Option<u64> },
}

/// A buffered download as the page-side script describes it.
#[derive(Debug, Clone, PartialEq, Eq)]
pub struct DownloadEntry {
    pub id: u64,
    pub filename: String,
    pub mime: String,
    pub url: String,
    pub size: u64,
    pub error: Option<String>,
    pub done: bool,
}

/// A finished download.
#[derive(Debug, Clone, PartialEq, Eq)]
pub struct Download {
    pub bytes: Vec<u8>,
    pub filename: String,
    pub mime: String,
    pub url: String,
}

// ---------------------------------------------------------------------
// Outside calls.

/// Names what the standard base64 engine decodes `text` (its UTF-8
/// bytes) to: the bytes, or the text of the decode error.
pub uninterp spec fn base64_standard_decoded(text: Seq<char>) -> Result<Seq<u8>, Seq<char>>;

/// `base64::engine::general_purpose::STANDARD.decode`, the error taken by
/// its `Display` text.
#[verifier::external_body]
fn base64_decode(text: &str) -> (r: Result<Vec<u8>, String>)
    ensures
        match r {
            Ok(b) => base64_standard_decoded(text@) == Ok::<Seq<u8>, Seq<char>>(b@),
            Err(e) => base64_standard_decoded(text@) == Err::<Seq<u8>, Seq<char>>(e@),
        },
{
    match base64::Engine::decode(&base64::engine::general_purpose::STANDARD, text.as_bytes()) {
        Ok(b) => Ok(b),
        Err(e) => Err(e.to_string()),
    }
}

/// Names the text `format!("{:?}", s)` writes for a string: its quoted,
/// escaped rendering.
pub uninterp spec fn debug_rendering(s: Seq<char>) -> Seq<char>;

/// The `Debug` rendering of a string.
#[verifier::external_body]
fn debug_quoted(s: &str) -> (r: String)
    ensures
        r@ == debug_rendering(s@),
{
    format!("{s:?}")
}

// ---------------------------------------------------------------------
// Metadata.

/// The entry a metadata record describes, field by field; absent fields
/// take `0`, `""` and `false`, and an absent `err` means no error.
pub open spec fn download_entry_from(e: DownloadEntry, meta: Seq<char>) -> bool {
    &&& e.id == u64_or_zero(json_u64_at(meta, "id"@))
    &&& e.filename@ == str_or(json_str_at(meta, "name"@), Seq::empty())
    &&& e.mime@ == str_or(json_str_at(meta, "mime"@), Seq::empty())
    &&& e.url@ == str_or(json_str_at(meta, "url"@), Seq::empty())
    &&& e.size == u64_or_zero(json_u64_at(meta, "size"@))
    &&& opt_str(e.error) == json_str_at(meta, "err"@)
    &&& e.done == (json_bool_at(meta, "done"@) == Some(true))
}

fn text_at(meta: &str, key: &str) -> (s: String)
    ensures
        s@ == str_or(json_str_at(meta@, key@), Seq::empty()),
{
    match json_str(meta, key) {
        Some(v) => v,
        None => string_of(&Vec::new()),
    }
}

fn number_at(meta: &str, key: &str) -> (n: u64)
    ensures
        n == u64_or_zero(json_u64_at(meta@, key@)),
{
    match json_u64(meta, key) {
        Some(v) => v,
        None => 0,
    }
}

/// Decode a download's metadata record; `None` when it is not JSON.
pub fn parse_download_entry(meta: &str) -> (r: Option<DownloadEntry>)
    ensures
        r is Some <==> json_parses(meta@),
        r matches Some(e) ==> download_entry_from(e, meta@),
{
    if json_parse_error(meta).is_some() {
        return None;
    }
    let done = match json_bool(meta, "done") {
        Some(b) => b,
        None => false,
    };
    Some(DownloadEntry {
        id: number_at(meta, "id"),
        filename: text_at(meta, "name"),
        mime: text_at(meta, "mime"),
        url: text_at(meta, "url"),
        size: number_at(meta, "size"),
        error: json_str(meta, "err"),
        done,
    })
}

// ---------------------------------------------------------------------
// Page scripts.

/// Tells whether the download script is present on the page.
pub open spec fn script_probe_js() -> Seq<char> {
    "(typeof window.__vsDl)"@
}

/// Starts a download of `url` and answers its id.
pub open spec fn fetch_js(url: Seq<char>) -> Seq<char> {
    "window.__vsDl.fetch("@ + jq(url) + ", null)"@
}

/// Answers the metadata record of download `id` (`0`: the newest), or
/// `null`.
pub open spec fn meta_js(id: u64) -> Seq<char> {
    "window.__vsDl.meta("@ + dec(id as nat) + ")"@
}

/// Answers `len` bytes of download `id` from `off`, in base64.
pub open spec fn read_js(id: u64, off: nat, len: nat) -> Seq<char> {
    "window.__vsDl.read("@ + dec(id as nat) + ", "@ + dec(off) + ", "@ + dec(len) + ")"@
}

/// Releases the page-side copy of download `id`.
pub open spec fn release_js(id: u64) -> Seq<char> {
    "window.__vsDl.drop("@ + dec(id as nat) + ")"@
}

fn lit(s: &str) -> (v: Vec<char>)
    ensures
        v@ == s@,
{
    chars_of(s)
}

fn script_probe_text() -> (s: String)
    ensures
        s@ == script_probe_js(),
{
    string_of(&lit("(typeof window.__vsDl)"))
}

fn fetch_text(url: &str) -> (s: String)
    ensures
        s@ == fetch_js(url@),
{
    let mut v = lit("window.__vsDl.fetch(");
    push_all(&mut v, &json_string(url));
    push_all(&mut v, &lit(", null)"));
    string_of(&v)
}

fn meta_text(id: u64) -> (s: String)
    ensures
        s@ == meta_js(id),
{
    let mut v = lit("window.__vsDl.meta(");
    push_dec(&mut v, id);
    push_all(&mut v, &lit(")"));
    string_of(&v)
}

fn read_text(id: u64, off: usize, len: usize) -> (s: String)
    ensures
        s@ == read_js(id, off as nat, len as nat),
{
    let mut v = lit("window.__vsDl.read(");
    push_dec(&mut v, id);
    push_all(&mut v, &lit(", "));
    push_dec(&mut v, off as u64);
    push_all(&mut v, &lit(", "));
    push_dec(&mut v, len as u64);
    push_all(&mut v, &lit(")"));
    string_of(&v)
}

fn release_text(id: u64) -> (s: String)
    ensures
        s@ == release_js(id),
{
    let mut v = lit("window.__vsDl.drop(");
    push_dec(&mut v, id);
    push_all(&mut v, &lit(")"));
    string_of(&v)
}

// ---------------------------------------------------------------------
// The step function.

/// Where a download stands.
pub enum DownloadState {
    /// Nothing asked yet.
    Start { source: DownloadSource, budget_ms: u64 },
    /// The script probe is out; `installed` once the script was run.
    Probing { source: DownloadSource, budget_ms: u64, installed: bool },
    /// The download script is running.
    Installing { source: DownloadSource, budget_ms: u64 },
    /// The fetch of a URL is out.
    Fetching { budget_ms: u64, deadline_ms: u64 },
    /// A metadata poll of download `id` is out.
    Polling { id: u64, budget_ms: u64, deadline_ms: u64 },
    /// Waiting for the host's run loop to turn before polling again.
    Waiting { id: u64, budget_ms: u64, deadline_ms: u64 },
    /// A chunk read is out; `bytes` were read so far of `size`.
    Reading { entry: DownloadEntry, size: usize, bytes: Vec<u8> },
    /// The release of the page-side copy is out.
    Releasing { entry: DownloadEntry, size: usize, bytes: Vec<u8> },
    /// Finished.
    Done,
}

/// What the host reports back.
pub enum DownloadEvent {
    /// Start the download.
    Begin,
    /// The page answered the last script, or the evaluation failed.
    Answer(Result<String, EngineError>),
    /// The run loop turned.
    Ticked,
}

/// What the host does next.
pub enum DownloadAction {
    /// Evaluate `js` in the page within `timeout_ms`.
    Eval { js: String, timeout_ms: u64 },
    /// Run the download script (the host holds its source) within
    /// `timeout_ms`.
    RunScript { timeout_ms: u64 },
    /// Turn the run loop once.
    Tick,
    /// Stop with this result.
    Finish(Result<Download, EngineError>),
}

/// The event a state waits for.
pub open spec fn download_expects(state: DownloadState, event: DownloadEvent) -> bool {
    match state {
        DownloadState::Start { .. } => event is Begin,
        DownloadState::Waiting { .. } => event is Ticked,
        DownloadState::Done => false,
        _ => event is Answer,
    }
}

/// The deadline `budget` milliseconds after `now`, at most `u64::MAX`.
pub open spec fn deadline_after(now: u64, budget: u64) -> u64 {
    if now + budget > u64::MAX {
        u64::MAX
    } else {
        (now + budget) as u64
    }
}

/// A download size as a length: saturating at `usize::MAX`.
pub open spec fn size_len(size: u64) -> nat {
    if size > usize::MAX {
        usize::MAX as nat
    } else {
        size as nat
    }
}

/// The length of the read at `off` of `size` bytes.
pub open spec fn chunk_len(off: nat, size: nat) -> nat {
    if DOWNLOAD_CHUNK < size - off {
        DOWNLOAD_CHUNK as nat
    } else {
        (size - off) as nat
    }
}

/// The action evaluates `js` within `ms`.
pub open spec fn evals(a: DownloadAction, js: Seq<char>, ms: u64) -> bool {
    a matches DownloadAction::Eval { js: j, timeout_ms: t } && j@ == js && t == ms
}

/// The download stops with `Other(msg)`.
pub open spec fn fails_with(s: DownloadState, a: DownloadAction, msg: Seq<char>) -> bool {
    &&& s is Done
    &&& a matches DownloadAction::Finish(Err(EngineError::Other(m))) && m@ == msg
}

/// The download stops with the evaluator's error `e`.
pub open spec fn aborts(s: DownloadState, a: DownloadAction, e: EngineError) -> bool {
    &&& s is Done
    &&& a == DownloadAction::Finish(Err::<Download, EngineError>(e))
}

/// Once the script is present: a URL is fetched, a captured download is
/// polled (`0` for the newest); the deadline is set `budget` after now.
pub open spec fn starts_lookup(source: DownloadSource, budget: u64, now: u64, s: DownloadState, a: DownloadAction) -> bool {
    let dl = deadline_after(now, budget);
    match source {
        DownloadSource::Url(u) => {
            &&& s == DownloadState::Fetching { budget_ms: budget, deadline_ms: dl }
            &&& evals(a, fetch_js(u@), FETCH_MS)
        },
        DownloadSource::Captured { id } => {
            let i = match id {
                Some(i) => i,
                None => 0,
            };
            &&& s == DownloadState::Polling { id: i, budget_ms: budget, deadline_ms: dl }
            &&& evals(a, meta_js(i), META_MS)
        },
    }
}

/// The page-side copy of `e` is released, `bytes` read of `size`.
pub open spec fn releases(e: DownloadEntry, size: nat, bytes: Seq<u8>, s: DownloadState, a: DownloadAction) -> bool {
    &&& s matches DownloadState::Releasing { entry, size: z, bytes: b } && entry == e && z == size && b@ == bytes
    &&& evals(a, release_js(e.id), RELEASE_MS)
}

/// With `bytes` read of `size`: the next chunk is read at offset
/// `bytes.len()`, or the copy is released once all are in.
pub open spec fn continues_read(e: DownloadEntry, size: nat, bytes: Seq<u8>, s: DownloadState, a: DownloadAction) -> bool {
    if bytes.len() < size {
        &&& s matches DownloadState::Reading { entry, size: z, bytes: b } && entry == e && z == size && b@ == bytes
        &&& evals(a, read_js(e.id, bytes.len(), chunk_len(bytes.len(), size)), READ_MS)
    } else {
        releases(e, size, bytes, s, a)
    }
}

/// A complete metadata record `u`: its error ends the download, as does
/// a size past [`MAX_DOWNLOAD_BYTES`]; else reading starts at offset 0
/// (an empty download goes straight to the release).
pub open spec fn meta_finished(u: Seq<char>, s: DownloadState, a: DownloadAction) -> bool {
    let size = size_len(u64_or_zero(json_u64_at(u, "size"@)));
    let id = u64_or_zero(json_u64_at(u, "id"@));
    match json_str_at(u, "err"@) {
        Some(err) => fails_with(s, a, "download failed: "@ + err),
        None => if size > MAX_DOWNLOAD_BYTES {
            fails_with(s, a, "download too large: "@ + dec(size) + " bytes (cap 67108864)"@)
        } else if size == 0 {
            &&& s matches DownloadState::Releasing { entry, size: z, bytes: b } && download_entry_from(entry, u)
                && z == 0 && b@.len() == 0
            &&& evals(a, release_js(id), RELEASE_MS)
        } else {
            &&& s matches DownloadState::Reading { entry, size: z, bytes: b } && download_entry_from(entry, u)
                && z == size && b@.len() == 0
            &&& evals(a, read_js(id, 0, chunk_len(0, size)), READ_MS)
        },
    }
}

/// One step of a download, for the state, the event and the clock's
/// reading `now` in milliseconds.
pub open spec fn download_transition(
    state: DownloadState,
    event: DownloadEvent,
    now: u64,
    s: DownloadState,
    a: DownloadAction,
) -> bool {
    match state {
        DownloadState::Start { source, budget_ms } => {
            &&& s == DownloadState::Probing { source, budget_ms, installed: false }
            &&& evals(a, script_probe_js(), SCRIPT_PROBE_MS)
        },
        DownloadState::Probing { source, budget_ms, installed } => match event {
            DownloadEvent::Answer(Ok(raw)) => if unquoted(raw@) == "object"@ {
                starts_lookup(source, budget_ms, now, s, a)
            } else if !installed {
                &&& s == DownloadState::Installing { source, budget_ms }
                &&& a == DownloadAction::RunScript { timeout_ms: SCRIPT_PROBE_MS }
            } else {
                fails_with(s, a, "download shim failed to install on this page"@)
            },
            DownloadEvent::Answer(Err(e)) => aborts(s, a, e),
            _ => false,
        },
        DownloadState::Installing { source, budget_ms } => match event {
            DownloadEvent::Answer(Ok(_)) => {
                &&& s == DownloadState::Probing { source, budget_ms, installed: true }
                &&& evals(a, script_probe_js(), SCRIPT_PROBE_MS)
            },
            DownloadEvent::Answer(Err(e)) => aborts(s, a, e),
            _ => false,
        },
        DownloadState::Fetching { budget_ms, deadline_ms } => match event {
            DownloadEvent::Answer(Ok(raw)) => match parse_u64_spec(trim_spec(unquoted(raw@))) {
                Some(id) => {
                    &&& s == DownloadState::Polling { id, budget_ms, deadline_ms }
                    &&& evals(a, meta_js(id), META_MS)
                },
                None => fails_with(
                    s,
                    a,
                    "download: shim returned no id ("@ + debug_rendering(unquoted(raw@)) + ")"@,
                ),
            },
            DownloadEvent::Answer(Err(e)) => aborts(s, a, e),
            _ => false,
        },
        DownloadState::Polling { id, budget_ms, deadline_ms } => match event {
            DownloadEvent::Answer(Ok(raw)) => {
                let u = unquoted(raw@);
                let present = u != "null"@ && u.len() > 0;
                if present && json_error_text(u) is Some {
                    fails_with(
                        s,
                        a,
                        "download: bad meta "@ + debug_rendering(u) + ": "@ + json_error_text(u)->0,
                    )
                } else if present && json_bool_at(u, "done"@) == Some(true) {
                    meta_finished(u, s, a)
                } else if now >= deadline_ms {
                    &&& s is Done
                    &&& a matches DownloadAction::Finish(Err(EngineError::Timeout { budget, primitive }))
                        && budget == millis_duration(budget_ms) && primitive@ == "download"@
                } else {
                    &&& s == DownloadState::Waiting { id, budget_ms, deadline_ms }
                    &&& a is Tick
                }
            },
            DownloadEvent::Answer(Err(e)) => aborts(s, a, e),
            _ => false,
        },
        DownloadState::Waiting { id, budget_ms, deadline_ms } => {
            &&& s == DownloadState::Polling { id, budget_ms, deadline_ms }
            &&& evals(a, meta_js(id), META_MS)
        },
        DownloadState::Reading { entry, size, bytes } => match event {
            DownloadEvent::Answer(Ok(raw)) => {
                let b = unquoted(raw@);
                if b.len() == 0 {
                    releases(entry, size as nat, bytes@, s, a)
                } else {
                    match base64_standard_decoded(b) {
                        Err(m) => fails_with(s, a, "download: bad base64 chunk: "@ + m),
                        Ok(c) => if c.len() == 0 {
                            releases(entry, size as nat, bytes@, s, a)
                        } else {
                            continues_read(entry, size as nat, bytes@ + c, s, a)
                        },
                    }
                }
            },
            DownloadEvent::Answer(Err(e)) => aborts(s, a, e),
            _ => false,
        },
        DownloadState::Releasing { entry, size, bytes } => if bytes@.len() != size {
            fails_with(
                s,
                a,
                "download truncated: read "@ + dec(bytes@.len()) + " of "@ + dec(size as nat) + " bytes"@,
            )
        } else {
            &&& s is Done
            &&& a matches DownloadAction::Finish(Ok(d)) && d.bytes@ == bytes@ && d.filename == entry.filename
                && d.mime == entry.mime && d.url == entry.url
        },
        DownloadState::Done => false,
    }
}

fn fail(msg: Vec<char>) -> (next: (DownloadState, DownloadAction))
    ensures
        fails_with(next.0, next.1, msg@),
{
    (DownloadState::Done, DownloadAction::Finish(Err(EngineError::Other(string_of(&msg)))))
}

fn release(entry: DownloadEntry, size: usize, bytes: Vec<u8>) -> (next: (DownloadState, DownloadAction))
    ensures
        releases(entry, size as nat, bytes@, next.0, next.1),
{
    let js = release_text(entry.id);
    (DownloadState::Releasing { entry, size, bytes }, DownloadAction::Eval { js, timeout_ms: RELEASE_MS })
}

fn continue_read(entry: DownloadEntry, size: usize, bytes: Vec<u8>) -> (next: (DownloadState, DownloadAction))
    ensures
        continues_read(entry, size as nat, bytes@, next.0, next.1),
{
    let off = bytes.len();
    if off < size {
        let len = if DOWNLOAD_CHUNK < size - off {
            DOWNLOAD_CHUNK
        } else {
            size - off
        };
        let js = read_text(entry.id, off, len);
        (DownloadState::Reading { entry, size, bytes }, DownloadAction::Eval { js, timeout_ms: READ_MS })
    } else {
        release(entry, size, bytes)
    }
}

fn finish_meta(entry: DownloadEntry, Ghost(u): Ghost<Seq<char>>) -> (next: (DownloadState, DownloadAction))
    requires
        download_entry_from(entry, u),
    ensures
        meta_finished(u, next.0, next.1),
{
    if let Some(err) = &entry.error {
        let mut m = lit("download failed: ");
        push_all(&mut m, &chars_of(err.as_str()));
        return fail(m);
    }
    let size: usize = if entry.size > usize::MAX as u64 {
        usize::MAX
    } else {
        entry.size as usize
    };
    if size > MAX_DOWNLOAD_BYTES {
        let mut m = lit("download too large: ");
        push_dec(&mut m, size as u64);
        push_all(&mut m, &lit(" bytes (cap 67108864)"));
        return fail(m);
    }
    let bytes: Vec<u8> = Vec::new();
    continue_read(entry, size, bytes)
}

/// Advance a download by one event. See [`download_transition`] for what
/// each state does with each event: the script probe and its one
/// install, the id a fetch answers, the metadata polls against the
/// deadline, the error, size and chunk checks, and the final release.
pub fn download_step(state: DownloadState, event: DownloadEvent, now_ms: u64) -> (next: (
    DownloadState,
    DownloadAction,
))
    requires
        download_expects(state, event),
    ensures
        download_transition(state, event, now_ms, next.0, next.1),
{
    match state {
        DownloadState::Start { source, budget_ms } => {
            let js = script_probe_text();
            (
                DownloadState::Probing { source, budget_ms, installed: false },
                DownloadAction::Eval { js, timeout_ms: SCRIPT_PROBE_MS },
            )
        },
        DownloadState::Probing { source, budget_ms, installed } => match event {
            DownloadEvent::Answer(Ok(raw)) => {
                let u = unquote(raw.as_str());
                let uc = chars_of(u.as_str());
                proof {
                    reveal_strlit("object");
                }
                if eq_lit(&uc, "object") {
                    let dl = now_ms.checked_add(budget_ms).unwrap_or(u64::MAX);
                    match source {
                        DownloadSource::Url(url) => {
                            let js = fetch_text(url.as_str());
                            (
                                DownloadState::Fetching { budget_ms, deadline_ms: dl },
                                DownloadAction::Eval { js, timeout_ms: FETCH_MS },
                            )
                        },
                        DownloadSource::Captured { id } => {
                            let i = match id {
                                Some(i) => i,
                                None => 0,
                            };
                            let js = meta_text(i);
                            (
                                DownloadState::Polling { id: i, budget_ms, deadline_ms: dl },
                                DownloadAction::Eval { js, timeout_ms: META_MS },
                            )
                        },
                    }
                } else if !installed {
                    (
                        DownloadState::Installing { source, budget_ms },
                        DownloadAction::RunScript { timeout_ms: SCRIPT_PROBE_MS },
                    )
                } else {
                    fail(lit("download shim failed to install on this page"))
                }
            },
            DownloadEvent::Answer(Err(e)) => (DownloadState::Done, DownloadAction::Finish(Err(e))),
            _ => (DownloadState::Done, DownloadAction::Tick),
        },
        DownloadState::Installing { source, budget_ms } => match event {
            DownloadEvent::Answer(Ok(_)) => {
                let js = script_probe_text();
                (
                    DownloadState::Probing { source, budget_ms, installed: true },
                    DownloadAction::Eval { js, timeout_ms: SCRIPT_PROBE_MS },
                )
            },
            DownloadEvent::Answer(Err(e)) => (DownloadState::Done, DownloadAction::Finish(Err(e))),
            _ => (DownloadState::Done, DownloadAction::Tick),
        },
        DownloadState::Fetching { budget_ms, deadline_ms } => match event {
            DownloadEvent::Answer(Ok(raw)) => {
                let u = unquote(raw.as_str());
                let t = trim(&chars_of(u.as_str()));
                match parse_u64(&t) {
                    Some(id) => {
                        let js = meta_text(id);
                        (
                            DownloadState::Polling { id, budget_ms, deadline_ms },
                            DownloadAction::Eval { js, timeout_ms: META_MS },
                        )
                    },
                    None => {
                        let mut m = lit("download: shim returned no id (");
                        push_all(&mut m, &chars_of(debug_quoted(u.as_str()).as_str()));
                        push_all(&mut m, &lit(")"));
                        fail(m)
                    },
                }
            },
            DownloadEvent::Answer(Err(e)) => (DownloadState::Done, DownloadAction::Finish(Err(e))),
            _ => (DownloadState::Done, DownloadAction::Tick),
        },
        DownloadState::Polling { id, budget_ms, deadline_ms } => match event {
            DownloadEvent::Answer(Ok(raw)) => {
                let u = unquote(raw.as_str());
                let uc = chars_of(u.as_str());
                proof {
                    reveal_strlit("null");
                }
                if !eq_lit(&uc, "null") && uc.len() > 0 {
                    if let Some(e) = json_parse_error(u.as_str()) {
                        let mut m = lit("download: bad meta ");
                        push_all(&mut m, &chars_of(debug_quoted(u.as_str()).as_str()));
                        push_all(&mut m, &lit(": "));
                        push_all(&mut m, &chars_of(e.as_str()));
                        return fail(m);
                    }
                    match parse_download_entry(u.as_str()) {
                        Some(entry) => {
                            if entry.done {
                                return finish_meta(entry, Ghost(u@));
                            }
                        },
                        None => {},
                    }
                }
                if now_ms >= deadline_ms {
                    (
                        DownloadState::Done,
                        DownloadAction::Finish(
                            Err(
                                EngineError::Timeout {
                                    budget: duration_from_millis(budget_ms),
                                    primitive: "download",
                                },
                            ),
                        ),
                    )
                } else {
                    (DownloadState::Waiting { id, budget_ms, deadline_ms }, DownloadAction::Tick)
                }
            },
            DownloadEvent::Answer(Err(e)) => (DownloadState::Done, DownloadAction::Finish(Err(e))),
            _ => (DownloadState::Done, DownloadAction::Tick),
        },
        DownloadState::Waiting { id, budget_ms, deadline_ms } => {
            let js = meta_text(id);
            (
                DownloadState::Polling { id, budget_ms, deadline_ms },
                DownloadAction::Eval { js, timeout_ms: META_MS },
            )
        },
        DownloadState::Reading { entry, size, bytes } => match event {
            DownloadEvent::Answer(Ok(raw)) => {
                let b = unquote(raw.as_str());
                if chars_of(b.as_str()).len() == 0 {
                    return release(entry, size, bytes);
                }
                match base64_decode(b.as_str()) {
                    Err(e) => {
                        let mut m = lit("download: bad base64 chunk: ");
                        push_all(&mut m, &chars_of(e.as_str()));
                        fail(m)
                    },
                    Ok(mut chunk) => {
                        if chunk.len() == 0 {
                            release(entry, size, bytes)
                        } else {
                            let mut bytes = bytes;
                            bytes.append(&mut chunk);
                            continue_read(entry, size, bytes)
                        }
                    },
                }
            },
            DownloadEvent::Answer(Err(e)) => (DownloadState::Done, DownloadAction::Finish(Err(e))),
            _ => (DownloadState::Done, DownloadAction::Tick),
        },
        DownloadState::Releasing { entry, size, bytes } => {
            if bytes.len() != size {
                let mut m = lit("download truncated: read ");
                push_dec(&mut m, bytes.len() as u64);
                push_all(&mut m, &lit(" of "));
                push_dec(&mut m, size as u64);
                push_all(&mut m, &lit(" bytes"));
                fail(m)
            } else {
                let DownloadEntry { filename, mime, url, .. } = entry;
                (
                    DownloadState::Done,
                    DownloadAction::Finish(Ok(Download { bytes, filename, mime, url })),
                )
            }
        },
        DownloadState::Done => (DownloadState::Done, DownloadAction::Tick),
    }
}

} // verus!
