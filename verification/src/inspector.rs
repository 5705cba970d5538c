//! Inspector capture types: console and network entries, the bounded
//! ring buffer that holds them, and the small code enums that name
//! levels, statuses, storage scopes and script states on the wire.
//!
//! Engines capture into always-on ring buffers (bounded, oldest entry
//! evicted first); the agent reads them through the `vs_inspect`
//! primitive.

use std::collections::VecDeque;
use std::time::SystemTime;

use vstd::prelude::*;

use crate::num::{dec, push_dec};
use crate::text::{ascii_lower, ascii_lowercase, chars_of, eq_lit, string_of};

verus! {

/// Wall-clock instants are carried through the inspector types as they
/// are; nothing here looks inside one.
#[verifier::external_type_specification]
#[verifier::external_body]
pub struct ExSystemTime(SystemTime);

/// `SystemTime` is `Copy`: its `clone` hands back the same instant.
pub assume_specification[ <SystemTime as Clone>::clone ](t: &SystemTime) -> (r: SystemTime)
    ensures
        r == *t,
;

/// Default ring-buffer capacity per kind, per page.
pub const DEFAULT_BUFFER_CAPACITY: usize = 1000;

/// Console levels observable by `vs_inspect console`: the browser's
/// `console.<level>(...)` family, with `Error` also used for uncaught
/// exceptions and unhandled rejections.
#[derive(Debug, Clone, Copy, PartialEq, Eq, Structural, Hash)]
pub enum ConsoleLevel {
    Error,
    Warn,
    Info,
    Log,
    Debug,
}

/// The level a (lower-cased) level name stands for, aliases included.
pub open spec fn level_named(s: Seq<char>) -> Option<ConsoleLevel> {
    if s == "error"@ || s == "err"@ {
        Some(ConsoleLevel::Error)
    } else if s == "warn"@ || s == "warning"@ {
        Some(ConsoleLevel::Warn)
    } else if s == "info"@ {
        Some(ConsoleLevel::Info)
    } else if s == "log"@ {
        Some(ConsoleLevel::Log)
    } else if s == "debug"@ || s == "trace"@ {
        Some(ConsoleLevel::Debug)
    } else {
        None
    }
}

impl ConsoleLevel {
    /// The lowercase wire name of this level.
    pub open spec fn wire(self) -> Seq<char> {
        match self {
            ConsoleLevel::Error => "error"@,
            ConsoleLevel::Warn => "warn"@,
            ConsoleLevel::Info => "info"@,
            ConsoleLevel::Log => "log"@,
            ConsoleLevel::Debug => "debug"@,
        }
    }

    /// Wire-format string (lowercase).
    pub fn as_str(self) -> (s: &'static str)
        ensures
            s@ == self.wire(),
    {
        match self {
            ConsoleLevel::Error => "error",
            ConsoleLevel::Warn => "warn",
            ConsoleLevel::Info => "info",
            ConsoleLevel::Log => "log",
            ConsoleLevel::Debug => "debug",
        }
    }

    /// Parse a level name, ignoring ASCII case; `None` for a name that is
    /// not a known level or alias.
    pub fn parse(s: &str) -> (r: Option<ConsoleLevel>)
        ensures
            r == level_named(ascii_lower(s@)),
    {
        let v = chars_of(s);
        let l = ascii_lowercase(&v);
        if eq_lit(&l, "error") || eq_lit(&l, "err") {
            Some(ConsoleLevel::Error)
        } else if eq_lit(&l, "warn") || eq_lit(&l, "warning") {
            Some(ConsoleLevel::Warn)
        } else if eq_lit(&l, "info") {
            Some(ConsoleLevel::Info)
        } else if eq_lit(&l, "log") {
            Some(ConsoleLevel::Log)
        } else if eq_lit(&l, "debug") || eq_lit(&l, "trace") {
            Some(ConsoleLevel::Debug)
        } else {
            None
        }
    }
}

/// One captured console event.
#[derive(Debug, Clone)]
pub struct ConsoleEntry {
    /// Wall-clock when the event was captured.
    pub timestamp: SystemTime,
    pub level: ConsoleLevel,
    /// The serialized message; several arguments are joined with one space.
    pub message: String,
    /// Optional stack trace, one frame per line.
    pub stack: Option<String>,
}

/// One captured network event.
#[derive(Debug, Clone)]
pub struct NetworkEntry {
    /// Per-page sequential id, shown on the wire as `n_<seq>`.
    pub seq: u64,
    pub timestamp: SystemTime,
    pub method: String,
    pub url: String,
    pub status: NetworkStatus,
    /// Total transfer size in bytes; 0 while not yet known.
    pub size: u64,
    /// End-to-end latency; `None` while the request is pending.
    pub latency_ms: Option<u64>,
}

/// Status of a captured network request.
#[derive(Debug, Clone, Copy, PartialEq, Eq, Structural)]
pub enum NetworkStatus {
    /// HTTP status code.
    Code(u16),
    /// Request still in flight.
    Pending,
    /// Browser aborted the request.
    Abort,
    /// CORS preflight or response policy blocked the request.
    Cors,
    /// Blocked by content-security-policy or similar.
    Blocked,
}

impl NetworkStatus {
    /// The wire form: the decimal code, or the status name.
    pub open spec fn wire(self) -> Seq<char> {
        match self {
            NetworkStatus::Code(c) => dec(c as nat),
            NetworkStatus::Pending => "pending"@,
            NetworkStatus::Abort => "abort"@,
            NetworkStatus::Cors => "cors"@,
            NetworkStatus::Blocked => "blocked"@,
        }
    }

    /// Wire-format representation.
    pub fn as_str(&self) -> (s: String)
        ensures
            s@ == self.wire(),
    {
        match self {
            NetworkStatus::Code(c) => {
                let mut v: Vec<char> = Vec::new();
                push_dec(&mut v, *c as u64);
                assert(v@ =~= dec(*c as nat));
                string_of(&v)
            },
            NetworkStatus::Pending => string_of(&chars_of("pending")),
            NetworkStatus::Abort => string_of(&chars_of("abort")),
            NetworkStatus::Cors => string_of(&chars_of("cors")),
            NetworkStatus::Blocked => string_of(&chars_of("blocked")),
        }
    }
}

/// One request or response header.
#[derive(Debug, Clone)]
pub struct Header {
    pub name: String,
    pub value: String,
}

/// Full detail of one captured network request: headers and bodies of
/// both the request and the response.
#[derive(Debug, Clone)]
pub struct RequestDetail {
    pub seq: u64,
    pub method: String,
    pub url: String,
    pub status: NetworkStatus,
    pub request_headers: Vec<Header>,
    pub request_body: Option<String>,
    pub response_headers: Vec<Header>,
    pub response_body: Option<String>,
}

/// Result of evaluating a script in the page. Errors are told apart by
/// kind: a thrown exception, or a syntax error.
#[derive(Debug, Clone)]
pub enum EvalResult {
    /// The expression evaluated to a value.
    Value {
        /// JSON-serialized value (or the `null` / `undefined` literal).
        value: String,
        /// The JS `typeof` of the value.
        js_type: String,
    },
    /// Runtime error thrown during evaluation.
    Thrown { kind: String, message: String },
    /// The expression did not parse.
    Syntax { message: String },
}

/// Storage scope for the storage inspection primitive.
#[derive(Debug, Clone, Copy, PartialEq, Eq, Structural)]
pub enum StorageScope {
    Cookies,
    Local,
    Session,
    IndexedDb,
}

/// The scope a wire identifier names, aliases included.
pub open spec fn scope_named(s: Seq<char>) -> Option<StorageScope> {
    if s == "cookies"@ {
        Some(StorageScope::Cookies)
    } else if s == "local"@ || s == "localStorage"@ {
        Some(StorageScope::Local)
    } else if s == "session"@ || s == "sessionStorage"@ {
        Some(StorageScope::Session)
    } else if s == "indexeddb"@ || s == "idb"@ {
        Some(StorageScope::IndexedDb)
    } else {
        None
    }
}

/// Reading back the wire name of a scope gives the scope.
pub proof fn lemma_scope_round_trip(s: StorageScope)
    ensures
        scope_named(s.wire()) == Some(s),
{
    reveal_strlit("cookies");
    reveal_strlit("local");
    reveal_strlit("localStorage");
    reveal_strlit("session");
    reveal_strlit("sessionStorage");
    reveal_strlit("indexeddb");
    reveal_strlit("idb");
    match s {
        StorageScope::Cookies => {},
        StorageScope::Local => {
            assert("local"@.len() != "cookies"@.len());
        },
        StorageScope::Session => {
            assert("session"@[0] != "cookies"@[0]);
            assert("session"@.len() != "local"@.len());
            assert("session"@.len() != "localStorage"@.len());
        },
        StorageScope::IndexedDb => {
            assert("indexeddb"@.len() != "cookies"@.len());
            assert("indexeddb"@.len() != "local"@.len());
            assert("indexeddb"@.len() != "localStorage"@.len());
            assert("indexeddb"@.len() != "session"@.len());
            assert("indexeddb"@.len() != "sessionStorage"@.len());
        },
    }
}

impl StorageScope {
    /// The canonical wire identifier.
    pub open spec fn wire(self) -> Seq<char> {
        match self {
            StorageScope::Cookies => "cookies"@,
            StorageScope::Local => "local"@,
            StorageScope::Session => "session"@,
            StorageScope::IndexedDb => "indexeddb"@,
        }
    }

    /// Wire-format identifier.
    pub fn as_str(self) -> (s: &'static str)
        ensures
            s@ == self.wire(),
    {
        match self {
            StorageScope::Cookies => "cookies",
            StorageScope::Local => "local",
            StorageScope::Session => "session",
            StorageScope::IndexedDb => "indexeddb",
        }
    }

    /// Parse a wire identifier (case matters); `None` for an unknown one.
    pub fn parse(s: &str) -> (r: Option<StorageScope>)
        ensures
            r == scope_named(s@),
    {
        let v = chars_of(s);
        if eq_lit(&v, "cookies") {
            Some(StorageScope::Cookies)
        } else if eq_lit(&v, "local") || eq_lit(&v, "localStorage") {
            Some(StorageScope::Local)
        } else if eq_lit(&v, "session") || eq_lit(&v, "sessionStorage") {
            Some(StorageScope::Session)
        } else if eq_lit(&v, "indexeddb") || eq_lit(&v, "idb") {
            Some(StorageScope::IndexedDb)
        } else {
            None
        }
    }
}

/// One storage entry. Cookies use the flag list; key/value stores use
/// only `key` and `value`; IndexedDB uses `key` for the database name
/// and `value` for its version and object stores.
#[derive(Debug, Clone)]
pub struct StorageEntry {
    pub key: String,
    pub value: String,
    /// Cookies only: `secure`, `httponly`, `samesite=...`, `expires=...`.
    pub flags: Vec<String>,
    /// True when the value is redacted unless unsafe logging is on.
    pub sensitive: bool,
}

/// One loaded script.
#[derive(Debug, Clone)]
pub struct ScriptEntry {
    /// Per-page sequential id, shown on the wire as `s_<seq>`.
    pub seq: u64,
    /// Source URL, or `inline:doc[<index>]` for inline scripts.
    pub source: String,
    /// Approximate source size in bytes.
    pub size: u64,
    pub state: ScriptState,
}

/// Load state of a script.
#[derive(Debug, Clone, Copy, PartialEq, Eq, Structural)]
pub enum ScriptState {
    Parsed,
    Loading,
    Error,
    BlockedCsp,
    BlockedPolicy,
}

impl ScriptState {
    /// The wire name of this state.
    pub open spec fn wire(self) -> Seq<char> {
        match self {
            ScriptState::Parsed => "parsed"@,
            ScriptState::Loading => "loading"@,
            ScriptState::Error => "error"@,
            ScriptState::BlockedCsp => "blocked-csp"@,
            ScriptState::BlockedPolicy => "blocked-policy"@,
        }
    }

    /// Wire-format name.
    pub fn as_str(self) -> (s: &'static str)
        ensures
            s@ == self.wire(),
    {
        match self {
            ScriptState::Parsed => "parsed",
            ScriptState::Loading => "loading",
            ScriptState::Error => "error",
            ScriptState::BlockedCsp => "blocked-csp",
            ScriptState::BlockedPolicy => "blocked-policy",
        }
    }
}

/// Source text of one script.
#[derive(Debug, Clone)]
pub struct ScriptSource {
    pub seq: u64,
    pub source_url: String,
    pub body: String,
}

/// Outer HTML and computed-style pairs of one ref.
#[derive(Debug, Clone)]
pub struct DomDetail {
    pub r: u32,
    pub outer_html: String,
    /// Computed style pairs in iteration order.
    pub computed: Vec<(String, String)>,
}

/// Bounded FIFO ring buffer for inspector captures. Adding to a full
/// buffer evicts the oldest entry; reads return the entries oldest first.
#[derive(Debug)]
pub struct RingBuffer<T> {
    items: VecDeque<T>,
    capacity: usize,
}

/// The contents of a ring buffer of capacity `cap` holding `before`
/// after `item` is pushed: the oldest entry is dropped when it is full.
pub open spec fn ring_push<T>(before: Seq<T>, cap: nat, item: T) -> Seq<T> {
    if before.len() == cap {
        before.subrange(1, before.len() as int).push(item)
    } else {
        before.push(item)
    }
}

/// The contents of a new ring buffer of capacity `cap` after `items` are
/// pushed in order.
pub open spec fn ring_run<T>(cap: nat, items: Seq<T>) -> Seq<T>
    decreases items.len(),
{
    if items.len() == 0 {
        Seq::empty()
    } else {
        ring_push(ring_run(cap, items.drop_last()), cap, items.last())
    }
}

/// Pushing any sequence of items into a new ring buffer (whose capacity
/// is at least 1) leaves the last `cap` of them, oldest first, or all of
/// them when there are fewer: the buffer never holds more than `cap`.
pub proof fn lemma_ring_run<T>(cap: nat, items: Seq<T>)
    requires
        1 <= cap,
    ensures
        ring_run(cap, items) == items.skip(if items.len() > cap { items.len() - cap } else { 0 }),
        ring_run(cap, items).len() <= cap,
    decreases items.len(),
{
    if items.len() > 0 {
        let init = items.drop_last();
        lemma_ring_run(cap, init);
        let r = ring_run(cap, init);
        if init.len() < cap {
            assert(r =~= init);
            assert(r.push(items.last()) =~= items);
            assert(items.skip(0) =~= items);
        } else {
            assert(r.len() == cap);
            assert(r.subrange(1, r.len() as int).push(items.last()) =~= items.skip(items.len() - cap));
        }
    } else {
        assert(items.skip(0) =~= items);
    }
}

impl<T> View for RingBuffer<T> {
    type V = Seq<T>;

    /// The buffered entries, oldest first.
    closed spec fn view(&self) -> Seq<T> {
        self.items@
    }
}

impl<T> RingBuffer<T> {
    #[verifier::type_invariant]
    spec fn bounded(self) -> bool {
        &&& 1 <= self.capacity
        &&& self.items@.len() <= self.capacity
    }

    /// The most entries the buffer holds at once.
    pub closed spec fn cap(self) -> nat {
        self.capacity as nat
    }
}

impl<T: Clone> RingBuffer<T> {
    /// A new empty buffer; a capacity of 0 is raised to 1 so that `push`
    /// always has room.
    pub fn new(capacity: usize) -> (r: Self)
        ensures
            r@ == Seq::<T>::empty(),
            r.cap() == if capacity == 0 { 1 } else { capacity as nat },
    {
        let capacity = if capacity == 0 { 1 } else { capacity };
        RingBuffer { items: VecDeque::with_capacity(capacity), capacity }
    }

    /// Append `item`, first evicting the oldest entry when the buffer is
    /// full.
    pub fn push(&mut self, item: T)
        ensures
            final(self).cap() == old(self).cap(),
            final(self)@.len() <= final(self).cap(),
            final(self)@ == ring_push(old(self)@, old(self).cap(), item),
    {
        proof {
            use_type_invariant(&*self);
        }
        let mut items: VecDeque<T> = VecDeque::new();
        std::mem::swap(&mut items, &mut self.items);
        if items.len() == self.capacity {
            let _ = items.pop_front();
        }
        items.push_back(item);
        self.items = items;
    }

    /// A copy of the entries, oldest first.
    pub fn snapshot(&self) -> (r: Vec<T>)
        ensures
            r@.len() == self@.len(),
            forall|i: int| 0 <= i < r@.len() ==> cloned::<T>(self@[i], #[trigger] r@[i]),
    {
        let mut r: Vec<T> = Vec::new();
        let mut i: usize = 0;
        while i < self.items.len()
            invariant
                i <= self.items@.len(),
                r@.len() == i,
                forall|j: int| 0 <= j < i ==> cloned::<T>(self.items@[j], #[trigger] r@[j]),
            decreases self.items@.len() - i,
        {
            let x = self.items[i].clone();
            r.push(x);
            i += 1;
        }
        r
    }

    /// Number of buffered entries.
    pub fn len(&self) -> (n: usize)
        ensures
            n == self@.len(),
            1 <= self.cap(),
            n <= self.cap(),
    {
        proof {
            use_type_invariant(self);
        }
        self.items.len()
    }

    /// True when nothing is buffered.
    pub fn is_empty(&self) -> (b: bool)
        ensures
            b == (self@.len() == 0),
    {
        self.items.len() == 0
    }

    /// The capacity the buffer was made with (after raising 0 to 1).
    pub fn capacity(&self) -> (n: usize)
        ensures
            n == self.cap(),
    {
        self.capacity
    }
}

impl<T: Clone> Clone for RingBuffer<T> {
    fn clone(&self) -> (r: Self)
        ensures
            r.cap() == self.cap(),
            r@.len() == self@.len(),
            forall|i: int| 0 <= i < r@.len() ==> cloned::<T>(self@[i], #[trigger] r@[i]),
    {
        proof {
            use_type_invariant(self);
        }
        RingBuffer { items: self.items.clone(), capacity: self.capacity }
    }
}

} // verus!
