//! Host-side decoding of the inspector capture channels.
//!
//! The backends inject a capture script into each page and receive
//! JSON-encoded events on two channels, `vsConsole` and `vsNetwork`.
//! This module decodes one message body and records it in the page's
//! bounded stores. Decoding is lenient: a malformed event is dropped,
//! since page script is hostile by default and the stores are
//! best-effort observability.
//!
//! Every store here is bounded by the same capacity, so a long-running
//! page cannot grow this state without limit.

use std::time::{Duration, SystemTime, UNIX_EPOCH};

use vstd::prelude::*;

use super::seq_store::{inserted_entries, inserted_keys, SeqStore};
use crate::inspector::{
    ConsoleEntry, ConsoleLevel, Header, NetworkEntry, NetworkStatus, RequestDetail, RingBuffer,
};

verus! {

/// Name of the console capture channel.
pub const CONSOLE_HANDLER: &'static str = "vsConsole";

/// Name of the network capture channel.
pub const NETWORK_HANDLER: &'static str = "vsNetwork";

// ---------------------------------------------------------------------
// JSON access, through serde_json.

/// Names whether `serde_json` parses `body` as a JSON value.
pub uninterp spec fn json_parses(body: Seq<char>) -> bool;

/// Names the string `serde_json` finds under `key` of the object `body`
/// parses to; `None` when it does not parse, is not an object, lacks the
/// key or holds a non-string there.
pub uninterp spec fn json_str_at(body: Seq<char>, key: Seq<char>) -> Option<Seq<char>>;

/// Names the unsigned integer under `key` of the object `body` parses to
/// (`serde_json::Value::as_u64`), as for [`json_str_at`].
pub uninterp spec fn json_u64_at(body: Seq<char>, key: Seq<char>) -> Option<u64>;

/// Names the signed integer under `key` of the object `body` parses to
/// (`serde_json::Value::as_i64`), as for [`json_str_at`].
pub uninterp spec fn json_i64_at(body: Seq<char>, key: Seq<char>) -> Option<i64>;

/// Names the array under `key` of the object `body` parses to, element
/// by element: `None` for an element that is not an array, else the
/// strings (if strings) at its first and second position.
pub uninterp spec fn json_pairs_at(body: Seq<char>, key: Seq<char>) -> Option<
    Seq<Option<(Option<Seq<char>>, Option<Seq<char>>)>>,
>;

/// The first two entries of a JSON array, each kept when it is a string.
pub struct JsonPair {
    pub first: Option<String>,
    pub second: Option<String>,
}

/// An optional string by its characters.
pub open spec fn opt_str(o: Option<String>) -> Option<Seq<char>> {
    match o {
        Some(s) => Some(s@),
        None => None,
    }
}

/// An optional pair by the characters of its strings.
pub open spec fn pair_view(p: Option<JsonPair>) -> Option<(Option<Seq<char>>, Option<Seq<char>>)> {
    match p {
        Some(q) => Some((opt_str(q.first), opt_str(q.second))),
        None => None,
    }
}

/// `serde_json::from_str::<serde_json::Value>(body).is_ok()`.
#[verifier::external_body]
fn json_valid(body: &str) -> (b: bool)
    ensures
        b == json_parses(body@),
{
    serde_json::from_str::<serde_json::Value>(body).is_ok()
}

/// `serde_json` parse of `body`, then `get(key)` and `as_str`.
#[verifier::external_body]
pub(crate) fn json_str(body: &str, key: &str) -> (r: Option<String>)
    ensures
        opt_str(r) == json_str_at(body@, key@),
{
    let v = serde_json::from_str::<serde_json::Value>(body).ok()?;
    v.get(key)?.as_str().map(str::to_string)
}

/// `serde_json` parse of `body`, then `get(key)` and `as_u64`.
#[verifier::external_body]
pub(crate) fn json_u64(body: &str, key: &str) -> (r: Option<u64>)
    ensures
        r == json_u64_at(body@, key@),
{
    let v = serde_json::from_str::<serde_json::Value>(body).ok()?;
    v.get(key)?.as_u64()
}

/// `serde_json` parse of `body`, then `get(key)` and `as_i64`.
#[verifier::external_body]
fn json_i64(body: &str, key: &str) -> (r: Option<i64>)
    ensures
        r == json_i64_at(body@, key@),
{
    let v = serde_json::from_str::<serde_json::Value>(body).ok()?;
    v.get(key)?.as_i64()
}

/// `serde_json` parse of `body`, then `get(key)`, `as_array`, and for
/// each element `as_array` with the `as_str` of its first two entries.
#[verifier::external_body]
pub(crate) fn json_pairs(body: &str, key: &str) -> (r: Option<Vec<Option<JsonPair>>>)
    ensures
        match r {
            Some(v) => json_pairs_at(body@, key@) == Some(v@.map_values(|p: Option<JsonPair>| pair_view(p))),
            None => json_pairs_at(body@, key@) == None::<Seq<Option<(Option<Seq<char>>, Option<Seq<char>>)>>>,
        },
{
    let v = serde_json::from_str::<serde_json::Value>(body).ok()?;
    let arr = v.get(key)?.as_array()?;
    Some(arr.iter().map(|e| e.as_array().map(|p| JsonPair {
        first: p.first().and_then(|x| x.as_str()).map(str::to_string),
        second: p.get(1).and_then(|x| x.as_str()).map(str::to_string),
    })).collect())
}

/// Names the string `serde_json` decodes `body` to when `body` is a JSON
/// string literal; `None` otherwise.
pub uninterp spec fn json_string_content(body: Seq<char>) -> Option<Seq<char>>;

/// Names the text of the error `serde_json` reports when `body` does not
/// parse as a JSON value; `None` when it parses.
pub uninterp spec fn json_error_text(body: Seq<char>) -> Option<Seq<char>>;

/// Names the elements of the array `body` parses to, each written back
/// as JSON text; `None` when it does not parse or is not an array.
pub uninterp spec fn json_array_items_at(body: Seq<char>) -> Option<Seq<Seq<char>>>;

/// Names the boolean under `key` of the object `body` parses to
/// (`serde_json::Value::as_bool`), as for [`json_str_at`].
pub uninterp spec fn json_bool_at(body: Seq<char>, key: Seq<char>) -> Option<bool>;

/// `serde_json::from_str::<String>(body)`, kept when it succeeds.
#[verifier::external_body]
pub(crate) fn json_decode_string(body: &str) -> (r: Option<String>)
    ensures
        opt_str(r) == json_string_content(body@),
{
    serde_json::from_str::<String>(body).ok()
}

/// The `Display` text of the error of `serde_json::from_str::<Value>`;
/// `None` exactly when the parse succeeds.
#[verifier::external_body]
pub(crate) fn json_parse_error(body: &str) -> (r: Option<String>)
    ensures
        opt_str(r) == json_error_text(body@),
        r.is_none() == json_parses(body@),
{
    serde_json::from_str::<serde_json::Value>(body).err().map(|e| e.to_string())
}

/// `serde_json` parse of `body`, then `as_array`, each element written
/// back with `to_string`.
#[verifier::external_body]
pub(crate) fn json_array_items(body: &str) -> (r: Option<Vec<String>>)
    ensures
        match r {
            Some(v) => json_array_items_at(body@) == Some(v@.map_values(|t: String| t@)),
            None => json_array_items_at(body@) == None::<Seq<Seq<char>>>,
        },
{
    let v = serde_json::from_str::<serde_json::Value>(body).ok()?;
    Some(v.as_array()?.iter().map(|e| e.to_string()).collect())
}

/// `serde_json` parse of `body`, then `get(key)` and `as_bool`.
#[verifier::external_body]
pub(crate) fn json_bool(body: &str, key: &str) -> (r: Option<bool>)
    ensures
        r == json_bool_at(body@, key@),
{
    let v = serde_json::from_str::<serde_json::Value>(body).ok()?;
    v.get(key)?.as_bool()
}

/// Names whether `body` parses as the JSON value `null`.
pub uninterp spec fn json_null_at(body: Seq<char>) -> bool;

/// Names what `serde_json::to_string` writes for a list of strings: a
/// JSON array of string literals; `None` when serialization fails.
pub uninterp spec fn json_string_list_literal(items: Seq<Seq<char>>) -> Option<Seq<char>>;

/// `serde_json` parse of `body`, then `is_null`; false when it does not
/// parse.
#[verifier::external_body]
pub(crate) fn json_is_null(body: &str) -> (b: bool)
    ensures
        b == json_null_at(body@),
        b ==> json_parses(body@),
{
    serde_json::from_str::<serde_json::Value>(body).is_ok_and(|v| v.is_null())
}

/// `serde_json::to_string` of a slice of strings.
#[verifier::external_body]
pub(crate) fn json_string_list(items: &[String]) -> (r: Option<String>)
    ensures
        opt_str(r) == json_string_list_literal(items@.map_values(|t: String| t@)),
{
    serde_json::to_string(items).ok()
}

// ---------------------------------------------------------------------
// Time.

/// Names the instant `ms` milliseconds after the Unix epoch.
pub uninterp spec fn millis_after_epoch(ms: u64) -> SystemTime;

/// The last millisecond of the year 9999 (UTC), in milliseconds after the
/// Unix epoch: the latest capture stamp read as it stands.
pub const MAX_STAMP_MS: u64 = 253_402_300_799_999;

/// `UNIX_EPOCH + Duration::from_millis(ms)`. The sum panics only when the
/// platform's `SystemTime` cannot hold the instant; `ms` is bounded to the
/// year 9999, which every `SystemTime` representation holds (seconds in
/// an `i64` on the Unix targets, 100 ns ticks in a `u64` counted from
/// 1601 on Windows, good to the year 30828).
#[verifier::external_body]
fn time_after_epoch(ms: u64) -> (t: SystemTime)
    requires
        ms <= MAX_STAMP_MS,
    ensures
        t == millis_after_epoch(ms),
{
    UNIX_EPOCH + Duration::from_millis(ms)
}

/// `SystemTime::now()`: the clock is read, so nothing is claimed of the
/// result.
#[verifier::external_body]
fn time_now() -> SystemTime {
    SystemTime::now()
}

/// The instant a capture timestamp in epoch milliseconds stands for;
/// zero and negative stamps mean the epoch itself, and stamps past
/// [`MAX_STAMP_MS`] are read as that last millisecond.
pub open spec fn instant_of_millis(ms: i64) -> SystemTime {
    if ms <= 0 {
        millis_after_epoch(0)
    } else if ms > MAX_STAMP_MS {
        millis_after_epoch(MAX_STAMP_MS)
    } else {
        millis_after_epoch(ms as u64)
    }
}

fn ts_from_ms(ms: i64) -> (t: SystemTime)
    ensures
        t == instant_of_millis(ms),
{
    if ms <= 0 {
        return time_after_epoch(0);
    }
    let u = ms as u64;
    if u > MAX_STAMP_MS {
        return time_after_epoch(MAX_STAMP_MS);
    }
    time_after_epoch(u)
}

// ---------------------------------------------------------------------
// Bounded stores.

/// The headers of a sequence by the characters of their names and values.
pub open spec fn header_views(v: Seq<Header>) -> Seq<(Seq<char>, Seq<char>)> {
    v.map_values(|h: Header| (h.name@, h.value@))
}

/// Bounded request-detail store read by the request inspection
/// primitive. Details are inserted on every network `end` event in
/// lockstep with the network ring buffer and evicted oldest first at the
/// same capacity, so the two stay aligned.
pub struct RequestDetailStore {
    inner: SeqStore<RequestDetail>,
}

impl RequestDetailStore {
    proof fn lemma_wf(self)
        ensures
            self.wf() == self.inner.wf(),
    {
        if self.wf() {
            assert forall|k: u64| #[trigger] self.inner.entries().contains_key(k) <==> self.inner.keys().contains(k) by {
                assert(self.entries().contains_key(k) == self.keys().contains(k));
            }
        }
        if self.inner.wf() {
            assert forall|k: u64| #[trigger] self.entries().contains_key(k) <==> self.keys().contains(k) by {
                assert(self.inner.entries().contains_key(k) == self.inner.keys().contains(k));
            }
        }
    }

    /// The stored details by sequence number.
    pub closed spec fn entries(self) -> Map<u64, RequestDetail> {
        self.inner.entries()
    }

    /// The stored sequence numbers, oldest first.
    pub closed spec fn keys(self) -> Seq<u64> {
        self.inner.keys()
    }

    /// The most details the store holds at once.
    pub closed spec fn cap(self) -> nat {
        self.inner.cap()
    }

    /// The keys are distinct, at most `cap` of them, and exactly the keys
    /// of the entries.
    pub open spec fn wf(self) -> bool {
        &&& 1 <= self.cap()
        &&& self.keys().len() <= self.cap()
        &&& self.keys().no_duplicates()
        &&& forall|k: u64| #[trigger] self.entries().contains_key(k) <==> self.keys().contains(k)
    }

    /// An empty store of the given capacity (0 is raised to 1).
    pub fn new(capacity: usize) -> (r: Self)
        ensures
            r.wf(),
            r.entries() == Map::<u64, RequestDetail>::empty(),
            r.keys() == Seq::<u64>::empty(),
            r.cap() == if capacity == 0 { 1 } else { capacity as nat },
    {
        let r = RequestDetailStore { inner: SeqStore::new(capacity) };
        proof {
            r.lemma_wf();
        }
        r
    }

    /// Record `detail` under `seq`. A present `seq` is overwritten in
    /// place; a new one evicts the oldest when the store is full.
    pub fn insert(&mut self, seq: u64, detail: RequestDetail)
        requires
            old(self).wf(),
        ensures
            final(self).wf(),
            final(self).cap() == old(self).cap(),
            final(self).keys() == inserted_keys(
                old(self).keys(),
                old(self).entries().contains_key(seq),
                old(self).cap(),
                seq,
            ),
            final(self).entries() == inserted_entries(
                old(self).entries(),
                old(self).keys(),
                old(self).cap(),
                seq,
                detail,
            ),
    {
        proof {
            old(self).lemma_wf();
        }
        self.inner.insert(seq, detail);
        proof {
            self.lemma_wf();
        }
    }

    /// Remove and return the detail of `seq`, if held.
    pub fn remove(&mut self, seq: u64) -> (r: Option<RequestDetail>)
        requires
            old(self).wf(),
        ensures
            final(self).wf(),
            final(self).cap() == old(self).cap(),
            match r {
                Some(v) => {
                    &&& old(self).entries().contains_key(seq)
                    &&& v == old(self).entries()[seq]
                    &&& final(self).entries() == old(self).entries().remove(seq)
                    &&& exists|i: int|
                        0 <= i < old(self).keys().len() && old(self).keys()[i] == seq
                            && final(self).keys() == old(self).keys().remove(i)
                },
                None => {
                    &&& !old(self).entries().contains_key(seq)
                    &&& final(self).entries() == old(self).entries()
                    &&& final(self).keys() == old(self).keys()
                },
            },
    {
        proof {
            old(self).lemma_wf();
        }
        let r = self.inner.take(seq);
        proof {
            self.lemma_wf();
        }
        r
    }

    /// The detail held for `seq`, if any.
    pub fn get(&self, seq: u64) -> (r: Option<&RequestDetail>)
        ensures
            match r {
                Some(v) => self.entries().contains_key(seq) && *v == self.entries()[seq],
                None => !self.entries().contains_key(seq),
            },
    {
        self.inner.get(seq)
    }

    /// Number of details held.
    pub fn len(&self) -> (n: usize)
        requires
            self.wf(),
        ensures
            n == self.keys().len(),
            n == self.entries().dom().len(),
    {
        proof {
            self.lemma_wf();
        }
        self.inner.len()
    }

    /// True when no detail is held.
    pub fn is_empty(&self) -> (b: bool)
        requires
            self.wf(),
        ensures
            b == (self.keys().len() == 0),
    {
        proof {
            self.lemma_wf();
        }
        self.inner.is_empty()
    }

    /// The capacity the store was made with.
    pub fn capacity(&self) -> (n: usize)
        ensures
            n == self.cap(),
    {
        self.inner.capacity()
    }
}

/// The request side of a network request that has started and not yet
/// ended.
#[derive(Clone)]
pub struct PendingEntry {
    pub start_ms: i64,
    pub req_headers: Vec<Header>,
    pub req_body: Option<String>,
}

/// In-flight network state keyed by sequence number, folding a `start`
/// and a later `end` event into one entry and one detail. Requests that
/// start and never end are evicted oldest first at the capacity.
pub struct NetworkPending {
    inner: SeqStore<PendingEntry>,
}

impl NetworkPending {
    proof fn lemma_wf(self)
        ensures
            self.wf() == self.inner.wf(),
    {
        if self.wf() {
            assert forall|k: u64| #[trigger] self.inner.entries().contains_key(k) <==> self.inner.keys().contains(k) by {
                assert(self.entries().contains_key(k) == self.keys().contains(k));
            }
        }
        if self.inner.wf() {
            assert forall|k: u64| #[trigger] self.entries().contains_key(k) <==> self.keys().contains(k) by {
                assert(self.inner.entries().contains_key(k) == self.inner.keys().contains(k));
            }
        }
    }

    /// The pending requests by sequence number.
    pub closed spec fn entries(self) -> Map<u64, PendingEntry> {
        self.inner.entries()
    }

    /// The pending sequence numbers, oldest first.
    pub closed spec fn keys(self) -> Seq<u64> {
        self.inner.keys()
    }

    /// The most pending requests held at once.
    pub closed spec fn cap(self) -> nat {
        self.inner.cap()
    }

    /// The keys are distinct, at most `cap` of them, and exactly the keys
    /// of the entries.
    pub open spec fn wf(self) -> bool {
        &&& 1 <= self.cap()
        &&& self.keys().len() <= self.cap()
        &&& self.keys().no_duplicates()
        &&& forall|k: u64| #[trigger] self.entries().contains_key(k) <==> self.keys().contains(k)
    }

    /// An empty table of the given capacity (0 is raised to 1).
    pub fn new(capacity: usize) -> (r: Self)
        ensures
            r.wf(),
            r.entries() == Map::<u64, PendingEntry>::empty(),
            r.keys() == Seq::<u64>::empty(),
            r.cap() == if capacity == 0 { 1 } else { capacity as nat },
    {
        let r = NetworkPending { inner: SeqStore::new(capacity) };
        proof {
            r.lemma_wf();
        }
        r
    }

    /// Record the start of `seq`. A repeated start overwrites in place; a
    /// new one evicts the oldest when the table is full.
    pub fn insert(&mut self, seq: u64, entry: PendingEntry)
        requires
            old(self).wf(),
        ensures
            final(self).wf(),
            final(self).cap() == old(self).cap(),
            final(self).keys() == inserted_keys(
                old(self).keys(),
                old(self).entries().contains_key(seq),
                old(self).cap(),
                seq,
            ),
            final(self).entries() == inserted_entries(
                old(self).entries(),
                old(self).keys(),
                old(self).cap(),
                seq,
                entry,
            ),
    {
        proof {
            old(self).lemma_wf();
        }
        self.inner.insert(seq, entry);
        proof {
            self.lemma_wf();
        }
    }

    /// Remove and return the entry of `seq`, scrubbing it from the order.
    pub fn take(&mut self, seq: u64) -> (r: Option<PendingEntry>)
        requires
            old(self).wf(),
        ensures
            final(self).wf(),
            final(self).cap() == old(self).cap(),
            match r {
                Some(v) => {
                    &&& old(self).entries().contains_key(seq)
                    &&& v == old(self).entries()[seq]
                    &&& final(self).entries() == old(self).entries().remove(seq)
                    &&& exists|i: int|
                        0 <= i < old(self).keys().len() && old(self).keys()[i] == seq
                            && final(self).keys() == old(self).keys().remove(i)
                },
                None => {
                    &&& !old(self).entries().contains_key(seq)
                    &&& final(self).entries() == old(self).entries()
                    &&& final(self).keys() == old(self).keys()
                },
            },
    {
        proof {
            old(self).lemma_wf();
        }
        let r = self.inner.take(seq);
        proof {
            self.lemma_wf();
        }
        r
    }

    /// Number of pending requests.
    pub fn len(&self) -> (n: usize)
        requires
            self.wf(),
        ensures
            n == self.keys().len(),
            n == self.entries().dom().len(),
    {
        proof {
            self.lemma_wf();
        }
        self.inner.len()
    }

    /// True when nothing is pending.
    pub fn is_empty(&self) -> (b: bool)
        requires
            self.wf(),
        ensures
            b == (self.keys().len() == 0),
    {
        proof {
            self.lemma_wf();
        }
        self.inner.is_empty()
    }

    /// The capacity the table was made with.
    pub fn capacity(&self) -> (n: usize)
        ensures
            n == self.cap(),
    {
        self.inner.capacity()
    }
}

/// The inspector state of one page: console and network ring buffers,
/// request details and pending requests, all bounded by one capacity.
pub struct InspectorSlots {
    pub console: RingBuffer<ConsoleEntry>,
    pub network: RingBuffer<NetworkEntry>,
    pub details: RequestDetailStore,
    pub pending: NetworkPending,
}

impl InspectorSlots {
    /// Empty stores, each of the given capacity (0 raised to 1).
    pub fn new(capacity: usize) -> (r: Self)
        ensures
            r.console@.len() == 0,
            r.network@.len() == 0,
            r.details.wf() && r.details.keys().len() == 0,
            r.pending.wf() && r.pending.keys().len() == 0,
            r.console.cap() == if capacity == 0 { 1 } else { capacity as nat },
            r.network.cap() == r.console.cap(),
            r.details.cap() == r.console.cap(),
            r.pending.cap() == r.console.cap(),
    {
        InspectorSlots {
            console: RingBuffer::new(capacity),
            network: RingBuffer::new(capacity),
            details: RequestDetailStore::new(capacity),
            pending: NetworkPending::new(capacity),
        }
    }
}

// ---------------------------------------------------------------------
// Decoding.

/// The level a console event's `level` name stands for; unknown names
/// are `Log`.
pub open spec fn level_from_name(s: Seq<char>) -> ConsoleLevel {
    if s == "error"@ {
        ConsoleLevel::Error
    } else if s == "warn"@ {
        ConsoleLevel::Warn
    } else if s == "info"@ {
        ConsoleLevel::Info
    } else if s == "debug"@ {
        ConsoleLevel::Debug
    } else {
        ConsoleLevel::Log
    }
}

/// A console event is filed under the level its `level` field names:
/// each level's wire name (`error`, `warn`, `info`, `log`, `debug`) gives
/// that level, and any other name gives `Log`.
pub proof fn lemma_console_level_names(l: ConsoleLevel, s: Seq<char>)
    ensures
        level_from_name(l.wire()) == l,
        (forall|m: ConsoleLevel| s != #[trigger] m.wire()) ==> level_from_name(s) == ConsoleLevel::Log,
{
    reveal_strlit("error");
    reveal_strlit("warn");
    reveal_strlit("info");
    reveal_strlit("log");
    reveal_strlit("debug");
    match l {
        ConsoleLevel::Error => {},
        ConsoleLevel::Warn => {
            assert("warn"@.len() != "error"@.len());
        },
        ConsoleLevel::Info => {
            assert("info"@.len() != "error"@.len());
            assert("info"@[0] != "warn"@[0]);
        },
        ConsoleLevel::Log => {
            assert("log"@.len() != "error"@.len());
            assert("log"@.len() != "warn"@.len());
            assert("log"@.len() != "info"@.len());
            assert("log"@.len() != "debug"@.len());
        },
        ConsoleLevel::Debug => {
            assert("debug"@[0] != "error"@[0]);
            assert("debug"@.len() != "warn"@.len());
            assert("debug"@.len() != "info"@.len());
        },
    }
    if forall|m: ConsoleLevel| s != #[trigger] m.wire() {
        assert(s != ConsoleLevel::Error.wire());
        assert(s != ConsoleLevel::Warn.wire());
        assert(s != ConsoleLevel::Info.wire());
        assert(s != ConsoleLevel::Debug.wire());
    }
}

fn parse_level(s: &str) -> (l: ConsoleLevel)
    ensures
        l == level_from_name(s@),
{
    let v = crate::text::chars_of(s);
    if crate::text::eq_lit(&v, "error") {
        ConsoleLevel::Error
    } else if crate::text::eq_lit(&v, "warn") {
        ConsoleLevel::Warn
    } else if crate::text::eq_lit(&v, "info") {
        ConsoleLevel::Info
    } else if crate::text::eq_lit(&v, "debug") {
        ConsoleLevel::Debug
    } else {
        ConsoleLevel::Log
    }
}

/// The headers kept from a decoded pair list: the pairs whose first two
/// entries are both strings, in order.
pub open spec fn kept_headers(s: Seq<Option<(Option<Seq<char>>, Option<Seq<char>>)>>) -> Seq<(Seq<char>, Seq<char>)>
    decreases s.len(),
{
    if s.len() == 0 {
        Seq::empty()
    } else {
        let rest = kept_headers(s.drop_last());
        match s.last() {
            Some((Some(n), Some(v))) => rest.push((n, v)),
            _ => rest,
        }
    }
}

/// The headers under `key` of `body`: none when there is no such array.
pub open spec fn headers_at(body: Seq<char>, key: Seq<char>) -> Seq<(Seq<char>, Seq<char>)> {
    match json_pairs_at(body, key) {
        Some(s) => kept_headers(s),
        None => Seq::empty(),
    }
}

fn parse_headers(body: &str, key: &str) -> (r: Vec<Header>)
    ensures
        header_views(r@) == headers_at(body@, key@),
{
    let pairs = json_pairs(body, key);
    let mut out: Vec<Header> = Vec::new();
    match pairs {
        None => {
            assert(header_views(out@) =~= Seq::<(Seq<char>, Seq<char>)>::empty());
            out
        },
        Some(ps) => {
            let ghost pv = ps@.map_values(|p: Option<JsonPair>| pair_view(p));
            let mut i: usize = 0;
            while i < ps.len()
                invariant
                    i <= ps@.len(),
                    pv == ps@.map_values(|p: Option<JsonPair>| pair_view(p)),
                    header_views(out@) == kept_headers(pv.take(i as int)),
                decreases ps@.len() - i,
            {
                let ghost before = out@;
                match &ps[i] {
                    Some(JsonPair { first: Some(n), second: Some(v) }) => {
                        out.push(Header { name: n.clone(), value: v.clone() });
                    },
                    _ => {},
                }
                proof {
                    assert(pv.take(i + 1).drop_last() =~= pv.take(i as int));
                    assert(pv.take(i + 1).last() == pair_view(ps@[i as int]));
                    assert(header_views(out@) =~= kept_headers(pv.take(i + 1))) by {
                        if out@.len() > before.len() {
                            assert(out@ == before.push(out@.last()));
                            assert(header_views(before.push(out@.last())) =~= header_views(before).push((out@.last().name@, out@.last().value@)));
                        } else {
                            assert(out@ == before);
                        }
                    }
                }
                i += 1;
            }
            assert(pv.take(ps@.len() as int) =~= pv);
            out
        },
    }
}

/// `before` with one entry appended to a ring buffer of capacity `cap`:
/// the oldest entry is gone when the buffer was full.
pub open spec fn ring_pushed<T>(before: Seq<T>, cap: nat, after: Seq<T>) -> bool {
    &&& after.len() > 0
    &&& after.drop_last() == if before.len() == cap {
        before.subrange(1, before.len() as int)
    } else {
        before
    }
}

/// What a string field gives with a default for an absent one.
pub open spec fn str_or(o: Option<Seq<char>>, d: Seq<char>) -> Seq<char> {
    match o {
        Some(s) => s,
        None => d,
    }
}

/// The console entry decoded from `body`, field by field; the timestamp
/// is the clock's when `ts_ms` is absent.
pub open spec fn console_entry_from(e: ConsoleEntry, body: Seq<char>) -> bool {
    &&& e.level == match json_str_at(body, "level"@) {
        Some(s) => level_from_name(s),
        None => ConsoleLevel::Log,
    }
    &&& e.message@ == str_or(json_str_at(body, "message"@), Seq::empty())
    &&& opt_str(e.stack) == json_str_at(body, "stack"@)
    &&& (json_i64_at(body, "ts_ms"@) matches Some(ms) ==> e.timestamp == instant_of_millis(ms))
}

/// Decode a `vsConsole` body and push it into the buffer; a body that is
/// not JSON is dropped.
pub fn ingest_console(buf: &mut RingBuffer<ConsoleEntry>, body: &str)
    ensures
        final(buf).cap() == old(buf).cap(),
        !json_parses(body@) ==> final(buf)@ == old(buf)@,
        json_parses(body@) ==> ring_pushed(old(buf)@, old(buf).cap(), final(buf)@)
            && console_entry_from(final(buf)@.last(), body@),
{
    if !json_valid(body) {
        return;
    }
    let level = match json_str(body, "level") {
        Some(s) => parse_level(s.as_str()),
        None => ConsoleLevel::Log,
    };
    let message = match json_str(body, "message") {
        Some(s) => s,
        None => String::new(),
    };
    let stack = json_str(body, "stack");
    let timestamp = match json_i64(body, "ts_ms") {
        Some(ms) => ts_from_ms(ms),
        None => time_now(),
    };
    let entry = ConsoleEntry { timestamp, level, message, stack };
    let ghost e = entry;
    buf.push(entry);
    proof {
        assert(final(buf)@.last() == e) by {
            if old(buf)@.len() == old(buf).cap() {
                assert(final(buf)@ == old(buf)@.subrange(1, old(buf)@.len() as int).push(e));
            }
        }
        if old(buf)@.len() == old(buf).cap() {
            assert(final(buf)@.drop_last() =~= old(buf)@.subrange(1, old(buf)@.len() as int));
        } else {
            assert(final(buf)@.drop_last() =~= old(buf)@);
        }
        assert(ring_pushed(old(buf)@, old(buf).cap(), final(buf)@));
    }
}

/// Bundles the three stores a network event updates.
pub struct NetworkIngestSlot<'a> {
    pub entries: &'a mut RingBuffer<NetworkEntry>,
    pub details: &'a mut RequestDetailStore,
    pub pending: &'a mut NetworkPending,
}

/// The pending entry a `start` body records.
pub open spec fn pending_from(p: PendingEntry, body: Seq<char>) -> bool {
    &&& p.start_ms == match json_i64_at(body, "ts_ms"@) {
        Some(t) => t,
        None => 0i64,
    }
    &&& header_views(p.req_headers@) == headers_at(body, "req_headers"@)
    &&& opt_str(p.req_body) == json_str_at(body, "req_body"@)
}

/// The status an `end` body reports: `Abort` for code 0 (or none), else
/// the code truncated to 16 bits.
pub open spec fn status_from(body: Seq<char>) -> NetworkStatus {
    let code = match json_u64_at(body, "status"@) {
        Some(c) => c,
        None => 0u64,
    };
    if code == 0 {
        NetworkStatus::Abort
    } else {
        NetworkStatus::Code(code as u16)
    }
}

/// The end timestamp of an `end` body, 0 when absent.
pub open spec fn end_ms_from(body: Seq<char>) -> i64 {
    match json_i64_at(body, "ts_ms"@) {
        Some(t) => t,
        None => 0i64,
    }
}

/// The latency from `start` to `end`, none when the end precedes it.
pub open spec fn latency_of(start: i64, end: i64) -> Option<u64> {
    if end >= start {
        Some((end - start) as u64)
    } else {
        None
    }
}

/// The network entry an `end` body for `seq` yields, given the pending
/// start it closes (if any).
pub open spec fn network_entry_from(e: NetworkEntry, seq: u64, body: Seq<char>, start: Option<PendingEntry>) -> bool {
    let end = end_ms_from(body);
    let start_ms = match start {
        Some(p) => p.start_ms,
        None => end,
    };
    &&& e.seq == seq
    &&& e.timestamp == instant_of_millis(end)
    &&& e.method@ == str_or(json_str_at(body, "method"@), "GET"@)
    &&& e.url@ == str_or(json_str_at(body, "url"@), Seq::empty())
    &&& e.status == status_from(body)
    &&& e.size == match json_u64_at(body, "size"@) {
        Some(s) => s,
        None => 0u64,
    }
    &&& e.latency_ms == latency_of(start_ms, end)
}

/// The request detail an `end` body for `seq` yields, given the pending
/// start it closes (if any).
pub open spec fn detail_from(d: RequestDetail, seq: u64, body: Seq<char>, start: Option<PendingEntry>) -> bool {
    &&& d.seq == seq
    &&& d.method@ == str_or(json_str_at(body, "method"@), "GET"@)
    &&& d.url@ == str_or(json_str_at(body, "url"@), Seq::empty())
    &&& d.status == status_from(body)
    &&& header_views(d.request_headers@) == match start {
        Some(p) => header_views(p.req_headers@),
        None => Seq::empty(),
    }
    &&& opt_str(d.request_body) == match start {
        Some(p) => opt_str(p.req_body),
        None => None,
    }
    &&& header_views(d.response_headers@) == headers_at(body, "res_headers"@)
    &&& opt_str(d.response_body) == json_str_at(body, "res_body"@)
}

/// Decode a `vsNetwork` body and update the stores. A `start` event
/// records the request side as pending; an `end` event closes it,
/// appending a network entry and recording the request detail. Bodies
/// that are not JSON, lack a `seq`, or carry another phase change
/// nothing.
pub fn ingest_network(slot: NetworkIngestSlot<'_>, body: &str)
    requires
        old(slot.details).wf(),
        old(slot.pending).wf(),
    ensures
        final(slot.details).wf(),
        final(slot.pending).wf(),
        final(slot.entries).cap() == old(slot.entries).cap(),
        final(slot.details).cap() == old(slot.details).cap(),
        final(slot.pending).cap() == old(slot.pending).cap(),
        ({
            let seq = json_u64_at(body@, "seq"@);
            let phase = json_str_at(body@, "phase"@);
            if !json_parses(body@) || seq is None || (phase != Some("start"@) && phase != Some("end"@)) {
                &&& final(slot.entries)@ == old(slot.entries)@
                &&& final(slot.details).entries() == old(slot.details).entries()
                &&& final(slot.details).keys() == old(slot.details).keys()
                &&& final(slot.pending).entries() == old(slot.pending).entries()
                &&& final(slot.pending).keys() == old(slot.pending).keys()
            } else if phase == Some("start"@) {
                let s = seq.unwrap();
                &&& final(slot.entries)@ == old(slot.entries)@
                &&& final(slot.details).entries() == old(slot.details).entries()
                &&& final(slot.details).keys() == old(slot.details).keys()
                &&& final(slot.pending).keys() == inserted_keys(
                    old(slot.pending).keys(),
                    old(slot.pending).entries().contains_key(s),
                    old(slot.pending).cap(),
                    s,
                )
                &&& exists|p: PendingEntry| pending_from(p, body@)
                    && final(slot.pending).entries() == #[trigger] inserted_entries(
                        old(slot.pending).entries(),
                        old(slot.pending).keys(),
                        old(slot.pending).cap(),
                        s,
                        p,
                    )
            } else {
                let s = seq.unwrap();
                let start = if old(slot.pending).entries().contains_key(s) {
                    Some(old(slot.pending).entries()[s])
                } else {
                    None
                };
                &&& final(slot.pending).entries() == old(slot.pending).entries().remove(s)
                &&& (old(slot.pending).entries().contains_key(s) ==> exists|i: int|
                    0 <= i < old(slot.pending).keys().len() && old(slot.pending).keys()[i] == s
                        && final(slot.pending).keys() == old(slot.pending).keys().remove(i))
                &&& (!old(slot.pending).entries().contains_key(s) ==> final(slot.pending).keys()
                    == old(slot.pending).keys())
                &&& ring_pushed(old(slot.entries)@, old(slot.entries).cap(), final(slot.entries)@)
                &&& network_entry_from(final(slot.entries)@.last(), s, body@, start)
                &&& final(slot.details).keys() == inserted_keys(
                    old(slot.details).keys(),
                    old(slot.details).entries().contains_key(s),
                    old(slot.details).cap(),
                    s,
                )
                &&& exists|d: RequestDetail| detail_from(d, s, body@, start)
                    && final(slot.details).entries() == #[trigger] inserted_entries(
                        old(slot.details).entries(),
                        old(slot.details).keys(),
                        old(slot.details).cap(),
                        s,
                        d,
                    )
            }
        }),
{
    let NetworkIngestSlot { entries, details, pending } = slot;
    let ghost e0 = *entries;
    let ghost d0 = *details;
    let ghost p0 = *pending;
    proof {
        reveal_strlit("start");
        reveal_strlit("end");
    }
    if !json_valid(body) {
        return;
    }
    let seq = match json_u64(body, "seq") {
        Some(s) => s,
        None => return,
    };
    let phase_text = json_str(body, "phase");
    let phase: Vec<char> = match &phase_text {
        Some(p) => crate::text::chars_of(p.as_str()),
        None => Vec::new(),
    };
    assert(opt_str(phase_text) == json_str_at(body@, "phase"@));
    assert(phase_text is Some ==> phase@ == phase_text->0@);
    assert(phase_text is None ==> phase@.len() == 0);
    if crate::text::eq_lit(&phase, "start") {
        let start_ms = match json_i64(body, "ts_ms") {
            Some(t) => t,
            None => 0,
        };
        let entry = PendingEntry {
            start_ms,
            req_headers: parse_headers(body, "req_headers"),
            req_body: json_str(body, "req_body"),
        };
        let ghost p = entry;
        pending.insert(seq, entry);
        proof {
            assert(pending_from(p, body@));
            assert(pending.entries() == inserted_entries(p0.entries(), p0.keys(), p0.cap(), seq, p));
            assert(json_str_at(body@, "phase"@) == Some("start"@));
        }
        return;
    }
    if !crate::text::eq_lit(&phase, "end") {
        return;
    }
    let method = match json_str(body, "method") {
        Some(m) => m,
        None => "GET".to_owned(),
    };
    let url = match json_str(body, "url") {
        Some(u) => u,
        None => String::new(),
    };
    let status_code = match json_u64(body, "status") {
        Some(c) => c,
        None => 0,
    };
    let status = if status_code == 0 {
        NetworkStatus::Abort
    } else {
        NetworkStatus::Code(status_code as u16)
    };
    let end_ms = match json_i64(body, "ts_ms") {
        Some(t) => t,
        None => 0,
    };
    let taken = pending.take(seq);
    let start_ms = match &taken {
        Some(p) => p.start_ms,
        None => end_ms,
    };
    let latency = if end_ms >= start_ms {
        Some((end_ms as i128 - start_ms as i128) as u64)
    } else {
        None
    };
    let size = match json_u64(body, "size") {
        Some(s) => s,
        None => 0,
    };
    let timestamp = ts_from_ms(end_ms);
    let entry = NetworkEntry {
        seq,
        timestamp,
        method: method.clone(),
        url: url.clone(),
        status: status.clone(),
        size,
        latency_ms: latency,
    };
    let ghost ne = entry;
    entries.push(entry);
    let (req_headers, req_body) = match taken {
        Some(p) => (p.req_headers, p.req_body),
        None => {
            let hs: Vec<Header> = Vec::new();
            assert(header_views(hs@) =~= Seq::<(Seq<char>, Seq<char>)>::empty());
            (hs, None)
        },
    };
    let detail = RequestDetail {
        seq,
        method,
        url,
        status,
        request_headers: req_headers,
        request_body: req_body,
        response_headers: parse_headers(body, "res_headers"),
        response_body: json_str(body, "res_body"),
    };
    let ghost d = detail;
    details.insert(seq, detail);
    proof {
        assert(entries@.last() == ne);
        assert(network_entry_from(ne, seq, body@, if p0.entries().contains_key(seq) { Some(p0.entries()[seq]) } else { None }));
        assert(detail_from(d, seq, body@, if p0.entries().contains_key(seq) { Some(p0.entries()[seq]) } else { None }));
        assert(details.entries() == inserted_entries(d0.entries(), d0.keys(), d0.cap(), seq, d));
        if e0@.len() == e0.cap() {
            assert(entries@.drop_last() =~= e0@.subrange(1, e0@.len() as int));
        } else {
            assert(entries@.drop_last() =~= e0@);
        }
        assert(ring_pushed(e0@, e0.cap(), entries@));
        assert(json_str_at(body@, "phase"@) == Some("end"@));
    }
}

} // verus!
