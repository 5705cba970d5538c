//! Domain types: owned mirrors of the store's tables.

use vstd::prelude::*;

use super::error::StoreError;
use crate::num::{dec, parse_u32, parse_u32_spec, push_dec};
use crate::text::{chars_of, eq_lit, string_of};

verus! {

/// Lifecycle of a session.
#[derive(Debug, Clone, Copy, PartialEq, Eq, Structural)]
pub enum SessionStatus {
    Open,
    Closed,
}

impl SessionStatus {
    /// The stored name of this status.
    pub open spec fn wire(self) -> Seq<char> {
        match self {
            SessionStatus::Open => "open"@,
            SessionStatus::Closed => "closed"@,
        }
    }

    /// The stored name of this status.
    pub fn as_str(self) -> (s: &'static str)
        ensures
            s@ == self.wire(),
    {
        match self {
            SessionStatus::Open => "open",
            SessionStatus::Closed => "closed",
        }
    }

    /// Parse a stored name; any other text is `Invalid("session.status")`.
    pub fn from_wire(s: &str) -> (r: Result<SessionStatus, StoreError>)
        ensures
            s@ == "open"@ ==> r == Ok::<SessionStatus, StoreError>(SessionStatus::Open),
            s@ == "closed"@ ==> r == Ok::<SessionStatus, StoreError>(SessionStatus::Closed),
            s@ != "open"@ && s@ != "closed"@ ==> (r matches Err(StoreError::Invalid(m)) && m@ == "session.status"@),
    {
        proof {
            reveal_strlit("open");
            reveal_strlit("closed");
            assert("open"@.len() != "closed"@.len());
        }
        let v = chars_of(s);
        if eq_lit(&v, "open") {
            Ok(SessionStatus::Open)
        } else if eq_lit(&v, "closed") {
            Ok(SessionStatus::Closed)
        } else {
            Err(StoreError::Invalid("session.status"))
        }
    }
}

impl std::str::FromStr for SessionStatus {
    type Err = StoreError;

    fn from_str(s: &str) -> (r: Result<SessionStatus, StoreError>)
        ensures
            s@ == "open"@ ==> r == Ok::<SessionStatus, StoreError>(SessionStatus::Open),
            s@ == "closed"@ ==> r == Ok::<SessionStatus, StoreError>(SessionStatus::Closed),
            s@ != "open"@ && s@ != "closed"@ ==> (r matches Err(StoreError::Invalid(m)) && m@ == "session.status"@),
    {
        SessionStatus::from_wire(s)
    }
}

/// Row of `sessions`.
#[derive(Debug, Clone, PartialEq, Eq)]
pub struct Session {
    pub id: String,
    pub created_at: i64,
    pub policy_id: Option<String>,
    pub status: SessionStatus,
    pub closed_at: Option<i64>,
}

/// Row of `pages`.
#[derive(Debug, Clone, PartialEq, Eq)]
pub struct Page {
    pub id: String,
    pub session_id: String,
    pub url: String,
    pub title: Option<String>,
    pub last_token: Option<String>,
    pub last_dom_hash: Option<String>,
    pub last_seen_at: i64,
    pub closed_at: Option<i64>,
}

/// Row of `refs`.
#[derive(Debug, Clone, PartialEq, Eq)]
pub struct StoredRef {
    pub session_id: String,
    pub page_id: String,
    pub r: u32,
    pub dom_path: String,
    pub role: String,
    pub content_hash: String,
    pub created_at: i64,
    pub retired_at: Option<i64>,
}

/// Row of `marks`.
#[derive(Debug, Clone, PartialEq, Eq)]
pub struct Mark {
    pub id: String,
    pub session_id: String,
    pub page_id: String,
    pub name: String,
    pub dom_path: String,
    pub role: Option<String>,
    pub content_excerpt: Option<String>,
    pub created_at: i64,
}

/// What an annotation targets.
#[derive(Debug, Clone, PartialEq, Eq)]
pub enum AnnotationTarget {
    Ref(u32),
    Mark(String),
    Page,
}

impl AnnotationTarget {
    /// The stored kind of a target.
    pub open spec fn kind_text(self) -> Seq<char> {
        match self {
            AnnotationTarget::Ref(_) => "ref"@,
            AnnotationTarget::Mark(_) => "mark"@,
            AnnotationTarget::Page => "page"@,
        }
    }

    /// The stored id of a target: the ref in decimal, the mark's name,
    /// or nothing for the page.
    pub open spec fn id_text(self) -> Seq<char> {
        match self {
            AnnotationTarget::Ref(r) => dec(r as nat),
            AnnotationTarget::Mark(name) => name@,
            AnnotationTarget::Page => Seq::empty(),
        }
    }

    /// The stored kind of this target.
    pub fn kind(&self) -> (s: &'static str)
        ensures
            s@ == self.kind_text(),
    {
        match self {
            AnnotationTarget::Ref(_) => "ref",
            AnnotationTarget::Mark(_) => "mark",
            AnnotationTarget::Page => "page",
        }
    }

    /// The stored id of this target.
    pub fn id(&self) -> (s: String)
        ensures
            s@ == self.id_text(),
    {
        match self {
            AnnotationTarget::Ref(r) => {
                let mut v: Vec<char> = Vec::new();
                push_dec(&mut v, *r as u64);
                assert(v@ =~= dec(*r as nat));
                string_of(&v)
            },
            AnnotationTarget::Mark(name) => name.clone(),
            AnnotationTarget::Page => String::new(),
        }
    }

    /// Rebuild a target from its stored kind and id. A `ref` id must
    /// parse as a `u32`; an unknown kind is refused.
    pub fn parse(kind: &str, id: &str) -> (r: Result<AnnotationTarget, StoreError>)
        ensures
            kind@ == "ref"@ ==> match parse_u32_spec(id@) {
                Some(n) => r matches Ok(AnnotationTarget::Ref(m)) && m == n,
                None => r matches Err(StoreError::Invalid(m)) && m@ == "annotation.target_id (ref)"@,
            },
            kind@ == "mark"@ ==> (r matches Ok(AnnotationTarget::Mark(name)) && name@ == id@),
            kind@ == "page"@ ==> r matches Ok(AnnotationTarget::Page),
            kind@ != "ref"@ && kind@ != "mark"@ && kind@ != "page"@ ==> (r matches Err(
                StoreError::Invalid(m),
            ) && m@ == "annotation.target_kind"@),
    {
        proof {
            reveal_strlit("ref");
            reveal_strlit("mark");
            reveal_strlit("page");
            assert("ref"@.len() != "mark"@.len());
            assert("ref"@.len() != "page"@.len());
            assert("mark"@[0] != "page"@[0]);
        }
        let k = chars_of(kind);
        if eq_lit(&k, "ref") {
            let digits = chars_of(id);
            match parse_u32(&digits) {
                Some(n) => Ok(AnnotationTarget::Ref(n)),
                None => Err(StoreError::Invalid("annotation.target_id (ref)")),
            }
        } else if eq_lit(&k, "mark") {
            let name = string_of(&chars_of(id));
            Ok(AnnotationTarget::Mark(name))
        } else if eq_lit(&k, "page") {
            Ok(AnnotationTarget::Page)
        } else {
            Err(StoreError::Invalid("annotation.target_kind"))
        }
    }
}

/// Row of `annotations`.
#[derive(Debug, Clone, PartialEq, Eq)]
pub struct Annotation {
    pub id: String,
    pub target: AnnotationTarget,
    pub key: String,
    pub value: Option<String>,
    pub created_at: i64,
}

/// Row of `actions`: the auditable record of one primitive call.
#[derive(Debug, Clone, PartialEq, Eq)]
pub struct Action {
    pub id: i64,
    pub session_id: String,
    pub page_id: Option<String>,
    pub primitive: String,
    pub args_redacted: String,
    pub args_hash: String,
    pub before_token: Option<String>,
    pub after_token: Option<String>,
    pub idempotency_hit: bool,
    pub result_summary: Option<String>,
    pub latency_ms: i64,
    pub group_label: Option<String>,
    pub started_at: i64,
    pub finished_at: i64,
    pub error_code: Option<String>,
}

/// What recording an action takes.
#[derive(Debug, Clone, PartialEq, Eq)]
pub struct ActionInsert {
    pub session_id: String,
    pub page_id: Option<String>,
    pub primitive: String,
    pub args_redacted: String,
    pub args_hash: String,
    pub before_token: Option<String>,
    pub after_token: Option<String>,
    pub idempotency_hit: bool,
    pub result_summary: Option<String>,
    pub latency_ms: i64,
    pub group_label: Option<String>,
    pub started_at: i64,
    pub finished_at: i64,
    pub error_code: Option<String>,
}

/// Filter for listing actions.
#[derive(Debug, Clone, Default)]
pub struct ActionFilter {
    pub session_id: Option<String>,
    pub page_id: Option<String>,
    pub group_label: Option<String>,
    pub since_started_at: Option<i64>,
    pub limit: Option<i64>,
}

/// A filter clause with its numbered placeholder when the field is set,
/// and the number of the next placeholder.
pub open spec fn filter_clause(set: bool, column: Seq<char>, idx: nat) -> (Seq<char>, nat) {
    if set {
        (column + dec(idx), idx + 1)
    } else {
        (Seq::empty(), idx)
    }
}

/// The query that lists the actions a filter selects: a numbered
/// placeholder for each field set, in the order session, page, group,
/// start time, then the ordering by start time and the limit.
pub open spec fn action_query(f: ActionFilter) -> Seq<char> {
    let (c1, i2) = filter_clause(f.session_id is Some, " AND session_id=?"@, 1);
    let (c2, i3) = filter_clause(f.page_id is Some, " AND page_id=?"@, i2);
    let (c3, i4) = filter_clause(f.group_label is Some, " AND group_label=?"@, i3);
    let (c4, i5) = filter_clause(f.since_started_at is Some, " AND started_at >= ?"@, i4);
    let (c5, _) = filter_clause(f.limit is Some, " LIMIT ?"@, i5);
    "SELECT * FROM actions WHERE 1=1"@ + c1 + c2 + c3 + c4 + " ORDER BY started_at ASC"@ + c5
}

fn push_clause(out: &mut Vec<char>, set: bool, column: &str, idx: u64) -> (next: u64)
    requires
        idx < 100,
    ensures
        final(out)@ == old(out)@ + filter_clause(set, column@, idx as nat).0,
        next as nat == filter_clause(set, column@, idx as nat).1,
{
    if set {
        let c = chars_of(column);
        crate::tree::push_all(out, &c);
        push_dec(out, idx);
        idx + 1
    } else {
        assert(old(out)@ + Seq::<char>::empty() =~= old(out)@);
        idx
    }
}

impl ActionFilter {
    /// The query that lists the actions this filter selects (see
    /// [`action_query`]); the values go to the placeholders in the same
    /// order.
    pub fn query_text(&self) -> (s: String)
        ensures
            s@ == action_query(*self),
    {
        let mut out = chars_of("SELECT * FROM actions WHERE 1=1");
        let i2 = push_clause(&mut out, self.session_id.is_some(), " AND session_id=?", 1);
        let i3 = push_clause(&mut out, self.page_id.is_some(), " AND page_id=?", i2);
        let i4 = push_clause(&mut out, self.group_label.is_some(), " AND group_label=?", i3);
        let i5 = push_clause(&mut out, self.since_started_at.is_some(), " AND started_at >= ?", i4);
        let tail = chars_of(" ORDER BY started_at ASC");
        crate::tree::push_all(&mut out, &tail);
        let _ = push_clause(&mut out, self.limit.is_some(), " LIMIT ?", i5);
        string_of(&out)
    }
}

/// Metadata of a stored auth blob.
#[derive(Debug, Clone, PartialEq, Eq)]
pub struct AuthBlobMeta {
    pub name: String,
    pub created_at: i64,
    pub last_used_at: Option<i64>,
}

/// Row of `skill_cache`.
#[derive(Debug, Clone, PartialEq, Eq)]
pub struct SkillEntry {
    pub name: String,
    pub version: String,
    pub sha: String,
    pub manifest: String,
    pub last_used_at: Option<i64>,
}

} // verus!
