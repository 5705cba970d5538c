//! Short codes used on the wire.
//!
//! Every code enum carries its canonical wire string ([`Role::as_str`]
//! and friends) and a parser that accepts exactly those strings,
//! returning [`UnknownCode`] on a stranger.

use vstd::prelude::*;

use crate::text::{chars_of, eq_lit, string_of};

verus! {

/// A code string that did not match any known variant of the requested
/// kind. Returned by the parsers of the code enums.
#[derive(Debug, Clone, PartialEq, Eq)]
pub struct UnknownCode {
    pub kind: &'static str,
    pub value: String,
}

/// A11y role code as it appears on the wire.
#[derive(Debug, Clone, Copy, PartialEq, Eq, Structural, Hash, PartialOrd, Ord)]
pub enum Role {
    Doc,
    Btn,
    Lnk,
    Tf,
    Ta,
    Sel,
    Chk,
    Rad,
    Img,
    Hd,
    P,
    Li,
    Lst,
    Tbl,
    Row,
    Cell,
    Hdr,
    Nav,
    Frm,
    Dlg,
    Itm,
    Sec,
    Art,
    Mn,
    El,
}

impl Role {
    /// The canonical wire string of this variant.
    pub open spec fn wire(self) -> Seq<char> {
        match self {
            Role::Doc => "doc"@,
            Role::Btn => "btn"@,
            Role::Lnk => "lnk"@,
            Role::Tf => "tf"@,
            Role::Ta => "ta"@,
            Role::Sel => "sel"@,
            Role::Chk => "chk"@,
            Role::Rad => "rad"@,
            Role::Img => "img"@,
            Role::Hd => "hd"@,
            Role::P => "p"@,
            Role::Li => "li"@,
            Role::Lst => "lst"@,
            Role::Tbl => "tbl"@,
            Role::Row => "row"@,
            Role::Cell => "cell"@,
            Role::Hdr => "hdr"@,
            Role::Nav => "nav"@,
            Role::Frm => "frm"@,
            Role::Dlg => "dlg"@,
            Role::Itm => "itm"@,
            Role::Sec => "sec"@,
            Role::Art => "art"@,
            Role::Mn => "mn"@,
            Role::El => "el"@,
        }
    }

    /// Position of this variant in source order.
    pub open spec fn index(self) -> int {
        match self {
            Role::Doc => 0,
            Role::Btn => 1,
            Role::Lnk => 2,
            Role::Tf => 3,
            Role::Ta => 4,
            Role::Sel => 5,
            Role::Chk => 6,
            Role::Rad => 7,
            Role::Img => 8,
            Role::Hd => 9,
            Role::P => 10,
            Role::Li => 11,
            Role::Lst => 12,
            Role::Tbl => 13,
            Role::Row => 14,
            Role::Cell => 15,
            Role::Hdr => 16,
            Role::Nav => 17,
            Role::Frm => 18,
            Role::Dlg => 19,
            Role::Itm => 20,
            Role::Sec => 21,
            Role::Art => 22,
            Role::Mn => 23,
            Role::El => 24,
        }
    }

    /// Every variant, in source order.
    pub open spec fn spec_all() -> Seq<Role> {
        seq![Role::Doc, Role::Btn, Role::Lnk, Role::Tf, Role::Ta, Role::Sel, Role::Chk, Role::Rad, Role::Img, Role::Hd, Role::P, Role::Li, Role::Lst, Role::Tbl, Role::Row, Role::Cell, Role::Hdr, Role::Nav, Role::Frm, Role::Dlg, Role::Itm, Role::Sec, Role::Art, Role::Mn, Role::El]
    }

    /// The canonical wire-format string for this variant.
    pub fn as_str(self) -> (s: &'static str)
        ensures
            s@ == self.wire(),
    {
        match self {
            Role::Doc => "doc",
            Role::Btn => "btn",
            Role::Lnk => "lnk",
            Role::Tf => "tf",
            Role::Ta => "ta",
            Role::Sel => "sel",
            Role::Chk => "chk",
            Role::Rad => "rad",
            Role::Img => "img",
            Role::Hd => "hd",
            Role::P => "p",
            Role::Li => "li",
            Role::Lst => "lst",
            Role::Tbl => "tbl",
            Role::Row => "row",
            Role::Cell => "cell",
            Role::Hdr => "hdr",
            Role::Nav => "nav",
            Role::Frm => "frm",
            Role::Dlg => "dlg",
            Role::Itm => "itm",
            Role::Sec => "sec",
            Role::Art => "art",
            Role::Mn => "mn",
            Role::El => "el",
        }
    }

    /// The wire string as an owned `String`.
    pub fn to_string(self) -> (s: String)
        ensures
            s@ == self.wire(),
    {
        let v = chars_of(self.as_str());
        string_of(&v)
    }

    /// Every variant of this enum, in source order.
    pub fn all() -> (v: Vec<Role>)
        ensures
            v@ == Self::spec_all(),
    {
        vec![Role::Doc, Role::Btn, Role::Lnk, Role::Tf, Role::Ta, Role::Sel, Role::Chk, Role::Rad, Role::Img, Role::Hd, Role::P, Role::Li, Role::Lst, Role::Tbl, Role::Row, Role::Cell, Role::Hdr, Role::Nav, Role::Frm, Role::Dlg, Role::Itm, Role::Sec, Role::Art, Role::Mn, Role::El]
    }

    /// Parse a wire string. Exactly the canonical strings are accepted.
    pub fn parse(s: &str) -> (res: Result<Role, UnknownCode>)
        ensures
            match res {
                Ok(c) => c.wire() == s@,
                Err(e) => (forall|c: Role| #[trigger] c.wire() != s@) && e.kind@ == "role"@
                    && e.value@ == s@,
            },
    {
        let v = chars_of(s);
        Self::parse_chars(&v)
    }

    /// Parse a wire string given as characters.
    pub fn parse_chars(v: &[char]) -> (res: Result<Role, UnknownCode>)
        ensures
            match res {
                Ok(c) => c.wire() == v@,
                Err(e) => (forall|c: Role| #[trigger] c.wire() != v@) && e.kind@ == "role"@
                    && e.value@ == v@,
            },
    {
        if eq_lit(v, "doc") {
            return Ok(Role::Doc);
        }
        if eq_lit(v, "btn") {
            return Ok(Role::Btn);
        }
        if eq_lit(v, "lnk") {
            return Ok(Role::Lnk);
        }
        if eq_lit(v, "tf") {
            return Ok(Role::Tf);
        }
        if eq_lit(v, "ta") {
            return Ok(Role::Ta);
        }
        if eq_lit(v, "sel") {
            return Ok(Role::Sel);
        }
        if eq_lit(v, "chk") {
            return Ok(Role::Chk);
        }
        if eq_lit(v, "rad") {
            return Ok(Role::Rad);
        }
        if eq_lit(v, "img") {
            return Ok(Role::Img);
        }
        if eq_lit(v, "hd") {
            return Ok(Role::Hd);
        }
        if eq_lit(v, "p") {
            return Ok(Role::P);
        }
        if eq_lit(v, "li") {
            return Ok(Role::Li);
        }
        if eq_lit(v, "lst") {
            return Ok(Role::Lst);
        }
        if eq_lit(v, "tbl") {
            return Ok(Role::Tbl);
        }
        if eq_lit(v, "row") {
            return Ok(Role::Row);
        }
        if eq_lit(v, "cell") {
            return Ok(Role::Cell);
        }
        if eq_lit(v, "hdr") {
            return Ok(Role::Hdr);
        }
        if eq_lit(v, "nav") {
            return Ok(Role::Nav);
        }
        if eq_lit(v, "frm") {
            return Ok(Role::Frm);
        }
        if eq_lit(v, "dlg") {
            return Ok(Role::Dlg);
        }
        if eq_lit(v, "itm") {
            return Ok(Role::Itm);
        }
        if eq_lit(v, "sec") {
            return Ok(Role::Sec);
        }
        if eq_lit(v, "art") {
            return Ok(Role::Art);
        }
        if eq_lit(v, "mn") {
            return Ok(Role::Mn);
        }
        if eq_lit(v, "el") {
            return Ok(Role::El);
        }
        Err(UnknownCode { kind: "role", value: string_of(v) })
    }
}

/// Operation an agent can perform on a tree node.
#[derive(Debug, Clone, Copy, PartialEq, Eq, Structural, Hash, PartialOrd, Ord)]
pub enum Op {
    Click,
    Fill,
    Scroll,
    Key,
    Submit,
    Hover,
    Focus,
}

impl Op {
    /// The canonical wire string of this variant.
    pub open spec fn wire(self) -> Seq<char> {
        match self {
            Op::Click => "click"@,
            Op::Fill => "fill"@,
            Op::Scroll => "scroll"@,
            Op::Key => "key"@,
            Op::Submit => "submit"@,
            Op::Hover => "hover"@,
            Op::Focus => "focus"@,
        }
    }

    /// Position of this variant in source order.
    pub open spec fn index(self) -> int {
        match self {
            Op::Click => 0,
            Op::Fill => 1,
            Op::Scroll => 2,
            Op::Key => 3,
            Op::Submit => 4,
            Op::Hover => 5,
            Op::Focus => 6,
        }
    }

    /// Every variant, in source order.
    pub open spec fn spec_all() -> Seq<Op> {
        seq![Op::Click, Op::Fill, Op::Scroll, Op::Key, Op::Submit, Op::Hover, Op::Focus]
    }

    /// The canonical wire-format string for this variant.
    pub fn as_str(self) -> (s: &'static str)
        ensures
            s@ == self.wire(),
    {
        match self {
            Op::Click => "click",
            Op::Fill => "fill",
            Op::Scroll => "scroll",
            Op::Key => "key",
            Op::Submit => "submit",
            Op::Hover => "hover",
            Op::Focus => "focus",
        }
    }

    /// The wire string as an owned `String`.
    pub fn to_string(self) -> (s: String)
        ensures
            s@ == self.wire(),
    {
        let v = chars_of(self.as_str());
        string_of(&v)
    }

    /// Every variant of this enum, in source order.
    pub fn all() -> (v: Vec<Op>)
        ensures
            v@ == Self::spec_all(),
    {
        vec![Op::Click, Op::Fill, Op::Scroll, Op::Key, Op::Submit, Op::Hover, Op::Focus]
    }

    /// Parse a wire string. Exactly the canonical strings are accepted.
    pub fn parse(s: &str) -> (res: Result<Op, UnknownCode>)
        ensures
            match res {
                Ok(c) => c.wire() == s@,
                Err(e) => (forall|c: Op| #[trigger] c.wire() != s@) && e.kind@ == "op"@
                    && e.value@ == s@,
            },
    {
        let v = chars_of(s);
        Self::parse_chars(&v)
    }

    /// Parse a wire string given as characters.
    pub fn parse_chars(v: &[char]) -> (res: Result<Op, UnknownCode>)
        ensures
            match res {
                Ok(c) => c.wire() == v@,
                Err(e) => (forall|c: Op| #[trigger] c.wire() != v@) && e.kind@ == "op"@
                    && e.value@ == v@,
            },
    {
        if eq_lit(v, "click") {
            return Ok(Op::Click);
        }
        if eq_lit(v, "fill") {
            return Ok(Op::Fill);
        }
        if eq_lit(v, "scroll") {
            return Ok(Op::Scroll);
        }
        if eq_lit(v, "key") {
            return Ok(Op::Key);
        }
        if eq_lit(v, "submit") {
            return Ok(Op::Submit);
        }
        if eq_lit(v, "hover") {
            return Ok(Op::Hover);
        }
        if eq_lit(v, "focus") {
            return Ok(Op::Focus);
        }
        Err(UnknownCode { kind: "op", value: string_of(v) })
    }
}

/// A protocol-level error code (the `! CODE` form on the wire).
#[derive(Debug, Clone, Copy, PartialEq, Eq, Structural, Hash, PartialOrd, Ord)]
pub enum ErrorCode {
    StaleToken,
    EngineUnsupported,
    PolicyDeny,
    Timeout,
    NotFound,
    WrongSession,
    ConfirmRequired,
    DaemonStartFailed,
    EngineCrash,
    BadRequest,
    UnknownKind,
    EvalError,
    EvalSyntax,
}

impl ErrorCode {
    /// The canonical wire string of this variant.
    pub open spec fn wire(self) -> Seq<char> {
        match self {
            ErrorCode::StaleToken => "STALE_TOKEN"@,
            ErrorCode::EngineUnsupported => "ENGINE_UNSUPPORTED"@,
            ErrorCode::PolicyDeny => "POLICY_DENY"@,
            ErrorCode::Timeout => "TIMEOUT"@,
            ErrorCode::NotFound => "NOT_FOUND"@,
            ErrorCode::WrongSession => "WRONG_SESSION"@,
            ErrorCode::ConfirmRequired => "CONFIRM_REQUIRED"@,
            ErrorCode::DaemonStartFailed => "DAEMON_START_FAILED"@,
            ErrorCode::EngineCrash => "ENGINE_CRASH"@,
            ErrorCode::BadRequest => "BAD_REQUEST"@,
            ErrorCode::UnknownKind => "UNKNOWN_KIND"@,
            ErrorCode::EvalError => "EVAL_ERROR"@,
            ErrorCode::EvalSyntax => "EVAL_SYNTAX"@,
        }
    }

    /// Position of this variant in source order.
    pub open spec fn index(self) -> int {
        match self {
            ErrorCode::StaleToken => 0,
            ErrorCode::EngineUnsupported => 1,
            ErrorCode::PolicyDeny => 2,
            ErrorCode::Timeout => 3,
            ErrorCode::NotFound => 4,
            ErrorCode::WrongSession => 5,
            ErrorCode::ConfirmRequired => 6,
            ErrorCode::DaemonStartFailed => 7,
            ErrorCode::EngineCrash => 8,
            ErrorCode::BadRequest => 9,
            ErrorCode::UnknownKind => 10,
            ErrorCode::EvalError => 11,
            ErrorCode::EvalSyntax => 12,
        }
    }

    /// Every variant, in source order.
    pub open spec fn spec_all() -> Seq<ErrorCode> {
        seq![ErrorCode::StaleToken, ErrorCode::EngineUnsupported, ErrorCode::PolicyDeny, ErrorCode::Timeout, ErrorCode::NotFound, ErrorCode::WrongSession, ErrorCode::ConfirmRequired, ErrorCode::DaemonStartFailed, ErrorCode::EngineCrash, ErrorCode::BadRequest, ErrorCode::UnknownKind, ErrorCode::EvalError, ErrorCode::EvalSyntax]
    }

    /// The canonical wire-format string for this variant.
    pub fn as_str(self) -> (s: &'static str)
        ensures
            s@ == self.wire(),
    {
        match self {
            ErrorCode::StaleToken => "STALE_TOKEN",
            ErrorCode::EngineUnsupported => "ENGINE_UNSUPPORTED",
            ErrorCode::PolicyDeny => "POLICY_DENY",
            ErrorCode::Timeout => "TIMEOUT",
            ErrorCode::NotFound => "NOT_FOUND",
            ErrorCode::WrongSession => "WRONG_SESSION",
            ErrorCode::ConfirmRequired => "CONFIRM_REQUIRED",
            ErrorCode::DaemonStartFailed => "DAEMON_START_FAILED",
            ErrorCode::EngineCrash => "ENGINE_CRASH",
            ErrorCode::BadRequest => "BAD_REQUEST",
            ErrorCode::UnknownKind => "UNKNOWN_KIND",
            ErrorCode::EvalError => "EVAL_ERROR",
            ErrorCode::EvalSyntax => "EVAL_SYNTAX",
        }
    }

    /// The wire string as an owned `String`.
    pub fn to_string(self) -> (s: String)
        ensures
            s@ == self.wire(),
    {
        let v = chars_of(self.as_str());
        string_of(&v)
    }

    /// Every variant of this enum, in source order.
    pub fn all() -> (v: Vec<ErrorCode>)
        ensures
            v@ == Self::spec_all(),
    {
        vec![ErrorCode::StaleToken, ErrorCode::EngineUnsupported, ErrorCode::PolicyDeny, ErrorCode::Timeout, ErrorCode::NotFound, ErrorCode::WrongSession, ErrorCode::ConfirmRequired, ErrorCode::DaemonStartFailed, ErrorCode::EngineCrash, ErrorCode::BadRequest, ErrorCode::UnknownKind, ErrorCode::EvalError, ErrorCode::EvalSyntax]
    }

    /// Parse a wire string. Exactly the canonical strings are accepted.
    pub fn parse(s: &str) -> (res: Result<ErrorCode, UnknownCode>)
        ensures
            match res {
                Ok(c) => c.wire() == s@,
                Err(e) => (forall|c: ErrorCode| #[trigger] c.wire() != s@) && e.kind@ == "error"@
                    && e.value@ == s@,
            },
    {
        let v = chars_of(s);
        Self::parse_chars(&v)
    }

    /// Parse a wire string given as characters.
    pub fn parse_chars(v: &[char]) -> (res: Result<ErrorCode, UnknownCode>)
        ensures
            match res {
                Ok(c) => c.wire() == v@,
                Err(e) => (forall|c: ErrorCode| #[trigger] c.wire() != v@) && e.kind@ == "error"@
                    && e.value@ == v@,
            },
    {
        if eq_lit(v, "STALE_TOKEN") {
            return Ok(ErrorCode::StaleToken);
        }
        if eq_lit(v, "ENGINE_UNSUPPORTED") {
            return Ok(ErrorCode::EngineUnsupported);
        }
        if eq_lit(v, "POLICY_DENY") {
            return Ok(ErrorCode::PolicyDeny);
        }
        if eq_lit(v, "TIMEOUT") {
            return Ok(ErrorCode::Timeout);
        }
        if eq_lit(v, "NOT_FOUND") {
            return Ok(ErrorCode::NotFound);
        }
        if eq_lit(v, "WRONG_SESSION") {
            return Ok(ErrorCode::WrongSession);
        }
        if eq_lit(v, "CONFIRM_REQUIRED") {
            return Ok(ErrorCode::ConfirmRequired);
        }
        if eq_lit(v, "DAEMON_START_FAILED") {
            return Ok(ErrorCode::DaemonStartFailed);
        }
        if eq_lit(v, "ENGINE_CRASH") {
            return Ok(ErrorCode::EngineCrash);
        }
        if eq_lit(v, "BAD_REQUEST") {
            return Ok(ErrorCode::BadRequest);
        }
        if eq_lit(v, "UNKNOWN_KIND") {
            return Ok(ErrorCode::UnknownKind);
        }
        if eq_lit(v, "EVAL_ERROR") {
            return Ok(ErrorCode::EvalError);
        }
        if eq_lit(v, "EVAL_SYNTAX") {
            return Ok(ErrorCode::EvalSyntax);
        }
        Err(UnknownCode { kind: "error", value: string_of(v) })
    }
}

/// A protocol-level warning code (the `? code` form on the wire).
#[derive(Debug, Clone, Copy, PartialEq, Eq, Structural, Hash, PartialOrd, Ord)]
pub enum WarningCode {
    Nav,
    CaptchaVisible,
    AuthLoaded,
    ViewportChanged,
    IdempotentHit,
    ConsoleError,
    HiddenTarget,
}

impl WarningCode {
    /// The canonical wire string of this variant.
    pub open spec fn wire(self) -> Seq<char> {
        match self {
            WarningCode::Nav => "nav"@,
            WarningCode::CaptchaVisible => "captcha_visible"@,
            WarningCode::AuthLoaded => "auth_loaded"@,
            WarningCode::ViewportChanged => "viewport_changed"@,
            WarningCode::IdempotentHit => "idempotent_hit"@,
            WarningCode::ConsoleError => "console_error"@,
            WarningCode::HiddenTarget => "hidden_target"@,
        }
    }

    /// Position of this variant in source order.
    pub open spec fn index(self) -> int {
        match self {
            WarningCode::Nav => 0,
            WarningCode::CaptchaVisible => 1,
            WarningCode::AuthLoaded => 2,
            WarningCode::ViewportChanged => 3,
            WarningCode::IdempotentHit => 4,
            WarningCode::ConsoleError => 5,
            WarningCode::HiddenTarget => 6,
        }
    }

    /// Every variant, in source order.
    pub open spec fn spec_all() -> Seq<WarningCode> {
        seq![WarningCode::Nav, WarningCode::CaptchaVisible, WarningCode::AuthLoaded, WarningCode::ViewportChanged, WarningCode::IdempotentHit, WarningCode::ConsoleError, WarningCode::HiddenTarget]
    }

    /// The canonical wire-format string for this variant.
    pub fn as_str(self) -> (s: &'static str)
        ensures
            s@ == self.wire(),
    {
        match self {
            WarningCode::Nav => "nav",
            WarningCode::CaptchaVisible => "captcha_visible",
            WarningCode::AuthLoaded => "auth_loaded",
            WarningCode::ViewportChanged => "viewport_changed",
            WarningCode::IdempotentHit => "idempotent_hit",
            WarningCode::ConsoleError => "console_error",
            WarningCode::HiddenTarget => "hidden_target",
        }
    }

    /// The wire string as an owned `String`.
    pub fn to_string(self) -> (s: String)
        ensures
            s@ == self.wire(),
    {
        let v = chars_of(self.as_str());
        string_of(&v)
    }

    /// Every variant of this enum, in source order.
    pub fn all() -> (v: Vec<WarningCode>)
        ensures
            v@ == Self::spec_all(),
    {
        vec![WarningCode::Nav, WarningCode::CaptchaVisible, WarningCode::AuthLoaded, WarningCode::ViewportChanged, WarningCode::IdempotentHit, WarningCode::ConsoleError, WarningCode::HiddenTarget]
    }

    /// Parse a wire string. Exactly the canonical strings are accepted.
    pub fn parse(s: &str) -> (res: Result<WarningCode, UnknownCode>)
        ensures
            match res {
                Ok(c) => c.wire() == s@,
                Err(e) => (forall|c: WarningCode| #[trigger] c.wire() != s@) && e.kind@ == "warning"@
                    && e.value@ == s@,
            },
    {
        let v = chars_of(s);
        Self::parse_chars(&v)
    }

    /// Parse a wire string given as characters.
    pub fn parse_chars(v: &[char]) -> (res: Result<WarningCode, UnknownCode>)
        ensures
            match res {
                Ok(c) => c.wire() == v@,
                Err(e) => (forall|c: WarningCode| #[trigger] c.wire() != v@) && e.kind@ == "warning"@
                    && e.value@ == v@,
            },
    {
        if eq_lit(v, "nav") {
            return Ok(WarningCode::Nav);
        }
        if eq_lit(v, "captcha_visible") {
            return Ok(WarningCode::CaptchaVisible);
        }
        if eq_lit(v, "auth_loaded") {
            return Ok(WarningCode::AuthLoaded);
        }
        if eq_lit(v, "viewport_changed") {
            return Ok(WarningCode::ViewportChanged);
        }
        if eq_lit(v, "idempotent_hit") {
            return Ok(WarningCode::IdempotentHit);
        }
        if eq_lit(v, "console_error") {
            return Ok(WarningCode::ConsoleError);
        }
        if eq_lit(v, "hidden_target") {
            return Ok(WarningCode::HiddenTarget);
        }
        Err(UnknownCode { kind: "warning", value: string_of(v) })
    }
}

/// The wire strings of distinct roles differ.
pub proof fn lemma_role_wire_injective(a: Role, b: Role)
    ensures
        a.wire() == b.wire() ==> a == b,
{
    reveal_strlit("doc");
    reveal_strlit("btn");
    reveal_strlit("lnk");
    reveal_strlit("tf");
    reveal_strlit("ta");
    reveal_strlit("sel");
    reveal_strlit("chk");
    reveal_strlit("rad");
    reveal_strlit("img");
    reveal_strlit("hd");
    reveal_strlit("p");
    reveal_strlit("li");
    reveal_strlit("lst");
    reveal_strlit("tbl");
    reveal_strlit("row");
    reveal_strlit("cell");
    reveal_strlit("hdr");
    reveal_strlit("nav");
    reveal_strlit("frm");
    reveal_strlit("dlg");
    reveal_strlit("itm");
    reveal_strlit("sec");
    reveal_strlit("art");
    reveal_strlit("mn");
    reveal_strlit("el");
    if a.wire() == b.wire() {
        assert(a.wire().len() == b.wire().len());
        assert(a.wire()[0] == b.wire()[0]);
        assert(a.wire()[1] == b.wire()[1]);
        assert(a.wire()[2] == b.wire()[2]);
        assert(a.wire()[3] == b.wire()[3]);
        assert(a.wire()[4] == b.wire()[4]);
        assert(a.wire()[5] == b.wire()[5]);
        assert(a.wire()[6] == b.wire()[6]);
        assert(a.wire()[7] == b.wire()[7]);
        assert(a.wire()[8] == b.wire()[8]);
    }
}

/// The wire strings of distinct ops differ.
pub proof fn lemma_op_wire_injective(a: Op, b: Op)
    ensures
        a.wire() == b.wire() ==> a == b,
{
    reveal_strlit("click");
    reveal_strlit("fill");
    reveal_strlit("scroll");
    reveal_strlit("key");
    reveal_strlit("submit");
    reveal_strlit("hover");
    reveal_strlit("focus");
    if a.wire() == b.wire() {
        assert(a.wire().len() == b.wire().len());
        assert(a.wire()[0] == b.wire()[0]);
        assert(a.wire()[1] == b.wire()[1]);
        assert(a.wire()[2] == b.wire()[2]);
        assert(a.wire()[3] == b.wire()[3]);
        assert(a.wire()[4] == b.wire()[4]);
        assert(a.wire()[5] == b.wire()[5]);
        assert(a.wire()[6] == b.wire()[6]);
        assert(a.wire()[7] == b.wire()[7]);
        assert(a.wire()[8] == b.wire()[8]);
    }
}

/// The wire strings of distinct error codes differ.
pub proof fn lemma_error_code_wire_injective(a: ErrorCode, b: ErrorCode)
    ensures
        a.wire() == b.wire() ==> a == b,
{
    reveal_strlit("STALE_TOKEN");
    reveal_strlit("ENGINE_UNSUPPORTED");
    reveal_strlit("POLICY_DENY");
    reveal_strlit("TIMEOUT");
    reveal_strlit("NOT_FOUND");
    reveal_strlit("WRONG_SESSION");
    reveal_strlit("CONFIRM_REQUIRED");
    reveal_strlit("DAEMON_START_FAILED");
    reveal_strlit("ENGINE_CRASH");
    reveal_strlit("BAD_REQUEST");
    reveal_strlit("UNKNOWN_KIND");
    reveal_strlit("EVAL_ERROR");
    reveal_strlit("EVAL_SYNTAX");
    if a.wire() == b.wire() {
        assert(a.wire().len() == b.wire().len());
        assert(a.wire()[0] == b.wire()[0]);
        assert(a.wire()[1] == b.wire()[1]);
        assert(a.wire()[2] == b.wire()[2]);
        assert(a.wire()[3] == b.wire()[3]);
        assert(a.wire()[4] == b.wire()[4]);
        assert(a.wire()[5] == b.wire()[5]);
        assert(a.wire()[6] == b.wire()[6]);
        assert(a.wire()[7] == b.wire()[7]);
        assert(a.wire()[8] == b.wire()[8]);
    }
}

/// The wire strings of distinct warning codes differ.
pub proof fn lemma_warning_code_wire_injective(a: WarningCode, b: WarningCode)
    ensures
        a.wire() == b.wire() ==> a == b,
{
    reveal_strlit("nav");
    reveal_strlit("captcha_visible");
    reveal_strlit("auth_loaded");
    reveal_strlit("viewport_changed");
    reveal_strlit("idempotent_hit");
    reveal_strlit("console_error");
    reveal_strlit("hidden_target");
    if a.wire() == b.wire() {
        assert(a.wire().len() == b.wire().len());
        assert(a.wire()[0] == b.wire()[0]);
        assert(a.wire()[1] == b.wire()[1]);
        assert(a.wire()[2] == b.wire()[2]);
        assert(a.wire()[3] == b.wire()[3]);
        assert(a.wire()[4] == b.wire()[4]);
        assert(a.wire()[5] == b.wire()[5]);
        assert(a.wire()[6] == b.wire()[6]);
        assert(a.wire()[7] == b.wire()[7]);
        assert(a.wire()[8] == b.wire()[8]);
    }
}

impl Role {
    /// The role whose wire string is `s`, if any.
    pub open spec fn from_wire(s: Seq<char>) -> Option<Role> {
        if exists|c: Role| #[trigger] c.wire() == s {
            Some(choose|c: Role| #[trigger] c.wire() == s)
        } else {
            None
        }
    }
}

impl Op {
    /// The op whose wire string is `s`, if any.
    pub open spec fn from_wire(s: Seq<char>) -> Option<Op> {
        if exists|c: Op| #[trigger] c.wire() == s {
            Some(choose|c: Op| #[trigger] c.wire() == s)
        } else {
            None
        }
    }
}

impl ErrorCode {
    /// The error code whose wire string is `s`, if any.
    pub open spec fn from_wire(s: Seq<char>) -> Option<ErrorCode> {
        if exists|c: ErrorCode| #[trigger] c.wire() == s {
            Some(choose|c: ErrorCode| #[trigger] c.wire() == s)
        } else {
            None
        }
    }
}

impl WarningCode {
    /// The warning code whose wire string is `s`, if any.
    pub open spec fn from_wire(s: Seq<char>) -> Option<WarningCode> {
        if exists|c: WarningCode| #[trigger] c.wire() == s {
            Some(choose|c: WarningCode| #[trigger] c.wire() == s)
        } else {
            None
        }
    }
}

/// Reading back the wire string of a role gives that role.
pub proof fn lemma_role_from_wire(c: Role)
    ensures
        Role::from_wire(c.wire()) == Some(c),
{
    let d = choose|d: Role| #[trigger] d.wire() == c.wire();
    lemma_role_wire_injective(c, d);
}

/// Reading back the wire string of an op gives that op.
pub proof fn lemma_op_from_wire(c: Op)
    ensures
        Op::from_wire(c.wire()) == Some(c),
{
    let d = choose|d: Op| #[trigger] d.wire() == c.wire();
    lemma_op_wire_injective(c, d);
}

/// Reading back the wire string of an error code gives that code.
pub proof fn lemma_error_code_from_wire(c: ErrorCode)
    ensures
        ErrorCode::from_wire(c.wire()) == Some(c),
{
    let d = choose|d: ErrorCode| #[trigger] d.wire() == c.wire();
    lemma_error_code_wire_injective(c, d);
}

/// Reading back the wire string of a warning code gives that code.
pub proof fn lemma_warning_code_from_wire(c: WarningCode)
    ensures
        WarningCode::from_wire(c.wire()) == Some(c),
{
    let d = choose|d: WarningCode| #[trigger] d.wire() == c.wire();
    lemma_warning_code_wire_injective(c, d);
}

} // verus!
