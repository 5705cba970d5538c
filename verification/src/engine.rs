//! The daemon's vocabulary for driving a browser engine: page handles,
//! act targets and actions, wait conditions, capture scopes, viewports,
//! capabilities and errors.

use std::time::Duration;

use vstd::prelude::*;

use crate::codes::Op;
use crate::text::{ascii_lower, ascii_lowercase, chars_of, eq_lit, lower_char};
use crate::tree::Ref;

verus! {

/// Default `User-Agent` set on each page: a recent shipping Safari on
/// macOS, so fingerprinters that match on the bare WKWebView default
/// (which lacks the `Version/X Safari/X` suffix) do not flag requests.
pub const DEFAULT_USER_AGENT: &'static str = "Mozilla/5.0 (Macintosh; Intel Mac OS X 14_5) AppleWebKit/605.1.15 (KHTML, like Gecko) Version/17.5 Safari/605.1.15";

/// An opaque engine-side handle to a page.
#[derive(Debug, Clone, Copy, PartialEq, Eq, Structural, Hash, PartialOrd, Ord)]
pub struct PageHandle(pub u64);

/// What an act call targets on a page.
#[derive(Debug, Clone)]
pub enum ActTarget {
    /// A live ref from the most recent snapshot.
    Ref(Ref),
    /// A persistent mark, identified by name.
    Mark(String),
}

/// Input humanization mode. Wire form: `--mode={human,careful,robotic}`.
#[derive(Debug, Clone, Copy, PartialEq, Eq, Structural)]
pub enum InputMode {
    Human,
    Careful,
    Robotic,
}

/// The mode a (lower-cased) mode name stands for, one-letter aliases
/// included.
pub open spec fn mode_named(s: Seq<char>) -> Option<InputMode> {
    if s == "human"@ || s == "h"@ {
        Some(InputMode::Human)
    } else if s == "careful"@ || s == "c"@ {
        Some(InputMode::Careful)
    } else if s == "robotic"@ || s == "r"@ {
        Some(InputMode::Robotic)
    } else {
        None
    }
}

impl InputMode {
    /// The wire name of this mode.
    pub open spec fn wire(self) -> Seq<char> {
        match self {
            InputMode::Human => "human"@,
            InputMode::Careful => "careful"@,
            InputMode::Robotic => "robotic"@,
        }
    }

    /// Parse a mode name, ignoring ASCII case.
    pub fn parse(s: &str) -> (r: Option<InputMode>)
        ensures
            r == mode_named(ascii_lower(s@)),
    {
        let v = chars_of(s);
        let l = ascii_lowercase(&v);
        if eq_lit(&l, "human") || eq_lit(&l, "h") {
            Some(InputMode::Human)
        } else if eq_lit(&l, "careful") || eq_lit(&l, "c") {
            Some(InputMode::Careful)
        } else if eq_lit(&l, "robotic") || eq_lit(&l, "r") {
            Some(InputMode::Robotic)
        } else {
            None
        }
    }

    /// The wire name of this mode.
    pub fn as_str(self) -> (s: &'static str)
        ensures
            s@ == self.wire(),
    {
        match self {
            InputMode::Human => "human",
            InputMode::Careful => "careful",
            InputMode::Robotic => "robotic",
        }
    }
}

/// Lower-casing twice is lower-casing once.
pub proof fn lemma_ascii_lower_idempotent(s: Seq<char>)
    ensures
        ascii_lower(ascii_lower(s)) == ascii_lower(s),
{
    assert forall|i: int| 0 <= i < s.len() implies lower_char(lower_char(#[trigger] s[i])) == lower_char(s[i]) by {
        let c = s[i];
        if 'A' <= c <= 'Z' {
            assert(('a' as u32) <= (c as u32) + 32 <= ('z' as u32));
        }
    }
    assert(ascii_lower(ascii_lower(s)) =~= ascii_lower(s));
}

/// Reading back the name of a mode gives the mode, and a mode name reads
/// the same whatever its ASCII case: `InputMode::parse(s)` is
/// `InputMode::parse` of `s` lower-cased.
pub proof fn lemma_mode_round_trip(m: InputMode, s: Seq<char>)
    ensures
        mode_named(ascii_lower(m.wire())) == Some(m),
        mode_named(ascii_lower(ascii_lower(s))) == mode_named(ascii_lower(s)),
{
    reveal_strlit("human");
    reveal_strlit("h");
    reveal_strlit("careful");
    reveal_strlit("c");
    reveal_strlit("robotic");
    reveal_strlit("r");
    assert(ascii_lower(m.wire()) =~= m.wire());
    match m {
        InputMode::Human => {},
        InputMode::Careful => {
            assert("careful"@.len() != "human"@.len());
            assert("careful"@.len() != "h"@.len());
        },
        InputMode::Robotic => {
            assert("robotic"@.len() != "human"@.len());
            assert("robotic"@.len() != "h"@.len());
            assert("robotic"@[0] != "careful"@[0]);
            assert("robotic"@.len() != "c"@.len());
        },
    }
    lemma_ascii_lower_idempotent(s);
}

/// What an act call does at its target.
#[derive(Debug, Clone)]
pub enum Action {
    /// Activate (mouse click or `Enter`).
    Click,
    /// Replace the text content of an editable target.
    Fill { value: String },
    /// Scroll the target into view.
    Scroll,
    /// Send a key chord (`Enter`, `Ctrl+K`, ...).
    Key { chord: String },
    /// Submit the enclosing form.
    Submit,
    /// Move the pointer over the target.
    Hover,
    /// Move keyboard focus.
    Focus,
}

impl Action {
    /// The protocol operation an action corresponds to.
    pub open spec fn spec_op(self) -> Op {
        match self {
            Action::Click => Op::Click,
            Action::Fill { .. } => Op::Fill,
            Action::Scroll => Op::Scroll,
            Action::Key { .. } => Op::Key,
            Action::Submit => Op::Submit,
            Action::Hover => Op::Hover,
            Action::Focus => Op::Focus,
        }
    }

    /// The protocol [`Op`] corresponding to this action.
    pub fn op(&self) -> (o: Op)
        ensures
            o == self.spec_op(),
    {
        match self {
            Action::Click => Op::Click,
            Action::Fill { .. } => Op::Fill,
            Action::Scroll => Op::Scroll,
            Action::Key { .. } => Op::Key,
            Action::Submit => Op::Submit,
            Action::Hover => Op::Hover,
            Action::Focus => Op::Focus,
        }
    }
}

/// A condition to wait for.
#[derive(Debug, Clone)]
pub enum WaitCondition {
    /// A11y tree stable for 250ms.
    Stable,
    /// Network idle (no request in flight for 500ms).
    NetIdle,
    /// The ref appears in the tree.
    RefAppears(Ref),
    /// The ref disappears from the tree.
    RefGone(Ref),
    /// Substring matches anywhere in the tree.
    Text(String),
    /// The state token changes.
    TokenChange,
}

/// Scope of a capture.
#[derive(Debug, Clone)]
pub enum CaptureScope {
    Viewport,
    Element(Ref),
    FullPage,
}

/// A viewport: sizes in CSS pixels, `dpr` the device-pixel ratio.
#[derive(Debug, Clone, Copy, PartialEq, Eq, Structural)]
pub struct Viewport {
    pub width: u32,
    pub height: u32,
    pub dpr: u32,
}

/// The preset viewport a protocol name stands for.
pub open spec fn preset_named(name: Seq<char>) -> Option<Viewport> {
    if name == "mobile-s"@ {
        Some(Viewport { width: 320, height: 568, dpr: 2 })
    } else if name == "mobile"@ {
        Some(Viewport { width: 390, height: 844, dpr: 2 })
    } else if name == "mobile-l"@ {
        Some(Viewport { width: 414, height: 896, dpr: 2 })
    } else if name == "tablet"@ {
        Some(Viewport { width: 768, height: 1024, dpr: 2 })
    } else if name == "tablet-l"@ {
        Some(Viewport { width: 1024, height: 768, dpr: 2 })
    } else if name == "laptop"@ {
        Some(Viewport { width: 1366, height: 768, dpr: 2 })
    } else if name == "desktop"@ {
        Some(Viewport { width: 1920, height: 1080, dpr: 2 })
    } else if name == "desktop-xl"@ {
        Some(Viewport { width: 2560, height: 1440, dpr: 2 })
    } else if name == "wide"@ {
        Some(Viewport { width: 3440, height: 1440, dpr: 2 })
    } else {
        None
    }
}

impl Viewport {
    /// A viewport of the given size and pixel ratio.
    pub fn new(width: u32, height: u32, dpr: u32) -> (v: Viewport)
        ensures
            v == (Viewport { width, height, dpr }),
    {
        Viewport { width, height, dpr }
    }

    /// The `mobile-s` preset.
    pub fn mobile_s() -> (v: Viewport)
        ensures
            v == (Viewport { width: 320, height: 568, dpr: 2 }),
    {
        Viewport::new(320, 568, 2)
    }

    /// The `mobile` preset.
    pub fn mobile() -> (v: Viewport)
        ensures
            v == (Viewport { width: 390, height: 844, dpr: 2 }),
    {
        Viewport::new(390, 844, 2)
    }

    /// The `mobile-l` preset.
    pub fn mobile_l() -> (v: Viewport)
        ensures
            v == (Viewport { width: 414, height: 896, dpr: 2 }),
    {
        Viewport::new(414, 896, 2)
    }

    /// The `tablet` preset.
    pub fn tablet() -> (v: Viewport)
        ensures
            v == (Viewport { width: 768, height: 1024, dpr: 2 }),
    {
        Viewport::new(768, 1024, 2)
    }

    /// The `tablet-l` preset.
    pub fn tablet_l() -> (v: Viewport)
        ensures
            v == (Viewport { width: 1024, height: 768, dpr: 2 }),
    {
        Viewport::new(1024, 768, 2)
    }

    /// The `laptop` preset.
    pub fn laptop() -> (v: Viewport)
        ensures
            v == (Viewport { width: 1366, height: 768, dpr: 2 }),
    {
        Viewport::new(1366, 768, 2)
    }

    /// The `desktop` preset.
    pub fn desktop() -> (v: Viewport)
        ensures
            v == (Viewport { width: 1920, height: 1080, dpr: 2 }),
    {
        Viewport::new(1920, 1080, 2)
    }

    /// The `desktop-xl` preset.
    pub fn desktop_xl() -> (v: Viewport)
        ensures
            v == (Viewport { width: 2560, height: 1440, dpr: 2 }),
    {
        Viewport::new(2560, 1440, 2)
    }

    /// The `wide` preset.
    pub fn wide() -> (v: Viewport)
        ensures
            v == (Viewport { width: 3440, height: 1440, dpr: 2 }),
    {
        Viewport::new(3440, 1440, 2)
    }

    /// Look up a preset by its protocol name (e.g. `mobile`,
    /// `desktop-xl`); `None` for an unknown name.
    pub fn preset(name: &str) -> (r: Option<Viewport>)
        ensures
            r == preset_named(name@),
    {
        let v = chars_of(name);
        if eq_lit(&v, "mobile-s") {
            Some(Viewport::mobile_s())
        } else if eq_lit(&v, "mobile") {
            Some(Viewport::mobile())
        } else if eq_lit(&v, "mobile-l") {
            Some(Viewport::mobile_l())
        } else if eq_lit(&v, "tablet") {
            Some(Viewport::tablet())
        } else if eq_lit(&v, "tablet-l") {
            Some(Viewport::tablet_l())
        } else if eq_lit(&v, "laptop") {
            Some(Viewport::laptop())
        } else if eq_lit(&v, "desktop") {
            Some(Viewport::desktop())
        } else if eq_lit(&v, "desktop-xl") {
            Some(Viewport::desktop_xl())
        } else if eq_lit(&v, "wide") {
            Some(Viewport::wide())
        } else {
            None
        }
    }
}

/// What an engine declares it can and cannot do.
#[derive(Debug, Clone, Copy, PartialEq, Eq)]
pub struct EngineCapabilities {
    /// Renders pixels (pages are visually realized; capture works).
    pub renders: bool,
    /// Honors viewport requests.
    pub honors_viewport: bool,
    /// Computes layout boxes.
    pub measures_layout: bool,
    /// Persists and restores cookies and storage.
    pub persists_auth: bool,
    /// Captures `console.*` and uncaught exceptions in a ring buffer.
    pub inspector_console: bool,
    /// Captures network requests in a ring buffer.
    pub inspector_network: bool,
    /// Captures cookie-store add and remove events in a ring buffer.
    pub inspector_cookie_events: bool,
    /// Short identifier reported in the status primitive.
    pub name: &'static str,
    /// Engine version string; empty for the stub.
    pub version: &'static str,
}

impl EngineCapabilities {
    /// Capabilities advertised by the in-memory test engine: everything,
    /// under the name `test`.
    pub fn test_engine() -> (c: EngineCapabilities)
        ensures
            c.renders && c.honors_viewport && c.measures_layout && c.persists_auth,
            c.inspector_console && c.inspector_network && c.inspector_cookie_events,
            c.name@ == "test"@,
            c.version@ == ""@,
    {
        EngineCapabilities {
            renders: true,
            honors_viewport: true,
            measures_layout: true,
            persists_auth: true,
            inspector_console: true,
            inspector_network: true,
            inspector_cookie_events: true,
            name: "test",
            version: "",
        }
    }
}

/// Opaque auth payload of cookies and storage, encrypted at rest by the
/// store.
#[derive(Debug, Clone, PartialEq, Eq)]
pub struct AuthBlob {
    pub bytes: Vec<u8>,
}

/// `Duration` is `Copy`: its `clone` hands back the same span.
pub assume_specification[ <Duration as Clone>::clone ](d: &Duration) -> (r: Duration)
    ensures
        r == *d,
;

/// What can go wrong when driving an engine.
#[derive(Debug, Clone)]
#[non_exhaustive]
pub enum EngineError {
    /// The engine cannot service this primitive on this platform.
    Unsupported { engine: &'static str, primitive: &'static str },
    /// Operation exceeded its deadline.
    Timeout { budget: Duration, primitive: &'static str },
    /// The named ref or mark is not present.
    NotFound { kind: &'static str, id: String },
    /// The engine thread panicked or is otherwise non-responsive.
    Crashed,
    /// The engine has shut down and no longer accepts commands.
    Closed,
    /// The platform can support the primitive but the backend has not
    /// implemented it yet.
    NotImplemented { engine: &'static str, primitive: &'static str },
    /// Any other engine-specific failure.
    Other(String),
}

} // verus!
