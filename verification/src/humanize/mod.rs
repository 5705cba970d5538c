//! Input synthesis for the three input modes.
//!
//! Given text to type, the library here returns the discrete key steps
//! of the careful mode and the building blocks of the human mode: the
//! seeded stream generator, word boundaries and typo neighbours. Every
//! entry point is deterministic: the same seed and inputs give the same
//! output.

use vstd::prelude::*;

pub mod keys;
pub mod rng;

verus! {

/// Which input style to synthesize.
///
/// `Human` produces multi-event sequences with realistic timing;
/// `Careful` single-shot sequences dispatched on the trusted-event path;
/// `Robotic` an empty sequence, the signal to fall back to JS dispatch.
#[derive(Debug, Clone, Copy, PartialEq, Eq, Structural, Hash)]
pub enum InputMode {
    /// Curved paths, Fitts-law arrival times, sampled keystroke gaps and
    /// occasional typo with correction.
    Human,
    /// Single-shot trusted dispatch, no paths and a fixed key cadence.
    Careful,
    /// Empty sequence: the engine falls back to JS synthetic dispatch.
    Robotic,
}

/// Which physical mouse button a step refers to.
#[derive(Debug, Clone, Copy, PartialEq, Eq, Structural)]
pub enum MouseButton {
    Left,
    Middle,
    Right,
}

/// What kind of mouse event a step is.
#[derive(Debug, Clone, Copy, PartialEq, Eq, Structural)]
pub enum MouseStepKind {
    /// Pointer movement only, no button change.
    Move,
    /// Button press.
    Down,
    /// Button release.
    Up,
    /// Logical click (the DOM `click` event).
    Click,
}

} // verus!
