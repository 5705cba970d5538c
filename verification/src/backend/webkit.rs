//! Small decisions of the macOS backend that need no platform call:
//! click settle times per input mode, the path seed of a ref, and the
//! navigation state a page's delegate records.

use vstd::prelude::*;

use crate::humanize::InputMode;
use crate::tree::Ref;

verus! {

/// Settle waits in milliseconds after mouse-down and mouse-up: robotic
/// clicks skip most of the delay; human and careful ones leave time for
/// the click's handlers to run.
pub fn click_settle(mode: InputMode) -> (r: (u64, u64))
    ensures
        r == if mode == InputMode::Robotic { (2u64, 6u64) } else { (15u64, 30u64) },
{
    match mode {
        InputMode::Robotic => (2, 6),
        _ => (15, 30),
    }
}

/// The path seed of a ref: the same ref always draws the same curve,
/// different refs different ones.
pub open spec fn ref_seed(r: Ref) -> u64 {
    (r.0 as u64).wrapping_mul(0x9E37_79B9_7F4A_7C15u64) ^ 0xDEAD_BEEF_CAFE_BABEu64
}

/// The humanization seed for a ref (see [`ref_seed`]).
pub fn vs_humanize_seed_for_ref(r: Ref) -> (s: u64)
    ensures
        s == ref_seed(r),
{
    (r.0 as u64).wrapping_mul(0x9E37_79B9_7F4A_7C15u64) ^ 0xDEAD_BEEF_CAFE_BABEu64
}

/// What a page's navigation delegate has seen of the current load.
#[derive(Debug, Clone, Default)]
pub struct NavState {
    pub started: bool,
    pub committed: bool,
    pub done: Option<Result<(), String>>,
}

impl NavState {
    /// Forget the previous load.
    pub fn reset(&mut self)
        ensures
            !final(self).started,
            !final(self).committed,
            final(self).done is None,
    {
        *self = NavState { started: false, committed: false, done: None };
    }
}

} // verus!
