//! Keystroke steps.
//!
//! Careful mode types every character at a fixed 50 ms cadence: a `Down`
//! at the character's slot and an `Up` 25 ms later, no typos. The human
//! mode's sampled timing lives with its floating-point sampler; the
//! decisions it shares with the library (word boundaries, the typo
//! neighbour of a letter) are here.

use std::time::Duration;

use vstd::prelude::*;

use super::rng::{xoshiro_output, xoshiro_step, Rng};
use super::InputMode;
use crate::text::{lower_char, to_lower_char, to_upper_char, upper_char};

verus! {

/// One key: a USB HID-ish `code` and, for printable keys, the character.
#[derive(Debug, Clone, Copy, PartialEq, Eq, Structural)]
pub struct Key {
    pub code: u32,
    pub character: Option<char>,
}

/// What kind of key event a step is.
#[derive(Debug, Clone, Copy, PartialEq, Eq, Structural)]
pub enum KeyStepKind {
    /// Key press (`keydown`).
    Down,
    /// Key release (`keyup`).
    Up,
    /// A composite press, for engines without separate down and up paths.
    Press,
}

/// One key event of a synthesized sequence, `at` after its start.
#[derive(Debug, Clone, Copy, PartialEq, Eq)]
pub struct KeyStep {
    pub at: Duration,
    pub kind: KeyStepKind,
    pub key: Key,
}

/// Names the `Duration` that `Duration::from_millis` makes of a count of
/// milliseconds.
pub uninterp spec fn millis_duration(ms: u64) -> Duration;

/// `Duration::from_millis`: the contract claims only that the result is
/// the one named by [`millis_duration`] for the same count.
#[verifier::external_body]
pub(crate) fn duration_from_millis(ms: u64) -> (d: Duration)
    ensures
        d == millis_duration(ms),
{
    Duration::from_millis(ms)
}

/// Cadence of careful typing, in milliseconds.
pub const CAREFUL_GAP_MS: u64 = 50;

/// Down-to-up dwell of careful typing, in milliseconds.
pub const CAREFUL_DWELL_MS: u64 = 25;

/// The key that types `c`: its scalar value as code, `c` as character.
pub open spec fn char_key(c: char) -> Key {
    Key { code: c as u32, character: Some(c) }
}

/// Step `i` of the careful sequence for `s`: character `i / 2` goes down
/// at `50 * (i / 2)` ms (even `i`) and up 25 ms later (odd `i`).
pub open spec fn careful_step(s: Seq<char>, i: int) -> KeyStep {
    let k = i / 2;
    if i % 2 == 0 {
        KeyStep {
            at: millis_duration((CAREFUL_GAP_MS * k) as u64),
            kind: KeyStepKind::Down,
            key: char_key(s[k]),
        }
    } else {
        KeyStep {
            at: millis_duration((CAREFUL_GAP_MS * k + CAREFUL_DWELL_MS) as u64),
            kind: KeyStepKind::Up,
            key: char_key(s[k]),
        }
    }
}

/// The careful-mode key sequence for `text`: a `Down` and an `Up` per
/// character, characters 50 ms apart, each held 25 ms.
pub fn careful_sequence(text: &str) -> (r: Vec<KeyStep>)
    requires
        CAREFUL_GAP_MS * text@.len() + CAREFUL_DWELL_MS <= u64::MAX,
    ensures
        r@.len() == 2 * text@.len(),
        forall|i: int| 0 <= i < r@.len() ==> #[trigger] r@[i] == careful_step(text@, i),
{
    let mut out: Vec<KeyStep> = Vec::new();
    let mut t_ms: u64 = 0;
    let ghost mut k: int = 0;
    for ch in it: text.chars()
        invariant
            it.seq() == text@,
            k == it.index(),
            k <= text@.len(),
            t_ms == CAREFUL_GAP_MS * k,
            CAREFUL_GAP_MS * text@.len() + CAREFUL_DWELL_MS <= u64::MAX,
            out@.len() == 2 * k,
            forall|i: int| 0 <= i < out@.len() ==> #[trigger] out@[i] == careful_step(text@, i),
    {
        assert(ch == text@[k]);
        assert(CAREFUL_GAP_MS * k + CAREFUL_DWELL_MS <= CAREFUL_GAP_MS * text@.len() + CAREFUL_DWELL_MS) by (nonlinear_arith)
            requires
                k < text@.len(),
        ;
        let key = Key { code: ch as u32, character: Some(ch) };
        let down = duration_from_millis(t_ms);
        let up = duration_from_millis(t_ms + CAREFUL_DWELL_MS);
        out.push(KeyStep { at: down, kind: KeyStepKind::Down, key });
        out.push(KeyStep { at: up, kind: KeyStepKind::Up, key });
        proof {
            let i0 = 2 * k;
            assert(i0 / 2 == k && i0 % 2 == 0);
            assert((i0 + 1) / 2 == k && (i0 + 1) % 2 == 1);
            assert(out@[i0] == careful_step(text@, i0));
            assert(out@[i0 + 1] == careful_step(text@, i0 + 1));
        }
        assert(CAREFUL_GAP_MS * (k + 1) == CAREFUL_GAP_MS * k + CAREFUL_GAP_MS);
        t_ms = t_ms + CAREFUL_GAP_MS;
        proof {
            k = k + 1;
        }
    }
    out
}

/// Characters after which a typist pauses longer: space, newline, tab
/// and the punctuation `,` `.` `;` `:`.
pub open spec fn word_boundary(c: char) -> bool {
    c == ' ' || c == '\n' || c == '\t' || c == ',' || c == '.' || c == ';' || c == ':'
}

/// True when `ch` ends a word (see [`word_boundary`]).
pub fn is_word_boundary(ch: char) -> (b: bool)
    ensures
        b == word_boundary(ch),
{
    ch == ' ' || ch == '\n' || ch == '\t' || ch == ',' || ch == '.' || ch == ';' || ch == ':'
}

/// The QWERTY neighbours of a small ASCII letter; empty for any other
/// character.
pub open spec fn qwerty_neighbors(c: char) -> Seq<char> {
    if c == 'a' {
        seq!['s', 'q', 'w', 'z']
    } else if c == 'b' {
        seq!['v', 'n', 'g', 'h']
    } else if c == 'c' {
        seq!['x', 'v', 'd', 'f']
    } else if c == 'd' {
        seq!['s', 'f', 'e', 'r', 'c']
    } else if c == 'e' {
        seq!['w', 'r', 's', 'd']
    } else if c == 'f' {
        seq!['d', 'g', 'r', 't', 'v']
    } else if c == 'g' {
        seq!['f', 'h', 't', 'y', 'b']
    } else if c == 'h' {
        seq!['g', 'j', 'y', 'u', 'n']
    } else if c == 'i' {
        seq!['u', 'o', 'k']
    } else if c == 'j' {
        seq!['h', 'k', 'u', 'i', 'm']
    } else if c == 'k' {
        seq!['j', 'l', 'i', 'o']
    } else if c == 'l' {
        seq!['k', 'o', 'p']
    } else if c == 'm' {
        seq!['n', 'j', 'k']
    } else if c == 'n' {
        seq!['b', 'm', 'h', 'j']
    } else if c == 'o' {
        seq!['i', 'p', 'k', 'l']
    } else if c == 'p' {
        seq!['o', 'l']
    } else if c == 'q' {
        seq!['w', 'a']
    } else if c == 'r' {
        seq!['e', 't', 'd', 'f']
    } else if c == 's' {
        seq!['a', 'd', 'w', 'e', 'z', 'x']
    } else if c == 't' {
        seq!['r', 'y', 'f', 'g']
    } else if c == 'u' {
        seq!['y', 'i', 'h', 'j']
    } else if c == 'v' {
        seq!['c', 'b', 'f', 'g']
    } else if c == 'w' {
        seq!['q', 'e', 'a', 's']
    } else if c == 'x' {
        seq!['z', 'c', 's', 'd']
    } else if c == 'y' {
        seq!['t', 'u', 'g', 'h']
    } else if c == 'z' {
        seq!['a', 's', 'x']
    } else {
        seq![]
    }
}

/// The neighbour table of [`qwerty_neighbors`] as a vector.
fn neighbors_of(c: char) -> (v: Vec<char>)
    ensures
        v@ == qwerty_neighbors(c),
{
    if c == 'a' {
        vec!['s', 'q', 'w', 'z']
    } else if c == 'b' {
        vec!['v', 'n', 'g', 'h']
    } else if c == 'c' {
        vec!['x', 'v', 'd', 'f']
    } else if c == 'd' {
        vec!['s', 'f', 'e', 'r', 'c']
    } else if c == 'e' {
        vec!['w', 'r', 's', 'd']
    } else if c == 'f' {
        vec!['d', 'g', 'r', 't', 'v']
    } else if c == 'g' {
        vec!['f', 'h', 't', 'y', 'b']
    } else if c == 'h' {
        vec!['g', 'j', 'y', 'u', 'n']
    } else if c == 'i' {
        vec!['u', 'o', 'k']
    } else if c == 'j' {
        vec!['h', 'k', 'u', 'i', 'm']
    } else if c == 'k' {
        vec!['j', 'l', 'i', 'o']
    } else if c == 'l' {
        vec!['k', 'o', 'p']
    } else if c == 'm' {
        vec!['n', 'j', 'k']
    } else if c == 'n' {
        vec!['b', 'm', 'h', 'j']
    } else if c == 'o' {
        vec!['i', 'p', 'k', 'l']
    } else if c == 'p' {
        vec!['o', 'l']
    } else if c == 'q' {
        vec!['w', 'a']
    } else if c == 'r' {
        vec!['e', 't', 'd', 'f']
    } else if c == 's' {
        vec!['a', 'd', 'w', 'e', 'z', 'x']
    } else if c == 't' {
        vec!['r', 'y', 'f', 'g']
    } else if c == 'u' {
        vec!['y', 'i', 'h', 'j']
    } else if c == 'v' {
        vec!['c', 'b', 'f', 'g']
    } else if c == 'w' {
        vec!['q', 'e', 'a', 's']
    } else if c == 'x' {
        vec!['z', 'c', 's', 'd']
    } else if c == 'y' {
        vec!['t', 'u', 'g', 'h']
    } else if c == 'z' {
        vec!['a', 's', 'x']
    } else {
        Vec::new()
    }
}

/// The typo for `ch` given the generator word `draw`: the neighbour of
/// its small form picked by `draw` (as `usize`, modulo the number of
/// neighbours), in capitals when `ch` is an ASCII capital.
pub open spec fn typo_of(ch: char, draw: u64) -> char {
    let nb = qwerty_neighbors(lower_char(ch));
    let n = nb[((draw as usize) % (nb.len() as usize)) as int];
    if 'A' <= ch <= 'Z' {
        upper_char(n)
    } else {
        n
    }
}

/// A plausible wrong key for `ch`: a QWERTY neighbour chosen with one
/// word of `rng`, keeping the case of `ch`. A character with no
/// neighbour table is returned unchanged and draws nothing.
pub fn neighbor_letter(ch: char, rng: &mut Rng) -> (r: char)
    ensures
        qwerty_neighbors(lower_char(ch)).len() == 0 ==> r == ch && final(rng)@ == old(rng)@,
        qwerty_neighbors(lower_char(ch)).len() > 0 ==> r == typo_of(ch, xoshiro_output(old(rng)@))
            && final(rng)@ == xoshiro_step(old(rng)@),
{
    let lower = to_lower_char(ch);
    let nb = neighbors_of(lower);
    if nb.len() == 0 {
        return ch;
    }
    let draw = rng.next_u64();
    let i = (draw as usize) % nb.len();
    let n = nb[i];
    let u = ch as u32;
    if 65 <= u && u <= 90 {
        to_upper_char(n)
    } else {
        n
    }
}

/// The key steps for typing `text` in `mode`: none in robotic mode (the
/// engine then falls back to script dispatch), the careful sequence in
/// careful mode, and in human mode what the sampler `human` gives for
/// `text` and `seed` (the sampled timing is floating point and lives
/// with the caller).
pub fn key_sequence<F>(text: &str, mode: InputMode, seed: u64, human: F) -> (r: Vec<KeyStep>)
    where
        F: Fn(&str, u64) -> Vec<KeyStep>,
    requires
        mode is Careful ==> CAREFUL_GAP_MS * text@.len() + CAREFUL_DWELL_MS <= u64::MAX,
        mode is Human ==> human.requires((text, seed)),
    ensures
        mode is Robotic ==> r@.len() == 0,
        mode is Careful ==> r@.len() == 2 * text@.len() && forall|i: int| 0 <= i < r@.len() ==> #[trigger] r@[i]
            == careful_step(text@, i),
        mode is Human ==> human.ensures((text, seed), r),
{
    match mode {
        InputMode::Robotic => Vec::new(),
        InputMode::Careful => careful_sequence(text),
        InputMode::Human => human(text, seed),
    }
}

} // verus!
