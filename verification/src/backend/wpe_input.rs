//! Input-dispatch helpers of the Linux backend: button numbering for the
//! X11 test extension and the Linux input subsystem, the keysym of a
//! typed character, coordinate clamping, and the seed of a humanized
//! cursor path.

use vstd::prelude::*;

verus! {

/// Mouse button identifier of the dispatchers.
#[derive(Debug, Clone, Copy, PartialEq, Eq, Structural)]
pub enum Button {
    Left,
    Middle,
    Right,
}

/// `v` clamped to the `i16` range.
pub fn clamp_i16(v: i32) -> (r: i16)
    ensures
        r == if v < i16::MIN { i16::MIN as int } else if v > i16::MAX { i16::MAX as int } else { v as int },
{
    if v < -32768 {
        -32768
    } else if v > 32767 {
        32767
    } else {
        v as i16
    }
}

/// X11 button number: 1 left, 2 middle, 3 right.
pub fn button_code(b: Button) -> (c: u8)
    ensures
        c == match b {
            Button::Left => 1u8,
            Button::Middle => 2u8,
            Button::Right => 3u8,
        },
{
    match b {
        Button::Left => 1,
        Button::Middle => 2,
        Button::Right => 3,
    }
}

/// Linux input-subsystem button code (`BTN_LEFT` 0x110, `BTN_MIDDLE`
/// 0x112, `BTN_RIGHT` 0x111), as the remote-desktop portal expects.
pub fn linux_button_code(b: Button) -> (c: u32)
    ensures
        c == match b {
            Button::Left => 0x110u32,
            Button::Middle => 0x112u32,
            Button::Right => 0x111u32,
        },
{
    match b {
        Button::Left => 0x110,
        Button::Middle => 0x112,
        Button::Right => 0x111,
    }
}


/// The X keysym a typed character is sent as: BackSpace, Tab, Return
/// (for both line feed and carriage return) and Escape by their function
/// keysyms; Latin-1 printable characters as their code point; any other
/// character as its code point offset by `0x0100_0000`.
pub open spec fn keysym_of(ch: char) -> u32 {
    if ch == '\u{8}' {
        0xff08
    } else if ch == '\t' {
        0xff09
    } else if ch == '\n' || ch == '\r' {
        0xff0d
    } else if ch == '\u{1b}' {
        0xff1b
    } else if (0x20 <= ch as u32 <= 0x7e) || (0xa0 <= ch as u32 <= 0xff) {
        ch as u32
    } else {
        (0x0100_0000 + ch as u32) as u32
    }
}

/// The X keysym of `ch` (see [`keysym_of`]).
pub fn keysym_for(ch: char) -> (k: u32)
    ensures
        k == keysym_of(ch),
{
    match ch {
        '\u{8}' => 0xff08,
        '\t' => 0xff09,
        '\n' | '\r' => 0xff0d,
        '\u{1b}' => 0xff1b,
        _ => {
            let cp = ch as u32;
            if (0x20 <= cp && cp <= 0x7e) || (0xa0 <= cp && cp <= 0xff) {
                cp
            } else {
                0x0100_0000 + cp
            }
        },
    }
}

/// The seed of a humanized cursor path from the bit patterns of the
/// operation's four coordinates (zero bits for the coordinates a
/// one-point operation lacks): each of the first three is multiplied,
/// wrapping, by its own odd constant, and the four are combined by
/// exclusive or. Replaying the same operation draws the same path.
pub open spec fn path_seed(a: u64, b: u64, c: u64, d: u64) -> u64 {
    a.wrapping_mul(0x9E37_79B9_7F4A_7C15u64) ^ b.wrapping_mul(0xBF58_476D_1CE4_E5B9u64)
        ^ c.wrapping_mul(0x94D0_49BB_1331_11EBu64) ^ d
}

/// The seed of a humanized cursor path (see [`path_seed`]).
pub fn humanize_seed_of_bits(a: u64, b: u64, c: u64, d: u64) -> (s: u64)
    ensures
        s == path_seed(a, b, c, d),
{
    a.wrapping_mul(0x9E37_79B9_7F4A_7C15u64) ^ b.wrapping_mul(0xBF58_476D_1CE4_E5B9u64)
        ^ c.wrapping_mul(0x94D0_49BB_1331_11EBu64) ^ d
}

} // verus!
