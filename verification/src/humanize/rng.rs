//! Seeded deterministic generator: `xoshiro256**`, seeded by four rounds
//! of `splitmix64` from one 64-bit word, as in the reference recipe, so
//! a seed gives the same stream as any other implementation.

use vstd::prelude::*;

verus! {

/// The four state words of the generator.
pub type RngState = (u64, u64, u64, u64);

/// Increment of the `splitmix64` counter.
pub const SPLITMIX_GAMMA: u64 = 0x9E37_79B9_7F4A_7C15;

/// `x` rotated left by `k` bits.
pub open spec fn rotl(x: u64, k: u32) -> u64 {
    (x << k) | (x >> ((64 - k) as u32))
}

/// The `splitmix64` output function applied to a counter value.
pub open spec fn splitmix_mix(z: u64) -> u64 {
    let a = (z ^ (z >> 30u32)).wrapping_mul(0xBF58_476D_1CE4_E5B9u64);
    let b = (a ^ (a >> 27u32)).wrapping_mul(0x94D0_49BB_1331_11EBu64);
    b ^ (b >> 31u32)
}

/// The state that `seed` expands to: four consecutive `splitmix64`
/// outputs.
pub open spec fn seeded_state(seed: u64) -> RngState {
    let c0 = seed.wrapping_add(SPLITMIX_GAMMA);
    let c1 = c0.wrapping_add(SPLITMIX_GAMMA);
    let c2 = c1.wrapping_add(SPLITMIX_GAMMA);
    let c3 = c2.wrapping_add(SPLITMIX_GAMMA);
    (splitmix_mix(c0), splitmix_mix(c1), splitmix_mix(c2), splitmix_mix(c3))
}

/// The word `xoshiro256**` outputs from state `s`.
pub open spec fn xoshiro_output(s: RngState) -> u64 {
    rotl(s.1.wrapping_mul(5u64), 7).wrapping_mul(9u64)
}

/// The state `xoshiro256**` moves to from state `s`.
pub open spec fn xoshiro_step(s: RngState) -> RngState {
    let t = s.1 << 17u32;
    let s2 = s.2 ^ s.0;
    let s3 = s.3 ^ s.1;
    let s1 = s.1 ^ s2;
    let s0 = s.0 ^ s3;
    (s0, s1, s2 ^ t, rotl(s3, 45))
}

/// Stateful generator. Construct it with [`Rng::seed_from_u64`].
pub struct Rng {
    s0: u64,
    s1: u64,
    s2: u64,
    s3: u64,
}

impl View for Rng {
    type V = RngState;

    closed spec fn view(&self) -> RngState {
        (self.s0, self.s1, self.s2, self.s3)
    }
}

fn rotate_left(x: u64, k: u32) -> (r: u64)
    requires
        0 < k < 64,
    ensures
        r == rotl(x, k),
{
    (x << k) | (x >> (64 - k))
}

fn mix(z: u64) -> (r: u64)
    ensures
        r == splitmix_mix(z),
{
    let a = (z ^ (z >> 30u32)).wrapping_mul(0xBF58_476D_1CE4_E5B9u64);
    let b = (a ^ (a >> 27u32)).wrapping_mul(0x94D0_49BB_1331_11EBu64);
    b ^ (b >> 31u32)
}

impl Rng {
    /// Seed from one word by running `splitmix64` four times.
    pub fn seed_from_u64(seed: u64) -> (r: Rng)
        ensures
            r@ == seeded_state(seed),
    {
        let c0 = seed.wrapping_add(SPLITMIX_GAMMA);
        let c1 = c0.wrapping_add(SPLITMIX_GAMMA);
        let c2 = c1.wrapping_add(SPLITMIX_GAMMA);
        let c3 = c2.wrapping_add(SPLITMIX_GAMMA);
        Rng { s0: mix(c0), s1: mix(c1), s2: mix(c2), s3: mix(c3) }
    }

    /// Next 64-bit word of the stream.
    pub fn next_u64(&mut self) -> (r: u64)
        ensures
            r == xoshiro_output(old(self)@),
            final(self)@ == xoshiro_step(old(self)@),
    {
        let result = rotate_left(self.s1.wrapping_mul(5u64), 7).wrapping_mul(9u64);
        let t = self.s1 << 17u32;
        self.s2 = self.s2 ^ self.s0;
        self.s3 = self.s3 ^ self.s1;
        self.s1 = self.s1 ^ self.s2;
        self.s0 = self.s0 ^ self.s3;
        self.s2 = self.s2 ^ t;
        self.s3 = rotate_left(self.s3, 45);
        result
    }
}

} // verus!
