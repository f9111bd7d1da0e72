//! A SplitMix-style 64-bit pseudorandom generator. Each worker owns one,
//! seeded independently; a draw is a pure function of the seed, which is what
//! makes whole renders reproducible from their seeds.

use crate::fixed::SCALE;
use vstd::prelude::*;

verus! {

#[derive(Clone, Copy, PartialEq, Eq, Structural, Debug)]
pub struct Rng {
    pub state: u64,
}

/// The state after one draw: a golden-ratio increment, wrapping at 2^64.
pub open spec fn next_state_s(s: u64) -> u64 {
    (((s as u128) + 0x9E37_79B9_7F4A_7C15u128) as u64)
}

/// The output word mixed out of a state: two xor-shift-multiply rounds,
/// each product wrapping at 2^64.
pub open spec fn mix_s(z0: u64) -> u64 {
    let z1 = ((((z0 ^ (z0 >> 30)) as u128) * 0xBF58_476D_1CE4_E5B9u128) as u64);
    let z2 = ((((z1 ^ (z1 >> 27)) as u128) * 0x94D0_49BB_1331_11EBu128) as u64);
    z2 ^ (z2 >> 31)
}

/// The word a draw from state `s` yields.
pub open spec fn out_s(s: u64) -> u64 {
    mix_s(next_state_s(s))
}

/// A draw mapped into the unit interval `[0, 1)`: raw `[0, SCALE)`.
pub open spec fn unit_draw_s(s: u64) -> int {
    (out_s(s) % (SCALE as u64)) as int
}

/// A draw mapped into `[-1, 1]`: raw `[-SCALE, SCALE]`.
pub open spec fn sym_draw_s(s: u64) -> int {
    out_s(s) % 131073 - (SCALE as int)
}

impl Rng {
    pub fn new(seed: u64) -> (r: Rng)
        ensures
            r.state == seed,
    {
        Rng { state: seed }
    }

    /// One raw draw; advances the state exactly once.
    pub fn next_u64(&mut self) -> (r: u64)
        ensures
            final(self).state == next_state_s(old(self).state),
            r == out_s(old(self).state),
    {
        let s2 = #[verifier::truncate] (((self.state as u128) + 0x9E37_79B9_7F4A_7C15u128) as u64);
        self.state = s2;
        let z1 = #[verifier::truncate] ((((s2 ^ (s2 >> 30)) as u128)
            * 0xBF58_476D_1CE4_E5B9u128) as u64);
        let z2 = #[verifier::truncate] ((((z1 ^ (z1 >> 27)) as u128)
            * 0x94D0_49BB_1331_11EBu128) as u64);
        z2 ^ (z2 >> 31)
    }

    /// A draw in `[0, 1)` (raw `[0, SCALE)`).
    pub fn next_unit(&mut self) -> (r: i64)
        ensures
            final(self).state == next_state_s(old(self).state),
            r as int == unit_draw_s(old(self).state),
            0 <= r < SCALE,
    {
        let w = self.next_u64();
        (w % (SCALE as u64)) as i64
    }

    /// A draw in `[-1, 1]` (raw `[-SCALE, SCALE]`).
    pub fn next_sym(&mut self) -> (r: i64)
        ensures
            final(self).state == next_state_s(old(self).state),
            r as int == sym_draw_s(old(self).state),
            -SCALE <= r <= SCALE,
    {
        let w = self.next_u64();
        ((w % 131073) as i64) - SCALE
    }
}

} // verus!
