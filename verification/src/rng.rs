//! A small deterministic generator of 64-bit numbers (xoshiro256**), for
//! sample data that comes out the same on every run.

use vstd::prelude::*;

verus! {

/// One step of the linear congruential sequence that spreads a seed over
/// the four words of the state.
pub open spec fn seed_step(x: u64) -> u64 {
    x.wrapping_mul(6364136223846793005).wrapping_add(1)
}

/// The state that a seed gives: four successive steps of the sequence.
pub open spec fn seeded_state(seed: u64) -> Seq<u64> {
    seq![
        seed_step(seed),
        seed_step(seed_step(seed)),
        seed_step(seed_step(seed_step(seed))),
        seed_step(seed_step(seed_step(seed_step(seed)))),
    ]
}

/// `x` with its bits rotated left by `k` places, for `0 < k < 64`.
pub open spec fn rotated_left(x: u64, k: u64) -> u64 {
    (x << k) | (x >> ((64 - k) as u64))
}

/// The number that a state gives out.
pub open spec fn state_output(s: Seq<u64>) -> u64 {
    rotated_left(s[1].wrapping_mul(5), 7).wrapping_mul(9)
}

/// The state that follows `s`.
pub open spec fn next_state(s: Seq<u64>) -> Seq<u64> {
    let t = s[1] << 17;
    let s2 = s[2] ^ s[0];
    let s3 = s[3] ^ s[1];
    let s1 = s[1] ^ s2;
    let s0 = s[0] ^ s3;
    seq![s0, s1, s2 ^ t, rotated_left(s3, 45)]
}

/// Rotates the bits of `x` left by `k` places.
fn rotate_left(x: u64, k: u64) -> (r: u64)
    requires
        0 < k < 64,
    ensures
        r == rotated_left(x, k),
{
    (x << k) | (x >> (64 - k))
}

/// The generator: four words of state.
#[derive(Debug)]
pub struct SimpleRng {
    state: [u64; 4],
}

impl View for SimpleRng {
    type V = Seq<u64>;

    /// The four words of the state.
    closed spec fn view(&self) -> Seq<u64> {
        self.state@
    }
}

impl SimpleRng {
    /// The generator for `seed`.
    pub fn new(seed: u64) -> (r: SimpleRng)
        ensures
            r@ == seeded_state(seed),
    {
        let a = seed.wrapping_mul(6364136223846793005).wrapping_add(1);
        let b = a.wrapping_mul(6364136223846793005).wrapping_add(1);
        let c = b.wrapping_mul(6364136223846793005).wrapping_add(1);
        let d = c.wrapping_mul(6364136223846793005).wrapping_add(1);
        let r = SimpleRng { state: [a, b, c, d] };
        assert(r@ =~= seeded_state(seed));
        r
    }

    /// Gives out the next number and moves the state on.
    pub fn next_u64(&mut self) -> (r: u64)
        ensures
            r == state_output(old(self)@),
            final(self)@ == next_state(old(self)@),
    {
        let s0 = self.state[0];
        let s1 = self.state[1];
        let s2 = self.state[2];
        let s3 = self.state[3];
        let result = rotate_left(s1.wrapping_mul(5), 7).wrapping_mul(9);
        let t = s1 << 17;
        let n2 = s2 ^ s0;
        let n3 = s3 ^ s1;
        let n1 = s1 ^ n2;
        let n0 = s0 ^ n3;
        self.state = [n0, n1, n2 ^ t, rotate_left(n3, 45)];
        assert(self@ =~= next_state(old(self)@));
        result
    }
}

} // verus!
