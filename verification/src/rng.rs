//! The 32-bit xorshift generator behind the engines' noise and the kit's
//! generative trigger rolls.

use vstd::prelude::*;

verus! {

/// One xorshift step: `x ^= x << 13; x ^= x >> 17; x ^= x << 5` on 32 bits.
pub open spec fn xorshift_step(x: u32) -> u32 {
    let a = x ^ ((x << 13u32) as u32);
    let b = a ^ (a >> 17u32);
    b ^ ((b << 5u32) as u32)
}

/// The state a seed starts the generator in: zero would be a fixed point,
/// so it is replaced by `0xACE1`.
pub open spec fn seeded_state(seed: u32) -> u32 {
    if seed == 0 {
        0xACE1
    } else {
        seed
    }
}

/// A step never turns a non-zero state into zero, so a generator that starts
/// non-zero never gets stuck.
pub proof fn lemma_step_nonzero(x: u32)
    requires
        x != 0,
    ensures
        xorshift_step(x) != 0,
{
    let a = x ^ ((x << 13u32) as u32);
    let b = a ^ (a >> 17u32);
    let c = b ^ ((b << 5u32) as u32);
    assert(x != 0 ==> x ^ ((x << 13u32) as u32) != 0) by (bit_vector);
    assert(a != 0 ==> a ^ (a >> 17u32) != 0) by (bit_vector);
    assert(b != 0 ==> b ^ ((b << 5u32) as u32) != 0) by (bit_vector);
}

/// The state after `n` steps from `x`.
pub open spec fn state_after(x: u32, n: nat) -> u32
    decreases n,
{
    if n == 0 {
        x
    } else {
        xorshift_step(state_after(x, (n - 1) as nat))
    }
}

/// The `k`-th value (from 1) that `next_u32` returns on a generator made by
/// `Xorshift::new(seed)`: a function of the seed alone, so equal seeds give
/// equal sequences, and seed 0 behaves as seed `0xACE1`.
pub open spec fn draw(seed: u32, k: nat) -> u32 {
    state_after(seeded_state(seed), k)
}

/// No draw of a seeded generator is ever zero.
pub proof fn lemma_draws_nonzero(seed: u32, k: nat)
    ensures
        draw(seed, k) != 0,
    decreases k,
{
    if k > 0 {
        lemma_draws_nonzero(seed, (k - 1) as nat);
        lemma_step_nonzero(state_after(seeded_state(seed), (k - 1) as nat));
    }
}

pub struct Xorshift {
    state: u32,
}

impl Xorshift {
    /// The generator's current state.
    pub closed spec fn state(&self) -> u32 {
        self.state
    }

    #[verifier::type_invariant]
    closed spec fn nonzero(&self) -> bool {
        self.state != 0
    }

    /// A generator seeded with `seed`.
    pub fn new(seed: u32) -> (r: Self)
        ensures
            r.state() == seeded_state(seed),
    {
        Xorshift { state: if seed == 0 { 0xACE1 } else { seed } }
    }

    /// Advance one step and return the new state.
    pub fn next_u32(&mut self) -> (r: u32)
        ensures
            final(self).state() == xorshift_step(old(self).state()),
            r == final(self).state(),
            r != 0,
    {
        proof {
            use_type_invariant(&*self);
            lemma_step_nonzero(self.state);
        }
        let x = self.state;
        let a = x ^ (x << 13u32);
        let b = a ^ (a >> 17u32);
        let c = b ^ (b << 5u32);
        self.state = c;
        c
    }
}

} // verus!
