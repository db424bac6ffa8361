use vstd::prelude::*;

verus! {

/// Multiplier of the linear congruential generator shared by the modal engines.
pub const LCG_MULTIPLIER: u32 = 1664525;

/// Increment of the linear congruential generator shared by the modal engines.
pub const LCG_INCREMENT: u32 = 1013904223;

/// One generator step, modulo 2^32.
pub open spec fn lcg_step(seed: u32) -> u32 {
    ((seed * LCG_MULTIPLIER + LCG_INCREMENT) % 0x1_0000_0000) as u32
}

/// The state after `n` steps from `seed`.
pub open spec fn lcg_iterate(seed: u32, n: nat) -> u32
    decreases n,
{
    if n == 0 {
        seed
    } else {
        lcg_step(lcg_iterate(seed, (n - 1) as nat))
    }
}

/// Advances the generator by one step: `seed * 1664525 + 1013904223`, wrapping at 2^32.
pub fn lcg_next(seed: u32) -> (next: u32)
    ensures
        next == lcg_step(seed),
{
    let product = seed.wrapping_mul(LCG_MULTIPLIER);
    let next = product.wrapping_add(LCG_INCREMENT);
    proof {
        let whole: int = seed as int * LCG_MULTIPLIER as int;
        vstd::arithmetic::div_mod::lemma_add_mod_noop(whole, LCG_INCREMENT as int, 0x1_0000_0000);
        vstd::arithmetic::div_mod::lemma_small_mod(LCG_INCREMENT as nat, 0x1_0000_0000);
        vstd::arithmetic::div_mod::lemma_mod_bound(whole, 0x1_0000_0000);
    }
    next
}

/// The 24 high bits of a generator state: the uniform draw the engines scale to `[0, 1)`.
pub fn lcg_draw(state: u32) -> (draw: u32)
    ensures
        draw == state / 256,
        draw < 0x100_0000,
{
    assert(state >> 8u32 == state / 256) by (bit_vector);
    state >> 8
}

} // verus!
