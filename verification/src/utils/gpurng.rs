//! The counter-based random state of the GPU kernel: an integer hash of a
//! site's coordinates and a 32-bit xorshift step. All arithmetic wraps
//! modulo 2^32, as it does on the GPU.
use vstd::prelude::*;

verus! {

/// One xorshift32 step (shifts 13, 17, 5).
pub open spec fn xorshift32_step(x: u32) -> u32 {
    let a = x ^ (x << 13u32);
    let b = a ^ (a >> 17u32);
    b ^ (b << 5u32)
}

/// The integer hash of one coordinate.
pub open spec fn hash_spec(x: u32) -> u32 {
    let a = x ^ (x >> 16u32);
    let b = ((a as int * 0x7feb352d) % 0x1_0000_0000) as u32;
    let c = b ^ (b >> 15u32);
    let d = ((c as int * 0x446ca68b) % 0x1_0000_0000) as u32;
    d ^ (d >> 16u32)
}

/// Advances the xorshift32 state and returns the new state.
pub fn xorshift32(state: &mut u32) -> (x: u32)
    ensures
        x == xorshift32_step(*old(state)),
        x == ({
            let a = *old(state) ^ (*old(state) << 13u32);
            let b = a ^ (a >> 17u32);
            b ^ (b << 5u32)
        }),
        *final(state) == x,
{
    let mut x = *state;

    x ^= x << 13;
    x ^= x >> 17;
    x ^= x << 5;

    *state = x;
    x
}

/// The xorshift32 step is the (13, 17, 5) triple: a left shift by 13, a
/// right shift by 17 and a left shift by 5, each folded in with exclusive or.
pub proof fn lemma_xorshift32_shifts(x: u32)
    ensures
        xorshift32_step(x) == ({
            let a = x ^ (x << 13u32);
            let b = a ^ (a >> 17u32);
            b ^ (b << 5u32)
        }),
{
}

/// A nonzero xorshift32 state stays nonzero, and zero stays zero: the
/// generator never collapses onto its fixed point.
pub proof fn lemma_xorshift32_nonzero(x: u32)
    ensures
        (xorshift32_step(x) == 0) == (x == 0),
{
    let a = x ^ (x << 13u32);
    let b = a ^ (a >> 17u32);
    let c = b ^ (b << 5u32);
    assert(a == 0 <==> x == 0) by (bit_vector)
        requires a == x ^ (x << 13u32);
    assert(b == 0 <==> a == 0) by (bit_vector)
        requires b == a ^ (a >> 17u32);
    assert(c == 0 <==> b == 0) by (bit_vector)
        requires c == b ^ (b << 5u32);
}

/// The integer hash of one coordinate, with multiplications that wrap.
pub fn hash(x: u32) -> (h: u32)
    ensures
        h == hash_spec(x),
        h == ({
            let a = x ^ (x >> 16u32);
            let b = ((a as int * 0x7feb352d) % 0x1_0000_0000) as u32;
            let c = b ^ (b >> 15u32);
            let d = ((c as int * 0x446ca68b) % 0x1_0000_0000) as u32;
            d ^ (d >> 16u32)
        }),
{
    let mut x = x;
    x ^= x >> 16;
    x = x.wrapping_mul(0x7feb352d);
    x ^= x >> 15;
    x = x.wrapping_mul(0x446ca68b);
    x ^= x >> 16;
    x
}

/// The initial random state of a site: the exclusive or of the hashes of
/// its four coordinates.
pub fn rng_state(layer: u32, uc_x: u32, uc_y: u32, site: u32) -> (state: u32)
    ensures
        state == hash_spec(layer) ^ hash_spec(uc_x) ^ hash_spec(uc_y) ^ hash_spec(site),
{
    let mut state = hash(layer);
    state ^= hash(uc_x);
    state ^= hash(uc_y);
    state ^= hash(site);
    state
}

} // verus!
