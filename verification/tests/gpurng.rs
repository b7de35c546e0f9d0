use hematite::utils::gpurng::{hash, rng_state, xorshift32};

fn reference_hash(mut x: u32) -> u32 {
    x ^= x >> 16;
    x = x.wrapping_mul(0x7feb352d);
    x ^= x >> 15;
    x = x.wrapping_mul(0x446ca68b);
    x ^= x >> 16;
    x
}

#[test]
fn xorshift_steps_state() {
    let mut state = 1u32;
    let x = xorshift32(&mut state);
    assert_eq!(x, 270369);
    assert_eq!(state, 270369);
    let y = xorshift32(&mut state);
    assert_eq!(y, state);
    let mut zero = 0u32;
    assert_eq!(xorshift32(&mut zero), 0);
}

#[test]
fn xorshift_never_reaches_zero() {
    let mut state = 0xdead_beefu32;
    for _ in 0..10_000 {
        assert_ne!(xorshift32(&mut state), 0);
    }
}

#[test]
fn hash_wraps() {
    assert_eq!(hash(0), 0);
    for x in [1u32, 2, 12345, u32::MAX, 0x8000_0000] {
        assert_eq!(hash(x), reference_hash(x));
    }
    assert_ne!(hash(1), 1);
}

#[test]
fn rng_state_combines_coordinate_hashes() {
    assert_eq!(rng_state(1, 2, 3, 4), hash(1) ^ hash(2) ^ hash(3) ^ hash(4));
    assert_eq!(rng_state(0, 0, 0, 0), 0);
}
