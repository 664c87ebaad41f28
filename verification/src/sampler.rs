use vstd::prelude::*;
use vstd::arithmetic::div_mod::*;
use vstd::arithmetic::mul::*;
use rand::rngs::StdRng;
use rand::SeedableRng;

verus! {

/// The standard generator of `rand`: a ChaCha12 stream whose state is
/// opaque here.
#[verifier::external_type_specification]
#[verifier::external_body]
pub struct ExStdRng(StdRng);

/// The generator `StdRng::seed_from_u64` builds from `state`.
pub uninterp spec fn seeded_rng(state: u64) -> StdRng;

/// Calls `rand::SeedableRng::seed_from_u64` for `StdRng`. Its source
/// (rand_core 0.6) expands `state` into a ChaCha key with a PCG32 stream and
/// nothing else, so the generator is a function of `state` alone: the
/// contract names it `seeded_rng(state)`. What the generator then yields is
/// not stated.
#[verifier::external_body]
fn std_rng_from_seed(state: u64) -> (rng: StdRng)
    ensures
        rng == seeded_rng(state),
{
    StdRng::seed_from_u64(state)
}

/// 2^64, the modulus of wrapping arithmetic on `u64`.
pub open spec fn word() -> int {
    0x1_0000_0000_0000_0000
}

/// The seed `make_rng` derives for pixel (x, y) under the global `seed`: the
/// linear congruential step `1664525 * v + 1013904223` applied to
/// `v = seed + 374761393 * x + 668265263 * y`, all modulo 2^64.
pub open spec fn pixel_seed(x: u32, y: u32, seed: u64) -> u64 {
    (((seed + 374761393 * x + 668265263 * y) * 1664525 + 1013904223) % word()) as u64
}

/// The seed a pixel's renderer draws from: `seed + 0x9E3779B97F4A7C15 * x +
/// 0xBF58476D1CE4E5B9 * y` modulo 2^64.
pub open spec fn render_seed(x: u32, y: u32, seed: u64) -> u64 {
    ((seed + 0x9E3779B97F4A7C15 * x + 0xBF58476D1CE4E5B9 * y) % word()) as u64
}

proof fn lemma_wrapping_add(a: u64, b: u64)
    ensures
        a.wrapping_add(b) == (a + b) % word(),
{
    if a + b > u64::MAX {
        lemma_small_mod((a + b - word()) as nat, word() as nat);
        lemma_mod_multiples_vanish(1, a + b - word(), word());
    } else {
        lemma_small_mod((a + b) as nat, word() as nat);
    }
}

/// The seed of a pixel's generator, mixed from its coordinates and the
/// global seed.
pub fn mix_pixel_seed(x: u32, y: u32, seed: u64) -> (s: u64)
    ensures
        s == pixel_seed(x, y, seed),
{
    let mut seed_val = seed;
    let xa = x as u64 * 374761393;
    let yb = y as u64 * 668265263;
    seed_val = seed_val.wrapping_add(xa);
    let ghost s1 = seed_val;
    seed_val = seed_val.wrapping_add(yb);
    let ghost s2 = seed_val;
    seed_val = seed_val.wrapping_mul(1664525);
    let ghost s3 = seed_val;
    seed_val = seed_val.wrapping_add(1013904223);
    proof {
        let m = word();
        lemma_wrapping_add(seed, xa);
        lemma_wrapping_add(s1, yb);
        lemma_wrapping_add(s3, 1013904223);
        // s2 == (seed + xa + yb) % m
        lemma_add_mod_noop(seed + xa, yb as int, m);
        lemma_small_mod(yb as nat, m as nat);
        lemma_mod_twice(seed + xa, m);
        assert(s2 == (seed + xa + yb) % m);
        // s3 == ((seed + xa + yb) * 1664525) % m
        lemma_mul_mod_noop_left(seed + xa + yb, 1664525, m);
        assert(s3 == ((seed + xa + yb) * 1664525) % m);
        // final
        lemma_add_mod_noop(((seed + xa + yb) * 1664525), 1013904223, m);
        lemma_small_mod(1013904223, m as nat);
        lemma_mod_twice((seed + xa + yb) * 1664525, m);
    }
    seed_val
}

/// The seed a pixel's renderer starts its generator from.
pub fn mix_render_seed(x: u32, y: u32, seed: u64) -> (s: u64)
    ensures
        s == render_seed(x, y, seed),
{
    let xp = (x as u64).wrapping_mul(0x9E3779B97F4A7C15);
    let yq = (y as u64).wrapping_mul(0xBF58476D1CE4E5B9);
    let s1 = seed.wrapping_add(xp);
    let s2 = s1.wrapping_add(yq);
    proof {
        let m = word();
        lemma_wrapping_add(seed, xp);
        lemma_wrapping_add(s1, yq);
        // s1 == (seed + x * P) % m
        lemma_add_mod_noop(seed as int, x * 0x9E3779B97F4A7C15, m);
        lemma_small_mod(seed as nat, m as nat);
        lemma_mod_twice(x * 0x9E3779B97F4A7C15, m);
        assert(s1 == (seed + x * 0x9E3779B97F4A7C15) % m);
        lemma_add_mod_noop(seed + x * 0x9E3779B97F4A7C15, y * 0xBF58476D1CE4E5B9, m);
        lemma_mod_twice(seed + x * 0x9E3779B97F4A7C15, m);
        lemma_mod_twice(y * 0xBF58476D1CE4E5B9, m);
    }
    s2
}

/// A generator seeded deterministically from a pixel's coordinates and the
/// global seed.
pub fn make_rng(x: u32, y: u32, seed: u64) -> (rng: StdRng)
    ensures
        rng == seeded_rng(pixel_seed(x, y, seed)),
{
    std_rng_from_seed(mix_pixel_seed(x, y, seed))
}

/// The generator a pixel's renderer draws its samples from.
pub fn render_rng(x: u32, y: u32, seed: u64) -> (rng: StdRng)
    ensures
        rng == seeded_rng(render_seed(x, y, seed)),
{
    std_rng_from_seed(mix_render_seed(x, y, seed))
}

/// A factor with an inverse modulo 2^64 cancels: `d * k ≡ 0` forces `d ≡ 0`.
proof fn lemma_cancel_invertible(d: int, k: int, inv: int)
    requires
        (k * inv) % word() == 1,
        (d * k) % word() == 0,
    ensures
        d % word() == 0,
{
    let m = word();
    lemma_mul_mod_noop_right(d, k * inv, m);
    lemma_mul_is_associative(d, k, inv);
    lemma_mul_mod_noop_left(d * k, inv, m);
    assert((d * (k * inv)) % m == d % m);
}

/// Two coordinates closer than 2^64 that agree modulo 2^64 are equal.
proof fn lemma_congruent_coords(a: int, b: int, k: int, inv: int, c: int)
    requires
        0 <= a < 0x1_0000_0000,
        0 <= b < 0x1_0000_0000,
        (k * inv) % word() == 1,
        (c + k * a) % word() == (c + k * b) % word(),
    ensures
        a == b,
{
    let m = word();
    lemma_sub_mod_noop(c + k * a, c + k * b, m);
    assert((c + k * a) - (c + k * b) == (a - b) * k) by (nonlinear_arith);
    assert(((a - b) * k) % m == 0);
    lemma_cancel_invertible(a - b, k, inv);
    if a > b {
        lemma_small_mod((a - b) as nat, m as nat);
    } else if a < b {
        lemma_mul_unary_negation(b - a, k);
        assert(((b - a) * k) % m == 0) by {
            lemma_sub_mod_noop(0, (a - b) * k, m);
            assert(0 - (a - b) * k == (b - a) * k) by (nonlinear_arith);
        }
        lemma_cancel_invertible(b - a, k, inv);
        lemma_small_mod((b - a) as nat, m as nat);
    }
}

/// Pixels of one row get distinct generator seeds from `make_rng`, and so do
/// pixels of one column.
pub proof fn lemma_pixel_seeds_distinct(x1: u32, y1: u32, x2: u32, y2: u32, seed: u64)
    requires
        (x1, y1) != (x2, y2),
        x1 == x2 || y1 == y2,
    ensures
        pixel_seed(x1, y1, seed) != pixel_seed(x2, y2, seed),
{
    let m = word();
    assert((374761393 * 1664525 * 0xba1f588a5b945b55int) % m == 1);
    assert((668265263 * 1664525 * 0x4bc097eeff532e4bint) % m == 1);
    if y1 == y2 {
        let c = (seed + 668265263 * y1) * 1664525 + 1013904223;
        assert((seed + 374761393 * x1 + 668265263 * y1) * 1664525 + 1013904223 == c + (374761393 * 1664525) * x1)
            by (nonlinear_arith) requires c == (seed + 668265263 * y1) * 1664525 + 1013904223;
        assert((seed + 374761393 * x2 + 668265263 * y2) * 1664525 + 1013904223 == c + (374761393 * 1664525) * x2)
            by (nonlinear_arith) requires y1 == y2, c == (seed + 668265263 * y1) * 1664525 + 1013904223;
        if pixel_seed(x1, y1, seed) == pixel_seed(x2, y2, seed) {
            lemma_congruent_coords(x1 as int, x2 as int, 374761393int * 1664525, 0xba1f588a5b945b55, c);
        }
    } else {
        let c = (seed + 374761393 * x1) * 1664525 + 1013904223;
        assert((seed + 374761393 * x1 + 668265263 * y1) * 1664525 + 1013904223 == c + (668265263 * 1664525) * y1)
            by (nonlinear_arith) requires c == (seed + 374761393 * x1) * 1664525 + 1013904223;
        assert((seed + 374761393 * x2 + 668265263 * y2) * 1664525 + 1013904223 == c + (668265263 * 1664525) * y2)
            by (nonlinear_arith) requires x1 == x2, c == (seed + 374761393 * x1) * 1664525 + 1013904223;
        if pixel_seed(x1, y1, seed) == pixel_seed(x2, y2, seed) {
            lemma_congruent_coords(y1 as int, y2 as int, 668265263int * 1664525, 0x4bc097eeff532e4b, c);
        }
    }
}

/// Pixels of one row get distinct seeds for their renderers, and so do
/// pixels of one column.
pub proof fn lemma_render_seeds_distinct(x1: u32, y1: u32, x2: u32, y2: u32, seed: u64)
    requires
        (x1, y1) != (x2, y2),
        x1 == x2 || y1 == y2,
    ensures
        render_seed(x1, y1, seed) != render_seed(x2, y2, seed),
{
    let m = word();
    assert((0x9E3779B97F4A7C15int * 0xf1de83e19937733dint) % m == 1);
    assert((0xBF58476D1CE4E5B9int * 0x96de1b173f119089int) % m == 1);
    if y1 == y2 {
        let c = seed + 0xBF58476D1CE4E5B9 * y1;
        if render_seed(x1, y1, seed) == render_seed(x2, y2, seed) {
            lemma_congruent_coords(x1 as int, x2 as int, 0x9E3779B97F4A7C15, 0xf1de83e19937733d, c);
        }
    } else {
        let c = seed + 0x9E3779B97F4A7C15 * x1;
        if render_seed(x1, y1, seed) == render_seed(x2, y2, seed) {
            lemma_congruent_coords(y1 as int, y2 as int, 0xBF58476D1CE4E5B9, 0x96de1b173f119089, c);
        }
    }
}

} // verus!
