use rand::rngs::StdRng;
use rand::{Rng, SeedableRng};
use ray_tracer::sampler::{make_rng, mix_pixel_seed, mix_render_seed, render_rng};

#[test]
fn test_pixel_seed_values() {
    assert_eq!(mix_pixel_seed(0, 0, 42), 1083814273);
    assert_eq!(mix_pixel_seed(3, 7, 42), 9657809865129773);
    assert_eq!(mix_pixel_seed(u32::MAX, u32::MAX, u64::MAX), 9444693130654586866);
}

#[test]
fn test_render_seed_values() {
    assert_eq!(mix_render_seed(0, 0, 42), 42);
    assert_eq!(mix_render_seed(3, 7, 42), 1589877494098541688);
    assert_eq!(mix_render_seed(u32::MAX, u32::MAX, u64::MAX), 4512501992443125297);
}

#[test]
fn test_make_rng_seeds_from_pixel_seed() {
    let mut a = make_rng(3, 7, 42);
    let mut b = StdRng::seed_from_u64(9657809865129773);
    assert_eq!(a, b);
    assert_eq!(a.gen::<u64>(), b.gen::<u64>());
    assert_ne!(make_rng(3, 7, 42), StdRng::seed_from_u64(42));
}

#[test]
fn test_render_rng_seeds_from_render_seed() {
    assert_eq!(render_rng(3, 7, 42), StdRng::seed_from_u64(1589877494098541688));
    assert_eq!(render_rng(0, 0, 42), StdRng::seed_from_u64(42));
}

#[test]
fn test_rng_is_deterministic() {
    let mut a = make_rng(10, 20, 5);
    let mut b = make_rng(10, 20, 5);
    let xs: Vec<u64> = (0..8).map(|_| a.gen()).collect();
    let ys: Vec<u64> = (0..8).map(|_| b.gen()).collect();
    assert_eq!(xs, ys);
    assert_eq!(render_rng(10, 20, 5), render_rng(10, 20, 5));
}

#[test]
fn test_seeds_distinct_along_rows_and_columns() {
    let seed = 42;
    for y in [0u32, 1, 479] {
        let row: Vec<u64> = (0..640u32).map(|x| mix_pixel_seed(x, y, seed)).collect();
        let mut sorted = row.clone();
        sorted.sort();
        sorted.dedup();
        assert_eq!(sorted.len(), row.len());
        let row: Vec<u64> = (0..640u32).map(|x| mix_render_seed(x, y, seed)).collect();
        let mut sorted = row.clone();
        sorted.sort();
        sorted.dedup();
        assert_eq!(sorted.len(), row.len());
    }
    for x in [0u32, 17, u32::MAX] {
        let col: Vec<u64> = (0..500u32).map(|y| mix_pixel_seed(x, y, seed)).collect();
        let mut sorted = col.clone();
        sorted.sort();
        sorted.dedup();
        assert_eq!(sorted.len(), col.len());
        let col: Vec<u64> = (0..500u32).map(|y| mix_render_seed(x, y, seed)).collect();
        let mut sorted = col.clone();
        sorted.sort();
        sorted.dedup();
        assert_eq!(sorted.len(), col.len());
    }
}
