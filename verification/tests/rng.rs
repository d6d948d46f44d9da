use pbrt::rng::{Rng, PCG32_DEFAULT_STATE, PCG32_DEFAULT_STREAM};

#[test]
fn default() {
    let mut rng: Rng = Default::default();
    assert_eq!(rng.state(), PCG32_DEFAULT_STATE);
    assert_eq!(rng.inc(), PCG32_DEFAULT_STREAM);
    // From C++ verison
    let got: Vec<_> = (0..10).map(|_| rng.uniform_u32()).collect();
    let want = [
        355248013, 41705475, 3406281715, 4186697710, 483882979, 2766312848, 1713261421, 154902030,
        3085534493, 3877580365,
    ];
    assert_eq!(got, want);
}

#[test]
fn uniform_u32_threshold() {
    let mut rng: Rng = Default::default();
    assert_eq!(rng.state(), PCG32_DEFAULT_STATE);
    assert_eq!(rng.inc(), PCG32_DEFAULT_STREAM);
    // From C++ verison
    let got: Vec<_> = (0..10).map(|_| rng.uniform_u32_threshold(4095)).collect();
    let want = [2668, 1995, 3385, 2470, 1399, 1118, 3511, 465, 1133, 295];
    assert_eq!(got, want);
}

#[test]
fn new() {
    let mut rng = Rng::new(0);
    // From C++ verison
    assert_eq!(rng.uniform_u32(), 1774745655);
}

#[test]
fn threshold() {
    let mut rng: Rng = Default::default();
    rng.uniform_u32_threshold(u32::MAX / 2);
    // If this completes it's a success.
}

#[test]
fn sub() {
    let r1: Rng = Default::default();
    let r2: Rng = Default::default();

    assert_eq!(r1 - r2, 0);
}

#[test]
fn sub_counts_the_steps_taken() {
    let start: Rng = Default::default();
    let mut later: Rng = Default::default();
    for _ in 0..37 {
        later.uniform_u32();
    }
    assert_eq!(later - start, 37);
}

#[test]
fn sub_after_many_steps_on_another_stream() {
    let start = Rng::new(12345);
    let mut later = Rng::new(12345);
    for _ in 0..1000 {
        later.uniform_u32();
    }
    assert_eq!(later - start, 1000);
}

#[test]
fn set_sequence_matches_new() {
    let mut a: Rng = Default::default();
    a.set_sequence(7);
    let b = Rng::new(7);
    assert_eq!(a.state(), b.state());
    assert_eq!(a.inc(), b.inc());
    assert_eq!(a.inc(), 15);
}

#[test]
fn threshold_results_stay_below_bound() {
    let mut rng = Rng::new(3);
    for b in 1..200u32 {
        assert!(rng.uniform_u32_threshold(b) < b);
    }
}

#[test]
fn uniform_u32_steps_the_lcg() {
    let mut rng: Rng = Default::default();
    let s = rng.state();
    rng.uniform_u32();
    assert_eq!(
        rng.state(),
        s.wrapping_mul(0x5851f42d4c957f2d).wrapping_add(PCG32_DEFAULT_STREAM)
    );
}
