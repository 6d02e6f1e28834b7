use stack_diagnostics::anomaly::{
    CRITICAL_SCORE_BITS, HIGH_COMPLEXITY_BITS, HIGH_DEAD_CODE_BITS, LOW_COVERAGE_BITS, LOW_DEMO_SCORE_BITS,
    TARGET_COVERAGE_BITS,
};
use stack_diagnostics::forecast::{DEFAULT_ALPHA_BITS, EPSILON_BITS, ONE_BITS};
use stack_diagnostics::measure::Measure;
use stack_diagnostics::ranking::{flag_above, order_descending};
use stack_diagnostics::registry::DEMO_THRESHOLD_BITS;
use stack_diagnostics::rng::SimpleRng;

fn m(x: f64) -> Measure {
    Measure::from_bits(x.to_bits())
}

fn samples() -> Vec<f64> {
    vec![
        0.0,
        -0.0,
        1.0,
        -1.0,
        0.5,
        -0.5,
        70.0,
        69.999,
        1e300,
        -1e300,
        5e-324,
        -5e-324,
        f64::MAX,
        f64::MIN,
        f64::MIN_POSITIVE,
        f64::EPSILON,
        f64::INFINITY,
        f64::NEG_INFINITY,
        f64::NAN,
        -f64::NAN,
    ]
}

#[test]
fn order_of_measures_is_the_order_of_doubles() {
    for &a in &samples() {
        for &b in &samples() {
            assert_eq!(m(a).lt(&m(b)), a < b, "{} < {}", a, b);
            assert_eq!(m(a).le(&m(b)), a <= b, "{} <= {}", a, b);
            assert_eq!(m(a).gt(&m(b)), a > b, "{} > {}", a, b);
            assert_eq!(m(a).ge(&m(b)), a >= b, "{} >= {}", a, b);
        }
        assert_eq!(m(a).is_nan_value(), a.is_nan());
    }
}

#[test]
fn clamp_of_measures_is_the_clamp_of_doubles() {
    for &a in &samples() {
        let limited = f64::from_bits(m(a).clamp(&m(0.0), &m(1.0)).to_bits());
        let wanted = a.clamp(0.0, 1.0);
        if wanted.is_nan() {
            assert!(limited.is_nan());
        } else {
            assert_eq!(limited.to_bits(), wanted.to_bits());
        }
    }
}

#[test]
fn thresholds_encode_their_numbers() {
    assert_eq!(CRITICAL_SCORE_BITS, 0.8f64.to_bits());
    assert_eq!(LOW_DEMO_SCORE_BITS, 70.0f64.to_bits());
    assert_eq!(LOW_COVERAGE_BITS, 50.0f64.to_bits());
    assert_eq!(HIGH_COMPLEXITY_BITS, 15.0f64.to_bits());
    assert_eq!(HIGH_DEAD_CODE_BITS, 10.0f64.to_bits());
    assert_eq!(TARGET_COVERAGE_BITS, 80.0f64.to_bits());
    assert_eq!(DEMO_THRESHOLD_BITS, 85.0f64.to_bits());
    assert_eq!(ONE_BITS, 1.0f64.to_bits());
    assert_eq!(DEFAULT_ALPHA_BITS, 0.3f64.to_bits());
    assert_eq!(EPSILON_BITS, f64::EPSILON.to_bits());
    assert_eq!(Measure::zero().to_bits(), 0.0f64.to_bits());
}

#[test]
fn order_descending_is_a_stable_sort() {
    let scores = vec![m(0.2), m(0.9), m(0.2), m(-1.0), m(0.9), m(0.0), m(-0.0)];
    let order = order_descending(&scores);
    assert_eq!(order, vec![1, 4, 0, 2, 5, 6, 3]);
    assert_eq!(order_descending(&Vec::new()), Vec::<usize>::new());
}

#[test]
fn order_descending_with_nan_keeps_every_position() {
    let scores = vec![m(1.0), m(f64::NAN), m(2.0)];
    let mut order = order_descending(&scores);
    order.sort();
    assert_eq!(order, vec![0, 1, 2]);
}

#[test]
fn flag_above_compares_each_score() {
    let scores = vec![m(0.2), m(0.5), m(0.51), m(f64::NAN), m(1.0)];
    assert_eq!(flag_above(&scores, m(0.5)), vec![false, false, true, false, true]);
    assert_eq!(flag_above(&scores, m(f64::NAN)), vec![false; 5]);
}

#[test]
fn generator_follows_its_recurrence() {
    let mut rng = SimpleRng::seed_from_u64(42);
    assert_eq!(rng.state, 42 ^ 0x5DEECE66D);
    let first = rng.next_u64();
    let wanted = (42u64 ^ 0x5DEECE66D).wrapping_mul(6364136223846793005).wrapping_add(1442695040888963407);
    assert_eq!(first, wanted);
    assert_eq!(rng.state, wanted);
    let second = rng.next_u64();
    assert_eq!(second, wanted.wrapping_mul(6364136223846793005).wrapping_add(1442695040888963407));
}

#[test]
fn gen_range_stays_in_range_and_is_reproducible() {
    let mut a = SimpleRng::seed_from_u64(7);
    let mut b = SimpleRng::seed_from_u64(7);
    for _ in 0..200 {
        let x = a.gen_range(3, 10);
        let y = b.gen_range(3, 10);
        assert_eq!(x, y);
        assert!((3..10).contains(&x));
    }
    let mut c = SimpleRng::seed_from_u64(1);
    let state = c.state;
    assert_eq!(c.gen_range(5, 5), 5);
    assert_eq!(c.gen_range(9, 2), 9);
    assert_eq!(c.state, state);
    let raw = state.wrapping_mul(6364136223846793005).wrapping_add(1442695040888963407);
    assert_eq!(c.gen_range(10, 17), 10 + (raw as usize % 7));
}
