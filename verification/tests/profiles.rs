use lenia::fixed::{HALF, SCALE};
use lenia::lenia::{ConfigError, Cycle, Function, Shape};

fn profile(shape: Shape, centering: bool, w: i64, o: i64) -> Function {
    Function::new(shape, centering, vec![w, o]).unwrap()
}

#[test]
fn shape_cycle_round_trip() {
    let shapes = [
        Shape::GaussianBump,
        Shape::ExponentialDecay,
        Shape::SmoothTransition,
        Shape::MexicanHat,
        Shape::TripleBump,
    ];
    for s in shapes {
        let mut a = s;
        let mut b = a.next();
        assert_eq!(b.previous(), s);
        let mut c = s;
        let mut d = c.previous();
        assert_eq!(d.next(), s);
    }
}

#[test]
fn shape_cycle_visits_all() {
    let mut s = Shape::GaussianBump;
    let mut seen = vec![s];
    for _ in 0..4 {
        s = s.next();
        assert!(!seen.contains(&s));
        seen.push(s);
    }
    assert_eq!(s.next(), Shape::GaussianBump);
}

#[test]
fn gaussian_peak_is_one() {
    let f = profile(Shape::GaussianBump, false, 500_000, 0);
    assert_eq!(f.calc(0), SCALE);
    let g = profile(Shape::GaussianBump, false, 120_000, 300_000);
    assert_eq!(g.calc(300_000), SCALE);
}

#[test]
fn exponential_decay_exact_values() {
    let f = profile(Shape::ExponentialDecay, false, 200_000, 100_000);
    // At x == offset the exponent is zero.
    assert_eq!(f.calc(100_000), SCALE);
    // One width above the offset: exp(-1).
    assert_eq!(f.calc(300_000), 367_879);
    // Below the offset the value saturates at one.
    assert_eq!(f.calc(0), SCALE);
}

#[test]
fn smooth_transition_midpoint_is_half() {
    let f = profile(Shape::SmoothTransition, false, 200_000, 300_000);
    assert_eq!(f.calc(300_000), HALF);
    // Far below the offset the sigmoid saturates toward one.
    assert!(f.calc(-900_000) > 990_000);
    // Far above it decays toward zero.
    assert!(f.calc(1_000_000) < 50_000);
}

#[test]
fn mexican_hat_peak_at_one_width() {
    let f = profile(Shape::MexicanHat, false, 160_000, 500_000);
    // At |x - o| == w the inner term (v^2 - 1) vanishes.
    assert_eq!(f.calc(660_000), SCALE);
    assert_eq!(f.calc(340_000), SCALE);
}

#[test]
fn triple_bump_center_clamps_to_one() {
    let f = profile(Shape::TripleBump, false, 250_000, 0);
    // Center lobe at weight 0.8 plus two side lobes at exp(-1) each:
    // (6 * 367879 + 8 * 1000000 + 6 * 367879) / 10 clamps to one.
    assert_eq!(f.calc(0), SCALE);
}

#[test]
fn calc_stays_in_unit_interval() {
    let shapes = [
        Shape::GaussianBump,
        Shape::ExponentialDecay,
        Shape::SmoothTransition,
        Shape::MexicanHat,
        Shape::TripleBump,
    ];
    for s in shapes {
        let f = profile(s, false, 130_000, 400_000);
        let mut x: i64 = -1_000_000_000;
        while x <= 1_000_000_000 {
            let y = f.calc(x);
            assert!(0 <= y && y <= SCALE, "{:?} at {} gave {}", s, x, y);
            x += 97_000_003;
        }
    }
}

#[test]
fn centered_calc_stays_in_signed_half_interval() {
    let shapes = [
        Shape::GaussianBump,
        Shape::ExponentialDecay,
        Shape::SmoothTransition,
        Shape::MexicanHat,
        Shape::TripleBump,
    ];
    for s in shapes {
        let f = profile(s, true, 90_000, 150_000);
        let mut x: i64 = -1_000_000_000;
        while x <= 1_000_000_000 {
            let y = f.calc(x);
            assert!(-HALF <= y && y <= HALF, "{:?} at {} gave {}", s, x, y);
            x += 53_000_011;
        }
    }
}

#[test]
fn centering_shifts_by_half() {
    let plain = profile(Shape::GaussianBump, false, 500_000, 0);
    let centered = profile(Shape::GaussianBump, true, 500_000, 0);
    for x in [-700_000i64, 0, 250_000, 900_000] {
        assert_eq!(plain.calc(x) - HALF, centered.calc(x));
    }
}

#[test]
fn new_rejects_missing_parameters() {
    assert_eq!(
        Function::new(Shape::GaussianBump, false, vec![]).unwrap_err(),
        ConfigError::MissingParameters
    );
    assert_eq!(
        Function::new(Shape::GaussianBump, false, vec![500_000]).unwrap_err(),
        ConfigError::MissingParameters
    );
}

#[test]
fn new_rejects_zero_width() {
    assert_eq!(
        Function::new(Shape::MexicanHat, true, vec![0, 300_000]).unwrap_err(),
        ConfigError::ZeroWidth
    );
}

#[test]
fn new_rejects_oversized_parameter() {
    assert_eq!(
        Function::new(Shape::MexicanHat, true, vec![500_000, 2_000_000_000]).unwrap_err(),
        ConfigError::ParameterOutOfRange
    );
}

#[test]
fn shape_names() {
    assert_eq!(Shape::GaussianBump.name(), "GaussianBump");
    assert_eq!(Shape::TripleBump.name(), "TripleBump");
}

#[test]
fn error_descriptions_are_meaningful() {
    assert_eq!(ConfigError::ZeroWidth.describe(), "profile width parameter is zero");
    assert!(!ConfigError::ZeroSumKernel.describe().is_empty());
    assert!(!ConfigError::BadDelta.describe().is_empty());
}

#[test]
fn duplicate_copies_every_field() {
    let f = profile(Shape::SmoothTransition, true, 90_000, 150_000);
    let g = f.duplicate();
    assert_eq!(g.shape, f.shape);
    assert_eq!(g.centering, f.centering);
    assert_eq!(g.parameters, f.parameters);
    for x in [-400_000i64, 0, 150_000, 800_000] {
        assert_eq!(f.calc(x), g.calc(x));
    }
}
