use lenia::eco::Best;
use lenia::fixed::SCALE;
use lenia::lenia::{Channel, Eco, Function, Layer, Shape};
use rand::SeedableRng;

fn tunable_eco() -> Eco {
    let kernel = Function::new(Shape::GaussianBump, false, vec![500_000, 0]).unwrap();
    let growth = Function::new(Shape::GaussianBump, true, vec![120_000, 500_000]).unwrap();
    let layer = Layer::new(kernel, growth, 0, 1);
    let channel = Channel::new(vec![300_000; 16], 4, 4).unwrap();
    let mut eco = Eco::new((4, 4), SCALE, 0, vec![channel], vec![layer]);
    eco.init().unwrap();
    eco
}

#[test]
fn longer_healthy_run_improves_the_best() {
    let mut eco = tunable_eco();
    eco.cycles = 10;
    eco.fitness = 50_000; // 0.05: healthy, no punishment
    let mut best = Best { g_params: vec![vec![120_000, 500_000]], cycles: 5 };
    let improved = best.compare_with(&mut eco, 0, 0);
    assert!(improved);
    assert_eq!(best.cycles, 10);
    assert_eq!(best.g_params, vec![vec![120_000, 500_000]]);
    assert_eq!(eco.cycles, 0);
    // A zero jitter on the offset restores the best-known value.
    assert_eq!(eco.layers[0].growth_map.parameters, vec![120_000, 500_000]);
}

#[test]
fn exploding_run_is_punished_below_the_best() {
    let mut eco = tunable_eco();
    eco.cycles = 100;
    eco.fitness = 200_000; // 0.2: above the 0.1 ceiling
    let mut best = Best { g_params: vec![vec![120_000, 500_000]], cycles: 90 };
    let improved = best.compare_with(&mut eco, 0, 0);
    // Punished count 100 * 8 / 10 = 80 does not beat 90.
    assert!(!improved);
    assert_eq!(best.cycles, 90);
    assert_eq!(eco.cycles, 0);
}

#[test]
fn fitness_at_the_ceiling_is_not_punished() {
    let mut eco = tunable_eco();
    eco.cycles = 100;
    eco.fitness = 100_000; // exactly 0.1: not an explosion
    let mut best = Best { g_params: vec![vec![120_000, 500_000]], cycles: 90 };
    assert!(best.compare_with(&mut eco, 0, 0));
    assert_eq!(best.cycles, 100);
}

#[test]
fn perturbation_lands_on_the_chosen_coordinate() {
    let mut eco = tunable_eco();
    let mut best = Best { g_params: vec![vec![99_000, 477_000]], cycles: 50 };
    // Odd pick: the width (parameter 0) of layer 0.
    best.compare_with(&mut eco, 1, -500);
    assert_eq!(eco.layers[0].growth_map.parameters, vec![98_500, 500_000]);
    // Even pick: the offset (parameter 1) of layer 0.
    best.compare_with(&mut eco, 0, 2_500);
    assert_eq!(eco.layers[0].growth_map.parameters, vec![98_500, 479_500]);
}

#[test]
fn width_perturbed_to_zero_keeps_the_best_value() {
    let mut eco = tunable_eco();
    let mut best = Best { g_params: vec![vec![500, 477_000]], cycles: 50 };
    best.compare_with(&mut eco, 1, -500);
    assert_eq!(eco.layers[0].growth_map.parameters[0], 500);
}

#[test]
fn seeded_compare_is_reproducible() {
    let mut eco_a = tunable_eco();
    let mut eco_b = tunable_eco();
    let mut best_a = Best { g_params: vec![vec![120_000, 500_000]], cycles: 0 };
    let mut best_b = Best { g_params: vec![vec![120_000, 500_000]], cycles: 0 };
    let mut rng_a = rand::rngs::StdRng::seed_from_u64(42);
    let mut rng_b = rand::rngs::StdRng::seed_from_u64(42);
    for _ in 0..8 {
        eco_a.evaluate();
        eco_b.evaluate();
        let ia = best_a.compare(&mut eco_a, &mut rng_a);
        let ib = best_b.compare(&mut eco_b, &mut rng_b);
        assert_eq!(ia, ib);
        assert_eq!(
            eco_a.layers[0].growth_map.parameters,
            eco_b.layers[0].growth_map.parameters
        );
        assert_eq!(eco_a.channels[0].matrix, eco_b.channels[0].matrix);
    }
}

#[test]
fn compare_perturbs_within_the_jitter_bounds() {
    let mut eco = tunable_eco();
    let mut best = Best { g_params: vec![vec![120_000, 500_000]], cycles: 1_000_000 };
    let mut rng = rand::rngs::StdRng::seed_from_u64(7);
    for _ in 0..32 {
        best.compare(&mut eco, &mut rng);
        let w = eco.layers[0].growth_map.parameters[0];
        let o = eco.layers[0].growth_map.parameters[1];
        assert!(w != 0);
        assert!((w - 120_000).abs() <= 1_000, "width drifted: {}", w);
        assert!((o - 500_000).abs() <= 10_000, "offset drifted: {}", o);
    }
}
