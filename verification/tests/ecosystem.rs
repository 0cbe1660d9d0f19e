use lenia::fixed::SCALE;
use lenia::lenia::{Channel, ConfigError, Eco, Function, Layer, Shape};

fn uniform_eco(v: i64) -> Eco {
    let kernel = Function::new(Shape::GaussianBump, false, vec![500_000, 0]).unwrap();
    let growth = Function::new(Shape::GaussianBump, true, vec![120_000, 500_000]).unwrap();
    let layer = Layer::new(kernel, growth, 0, 1);
    let channel = Channel::new(vec![v; 16], 4, 4).unwrap();
    let mut eco = Eco::new((4, 4), SCALE, 0, vec![channel], vec![layer]);
    eco.init().unwrap();
    eco
}

#[test]
fn evaluate_advances_cycles_and_keeps_cells_in_range() {
    let mut eco = uniform_eco(300_000);
    for tick in 1..=4usize {
        eco.evaluate();
        assert_eq!(eco.cycles, tick);
        for &v in eco.channels[0].matrix.iter() {
            assert!(0 <= v && v <= SCALE);
        }
        assert!(0 <= eco.fitness && eco.fitness <= SCALE);
    }
}

#[test]
fn evaluate_matches_the_per_cell_formula_on_a_uniform_field() {
    // On a uniform field the convolution is exact: v * (kernel sum) /
    // KSCALE in every cell, so one tick is the scalar update.
    let v: i64 = 300_000;
    let mut eco = uniform_eco(v);
    let ksum: i64 = eco.layers[0].kernel_lookup.iter().sum();
    let conv = v * ksum / lenia::fixed::KSCALE;
    let g = eco.layers[0].growth_map.calc(conv);
    let expected = (v + g).clamp(0, SCALE);
    eco.evaluate();
    for &cell in eco.channels[0].matrix.iter() {
        assert_eq!(cell, expected);
    }
    // Fitness is the mean over channels of the mean cell value.
    assert_eq!(eco.fitness, expected);
}

#[test]
fn zero_state_is_a_fixed_point() {
    // Growth profile with value zero at input zero once centered: the
    // bump at offset 0.15 and width 0.015 is flat zero at the origin.
    let kernel = Function::new(Shape::GaussianBump, false, vec![500_000, 0]).unwrap();
    let growth = Function::new(Shape::GaussianBump, true, vec![15_000, 150_000]).unwrap();
    let layer = Layer::new(kernel, growth, 0, 2);
    let channel = Channel::new(vec![0; 36], 6, 6).unwrap();
    let mut eco = Eco::new((6, 6), SCALE, 0, vec![channel], vec![layer]);
    eco.init().unwrap();
    for _ in 0..5 {
        eco.evaluate();
        assert!(eco.channels[0].matrix.iter().all(|&v| v == 0));
        assert_eq!(eco.fitness, 0);
    }
}

#[test]
fn evaluate_is_deterministic() {
    let mut a = uniform_eco(250_000);
    let mut b = uniform_eco(250_000);
    for _ in 0..3 {
        a.evaluate();
        b.evaluate();
        assert_eq!(a.channels[0].matrix, b.channels[0].matrix);
        assert_eq!(a.fitness, b.fitness);
        assert_eq!(a.cycles, b.cycles);
    }
}

#[test]
fn evaluate_with_two_channels_broadcasts_every_layer() {
    let kernel = Function::new(Shape::GaussianBump, false, vec![500_000, 0]).unwrap();
    let growth = Function::new(Shape::GaussianBump, true, vec![120_000, 500_000]).unwrap();
    let layer = Layer::new(kernel, growth, 0, 1);
    let ch0 = Channel::new(vec![200_000; 16], 4, 4).unwrap();
    let ch1 = Channel::new(vec![200_000; 16], 4, 4).unwrap();
    let mut eco = Eco::new((4, 4), SCALE, 0, vec![ch0, ch1], vec![layer]);
    eco.init().unwrap();
    eco.evaluate();
    // Both channels start equal and receive the same contribution, so
    // they stay equal.
    assert_eq!(eco.channels[0].matrix, eco.channels[1].matrix);
}

#[test]
fn init_reports_faults() {
    // No channels.
    let mut eco = Eco::new((4, 4), SCALE, 0, vec![], vec![]);
    assert_eq!(eco.init().unwrap_err(), ConfigError::NoChannels);
    // Bad timestep.
    let ch = Channel::new(vec![0; 16], 4, 4).unwrap();
    let mut eco = Eco::new((4, 4), 0, 0, vec![ch], vec![]);
    assert_eq!(eco.init().unwrap_err(), ConfigError::BadDelta);
    // A layer pointing at a missing channel.
    let kernel = Function::new(Shape::GaussianBump, false, vec![500_000, 0]).unwrap();
    let growth = Function::new(Shape::GaussianBump, true, vec![120_000, 500_000]).unwrap();
    let layer = Layer::new(kernel, growth, 3, 1);
    let ch = Channel::new(vec![0; 16], 4, 4).unwrap();
    let mut eco = Eco::new((4, 4), SCALE, 0, vec![ch], vec![layer]);
    assert_eq!(eco.init().unwrap_err(), ConfigError::BadChannelRef);
    // A radius that does not fit the grid.
    let kernel = Function::new(Shape::GaussianBump, false, vec![500_000, 0]).unwrap();
    let growth = Function::new(Shape::GaussianBump, true, vec![120_000, 500_000]).unwrap();
    let layer = Layer::new(kernel, growth, 0, 4);
    let ch = Channel::new(vec![0; 16], 4, 4).unwrap();
    let mut eco = Eco::new((4, 4), SCALE, 0, vec![ch], vec![layer]);
    assert_eq!(eco.init().unwrap_err(), ConfigError::BadRadius);
}
