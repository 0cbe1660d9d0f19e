use lenia::fixed::KSCALE;
use lenia::lenia::{ConfigError, CornerPolicy, Function, Layer, Shape};

fn bump_layer(radius: usize) -> Layer {
    let kernel = Function::new(Shape::GaussianBump, false, vec![500_000, 0]).unwrap();
    let growth = Function::new(Shape::GaussianBump, true, vec![120_000, 500_000]).unwrap();
    Layer::new(kernel, growth, 0, radius)
}

#[test]
fn kernel_mass_is_one_up_to_rounding() {
    for radius in [1usize, 2, 3, 5, 8] {
        for policy in [CornerPolicy::NaturalDecay, CornerPolicy::MaskDisk] {
            let mut layer = bump_layer(radius);
            layer.corner_policy = policy;
            layer.generate_kernel_lookup().unwrap();
            let side = 2 * radius + 1;
            let n = (side * side) as i64;
            let sum: i64 = layer.kernel_lookup.iter().sum();
            assert!(
                KSCALE - n <= sum && sum <= KSCALE,
                "radius {} policy {:?}: sum {} outside [{}, {}]",
                radius,
                policy,
                sum,
                KSCALE - n,
                KSCALE
            );
        }
    }
}

#[test]
fn kernel_3x3_is_radially_symmetric() {
    let mut layer = bump_layer(1);
    layer.generate_kernel_lookup().unwrap();
    let k = &layer.kernel_lookup;
    assert_eq!(k.len(), 9);
    // The four orthogonal offsets carry equal weight.
    assert_eq!(k[1], k[3]);
    assert_eq!(k[1], k[5]);
    assert_eq!(k[1], k[7]);
    // The four diagonal offsets carry equal weight.
    assert_eq!(k[0], k[2]);
    assert_eq!(k[0], k[6]);
    assert_eq!(k[0], k[8]);
    // The bump decays with distance: center above orthogonal above
    // diagonal.
    assert!(k[4] > k[1]);
    assert!(k[1] > k[0]);
}

#[test]
fn corner_policies_differ_at_the_corners() {
    let mut natural = bump_layer(2);
    natural.corner_policy = CornerPolicy::NaturalDecay;
    natural.generate_kernel_lookup().unwrap();
    let mut masked = bump_layer(2);
    masked.corner_policy = CornerPolicy::MaskDisk;
    masked.generate_kernel_lookup().unwrap();
    // Cell (dx, dy) = (-2, -2) has true distance sqrt(8) > 2.
    assert!(natural.kernel_lookup[0] > 0);
    assert_eq!(masked.kernel_lookup[0], 0);
    // The orthogonal edge cell (0, -2) lies on the disk and is kept by
    // both policies.
    assert!(natural.kernel_lookup[2] > 0);
    assert!(masked.kernel_lookup[2] > 0);
}

#[test]
fn generate_rejects_all_zero_kernel() {
    // An offset of 1000 units puts every kernel input more than seven
    // widths from the bump: the raw table is all zero.
    let kernel = Function::new(Shape::GaussianBump, false, vec![1, 1_000_000_000]).unwrap();
    let growth = Function::new(Shape::GaussianBump, true, vec![120_000, 500_000]).unwrap();
    let mut layer = Layer::new(kernel, growth, 0, 3);
    assert_eq!(layer.generate_kernel_lookup().unwrap_err(), ConfigError::ZeroSumKernel);
}

#[test]
fn generate_rejects_zero_radius() {
    let mut layer = bump_layer(0);
    assert_eq!(layer.generate_kernel_lookup().unwrap_err(), ConfigError::BadRadius);
}

#[test]
fn generate_rejects_centered_kernel_profile() {
    let kernel = Function::new(Shape::GaussianBump, true, vec![500_000, 0]).unwrap();
    let growth = Function::new(Shape::GaussianBump, true, vec![120_000, 500_000]).unwrap();
    let mut layer = Layer::new(kernel, growth, 0, 2);
    assert_eq!(
        layer.generate_kernel_lookup().unwrap_err(),
        ConfigError::CenteredKernelProfile
    );
}

#[test]
fn kernel_entries_are_normalized_weights() {
    let mut layer = bump_layer(4);
    layer.generate_kernel_lookup().unwrap();
    for &w in layer.kernel_lookup.iter() {
        assert!(0 <= w && w <= KSCALE);
    }
    // The center cell of a zero-offset bump carries the largest weight.
    let side = 9usize;
    let center = layer.kernel_lookup[4 * side + 4];
    for &w in layer.kernel_lookup.iter() {
        assert!(w <= center);
    }
}
