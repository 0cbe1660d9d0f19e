use lenia::fixed::KSCALE;
use lenia::lenia::{Channel, Function, Layer, Shape};

/// One hot cell in a 3x3 grid under a radius-1 kernel: every cell's
/// convolution picks exactly one kernel weight, and cells across the
/// edges see the hot cell through the toroidal wrap.
#[test]
fn single_hot_cell_exposes_kernel_and_wrap() {
    let kernel = Function::new(Shape::GaussianBump, false, vec![500_000, 0]).unwrap();
    let growth = Function::new(Shape::GaussianBump, true, vec![120_000, 500_000]).unwrap();
    let mut layer = Layer::new(kernel, growth, 0, 1);
    layer.generate_kernel_lookup().unwrap();
    let lookup = layer.kernel_lookup.clone();

    let hot: i64 = 1_000_000;
    let mut cells = vec![0i64; 9];
    cells[0] = hot; // cell (y, x) = (0, 0)
    let channel = Channel::new(cells, 3, 3).unwrap();
    layer.run(&channel);

    // Kernel cell k covers offset (dx, dy) = (k % 3 - 1, k / 3 - 1); the
    // convolution at (y, x) reads the source at (y + dy, x + dx) wrapped.
    // So the cell at (y, x) sees the hot cell through kernel index
    // k = (0 - y).rem_euclid(3) * 3 + (0 - x).rem_euclid(3) shifted by
    // the radius.
    for y in 0..3usize {
        for x in 0..3usize {
            let dy = (3 + 0 - y as i64 + 1) % 3; // kernel row hitting (0, _)
            let dx = (3 + 0 - x as i64 + 1) % 3; // kernel column hitting (_, 0)
            let k = (dy * 3 + dx) as usize;
            let conv = lookup[k] * hot / KSCALE;
            let expected = layer.growth_map.calc(conv);
            assert_eq!(
                layer.matrix_out[y * 3 + x],
                expected,
                "cell ({}, {}) through kernel index {}",
                y,
                x,
                k
            );
        }
    }

    // The neighbor below-right of the hot cell by wrap: cell (2, 2) sees
    // it at kernel offset (+1, +1), the table's last entry.
    let conv_corner = lookup[8] * hot / KSCALE;
    assert_eq!(layer.matrix_out[8], layer.growth_map.calc(conv_corner));
}

/// Shifting the source field shifts the layer output with it: the
/// convolution is translation-equivariant on the torus.
#[test]
fn convolution_is_translation_equivariant_on_the_torus() {
    let kernel = Function::new(Shape::MexicanHat, false, vec![160_000, 500_000]).unwrap();
    let growth = Function::new(Shape::GaussianBump, true, vec![120_000, 500_000]).unwrap();
    let mut layer = Layer::new(kernel, growth, 0, 1);
    layer.generate_kernel_lookup().unwrap();

    let base = vec![
        900_000, 0, 120_000, 44_000, 0, 1_000_000, 0, 777_000, 5,
        0, 0, 350_000, 650_000, 1, 2, 3, 4, 5,
    ];
    let w = 6usize;
    let h = 3usize;

    // Shift one column to the right, wrapping.
    let mut shifted = vec![0i64; w * h];
    for y in 0..h {
        for x in 0..w {
            shifted[y * w + (x + 1) % w] = base[y * w + x];
        }
    }

    let ch_a = Channel::new(base, w, h).unwrap();
    layer.run(&ch_a);
    let out_a = layer.matrix_out.clone();
    let ch_b = Channel::new(shifted, w, h).unwrap();
    layer.run(&ch_b);
    let out_b = layer.matrix_out.clone();

    for y in 0..h {
        for x in 0..w {
            assert_eq!(out_a[y * w + x], out_b[y * w + (x + 1) % w]);
        }
    }
}
