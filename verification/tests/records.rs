use lenia::fixed::SCALE;
use lenia::lenia::{Channel, ConfigError, Eco, Function, Layer, Shape};
use lenia::logger::{from_record, image, to_record, EcoRecord, LayerRecord};

fn sample_record() -> (EcoRecord, Vec<Vec<i64>>) {
    let kernel = Function::new(Shape::MexicanHat, false, vec![160_000, 500_000]).unwrap();
    let growth = Function::new(Shape::GaussianBump, true, vec![120_000, 500_000]).unwrap();
    let rec = EcoRecord {
        delta: 100_000,
        size: (4, 4),
        cycles: 7,
        fitness: 42_000,
        layers: vec![LayerRecord { kernel, growth_map: growth, channel_id: 0, radius: 1 }],
    };
    let mut cells: Vec<i64> = Vec::new();
    for i in 0..16i64 {
        cells.push((i * 61_803) % (SCALE + 1));
    }
    (rec, vec![cells])
}

#[test]
fn record_round_trips_through_an_ecosystem() {
    let (rec, matrices) = sample_record();
    let eco = from_record(rec, matrices.clone()).unwrap();
    assert_eq!(eco.delta, 100_000);
    assert_eq!(eco.size, (4, 4));
    assert_eq!(eco.cycles, 7);
    assert_eq!(eco.fitness, 42_000);
    assert_eq!(eco.channels[0].matrix, matrices[0]);

    let (rec2, matrices2) = to_record(&eco);
    assert_eq!(rec2.delta, 100_000);
    assert_eq!(rec2.size, (4, 4));
    assert_eq!(rec2.cycles, 7);
    assert_eq!(rec2.fitness, 42_000);
    assert_eq!(rec2.layers.len(), 1);
    assert_eq!(rec2.layers[0].channel_id, 0);
    assert_eq!(rec2.layers[0].radius, 1);
    assert_eq!(rec2.layers[0].kernel.parameters, vec![160_000, 500_000]);
    assert_eq!(rec2.layers[0].growth_map.parameters, vec![120_000, 500_000]);
    assert_eq!(matrices2, matrices);

    // A rebuilt ecosystem ticks.
    let mut eco2 = from_record(rec2, matrices2).unwrap();
    eco2.evaluate();
    assert_eq!(eco2.cycles, 8);
}

#[test]
fn from_record_rejects_faults_whole() {
    let (rec, matrices) = sample_record();
    let mut bad = rec;
    bad.delta = 0;
    assert_eq!(from_record(bad, matrices).unwrap_err(), ConfigError::BadDelta);

    let (rec, _) = sample_record();
    assert_eq!(from_record(rec, vec![]).unwrap_err(), ConfigError::NoChannels);

    let (rec, _) = sample_record();
    assert_eq!(
        from_record(rec, vec![vec![0; 15]]).unwrap_err(),
        ConfigError::DimensionMismatch
    );

    let (rec, mut matrices) = sample_record();
    matrices[0][3] = SCALE + 1;
    assert_eq!(from_record(rec, matrices).unwrap_err(), ConfigError::CellOutOfRange);

    let (mut rec, matrices) = sample_record();
    rec.layers[0].channel_id = 2;
    assert_eq!(from_record(rec, matrices).unwrap_err(), ConfigError::BadChannelRef);

    let (mut rec, matrices) = sample_record();
    rec.layers[0].radius = 4;
    assert_eq!(from_record(rec, matrices).unwrap_err(), ConfigError::BadRadius);

    let (mut rec, matrices) = sample_record();
    rec.layers[0].kernel.parameters[0] = 0;
    assert_eq!(from_record(rec, matrices).unwrap_err(), ConfigError::ZeroWidth);
}

#[test]
fn image_matches_the_exact_transfer() {
    let ((w, h), buf) = image(&vec![0, 250_000, 1_000_000], 3, 1);
    assert_eq!((w, h), (3, 1));
    assert_eq!(buf.len(), 12);
    // v = 0: col = 0, every ramp negative, alpha transparent.
    assert_eq!(&buf[0..4], &[0, 0, 0, 0]);
    // v = 0.25: col = 63, col/4 = 15: red 255 - 1 = 254, others clamp.
    assert_eq!(&buf[4..8], &[254, 0, 0, 255]);
    // v = 1: col = 255, col/4 = 63: blue 255 - 225 = 30.
    assert_eq!(&buf[8..12], &[0, 0, 30, 255]);
}

#[test]
fn image_alpha_is_opaque_exactly_above_zero() {
    // col = floor(v * 255 / SCALE) is 0 up to v = 3921, so alpha stays 0.
    let ((_, _), buf) = image(&vec![3_921, 3_922], 2, 1);
    assert_eq!(buf[3], 0);
    assert_eq!(buf[7], 255);
}

#[test]
fn rebuilt_ecosystem_matches_the_original_tick_for_tick() {
    let (rec, matrices) = sample_record();
    let mut a = from_record(rec, matrices).unwrap();
    let (rec_b, ms_b) = to_record(&a);
    let mut b = from_record(rec_b, ms_b).unwrap();
    for _ in 0..3 {
        a.evaluate();
        b.evaluate();
        assert_eq!(a.channels[0].matrix, b.channels[0].matrix);
        assert_eq!(a.fitness, b.fitness);
    }
}

#[test]
fn manual_ecosystem_exports_its_channels() {
    let kernel = Function::new(Shape::GaussianBump, false, vec![500_000, 0]).unwrap();
    let growth = Function::new(Shape::GaussianBump, true, vec![120_000, 500_000]).unwrap();
    let layer = Layer::new(kernel, growth, 0, 1);
    let channel = Channel::new(vec![7; 9], 3, 3).unwrap();
    let eco = Eco::new((3, 3), SCALE, 0, vec![channel], vec![layer]);
    let (_, matrices) = to_record(&eco);
    assert_eq!(matrices, vec![vec![7; 9]]);
}
