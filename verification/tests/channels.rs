use lenia::fixed::SCALE;
use lenia::lenia::{Channel, ConfigError};

#[test]
fn new_rejects_bad_dimensions() {
    assert_eq!(
        Channel::new(vec![], 0, 4).unwrap_err(),
        ConfigError::DimensionMismatch
    );
    assert_eq!(
        Channel::new(vec![0; 8], 2, 2).unwrap_err(),
        ConfigError::DimensionMismatch
    );
}

#[test]
fn new_rejects_out_of_range_cells() {
    assert_eq!(
        Channel::new(vec![0, SCALE + 1, 0, 0], 2, 2).unwrap_err(),
        ConfigError::CellOutOfRange
    );
    assert_eq!(
        Channel::new(vec![0, -1, 0, 0], 2, 2).unwrap_err(),
        ConfigError::CellOutOfRange
    );
}

#[test]
fn finish_integrates_averages_and_clamps() {
    let mut ch = Channel::new(vec![0, SCALE, 345_678, 999_999], 2, 2).unwrap();
    ch.accumulate(&vec![-SCALE, SCALE, -345_679, 500]);
    ch.finish(SCALE);
    // With one contributor and a full timestep the growth adds directly,
    // then clamps into [0, SCALE].
    assert_eq!(ch.matrix, vec![0, SCALE, 0, SCALE]);
    assert_eq!(ch.layer_counter, 0);
    assert!(ch.matrix_out.iter().all(|&v| v == 0));
}

#[test]
fn finish_scales_by_the_timestep() {
    let mut ch = Channel::new(vec![400_000, 400_000], 2, 1).unwrap();
    ch.accumulate(&vec![300_001, -300_001]);
    // delta = 0.5: the averaged growth is halved, rounding toward zero.
    ch.finish(HALF_DELTA);
    assert_eq!(ch.matrix, vec![400_000 + 150_000, 400_000 - 150_000]);
}

const HALF_DELTA: i64 = 500_000;

#[test]
fn finish_averages_over_contributors() {
    let mut ch = Channel::new(vec![100_000, 100_000], 2, 1).unwrap();
    ch.accumulate(&vec![500_000, -500_000]);
    ch.accumulate(&vec![200_000, -100_000]);
    // Mean of the two contributions, rounded toward zero: 350000, -300000.
    ch.finish(SCALE);
    assert_eq!(ch.matrix, vec![450_000, 0]);
}

#[test]
fn finish_with_no_contributors_freezes_the_field() {
    let mut ch = Channel::new(vec![123_456, 654_321], 2, 1).unwrap();
    ch.finish(SCALE);
    assert_eq!(ch.matrix, vec![123_456, 654_321]);
}

#[test]
fn finish_keeps_cells_in_unit_interval() {
    let mut cells: Vec<i64> = Vec::new();
    for i in 0..64i64 {
        cells.push((i * 15_873) % (SCALE + 1));
    }
    let mut ch = Channel::new(cells, 8, 8).unwrap();
    let mut contribution: Vec<i64> = Vec::new();
    for i in 0..64i64 {
        contribution.push(((i * 37_199) % (2 * SCALE + 1)) - SCALE);
    }
    ch.accumulate(&contribution);
    ch.finish(700_000);
    for &v in ch.matrix.iter() {
        assert!(0 <= v && v <= SCALE);
    }
}
