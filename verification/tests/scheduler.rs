use halo2_proofs::plonk::ConstraintSystem;
use keccak256::gates::running_sum::{get_step_size, LaneRotateConversionConfig};
use keccak256::plonk::{AdviceColumn, CircuitBuilder};
use pasta_curves::Fp;

fn lane_steps(rotation: u32) -> Vec<u32> {
    let mut system = ConstraintSystem::<Fp>::default();
    let q_enable = system.complex_selector();
    let block_count_cols = [
        AdviceColumn { column: system.advice_column() },
        AdviceColumn { column: system.advice_column() },
        AdviceColumn { column: system.advice_column() },
    ];
    let mut meta = CircuitBuilder { system };
    let config = LaneRotateConversionConfig::configure(q_enable, &mut meta, block_count_cols, rotation);
    config.chunk_rotate_convert_configs.iter().map(|chunk| chunk.b13_rs_config.step).collect()
}

#[test]
fn step_size_is_four_away_from_the_boundaries() {
    assert_eq!(get_step_size(1, 0), 4);
    assert_eq!(get_step_size(5, 20), 4);
    assert_eq!(get_step_size(60, 0), 4);
}

#[test]
fn step_size_shrinks_to_the_rotation_position() {
    assert_eq!(get_step_size(1, 2), 1);
    assert_eq!(get_step_size(1, 3), 2);
    assert_eq!(get_step_size(1, 4), 3);
    assert_eq!(get_step_size(1, 5), 4);
    assert_eq!(get_step_size(1, 1), 4);
}

#[test]
fn step_size_shrinks_to_the_end_of_the_lane() {
    assert_eq!(get_step_size(61, 0), 3);
    assert_eq!(get_step_size(62, 0), 2);
    assert_eq!(get_step_size(63, 0), 1);
    assert_eq!(get_step_size(61, 63), 2);
}

#[test]
fn rotation_zero_gives_fifteen_full_chunks_and_one_of_three() {
    let mut expected = vec![4u32; 15];
    expected.push(3);
    assert_eq!(lane_steps(0), expected);
}

#[test]
fn rotation_one_gives_the_same_chunks_as_no_rotation() {
    let mut expected = vec![4u32; 15];
    expected.push(3);
    assert_eq!(lane_steps(1), expected);
}

#[test]
fn rotation_two_starts_with_a_chunk_of_one() {
    let mut expected = vec![1u32];
    expected.extend(vec![4u32; 15]);
    expected.push(2);
    assert_eq!(lane_steps(2), expected);
}

#[test]
fn every_rotation_tiles_the_lane() {
    for rotation in 0..64u32 {
        let steps = lane_steps(rotation);
        let mut position = 1u32;
        let mut met_rotation = rotation == 0;
        for step in steps {
            assert!(1 <= step && step <= 4);
            if position == rotation {
                met_rotation = true;
            }
            position += step;
            if step < 4 {
                assert!(position == rotation || position == 64);
            }
        }
        assert_eq!(position, 64);
        assert!(met_rotation);
    }
}
