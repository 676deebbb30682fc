use halo2_proofs::circuit::{Layouter, SimpleFloorPlanner, Value};
use halo2_proofs::dev::MockProver;
use halo2_proofs::plonk::{Advice, Circuit, Column, ConstraintSystem, Error, Selector};
use keccak256::arith_helpers::{pow_u64, B13, B9};
use keccak256::gates::running_sum::RunningSumConfig;
use keccak256::plonk::{AdviceColumn, CircuitBuilder};
use pasta_curves::Fp;

#[derive(Clone)]
struct SumColumns {
    q_enable: Selector,
    is_final: Selector,
    coef: Column<Advice>,
    slice: Column<Advice>,
    accumulator: Column<Advice>,
}

/// Rows of (coef, slice, accumulator). The running sum is enabled on the first
/// `enabled` rows, the last of which is its final row.
#[derive(Clone, Default)]
struct SumCircuit<const STEP: u32, const BASE: u64> {
    rows: Vec<(u64, u64, u64)>,
    enabled: usize,
}

impl<const STEP: u32, const BASE: u64> Circuit<Fp> for SumCircuit<STEP, BASE> {
    type Config = SumColumns;
    type FloorPlanner = SimpleFloorPlanner;

    fn without_witnesses(&self) -> Self {
        Self::default()
    }

    fn configure(meta: &mut ConstraintSystem<Fp>) -> SumColumns {
        let q_enable = meta.complex_selector();
        let is_final = meta.complex_selector();
        let cols = [
            AdviceColumn { column: meta.advice_column() },
            AdviceColumn { column: meta.advice_column() },
            AdviceColumn { column: meta.advice_column() },
        ];
        let mut builder = CircuitBuilder { system: std::mem::take(meta) };
        let config = RunningSumConfig::configure(&mut builder, q_enable, is_final, cols, STEP, BASE);
        *meta = builder.system;
        assert_eq!(config.step, STEP);
        assert_eq!(config.base, BASE);
        SumColumns {
            q_enable: config.q_enable,
            is_final: config.is_final,
            coef: config.coef.column,
            slice: config.slice.column,
            accumulator: config.accumulator.column,
        }
    }

    fn synthesize(&self, config: SumColumns, mut layouter: impl Layouter<Fp>) -> Result<(), Error> {
        layouter.assign_region(
            || "running sum",
            |mut region| {
                for (offset, row) in self.rows.iter().enumerate() {
                    if offset < self.enabled {
                        config.q_enable.enable(&mut region, offset)?;
                    }
                    if offset + 1 == self.enabled {
                        config.is_final.enable(&mut region, offset)?;
                    }
                    region.assign_advice(|| "coef", config.coef, offset, || Value::known(Fp::from(row.0)))?;
                    region.assign_advice(|| "slice", config.slice, offset, || Value::known(Fp::from(row.1)))?;
                    region.assign_advice(|| "acc", config.accumulator, offset, || Value::known(Fp::from(row.2)))?;
                }
                Ok(())
            },
        )
    }
}

fn accepts<const STEP: u32, const BASE: u64>(rows: Vec<(u64, u64, u64)>, enabled: usize) -> bool {
    let circuit = SumCircuit::<STEP, BASE> { rows, enabled };
    let prover = MockProver::run(5, &circuit, vec![]).unwrap();
    prover.verify().is_ok()
}

#[test]
fn pow_u64_gives_exact_powers() {
    assert_eq!(pow_u64(13, 4), 28561);
    assert_eq!(pow_u64(9, 4), 6561);
    assert_eq!(pow_u64(10, 2), 100);
    assert_eq!(pow_u64(7, 1), 7);
    assert_eq!(pow_u64(7, 0), 1);
    assert_eq!(pow_u64(0, 0), 1);
    assert_eq!(pow_u64(0, 5), 0);
    assert_eq!(pow_u64(2, 63), 9223372036854775808);
    assert_eq!(pow_u64(B13, 3), 2197);
    assert_eq!(pow_u64(B9, 3), 729);
}

#[test]
fn running_sum_accepts_two_chunks_of_two_decimal_digits() {
    // 30500 = 5 * 10**2 + 3 * 10**4
    let rows = vec![(5, 100, 30500), (3, 10000, 30000), (0, 1000000, 0)];
    assert!(accepts::<2, 10>(rows, 2));
}

#[test]
fn running_sum_accepts_a_single_final_row() {
    let rows = vec![(7, 13, 91), (0, 13 * 13, 0)];
    assert!(accepts::<1, 13>(rows, 1));
}

#[test]
fn running_sum_accepts_all_zeros() {
    let rows = vec![(0, 0, 0), (0, 0, 0), (0, 0, 0), (0, 0, 0)];
    assert!(accepts::<4, 13>(rows, 3));
}

#[test]
fn running_sum_rejects_an_accumulator_that_does_not_lose_the_term() {
    let rows = vec![(5, 100, 30500), (3, 10000, 30001), (0, 1000000, 0)];
    assert!(!accepts::<2, 10>(rows, 2));
}

#[test]
fn running_sum_rejects_a_final_row_with_something_left() {
    let rows = vec![(5, 100, 30501), (3, 10000, 30001), (0, 1000000, 0)];
    assert!(!accepts::<2, 10>(rows, 2));
}

#[test]
fn running_sum_rejects_a_slice_that_is_not_scaled_by_the_weight() {
    let rows = vec![(5, 100, 30500), (3, 1000, 3000 + 0), (0, 100000, 0)];
    // 30500 - 500 = 30000 is not the next accumulator, and 1000 is not 100 * 10**2
    assert!(!accepts::<2, 10>(rows, 2));
    let rows = vec![(5, 100, 500 + 3 * 1000), (3, 1000, 3000), (0, 100000, 0)];
    // the accumulators fit, only the slice is wrong
    assert!(!accepts::<2, 10>(rows, 2));
}

#[test]
fn running_sum_checks_the_slice_after_the_final_row() {
    let rows = vec![(5, 100, 30500), (3, 10000, 30000), (0, 999, 0)];
    assert!(!accepts::<2, 10>(rows, 2));
}

#[test]
fn running_sum_asks_nothing_of_rows_that_are_not_enabled() {
    let rows = vec![(5, 100, 30500), (3, 10000, 30000), (0, 1000000, 0), (9, 8, 7), (6, 5, 4)];
    assert!(accepts::<2, 10>(rows, 2));
}

#[test]
fn running_sum_uses_the_weight_of_its_base_and_step() {
    // base 9, step 3: the weight is 729
    let rows = vec![(2, 9, 18 + 4 * 6561), (4, 6561, 4 * 6561), (0, 6561 * 729, 0)];
    assert!(accepts::<3, 9>(rows.clone(), 2));
    assert!(!accepts::<2, 9>(rows.clone(), 2));
    assert!(!accepts::<3, 13>(rows, 2));
}
