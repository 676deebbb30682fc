use halo2_proofs::circuit::{Layouter, SimpleFloorPlanner, Value};
use halo2_proofs::dev::MockProver;
use halo2_proofs::plonk::{Advice, Circuit, Column, ConstraintSystem, Error, Selector, TableColumn};
use keccak256::arith_helpers::{B13, B9};
use keccak256::gates::running_sum::ChunkRotateConversionConfig;
use keccak256::gates::tables::Base13toBase9TableConfig;
use keccak256::plonk::{AdviceColumn, CircuitBuilder};
use pasta_curves::Fp;

#[derive(Clone)]
struct ChunkColumns {
    q_enable: Selector,
    is_final: Selector,
    base_13_cols: [Column<Advice>; 3],
    base_9_cols: [Column<Advice>; 3],
    block_count_cols: [Column<Advice>; 3],
    table: [TableColumn; 3],
}

fn three_columns(meta: &mut ConstraintSystem<Fp>) -> [AdviceColumn; 3] {
    [
        AdviceColumn { column: meta.advice_column() },
        AdviceColumn { column: meta.advice_column() },
        AdviceColumn { column: meta.advice_column() },
    ]
}

fn raw(cols: [AdviceColumn; 3]) -> [Column<Advice>; 3] {
    [cols[0].column, cols[1].column, cols[2].column]
}

/// One row of the three column triples: base 13 (coef, slice, acc), base 9 (coef, slice,
/// acc), block counts (block count, step 2 acc, step 3 acc).
type Row = ([u64; 3], [u64; 3], [u64; 3]);

#[derive(Clone, Default)]
struct ChunkCircuit<const STEP: u32> {
    rows: Vec<Row>,
    enabled: usize,
    table: Vec<[u64; 3]>,
}

impl<const STEP: u32> Circuit<Fp> for ChunkCircuit<STEP> {
    type Config = ChunkColumns;
    type FloorPlanner = SimpleFloorPlanner;

    fn without_witnesses(&self) -> Self {
        Self::default()
    }

    fn configure(meta: &mut ConstraintSystem<Fp>) -> ChunkColumns {
        let q_enable = meta.complex_selector();
        let is_final = meta.complex_selector();
        let base_13_cols = three_columns(meta);
        let base_9_cols = three_columns(meta);
        let block_count_cols = three_columns(meta);
        let mut builder = CircuitBuilder { system: std::mem::take(meta) };
        let config = ChunkRotateConversionConfig::configure(
            q_enable,
            is_final,
            &mut builder,
            base_13_cols,
            base_9_cols,
            block_count_cols,
            STEP,
        );
        *meta = builder.system;
        assert_eq!(config.b13_rs_config.step, STEP);
        assert_eq!(config.b13_rs_config.base, B13);
        assert_eq!(config.b9_rs_config.step, STEP);
        assert_eq!(config.b9_rs_config.base, B9);
        match &config.block_count_acc_config {
            Some(acc) => {
                assert!(STEP <= 3);
                assert_eq!(acc.step, STEP);
            }
            None => assert_eq!(STEP, 4),
        }
        ChunkColumns {
            q_enable: config.q_enable,
            is_final: config.b13_rs_config.is_final,
            base_13_cols: raw(config.base_13_cols),
            base_9_cols: raw(config.base_9_cols),
            block_count_cols: raw(config.block_count_cols),
            table: [
                config.base_13_to_base_9_lookup.base13,
                config.base_13_to_base_9_lookup.base9,
                config.base_13_to_base_9_lookup.block_count,
            ],
        }
    }

    fn synthesize(&self, config: ChunkColumns, mut layouter: impl Layouter<Fp>) -> Result<(), Error> {
        layouter.assign_table(
            || "base 13 to base 9",
            |mut table| {
                for (offset, row) in self.table.iter().enumerate() {
                    for k in 0..3 {
                        table.assign_cell(|| "table", config.table[k], offset, || Value::known(Fp::from(row[k])))?;
                    }
                }
                Ok(())
            },
        )?;
        layouter.assign_region(
            || "chunk",
            |mut region| {
                for (offset, row) in self.rows.iter().enumerate() {
                    if offset < self.enabled {
                        config.q_enable.enable(&mut region, offset)?;
                    }
                    if offset + 1 == self.enabled {
                        config.is_final.enable(&mut region, offset)?;
                    }
                    for k in 0..3 {
                        region.assign_advice(
                            || "base 13",
                            config.base_13_cols[k],
                            offset,
                            || Value::known(Fp::from(row.0[k])),
                        )?;
                        region.assign_advice(
                            || "base 9",
                            config.base_9_cols[k],
                            offset,
                            || Value::known(Fp::from(row.1[k])),
                        )?;
                        region.assign_advice(
                            || "block count",
                            config.block_count_cols[k],
                            offset,
                            || Value::known(Fp::from(row.2[k])),
                        )?;
                    }
                }
                Ok(())
            },
        )
    }
}

fn accepts<const STEP: u32>(rows: Vec<Row>, enabled: usize, table: Vec<[u64; 3]>) -> bool {
    let circuit = ChunkCircuit::<STEP> { rows, enabled, table };
    MockProver::run(6, &circuit, vec![]).unwrap().verify().is_ok()
}

fn two_digit_rows() -> Vec<Row> {
    vec![
        ([5, 1, 5 + 3 * 169], [1, 1, 1 + 81], [2, 0, 0]),
        ([3, 169, 3 * 169], [1, 81, 81], [1, 2, 0]),
        ([0, 169 * 169, 0], [0, 81 * 81, 0], [0, 3, 0]),
    ]
}

fn two_digit_table() -> Vec<[u64; 3]> {
    vec![[0, 0, 0], [1, 1, 2], [169, 81, 1]]
}

#[test]
fn chunk_of_two_digits_accepts_a_witness_that_fits() {
    assert!(accepts::<2>(two_digit_rows(), 2, two_digit_table()));
}

#[test]
fn chunk_rejects_a_row_that_is_not_in_the_table() {
    // the block count of the first row is 2 in the table
    let mut rows = two_digit_rows();
    rows[0].2 = [1, 0, 0];
    rows[1].2 = [1, 1, 0];
    rows[2].2 = [0, 2, 0];
    assert!(!accepts::<2>(rows, 2, two_digit_table()));
    // without the row of the second slices
    assert!(!accepts::<2>(two_digit_rows(), 2, vec![[0, 0, 0], [1, 1, 2]]));
    // the slices of base 9 do not belong to those of base 13
    assert!(!accepts::<2>(two_digit_rows(), 2, vec![[0, 0, 0], [1, 81, 2], [169, 1, 1]]));
}

#[test]
fn chunk_rejects_a_wrong_running_sum_in_either_base() {
    let mut rows = two_digit_rows();
    rows[0].0[2] += 1;
    assert!(!accepts::<2>(rows, 2, two_digit_table()));
    let mut rows = two_digit_rows();
    rows[0].1[2] += 1;
    assert!(!accepts::<2>(rows, 2, two_digit_table()));
}

#[test]
fn chunk_of_two_digits_rejects_a_wrong_block_count_total() {
    let mut rows = two_digit_rows();
    rows[2].2[1] = 4;
    assert!(!accepts::<2>(rows, 2, two_digit_table()));
    let mut rows = two_digit_rows();
    rows[1].2[2] = 1;
    assert!(!accepts::<2>(rows, 2, two_digit_table()));
}

#[test]
fn chunk_of_four_digits_leaves_the_block_counts_alone() {
    let weight13 = 28561;
    let weight9 = 6561;
    let rows = vec![
        ([7, 1, 7 + 2 * weight13], [3, 1, 3 + weight9], [4, 0, 0]),
        ([2, weight13, 2 * weight13], [1, weight9, weight9], [0, 9, 11]),
        ([0, weight13 * weight13, 0], [0, weight9 * weight9, 0], [0, 0, 0]),
    ];
    let table = vec![[0, 0, 0], [1, 1, 4], [weight13, weight9, 0]];
    assert!(accepts::<4>(rows, 2, table));
}

#[test]
fn chunk_of_one_digit_wants_block_count_zero() {
    let rows = vec![
        ([1, 1, 1 + 13], [1, 1, 1 + 9], [0, 6, 6]),
        ([1, 13, 13], [1, 9, 9], [0, 6, 6]),
        ([0, 169, 0], [0, 81, 0], [0, 6, 6]),
    ];
    let table = vec![[0, 0, 0], [1, 1, 0], [13, 9, 0], [1, 1, 1]];
    assert!(accepts::<1>(rows.clone(), 2, table.clone()));
    let mut wrong = rows;
    wrong[0].2[0] = 1;
    assert!(!accepts::<1>(wrong, 2, table));
}

#[test]
fn chunk_of_three_digits_adds_to_the_second_total() {
    let rows = vec![
        ([4, 1, 4], [2, 1, 2], [3, 1, 10]),
        ([0, 2197, 0], [0, 729, 0], [0, 1, 13]),
    ];
    let table = vec![[0, 0, 0], [1, 1, 3]];
    assert!(accepts::<3>(rows.clone(), 1, table.clone()));
    let mut wrong = rows;
    wrong[1].2 = [0, 4, 10];
    assert!(!accepts::<3>(wrong, 1, table));
}

#[test]
fn lookup_takes_three_new_table_columns() {
    let mut system = ConstraintSystem::<Fp>::default();
    let q_enable = system.complex_selector();
    let cols = three_columns(&mut system);
    let first = system.lookup_table_column();
    let mut builder = CircuitBuilder { system };
    let config = Base13toBase9TableConfig::configure(&mut builder, q_enable, cols[0], cols[1], cols[2]);
    let after = builder.system.lookup_table_column();
    let index = |column: TableColumn| format!("{:?}", column);
    assert!(index(first).contains("index: 0"));
    assert!(index(config.base13).contains("index: 1"));
    assert!(index(config.base9).contains("index: 2"));
    assert!(index(config.block_count).contains("index: 3"));
    assert!(index(after).contains("index: 4"));
    assert_eq!(config.q_enable, q_enable);
    assert_eq!(config.base13_advice.column, cols[0].column);
    assert_eq!(config.base9_advice.column, cols[1].column);
    assert_eq!(config.block_count_advice.column, cols[2].column);
}
