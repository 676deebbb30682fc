use halo2_proofs::circuit::{Layouter, SimpleFloorPlanner, Value};
use halo2_proofs::dev::MockProver;
use halo2_proofs::plonk::{Advice, Circuit, Column, ConstraintSystem, Error, Selector, TableColumn};
use keccak256::gates::running_sum::ChunkRotateConversionConfig;
use keccak256::plonk::{AdviceColumn, CircuitBuilder};
use pasta_curves::Fp;

#[derive(Clone)]
struct BitColumns {
    q_enable: Selector,
    is_final: Selector,
    base_13_cols: [Column<Advice>; 3],
    base_9_cols: [Column<Advice>; 3],
    block_count_cols: [Column<Advice>; 3],
    table: [TableColumn; 3],
}

fn three_columns(meta: &mut ConstraintSystem<Fp>) -> [AdviceColumn; 3] {
    [
        AdviceColumn { column: meta.advice_column() },
        AdviceColumn { column: meta.advice_column() },
        AdviceColumn { column: meta.advice_column() },
    ]
}

fn raw(cols: [AdviceColumn; 3]) -> [Column<Advice>; 3] {
    [cols[0].column, cols[1].column, cols[2].column]
}

/// The powers `base**0, ..., base**64`.
fn powers(base: u64) -> Vec<Fp> {
    let mut all = vec![Fp::one()];
    for i in 0..64 {
        let next = all[i] * Fp::from(base);
        all.push(next);
    }
    all
}

/// The number whose digits in `base` are the bits of `lane`.
fn convert_b2(lane: u64, base: u64) -> Fp {
    let mut value = Fp::zero();
    for i in (0..64).rev() {
        value = value * Fp::from(base) + Fp::from((lane >> i) & 1);
    }
    value
}

/// A lane, one bit on each row, with the accumulators that the first row starts from.
#[derive(Clone, Default)]
struct BitCircuit {
    lane: u64,
    base_13_start: Fp,
    base_9_start: Fp,
    /// the base 9 slice of row 1, which the table ties to the base 13 slice
    second_base_9_slice: Fp,
}

impl Circuit<Fp> for BitCircuit {
    type Config = BitColumns;
    type FloorPlanner = SimpleFloorPlanner;

    fn without_witnesses(&self) -> Self {
        Self::default()
    }

    fn configure(meta: &mut ConstraintSystem<Fp>) -> BitColumns {
        let q_enable = meta.complex_selector();
        let is_final = meta.complex_selector();
        let base_13_cols = three_columns(meta);
        let base_9_cols = three_columns(meta);
        let block_count_cols = three_columns(meta);
        let mut builder = CircuitBuilder { system: std::mem::take(meta) };
        let config = ChunkRotateConversionConfig::configure(
            q_enable,
            is_final,
            &mut builder,
            base_13_cols,
            base_9_cols,
            block_count_cols,
            1,
        );
        *meta = builder.system;
        BitColumns {
            q_enable: config.q_enable,
            is_final: config.b13_rs_config.is_final,
            base_13_cols: raw(config.base_13_cols),
            base_9_cols: raw(config.base_9_cols),
            block_count_cols: raw(config.block_count_cols),
            table: [
                config.base_13_to_base_9_lookup.base13,
                config.base_13_to_base_9_lookup.base9,
                config.base_13_to_base_9_lookup.block_count,
            ],
        }
    }

    fn synthesize(&self, config: BitColumns, mut layouter: impl Layouter<Fp>) -> Result<(), Error> {
        let powers_13 = powers(13);
        let powers_9 = powers(9);
        layouter.assign_table(
            || "slices",
            |mut table| {
                // the row of zeros, then the slice of each position in both bases
                for offset in 0..=64 {
                    let (b13, b9) = if offset == 0 {
                        (Fp::zero(), Fp::zero())
                    } else {
                        (powers_13[offset - 1], powers_9[offset - 1])
                    };
                    table.assign_cell(|| "base 13", config.table[0], offset, || Value::known(b13))?;
                    table.assign_cell(|| "base 9", config.table[1], offset, || Value::known(b9))?;
                    table.assign_cell(|| "block count", config.table[2], offset, || Value::known(Fp::zero()))?;
                }
                Ok(())
            },
        )?;
        layouter.assign_region(
            || "bits",
            |mut region| {
                let mut acc_13 = self.base_13_start;
                let mut acc_9 = self.base_9_start;
                for offset in 0..=64 {
                    let bit = if offset < 64 { Fp::from((self.lane >> offset) & 1) } else { Fp::zero() };
                    if offset < 64 {
                        config.q_enable.enable(&mut region, offset)?;
                    }
                    if offset == 63 {
                        config.is_final.enable(&mut region, offset)?;
                    }
                    let slice_9 = if offset == 1 { self.second_base_9_slice } else { powers_9[offset] };
                    let base_13 = [bit, powers_13[offset], acc_13];
                    let base_9 = [bit, slice_9, acc_9];
                    for k in 0..3 {
                        region.assign_advice(|| "base 13", config.base_13_cols[k], offset, || Value::known(base_13[k]))?;
                        region.assign_advice(|| "base 9", config.base_9_cols[k], offset, || Value::known(base_9[k]))?;
                        region.assign_advice(
                            || "block count",
                            config.block_count_cols[k],
                            offset,
                            || Value::known(Fp::zero()),
                        )?;
                    }
                    acc_13 = acc_13 - bit * powers_13[offset];
                    acc_9 = acc_9 - bit * slice_9;
                }
                Ok(())
            },
        )
    }
}

fn accepts(lane: u64, base_13_start: Fp, base_9_start: Fp) -> bool {
    let circuit = BitCircuit { lane, base_13_start, base_9_start, second_base_9_slice: Fp::from(9) };
    MockProver::run(8, &circuit, vec![]).unwrap().verify().is_ok()
}

fn round_trip(lane: u64) {
    let b13 = convert_b2(lane, 13);
    let b9 = convert_b2(lane, 9);
    assert!(accepts(lane, b13, b9));
    assert!(!accepts(lane, b13, b9 + Fp::one()));
    assert!(!accepts(lane, b13 + Fp::one(), b9));
}

#[test]
fn base_nine_sum_of_zero_is_zero() {
    assert_eq!(convert_b2(0, 9), Fp::zero());
    round_trip(0);
}

#[test]
fn base_nine_sum_of_all_ones_is_the_direct_conversion() {
    round_trip(u64::MAX);
}

#[test]
fn base_nine_sum_of_a_single_bit_is_its_power_of_nine() {
    let powers_9 = powers(9);
    for position in [0usize, 1, 2, 31, 32, 62, 63] {
        let lane = 1u64 << position;
        assert_eq!(convert_b2(lane, 9), powers_9[position]);
        round_trip(lane);
    }
}

#[test]
fn base_nine_sum_of_mixed_lanes_is_the_direct_conversion() {
    for lane in [0b1011u64, 0x8000_0000_0000_0001, 0x0123_4567_89ab_cdef, 0xffff_0000_ffff_0000, 0x7fff_ffff_ffff_ffff]
    {
        round_trip(lane);
    }
}

#[test]
fn table_ties_the_base_nine_slice_to_the_base_thirteen_slice() {
    // a witness whose base 9 running sum is right for a second slice of 81, which is not
    // what the table holds beside 13
    let lane = 0b10u64;
    let circuit = BitCircuit {
        lane,
        base_13_start: convert_b2(lane, 13),
        base_9_start: Fp::from(81),
        second_base_9_slice: Fp::from(81),
    };
    assert!(MockProver::run(8, &circuit, vec![]).unwrap().verify().is_err());
}
