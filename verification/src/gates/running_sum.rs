//! Running sums, block counts and the partition of a lane into chunks.

use vstd::prelude::*;
use vstd::arithmetic::power::pow;
use halo2_proofs::plonk::{Expression, Selector};
use pasta_curves::Fp;
use crate::arith_helpers::{pow_u64, B13, B9};
use crate::gates::lane::lemma_lane_registered;
use crate::gates::tables::Base13toBase9TableConfig;
use crate::plonk::{
    advice_column_index, advice_poly, all_allocated, allocated, circuit_of, constant, constraints_of,
    create_gate, difference, duplicate, expression_poly, product, query_advice, query_selector,
    selector_index, selector_is_simple, selector_poly, table_column_index, AdviceColumn, Cells,
    CircuitBuilder, GateConstraints,
};
use crate::poly::{Circuit, Constraint, Gate, Poly};

verus! {

/// One base's reconstruction of a lane from its chunks.
///
/// | coef | slice | accumulator |
/// |------|-------|-------------|
/// | 5    | 10**2 |       30500 | (step = 2)
/// | 3    | 10**4 |       30000 |
///
/// From one row to the next the accumulator loses `coef * slice` and the slice gains
/// `step` digits; on the final row what is left of the accumulator is `coef * slice`.
pub struct RunningSumConfig {
    pub q_enable: Selector,
    pub is_final: Selector,
    pub coef: AdviceColumn,
    pub slice: AdviceColumn,
    pub accumulator: AdviceColumn,
    pub step: u32,
    pub base: u64,
}

impl RunningSumConfig {
    /// `accumulator - coef * slice` on the current row.
    pub open spec fn remainder_poly(&self) -> Poly {
        advice_poly(self.accumulator, 0).minus(advice_poly(self.coef, 0).times(advice_poly(self.slice, 0)))
    }

    /// Off the final row, the next accumulator is what is left of this one.
    pub open spec fn next_acc_poly(&self) -> Poly {
        selector_poly(self.q_enable).times(
            selector_poly(self.is_final).minus(Poly::Constant(1)).times(
                advice_poly(self.accumulator, 1).minus(self.remainder_poly()),
            ),
        )
    }

    /// On the final row, nothing is left of the accumulator.
    pub open spec fn final_acc_poly(&self) -> Poly {
        selector_poly(self.q_enable).times(selector_poly(self.is_final).times(self.remainder_poly()))
    }

    /// The next slice is this one, `step` digits further up.
    pub open spec fn next_slice_poly(&self) -> Poly {
        selector_poly(self.q_enable).times(
            advice_poly(self.slice, 1).minus(
                advice_poly(self.slice, 0).times(Poly::Constant(pow(self.base as int, self.step as nat))),
            ),
        )
    }

    /// What `configure` registers: one gate.
    pub open spec fn gate(&self) -> Gate {
        Gate { name: "mul"@, constraints: self.constraints_spec() }
    }

    /// Registers a gate for a running sum in base `base` over the columns `cols` (coef,
    /// slice, accumulator), for chunks of `step` digits.
    ///
    /// The columns must be columns of `meta`. The weight of a chunk, `base` to the power
    /// of `step`, must fit a machine word, and `is_final` must not be a simple selector,
    /// since one is subtracted from it.
    pub fn configure(
        meta: &mut CircuitBuilder,
        q_enable: Selector,
        is_final: Selector,
        cols: [AdviceColumn; 3],
        step: u32,
        base: u64,
    ) -> (config: Self)
        requires
            all_allocated(cols, circuit_of(*old(meta)).advice_columns),
            !selector_is_simple(is_final),
            pow(base as int, step as nat) <= u64::MAX,
        ensures
            config == (RunningSumConfig {
                q_enable,
                is_final,
                coef: cols[0],
                slice: cols[1],
                accumulator: cols[2],
                step,
                base,
            }),
            circuit_of(*final(meta)) == circuit_of(*old(meta)).with_gate(config.gate()),
    {
        let config = Self {
            q_enable,
            is_final,
            coef: cols[0],
            slice: cols[1],
            accumulator: cols[2],
            step,
            base,
        };
        create_gate(meta, "mul", &config);
        config
    }
}

impl GateConstraints for RunningSumConfig {
    open spec fn well_formed(&self, advice_columns: nat) -> bool {
        &&& allocated(self.coef, advice_columns)
        &&& allocated(self.slice, advice_columns)
        &&& allocated(self.accumulator, advice_columns)
        &&& !selector_is_simple(self.is_final)
        &&& pow(self.base as int, self.step as nat) <= u64::MAX
    }

    open spec fn constraints_spec(&self) -> Seq<Constraint> {
        seq![
            Constraint { name: "(not final) check next acc"@, poly: self.next_acc_poly() },
            Constraint { name: "(final) check acc"@, poly: self.final_acc_poly() },
            Constraint { name: "next slice"@, poly: self.next_slice_poly() },
        ]
    }

    fn constraints(&self, cells: &mut Cells<'_, '_>) -> (named: Vec<(&'static str, Expression<Fp>)>) {
        proof {
            reveal_with_fuel(Poly::contains_simple_selector, 10);
        }
        let q_enable = query_selector(cells, self.q_enable);
        let is_final = query_selector(cells, self.is_final);
        let coef = query_advice(cells, self.coef, 0);
        let slice = query_advice(cells, self.slice, 0);
        let acc = query_advice(cells, self.accumulator, 0);
        let next_slice = query_advice(cells, self.slice, 1);
        let next_acc = query_advice(cells, self.accumulator, 1);
        let slice_multiplier = constant(pow_u64(self.base, self.step));
        let remainder = difference(acc, product(coef, duplicate(&slice)));
        let check_next_acc = product(
            difference(duplicate(&is_final), constant(1)),
            difference(next_acc, duplicate(&remainder)),
        );
        let check_acc = product(is_final, remainder);
        let check_next_slice = difference(next_slice, product(slice, slice_multiplier));
        let mut named: Vec<(&'static str, Expression<Fp>)> = Vec::new();
        named.push(("(not final) check next acc", product(duplicate(&q_enable), check_next_acc)));
        named.push(("(final) check acc", product(duplicate(&q_enable), check_acc)));
        named.push(("next slice", product(q_enable, check_next_slice)));
        assert(constraints_of(named@) =~= self.constraints_spec());
        named
    }
}

/// One step of the two running totals of block counts.
///
/// A chunk of two digits adds its block count to the first total, a chunk of three
/// digits to the second; a chunk of one digit has block count zero and adds nothing.
pub struct BlockCountAccConfig {
    pub q_enable: Selector,
    /// block count, step 2 acc, step 3 acc
    pub block_count_cols: [AdviceColumn; 3],
    pub step: u32,
}

/// What a running total in `column` gains from the current row to the next.
pub open spec fn delta_poly(column: AdviceColumn) -> Poly {
    advice_poly(column, 1).minus(advice_poly(column, 0))
}

impl BlockCountAccConfig {
    /// The polynomial `poly` under the selector.
    pub open spec fn enabled(&self, poly: Poly) -> Poly {
        selector_poly(self.q_enable).times(poly)
    }

    /// What `configure` registers: one gate.
    pub open spec fn gate(&self) -> Gate {
        Gate { name: "accumulate block count"@, constraints: self.constraints_spec() }
    }

    /// Registers a gate that accumulates the block count of a chunk of `step` digits
    /// over the columns `block_count_cols` (block count, total of the chunks of two
    /// digits, total of the chunks of three digits), which must be columns of `meta`. A
    /// chunk of any other length than one, two or three digits has no such step.
    pub fn configure(
        meta: &mut CircuitBuilder,
        q_enable: Selector,
        block_count_cols: [AdviceColumn; 3],
        step: u32,
    ) -> (config: Self)
        requires
            all_allocated(block_count_cols, circuit_of(*old(meta)).advice_columns),
            1 <= step <= 3,
        ensures
            config == (BlockCountAccConfig { q_enable, block_count_cols, step }),
            circuit_of(*final(meta)) == circuit_of(*old(meta)).with_gate(config.gate()),
    {
        let config = Self { q_enable, block_count_cols, step };
        create_gate(meta, "accumulate block count", &config);
        config
    }
}

impl GateConstraints for BlockCountAccConfig {
    open spec fn well_formed(&self, advice_columns: nat) -> bool {
        &&& all_allocated(self.block_count_cols, advice_columns)
        &&& 1 <= self.step <= 3
    }

    open spec fn constraints_spec(&self) -> Seq<Constraint> {
        let block_count = advice_poly(self.block_count_cols[0], 0);
        let delta_step2 = delta_poly(self.block_count_cols[1]);
        let delta_step3 = delta_poly(self.block_count_cols[2]);
        if self.step == 1 {
            seq![
                Constraint { name: "block_count = 0"@, poly: self.enabled(block_count) },
                Constraint { name: "delta_step2 = 0"@, poly: self.enabled(delta_step2) },
                Constraint { name: "delta_step3 = 0"@, poly: self.enabled(delta_step3) },
            ]
        } else if self.step == 2 {
            seq![
                Constraint {
                    name: "delta_step2 = block_count"@,
                    poly: self.enabled(delta_step2.minus(block_count)),
                },
                Constraint { name: "delta_step3 = 0"@, poly: self.enabled(delta_step3) },
            ]
        } else {
            seq![
                Constraint { name: "delta_step2 = 0"@, poly: self.enabled(delta_step2) },
                Constraint {
                    name: "delta_step3 = block_count"@,
                    poly: self.enabled(delta_step3.minus(block_count)),
                },
            ]
        }
    }

    fn constraints(&self, cells: &mut Cells<'_, '_>) -> (named: Vec<(&'static str, Expression<Fp>)>) {
        proof {
            reveal_with_fuel(Poly::contains_simple_selector, 6);
        }
        let q_enable = query_selector(cells, self.q_enable);
        let block_count = query_advice(cells, self.block_count_cols[0], 0);
        let next_step2 = query_advice(cells, self.block_count_cols[1], 1);
        let cur_step2 = query_advice(cells, self.block_count_cols[1], 0);
        let delta_step2 = difference(next_step2, cur_step2);
        let next_step3 = query_advice(cells, self.block_count_cols[2], 1);
        let cur_step3 = query_advice(cells, self.block_count_cols[2], 0);
        let delta_step3 = difference(next_step3, cur_step3);
        let mut named: Vec<(&'static str, Expression<Fp>)> = Vec::new();
        if self.step == 1 {
            named.push(("block_count = 0", product(duplicate(&q_enable), block_count)));
            named.push(("delta_step2 = 0", product(duplicate(&q_enable), delta_step2)));
            named.push(("delta_step3 = 0", product(q_enable, delta_step3)));
        } else if self.step == 2 {
            named.push(
                ("delta_step2 = block_count", product(duplicate(&q_enable), difference(delta_step2, block_count))),
            );
            named.push(("delta_step3 = 0", product(q_enable, delta_step3)));
        } else {
            named.push(("delta_step2 = 0", product(duplicate(&q_enable), delta_step2)));
            named.push(
                ("delta_step3 = block_count", product(q_enable, difference(delta_step3, block_count))),
            );
        }
        assert(constraints_of(named@) =~= self.constraints_spec());
        named
    }
}

/// The largest total that the block counts of the chunks of two digits may reach.
pub const STEP2_RANGE: u64 = 12;

/// The largest total that the block counts of the chunks of three digits may reach.
pub const STEP3_RANGE: u64 = 169;

/// The check that both running totals of block counts end in their range.
pub struct BlockCountFinalConfig {
    pub q_enable: Selector,
    pub block_count_cols: [AdviceColumn; 3],
}

/// The polynomial `(total - 0) * (total - 1) * ... * (total - bound)`, which is zero
/// where `total` is one of `0, ..., bound`.
pub open spec fn range_poly(total: Poly, bound: nat) -> Poly
    decreases bound,
{
    if bound == 0 {
        total.minus(Poly::Constant(0))
    } else {
        range_poly(total, (bound - 1) as nat).times(total.minus(Poly::Constant(bound as int)))
    }
}

/// No simple selector comes into the range polynomial of a total that has none.
pub proof fn lemma_range_poly_has_no_simple_selector(total: Poly, bound: nat)
    requires
        !total.contains_simple_selector(),
    ensures
        !range_poly(total, bound).contains_simple_selector(),
    decreases bound,
{
    reveal_with_fuel(Poly::contains_simple_selector, 4);
    if bound > 0 {
        lemma_range_poly_has_no_simple_selector(total, (bound - 1) as nat);
    }
}

/// The range polynomial of a cell has one factor of degree one for each number of the
/// range.
pub proof fn lemma_range_poly_degree(column: AdviceColumn, rotation: int, bound: nat)
    ensures
        range_poly(advice_poly(column, rotation), bound).degree() == bound + 1,
    decreases bound,
{
    reveal_with_fuel(Poly::degree, 4);
    if bound > 0 {
        lemma_range_poly_degree(column, rotation, (bound - 1) as nat);
    }
}

/// Builds the polynomial that is zero where `total` is one of `0, ..., bound`.
pub fn range_check(total: &Expression<Fp>, bound: u64) -> (check: Expression<Fp>)
    requires
        !expression_poly(*total).contains_simple_selector(),
    ensures
        expression_poly(check) == range_poly(expression_poly(*total), bound as nat),
{
    proof {
        reveal_with_fuel(Poly::contains_simple_selector, 4);
    }
    let mut check = difference(duplicate(total), constant(0));
    let mut x: u64 = 0;
    while x < bound
        invariant
            x <= bound,
            !expression_poly(*total).contains_simple_selector(),
            expression_poly(check) == range_poly(expression_poly(*total), x as nat),
        decreases bound - x,
    {
        x = x + 1;
        proof {
            lemma_range_poly_has_no_simple_selector(expression_poly(*total), (x - 1) as nat);
            reveal_with_fuel(Poly::contains_simple_selector, 4);
        }
        check = product(check, difference(duplicate(total), constant(x)));
    }
    check
}

impl BlockCountFinalConfig {
    /// What `configure` registers: one gate.
    pub open spec fn gate(&self) -> Gate {
        Gate { name: "block count final check"@, constraints: self.constraints_spec() }
    }

    /// The check of the total in `column` against `0, ..., bound`, under the selector.
    pub open spec fn check_poly(&self, column: AdviceColumn, bound: nat) -> Poly {
        selector_poly(self.q_enable).times(range_poly(advice_poly(column, 0), bound))
    }

    /// Registers a gate that checks, on the rows where `q_enable` is on, that the total
    /// of the chunks of two digits is at most 12 and that of the chunks of three digits
    /// at most 169. The columns must be columns of `meta`.
    pub fn configure(meta: &mut CircuitBuilder, q_enable: Selector, block_count_cols: [AdviceColumn; 3]) -> (config: Self)
        requires
            all_allocated(block_count_cols, circuit_of(*old(meta)).advice_columns),
        ensures
            config == (BlockCountFinalConfig { q_enable, block_count_cols }),
            circuit_of(*final(meta)) == circuit_of(*old(meta)).with_gate(config.gate()),
    {
        let config = Self { q_enable, block_count_cols };
        create_gate(meta, "block count final check", &config);
        config
    }
}

/// The two polynomials of the final check have the degrees 14 and 171: the constraint
/// system that takes them must allow for these.
pub proof fn lemma_block_count_final_degrees(config: BlockCountFinalConfig)
    ensures
        config.gate().constraints[0].poly.degree() == STEP2_RANGE + 2,
        config.gate().constraints[1].poly.degree() == STEP3_RANGE + 2,
{
    reveal_with_fuel(Poly::degree, 2);
    lemma_range_poly_degree(config.block_count_cols[1], 0, STEP2_RANGE as nat);
    lemma_range_poly_degree(config.block_count_cols[2], 0, STEP3_RANGE as nat);
}

impl GateConstraints for BlockCountFinalConfig {
    open spec fn well_formed(&self, advice_columns: nat) -> bool {
        all_allocated(self.block_count_cols, advice_columns)
    }

    open spec fn constraints_spec(&self) -> Seq<Constraint> {
        seq![
            Constraint {
                name: "step2_acc <=12"@,
                poly: self.check_poly(self.block_count_cols[1], STEP2_RANGE as nat),
            },
            Constraint {
                name: "step3_acc <= 13 * 13"@,
                poly: self.check_poly(self.block_count_cols[2], STEP3_RANGE as nat),
            },
        ]
    }

    fn constraints(&self, cells: &mut Cells<'_, '_>) -> (named: Vec<(&'static str, Expression<Fp>)>) {
        proof {
            reveal_with_fuel(Poly::contains_simple_selector, 2);
        }
        let q_enable = query_selector(cells, self.q_enable);
        let step2_acc = query_advice(cells, self.block_count_cols[1], 0);
        let step3_acc = query_advice(cells, self.block_count_cols[2], 0);
        let step2_check = range_check(&step2_acc, STEP2_RANGE);
        let step3_check = range_check(&step3_acc, STEP3_RANGE);
        proof {
            lemma_range_poly_has_no_simple_selector(expression_poly(step2_acc), STEP2_RANGE as nat);
            lemma_range_poly_has_no_simple_selector(expression_poly(step3_acc), STEP3_RANGE as nat);
        }
        let mut named: Vec<(&'static str, Expression<Fp>)> = Vec::new();
        named.push(("step2_acc <=12", product(duplicate(&q_enable), step2_check)));
        named.push(("step3_acc <= 13 * 13", product(q_enable, step3_check)));
        assert(constraints_of(named@) =~= self.constraints_spec());
        named
    }
}

/// The conversion of one chunk: the lookup of its slices, the running sum in each base
/// and, for a chunk of fewer than four digits, the step of the block counts.
///
/// A chunk of four digits takes no part in the block counts, so it has no gate for
/// them: the block count gate exists for one, two and three digits only.
pub struct ChunkRotateConversionConfig {
    pub q_enable: Selector,
    /// coef, slice, acc
    pub base_13_cols: [AdviceColumn; 3],
    /// coef, slice, acc
    pub base_9_cols: [AdviceColumn; 3],
    /// block count, step 2 acc, step 3 acc
    pub block_count_cols: [AdviceColumn; 3],
    pub base_13_to_base_9_lookup: Base13toBase9TableConfig,
    pub b13_rs_config: RunningSumConfig,
    pub b9_rs_config: RunningSumConfig,
    pub block_count_acc_config: Option<BlockCountAccConfig>,
}

/// The weight of a chunk of up to four digits fits a machine word in both bases.
pub proof fn lemma_chunk_weight_fits(step: nat)
    requires
        step <= 4,
    ensures
        0 < pow(B13 as int, step) <= 28561,
        0 < pow(B9 as int, step) <= 6561,
{
    reveal_with_fuel(pow, 5);
}

impl ChunkRotateConversionConfig {
    /// The number of digits of the chunk.
    pub open spec fn step(&self) -> u32 {
        self.b13_rs_config.step
    }

    /// Whether this is the conversion of a chunk of `step` digits over the given
    /// selectors and columns, with its table in the three fixed columns from
    /// `first_table_column` on.
    pub open spec fn is_chunk_of(
        &self,
        q_enable: Selector,
        is_final: Selector,
        base_13_cols: [AdviceColumn; 3],
        base_9_cols: [AdviceColumn; 3],
        block_count_cols: [AdviceColumn; 3],
        step: u32,
        first_table_column: nat,
    ) -> bool {
        &&& self.q_enable == q_enable
        &&& self.base_13_cols == base_13_cols
        &&& self.base_9_cols == base_9_cols
        &&& self.block_count_cols == block_count_cols
        &&& self.base_13_to_base_9_lookup.q_enable == q_enable
        &&& self.base_13_to_base_9_lookup.base13_advice == base_13_cols[1]
        &&& self.base_13_to_base_9_lookup.base9_advice == base_9_cols[1]
        &&& self.base_13_to_base_9_lookup.block_count_advice == block_count_cols[0]
        &&& table_column_index(self.base_13_to_base_9_lookup.base13) == first_table_column
        &&& table_column_index(self.base_13_to_base_9_lookup.base9) == first_table_column + 1
        &&& table_column_index(self.base_13_to_base_9_lookup.block_count) == first_table_column + 2
        &&& self.b13_rs_config == (RunningSumConfig {
            q_enable,
            is_final,
            coef: base_13_cols[0],
            slice: base_13_cols[1],
            accumulator: base_13_cols[2],
            step,
            base: B13,
        })
        &&& self.b9_rs_config == (RunningSumConfig {
            q_enable,
            is_final,
            coef: base_9_cols[0],
            slice: base_9_cols[1],
            accumulator: base_9_cols[2],
            step,
            base: B9,
        })
        &&& self.block_count_acc_config == if step <= 3 {
            Some(BlockCountAccConfig { q_enable, block_count_cols, step })
        } else {
            None
        }
    }

    /// What `configure` turns a circuit into: the lookup with its table columns, then the
    /// gate of the running sum in base 13, that in base 9 and, where the chunk has one,
    /// one for its block count.
    pub open spec fn registered(&self, before: Circuit) -> Circuit {
        let with_sums = self.base_13_to_base_9_lookup.registered(before).with_gate(
            self.b13_rs_config.gate(),
        ).with_gate(self.b9_rs_config.gate());
        match self.block_count_acc_config {
            Some(acc) => with_sums.with_gate(acc.gate()),
            None => with_sums,
        }
    }

    /// Registers the conversion of a chunk of `step` digits, from one to four.
    ///
    /// The columns must be columns of `meta`. Neither selector may be a simple one:
    /// `q_enable` stands in a lookup and `is_final` in a difference.
    pub fn configure(
        q_enable: Selector,
        is_final: Selector,
        meta: &mut CircuitBuilder,
        base_13_cols: [AdviceColumn; 3],
        base_9_cols: [AdviceColumn; 3],
        block_count_cols: [AdviceColumn; 3],
        step: u32,
    ) -> (config: Self)
        requires
            all_allocated(base_13_cols, circuit_of(*old(meta)).advice_columns),
            all_allocated(base_9_cols, circuit_of(*old(meta)).advice_columns),
            all_allocated(block_count_cols, circuit_of(*old(meta)).advice_columns),
            !selector_is_simple(q_enable),
            !selector_is_simple(is_final),
            1 <= step <= 4,
        ensures
            config.is_chunk_of(
                q_enable,
                is_final,
                base_13_cols,
                base_9_cols,
                block_count_cols,
                step,
                circuit_of(*old(meta)).fixed_columns,
            ),
            circuit_of(*final(meta)) == config.registered(circuit_of(*old(meta))),
    {
        proof {
            lemma_chunk_weight_fits(step as nat);
        }
        let base_13_to_base_9_lookup = Base13toBase9TableConfig::configure(
            meta,
            q_enable,
            base_13_cols[1],
            base_9_cols[1],
            block_count_cols[0],
        );

        let b13_rs_config = RunningSumConfig::configure(meta, q_enable, is_final, base_13_cols, step, B13);

        let b9_rs_config = RunningSumConfig::configure(meta, q_enable, is_final, base_9_cols, step, B9);

        let block_count_acc_config = if step <= 3 {
            Some(BlockCountAccConfig::configure(meta, q_enable, block_count_cols, step))
        } else {
            None
        };

        Self {
            q_enable,
            base_13_cols,
            base_9_cols,
            block_count_cols,
            base_13_to_base_9_lookup,
            b13_rs_config,
            b9_rs_config,
            block_count_acc_config,
        }
    }
}

/// The number of bit positions of a lane.
pub const LANE_SIZE: u32 = 64;

/// The length of a chunk that meets neither the rotation position nor the lane's end.
pub const BASE_NUM_OF_CHUNKS: u32 = 4;

/// The length of the chunk that starts at bit `chunk_idx` of a lane rotated by
/// `rotation`: up to the rotation position if that lies inside the next four bits, else
/// up to the lane's end if that does, else four.
pub open spec fn step_size(chunk_idx: int, rotation: int) -> int {
    if chunk_idx < rotation < chunk_idx + 4 {
        rotation - chunk_idx
    } else if chunk_idx < 64 < chunk_idx + 4 {
        64 - chunk_idx
    } else {
        4
    }
}

/// Determine how many bits go into the chunk that starts at `chunk_idx`.
///
/// Usually a chunk has four bits; it has fewer where it would reach across the rotation
/// position or across the end of the lane.
pub fn get_step_size(chunk_idx: u32, rotation: u32) -> (step: u32)
    ensures
        step == step_size(chunk_idx as int, rotation as int),
        1 <= step <= 4,
{
    // near the rotation position of the lane
    if chunk_idx < rotation && rotation - chunk_idx < BASE_NUM_OF_CHUNKS {
        return rotation - chunk_idx;
    }
    // near the end of the lane
    if chunk_idx < LANE_SIZE && LANE_SIZE - chunk_idx < BASE_NUM_OF_CHUNKS {
        return LANE_SIZE - chunk_idx;
    }
    BASE_NUM_OF_CHUNKS
}

/// The lengths of the chunks from bit `chunk_idx` up to the end of the lane.
pub open spec fn steps_from(chunk_idx: int, rotation: int) -> Seq<int>
    decreases (if chunk_idx < 64 { 64 - chunk_idx } else { 0 }),
{
    if chunk_idx >= 64 {
        Seq::empty()
    } else {
        seq![step_size(chunk_idx, rotation)] + steps_from(
            chunk_idx + step_size(chunk_idx, rotation),
            rotation,
        )
    }
}

/// The lengths of the chunks that a lane rotated by `rotation` is cut into, from bit 1
/// up.
pub open spec fn chunk_steps(rotation: int) -> Seq<int> {
    steps_from(1, rotation)
}

/// What registering the chunks one after the other turns a circuit into.
pub open spec fn chunks_registered(chunks: Seq<ChunkRotateConversionConfig>, before: Circuit) -> Circuit
    decreases chunks.len(),
{
    if chunks.len() == 0 {
        before
    } else {
        chunks.last().registered(chunks_registered(chunks.drop_last(), before))
    }
}

/// The conversion of a whole lane: its columns and one conversion for each chunk.
///
/// The chunks share the columns and the two selectors of the running sums, so on a row on
/// which the running sums are enabled the gates of every chunk hold.
pub struct LaneRotateConversionConfig {
    pub q_enable: Selector,
    pub base_13_cols: [AdviceColumn; 3],
    pub base_9_cols: [AdviceColumn; 3],
    pub chunk_rotate_convert_configs: Vec<ChunkRotateConversionConfig>,
    pub block_count_cols: [AdviceColumn; 3],
}

impl LaneRotateConversionConfig {
    /// The selector that is on on every row of the running sums.
    pub open spec fn q_running_sum(&self) -> Selector {
        self.chunk_rotate_convert_configs@[0].q_enable
    }

    /// The selector that is on on the last row of the running sums.
    pub open spec fn q_is_running_sum_final(&self) -> Selector {
        self.chunk_rotate_convert_configs@[0].b13_rs_config.is_final
    }

    /// Whether this is the conversion of a lane rotated by `rotation`, registered in a
    /// circuit that was `before`: six new advice columns, two new selectors that are not
    /// simple, and a chunk for each length of `chunk_steps`, in order, each with a table
    /// of its own.
    pub open spec fn is_lane_of(
        &self,
        q_enable: Selector,
        block_count_cols: [AdviceColumn; 3],
        rotation: u32,
        before: Circuit,
    ) -> bool {
        &&& self.q_enable == q_enable
        &&& self.block_count_cols == block_count_cols
        &&& forall|k: int| 0 <= k < 3 ==> advice_column_index(#[trigger] self.base_13_cols[k]) == before.advice_columns + k
        &&& forall|k: int| 0 <= k < 3 ==> advice_column_index(#[trigger] self.base_9_cols[k]) == before.advice_columns + 3 + k
        &&& self.chunk_rotate_convert_configs@.len() == chunk_steps(rotation as int).len()
        &&& self.chunk_rotate_convert_configs@.len() > 0
        &&& selector_index(self.q_is_running_sum_final()) == before.selectors
        &&& selector_index(self.q_running_sum()) == before.selectors + 1
        &&& !selector_is_simple(self.q_is_running_sum_final())
        &&& !selector_is_simple(self.q_running_sum())
        &&& forall|i: int|
            0 <= i < self.chunk_rotate_convert_configs@.len() ==> {
                &&& (#[trigger] self.chunk_rotate_convert_configs@[i]).step() == chunk_steps(rotation as int)[i]
                &&& self.chunk_rotate_convert_configs@[i].is_chunk_of(
                    self.q_running_sum(),
                    self.q_is_running_sum_final(),
                    self.base_13_cols,
                    self.base_9_cols,
                    self.block_count_cols,
                    self.chunk_rotate_convert_configs@[i].step(),
                    before.fixed_columns + 3 * i as nat,
                )
            }
    }

    /// What `configure` turns a circuit into: the chunks, registered one after the other
    /// in a circuit with six more advice columns and two more selectors.
    pub open spec fn registered(&self, before: Circuit) -> Circuit {
        chunks_registered(
            self.chunk_rotate_convert_configs@,
            Circuit { advice_columns: before.advice_columns + 6, selectors: before.selectors + 2, ..before },
        )
    }

    /// Allocates the columns and selectors of a lane rotated by `keccak_rotation`, cuts
    /// the lane into chunks and registers the conversion of each. The columns of the
    /// block counts, which lanes may share, must be columns of `meta`.
    pub fn configure(
        q_enable: Selector,
        meta: &mut CircuitBuilder,
        block_count_cols: [AdviceColumn; 3],
        keccak_rotation: u32,
    ) -> (config: Self)
        requires
            all_allocated(block_count_cols, circuit_of(*old(meta)).advice_columns),
        ensures
            config.is_lane_of(q_enable, block_count_cols, keccak_rotation, circuit_of(*old(meta))),
            circuit_of(*final(meta)) == config.registered(circuit_of(*old(meta))),
            circuit_of(*final(meta)) == (Circuit {
                advice_columns: circuit_of(*old(meta)).advice_columns + 6,
                fixed_columns: circuit_of(*old(meta)).fixed_columns + 3 * config.chunk_rotate_convert_configs@.len(),
                selectors: circuit_of(*old(meta)).selectors + 2,
                gates: circuit_of(*old(meta)).gates + config.gates(),
                lookups: circuit_of(*old(meta)).lookups + config.lookups(),
            }),
    {
        let base_13_cols = [meta.advice_column(), meta.advice_column(), meta.advice_column()];
        let base_9_cols = [meta.advice_column(), meta.advice_column(), meta.advice_column()];

        let q_is_running_sum_final = meta.complex_selector();
        let q_running_sum = meta.complex_selector();

        let ghost before = circuit_of(*old(meta));
        let ghost start = circuit_of(*meta);
        let ghost steps = chunk_steps(keccak_rotation as int);

        let mut chunk_idx: u32 = 1;
        let mut chunk_rotate_convert_configs: Vec<ChunkRotateConversionConfig> = Vec::new();

        while chunk_idx < 64
            invariant
                1 <= chunk_idx <= 64,
                chunk_idx < keccak_rotation && chunk_idx < 64 ==> chunk_idx % 4 == 1,
                !selector_is_simple(q_is_running_sum_final),
                !selector_is_simple(q_running_sum),
                circuit_of(*meta).advice_columns == start.advice_columns,
                all_allocated(base_13_cols, start.advice_columns),
                all_allocated(base_9_cols, start.advice_columns),
                all_allocated(block_count_cols, start.advice_columns),
                steps == chunk_steps(keccak_rotation as int),
                chunk_rotate_convert_configs@.len() <= steps.len(),
                steps.skip(chunk_rotate_convert_configs@.len() as int) == steps_from(
                    chunk_idx as int,
                    keccak_rotation as int,
                ),
                forall|i: int|
                    0 <= i < chunk_rotate_convert_configs@.len() ==> {
                        &&& (#[trigger] chunk_rotate_convert_configs@[i]).step() == steps[i]
                        &&& chunk_rotate_convert_configs@[i].is_chunk_of(
                            q_running_sum,
                            q_is_running_sum_final,
                            base_13_cols,
                            base_9_cols,
                            block_count_cols,
                            chunk_rotate_convert_configs@[i].step(),
                            start.fixed_columns + 3 * i as nat,
                        )
                    },
                circuit_of(*meta) == chunks_registered(chunk_rotate_convert_configs@, start),
                circuit_of(*meta).fixed_columns == start.fixed_columns + 3 * chunk_rotate_convert_configs@.len(),
            decreases 64 - chunk_idx,
        {
            let step = get_step_size(chunk_idx, keccak_rotation);
            let ghost done = chunk_rotate_convert_configs@;
            let ghost rest = steps.skip(done.len() as int);
            proof {
                assert(rest.len() > 0);
                assert(rest[0] == step);
                assert(steps[done.len() as int] == rest[0]);
                assert(steps.skip(done.len() + 1 as int) =~= rest.skip(1));
                assert(rest.skip(1) =~= steps_from(chunk_idx + step, keccak_rotation as int));
            }
            let config = ChunkRotateConversionConfig::configure(
                q_running_sum,
                q_is_running_sum_final,
                meta,
                base_13_cols,
                base_9_cols,
                block_count_cols,
                step,
            );
            chunk_idx += step;
            chunk_rotate_convert_configs.push(config);
            proof {
                assert(chunk_rotate_convert_configs@.drop_last() =~= done);
                assert(chunk_rotate_convert_configs@.last() == config);
            }
        }
        proof {
            assert(steps_from(chunk_idx as int, keccak_rotation as int).len() == 0);
            assert(chunk_rotate_convert_configs@.len() == steps.len());
            assert(steps.len() > 0);
        }

        let config = Self { q_enable, base_13_cols, base_9_cols, chunk_rotate_convert_configs, block_count_cols };
        proof {
            lemma_lane_registered(config, before);
        }
        config
    }
}

} // verus!
