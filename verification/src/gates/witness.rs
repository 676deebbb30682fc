//! What the gates force on a witness: for each gate, the relation between the cells of
//! a row and the next that holds exactly where its polynomials are zero, and what
//! follows for a run of rows.

use vstd::prelude::*;
use vstd::arithmetic::div_mod::lemma_small_mod;
use vstd::arithmetic::power::pow;
use halo2_proofs::plonk::{Selector, TableColumn};
use crate::field::{
    congruent, is_prime, lemma_congruent_is_compatible, lemma_congruent_is_equivalence,
    lemma_congruent_residues_are_equal, lemma_negation_vanishes, lemma_prime_divides_factor,
    lemma_product_vanishes, lemma_sum_vanishes,
};
use crate::gates::running_sum::{
    range_poly, BlockCountAccConfig, BlockCountFinalConfig, RunningSumConfig, STEP2_RANGE, STEP3_RANGE,
};
use crate::gates::tables::Base13toBase9TableConfig;
use crate::plonk::{advice_column_index, selector_index, table_column_index, AdviceColumn, LookupInputs};
use crate::poly::{lookup_finds, lookup_holds, Poly, Witness};

verus! {

/// The value that the witness gives the cell of `column` on `row`.
pub open spec fn cell(w: Witness, column: AdviceColumn, row: int) -> int {
    (w.advice)(advice_column_index(column), row)
}

/// The value that the witness gives the cell of the table column `column` on `row`.
pub open spec fn table_cell(w: Witness, column: TableColumn, row: int) -> int {
    (w.fixed)(table_column_index(column), row)
}

/// Whether the witness enables `selector` on `row`.
pub open spec fn enabled(w: Witness, selector: Selector, row: int) -> bool {
    (w.selectors)(selector_index(selector), row)
}

impl RunningSumConfig {
    /// The weight of one chunk: `base` to the power of `step`.
    pub open spec fn weight(&self) -> int {
        pow(self.base as int, self.step as nat)
    }

    /// The term that a row takes from the accumulator: `coef * slice`.
    pub open spec fn term(&self, w: Witness, row: int) -> int {
        cell(w, self.coef, row) * cell(w, self.slice, row)
    }

    /// What is left of the accumulator of `row` after its term: `acc - coef * slice`.
    pub open spec fn remainder(&self, w: Witness, row: int) -> int {
        cell(w, self.accumulator, row) - self.term(w, row)
    }

    /// What the running sum asks of `row` where it is enabled: the next slice is this
    /// one times the weight; on the final row nothing is left of the accumulator, on any
    /// other row what is left is the next accumulator.
    pub open spec fn row_relation(&self, w: Witness, row: int, p: int) -> bool {
        enabled(w, self.q_enable, row) ==> {
            &&& !enabled(w, self.is_final, row) ==> congruent(
                cell(w, self.accumulator, row + 1),
                self.remainder(w, row),
                p,
            )
            &&& enabled(w, self.is_final, row) ==> congruent(self.remainder(w, row), 0, p)
            &&& congruent(cell(w, self.slice, row + 1), cell(w, self.slice, row) * self.weight(), p)
        }
    }

    /// The sum of the terms of `rows` rows from `first` on.
    pub open spec fn sum_of_terms(&self, w: Witness, first: int, rows: nat) -> int
        decreases rows,
    {
        if rows == 0 {
            0
        } else {
            self.term(w, first) + self.sum_of_terms(w, first + 1, (rows - 1) as nat)
        }
    }

    /// Whether the running sum is enabled on the `rows` rows from `first` on, with the
    /// last of them as its final row, and its gate holds on each of them.
    pub open spec fn holds_on_run(&self, w: Witness, first: int, rows: nat, p: int) -> bool {
        forall|i: int|
            0 <= i < rows ==> {
                &&& #[trigger] self.gate().holds(w, first + i, p)
                &&& enabled(w, self.q_enable, first + i)
                &&& enabled(w, self.is_final, first + i) == (i == rows - 1)
            }
    }
}

/// The polynomials of a running sum are zero on a row exactly where the row relation
/// holds: in particular they ask nothing of a row on which the sum is not enabled.
pub proof fn lemma_running_sum_row(config: RunningSumConfig, w: Witness, row: int, p: int)
    requires
        p > 0,
    ensures
        config.gate().holds(w, row, p) == config.row_relation(w, row, p),
{
    reveal_with_fuel(Poly::eval, 10);
    let q: int = if enabled(w, config.q_enable, row) { 1 } else { 0 };
    let f: int = if enabled(w, config.is_final, row) { 1 } else { 0 };
    let rem = config.remainder(w, row);
    let next_acc = cell(w, config.accumulator, row + 1);
    let next_slice = cell(w, config.slice, row + 1);
    let scaled = cell(w, config.slice, row) * config.weight();
    let constraints = config.gate().constraints;
    let e0 = constraints[0].poly.eval(w, row);
    let e1 = constraints[1].poly.eval(w, row);
    let e2 = constraints[2].poly.eval(w, row);
    assert(e0 == q * ((f - 1) * (next_acc - rem)));
    assert(e1 == q * (f * rem));
    assert(e2 == q * (next_slice - scaled));
    lemma_small_mod(0, p as nat);
    if q == 0 {
        assert(e0 == 0 && e1 == 0 && e2 == 0) by (nonlinear_arith)
            requires
                q == 0,
                e0 == q * ((f - 1) * (next_acc - rem)),
                e1 == q * (f * rem),
                e2 == q * (next_slice - scaled),
        ;
    } else if f == 0 {
        assert(e0 == -(next_acc - rem) && e1 == 0 && e2 == next_slice - scaled) by (nonlinear_arith)
            requires
                q == 1,
                f == 0,
                e0 == q * ((f - 1) * (next_acc - rem)),
                e1 == q * (f * rem),
                e2 == q * (next_slice - scaled),
        ;
        lemma_negation_vanishes(next_acc - rem, p);
    } else {
        assert(e0 == 0 && e1 == rem && e2 == next_slice - scaled) by (nonlinear_arith)
            requires
                q == 1,
                f == 1,
                e0 == q * ((f - 1) * (next_acc - rem)),
                e1 == q * (f * rem),
                e2 == q * (next_slice - scaled),
        ;
    }
    if config.row_relation(w, row, p) {
        assert forall|i: int| 0 <= i < constraints.len() implies (#[trigger] constraints[i]).poly.vanishes(
            w,
            row,
            p,
        ) by {
            assert(i == 0 || i == 1 || i == 2);
        }
    }
    if config.gate().holds(w, row, p) {
        assert(constraints[0].poly.vanishes(w, row, p));
        assert(constraints[1].poly.vanishes(w, row, p));
        assert(constraints[2].poly.vanishes(w, row, p));
    }
}

/// On a run of rows that ends in the final row, the accumulator of the first row is the
/// sum of the terms of all rows, and nothing is left of the accumulator of the last row
/// after its term.
pub proof fn lemma_running_sum_reconstructs(config: RunningSumConfig, w: Witness, first: int, rows: nat, p: int)
    requires
        p > 0,
        rows > 0,
        config.holds_on_run(w, first, rows, p),
    ensures
        congruent(cell(w, config.accumulator, first), config.sum_of_terms(w, first, rows), p),
        congruent(config.remainder(w, first + rows - 1), 0, p),
    decreases rows,
{
    assert(config.gate().holds(w, first + 0, p));
    lemma_running_sum_row(config, w, first, p);
    let acc = cell(w, config.accumulator, first);
    let term = config.term(w, first);
    if rows == 1 {
        assert(config.sum_of_terms(w, first + 1, 0) == 0);
        assert(config.sum_of_terms(w, first, 1) == term);
        assert(acc - term - 0 == acc - term);
    } else {
        assert forall|i: int| 0 <= i < rows - 1 implies {
            &&& #[trigger] config.gate().holds(w, first + 1 + i, p)
            &&& enabled(w, config.q_enable, first + 1 + i)
            &&& enabled(w, config.is_final, first + 1 + i) == (i == rows - 1 - 1)
        } by {
            assert(config.gate().holds(w, first + (i + 1), p));
            assert(first + 1 + i == first + (i + 1));
        }
        lemma_running_sum_reconstructs(config, w, first + 1, (rows - 1) as nat, p);
        let next_acc = cell(w, config.accumulator, first + 1);
        let rest = config.sum_of_terms(w, first + 1, (rows - 1) as nat);
        // next_acc = acc - term and next_acc = rest, so acc = term + rest
        lemma_congruent_is_equivalence(next_acc, acc - term, rest, p);
        lemma_congruent_is_equivalence(acc - term, next_acc, rest, p);
        assert(congruent(acc - term, rest, p));
        assert((acc - term) - rest == acc - (term + rest));
        assert(first + 1 + (rows - 1) - 1 == first + rows - 1);
    }
}

/// On a run of rows the slice of each row is the slice of the first row times the
/// weight to the power of the row's distance from it.
pub proof fn lemma_running_sum_slices(config: RunningSumConfig, w: Witness, first: int, rows: nat, i: nat, p: int)
    requires
        p > 0,
        i < rows,
        config.holds_on_run(w, first, rows, p),
    ensures
        congruent(cell(w, config.slice, first + i), cell(w, config.slice, first) * pow(config.weight(), i), p),
    decreases i,
{
    let slice0 = cell(w, config.slice, first);
    if i == 0 {
        reveal(pow);
        assert(slice0 * pow(config.weight(), 0) == slice0) by (nonlinear_arith)
            requires
                pow(config.weight(), 0) == 1,
        ;
        lemma_congruent_is_equivalence(slice0, slice0, slice0, p);
    } else {
        let j = (i - 1) as nat;
        lemma_running_sum_slices(config, w, first, rows, j, p);
        assert(config.gate().holds(w, first + j, p));
        lemma_running_sum_row(config, w, first + j, p);
        let prev = cell(w, config.slice, first + j);
        let this = cell(w, config.slice, first + i);
        assert(first + j + 1 == first + i);
        let weight = config.weight();
        // prev = slice0 * weight^j, so prev * weight = slice0 * weight^j * weight
        lemma_congruent_is_compatible(prev, slice0 * pow(weight, j), weight, p);
        crate::arith_helpers::lemma_pow_next(weight, j);
        assert(slice0 * pow(weight, j) * weight == slice0 * pow(weight, i)) by (nonlinear_arith)
            requires
                pow(weight, i) == pow(weight, j) * weight,
        ;
        lemma_congruent_is_equivalence(this, prev * weight, slice0 * pow(weight, i), p);
    }
}

impl BlockCountAccConfig {
    /// The block count of `row`.
    pub open spec fn block_count(&self, w: Witness, row: int) -> int {
        cell(w, self.block_count_cols[0], row)
    }

    /// What the total of the chunks of two digits gains from `row` to the next.
    pub open spec fn step2_gain(&self, w: Witness, row: int) -> int {
        cell(w, self.block_count_cols[1], row + 1) - cell(w, self.block_count_cols[1], row)
    }

    /// What the total of the chunks of three digits gains from `row` to the next.
    pub open spec fn step3_gain(&self, w: Witness, row: int) -> int {
        cell(w, self.block_count_cols[2], row + 1) - cell(w, self.block_count_cols[2], row)
    }

    /// What the accumulator asks of `row` where it is enabled: a chunk of one digit has
    /// block count zero and neither total gains; a chunk of two digits adds its block
    /// count to the first total and a chunk of three digits to the second, while the
    /// other total stays.
    pub open spec fn row_relation(&self, w: Witness, row: int, p: int) -> bool {
        enabled(w, self.q_enable, row) ==> if self.step == 1 {
            &&& congruent(self.block_count(w, row), 0, p)
            &&& congruent(self.step2_gain(w, row), 0, p)
            &&& congruent(self.step3_gain(w, row), 0, p)
        } else if self.step == 2 {
            &&& congruent(self.step2_gain(w, row), self.block_count(w, row), p)
            &&& congruent(self.step3_gain(w, row), 0, p)
        } else {
            &&& congruent(self.step2_gain(w, row), 0, p)
            &&& congruent(self.step3_gain(w, row), self.block_count(w, row), p)
        }
    }
}

/// The polynomials of a block count step are zero on a row exactly where the row
/// relation holds.
pub proof fn lemma_block_count_row(config: BlockCountAccConfig, w: Witness, row: int, p: int)
    requires
        p > 0,
        1 <= config.step <= 3,
    ensures
        config.gate().holds(w, row, p) == config.row_relation(w, row, p),
{
    reveal_with_fuel(Poly::eval, 10);
    let q: int = if enabled(w, config.q_enable, row) { 1 } else { 0 };
    let count = config.block_count(w, row);
    let gain2 = config.step2_gain(w, row);
    let gain3 = config.step3_gain(w, row);
    let constraints = config.gate().constraints;
    lemma_small_mod(0, p as nat);
    let e0 = constraints[0].poly.eval(w, row);
    let e1 = constraints[1].poly.eval(w, row);
    if config.step == 1 {
        let e2 = constraints[2].poly.eval(w, row);
        assert(e0 == q * count && e1 == q * gain2 && e2 == q * gain3);
        assert(q == 0 ==> e0 == 0 && e1 == 0 && e2 == 0) by (nonlinear_arith)
            requires
                e0 == q * count && e1 == q * gain2 && e2 == q * gain3,
        ;
        assert(q == 1 ==> e0 == count - 0 && e1 == gain2 - 0 && e2 == gain3 - 0) by (nonlinear_arith)
            requires
                e0 == q * count && e1 == q * gain2 && e2 == q * gain3,
        ;
        if config.gate().holds(w, row, p) {
            assert(constraints[0].poly.vanishes(w, row, p));
            assert(constraints[1].poly.vanishes(w, row, p));
            assert(constraints[2].poly.vanishes(w, row, p));
        }
        if config.row_relation(w, row, p) {
            assert forall|i: int| 0 <= i < constraints.len() implies (#[trigger] constraints[i]).poly.vanishes(
                w,
                row,
                p,
            ) by {
                assert(i == 0 || i == 1 || i == 2);
            }
        }
    } else {
        let d2 = if config.step == 2 { gain2 - count } else { gain2 - 0 };
        let d3 = if config.step == 2 { gain3 - 0 } else { gain3 - count };
        assert(e0 == q * d2 && e1 == q * d3);
        assert(q == 0 ==> e0 == 0 && e1 == 0) by (nonlinear_arith)
            requires
                e0 == q * d2 && e1 == q * d3,
        ;
        assert(q == 1 ==> e0 == d2 && e1 == d3) by (nonlinear_arith)
            requires
                e0 == q * d2 && e1 == q * d3,
        ;
        if config.gate().holds(w, row, p) {
            assert(constraints[0].poly.vanishes(w, row, p));
            assert(constraints[1].poly.vanishes(w, row, p));
        }
        if config.row_relation(w, row, p) {
            assert forall|i: int| 0 <= i < constraints.len() implies (#[trigger] constraints[i]).poly.vanishes(
                w,
                row,
                p,
            ) by {
                assert(i == 0 || i == 1);
            }
        }
    }
}

impl BlockCountAccConfig {
    /// The sum of the block counts of `rows` rows from `first` on.
    pub open spec fn sum_of_block_counts(&self, w: Witness, first: int, rows: nat) -> int
        decreases rows,
    {
        if rows == 0 {
            0
        } else {
            self.sum_of_block_counts(w, first, (rows - 1) as nat) + self.block_count(w, first + rows - 1)
        }
    }

    /// Whether the accumulator is enabled on the `rows` rows from `first` on and its
    /// gate holds on each of them.
    pub open spec fn holds_on_run(&self, w: Witness, first: int, rows: nat, p: int) -> bool {
        forall|i: int|
            0 <= i < rows ==> {
                &&& #[trigger] self.gate().holds(w, first + i, p)
                &&& enabled(w, self.q_enable, first + i)
            }
    }
}

/// Over a run of rows the total that belongs to the accumulator's step gains the sum of
/// the block counts of the rows, and the other total stays as it is; for a step of one
/// digit both stay.
pub proof fn lemma_block_counts_accumulate(config: BlockCountAccConfig, w: Witness, first: int, rows: nat, p: int)
    requires
        p > 0,
        1 <= config.step <= 3,
        config.holds_on_run(w, first, rows, p),
    ensures
        ({
            let step2_gain = cell(w, config.block_count_cols[1], first + rows) - cell(w, config.block_count_cols[1], first);
            let step3_gain = cell(w, config.block_count_cols[2], first + rows) - cell(w, config.block_count_cols[2], first);
            let counted = config.sum_of_block_counts(w, first, rows);
            &&& congruent(step2_gain, if config.step == 2 { counted } else { 0 }, p)
            &&& congruent(step3_gain, if config.step == 3 { counted } else { 0 }, p)
        }),
    decreases rows,
{
    lemma_small_mod(0, p as nat);
    if rows > 0 {
        let before = (rows - 1) as nat;
        let last = first + before;
        assert forall|i: int| 0 <= i < before implies {
            &&& #[trigger] config.gate().holds(w, first + i, p)
            &&& enabled(w, config.q_enable, first + i)
        } by {}
        lemma_block_counts_accumulate(config, w, first, before, p);
        assert(config.gate().holds(w, first + before, p));
        lemma_block_count_row(config, w, last, p);
        assert(last + 1 == first + rows);
        let counted = config.sum_of_block_counts(w, first, before);
        let count = config.block_count(w, last);
        let gain2 = cell(w, config.block_count_cols[1], last) - cell(w, config.block_count_cols[1], first);
        let gain3 = cell(w, config.block_count_cols[2], last) - cell(w, config.block_count_cols[2], first);
        let add2 = if config.step == 2 { count } else { 0 };
        let add3 = if config.step == 3 { count } else { 0 };
        let so_far2 = if config.step == 2 { counted } else { 0 };
        let so_far3 = if config.step == 3 { counted } else { 0 };
        assert(congruent(config.step2_gain(w, last), add2, p));
        assert(congruent(config.step3_gain(w, last), add3, p));
        lemma_sum_vanishes(gain2 - so_far2, config.step2_gain(w, last) - add2, p);
        lemma_sum_vanishes(gain3 - so_far3, config.step3_gain(w, last) - add3, p);
    }
}

/// The product `(total - 0) * (total - 1) * ... * (total - bound)`.
pub open spec fn product_of_differences(total: int, bound: nat) -> int
    decreases bound,
{
    if bound == 0 {
        total - 0
    } else {
        product_of_differences(total, (bound - 1) as nat) * (total - bound)
    }
}

/// Whether `total` is, in the field of `p` elements, one of `0, ..., bound`.
pub open spec fn in_range(total: int, bound: nat, p: int) -> bool {
    exists|v: int| 0 <= v <= bound && #[trigger] congruent(total, v, p)
}

/// The range polynomial of a total evaluates to the product of the differences between
/// the total's value and each number of the range.
pub proof fn lemma_range_poly_eval(total: Poly, bound: nat, w: Witness, row: int)
    ensures
        range_poly(total, bound).eval(w, row) == product_of_differences(total.eval(w, row), bound),
    decreases bound,
{
    reveal_with_fuel(Poly::eval, 4);
    if bound > 0 {
        lemma_range_poly_eval(total, (bound - 1) as nat, w, row);
    }
}

/// In a prime field the product of the differences is zero exactly where the total is
/// one of `0, ..., bound`.
pub proof fn lemma_product_of_differences_vanishes(total: int, bound: nat, p: int)
    requires
        is_prime(p),
    ensures
        (product_of_differences(total, bound) % p == 0) == in_range(total, bound, p),
    decreases bound,
{
    let product = product_of_differences(total, bound);
    if bound == 0 {
        if product % p == 0 {
            assert(congruent(total, 0, p));
        }
        if in_range(total, bound, p) {
            let v = choose|v: int| 0 <= v <= bound && #[trigger] congruent(total, v, p);
            assert(v == 0);
        }
    } else {
        let below = (bound - 1) as nat;
        let head = product_of_differences(total, below);
        let last = total - bound;
        lemma_product_of_differences_vanishes(total, below, p);
        if product % p == 0 {
            lemma_prime_divides_factor(head, last, p);
            if head % p == 0 {
                let v = choose|v: int| 0 <= v <= below && #[trigger] congruent(total, v, p);
                assert(0 <= v <= bound && congruent(total, v, p));
            } else {
                assert(congruent(total, bound as int, p));
            }
        }
        if in_range(total, bound, p) {
            let v = choose|v: int| 0 <= v <= bound && #[trigger] congruent(total, v, p);
            if v == bound {
                assert(last % p == 0);
            } else {
                assert(0 <= v <= below && congruent(total, v, p));
                assert(head % p == 0);
            }
            lemma_product_vanishes(head, last, p);
        }
    }
}

/// A total in `0..p` that is, in the field of `p` elements, one of `0, ..., bound` is one
/// of them as an integer too.
pub proof fn lemma_in_range_residue(total: int, bound: nat, p: int)
    requires
        p > bound,
        0 <= total < p,
        in_range(total, bound, p),
    ensures
        total <= bound,
{
    let v = choose|v: int| 0 <= v <= bound && #[trigger] congruent(total, v, p);
    lemma_congruent_residues_are_equal(total, v, p);
}

impl BlockCountFinalConfig {
    /// The total of the block counts of the chunks of two digits on `row`.
    pub open spec fn step2_total(&self, w: Witness, row: int) -> int {
        cell(w, self.block_count_cols[1], row)
    }

    /// The total of the block counts of the chunks of three digits on `row`.
    pub open spec fn step3_total(&self, w: Witness, row: int) -> int {
        cell(w, self.block_count_cols[2], row)
    }

    /// What the final check asks of `row` where it is enabled: the first total is one of
    /// `0, ..., 12` and the second one of `0, ..., 169`.
    pub open spec fn row_relation(&self, w: Witness, row: int, p: int) -> bool {
        enabled(w, self.q_enable, row) ==> {
            &&& in_range(self.step2_total(w, row), STEP2_RANGE as nat, p)
            &&& in_range(self.step3_total(w, row), STEP3_RANGE as nat, p)
        }
    }
}

/// In a prime field the polynomials of the final check are zero on a row exactly where
/// the row relation holds.
pub proof fn lemma_block_count_final_row(config: BlockCountFinalConfig, w: Witness, row: int, p: int)
    requires
        is_prime(p),
    ensures
        config.gate().holds(w, row, p) == config.row_relation(w, row, p),
{
    reveal_with_fuel(Poly::eval, 3);
    let q: int = if enabled(w, config.q_enable, row) { 1 } else { 0 };
    let total2 = config.step2_total(w, row);
    let total3 = config.step3_total(w, row);
    let product2 = product_of_differences(total2, STEP2_RANGE as nat);
    let product3 = product_of_differences(total3, STEP3_RANGE as nat);
    let constraints = config.gate().constraints;
    let e0 = constraints[0].poly.eval(w, row);
    let e1 = constraints[1].poly.eval(w, row);
    lemma_range_poly_eval(crate::plonk::advice_poly(config.block_count_cols[1], 0), STEP2_RANGE as nat, w, row);
    lemma_range_poly_eval(crate::plonk::advice_poly(config.block_count_cols[2], 0), STEP3_RANGE as nat, w, row);
    assert(e0 == q * product2 && e1 == q * product3);
    assert(q == 0 ==> e0 == 0 && e1 == 0) by (nonlinear_arith)
        requires
            e0 == q * product2 && e1 == q * product3,
    ;
    assert(q == 1 ==> e0 == product2 && e1 == product3) by (nonlinear_arith)
        requires
            e0 == q * product2 && e1 == q * product3,
    ;
    lemma_small_mod(0, p as nat);
    lemma_product_of_differences_vanishes(total2, STEP2_RANGE as nat, p);
    lemma_product_of_differences_vanishes(total3, STEP3_RANGE as nat, p);
    if config.gate().holds(w, row, p) {
        assert(constraints[0].poly.vanishes(w, row, p));
        assert(constraints[1].poly.vanishes(w, row, p));
    }
    if config.row_relation(w, row, p) {
        assert forall|i: int| 0 <= i < constraints.len() implies (#[trigger] constraints[i]).poly.vanishes(
            w,
            row,
            p,
        ) by {
            assert(i == 0 || i == 1);
        }
    }
}

/// In a prime field with more than 170 elements, a witness whose totals are residues
/// passes the final check of an enabled row exactly where the first total is at most 12
/// and the second at most 169: a total beyond its range leaves a polynomial of the check
/// that is not zero.
pub proof fn lemma_block_count_final_bounds(config: BlockCountFinalConfig, w: Witness, row: int, p: int)
    requires
        is_prime(p),
        p > STEP3_RANGE,
        enabled(w, config.q_enable, row),
        0 <= config.step2_total(w, row) < p,
        0 <= config.step3_total(w, row) < p,
    ensures
        config.gate().holds(w, row, p) == (config.step2_total(w, row) <= STEP2_RANGE && config.step3_total(w, row)
            <= STEP3_RANGE),
        config.step2_total(w, row) > STEP2_RANGE ==> !config.gate().constraints[0].poly.vanishes(w, row, p),
        config.step3_total(w, row) > STEP3_RANGE ==> !config.gate().constraints[1].poly.vanishes(w, row, p),
{
    let total2 = config.step2_total(w, row);
    let total3 = config.step3_total(w, row);
    lemma_block_count_final_row(config, w, row, p);
    lemma_congruent_is_equivalence(total2, total2, total2, p);
    lemma_congruent_is_equivalence(total3, total3, total3, p);
    if in_range(total2, STEP2_RANGE as nat, p) {
        lemma_in_range_residue(total2, STEP2_RANGE as nat, p);
    }
    if in_range(total3, STEP3_RANGE as nat, p) {
        lemma_in_range_residue(total3, STEP3_RANGE as nat, p);
    }
    if total2 <= STEP2_RANGE {
        assert(congruent(total2, total2, p));
    }
    if total3 <= STEP3_RANGE {
        assert(congruent(total3, total3, p));
    }
    // each polynomial by itself
    reveal_with_fuel(Poly::eval, 3);
    lemma_range_poly_eval(crate::plonk::advice_poly(config.block_count_cols[1], 0), STEP2_RANGE as nat, w, row);
    lemma_range_poly_eval(crate::plonk::advice_poly(config.block_count_cols[2], 0), STEP3_RANGE as nat, w, row);
    lemma_product_of_differences_vanishes(total2, STEP2_RANGE as nat, p);
    lemma_product_of_differences_vanishes(total3, STEP3_RANGE as nat, p);
    let product2 = product_of_differences(total2, STEP2_RANGE as nat);
    let product3 = product_of_differences(total3, STEP3_RANGE as nat);
    assert(config.gate().constraints[0].poly.eval(w, row) == 1 * product2);
    assert(config.gate().constraints[1].poly.eval(w, row) == 1 * product3);
    assert(1 * product2 == product2 && 1 * product3 == product3) by (nonlinear_arith);
}

impl Base13toBase9TableConfig {
    /// Whether row `table_row` of the table is, in the field of `p` elements, the three
    /// values `base13`, `base9` and `block_count`.
    pub open spec fn row_is(&self, w: Witness, table_row: int, base13: int, base9: int, block_count: int, p: int) -> bool {
        &&& congruent(base13, table_cell(w, self.base13, table_row), p)
        &&& congruent(base9, table_cell(w, self.base9, table_row), p)
        &&& congruent(block_count, table_cell(w, self.block_count, table_row), p)
    }

    /// What the lookup asks of `row`: where it is enabled, the three advice cells of the
    /// row are one row of the table; where it is not, the table has a row of zeros.
    pub open spec fn row_relation(&self, w: Witness, row: int, p: int) -> bool {
        exists|table_row: int| #[trigger]
            self.row_is(
                w,
                table_row,
                self.input(w, self.base13_advice, row),
                self.input(w, self.base9_advice, row),
                self.input(w, self.block_count_advice, row),
                p,
            )
    }

    /// The value that is looked up for `column` on `row`: that of its cell where the
    /// lookup is enabled, zero where it is not.
    pub open spec fn input(&self, w: Witness, column: AdviceColumn, row: int) -> int {
        if enabled(w, self.q_enable, row) {
            cell(w, column, row)
        } else {
            0
        }
    }
}

/// The lookup holds on a row exactly where the row relation holds.
pub proof fn lemma_lookup_row(config: Base13toBase9TableConfig, w: Witness, row: int, p: int)
    requires
        p > 0,
    ensures
        lookup_holds(config.inputs_spec(), w, row, p) == config.row_relation(w, row, p),
{
    reveal_with_fuel(Poly::eval, 3);
    let inputs = config.inputs_spec();
    let on = enabled(w, config.q_enable, row);
    let q: int = if on { 1 } else { 0 };
    let a = cell(w, config.base13_advice, row);
    let b = cell(w, config.base9_advice, row);
    let c = cell(w, config.block_count_advice, row);
    let va = config.input(w, config.base13_advice, row);
    let vb = config.input(w, config.base9_advice, row);
    let vc = config.input(w, config.block_count_advice, row);
    assert(inputs[0].input.eval(w, row) == q * a);
    assert(inputs[1].input.eval(w, row) == q * b);
    assert(inputs[2].input.eval(w, row) == q * c);
    assert(q * a == va && q * b == vb && q * c == vc) by (nonlinear_arith)
        requires
            q == 0 || q == 1,
            va == (if q == 1 { a } else { 0 }),
            vb == (if q == 1 { b } else { 0 }),
            vc == (if q == 1 { c } else { 0 }),
    ;
    assert forall|t: int| lookup_finds(inputs, w, row, t, p) == config.row_is(w, t, va, vb, vc, p) by {
        if lookup_finds(inputs, w, row, t, p) {
            assert((inputs[0].input.eval(w, row) - (w.fixed)(inputs[0].table_column, t)) % p == 0);
            assert((inputs[1].input.eval(w, row) - (w.fixed)(inputs[1].table_column, t)) % p == 0);
            assert((inputs[2].input.eval(w, row) - (w.fixed)(inputs[2].table_column, t)) % p == 0);
        }
        if config.row_is(w, t, va, vb, vc, p) {
            assert forall|k: int| 0 <= k < inputs.len() implies ((#[trigger] inputs[k]).input.eval(w, row) - (
            w.fixed)(inputs[k].table_column, t)) % p == 0 by {
                assert(k == 0 || k == 1 || k == 2);
            }
        }
    }
    if lookup_holds(inputs, w, row, p) {
        let t = choose|t: int| #[trigger] lookup_finds(inputs, w, row, t, p);
        assert(config.row_is(w, t, va, vb, vc, p));
    }
    if config.row_relation(w, row, p) {
        let t = choose|t: int| #[trigger] config.row_is(w, t, va, vb, vc, p);
        assert(lookup_finds(inputs, w, row, t, p));
    }
}

} // verus!
