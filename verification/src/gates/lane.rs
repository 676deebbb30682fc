//! What holds of a whole lane: how its chunks tile it, what its conversion adds to a
//! circuit, and what its running sums force on a witness.

use vstd::prelude::*;
use halo2_proofs::plonk::Selector;
use crate::field::congruent;
use crate::gates::running_sum::{
    chunk_steps, chunks_registered, step_size, steps_from, ChunkRotateConversionConfig,
    LaneRotateConversionConfig, RunningSumConfig,
};
use crate::gates::witness::{
    cell, enabled, lemma_block_count_row, lemma_running_sum_reconstructs, lemma_running_sum_row,
};
use crate::plonk::AdviceColumn;
use crate::poly::{lookup_holds, Circuit, Gate, LookupInput, Witness};

verus! {

/// The sum of the lengths in `steps`.
pub open spec fn sum_of(steps: Seq<int>) -> int
    decreases steps.len(),
{
    if steps.len() == 0 {
        0
    } else {
        sum_of(steps.drop_last()) + steps.last()
    }
}

/// The bit at which chunk `i` of a lane starts, where the chunks have the lengths
/// `steps` and the first starts at bit 1. With `i` the number of chunks it is the bit
/// after the last chunk.
pub open spec fn chunk_start(steps: Seq<int>, i: int) -> int {
    1 + sum_of(steps.take(i))
}

/// The sum of a sequence with one more length in front.
proof fn lemma_sum_of_prepended(first: int, rest: Seq<int>)
    ensures
        sum_of(seq![first] + rest) == first + sum_of(rest),
    decreases rest.len(),
{
    let all = seq![first] + rest;
    if rest.len() == 0 {
        assert(all.drop_last() =~= Seq::<int>::empty());
        assert(sum_of(all.drop_last()) == 0);
    } else {
        assert(all.drop_last() =~= seq![first] + rest.drop_last());
        lemma_sum_of_prepended(first, rest.drop_last());
    }
}

/// What holds of the chunks from bit `chunk_idx` on, for a start that the partition of
/// a lane can reach.
proof fn lemma_steps_from(chunk_idx: int, rotation: int)
    requires
        1 <= chunk_idx <= 64,
        chunk_idx < rotation && chunk_idx < 64 ==> chunk_idx % 4 == 1,
    ensures
        ({
            let steps = steps_from(chunk_idx, rotation);
            &&& chunk_idx + sum_of(steps) == 64
            &&& forall|i: int|
                0 <= i < steps.len() ==> {
                    &&& 1 <= #[trigger] steps[i] <= 4
                    &&& steps[i] == step_size(chunk_idx + sum_of(steps.take(i)), rotation)
                    &&& steps[i] < 4 ==> {
                        ||| chunk_idx + sum_of(steps.take(i + 1)) == rotation
                        ||| chunk_idx + sum_of(steps.take(i + 1)) == 64
                    }
                }
            &&& chunk_idx <= rotation <= 64 ==> exists|i: int|
                0 <= i <= steps.len() && chunk_idx + sum_of(#[trigger] steps.take(i)) == rotation
        }),
    decreases 64 - chunk_idx,
{
    let steps = steps_from(chunk_idx, rotation);
    if chunk_idx >= 64 {
        assert(steps.take(0) =~= steps);
    } else {
        let step = step_size(chunk_idx, rotation);
        let next = chunk_idx + step;
        let rest = steps_from(next, rotation);
        lemma_steps_from(next, rotation);
        assert(steps == seq![step] + rest);
        lemma_sum_of_prepended(step, rest);
        assert(steps.take(0) =~= Seq::<int>::empty());
        assert forall|i: int| 0 <= i < steps.len() implies {
            &&& 1 <= #[trigger] steps[i] <= 4
            &&& steps[i] == step_size(chunk_idx + sum_of(steps.take(i)), rotation)
            &&& steps[i] < 4 ==> {
                ||| chunk_idx + sum_of(steps.take(i + 1)) == rotation
                ||| chunk_idx + sum_of(steps.take(i + 1)) == 64
            }
        } by {
            assert(steps.take(i + 1) =~= seq![step] + rest.take(i));
            lemma_sum_of_prepended(step, rest.take(i));
            if i > 0 {
                assert(steps[i] == rest[i - 1]);
                assert(steps.take(i) =~= seq![step] + rest.take(i - 1));
                lemma_sum_of_prepended(step, rest.take(i - 1));
            } else {
                assert(rest.take(0) =~= Seq::<int>::empty());
            }
        }
        if chunk_idx <= rotation <= 64 {
            if rotation == chunk_idx {
                assert(chunk_idx + sum_of(steps.take(0)) == rotation);
            } else {
                assert(next <= rotation);
                let j = choose|j: int| 0 <= j <= rest.len() && next + sum_of(#[trigger] rest.take(j)) == rotation;
                assert(steps.take(j + 1) =~= seq![step] + rest.take(j));
                lemma_sum_of_prepended(step, rest.take(j));
                assert(chunk_idx + sum_of(steps.take(j + 1)) == rotation);
            }
        }
    }
}

/// The chunks of a lane tile the bits from 1 up to 64: the first starts at bit 1, each
/// has one to four bits and starts where the one before it ends, and the last ends at
/// bit 64. Each has the length that `step_size` gives for its start. A chunk of fewer
/// than four bits ends at the rotation position or at the end of the lane, and a
/// rotation position from 1 to 64 is where a chunk starts or the last one ends.
pub proof fn lemma_chunks_tile_lane(rotation: int)
    ensures
        ({
            let steps = chunk_steps(rotation);
            &&& chunk_start(steps, 0) == 1
            &&& chunk_start(steps, steps.len() as int) == 64
            &&& forall|i: int|
                0 <= i < steps.len() ==> {
                    &&& 1 <= #[trigger] steps[i] <= 4
                    &&& chunk_start(steps, i + 1) == chunk_start(steps, i) + steps[i]
                    &&& steps[i] == step_size(chunk_start(steps, i), rotation)
                    &&& steps[i] < 4 ==> {
                        ||| chunk_start(steps, i + 1) == rotation
                        ||| chunk_start(steps, i + 1) == 64
                    }
                }
            &&& 1 <= rotation <= 64 ==> exists|i: int|
                0 <= i <= steps.len() && #[trigger] chunk_start(steps, i) == rotation
        }),
{
    let steps = chunk_steps(rotation);
    lemma_steps_from(1, rotation);
    assert(steps.take(0) =~= Seq::<int>::empty());
    assert(steps.take(steps.len() as int) =~= steps);
    assert forall|i: int| 0 <= i < steps.len() implies chunk_start(steps, i + 1) == chunk_start(steps, i)
        + #[trigger] steps[i] by {
        assert(steps.take(i + 1).drop_last() =~= steps.take(i));
    }
    if 1 <= rotation <= 64 {
        let j = choose|j: int| 0 <= j <= steps.len() && 1 + sum_of(#[trigger] steps.take(j)) == rotation;
        assert(chunk_start(steps, j) == rotation);
    }
}

impl ChunkRotateConversionConfig {
    /// The gates of the chunk in the order in which they are registered: the running
    /// sum in base 13, that in base 9 and, where the chunk has one, its block count.
    pub open spec fn gates(&self) -> Seq<Gate> {
        let sums = seq![self.b13_rs_config.gate(), self.b9_rs_config.gate()];
        match self.block_count_acc_config {
            Some(acc) => sums.push(acc.gate()),
            None => sums,
        }
    }
}

/// The gates of the chunks, chunk after chunk.
pub open spec fn gates_of_chunks(chunks: Seq<ChunkRotateConversionConfig>) -> Seq<Gate>
    decreases chunks.len(),
{
    if chunks.len() == 0 {
        Seq::empty()
    } else {
        gates_of_chunks(chunks.drop_last()) + chunks.last().gates()
    }
}

/// The lookups of the chunks, one for each chunk.
pub open spec fn lookups_of_chunks(chunks: Seq<ChunkRotateConversionConfig>) -> Seq<Seq<LookupInput>> {
    chunks.map_values(
        |chunk: ChunkRotateConversionConfig|
            crate::plonk::LookupInputs::inputs_spec(&chunk.base_13_to_base_9_lookup),
    )
}

/// Registering chunks leaves the advice columns and selectors of a circuit as they are,
/// allocates three fixed columns for each chunk, and appends the lookups and the gates
/// of the chunks to those of the circuit.
pub proof fn lemma_chunks_registered(chunks: Seq<ChunkRotateConversionConfig>, before: Circuit)
    ensures
        chunks_registered(chunks, before) == (Circuit {
            advice_columns: before.advice_columns,
            fixed_columns: before.fixed_columns + 3 * chunks.len(),
            selectors: before.selectors,
            gates: before.gates + gates_of_chunks(chunks),
            lookups: before.lookups + lookups_of_chunks(chunks),
        }),
    decreases chunks.len(),
{
    let after = chunks_registered(chunks, before);
    if chunks.len() == 0 {
        assert(after.gates =~= before.gates + gates_of_chunks(chunks));
        assert(after.lookups =~= before.lookups + lookups_of_chunks(chunks));
    } else {
        let earlier = chunks.drop_last();
        let chunk = chunks.last();
        lemma_chunks_registered(earlier, before);
        let middle = chunks_registered(earlier, before);
        assert(after == chunk.registered(middle));
        assert(after.gates =~= before.gates + gates_of_chunks(chunks));
        assert(lookups_of_chunks(chunks) =~= lookups_of_chunks(earlier).push(
            crate::plonk::LookupInputs::inputs_spec(&chunk.base_13_to_base_9_lookup),
        ));
        assert(after.lookups =~= before.lookups + lookups_of_chunks(chunks));
    }
}

/// The gates of the chunks begin with the two running sums of the first chunk.
proof fn lemma_first_gates_of_chunks(chunks: Seq<ChunkRotateConversionConfig>)
    requires
        chunks.len() > 0,
    ensures
        gates_of_chunks(chunks).len() >= 2,
        gates_of_chunks(chunks)[0] == chunks[0].b13_rs_config.gate(),
        gates_of_chunks(chunks)[1] == chunks[0].b9_rs_config.gate(),
    decreases chunks.len(),
{
    if chunks.len() == 1 {
        assert(chunks.drop_last().len() == 0);
        assert(gates_of_chunks(chunks.drop_last()) =~= Seq::<Gate>::empty());
        assert(gates_of_chunks(chunks) =~= chunks[0].gates());
    } else {
        lemma_first_gates_of_chunks(chunks.drop_last());
    }
}

impl LaneRotateConversionConfig {
    /// The gates of the lane in the order in which they are registered.
    pub open spec fn gates(&self) -> Seq<Gate> {
        gates_of_chunks(self.chunk_rotate_convert_configs@)
    }

    /// The lookups of the lane in the order in which they are registered.
    pub open spec fn lookups(&self) -> Seq<Seq<LookupInput>> {
        lookups_of_chunks(self.chunk_rotate_convert_configs@)
    }

    /// Whether the running sums of the lane are enabled on the `rows` rows from `first`
    /// on, with the last of them as their final row, and every gate of the lane holds on
    /// each of these rows.
    pub open spec fn holds_on_run(&self, w: Witness, first: int, rows: nat, p: int) -> bool {
        forall|i: int|
            0 <= i < rows ==> {
                &&& #[trigger] enabled(w, self.q_running_sum(), first + i)
                &&& enabled(w, self.q_is_running_sum_final(), first + i) == (i == rows - 1)
                &&& forall|g: int| 0 <= g < self.gates().len() ==> (#[trigger] self.gates()[g]).holds(w, first + i, p)
            }
    }

    /// The sum over the `rows` rows from `first` on of `coef * slice`, for the columns
    /// `cols` (coef, slice, accumulator).
    pub open spec fn sum_of_terms(cols: [AdviceColumn; 3], w: Witness, first: int, rows: nat) -> int
        decreases rows,
    {
        if rows == 0 {
            0
        } else {
            cell(w, cols[0], first) * cell(w, cols[1], first) + Self::sum_of_terms(
                cols,
                w,
                first + 1,
                (rows - 1) as nat,
            )
        }
    }
}

/// What `configure` adds to a circuit: six advice columns, two selectors, three fixed
/// columns for each chunk, and the lookups and gates of the lane after those that the
/// circuit has.
pub proof fn lemma_lane_registered(lane: LaneRotateConversionConfig, before: Circuit)
    ensures
        lane.registered(before) == (Circuit {
            advice_columns: before.advice_columns + 6,
            fixed_columns: before.fixed_columns + 3 * lane.chunk_rotate_convert_configs@.len(),
            selectors: before.selectors + 2,
            gates: before.gates + lane.gates(),
            lookups: before.lookups + lane.lookups(),
        }),
{
    lemma_chunks_registered(
        lane.chunk_rotate_convert_configs@,
        Circuit { advice_columns: before.advice_columns + 6, selectors: before.selectors + 2, ..before },
    );
}

/// A witness that satisfies, on a row, the circuit that a lane was registered in
/// satisfies every gate and every lookup of the lane on that row.
pub proof fn lemma_lane_holds_with_circuit(lane: LaneRotateConversionConfig, before: Circuit, w: Witness, row: int, p: int)
    requires
        lane.registered(before).holds(w, row, p),
    ensures
        forall|g: int| 0 <= g < lane.gates().len() ==> (#[trigger] lane.gates()[g]).holds(w, row, p),
        forall|l: int| 0 <= l < lane.lookups().len() ==> lookup_holds(#[trigger] lane.lookups()[l], w, row, p),
{
    let after = lane.registered(before);
    lemma_lane_registered(lane, before);
    assert forall|g: int| 0 <= g < lane.gates().len() implies (#[trigger] lane.gates()[g]).holds(w, row, p) by {
        assert(after.gates[before.gates.len() + g] == lane.gates()[g]);
    }
    assert forall|l: int| 0 <= l < lane.lookups().len() implies lookup_holds(
        #[trigger] lane.lookups()[l],
        w,
        row,
        p,
    ) by {
        assert(after.lookups[before.lookups.len() + l] == lane.lookups()[l]);
    }
}

/// Every gate of a chunk is among the gates of the chunks that it is one of.
proof fn lemma_gates_of_chunk_are_among(chunks: Seq<ChunkRotateConversionConfig>, i: int, g: int)
    requires
        0 <= i < chunks.len(),
        0 <= g < chunks[i].gates().len(),
    ensures
        exists|k: int|
            0 <= k < gates_of_chunks(chunks).len() && #[trigger] gates_of_chunks(chunks)[k] == chunks[i].gates()[g],
    decreases chunks.len(),
{
    let all = gates_of_chunks(chunks);
    let earlier = gates_of_chunks(chunks.drop_last());
    if i == chunks.len() - 1 {
        assert(all[earlier.len() + g] == chunks[i].gates()[g]);
    } else {
        lemma_gates_of_chunk_are_among(chunks.drop_last(), i, g);
        let k = choose|k: int| 0 <= k < earlier.len() && #[trigger] earlier[k] == chunks.drop_last()[i].gates()[g];
        assert(all[k] == chunks[i].gates()[g]);
    }
}

impl ChunkRotateConversionConfig {
    /// What the chunk asks of `row`: the row relation of its running sum in base 13, of
    /// that in base 9 and, where the chunk has one, of its block count.
    pub open spec fn row_relation(&self, w: Witness, row: int, p: int) -> bool {
        &&& self.b13_rs_config.row_relation(w, row, p)
        &&& self.b9_rs_config.row_relation(w, row, p)
        &&& match self.block_count_acc_config {
            Some(acc) => acc.row_relation(w, row, p),
            None => true,
        }
    }
}

/// On a row on which the gates of a lane hold, the row relation of every chunk of the
/// lane holds.
pub proof fn lemma_lane_row(
    lane: LaneRotateConversionConfig,
    q_enable: Selector,
    block_count_cols: [AdviceColumn; 3],
    rotation: u32,
    before: Circuit,
    w: Witness,
    row: int,
    p: int,
)
    requires
        p > 0,
        lane.is_lane_of(q_enable, block_count_cols, rotation, before),
        forall|g: int| 0 <= g < lane.gates().len() ==> (#[trigger] lane.gates()[g]).holds(w, row, p),
    ensures
        forall|i: int|
            0 <= i < lane.chunk_rotate_convert_configs@.len() ==> (#[trigger] lane.chunk_rotate_convert_configs@[i]).row_relation(
                w,
                row,
                p,
            ),
{
    let chunks = lane.chunk_rotate_convert_configs@;
    assert forall|i: int| 0 <= i < chunks.len() implies (#[trigger] chunks[i]).row_relation(w, row, p) by {
        let chunk = chunks[i];
        assert forall|g: int| 0 <= g < chunk.gates().len() implies (#[trigger] chunk.gates()[g]).holds(w, row, p) by {
            lemma_gates_of_chunk_are_among(chunks, i, g);
            let k = choose|k: int|
                0 <= k < gates_of_chunks(chunks).len() && #[trigger] gates_of_chunks(chunks)[k] == chunk.gates()[g];
            assert(lane.gates()[k].holds(w, row, p));
        }
        assert(chunk.gates()[0].holds(w, row, p));
        assert(chunk.gates()[1].holds(w, row, p));
        lemma_running_sum_row(chunk.b13_rs_config, w, row, p);
        lemma_running_sum_row(chunk.b9_rs_config, w, row, p);
        match chunk.block_count_acc_config {
            Some(acc) => {
                assert(chunk.gates()[2].holds(w, row, p));
                assert(chunk.is_chunk_of(
                    lane.q_running_sum(),
                    lane.q_is_running_sum_final(),
                    lane.base_13_cols,
                    lane.base_9_cols,
                    lane.block_count_cols,
                    chunk.step(),
                    before.fixed_columns + 3 * i as nat,
                ));
                assert(1 <= chunk.step() <= 4) by {
                    lemma_chunks_tile_lane(rotation as int);
                }
                lemma_block_count_row(acc, w, row, p);
            },
            None => {},
        }
    }
}

/// The terms of a running sum over the columns `cols` add up as the lane says.
proof fn lemma_sum_of_terms_agrees(config: RunningSumConfig, cols: [AdviceColumn; 3], w: Witness, first: int, rows: nat)
    requires
        config.coef == cols[0],
        config.slice == cols[1],
    ensures
        config.sum_of_terms(w, first, rows) == LaneRotateConversionConfig::sum_of_terms(cols, w, first, rows),
    decreases rows,
{
    if rows > 0 {
        lemma_sum_of_terms_agrees(config, cols, w, first + 1, (rows - 1) as nat);
    }
}

/// On a run of rows on which the gates of a lane hold, each of the two running sums
/// comes out, by itself: in base 13 and in base 9 the accumulator of the first row is
/// the sum of `coef * slice` over the rows, and on the last row the accumulator less
/// `coef * slice` is zero.
pub proof fn lemma_lane_running_sums(
    lane: LaneRotateConversionConfig,
    q_enable: Selector,
    block_count_cols: [AdviceColumn; 3],
    rotation: u32,
    before: Circuit,
    w: Witness,
    first: int,
    rows: nat,
    p: int,
)
    requires
        p > 0,
        rows > 0,
        lane.is_lane_of(q_enable, block_count_cols, rotation, before),
        lane.holds_on_run(w, first, rows, p),
    ensures
        ({
            let last = first + rows - 1;
            let b13 = lane.base_13_cols;
            let b9 = lane.base_9_cols;
            &&& congruent(cell(w, b13[2], last) - cell(w, b13[0], last) * cell(w, b13[1], last), 0, p)
            &&& congruent(cell(w, b9[2], last) - cell(w, b9[0], last) * cell(w, b9[1], last), 0, p)
            &&& congruent(cell(w, b13[2], first), LaneRotateConversionConfig::sum_of_terms(b13, w, first, rows), p)
            &&& congruent(cell(w, b9[2], first), LaneRotateConversionConfig::sum_of_terms(b9, w, first, rows), p)
        }),
{
    let chunks = lane.chunk_rotate_convert_configs@;
    let chunk = chunks[0];
    lemma_first_gates_of_chunks(chunks);
    let sum13 = chunk.b13_rs_config;
    let sum9 = chunk.b9_rs_config;
    assert forall|i: int| 0 <= i < rows implies {
        &&& #[trigger] sum13.gate().holds(w, first + i, p)
        &&& enabled(w, sum13.q_enable, first + i)
        &&& enabled(w, sum13.is_final, first + i) == (i == rows - 1)
    } by {
        assert(enabled(w, lane.q_running_sum(), first + i));
        assert(lane.gates()[0].holds(w, first + i, p));
    }
    assert forall|i: int| 0 <= i < rows implies {
        &&& #[trigger] sum9.gate().holds(w, first + i, p)
        &&& enabled(w, sum9.q_enable, first + i)
        &&& enabled(w, sum9.is_final, first + i) == (i == rows - 1)
    } by {
        assert(enabled(w, lane.q_running_sum(), first + i));
        assert(lane.gates()[1].holds(w, first + i, p));
    }
    lemma_running_sum_reconstructs(sum13, w, first, rows, p);
    lemma_running_sum_reconstructs(sum9, w, first, rows, p);
    lemma_sum_of_terms_agrees(sum13, lane.base_13_cols, w, first, rows);
    lemma_sum_of_terms_agrees(sum9, lane.base_9_cols, w, first, rows);
}

} // verus!
