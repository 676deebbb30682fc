//! The lookup that takes a slice in base 13 to its slice in base 9 and its block count.

use vstd::prelude::*;
use halo2_proofs::plonk::{Expression, Selector, TableColumn};
use pasta_curves::Fp;
use crate::plonk::{
    advice_poly, allocated, circuit_of, duplicate, lookup, lookup_inputs_of, lookup_table_column, product,
    query_advice, query_selector, selector_is_simple, selector_poly, table_column_index, AdviceColumn,
    Cells, CircuitBuilder, LookupInputs,
};
use crate::poly::{Circuit, LookupInput, Poly};

verus! {

/// A lookup table of three columns (base 13, base 9, block count) and the three advice
/// columns that are looked up in it on the rows where `q_enable` is on.
///
/// The rows of the table are assigned with the witness; on a row where `q_enable` is off
/// the inputs are all zero, so the table must hold the row of three zeros.
pub struct Base13toBase9TableConfig {
    pub q_enable: Selector,
    pub base13_advice: AdviceColumn,
    pub base9_advice: AdviceColumn,
    pub block_count_advice: AdviceColumn,
    pub base13: TableColumn,
    pub base9: TableColumn,
    pub block_count: TableColumn,
}

impl Base13toBase9TableConfig {
    /// The input of the lookup that reads `column`: its value where the selector is on,
    /// zero elsewhere.
    pub open spec fn input_poly(&self, column: AdviceColumn) -> Poly {
        selector_poly(self.q_enable).times(advice_poly(column, 0))
    }

    /// What `configure` turns a circuit into: three more fixed columns and one more
    /// lookup.
    pub open spec fn registered(&self, before: Circuit) -> Circuit {
        Circuit { fixed_columns: before.fixed_columns + 3, ..before }.with_lookup(self.inputs_spec())
    }

    /// Allocates the three columns of a table and registers the lookup of the three
    /// advice columns in it. The advice columns must be columns of `meta`, and `q_enable`
    /// must not be a simple selector, which a lookup does not take.
    pub fn configure(
        meta: &mut CircuitBuilder,
        q_enable: Selector,
        base13_advice: AdviceColumn,
        base9_advice: AdviceColumn,
        block_count_advice: AdviceColumn,
    ) -> (config: Self)
        requires
            allocated(base13_advice, circuit_of(*old(meta)).advice_columns),
            allocated(base9_advice, circuit_of(*old(meta)).advice_columns),
            allocated(block_count_advice, circuit_of(*old(meta)).advice_columns),
            !selector_is_simple(q_enable),
        ensures
            config.q_enable == q_enable,
            config.base13_advice == base13_advice,
            config.base9_advice == base9_advice,
            config.block_count_advice == block_count_advice,
            table_column_index(config.base13) == circuit_of(*old(meta)).fixed_columns,
            table_column_index(config.base9) == circuit_of(*old(meta)).fixed_columns + 1,
            table_column_index(config.block_count) == circuit_of(*old(meta)).fixed_columns + 2,
            circuit_of(*final(meta)) == config.registered(circuit_of(*old(meta))),
    {
        let base13 = lookup_table_column(meta);
        let base9 = lookup_table_column(meta);
        let block_count = lookup_table_column(meta);
        let config = Self {
            q_enable,
            base13_advice,
            base9_advice,
            block_count_advice,
            base13,
            base9,
            block_count,
        };
        lookup(meta, &config);
        config
    }
}

impl LookupInputs for Base13toBase9TableConfig {
    open spec fn well_formed(&self, advice_columns: nat) -> bool {
        &&& allocated(self.base13_advice, advice_columns)
        &&& allocated(self.base9_advice, advice_columns)
        &&& allocated(self.block_count_advice, advice_columns)
        &&& !selector_is_simple(self.q_enable)
    }

    open spec fn inputs_spec(&self) -> Seq<LookupInput> {
        seq![
            LookupInput {
                input: self.input_poly(self.base13_advice),
                table_column: table_column_index(self.base13),
            },
            LookupInput {
                input: self.input_poly(self.base9_advice),
                table_column: table_column_index(self.base9),
            },
            LookupInput {
                input: self.input_poly(self.block_count_advice),
                table_column: table_column_index(self.block_count),
            },
        ]
    }

    fn inputs(&self, cells: &mut Cells<'_, '_>) -> (pairs: Vec<(Expression<Fp>, TableColumn)>) {
        proof {
            reveal_with_fuel(Poly::contains_simple_selector, 3);
        }
        let q_enable = query_selector(cells, self.q_enable);
        let base13_advice = query_advice(cells, self.base13_advice, 0);
        let base9_advice = query_advice(cells, self.base9_advice, 0);
        let block_count_advice = query_advice(cells, self.block_count_advice, 0);
        let mut pairs: Vec<(Expression<Fp>, TableColumn)> = Vec::new();
        pairs.push((product(duplicate(&q_enable), base13_advice), self.base13));
        pairs.push((product(duplicate(&q_enable), base9_advice), self.base9));
        pairs.push((product(q_enable, block_count_advice), self.block_count));
        assert(lookup_inputs_of(pairs@) =~= self.inputs_spec());
        pairs
    }
}

} // verus!
