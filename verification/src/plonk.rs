//! The constraint system of `halo2_proofs`, over the base field of the Pallas curve, as
//! far as the gates of this library use it.
//!
//! Nothing in this file is proved. Each function makes one call into `halo2_proofs`, and
//! its contract says over the model of [`crate::poly`] what that call does.

use vstd::prelude::*;
use halo2_proofs::plonk::{Expression, Selector, TableColumn};
use pasta_curves::Fp;
use crate::poly::{Circuit, Constraint, Gate, LookupInput, Poly};

verus! {

/// `pasta_curves::Fp`, the field that the polynomials are over.
#[verifier::external_type_specification]
#[verifier::external_body]
pub struct ExFp(Fp);

/// `halo2_proofs::plonk::Selector`, the handle of a selector.
#[verifier::external_type_specification]
#[verifier::external_body]
pub struct ExSelector(Selector);

/// `halo2_proofs::plonk::TableColumn`, the handle of a fixed column that holds one column
/// of a lookup table.
#[verifier::external_type_specification]
#[verifier::external_body]
pub struct ExTableColumn(TableColumn);

/// `halo2_proofs::plonk::Expression`, a polynomial over queried cells.
#[verifier::external_type_specification]
#[verifier::external_body]
#[verifier::reject_recursive_types(F)]
pub struct ExExpression<F>(Expression<F>);

/// The handle of an advice column, `halo2_proofs::plonk::Column<Advice>`. The verifier
/// cannot take the type itself, whose parameter is bound by a trait of the outside crate.
#[verifier::external_body]
pub struct AdviceColumn {
    pub column: halo2_proofs::plonk::Column<halo2_proofs::plonk::Advice>,
}

/// A constraint system under construction, `halo2_proofs::plonk::ConstraintSystem<Fp>`.
/// The verifier cannot take the type itself, whose parameter is bound by a trait of the
/// outside crate. A caller moves its system into `system` and takes it out again.
#[verifier::external_body]
pub struct CircuitBuilder {
    pub system: halo2_proofs::plonk::ConstraintSystem<Fp>,
}

/// The cells that can be queried while one gate or lookup is made,
/// `halo2_proofs::plonk::VirtualCells<Fp>`, as the constraint system lends them out.
#[verifier::external_body]
pub struct Cells<'a, 'b> {
    inner: &'a mut halo2_proofs::plonk::VirtualCells<'b, Fp>,
}

/// The index under which a selector was allocated.
pub uninterp spec fn selector_index(selector: Selector) -> nat;

/// Whether a selector is a simple one: such a selector may not stand in a sum, in a
/// product with another simple selector, or in a lookup.
pub uninterp spec fn selector_is_simple(selector: Selector) -> bool;

/// The index under which an advice column was allocated.
pub uninterp spec fn advice_column_index(column: AdviceColumn) -> nat;

/// The index of the fixed column that a table column is stored in.
pub uninterp spec fn table_column_index(column: TableColumn) -> nat;

/// The polynomial that an expression is, for an expression made of constants, selectors,
/// queries of advice columns, negations, sums and products; the indices that the
/// constraint system gives its queries are left out.
pub uninterp spec fn expression_poly(expression: Expression<Fp>) -> Poly;

/// What a constraint system holds: the numbers of its advice columns, fixed columns and
/// selectors, and its gates and lookups in the order in which they were registered.
pub uninterp spec fn circuit_of(builder: CircuitBuilder) -> Circuit;

/// The number of advice columns of the constraint system whose cells these are: the
/// columns below it are those that can be queried.
pub uninterp spec fn advice_columns_of(cells: Cells) -> nat;

/// Whether `column` is one of the first `advice_columns` advice columns of a constraint
/// system.
pub open spec fn allocated(column: AdviceColumn, advice_columns: nat) -> bool {
    advice_column_index(column) < advice_columns
}

/// Whether the three columns are among the first `advice_columns` advice columns of a
/// constraint system.
pub open spec fn all_allocated(columns: [AdviceColumn; 3], advice_columns: nat) -> bool {
    forall|k: int| 0 <= k < 3 ==> allocated(#[trigger] columns[k], advice_columns)
}

/// The polynomial of a selector's value on the current row.
pub open spec fn selector_poly(selector: Selector) -> Poly {
    Poly::Selector { index: selector_index(selector), simple: selector_is_simple(selector) }
}

/// The polynomial of an advice column's value `rotation` rows after the current one.
pub open spec fn advice_poly(column: AdviceColumn, rotation: int) -> Poly {
    Poly::Advice { column: advice_column_index(column), rotation }
}

/// The constraints that a vector of named expressions stands for.
pub open spec fn constraints_of(named: Seq<(&'static str, Expression<Fp>)>) -> Seq<Constraint> {
    named.map_values(
        |c: (&'static str, Expression<Fp>)| Constraint { name: c.0@, poly: expression_poly(c.1) },
    )
}

/// The lookup that a vector of expressions and table columns stands for.
pub open spec fn lookup_inputs_of(pairs: Seq<(Expression<Fp>, TableColumn)>) -> Seq<LookupInput> {
    pairs.map_values(
        |c: (Expression<Fp>, TableColumn)|
            LookupInput { input: expression_poly(c.0), table_column: table_column_index(c.1) },
    )
}

/// What makes the polynomials of one gate, given the cells to query.
pub trait GateConstraints {
    /// What `constraints` needs of the parameters, in a constraint system with
    /// `advice_columns` advice columns.
    spec fn well_formed(&self, advice_columns: nat) -> bool;

    /// The constraints that make up this gate.
    spec fn constraints_spec(&self) -> Seq<Constraint>;

    /// Queries the cells and builds the constraints.
    fn constraints(&self, cells: &mut Cells<'_, '_>) -> (named: Vec<(&'static str, Expression<Fp>)>)
        requires
            self.well_formed(advice_columns_of(*old(cells))),
        ensures
            constraints_of(named@) == self.constraints_spec(),
            named@.len() > 0,
    ;
}

/// What makes the inputs of one lookup, given the cells to query.
pub trait LookupInputs {
    /// What `inputs` needs of the lookup's parameters, in a constraint system with
    /// `advice_columns` advice columns.
    spec fn well_formed(&self, advice_columns: nat) -> bool;

    /// The inputs of the lookup and the table column that each is looked up in.
    spec fn inputs_spec(&self) -> Seq<LookupInput>;

    /// Queries the cells of the lookup and builds its inputs.
    fn inputs(&self, cells: &mut Cells<'_, '_>) -> (pairs: Vec<(Expression<Fp>, TableColumn)>)
        requires
            self.well_formed(advice_columns_of(*old(cells))),
        ensures
            lookup_inputs_of(pairs@) == self.inputs_spec(),
            forall|i: int| 0 <= i < pairs@.len() ==> !expression_poly(#[trigger] pairs@[i].0).contains_simple_selector(),
    ;
}

impl CircuitBuilder {
    /// Allocates a new advice column, after those that the circuit has.
    pub fn advice_column(&mut self) -> (column: AdviceColumn)
        ensures
            advice_column_index(column) == circuit_of(*old(self)).advice_columns,
            circuit_of(*final(self)) == (Circuit {
                advice_columns: circuit_of(*old(self)).advice_columns + 1,
                ..circuit_of(*old(self))
            }),
    {
        advice_column(self)
    }

    /// Allocates a new selector, after those that the circuit has: one that is not
    /// simple, so that it may stand anywhere in a polynomial and in a lookup.
    pub fn complex_selector(&mut self) -> (selector: Selector)
        ensures
            selector_index(selector) == circuit_of(*old(self)).selectors,
            !selector_is_simple(selector),
            circuit_of(*final(self)) == (Circuit {
                selectors: circuit_of(*old(self)).selectors + 1,
                ..circuit_of(*old(self))
            }),
    {
        complex_selector(self)
    }
}

impl Clone for AdviceColumn {
    /// `Column<Advice>` is `Copy`: the clone is the same handle.
    #[verifier::external_body]
    fn clone(&self) -> (copy: Self)
        ensures
            copy == *self,
    {
        AdviceColumn { column: self.column }
    }
}

impl Copy for AdviceColumn {}

/// `ConstraintSystem::advice_column`: allocates the next advice column. Its index is the
/// number of advice columns before the call; nothing else changes.
#[verifier::external_body]
pub(crate) fn advice_column(meta: &mut CircuitBuilder) -> (column: AdviceColumn)
    ensures
        advice_column_index(column) == circuit_of(*old(meta)).advice_columns,
        circuit_of(*final(meta)) == (Circuit {
            advice_columns: circuit_of(*old(meta)).advice_columns + 1,
            ..circuit_of(*old(meta))
        }),
{
    AdviceColumn { column: meta.system.advice_column() }
}

/// `ConstraintSystem::complex_selector`: allocates the next selector, as one that is not
/// simple. Its index is the number of selectors before the call; nothing else changes.
#[verifier::external_body]
pub(crate) fn complex_selector(meta: &mut CircuitBuilder) -> (selector: Selector)
    ensures
        selector_index(selector) == circuit_of(*old(meta)).selectors,
        !selector_is_simple(selector),
        circuit_of(*final(meta)) == (Circuit {
            selectors: circuit_of(*old(meta)).selectors + 1,
            ..circuit_of(*old(meta))
        }),
{
    meta.system.complex_selector()
}

/// `ConstraintSystem::lookup_table_column`: allocates the next fixed column, for use in a
/// lookup table. Its index is the number of fixed columns before the call; nothing else
/// changes.
#[verifier::external_body]
pub(crate) fn lookup_table_column(meta: &mut CircuitBuilder) -> (column: TableColumn)
    ensures
        table_column_index(column) == circuit_of(*old(meta)).fixed_columns,
        circuit_of(*final(meta)) == (Circuit {
            fixed_columns: circuit_of(*old(meta)).fixed_columns + 1,
            ..circuit_of(*old(meta))
        }),
{
    meta.system.lookup_table_column()
}

/// `ConstraintSystem::create_gate`: runs `gate.constraints` on the cells of the system,
/// which has as many advice columns then as before the call, and registers what it
/// returns as a gate of the given name, after the gates that are there. It panics on an
/// empty gate, which `constraints` never returns.
#[verifier::external_body]
pub(crate) fn create_gate<G: GateConstraints>(meta: &mut CircuitBuilder, name: &'static str, gate: &G)
    requires
        gate.well_formed(circuit_of(*old(meta)).advice_columns),
    ensures
        circuit_of(*final(meta)) == circuit_of(*old(meta)).with_gate(
            Gate { name: name@, constraints: gate.constraints_spec() },
        ),
{
    meta.system.create_gate(name, |cells| gate.constraints(&mut Cells { inner: cells }));
}

/// `ConstraintSystem::lookup`: runs `lookup.inputs` on the cells of the system, which has
/// as many advice columns then as before the call, and registers what it returns as a
/// lookup, after the lookups that are there. It panics on an input with a simple
/// selector, which `inputs` never returns.
#[verifier::external_body]
pub(crate) fn lookup<L: LookupInputs>(meta: &mut CircuitBuilder, lookup: &L)
    requires
        lookup.well_formed(circuit_of(*old(meta)).advice_columns),
    ensures
        circuit_of(*final(meta)) == circuit_of(*old(meta)).with_lookup(lookup.inputs_spec()),
{
    meta.system.lookup(|cells| lookup.inputs(&mut Cells { inner: cells }));
}

/// `VirtualCells::query_selector`: the polynomial that is the selector's value on the
/// current row. The constraint system keeps its columns.
#[verifier::external_body]
pub(crate) fn query_selector(cells: &mut Cells<'_, '_>, selector: Selector) -> (e: Expression<Fp>)
    ensures
        expression_poly(e) == selector_poly(selector),
        advice_columns_of(*final(cells)) == advice_columns_of(*old(cells)),
{
    cells.inner.query_selector(selector)
}

/// `VirtualCells::query_advice`: the polynomial that is the value of the advice column
/// `at` rows after the current one. It panics on a column that is not one of the
/// constraint system's, which keeps its columns.
#[verifier::external_body]
pub(crate) fn query_advice(cells: &mut Cells<'_, '_>, column: AdviceColumn, at: i32) -> (e: Expression<Fp>)
    requires
        allocated(column, advice_columns_of(*old(cells))),
    ensures
        expression_poly(e) == advice_poly(column, at as int),
        advice_columns_of(*final(cells)) == advice_columns_of(*old(cells)),
{
    cells.inner.query_advice(column.column, halo2_proofs::poly::Rotation(at))
}

/// `Expression::Constant` of `Fp::from`: the constant polynomial of the field element
/// that `value` stands for.
#[verifier::external_body]
pub(crate) fn constant(value: u64) -> (e: Expression<Fp>)
    ensures
        expression_poly(e) == Poly::Constant(value as int),
{
    Expression::Constant(Fp::from(value))
}

/// `Expression::sub`: the difference, kept as the sum of `a` and the negated `b`. It
/// panics where a simple selector occurs in either.
#[verifier::external_body]
pub(crate) fn difference(a: Expression<Fp>, b: Expression<Fp>) -> (e: Expression<Fp>)
    requires
        !expression_poly(a).contains_simple_selector(),
        !expression_poly(b).contains_simple_selector(),
    ensures
        expression_poly(e) == expression_poly(a).minus(expression_poly(b)),
{
    a - b
}

/// `Expression::mul`: the product. It panics where simple selectors occur in both.
#[verifier::external_body]
pub(crate) fn product(a: Expression<Fp>, b: Expression<Fp>) -> (e: Expression<Fp>)
    requires
        !(expression_poly(a).contains_simple_selector() && expression_poly(b).contains_simple_selector()),
    ensures
        expression_poly(e) == expression_poly(a).times(expression_poly(b)),
{
    a * b
}

/// `Expression::clone`: the same polynomial once more.
#[verifier::external_body]
pub(crate) fn duplicate(a: &Expression<Fp>) -> (e: Expression<Fp>)
    ensures
        expression_poly(e) == expression_poly(*a),
{
    a.clone()
}

} // verus!
