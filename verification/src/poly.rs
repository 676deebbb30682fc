//! The mathematical model of what a constraint system holds: polynomials over queried
//! cells, gates made of named polynomials, lookups, and what it means for a witness to
//! satisfy them.

use vstd::prelude::*;

verus! {

/// A polynomial over the cells of a constraint system.
///
/// A constant stands for the field element of that integer. A query reads a cell of a
/// column at a distance (`rotation`) from the row that the polynomial is evaluated at.
pub enum Poly {
    Constant(int),
    Selector { index: nat, simple: bool },
    Advice { column: nat, rotation: int },
    Negated(Box<Poly>),
    Sum(Box<Poly>, Box<Poly>),
    Product(Box<Poly>, Box<Poly>),
}

/// A polynomial that a gate forces to zero, with the name it is reported under.
pub struct Constraint {
    pub name: Seq<char>,
    pub poly: Poly,
}

/// A gate: named polynomials that must all be zero on every row.
pub struct Gate {
    pub name: Seq<char>,
    pub constraints: Seq<Constraint>,
}

/// One column of a lookup: on every row the value of `input` must be found in the table
/// column of index `table_column`, in one table row together with the other inputs.
pub struct LookupInput {
    pub input: Poly,
    pub table_column: nat,
}

/// What a constraint system holds: how many columns and selectors were allocated, and
/// the gates and lookups in the order in which they were registered.
pub struct Circuit {
    pub advice_columns: nat,
    pub fixed_columns: nat,
    pub selectors: nat,
    pub gates: Seq<Gate>,
    pub lookups: Seq<Seq<LookupInput>>,
}

/// The values of the cells of a circuit: one integer for each cell of an advice column
/// and of a fixed column, standing for its residue in the field, and one flag for each
/// selector and row. Columns and selectors go by their index.
pub struct Witness {
    pub advice: spec_fn(nat, int) -> int,
    pub fixed: spec_fn(nat, int) -> int,
    pub selectors: spec_fn(nat, int) -> bool,
}

impl Poly {
    /// `self - rhs`, in the shape in which the constraint system keeps a difference.
    pub open spec fn minus(self, rhs: Poly) -> Poly {
        Poly::Sum(Box::new(self), Box::new(Poly::Negated(Box::new(rhs))))
    }

    /// `self * rhs`.
    pub open spec fn times(self, rhs: Poly) -> Poly {
        Poly::Product(Box::new(self), Box::new(rhs))
    }

    /// Whether a simple selector occurs anywhere in the polynomial.
    pub open spec fn contains_simple_selector(self) -> bool
        decreases self,
    {
        match self {
            Poly::Constant(_) => false,
            Poly::Selector { index, simple } => simple,
            Poly::Advice { column, rotation } => false,
            Poly::Negated(a) => a.contains_simple_selector(),
            Poly::Sum(a, b) => a.contains_simple_selector() || b.contains_simple_selector(),
            Poly::Product(a, b) => a.contains_simple_selector() || b.contains_simple_selector(),
        }
    }

    /// The degree of the polynomial in the cells and selectors that it queries.
    pub open spec fn degree(self) -> nat
        decreases self,
    {
        match self {
            Poly::Constant(_) => 0,
            Poly::Selector { index, simple } => 1,
            Poly::Advice { column, rotation } => 1,
            Poly::Negated(a) => a.degree(),
            Poly::Sum(a, b) => if a.degree() >= b.degree() { a.degree() } else { b.degree() },
            Poly::Product(a, b) => a.degree() + b.degree(),
        }
    }

    /// The value of the polynomial on `row`, computed over the integers.
    ///
    /// A query at rotation `d` reads row `row + d`; rows are not wrapped around.
    pub open spec fn eval(self, w: Witness, row: int) -> int
        decreases self,
    {
        match self {
            Poly::Constant(c) => c,
            Poly::Selector { index, simple } => if (w.selectors)(index, row) { 1 } else { 0 },
            Poly::Advice { column, rotation } => (w.advice)(column, row + rotation),
            Poly::Negated(a) => -a.eval(w, row),
            Poly::Sum(a, b) => a.eval(w, row) + b.eval(w, row),
            Poly::Product(a, b) => a.eval(w, row) * b.eval(w, row),
        }
    }

    /// Whether the polynomial is zero on `row` in the field of `p` elements.
    pub open spec fn vanishes(self, w: Witness, row: int, p: int) -> bool {
        self.eval(w, row) % p == 0
    }
}

impl Gate {
    /// Whether every polynomial of this gate is zero on `row` in the field of `p` elements.
    pub open spec fn holds(self, w: Witness, row: int, p: int) -> bool {
        forall|i: int| 0 <= i < self.constraints.len() ==> (#[trigger] self.constraints[i]).poly.vanishes(w, row, p)
    }
}

/// Whether the lookup holds on `row` in the field of `p` elements: some row of the table
/// holds, column by column, the values of the inputs on `row`.
pub open spec fn lookup_holds(inputs: Seq<LookupInput>, w: Witness, row: int, p: int) -> bool {
    exists|table_row: int| #[trigger] lookup_finds(inputs, w, row, table_row, p)
}

/// Whether row `table_row` of the table holds the values of the inputs on `row`.
pub open spec fn lookup_finds(inputs: Seq<LookupInput>, w: Witness, row: int, table_row: int, p: int) -> bool {
    forall|k: int|
        0 <= k < inputs.len() ==> ((#[trigger] inputs[k]).input.eval(w, row) - (w.fixed)(
            inputs[k].table_column,
            table_row,
        )) % p == 0
}

impl Circuit {
    /// The circuit with one more gate registered.
    pub open spec fn with_gate(self, gate: Gate) -> Circuit {
        Circuit { gates: self.gates.push(gate), ..self }
    }

    /// Whether every gate and every lookup of the circuit holds on `row` in the field of
    /// `p` elements.
    pub open spec fn holds(self, w: Witness, row: int, p: int) -> bool {
        &&& forall|g: int| 0 <= g < self.gates.len() ==> (#[trigger] self.gates[g]).holds(w, row, p)
        &&& forall|l: int| 0 <= l < self.lookups.len() ==> lookup_holds(#[trigger] self.lookups[l], w, row, p)
    }

    /// The circuit with one more lookup registered.
    pub open spec fn with_lookup(self, lookup: Seq<LookupInput>) -> Circuit {
        Circuit { lookups: self.lookups.push(lookup), ..self }
    }
}

} // verus!
