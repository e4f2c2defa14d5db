//! Columns, gate expressions and the constraint schema.

use vstd::prelude::*;
use crate::error::Error;
use crate::field::Field;

verus! {

/// What a column holds.
#[derive(Clone, Copy, Debug, PartialEq, Eq, Structural)]
pub enum ColumnKind {
    /// Witness values.
    Advice,
    /// Flags that switch gates on, row by row.
    Selector,
}

/// A declared column: its kind and its position among the columns of that
/// kind.
#[derive(Clone, Copy, Debug, PartialEq, Eq, Structural)]
pub struct ColumnHandle {
    pub kind: ColumnKind,
    pub index: usize,
}

/// A declared selector column.
#[derive(Clone, Copy, Debug, PartialEq, Eq, Structural)]
pub struct SelectorHandle {
    pub index: usize,
}

/// A polynomial over the cells around a row.
#[derive(Debug)]
pub enum Expression<F> {
    /// The cell of a column at a fixed distance from the current row.
    Query(ColumnHandle, i32),
    Constant(F),
    Add(Box<Expression<F>>, Box<Expression<F>>),
    Sub(Box<Expression<F>>, Box<Expression<F>>),
    Mul(Box<Expression<F>>, Box<Expression<F>>),
    Negate(Box<Expression<F>>),
}

/// What an `Expression` stands for: the same tree over residues.
pub enum Poly {
    Query(ColumnHandle, int),
    Constant(nat),
    Add(Box<Poly>, Box<Poly>),
    Sub(Box<Poly>, Box<Poly>),
    Mul(Box<Poly>, Box<Poly>),
    Negate(Box<Poly>),
}

impl Poly {
    /// Whether every column that the polynomial queries is among the first
    /// `num_advice` advice columns or the first `num_selectors` selectors.
    pub open spec fn declared(self, num_advice: nat, num_selectors: nat) -> bool
        decreases self,
    {
        match self {
            Poly::Query(column, _) => match column.kind {
                ColumnKind::Advice => column.index < num_advice,
                ColumnKind::Selector => column.index < num_selectors,
            },
            Poly::Constant(_) => true,
            Poly::Add(a, b) => a.declared(num_advice, num_selectors) && b.declared(
                num_advice,
                num_selectors,
            ),
            Poly::Sub(a, b) => a.declared(num_advice, num_selectors) && b.declared(
                num_advice,
                num_selectors,
            ),
            Poly::Mul(a, b) => a.declared(num_advice, num_selectors) && b.declared(
                num_advice,
                num_selectors,
            ),
            Poly::Negate(a) => a.declared(num_advice, num_selectors),
        }
    }
}

impl<F: Field> View for Expression<F> {
    type V = Poly;

    open spec fn view(&self) -> Poly
        decreases self,
    {
        match self {
            Expression::Query(column, rotation) => Poly::Query(*column, *rotation as int),
            Expression::Constant(c) => Poly::Constant(c.value()),
            Expression::Add(a, b) => Poly::Add(Box::new((**a).view()), Box::new((**b).view())),
            Expression::Sub(a, b) => Poly::Sub(Box::new((**a).view()), Box::new((**b).view())),
            Expression::Mul(a, b) => Poly::Mul(Box::new((**a).view()), Box::new((**b).view())),
            Expression::Negate(a) => Poly::Negate(Box::new((**a).view())),
        }
    }
}

impl<F: Field> Expression<F> {
    /// Whether every column that the expression queries is among the first
    /// `num_advice` advice columns or the first `num_selectors` selectors.
    pub fn is_declared(&self, num_advice: usize, num_selectors: usize) -> (r: bool)
        ensures
            r == self@.declared(num_advice as nat, num_selectors as nat),
        decreases self,
    {
        match self {
            Expression::Query(column, _) => match column.kind {
                ColumnKind::Advice => column.index < num_advice,
                ColumnKind::Selector => column.index < num_selectors,
            },
            Expression::Constant(_) => true,
            Expression::Add(a, b) => a.is_declared(num_advice, num_selectors) && b.is_declared(
                num_advice,
                num_selectors,
            ),
            Expression::Sub(a, b) => a.is_declared(num_advice, num_selectors) && b.is_declared(
                num_advice,
                num_selectors,
            ),
            Expression::Mul(a, b) => a.is_declared(num_advice, num_selectors) && b.is_declared(
                num_advice,
                num_selectors,
            ),
            Expression::Negate(a) => a.is_declared(num_advice, num_selectors),
        }
    }
}

/// A named constraint: on every row on which the selector is on, the
/// expression must be zero.
#[derive(Debug)]
pub struct Gate<F> {
    pub name: String,
    pub selector: SelectorHandle,
    pub expr: Expression<F>,
}

/// What a `Gate` stands for.
pub struct GateModel {
    pub name: Seq<char>,
    pub selector: nat,
    pub poly: Poly,
}

impl GateModel {
    /// Whether this gate's selector and every column that it queries are
    /// declared.
    pub open spec fn declared(self, num_advice: nat, num_selectors: nat) -> bool {
        self.selector < num_selectors && self.poly.declared(num_advice, num_selectors)
    }
}

impl<F: Field> View for Gate<F> {
    type V = GateModel;

    open spec fn view(&self) -> GateModel {
        GateModel { name: self.name@, selector: self.selector.index as nat, poly: self.expr@ }
    }
}

/// What a schema stands for: for each advice column whether it takes part in
/// copy constraints, the number of selectors, and the gates in the order in
/// which they were added.
pub struct SchemaModel {
    pub equality: Seq<bool>,
    pub num_selectors: nat,
    pub gates: Seq<GateModel>,
}

impl SchemaModel {
    /// The schema without columns and gates.
    pub open spec fn empty() -> SchemaModel {
        SchemaModel { equality: Seq::empty(), num_selectors: 0, gates: Seq::empty() }
    }

    /// The number of advice columns.
    pub open spec fn num_advice(self) -> nat {
        self.equality.len()
    }

    /// Whether the advice column with this index is declared and takes part
    /// in copy constraints.
    pub open spec fn equality_enabled(self, column: int) -> bool {
        0 <= column < self.equality.len() && self.equality[column]
    }

    /// Every gate speaks of declared columns only.
    pub open spec fn wf(self) -> bool {
        forall|i: int|
            0 <= i < self.gates.len() ==> (#[trigger] self.gates[i]).declared(
                self.num_advice(),
                self.num_selectors,
            )
    }
}

/// A polynomial over declared columns stays so when columns are added.
pub proof fn lemma_declared_monotone(
    poly: Poly,
    num_advice: nat,
    num_selectors: nat,
    more_advice: nat,
    more_selectors: nat,
)
    requires
        poly.declared(num_advice, num_selectors),
        num_advice <= more_advice,
        num_selectors <= more_selectors,
    ensures
        poly.declared(more_advice, more_selectors),
    decreases poly,
{
    match poly {
        Poly::Query(_, _) => {},
        Poly::Constant(_) => {},
        Poly::Add(a, b) => {
            lemma_declared_monotone(*a, num_advice, num_selectors, more_advice, more_selectors);
            lemma_declared_monotone(*b, num_advice, num_selectors, more_advice, more_selectors);
        },
        Poly::Sub(a, b) => {
            lemma_declared_monotone(*a, num_advice, num_selectors, more_advice, more_selectors);
            lemma_declared_monotone(*b, num_advice, num_selectors, more_advice, more_selectors);
        },
        Poly::Mul(a, b) => {
            lemma_declared_monotone(*a, num_advice, num_selectors, more_advice, more_selectors);
            lemma_declared_monotone(*b, num_advice, num_selectors, more_advice, more_selectors);
        },
        Poly::Negate(a) => {
            lemma_declared_monotone(*a, num_advice, num_selectors, more_advice, more_selectors);
        },
    }
}

/// What a list of gates stands for.
pub open spec fn gates_view<F: Field>(gates: Seq<Gate<F>>) -> Seq<GateModel> {
    Seq::new(gates.len(), |i: int| gates[i]@)
}

/// Collects the columns and the gates of a schema.
pub struct SchemaBuilder<F> {
    equality: Vec<bool>,
    num_selectors: usize,
    gates: Vec<Gate<F>>,
}

/// A finished schema: it does not change any more.
pub struct Schema<F> {
    equality: Vec<bool>,
    num_selectors: usize,
    gates: Vec<Gate<F>>,
}

impl<F: Field> View for SchemaBuilder<F> {
    type V = SchemaModel;

    closed spec fn view(&self) -> SchemaModel {
        SchemaModel {
            equality: self.equality@,
            num_selectors: self.num_selectors as nat,
            gates: gates_view(self.gates@),
        }
    }
}

impl<F: Field> View for Schema<F> {
    type V = SchemaModel;

    closed spec fn view(&self) -> SchemaModel {
        SchemaModel {
            equality: self.equality@,
            num_selectors: self.num_selectors as nat,
            gates: gates_view(self.gates@),
        }
    }
}

impl<F: Field> SchemaBuilder<F> {
    /// A builder without columns and gates.
    pub fn new() -> (r: Self)
        ensures
            r@ == SchemaModel::empty(),
            r@.wf(),
    {
        let r = SchemaBuilder { equality: Vec::new(), num_selectors: 0, gates: Vec::new() };
        assert(r@.gates =~= Seq::empty());
        r
    }

    /// Declares one more column of the given kind. A new advice column does
    /// not take part in copy constraints yet.
    pub fn declare_column(&mut self, kind: ColumnKind) -> (handle: ColumnHandle)
        requires
            old(self)@.wf(),
            kind == ColumnKind::Selector ==> old(self)@.num_selectors < usize::MAX,
        ensures
            final(self)@.wf(),
            handle.kind == kind,
            kind == ColumnKind::Advice ==> handle.index == old(self)@.num_advice() && final(self)@
                == (SchemaModel { equality: old(self)@.equality.push(false), ..old(self)@ }),
            kind == ColumnKind::Selector ==> handle.index == old(self)@.num_selectors && final(self)@ == (SchemaModel { num_selectors: old(self)@.num_selectors + 1, ..old(self)@ }),
    {
        let index = match kind {
            ColumnKind::Advice => {
                let index = self.equality.len();
                self.equality.push(false);
                index
            },
            ColumnKind::Selector => {
                let index = self.num_selectors;
                self.num_selectors = index + 1;
                index
            },
        };
        proof {
            assert forall|i: int| 0 <= i < self@.gates.len() implies (#[trigger] self@.gates[i]).declared(
                self@.num_advice(),
                self@.num_selectors,
            ) by {
                assert(old(self)@.gates[i].declared(
                    old(self)@.num_advice(),
                    old(self)@.num_selectors,
                ));
                lemma_declared_monotone(
                    self@.gates[i].poly,
                    old(self)@.num_advice(),
                    old(self)@.num_selectors,
                    self@.num_advice(),
                    self@.num_selectors,
                );
            }
        }
        ColumnHandle { kind, index }
    }

    /// Declares one more selector column.
    pub fn declare_selector(&mut self) -> (handle: SelectorHandle)
        requires
            old(self)@.wf(),
            old(self)@.num_selectors < usize::MAX,
        ensures
            final(self)@.wf(),
            handle.index == old(self)@.num_selectors,
            final(self)@ == (SchemaModel {
                num_selectors: old(self)@.num_selectors + 1,
                ..old(self)@
            }),
    {
        let column = self.declare_column(ColumnKind::Selector);
        SelectorHandle { index: column.index }
    }

    /// Lets an advice column take part in copy constraints. A handle that is
    /// not that of a declared advice column is refused, and nothing changes.
    pub fn enable_equality(&mut self, column: ColumnHandle) -> (r: Result<(), Error>)
        requires
            old(self)@.wf(),
        ensures
            final(self)@.wf(),
            r is Ok <==> column.kind == ColumnKind::Advice && column.index < old(self)@.num_advice(),
            r is Ok ==> final(self)@ == (SchemaModel {
                equality: old(self)@.equality.update(column.index as int, true),
                ..old(self)@
            }),
            r is Err ==> r == Err::<(), Error>(Error::Configuration) && final(self)@ == old(self)@,
    {
        match column.kind {
            ColumnKind::Advice => {
                if column.index < self.equality.len() {
                    self.equality[column.index] = true;
                    assert forall|i: int| 0 <= i < self@.gates.len() implies (
                    #[trigger] self@.gates[i]).declared(self@.num_advice(), self@.num_selectors) by {
                        assert(old(self)@.gates[i].declared(
                            old(self)@.num_advice(),
                            old(self)@.num_selectors,
                        ));
                    }
                    Ok(())
                } else {
                    Err(Error::Configuration)
                }
            },
            ColumnKind::Selector => Err(Error::Configuration),
        }
    }

    /// Adds a gate: on every row on which `selector` is on, `expr` must be
    /// zero. A gate whose selector, or one of whose queried columns, is not
    /// declared is refused, and nothing changes.
    pub fn add_gate(&mut self, name: &str, selector: SelectorHandle, expr: Expression<F>) -> (r:
        Result<(), Error>)
        requires
            old(self)@.wf(),
        ensures
            final(self)@.wf(),
            r is Ok <==> (GateModel {
                name: name@,
                selector: selector.index as nat,
                poly: expr@,
            }).declared(old(self)@.num_advice(), old(self)@.num_selectors),
            r is Ok ==> final(self)@ == (SchemaModel {
                gates: old(self)@.gates.push(
                    GateModel { name: name@, selector: selector.index as nat, poly: expr@ },
                ),
                ..old(self)@
            }),
            r is Err ==> r == Err::<(), Error>(Error::Configuration) && final(self)@ == old(self)@,
    {
        if selector.index < self.num_selectors && expr.is_declared(
            self.equality.len(),
            self.num_selectors,
        ) {
            let gate = Gate { name: name.to_owned(), selector, expr };
            self.gates.push(gate);
            assert(self@.gates =~= old(self)@.gates.push(gate@));
            Ok(())
        } else {
            Err(Error::Configuration)
        }
    }

    /// The schema that was collected.
    pub fn build(self) -> (schema: Schema<F>)
        requires
            self@.wf(),
        ensures
            schema@ == self@,
            schema@.wf(),
    {
        Schema { equality: self.equality, num_selectors: self.num_selectors, gates: self.gates }
    }
}

impl<F: Field> Schema<F> {
    /// The number of advice columns.
    pub fn num_advice(&self) -> (n: usize)
        ensures
            n == self@.num_advice(),
    {
        self.equality.len()
    }

    /// The number of selector columns.
    pub fn num_selectors(&self) -> (n: usize)
        ensures
            n == self@.num_selectors,
    {
        self.num_selectors
    }

    /// The number of gates.
    pub fn num_gates(&self) -> (n: usize)
        ensures
            n == self@.gates.len(),
    {
        self.gates.len()
    }

    /// Whether the column is a declared advice column that takes part in
    /// copy constraints.
    pub fn is_equality_enabled(&self, column: ColumnHandle) -> (r: bool)
        ensures
            r == (column.kind == ColumnKind::Advice && self@.equality_enabled(column.index as int)),
    {
        match column.kind {
            ColumnKind::Advice => column.index < self.equality.len() && self.equality[column.index],
            ColumnKind::Selector => false,
        }
    }

    /// For each advice column, whether it takes part in copy constraints.
    pub fn equality_flags(&self) -> (flags: Vec<bool>)
        ensures
            flags@ == self@.equality,
    {
        let mut flags: Vec<bool> = Vec::new();
        let mut i: usize = 0;
        while i < self.equality.len()
            invariant
                i <= self.equality.len(),
                flags@ == self.equality@.take(i as int),
            decreases self.equality.len() - i,
        {
            flags.push(self.equality[i]);
            assert(flags@ =~= self.equality@.take(i + 1));
            i += 1;
        }
        assert(flags@ =~= self.equality@);
        flags
    }

    /// One gate by its position, in the order in which the gates were added.
    pub fn gate(&self, index: usize) -> (r: Option<&Gate<F>>)
        ensures
            r is Some <==> index < self@.gates.len(),
            r matches Some(gate) ==> gate@ == self@.gates[index as int],
    {
        if index < self.gates.len() {
            Some(&self.gates[index])
        } else {
            None
        }
    }
}

} // verus!
