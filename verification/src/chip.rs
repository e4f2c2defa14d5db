//! The chip of the pairwise-sum recurrence: how one step of it is laid out
//! in a row of the trace.

use vstd::prelude::*;
use crate::error::Error;
use crate::field::{add_mod, sub_mod, Field};
use crate::schema::{
    ColumnHandle,
    ColumnKind,
    Expression,
    GateModel,
    Poly,
    SchemaBuilder,
    SchemaModel,
    SelectorHandle,
};
use crate::trace::{Cell, CellState, Trace, TraceModel};

verus! {

/// The columns that the chip works on: three advice columns, for the two
/// summands and the sum, and the selector of its gate.
#[derive(Clone, Copy, Debug)]
pub struct FiboConfig {
    pub advice: [ColumnHandle; 3],
    pub selector: SelectorHandle,
}

/// Fills rows of a trace according to a configuration.
pub struct FiboChip<F> {
    config: FiboConfig,
    _marker: std::marker::PhantomData<F>,
}

/// The polynomial of the chip's gate: the first summand plus the second
/// minus the sum, all in the current row.
pub open spec fn sum_poly(a: ColumnHandle, b: ColumnHandle, c: ColumnHandle) -> Poly {
    Poly::Sub(
        Box::new(Poly::Add(Box::new(Poly::Query(a, 0)), Box::new(Poly::Query(b, 0)))),
        Box::new(Poly::Query(c, 0)),
    )
}

/// What the chip adds to a schema: a gate named "sum", on where the selector
/// is on.
pub open spec fn sum_gate(config: FiboConfig) -> GateModel {
    GateModel {
        name: "sum"@,
        selector: config.selector.index as nat,
        poly: sum_poly(config.advice[0], config.advice[1], config.advice[2]),
    }
}

/// The configuration that the chip gets on a schema: the three advice
/// columns and the selector that come after those already declared.
pub open spec fn configured(before: SchemaModel, config: FiboConfig) -> bool {
    &&& forall|i: int|
        0 <= i < 3 ==> #[trigger] config.advice[i] == (ColumnHandle {
            kind: ColumnKind::Advice,
            index: (before.num_advice() + i) as usize,
        })
    &&& config.selector.index == before.num_selectors
}

/// The schema after the chip was configured on it: three more advice
/// columns, all taking part in copy constraints, one more selector, and one
/// more gate.
pub open spec fn with_chip(before: SchemaModel, config: FiboConfig) -> SchemaModel {
    SchemaModel {
        equality: before.equality + seq![true, true, true],
        num_selectors: before.num_selectors + 1,
        gates: before.gates.push(sum_gate(config)),
    }
}

/// Whether the columns and the selector of a configuration are declared in
/// a trace.
pub open spec fn config_declared(trace: TraceModel, config: FiboConfig) -> bool {
    &&& config.selector.index < trace.num_selectors
    &&& forall|i: int|
        0 <= i < 3 ==> (#[trigger] config.advice[i]).kind == ColumnKind::Advice
            && config.advice[i].index < trace.num_advice()
}

/// Whether the three advice columns of a configuration differ from each
/// other.
pub open spec fn config_distinct(config: FiboConfig) -> bool {
    &&& config.advice[0].index != config.advice[1].index
    &&& config.advice[0].index != config.advice[2].index
    &&& config.advice[1].index != config.advice[2].index
}

/// The cell of the chip's advice column `i` in a row.
pub open spec fn chip_cell(config: FiboConfig, i: int, row: int) -> Cell {
    Cell { column: config.advice[i].index, row: row as usize }
}

/// What filling the first row comes to: the three cells that are written, or
/// the reason why nothing is written. The row is the first one after the
/// rows written so far.
pub open spec fn first_row_check(
    trace: TraceModel,
    config: FiboConfig,
    has_a: bool,
    has_b: bool,
) -> Result<(Cell, Cell, Cell), Error> {
    let row = trace.rows.len() as int;
    if !config_declared(trace, config) {
        Err(Error::Configuration)
    } else if !has_a || !has_b {
        Err(Error::MissingWitness)
    } else if trace.rows.len() >= trace.capacity {
        Err(Error::NotEnoughRows)
    } else if !config_distinct(config) {
        Err(Error::DoubleAssignment)
    } else {
        Ok((chip_cell(config, 0, row), chip_cell(config, 1, row), chip_cell(config, 2, row)))
    }
}

/// The trace after the first row was filled: a new region named "first row"
/// of one row, in which the selector is on and the three cells hold `a`, `b`
/// and their sum.
pub open spec fn first_row_written(
    trace: TraceModel,
    config: FiboConfig,
    a: nat,
    b: nat,
    modulus: nat,
) -> TraceModel {
    let row = trace.rows.len() as int;
    trace.with_region("first row"@).with_selector(config.selector.index as int, row).with_cell(
        config.advice[0].index as int,
        row,
        a,
    ).with_cell(config.advice[1].index as int, row, b).with_cell(
        config.advice[2].index as int,
        row,
        add_mod(a, b, modulus),
    )
}

/// What filling a further row comes to: the cell of the sum, or the reason
/// why nothing is written. The row is the first one after the rows written
/// so far.
pub open spec fn next_row_check(
    trace: TraceModel,
    config: FiboConfig,
    prev_b: Cell,
    prev_c: Cell,
) -> Result<Cell, Error> {
    if !config_declared(trace, config) || !trace.equality_enabled(config.advice[0].index as int)
        || !trace.equality_enabled(config.advice[1].index as int) || !trace.equality_enabled(
        prev_b.column as int,
    ) || !trace.equality_enabled(prev_c.column as int) {
        Err(Error::Configuration)
    } else if trace.cell(prev_b.column as int, prev_b.row as int) is None || trace.cell(
        prev_c.column as int,
        prev_c.row as int,
    ) is None {
        Err(Error::MissingWitness)
    } else if trace.rows.len() >= trace.capacity {
        Err(Error::NotEnoughRows)
    } else if !config_distinct(config) {
        Err(Error::DoubleAssignment)
    } else {
        Ok(chip_cell(config, 2, trace.rows.len() as int))
    }
}

/// The trace after a further row was filled: a new region named "next row"
/// of one row, in which the selector is on, the first two cells hold the
/// values of `prev_b` and `prev_c` and are declared equal to them, and the
/// third holds their sum.
pub open spec fn next_row_written(
    trace: TraceModel,
    config: FiboConfig,
    prev_b: Cell,
    prev_c: Cell,
    modulus: nat,
) -> TraceModel {
    let row = trace.rows.len() as int;
    let x = trace.cell(prev_b.column as int, prev_b.row as int).unwrap();
    let y = trace.cell(prev_c.column as int, prev_c.row as int).unwrap();
    trace.with_region("next row"@).with_selector(config.selector.index as int, row).with_cell(
        config.advice[0].index as int,
        row,
        x,
    ).with_copy(prev_b, chip_cell(config, 0, row)).with_cell(
        config.advice[1].index as int,
        row,
        y,
    ).with_copy(prev_c, chip_cell(config, 1, row)).with_cell(
        config.advice[2].index as int,
        row,
        add_mod(x, y, modulus),
    )
}

/// The value of that polynomial in a row: the sum of the first two
/// cells minus the third, where all three hold a value.
pub proof fn lemma_sum_poly_value(
    trace: TraceModel,
    config: FiboConfig,
    row: int,
    modulus: nat,
)
    requires
        forall|i: int| 0 <= i < 3 ==> (#[trigger] config.advice[i]).kind == ColumnKind::Advice,
    ensures
        crate::checker::eval(sum_gate(config).poly, trace, row, modulus) == (match (
            trace.cell(config.advice[0].index as int, row),
            trace.cell(config.advice[1].index as int, row),
            trace.cell(config.advice[2].index as int, row),
        ) {
            (Some(x), Some(y), Some(z)) => Some(sub_mod(add_mod(x, y, modulus), z, modulus)),
            _ => None,
        }),
{
    reveal_with_fuel(crate::checker::eval, 3);
    assert(config.advice[0].kind == ColumnKind::Advice);
    assert(config.advice[1].kind == ColumnKind::Advice);
    assert(config.advice[2].kind == ColumnKind::Advice);
}

impl<F: Field> FiboChip<F> {
    /// The chip for a configuration.
    pub fn construct(config: FiboConfig) -> (chip: Self)
        ensures
            chip.config() == config,
    {
        FiboChip { config, _marker: std::marker::PhantomData }
    }

    /// The configuration that the chip works on.
    pub closed spec fn config(&self) -> FiboConfig {
        self.config
    }

    /// Declares the chip's columns and its gate on a schema.
    pub fn configure(meta: &mut SchemaBuilder<F>) -> (config: FiboConfig)
        requires
            old(meta)@.wf(),
            old(meta)@.num_selectors < usize::MAX,
        ensures
            final(meta)@.wf(),
            configured(old(meta)@, config),
            final(meta)@ == with_chip(old(meta)@, config),
    {
        let col_a = meta.declare_column(ColumnKind::Advice);
        let col_b = meta.declare_column(ColumnKind::Advice);
        let col_c = meta.declare_column(ColumnKind::Advice);
        let selector = meta.declare_selector();

        let enabled_a = meta.enable_equality(col_a);
        let enabled_b = meta.enable_equality(col_b);
        let enabled_c = meta.enable_equality(col_c);
        assert(enabled_a is Ok && enabled_b is Ok && enabled_c is Ok);

        let query_a: Expression<F> = Expression::Query(col_a, 0);
        let query_b: Expression<F> = Expression::Query(col_b, 0);
        let query_c: Expression<F> = Expression::Query(col_c, 0);
        assert(query_a@ == Poly::Query(col_a, 0) && query_b@ == Poly::Query(col_b, 0) && query_c@
            == Poly::Query(col_c, 0));
        assert(query_a@.declared(meta@.num_advice(), meta@.num_selectors));
        assert(query_b@.declared(meta@.num_advice(), meta@.num_selectors));
        assert(query_c@.declared(meta@.num_advice(), meta@.num_selectors));
        let summands = Expression::Add(Box::new(query_a), Box::new(query_b));
        assert(summands@ == Poly::Add(
            Box::new(Poly::Query(col_a, 0)),
            Box::new(Poly::Query(col_b, 0)),
        ));
        assert(summands@.declared(meta@.num_advice(), meta@.num_selectors));
        let expr = Expression::Sub(Box::new(summands), Box::new(query_c));
        assert(expr@ == sum_poly(col_a, col_b, col_c));
        assert(expr@.declared(meta@.num_advice(), meta@.num_selectors));
        let added = meta.add_gate("sum", selector, expr);
        assert(added is Ok);
        let config = FiboConfig { advice: [col_a, col_b, col_c], selector };
        assert(meta@.equality =~= old(meta)@.equality + seq![true, true, true]);
        config
    }

    /// Whether the chip's columns and selector are declared in a trace.
    pub(crate) fn declared_in(&self, trace: &Trace<F>) -> (r: bool)
        ensures
            r == config_declared(trace@, self.config()),
    {
        let n = trace.num_advice();
        let ok = self.config.selector.index < trace.num_selectors() && self.is_advice(0, n)
            && self.is_advice(1, n) && self.is_advice(2, n);
        proof {
            if ok {
                assert forall|i: int| 0 <= i < 3 implies (#[trigger] self.config.advice[i]).kind
                    == ColumnKind::Advice && self.config.advice[i].index < trace@.num_advice() by {
                    assert(i == 0 || i == 1 || i == 2);
                }
            }
        }
        ok
    }

    /// Whether the chip's column `i` is an advice column among the first `n`.
    fn is_advice(&self, i: usize, n: usize) -> (r: bool)
        requires
            i < 3,
        ensures
            r == (self.config().advice[i as int].kind == ColumnKind::Advice
                && self.config().advice[i as int].index < n),
    {
        match self.config.advice[i].kind {
            ColumnKind::Advice => self.config.advice[i].index < n,
            ColumnKind::Selector => false,
        }
    }

    /// Whether the chip's three advice columns differ from each other.
    pub(crate) fn distinct(&self) -> (r: bool)
        ensures
            r == config_distinct(self.config()),
    {
        self.config.advice[0].index != self.config.advice[1].index && self.config.advice[0].index
            != self.config.advice[2].index && self.config.advice[1].index
            != self.config.advice[2].index
    }

    /// Fills the first row of the recurrence: begins a region, switches the
    /// selector on, and writes `a`, `b` and their sum. Returns the three
    /// cells. Where it fails, the trace is as before.
    pub fn assign_first_row(&self, trace: &mut Trace<F>, a: Option<F>, b: Option<F>) -> (r: Result<
        (Cell, Cell, Cell),
        Error,
    >)
        requires
            old(trace)@.wf(),
        ensures
            final(trace)@.wf(),
            r == first_row_check(old(trace)@, self.config(), a is Some, b is Some),
            r is Ok ==> final(trace)@ == first_row_written(
                old(trace)@,
                self.config(),
                a.unwrap().value(),
                b.unwrap().value(),
                F::modulus(),
            ),
            r is Err ==> final(trace)@ == old(trace)@,
    {
        if !self.declared_in(trace) {
            return Err(Error::Configuration);
        }
        let (a, b) = match (a, b) {
            (Some(a), Some(b)) => (a, b),
            _ => {
                return Err(Error::MissingWitness);
            },
        };
        if trace.num_rows() >= trace.capacity() {
            return Err(Error::NotEnoughRows);
        }
        if !self.distinct() {
            return Err(Error::DoubleAssignment);
        }
        trace.begin_region("first row");
        trace.enable_selector(self.config.selector, 0)?;
        let a_cell = trace.assign_advice(self.config.advice[0], 0, Some(a))?;
        let b_cell = trace.assign_advice(self.config.advice[1], 0, Some(b))?;
        let c = a.add(&b);
        let c_cell = trace.assign_advice(self.config.advice[2], 0, Some(c))?;
        Ok((a_cell, b_cell, c_cell))
    }

    /// Fills a further row of the recurrence: begins a region, switches the
    /// selector on, copies the values of `prev_b` and `prev_c` into the
    /// first two cells, and writes their sum into the third. Returns the
    /// cell of the sum. Where it fails, the trace is as before.
    pub fn assign_row(&self, trace: &mut Trace<F>, prev_b: &Cell, prev_c: &Cell) -> (r: Result<
        Cell,
        Error,
    >)
        requires
            old(trace)@.wf(),
        ensures
            final(trace)@.wf(),
            r == next_row_check(old(trace)@, self.config(), *prev_b, *prev_c),
            r is Ok ==> final(trace)@ == next_row_written(
                old(trace)@,
                self.config(),
                *prev_b,
                *prev_c,
                F::modulus(),
            ),
            r is Err ==> final(trace)@ == old(trace)@,
    {
        if !self.declared_in(trace) || !trace.takes_copies(self.config.advice[0].index)
            || !trace.takes_copies(self.config.advice[1].index) || !trace.takes_copies(
            prev_b.column,
        ) || !trace.takes_copies(prev_c.column) {
            return Err(Error::Configuration);
        }
        let (x, y) = match (trace.get(*prev_b), trace.get(*prev_c)) {
            (CellState::Known(x), CellState::Known(y)) => (x, y),
            _ => {
                return Err(Error::MissingWitness);
            },
        };
        if trace.num_rows() >= trace.capacity() {
            return Err(Error::NotEnoughRows);
        }
        if !self.distinct() {
            return Err(Error::DoubleAssignment);
        }
        trace.begin_region("next row");
        trace.enable_selector(self.config.selector, 0)?;
        trace.copy_advice(*prev_b, self.config.advice[0], 0)?;
        trace.copy_advice(*prev_c, self.config.advice[1], 0)?;
        let c = x.add(&y);
        let c_cell = trace.assign_advice(self.config.advice[2], 0, Some(c))?;
        Ok(c_cell)
    }
}

} // verus!
