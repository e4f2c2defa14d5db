//! The satisfiability checker: whether a finished trace satisfies every gate
//! of a schema and every copy constraint that was raised.

use vstd::prelude::*;
use crate::error::Error;
use crate::field::{add_mod, mul_mod, neg_mod, sub_mod, Field};
use crate::schema::{ColumnKind, Expression, Poly, Schema, SchemaModel, SelectorHandle};
use crate::trace::{lemma_overwrite, Cell, CellState, Trace, TraceModel};

verus! {

/// The value of a polynomial at a row of a trace, in the field of residues
/// below `modulus`; `None` where it queries a cell that holds nothing. A
/// selector counts as one where it is on and as zero where it is not.
pub open spec fn eval(poly: Poly, trace: TraceModel, row: int, modulus: nat) -> Option<nat>
    decreases poly,
{
    match poly {
        Poly::Query(column, rotation) => match column.kind {
            ColumnKind::Advice => trace.cell(column.index as int, row + rotation),
            ColumnKind::Selector => if trace.enabled(column.index as int, row + rotation) {
                Some(1nat)
            } else {
                Some(0nat)
            },
        },
        Poly::Constant(c) => Some(c),
        Poly::Add(a, b) => match (eval(*a, trace, row, modulus), eval(*b, trace, row, modulus)) {
            (Some(x), Some(y)) => Some(add_mod(x, y, modulus)),
            _ => None,
        },
        Poly::Sub(a, b) => match (eval(*a, trace, row, modulus), eval(*b, trace, row, modulus)) {
            (Some(x), Some(y)) => Some(sub_mod(x, y, modulus)),
            _ => None,
        },
        Poly::Mul(a, b) => match (eval(*a, trace, row, modulus), eval(*b, trace, row, modulus)) {
            (Some(x), Some(y)) => Some(mul_mod(x, y, modulus)),
            _ => None,
        },
        Poly::Negate(a) => match eval(*a, trace, row, modulus) {
            Some(x) => Some(neg_mod(x, modulus)),
            None => None,
        },
    }
}

/// The row at a distance from a row, where there is one.
pub fn rotate(row: usize, rotation: i32) -> (r: Option<usize>)
    ensures
        r == (if 0 <= row + rotation <= usize::MAX {
            Some((row + rotation) as usize)
        } else {
            None
        }),
{
    if rotation >= 0 {
        row.checked_add(rotation as usize)
    } else {
        let back: i64 = -(rotation as i64);
        row.checked_sub(back as usize)
    }
}

/// Evaluates an expression at a row of a trace. An expression that queries a
/// cell which holds nothing has no value.
pub fn evaluate<F: Field>(expr: &Expression<F>, trace: &Trace<F>, row: usize) -> (r: Result<
    F,
    Error,
>)
    requires
        trace@.wf(),
    ensures
        match r {
            Ok(v) => eval(expr@, trace@, row as int, F::modulus()) == Some(v.value()),
            Err(e) => e == Error::MissingWitness && eval(expr@, trace@, row as int, F::modulus())
                is None,
        },
    decreases expr,
{
    match expr {
        Expression::Query(column, rotation) => {
            let target = rotate(row, *rotation);
            match column.kind {
                ColumnKind::Advice => {
                    let state = match target {
                        Some(at) => trace.get(Cell { column: column.index, row: at }),
                        None => CellState::Unassigned,
                    };
                    match state {
                        CellState::Known(v) => Ok(v),
                        CellState::Unassigned => Err(Error::MissingWitness),
                    }
                },
                ColumnKind::Selector => {
                    let on = match target {
                        Some(at) => trace.is_enabled(SelectorHandle { index: column.index }, at),
                        None => false,
                    };
                    if on {
                        Ok(F::one())
                    } else {
                        Ok(F::zero())
                    }
                },
            }
        },
        Expression::Constant(c) => Ok(*c),
        Expression::Add(a, b) => {
            let x = evaluate(a, trace, row)?;
            let y = evaluate(b, trace, row)?;
            Ok(x.add(&y))
        },
        Expression::Sub(a, b) => {
            let x = evaluate(a, trace, row)?;
            let y = evaluate(b, trace, row)?;
            Ok(x.sub(&y))
        },
        Expression::Mul(a, b) => {
            let x = evaluate(a, trace, row)?;
            let y = evaluate(b, trace, row)?;
            Ok(x.mul(&y))
        },
        Expression::Negate(a) => {
            let x = evaluate(a, trace, row)?;
            Ok(x.neg())
        },
    }
}

/// One constraint that a trace does not satisfy.
#[derive(Debug, PartialEq, Eq)]
pub enum Violation {
    /// A gate that is on in a row and whose expression is not zero there.
    Gate { gate: usize, name: String, row: usize },
    /// A copy constraint between two cells that hold different values.
    Copy { left: Cell, right: Cell },
}

/// What a `Violation` stands for.
pub enum ViolationModel {
    Gate { gate: nat, name: Seq<char>, row: nat },
    Copy { left: Cell, right: Cell },
}

impl View for Violation {
    type V = ViolationModel;

    open spec fn view(&self) -> ViolationModel {
        match self {
            Violation::Gate { gate, name, row } => ViolationModel::Gate {
                gate: *gate as nat,
                name: name@,
                row: *row as nat,
            },
            Violation::Copy { left, right } => ViolationModel::Copy { left: *left, right: *right },
        }
    }
}

/// What a list of violations stands for.
pub open spec fn report_view(report: Seq<Violation>) -> Seq<ViolationModel> {
    Seq::new(report.len(), |i: int| report[i]@)
}

/// Whether a gate is on in a row.
pub open spec fn gate_applies(schema: SchemaModel, trace: TraceModel, gate: int, row: int) -> bool {
    trace.enabled(schema.gates[gate].selector as int, row)
}

/// The value of a gate's expression at a row.
pub open spec fn gate_value(
    schema: SchemaModel,
    trace: TraceModel,
    gate: int,
    row: int,
    modulus: nat,
) -> Option<nat> {
    eval(schema.gates[gate].poly, trace, row, modulus)
}

/// Whether a gate is on in a row and its expression has a value other than
/// zero there.
pub open spec fn gate_violated(
    schema: SchemaModel,
    trace: TraceModel,
    gate: int,
    row: int,
    modulus: nat,
) -> bool {
    gate_applies(schema, trace, gate, row) && (gate_value(schema, trace, gate, row, modulus)
        matches Some(v) && v != 0)
}

/// The finding that a gate is violated in a row.
pub open spec fn gate_finding(schema: SchemaModel, gate: int, row: int) -> ViolationModel {
    ViolationModel::Gate { gate: gate as nat, name: schema.gates[gate].name, row: row as nat }
}

/// Whether the two cells of a copy constraint both hold a value.
pub open spec fn copy_assigned(trace: TraceModel, index: int) -> bool {
    trace.cell(trace.copies[index].0.column as int, trace.copies[index].0.row as int) is Some
        && trace.cell(trace.copies[index].1.column as int, trace.copies[index].1.row as int)
        is Some
}

/// Whether the two cells of a copy constraint hold different contents.
pub open spec fn copy_violated(trace: TraceModel, index: int) -> bool {
    trace.cell(trace.copies[index].0.column as int, trace.copies[index].0.row as int)
        != trace.cell(trace.copies[index].1.column as int, trace.copies[index].1.row as int)
}

/// The finding that a copy constraint is violated.
pub open spec fn copy_finding(trace: TraceModel, index: int) -> ViolationModel {
    ViolationModel::Copy { left: trace.copies[index].0, right: trace.copies[index].1 }
}

/// Whether every gate that is on in a row has a value there, and both cells
/// of every copy constraint hold a value.
pub open spec fn witness_complete(schema: SchemaModel, trace: TraceModel, modulus: nat) -> bool {
    &&& forall|gate: int, row: int|
        0 <= gate < schema.gates.len() && 0 <= row < trace.rows.len() && #[trigger] gate_applies(
            schema,
            trace,
            gate,
            row,
        ) ==> gate_value(schema, trace, gate, row, modulus) is Some
    &&& forall|i: int| 0 <= i < trace.copies.len() ==> #[trigger] copy_assigned(trace, i)
}

/// The violated gates among the first `gates` gates in one row, in the order
/// of the gates.
pub open spec fn row_findings(
    schema: SchemaModel,
    trace: TraceModel,
    row: int,
    gates: nat,
    modulus: nat,
) -> Seq<ViolationModel>
    decreases gates,
{
    if gates == 0 {
        Seq::empty()
    } else {
        let before = row_findings(schema, trace, row, (gates - 1) as nat, modulus);
        if gate_violated(schema, trace, gates - 1, row, modulus) {
            before.push(gate_finding(schema, gates - 1, row))
        } else {
            before
        }
    }
}

/// The violated gates in the first `rows` rows, row by row.
pub open spec fn gate_findings(schema: SchemaModel, trace: TraceModel, rows: nat, modulus: nat) -> Seq<
    ViolationModel,
>
    decreases rows,
{
    if rows == 0 {
        Seq::empty()
    } else {
        gate_findings(schema, trace, (rows - 1) as nat, modulus) + row_findings(
            schema,
            trace,
            rows - 1,
            schema.gates.len(),
            modulus,
        )
    }
}

/// The violated ones among the first `copies` copy constraints, in the order
/// in which they were raised.
pub open spec fn copy_findings(trace: TraceModel, copies: nat) -> Seq<ViolationModel>
    decreases copies,
{
    if copies == 0 {
        Seq::empty()
    } else {
        let before = copy_findings(trace, (copies - 1) as nat);
        if copy_violated(trace, copies - 1) {
            before.push(copy_finding(trace, copies - 1))
        } else {
            before
        }
    }
}

/// What checking a trace against a schema comes to: where a value is
/// missing, that; else the violated gates, row by row, followed by the
/// violated copy constraints.
pub open spec fn check_result(schema: SchemaModel, trace: TraceModel, modulus: nat) -> Result<
    Seq<ViolationModel>,
    Error,
> {
    if witness_complete(schema, trace, modulus) {
        Ok(
            gate_findings(schema, trace, trace.rows.len(), modulus) + copy_findings(
                trace,
                trace.copies.len(),
            ),
        )
    } else {
        Err(Error::MissingWitness)
    }
}

/// Whether a finding names a gate among the first `gates` gates that is
/// violated in a row among the first `rows` rows.
pub open spec fn names_violated_gate(
    schema: SchemaModel,
    trace: TraceModel,
    finding: ViolationModel,
    gates: nat,
    rows: nat,
    modulus: nat,
) -> bool {
    match finding {
        ViolationModel::Gate { gate, name, row } => gate < gates && row < rows && name
            == schema.gates[gate as int].name && gate_violated(
            schema,
            trace,
            gate as int,
            row as int,
            modulus,
        ),
        ViolationModel::Copy { .. } => false,
    }
}

/// Whether a finding names one of the first `copies` copy constraints whose
/// two cells hold different contents.
pub open spec fn names_violated_copy(trace: TraceModel, finding: ViolationModel, copies: nat) -> bool {
    match finding {
        ViolationModel::Gate { .. } => false,
        ViolationModel::Copy { left, right } => trace.copies.take(copies as int).contains(
            (left, right),
        ) && trace.cell(left.column as int, left.row as int) != trace.cell(
            right.column as int,
            right.row as int,
        ),
    }
}

/// Whether a trace satisfies a schema: every value that is asked for is
/// there, every gate is zero in every row in which it is on, and the two
/// cells of every copy constraint hold the same value.
pub open spec fn satisfied(schema: SchemaModel, trace: TraceModel, modulus: nat) -> bool {
    &&& witness_complete(schema, trace, modulus)
    &&& forall|gate: int, row: int|
        0 <= gate < schema.gates.len() && 0 <= row < trace.rows.len() && #[trigger] gate_applies(
            schema,
            trace,
            gate,
            row,
        ) ==> gate_value(schema, trace, gate, row, modulus) == Some(0nat)
    &&& forall|i: int| 0 <= i < trace.copies.len() ==> !#[trigger] copy_violated(trace, i)
}

/// The findings of one row are the violated gates of that row.
pub proof fn lemma_row_findings(
    schema: SchemaModel,
    trace: TraceModel,
    row: int,
    gates: nat,
    modulus: nat,
    finding: ViolationModel,
)
    requires
        0 <= row,
    ensures
        row_findings(schema, trace, row, gates, modulus).contains(finding) <==> (finding matches ViolationModel::Gate {
            row: at,
            ..
        } && at == row && names_violated_gate(
            schema,
            trace,
            finding,
            gates,
            (row + 1) as nat,
            modulus,
        )),
    decreases gates,
{
    if gates == 0 {
        vstd::seq_lib::lemma_seq_empty_contains_nothing(finding);
    } else {
        let before = row_findings(schema, trace, row, (gates - 1) as nat, modulus);
        lemma_row_findings(schema, trace, row, (gates - 1) as nat, modulus, finding);
        if gate_violated(schema, trace, gates - 1, row, modulus) {
            vstd::seq_lib::lemma_seq_contains_after_push(
                before,
                gate_finding(schema, gates - 1, row),
                finding,
            );
        }
    }
}

/// The findings on the gates are the gates that are violated, each with the
/// row in which it is.
pub proof fn lemma_gate_findings(
    schema: SchemaModel,
    trace: TraceModel,
    rows: nat,
    modulus: nat,
    finding: ViolationModel,
)
    ensures
        gate_findings(schema, trace, rows, modulus).contains(finding) <==> names_violated_gate(
            schema,
            trace,
            finding,
            schema.gates.len(),
            rows,
            modulus,
        ),
    decreases rows,
{
    if rows == 0 {
        vstd::seq_lib::lemma_seq_empty_contains_nothing(finding);
    } else {
        lemma_gate_findings(schema, trace, (rows - 1) as nat, modulus, finding);
        lemma_row_findings(schema, trace, rows - 1, schema.gates.len(), modulus, finding);
        vstd::seq_lib::lemma_seq_concat_contains_all_elements(
            gate_findings(schema, trace, (rows - 1) as nat, modulus),
            row_findings(schema, trace, rows - 1, schema.gates.len(), modulus),
            finding,
        );
    }
}

/// The findings on the copy constraints are the constraints whose two cells
/// hold different contents.
pub proof fn lemma_copy_findings(trace: TraceModel, copies: nat, finding: ViolationModel)
    requires
        copies <= trace.copies.len(),
    ensures
        copy_findings(trace, copies).contains(finding) <==> names_violated_copy(
            trace,
            finding,
            copies,
        ),
    decreases copies,
{
    if copies == 0 {
        vstd::seq_lib::lemma_seq_empty_contains_nothing(finding);
        assert(trace.copies.take(0) =~= Seq::empty());
        match finding {
            ViolationModel::Copy { left, right } => {
                vstd::seq_lib::lemma_seq_empty_contains_nothing((left, right));
            },
            _ => {},
        }
    } else {
        let before = copy_findings(trace, (copies - 1) as nat);
        lemma_copy_findings(trace, (copies - 1) as nat, finding);
        assert(trace.copies.take(copies as int) =~= trace.copies.take(copies - 1).push(
            trace.copies[copies - 1],
        ));
        match finding {
            ViolationModel::Copy { left, right } => {
                vstd::seq_lib::lemma_seq_contains_after_push(
                    trace.copies.take(copies - 1),
                    trace.copies[copies - 1],
                    (left, right),
                );
            },
            _ => {},
        }
        if copy_violated(trace, copies - 1) {
            vstd::seq_lib::lemma_seq_contains_after_push(
                before,
                copy_finding(trace, copies - 1),
                finding,
            );
        }
    }
}

/// A check ends with an empty report exactly when the trace satisfies the
/// schema.
pub proof fn lemma_empty_report(schema: SchemaModel, trace: TraceModel, modulus: nat)
    ensures
        check_result(schema, trace, modulus) == Ok::<Seq<ViolationModel>, Error>(Seq::empty())
            <==> satisfied(schema, trace, modulus),
{
    let gates = gate_findings(schema, trace, trace.rows.len(), modulus);
    let copies = copy_findings(trace, trace.copies.len());
    if witness_complete(schema, trace, modulus) {
        if satisfied(schema, trace, modulus) {
            if gates.len() > 0 {
                lemma_gate_findings(schema, trace, trace.rows.len(), modulus, gates[0]);
                assert(gates.contains(gates[0]));
                match gates[0] {
                    ViolationModel::Gate { gate, name, row } => {
                        assert(gate_applies(schema, trace, gate as int, row as int));
                    },
                    _ => {},
                }
            }
            if copies.len() > 0 {
                lemma_copy_findings(trace, trace.copies.len(), copies[0]);
                assert(copies.contains(copies[0]));
                match copies[0] {
                    ViolationModel::Copy { left, right } => {
                        let all = trace.copies.take(trace.copies.len() as int);
                        let i = choose|i: int| 0 <= i < all.len() && all[i] == (left, right);
                        assert(!copy_violated(trace, i));
                    },
                    _ => {},
                }
            }
            assert(gates + copies =~= Seq::empty());
        }
        if gates + copies == Seq::<ViolationModel>::empty() {
            assert(gates.len() + copies.len() == (gates + copies).len());
            assert forall|gate: int, row: int|
                0 <= gate < schema.gates.len() && 0 <= row < trace.rows.len()
                    && #[trigger] gate_applies(schema, trace, gate, row) implies gate_value(
                schema,
                trace,
                gate,
                row,
                modulus,
            ) == Some(0nat) by {
                lemma_gate_findings(
                    schema,
                    trace,
                    trace.rows.len(),
                    modulus,
                    gate_finding(schema, gate, row),
                );
                if gate_violated(schema, trace, gate, row, modulus) {
                    let i = choose|i: int|
                        0 <= i < gates.len() && gates[i] == gate_finding(schema, gate, row);
                }
            }
            assert forall|i: int| 0 <= i < trace.copies.len() implies !#[trigger] copy_violated(
                trace,
                i,
            ) by {
                lemma_copy_findings(trace, trace.copies.len(), copy_finding(trace, i));
                if copy_violated(trace, i) {
                    assert(trace.copies.take(trace.copies.len() as int)[i] == trace.copies[i]);
                    let j = choose|j: int|
                        0 <= j < copies.len() && copies[j] == copy_finding(trace, i);
                }
            }
        }
    }
}

/// What the outcome of a check stands for.
pub open spec fn outcome_view(outcome: Result<Vec<Violation>, Error>) -> Result<
    Seq<ViolationModel>,
    Error,
> {
    match outcome {
        Ok(report) => Ok(report_view(report@)),
        Err(e) => Err(e),
    }
}

/// Whether a polynomial has a value does not depend on what the cells hold,
/// only on which of them hold something.
pub proof fn lemma_overwrite_keeps_defined(
    poly: Poly,
    trace: TraceModel,
    column: int,
    row: int,
    value: nat,
    at: int,
    modulus: nat,
)
    requires
        trace.cell(column, row) is Some,
    ensures
        eval(poly, trace.with_cell(column, row, value), at, modulus) is Some <==> eval(
            poly,
            trace,
            at,
            modulus,
        ) is Some,
    decreases poly,
{
    lemma_overwrite(trace, column, row, value);
    match poly {
        Poly::Query(queried, rotation) => {
            if queried.index as int != column || at + rotation != row {
                assert(trace.with_cell(column, row, value).cell(queried.index as int, at + rotation)
                    == trace.cell(queried.index as int, at + rotation));
            }
        },
        Poly::Constant(_) => {},
        Poly::Add(a, b) => {
            lemma_overwrite_keeps_defined(*a, trace, column, row, value, at, modulus);
            lemma_overwrite_keeps_defined(*b, trace, column, row, value, at, modulus);
        },
        Poly::Sub(a, b) => {
            lemma_overwrite_keeps_defined(*a, trace, column, row, value, at, modulus);
            lemma_overwrite_keeps_defined(*b, trace, column, row, value, at, modulus);
        },
        Poly::Mul(a, b) => {
            lemma_overwrite_keeps_defined(*a, trace, column, row, value, at, modulus);
            lemma_overwrite_keeps_defined(*b, trace, column, row, value, at, modulus);
        },
        Poly::Negate(a) => {
            lemma_overwrite_keeps_defined(*a, trace, column, row, value, at, modulus);
        },
    }
}

/// A trace in which every value that is asked for is there stays so when a
/// cell that holds a value is overwritten.
pub proof fn lemma_overwrite_keeps_complete(
    schema: SchemaModel,
    trace: TraceModel,
    column: int,
    row: int,
    value: nat,
    modulus: nat,
)
    requires
        trace.cell(column, row) is Some,
        witness_complete(schema, trace, modulus),
    ensures
        witness_complete(schema, trace.with_cell(column, row, value), modulus),
{
    let written = trace.with_cell(column, row, value);
    lemma_overwrite(trace, column, row, value);
    assert forall|gate: int, at: int|
        0 <= gate < schema.gates.len() && 0 <= at < written.rows.len() && #[trigger] gate_applies(
            schema,
            written,
            gate,
            at,
        ) implies gate_value(schema, written, gate, at, modulus) is Some by {
        assert(gate_applies(schema, trace, gate, at));
        lemma_overwrite_keeps_defined(
            schema.gates[gate].poly,
            trace,
            column,
            row,
            value,
            at,
            modulus,
        );
    }
    assert forall|i: int| 0 <= i < written.copies.len() implies #[trigger] copy_assigned(
        written,
        i,
    ) by {
        assert(copy_assigned(trace, i));
        let (left, right) = trace.copies[i];
        if left.column as int != column || left.row as int != row {
            assert(written.cell(left.column as int, left.row as int) == trace.cell(
                left.column as int,
                left.row as int,
            ));
        }
        if right.column as int != column || right.row as int != row {
            assert(written.cell(right.column as int, right.row as int) == trace.cell(
                right.column as int,
                right.row as int,
            ));
        }
    }
}

/// A broken copy constraint is reported as such: where the second cell of a
/// copy constraint is overwritten with a value other than that of the
/// first, the report holds the finding on that copy constraint, which is no
/// finding on a gate.
pub proof fn lemma_broken_copy_reported(
    schema: SchemaModel,
    trace: TraceModel,
    index: int,
    value: nat,
    modulus: nat,
)
    requires
        witness_complete(schema, trace, modulus),
        0 <= index < trace.copies.len(),
        trace.copies[index].0 != trace.copies[index].1,
        trace.cell(trace.copies[index].0.column as int, trace.copies[index].0.row as int) != Some(
            value,
        ),
    ensures
        check_result(
            schema,
            trace.with_cell(
                trace.copies[index].1.column as int,
                trace.copies[index].1.row as int,
                value,
            ),
            modulus,
        ) matches Ok(report) && report.contains(
            ViolationModel::Copy { left: trace.copies[index].0, right: trace.copies[index].1 },
        ),
{
    let (source, copied) = trace.copies[index];
    let broken = trace.with_cell(copied.column as int, copied.row as int, value);
    assert(copy_assigned(trace, index));
    lemma_overwrite(trace, copied.column as int, copied.row as int, value);
    lemma_overwrite_keeps_complete(
        schema,
        trace,
        copied.column as int,
        copied.row as int,
        value,
        modulus,
    );
    assert(broken.cell(source.column as int, source.row as int) == trace.cell(
        source.column as int,
        source.row as int,
    ));
    assert(copy_violated(broken, index));
    let finding = copy_finding(broken, index);
    lemma_copy_findings(broken, broken.copies.len(), finding);
    assert(broken.copies.take(broken.copies.len() as int)[index] == (source, copied));
    vstd::seq_lib::lemma_seq_concat_contains_all_elements(
        gate_findings(schema, broken, broken.rows.len(), modulus),
        copy_findings(broken, broken.copies.len()),
        finding,
    );
}

/// Checking is a function of the schema and the trace: two checks of the
/// same trace against the same schema end with the same report.
pub proof fn lemma_check_repeatable(
    schema: SchemaModel,
    trace: TraceModel,
    modulus: nat,
    first: Result<Vec<Violation>, Error>,
    second: Result<Vec<Violation>, Error>,
)
    requires
        outcome_view(first) == check_result(schema, trace, modulus),
        outcome_view(second) == check_result(schema, trace, modulus),
    ensures
        outcome_view(first) == outcome_view(second),
{
}

/// Checks the gates of one row and adds the violated ones to the report.
/// Stops without a report at a gate that is on and has no value.
fn check_row<F: Field>(
    schema: &Schema<F>,
    trace: &Trace<F>,
    row: usize,
    report: &mut Vec<Violation>,
) -> (complete: bool)
    requires
        trace@.wf(),
        row < trace@.rows.len(),
    ensures
        complete <==> (forall|gate: int|
            0 <= gate < schema@.gates.len() && #[trigger] gate_applies(
                schema@,
                trace@,
                gate,
                row as int,
            ) ==> gate_value(schema@, trace@, gate, row as int, F::modulus()) is Some),
        complete ==> report_view(final(report)@) == report_view(old(report)@) + row_findings(
            schema@,
            trace@,
            row as int,
            schema@.gates.len(),
            F::modulus(),
        ),
{
    let mut g: usize = 0;
    while g < schema.num_gates()
        invariant
            trace@.wf(),
            g <= schema@.gates.len(),
            forall|gate: int|
                0 <= gate < g && #[trigger] gate_applies(schema@, trace@, gate, row as int)
                    ==> gate_value(schema@, trace@, gate, row as int, F::modulus()) is Some,
            report_view(report@) == report_view(old(report)@) + row_findings(
                schema@,
                trace@,
                row as int,
                g as nat,
                F::modulus(),
            ),
        decreases schema@.gates.len() - g,
    {
        let gate = match schema.gate(g) {
            Some(gate) => gate,
            None => {
                return false;
            },
        };
        if trace.is_enabled(gate.selector, row) {
            match evaluate(&gate.expr, trace, row) {
                Ok(v) => {
                    let zero = F::zero();
                    if !v.is_equal(&zero) {
                        let ghost before = report@;
                        let found = Violation::Gate { gate: g, name: gate.name.clone(), row };
                        report.push(found);
                        assert(report_view(report@) =~= report_view(before).push(found@));
                        assert(found@ == gate_finding(schema@, g as int, row as int));
                    }
                },
                Err(_) => {
                    assert(gate_applies(schema@, trace@, g as int, row as int));
                    return false;
                },
            }
        }
        assert(report_view(report@) =~= report_view(old(report)@) + row_findings(
            schema@,
            trace@,
            row as int,
            (g + 1) as nat,
            F::modulus(),
        ));
        g += 1;
    }
    true
}

/// Checks the copy constraints and adds the violated ones to the report.
/// Stops without a report at a constraint one of whose cells holds nothing.
fn check_copies<F: Field>(trace: &Trace<F>, report: &mut Vec<Violation>) -> (complete: bool)
    requires
        trace@.wf(),
    ensures
        complete <==> (forall|i: int|
            0 <= i < trace@.copies.len() ==> #[trigger] copy_assigned(trace@, i)),
        complete ==> report_view(final(report)@) == report_view(old(report)@) + copy_findings(
            trace@,
            trace@.copies.len(),
        ),
{
    let mut i: usize = 0;
    while i < trace.num_copies()
        invariant
            trace@.wf(),
            i <= trace@.copies.len(),
            forall|j: int| 0 <= j < i ==> #[trigger] copy_assigned(trace@, j),
            report_view(report@) == report_view(old(report)@) + copy_findings(trace@, i as nat),
        decreases trace@.copies.len() - i,
    {
        let (left, right) = match trace.copy(i) {
            Some(pair) => pair,
            None => {
                return false;
            },
        };
        let x = match trace.get(left) {
            CellState::Known(x) => x,
            CellState::Unassigned => {
                assert(!copy_assigned(trace@, i as int));
                return false;
            },
        };
        let y = match trace.get(right) {
            CellState::Known(y) => y,
            CellState::Unassigned => {
                assert(!copy_assigned(trace@, i as int));
                return false;
            },
        };
        if !x.is_equal(&y) {
            let ghost before = report@;
            let found = Violation::Copy { left, right };
            report.push(found);
            assert(report_view(report@) =~= report_view(before).push(found@));
        }
        assert(report_view(report@) =~= report_view(old(report)@) + copy_findings(
            trace@,
            (i + 1) as nat,
        ));
        i += 1;
    }
    true
}

/// Checks a finished trace against a schema.
///
/// Every gate is evaluated in every row in which its selector is on, and the
/// two cells of every copy constraint are compared. Where a gate that is on,
/// or a copy constraint, speaks of a cell that holds nothing, the check
/// fails with `MissingWitness`. Else it returns every violation: the gates
/// row by row, in the order of the schema, then the copy constraints in the
/// order in which they were raised. The trace satisfies the schema exactly
/// when that list is empty.
pub fn check<F: Field>(schema: &Schema<F>, trace: &Trace<F>) -> (r: Result<Vec<Violation>, Error>)
    requires
        trace@.wf(),
    ensures
        outcome_view(r) == check_result(schema@, trace@, F::modulus()),
        r matches Ok(report) ==> (report@.len() == 0 <==> satisfied(
            schema@,
            trace@,
            F::modulus(),
        )),
{
    proof {
        lemma_empty_report(schema@, trace@, F::modulus());
    }
    let mut report: Vec<Violation> = Vec::new();
    assert(report_view(report@) =~= Seq::empty());
    let mut row: usize = 0;
    while row < trace.num_rows()
        invariant
            trace@.wf(),
            row <= trace@.rows.len(),
            forall|gate: int, at: int|
                0 <= gate < schema@.gates.len() && 0 <= at < row && #[trigger] gate_applies(
                    schema@,
                    trace@,
                    gate,
                    at,
                ) ==> gate_value(schema@, trace@, gate, at, F::modulus()) is Some,
            report_view(report@) == gate_findings(schema@, trace@, row as nat, F::modulus()),
        decreases trace@.rows.len() - row,
    {
        let complete = check_row(schema, trace, row, &mut report);
        if !complete {
            return Err(Error::MissingWitness);
        }
        row += 1;
    }
    let complete = check_copies(trace, &mut report);
    if !complete {
        return Err(Error::MissingWitness);
    }
    proof {
        assert(report_view(report@).len() == report@.len());
        if report@.len() == 0 {
            assert(report_view(report@) =~= Seq::empty());
        }
    }
    Ok(report)
}

} // verus!
