use fibo_circuit::checker::{check, evaluate, rotate, Violation};
use fibo_circuit::circuit::FiboCircuit;
use fibo_circuit::error::Error;
use fibo_circuit::field::Field;
use fibo_circuit::pasta::PastaFp;
use fibo_circuit::schema::{
    ColumnHandle, ColumnKind, Expression, Schema, SchemaBuilder, SelectorHandle,
};
use fibo_circuit::trace::{Cell, Trace};

fn num(v: u64) -> PastaFp {
    PastaFp::from_u64(v)
}

fn advice_column(index: usize) -> ColumnHandle {
    ColumnHandle { kind: ColumnKind::Advice, index }
}

fn cell_query(column: usize, rotation: i32) -> Box<Expression<PastaFp>> {
    Box::new(Expression::Query(advice_column(column), rotation))
}

fn constant(v: u64) -> Box<Expression<PastaFp>> {
    Box::new(Expression::Constant(num(v)))
}

/// Two advice columns that take part in copy constraints and one selector,
/// with one gate, "double": the second cell is twice the first.
fn doubling_schema() -> Schema<PastaFp> {
    let mut meta = SchemaBuilder::<PastaFp>::new();
    let x = meta.declare_column(ColumnKind::Advice);
    let y = meta.declare_column(ColumnKind::Advice);
    let s = meta.declare_selector();
    meta.enable_equality(x).unwrap();
    meta.enable_equality(y).unwrap();
    let twice = Expression::Mul(constant(2), cell_query(0, 0));
    meta.add_gate("double", s, Expression::Sub(Box::new(twice), cell_query(1, 0))).unwrap();
    meta.build()
}

fn doubling_row(trace: &mut Trace<PastaFp>, x: u64, y: u64) {
    trace.begin_region("row");
    trace.enable_selector(SelectorHandle { index: 0 }, 0).unwrap();
    trace.assign_advice(advice_column(0), 0, Some(num(x))).unwrap();
    trace.assign_advice(advice_column(1), 0, Some(num(y))).unwrap();
}

#[test]
fn rotate_moves_within_the_rows_that_can_be_counted() {
    assert_eq!(rotate(5, 0), Some(5));
    assert_eq!(rotate(5, 3), Some(8));
    assert_eq!(rotate(5, -5), Some(0));
    assert_eq!(rotate(5, -6), None);
    assert_eq!(rotate(0, i32::MIN), None);
    assert_eq!(rotate(usize::MAX, 1), None);
    assert_eq!(rotate(usize::MAX, -1), Some(usize::MAX - 1));
    assert_eq!(rotate(1 << 31, i32::MIN), Some(0));
}

#[test]
fn evaluate_computes_every_kind_of_expression() {
    let schema = doubling_schema();
    let mut trace = Trace::new(&schema, 2).unwrap();
    doubling_row(&mut trace, 7, 3);
    doubling_row(&mut trace, 10, 20);
    assert_eq!(evaluate(&cell_query(0, 0), &trace, 1), Ok(num(10)));
    assert_eq!(evaluate(&cell_query(1, -1), &trace, 1), Ok(num(3)));
    assert_eq!(evaluate(&cell_query(1, 1), &trace, 0), Ok(num(20)));
    assert_eq!(evaluate(&constant(9), &trace, 0), Ok(num(9)));
    assert_eq!(evaluate(&constant(9), &trace, 99), Ok(num(9)));
    let sum = Expression::Add(cell_query(0, 0), cell_query(1, 0));
    assert_eq!(evaluate(&sum, &trace, 0), Ok(num(10)));
    let difference = Expression::Sub(cell_query(0, 0), cell_query(1, 0));
    assert_eq!(evaluate(&difference, &trace, 0), Ok(num(4)));
    assert_eq!(evaluate(&difference, &trace, 1), Ok(num(10).neg()));
    let product = Expression::Mul(cell_query(0, 0), cell_query(1, 0));
    assert_eq!(evaluate(&product, &trace, 1), Ok(num(200)));
    let negated = Expression::Negate(cell_query(0, 0));
    assert_eq!(evaluate(&negated, &trace, 0), Ok(num(0).sub(&num(7))));
    let nested = Expression::Sub(
        Box::new(Expression::Mul(Box::new(sum), constant(3))),
        Box::new(Expression::Negate(cell_query(0, 1))),
    );
    assert_eq!(evaluate(&nested, &trace, 0), Ok(num(40)));
}

#[test]
fn evaluate_counts_a_selector_as_one_or_zero() {
    let schema = doubling_schema();
    let mut trace = Trace::new(&schema, 2).unwrap();
    doubling_row(&mut trace, 1, 2);
    trace.begin_region("off");
    trace.assign_advice(advice_column(0), 0, Some(num(5))).unwrap();
    let selector =
        Expression::<PastaFp>::Query(ColumnHandle { kind: ColumnKind::Selector, index: 0 }, 0);
    assert_eq!(evaluate(&selector, &trace, 0), Ok(num(1)));
    assert_eq!(evaluate(&selector, &trace, 1), Ok(num(0)));
    assert_eq!(evaluate(&selector, &trace, 3), Ok(num(0)));
    let before =
        Expression::<PastaFp>::Query(ColumnHandle { kind: ColumnKind::Selector, index: 0 }, -1);
    assert_eq!(evaluate(&before, &trace, 1), Ok(num(1)));
    assert_eq!(evaluate(&before, &trace, 0), Ok(num(0)));
}

#[test]
fn evaluate_over_an_unassigned_cell_is_a_missing_witness() {
    let schema = doubling_schema();
    let mut trace = Trace::new(&schema, 2).unwrap();
    trace.begin_region("half");
    trace.assign_advice(advice_column(0), 0, Some(num(5))).unwrap();
    assert_eq!(evaluate(&cell_query(1, 0), &trace, 0), Err(Error::MissingWitness));
    assert_eq!(evaluate(&cell_query(0, 1), &trace, 0), Err(Error::MissingWitness));
    assert_eq!(evaluate(&cell_query(0, -1), &trace, 0), Err(Error::MissingWitness));
    assert_eq!(evaluate(&cell_query(2, 0), &trace, 0), Err(Error::MissingWitness));
    let sum = Expression::Add(cell_query(0, 0), cell_query(1, 0));
    assert_eq!(evaluate(&sum, &trace, 0), Err(Error::MissingWitness));
    let product = Expression::Mul(constant(0), cell_query(1, 0));
    assert_eq!(evaluate(&product, &trace, 0), Err(Error::MissingWitness));
    let negated = Expression::Negate(cell_query(1, 0));
    assert_eq!(evaluate(&negated, &trace, 0), Err(Error::MissingWitness));
}

#[test]
fn check_passes_a_trace_that_satisfies_every_gate() {
    let schema = doubling_schema();
    let mut trace = Trace::new(&schema, 2).unwrap();
    doubling_row(&mut trace, 1, 2);
    doubling_row(&mut trace, 21, 42);
    assert_eq!(check(&schema, &trace), Ok(vec![]));
}

#[test]
fn check_passes_an_empty_trace() {
    let schema = doubling_schema();
    let trace = Trace::new(&schema, 2).unwrap();
    assert_eq!(check(&schema, &trace), Ok(vec![]));
}

#[test]
fn check_ignores_a_gate_whose_selector_is_off() {
    let schema = doubling_schema();
    let mut trace = Trace::new(&schema, 2).unwrap();
    trace.begin_region("off");
    trace.assign_advice(advice_column(0), 0, Some(num(1))).unwrap();
    trace.assign_advice(advice_column(1), 0, Some(num(3))).unwrap();
    trace.begin_region("unassigned");
    trace.assign_advice(advice_column(0), 0, Some(num(1))).unwrap();
    assert_eq!(check(&schema, &trace), Ok(vec![]));
}

#[test]
fn check_reports_every_violation_in_order() {
    let mut meta = SchemaBuilder::<PastaFp>::new();
    let x = meta.declare_column(ColumnKind::Advice);
    let y = meta.declare_column(ColumnKind::Advice);
    let s = meta.declare_selector();
    meta.enable_equality(x).unwrap();
    meta.enable_equality(y).unwrap();
    meta.add_gate("same", s, Expression::Sub(cell_query(0, 0), cell_query(1, 0))).unwrap();
    meta.add_gate("zero", s, Expression::Query(x, 0)).unwrap();
    let schema = meta.build();
    let mut trace = Trace::new(&schema, 2).unwrap();
    doubling_row(&mut trace, 1, 2);
    doubling_row(&mut trace, 0, 0);
    doubling_row(&mut trace, 3, 3);
    trace.constrain_equal(Cell { column: 0, row: 0 }, Cell { column: 1, row: 2 }).unwrap();
    trace.constrain_equal(Cell { column: 0, row: 2 }, Cell { column: 1, row: 2 }).unwrap();
    trace.constrain_equal(Cell { column: 1, row: 0 }, Cell { column: 1, row: 1 }).unwrap();
    assert_eq!(
        check(&schema, &trace),
        Ok(vec![
            Violation::Gate { gate: 0, name: "same".to_string(), row: 0 },
            Violation::Gate { gate: 1, name: "zero".to_string(), row: 0 },
            Violation::Gate { gate: 1, name: "zero".to_string(), row: 2 },
            Violation::Copy {
                left: Cell { column: 0, row: 0 },
                right: Cell { column: 1, row: 2 },
            },
            Violation::Copy {
                left: Cell { column: 1, row: 0 },
                right: Cell { column: 1, row: 1 },
            },
        ])
    );
}

#[test]
fn check_fails_where_an_enabled_gate_lacks_a_value() {
    let schema = doubling_schema();
    let mut trace = Trace::new(&schema, 2).unwrap();
    doubling_row(&mut trace, 1, 3);
    trace.begin_region("half");
    trace.enable_selector(SelectorHandle { index: 0 }, 0).unwrap();
    trace.assign_advice(advice_column(0), 0, Some(num(1))).unwrap();
    assert_eq!(check(&schema, &trace), Err(Error::MissingWitness));
}

#[test]
fn check_fails_where_a_copy_constraint_lacks_a_value() {
    let schema = doubling_schema();
    let mut trace = Trace::new(&schema, 2).unwrap();
    doubling_row(&mut trace, 1, 2);
    trace.constrain_equal(Cell { column: 0, row: 0 }, Cell { column: 0, row: 1 }).unwrap();
    assert_eq!(check(&schema, &trace), Err(Error::MissingWitness));
    let mut other = Trace::new(&schema, 2).unwrap();
    doubling_row(&mut other, 1, 2);
    other.constrain_equal(Cell { column: 1, row: 3 }, Cell { column: 0, row: 0 }).unwrap();
    assert_eq!(check(&schema, &other), Err(Error::MissingWitness));
}

#[test]
fn broken_copy_is_reported_as_a_copy_violation() {
    let schema = doubling_schema();
    let mut trace = Trace::new(&schema, 2).unwrap();
    trace.begin_region("source");
    let source = trace.assign_advice(advice_column(1), 0, Some(num(6))).unwrap();
    trace.begin_region("target");
    let copied = trace.copy_advice(source, advice_column(0), 0).unwrap();
    assert_eq!(check(&schema, &trace), Ok(vec![]));
    assert!(trace.tamper(copied, num(7)));
    assert_eq!(
        check(&schema, &trace),
        Ok(vec![Violation::Copy { left: source, right: copied }])
    );
}

#[test]
fn check_gives_the_same_report_twice() {
    let circuit = FiboCircuit { a: Some(num(1)), b: Some(num(1)), steps: 7 };
    let (schema, mut trace) = circuit.run(4).unwrap();
    assert_eq!(check(&schema, &trace), check(&schema, &trace));
    assert!(trace.tamper(Cell { column: 0, row: 3 }, num(100)));
    let first = check(&schema, &trace);
    let second = check(&schema, &trace);
    assert_eq!(first, second);
    assert_eq!(first.unwrap().len(), 2);
    let incomplete = Trace::new(&doubling_schema(), 1).map(|mut t| {
        t.begin_region("r");
        t.enable_selector(SelectorHandle { index: 0 }, 0).unwrap();
        t
    });
    let incomplete = incomplete.unwrap();
    assert_eq!(check(&doubling_schema(), &incomplete), Err(Error::MissingWitness));
    assert_eq!(check(&doubling_schema(), &incomplete), check(&doubling_schema(), &incomplete));
}
