use fibo_circuit::chip::{FiboChip, FiboConfig};
use fibo_circuit::error::Error;
use fibo_circuit::pasta::PastaFp;
use fibo_circuit::schema::{
    ColumnHandle, ColumnKind, Expression, Schema, SchemaBuilder, SelectorHandle,
};
use fibo_circuit::trace::{Cell, Trace};

fn fp(v: u64) -> PastaFp {
    PastaFp::from_u64(v)
}

fn advice(index: usize) -> ColumnHandle {
    ColumnHandle { kind: ColumnKind::Advice, index }
}

fn configured() -> (Schema<PastaFp>, FiboConfig) {
    let mut meta = SchemaBuilder::<PastaFp>::new();
    let config = FiboChip::<PastaFp>::configure(&mut meta);
    (meta.build(), config)
}

#[test]
fn configure_declares_three_columns_a_selector_and_the_sum_gate() {
    let mut meta = SchemaBuilder::<PastaFp>::new();
    let other = meta.declare_column(ColumnKind::Advice);
    meta.declare_selector();
    let config = FiboChip::<PastaFp>::configure(&mut meta);
    assert_eq!(config.advice, [advice(1), advice(2), advice(3)]);
    assert_eq!(config.selector, SelectorHandle { index: 1 });
    let schema = meta.build();
    assert_eq!(schema.num_advice(), 4);
    assert_eq!(schema.num_selectors(), 2);
    assert!(!schema.is_equality_enabled(other));
    for column in config.advice {
        assert!(schema.is_equality_enabled(column));
    }
    assert_eq!(schema.num_gates(), 1);
    let gate = schema.gate(0).unwrap();
    assert_eq!(gate.name, "sum");
    assert_eq!(gate.selector, config.selector);
    match &gate.expr {
        Expression::Sub(sum, c) => {
            match &**sum {
                Expression::Add(a, b) => {
                    assert!(matches!(&**a, Expression::Query(col, 0) if *col == advice(1)));
                    assert!(matches!(&**b, Expression::Query(col, 0) if *col == advice(2)));
                }
                other => panic!("unexpected summands: {:?}", other),
            }
            assert!(matches!(&**c, Expression::Query(col, 0) if *col == advice(3)));
        }
        other => panic!("unexpected expression: {:?}", other),
    }
}

#[test]
fn first_row_holds_the_seeds_and_their_sum() {
    let (schema, config) = configured();
    let mut trace = Trace::new(&schema, 2).unwrap();
    let chip = FiboChip::<PastaFp>::construct(config);
    let cells = chip.assign_first_row(&mut trace, Some(fp(3)), Some(fp(4))).unwrap();
    assert_eq!(
        cells,
        (Cell { column: 0, row: 0 }, Cell { column: 1, row: 0 }, Cell { column: 2, row: 0 })
    );
    assert_eq!(trace.get(cells.0).known(), Some(fp(3)));
    assert_eq!(trace.get(cells.1).known(), Some(fp(4)));
    assert_eq!(trace.get(cells.2).known(), Some(fp(7)));
    assert!(trace.is_enabled(config.selector, 0));
    assert_eq!(trace.num_rows(), 1);
    assert_eq!(trace.num_copies(), 0);
    assert_eq!(trace.num_regions(), 1);
    assert_eq!(trace.region(0).unwrap().name, "first row");
    assert_eq!(trace.region(0).unwrap().start, 0);
}

#[test]
fn next_row_copies_two_cells_and_writes_their_sum() {
    let (schema, config) = configured();
    let mut trace = Trace::new(&schema, 2).unwrap();
    let chip = FiboChip::<PastaFp>::construct(config);
    let (_, b, c) = chip.assign_first_row(&mut trace, Some(fp(3)), Some(fp(4))).unwrap();
    let sum = chip.assign_row(&mut trace, &b, &c).unwrap();
    assert_eq!(sum, Cell { column: 2, row: 1 });
    assert_eq!(trace.get(Cell { column: 0, row: 1 }).known(), Some(fp(4)));
    assert_eq!(trace.get(Cell { column: 1, row: 1 }).known(), Some(fp(7)));
    assert_eq!(trace.get(sum).known(), Some(fp(11)));
    assert!(trace.is_enabled(config.selector, 1));
    assert_eq!(trace.num_rows(), 2);
    assert_eq!(trace.num_copies(), 2);
    assert_eq!(trace.copy(0), Some((b, Cell { column: 0, row: 1 })));
    assert_eq!(trace.copy(1), Some((c, Cell { column: 1, row: 1 })));
    assert_eq!(trace.num_regions(), 2);
    assert_eq!(trace.region(1).unwrap().name, "next row");
    assert_eq!(trace.region(1).unwrap().start, 1);
}

#[test]
fn first_row_without_a_seed_is_a_missing_witness() {
    let (schema, config) = configured();
    let mut trace = Trace::new(&schema, 2).unwrap();
    let chip = FiboChip::<PastaFp>::construct(config);
    assert_eq!(chip.assign_first_row(&mut trace, None, Some(fp(1))), Err(Error::MissingWitness));
    assert_eq!(chip.assign_first_row(&mut trace, Some(fp(1)), None), Err(Error::MissingWitness));
    assert_eq!(chip.assign_first_row(&mut trace, None, None), Err(Error::MissingWitness));
    assert_eq!(trace.num_rows(), 0);
    assert_eq!(trace.num_regions(), 0);
}

#[test]
fn next_row_from_an_unassigned_cell_is_a_missing_witness() {
    let (schema, config) = configured();
    let mut trace = Trace::new(&schema, 2).unwrap();
    let chip = FiboChip::<PastaFp>::construct(config);
    let (_, b, _) = chip.assign_first_row(&mut trace, Some(fp(3)), Some(fp(4))).unwrap();
    let nowhere = Cell { column: 2, row: 1 };
    assert_eq!(chip.assign_row(&mut trace, &b, &nowhere), Err(Error::MissingWitness));
    assert_eq!(chip.assign_row(&mut trace, &nowhere, &b), Err(Error::MissingWitness));
    assert_eq!(trace.num_rows(), 1);
    assert_eq!(trace.num_regions(), 1);
    assert_eq!(trace.num_copies(), 0);
}

#[test]
fn rows_beyond_the_table_are_refused() {
    let (schema, config) = configured();
    let mut trace = Trace::new(&schema, 0).unwrap();
    let chip = FiboChip::<PastaFp>::construct(config);
    let (_, b, c) = chip.assign_first_row(&mut trace, Some(fp(3)), Some(fp(4))).unwrap();
    assert_eq!(chip.assign_row(&mut trace, &b, &c), Err(Error::NotEnoughRows));
    assert_eq!(
        chip.assign_first_row(&mut trace, Some(fp(1)), Some(fp(1))),
        Err(Error::NotEnoughRows)
    );
    assert_eq!(trace.num_rows(), 1);
    assert_eq!(trace.num_regions(), 1);
}

#[test]
fn chip_on_columns_that_the_trace_lacks_is_a_configuration_error() {
    let (schema, config) = configured();
    let mut trace = Trace::new(&schema, 2).unwrap();
    let shifted = FiboConfig { advice: [advice(1), advice(2), advice(3)], selector: config.selector };
    let chip = FiboChip::<PastaFp>::construct(shifted);
    assert_eq!(
        chip.assign_first_row(&mut trace, Some(fp(1)), Some(fp(1))),
        Err(Error::Configuration)
    );
    let wrong_selector = FiboConfig { advice: config.advice, selector: SelectorHandle { index: 1 } };
    let chip = FiboChip::<PastaFp>::construct(wrong_selector);
    assert_eq!(chip.assign_first_row(&mut trace, None, None), Err(Error::Configuration));
    assert_eq!(trace.num_regions(), 0);
}

#[test]
fn chip_on_columns_without_copy_constraints_cannot_add_rows() {
    let mut meta = SchemaBuilder::<PastaFp>::new();
    let a = meta.declare_column(ColumnKind::Advice);
    let b = meta.declare_column(ColumnKind::Advice);
    let c = meta.declare_column(ColumnKind::Advice);
    let selector = meta.declare_selector();
    meta.enable_equality(b).unwrap();
    meta.enable_equality(c).unwrap();
    let schema = meta.build();
    let mut trace = Trace::new(&schema, 2).unwrap();
    let chip = FiboChip::<PastaFp>::construct(FiboConfig { advice: [a, b, c], selector });
    let (_, first_b, first_c) =
        chip.assign_first_row(&mut trace, Some(fp(1)), Some(fp(1))).unwrap();
    assert_eq!(chip.assign_row(&mut trace, &first_b, &first_c), Err(Error::Configuration));
    assert_eq!(trace.num_rows(), 1);
}

#[test]
fn chip_on_one_column_twice_is_a_double_assignment() {
    let (schema, config) = configured();
    let mut trace = Trace::new(&schema, 2).unwrap();
    let folded = FiboConfig { advice: [advice(0), advice(1), advice(1)], selector: config.selector };
    let chip = FiboChip::<PastaFp>::construct(folded);
    assert_eq!(
        chip.assign_first_row(&mut trace, Some(fp(1)), Some(fp(1))),
        Err(Error::DoubleAssignment)
    );
    assert_eq!(trace.num_rows(), 0);
}
