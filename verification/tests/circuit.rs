use fibo_circuit::checker::{check, Violation};
use fibo_circuit::circuit::FiboCircuit;
use fibo_circuit::error::Error;
use fibo_circuit::field::Field;
use fibo_circuit::pasta::PastaFp;
use fibo_circuit::schema::{ColumnKind, SchemaBuilder, SelectorHandle};
use fibo_circuit::trace::{Cell, Trace};

fn el(v: u64) -> PastaFp {
    PastaFp::from_u64(v)
}

fn largest() -> PastaFp {
    el(0).sub(&el(1))
}

fn sums(trace: &Trace<PastaFp>) -> Vec<PastaFp> {
    (0..trace.num_rows()).map(|row| trace.get(Cell { column: 2, row }).known().unwrap()).collect()
}

#[test]
fn run_builds_the_schema_of_three_columns_one_selector_and_one_gate() {
    let circuit = FiboCircuit { a: Some(el(1)), b: Some(el(1)), steps: 0 };
    let (schema, trace) = circuit.run(0).unwrap();
    assert_eq!(schema.num_advice(), 3);
    assert_eq!(schema.num_selectors(), 1);
    assert_eq!(schema.equality_flags(), vec![true, true, true]);
    assert_eq!(schema.num_gates(), 1);
    assert_eq!(schema.gate(0).unwrap().name, "sum");
    assert_eq!(trace.capacity(), 1);
    assert_eq!(trace.num_rows(), 1);
    assert_eq!(sums(&trace), vec![el(2)]);
    assert_eq!(check(&schema, &trace), Ok(vec![]));
}

#[test]
fn every_row_holds_three_consecutive_terms() {
    let circuit = FiboCircuit { a: Some(el(2)), b: Some(el(5)), steps: 4 };
    let (_, trace) = circuit.run(3).unwrap();
    let terms = [2u64, 5, 7, 12, 19, 31, 50];
    assert_eq!(trace.num_rows(), 5);
    for row in 0..5 {
        for column in 0..3 {
            assert_eq!(trace.get(Cell { column, row }).known(), Some(el(terms[row + column])));
        }
        assert!(trace.is_enabled(SelectorHandle { index: 0 }, row));
    }
    for row in 5..8 {
        for column in 0..3 {
            assert_eq!(trace.get(Cell { column, row }).known(), None);
        }
        assert!(!trace.is_enabled(SelectorHandle { index: 0 }, row));
    }
}

#[test]
fn rows_are_linked_by_copy_constraints_and_lie_in_regions_of_their_own() {
    let circuit = FiboCircuit { a: Some(el(1)), b: Some(el(1)), steps: 3 };
    let (_, trace) = circuit.run(2).unwrap();
    let at = |column, row| Cell { column, row };
    assert_eq!(trace.num_copies(), 6);
    assert_eq!(trace.copy(0), Some((at(1, 0), at(0, 1))));
    assert_eq!(trace.copy(1), Some((at(2, 0), at(1, 1))));
    assert_eq!(trace.copy(2), Some((at(2, 0), at(0, 2))));
    assert_eq!(trace.copy(3), Some((at(2, 1), at(1, 2))));
    assert_eq!(trace.copy(4), Some((at(2, 1), at(0, 3))));
    assert_eq!(trace.copy(5), Some((at(2, 2), at(1, 3))));
    assert_eq!(trace.num_regions(), 4);
    for i in 0..4 {
        let region = trace.region(i).unwrap();
        assert_eq!(region.start, i);
        assert_eq!(region.name, if i == 0 { "first row" } else { "next row" });
    }
}

#[test]
fn any_seeds_give_a_trace_that_satisfies_the_schema() {
    let seeds = [
        (el(0), el(0)),
        (el(0), el(1)),
        (el(7), el(11)),
        (el(u64::MAX), el(u64::MAX)),
        (largest(), el(1)),
        (largest(), largest()),
    ];
    for (a, b) in seeds {
        for steps in [0usize, 1, 2, 9, 15] {
            let circuit = FiboCircuit { a: Some(a), b: Some(b), steps };
            let (schema, trace) = circuit.run(4).unwrap();
            assert_eq!(trace.num_rows(), steps + 1);
            assert_eq!(check(&schema, &trace), Ok(vec![]));
        }
    }
}

#[test]
fn each_sum_is_the_sum_of_the_two_sums_before() {
    for (a, b) in [(el(1), el(1)), (el(3), el(0)), (largest(), largest())] {
        let circuit = FiboCircuit { a: Some(a), b: Some(b), steps: 12 };
        let (_, trace) = circuit.run(4).unwrap();
        let c = sums(&trace);
        assert_eq!(c.len(), 13);
        assert_eq!(c[0], a.add(&b));
        assert_eq!(c[1], b.add(&c[0]));
        for n in 2..c.len() {
            assert_eq!(c[n], c[n - 1].add(&c[n - 2]));
        }
    }
}

#[test]
fn sums_wrap_at_the_modulus() {
    let circuit = FiboCircuit { a: Some(largest()), b: Some(el(3)), steps: 1 };
    let (schema, trace) = circuit.run(1).unwrap();
    assert_eq!(sums(&trace), vec![el(2), el(5)]);
    assert_eq!(check(&schema, &trace), Ok(vec![]));
}

#[test]
fn every_single_overwritten_cell_is_noticed() {
    let circuit = FiboCircuit { a: Some(el(1)), b: Some(el(1)), steps: 7 };
    for row in 0..8 {
        for column in 0..3 {
            let (schema, mut trace) = circuit.run(4).unwrap();
            let cell = Cell { column, row };
            let held = trace.get(cell).known().unwrap();
            for value in [held.add(&el(1)), el(0), largest()] {
                assert!(trace.tamper(cell, value));
                let report = check(&schema, &trace).unwrap();
                assert!(!report.is_empty());
                assert!(report.contains(&Violation::Gate {
                    gate: 0,
                    name: "sum".to_string(),
                    row,
                }));
                for found in &report {
                    match found {
                        Violation::Gate { row: at, .. } => assert_eq!(*at, row),
                        Violation::Copy { left, right } => assert!(*left == cell || *right == cell),
                    }
                }
            }
            assert!(trace.tamper(cell, held));
            assert_eq!(check(&schema, &trace), Ok(vec![]));
        }
    }
}

#[test]
fn overwritten_copy_is_told_apart_from_a_violated_gate() {
    let circuit = FiboCircuit { a: Some(el(1)), b: Some(el(1)), steps: 2 };
    let (schema, mut trace) = circuit.run(2).unwrap();
    assert!(trace.tamper(Cell { column: 0, row: 1 }, el(9)));
    assert_eq!(
        check(&schema, &trace),
        Ok(vec![
            Violation::Gate { gate: 0, name: "sum".to_string(), row: 1 },
            Violation::Copy { left: Cell { column: 1, row: 0 }, right: Cell { column: 0, row: 1 } },
        ])
    );
}

#[test]
fn run_needs_both_seeds() {
    let only_a = FiboCircuit { a: Some(el(1)), b: None, steps: 3 };
    assert!(matches!(only_a.run(4), Err(Error::MissingWitness)));
    let only_b = FiboCircuit { a: None, b: Some(el(1)), steps: 3 };
    assert!(matches!(only_b.run(4), Err(Error::MissingWitness)));
    let blank = FiboCircuit { a: Some(el(1)), b: Some(el(1)), steps: 3 }.without_witnesses();
    assert!(blank.a.is_none() && blank.b.is_none());
    assert_eq!(blank.steps, 3);
    assert!(matches!(blank.run(4), Err(Error::MissingWitness)));
}

#[test]
fn run_needs_a_row_for_every_term() {
    let circuit = FiboCircuit { a: Some(el(1)), b: Some(el(1)), steps: 16 };
    assert!(matches!(circuit.run(4), Err(Error::NotEnoughRows)));
    assert!(circuit.run(5).is_ok());
    let full = FiboCircuit { a: Some(el(1)), b: Some(el(1)), steps: 15 };
    let (schema, trace) = full.run(4).unwrap();
    assert_eq!(trace.num_rows(), 16);
    assert_eq!(check(&schema, &trace), Ok(vec![]));
    let huge = FiboCircuit { a: Some(el(1)), b: Some(el(1)), steps: usize::MAX };
    assert!(matches!(huge.run(4), Err(Error::NotEnoughRows)));
}

#[test]
fn run_in_a_table_too_large_to_index_is_a_configuration_error() {
    let circuit = FiboCircuit { a: Some(el(1)), b: Some(el(1)), steps: 3 };
    assert!(matches!(circuit.run(usize::BITS), Err(Error::Configuration)));
    let blank = circuit.without_witnesses();
    assert!(matches!(blank.run(usize::BITS), Err(Error::Configuration)));
}

#[test]
fn synthesize_lays_the_rows_behind_what_the_trace_holds() {
    let mut meta = SchemaBuilder::<PastaFp>::new();
    let front = meta.declare_column(ColumnKind::Advice);
    let config = FiboCircuit::<PastaFp>::configure(&mut meta);
    let schema = meta.build();
    let mut trace = Trace::new(&schema, 3).unwrap();
    trace.begin_region("front");
    trace.assign_advice(front, 1, Some(el(99))).unwrap();
    let circuit = FiboCircuit { a: Some(el(1)), b: Some(el(2)), steps: 2 };
    assert_eq!(circuit.synthesize(config, &mut trace), Ok(()));
    assert_eq!(trace.num_rows(), 5);
    assert_eq!(trace.get(Cell { column: 0, row: 1 }).known(), Some(el(99)));
    assert_eq!(trace.get(Cell { column: 1, row: 2 }).known(), Some(el(1)));
    assert_eq!(trace.get(Cell { column: 3, row: 2 }).known(), Some(el(3)));
    assert_eq!(trace.get(Cell { column: 3, row: 4 }).known(), Some(el(8)));
    assert_eq!(trace.copy(0), Some((Cell { column: 2, row: 2 }, Cell { column: 1, row: 3 })));
    assert_eq!(trace.region(1).unwrap().start, 2);
    assert_eq!(check(&schema, &trace), Ok(vec![]));
}

#[test]
fn synthesize_that_fails_leaves_the_trace_as_it_was() {
    let mut meta = SchemaBuilder::<PastaFp>::new();
    let config = FiboCircuit::<PastaFp>::configure(&mut meta);
    let schema = meta.build();
    let mut trace = Trace::new(&schema, 2).unwrap();
    let circuit = FiboCircuit { a: Some(el(1)), b: Some(el(2)), steps: 4 };
    assert_eq!(circuit.synthesize(config, &mut trace), Err(Error::NotEnoughRows));
    assert_eq!(trace.num_rows(), 0);
    assert_eq!(trace.num_regions(), 0);
    assert_eq!(circuit.without_witnesses().synthesize(config, &mut trace), Err(Error::MissingWitness));
    assert_eq!(trace.num_rows(), 0);
    let fits = FiboCircuit { a: Some(el(1)), b: Some(el(2)), steps: 3 };
    assert_eq!(fits.synthesize(config, &mut trace), Ok(()));
    assert_eq!(fits.synthesize(config, &mut trace), Err(Error::NotEnoughRows));
    assert_eq!(trace.num_rows(), 4);
    assert_eq!(trace.num_copies(), 6);
}
