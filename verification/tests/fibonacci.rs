use fibo_circuit::checker::{check, Violation};
use fibo_circuit::circuit::FiboCircuit;
use fibo_circuit::error::Error;
use fibo_circuit::pasta::PastaFp;
use fibo_circuit::trace::Cell;

fn fp(v: u64) -> PastaFp {
    PastaFp::from_u64(v)
}

fn reference_circuit() -> FiboCircuit<PastaFp> {
    FiboCircuit { a: Some(fp(1)), b: Some(fp(1)), steps: 7 }
}

#[test]
fn fibonacci_sums_are_produced_and_satisfy_the_schema() {
    let (schema, trace) = reference_circuit().run(4).unwrap();
    assert_eq!(trace.capacity(), 16);
    assert_eq!(trace.num_rows(), 8);
    let expected = [2u64, 3, 5, 8, 13, 21, 34, 55];
    for (row, sum) in expected.iter().enumerate() {
        assert_eq!(trace.get(Cell { column: 2, row }).known(), Some(fp(*sum)));
    }
    assert_eq!(check(&schema, &trace), Ok(vec![]));
}

#[test]
fn overwritten_sum_violates_the_gate_in_its_row_only() {
    let (schema, mut trace) = reference_circuit().run(4).unwrap();
    assert!(trace.tamper(Cell { column: 2, row: 4 }, fp(14)));
    let report = check(&schema, &trace).unwrap();
    let gates: Vec<&Violation> =
        report.iter().filter(|v| matches!(v, Violation::Gate { .. })).collect();
    assert_eq!(gates, vec![&Violation::Gate { gate: 0, name: "sum".to_string(), row: 4 }]);
    assert_eq!(
        report,
        vec![
            Violation::Gate { gate: 0, name: "sum".to_string(), row: 4 },
            Violation::Copy {
                left: Cell { column: 2, row: 4 },
                right: Cell { column: 1, row: 5 },
            },
            Violation::Copy {
                left: Cell { column: 2, row: 4 },
                right: Cell { column: 0, row: 6 },
            },
        ]
    );
}

#[test]
fn circuit_without_witnesses_is_refused() {
    let circuit = reference_circuit().without_witnesses();
    assert_eq!(circuit.steps, 7);
    assert!(matches!(circuit.run(4), Err(Error::MissingWitness)));
}
