//! The circuit of the pairwise-sum recurrence: the schema it is checked
//! against and the trace it lays out, one row for each term.

use vstd::prelude::*;
use vstd::arithmetic::power2::pow2;
use crate::checker::{
    check_result,
    copy_assigned,
    copy_violated,
    gate_applies,
    gate_finding,
    gate_value,
    gate_findings,
    gate_violated,
    lemma_empty_report,
    lemma_gate_findings,
    lemma_overwrite_keeps_complete,
    satisfied,
    witness_complete,
    ViolationModel,
};
use crate::chip::{
    chip_cell,
    lemma_sum_poly_value,
    sum_gate,
    config_declared,
    config_distinct,
    configured,
    first_row_written,
    next_row_written,
    with_chip,
    FiboChip,
    FiboConfig,
};
use crate::error::Error;
use crate::field::{add_mod, lemma_add_mod_cancel, lemma_sub_mod_zero, sub_mod, Field};
use crate::schema::{ColumnHandle, ColumnKind, Schema, SchemaBuilder, SchemaModel, SelectorHandle};
use crate::trace::{lemma_overwrite, Cell, RegionModel, RowModel, Trace, TraceModel};

verus! {

/// The recurrence with its two seeds, which may be absent, and the number
/// of rows that follow the first one.
#[derive(Debug)]
pub struct FiboCircuit<F> {
    pub a: Option<F>,
    pub b: Option<F>,
    pub steps: usize,
}

/// The terms of the recurrence: the seeds `a` and `b`, and from there on the
/// sum of the two terms before.
pub open spec fn term(a: nat, b: nat, n: nat, modulus: nat) -> nat
    decreases n,
{
    if n == 0 {
        a
    } else if n == 1 {
        b
    } else {
        add_mod(term(a, b, (n - 2) as nat, modulus), term(a, b, (n - 1) as nat, modulus), modulus)
    }
}

/// Row `i` of the recurrence: the selector is on, and the three cells hold
/// the terms `i`, `i + 1` and `i + 2`.
pub open spec fn fibo_row(
    trace: TraceModel,
    config: FiboConfig,
    a: nat,
    b: nat,
    i: int,
    modulus: nat,
) -> RowModel {
    let blank = RowModel::blank(trace.num_advice(), trace.num_selectors);
    RowModel {
        advice: blank.advice.update(
            config.advice[0].index as int,
            Some(term(a, b, i as nat, modulus)),
        ).update(config.advice[1].index as int, Some(term(a, b, (i + 1) as nat, modulus))).update(
            config.advice[2].index as int,
            Some(term(a, b, (i + 2) as nat, modulus)),
        ),
        selectors: blank.selectors.update(config.selector.index as int, true),
    }
}

/// The cell whose value row `i` takes over as its first summand, for `i`
/// from 1 on: in the second row the second summand of the first row, from
/// there on the sum of the row two before.
pub open spec fn prev_b_cell(trace: TraceModel, config: FiboConfig, i: int) -> Cell {
    if i == 1 {
        chip_cell(config, 1, trace.rows.len() as int)
    } else {
        chip_cell(config, 2, trace.rows.len() + i - 2)
    }
}

/// The cell whose value row `i` takes over as its second summand, for `i`
/// from 1 on: the sum of the row before.
pub open spec fn prev_c_cell(trace: TraceModel, config: FiboConfig, i: int) -> Cell {
    chip_cell(config, 2, trace.rows.len() + i - 1)
}

/// Copy constraint `j` of the recurrence: two for each row from the second
/// on, from the cells of earlier rows to its two summands.
pub open spec fn fibo_copy(trace: TraceModel, config: FiboConfig, j: int) -> (Cell, Cell) {
    let i = j / 2 + 1;
    if j % 2 == 0 {
        (prev_b_cell(trace, config, i), chip_cell(config, 0, trace.rows.len() + i))
    } else {
        (prev_c_cell(trace, config, i), chip_cell(config, 1, trace.rows.len() + i))
    }
}

/// Region `i` of the recurrence: one row.
pub open spec fn fibo_region(trace: TraceModel, i: int) -> RegionModel {
    RegionModel {
        name: if i == 0 {
            "first row"@
        } else {
            "next row"@
        },
        start: (trace.rows.len() + i) as nat,
    }
}

/// The trace after the recurrence was laid out behind what it held: `steps`
/// + 1 more rows and regions, and two copy constraints for each row but the
/// first.
pub open spec fn synthesized(
    trace: TraceModel,
    config: FiboConfig,
    a: nat,
    b: nat,
    steps: nat,
    modulus: nat,
) -> TraceModel {
    TraceModel {
        rows: trace.rows + Seq::new(
            steps + 1,
            |i: int| fibo_row(trace, config, a, b, i, modulus),
        ),
        copies: trace.copies + Seq::new(2 * steps, |j: int| fibo_copy(trace, config, j)),
        regions: trace.regions + Seq::new(steps + 1, |i: int| fibo_region(trace, i)),
        ..trace
    }
}

/// Whether the three advice columns of a configuration take part in copy
/// constraints.
pub open spec fn config_copies(trace: TraceModel, config: FiboConfig) -> bool {
    forall|i: int| 0 <= i < 3 ==> trace.equality_enabled((#[trigger] config.advice[i]).index as int)
}

/// What laying out the recurrence comes to.
pub open spec fn synthesis_check(
    trace: TraceModel,
    config: FiboConfig,
    has_a: bool,
    has_b: bool,
    steps: nat,
) -> Result<(), Error> {
    if !config_declared(trace, config) || (steps > 0 && !config_copies(trace, config)) {
        Err(Error::Configuration)
    } else if !has_a || !has_b {
        Err(Error::MissingWitness)
    } else if trace.rows.len() + steps >= trace.capacity {
        Err(Error::NotEnoughRows)
    } else if !config_distinct(config) {
        Err(Error::DoubleAssignment)
    } else {
        Ok(())
    }
}

/// The first row, written by the chip, is the recurrence without further
/// rows.
pub proof fn lemma_first_row(trace: TraceModel, config: FiboConfig, a: nat, b: nat, modulus: nat)
    requires
        trace.wf(),
        config_declared(trace, config),
        config_distinct(config),
        trace.rows.len() < trace.capacity,
    ensures
        first_row_written(trace, config, a, b, modulus) == synthesized(
            trace,
            config,
            a,
            b,
            0,
            modulus,
        ),
{
    let w = first_row_written(trace, config, a, b, modulus);
    let s = synthesized(trace, config, a, b, 0, modulus);
    let row = trace.rows.len() as int;
    assert(w.rows.len() == row + 1);
    assert(w.rows[row].advice =~= fibo_row(trace, config, a, b, 0, modulus).advice);
    assert(w.rows[row].selectors =~= fibo_row(trace, config, a, b, 0, modulus).selectors);
    assert(w.rows =~= s.rows);
    assert(w.copies =~= s.copies);
    assert(w.regions =~= s.regions);
}

/// What the cells of the recurrence hold, and that nothing else changed in
/// the rows that were there before.
pub proof fn lemma_synthesized_cells(
    trace: TraceModel,
    config: FiboConfig,
    a: nat,
    b: nat,
    steps: nat,
    modulus: nat,
)
    requires
        trace.wf(),
        config_declared(trace, config),
        config_distinct(config),
        steps > 0 ==> config_copies(trace, config),
        trace.rows.len() + steps < trace.capacity,
    ensures
        synthesized(trace, config, a, b, steps, modulus).wf(),
        synthesized(trace, config, a, b, steps, modulus).rows.len() == trace.rows.len() + steps
            + 1,
        forall|i: int, k: int|
            0 <= i <= steps && 0 <= k < 3 ==> #[trigger] synthesized(
                trace,
                config,
                a,
                b,
                steps,
                modulus,
            ).cell(config.advice[k].index as int, trace.rows.len() + i) == Some(
                term(a, b, (i + k) as nat, modulus),
            ),
        forall|i: int|
            0 <= i <= steps ==> #[trigger] synthesized(trace, config, a, b, steps, modulus).enabled(
                config.selector.index as int,
                trace.rows.len() + i,
            ),
        forall|column: int, row: int|
            row < trace.rows.len() ==> #[trigger] synthesized(
                trace,
                config,
                a,
                b,
                steps,
                modulus,
            ).cell(column, row) == trace.cell(column, row),
{
    let s = synthesized(trace, config, a, b, steps, modulus);
    let len = trace.rows.len() as int;
    assert forall|r: int| 0 <= r < s.rows.len() implies (#[trigger] s.rows[r]).advice.len()
        == s.num_advice() && s.rows[r].selectors.len() == s.num_selectors by {
        if r < len {
            assert(s.rows[r] == trace.rows[r]);
        } else {
            assert(s.rows[r] == fibo_row(trace, config, a, b, r - len, modulus));
        }
    }
    assert forall|i: int| 0 <= i < s.copies.len() implies s.equality_enabled(
        (#[trigger] s.copies[i]).0.column as int,
    ) && s.equality_enabled(s.copies[i].1.column as int) by {
        if i < trace.copies.len() {
            assert(s.copies[i] == trace.copies[i]);
            assert(trace.equality_enabled(trace.copies[i].0.column as int));
        } else {
            assert(s.copies[i] == fibo_copy(trace, config, i - trace.copies.len()));
            assert(trace.equality_enabled(config.advice[0].index as int));
            assert(trace.equality_enabled(config.advice[1].index as int));
            assert(trace.equality_enabled(config.advice[2].index as int));
        }
    }
    assert forall|i: int| 0 <= i < s.regions.len() implies (#[trigger] s.regions[i]).start
        <= s.rows.len() by {
        if i < trace.regions.len() {
            assert(s.regions[i] == trace.regions[i]);
        } else {
            assert(s.regions[i] == fibo_region(trace, i - trace.regions.len()));
        }
    }
    assert forall|i: int, j: int| 0 <= i <= j < s.regions.len() implies (
    #[trigger] s.regions[i]).start <= (#[trigger] s.regions[j]).start by {
        if j < trace.regions.len() {
            assert(s.regions[i] == trace.regions[i]);
            assert(s.regions[j] == trace.regions[j]);
        } else if i < trace.regions.len() {
            assert(s.regions[i] == trace.regions[i]);
            assert(s.regions[j] == fibo_region(trace, j - trace.regions.len()));
        } else {
            assert(s.regions[i] == fibo_region(trace, i - trace.regions.len()));
            assert(s.regions[j] == fibo_region(trace, j - trace.regions.len()));
        }
    }
    assert(s.wf());
    assert forall|i: int, k: int| 0 <= i <= steps && 0 <= k < 3 implies #[trigger] s.cell(
        config.advice[k].index as int,
        len + i,
    ) == Some(term(a, b, (i + k) as nat, modulus)) by {
        assert(s.rows[len + i] == fibo_row(trace, config, a, b, i, modulus));
        assert(k == 0 || k == 1 || k == 2);
    }
    assert forall|i: int| 0 <= i <= steps implies #[trigger] s.enabled(
        config.selector.index as int,
        len + i,
    ) by {
        assert(s.rows[len + i] == fibo_row(trace, config, a, b, i, modulus));
    }
    assert forall|column: int, row: int| row < len implies #[trigger] s.cell(column, row)
        == trace.cell(column, row) by {
        if 0 <= row {
            assert(s.rows[row] == trace.rows[row]);
        }
    }
}

/// A further row, written by the chip behind the recurrence with `steps`
/// further rows, gives the recurrence with one more.
pub proof fn lemma_next_row(
    trace: TraceModel,
    config: FiboConfig,
    a: nat,
    b: nat,
    steps: nat,
    modulus: nat,
)
    requires
        trace.wf(),
        config_declared(trace, config),
        config_distinct(config),
        config_copies(trace, config),
        trace.rows.len() + steps + 1 < trace.capacity,
    ensures
        next_row_written(
            synthesized(trace, config, a, b, steps, modulus),
            config,
            prev_b_cell(trace, config, steps as int + 1),
            prev_c_cell(trace, config, steps as int + 1),
            modulus,
        ) == synthesized(trace, config, a, b, steps + 1, modulus),
{
    let n = steps as int;
    let before = synthesized(trace, config, a, b, steps, modulus);
    let prev_b = prev_b_cell(trace, config, n + 1);
    let prev_c = prev_c_cell(trace, config, n + 1);
    let w = next_row_written(before, config, prev_b, prev_c, modulus);
    let s = synthesized(trace, config, a, b, steps + 1, modulus);
    let len = trace.rows.len() as int;
    let row = len + n + 1;
    lemma_synthesized_cells(trace, config, a, b, steps, modulus);
    assert(before.rows.len() == row);
    assert(before.cell(prev_b.column as int, prev_b.row as int) == Some(
        term(a, b, steps + 1, modulus),
    )) by {
        if steps == 0 {
            assert(before.cell(config.advice[1].index as int, len + 0) == Some(
                term(a, b, (0 + 1) as nat, modulus),
            ));
        } else {
            assert(before.cell(config.advice[2].index as int, len + (n - 1)) == Some(
                term(a, b, ((n - 1) + 2) as nat, modulus),
            ));
        }
    }
    assert(before.cell(prev_c.column as int, prev_c.row as int) == Some(
        term(a, b, steps + 2, modulus),
    )) by {
        assert(before.cell(config.advice[2].index as int, len + n) == Some(
            term(a, b, (steps + 2) as nat, modulus),
        ));
    }
    assert(w.rows.len() == row + 1);
    assert(w.rows[row].advice =~= fibo_row(trace, config, a, b, n + 1, modulus).advice);
    assert(w.rows[row].selectors =~= fibo_row(trace, config, a, b, n + 1, modulus).selectors);
    assert forall|r: int| 0 <= r < row implies w.rows[r] == s.rows[r] by {
        assert(w.rows[r] == before.rows[r]);
    }
    assert(w.rows =~= s.rows);
    assert forall|j: int| 0 <= j < s.copies.len() implies w.copies[j] == s.copies[j] by {
        let base = trace.copies.len() as int;
        if j < base + 2 * n {
            assert(w.copies[j] == before.copies[j]);
        } else if j == base + 2 * n {
            assert(s.copies[j] == fibo_copy(trace, config, 2 * n));
        } else {
            assert(s.copies[j] == fibo_copy(trace, config, 2 * n + 1));
        }
    }
    assert(w.copies =~= s.copies);
    assert forall|i: int| 0 <= i < s.regions.len() implies w.regions[i] == s.regions[i] by {
        if i < trace.regions.len() + n + 1 {
            assert(w.regions[i] == before.regions[i]);
        }
    }
    assert(w.regions =~= s.regions);
}

/// The configuration that the chip gets on a schema without other columns.
pub open spec fn fibo_config() -> FiboConfig {
    FiboConfig {
        advice: [
            ColumnHandle { kind: ColumnKind::Advice, index: 0 },
            ColumnHandle { kind: ColumnKind::Advice, index: 1 },
            ColumnHandle { kind: ColumnKind::Advice, index: 2 },
        ],
        selector: SelectorHandle { index: 0 },
    }
}

/// The schema of the circuit: three advice columns that take part in copy
/// constraints, one selector, and one gate.
pub open spec fn fibo_schema() -> SchemaModel {
    with_chip(SchemaModel::empty(), fibo_config())
}

/// The trace of the circuit in a table of `capacity` rows.
pub open spec fn fibo_trace(a: nat, b: nat, steps: nat, capacity: nat, modulus: nat) -> TraceModel {
    synthesized(
        TraceModel::empty(fibo_schema().equality, fibo_schema().num_selectors, capacity),
        fibo_config(),
        a,
        b,
        steps,
        modulus,
    )
}

/// What running the circuit in a table of two to the power of `k` rows comes
/// to.
pub open spec fn run_check(k: nat, has_a: bool, has_b: bool, steps: nat) -> Result<(), Error> {
    if pow2(k) > usize::MAX {
        Err(Error::Configuration)
    } else if !has_a || !has_b {
        Err(Error::MissingWitness)
    } else if steps >= pow2(k) {
        Err(Error::NotEnoughRows)
    } else {
        Ok(())
    }
}

/// The empty table of the circuit is well formed, and the circuit's columns
/// are declared in it, differ from each other and take part in copy
/// constraints.
pub proof fn lemma_fibo_table(capacity: nat)
    requires
        capacity <= usize::MAX,
    ensures
        TraceModel::empty(fibo_schema().equality, fibo_schema().num_selectors, capacity).wf(),
        config_declared(
            TraceModel::empty(fibo_schema().equality, fibo_schema().num_selectors, capacity),
            fibo_config(),
        ),
        config_copies(
            TraceModel::empty(fibo_schema().equality, fibo_schema().num_selectors, capacity),
            fibo_config(),
        ),
        config_distinct(fibo_config()),
        fibo_schema().gates == seq![sum_gate(fibo_config())],
        fibo_schema().equality == seq![true, true, true],
        forall|i: int|
            0 <= i < 3 ==> #[trigger] fibo_config().advice[i] == (ColumnHandle {
                kind: ColumnKind::Advice,
                index: i as usize,
            }),
{
    assert(fibo_schema().gates =~= seq![sum_gate(fibo_config())]);
    assert(fibo_schema().equality =~= seq![true, true, true]);
    assert(fibo_config().advice[0] == ColumnHandle { kind: ColumnKind::Advice, index: 0 });
    assert(fibo_config().advice[1] == ColumnHandle { kind: ColumnKind::Advice, index: 1 });
    assert(fibo_config().advice[2] == ColumnHandle { kind: ColumnKind::Advice, index: 2 });
}

/// From the third on, every term of the recurrence is a residue below the
/// modulus; so are the seeds, where they were.
pub proof fn lemma_term_below(a: nat, b: nat, n: nat, modulus: nat)
    requires
        modulus > 0,
        n < 2 ==> a < modulus && b < modulus,
    ensures
        term(a, b, n, modulus) < modulus,
{
    if n >= 2 {
        vstd::arithmetic::div_mod::lemma_mod_bound(
            (term(a, b, (n - 2) as nat, modulus) + term(a, b, (n - 1) as nat, modulus)) as int,
            modulus as int,
        );
    }
}

/// What the trace of the circuit holds: in row `i` the terms `i`, `i + 1`
/// and `i + 2`, with the selector on; and every copy constraint between two
/// cells that hold a value.
pub proof fn lemma_fibo_trace(a: nat, b: nat, steps: nat, capacity: nat, modulus: nat)
    requires
        steps < capacity <= usize::MAX,
    ensures
        fibo_trace(a, b, steps, capacity, modulus).wf(),
        fibo_trace(a, b, steps, capacity, modulus).rows.len() == steps + 1,
        fibo_trace(a, b, steps, capacity, modulus).copies.len() == 2 * steps,
        forall|i: int, k: int|
            0 <= i <= steps && 0 <= k < 3 ==> #[trigger] fibo_trace(
                a,
                b,
                steps,
                capacity,
                modulus,
            ).cell(k, i) == Some(term(a, b, (i + k) as nat, modulus)),
        forall|i: int|
            #[trigger] fibo_trace(a, b, steps, capacity, modulus).enabled(0, i) <==> 0 <= i
                <= steps,
        forall|i: int, k: int|
            i < 0 || i > steps ==> #[trigger] fibo_trace(a, b, steps, capacity, modulus).cell(k, i)
                is None,
        forall|j: int|
            0 <= j < 2 * steps ==> #[trigger] copy_assigned(
                fibo_trace(a, b, steps, capacity, modulus),
                j,
            ) && !copy_violated(fibo_trace(a, b, steps, capacity, modulus), j),
{
    let table = TraceModel::empty(fibo_schema().equality, fibo_schema().num_selectors, capacity);
    let config = fibo_config();
    let trace = fibo_trace(a, b, steps, capacity, modulus);
    lemma_fibo_table(capacity);
    lemma_synthesized_cells(table, config, a, b, steps, modulus);
    assert forall|i: int, k: int| 0 <= i <= steps && 0 <= k < 3 implies #[trigger] trace.cell(k, i)
        == Some(term(a, b, (i + k) as nat, modulus)) by {
        assert(config.advice[k].index == k);
        assert(trace.cell(config.advice[k].index as int, table.rows.len() + i) == Some(
            term(a, b, (i + k) as nat, modulus),
        ));
    }
    assert forall|i: int| #[trigger] trace.enabled(0, i) <==> 0 <= i <= steps by {
        if 0 <= i <= steps {
            assert(trace.enabled(config.selector.index as int, table.rows.len() + i));
        }
    }
    assert forall|j: int| 0 <= j < 2 * steps implies #[trigger] copy_assigned(trace, j)
        && !copy_violated(trace, j) by {
        let i = j / 2 + 1;
        assert(trace.copies[j] == fibo_copy(table, config, j));
        assert(config.advice[0].index == 0 && config.advice[1].index == 1
            && config.advice[2].index == 2);
        if j % 2 == 0 {
            assert(trace.cell(0, i) == Some(term(a, b, (i + 0) as nat, modulus)));
            if i == 1 {
                assert(trace.cell(1, 0) == Some(term(a, b, (0 + 1) as nat, modulus)));
            } else {
                assert(trace.cell(2, i - 2) == Some(term(a, b, ((i - 2) + 2) as nat, modulus)));
            }
        } else {
            assert(trace.cell(1, i) == Some(term(a, b, (i + 1) as nat, modulus)));
            assert(trace.cell(2, i - 1) == Some(term(a, b, ((i - 1) + 2) as nat, modulus)));
        }
    }
}

/// The value of the circuit's gate in a row of a trace: the sum of the
/// first two cells minus the third, where all three hold a value.
pub proof fn lemma_fibo_gate_value(trace: TraceModel, row: int, modulus: nat)
    ensures
        gate_value(fibo_schema(), trace, 0, row, modulus) == (match (
            trace.cell(0, row),
            trace.cell(1, row),
            trace.cell(2, row),
        ) {
            (Some(x), Some(y), Some(z)) => Some(sub_mod(add_mod(x, y, modulus), z, modulus)),
            _ => None,
        }),
        gate_applies(fibo_schema(), trace, 0, row) == trace.enabled(0, row),
{
    lemma_fibo_table(0);
    assert(fibo_schema().gates[0] == sum_gate(fibo_config()));
    lemma_sum_poly_value(trace, fibo_config(), row, modulus);
    assert(fibo_config().advice[0].index == 0 && fibo_config().advice[1].index == 1
        && fibo_config().advice[2].index == 2);
}

/// The trace that the circuit lays out satisfies the circuit's schema,
/// whatever the seeds and the number of rows: a check of it ends with an
/// empty report.
pub proof fn lemma_fibo_trace_satisfied(a: nat, b: nat, steps: nat, capacity: nat, modulus: nat)
    requires
        modulus > 0,
        steps < capacity <= usize::MAX,
    ensures
        satisfied(fibo_schema(), fibo_trace(a, b, steps, capacity, modulus), modulus),
        check_result(fibo_schema(), fibo_trace(a, b, steps, capacity, modulus), modulus) == Ok::<
            Seq<ViolationModel>,
            Error,
        >(Seq::empty()),
{
    let schema = fibo_schema();
    let trace = fibo_trace(a, b, steps, capacity, modulus);
    lemma_fibo_table(capacity);
    lemma_fibo_trace(a, b, steps, capacity, modulus);
    assert forall|gate: int, row: int|
        0 <= gate < schema.gates.len() && 0 <= row < trace.rows.len() && #[trigger] gate_applies(
            schema,
            trace,
            gate,
            row,
        ) implies gate_value(schema, trace, gate, row, modulus) == Some(0nat) by {
        lemma_fibo_gate_value(trace, row, modulus);
        let x = term(a, b, row as nat, modulus);
        let y = term(a, b, (row + 1) as nat, modulus);
        let z = term(a, b, (row + 2) as nat, modulus);
        assert(trace.cell(0, row) == Some(term(a, b, (row + 0) as nat, modulus)));
        assert(trace.cell(1, row) == Some(y));
        assert(trace.cell(2, row) == Some(z));
        assert(z == add_mod(x, y, modulus));
        lemma_term_below(a, b, (row + 2) as nat, modulus);
        lemma_sub_mod_zero(z, z, modulus);
    }
    assert(witness_complete(schema, trace, modulus));
    assert(satisfied(schema, trace, modulus));
    lemma_empty_report(schema, trace, modulus);
}

/// The recurrence holds over the whole trace of the circuit: from the third
/// row on, the sum in a row is the sum of the row before plus the sum of
/// the row before that.
pub proof fn lemma_recurrence(a: nat, b: nat, steps: nat, capacity: nat, modulus: nat, n: int)
    requires
        steps < capacity <= usize::MAX,
        2 <= n <= steps,
    ensures
        fibo_trace(a, b, steps, capacity, modulus).cell(2, n) is Some,
        fibo_trace(a, b, steps, capacity, modulus).cell(2, n - 1) is Some,
        fibo_trace(a, b, steps, capacity, modulus).cell(2, n - 2) is Some,
        fibo_trace(a, b, steps, capacity, modulus).cell(2, n).unwrap() == add_mod(
            fibo_trace(a, b, steps, capacity, modulus).cell(2, n - 1).unwrap(),
            fibo_trace(a, b, steps, capacity, modulus).cell(2, n - 2).unwrap(),
            modulus,
        ),
{
    let trace = fibo_trace(a, b, steps, capacity, modulus);
    lemma_fibo_trace(a, b, steps, capacity, modulus);
    assert(trace.cell(2, n) == Some(term(a, b, (n + 2) as nat, modulus)));
    assert(trace.cell(2, n - 1) == Some(term(a, b, ((n - 1) + 2) as nat, modulus)));
    assert(trace.cell(2, n - 2) == Some(term(a, b, ((n - 2) + 2) as nat, modulus)));
}

/// No change of one value goes unnoticed: where one cell of the trace of
/// the circuit is overwritten with another residue, a check reports that
/// the circuit's gate is violated in the row of that cell.
pub proof fn lemma_tampering_detected(
    a: nat,
    b: nat,
    steps: nat,
    capacity: nat,
    modulus: nat,
    column: int,
    row: int,
    value: nat,
)
    requires
        a < modulus,
        b < modulus,
        value < modulus,
        steps < capacity <= usize::MAX,
        0 <= column < 3,
        0 <= row <= steps,
        fibo_trace(a, b, steps, capacity, modulus).cell(column, row) != Some(value),
    ensures
        check_result(
            fibo_schema(),
            fibo_trace(a, b, steps, capacity, modulus).with_cell(column, row, value),
            modulus,
        ) matches Ok(report) && report.contains(gate_finding(fibo_schema(), 0, row)),
{
    let schema = fibo_schema();
    let trace = fibo_trace(a, b, steps, capacity, modulus);
    let tampered = trace.with_cell(column, row, value);
    lemma_fibo_table(capacity);
    lemma_fibo_trace(a, b, steps, capacity, modulus);
    lemma_fibo_trace_satisfied(a, b, steps, capacity, modulus);
    assert(trace.cell(column, row) == Some(term(a, b, (row + column) as nat, modulus)));
    lemma_overwrite(trace, column, row, value);
    lemma_overwrite_keeps_complete(schema, trace, column, row, value, modulus);
    let x = term(a, b, row as nat, modulus);
    let y = term(a, b, (row + 1) as nat, modulus);
    let z = term(a, b, (row + 2) as nat, modulus);
    assert(trace.cell(0, row) == Some(term(a, b, (row + 0) as nat, modulus)));
    assert(trace.cell(1, row) == Some(y));
    assert(trace.cell(2, row) == Some(z));
    lemma_term_below(a, b, row as nat, modulus);
    lemma_term_below(a, b, (row + 1) as nat, modulus);
    lemma_term_below(a, b, (row + 2) as nat, modulus);
    lemma_fibo_gate_value(tampered, row, modulus);
    assert(trace.enabled(0, row));
    assert(tampered.enabled(0, row));
    assert(z == add_mod(x, y, modulus));
    if column == 0 {
        assert(tampered.cell(1, row) == trace.cell(1, row));
        assert(tampered.cell(2, row) == trace.cell(2, row));
        vstd::arithmetic::div_mod::lemma_mod_bound((value + y) as int, modulus as int);
        lemma_sub_mod_zero(add_mod(value, y, modulus), z, modulus);
        if add_mod(value, y, modulus) == z {
            lemma_add_mod_cancel(value, x, y, modulus);
        }
    } else if column == 1 {
        assert(tampered.cell(0, row) == trace.cell(0, row));
        assert(tampered.cell(2, row) == trace.cell(2, row));
        vstd::arithmetic::div_mod::lemma_mod_bound((x + value) as int, modulus as int);
        lemma_sub_mod_zero(add_mod(x, value, modulus), z, modulus);
        if add_mod(x, value, modulus) == z {
            assert(add_mod(value, x, modulus) == add_mod(y, x, modulus));
            lemma_add_mod_cancel(value, y, x, modulus);
        }
    } else {
        assert(tampered.cell(0, row) == trace.cell(0, row));
        assert(tampered.cell(1, row) == trace.cell(1, row));
        lemma_sub_mod_zero(z, value, modulus);
    }
    assert(gate_violated(schema, tampered, 0, row, modulus));
    let finding = gate_finding(schema, 0, row);
    lemma_gate_findings(schema, tampered, tampered.rows.len(), modulus, finding);
    vstd::seq_lib::lemma_seq_concat_contains_all_elements(
        gate_findings(schema, tampered, tampered.rows.len(), modulus),
        crate::checker::copy_findings(tampered, tampered.copies.len()),
        finding,
    );
}

impl<F: Field> FiboCircuit<F> {
    /// The same circuit without its seeds.
    pub fn without_witnesses(&self) -> (r: Self)
        ensures
            r.a is None,
            r.b is None,
            r.steps == self.steps,
    {
        FiboCircuit { a: None, b: None, steps: self.steps }
    }

    /// Declares the circuit's columns and its gate on a schema.
    pub fn configure(meta: &mut SchemaBuilder<F>) -> (config: FiboConfig)
        requires
            old(meta)@.wf(),
            old(meta)@.num_selectors < usize::MAX,
        ensures
            final(meta)@.wf(),
            configured(old(meta)@, config),
            final(meta)@ == with_chip(old(meta)@, config),
    {
        FiboChip::<F>::configure(meta)
    }

    /// Lays out the recurrence behind what the trace holds: the first row
    /// with the two seeds, then `steps` rows that each take over two values
    /// of the rows before. Where it fails, the trace is as before.
    pub fn synthesize(&self, config: FiboConfig, trace: &mut Trace<F>) -> (r: Result<(), Error>)
        requires
            old(trace)@.wf(),
        ensures
            final(trace)@.wf(),
            r == synthesis_check(
                old(trace)@,
                config,
                self.a is Some,
                self.b is Some,
                self.steps as nat,
            ),
            r is Ok ==> final(trace)@ == synthesized(
                old(trace)@,
                config,
                self.a.unwrap().value(),
                self.b.unwrap().value(),
                self.steps as nat,
                F::modulus(),
            ),
            r is Err ==> final(trace)@ == old(trace)@,
    {
        let chip = FiboChip::<F>::construct(config);
        if !chip.declared_in(trace) {
            return Err(Error::Configuration);
        }
        if self.steps > 0 && !(trace.takes_copies(config.advice[0].index) && trace.takes_copies(
            config.advice[1].index,
        ) && trace.takes_copies(config.advice[2].index)) {
            assert(!config_copies(trace@, config));
            return Err(Error::Configuration);
        }
        let (a, b) = match (self.a, self.b) {
            (Some(a), Some(b)) => (a, b),
            _ => {
                return Err(Error::MissingWitness);
            },
        };
        if self.steps >= trace.capacity() - trace.num_rows() {
            return Err(Error::NotEnoughRows);
        }
        if !chip.distinct() {
            return Err(Error::DoubleAssignment);
        }
        let ghost start = trace@;
        proof {
            if self.steps > 0 {
                assert forall|i: int| 0 <= i < 3 implies start.equality_enabled(
                    (#[trigger] config.advice[i]).index as int,
                ) by {
                    assert(i == 0 || i == 1 || i == 2);
                }
            }
            lemma_first_row(start, config, a.value(), b.value(), F::modulus());
        }
        let (_, first_b, first_c) = chip.assign_first_row(trace, Some(a), Some(b))?;
        let mut prev_b = first_b;
        let mut prev_c = first_c;
        let mut i: usize = 0;
        while i < self.steps
            invariant
                i <= self.steps,
                start.wf(),
                chip.config() == config,
                config_declared(start, config),
                config_distinct(config),
                self.steps > 0 ==> config_copies(start, config),
                start.rows.len() + self.steps < start.capacity,
                trace@.wf(),
                trace@ == synthesized(start, config, a.value(), b.value(), i as nat, F::modulus()),
                prev_b == prev_b_cell(start, config, i + 1),
                prev_c == prev_c_cell(start, config, i + 1),
            decreases self.steps - i,
        {
            proof {
                lemma_synthesized_cells(
                    start,
                    config,
                    a.value(),
                    b.value(),
                    i as nat,
                    F::modulus(),
                );
                lemma_next_row(start, config, a.value(), b.value(), i as nat, F::modulus());
                let len = start.rows.len() as int;
                if i == 0 {
                    assert(trace@.cell(config.advice[1].index as int, len + 0) is Some);
                } else {
                    assert(trace@.cell(config.advice[2].index as int, len + (i - 1)) is Some);
                }
                assert(trace@.cell(config.advice[2].index as int, len + i) is Some);
            }
            let c = chip.assign_row(trace, &prev_b, &prev_c)?;
            prev_b = prev_c;
            prev_c = c;
            i += 1;
        }
        Ok(())
    }

    /// Runs the circuit in a table of two to the power of `k` rows: builds
    /// the schema, lays out the trace, and returns both. The trace satisfies
    /// the schema.
    pub fn run(&self, k: u32) -> (r: Result<(Schema<F>, Trace<F>), Error>)
        ensures
            match r {
                Ok((schema, trace)) => {
                    &&& run_check(k as nat, self.a is Some, self.b is Some, self.steps as nat)
                        is Ok
                    &&& schema@ == fibo_schema()
                    &&& schema@.wf()
                    &&& trace@ == fibo_trace(
                        self.a.unwrap().value(),
                        self.b.unwrap().value(),
                        self.steps as nat,
                        pow2(k as nat),
                        F::modulus(),
                    )
                    &&& trace@.wf()
                    &&& satisfied(schema@, trace@, F::modulus())
                    &&& check_result(schema@, trace@, F::modulus()) == Ok::<
                        Seq<ViolationModel>,
                        Error,
                    >(Seq::empty())
                },
                Err(e) => run_check(k as nat, self.a is Some, self.b is Some, self.steps as nat)
                    == Err::<(), Error>(e),
            },
    {
        let mut meta = SchemaBuilder::<F>::new();
        let config = Self::configure(&mut meta);
        let schema = meta.build();
        proof {
            assert(config.advice =~= fibo_config().advice);
            assert(config == fibo_config());
        }
        let mut trace = match Trace::new(&schema, k) {
            Ok(trace) => trace,
            Err(e) => {
                return Err(e);
            },
        };
        proof {
            lemma_fibo_table(pow2(k as nat));
        }
        match self.synthesize(config, &mut trace) {
            Ok(()) => {
                proof {
                    self.a.unwrap().lemma_value_in_range();
                    lemma_fibo_trace_satisfied(
                        self.a.unwrap().value(),
                        self.b.unwrap().value(),
                        self.steps as nat,
                        pow2(k as nat),
                        F::modulus(),
                    );
                }
                Ok((schema, trace))
            },
            Err(e) => Err(e),
        }
    }
}

} // verus!
