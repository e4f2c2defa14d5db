//! The trace: the table of witness values, filled region by region, with the
//! selectors that are switched on and the copy constraints that were raised.

use vstd::prelude::*;
use vstd::arithmetic::power2::pow2;
use crate::error::Error;
use crate::field::Field;
use crate::schema::{ColumnHandle, ColumnKind, Schema, SelectorHandle};

verus! {

/// The place of one witness value: an advice column and a row.
#[derive(Clone, Copy, Debug, PartialEq, Eq, Hash, Structural)]
pub struct Cell {
    pub column: usize,
    pub row: usize,
}

/// What a cell holds.
#[derive(Copy, Debug)]
pub enum CellState<F> {
    Unassigned,
    Known(F),
}

impl<F: Copy> Clone for CellState<F> {
    fn clone(&self) -> (r: Self)
        ensures
            r == *self,
    {
        *self
    }
}

impl<F: Field> CellState<F> {
    /// The value that the cell holds, if any.
    pub fn known(&self) -> (r: Option<F>)
        ensures
            r is Some <==> self@ is Some,
            r matches Some(v) ==> *self == CellState::Known(v),
    {
        match self {
            CellState::Known(v) => Some(*v),
            CellState::Unassigned => None,
        }
    }
}

impl<F: Field> View for CellState<F> {
    type V = Option<nat>;

    open spec fn view(&self) -> Option<nat> {
        match self {
            CellState::Unassigned => None,
            CellState::Known(v) => Some(v.value()),
        }
    }
}

/// A named run of rows that one step of a computation fills.
#[derive(Debug)]
pub struct Region {
    pub name: String,
    pub start: usize,
}

/// What a `Region` stands for.
pub struct RegionModel {
    pub name: Seq<char>,
    pub start: nat,
}

impl View for Region {
    type V = RegionModel;

    open spec fn view(&self) -> RegionModel {
        RegionModel { name: self.name@, start: self.start as nat }
    }
}

/// One row of the table: for each advice column the residue it holds, if
/// any, and for each selector whether it is on.
pub struct RowModel {
    pub advice: Seq<Option<nat>>,
    pub selectors: Seq<bool>,
}

impl RowModel {
    /// The row in which nothing is assigned and no selector is on.
    pub open spec fn blank(num_advice: nat, num_selectors: nat) -> RowModel {
        RowModel {
            advice: Seq::new(num_advice, |i: int| None::<nat>),
            selectors: Seq::new(num_selectors, |i: int| false),
        }
    }
}

/// What a trace stands for.
///
/// `rows` holds the rows up to the last one that was written to; the rows
/// after them, up to `capacity`, are blank.
pub struct TraceModel {
    pub equality: Seq<bool>,
    pub num_selectors: nat,
    pub capacity: nat,
    pub rows: Seq<RowModel>,
    pub copies: Seq<(Cell, Cell)>,
    pub regions: Seq<RegionModel>,
}

impl TraceModel {
    /// The empty trace for a schema's columns, with room for `capacity` rows.
    pub open spec fn empty(equality: Seq<bool>, num_selectors: nat, capacity: nat) -> TraceModel {
        TraceModel {
            equality,
            num_selectors,
            capacity,
            rows: Seq::empty(),
            copies: Seq::empty(),
            regions: Seq::empty(),
        }
    }

    /// The number of advice columns.
    pub open spec fn num_advice(self) -> nat {
        self.equality.len()
    }

    /// The residue in a cell; `None` where nothing was assigned, or where the
    /// table has no such cell.
    pub open spec fn cell(self, column: int, row: int) -> Option<nat> {
        if 0 <= row < self.rows.len() && 0 <= column < self.rows[row].advice.len() {
            self.rows[row].advice[column]
        } else {
            None
        }
    }

    /// Whether a selector is on in a row.
    pub open spec fn enabled(self, selector: int, row: int) -> bool {
        0 <= row < self.rows.len() && 0 <= selector < self.rows[row].selectors.len()
            && self.rows[row].selectors[selector]
    }

    /// Whether the advice column with this index is declared and takes part
    /// in copy constraints.
    pub open spec fn equality_enabled(self, column: int) -> bool {
        0 <= column < self.equality.len() && self.equality[column]
    }

    /// The row at which the region that is being filled starts.
    pub open spec fn region_start(self) -> nat
        recommends
            self.regions.len() > 0,
    {
        self.regions.last().start
    }

    /// The shape of the table: no more rows than there is room for, and no
    /// more room than a row number can count; every row as wide as the
    /// schema; every copy constraint between cells of columns that take
    /// part; and the regions starting one after the other within the rows
    /// written so far.
    pub open spec fn wf(self) -> bool {
        &&& self.rows.len() <= self.capacity <= usize::MAX
        &&& forall|r: int|
            0 <= r < self.rows.len() ==> (#[trigger] self.rows[r]).advice.len()
                == self.num_advice() && self.rows[r].selectors.len() == self.num_selectors
        &&& forall|i: int|
            0 <= i < self.copies.len() ==> self.equality_enabled(
                (#[trigger] self.copies[i]).0.column as int,
            ) && self.equality_enabled(self.copies[i].1.column as int)
        &&& forall|i: int|
            0 <= i < self.regions.len() ==> (#[trigger] self.regions[i]).start <= self.rows.len()
        &&& forall|i: int, j: int|
            0 <= i <= j < self.regions.len() ==> (#[trigger] self.regions[i]).start <= (
            #[trigger] self.regions[j]).start
    }

    /// The trace with blank rows added, as far as needed for `row` to be
    /// among its rows.
    pub open spec fn extended(self, row: int) -> TraceModel {
        if row < self.rows.len() {
            self
        } else {
            TraceModel {
                rows: self.rows + Seq::new(
                    (row + 1 - self.rows.len()) as nat,
                    |i: int| RowModel::blank(self.num_advice(), self.num_selectors),
                ),
                ..self
            }
        }
    }

    /// The trace with a residue put into a cell, the rows extended as far as
    /// needed.
    pub open spec fn with_cell(self, column: int, row: int, value: nat) -> TraceModel {
        let wide = self.extended(row);
        TraceModel {
            rows: wide.rows.update(
                row,
                RowModel {
                    advice: wide.rows[row].advice.update(column, Some(value)),
                    ..wide.rows[row]
                },
            ),
            ..wide
        }
    }

    /// The trace with a selector switched on in a row, the rows extended as
    /// far as needed.
    pub open spec fn with_selector(self, selector: int, row: int) -> TraceModel {
        let wide = self.extended(row);
        TraceModel {
            rows: wide.rows.update(
                row,
                RowModel {
                    selectors: wide.rows[row].selectors.update(selector, true),
                    ..wide.rows[row]
                },
            ),
            ..wide
        }
    }

    /// What a write of a value into the region that is being filled comes
    /// to: the cell that is written, or the reason why nothing is written.
    /// `present` says whether there is a value to write.
    pub open spec fn write_check(self, column: ColumnHandle, offset: nat, present: bool) -> Result<
        Cell,
        Error,
    > {
        if self.regions.len() == 0 {
            Err(Error::NoRegion)
        } else if column.kind != ColumnKind::Advice || column.index >= self.num_advice() {
            Err(Error::Configuration)
        } else if !present {
            Err(Error::MissingWitness)
        } else if self.region_start() + offset >= self.capacity {
            Err(Error::NotEnoughRows)
        } else if self.cell(column.index as int, (self.region_start() + offset) as int) is Some {
            Err(Error::DoubleAssignment)
        } else {
            Ok(Cell { column: column.index, row: (self.region_start() + offset) as usize })
        }
    }

    /// What a copy of the cell `source` into the region that is being filled
    /// comes to: the cell that is written, or the reason why nothing is
    /// written.
    pub open spec fn copy_check(self, source: Cell, column: ColumnHandle, offset: nat) -> Result<
        Cell,
        Error,
    > {
        if self.regions.len() == 0 {
            Err(Error::NoRegion)
        } else if column.kind != ColumnKind::Advice || !self.equality_enabled(column.index as int)
            || !self.equality_enabled(source.column as int) {
            Err(Error::Configuration)
        } else {
            self.write_check(
                column,
                offset,
                self.cell(source.column as int, source.row as int) is Some,
            )
        }
    }

    /// What switching a selector on in the region that is being filled comes
    /// to: the row, or the reason why nothing changes.
    pub open spec fn selector_check(self, selector: SelectorHandle, offset: nat) -> Result<
        nat,
        Error,
    > {
        if self.regions.len() == 0 {
            Err(Error::NoRegion)
        } else if selector.index >= self.num_selectors {
            Err(Error::Configuration)
        } else if self.region_start() + offset >= self.capacity {
            Err(Error::NotEnoughRows)
        } else {
            Ok(self.region_start() + offset)
        }
    }

    /// The trace with one more copy constraint.
    pub open spec fn with_copy(self, left: Cell, right: Cell) -> TraceModel {
        TraceModel { copies: self.copies.push((left, right)), ..self }
    }

    /// The trace with a new region that starts after the rows written so far.
    pub open spec fn with_region(self, name: Seq<char>) -> TraceModel {
        TraceModel {
            regions: self.regions.push(RegionModel { name, start: self.rows.len() }),
            ..self
        }
    }
}

/// A value put into a cell that holds one changes that cell and nothing
/// else.
pub proof fn lemma_overwrite(trace: TraceModel, column: int, row: int, value: nat)
    requires
        trace.cell(column, row) is Some,
    ensures
        trace.with_cell(column, row, value).rows.len() == trace.rows.len(),
        trace.with_cell(column, row, value).copies == trace.copies,
        trace.with_cell(column, row, value).cell(column, row) == Some(value),
        forall|c: int, r: int|
            c != column || r != row ==> #[trigger] trace.with_cell(column, row, value).cell(c, r)
                == trace.cell(c, r),
        forall|s: int, r: int|
            #[trigger] trace.with_cell(column, row, value).enabled(s, r) == trace.enabled(s, r),
        trace.wf() ==> trace.with_cell(column, row, value).wf(),
{
    let written = trace.with_cell(column, row, value);
    assert(trace.extended(row) == trace);
    assert forall|c: int, r: int| c != column || r != row implies #[trigger] written.cell(c, r)
        == trace.cell(c, r) by {
        if 0 <= r < trace.rows.len() && r != row {
            assert(written.rows[r] == trace.rows[r]);
        }
    }
    assert forall|s: int, r: int| #[trigger] written.enabled(s, r) == trace.enabled(s, r) by {
        if 0 <= r < trace.rows.len() && r != row {
            assert(written.rows[r] == trace.rows[r]);
        }
    }
    if trace.wf() {
        assert forall|r: int| 0 <= r < written.rows.len() implies (
        #[trigger] written.rows[r]).advice.len() == written.num_advice()
            && written.rows[r].selectors.len() == written.num_selectors by {
            assert(trace.rows[r].advice.len() == trace.num_advice());
        }
        assert forall|i: int| 0 <= i < written.copies.len() implies written.equality_enabled(
            (#[trigger] written.copies[i]).0.column as int,
        ) && written.equality_enabled(written.copies[i].1.column as int) by {
            assert(trace.equality_enabled(trace.copies[i].0.column as int));
        }
        assert forall|i: int| 0 <= i < written.regions.len() implies (
        #[trigger] written.regions[i]).start <= written.rows.len() by {
            assert(trace.regions[i].start <= trace.rows.len());
        }
        assert forall|i: int, j: int| 0 <= i <= j < written.regions.len() implies (
        #[trigger] written.regions[i]).start <= (#[trigger] written.regions[j]).start by {
            assert(trace.regions[i].start <= trace.regions[j].start);
        }
    }
}

/// One row as it is stored.
pub struct Row<F> {
    advice: Vec<CellState<F>>,
    selectors: Vec<bool>,
}

impl<F: Field> View for Row<F> {
    type V = RowModel;

    closed spec fn view(&self) -> RowModel {
        RowModel {
            advice: Seq::new(self.advice@.len(), |c: int| self.advice@[c]@),
            selectors: self.selectors@,
        }
    }
}

/// The table of one run of a circuit.
pub struct Trace<F> {
    equality: Vec<bool>,
    num_selectors: usize,
    capacity: usize,
    rows: Vec<Row<F>>,
    copies: Vec<(Cell, Cell)>,
    regions: Vec<Region>,
}

impl<F: Field> View for Trace<F> {
    type V = TraceModel;

    closed spec fn view(&self) -> TraceModel {
        TraceModel {
            equality: self.equality@,
            num_selectors: self.num_selectors as nat,
            capacity: self.capacity as nat,
            rows: Seq::new(self.rows@.len(), |r: int| self.rows@[r]@),
            copies: self.copies@,
            regions: Seq::new(self.regions@.len(), |i: int| self.regions@[i]@),
        }
    }
}

/// Two to the power of `k`, where a `usize` can hold it.
pub fn table_size(k: u32) -> (r: Option<usize>)
    ensures
        r is Some <==> pow2(k as nat) <= usize::MAX,
        r matches Some(n) ==> n == pow2(k as nat),
{
    let mut size: usize = 1;
    let mut i: u32 = 0;
    proof {
        vstd::arithmetic::power2::lemma2_to64();
    }
    while i < k
        invariant
            i <= k,
            size == pow2(i as nat),
        decreases k - i,
    {
        proof {
            vstd::arithmetic::power2::lemma_pow2_unfold((i + 1) as nat);
        }
        match size.checked_mul(2) {
            Some(doubled) => {
                size = doubled;
            },
            None => {
                proof {
                    if i + 1 < k {
                        vstd::arithmetic::power2::lemma_pow2_strictly_increases(
                            (i + 1) as nat,
                            k as nat,
                        );
                    }
                }
                return None;
            },
        }
        i += 1;
    }
    Some(size)
}

/// A row in which nothing is assigned and no selector is on.
fn blank_row<F: Field>(num_advice: usize, num_selectors: usize) -> (row: Row<F>)
    ensures
        row@ == RowModel::blank(num_advice as nat, num_selectors as nat),
{
    let mut advice: Vec<CellState<F>> = Vec::new();
    let mut i: usize = 0;
    while i < num_advice
        invariant
            i <= num_advice,
            advice@.len() == i,
            forall|c: int| 0 <= c < i ==> advice@[c] is Unassigned,
        decreases num_advice - i,
    {
        advice.push(CellState::Unassigned);
        i += 1;
    }
    let mut selectors: Vec<bool> = Vec::new();
    let mut j: usize = 0;
    while j < num_selectors
        invariant
            j <= num_selectors,
            selectors@.len() == j,
            forall|c: int| 0 <= c < j ==> !selectors@[c],
        decreases num_selectors - j,
    {
        selectors.push(false);
        j += 1;
    }
    let row = Row { advice, selectors };
    assert(row@.advice =~= RowModel::blank(num_advice as nat, num_selectors as nat).advice);
    assert(row@.selectors =~= RowModel::blank(num_advice as nat, num_selectors as nat).selectors);
    row
}

impl<F: Field> Trace<F> {
    /// An empty trace for the columns of `schema`, with room for two to the
    /// power of `k` rows. A size that a `usize` cannot hold is refused.
    pub fn new(schema: &Schema<F>, k: u32) -> (r: Result<Self, Error>)
        ensures
            r is Ok <==> pow2(k as nat) <= usize::MAX,
            r matches Ok(trace) ==> trace@ == TraceModel::empty(
                schema@.equality,
                schema@.num_selectors,
                pow2(k as nat),
            ) && trace@.wf(),
            r matches Err(e) ==> e == Error::Configuration,
    {
        match table_size(k) {
            Some(capacity) => {
                let trace = Trace {
                    equality: schema.equality_flags(),
                    num_selectors: schema.num_selectors(),
                    capacity,
                    rows: Vec::new(),
                    copies: Vec::new(),
                    regions: Vec::new(),
                };
                assert(trace@.rows =~= Seq::empty());
                assert(trace@.regions =~= Seq::empty());
                Ok(trace)
            },
            None => Err(Error::Configuration),
        }
    }

    /// Begins a region: the writes that follow fill rows counted from the
    /// first row that nothing was written to yet.
    pub fn begin_region(&mut self, name: &str)
        requires
            old(self)@.wf(),
        ensures
            final(self)@.wf(),
            final(self)@ == old(self)@.with_region(name@),
    {
        let region = Region { name: name.to_owned(), start: self.rows.len() };
        self.regions.push(region);
        assert(self@.regions =~= old(self)@.regions.push(region@));
        assert(self@.rows =~= old(self)@.rows);
        assert forall|i: int| 0 <= i < self@.copies.len() implies self@.equality_enabled(
            (#[trigger] self@.copies[i]).0.column as int,
        ) && self@.equality_enabled(self@.copies[i].1.column as int) by {
            assert(old(self)@.equality_enabled(old(self)@.copies[i].0.column as int));
        }
        assert forall|i: int, j: int| 0 <= i <= j < self@.regions.len() implies (
        #[trigger] self@.regions[i]).start <= (#[trigger] self@.regions[j]).start by {
            if j < old(self)@.regions.len() {
                assert(old(self)@.regions[i].start <= old(self)@.regions[j].start);
            } else if i < old(self)@.regions.len() {
                assert(old(self)@.regions[i].start <= old(self)@.rows.len());
            }
        }
    }

    /// Adds blank rows as far as needed for `row` to be among the rows.
    fn extend_to(&mut self, row: usize)
        requires
            old(self)@.wf(),
            row < old(self)@.capacity,
        ensures
            final(self)@.wf(),
            final(self)@ == old(self)@.extended(row as int),
            row < final(self)@.rows.len(),
    {
        let ghost before = self@;
        while self.rows.len() <= row
            invariant
                self@.wf(),
                before.wf(),
                row < before.capacity,
                before.rows.len() <= self@.rows.len(),
                self@.rows.len() <= before.rows.len() || self@.rows.len() <= row + 1,
                self@ == (TraceModel {
                    rows: before.rows + Seq::new(
                        (self@.rows.len() - before.rows.len()) as nat,
                        |i: int| RowModel::blank(before.num_advice(), before.num_selectors),
                    ),
                    ..before
                }),
            decreases row + 1 - self.rows.len(),
        {
            let ghost prev = self@;
            let blank = blank_row::<F>(self.equality.len(), self.num_selectors);
            self.rows.push(blank);
            assert(self@.rows =~= prev.rows.push(blank@));
            assert(self@.rows =~= before.rows + Seq::new(
                (self@.rows.len() - before.rows.len()) as nat,
                |i: int| RowModel::blank(before.num_advice(), before.num_selectors),
            ));
            assert(self@.regions =~= prev.regions);
        }
        assert(self@.rows =~= before.extended(row as int).rows);
    }

    /// Switches a selector on in the row at `offset` of the region that is
    /// being filled.
    pub fn enable_selector(&mut self, selector: SelectorHandle, offset: usize) -> (r: Result<
        (),
        Error,
    >)
        requires
            old(self)@.wf(),
        ensures
            final(self)@.wf(),
            match old(self)@.selector_check(selector, offset as nat) {
                Ok(row) => r is Ok && final(self)@ == old(self)@.with_selector(
                    selector.index as int,
                    row as int,
                ),
                Err(e) => r == Err::<(), Error>(e) && final(self)@ == old(self)@,
            },
    {
        if self.regions.len() == 0 {
            return Err(Error::NoRegion);
        }
        if selector.index >= self.num_selectors {
            return Err(Error::Configuration);
        }
        let start = self.regions[self.regions.len() - 1].start;
        assert(start == self@.regions.last().start);
        if offset >= self.capacity - start {
            return Err(Error::NotEnoughRows);
        }
        let row = start + offset;
        self.extend_to(row);
        let ghost wide = self@;
        assert(wide.rows[row as int] == self.rows@[row as int]@);
        self.rows[row].selectors[selector.index] = true;
        proof {
            assert(self@.rows =~= wide.rows.update(
                row as int,
                RowModel {
                    selectors: wide.rows[row as int].selectors.update(selector.index as int, true),
                    ..wide.rows[row as int]
                },
            ));
            assert(self@.regions =~= wide.regions);
        }
        Ok(())
    }

    /// Writes a value into the cell of an advice column in the row at
    /// `offset` of the region that is being filled, and returns the cell. A
    /// cell takes one write only.
    pub fn assign_advice(&mut self, column: ColumnHandle, offset: usize, value: Option<F>) -> (r:
        Result<Cell, Error>)
        requires
            old(self)@.wf(),
        ensures
            final(self)@.wf(),
            r == old(self)@.write_check(column, offset as nat, value is Some),
            r matches Ok(cell) ==> final(self)@ == old(self)@.with_cell(
                cell.column as int,
                cell.row as int,
                value.unwrap().value(),
            ),
            r is Err ==> final(self)@ == old(self)@,
    {
        if self.regions.len() == 0 {
            return Err(Error::NoRegion);
        }
        if column.kind != ColumnKind::Advice || column.index >= self.equality.len() {
            return Err(Error::Configuration);
        }
        let v = match value {
            Some(v) => v,
            None => {
                return Err(Error::MissingWitness);
            },
        };
        let start = self.regions[self.regions.len() - 1].start;
        assert(start == self@.regions.last().start);
        if offset >= self.capacity - start {
            return Err(Error::NotEnoughRows);
        }
        let row = start + offset;
        if row < self.rows.len() {
            assert(self.rows@[row as int]@.advice[column.index as int]
                == self.rows@[row as int].advice@[column.index as int]@);
            match self.rows[row].advice[column.index] {
                CellState::Known(_) => {
                    return Err(Error::DoubleAssignment);
                },
                CellState::Unassigned => {},
            }
        }
        self.put(column.index, row, v);
        Ok(Cell { column: column.index, row })
    }

    /// Puts a value into a cell, whatever the cell holds.
    fn put(&mut self, column: usize, row: usize, value: F)
        requires
            old(self)@.wf(),
            column < old(self)@.num_advice(),
            row < old(self)@.capacity,
        ensures
            final(self)@.wf(),
            final(self)@ == old(self)@.with_cell(column as int, row as int, value.value()),
    {
        self.extend_to(row);
        let ghost wide = self@;
        assert(wide.rows[row as int] == self.rows@[row as int]@);
        self.rows[row].advice[column] = CellState::Known(value);
        proof {
            assert(self@.rows[row as int].advice =~= wide.rows[row as int].advice.update(
                column as int,
                Some(value.value()),
            ));
            assert(self@.rows =~= wide.rows.update(
                row as int,
                RowModel {
                    advice: wide.rows[row as int].advice.update(column as int, Some(value.value())),
                    ..wide.rows[row as int]
                },
            ));
            assert(self@.regions =~= wide.regions);
        }
    }

    /// Declares two cells equal. Both must lie in columns that take part in
    /// copy constraints.
    pub fn constrain_equal(&mut self, left: Cell, right: Cell) -> (r: Result<(), Error>)
        requires
            old(self)@.wf(),
        ensures
            final(self)@.wf(),
            r is Ok <==> old(self)@.equality_enabled(left.column as int) && old(
                self)@.equality_enabled(right.column as int),
            r is Ok ==> final(self)@ == old(self)@.with_copy(left, right),
            r is Err ==> r == Err::<(), Error>(Error::Configuration) && final(self)@ == old(self)@,
    {
        if left.column < self.equality.len() && self.equality[left.column] && right.column
            < self.equality.len() && self.equality[right.column] {
            self.copies.push((left, right));
            proof {
                assert(self@.rows =~= old(self)@.rows);
                assert(self@.regions =~= old(self)@.regions);
                assert forall|i: int| 0 <= i < self@.copies.len() implies self@.equality_enabled(
                    (#[trigger] self@.copies[i]).0.column as int,
                ) && self@.equality_enabled(self@.copies[i].1.column as int) by {
                    if i < old(self)@.copies.len() {
                        assert(old(self)@.equality_enabled(old(self)@.copies[i].0.column as int));
                    }
                }
            }
            Ok(())
        } else {
            Err(Error::Configuration)
        }
    }

    /// Writes the value of the cell `source` into the cell of an advice
    /// column in the row at `offset` of the region that is being filled, and
    /// declares the two cells equal. Returns the cell that was written.
    pub fn copy_advice(&mut self, source: Cell, column: ColumnHandle, offset: usize) -> (r: Result<
        Cell,
        Error,
    >)
        requires
            old(self)@.wf(),
        ensures
            final(self)@.wf(),
            r == old(self)@.copy_check(source, column, offset as nat),
            r matches Ok(cell) ==> final(self)@ == old(self)@.with_cell(
                cell.column as int,
                cell.row as int,
                old(self)@.cell(source.column as int, source.row as int).unwrap(),
            ).with_copy(source, cell),
            r is Err ==> final(self)@ == old(self)@,
    {
        if self.regions.len() == 0 {
            return Err(Error::NoRegion);
        }
        if column.kind != ColumnKind::Advice || column.index >= self.equality.len()
            || !self.equality[column.index] || source.column >= self.equality.len()
            || !self.equality[source.column] {
            return Err(Error::Configuration);
        }
        let value = match self.get(source) {
            CellState::Known(v) => Some(v),
            CellState::Unassigned => None,
        };
        let cell = self.assign_advice(column, offset, value)?;
        let linked = self.constrain_equal(source, cell);
        assert(linked is Ok);
        Ok(cell)
    }

    /// Overwrites the value of a cell that holds one, against the rule that a
    /// cell takes one write only: the way to try a finished trace with a
    /// corrupted witness. Returns whether the cell held a value; where it
    /// did not, nothing changes.
    pub fn tamper(&mut self, cell: Cell, value: F) -> (done: bool)
        requires
            old(self)@.wf(),
        ensures
            final(self)@.wf(),
            done == (old(self)@.cell(cell.column as int, cell.row as int) is Some),
            done ==> final(self)@ == old(self)@.with_cell(
                cell.column as int,
                cell.row as int,
                value.value(),
            ),
            !done ==> final(self)@ == old(self)@,
    {
        match self.get(cell) {
            CellState::Known(_) => {
                self.put(cell.column, cell.row, value);
                true
            },
            CellState::Unassigned => false,
        }
    }

    /// What a cell holds. A cell that the table does not have holds nothing.
    pub fn get(&self, cell: Cell) -> (state: CellState<F>)
        requires
            self@.wf(),
        ensures
            state@ == self@.cell(cell.column as int, cell.row as int),
    {
        if cell.row < self.rows.len() {
            assert(self@.rows[cell.row as int] == self.rows@[cell.row as int]@);
            if cell.column < self.rows[cell.row].advice.len() {
                self.rows[cell.row].advice[cell.column]
            } else {
                CellState::Unassigned
            }
        } else {
            CellState::Unassigned
        }
    }

    /// Whether a selector is on in a row.
    pub fn is_enabled(&self, selector: SelectorHandle, row: usize) -> (on: bool)
        requires
            self@.wf(),
        ensures
            on == self@.enabled(selector.index as int, row as int),
    {
        if row < self.rows.len() {
            assert(self@.rows[row as int] == self.rows@[row as int]@);
            selector.index < self.rows[row].selectors.len()
                && self.rows[row].selectors[selector.index]
        } else {
            false
        }
    }

    /// The number of rows up to the last one that was written to.
    pub fn num_rows(&self) -> (n: usize)
        ensures
            n == self@.rows.len(),
    {
        self.rows.len()
    }

    /// The number of rows that the table has room for.
    pub fn capacity(&self) -> (n: usize)
        ensures
            n == self@.capacity,
    {
        self.capacity
    }

    /// The number of advice columns.
    pub fn num_advice(&self) -> (n: usize)
        ensures
            n == self@.num_advice(),
    {
        self.equality.len()
    }

    /// The number of selector columns.
    pub fn num_selectors(&self) -> (n: usize)
        ensures
            n == self@.num_selectors,
    {
        self.num_selectors
    }

    /// Whether the advice column with this index is declared and takes part
    /// in copy constraints.
    pub fn takes_copies(&self, column: usize) -> (r: bool)
        ensures
            r == self@.equality_enabled(column as int),
    {
        column < self.equality.len() && self.equality[column]
    }

    /// The number of copy constraints.
    pub fn num_copies(&self) -> (n: usize)
        ensures
            n == self@.copies.len(),
    {
        self.copies.len()
    }

    /// The copy constraint at a position, in the order in which they were
    /// raised.
    pub fn copy(&self, index: usize) -> (r: Option<(Cell, Cell)>)
        ensures
            r == (if index < self@.copies.len() {
                Some(self@.copies[index as int])
            } else {
                None
            }),
    {
        if index < self.copies.len() {
            Some(self.copies[index])
        } else {
            None
        }
    }

    /// The number of regions.
    pub fn num_regions(&self) -> (n: usize)
        ensures
            n == self@.regions.len(),
    {
        self.regions.len()
    }

    /// The region at a position, in the order in which they were begun.
    pub fn region(&self, index: usize) -> (r: Option<&Region>)
        ensures
            r is Some <==> index < self@.regions.len(),
            r matches Some(region) ==> region@ == self@.regions[index as int],
    {
        if index < self.regions.len() {
            Some(&self.regions[index])
        } else {
            None
        }
    }
}

} // verus!
