//! The schedule table: a header row of column names, then one record per
//! time slot whose first field labels the slot and whose other fields are the
//! cells of that row.

use vstd::prelude::*;
use crate::records::{Records, csv_records, csv_text, no_empty_record, read_records, write_records};

verus! {

/// A record without its first field; an empty record stays empty.
pub open spec fn tail_fields(r: Seq<Seq<char>>) -> Seq<Seq<char>> {
    if r.len() == 0 {
        r
    } else {
        r.subrange(1, r.len() as int)
    }
}

/// The first field of each non-empty record of `rows`, in order.
pub open spec fn slots_of(rows: Records) -> Seq<Seq<char>>
    decreases rows.len(),
{
    if rows.len() == 0 {
        seq![]
    } else if rows.last().len() == 0 {
        slots_of(rows.drop_last())
    } else {
        slots_of(rows.drop_last()).push(rows.last()[0])
    }
}

/// The remaining fields of each non-empty record of `rows`, in order.
pub open spec fn grid_of(rows: Records) -> Records
    decreases rows.len(),
{
    if rows.len() == 0 {
        seq![]
    } else if rows.last().len() == 0 {
        grid_of(rows.drop_last())
    } else {
        grid_of(rows.drop_last()).push(tail_fields(rows.last()))
    }
}

/// The abstract content of a schedule.
pub ghost struct TableView {
    pub headers: Seq<Seq<char>>,
    pub time_slots: Seq<Seq<char>>,
    pub grid: Records,
}

/// The schedule that a non-empty list of records describes: the header row
/// without its corner field, then the label and the cells of every non-empty
/// record after it.
pub open spec fn table_of(recs: Records) -> TableView
    recommends
        recs.len() > 0,
{
    TableView {
        headers: tail_fields(recs[0]),
        time_slots: slots_of(recs.drop_first()),
        grid: grid_of(recs.drop_first()),
    }
}

/// Whether a cell at (`row`, `col`) of the grid exists in `recs`, counting
/// records from the one after the header and fields from the one after the
/// label.
pub open spec fn cell_in_bounds(recs: Records, row: int, col: int) -> bool {
    0 <= row && 0 <= col && row + 1 < recs.len() && col + 1 < recs[row + 1].len()
}

/// `recs` with the cell at (`row`, `col`) set to `v`, or unchanged where that
/// cell does not exist.
pub open spec fn with_cell(recs: Records, row: int, col: int, v: Seq<char>) -> Records {
    if cell_in_bounds(recs, row, col) {
        recs.update(row + 1, recs[row + 1].update(col + 1, v))
    } else {
        recs
    }
}

/// The schedule: column names, time slot labels and the cells, row by row.
#[derive(Debug)]
pub struct TimetableData {
    pub headers: Vec<String>,
    pub time_slots: Vec<String>,
    pub grid: Vec<Vec<String>>,
}

impl View for TimetableData {
    type V = TableView;

    open spec fn view(&self) -> TableView {
        TableView {
            headers: self.headers.deep_view(),
            time_slots: self.time_slots.deep_view(),
            grid: self.grid.deep_view(),
        }
    }
}

/// Why reading or rewriting the schedule failed.
#[derive(Debug)]
pub enum TableError {
    /// The file is not a valid list of records.
    Parse(csv::Error),
    /// The file holds no record at all, not even the header row.
    Empty,
    /// The records could not be written back. The writer used here accepts
    /// every list of records, so `save` does not give this.
    Write(csv::Error),
}

/// Copies of the fields of `r` after the first one.
fn copy_tail(r: &Vec<String>) -> (out: Vec<String>)
    ensures
        out.deep_view() == tail_fields(r.deep_view()),
{
    let mut out: Vec<String> = Vec::new();
    let mut i: usize = 1;
    while i < r.len()
        invariant
            1 <= i,
            r@.len() > 0 ==> i <= r@.len(),
            out@.len() == if r@.len() == 0 { 0 } else { i - 1 },
            forall|k: int| 0 <= k < out@.len() ==> out@[k]@ == r@[k + 1]@,
        decreases r.len() - i,
    {
        out.push(r[i].clone());
        i = i + 1;
    }
    assert(out.deep_view() =~= tail_fields(r.deep_view()));
    out
}

/// There are as many time slots as grid rows in the schedule of any records.
pub proof fn lemma_slots_match_grid(rows: Records)
    ensures
        slots_of(rows).len() == grid_of(rows).len(),
    decreases rows.len(),
{
    if rows.len() > 0 {
        lemma_slots_match_grid(rows.drop_last());
    }
}

/// The schedule of non-empty records has one column name fewer than its
/// header record has fields, and one grid row for each time slot.
pub proof fn lemma_table_shape(recs: Records)
    requires
        recs.len() > 0,
    ensures
        recs[0].len() > 0 ==> table_of(recs).headers.len() + 1 == recs[0].len(),
        table_of(recs).time_slots.len() == table_of(recs).grid.len(),
{
    lemma_slots_match_grid(recs.drop_first());
}

/// Where no record is empty, each record gives one time slot and one grid
/// row, at its own position.
proof fn lemma_rows_without_gaps(rows: Records)
    requires
        forall|i: int| 0 <= i < rows.len() ==> #[trigger] rows[i].len() > 0,
    ensures
        slots_of(rows).len() == rows.len(),
        grid_of(rows).len() == rows.len(),
        forall|i: int| 0 <= i < rows.len() ==> #[trigger] grid_of(rows)[i] == tail_fields(rows[i]),
    decreases rows.len(),
{
    if rows.len() > 0 {
        let prev = rows.drop_last();
        assert forall|i: int| 0 <= i < prev.len() implies #[trigger] prev[i].len() > 0 by {
            assert(prev[i] == rows[i]);
        }
        lemma_rows_without_gaps(prev);
    }
}

/// Setting a cell that exists in records without an empty one, then reading
/// the schedule of the result, finds the new value in that cell of the grid.
pub proof fn lemma_saved_cell_reads_back(recs: Records, row: int, col: int, v: Seq<char>)
    requires
        no_empty_record(recs),
        cell_in_bounds(recs, row, col),
    ensures
        table_of(with_cell(recs, row, col, v)).grid[row][col] == v,
{
    let edited = with_cell(recs, row, col, v);
    let erows = edited.drop_first();
    assert forall|i: int| 0 <= i < erows.len() implies #[trigger] erows[i].len() > 0 by {
        assert(erows[i].len() == recs[i + 1].len());
    }
    lemma_rows_without_gaps(erows);
    assert(erows[row] == recs[row + 1].update(col + 1, v));
}

impl TimetableData {
    /// The schedule described by already parsed records: an error where there
    /// is no record, else the header row without its first field, and the
    /// label and the cells of each later non-empty record.
    pub fn from_records(records: &Vec<Vec<String>>) -> (r: Result<TimetableData, TableError>)
        ensures
            records@.len() == 0 ==> r is Err && r->Err_0 is Empty,
            records@.len() > 0 ==> r is Ok && r->Ok_0@ == table_of(records.deep_view()),
    {
        if records.len() == 0 {
            return Err(TableError::Empty);
        }
        let ghost recs = records.deep_view();
        let headers = copy_tail(&records[0]);
        let mut time_slots: Vec<String> = Vec::new();
        let mut grid: Vec<Vec<String>> = Vec::new();
        let mut i: usize = 1;
        while i < records.len()
            invariant
                1 <= i <= records@.len(),
                recs == records.deep_view(),
                time_slots.deep_view() == slots_of(recs.subrange(1, i as int)),
                grid.deep_view() == grid_of(recs.subrange(1, i as int)),
            decreases records.len() - i,
        {
            let row = &records[i];
            let ghost rows = recs.subrange(1, i + 1);
            assert(rows.drop_last() =~= recs.subrange(1, i as int));
            assert(rows.last() == row.deep_view());
            if row.len() > 0 {
                let ghost ts0 = time_slots.deep_view();
                let ghost g0 = grid.deep_view();
                time_slots.push(row[0].clone());
                let cells = copy_tail(row);
                grid.push(cells);
                assert(time_slots.deep_view() =~= ts0.push(row@[0]@));
                assert(grid.deep_view() =~= g0.push(cells.deep_view()));
            }
            i = i + 1;
        }
        assert(recs.subrange(1, recs.len() as int) =~= recs.drop_first());
        Ok(TimetableData { headers, time_slots, grid })
    }
}

impl TimetableData {
    /// Reads the schedule held in the delimited text `content`.
    pub fn load(content: &[u8]) -> (r: Result<TimetableData, TableError>)
        ensures
            csv_records(content@) is None ==> r is Err && r->Err_0 is Parse,
            csv_records(content@) is Some ==> {
                let recs = csv_records(content@)->0;
                &&& recs.len() == 0 ==> r is Err && r->Err_0 is Empty
                &&& recs.len() > 0 ==> r is Ok && r->Ok_0@ == table_of(recs)
                &&& r is Ok ==> r->Ok_0@.headers.len() + 1 == recs[0].len()
            },
            content@.len() == 0 ==> r is Err && r->Err_0 is Empty,
            r is Ok ==> r->Ok_0@.time_slots.len() == r->Ok_0@.grid.len(),
    {
        match read_records(content) {
            Err(e) => Err(TableError::Parse(e)),
            Ok(records) => {
                let r = TimetableData::from_records(&records);
                proof {
                    if records@.len() > 0 {
                        lemma_table_shape(records.deep_view());
                    }
                }
                r
            },
        }
    }

    /// Rewrites the delimited text `content` with the cell at (`row`, `col`)
    /// of the grid set to `val`. Gives `None` where no such cell exists, in
    /// which case nothing is to be written.
    pub fn save(content: &[u8], row: usize, col: usize, val: String) -> (r: Result<
        Option<Vec<u8>>,
        TableError,
    >)
        ensures
            csv_records(content@) is None ==> r is Err && r->Err_0 is Parse,
            csv_records(content@) is Some ==> {
                let recs = csv_records(content@)->0;
                &&& !cell_in_bounds(recs, row as int, col as int) ==> r is Ok && r->Ok_0 is None
                &&& cell_in_bounds(recs, row as int, col as int) ==> r is Ok && r->Ok_0 is Some
                    && r->Ok_0->0@ == csv_text(with_cell(recs, row as int, col as int, val@))
            },
    {
        match read_records(content) {
            Err(e) => Err(TableError::Parse(e)),
            Ok(mut records) => {
                if !set_cell(&mut records, row, col, val) {
                    return Ok(None);
                }
                match write_records(&records) {
                    Ok(bytes) => Ok(Some(bytes)),
                    Err(e) => Err(TableError::Write(e)),
                }
            },
        }
    }
}

/// Sets the cell at (`row`, `col`) of the grid held in `records`, that is
/// field `col + 1` of record `row + 1`, to `val`. Where that field does not
/// exist nothing changes and the result is `false`.
pub fn set_cell(records: &mut Vec<Vec<String>>, row: usize, col: usize, val: String) -> (changed:
    bool)
    ensures
        changed == cell_in_bounds(old(records).deep_view(), row as int, col as int),
        final(records).deep_view() == with_cell(
            old(records).deep_view(),
            row as int,
            col as int,
            val@,
        ),
{
    if row >= records.len() || row + 1 >= records.len() {
        return false;
    }
    if col >= records[row + 1].len() || col + 1 >= records[row + 1].len() {
        return false;
    }
    let ghost before = records.deep_view();
    let mut fields = records[row + 1].clone();
    assert(fields.deep_view() =~= before[row + 1]);
    fields.set(col + 1, val);
    let ghost after = fields.deep_view();
    records.set(row + 1, fields);
    assert(after =~= before[row + 1].update(col + 1, val@));
    assert(records.deep_view() =~= before.update(row + 1, after));
    true
}

} // verus!
