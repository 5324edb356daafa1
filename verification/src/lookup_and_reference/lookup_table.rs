//! The table and vector helpers of the lookup functions, and INDEX, ROW,
//! ROWS, COLUMN, COLUMNS, CHOOSE, OFFSET, FORMULATEXT and AREAS.
use vstd::prelude::*;
use vstd::string::*;
use crate::grid::{grid, slice_grid, sub_grid, width};
use crate::lookup_and_reference::wrapcols_wraprows::{flatten_vector, is_vector, vector_values};
use crate::types::{CalcError, CellReferenceIndex, Error, Range, LAST_COLUMN, LAST_ROW};

verus! {

/// A two dimensional table for the LOOKUP family of functions: a range
/// reference or an in-formula array literal.
pub enum LookupTable<T> {
    Range { left: CellReferenceIndex, right: CellReferenceIndex },
    Array(Vec<Vec<T>>),
}

/// A cell of a lookup table: a reference to evaluate, or an array value.
#[derive(Clone, Copy, Debug, PartialEq, Eq)]
pub enum TableCell<T> {
    Reference(CellReferenceIndex),
    Value(T),
}

/// The table's range is ordered and its sizes fit in an `i32`; its array
/// has at most `i32::MAX` rows and columns.
pub open spec fn table_valid<T>(t: LookupTable<T>) -> bool {
    match t {
        LookupTable::Range { left, right } => left.row <= right.row && left.column <= right.column
            && right.row - left.row + 1 <= i32::MAX && right.column - left.column + 1 <= i32::MAX,
        LookupTable::Array(a) => a@.len() <= i32::MAX && (a@.len() > 0 ==> a@[0].len() <= i32::MAX),
    }
}

/// The number of rows of a table.
pub open spec fn table_rows<T>(t: LookupTable<T>) -> int {
    match t {
        LookupTable::Range { left, right } => right.row - left.row + 1,
        LookupTable::Array(a) => a@.len() as int,
    }
}

/// The number of columns of a table (of its first row, for an array).
pub open spec fn table_columns<T>(t: LookupTable<T>) -> int {
    match t {
        LookupTable::Range { left, right } => right.column - left.column + 1,
        LookupTable::Array(a) => width(grid(a@)),
    }
}

/// The cell at the 0-based `(row, column)` offset within the table.
pub open spec fn table_cell<T>(t: LookupTable<T>, row: int, column: int) -> TableCell<T> {
    match t {
        LookupTable::Range { left, right } => TableCell::Reference(CellReferenceIndex {
            sheet: left.sheet,
            row: (left.row + row) as i32,
            column: (left.column + column) as i32,
        }),
        LookupTable::Array(a) => TableCell::Value(a@[row]@[column]),
    }
}

/// `(row, column)` is within the table (and within its array's row).
pub open spec fn table_has<T>(t: LookupTable<T>, row: int, column: int) -> bool {
    &&& 0 <= row < table_rows(t)
    &&& 0 <= column < table_columns(t)
    &&& t matches LookupTable::Array(a) ==> column < a@[row].len()
}

impl<T: Copy> LookupTable<T> {
    /// The number of rows.
    pub fn rows(&self) -> (r: i32)
        requires
            table_valid(*self),
        ensures
            r as int == table_rows(*self),
    {
        match self {
            LookupTable::Range { left, right } => right.row - left.row + 1,
            LookupTable::Array(array) => array.len() as i32,
        }
    }

    /// The number of columns.
    pub fn columns(&self) -> (r: i32)
        requires
            table_valid(*self),
        ensures
            r as int == table_columns(*self),
    {
        match self {
            LookupTable::Range { left, right } => right.column - left.column + 1,
            LookupTable::Array(array) => {
                if array.len() > 0 {
                    array[0].len() as i32
                } else {
                    0
                }
            },
        }
    }

    /// Returns the cell at the 0-based `(row, column)` offset within the table.
    pub fn get(&self, row: i32, column: i32) -> (r: TableCell<T>)
        requires
            table_valid(*self),
            table_has(*self, row as int, column as int),
        ensures
            r == table_cell(*self, row as int, column as int),
    {
        match self {
            LookupTable::Range { left, .. } => TableCell::Reference(CellReferenceIndex {
                sheet: left.sheet,
                row: left.row + row,
                column: left.column + column,
            }),
            LookupTable::Array(array) => TableCell::Value(array[row as usize][column as usize]),
        }
    }

    /// The first row of the table (the search vector for HLOOKUP).
    pub fn first_row(&self) -> (r: Vec<TableCell<T>>)
        requires
            table_valid(*self),
            table_rows(*self) > 0,
            forall|c: int| 0 <= c < table_columns(*self) ==> table_has(*self, 0, c),
        ensures
            r@ == Seq::new(table_columns(*self) as nat, |c: int| table_cell(*self, 0, c)),
    {
        let n = self.columns();
        let mut out: Vec<TableCell<T>> = Vec::new();
        let mut c: i32 = 0;
        while c < n
            invariant
                table_valid(*self),
                table_rows(*self) > 0,
                forall|c2: int| 0 <= c2 < table_columns(*self) ==> table_has(*self, 0, c2),
                n as int == table_columns(*self),
                0 <= c <= n,
                out@ == Seq::new(c as nat, |k: int| table_cell(*self, 0, k)),
            decreases n - c,
        {
            out.push(self.get(0, c));
            c = c + 1;
            assert(out@ =~= Seq::new(c as nat, |k: int| table_cell(*self, 0, k)));
        }
        out
    }

    /// The first column of the table (the search vector for VLOOKUP).
    pub fn first_column(&self) -> (r: Vec<TableCell<T>>)
        requires
            table_valid(*self),
            table_columns(*self) > 0,
            forall|row: int| 0 <= row < table_rows(*self) ==> table_has(*self, row, 0),
        ensures
            r@ == Seq::new(table_rows(*self) as nat, |row: int| table_cell(*self, row, 0)),
    {
        let n = self.rows();
        let mut out: Vec<TableCell<T>> = Vec::new();
        let mut row: i32 = 0;
        while row < n
            invariant
                table_valid(*self),
                table_columns(*self) > 0,
                forall|r2: int| 0 <= r2 < table_rows(*self) ==> table_has(*self, r2, 0),
                n as int == table_rows(*self),
                0 <= row <= n,
                out@ == Seq::new(row as nat, |k: int| table_cell(*self, k, 0)),
            decreases n - row,
        {
            out.push(self.get(row, 0));
            row = row + 1;
            assert(out@ =~= Seq::new(row as nat, |k: int| table_cell(*self, k, 0)));
        }
        out
    }
}

/// The (row, column) that INDEX selects, where 0 means "the whole
/// row/column". In the two-argument form the single index is a column
/// index for a single-row source and a row index otherwise.
pub open spec fn effective_indices(num_rows: int, row_num: int, col_num: int, two_arg: bool) -> (int, int) {
    if two_arg {
        if num_rows == 1 { (0, row_num) } else { (row_num, 0) }
    } else {
        (row_num, col_num)
    }
}

/// Resolves the effective (row, column) indices for INDEX.
pub fn index_effective_indices(num_rows: usize, row_num: usize, col_num: usize, two_arg: bool) -> (r: (usize, usize))
    ensures
        (r.0 as int, r.1 as int) == effective_indices(num_rows as int, row_num as int, col_num as int, two_arg),
{
    if two_arg {
        if num_rows == 1 {
            (0, row_num)
        } else {
            (row_num, 0)
        }
    } else {
        (row_num, col_num)
    }
}

/// What INDEX selects from an array: one value, or a sub-array.
pub enum IndexResult<T> {
    Value(T),
    Array(Vec<Vec<T>>),
}

/// The span `start..=end` (1-based) that an index selects among `n`: all of
/// them for 0, else just that one.
pub open spec fn index_span(index: int, n: int) -> (int, int) {
    if index == 0 { (1, n) } else { (index, index) }
}

/// What INDEX gives for an array: #REF! past its size, a single value when the
/// selection is one cell, else the selected rows and columns.
pub open spec fn index_from_array_spec<T>(arr: Seq<Seq<T>>, row_eff: int, col_eff: int)
    -> Result<Result<T, Seq<Seq<T>>>, (Error, Seq<char>)>
{
    let num_rows = arr.len() as int;
    let num_cols = width(arr);
    if row_eff > num_rows || col_eff > num_cols {
        Err((Error::REF, "Wrong reference"@))
    } else {
        let (r0, r1) = index_span(row_eff, num_rows);
        let (c0, c1) = index_span(col_eff, num_cols);
        if r0 == r1 && c0 == c1 {
            Ok(Ok(arr[r0 - 1][c0 - 1]))
        } else {
            Ok(Err(sub_grid(arr, r0 - 1, r1, c0 - 1, c1)))
        }
    }
}

/// The rows that INDEX selects from `g` are long enough for the columns it
/// selects (INDEX reads only those rows).
pub open spec fn selection_readable<T>(g: Seq<Seq<T>>, row_eff: int, col_eff: int) -> bool {
    let n = g.len() as int;
    let w = width(g);
    (row_eff <= n && col_eff <= w) ==> (forall|i: int|
        index_span(row_eff, n).0 - 1 <= i < index_span(row_eff, n).1 ==> index_span(col_eff, w).1 <= #[trigger] g[i].len())
}

/// Extracts the requested cell, row, column or whole array from `arr`.
/// `row_eff`/`col_eff` of `0` select every row/column respectively. A selection
/// that resolves to a single cell is returned as a value; otherwise an array.
pub fn index_from_array<T: Copy>(arr: &Vec<Vec<T>>, row_eff: usize, col_eff: usize) -> (r: Result<IndexResult<T>, CalcError>)
    requires
        arr@.len() > 0,
        arr@[0].len() > 0,
        selection_readable(grid(arr@), row_eff as int, col_eff as int),
    ensures
        match r {
            Ok(IndexResult::Value(v)) => index_from_array_spec(grid(arr@), row_eff as int, col_eff as int)
                == Ok::<Result<T, Seq<Seq<T>>>, (Error, Seq<char>)>(Ok(v)),
            Ok(IndexResult::Array(a)) => index_from_array_spec(grid(arr@), row_eff as int, col_eff as int)
                == Ok::<Result<T, Seq<Seq<T>>>, (Error, Seq<char>)>(Err(grid(a@))),
            Err(e) => index_from_array_spec(grid(arr@), row_eff as int, col_eff as int)
                == Err::<Result<T, Seq<Seq<T>>>, (Error, Seq<char>)>((e.error, e.message@)),
        },
{
    let ghost g = grid(arr@);
    let num_rows = arr.len();
    let num_cols = arr[0].len();
    assert(g[0] == arr@[0]@);
    if row_eff > num_rows || col_eff > num_cols {
        return Err(CalcError { error: Error::REF, message: String::from_str("Wrong reference") });
    }
    let (row_start, row_end) = if row_eff == 0 { (1, num_rows) } else { (row_eff, row_eff) };
    let (col_start, col_end) = if col_eff == 0 { (1, num_cols) } else { (col_eff, col_eff) };
    if row_start == row_end && col_start == col_end {
        assert(g[row_start - 1] == arr@[row_start - 1]@);
        return Ok(IndexResult::Value(arr[row_start - 1][col_start - 1]));
    }
    proof {
        assert forall|i: int| row_start - 1 <= i < row_end implies col_end <= (#[trigger] arr@[i]).len() by {
            assert(g[i] == arr@[i]@);
        }
    }
    Ok(IndexResult::Array(slice_grid(arr, row_start - 1, row_end, col_start - 1, col_end)))
}

/// What INDEX selects from a range: one cell, or a range.
#[derive(Clone, Copy, Debug, PartialEq, Eq)]
pub enum IndexReference {
    Cell(CellReferenceIndex),
    Range(Range),
}

/// A range whose corners are ordered, on one sheet, with sizes that fit in
/// an `i32`.
pub open spec fn range_valid(left: CellReferenceIndex, right: CellReferenceIndex) -> bool {
    &&& 1 <= left.row <= right.row
    &&& 1 <= left.column <= right.column
}

/// What INDEX gives for a range, with the effective indices already resolved
/// by `effective_indices`.
pub open spec fn index_in_range_spec(left: CellReferenceIndex, right: CellReferenceIndex, row_eff: int, col_eff: int)
    -> Result<IndexReference, (Error, Seq<char>)>
{
    let num_rows = right.row - left.row + 1;
    let num_cols = right.column - left.column + 1;
    if row_eff > num_rows || col_eff > num_cols {
        Err((Error::REF, "Wrong reference"@))
    } else {
        let (r0, r1) = if row_eff == 0 { (left.row as int, right.row as int) } else { (left.row + row_eff - 1, left.row + row_eff - 1) };
        let (c0, c1) = if col_eff == 0 { (left.column as int, right.column as int) } else { (left.column + col_eff - 1, left.column + col_eff - 1) };
        if r0 == r1 && c0 == c1 {
            Ok(IndexReference::Cell(CellReferenceIndex { sheet: left.sheet, row: r0 as i32, column: c0 as i32 }))
        } else {
            Ok(IndexReference::Range(Range {
                left: CellReferenceIndex { sheet: left.sheet, row: r0 as i32, column: c0 as i32 },
                right: CellReferenceIndex { sheet: left.sheet, row: r1 as i32, column: c1 as i32 },
            }))
        }
    }
}

/// The row count of a range as INDEX computes it.
pub open spec fn range_row_count(left: CellReferenceIndex, right: CellReferenceIndex) -> int {
    right.row - left.row + 1
}

/// `INDEX(range, row_num, [column_num])`: the cell or range that the indices
/// select from the range `left:right`.
pub fn index_in_range(left: CellReferenceIndex, right: CellReferenceIndex, row_num: usize, col_num: usize, two_arg: bool)
    -> (r: Result<IndexReference, CalcError>)
    requires
        range_valid(left, right),
    ensures
        match r {
            Ok(x) => index_in_range_spec(left, right, effective_indices(range_row_count(left, right), row_num as int, col_num as int, two_arg).0,
                effective_indices(range_row_count(left, right), row_num as int, col_num as int, two_arg).1) == Ok::<IndexReference, (Error, Seq<char>)>(x),
            Err(e) => index_in_range_spec(left, right, effective_indices(range_row_count(left, right), row_num as int, col_num as int, two_arg).0,
                effective_indices(range_row_count(left, right), row_num as int, col_num as int, two_arg).1)
                == Err::<IndexReference, (Error, Seq<char>)>((e.error, e.message@)),
        },
{
    let num_rows = (right.row - left.row + 1) as usize;
    let (row_eff, col_eff) = index_effective_indices(num_rows, row_num, col_num, two_arg);
    let num_cols = (right.column - left.column + 1) as usize;
    if row_eff > num_rows || col_eff > num_cols {
        return Err(CalcError { error: Error::REF, message: String::from_str("Wrong reference") });
    }
    let (row_start, row_end) = if row_eff == 0 {
        (left.row, right.row)
    } else {
        let r = left.row + (row_eff as i32 - 1);
        (r, r)
    };
    let (col_start, col_end) = if col_eff == 0 {
        (left.column, right.column)
    } else {
        let c = left.column + (col_eff as i32 - 1);
        (c, c)
    };
    if row_start == row_end && col_start == col_end {
        Ok(IndexReference::Cell(CellReferenceIndex { sheet: left.sheet, row: row_start, column: col_start }))
    } else {
        Ok(IndexReference::Range(Range {
            left: CellReferenceIndex { sheet: left.sheet, row: row_start, column: col_start },
            right: CellReferenceIndex { sheet: left.sheet, row: row_end, column: col_end },
        }))
    }
}

/// INDEX's `area_num`: only 1 is supported (a reference has a single
/// area).
pub fn check_area_num(area_num: i64) -> (r: Result<(), CalcError>)
    ensures
        match r {
            Ok(()) => area_num == 1,
            Err(e) => area_num != 1 && (if area_num < 1 {
                e.error == Error::VALUE && e.message@ == "Argument must be >= 1"@
            } else {
                e.error == Error::REF && e.message@ == "Area out of range"@
            }),
        },
{
    if area_num < 1 {
        return Err(CalcError { error: Error::VALUE, message: String::from_str("Argument must be >= 1") });
    }
    if area_num != 1 {
        return Err(CalcError { error: Error::REF, message: String::from_str("Area out of range") });
    }
    Ok(())
}

/// A non-negative index as INDEX takes it: a value past `usize::MAX` is
/// held at `usize::MAX`, which is then past any size.
pub open spec fn saturated_index(x: int) -> int {
    if x > usize::MAX { usize::MAX as int } else { x }
}

fn saturate_index(x: i64) -> (r: usize)
    requires
        x >= 0,
    ensures
        r as int == saturated_index(x as int),
{
    let u = x as u64;
    if u > usize::MAX as u64 {
        usize::MAX
    } else {
        u as usize
    }
}

/// What INDEX makes of its argument count and its (floored) numeric
/// arguments: the arity, then `area_num` (fourth argument), then a negative
/// row, then a negative column (three or four arguments) are refused; else
/// the row and column indices and whether the two-argument form is used.
pub open spec fn index_arguments_spec(arg_count: int, area_num: int, row_num: int, col_num: int)
    -> Result<(int, int, bool), (Error, Seq<char>)>
{
    if arg_count < 2 || arg_count > 4 {
        Err((Error::ERROR, "Wrong number of arguments"@))
    } else if arg_count == 4 && area_num < 1 {
        Err((Error::VALUE, "Argument must be >= 1"@))
    } else if arg_count == 4 && area_num != 1 {
        Err((Error::REF, "Area out of range"@))
    } else if row_num < 0 {
        Err((Error::VALUE, "Argument must be >= 0"@))
    } else if arg_count != 2 && col_num < 0 {
        Err((Error::VALUE, "Argument must be >= 0"@))
    } else if arg_count == 2 {
        Ok((saturated_index(row_num), 0, true))
    } else {
        Ok((saturated_index(row_num), saturated_index(col_num), false))
    }
}

/// The argument checks of `INDEX(array, row_num, [column_num], [area_num])`,
/// on the number of arguments and the floors of the numeric ones (those
/// not given are ignored).
pub fn index_arguments(arg_count: usize, area_num: i64, row_num: i64, col_num: i64)
    -> (r: Result<(usize, usize, bool), CalcError>)
    ensures
        match r {
            Ok((row, col, two_arg)) => index_arguments_spec(arg_count as int, area_num as int, row_num as int, col_num as int)
                == Ok::<(int, int, bool), (Error, Seq<char>)>((row as int, col as int, two_arg)),
            Err(e) => index_arguments_spec(arg_count as int, area_num as int, row_num as int, col_num as int)
                == Err::<(int, int, bool), (Error, Seq<char>)>((e.error, e.message@)),
        },
{
    if arg_count < 2 || arg_count > 4 {
        return Err(crate::types::args_number_error());
    }
    if arg_count == 4 {
        match check_area_num(area_num) {
            Ok(()) => {},
            Err(e) => return Err(e),
        }
    }
    if row_num < 0 {
        return Err(crate::types::new_error(Error::VALUE, "Argument must be >= 0"));
    }
    let two_arg = arg_count == 2;
    if !two_arg && col_num < 0 {
        return Err(crate::types::new_error(Error::VALUE, "Argument must be >= 0"));
    }
    let row = saturate_index(row_num);
    if two_arg {
        Ok((row, 0, true))
    } else {
        Ok((row, saturate_index(col_num), false))
    }
}

/// `grid` has no cell to index.
pub open spec fn empty_array<T>(g: Seq<Seq<T>>) -> bool {
    g.len() == 0 || g[0].len() == 0
}

/// What INDEX gives for an array: #REF! for an empty one, else the
/// selection at the effective indices.
pub open spec fn index_array_spec<T>(g: Seq<Seq<T>>, row_num: int, col_num: int, two_arg: bool)
    -> Result<Result<T, Seq<Seq<T>>>, (Error, Seq<char>)>
{
    if empty_array(g) {
        Err((Error::REF, "Empty array"@))
    } else {
        let (row_eff, col_eff) = effective_indices(g.len() as int, row_num, col_num, two_arg);
        index_from_array_spec(g, row_eff, col_eff)
    }
}

/// `INDEX(array, row_num, [column_num])` on an array value.
pub fn index_array<T: Copy>(arr: &Vec<Vec<T>>, row_num: usize, col_num: usize, two_arg: bool)
    -> (r: Result<IndexResult<T>, CalcError>)
    requires
        !empty_array(grid(arr@)) ==> selection_readable(grid(arr@),
            effective_indices(arr@.len() as int, row_num as int, col_num as int, two_arg).0,
            effective_indices(arr@.len() as int, row_num as int, col_num as int, two_arg).1),
    ensures
        match r {
            Ok(IndexResult::Value(v)) => index_array_spec(grid(arr@), row_num as int, col_num as int, two_arg)
                == Ok::<Result<T, Seq<Seq<T>>>, (Error, Seq<char>)>(Ok(v)),
            Ok(IndexResult::Array(a)) => index_array_spec(grid(arr@), row_num as int, col_num as int, two_arg)
                == Ok::<Result<T, Seq<Seq<T>>>, (Error, Seq<char>)>(Err(grid(a@))),
            Err(e) => index_array_spec(grid(arr@), row_num as int, col_num as int, two_arg)
                == Err::<Result<T, Seq<Seq<T>>>, (Error, Seq<char>)>((e.error, e.message@)),
        },
{
    if arr.len() == 0 || arr[0].len() == 0 {
        return Err(crate::types::new_error(Error::REF, "Empty array"));
    }
    let (row_eff, col_eff) = index_effective_indices(arr.len(), row_num, col_num, two_arg);
    index_from_array(arr, row_eff, col_eff)
}

/// The first argument of INDEX, as it evaluated.
pub enum IndexSource<T> {
    Range { left: CellReferenceIndex, right: CellReferenceIndex },
    Array(Vec<Vec<T>>),
    Error(CalcError),
    Other,
}

/// What INDEX gives: a reference into the range, or a part of the array.
pub enum IndexOutcome<T> {
    Reference(IndexReference),
    Selection(IndexResult<T>),
}

/// The source is usable by INDEX without a panic: a range is ordered, the
/// rows selected from an array are long enough for the selected columns.
pub open spec fn index_source_valid<T>(source: IndexSource<T>, row_num: int, col_num: int, two_arg: bool) -> bool {
    match source {
        IndexSource::Range { left, right } => range_valid(left, right),
        IndexSource::Array(a) => !empty_array(grid(a@)) ==> selection_readable(grid(a@),
            effective_indices(a@.len() as int, row_num, col_num, two_arg).0,
            effective_indices(a@.len() as int, row_num, col_num, two_arg).1),
        _ => true,
    }
}

/// `INDEX(reference, row_num, [column_num])` once its arguments are checked
/// by `index_arguments`: a range gives a cell or a range, an array a value
/// or an array, an error is passed on, anything else is #VALUE!.
pub fn fn_index<T: Copy>(source: &IndexSource<T>, row_num: usize, col_num: usize, two_arg: bool)
    -> (r: Result<IndexOutcome<T>, CalcError>)
    requires
        index_source_valid(*source, row_num as int, col_num as int, two_arg),
    ensures
        match *source {
            IndexSource::Range { left, right } => {
                let (row_eff, col_eff) = effective_indices(range_row_count(left, right), row_num as int, col_num as int, two_arg);
                match r {
                    Ok(IndexOutcome::Reference(x)) => index_in_range_spec(left, right, row_eff, col_eff)
                        == Ok::<IndexReference, (Error, Seq<char>)>(x),
                    Ok(IndexOutcome::Selection(_)) => false,
                    Err(e) => index_in_range_spec(left, right, row_eff, col_eff)
                        == Err::<IndexReference, (Error, Seq<char>)>((e.error, e.message@)),
                }
            },
            IndexSource::Array(a) => match r {
                Ok(IndexOutcome::Selection(IndexResult::Value(v))) => index_array_spec(grid(a@), row_num as int, col_num as int, two_arg)
                    == Ok::<Result<T, Seq<Seq<T>>>, (Error, Seq<char>)>(Ok(v)),
                Ok(IndexOutcome::Selection(IndexResult::Array(b))) => index_array_spec(grid(a@), row_num as int, col_num as int, two_arg)
                    == Ok::<Result<T, Seq<Seq<T>>>, (Error, Seq<char>)>(Err(grid(b@))),
                Ok(IndexOutcome::Reference(_)) => false,
                Err(e) => index_array_spec(grid(a@), row_num as int, col_num as int, two_arg)
                    == Err::<Result<T, Seq<Seq<T>>>, (Error, Seq<char>)>((e.error, e.message@)),
            },
            IndexSource::Error(e0) => match r {
                Err(e) => e.error == e0.error && e.message@ == e0.message@,
                Ok(_) => false,
            },
            IndexSource::Other => match r {
                Err(e) => e.error == Error::VALUE && e.message@ == "Expecting a Range"@,
                Ok(_) => false,
            },
        },
{
    match source {
        IndexSource::Range { left, right } => match index_in_range(*left, *right, row_num, col_num, two_arg) {
            Ok(x) => Ok(IndexOutcome::Reference(x)),
            Err(e) => Err(e),
        },
        IndexSource::Array(a) => match index_array(a, row_num, col_num, two_arg) {
            Ok(x) => Ok(IndexOutcome::Selection(x)),
            Err(e) => Err(e),
        },
        IndexSource::Error(e0) => Err(CalcError { error: e0.error, message: e0.message.clone() }),
        IndexSource::Other => Err(crate::types::new_error(Error::VALUE, "Expecting a Range")),
    }
}

/// `ROW([reference])`: the row of the reference, or of the current cell.
pub fn fn_row(cell: CellReferenceIndex, reference: Option<Range>) -> (r: i32)
    ensures
        r == match reference { Some(range) => range.left.row, None => cell.row },
{
    match reference {
        Some(range) => range.left.row,
        None => cell.row,
    }
}

/// `COLUMN([reference])`: the column of the reference, or of the current cell.
pub fn fn_column(cell: CellReferenceIndex, reference: Option<Range>) -> (r: i32)
    ensures
        r == match reference { Some(range) => range.left.column, None => cell.column },
{
    match reference {
        Some(range) => range.left.column,
        None => cell.column,
    }
}

/// `ROWS(range)`: the number of rows of the range.
pub fn fn_rows(range: Range) -> (r: i32)
    requires
        range_valid(range.left, range.right),
    ensures
        r == range.right.row - range.left.row + 1,
{
    range.right.row - range.left.row + 1
}

/// `COLUMNS(range)`: the number of columns of the range.
pub fn fn_columns(range: Range) -> (r: i32)
    requires
        range_valid(range.left, range.right),
    ensures
        r == range.right.column - range.left.column + 1,
{
    range.right.column - range.left.column + 1
}

/// `CHOOSE(index_num, value1, ...)`: the 1-based argument position that
/// `index_num` selects among `num_values` values, or #VALUE!.
pub fn choose_index(index_num: usize, num_values: usize) -> (r: Result<usize, CalcError>)
    ensures
        match r {
            Ok(i) => 1 <= index_num <= num_values && i == index_num,
            Err(e) => !(1 <= index_num <= num_values) && e.error == Error::VALUE && e.message@ == "Invalid index"@,
        },
{
    if index_num < 1 || index_num > num_values {
        return Err(CalcError { error: Error::VALUE, message: String::from_str("Invalid index") });
    }
    Ok(index_num)
}

/// The range that OFFSET returns, or its error: `rows`, `cols` are the
/// moves; `height`, `width` the requested size (already rounded), where
/// missing ones keep the size of the reference.
pub open spec fn offset_spec(reference: Range, rows: int, cols: int, height: Option<int>, width: Option<int>)
    -> Result<Range, (Error, Seq<char>)>
{
    let row_start = reference.left.row + rows;
    let column_start = reference.left.column + cols;
    let h = match height { Some(h) => h - 1, None => reference.right.row - reference.left.row };
    let w = match (height, width) {
        (Some(_), Some(w)) => w - 1,
        _ => reference.right.column - reference.left.column,
    };
    if w == -1 || h == -1 {
        Err((Error::REF, "Invalid reference"@))
    } else if w < -1 || h < -1 {
        Err((Error::VALUE, "width and height cannot be negative"@))
    } else if row_start < 1 || row_start + h > LAST_ROW || column_start < 1 || column_start + w > LAST_COLUMN {
        Err((Error::REF, "Invalid reference"@))
    } else {
        Ok(Range {
            left: CellReferenceIndex { sheet: reference.left.sheet, row: row_start as i32, column: column_start as i32 },
            right: CellReferenceIndex { sheet: reference.right.sheet, row: (row_start + h) as i32, column: (column_start + w) as i32 },
        })
    }
}

/// All the sums that OFFSET computes fit in an `i32`.
pub open spec fn offset_fits(reference: Range, rows: int, cols: int, height: Option<int>, width: Option<int>) -> bool {
    let row_start = reference.left.row + rows;
    let column_start = reference.left.column + cols;
    let h = match height { Some(h) => h - 1, None => reference.right.row - reference.left.row };
    let w = match (height, width) {
        (Some(_), Some(w)) => w - 1,
        _ => reference.right.column - reference.left.column,
    };
    &&& i32::MIN <= row_start <= i32::MAX
    &&& i32::MIN <= column_start <= i32::MAX
    &&& i32::MIN <= h <= i32::MAX
    &&& i32::MIN <= w <= i32::MAX
    &&& i32::MIN <= row_start + h <= i32::MAX
    &&& i32::MIN <= column_start + w <= i32::MAX
}

/// `OFFSET(reference, rows, cols, [height], [width])`
///
/// A reference to a range that is a number of rows and columns from a
/// reference, of the given height and width (a width is read only with a
/// height).
pub fn fn_offset(reference: Range, rows: i32, cols: i32, height: Option<i32>, width: Option<i32>) -> (r: Result<Range, CalcError>)
    requires
        offset_fits(reference, rows as int, cols as int,
            match height { Some(v) => Some(v as int), None => None },
            match width { Some(v) => Some(v as int), None => None }),
    ensures
        match r {
            Ok(range) => offset_spec(reference, rows as int, cols as int,
                match height { Some(v) => Some(v as int), None => None },
                match width { Some(v) => Some(v as int), None => None }) == Ok::<Range, (Error, Seq<char>)>(range),
            Err(e) => offset_spec(reference, rows as int, cols as int,
                match height { Some(v) => Some(v as int), None => None },
                match width { Some(v) => Some(v as int), None => None })
                == Err::<Range, (Error, Seq<char>)>((e.error, e.message@)),
        },
{
    let row_start = reference.left.row + rows;
    let column_start = reference.left.column + cols;
    let (h, w) = match height {
        Some(hv) => {
            let h = hv - 1;
            let w = match width {
                Some(wv) => wv - 1,
                None => reference.right.column - reference.left.column,
            };
            (h, w)
        },
        None => (reference.right.row - reference.left.row, reference.right.column - reference.left.column),
    };
    // This is what Excel does
    if w == -1 || h == -1 {
        return Err(CalcError { error: Error::REF, message: String::from_str("Invalid reference") });
    }
    if w < -1 || h < -1 {
        return Err(CalcError {
            error: Error::VALUE,
            message: String::from_str("width and height cannot be negative"),
        });
    }
    let column_end = column_start + w;
    let row_end = row_start + h;
    if row_start < 1 || row_end > LAST_ROW || column_start < 1 || column_end > LAST_COLUMN {
        return Err(CalcError { error: Error::REF, message: String::from_str("Invalid reference") });
    }
    Ok(Range {
        left: CellReferenceIndex { sheet: reference.left.sheet, row: row_start, column: column_start },
        right: CellReferenceIndex { sheet: reference.right.sheet, row: row_end, column: column_end },
    })
}

/// `FORMULATEXT(reference)`: the cell whose formula is wanted, or the error
/// for a reference to other than one cell.
pub fn formulatext_cell(reference: Range) -> (r: Result<CellReferenceIndex, CalcError>)
    ensures
        match r {
            Ok(c) => reference.left.sheet == reference.right.sheet && reference.left.row == reference.right.row
                && reference.left.column == reference.right.column && c == reference.left,
            Err(e) => if reference.left.sheet != reference.right.sheet {
                e.error == Error::ERROR && e.message@ == "3D ranges not supported"@
            } else {
                (reference.left.row != reference.right.row || reference.left.column != reference.right.column)
                    && e.error == Error::NIMPL && e.message@ == "argument must be a reference to a single cell"@
            },
        },
{
    if reference.left.sheet != reference.right.sheet {
        return Err(CalcError { error: Error::ERROR, message: String::from_str("3D ranges not supported") });
    }
    if reference.left.row != reference.right.row || reference.left.column != reference.right.column {
        return Err(CalcError {
            error: Error::NIMPL,
            message: String::from_str("argument must be a reference to a single cell"),
        });
    }
    Ok(reference.left)
}

/// How MATCH and LOOKUP read a range as a vector: the flag `is_row_vector`
/// with which its cells are listed, `false` for a single row and `true` for
/// a single column; `#ERROR!` for a range of several rows and columns.
pub fn range_vector_kind(left: CellReferenceIndex, right: CellReferenceIndex) -> (r: Result<bool, CalcError>)
    ensures
        match r {
            Ok(b) => if left.row == right.row { !b } else { left.column == right.column && b },
            Err(e) => left.row != right.row && left.column != right.column && e.error == Error::ERROR
                && e.message@ == "Argument must be a vector"@,
        },
{
    if left.row == right.row {
        Ok(false)
    } else if left.column == right.column {
        Ok(true)
    } else {
        Err(CalcError { error: Error::ERROR, message: String::from_str("Argument must be a vector") })
    }
}

/// How MATCH and LOOKUP read an array as a vector: its values in order when
/// it is a single row or a single column, else `#ERROR!`.
pub fn array_as_vector<T: Copy>(array: &Vec<Vec<T>>) -> (r: Result<Vec<T>, CalcError>)
    ensures
        match r {
            Ok(v) => is_vector(grid(array@)) && v@ == vector_values(grid(array@)),
            Err(e) => !is_vector(grid(array@)) && e.error == Error::ERROR && e.message@ == "Argument must be a vector"@,
        },
{
    match flatten_vector(array) {
        Ok(v) => Ok(v),
        Err(_) => Err(CalcError { error: Error::ERROR, message: String::from_str("Argument must be a vector") }),
    }
}

fn invalid_reference() -> (e: CalcError)
    ensures
        e.error == Error::REF,
        e.message@ == "Invalid reference"@,
{
    CalcError { error: Error::REF, message: String::from_str("Invalid reference") }
}

fn not_found() -> (e: CalcError)
    ensures
        e.error == Error::NA,
        e.message@ == "Not found"@,
{
    CalcError { error: Error::NA, message: String::from_str("Not found") }
}

/// The cell that VLOOKUP returns: `#REF!` unless `column_index` (1-based)
/// points inside the table; else, for the row `found` at which the search of
/// the first column found the value, the cell of that row in that column,
/// and `#N/A` when the search found nothing.
pub fn vlookup_cell<T: Copy>(table: &LookupTable<T>, column_index: i32, found: Option<usize>)
    -> (r: Result<TableCell<T>, CalcError>)
    requires
        table_valid(*table),
        1 <= column_index <= table_columns(*table) ==> (found matches Some(p) ==> table_has(*table, p as int, column_index - 1)),
    ensures
        match r {
            Ok(c) => 1 <= column_index <= table_columns(*table) && (found matches Some(p)
                && c == table_cell(*table, p as int, column_index - 1)),
            Err(e) => if !(1 <= column_index <= table_columns(*table)) {
                e.error == Error::REF && e.message@ == "Invalid reference"@
            } else {
                found is None && e.error == Error::NA && e.message@ == "Not found"@
            },
        },
{
    if column_index < 1 || column_index > table.columns() {
        return Err(invalid_reference());
    }
    match found {
        Some(row) => Ok(table.get(row as i32, column_index - 1)),
        None => Err(not_found()),
    }
}

/// The cell that HLOOKUP returns: `#REF!` unless `row_index` (1-based)
/// points inside the table; else, for the column `found` at which the search
/// of the first row found the value, the cell of that column in that row,
/// and `#N/A` when the search found nothing.
pub fn hlookup_cell<T: Copy>(table: &LookupTable<T>, row_index: i32, found: Option<usize>)
    -> (r: Result<TableCell<T>, CalcError>)
    requires
        table_valid(*table),
        1 <= row_index <= table_rows(*table) ==> (found matches Some(p) ==> table_has(*table, row_index - 1, p as int)),
    ensures
        match r {
            Ok(c) => 1 <= row_index <= table_rows(*table) && (found matches Some(p)
                && c == table_cell(*table, row_index - 1, p as int)),
            Err(e) => if !(1 <= row_index <= table_rows(*table)) {
                e.error == Error::REF && e.message@ == "Invalid reference"@
            } else {
                found is None && e.error == Error::NA && e.message@ == "Not found"@
            },
        },
{
    if row_index < 1 || row_index > table.rows() {
        return Err(invalid_reference());
    }
    match found {
        Some(column) => Ok(table.get(row_index - 1, column as i32)),
        None => Err(not_found()),
    }
}

/// LOOKUP searches the first row of a table wider than it is tall, else
/// its first column.
pub open spec fn lookup_searches_row<T>(table: LookupTable<T>) -> bool {
    table_columns(table) > table_rows(table)
}

/// The cell that the array form of LOOKUP returns for the position `found`
/// at which the search found the value: from the last row when it searched
/// the first row, from the last column when it searched the first column;
/// `#N/A` when the search found nothing.
pub fn lookup_array_cell<T: Copy>(table: &LookupTable<T>, found: Option<usize>) -> (r: Result<TableCell<T>, CalcError>)
    requires
        table_valid(*table),
        found matches Some(p) ==> if lookup_searches_row(*table) {
            table_has(*table, table_rows(*table) - 1, p as int)
        } else {
            table_has(*table, p as int, table_columns(*table) - 1)
        },
    ensures
        match r {
            Ok(c) => found matches Some(p) && c == if lookup_searches_row(*table) {
                table_cell(*table, table_rows(*table) - 1, p as int)
            } else {
                table_cell(*table, p as int, table_columns(*table) - 1)
            },
            Err(e) => found is None && e.error == Error::NA && e.message@ == "Not found"@,
        },
{
    match found {
        Some(p) => {
            if table.columns() > table.rows() {
                Ok(table.get(table.rows() - 1, p as i32))
            } else {
                Ok(table.get(p as i32, table.columns() - 1))
            }
        },
        None => Err(not_found()),
    }
}

} // verus!
