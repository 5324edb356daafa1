//! The dimensions of the arrays that SEQUENCE and RANDARRAY create, and the
//! layout of SEQUENCE.
use vstd::prelude::*;
use crate::grid::grid;
use crate::array_size::{array_size_problem, check_array_size};
use crate::types::{args_number_error, new_error, CalcError, Error};

verus! {

/// What a dimension of SEQUENCE gives for `n` (the argument rounded down):
/// `#CALC!` for zero, `#VALUE!` below zero, else `n` itself.
pub open spec fn sequence_dimension_spec(n: int, message: Seq<char>) -> Result<int, (Error, Seq<char>)> {
    if n == 0 {
        Err((Error::CALC, message))
    } else if n < 0 {
        Err((Error::VALUE, message))
    } else {
        Ok(n)
    }
}

/// A dimension (rows or columns) of `=SEQUENCE(rows, [cols], ...)`, from the
/// argument rounded down; `message` names the dimension in the error.
pub fn sequence_dimension(n: i64, message: &str) -> (r: Result<usize, CalcError>)
    requires
        n <= usize::MAX,
    ensures
        match r {
            Ok(d) => sequence_dimension_spec(n as int, message@) == Ok::<int, (Error, Seq<char>)>(d as int),
            Err(e) => sequence_dimension_spec(n as int, message@) == Err::<int, (Error, Seq<char>)>(
                (e.error, e.message@)),
        },
{
    if n < 1 {
        if n == 0 {
            return Err(new_error(Error::CALC, message));
        }
        return Err(new_error(Error::VALUE, message));
    }
    Ok(n as usize)
}

/// A dimension (rows or columns) of `=RANDARRAY([rows], [cols], ...)`, from
/// the argument rounded down: `#VALUE!` below one.
pub fn randarray_dimension(n: i64, message: &str) -> (r: Result<usize, CalcError>)
    requires
        n <= usize::MAX,
    ensures
        match r {
            Ok(d) => n >= 1 && d == n,
            Err(e) => n < 1 && e.error == Error::VALUE && e.message@ == message@,
        },
{
    if n < 1 {
        return Err(new_error(Error::VALUE, message));
    }
    Ok(n as usize)
}

/// The positions in the sequence of the cells of a `rows` by `columns`
/// array, row by row: cell (i, j) holds position `i * columns + j`.
pub open spec fn sequence_layout_spec(rows: int, columns: int) -> Seq<Seq<int>> {
    Seq::new(rows as nat, |i: int| Seq::new(columns as nat, |j: int| i * columns + j))
}

/// The position of each cell of the array of `=SEQUENCE(rows, cols, ...)` in
/// the sequence: SEQUENCE puts `start + position * step` in that cell.
pub fn sequence_layout(rows: usize, columns: usize) -> (r: Vec<Vec<usize>>)
    requires
        rows * columns <= usize::MAX,
    ensures
        grid(r@).len() == rows,
        forall|i: int| 0 <= i < rows ==> (#[trigger] grid(r@)[i]).len() == columns,
        forall|i: int, j: int| 0 <= i < rows && 0 <= j < columns ==>
            grid(r@)[i][j] as int == #[trigger] sequence_layout_spec(rows as int, columns as int)[i][j],
{
    let mut out: Vec<Vec<usize>> = Vec::new();
    let mut i: usize = 0;
    while i < rows
        invariant
            i <= rows,
            rows * columns <= usize::MAX,
            out@.len() == i,
            forall|a: int| 0 <= a < i ==> (#[trigger] out@[a])@.len() == columns,
            forall|a: int, b: int| 0 <= a < i && 0 <= b < columns ==>
                (#[trigger] out@[a]@[b]) as int == a * columns + b,
        decreases rows - i,
    {
        let mut row: Vec<usize> = Vec::new();
        let mut j: usize = 0;
        while j < columns
            invariant
                i < rows,
                j <= columns,
                rows * columns <= usize::MAX,
                row@.len() == j,
                forall|b: int| 0 <= b < j ==> (#[trigger] row@[b]) as int == i * columns + b,
            decreases columns - j,
        {
            assert(i * columns + j < rows * columns) by (nonlinear_arith)
                requires i < rows, j < columns;
            row.push(i * columns + j);
            j = j + 1;
        }
        out.push(row);
        i = i + 1;
    }
    out
}

/// A dimension of RANDARRAY as it is used: a value past `usize::MAX` is
/// held at `usize::MAX` (which is past the sheet's size).
pub open spec fn saturated_dimension(n: int) -> int {
    if n > usize::MAX { usize::MAX as int } else { n }
}

/// What RANDARRAY makes of its argument count and its (rounded down) row
/// and column counts (`None` when missing or empty, meaning 1): at most five
/// arguments, each count at least one, and an array the sheet can hold.
pub open spec fn randarray_shape_spec(arg_count: int, rows: Option<int>, columns: Option<int>)
    -> Result<(int, int), (Error, Seq<char>)>
{
    if arg_count > 5 {
        Err((Error::ERROR, "Wrong number of arguments"@))
    } else if rows matches Some(n) && n < 1 {
        Err((Error::VALUE, "rows must be >= 1"@))
    } else if columns matches Some(n) && n < 1 {
        Err((Error::VALUE, "cols must be >= 1"@))
    } else {
        let r = match rows { Some(n) => saturated_dimension(n), None => 1 };
        let c = match columns { Some(n) => saturated_dimension(n), None => 1 };
        match array_size_problem(r, c) {
            Some(e) => Err(e),
            None => Ok((r, c)),
        }
    }
}

fn positive_dimension(n: i64, message: &str) -> (r: Result<usize, CalcError>)
    ensures
        match r {
            Ok(d) => n >= 1 && d as int == saturated_dimension(n as int),
            Err(e) => n < 1 && e.error == Error::VALUE && e.message@ == message@,
        },
{
    if n < 1 {
        return Err(new_error(Error::VALUE, message));
    }
    let u = n as u64;
    if u > usize::MAX as u64 { Ok(usize::MAX) } else { Ok(u as usize) }
}

/// The shape of the array of `=RANDARRAY([rows], [cols], [min], [max],
/// [whole_number])`, from the number of arguments and the row and column
/// counts rounded down.
pub fn randarray_shape(arg_count: usize, rows: Option<i64>, columns: Option<i64>) -> (r: Result<(usize, usize), CalcError>)
    ensures
        match r {
            Ok((a, b)) => randarray_shape_spec(arg_count as int, match rows { Some(n) => Some(n as int), None => None },
                match columns { Some(n) => Some(n as int), None => None })
                == Ok::<(int, int), (Error, Seq<char>)>((a as int, b as int)),
            Err(e) => randarray_shape_spec(arg_count as int, match rows { Some(n) => Some(n as int), None => None },
                match columns { Some(n) => Some(n as int), None => None })
                == Err::<(int, int), (Error, Seq<char>)>((e.error, e.message@)),
        },
{
    if arg_count > 5 {
        return Err(args_number_error());
    }
    let r = match rows {
        Some(n) => match positive_dimension(n, "rows must be >= 1") {
            Ok(d) => d,
            Err(e) => return Err(e),
        },
        None => 1,
    };
    let c = match columns {
        Some(n) => match positive_dimension(n, "cols must be >= 1") {
            Ok(d) => d,
            Err(e) => return Err(e),
        },
        None => 1,
    };
    match check_array_size(r, c) {
        Some((error, message)) => Err(CalcError { error, message }),
        None => Ok((r, c)),
    }
}

} // verus!
