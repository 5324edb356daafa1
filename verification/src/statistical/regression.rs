//! The reading of the arguments of LINEST, LOGEST, TREND and GROWTH: the
//! matrices of known values, the number of data points and predictors, and
//! the optional boolean arguments. The least-squares arithmetic is done by
//! the caller.
use vstd::prelude::*;
use vstd::string::*;
use crate::grid::grid;
use crate::types::{new_error, CalcError, Error};

verus! {

/// A cell of a range or an element of an array, as the regression reads it.
pub enum RegressionCell<N> {
    Number(N),
    Empty,
    Error(CalcError),
    Other,
}

/// An argument holding known values, as it evaluated.
pub enum RegressionSource<N> {
    Range(Vec<Vec<RegressionCell<N>>>),
    Array(Vec<Vec<RegressionCell<N>>>),
    Number(N),
    Empty,
    Other,
}

/// What a cell gives: its number (`None` stands for 0), or the error. In a
/// range a value that is not a number is refused; in an array it is 0.
pub open spec fn regression_cell<N>(in_range: bool, c: RegressionCell<N>) -> Result<Option<N>, (Error, Seq<char>)> {
    match c {
        RegressionCell::Number(x) => Ok(Some(x)),
        RegressionCell::Empty => Ok(None),
        RegressionCell::Error(e) => Err((e.error, e.message@)),
        RegressionCell::Other => if in_range {
            Err((Error::VALUE, "Regression: non-numeric value in data range"@))
        } else {
            Ok(None)
        },
    }
}

/// The cell at row `i`, column `j` is the first, row by row, that gives an
/// error.
pub open spec fn first_bad_cell<N>(in_range: bool, g: Seq<Seq<RegressionCell<N>>>, i: int, j: int) -> bool {
    &&& 0 <= i < g.len()
    &&& 0 <= j < g[i].len()
    &&& regression_cell(in_range, g[i][j]) is Err
    &&& forall|a: int, b: int| 0 <= a < g.len() && 0 <= b < g[a].len() && (a < i || (a == i && b < j))
        ==> regression_cell(in_range, #[trigger] g[a][b]) is Ok
}

/// `m` holds what every cell of `g` gives, none of them an error.
pub open spec fn read_matrix<N>(in_range: bool, g: Seq<Seq<RegressionCell<N>>>, m: Seq<Seq<Option<N>>>) -> bool {
    &&& m.len() == g.len()
    &&& forall|i: int| 0 <= i < g.len() ==> (#[trigger] m[i]).len() == g[i].len()
    &&& forall|i: int, j: int| 0 <= i < g.len() && 0 <= j < g[i].len()
        ==> regression_cell(in_range, #[trigger] g[i][j]) == Ok::<Option<N>, (Error, Seq<char>)>(m[i][j])
}

fn read_cell<N: Copy>(in_range: bool, c: &RegressionCell<N>) -> (r: Result<Option<N>, CalcError>)
    ensures
        match r {
            Ok(v) => regression_cell(in_range, *c) == Ok::<Option<N>, (Error, Seq<char>)>(v),
            Err(e) => regression_cell(in_range, *c) == Err::<Option<N>, (Error, Seq<char>)>((e.error, e.message@)),
        },
{
    match c {
        RegressionCell::Number(x) => Ok(Some(*x)),
        RegressionCell::Empty => Ok(None),
        RegressionCell::Error(e) => Err(CalcError { error: e.error, message: e.message.clone() }),
        RegressionCell::Other => {
            if in_range {
                Err(new_error(Error::VALUE, "Regression: non-numeric value in data range"))
            } else {
                Ok(None)
            }
        },
    }
}

/// Reads the cells of a range (`in_range`) or the elements of an array, row
/// by row: the matrix of numbers, or the error of the first cell that gives
/// one.
pub fn read_regression_cells<N: Copy>(in_range: bool, rows: &Vec<Vec<RegressionCell<N>>>)
    -> (r: Result<Vec<Vec<Option<N>>>, CalcError>)
    ensures
        match r {
            Ok(m) => read_matrix(in_range, grid(rows@), grid(m@)),
            Err(e) => exists|i: int, j: int| #[trigger] first_bad_cell(in_range, grid(rows@), i, j)
                && regression_cell(in_range, grid(rows@)[i][j]) == Err::<Option<N>, (Error, Seq<char>)>((e.error, e.message@)),
        },
{
    let ghost g = grid(rows@);
    let mut out: Vec<Vec<Option<N>>> = Vec::new();
    let mut i: usize = 0;
    while i < rows.len()
        invariant
            g == grid(rows@),
            i <= rows@.len(),
            out@.len() == i,
            forall|a: int| 0 <= a < i ==> (#[trigger] out@[a])@.len() == g[a].len(),
            forall|a: int, b: int| 0 <= a < i && 0 <= b < g[a].len()
                ==> regression_cell(in_range, #[trigger] g[a][b]) == Ok::<Option<N>, (Error, Seq<char>)>(out@[a]@[b]),
        decreases rows@.len() - i,
    {
        let row = &rows[i];
        assert(g[i as int] == row@);
        let mut line: Vec<Option<N>> = Vec::new();
        let mut j: usize = 0;
        while j < row.len()
            invariant
                g == grid(rows@),
                i < rows@.len(),
                g[i as int] == row@,
                j <= row@.len(),
                line@.len() == j,
                forall|b: int| 0 <= b < j ==> regression_cell(in_range, #[trigger] g[i as int][b])
                    == Ok::<Option<N>, (Error, Seq<char>)>(line@[b]),
                forall|a: int, b: int| 0 <= a < i && 0 <= b < g[a].len()
                    ==> regression_cell(in_range, #[trigger] g[a][b]) is Ok,
            decreases row@.len() - j,
        {
            match read_cell(in_range, &row[j]) {
                Ok(v) => line.push(v),
                Err(e) => {
                    proof {
                        assert(first_bad_cell(in_range, g, i as int, j as int));
                    }
                    return Err(e);
                },
            }
            j = j + 1;
        }
        out.push(line);
        i = i + 1;
    }
    proof {
        assert forall|a: int| 0 <= a < g.len() implies (#[trigger] grid(out@)[a]).len() == g[a].len() by {
            assert(grid(out@)[a] == out@[a]@);
        }
        assert forall|a: int, b: int| 0 <= a < g.len() && 0 <= b < g[a].len()
            implies regression_cell(in_range, #[trigger] g[a][b]) == Ok::<Option<N>, (Error, Seq<char>)>(grid(out@)[a][b]) by {
            assert(grid(out@)[a] == out@[a]@);
        }
    }
    Ok(out)
}

/// Reads an argument of known values: a range or an array cell by cell, a
/// number as a 1×1 matrix, an empty argument as no rows; anything else is
/// refused.
pub fn regression_matrix<N: Copy>(source: &RegressionSource<N>) -> (r: Result<Vec<Vec<Option<N>>>, CalcError>)
    ensures
        match *source {
            RegressionSource::Range(rows) => match r {
                Ok(m) => read_matrix(true, grid(rows@), grid(m@)),
                Err(e) => exists|i: int, j: int| #[trigger] first_bad_cell(true, grid(rows@), i, j)
                    && regression_cell(true, grid(rows@)[i][j]) == Err::<Option<N>, (Error, Seq<char>)>((e.error, e.message@)),
            },
            RegressionSource::Array(rows) => match r {
                Ok(m) => read_matrix(false, grid(rows@), grid(m@)),
                Err(e) => exists|i: int, j: int| #[trigger] first_bad_cell(false, grid(rows@), i, j)
                    && regression_cell(false, grid(rows@)[i][j]) == Err::<Option<N>, (Error, Seq<char>)>((e.error, e.message@)),
            },
            RegressionSource::Number(x) => match r {
                Ok(m) => grid(m@) == seq![seq![Some(x)]],
                Err(_) => false,
            },
            RegressionSource::Empty => match r {
                Ok(m) => m@.len() == 0,
                Err(_) => false,
            },
            RegressionSource::Other => match r {
                Ok(_) => false,
                Err(e) => e.error == Error::VALUE && e.message@ == "Expected numeric range or array"@,
            },
        },
{
    match source {
        RegressionSource::Range(rows) => read_regression_cells(true, rows),
        RegressionSource::Array(rows) => read_regression_cells(false, rows),
        RegressionSource::Number(x) => {
            let mut line: Vec<Option<N>> = Vec::new();
            line.push(Some(*x));
            let mut out: Vec<Vec<Option<N>>> = Vec::new();
            out.push(line);
            assert(grid(out@) =~= seq![seq![Some(*x)]]);
            Ok(out)
        },
        RegressionSource::Empty => Ok(Vec::new()),
        RegressionSource::Other => Err(new_error(Error::VALUE, "Expected numeric range or array")),
    }
}

/// The number of predictors that a regression uses, given the number of
/// known y values and the row lengths of the known x matrix (`None` when omitted, in which case
/// x is 1, 2, ..., n): at least two y values are needed, and the x matrix
/// must have one row per y value.
pub open spec fn regression_shape_spec(n: int, x: Option<Seq<int>>) -> Result<int, (Error, Seq<char>)> {
    if n < 2 {
        Err((Error::VALUE, "Regression requires at least 2 data points"@))
    } else {
        match x {
            None => Ok(1),
            Some(m) => if m.len() != n {
                Err((Error::REF, "Regression: known_y and known_x must have the same number of rows"@))
            } else if m.len() > 0 {
                Ok(m[0])
            } else {
                Ok(0)
            },
        }
    }
}

/// The lengths of the rows of a matrix.
pub open spec fn row_lengths<N>(m: Seq<Vec<N>>) -> Seq<int> {
    m.map_values(|row: Vec<N>| row@.len() as int)
}

/// The number of predictors of a regression with `n` known y values and the
/// known x matrix, or the error.
pub fn regression_shape<N>(n: usize, x: Option<&Vec<Vec<Option<N>>>>) -> (r: Result<usize, CalcError>)
    ensures
        match r {
            Ok(p) => regression_shape_spec(n as int, match x { Some(m) => Some(row_lengths(m@)), None => None })
                == Ok::<int, (Error, Seq<char>)>(p as int),
            Err(e) => regression_shape_spec(n as int, match x { Some(m) => Some(row_lengths(m@)), None => None })
                == Err::<int, (Error, Seq<char>)>((e.error, e.message@)),
        },
{
    if n < 2 {
        return Err(new_error(Error::VALUE, "Regression requires at least 2 data points"));
    }
    match x {
        None => Ok(1),
        Some(m) => {
            if m.len() != n {
                return Err(new_error(Error::REF, "Regression: known_y and known_x must have the same number of rows"));
            }
            if m.len() > 0 {
                
                Ok(m[0].len())
            } else {
                Ok(0)
            }
        },
    }
}

/// An optional boolean argument (`const`, `stats`), as it evaluated.
pub enum OptionalFlag {
    Absent,
    Empty,
    Boolean(bool),
    /// A number: whether it is not zero.
    Number(bool),
    Error(CalcError),
    Other,
}

/// The value of an optional boolean argument: the default when absent,
/// empty or of another kind, a number is true when not zero, an error is
/// passed on.
pub fn optional_flag(arg: &OptionalFlag, default: bool) -> (r: Result<bool, CalcError>)
    ensures
        match *arg {
            OptionalFlag::Boolean(b) => r == Ok::<bool, CalcError>(b),
            OptionalFlag::Number(nonzero) => r == Ok::<bool, CalcError>(nonzero),
            OptionalFlag::Error(e0) => match r {
                Err(e) => e.error == e0.error && e.message@ == e0.message@,
                Ok(_) => false,
            },
            _ => r == Ok::<bool, CalcError>(default),
        },
{
    match arg {
        OptionalFlag::Boolean(b) => Ok(*b),
        OptionalFlag::Number(nonzero) => Ok(*nonzero),
        OptionalFlag::Error(e) => Err(CalcError { error: e.error, message: e.message.clone() }),
        _ => Ok(default),
    }
}

/// LINEST, LOGEST, TREND and GROWTH take one to four arguments.
pub fn regression_arity(arg_count: usize) -> (r: Result<(), CalcError>)
    ensures
        match r {
            Ok(()) => 1 <= arg_count <= 4,
            Err(e) => !(1 <= arg_count <= 4) && e.error == Error::ERROR && e.message@ == "Wrong number of arguments"@,
        },
{
    if arg_count < 1 || arg_count > 4 {
        return Err(crate::types::args_number_error());
    }
    Ok(())
}

} // verus!
