//! The size limit on arrays that functions create.
use vstd::prelude::*;
use vstd::string::*;
use crate::types::{Error, LAST_COLUMN, LAST_ROW};

verus! {

/// Largest number of cells of an array that a function creates.
pub const MAX_SIZE: usize = 1_000_000;

/// What `check_array_size` reports for an array of `rows` by `columns`.
pub open spec fn array_size_problem(rows: int, columns: int) -> Option<(Error, Seq<char>)> {
    if columns > LAST_COLUMN {
        Some((Error::VALUE, "columns exceeds sheet limit of 16384"@))
    } else if rows > LAST_ROW {
        Some((Error::VALUE, "rows exceeds sheet limit of 1048576"@))
    } else if rows * columns > MAX_SIZE {
        Some((Error::ERROR, "rows * columns exceeds matrix size limit of 1000000"@))
    } else {
        None
    }
}

/// Checks that an array of `rows` by `columns` may be created: at most a
/// sheet's columns and rows, and at most `MAX_SIZE` cells.
pub fn check_array_size(rows: usize, columns: usize) -> (r: Option<(Error, String)>)
    ensures
        match r {
            None => array_size_problem(rows as int, columns as int) is None,
            Some((e, m)) => array_size_problem(rows as int, columns as int) == Some((e, m@)),
        },
{
    if columns > LAST_COLUMN as usize {
        return Some((Error::VALUE, String::from_str("columns exceeds sheet limit of 16384")));
    }
    if rows > LAST_ROW as usize {
        return Some((Error::VALUE, String::from_str("rows exceeds sheet limit of 1048576")));
    }
    assert((rows as u64) * (columns as u64) <= 1_048_576 * 16_384) by (nonlinear_arith)
        requires rows <= 1_048_576, columns <= 16_384;
    let cells: u64 = (rows as u64) * (columns as u64);
    if cells > MAX_SIZE as u64 {
        return Some((
            Error::ERROR,
            String::from_str("rows * columns exceeds matrix size limit of 1000000"),
        ));
    }
    None
}

} // verus!
