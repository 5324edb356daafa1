//! The checks of MMULT: the shapes of its two arrays and the numbers in them.
use vstd::prelude::*;
use vstd::string::*;
use crate::grid::grid;
use crate::math_and_trigonometry::matrix::{coerce_rows, coerced_rows, NumberCell};
use crate::types::{new_error, CalcError, Error};

verus! {

/// What MMULT reads from its arrays `a` (m by k) and `b` (k by n): both must
/// be non-empty, the columns of `a` must match the rows of `b`, each must be
/// rectangular, and every cell must stand for a number. `a` is read before
/// `b`, each row by row, and the first failure wins.
pub open spec fn mmult_operands_spec<N>(a: Seq<Seq<NumberCell<N>>>, b: Seq<Seq<NumberCell<N>>>, zero: N, one: N)
    -> Result<(Seq<Seq<N>>, Seq<Seq<N>>), (Error, Seq<char>)>
{
    if a.len() == 0 || a[0].len() == 0 || b.len() == 0 || b[0].len() == 0 {
        Err((Error::VALUE, "MMULT requires non-empty arrays"@))
    } else if a[0].len() != b.len() {
        Err((Error::VALUE, "MMULT dimension mismatch"@))
    } else {
        match coerced_rows(a, Some(a[0].len() as int), "MMULT array1 is not rectangular"@, zero, one,
            "MMULT requires numeric values"@, "MMULT received an error value"@) {
            Err(e) => Err(e),
            Ok(x) => match coerced_rows(b, Some(b[0].len() as int), "MMULT array2 is not rectangular"@, zero,
                one, "MMULT requires numeric values"@, "MMULT received an error value"@) {
                Err(e) => Err(e),
                Ok(y) => Ok((x, y)),
            },
        }
    }
}

/// The two matrices of numbers that `=MMULT(array1, array2)` multiplies,
/// or the error it gives for them.
pub fn mmult_operands<N: Copy>(a: &Vec<Vec<NumberCell<N>>>, b: &Vec<Vec<NumberCell<N>>>, zero: N, one: N)
    -> (r: Result<(Vec<Vec<N>>, Vec<Vec<N>>), CalcError>)
    ensures
        match r {
            Ok((x, y)) => mmult_operands_spec(grid(a@), grid(b@), zero, one)
                == Ok::<(Seq<Seq<N>>, Seq<Seq<N>>), (Error, Seq<char>)>((grid(x@), grid(y@))),
            Err(e) => mmult_operands_spec(grid(a@), grid(b@), zero, one)
                == Err::<(Seq<Seq<N>>, Seq<Seq<N>>), (Error, Seq<char>)>((e.error, e.message@)),
        },
{
    if a.len() == 0 || a[0].len() == 0 || b.len() == 0 || b[0].len() == 0 {
        return Err(new_error(Error::VALUE, "MMULT requires non-empty arrays"));
    }
    let k = a[0].len();
    let n = b[0].len();
    if k != b.len() {
        return Err(new_error(Error::VALUE, "MMULT dimension mismatch"));
    }
    let x = match coerce_rows(a, Some(k), "MMULT array1 is not rectangular", zero, one,
        "MMULT requires numeric values", "MMULT received an error value") {
        Ok(x) => x,
        Err(e) => return Err(e),
    };
    let y = match coerce_rows(b, Some(n), "MMULT array2 is not rectangular", zero, one,
        "MMULT requires numeric values", "MMULT received an error value") {
        Ok(y) => y,
        Err(e) => return Err(e),
    };
    Ok((x, y))
}

} // verus!
