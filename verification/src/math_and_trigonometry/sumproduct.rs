//! The checks of SUMPRODUCT on each of its arrays.
use vstd::prelude::*;
use vstd::string::*;
use crate::grid::{grid, width};
use crate::math_and_trigonometry::matrix::{coerce_rows, coerced_rows, NumberCell};
use crate::types::{new_error, CalcError, Error};

verus! {

/// How SUMPRODUCT reads a cell: a number as itself, an error value as that
/// error, anything else (a text, a boolean, an empty cell) as zero.
pub open spec fn sumproduct_view<N>(c: NumberCell<N>) -> NumberCell<N> {
    match c {
        NumberCell::Number(v) => NumberCell::Number(v),
        NumberCell::Error(e) => NumberCell::Error(e),
        _ => NumberCell::Empty,
    }
}

/// What SUMPRODUCT reads from one of its arrays, given the shape (rows, and
/// the length of the first row) of the arrays before it: the array's shape
/// and its numbers, or an error. An array of another shape gives
/// `#VALUE!`; an error value in it gives that error with no message.
pub open spec fn sumproduct_operand_spec<N>(shape: Option<(usize, usize)>, g: Seq<Seq<NumberCell<N>>>, zero: N)
    -> Result<((int, int), Seq<Seq<N>>), (Error, Seq<char>)>
{
    let rows = g.len() as int;
    let cols = width(g);
    if shape is Some && (rows != shape->Some_0.0 || cols != shape->Some_0.1) {
        Err((Error::VALUE, "SUMPRODUCT: arrays must have the same dimensions"@))
    } else {
        match coerced_rows(g.map_values(|r: Seq<NumberCell<N>>| r.map_values(|c: NumberCell<N>| sumproduct_view(c))),
            None, Seq::empty(), zero, zero, Seq::empty(), Seq::empty()) {
            Err(e) => Err(e),
            Ok(v) => Ok(((rows, cols), v)),
        }
    }
}

/// One array of `=SUMPRODUCT(array1, [array2], ...)`: checks it against the
/// shape of the arrays before it (`None` for the first) and reads its numbers.
pub fn sumproduct_operand<N: Copy>(shape: Option<(usize, usize)>, arr: &Vec<Vec<NumberCell<N>>>, zero: N)
    -> (r: Result<((usize, usize), Vec<Vec<N>>), CalcError>)
    ensures
        match r {
            Ok((s, v)) => sumproduct_operand_spec(shape, grid(arr@), zero)
                == Ok::<((int, int), Seq<Seq<N>>), (Error, Seq<char>)>(((s.0 as int, s.1 as int), grid(v@))),
            Err(e) => sumproduct_operand_spec(shape, grid(arr@), zero)
                == Err::<((int, int), Seq<Seq<N>>), (Error, Seq<char>)>((e.error, e.message@)),
        },
{
    let rows = arr.len();
    let cols = if rows == 0 { 0 } else { arr[0].len() };
    match shape {
        Some((r, c)) => {
            if rows != r || cols != c {
                return Err(new_error(Error::VALUE, "SUMPRODUCT: arrays must have the same dimensions"));
            }
        },
        None => {},
    }
    let ghost target = grid(arr@).map_values(
        |r: Seq<NumberCell<N>>| r.map_values(|c: NumberCell<N>| sumproduct_view(c)),
    );
    let mut read: Vec<Vec<NumberCell<N>>> = Vec::new();
    let mut i: usize = 0;
    while i < rows
        invariant
            i <= rows == arr.len(),
            target == grid(arr@).map_values(
                |r: Seq<NumberCell<N>>| r.map_values(|c: NumberCell<N>| sumproduct_view(c))),
            grid(read@) == target.take(i as int),
        decreases rows - i,
    {
        let mut row: Vec<NumberCell<N>> = Vec::new();
        let mut j: usize = 0;
        while j < arr[i].len()
            invariant
                i < rows == arr.len(),
                j <= arr@[i as int]@.len(),
                row@ == arr@[i as int]@.take(j as int).map_values(|c: NumberCell<N>| sumproduct_view(c)),
            decreases arr@[i as int]@.len() - j,
        {
            let c = match arr[i][j] {
                NumberCell::Number(v) => NumberCell::Number(v),
                NumberCell::Error(e) => NumberCell::Error(e),
                _ => NumberCell::Empty,
            };
            row.push(c);
            j = j + 1;
            assert(row@ =~= arr@[i as int]@.take(j as int).map_values(|c: NumberCell<N>| sumproduct_view(c)));
        }
        assert(arr@[i as int]@.take(j as int) =~= arr@[i as int]@);
        assert(row@ == target[i as int]);
        proof {
            crate::grid::lemma_grid_push(read@, row);
        }
        read.push(row);
        i = i + 1;
        assert(grid(read@) =~= target.take(i as int));
    }
    assert(target.take(i as int) =~= target);
    let empty = "";
    proof {
        reveal_strlit("");
    }
    assert(empty@ =~= Seq::<char>::empty());
    match coerce_rows(&read, None, empty, zero, zero, empty, empty) {
        Ok(v) => Ok(((rows, cols), v)),
        Err(e) => Err(e),
    }
}

} // verus!
