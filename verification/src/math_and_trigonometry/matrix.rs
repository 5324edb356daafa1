//! Reading arrays as matrices of numbers: the coercion that MMULT, MDETERM,
//! MINVERSE and SUMPRODUCT share, the square-matrix check, and MUNIT.
use vstd::prelude::*;
use vstd::string::*;
use crate::grid::{grid, rectangular};
use crate::types::{new_error, CalcError, Error};

verus! {

/// An array value as the numeric array functions read it. `N` is the number
/// type; a text is read only as being a text.
#[derive(Clone, Copy, Debug, PartialEq, Eq)]
pub enum NumberCell<N> {
    Number(N),
    Boolean(bool),
    Text,
    Empty,
    Error(Error),
}

/// The number a cell stands for in a matrix: a number itself, `TRUE` as
/// `one`, `FALSE` and an empty cell as `zero`. A text gives `#VALUE!` with
/// `text_msg`, an error value gives that error with `error_msg`.
pub open spec fn coerced<N>(c: NumberCell<N>, zero: N, one: N, text_msg: Seq<char>, error_msg: Seq<char>)
    -> Result<N, (Error, Seq<char>)>
{
    match c {
        NumberCell::Number(v) => Ok(v),
        NumberCell::Boolean(b) => Ok(if b { one } else { zero }),
        NumberCell::Empty => Ok(zero),
        NumberCell::Text => Err((Error::VALUE, text_msg)),
        NumberCell::Error(e) => Err((e, error_msg)),
    }
}

/// A row coerced cell by cell from the left; the first failure wins.
pub open spec fn coerced_row<N>(row: Seq<NumberCell<N>>, zero: N, one: N, text_msg: Seq<char>, error_msg: Seq<char>)
    -> Result<Seq<N>, (Error, Seq<char>)>
    decreases row.len(),
{
    if row.len() == 0 {
        Ok(Seq::empty())
    } else {
        match coerced_row(row.drop_last(), zero, one, text_msg, error_msg) {
            Err(e) => Err(e),
            Ok(done) => match coerced(row.last(), zero, one, text_msg, error_msg) {
                Err(e) => Err(e),
                Ok(v) => Ok(done.push(v)),
            },
        }
    }
}

/// Rows coerced from the top, each coerced from the left; where `shape` is
/// `Some(w)`, each row is first checked to have `w` cells (`#VALUE!` with
/// `shape_msg` if not).
pub open spec fn coerced_rows<N>(
    g: Seq<Seq<NumberCell<N>>>,
    shape: Option<int>,
    shape_msg: Seq<char>,
    zero: N,
    one: N,
    text_msg: Seq<char>,
    error_msg: Seq<char>,
) -> Result<Seq<Seq<N>>, (Error, Seq<char>)>
    decreases g.len(),
{
    if g.len() == 0 {
        Ok(Seq::empty())
    } else {
        match coerced_rows(g.drop_last(), shape, shape_msg, zero, one, text_msg, error_msg) {
            Err(e) => Err(e),
            Ok(done) => if shape is Some && g.last().len() != shape->Some_0 {
                Err((Error::VALUE, shape_msg))
            } else {
                match coerced_row(g.last(), zero, one, text_msg, error_msg) {
                    Err(e) => Err(e),
                    Ok(r) => Ok(done.push(r)),
                }
            },
        }
    }
}

/// Once a prefix of a row fails, the whole row fails the same way.
proof fn lemma_row_failure_stays<N>(row: Seq<NumberCell<N>>, i: int, zero: N, one: N, tm: Seq<char>, em: Seq<char>)
    requires
        0 <= i <= row.len(),
        coerced_row(row.take(i), zero, one, tm, em) is Err,
    ensures
        coerced_row(row, zero, one, tm, em) == coerced_row(row.take(i), zero, one, tm, em),
    decreases row.len() - i,
{
    if i < row.len() {
        assert(row.take(i + 1).drop_last() =~= row.take(i));
        lemma_row_failure_stays(row, i + 1, zero, one, tm, em);
    } else {
        assert(row.take(i) =~= row);
    }
}

/// Once a prefix of the rows fails, all the rows fail the same way.
proof fn lemma_rows_failure_stays<N>(
    g: Seq<Seq<NumberCell<N>>>,
    i: int,
    w: Option<int>,
    sm: Seq<char>,
    zero: N,
    one: N,
    tm: Seq<char>,
    em: Seq<char>,
)
    requires
        0 <= i <= g.len(),
        coerced_rows(g.take(i), w, sm, zero, one, tm, em) is Err,
    ensures
        coerced_rows(g, w, sm, zero, one, tm, em) == coerced_rows(g.take(i), w, sm, zero, one, tm, em),
    decreases g.len() - i,
{
    if i < g.len() {
        assert(g.take(i + 1).drop_last() =~= g.take(i));
        lemma_rows_failure_stays(g, i + 1, w, sm, zero, one, tm, em);
    } else {
        assert(g.take(i) =~= g);
    }
}

/// A successful coercion keeps the number of cells of each row.
proof fn lemma_coerced_row_len<N>(row: Seq<NumberCell<N>>, zero: N, one: N, tm: Seq<char>, em: Seq<char>)
    requires
        coerced_row(row, zero, one, tm, em) is Ok,
    ensures
        coerced_row(row, zero, one, tm, em)->Ok_0.len() == row.len(),
        forall|j: int| 0 <= j < row.len() ==>
            coerced(#[trigger] row[j], zero, one, tm, em) == Ok::<N, (Error, Seq<char>)>(
                coerced_row(row, zero, one, tm, em)->Ok_0[j]),
    decreases row.len(),
{
    if row.len() > 0 {
        let p = row.drop_last();
        lemma_coerced_row_len(p, zero, one, tm, em);
        assert forall|j: int| 0 <= j < row.len() implies
            coerced(#[trigger] row[j], zero, one, tm, em) == Ok::<N, (Error, Seq<char>)>(
                coerced_row(row, zero, one, tm, em)->Ok_0[j]) by {
            if j < row.len() - 1 {
                assert(row[j] == p[j]);
            }
        }
    }
}

/// A successful coercion of rows keeps their number and shape.
proof fn lemma_coerced_rows_shape<N>(
    g: Seq<Seq<NumberCell<N>>>,
    w: Option<int>,
    sm: Seq<char>,
    zero: N,
    one: N,
    tm: Seq<char>,
    em: Seq<char>,
)
    requires
        coerced_rows(g, w, sm, zero, one, tm, em) is Ok,
    ensures
        coerced_rows(g, w, sm, zero, one, tm, em)->Ok_0.len() == g.len(),
        w is Some ==> rectangular(g, w->Some_0),
        forall|i: int| 0 <= i < g.len() ==>
            coerced_row(#[trigger] g[i], zero, one, tm, em) == Ok::<Seq<N>, (Error, Seq<char>)>(
                coerced_rows(g, w, sm, zero, one, tm, em)->Ok_0[i]),
    decreases g.len(),
{
    if g.len() > 0 {
        let p = g.drop_last();
        lemma_coerced_rows_shape(p, w, sm, zero, one, tm, em);
        if w is Some {
            assert forall|i: int| 0 <= i < g.len() implies #[trigger] g[i].len() == w->Some_0 by {
                if i < g.len() - 1 {
                    assert(g[i] == p[i]);
                }
            }
        }
        assert forall|i: int| 0 <= i < g.len() implies
            coerced_row(#[trigger] g[i], zero, one, tm, em) == Ok::<Seq<N>, (Error, Seq<char>)>(
                coerced_rows(g, w, sm, zero, one, tm, em)->Ok_0[i]) by {
            if i < g.len() - 1 {
                assert(g[i] == p[i]);
            }
        }
    }
}

/// An optional row length as a mathematical integer.
pub open spec fn shape_view(shape: Option<usize>) -> Option<int> {
    match shape {
        Some(w) => Some(w as int),
        None => None,
    }
}

/// The number that `c` stands for, or the error that it gives.
pub fn coerce_cell<N: Copy>(c: NumberCell<N>, zero: N, one: N, text_msg: &str, error_msg: &str) -> (r: Result<N, CalcError>)
    ensures
        match r {
            Ok(v) => coerced(c, zero, one, text_msg@, error_msg@) == Ok::<N, (Error, Seq<char>)>(v),
            Err(e) => coerced(c, zero, one, text_msg@, error_msg@) == Err::<N, (Error, Seq<char>)>((e.error, e.message@)),
        },
{
    match c {
        NumberCell::Number(v) => Ok(v),
        NumberCell::Boolean(b) => Ok(if b { one } else { zero }),
        NumberCell::Empty => Ok(zero),
        NumberCell::Text => Err(new_error(Error::VALUE, text_msg)),
        NumberCell::Error(e) => Err(new_error(e, error_msg)),
    }
}

/// The numbers of a row, read from the left, or the first error it gives.
pub fn coerce_row<N: Copy>(row: &Vec<NumberCell<N>>, zero: N, one: N, text_msg: &str, error_msg: &str)
    -> (r: Result<Vec<N>, CalcError>)
    ensures
        match r {
            Ok(v) => coerced_row(row@, zero, one, text_msg@, error_msg@) == Ok::<Seq<N>, (Error, Seq<char>)>(v@),
            Err(e) => coerced_row(row@, zero, one, text_msg@, error_msg@)
                == Err::<Seq<N>, (Error, Seq<char>)>((e.error, e.message@)),
        },
{
    let mut out: Vec<N> = Vec::new();
    let mut i: usize = 0;
    assert(row@.take(0) =~= Seq::<NumberCell<N>>::empty());
    while i < row.len()
        invariant
            i <= row.len(),
            coerced_row(row@.take(i as int), zero, one, text_msg@, error_msg@) == Ok::<Seq<N>, (Error, Seq<char>)>(out@),
        decreases row.len() - i,
    {
        assert(row@.take(i + 1).drop_last() =~= row@.take(i as int));
        match coerce_cell(row[i], zero, one, text_msg, error_msg) {
            Ok(v) => {
                out.push(v);
            },
            Err(e) => {
                proof {
                    lemma_row_failure_stays(row@, i + 1, zero, one, text_msg@, error_msg@);
                }
                return Err(e);
            },
        }
        i = i + 1;
    }
    assert(row@.take(i as int) =~= row@);
    Ok(out)
}

/// The numbers of an array read row by row; where `shape` is `Some(w)`,
/// each row is first checked to have `w` cells. The first failure wins.
pub fn coerce_rows<N: Copy>(
    g: &Vec<Vec<NumberCell<N>>>,
    shape: Option<usize>,
    shape_msg: &str,
    zero: N,
    one: N,
    text_msg: &str,
    error_msg: &str,
) -> (r: Result<Vec<Vec<N>>, CalcError>)
    ensures
        match r {
            Ok(v) => coerced_rows(grid(g@), shape_view(shape), shape_msg@, zero, one, text_msg@, error_msg@)
                == Ok::<Seq<Seq<N>>, (Error, Seq<char>)>(grid(v@)),
            Err(e) => coerced_rows(grid(g@), shape_view(shape), shape_msg@, zero, one, text_msg@, error_msg@)
                == Err::<Seq<Seq<N>>, (Error, Seq<char>)>((e.error, e.message@)),
        },
{
    let ghost gs = grid(g@);
    let mut out: Vec<Vec<N>> = Vec::new();
    let mut i: usize = 0;
    assert(gs.take(0) =~= Seq::<Seq<NumberCell<N>>>::empty());
    assert(grid(out@) =~= Seq::<Seq<N>>::empty());
    while i < g.len()
        invariant
            i <= g.len(),
            gs == grid(g@),
            coerced_rows(gs.take(i as int), shape_view(shape), shape_msg@, zero, one, text_msg@, error_msg@)
                == Ok::<Seq<Seq<N>>, (Error, Seq<char>)>(grid(out@)),
        decreases g.len() - i,
    {
        assert(gs.take(i + 1).drop_last() =~= gs.take(i as int));
        assert(gs.take(i + 1).last() == g@[i as int]@);
        let bad_shape = match shape {
            Some(w) => g[i].len() != w,
            None => false,
        };
        if bad_shape {
            proof {
                lemma_rows_failure_stays(gs, i + 1, shape_view(shape), shape_msg@, zero, one, text_msg@, error_msg@);
            }
            return Err(new_error(Error::VALUE, shape_msg));
        }
        match coerce_row(&g[i], zero, one, text_msg, error_msg) {
            Ok(row) => {
                proof {
                    crate::grid::lemma_grid_push(out@, row);
                }
                out.push(row);
            },
            Err(e) => {
                proof {
                    lemma_rows_failure_stays(gs, i + 1, shape_view(shape), shape_msg@, zero, one, text_msg@, error_msg@);
                }
                return Err(e);
            },
        }
        i = i + 1;
    }
    assert(gs.take(i as int) =~= gs);
    Ok(out)
}

/// What the square-matrix reading of MDETERM and MINVERSE gives: the size
/// `n` and the numbers in row-major order, or an error.
pub open spec fn square_matrix_spec<N>(g: Seq<Seq<NumberCell<N>>>, zero: N, one: N)
    -> Result<(int, Seq<N>), (Error, Seq<char>)>
{
    let n = g.len() as int;
    if n == 0 {
        Err((Error::VALUE, "matrix must be non-empty"@))
    } else if !rectangular(g, n) {
        Err((Error::VALUE, "MDETERM/MINVERSE requires a square matrix"@))
    } else {
        match coerced_rows(g, Some(n), Seq::empty(), zero, one, "matrix requires numeric values"@,
            "matrix received an error value"@) {
            Err(e) => Err(e),
            Ok(rows) => Ok((n, Seq::new((n * n) as nat, |k: int| rows[k / n][k % n]))),
        }
    }
}

/// Reads an array as a square matrix of numbers, in row-major order: the
/// array must have as many cells in each row as it has rows; a text gives
/// `#VALUE!` and an error value gives that error.
pub fn to_square_matrix<N: Copy>(arr: &Vec<Vec<NumberCell<N>>>, zero: N, one: N) -> (r: Result<(usize, Vec<N>), CalcError>)
    requires
        arr.len() * arr.len() <= usize::MAX,
    ensures
        match r {
            Ok((n, v)) => square_matrix_spec(grid(arr@), zero, one) == Ok::<(int, Seq<N>), (Error, Seq<char>)>(
                (n as int, v@)),
            Err(e) => square_matrix_spec(grid(arr@), zero, one) == Err::<(int, Seq<N>), (Error, Seq<char>)>(
                (e.error, e.message@)),
        },
{
    let n = arr.len();
    if n == 0 {
        return Err(new_error(Error::VALUE, "matrix must be non-empty"));
    }
    let mut i: usize = 0;
    while i < n
        invariant
            i <= n == arr.len(),
            forall|k: int| 0 <= k < i ==> #[trigger] arr@[k]@.len() == n,
        decreases n - i,
    {
        if arr[i].len() != n {
            assert(grid(arr@)[i as int].len() != n);
            return Err(new_error(Error::VALUE, "MDETERM/MINVERSE requires a square matrix"));
        }
        i = i + 1;
    }
    assert(rectangular(grid(arr@), n as int));
    let rows = coerce_rows(arr, Some(n), "", zero, one, "matrix requires numeric values", "matrix received an error value");
    proof {
        reveal_strlit("");
    }
    assert(""@ =~= Seq::<char>::empty());
    match rows {
        Err(e) => Err(e),
        Ok(rows) => {
            proof {
                lemma_coerced_rows_shape(grid(arr@), Some(n as int), ""@, zero, one, "matrix requires numeric values"@,
                    "matrix received an error value"@);
            }
            let ghost rs = grid(rows@);
            assert forall|i: int| 0 <= i < rs.len() implies #[trigger] rs[i].len() == n by {
                lemma_coerced_row_len(grid(arr@)[i], zero, one, "matrix requires numeric values"@,
                    "matrix received an error value"@);
            }
            let mut flat: Vec<N> = Vec::new();
            let mut r: usize = 0;
            while r < n
                invariant
                    r <= n == rows.len(),
                    n * n <= usize::MAX,
                    rs == grid(rows@),
                    rectangular(rs, n as int),
                    flat@.len() == r * n,
                    forall|k: int| 0 <= k < r * n ==> #[trigger] flat@[k] == rs[k / n as int][k % n as int],
                decreases n - r,
            {
                assert(rs[r as int] == rows@[r as int]@);
                let mut c: usize = 0;
                while c < n
                    invariant
                        r < n == rows.len(),
                        n * n <= usize::MAX,
                        rs == grid(rows@),
                        rows@[r as int]@.len() == n,
                        flat@.len() == r * n + c,
                        c <= n,
                        forall|k: int| 0 <= k < r * n + c ==> #[trigger] flat@[k] == rs[k / n as int][k % n as int],
                    decreases n - c,
                {
                    proof {
                        let k = r * n + c;
                        assert(k / n as int == r && k % n as int == c) by (nonlinear_arith)
                            requires k == r * n + c, c < n, 0 <= r;
                        assert((r + 1) * n <= n * n) by (nonlinear_arith) requires r < n;
                    }
                    flat.push(rows[r][c]);
                    c = c + 1;
                }
                assert((r + 1) * n == r * n + n) by (nonlinear_arith);
                r = r + 1;
            }
            assert(flat@ =~= Seq::new((n * n) as nat, |k: int| rs[k / n as int][k % n as int]));
            Ok((n, flat))
        },
    }
}

/// What MUNIT gives for `n`: the `n` by `n` identity matrix, `one` on the
/// diagonal and `zero` elsewhere.
pub open spec fn identity_spec<N>(n: int, one: N, zero: N) -> Seq<Seq<N>> {
    Seq::new(n as nat, |i: int| Seq::new(n as nat, |j: int| if i == j { one } else { zero }))
}

/// `=MUNIT(dimension)`: the identity matrix of size `n` (the dimension
/// already truncated to an integer); `#VALUE!` unless `n` is positive.
pub fn fn_munit<N: Copy>(n: i64, one: N, zero: N) -> (r: Result<Vec<Vec<N>>, CalcError>)
    requires
        n <= usize::MAX,
    ensures
        match r {
            Ok(m) => n > 0 && grid(m@) == identity_spec(n as int, one, zero),
            Err(e) => n <= 0 && e.error == Error::VALUE && e.message@ == "MUNIT requires a positive integer"@,
        },
{
    if n <= 0 {
        return Err(new_error(Error::VALUE, "MUNIT requires a positive integer"));
    }
    let size = n as usize;
    let mut out: Vec<Vec<N>> = Vec::new();
    let mut i: usize = 0;
    while i < size
        invariant
            i <= size == n,
            grid(out@) == identity_spec(n as int, one, zero).take(i as int),
        decreases size - i,
    {
        let mut row: Vec<N> = Vec::new();
        let mut j: usize = 0;
        while j < size
            invariant
                j <= size == n,
                i < size,
                row@ == identity_spec(n as int, one, zero)[i as int].take(j as int),
            decreases size - j,
        {
            row.push(if i == j { one } else { zero });
            j = j + 1;
            assert(row@ =~= identity_spec(n as int, one, zero)[i as int].take(j as int));
        }
        assert(row@ =~= identity_spec(n as int, one, zero)[i as int]);
        proof {
            crate::grid::lemma_grid_push(out@, row);
        }
        out.push(row);
        i = i + 1;
        assert(grid(out@) =~= identity_spec(n as int, one, zero).take(i as int));
    }
    assert(identity_spec(n as int, one, zero).take(i as int) =~= identity_spec(n as int, one, zero));
    Ok(out)
}

} // verus!
