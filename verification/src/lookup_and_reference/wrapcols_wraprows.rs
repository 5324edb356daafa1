//! WRAPCOLS and WRAPROWS: a vector wrapped into columns or rows.
use vstd::prelude::*;
use vstd::string::*;
use crate::grid::{grid, lemma_grid_push};
use crate::lookup_and_reference::transpose::transpose_spec;
use crate::types::{CalcError, Error};

verus! {

/// `g` is a single row or a single column.
pub open spec fn is_vector<T>(g: Seq<Seq<T>>) -> bool {
    g.len() == 1 || forall|i: int| 0 <= i < g.len() ==> #[trigger] g[i].len() == 1
}

/// The values of a vector, in order.
pub open spec fn vector_values<T>(g: Seq<Seq<T>>) -> Seq<T> {
    if g.len() == 1 { g[0] } else { Seq::new(g.len(), |i: int| g[i][0]) }
}

/// Element `k` of `flat`, or `pad` past its end.
pub open spec fn value_or_pad<T>(flat: Seq<T>, k: int, pad: T) -> T {
    if 0 <= k < flat.len() { flat[k] } else { pad }
}

/// `ceil(n / w)`.
pub open spec fn ceil_div(n: int, w: int) -> int {
    (n + w - 1) / w
}

/// WRAPCOLS of a vector: `w` rows; column `j` holds the values `j*w ..`.
pub open spec fn wrapcols_values<T>(flat: Seq<T>, w: int, pad: T) -> Seq<Seq<T>> {
    Seq::new(w as nat, |i: int| Seq::new(ceil_div(flat.len() as int, w) as nat,
        |j: int| value_or_pad(flat, j * w + i, pad)))
}

/// WRAPROWS of a vector: rows of `w` values, the last one padded.
pub open spec fn wraprows_values<T>(flat: Seq<T>, w: int, pad: T) -> Seq<Seq<T>> {
    Seq::new(ceil_div(flat.len() as int, w) as nat, |r: int| Seq::new(w as nat,
        |c: int| value_or_pad(flat, r * w + c, pad)))
}

/// What WRAPCOLS (`by_cols`) or WRAPROWS gives.
pub open spec fn wrap_spec<T>(data: Seq<Seq<T>>, w: int, pad: T, by_cols: bool)
    -> Result<Seq<Seq<T>>, (Error, Seq<char>)>
{
    if !is_vector(data) {
        Err((Error::VALUE, "First argument must be a 1-D vector"@))
    } else if w < 1 {
        Err((Error::VALUE, "wrap_count must be >= 1"@))
    } else if by_cols {
        Ok(wrapcols_values(vector_values(data), w, pad))
    } else {
        Ok(wraprows_values(vector_values(data), w, pad))
    }
}

/// Flatten the first argument of WRAPCOLS/WRAPROWS into a 1-D vector.
/// Returns an error if it is not a single row or a single column.
pub fn flatten_vector<T: Copy>(data: &Vec<Vec<T>>) -> (r: Result<Vec<T>, CalcError>)
    ensures
        match r {
            Ok(v) => is_vector(grid(data@)) && v@ == vector_values(grid(data@)),
            Err(e) => !is_vector(grid(data@)) && e.error == Error::VALUE
                && e.message@ == "First argument must be a 1-D vector"@,
        },
{
    let ghost g = grid(data@);
    let is_row_vec = data.len() == 1;
    let mut is_col_vec = true;
    let mut i: usize = 0;
    while i < data.len()
        invariant
            g == grid(data@),
            i <= data.len(),
            is_col_vec == forall|k: int| 0 <= k < i ==> #[trigger] g[k].len() == 1,
        decreases data.len() - i,
    {
        assert(g[i as int] == data@[i as int]@);
        if data[i].len() != 1 {
            is_col_vec = false;
        }
        i = i + 1;
    }
    if !is_row_vec && !is_col_vec {
        return Err(CalcError { error: Error::VALUE, message: String::from_str("First argument must be a 1-D vector") });
    }
    if is_row_vec {
        assert(g[0] == data@[0]@);
        Ok(crate::grid::slice_row(&data[0], 0, data[0].len()))
    } else {
        let mut out: Vec<T> = Vec::new();
        let mut k: usize = 0;
        while k < data.len()
            invariant
                g == grid(data@),
                forall|k2: int| 0 <= k2 < g.len() ==> #[trigger] g[k2].len() == 1,
                k <= data.len(),
                out@ == Seq::new(g.len(), |i: int| g[i][0]).take(k as int),
            decreases data.len() - k,
        {
            assert(g[k as int] == data@[k as int]@);
            out.push(data[k][0]);
            k = k + 1;
            assert(out@ =~= Seq::new(g.len(), |i: int| g[i][0]).take(k as int));
        }
        assert(out@ =~= vector_values(g));
        Ok(out)
    }
}

/// `ceil(n / w)` for `w >= 1`.
fn div_ceil(n: usize, w: usize) -> (r: usize)
    requires
        w >= 1,
    ensures
        r as int == ceil_div(n as int, w as int),
        r as int * w >= n,
        n > 0 ==> (r - 1) * w < n,
{
    let q = n / w;
    proof {
        vstd::arithmetic::div_mod::lemma_fundamental_div_mod(n as int, w as int);
        if n % w != 0 {
            assert(w >= 2);
            assert(q < n) by (nonlinear_arith)
                requires n as int == w * q + n as int % w as int, w >= 2, 0 < n as int % w as int;
        }
    }
    let r = if n % w == 0 { q } else { q + 1 };
    proof {
        vstd::arithmetic::div_mod::lemma_fundamental_div_mod(n as int, w as int);
        let m = n as int % w as int;
        assert(0 <= m < w);
        if m == 0 {
            assert((n as int + w - 1) / (w as int) == q) by (nonlinear_arith)
                requires n as int == w * q, w >= 1;
        } else {
            assert((n as int + w - 1) / (w as int) == q + 1) by (nonlinear_arith)
                requires n as int == w * q + m, 1 <= m < w;
        }
        assert(r as int * w >= n) by (nonlinear_arith)
            requires n as int == w * q + m, 0 <= m < w, r as int == (if m == 0 { q as int } else { q + 1 });
        if n > 0 {
            assert((r - 1) * w < n) by (nonlinear_arith)
                requires n as int == w * q + m, 0 <= m < w, r as int == (if m == 0 { q as int } else { q + 1 }), n > 0;
        }
    }
    r
}

/// The view of a function result that is an array or an error.
pub open spec fn wrap_result<T>(r: Result<Vec<Vec<T>>, CalcError>) -> Result<Seq<Seq<T>>, (Error, Seq<char>)> {
    crate::grid::grid_result(r)
}

/// Builds WRAPROWS' array from the vector `flat`.
fn wraprows_fill<T: Copy>(flat: &Vec<T>, w: usize, pad: T) -> (r: Vec<Vec<T>>)
    requires
        w >= 1,
    ensures
        grid(r@) == wraprows_values(flat@, w as int, pad),
{
    let n = flat.len();
    let blocks = div_ceil(n, w);
    let ghost target = wraprows_values(flat@, w as int, pad);
    let mut out: Vec<Vec<T>> = Vec::new();
    let mut a: usize = 0;
    while a < blocks
        invariant
            n == flat.len(),
            w >= 1,
            blocks as int == ceil_div(n as int, w as int),
            n > 0 ==> (blocks - 1) * w < n,
            target == wraprows_values(flat@, w as int, pad),
            a <= blocks,
            grid(out@) == target.take(a as int),
        decreases blocks - a,
    {
        assert(a * w <= (blocks - 1) * w) by (nonlinear_arith)
            requires a < blocks;
        let mut row: Vec<T> = Vec::new();
        let mut b: usize = 0;
        while b < w
            invariant
                n == flat.len(),
                w >= 1,
                blocks as int == ceil_div(n as int, w as int),
                n > 0 ==> (blocks - 1) * w < n,
                a * w <= (blocks - 1) * w,
                target == wraprows_values(flat@, w as int, pad),
                a < blocks,
                b <= w,
                row@ == target[a as int].take(b as int),
            decreases w - b,
        {
            let v = if n > 0 && b < n - a * w { flat[a * w + b] } else { pad };
            assert(v == value_or_pad(flat@, a * w + b, pad)) by {
                assert(a * w + b >= 0) by (nonlinear_arith)
                    requires a >= 0, w >= 0, b >= 0;
            }
            row.push(v);
            b = b + 1;
            assert(row@ =~= target[a as int].take(b as int));
        }
        assert(row@ =~= target[a as int]);
        proof { lemma_grid_push(out@, row); }
        out.push(row);
        a = a + 1;
        assert(grid(out@) =~= target.take(a as int));
    }
    assert(target.take(a as int) =~= target);
    out
}

/// Builds WRAPCOLS' array from the vector `flat`.
fn wrapcols_fill<T: Copy>(flat: &Vec<T>, w: usize, pad: T) -> (r: Vec<Vec<T>>)
    requires
        w >= 1,
    ensures
        grid(r@) == wrapcols_values(flat@, w as int, pad),
{
    let n = flat.len();
    let blocks = div_ceil(n, w);
    let ghost target = wrapcols_values(flat@, w as int, pad);
    let mut out: Vec<Vec<T>> = Vec::new();
    let mut a: usize = 0;
    while a < w
        invariant
            n == flat.len(),
            w >= 1,
            blocks as int == ceil_div(n as int, w as int),
            n > 0 ==> (blocks - 1) * w < n,
            target == wrapcols_values(flat@, w as int, pad),
            a <= w,
            grid(out@) == target.take(a as int),
        decreases w - a,
    {
        let mut row: Vec<T> = Vec::new();
        let mut b: usize = 0;
        while b < blocks
            invariant
                n == flat.len(),
                w >= 1,
                blocks as int == ceil_div(n as int, w as int),
                n > 0 ==> (blocks - 1) * w < n,
                target == wrapcols_values(flat@, w as int, pad),
                a < w,
                b <= blocks,
                row@ == target[a as int].take(b as int),
            decreases blocks - b,
        {
            assert(b * w <= (blocks - 1) * w) by (nonlinear_arith)
                requires b < blocks;
            let v = if n > 0 && a < n - b * w { flat[b * w + a] } else { pad };
            assert(v == value_or_pad(flat@, b * w + a, pad)) by {
                assert(b * w + a >= 0) by (nonlinear_arith)
                    requires a >= 0, w >= 0, b >= 0;
            }
            row.push(v);
            b = b + 1;
            assert(row@ =~= target[a as int].take(b as int));
        }
        assert(row@ =~= target[a as int]);
        proof { lemma_grid_push(out@, row); }
        out.push(row);
        a = a + 1;
        assert(grid(out@) =~= target.take(a as int));
    }
    assert(target.take(a as int) =~= target);
    out
}

/// `=WRAPCOLS(vector, wrap_count, [pad_with])`
///
/// Wraps the vector by columns after `wrap_count` values; the last column is
/// padded with `pad` (the caller passes #N/A when `pad_with` is missing).
pub fn fn_wrapcols<T: Copy>(data: &Vec<Vec<T>>, wrap_count: usize, pad: T) -> (r: Result<Vec<Vec<T>>, CalcError>)
    ensures
        wrap_result(r) == wrap_spec(grid(data@), wrap_count as int, pad, true),
{
    let flat = match flatten_vector(data) {
        Ok(v) => v,
        Err(e) => return Err(e),
    };
    if wrap_count < 1 {
        return Err(CalcError { error: Error::VALUE, message: String::from_str("wrap_count must be >= 1") });
    }
    Ok(wrapcols_fill(&flat, wrap_count, pad))
}

/// `=WRAPROWS(vector, wrap_count, [pad_with])`
///
/// Wraps the vector by rows after `wrap_count` values; the last row is padded
/// with `pad` (the caller passes #N/A when `pad_with` is missing).
pub fn fn_wraprows<T: Copy>(data: &Vec<Vec<T>>, wrap_count: usize, pad: T) -> (r: Result<Vec<Vec<T>>, CalcError>)
    ensures
        wrap_result(r) == wrap_spec(grid(data@), wrap_count as int, pad, false),
{
    let flat = match flatten_vector(data) {
        Ok(v) => v,
        Err(e) => return Err(e),
    };
    if wrap_count < 1 {
        return Err(CalcError { error: Error::VALUE, message: String::from_str("wrap_count must be >= 1") });
    }
    Ok(wraprows_fill(&flat, wrap_count, pad))
}

/// Wrapping a non-empty vector by columns gives the transpose of wrapping it
/// by rows.
pub proof fn law_wrapcols_is_transposed_wraprows<T>(flat: Seq<T>, w: int, pad: T)
    requires
        w >= 1,
        flat.len() > 0,
    ensures
        wrapcols_values(flat, w, pad) == transpose_spec(wraprows_values(flat, w, pad)),
{
    let rows = wraprows_values(flat, w, pad);
    let n = flat.len() as int;
    assert(ceil_div(n, w) >= 1) by (nonlinear_arith)
        requires n >= 1, w >= 1, ceil_div(n, w) == (n + w - 1) / w;
    assert(crate::grid::width(rows) == w);
    let cols = wrapcols_values(flat, w, pad);
    let t = transpose_spec(rows);
    assert forall|i: int| 0 <= i < w implies cols[i] =~= t[i] by {
        assert forall|j: int| 0 <= j < ceil_div(n, w) implies cols[i][j] == t[i][j] by {
            assert(rows[j][i] == value_or_pad(flat, j * w + i, pad));
        }
    }
    assert(cols =~= t);
}

/// Reading the rows of WRAPROWS one after the other gives back the vector,
/// followed by padding.
pub proof fn law_wraprows_keeps_order<T>(flat: Seq<T>, w: int, pad: T, k: int)
    requires
        w >= 1,
        0 <= k < flat.len(),
    ensures
        k / w < wraprows_values(flat, w, pad).len(),
        wraprows_values(flat, w, pad)[k / w][k % w] == flat[k],
{
    let n = flat.len() as int;
    vstd::arithmetic::div_mod::lemma_fundamental_div_mod(k, w);
    assert(k / w < (n + w - 1) / w) by (nonlinear_arith)
        requires 0 <= k < n, w >= 1, k == w * (k / w) + k % w, 0 <= k % w < w;
    assert((k / w) * w + k % w == k) by (nonlinear_arith)
        requires k == w * (k / w) + k % w;
}

/// WRAPROWS makes rows of exactly `w` values, just enough of them to hold
/// the vector (the last row is the only one that may not be full), and the
/// places past the end of the vector hold the padding value.
pub proof fn law_wraprows_shape_and_padding<T>(flat: Seq<T>, w: int, pad: T)
    requires
        w >= 1,
        flat.len() > 0,
    ensures
        ({
            let r = wraprows_values(flat, w, pad);
            &&& (r.len() - 1) * w < flat.len() <= r.len() * w
            &&& forall|i: int| 0 <= i < r.len() ==> #[trigger] r[i].len() == w
            &&& forall|i: int, c: int| 0 <= i < r.len() && 0 <= c < w && i * w + c >= flat.len()
                ==> #[trigger] r[i][c] == pad
        }),
{
    let n = flat.len() as int;
    let q = (n + w - 1) / w;
    vstd::arithmetic::div_mod::lemma_fundamental_div_mod(n + w - 1, w);
    assert((q - 1) * w < n <= q * w) by (nonlinear_arith)
        requires n + w - 1 == w * q + (n + w - 1) % w, 0 <= (n + w - 1) % w < w, n >= 1, w >= 1;
}

} // verus!
