//! TOCOL and TOROW: an array flattened into one column or one row.
use vstd::prelude::*;
use vstd::string::*;
use crate::grid::{grid, lemma_grid_push, rectangular, rows_at_least, width};
use crate::lookup_and_reference::transpose::transpose_spec;
use crate::types::{ArrayValue, CalcError, Error};

verus! {

/// The rows of `g` one after the other.
pub open spec fn concat_rows<T>(g: Seq<Seq<T>>) -> Seq<T>
    decreases g.len(),
{
    if g.len() == 0 { Seq::empty() } else { concat_rows(g.drop_last()) + g.last() }
}

/// The columns of `g` (each `width(g)` long) one after the other.
pub open spec fn concat_columns<T>(g: Seq<Seq<T>>) -> Seq<T> {
    Seq::new((width(g) * g.len()) as nat, |k: int| g[k % (g.len() as int)][k / (g.len() as int)])
}

/// Whether TOCOL/TOROW keeps `v` for the `ignore` setting: 1 drops blanks,
/// 2 drops errors, 3 drops both.
pub open spec fn kept<T>(v: ArrayValue<T>, ignore: int) -> bool {
    let is_blank = v is Empty;
    let is_error = v is Error;
    if ignore == 1 { !is_blank }
    else if ignore == 2 { !is_error }
    else if ignore == 3 { !is_blank && !is_error }
    else { true }
}

/// The values of `s` that are kept, in order.
pub open spec fn kept_values<T>(s: Seq<ArrayValue<T>>, ignore: int) -> Seq<ArrayValue<T>>
    decreases s.len(),
{
    if s.len() == 0 {
        Seq::empty()
    } else if kept(s.last(), ignore) {
        kept_values(s.drop_last(), ignore).push(s.last())
    } else {
        kept_values(s.drop_last(), ignore)
    }
}

/// The flattened values that TOCOL and TOROW return, or their error.
pub open spec fn flatten_spec<T>(data: Seq<Seq<ArrayValue<T>>>, ignore: i64, scan_by_col: bool)
    -> Result<Seq<ArrayValue<T>>, (Error, Seq<char>)>
{
    if !(0 <= ignore <= 3) {
        Err((Error::VALUE, "ignore must be 0, 1, 2, or 3"@))
    } else {
        let flat = if scan_by_col { concat_columns(data) } else { concat_rows(data) };
        let result = kept_values(flat, ignore as int);
        if result.len() == 0 {
            Err((Error::CALC, "TOCOL/TOROW returned empty array"@))
        } else {
            Ok(result)
        }
    }
}

/// The view of a flat result or its error.
pub open spec fn flat_result<T>(r: Result<Vec<T>, CalcError>) -> Result<Seq<T>, (Error, Seq<char>)> {
    match r {
        Ok(v) => Ok(v@),
        Err(e) => Err((e.error, e.message@)),
    }
}

proof fn lemma_kept_push<T>(s: Seq<ArrayValue<T>>, v: ArrayValue<T>, ignore: int)
    ensures
        kept_values(s.push(v), ignore) == if kept(v, ignore) { kept_values(s, ignore).push(v) } else { kept_values(s, ignore) },
{
    assert(s.push(v).drop_last() =~= s);
}

/// Appends the kept values among `row[..]` to `out`.
fn push_kept<T: Copy>(out: &mut Vec<ArrayValue<T>>, v: ArrayValue<T>, ignore: i64)
    ensures
        final(out)@ == if kept(v, ignore as int) { old(out)@.push(v) } else { old(out)@ },
{
    let is_blank = match v { ArrayValue::Empty => true, _ => false };
    let is_error = match v { ArrayValue::Error(_) => true, _ => false };
    let keep = if ignore == 1 {
        !is_blank
    } else if ignore == 2 {
        !is_error
    } else if ignore == 3 {
        !is_blank && !is_error
    } else {
        true
    };
    if keep {
        out.push(v);
    }
}

/// The flattening shared by TOCOL and TOROW.
///   * ignore: 0=keep all, 1=ignore blanks, 2=ignore errors, 3=ignore both
///   * scan_by_col: false=row-by-row, true=column-by-column
pub fn flatten_array_impl<T: Copy>(data: &Vec<Vec<ArrayValue<T>>>, ignore: i64, scan_by_col: bool)
    -> (r: Result<Vec<ArrayValue<T>>, CalcError>)
    requires
        scan_by_col ==> rows_at_least(grid(data@), width(grid(data@))),
    ensures
        flat_result(r) == flatten_spec(grid(data@), ignore, scan_by_col),
{
    if !(0 <= ignore && ignore <= 3) {
        return Err(CalcError { error: Error::VALUE, message: String::from_str("ignore must be 0, 1, 2, or 3") });
    }
    let ghost g = grid(data@);
    let num_rows = data.len();
    let num_cols = if num_rows > 0 { data[0].len() } else { 0 };
    let mut out: Vec<ArrayValue<T>> = Vec::new();
    if scan_by_col {
        let ghost flat = concat_columns(g);
        let mut j: usize = 0;
        while j < num_cols
            invariant
                g == grid(data@),
                flat == concat_columns(g),
                num_rows == data.len(),
                num_cols as int == width(g),
                rows_at_least(g, width(g)),
                j <= num_cols,
                out@ == kept_values(flat.take(j * num_rows), ignore as int),
            decreases num_cols - j,
        {
            let mut i: usize = 0;
            while i < num_rows
                invariant
                    g == grid(data@),
                    flat == concat_columns(g),
                    num_rows == data.len(),
                    num_cols as int == width(g),
                    rows_at_least(g, width(g)),
                    j < num_cols,
                    i <= num_rows,
                    out@ == kept_values(flat.take(j * num_rows + i), ignore as int),
                decreases num_rows - i,
            {
                assert(g[i as int] == data@[i as int]@);
                let v = data[i][j];
                proof {
                    let k = j * num_rows + i;
                    assert(k < num_cols * num_rows) by (nonlinear_arith)
                        requires k == j * num_rows + i, i < num_rows, j < num_cols;
                    assert(k % (num_rows as int) == i && k / (num_rows as int) == j) by (nonlinear_arith)
                        requires k == j * num_rows + i, 0 <= i < num_rows, 0 <= j;
                    assert(g[i as int] == data@[i as int]@);
                    assert(flat[k] == v);
                    assert(flat.take(k + 1) =~= flat.take(k).push(v));
                    lemma_kept_push(flat.take(k), v, ignore as int);
                }
                push_kept(&mut out, v, ignore);
                i = i + 1;
            }
            proof {
                assert(j * num_rows + num_rows == (j + 1) * num_rows) by (nonlinear_arith);
            }
            j = j + 1;
        }
        proof {
            assert(flat.len() == num_cols * num_rows);
            assert(flat.take(j * num_rows) =~= flat);
        }
    } else {
        let mut i: usize = 0;
        while i < num_rows
            invariant
                g == grid(data@),
                num_rows == data.len(),
                i <= num_rows,
                out@ == kept_values(concat_rows(g.take(i as int)), ignore as int),
            decreases num_rows - i,
        {
            let row = &data[i];
            let ghost before = concat_rows(g.take(i as int));
            let mut c: usize = 0;
            while c < row.len()
                invariant
                    i < num_rows,
                    c <= row.len(),
                    out@ == kept_values(before + row@.take(c as int), ignore as int),
                decreases row.len() - c,
            {
                let v = row[c];
                proof {
                    assert((before + row@.take(c as int)).push(v) =~= before + row@.take(c + 1));
                    lemma_kept_push(before + row@.take(c as int), v, ignore as int);
                }
                push_kept(&mut out, v, ignore);
                c = c + 1;
            }
            proof {
                assert(row@.take(c as int) =~= row@);
                assert(g.take(i + 1).drop_last() =~= g.take(i as int));
                assert(g[i as int] == row@);
            }
            i = i + 1;
        }
        assert(g.take(i as int) =~= g);
    }
    if out.len() == 0 {
        return Err(CalcError { error: Error::CALC, message: String::from_str("TOCOL/TOROW returned empty array") });
    }
    Ok(out)
}

/// The values of a flat result as one column.
pub open spec fn as_column<T>(s: Seq<T>) -> Seq<Seq<T>> {
    Seq::new(s.len(), |i: int| seq![s[i]])
}

/// `=TOCOL(array, [ignore], [scan_by_col])`: the array flattened into a column.
pub fn fn_tocol<T: Copy>(data: &Vec<Vec<ArrayValue<T>>>, ignore: i64, scan_by_col: bool)
    -> (r: Result<Vec<Vec<ArrayValue<T>>>, CalcError>)
    requires
        scan_by_col ==> rows_at_least(grid(data@), width(grid(data@))),
    ensures
        match flatten_spec(grid(data@), ignore, scan_by_col) {
            Ok(flat) => r matches Ok(g) && grid(g@) == as_column(flat),
            Err((e, m)) => r matches Err(x) && x.error == e && x.message@ == m,
        },
{
    let flat = match flatten_array_impl(data, ignore, scan_by_col) {
        Ok(f) => f,
        Err(e) => return Err(e),
    };
    let mut out: Vec<Vec<ArrayValue<T>>> = Vec::new();
    let mut k: usize = 0;
    while k < flat.len()
        invariant
            k <= flat.len(),
            grid(out@) == as_column(flat@).take(k as int),
        decreases flat.len() - k,
    {
        let mut cell: Vec<ArrayValue<T>> = Vec::new();
        cell.push(flat[k]);
        proof { lemma_grid_push(out@, cell); }
        out.push(cell);
        k = k + 1;
        assert(grid(out@) =~= as_column(flat@).take(k as int));
    }
    assert(as_column(flat@).take(k as int) =~= as_column(flat@));
    Ok(out)
}

/// `=TOROW(array, [ignore], [scan_by_col])`: the array flattened into a row.
pub fn fn_torow<T: Copy>(data: &Vec<Vec<ArrayValue<T>>>, ignore: i64, scan_by_col: bool)
    -> (r: Result<Vec<Vec<ArrayValue<T>>>, CalcError>)
    requires
        scan_by_col ==> rows_at_least(grid(data@), width(grid(data@))),
    ensures
        match flatten_spec(grid(data@), ignore, scan_by_col) {
            Ok(flat) => r matches Ok(g) && grid(g@) == seq![flat],
            Err((e, m)) => r matches Err(x) && x.error == e && x.message@ == m,
        },
{
    match flatten_array_impl(data, ignore, scan_by_col) {
        Ok(f) => {
            let mut out: Vec<Vec<ArrayValue<T>>> = Vec::new();
            proof { lemma_grid_push(out@, f); }
            out.push(f);
            assert(grid(out@) =~= seq![f@]);
            Ok(out)
        },
        Err(e) => Err(e),
    }
}

/// TOROW gives the transpose of what TOCOL gives: the same values, as one
/// row instead of one column.
pub proof fn law_torow_is_transposed_tocol<T>(data: Seq<Seq<ArrayValue<T>>>, ignore: i64, scan_by_col: bool)
    requires
        flatten_spec(data, ignore, scan_by_col) is Ok,
    ensures
        transpose_spec(as_column(flatten_spec(data, ignore, scan_by_col)->Ok_0))
            == seq![flatten_spec(data, ignore, scan_by_col)->Ok_0],
{
    let flat = flatten_spec(data, ignore, scan_by_col)->Ok_0;
    let col = as_column(flat);
    assert(width(col) == 1);
    assert(transpose_spec(col)[0] =~= flat);
    assert(transpose_spec(col) =~= seq![flat]);
}

/// Scanning a rectangular array row by row lists row `i`, column `j` at
/// position `i * w + j`.
proof fn lemma_concat_rows_index<T>(g: Seq<Seq<T>>, w: int)
    requires
        w >= 0,
        rectangular(g, w),
    ensures
        concat_rows(g).len() == g.len() * w,
        forall|i: int, j: int| 0 <= i < g.len() && 0 <= j < w ==> #[trigger] concat_rows(g)[i * w + j] == g[i][j],
    decreases g.len(),
{
    if g.len() > 0 {
        let p = g.drop_last();
        let h = g.len() - 1;
        assert(rectangular(p, w)) by {
            assert forall|i: int| 0 <= i < p.len() implies #[trigger] p[i].len() == w by {
                assert(p[i] == g[i]);
            }
        }
        lemma_concat_rows_index(p, w);
        assert(concat_rows(g) == concat_rows(p) + g.last());
        assert(p.len() * w + w == g.len() * w) by (nonlinear_arith) requires p.len() == g.len() - 1;
        assert forall|i: int, j: int| 0 <= i < g.len() && 0 <= j < w implies #[trigger] concat_rows(g)[i * w + j] == g[i][j] by {
            if i < h {
                assert(i * w + j < h * w) by (nonlinear_arith) requires 0 <= i < h, 0 <= j < w;
                assert(0 <= i * w + j) by (nonlinear_arith) requires 0 <= i, 0 <= j, w >= 0;
                assert(p[i] == g[i]);
            } else {
                assert(i * w + j - h * w == j) by (nonlinear_arith) requires i == h;
            }
        }
    }
}

/// Scanning by columns lists the same values, in the same order, as
/// scanning the transposed array by rows; so TOCOL by columns is TOCOL of
/// the transpose by rows, whatever is ignored.
pub proof fn law_scan_by_column_is_scan_of_transpose<T>(data: Seq<Seq<ArrayValue<T>>>, ignore: i64)
    requires
        data.len() > 0,
        width(data) > 0,
        rectangular(data, width(data)),
    ensures
        concat_columns(data) == concat_rows(transpose_spec(data)),
        flatten_spec(data, ignore, true) == flatten_spec(transpose_spec(data), ignore, false),
{
    let h = data.len() as int;
    let w = width(data);
    let t = transpose_spec(data);
    assert(rectangular(t, h));
    lemma_concat_rows_index(t, h);
    let a = concat_columns(data);
    let b = concat_rows(t);
    assert(w * h == t.len() * h);
    assert forall|k: int| 0 <= k < a.len() implies #[trigger] a[k] == b[k] by {
        let j = k / h;
        let i = k % h;
        vstd::arithmetic::div_mod::lemma_fundamental_div_mod(k, h);
        assert(0 <= i < h);
        assert(k == j * h + i) by (nonlinear_arith) requires k == h * (k / h) + (k % h), j == k / h, i == k % h;
        assert(0 <= j < w) by (nonlinear_arith) requires k == j * h + i, 0 <= i < h, 0 <= k < w * h, h > 0;
        assert(b[j * h + i] == t[j][i]);
    }
    assert(a =~= b);
}

/// What TOCOL and TOROW drop: with `ignore` 1 no blank is left, with 2 no
/// error, with 3 neither; with 0 the values are all there, in scan order.
pub proof fn law_flatten_drops_what_is_ignored<T>(data: Seq<Seq<ArrayValue<T>>>, ignore: i64, scan_by_col: bool)
    requires
        flatten_spec(data, ignore, scan_by_col) is Ok,
    ensures
        forall|k: int| 0 <= k < flatten_spec(data, ignore, scan_by_col)->Ok_0.len() ==> {
            let v = #[trigger] flatten_spec(data, ignore, scan_by_col)->Ok_0[k];
            &&& (ignore == 1 || ignore == 3 ==> !(v is Empty))
            &&& (ignore == 2 || ignore == 3 ==> !(v is Error))
        },
        ignore == 0 ==> flatten_spec(data, ignore, scan_by_col)->Ok_0
            == (if scan_by_col { concat_columns(data) } else { concat_rows(data) }),
{
    let flat = if scan_by_col { concat_columns(data) } else { concat_rows(data) };
    lemma_kept_values(flat, ignore as int);
}

proof fn lemma_kept_values<T>(s: Seq<ArrayValue<T>>, ignore: int)
    ensures
        forall|k: int| 0 <= k < kept_values(s, ignore).len() ==> kept(#[trigger] kept_values(s, ignore)[k], ignore),
        ignore == 0 ==> kept_values(s, ignore) == s,
    decreases s.len(),
{
    if s.len() > 0 {
        lemma_kept_values(s.drop_last(), ignore);
        let p = kept_values(s.drop_last(), ignore);
        assert forall|k: int| 0 <= k < kept_values(s, ignore).len() implies kept(#[trigger] kept_values(s, ignore)[k], ignore) by {
            if k < p.len() {
                assert(kept_values(s, ignore)[k] == p[k]);
            }
        }
        if ignore == 0 {
            assert(s.drop_last().push(s.last()) =~= s);
        }
    }
}

} // verus!
