//! TAKE and DROP: the first or last rows and columns of an array.
use vstd::prelude::*;
use vstd::string::*;
use crate::grid::{grid, grid_result, magnitude_at_most, slice_grid, sub_grid, width};
use crate::types::{CalcError, Error};

verus! {

/// The positions `start..end` that TAKE keeps of `len` for the count `n`:
/// the first `n`, or the last `-n` when `n` is negative (at most all).
pub open spec fn take_range(n: int, len: int) -> (int, int) {
    if n > 0 {
        (0, vstd::math::min(n, len))
    } else {
        (len - vstd::math::min(-n, len), len)
    }
}

/// The positions `start..end` that DROP keeps of `len` for the count `n`:
/// all but the first `n`, or all but the last `-n` when `n` is negative.
pub open spec fn drop_range(n: int, len: int) -> (int, int) {
    if n >= 0 {
        (vstd::math::min(n, len), len)
    } else {
        (0, len - vstd::math::min(-n, len))
    }
}

/// The rows of `data` that a range `r0..r1` selects are at least `c1` long.
pub open spec fn rows_reach<T>(data: Seq<Seq<T>>, r0: int, r1: int, c1: int) -> bool {
    forall|i: int| r0 <= i < r1 ==> c1 <= #[trigger] data[i].len()
}

/// What TAKE gives for `data`, the row count and the optional column count.
pub open spec fn take_spec<T>(data: Seq<Seq<T>>, rows: i64, cols: Option<i64>)
    -> Result<Seq<Seq<T>>, (Error, Seq<char>)>
{
    if data.len() == 0 || data[0].len() == 0 {
        Ok(Seq::empty())
    } else if rows == 0 {
        Err((Error::CALC, "rows cannot be 0"@))
    } else if cols == Some(0i64) {
        Err((Error::CALC, "cols cannot be 0"@))
    } else {
        let (r0, r1) = take_range(rows as int, data.len() as int);
        let (c0, c1) = match cols {
            Some(c) => take_range(c as int, width(data)),
            None => (0, width(data)),
        };
        Ok(sub_grid(data, r0, r1, c0, c1))
    }
}

/// The rows that TAKE keeps reach its last kept column (no row is cut short).
pub open spec fn take_fits<T>(data: Seq<Seq<T>>, rows: i64, cols: Option<i64>) -> bool {
    let (r0, r1) = take_range(rows as int, data.len() as int);
    let c1 = match cols {
        Some(c) => take_range(c as int, width(data)).1,
        None => width(data),
    };
    rows_reach(data, r0, r1, c1)
}

/// What DROP gives for `data`, the row count and the optional column count.
pub open spec fn drop_spec<T>(data: Seq<Seq<T>>, rows: i64, cols: Option<i64>)
    -> Result<Seq<Seq<T>>, (Error, Seq<char>)>
{
    if data.len() == 0 || data[0].len() == 0 {
        Ok(Seq::empty())
    } else {
        let (r0, r1) = drop_range(rows as int, data.len() as int);
        let (c0, c1) = match cols {
            Some(c) => drop_range(c as int, width(data)),
            None => (0, width(data)),
        };
        if r0 >= r1 || c0 >= c1 {
            Err((Error::CALC, "DROP returned empty array"@))
        } else {
            Ok(sub_grid(data, r0, r1, c0, c1))
        }
    }
}

/// The rows that DROP keeps reach its last kept column.
pub open spec fn drop_fits<T>(data: Seq<Seq<T>>, rows: i64, cols: Option<i64>) -> bool {
    let (r0, r1) = drop_range(rows as int, data.len() as int);
    let c1 = match cols {
        Some(c) => drop_range(c as int, width(data)).1,
        None => width(data),
    };
    rows_reach(data, r0, r1, c1)
}

fn take_bounds(n: i64, len: usize) -> (r: (usize, usize))
    ensures
        r.0 as int == take_range(n as int, len as int).0,
        r.1 as int == take_range(n as int, len as int).1,
        r.0 <= r.1 <= len,
{
    let m = magnitude_at_most(n, len);
    if n > 0 { (0, m) } else { (len - m, len) }
}

fn drop_bounds(n: i64, len: usize) -> (r: (usize, usize))
    ensures
        r.0 as int == drop_range(n as int, len as int).0,
        r.1 as int == drop_range(n as int, len as int).1,
        r.0 <= len,
        r.1 <= len,
{
    let m = magnitude_at_most(n, len);
    if n >= 0 { (m, len) } else { (0, len - m) }
}

/// `=TAKE(array, rows, [cols])`
///
/// Returns the first (or last, when negative) N rows and/or M columns.
/// If |rows| or |cols| exceeds the array size, all rows/cols are returned.
pub fn fn_take<T: Copy>(data: &Vec<Vec<T>>, rows: i64, cols: Option<i64>) -> (r: Result<Vec<Vec<T>>, CalcError>)
    requires
        take_fits(grid(data@), rows, cols),
    ensures
        grid_result(r) == take_spec(grid(data@), rows, cols),
{
    if data.len() == 0 || data[0].len() == 0 {
        let empty: Vec<Vec<T>> = Vec::new();
        assert(grid(empty@) =~= Seq::<Seq<T>>::empty());
        return Ok(empty);
    }
    let num_rows = data.len();
    let num_cols = data[0].len();
    if rows == 0 {
        return Err(CalcError { error: Error::CALC, message: String::from_str("rows cannot be 0") });
    }
    let (r0, r1) = take_bounds(rows, num_rows);
    let (c0, c1) = match cols {
        Some(c) => {
            if c == 0 {
                return Err(CalcError { error: Error::CALC, message: String::from_str("cols cannot be 0") });
            }
            take_bounds(c, num_cols)
        },
        None => (0, num_cols),
    };
    proof {
        assert forall|i: int| r0 <= i < r1 implies c1 <= (#[trigger] data@[i]).len() by {
            assert(grid(data@)[i] == data@[i]@);
        }
    }
    Ok(slice_grid(data, r0, r1, c0, c1))
}

/// `=DROP(array, rows, [cols])`
///
/// Returns the array with the first (or last, when negative) N rows and/or M
/// columns removed.
pub fn fn_drop<T: Copy>(data: &Vec<Vec<T>>, rows: i64, cols: Option<i64>) -> (r: Result<Vec<Vec<T>>, CalcError>)
    requires
        drop_fits(grid(data@), rows, cols),
    ensures
        grid_result(r) == drop_spec(grid(data@), rows, cols),
{
    if data.len() == 0 || data[0].len() == 0 {
        let empty: Vec<Vec<T>> = Vec::new();
        assert(grid(empty@) =~= Seq::<Seq<T>>::empty());
        return Ok(empty);
    }
    let num_rows = data.len();
    let num_cols = data[0].len();
    let (r0, r1) = drop_bounds(rows, num_rows);
    let (c0, c1) = match cols {
        Some(c) => drop_bounds(c, num_cols),
        None => (0, num_cols),
    };
    if r0 >= r1 || c0 >= c1 {
        return Err(CalcError { error: Error::CALC, message: String::from_str("DROP returned empty array") });
    }
    proof {
        assert forall|i: int| r0 <= i < r1 implies c1 <= (#[trigger] data@[i]).len() by {
            assert(grid(data@)[i] == data@[i]@);
        }
    }
    Ok(slice_grid(data, r0, r1, c0, c1))
}

/// TAKE and DROP of the same number of rows split a rectangular array: the
/// rows that TAKE keeps, followed by those that DROP keeps, are the array.
pub proof fn law_take_and_drop_split_rows<T>(data: Seq<Seq<T>>, n: i64)
    requires
        data.len() > 0,
        width(data) > 0,
        forall|i: int| 0 <= i < data.len() ==> #[trigger] data[i].len() == width(data),
        0 < n < data.len(),
    ensures
        take_spec(data, n, None) is Ok,
        drop_spec(data, n, None) is Ok,
        take_spec(data, n, None)->Ok_0 + drop_spec(data, n, None)->Ok_0 == data,
{
    let t = take_spec(data, n, None)->Ok_0;
    let d = drop_spec(data, n, None)->Ok_0;
    assert forall|i: int| 0 <= i < data.len() implies #[trigger] (t + d)[i] == data[i] by {
        if i < n {
            assert(t[i] == data[i].subrange(0, width(data)));
            assert(data[i].subrange(0, width(data)) =~= data[i]);
        } else {
            assert(d[i - n] == data[n + (i - n)].subrange(0, width(data)));
            assert(data[i].subrange(0, width(data)) =~= data[i]);
        }
    }
    assert(t + d =~= data);
}

/// Counted from the end (a negative count `n`), DROP and TAKE of the same
/// number of rows split a rectangular array the other way: the rows that DROP keeps, followed by
/// those that TAKE keeps, are the array.
pub proof fn law_drop_and_take_split_rows_from_the_end<T>(data: Seq<Seq<T>>, n: i64)
    requires
        data.len() > 0,
        width(data) > 0,
        forall|i: int| 0 <= i < data.len() ==> #[trigger] data[i].len() == width(data),
        0 < -n < data.len(),
    ensures
        drop_spec(data, n, None) is Ok,
        take_spec(data, n, None) is Ok,
        drop_spec(data, n, None)->Ok_0 + take_spec(data, n, None)->Ok_0 == data,
{
    let len = data.len() as int;
    let k = len + n;
    let d = drop_spec(data, n, None)->Ok_0;
    let t = take_spec(data, n, None)->Ok_0;
    assert(d.len() == k);
    assert(t.len() == -n);
    assert forall|i: int| 0 <= i < data.len() implies #[trigger] (d + t)[i] == data[i] by {
        if i < k {
            assert(d[i] == data[i].subrange(0, width(data)));
        } else {
            assert(t[i - k] == data[k + (i - k)].subrange(0, width(data)));
        }
        assert(data[i].subrange(0, width(data)) =~= data[i]);
    }
    assert(d + t =~= data);
}

/// Dropping at least as many rows as the array has, from either end,
/// leaves nothing: DROP returns #CALC!.
pub proof fn law_drop_everything_is_an_error<T>(data: Seq<Seq<T>>, n: i64, cols: Option<i64>)
    requires
        data.len() > 0,
        data[0].len() > 0,
        n >= data.len() || -n >= data.len(),
    ensures
        drop_spec(data, n, cols) == Err::<Seq<Seq<T>>, (Error, Seq<char>)>((Error::CALC, "DROP returned empty array"@)),
{
}

/// TAKE and DROP split the columns of a rectangular array the same way they
/// split its rows: for `0 < k < width`, the first `k` columns that TAKE
/// keeps followed by the columns that DROP keeps give each row back, and
/// counted from the right (`-k`) DROP's columns come first.
pub proof fn law_take_and_drop_split_columns<T>(data: Seq<Seq<T>>, k: i64)
    requires
        data.len() > 0,
        width(data) > 0,
        data.len() <= i64::MAX,
        forall|i: int| 0 <= i < data.len() ==> #[trigger] data[i].len() == width(data),
        0 < k < width(data),
    ensures
        take_spec(data, data.len() as i64, Some(k)) is Ok,
        drop_spec(data, 0, Some(k)) is Ok,
        take_spec(data, data.len() as i64, Some((-k) as i64)) is Ok,
        drop_spec(data, 0, Some((-k) as i64)) is Ok,
        forall|i: int| 0 <= i < data.len() ==>
            #[trigger] take_spec(data, data.len() as i64, Some(k))->Ok_0[i] + drop_spec(data, 0, Some(k))->Ok_0[i] == data[i],
        forall|i: int| 0 <= i < data.len() ==>
            #[trigger] drop_spec(data, 0, Some((-k) as i64))->Ok_0[i] + take_spec(data, data.len() as i64, Some((-k) as i64))->Ok_0[i] == data[i],
{
    let w = width(data);
    let n = data.len() as i64;
    let t = take_spec(data, n, Some(k))->Ok_0;
    let d = drop_spec(data, 0, Some(k))->Ok_0;
    let t2 = take_spec(data, n, Some((-k) as i64))->Ok_0;
    let d2 = drop_spec(data, 0, Some((-k) as i64))->Ok_0;
    assert forall|i: int| 0 <= i < data.len() implies #[trigger] t[i] + d[i] == data[i] by {
        assert(t[i] == data[i].subrange(0, k as int));
        assert(d[i] == data[i].subrange(k as int, w));
        assert(data[i].subrange(0, k as int) + data[i].subrange(k as int, w) =~= data[i]);
    }
    assert forall|i: int| 0 <= i < data.len() implies #[trigger] d2[i] + t2[i] == data[i] by {
        assert(d2[i] == data[i].subrange(0, w - k));
        assert(t2[i] == data[i].subrange(w - k, w));
        assert(data[i].subrange(0, w - k) + data[i].subrange(w - k, w) =~= data[i]);
    }
}

} // verus!
