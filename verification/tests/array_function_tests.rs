use ironcalc_base::lookup_and_reference::choosecols_chooserows::{fn_choosecols, fn_chooserows};
use ironcalc_base::lookup_and_reference::drop_take::{fn_drop, fn_take};
use ironcalc_base::lookup_and_reference::expand::fn_expand;
use ironcalc_base::lookup_and_reference::hstack_vstack::{fn_hstack, fn_vstack};
use ironcalc_base::lookup_and_reference::tocol_torow::{fn_tocol, fn_torow};
use ironcalc_base::lookup_and_reference::transpose::fn_transpose;
use ironcalc_base::lookup_and_reference::wrapcols_wraprows::{fn_wrapcols, fn_wraprows};
use ironcalc_base::types::{ArrayValue, CalcError, Error};

fn square() -> Vec<Vec<i64>> {
    vec![vec![1, 2, 3], vec![4, 5, 6], vec![7, 8, 9]]
}

fn error_of<T: std::fmt::Debug>(r: Result<T, CalcError>) -> (Error, String) {
    let e = r.unwrap_err();
    (e.error, e.message)
}

#[test]
fn take_first_rows() {
    assert_eq!(fn_take(&square(), 2, None).ok().unwrap(), vec![vec![1, 2, 3], vec![4, 5, 6]]);
}

#[test]
fn take_last_rows_and_columns() {
    assert_eq!(fn_take(&square(), -1, Some(-2)).ok().unwrap(), vec![vec![8, 9]]);
    assert_eq!(fn_take(&square(), 10, Some(1)).ok().unwrap(), vec![vec![1], vec![4], vec![7]]);
}

#[test]
fn take_rejects_zero_counts() {
    assert_eq!(error_of(fn_take(&square(), 0, None)), (Error::CALC, "rows cannot be 0".to_string()));
    assert_eq!(error_of(fn_take(&square(), 1, Some(0))), (Error::CALC, "cols cannot be 0".to_string()));
}

#[test]
fn take_of_empty_array_is_empty() {
    let empty: Vec<Vec<i64>> = vec![];
    assert_eq!(fn_take(&empty, 0, None).ok().unwrap(), empty);
}

#[test]
fn drop_first_and_last() {
    assert_eq!(fn_drop(&square(), 1, None).ok().unwrap(), vec![vec![4, 5, 6], vec![7, 8, 9]]);
    assert_eq!(fn_drop(&square(), -1, Some(1)).ok().unwrap(), vec![vec![2, 3], vec![5, 6]]);
    assert_eq!(fn_drop(&square(), 0, None).ok().unwrap(), square());
}

#[test]
fn drop_everything_is_an_error() {
    assert_eq!(error_of(fn_drop(&square(), 3, None)), (Error::CALC, "DROP returned empty array".to_string()));
    assert_eq!(error_of(fn_drop(&square(), 0, Some(-5))), (Error::CALC, "DROP returned empty array".to_string()));
}

#[test]
fn choosecols_selects_and_reorders() {
    assert_eq!(fn_choosecols(&square(), &vec![3, 1]).ok().unwrap(), vec![vec![3, 1], vec![6, 4], vec![9, 7]]);
    assert_eq!(fn_choosecols(&square(), &vec![-1]).ok().unwrap(), vec![vec![3], vec![6], vec![9]]);
}

#[test]
fn choosecols_rejects_out_of_range() {
    let expected = (Error::VALUE, "Column number out of range".to_string());
    assert_eq!(error_of(fn_choosecols(&square(), &vec![0])), expected);
    assert_eq!(error_of(fn_choosecols(&square(), &vec![1, 4])), expected);
    assert_eq!(error_of(fn_choosecols(&square(), &vec![-4])), expected);
}

#[test]
fn chooserows_selects_and_reorders() {
    assert_eq!(fn_chooserows(&square(), &vec![-1, 1, 1]).ok().unwrap(), vec![vec![7, 8, 9], vec![1, 2, 3], vec![1, 2, 3]]);
    assert_eq!(error_of(fn_chooserows(&square(), &vec![4])), (Error::VALUE, "Row number out of range".to_string()));
}

#[test]
fn expand_pads_with_the_value() {
    let data = vec![vec![1, 2], vec![3, 4]];
    assert_eq!(fn_expand(&data, 3, Some(3), 0).ok().unwrap(), vec![vec![1, 2, 0], vec![3, 4, 0], vec![0, 0, 0]]);
    assert_eq!(fn_expand(&data, 3, None, -1).ok().unwrap(), vec![vec![1, 2], vec![3, 4], vec![-1, -1]]);
}

#[test]
fn expand_cannot_shrink() {
    let data = vec![vec![1, 2], vec![3, 4]];
    assert_eq!(error_of(fn_expand(&data, 1, None, 0)), (Error::VALUE, "rows must be >= array row count".to_string()));
    assert_eq!(
        error_of(fn_expand(&data, 2, Some(1), 0)),
        (Error::VALUE, "columns must be >= array column count".to_string())
    );
}

#[test]
fn transpose_swaps_rows_and_columns() {
    let data = vec![vec![1, 2, 3], vec![4, 5, 6]];
    assert_eq!(fn_transpose(&data), vec![vec![1, 4], vec![2, 5], vec![3, 6]]);
}

#[test]
fn transpose_twice_gives_back_the_array() {
    let data = vec![vec![1, 2, 3], vec![4, 5, 6]];
    assert_eq!(fn_transpose(&fn_transpose(&data)), data);
}

#[test]
fn hstack_pads_shorter_arrays() {
    let a = vec![vec![1], vec![2]];
    let b = vec![vec![3, 4]];
    assert_eq!(fn_hstack(&vec![a, b], 0), vec![vec![1, 3, 4], vec![2, 0, 0]]);
}

#[test]
fn vstack_pads_narrower_arrays() {
    let a = vec![vec![1, 2]];
    let b = vec![vec![3]];
    assert_eq!(fn_vstack(&vec![a, b], 0), vec![vec![1, 2], vec![3, 0]]);
}

fn values() -> Vec<Vec<ArrayValue<i64>>> {
    vec![
        vec![ArrayValue::Value(1), ArrayValue::Empty],
        vec![ArrayValue::Error(Error::DIV), ArrayValue::Value(4)],
    ]
}

#[test]
fn tocol_by_rows_and_by_columns() {
    let by_rows = fn_tocol(&values(), 0, false).ok().unwrap();
    assert_eq!(
        by_rows,
        vec![
            vec![ArrayValue::Value(1)],
            vec![ArrayValue::Empty],
            vec![ArrayValue::Error(Error::DIV)],
            vec![ArrayValue::Value(4)],
        ]
    );
    let by_cols = fn_tocol(&values(), 0, true).ok().unwrap();
    assert_eq!(by_cols[1], vec![ArrayValue::Error(Error::DIV)]);
}

#[test]
fn torow_ignores_blanks_and_errors() {
    assert_eq!(
        fn_torow(&values(), 1, false).ok().unwrap(),
        vec![vec![ArrayValue::Value(1), ArrayValue::Error(Error::DIV), ArrayValue::Value(4)]]
    );
    assert_eq!(
        fn_torow(&values(), 2, false).ok().unwrap(),
        vec![vec![ArrayValue::Value(1), ArrayValue::Empty, ArrayValue::Value(4)]]
    );
    assert_eq!(fn_torow(&values(), 3, false).ok().unwrap(), vec![vec![ArrayValue::Value(1), ArrayValue::Value(4)]]);
}

#[test]
fn tocol_errors() {
    assert_eq!(error_of(fn_tocol(&values(), 4, false)), (Error::VALUE, "ignore must be 0, 1, 2, or 3".to_string()));
    let blanks: Vec<Vec<ArrayValue<i64>>> = vec![vec![ArrayValue::Empty]];
    assert_eq!(error_of(fn_tocol(&blanks, 1, false)), (Error::CALC, "TOCOL/TOROW returned empty array".to_string()));
}

#[test]
fn wraprows_and_wrapcols() {
    let row = vec![vec![1, 2, 3, 4, 5]];
    assert_eq!(fn_wraprows(&row, 2, 0).ok().unwrap(), vec![vec![1, 2], vec![3, 4], vec![5, 0]]);
    assert_eq!(fn_wrapcols(&row, 2, 0).ok().unwrap(), vec![vec![1, 3, 5], vec![2, 4, 0]]);
    let column = vec![vec![1], vec![2], vec![3]];
    assert_eq!(fn_wraprows(&column, 3, 0).ok().unwrap(), vec![vec![1, 2, 3]]);
}

#[test]
fn wrapcols_is_transposed_wraprows() {
    let row = vec![vec![1, 2, 3, 4, 5, 6, 7]];
    let cols = fn_wrapcols(&row, 3, 0).ok().unwrap();
    let rows = fn_wraprows(&row, 3, 0).ok().unwrap();
    assert_eq!(cols, fn_transpose(&rows));
}

#[test]
fn wrap_errors() {
    assert_eq!(error_of(fn_wraprows(&square(), 2, 0)), (Error::VALUE, "First argument must be a 1-D vector".to_string()));
    assert_eq!(error_of(fn_wrapcols(&vec![vec![1, 2]], 0, 0)), (Error::VALUE, "wrap_count must be >= 1".to_string()));
}

#[test]
fn take_and_drop_split_the_rows() {
    let data = square();
    for n in 1..3i64 {
        let mut rows = fn_take(&data, n, None).ok().unwrap();
        rows.extend(fn_drop(&data, n, None).ok().unwrap());
        assert_eq!(rows, data);
    }
}

#[test]
fn take_gives_back_what_expand_padded() {
    let data = vec![vec![1, 2], vec![3, 4]];
    let expanded = fn_expand(&data, 4, Some(5), 0).ok().unwrap();
    assert_eq!(fn_take(&expanded, 2, Some(2)).ok().unwrap(), data);
}

#[test]
fn torow_is_the_transposed_tocol() {
    let col = fn_tocol(&values(), 1, true).ok().unwrap();
    let row = fn_torow(&values(), 1, true).ok().unwrap();
    assert_eq!(fn_transpose(&col), row);
}

#[test]
fn drop_then_take_from_the_end_rebuilds_the_rows() {
    let a = square();
    let mut rows = fn_drop(&a, -1, None).ok().unwrap();
    rows.extend(fn_take(&a, -1, None).ok().unwrap());
    assert_eq!(rows, a);
}

#[test]
fn dropping_every_row_is_an_error() {
    let a = square();
    assert_eq!(error_of(fn_drop(&a, 3, None)), (Error::CALC, "DROP returned empty array".to_string()));
    assert_eq!(error_of(fn_drop(&a, -5, Some(1))), (Error::CALC, "DROP returned empty array".to_string()));
}
