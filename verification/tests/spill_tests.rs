use ironcalc_base::spill_functions::{
    error_discriminant, fn_filter, fn_sort, fn_sortby, fn_unique, sort_key_compare, stable_sort_indices, CellKey,
    SortByKey, SortKey,
};
use ironcalc_base::types::{CalcError, Error};

fn error_of<T: std::fmt::Debug>(r: Result<T, CalcError>) -> (Error, String) {
    let e = r.unwrap_err();
    (e.error, e.message)
}

fn keys_of(data: &Vec<Vec<i64>>) -> Vec<Vec<SortKey>> {
    data.iter().map(|row| row.iter().map(|&v| SortKey::Ranked(v)).collect()).collect()
}

#[test]
fn sort_key_order() {
    assert_eq!(sort_key_compare(SortKey::Ranked(1), SortKey::Ranked(2), true), -1);
    assert_eq!(sort_key_compare(SortKey::Ranked(1), SortKey::Ranked(2), false), 1);
    assert_eq!(sort_key_compare(SortKey::Ranked(2), SortKey::Ranked(2), false), 0);
    assert_eq!(sort_key_compare(SortKey::Empty, SortKey::Ranked(2), true), 1);
    assert_eq!(sort_key_compare(SortKey::Empty, SortKey::Ranked(2), false), 1);
    assert_eq!(sort_key_compare(SortKey::Ranked(2), SortKey::Empty, false), -1);
}

#[test]
fn stable_sort_keeps_ties_in_order() {
    let keys = vec![vec![SortKey::Ranked(2), SortKey::Ranked(1), SortKey::Ranked(2), SortKey::Empty, SortKey::Ranked(1)]];
    assert_eq!(stable_sort_indices(&keys, &vec![true], 5), vec![1, 4, 0, 2, 3]);
    assert_eq!(stable_sort_indices(&keys, &vec![false], 5), vec![0, 2, 1, 4, 3]);
}

#[test]
fn stable_sort_on_two_keys() {
    let keys = vec![
        vec![SortKey::Ranked(1), SortKey::Ranked(0), SortKey::Ranked(1)],
        vec![SortKey::Ranked(5), SortKey::Ranked(9), SortKey::Ranked(3)],
    ];
    assert_eq!(stable_sort_indices(&keys, &vec![true, true], 3), vec![1, 2, 0]);
    assert_eq!(stable_sort_indices(&keys, &vec![true, false], 3), vec![1, 0, 2]);
}

#[test]
fn sort_rows_by_a_column() {
    let data = vec![vec![30, 1], vec![10, 2], vec![20, 3]];
    let keys = keys_of(&data);
    assert_eq!(fn_sort(&data, &keys, 1, 1, false).ok().unwrap(), vec![vec![10, 2], vec![20, 3], vec![30, 1]]);
    assert_eq!(fn_sort(&data, &keys, 2, -1, false).ok().unwrap(), vec![vec![20, 3], vec![10, 2], vec![30, 1]]);
}

#[test]
fn sort_columns_by_a_row() {
    let data = vec![vec![3, 1, 2], vec![30, 10, 20]];
    let keys = keys_of(&data);
    assert_eq!(fn_sort(&data, &keys, 1, 1, true).ok().unwrap(), vec![vec![1, 2, 3], vec![10, 20, 30]]);
}

#[test]
fn sort_errors() {
    let data = vec![vec![3, 1], vec![2, 4]];
    let keys = keys_of(&data);
    assert_eq!(error_of(fn_sort(&data, &keys, 0, 1, false)), (Error::VALUE, "sort_index must be >= 1".to_string()));
    assert_eq!(error_of(fn_sort(&data, &keys, 1, 2, false)), (Error::VALUE, "sort_order must be 1 or -1".to_string()));
    assert_eq!(error_of(fn_sort(&data, &keys, 3, 1, false)), (Error::VALUE, "sort_index exceeds array width".to_string()));
    assert_eq!(error_of(fn_sort(&data, &keys, 3, 1, true)), (Error::VALUE, "sort_index exceeds array height".to_string()));
}

#[test]
fn sortby_with_two_keys() {
    let data = vec![vec![100], vec![200], vec![300]];
    let by = vec![
        SortByKey { by_array: vec![vec![SortKey::Ranked(2)], vec![SortKey::Ranked(1)], vec![SortKey::Ranked(2)]], order: None },
        SortByKey { by_array: vec![vec![SortKey::Ranked(1), SortKey::Ranked(2), SortKey::Ranked(3)]], order: Some(-1) },
    ];
    assert_eq!(fn_sortby(&data, &by).ok().unwrap(), vec![vec![200], vec![300], vec![100]]);
}

#[test]
fn sortby_errors() {
    let data = vec![vec![1], vec![2]];
    let short = vec![SortByKey { by_array: vec![vec![SortKey::Ranked(1)]], order: None }];
    assert_eq!(
        error_of(fn_sortby(&data, &short)),
        (Error::VALUE, "by_array1 must have the same number of rows as array".to_string())
    );
    let bad_order = vec![SortByKey { by_array: vec![vec![SortKey::Ranked(1)], vec![SortKey::Ranked(0)]], order: Some(0) }];
    assert_eq!(error_of(fn_sortby(&data, &bad_order)), (Error::VALUE, "sort_order must be 1 or -1".to_string()));
}

#[test]
fn filter_rows_and_columns() {
    let data = vec![vec![1, 2], vec![3, 4], vec![5, 6]];
    let rows = vec![vec![true], vec![false], vec![true]];
    assert_eq!(fn_filter(&data, &rows, None).ok().unwrap(), vec![vec![1, 2], vec![5, 6]]);
    let cols = vec![vec![false, true]];
    assert_eq!(fn_filter(&data, &cols, None).ok().unwrap(), vec![vec![2], vec![4], vec![6]]);
}

#[test]
fn filter_with_nothing_selected() {
    let data = vec![vec![1, 2], vec![3, 4], vec![5, 6]];
    let none = vec![vec![false], vec![false], vec![false]];
    assert_eq!(fn_filter(&data, &none, Some(-1)).ok().unwrap(), vec![vec![-1]]);
    assert_eq!(error_of(fn_filter(&data, &none, None)), (Error::CALC, "No data returned by FILTER".to_string()));
    // nothing selected among the columns either
    let row = vec![vec![1, 2, 3]];
    let no_columns = vec![vec![false, false, false]];
    assert_eq!(error_of(fn_filter(&row, &no_columns, None)), (Error::CALC, "No data returned by FILTER".to_string()));
    assert_eq!(fn_filter(&row, &no_columns, Some(0)).ok().unwrap(), vec![vec![0]]);
    let wrong = vec![vec![true, false, true, false]];
    assert_eq!(
        error_of(fn_filter(&data, &wrong, None)),
        (Error::VALUE, "include array dimensions must match array rows or columns".to_string())
    );
}

fn number_keys(data: &Vec<Vec<i64>>) -> Vec<Vec<CellKey>> {
    data.iter().map(|row| row.iter().map(|&v| CellKey::Number(v as u64)).collect()).collect()
}

#[test]
fn unique_rows() {
    let data = vec![vec![1, 2], vec![3, 4], vec![1, 2], vec![5, 6]];
    let keys = number_keys(&data);
    assert_eq!(fn_unique(&data, &keys, false, false).ok().unwrap(), vec![vec![1, 2], vec![3, 4], vec![5, 6]]);
    assert_eq!(fn_unique(&data, &keys, false, true).ok().unwrap(), vec![vec![3, 4], vec![5, 6]]);
}

#[test]
fn unique_columns() {
    let data = vec![vec![1, 2, 1], vec![3, 4, 3]];
    let keys = number_keys(&data);
    assert_eq!(fn_unique(&data, &keys, true, false).ok().unwrap(), vec![vec![1, 2], vec![3, 4]]);
    assert_eq!(fn_unique(&data, &keys, true, true).ok().unwrap(), vec![vec![2], vec![4]]);
}

#[test]
fn unique_finds_nothing() {
    let data = vec![vec![7], vec![7]];
    let keys = number_keys(&data);
    assert_eq!(error_of(fn_unique(&data, &keys, false, true)), (Error::CALC, "UNIQUE found no matching rows".to_string()));
    let cols = vec![vec![7, 7]];
    let ckeys = number_keys(&cols);
    assert_eq!(error_of(fn_unique(&cols, &ckeys, true, true)), (Error::CALC, "UNIQUE found no matching columns".to_string()));
}

#[test]
fn error_kinds_are_told_apart() {
    assert_eq!(error_discriminant(Error::REF), 0);
    assert_eq!(error_discriminant(Error::DIV), 3);
    assert_eq!(error_discriminant(Error::NULL), 11);
}
