use ironcalc_base::lookup_and_reference::address_areas::{fn_address, fn_areas, number_to_column};
use ironcalc_base::lookup_and_reference::lookup_table::{
    check_area_num, choose_index, fn_index, index_array, index_arguments, IndexOutcome, IndexSource, fn_column, fn_columns, fn_offset, fn_row, fn_rows, formulatext_cell,
    index_effective_indices, index_from_array, index_in_range, IndexReference, IndexResult, LookupTable, TableCell,
};
use ironcalc_base::lookup_and_reference::xmatch::{
    fn_match_descending, fn_xmatch, linear_search, parse_match_mode, parse_search_mode, MatchMode, SearchMode,
    SearchValue,
};
use ironcalc_base::types::{CalcError, CellReferenceIndex, Error, Range};

fn cell(sheet: u32, row: i32, column: i32) -> CellReferenceIndex {
    CellReferenceIndex { sheet, row, column }
}

fn range(sheet: u32, r1: i32, c1: i32, r2: i32, c2: i32) -> Range {
    Range { left: cell(sheet, r1, c1), right: cell(sheet, r2, c2) }
}

fn error_of<T: std::fmt::Debug>(r: Result<T, CalcError>) -> (Error, String) {
    let e = r.unwrap_err();
    (e.error, e.message)
}

#[test]
fn address_a1_styles() {
    assert_eq!(fn_address(1, 1, 1, true, None).ok().unwrap(), "$A$1");
    assert_eq!(fn_address(2, 28, 2, true, None).ok().unwrap(), "AB$2");
    assert_eq!(fn_address(3, 4, 3, true, Some("Sheet1")).ok().unwrap(), "Sheet1!$D3");
    assert_eq!(fn_address(1, 1, 4, true, None).ok().unwrap(), "A1");
}

#[test]
fn address_r1c1_styles() {
    assert_eq!(fn_address(1, 1, 1, false, None).ok().unwrap(), "R1C1");
    assert_eq!(fn_address(2, 3, 4, false, None).ok().unwrap(), "R[2]C[3]");
    assert_eq!(fn_address(5, 6, 2, false, Some("'My Sheet'")).ok().unwrap(), "'My Sheet'!R5C[6]");
}

#[test]
fn address_errors() {
    assert_eq!(error_of(fn_address(0, 1, 1, true, None)), (Error::VALUE, "row_num must be >= 1".to_string()));
    assert_eq!(error_of(fn_address(1, 0, 1, true, None)), (Error::VALUE, "col_num must be >= 1".to_string()));
    assert_eq!(error_of(fn_address(1, 1, 5, true, None)), (Error::VALUE, "abs_num must be 1, 2, 3, or 4".to_string()));
    assert_eq!(error_of(fn_address(1, 16385, 1, true, None)), (Error::VALUE, "col_num out of range".to_string()));
}

#[test]
fn column_names() {
    assert_eq!(number_to_column(1), Some("A".to_string()));
    assert_eq!(number_to_column(26), Some("Z".to_string()));
    assert_eq!(number_to_column(27), Some("AA".to_string()));
    assert_eq!(number_to_column(16384), Some("XFD".to_string()));
    assert_eq!(number_to_column(0), None);
    assert_eq!(number_to_column(16385), None);
}

#[test]
fn areas_counts_one_area() {
    assert_eq!(fn_areas(Ok(())).ok(), Some(1));
    let e = fn_areas(Err(CalcError { error: Error::REF, message: "bad".to_string() })).unwrap_err();
    assert_eq!((e.error, e.message), (Error::REF, "bad".to_string()));
}

#[test]
fn offset_moves_and_resizes() {
    let r = range(0, 1, 1, 2, 2);
    assert_eq!(fn_offset(r, 1, 1, None, None).ok().unwrap(), range(0, 2, 2, 3, 3));
    assert_eq!(fn_offset(r, 0, 0, Some(3), Some(1)).ok().unwrap(), range(0, 1, 1, 3, 1));
    assert_eq!(fn_offset(r, 2, 0, Some(1), None).ok().unwrap(), range(0, 3, 1, 3, 2));
}

#[test]
fn offset_errors() {
    let r = range(0, 1, 1, 2, 2);
    assert_eq!(error_of(fn_offset(r, 0, 0, Some(0), None)), (Error::REF, "Invalid reference".to_string()));
    assert_eq!(
        error_of(fn_offset(r, 0, 0, Some(-1), None)),
        (Error::VALUE, "width and height cannot be negative".to_string())
    );
    assert_eq!(error_of(fn_offset(r, -1, 0, None, None)), (Error::REF, "Invalid reference".to_string()));
    assert_eq!(error_of(fn_offset(r, 0, 16383, None, None)), (Error::REF, "Invalid reference".to_string()));
}

#[test]
fn row_column_rows_columns() {
    let here = cell(0, 7, 9);
    let r = range(0, 2, 3, 5, 4);
    assert_eq!(fn_row(here, None), 7);
    assert_eq!(fn_row(here, Some(r)), 2);
    assert_eq!(fn_column(here, None), 9);
    assert_eq!(fn_column(here, Some(r)), 3);
    assert_eq!(fn_rows(r), 4);
    assert_eq!(fn_columns(r), 2);
}

#[test]
fn choose_picks_one_based() {
    assert_eq!(choose_index(2, 3).ok(), Some(2));
    assert_eq!(error_of(choose_index(0, 3)), (Error::VALUE, "Invalid index".to_string()));
    assert_eq!(error_of(choose_index(4, 3)), (Error::VALUE, "Invalid index".to_string()));
}

#[test]
fn index_area_number() {
    assert!(check_area_num(1).is_ok());
    assert_eq!(error_of(check_area_num(0)), (Error::VALUE, "Argument must be >= 1".to_string()));
    assert_eq!(error_of(check_area_num(2)), (Error::REF, "Area out of range".to_string()));
}

#[test]
fn index_two_argument_form_on_a_row() {
    assert_eq!(index_effective_indices(1, 3, 0, true), (0, 3));
    assert_eq!(index_effective_indices(4, 3, 0, true), (3, 0));
    assert_eq!(index_effective_indices(4, 3, 2, false), (3, 2));
}

#[test]
fn index_in_an_array() {
    let arr = vec![vec![1, 2], vec![3, 4]];
    match index_from_array(&arr, 2, 1) {
        Ok(IndexResult::Value(v)) => assert_eq!(v, 3),
        _ => panic!("expected a value"),
    }
    match index_from_array(&arr, 0, 2) {
        Ok(IndexResult::Array(a)) => assert_eq!(a, vec![vec![2], vec![4]]),
        _ => panic!("expected an array"),
    }
    match index_from_array(&arr, 3, 1) {
        Err(e) => assert_eq!((e.error, e.message), (Error::REF, "Wrong reference".to_string())),
        _ => panic!("expected an error"),
    }
}

#[test]
fn index_in_a_range() {
    let left = cell(0, 1, 1);
    let right = cell(0, 3, 2);
    assert_eq!(index_in_range(left, right, 2, 1, false).ok(), Some(IndexReference::Cell(cell(0, 2, 1))));
    assert_eq!(
        index_in_range(left, right, 0, 2, false).ok(),
        Some(IndexReference::Range(range(0, 1, 2, 3, 2)))
    );
    assert_eq!(error_of(index_in_range(left, right, 4, 1, false)), (Error::REF, "Wrong reference".to_string()));
}

#[test]
fn formulatext_needs_one_cell() {
    assert_eq!(formulatext_cell(range(1, 2, 2, 2, 2)).ok(), Some(cell(1, 2, 2)));
    let three_d = Range { left: cell(0, 1, 1), right: cell(1, 1, 1) };
    assert_eq!(error_of(formulatext_cell(three_d)), (Error::ERROR, "3D ranges not supported".to_string()));
    assert_eq!(
        error_of(formulatext_cell(range(0, 1, 1, 2, 1))),
        (Error::NIMPL, "argument must be a reference to a single cell".to_string())
    );
}

#[test]
fn lookup_table_cells() {
    let table: LookupTable<i64> = LookupTable::Range { left: cell(0, 2, 3), right: cell(0, 4, 5) };
    assert_eq!(table.rows(), 3);
    assert_eq!(table.columns(), 3);
    assert_eq!(table.get(1, 2), TableCell::Reference(cell(0, 3, 5)));
    let arr: LookupTable<i64> = LookupTable::Array(vec![vec![1, 2], vec![3, 4]]);
    assert_eq!(arr.first_row(), vec![TableCell::Value(1), TableCell::Value(2)]);
    assert_eq!(arr.first_column(), vec![TableCell::Value(1), TableCell::Value(3)]);
    assert_eq!(arr.get(1, 0), TableCell::Value(3));
}

#[test]
fn match_and_search_modes() {
    assert_eq!(parse_match_mode(0).ok(), Some(MatchMode::Exact));
    assert_eq!(parse_match_mode(3).ok(), Some(MatchMode::Regex));
    assert_eq!(error_of(parse_match_mode(4)), (Error::VALUE, "Invalid match_mode".to_string()));
    assert_eq!(parse_search_mode(-1).ok(), Some(SearchMode::LastToFirst));
    assert_eq!(error_of(parse_search_mode(0)), (Error::VALUE, "Invalid search_mode".to_string()));
}

fn ranked(ranks: &[i64]) -> Vec<SearchValue> {
    ranks.iter().map(|&rank| SearchValue { rank, text: None, is_text: false }).collect()
}

#[test]
fn xmatch_exact_both_directions() {
    let values = ranked(&[3, 1, 2, 1]);
    assert_eq!(fn_xmatch(1, None, &values, MatchMode::Exact, SearchMode::FirstToLast).ok(), Some(2));
    assert_eq!(fn_xmatch(1, None, &values, MatchMode::Exact, SearchMode::LastToFirst).ok(), Some(4));
    assert_eq!(
        error_of(fn_xmatch(7, None, &values, MatchMode::Exact, SearchMode::FirstToLast)),
        (Error::NA, "Not found".to_string())
    );
}

#[test]
fn xmatch_next_smaller_and_larger() {
    let values = ranked(&[3, 1, 5]);
    assert_eq!(fn_xmatch(4, None, &values, MatchMode::ExactMatchSmaller, SearchMode::FirstToLast).ok(), Some(1));
    assert_eq!(fn_xmatch(4, None, &values, MatchMode::ExactMatchLarger, SearchMode::FirstToLast).ok(), Some(3));
    assert_eq!(fn_xmatch(1, None, &values, MatchMode::ExactMatchLarger, SearchMode::FirstToLast).ok(), Some(2));
    assert_eq!(linear_search(0, None, &values, true, MatchMode::ExactMatchSmaller), None);
}

#[test]
fn xmatch_regular_expressions() {
    let values = vec![
        SearchValue { rank: 0, text: Some("apple".to_string()), is_text: true },
        SearchValue { rank: 1, text: None, is_text: false },
        SearchValue { rank: 2, text: Some("banana".to_string()), is_text: true },
        SearchValue { rank: 3, text: Some("blueberry".to_string()), is_text: true },
    ];
    assert_eq!(fn_xmatch(9, Some("^b"), &values, MatchMode::Regex, SearchMode::FirstToLast).ok(), Some(3));
    assert_eq!(fn_xmatch(9, Some("^b"), &values, MatchMode::Regex, SearchMode::LastToFirst).ok(), Some(4));
    assert_eq!(
        error_of(fn_xmatch(9, Some("^z"), &values, MatchMode::Regex, SearchMode::FirstToLast)),
        (Error::NA, "Not found".to_string())
    );
    assert_eq!(
        error_of(fn_xmatch(9, Some("("), &values, MatchMode::Regex, SearchMode::FirstToLast)),
        (Error::VALUE, "Invalid regular expression".to_string())
    );
}

#[test]
fn xmatch_binary_search_rejects_patterns() {
    let values = ranked(&[1, 2]);
    assert_eq!(
        error_of(fn_xmatch(1, Some("a*"), &values, MatchMode::Wildcard, SearchMode::BinaryAscending)),
        (Error::VALUE, "Wildcard/regex match cannot be used with binary search".to_string())
    );
}

#[test]
fn match_descending_counts_values_at_least_the_target() {
    let ranks = vec![5, 4, 3, 2, 1];
    assert_eq!(fn_match_descending(&ranks, 3).ok(), Some(3));
    assert_eq!(fn_match_descending(&ranks, 1).ok(), Some(5));
    assert_eq!(error_of(fn_match_descending(&ranks, 6)), (Error::NA, "Not found".to_string()));
}

use ironcalc_base::lookup_and_reference::lookup_table::{array_as_vector, range_vector_kind};

#[test]
fn ranges_read_as_vectors() {
    assert_eq!(range_vector_kind(cell(0, 1, 1), cell(0, 1, 5)).ok(), Some(false));
    assert_eq!(range_vector_kind(cell(0, 1, 2), cell(0, 7, 2)).ok(), Some(true));
    assert_eq!(
        error_of(range_vector_kind(cell(0, 1, 1), cell(0, 2, 2))),
        (Error::ERROR, "Argument must be a vector".to_string())
    );
}

#[test]
fn arrays_read_as_vectors() {
    assert_eq!(array_as_vector(&vec![vec![1, 2, 3]]).ok(), Some(vec![1, 2, 3]));
    assert_eq!(array_as_vector(&vec![vec![1], vec![2]]).ok(), Some(vec![1, 2]));
    assert_eq!(
        error_of(array_as_vector(&vec![vec![1, 2], vec![3, 4]])),
        (Error::ERROR, "Argument must be a vector".to_string())
    );
}

use ironcalc_base::lookup_and_reference::lookup_table::{hlookup_cell, lookup_array_cell, vlookup_cell};

#[test]
fn vlookup_reads_the_found_row() {
    let table: LookupTable<i64> = LookupTable::Range { left: cell(0, 2, 3), right: cell(0, 4, 5) };
    assert_eq!(vlookup_cell(&table, 2, Some(1)).ok(), Some(TableCell::Reference(cell(0, 3, 4))));
    assert_eq!(error_of(vlookup_cell(&table, 4, Some(1))), (Error::REF, "Invalid reference".to_string()));
    assert_eq!(error_of(vlookup_cell(&table, 0, None)), (Error::REF, "Invalid reference".to_string()));
    assert_eq!(error_of(vlookup_cell(&table, 1, None)), (Error::NA, "Not found".to_string()));
}

#[test]
fn hlookup_reads_the_found_column() {
    let table: LookupTable<i64> = LookupTable::Array(vec![vec![1, 2, 3], vec![4, 5, 6]]);
    assert_eq!(hlookup_cell(&table, 2, Some(2)).ok(), Some(TableCell::Value(6)));
    assert_eq!(error_of(hlookup_cell(&table, 3, Some(0))), (Error::REF, "Invalid reference".to_string()));
    assert_eq!(error_of(hlookup_cell(&table, 1, None)), (Error::NA, "Not found".to_string()));
}

#[test]
fn lookup_array_form_reads_the_last_row_or_column() {
    let wide: LookupTable<i64> = LookupTable::Array(vec![vec![1, 2, 3], vec![4, 5, 6]]);
    assert_eq!(lookup_array_cell(&wide, Some(1)).ok(), Some(TableCell::Value(5)));
    let tall: LookupTable<i64> = LookupTable::Array(vec![vec![1, 10], vec![2, 20], vec![3, 30]]);
    assert_eq!(lookup_array_cell(&tall, Some(2)).ok(), Some(TableCell::Value(30)));
    assert_eq!(error_of(lookup_array_cell(&tall, None)), (Error::NA, "Not found".to_string()));
}

use ironcalc_base::lookup_and_reference::xmatch::{binary_search_for, xmatch_binary_result, BinarySearch};

#[test]
fn xmatch_binary_search_choice() {
    assert_eq!(binary_search_for(MatchMode::ExactMatchLarger, SearchMode::BinaryAscending).ok(), Some(BinarySearch::OrGreater));
    assert_eq!(
        binary_search_for(MatchMode::ExactMatchLarger, SearchMode::BinaryDescending).ok(),
        Some(BinarySearch::DescendingOrGreater)
    );
    assert_eq!(binary_search_for(MatchMode::Exact, SearchMode::BinaryAscending).ok(), Some(BinarySearch::OrSmaller));
    assert_eq!(
        binary_search_for(MatchMode::ExactMatchSmaller, SearchMode::BinaryDescending).ok(),
        Some(BinarySearch::DescendingOrSmaller)
    );
    assert_eq!(
        error_of(binary_search_for(MatchMode::Regex, SearchMode::BinaryAscending)),
        (Error::VALUE, "Wildcard/regex match cannot be used with binary search".to_string())
    );
}

#[test]
fn xmatch_binary_search_results() {
    let values = ranked(&[1, 3, 5]);
    assert_eq!(xmatch_binary_result(3, &values, MatchMode::Exact, Some(1)).ok(), Some(2));
    assert_eq!(error_of(xmatch_binary_result(4, &values, MatchMode::Exact, Some(1))), (Error::NA, "Not found".to_string()));
    assert_eq!(xmatch_binary_result(4, &values, MatchMode::ExactMatchSmaller, Some(1)).ok(), Some(2));
    assert_eq!(error_of(xmatch_binary_result(9, &values, MatchMode::ExactMatchLarger, None)), (Error::NA, "Not found".to_string()));
}

use ironcalc_base::lookup_and_reference::xmatch::fn_match_exact;
use ironcalc_base::wildcard::wildcard_to_regex;

#[test]
fn wildcard_patterns_as_regular_expressions() {
    assert_eq!(wildcard_to_regex("a*b?c"), "^a.*b.c$");
    assert_eq!(wildcard_to_regex("~*x"), "^\\*x$");
    assert_eq!(wildcard_to_regex("~?"), "^\\?$");
    assert_eq!(wildcard_to_regex("1+1"), "^1\\+1$");
    assert_eq!(wildcard_to_regex("plain"), "^plain$");
}

fn fruit() -> Vec<SearchValue> {
    vec![
        SearchValue { rank: 5, text: Some("Apple".to_string()), is_text: true },
        SearchValue { rank: 6, text: Some("banana".to_string()), is_text: true },
        SearchValue { rank: 1, text: Some("12".to_string()), is_text: false },
        SearchValue { rank: 7, text: Some("BERRY".to_string()), is_text: true },
    ]
}

#[test]
fn xmatch_wildcards() {
    let values = fruit();
    assert_eq!(fn_xmatch(0, Some("b*"), &values, MatchMode::Wildcard, SearchMode::FirstToLast).ok(), Some(2));
    assert_eq!(fn_xmatch(0, Some("b*"), &values, MatchMode::Wildcard, SearchMode::LastToFirst).ok(), Some(4));
    assert_eq!(fn_xmatch(0, Some("APP?E"), &values, MatchMode::Wildcard, SearchMode::FirstToLast).ok(), Some(1));
    assert_eq!(
        error_of(fn_xmatch(0, Some("1*"), &values, MatchMode::Wildcard, SearchMode::FirstToLast)),
        (Error::NA, "Not found".to_string())
    );
    assert_eq!(fn_xmatch(1, None, &values, MatchMode::Wildcard, SearchMode::FirstToLast).ok(), Some(3));
}

#[test]
fn match_exact_uses_wildcards() {
    let values = fruit();
    assert_eq!(fn_match_exact(0, Some("*rr*"), &values).ok(), Some(4));
    assert_eq!(fn_match_exact(6, None, &values).ok(), Some(2));
    assert_eq!(error_of(fn_match_exact(0, Some("kiwi"), &values)), (Error::NA, "Not found".to_string()));
}

fn failure<T>(r: Result<T, CalcError>) -> (Error, String) {
    match r {
        Ok(_) => panic!("expected an error"),
        Err(e) => (e.error, e.message),
    }
}

#[test]
fn index_argument_checks() {
    assert_eq!(failure(index_arguments(1, 1, 1, 1)), (Error::ERROR, "Wrong number of arguments".to_string()));
    assert_eq!(failure(index_arguments(5, 1, 1, 1)), (Error::ERROR, "Wrong number of arguments".to_string()));
    assert_eq!(failure(index_arguments(4, 0, 1, 1)), (Error::VALUE, "Argument must be >= 1".to_string()));
    assert_eq!(failure(index_arguments(4, 2, 1, 1)), (Error::REF, "Area out of range".to_string()));
    assert_eq!(failure(index_arguments(3, 0, -1, 1)), (Error::VALUE, "Argument must be >= 0".to_string()));
    assert_eq!(failure(index_arguments(3, 0, 1, -1)), (Error::VALUE, "Argument must be >= 0".to_string()));
    // area_num is checked before the row, and ignored with fewer than four arguments
    assert_eq!(failure(index_arguments(4, 3, -1, 1)), (Error::REF, "Area out of range".to_string()));
    assert_eq!(index_arguments(3, 7, 2, 3).ok(), Some((2, 3, false)));
    // the column is not read in the two-argument form
    assert_eq!(index_arguments(2, 0, 4, -5).ok(), Some((4, 0, true)));
    assert_eq!(index_arguments(4, 1, 0, 0).ok(), Some((0, 0, false)));
}

#[test]
fn index_on_arrays() {
    let empty: Vec<Vec<i32>> = vec![];
    assert_eq!(failure(index_array(&empty, 1, 1, false)), (Error::REF, "Empty array".to_string()));
    let empty_row: Vec<Vec<i32>> = vec![vec![]];
    assert_eq!(failure(index_array(&empty_row, 1, 1, false)), (Error::REF, "Empty array".to_string()));
    let a = vec![vec![1, 2], vec![3, 4]];
    match index_array(&a, 2, 1, false) {
        Ok(IndexResult::Value(v)) => assert_eq!(v, 3),
        _ => panic!("expected a value"),
    }
    match index_array(&a, 0, 2, false) {
        Ok(IndexResult::Array(b)) => assert_eq!(b, vec![vec![2], vec![4]]),
        _ => panic!("expected an array"),
    }
    // two-argument form on a single row picks a column
    let row = vec![vec![5, 6, 7]];
    match index_array(&row, 3, 0, true) {
        Ok(IndexResult::Value(v)) => assert_eq!(v, 7),
        _ => panic!("expected a value"),
    }
    assert_eq!(failure(index_array(&a, 3, 1, false)), (Error::REF, "Wrong reference".to_string()));
    // only the selected rows are read
    let ragged = vec![vec![1, 2], vec![3]];
    match index_array(&ragged, 1, 2, false) {
        Ok(IndexResult::Value(v)) => assert_eq!(v, 2),
        _ => panic!("expected a value"),
    }
}

#[test]
fn index_dispatches_on_its_source() {
    let other: IndexSource<i32> = IndexSource::Other;
    assert_eq!(failure(fn_index(&other, 1, 1, false)), (Error::VALUE, "Expecting a Range".to_string()));
    let err: IndexSource<i32> = IndexSource::Error(CalcError { error: Error::DIV, message: "Divide by 0".to_string() });
    assert_eq!(failure(fn_index(&err, 1, 1, false)), (Error::DIV, "Divide by 0".to_string()));
    let src: IndexSource<i32> = IndexSource::Range { left: cell(0, 2, 2), right: cell(0, 4, 5) };
    match fn_index(&src, 2, 3, false) {
        Ok(IndexOutcome::Reference(IndexReference::Cell(c))) => assert_eq!(c, cell(0, 3, 4)),
        _ => panic!("expected a cell"),
    }
    let arr: IndexSource<i32> = IndexSource::Array(vec![vec![1, 2], vec![3, 4]]);
    match fn_index(&arr, 1, 2, false) {
        Ok(IndexOutcome::Selection(IndexResult::Value(v))) => assert_eq!(v, 2),
        _ => panic!("expected a value"),
    }
}

use ironcalc_base::value_order::{compare_values, order_ranks, OrderValue};

fn text(s: &str) -> OrderValue {
    OrderValue::Text(s.to_string())
}

#[test]
fn values_compare_across_kinds() {
    assert_eq!(compare_values(&OrderValue::Number(100), &text("a")), -1);
    assert_eq!(compare_values(&text("zzz"), &OrderValue::Boolean(false)), -1);
    assert_eq!(compare_values(&OrderValue::Boolean(true), &OrderValue::Error(Error::REF)), -1);
    assert_eq!(compare_values(&OrderValue::Error(Error::DIV), &OrderValue::Number(-5)), 1);
    assert_eq!(compare_values(&OrderValue::Boolean(false), &OrderValue::Boolean(true)), -1);
    assert_eq!(compare_values(&OrderValue::Number(3), &OrderValue::Number(3)), 0);
}

#[test]
fn texts_compare_without_case() {
    assert_eq!(compare_values(&text("ABC"), &text("abc")), 0);
    assert_eq!(compare_values(&text("abc"), &text("ABD")), -1);
    assert_eq!(compare_values(&text("ab"), &text("Abc")), -1);
    assert_eq!(compare_values(&text("b"), &text("A")), 1);
    assert_eq!(compare_values(&text(""), &text("")), 0);
}

#[test]
fn ranks_follow_the_order_of_values() {
    let values = vec![text("b"), OrderValue::Number(5), text("B"), OrderValue::Boolean(false), OrderValue::Number(-3)];
    assert_eq!(order_ranks(&values), vec![2, 1, 2, 4, 0]);
    let none: Vec<OrderValue> = vec![];
    assert_eq!(order_ranks(&none), Vec::<usize>::new());
}

#[test]
fn xmatch_on_ranked_values() {
    // the lookup value is ranked together with the searched values
    let mut values = vec![OrderValue::Number(1), text("Pear"), OrderValue::Boolean(true), text("apple")];
    values.push(text("PEAR"));
    let ranks = order_ranks(&values);
    let array: Vec<SearchValue> = ranks[..4]
        .iter()
        .zip(["", "Pear", "", "apple"])
        .enumerate()
        .map(|(i, (r, t))| SearchValue {
            rank: *r as i64,
            text: if i == 1 || i == 3 { Some(t.to_string()) } else { None },
            is_text: i == 1 || i == 3,
        })
        .collect();
    let target = ranks[4] as i64;
    assert_eq!(fn_xmatch(target, Some("PEAR"), &array, MatchMode::Exact, SearchMode::FirstToLast).ok(), Some(2));
    // a value between "pear" and the boolean: the next larger one is the boolean
    let pear = ranks[1] as i64;
    assert_eq!(fn_xmatch(pear + 1, None, &array, MatchMode::ExactMatchLarger, SearchMode::FirstToLast).ok(), Some(3));
}

use ironcalc_base::lookup_and_reference::xmatch::xmatch_binary_search;

#[test]
fn xmatch_binary_searches_find_the_boundary() {
    let up = ranked(&[1, 3, 3, 5, 7]);
    assert_eq!(xmatch_binary_search(BinarySearch::OrSmaller, 4, &up), Some(2));
    assert_eq!(xmatch_binary_search(BinarySearch::OrSmaller, 0, &up), None);
    assert_eq!(xmatch_binary_search(BinarySearch::OrSmaller, 9, &up), Some(4));
    assert_eq!(xmatch_binary_search(BinarySearch::OrGreater, 4, &up), Some(3));
    assert_eq!(xmatch_binary_search(BinarySearch::OrGreater, 3, &up), Some(1));
    assert_eq!(xmatch_binary_search(BinarySearch::OrGreater, 8, &up), None);
    let down = ranked(&[9, 6, 6, 2]);
    assert_eq!(xmatch_binary_search(BinarySearch::DescendingOrSmaller, 7, &down), Some(1));
    assert_eq!(xmatch_binary_search(BinarySearch::DescendingOrSmaller, 1, &down), None);
    assert_eq!(xmatch_binary_search(BinarySearch::DescendingOrGreater, 7, &down), Some(0));
    assert_eq!(xmatch_binary_search(BinarySearch::DescendingOrGreater, 10, &down), None);
    assert_eq!(xmatch_binary_search(BinarySearch::DescendingOrGreater, 6, &down), Some(2));
    let empty = ranked(&[]);
    assert_eq!(xmatch_binary_search(BinarySearch::OrGreater, 1, &empty), None);
}

#[test]
fn xmatch_in_binary_modes() {
    let up = ranked(&[1, 3, 5, 7]);
    assert_eq!(fn_xmatch(5, None, &up, MatchMode::Exact, SearchMode::BinaryAscending).ok(), Some(3));
    assert_eq!(error_of(fn_xmatch(4, None, &up, MatchMode::Exact, SearchMode::BinaryAscending)), (Error::NA, "Not found".to_string()));
    assert_eq!(fn_xmatch(4, None, &up, MatchMode::ExactMatchSmaller, SearchMode::BinaryAscending).ok(), Some(2));
    assert_eq!(fn_xmatch(4, None, &up, MatchMode::ExactMatchLarger, SearchMode::BinaryAscending).ok(), Some(3));
    assert_eq!(error_of(fn_xmatch(0, None, &up, MatchMode::ExactMatchSmaller, SearchMode::BinaryAscending)), (Error::NA, "Not found".to_string()));
    let down = ranked(&[7, 5, 3, 1]);
    assert_eq!(fn_xmatch(4, None, &down, MatchMode::ExactMatchSmaller, SearchMode::BinaryDescending).ok(), Some(3));
    assert_eq!(fn_xmatch(4, None, &down, MatchMode::ExactMatchLarger, SearchMode::BinaryDescending).ok(), Some(2));
    assert_eq!(fn_xmatch(7, None, &down, MatchMode::Exact, SearchMode::BinaryDescending).ok(), Some(1));
}

use ironcalc_base::wildcard::escape_regex;

#[test]
fn regex_meta_characters_are_escaped() {
    let text: Vec<char> = "a.b*(c)~".chars().collect();
    let escaped: String = escape_regex(&text).into_iter().collect();
    assert_eq!(escaped, "a\\.b\\*\\(c\\)\\~");
    assert_eq!(escaped, regex::escape("a.b*(c)~"));
}
