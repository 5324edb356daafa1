use ironcalc_base::statistical::criteria_ranges::{countifs_case_count, criteria_ranges, ifs_case_count, RangeArgument};
use ironcalc_base::statistical::count_and_average::{fn_count, fn_counta, fn_countblank, CellContent, CountArgument};
use ironcalc_base::statistical::frequency::frequency_counts;
use ironcalc_base::statistical::mode_functions::{find_modes, fn_mode_mult, fn_mode_sngl};
use ironcalc_base::statistical::rank_eq_avg::{fn_rank_avg, fn_rank_eq, rank_tally};
use ironcalc_base::types::{CalcError, Error};

fn error_of<T: std::fmt::Debug>(r: Result<T, CalcError>) -> (Error, String) {
    let e = r.unwrap_err();
    (e.error, e.message)
}

fn arguments() -> Vec<CountArgument> {
    vec![
        CountArgument::Value { content: CellContent::Number, from_reference: false },
        CountArgument::Value { content: CellContent::Boolean, from_reference: false },
        CountArgument::Value { content: CellContent::Boolean, from_reference: true },
        CountArgument::Value { content: CellContent::Text { empty: false, numeric: true }, from_reference: false },
        CountArgument::Range {
            same_sheet: true,
            cells: vec![
                CellContent::Number,
                CellContent::Text { empty: true, numeric: false },
                CellContent::Empty,
                CellContent::Boolean,
            ],
        },
    ]
}

#[test]
fn count_counts_numbers() {
    assert_eq!(fn_count(&arguments()).ok(), Some(4));
}

#[test]
fn counta_counts_non_empty_values() {
    assert_eq!(fn_counta(&arguments()).ok(), Some(7));
}

#[test]
fn countblank_counts_empty_cells_and_texts() {
    assert_eq!(fn_countblank(&arguments()).ok(), Some(2));
}

#[test]
fn counting_rejects_ranges_across_sheets() {
    let args = vec![CountArgument::Range { same_sheet: false, cells: vec![] }];
    let expected = (Error::VALUE, "Ranges are in different sheets".to_string());
    assert_eq!(error_of(fn_count(&args)), expected);
    assert_eq!(error_of(fn_counta(&args)), expected);
    assert_eq!(error_of(fn_countblank(&args)), expected);
}

#[test]
fn counta_and_countblank_cover_a_range() {
    let cells = vec![
        CellContent::Number,
        CellContent::Empty,
        CellContent::Text { empty: true, numeric: false },
        CellContent::Error,
        CellContent::Empty,
    ];
    let args = vec![CountArgument::Range { same_sheet: true, cells: cells.clone() }];
    let a = fn_counta(&args).ok().unwrap();
    let b = fn_countblank(&args).ok().unwrap();
    // The empty text is counted by both.
    assert_eq!(a + b, cells.len() as u64 + 1);
}

#[test]
fn frequency_bins_in_given_order() {
    let data = vec![79, 85, 78, 85, 50, 81, 95, 88, 97];
    let bins = vec![70, 79, 89];
    assert_eq!(frequency_counts(&data, &bins), vec![1, 2, 4, 2]);
}

#[test]
fn frequency_with_unsorted_and_repeated_bins() {
    let data = vec![1, 2, 3, 4, 5];
    let bins = vec![4, 2, 4];
    // (.., 2] holds 1 and 2; (2, 4] holds 3 and 4 and goes to the first 4.
    assert_eq!(frequency_counts(&data, &bins), vec![2, 2, 0, 1]);
}

#[test]
fn frequency_without_bins_counts_everything() {
    assert_eq!(frequency_counts(&vec![3, 1, 2], &vec![]), vec![3]);
    assert_eq!(frequency_counts(&vec![], &vec![1, 2]), vec![0, 0, 0]);
}

#[test]
fn frequency_counts_add_up() {
    let data = vec![-5, 0, 3, 3, 8, 12, 40, -1];
    let bins = vec![10, -2, 3];
    let counts = frequency_counts(&data, &bins);
    assert_eq!(counts.iter().sum::<usize>(), data.len());
}

#[test]
fn modes_in_first_seen_order() {
    let values = vec![3, 1, 1, 3, 2];
    assert_eq!(find_modes(&values), (vec![3, 1], 2));
    assert_eq!(fn_mode_sngl(&values).ok(), Some(3));
    assert_eq!(fn_mode_mult(&values).ok(), Some(vec![3, 1]));
}

#[test]
fn modes_with_one_winner() {
    let values = vec![5, 7, 7, 7, 5];
    assert_eq!(fn_mode_mult(&values).ok(), Some(vec![7]));
    assert_eq!(find_modes(&values).1, 3);
}

#[test]
fn modes_errors() {
    assert_eq!(error_of(fn_mode_sngl(&vec![])), (Error::NA, "MODE.SNGL: no numeric values".to_string()));
    assert_eq!(error_of(fn_mode_mult(&vec![])), (Error::NA, "MODE.MULT: no numeric values".to_string()));
    assert_eq!(
        error_of(fn_mode_sngl(&vec![1, 2, 3])),
        (Error::NA, "MODE.SNGL: no value appears more than once".to_string())
    );
    assert_eq!(
        error_of(fn_mode_mult(&vec![1, 2, 3])),
        (Error::NA, "MODE.MULT: no value appears more than once".to_string())
    );
}

#[test]
fn modes_of_float_bit_patterns() {
    let values: Vec<u64> = [1.5f64, 2.0, 1.5, 2.0, 3.0].iter().map(|x| x.to_bits()).collect();
    let (modes, count) = find_modes(&values);
    let as_floats: Vec<f64> = modes.iter().map(|b| f64::from_bits(*b)).collect();
    assert_eq!(as_floats, vec![1.5, 2.0]);
    assert_eq!(count, 2);
}

#[test]
fn rank_descending_and_ascending() {
    let values = vec![Some(7), Some(3), Some(3), Some(1), None];
    assert_eq!(rank_tally(Some(3), &values, true), (1, 2));
    assert_eq!(fn_rank_eq(Some(3), &values, true).ok(), Some(2));
    assert_eq!(fn_rank_eq(Some(3), &values, false).ok(), Some(2));
    assert_eq!(fn_rank_eq(Some(7), &values, false).ok(), Some(4));
    assert_eq!(fn_rank_avg(Some(3), &values, true).ok(), Some((1, 2)));
}

#[test]
fn rank_errors() {
    assert_eq!(error_of(fn_rank_eq(Some(1), &vec![], true)), (Error::NUM, "No numeric values for RANK.EQ".to_string()));
    assert_eq!(error_of(fn_rank_avg(Some(1), &vec![], true)), (Error::NUM, "No numeric values for RANK.AVG".to_string()));
    assert_eq!(
        error_of(fn_rank_eq(Some(5), &vec![Some(1), None], true)),
        (Error::NA, "Number not found in reference for RANK.EQ".to_string())
    );
    assert_eq!(
        error_of(fn_rank_avg(None, &vec![None], true)),
        (Error::NA, "Number not found in reference for RANK.AVG".to_string())
    );
}

use ironcalc_base::statistical::large_small::{fn_large, fn_small, kth_position};

#[test]
fn large_and_small_positions() {
    let values = vec![3, 9, 1, 9, 4];
    assert_eq!(fn_large(&values, 1).ok(), Some(1));
    assert_eq!(fn_large(&values, 2).ok(), Some(1));
    assert_eq!(fn_large(&values, 3).ok(), Some(4));
    assert_eq!(fn_small(&values, 1).ok(), Some(2));
    assert_eq!(fn_small(&values, 5).ok(), Some(1));
}

#[test]
fn kth_position_matches_sorting() {
    let values = vec![5, -2, 7, 7, 0, 5, 3];
    let mut sorted = values.clone();
    sorted.sort();
    for k in 1..=values.len() {
        assert_eq!(values[kth_position(&values, k, false)], sorted[k - 1]);
        assert_eq!(values[kth_position(&values, k, true)], sorted[values.len() - k]);
    }
}

#[test]
fn large_and_small_errors() {
    let values = vec![1, 2];
    assert_eq!(error_of(fn_large(&values, 0)), (Error::NUM, "K must be >= 1".to_string()));
    assert_eq!(error_of(fn_small(&vec![], 1)), (Error::NUM, "No numeric values for SMALL".to_string()));
    assert_eq!(error_of(fn_large(&vec![], 1)), (Error::NUM, "No numeric values for LARGE".to_string()));
    assert_eq!(
        error_of(fn_small(&values, 3)),
        (Error::NUM, "K is larger than the number of data points".to_string())
    );
}

use ironcalc_base::statistical::countifs::{countifs_extent, countifs_total};
use ironcalc_base::types::{CellReferenceIndex, Range, LAST_COLUMN, LAST_ROW};

fn sheet_range(r1: i32, c1: i32, r2: i32, c2: i32) -> Range {
    Range {
        left: CellReferenceIndex { sheet: 0, row: r1, column: c1 },
        right: CellReferenceIndex { sheet: 0, row: r2, column: c2 },
    }
}

#[test]
fn countifs_on_a_bounded_range() {
    let first = sheet_range(1, 1, 2, 2);
    assert_eq!(countifs_extent(first, 10, 10), (2, 2));
    let matched = vec![vec![true, false], vec![true, true]];
    assert_eq!(countifs_total(first, 10, 10, true, &matched), 3);
    assert_eq!(countifs_total(first, 10, 10, false, &matched), 3);
}

#[test]
fn countifs_on_whole_columns() {
    let first = sheet_range(1, 1, LAST_ROW, 1);
    assert_eq!(countifs_extent(first, 3, 5), (3, 1));
    let matched = vec![vec![true], vec![false], vec![true]];
    assert_eq!(countifs_total(first, 3, 5, false, &matched), 2);
    assert_eq!(countifs_total(first, 3, 5, true, &matched), 2 + (LAST_ROW as u64 - 3));
}

#[test]
fn countifs_on_whole_rows() {
    let first = sheet_range(1, 1, 1, LAST_COLUMN);
    assert_eq!(countifs_extent(first, 9, 4), (1, 4));
    let matched = vec![vec![true, true, false, false]];
    assert_eq!(countifs_total(first, 9, 4, true, &matched), 2 + (LAST_COLUMN as u64 - 4));
    assert_eq!(countifs_total(first, 9, 4, false, &matched), 2);
}

#[test]
fn countifs_shortcut_equals_counting_every_cell() {
    // Whole rows and columns of a sheet used up to row 1048575 and column 2.
    let first = sheet_range(1, 1, LAST_ROW, LAST_COLUMN);
    let (rows, cols) = countifs_extent(first, LAST_ROW - 1, 2);
    assert_eq!((rows, cols), (LAST_ROW as usize - 1, 2));
    let matched: Vec<Vec<bool>> = (0..rows).map(|r| vec![r % 2 == 0, false]).collect();
    let read = ((rows + 1) / 2) as u64;
    let total = countifs_total(first, LAST_ROW - 1, 2, true, &matched);
    let unread = rows as u64 * (LAST_COLUMN as u64 - 2) + LAST_COLUMN as u64;
    assert_eq!(total, read + unread);
}

use ironcalc_base::model_util::Model;
use ironcalc_base::statistical::ifs::{ifs_values, IfsValue};
use ironcalc_base::types::WorksheetDimension;

fn one_sheet() -> Model {
    Model { worksheets: vec![WorksheetDimension { min_row: 1, max_row: 20, min_column: 1, max_column: 5 }] }
}

#[test]
fn ifs_extent_of_sum_ranges() {
    let model = one_sheet();
    assert_eq!(model.ifs_extent(sheet_range(1, 1, LAST_ROW, 1)).ok(), Some((20, 1)));
    assert_eq!(model.ifs_extent(sheet_range(2, 1, 3, LAST_COLUMN)).ok(), Some((3, 5)));
    assert_eq!(model.ifs_extent(sheet_range(2, 2, 7, 3)).ok(), Some((7, 3)));
    let other_sheet = Range {
        left: CellReferenceIndex { sheet: 3, row: 1, column: 1 },
        right: CellReferenceIndex { sheet: 3, row: LAST_ROW, column: 1 },
    };
    assert_eq!(error_of(model.ifs_extent(other_sheet)), (Error::ERROR, "Invalid worksheet index: '3'".to_string()));
}

#[test]
fn ifs_takes_numbers_of_matching_cells() {
    let matched = vec![true, false, true, true];
    let values = vec![
        IfsValue::Number(1.5),
        IfsValue::Error { error: Error::DIV, message: "skipped".to_string() },
        IfsValue::Other,
        IfsValue::Number(4.0),
    ];
    assert_eq!(ifs_values(&matched, &values).ok(), Some(vec![1.5, 4.0]));
}

#[test]
fn ifs_stops_at_a_matching_error() {
    let matched = vec![true, true, true];
    let values = vec![
        IfsValue::Number(1.0),
        IfsValue::Error { error: Error::NA, message: "boom".to_string() },
        IfsValue::Number(2.0),
    ];
    assert_eq!(error_of(ifs_values(&matched, &values)), (Error::NA, "boom".to_string()));
}

use ironcalc_base::statistical::large_small::median_positions;

#[test]
fn median_middle_positions() {
    let odd = vec![7, 1, 5];
    assert_eq!(median_positions(&odd).ok(), Some((2, 2)));
    let even = vec![4, 1, 3, 2];
    let (p, q) = median_positions(&even).ok().unwrap();
    assert_eq!((even[p], even[q]), (2, 3));
    assert_eq!(error_of(median_positions(&vec![])), (Error::NUM, "No numeric values for MEDIAN".to_string()));
}

#[test]
fn small_is_large_from_the_other_end() {
    let values = vec![8, -3, 8, 0, 5, 2];
    let n = values.len();
    for k in 1..=n {
        let p = fn_small(&values, k as i64).ok().unwrap();
        let q = fn_large(&values, (n + 1 - k) as i64).ok().unwrap();
        assert_eq!(values[p], values[q]);
    }
}

fn spanning_range(s1: u32, s2: u32) -> Range {
    Range {
        left: CellReferenceIndex { sheet: s1, row: 1, column: 1 },
        right: CellReferenceIndex { sheet: s2, row: 3, column: 1 },
    }
}

#[test]
fn criteria_ranges_are_checked_in_order() {
    let ok = vec![RangeArgument::Range(spanning_range(0, 0)), RangeArgument::Range(spanning_range(1, 1))];
    assert_eq!(criteria_ranges(&ok).ok(), Some(vec![spanning_range(0, 0), spanning_range(1, 1)]));
    let not_range = vec![RangeArgument::Range(spanning_range(0, 0)), RangeArgument::Other];
    assert_eq!(error_of(criteria_ranges(&not_range)), (Error::VALUE, "Expected a range".to_string()));
    let sheets = vec![RangeArgument::Range(spanning_range(0, 1)), RangeArgument::Other];
    assert_eq!(error_of(criteria_ranges(&sheets)), (Error::VALUE, "Ranges are in different sheets".to_string()));
    let passed = vec![
        RangeArgument::Error(CalcError { error: Error::NA, message: "Not found".to_string() }),
        RangeArgument::Range(spanning_range(0, 1)),
    ];
    assert_eq!(error_of(criteria_ranges(&passed)), (Error::NA, "Not found".to_string()));
}

#[test]
fn ifs_argument_counts() {
    assert_eq!(error_of(countifs_case_count(0)), (Error::ERROR, "Wrong number of arguments".to_string()));
    assert_eq!(error_of(countifs_case_count(3)), (Error::ERROR, "Wrong number of arguments".to_string()));
    assert_eq!(countifs_case_count(4).ok(), Some(2));
    assert_eq!(error_of(ifs_case_count(2)), (Error::ERROR, "Wrong number of arguments".to_string()));
    assert_eq!(error_of(ifs_case_count(4)), (Error::ERROR, "Wrong number of arguments".to_string()));
    assert_eq!(ifs_case_count(3).ok(), Some(1));
    assert_eq!(ifs_case_count(7).ok(), Some(3));
}

use ironcalc_base::statistical::value_walk::{stat_values, StatItem, StatKind, StatValue};

#[test]
fn dispersion_arguments_are_read() {
    let var = StatKind::Var { sample: true };
    let items = vec![StatItem::Number(2), StatItem::Boolean(true), StatItem::Text(Some(5)), StatItem::Ignored];
    assert_eq!(
        stat_values(var, 3, &items).ok(),
        Some(vec![StatValue::Number(2), StatValue::Logical(true), StatValue::Number(5)])
    );
    // AVEDEV and DEVSQ skip booleans and texts written in the formula
    assert_eq!(stat_values(StatKind::AveDev, 3, &items).ok(), Some(vec![StatValue::Number(2)]));
    let bad_text = vec![StatItem::Number(1), StatItem::Text(None)];
    assert_eq!(error_of(stat_values(var, 2, &bad_text)), (Error::VALUE, "Argument cannot be cast into number".to_string()));
    let array = vec![StatItem::ArrayStart, StatItem::Number(1), StatItem::Number(2)];
    assert_eq!(error_of(stat_values(var, 1, &array)), (Error::NIMPL, "Arrays not supported yet".to_string()));
    assert_eq!(stat_values(StatKind::DevSq, 1, &array).ok(), Some(vec![StatValue::Number(1), StatValue::Number(2)]));
    let array_error = vec![StatItem::ArrayStart, StatItem::Number(1), StatItem::ArrayError(Error::NA)];
    assert_eq!(error_of(stat_values(StatKind::DevSq, 1, &array_error)), (Error::NA, "Error in array".to_string()));
    let split: Vec<StatItem<i32>> = vec![StatItem::RangeStart { left_sheet: 0, right_sheet: 1 }];
    assert_eq!(error_of(stat_values(StatKind::AveDev, 1, &split)), (Error::VALUE, "Ranges are in different sheets".to_string()));
    let passed = vec![StatItem::Number(1), StatItem::ErrorValue(CalcError { error: Error::REF, message: "Invalid reference".to_string() })];
    assert_eq!(error_of(stat_values(StatKind::AveDev, 2, &passed)), (Error::REF, "Invalid reference".to_string()));
}

#[test]
fn dispersion_needs_enough_numbers() {
    let none: Vec<StatItem<i32>> = vec![];
    assert_eq!(error_of(stat_values(StatKind::DevSq, 0, &none)), (Error::ERROR, "Wrong number of arguments".to_string()));
    let one = vec![StatItem::Number(4)];
    assert_eq!(error_of(stat_values(StatKind::Var { sample: true }, 1, &one)), (Error::DIV, "Division by 0".to_string()));
    assert_eq!(stat_values(StatKind::Var { sample: false }, 1, &one).ok(), Some(vec![StatValue::Number(4)]));
    let skipped: Vec<StatItem<i32>> = vec![StatItem::Ignored, StatItem::Boolean(false)];
    assert_eq!(error_of(stat_values(StatKind::AveDev, 2, &skipped)), (Error::DIV, "AVEDEV with no numeric data".to_string()));
    assert_eq!(error_of(stat_values(StatKind::DevSq, 2, &skipped)), (Error::DIV, "DEVSQ with no numeric data".to_string()));
    assert_eq!(error_of(stat_values(StatKind::Var { sample: false }, 2, &vec![StatItem::<i32>::Ignored])), (Error::DIV, "Division by 0".to_string()));
}

use ironcalc_base::statistical::regression::{
    optional_flag, read_regression_cells, regression_arity, regression_matrix, regression_shape, OptionalFlag,
    RegressionCell, RegressionSource,
};

#[test]
fn regression_values_are_read() {
    let range = vec![vec![RegressionCell::Number(1), RegressionCell::Empty], vec![RegressionCell::Number(3), RegressionCell::Number(4)]];
    assert_eq!(read_regression_cells(true, &range).ok(), Some(vec![vec![Some(1), None], vec![Some(3), Some(4)]]));
    let text_in_range = vec![vec![RegressionCell::Number(1), RegressionCell::Other]];
    assert_eq!(
        error_of(read_regression_cells(true, &text_in_range)),
        (Error::VALUE, "Regression: non-numeric value in data range".to_string())
    );
    assert_eq!(read_regression_cells(false, &text_in_range).ok(), Some(vec![vec![Some(1), None]]));
    let errors = vec![
        vec![RegressionCell::Number(1), RegressionCell::Other],
        vec![RegressionCell::Error(CalcError { error: Error::DIV, message: "Divide by 0".to_string() })],
    ];
    assert_eq!(
        error_of(read_regression_cells(true, &errors)),
        (Error::VALUE, "Regression: non-numeric value in data range".to_string())
    );
    assert_eq!(error_of(read_regression_cells(false, &errors)), (Error::DIV, "Divide by 0".to_string()));
    assert_eq!(regression_matrix(&RegressionSource::Number(7)).ok(), Some(vec![vec![Some(7)]]));
    assert_eq!(regression_matrix::<i32>(&RegressionSource::Empty).ok(), Some(vec![]));
    assert_eq!(
        error_of(regression_matrix::<i32>(&RegressionSource::Other)),
        (Error::VALUE, "Expected numeric range or array".to_string())
    );
}

#[test]
fn regression_shapes_and_flags() {
    assert_eq!(
        error_of(regression_shape::<i32>(1, None)),
        (Error::VALUE, "Regression requires at least 2 data points".to_string())
    );
    assert_eq!(regression_shape::<i32>(3, None).ok(), Some(1));
    let x = vec![vec![Some(1), Some(2)], vec![Some(3), None], vec![None, None]];
    assert_eq!(regression_shape(3, Some(&x)).ok(), Some(2));
    assert_eq!(
        error_of(regression_shape(4, Some(&x))),
        (Error::REF, "Regression: known_y and known_x must have the same number of rows".to_string())
    );
    assert!(regression_arity(0).is_err());
    assert!(regression_arity(5).is_err());
    assert!(regression_arity(4).is_ok());
    assert_eq!(optional_flag(&OptionalFlag::Absent, true).ok(), Some(true));
    assert_eq!(optional_flag(&OptionalFlag::Number(false), true).ok(), Some(false));
    assert_eq!(optional_flag(&OptionalFlag::Boolean(true), false).ok(), Some(true));
    assert_eq!(optional_flag(&OptionalFlag::Other, false).ok(), Some(false));
    let e = OptionalFlag::Error(CalcError { error: Error::NA, message: "Not found".to_string() });
    assert_eq!(error_of(optional_flag(&e, true)), (Error::NA, "Not found".to_string()));
}

#[test]
fn plain_and_a_walks_differ_on_booleans_and_texts() {
    let items = vec![
        StatItem::RangeStart { left_sheet: 0, right_sheet: 0 },
        StatItem::Number(2),
        StatItem::CellBoolean(true),
        StatItem::CellText,
        StatItem::Ignored,
        StatItem::ArrayStart,
        StatItem::ArrayBoolean(false),
        StatItem::ArrayText,
    ];
    assert_eq!(stat_values(StatKind::Values, 2, &items).ok(), Some(vec![StatValue::Number(2), StatValue::Logical(false)]));
    assert_eq!(
        stat_values(StatKind::ValuesA, 2, &items).ok(),
        Some(vec![StatValue::Number(2), StatValue::Logical(true), StatValue::Zero, StatValue::Logical(false), StatValue::Zero])
    );
    assert_eq!(error_of(stat_values(StatKind::AverageA, 2, &items)), (Error::NIMPL, "Arrays not supported yet".to_string()));
    let unexpected = vec![StatItem::<i32>::UnexpectedRange];
    assert_eq!(error_of(stat_values(StatKind::Average, 1, &unexpected)), (Error::ERROR, "Unexpected Range".to_string()));
    assert_eq!(error_of(stat_values(StatKind::DevSq, 1, &unexpected)), (Error::DIV, "DEVSQ with no numeric data".to_string()));
}

#[test]
fn averagea_counts_referenced_texts_and_booleans() {
    let items = vec![StatItem::ReferencedText, StatItem::ReferencedBoolean(true), StatItem::Number(4)];
    assert_eq!(
        stat_values(StatKind::AverageA, 3, &items).ok(),
        Some(vec![StatValue::Zero, StatValue::Logical(true), StatValue::Number(4)])
    );
    assert_eq!(stat_values(StatKind::Average, 3, &items).ok(), Some(vec![StatValue::Number(4)]));
    let nothing = vec![StatItem::<i32>::ReferencedText];
    assert_eq!(error_of(stat_values(StatKind::Average, 1, &nothing)), (Error::DIV, "Division by Zero".to_string()));
    assert_eq!(stat_values(StatKind::Values, 1, &nothing).ok(), Some(vec![]));
}
