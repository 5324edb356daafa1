use ironcalc_base::array_size::check_array_size;
use ironcalc_base::gcd_lcm::{fn_gcd, fn_lcm, GcdLcmItem};
use ironcalc_base::math_and_trigonometry::matrix::{coerce_row, fn_munit, to_square_matrix, NumberCell};
use ironcalc_base::math_and_trigonometry::mmult::mmult_operands;
use ironcalc_base::math_and_trigonometry::sequence::{randarray_dimension, sequence_dimension, sequence_layout};
use ironcalc_base::math_and_trigonometry::sumproduct::sumproduct_operand;
use ironcalc_base::types::{CalcError, Error};

fn error_of<T: std::fmt::Debug>(r: Result<T, CalcError>) -> (Error, String) {
    let e = r.unwrap_err();
    (e.error, e.message)
}

fn num(n: i64) -> GcdLcmItem {
    GcdLcmItem::Number { finite: true, truncated: n }
}

#[test]
fn gcd_of_numbers() {
    assert_eq!(fn_gcd(&vec![num(12), num(18)]).ok(), Some(6));
    assert_eq!(fn_gcd(&vec![num(0), num(5)]).ok(), Some(5));
    assert_eq!(fn_gcd(&vec![num(7)]).ok(), Some(7));
}

#[test]
fn lcm_of_numbers() {
    assert_eq!(fn_lcm(&vec![num(4), num(6)]).ok(), Some(12));
    assert_eq!(fn_lcm(&vec![num(3), num(0)]).ok(), Some(0));
}

#[test]
fn gcd_of_a_range_with_no_numbers_is_zero() {
    assert_eq!(fn_gcd(&vec![GcdLcmItem::RangeStart, GcdLcmItem::Ignored]).ok(), Some(0));
}

#[test]
fn gcd_errors() {
    assert_eq!(error_of(fn_gcd(&vec![])), (Error::ERROR, "Wrong number of arguments".to_string()));
    assert_eq!(error_of(fn_lcm(&vec![])), (Error::ERROR, "Wrong number of arguments".to_string()));
    assert_eq!(error_of(fn_gcd(&vec![GcdLcmItem::Ignored])), (Error::VALUE, "No valid numbers found".to_string()));
    assert_eq!(error_of(fn_gcd(&vec![num(-2)])), (Error::NUM, "GCD only accepts non-negative integers".to_string()));
    assert_eq!(error_of(fn_lcm(&vec![num(-2)])), (Error::NUM, "LCM only accepts non-negative integers".to_string()));
    assert_eq!(error_of(fn_gcd(&vec![GcdLcmItem::Number { finite: false, truncated: 0 }])), (Error::VALUE, "Non-finite number in GCD".to_string()));
    assert_eq!(error_of(fn_gcd(&vec![num(1 << 53)])), (Error::NUM, "Argument too large".to_string()));
    assert_eq!(error_of(fn_gcd(&vec![num(4), GcdLcmItem::NonNumericString])), (Error::VALUE, "Non-numeric string".to_string()));
    assert_eq!(error_of(fn_gcd(&vec![GcdLcmItem::Boolean])), (Error::VALUE, "Booleans not allowed in GCD".to_string()));
    assert_eq!(error_of(fn_gcd(&vec![GcdLcmItem::EmptyArgument])), (Error::NA, "Empty argument".to_string()));
    assert_eq!(error_of(fn_gcd(&vec![GcdLcmItem::ArrayError(Error::DIV)])), (Error::DIV, "Error in array".to_string()));
    assert_eq!(
        error_of(fn_gcd(&vec![GcdLcmItem::RangeInDifferentSheets])),
        (Error::VALUE, "Ranges are in different sheets".to_string())
    );
    assert_eq!(
        error_of(fn_gcd(&vec![GcdLcmItem::InvalidWorksheet(7)])),
        (Error::ERROR, "Invalid worksheet index: '7'".to_string())
    );
    let passed = GcdLcmItem::ErrorValue { error: Error::NAME, message: "unknown".to_string() };
    assert_eq!(error_of(fn_gcd(&vec![passed])), (Error::NAME, "unknown".to_string()));
}

#[test]
fn lcm_result_too_large() {
    let big = (1i64 << 52) + 1;
    assert_eq!(error_of(fn_lcm(&vec![num(big), num(2)])), (Error::NUM, "LCM result too large".to_string()));
}

#[test]
fn gcd_divides_and_lcm_is_a_multiple() {
    let g = fn_gcd(&vec![num(84), num(36), num(120)]).ok().unwrap();
    assert_eq!(g, 12);
    for n in [84, 36, 120] {
        assert_eq!(n % g, 0);
    }
    let l = fn_lcm(&vec![num(4), num(6), num(10)]).ok().unwrap();
    assert_eq!(l, 60);
    for n in [4, 6, 10] {
        assert_eq!(l % n, 0);
    }
}

#[test]
fn array_size_limits() {
    assert_eq!(check_array_size(10, 10), None);
    assert_eq!(check_array_size(1, 16385), Some((Error::VALUE, "columns exceeds sheet limit of 16384".to_string())));
    assert_eq!(check_array_size(1048577, 1), Some((Error::VALUE, "rows exceeds sheet limit of 1048576".to_string())));
    assert_eq!(
        check_array_size(1001, 1000),
        Some((Error::ERROR, "rows * columns exceeds matrix size limit of 1000000".to_string()))
    );
    assert_eq!(check_array_size(1000, 1000), None);
}

#[test]
fn munit_identity() {
    assert_eq!(fn_munit(3, 1.0, 0.0).ok().unwrap(), vec![vec![1.0, 0.0, 0.0], vec![0.0, 1.0, 0.0], vec![0.0, 0.0, 1.0]]);
    assert_eq!(error_of(fn_munit(0, 1.0, 0.0)), (Error::VALUE, "MUNIT requires a positive integer".to_string()));
    assert_eq!(error_of(fn_munit(-3, 1.0, 0.0)), (Error::VALUE, "MUNIT requires a positive integer".to_string()));
}

#[test]
fn coercion_of_a_row() {
    let row = vec![NumberCell::Number(2.5), NumberCell::Boolean(true), NumberCell::Boolean(false), NumberCell::Empty];
    assert_eq!(coerce_row(&row, 0.0, 1.0, "text", "error").ok().unwrap(), vec![2.5, 1.0, 0.0, 0.0]);
    let bad = vec![NumberCell::Number(1.0), NumberCell::Text, NumberCell::Error(Error::DIV)];
    assert_eq!(error_of(coerce_row(&bad, 0.0, 1.0, "text", "error")), (Error::VALUE, "text".to_string()));
}

#[test]
fn square_matrix_row_major() {
    let m = vec![
        vec![NumberCell::Number(1.0), NumberCell::Number(2.0)],
        vec![NumberCell::Boolean(true), NumberCell::Empty],
    ];
    assert_eq!(to_square_matrix(&m, 0.0, 1.0).ok().unwrap(), (2, vec![1.0, 2.0, 1.0, 0.0]));
}

#[test]
fn square_matrix_errors() {
    let empty: Vec<Vec<NumberCell<f64>>> = vec![];
    assert_eq!(error_of(to_square_matrix(&empty, 0.0, 1.0)), (Error::VALUE, "matrix must be non-empty".to_string()));
    let wide = vec![vec![NumberCell::Number(1.0), NumberCell::Number(2.0)]];
    assert_eq!(
        error_of(to_square_matrix(&wide, 0.0, 1.0)),
        (Error::VALUE, "MDETERM/MINVERSE requires a square matrix".to_string())
    );
    let text = vec![vec![NumberCell::Text]];
    assert_eq!(error_of(to_square_matrix(&text, 0.0, 1.0)), (Error::VALUE, "matrix requires numeric values".to_string()));
    let err = vec![vec![NumberCell::Error(Error::NA)]];
    assert_eq!(error_of(to_square_matrix(&err, 0.0, 1.0)), (Error::NA, "matrix received an error value".to_string()));
}

#[test]
fn mmult_operands_checks_shapes() {
    let a = vec![vec![NumberCell::Number(1.0), NumberCell::Number(2.0)]];
    let b = vec![vec![NumberCell::Number(3.0)], vec![NumberCell::Boolean(true)]];
    let (x, y) = mmult_operands(&a, &b, 0.0, 1.0).ok().unwrap();
    assert_eq!(x, vec![vec![1.0, 2.0]]);
    assert_eq!(y, vec![vec![3.0], vec![1.0]]);
    assert_eq!(
        error_of(mmult_operands(&a, &a, 0.0, 1.0)),
        (Error::VALUE, "MMULT dimension mismatch".to_string())
    );
    let empty: Vec<Vec<NumberCell<f64>>> = vec![];
    assert_eq!(error_of(mmult_operands(&empty, &b, 0.0, 1.0)), (Error::VALUE, "MMULT requires non-empty arrays".to_string()));
}

#[test]
fn mmult_operands_checks_values() {
    let ragged = vec![vec![NumberCell::Number(1.0)], vec![NumberCell::Number(2.0), NumberCell::Number(3.0)]];
    let b = vec![vec![NumberCell::Number(3.0)]];
    assert_eq!(error_of(mmult_operands(&ragged, &b, 0.0, 1.0)), (Error::VALUE, "MMULT array1 is not rectangular".to_string()));
    let a = vec![vec![NumberCell::Number(1.0)]];
    let b_ragged = vec![vec![NumberCell::Number(1.0), NumberCell::Number(2.0)]];
    assert!(mmult_operands(&a, &b_ragged, 0.0, 1.0).is_ok());
    let b_text = vec![vec![NumberCell::Text]];
    assert_eq!(error_of(mmult_operands(&a, &b_text, 0.0, 1.0)), (Error::VALUE, "MMULT requires numeric values".to_string()));
    let a_err = vec![vec![NumberCell::Error(Error::DIV)]];
    assert_eq!(error_of(mmult_operands(&a_err, &b_text, 0.0, 1.0)), (Error::DIV, "MMULT received an error value".to_string()));
}

#[test]
fn sumproduct_operands() {
    let first = vec![vec![NumberCell::Number(2.0), NumberCell::Text], vec![NumberCell::Boolean(true), NumberCell::Empty]];
    let ((rows, cols), v) = sumproduct_operand(None, &first, 0.0).ok().unwrap();
    assert_eq!((rows, cols), (2, 2));
    assert_eq!(v, vec![vec![2.0, 0.0], vec![0.0, 0.0]]);
    let other = vec![vec![NumberCell::Number(1.0)]];
    assert_eq!(
        error_of(sumproduct_operand(Some((2, 2)), &other, 0.0)),
        (Error::VALUE, "SUMPRODUCT: arrays must have the same dimensions".to_string())
    );
    let err = vec![vec![NumberCell::Error(Error::REF)]];
    assert_eq!(error_of(sumproduct_operand(Some((1, 1)), &err, 0.0)), (Error::REF, String::new()));
}

#[test]
fn sequence_dimensions() {
    assert_eq!(sequence_dimension(3, "rows must be >= 1").ok(), Some(3));
    assert_eq!(error_of(sequence_dimension(0, "rows must be >= 1")), (Error::CALC, "rows must be >= 1".to_string()));
    assert_eq!(error_of(sequence_dimension(-2, "columns must be >= 1")), (Error::VALUE, "columns must be >= 1".to_string()));
    assert_eq!(randarray_dimension(2, "cols must be >= 1").ok(), Some(2));
    assert_eq!(error_of(randarray_dimension(0, "cols must be >= 1")), (Error::VALUE, "cols must be >= 1".to_string()));
}

#[test]
fn sequence_positions_row_by_row() {
    assert_eq!(sequence_layout(2, 3), vec![vec![0, 1, 2], vec![3, 4, 5]]);
    assert_eq!(sequence_layout(1, 1), vec![vec![0]]);
}

use ironcalc_base::math_and_trigonometry::multinomial::{multinomial_values, MultinomialItem};
use ironcalc_base::mathematical_sum::{is_same_shape_or_1d, two_matrices_shape, MatrixArgument};
use ironcalc_base::types::CellReferenceIndex;

fn corner(sheet: u32, row: i32, column: i32) -> CellReferenceIndex {
    CellReferenceIndex { sheet, row, column }
}

#[test]
fn shapes_that_pair() {
    assert!(is_same_shape_or_1d(2, 3, 2, 3));
    assert!(is_same_shape_or_1d(1, 4, 4, 1));
    assert!(is_same_shape_or_1d(4, 1, 1, 4));
    assert!(!is_same_shape_or_1d(2, 2, 4, 1));
}

#[test]
fn two_matrices_shapes() {
    let col = MatrixArgument::Range { left: corner(0, 1, 1), right: corner(0, 3, 1) };
    let row = MatrixArgument::Array { rows: 1, columns: 3 };
    assert_eq!(two_matrices_shape(col, col).ok(), Some((3, 1)));
    assert_eq!(two_matrices_shape(row, col).ok(), Some((3, 1)));
    assert_eq!(two_matrices_shape(col, row).ok(), Some((3, 1)));
    assert_eq!(two_matrices_shape(row, row).ok(), Some((1, 3)));
}

#[test]
fn two_matrices_errors() {
    let a = MatrixArgument::Range { left: corner(0, 1, 1), right: corner(0, 2, 2) };
    let b = MatrixArgument::Range { left: corner(1, 1, 1), right: corner(1, 2, 2) };
    let c = MatrixArgument::Range { left: corner(0, 1, 1), right: corner(0, 3, 3) };
    let arr = MatrixArgument::Array { rows: 5, columns: 5 };
    assert_eq!(error_of(two_matrices_shape(a, b)), (Error::VALUE, "Ranges are in different sheets".to_string()));
    assert_eq!(error_of(two_matrices_shape(a, c)), (Error::VALUE, "Ranges must be of the same shape".to_string()));
    assert_eq!(error_of(two_matrices_shape(arr, a)), (Error::VALUE, "Array and range must be of the same shape".to_string()));
    assert_eq!(error_of(two_matrices_shape(a, arr)), (Error::VALUE, "Range and array must be of the same shape".to_string()));
    let small = MatrixArgument::Array { rows: 1, columns: 1 };
    assert_eq!(error_of(two_matrices_shape(arr, small)), (Error::VALUE, "Arrays must be of the same shape".to_string()));
    assert_eq!(
        error_of(two_matrices_shape(MatrixArgument::Other, a)),
        (Error::VALUE, "Both arguments must be ranges or arrays".to_string())
    );
}

#[test]
fn multinomial_counts() {
    let items = vec![
        MultinomialItem::Number { negative: false, truncated: 2 },
        MultinomialItem::Empty,
        MultinomialItem::Number { negative: false, truncated: 3 },
    ];
    assert_eq!(multinomial_values(&items).ok(), Some(vec![2, 0, 3]));
}

#[test]
fn multinomial_errors() {
    let negative = vec![MultinomialItem::Number { negative: true, truncated: 0 }];
    assert_eq!(error_of(multinomial_values(&negative)), (Error::NUM, "MULTINOMIAL requires non-negative values".to_string()));
    let text = vec![MultinomialItem::Number { negative: false, truncated: 1 }, MultinomialItem::NonNumeric];
    assert_eq!(error_of(multinomial_values(&text)), (Error::VALUE, "MULTINOMIAL requires numeric values".to_string()));
    let sheets = vec![MultinomialItem::RangeInDifferentSheets];
    assert_eq!(error_of(multinomial_values(&sheets)), (Error::VALUE, "Ranges are in different sheets".to_string()));
    let array_error = vec![MultinomialItem::ArrayError(Error::DIV), MultinomialItem::NonNumeric];
    assert_eq!(error_of(multinomial_values(&array_error)), (Error::DIV, String::new()));
    let passed = vec![MultinomialItem::ErrorValue { error: Error::NAME, message: "no such name".to_string() }];
    assert_eq!(error_of(multinomial_values(&passed)), (Error::NAME, "no such name".to_string()));
}

use ironcalc_base::statistical::permut::{permut_check, permutationa_check};

#[test]
fn permut_arguments() {
    assert!(permut_check(5, 2).is_ok());
    assert!(permut_check(5, 0).is_ok());
    assert!(permut_check(0, 0).is_ok());
    assert_eq!(error_of(permut_check(2, 5)), (Error::NUM, "PERMUT: requires 0 ≤ k ≤ n".to_string()));
    assert_eq!(error_of(permut_check(-1, 0)), (Error::NUM, "PERMUT: requires 0 ≤ k ≤ n".to_string()));
    assert!(permutationa_check(3, 7).is_ok());
    assert_eq!(error_of(permutationa_check(3, -1)), (Error::NUM, "PERMUTATIONA: requires n ≥ 0 and k ≥ 0".to_string()));
}

use ironcalc_base::mathematical_sum::{array_argument_values, matrix_values, range_argument_values, MatrixValue};

#[test]
fn paired_values_are_read_in_order() {
    let values: Vec<MatrixValue<i32, Error>> = vec![MatrixValue::Number(1), MatrixValue::Other, MatrixValue::Number(3)];
    assert_eq!(matrix_values(&values), Ok(vec![Some(1), None, Some(3)]));
    let with_errors: Vec<MatrixValue<i32, Error>> =
        vec![MatrixValue::Number(1), MatrixValue::Error(Error::DIV), MatrixValue::Error(Error::NA)];
    assert_eq!(matrix_values(&with_errors), Err(1));
}

#[test]
fn errors_in_array_arguments_are_named() {
    let with_errors: Vec<MatrixValue<i32, Error>> =
        vec![MatrixValue::Other, MatrixValue::Error(Error::NA), MatrixValue::Error(Error::DIV)];
    let e = array_argument_values(&with_errors, true).unwrap_err();
    assert_eq!((e.error, e.message), (Error::VALUE, "Error in first array: NA".to_string()));
    let e = array_argument_values(&with_errors, false).unwrap_err();
    assert_eq!((e.error, e.message), (Error::VALUE, "Error in second array: NA".to_string()));
    let ok: Vec<MatrixValue<i32, Error>> = vec![MatrixValue::Number(2), MatrixValue::Other];
    assert_eq!(array_argument_values(&ok, true).ok(), Some(vec![Some(2), None]));
}

#[test]
fn errors_in_range_arguments_are_passed_on() {
    let cells: Vec<MatrixValue<i32, CalcError>> = vec![
        MatrixValue::Number(4),
        MatrixValue::Error(CalcError { error: Error::DIV, message: "Divide by 0".to_string() }),
        MatrixValue::Error(CalcError { error: Error::NA, message: "Not found".to_string() }),
    ];
    assert_eq!(error_of(range_argument_values(&cells)), (Error::DIV, "Divide by 0".to_string()));
    let ok: Vec<MatrixValue<i32, CalcError>> = vec![MatrixValue::Other, MatrixValue::Number(7)];
    assert_eq!(range_argument_values(&ok).ok(), Some(vec![None, Some(7)]));
}

#[test]
fn paired_shapes_have_equal_sizes() {
    // a column of three against a row of three: both hold three values, read as three pairs
    let col = MatrixArgument::Range { left: corner(0, 1, 1), right: corner(0, 3, 1) };
    let row = MatrixArgument::Array { rows: 1, columns: 3 };
    let (r, c) = two_matrices_shape(col, row).ok().unwrap();
    assert_eq!(r * c, 3);
    let (r, c) = two_matrices_shape(row, col).ok().unwrap();
    assert_eq!(r * c, 3);
}

use ironcalc_base::math_and_trigonometry::sequence::randarray_shape;

#[test]
fn randarray_shapes_and_errors() {
    assert_eq!(randarray_shape(0, None, None).ok(), Some((1, 1)));
    assert_eq!(randarray_shape(2, Some(3), Some(4)).ok(), Some((3, 4)));
    assert_eq!(error_of(randarray_shape(6, None, None)), (Error::ERROR, "Wrong number of arguments".to_string()));
    assert_eq!(error_of(randarray_shape(1, Some(0), None)), (Error::VALUE, "rows must be >= 1".to_string()));
    assert_eq!(error_of(randarray_shape(2, Some(2), Some(-1))), (Error::VALUE, "cols must be >= 1".to_string()));
    // rows are checked before columns
    assert_eq!(error_of(randarray_shape(2, Some(-2), Some(-1))), (Error::VALUE, "rows must be >= 1".to_string()));
    assert_eq!(
        error_of(randarray_shape(2, Some(2), Some(20000))),
        (Error::VALUE, "columns exceeds sheet limit of 16384".to_string())
    );
    assert_eq!(
        error_of(randarray_shape(2, Some(2000), Some(1000))),
        (Error::ERROR, "rows * columns exceeds matrix size limit of 1000000".to_string())
    );
}
