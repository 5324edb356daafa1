//! The two arrays of SUMX2MY2, SUMX2PY2, SUMXMY2 and of the paired
//! statistical functions: which pairs of arguments are accepted, and the
//! shape they are read in.
use vstd::prelude::*;
use vstd::string::*;
use crate::text::{chars_to_string, push_str};
use crate::types::{CalcError, CellReferenceIndex, Error};

verus! {

/// An evaluated argument as the pairing reads it: a range, an array with
/// its number of rows and the length of its first row, or anything else.
#[derive(Clone, Copy, Debug, PartialEq, Eq)]
pub enum MatrixArgument {
    Range { left: CellReferenceIndex, right: CellReferenceIndex },
    Array { rows: i32, columns: i32 },
    Other,
}

/// Two shapes are equal, or one is a row and the other a column of the same
/// length.
pub open spec fn same_shape_or_1d(rows1: int, cols1: int, rows2: int, cols2: int) -> bool {
    (rows1 == rows2 && cols1 == cols2) || (rows1 == 1 && cols2 == 1 && cols1 == rows2)
        || (rows2 == 1 && cols1 == 1 && cols2 == rows1)
}

/// Whether two shapes may be paired: the same, or a row and a column of the
/// same length.
pub fn is_same_shape_or_1d(rows1: i32, cols1: i32, rows2: i32, cols2: i32) -> (r: bool)
    ensures
        r == same_shape_or_1d(rows1 as int, cols1 as int, rows2 as int, cols2 as int),
{
    (rows1 == rows2 && cols1 == cols2) || (rows1 == 1 && cols2 == 1 && cols1 == rows2)
        || (rows2 == 1 && cols1 == 1 && cols2 == rows1)
}

/// The number of rows and of columns of a range.
pub open spec fn range_shape(left: CellReferenceIndex, right: CellReferenceIndex) -> (int, int) {
    (right.row - left.row + 1, right.column - left.column + 1)
}

/// The shape of a range can be computed in `i32`.
pub open spec fn shape_fits(a: MatrixArgument) -> bool {
    match a {
        MatrixArgument::Range { left, right } => {
            &&& i32::MIN <= right.row - left.row < i32::MAX
            &&& i32::MIN <= right.column - left.column < i32::MAX
        },
        _ => true,
    }
}

/// What the pairing of two arguments gives: the shape that the values are
/// read in (that of the range when an array is paired with a range, else
/// that of the first argument), or the error.
pub open spec fn two_matrices_shape_spec(x: MatrixArgument, y: MatrixArgument) -> Result<(int, int), (Error, Seq<char>)> {
    match (x, y) {
        (MatrixArgument::Range { left: l1, right: r1 }, MatrixArgument::Range { left: l2, right: r2 }) => {
            let (rows1, cols1) = range_shape(l1, r1);
            let (rows2, cols2) = range_shape(l2, r2);
            if l1.sheet != l2.sheet {
                Err((Error::VALUE, "Ranges are in different sheets"@))
            } else if !same_shape_or_1d(rows1, cols1, rows2, cols2) {
                Err((Error::VALUE, "Ranges must be of the same shape"@))
            } else {
                Ok((rows1, cols1))
            }
        },
        (MatrixArgument::Array { rows, columns }, MatrixArgument::Range { left, right }) => {
            let (rows2, cols2) = range_shape(left, right);
            if !same_shape_or_1d(rows as int, columns as int, rows2, cols2) {
                Err((Error::VALUE, "Array and range must be of the same shape"@))
            } else {
                Ok((rows2, cols2))
            }
        },
        (MatrixArgument::Range { left, right }, MatrixArgument::Array { rows, columns }) => {
            let (rows1, cols1) = range_shape(left, right);
            if !same_shape_or_1d(rows1, cols1, rows as int, columns as int) {
                Err((Error::VALUE, "Range and array must be of the same shape"@))
            } else {
                Ok((rows1, cols1))
            }
        },
        (MatrixArgument::Array { rows: rows1, columns: cols1 }, MatrixArgument::Array { rows: rows2, columns: cols2 }) => {
            if !same_shape_or_1d(rows1 as int, cols1 as int, rows2 as int, cols2 as int) {
                Err((Error::VALUE, "Arrays must be of the same shape"@))
            } else {
                Ok((rows1 as int, cols1 as int))
            }
        },
        _ => Err((Error::VALUE, "Both arguments must be ranges or arrays"@)),
    }
}

/// The number of values of an argument by its shape: rows times columns (of
/// the first row, for an array).
pub open spec fn shape_size(a: MatrixArgument) -> int {
    match a {
        MatrixArgument::Range { left, right } => range_shape(left, right).0 * range_shape(left, right).1,
        MatrixArgument::Array { rows, columns } => rows * columns,
        MatrixArgument::Other => 0,
    }
}

/// Two arguments that SUMX2MY2 and the like accept have shapes of the same
/// size, and the shape the values are read in has that size too: the two
/// lists of values are read pair by pair.
pub proof fn law_paired_arguments_have_equal_sizes(x: MatrixArgument, y: MatrixArgument)
    requires
        two_matrices_shape_spec(x, y) is Ok,
    ensures
        shape_size(x) == shape_size(y),
        two_matrices_shape_spec(x, y)->Ok_0.0 * two_matrices_shape_spec(x, y)->Ok_0.1 == shape_size(x),
{
    let (r1, c1) = match x {
        MatrixArgument::Range { left, right } => range_shape(left, right),
        MatrixArgument::Array { rows, columns } => (rows as int, columns as int),
        MatrixArgument::Other => (0, 0),
    };
    let (r2, c2) = match y {
        MatrixArgument::Range { left, right } => range_shape(left, right),
        MatrixArgument::Array { rows, columns } => (rows as int, columns as int),
        MatrixArgument::Other => (0, 0),
    };
    assert(shape_size(x) == r1 * c1);
    assert(shape_size(y) == r2 * c2);
    assert(same_shape_or_1d(r1, c1, r2, c2));
    if r1 == 1 && c2 == 1 && c1 == r2 {
        assert(r1 * c1 == c1) by (nonlinear_arith) requires r1 == 1;
        assert(r2 * c2 == r2) by (nonlinear_arith) requires c2 == 1;
    } else if r2 == 1 && c1 == 1 && c2 == r1 {
        assert(r1 * c1 == r1) by (nonlinear_arith) requires c1 == 1;
        assert(r2 * c2 == c2) by (nonlinear_arith) requires r2 == 1;
    }
}

fn range_dimensions(left: CellReferenceIndex, right: CellReferenceIndex) -> (r: (i32, i32))
    requires
        shape_fits(MatrixArgument::Range { left, right }),
    ensures
        (r.0 as int, r.1 as int) == range_shape(left, right),
{
    (right.row - left.row + 1, right.column - left.column + 1)
}

fn shape_error(message: &str) -> (e: CalcError)
    ensures
        e.error == Error::VALUE,
        e.message@ == message@,
{
    CalcError { error: Error::VALUE, message: String::from_str(message) }
}

/// The pairing of the two arguments of SUMX2MY2 and the like: checks that
/// they are ranges or arrays of compatible shapes, and gives the shape the
/// values are read in.
pub fn two_matrices_shape(x: MatrixArgument, y: MatrixArgument) -> (r: Result<(i32, i32), CalcError>)
    requires
        shape_fits(x),
        shape_fits(y),
    ensures
        match r {
            Ok((rows, cols)) => two_matrices_shape_spec(x, y) == Ok::<(int, int), (Error, Seq<char>)>((rows as int, cols as int)),
            Err(e) => two_matrices_shape_spec(x, y) == Err::<(int, int), (Error, Seq<char>)>((e.error, e.message@)),
        },
{
    match (x, y) {
        (MatrixArgument::Range { left: l1, right: r1 }, MatrixArgument::Range { left: l2, right: r2 }) => {
            if l1.sheet != l2.sheet {
                return Err(shape_error("Ranges are in different sheets"));
            }
            let (rows1, cols1) = range_dimensions(l1, r1);
            let (rows2, cols2) = range_dimensions(l2, r2);
            if !is_same_shape_or_1d(rows1, cols1, rows2, cols2) {
                return Err(shape_error("Ranges must be of the same shape"));
            }
            Ok((rows1, cols1))
        },
        (MatrixArgument::Array { rows, columns }, MatrixArgument::Range { left, right }) => {
            let (rows2, cols2) = range_dimensions(left, right);
            if !is_same_shape_or_1d(rows, columns, rows2, cols2) {
                return Err(shape_error("Array and range must be of the same shape"));
            }
            Ok((rows2, cols2))
        },
        (MatrixArgument::Range { left, right }, MatrixArgument::Array { rows, columns }) => {
            let (rows1, cols1) = range_dimensions(left, right);
            if !is_same_shape_or_1d(rows1, cols1, rows, columns) {
                return Err(shape_error("Range and array must be of the same shape"));
            }
            Ok((rows1, cols1))
        },
        (MatrixArgument::Array { rows: rows1, columns: cols1 }, MatrixArgument::Array { rows: rows2, columns: cols2 }) => {
            if !is_same_shape_or_1d(rows1, cols1, rows2, cols2) {
                return Err(shape_error("Arrays must be of the same shape"));
            }
            Ok((rows1, cols1))
        },
        _ => Err(shape_error("Both arguments must be ranges or arrays")),
    }
}


/// A value of a paired range or array, as it is read: a number, an error
/// (`E`: the error value of an array element, or the error of a cell with
/// its message), or anything else (which counts as no number).
pub enum MatrixValue<T, E> {
    Number(T),
    Error(E),
    Other,
}

/// The number a value gives, if any.
pub open spec fn matrix_number<T, E>(v: MatrixValue<T, E>) -> Option<T> {
    match v {
        MatrixValue::Number(x) => Some(x),
        _ => None,
    }
}

/// `i` holds the first error among `values`.
pub open spec fn first_matrix_error<T, E>(values: Seq<MatrixValue<T, E>>, i: int) -> bool {
    &&& 0 <= i < values.len()
    &&& values[i] is Error
    &&& forall|j: int| 0 <= j < i ==> !(#[trigger] values[j] is Error)
}

/// `values` holds no error, and `numbers` are the numbers it gives.
pub open spec fn matrix_numbers<T, E>(values: Seq<MatrixValue<T, E>>, numbers: Seq<Option<T>>) -> bool {
    &&& forall|i: int| 0 <= i < values.len() ==> !(#[trigger] values[i] is Error)
    &&& numbers.len() == values.len()
    &&& forall|i: int| 0 <= i < values.len() ==> numbers[i] == matrix_number(#[trigger] values[i])
}

/// Reads values in row-major order: the numbers (`None` for a value that is
/// not one), or the position of the first error.
pub fn matrix_values<T: Copy, E>(values: &Vec<MatrixValue<T, E>>) -> (r: Result<Vec<Option<T>>, usize>)
    ensures
        match r {
            Ok(v) => matrix_numbers(values@, v@),
            Err(p) => first_matrix_error(values@, p as int),
        },
{
    let mut out: Vec<Option<T>> = Vec::new();
    let mut k: usize = 0;
    while k < values.len()
        invariant
            k <= values@.len(),
            out@.len() == k,
            forall|j: int| 0 <= j < k ==> !(#[trigger] values@[j] is Error),
            forall|j: int| 0 <= j < k ==> out@[j] == matrix_number(#[trigger] values@[j]),
        decreases values@.len() - k,
    {
        match &values[k] {
            MatrixValue::Number(x) => out.push(Some(*x)),
            MatrixValue::Error(_) => {
                return Err(k);
            },
            MatrixValue::Other => out.push(None),
        }
        k = k + 1;
    }
    Ok(out)
}

/// The values of a range argument of SUMX2MY2 and the like: its numbers, or
/// the first error cell's error, passed on.
pub fn range_argument_values<T: Copy>(values: &Vec<MatrixValue<T, CalcError>>) -> (r: Result<Vec<Option<T>>, CalcError>)
    ensures
        match r {
            Ok(v) => matrix_numbers(values@, v@),
            Err(e) => exists|i: int| #[trigger] first_matrix_error(values@, i)
                && (values@[i] matches MatrixValue::Error(x) && e.error == x.error && e.message@ == x.message@),
        },
{
    match matrix_values(values) {
        Ok(v) => Ok(v),
        Err(p) => {
            match &values[p] {
                MatrixValue::Error(x) => Err(CalcError { error: x.error, message: x.message.clone() }),
                // Not reached: the position holds an error.
                _ => {
                    proof {
                        assert(first_matrix_error(values@, p as int));
                    }
                    Err(crate::types::new_error(Error::ERROR, ""))
                },
            }
        },
    }
}

/// The name of an error value, as the messages spell it.
pub open spec fn error_name(e: Error) -> Seq<char> {
    match e {
        Error::REF => "REF"@,
        Error::NAME => "NAME"@,
        Error::VALUE => "VALUE"@,
        Error::DIV => "DIV"@,
        Error::NA => "NA"@,
        Error::NUM => "NUM"@,
        Error::ERROR => "ERROR"@,
        Error::NIMPL => "NIMPL"@,
        Error::SPILL => "SPILL"@,
        Error::CALC => "CALC"@,
        Error::CIRC => "CIRC"@,
        Error::NULL => "NULL"@,
    }
}

fn error_name_str(e: Error) -> (r: &'static str)
    ensures
        r@ == error_name(e),
{
    match e {
        Error::REF => "REF",
        Error::NAME => "NAME",
        Error::VALUE => "VALUE",
        Error::DIV => "DIV",
        Error::NA => "NA",
        Error::NUM => "NUM",
        Error::ERROR => "ERROR",
        Error::NIMPL => "NIMPL",
        Error::SPILL => "SPILL",
        Error::CALC => "CALC",
        Error::CIRC => "CIRC",
        Error::NULL => "NULL",
    }
}

/// The message for an error met in the first (or second) array argument.
pub open spec fn array_error_message(first: bool, e: Error) -> Seq<char> {
    (if first { "Error in first array: "@ } else { "Error in second array: "@ }) + error_name(e)
}

/// The #VALUE! that an error inside an array argument turns into.
pub fn array_error(first: bool, e: Error) -> (r: CalcError)
    ensures
        r.error == Error::VALUE,
        r.message@ == array_error_message(first, e),
{
    let mut out: Vec<char> = Vec::new();
    if first {
        push_str(&mut out, "Error in first array: ");
    } else {
        push_str(&mut out, "Error in second array: ");
    }
    push_str(&mut out, error_name_str(e));
    CalcError { error: Error::VALUE, message: chars_to_string(&out) }
}

/// The values of an array argument of SUMX2MY2 and the like: its numbers,
/// or #VALUE! naming the first error in it.
pub fn array_argument_values<T: Copy>(values: &Vec<MatrixValue<T, Error>>, first: bool) -> (r: Result<Vec<Option<T>>, CalcError>)
    ensures
        match r {
            Ok(v) => matrix_numbers(values@, v@),
            Err(e) => exists|i: int| #[trigger] first_matrix_error(values@, i)
                && (values@[i] matches MatrixValue::Error(x) && e.error == Error::VALUE
                && e.message@ == array_error_message(first, x)),
        },
{
    match matrix_values(values) {
        Ok(v) => Ok(v),
        Err(p) => {
            match values[p] {
                MatrixValue::Error(x) => Err(array_error(first, x)),
                // Not reached: the position holds an error.
                _ => {
                    proof {
                        assert(first_matrix_error(values@, p as int));
                    }
                    Err(crate::types::new_error(Error::ERROR, ""))
                },
            }
        },
    }
}

} // verus!
