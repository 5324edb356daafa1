//! The value types shared by the spreadsheet functions: error kinds, cell
//! references, sheet extents and the error value that a function returns.
use vstd::prelude::*;
use vstd::string::*;

verus! {

/// The last row of a worksheet.
pub const LAST_ROW: i32 = 1_048_576;

/// The last column of a worksheet.
pub const LAST_COLUMN: i32 = 16_384;

/// The spreadsheet error values (`#REF!`, `#NAME?`, `#VALUE!`, ...).
#[allow(non_camel_case_types)]
#[derive(Clone, Copy, Debug, PartialEq, Eq, Structural)]
pub enum Error {
    REF,
    NAME,
    VALUE,
    DIV,
    NA,
    NUM,
    ERROR,
    NIMPL,
    SPILL,
    CALC,
    CIRC,
    NULL,
}

/// A value of an array as the array functions see it: an empty cell, an
/// error, or any other value (a number, a text or a boolean), held as `T`.
#[derive(Clone, Copy, Debug, PartialEq, Eq)]
pub enum ArrayValue<T> {
    Value(T),
    Empty,
    Error(Error),
}

/// The result of a function that failed: the error value and a message.
pub struct CalcError {
    pub error: Error,
    pub message: String,
}

/// Builds a `CalcError` from an error value and a literal message.
pub fn new_error(error: Error, message: &str) -> (r: CalcError)
    ensures
        r.error == error,
        r.message@ == message@,
{
    CalcError { error, message: String::from_str(message) }
}

/// The error for a function called with a wrong number of arguments.
pub fn args_number_error() -> (r: CalcError)
    ensures
        r.error == Error::ERROR,
        r.message@ == "Wrong number of arguments"@,
{
    new_error(Error::ERROR, "Wrong number of arguments")
}

/// A reference to a single cell: sheet index, 1-based row and column.
#[derive(Clone, Copy, Debug, PartialEq, Eq, Structural)]
pub struct CellReferenceIndex {
    pub sheet: u32,
    pub row: i32,
    pub column: i32,
}

/// A rectangular range between two cells (inclusive).
#[derive(Clone, Copy, Debug, PartialEq, Eq, Structural)]
pub struct Range {
    pub left: CellReferenceIndex,
    pub right: CellReferenceIndex,
}

/// The used extent of a worksheet.
#[derive(Clone, Copy, Debug, PartialEq, Eq, Structural)]
pub struct WorksheetDimension {
    pub min_row: i32,
    pub max_row: i32,
    pub min_column: i32,
    pub max_column: i32,
}

} // verus!
