//! The walk of AVERAGEIFS, MINIFS and MAXIFS over their sum range: which
//! cells are read, and which numbers are taken.
//!
//! Whether the cells at a place in the criteria ranges meet their criteria
//! is decided outside (it needs the cells' values); here it is given.
use vstd::prelude::*;
use vstd::string::*;
use crate::model_util::Model;
use crate::text::{chars_to_string, decimal, push_decimal, push_str};
use crate::types::{CalcError, Error, Range, LAST_COLUMN, LAST_ROW};

verus! {

/// The message for a sheet index that does not exist.
pub open spec fn invalid_worksheet_message(sheet: u32) -> Seq<char> {
    "Invalid worksheet index: '"@ + decimal(sheet as nat) + "'"@
}

/// The last row and column of the sum range that are read: a whole column
/// ends at the sheet's last used row, a whole row at its last used column.
pub open spec fn ifs_extent_spec(sheets: Seq<crate::types::WorksheetDimension>, sum_range: Range)
    -> Result<(i32, i32), (Error, Seq<char>)>
{
    let sheet = sum_range.left.sheet as int;
    let open_rows = sum_range.left.row == 1 && sum_range.right.row == LAST_ROW;
    let open_columns = sum_range.left.column == 1 && sum_range.right.column == LAST_COLUMN;
    if (open_rows || open_columns) && sheet >= sheets.len() {
        Err((Error::ERROR, invalid_worksheet_message(sum_range.left.sheet)))
    } else {
        Ok((
            if open_rows { sheets[sheet].max_row } else { sum_range.right.row },
            if open_columns { sheets[sheet].max_column } else { sum_range.right.column },
        ))
    }
}

impl Model {
    /// The last row and column of the sum range of AVERAGEIFS, MINIFS and
    /// MAXIFS that are read.
    pub fn ifs_extent(&self, sum_range: Range) -> (r: Result<(i32, i32), CalcError>)
        ensures
            match r {
                Ok(x) => ifs_extent_spec(self.worksheets@, sum_range) == Ok::<(i32, i32), (Error, Seq<char>)>(x),
                Err(e) => ifs_extent_spec(self.worksheets@, sum_range)
                    == Err::<(i32, i32), (Error, Seq<char>)>((e.error, e.message@)),
            },
    {
        let open_rows = sum_range.left.row == 1 && sum_range.right.row == LAST_ROW;
        let open_columns = sum_range.left.column == 1 && sum_range.right.column == LAST_COLUMN;
        if !open_rows && !open_columns {
            return Ok((sum_range.right.row, sum_range.right.column));
        }
        match self.worksheet_dimension(sum_range.left.sheet) {
            Ok(d) => Ok((
                if open_rows { d.max_row } else { sum_range.right.row },
                if open_columns { d.max_column } else { sum_range.right.column },
            )),
            Err(_) => {
                let mut v: Vec<char> = Vec::new();
                push_str(&mut v, "Invalid worksheet index: '");
                push_decimal(&mut v, sum_range.left.sheet as u64);
                push_str(&mut v, "'");
                Err(CalcError { error: Error::ERROR, message: chars_to_string(&v) })
            },
        }
    }
}

/// A cell of the sum range as the walk reads it: a number, an error value
/// (with its message), or anything else, which is skipped.
pub enum IfsValue<T> {
    Number(T),
    Error { error: Error, message: String },
    Other,
}

/// What the walk takes from one cell: nothing when the criteria are not
/// met, its number, or its error.
pub open spec fn ifs_step<T>(matched: bool, value: IfsValue<T>) -> Result<Option<T>, (Error, Seq<char>)> {
    if !matched {
        Ok(None)
    } else {
        match value {
            IfsValue::Number(v) => Ok(Some(v)),
            IfsValue::Error { error, message } => Err((error, message@)),
            IfsValue::Other => Ok(None),
        }
    }
}

/// The numbers taken from the first `k` cells, in order, or the first error
/// met.
pub open spec fn ifs_numbers<T>(matched: Seq<bool>, values: Seq<IfsValue<T>>, k: int) -> Result<Seq<T>, (Error, Seq<char>)>
    decreases k,
{
    if k <= 0 {
        Ok(Seq::empty())
    } else {
        match ifs_numbers(matched, values, k - 1) {
            Err(e) => Err(e),
            Ok(taken) => match ifs_step(matched[k - 1], values[k - 1]) {
                Err(e) => Err(e),
                Ok(None) => Ok(taken),
                Ok(Some(v)) => Ok(taken.push(v)),
            },
        }
    }
}

proof fn lemma_ifs_failure_stays<T>(matched: Seq<bool>, values: Seq<IfsValue<T>>, k: int, n: int)
    requires
        0 <= k <= n,
        ifs_numbers(matched, values, k) is Err,
    ensures
        ifs_numbers(matched, values, n) == ifs_numbers(matched, values, k),
    decreases n - k,
{
    if k < n {
        lemma_ifs_failure_stays(matched, values, k + 1, n);
    }
}

/// The numbers that AVERAGEIFS, MINIFS and MAXIFS fold, from the cells read
/// in the sum range row by row: `matched` tells for each cell whether the
/// cells at its place meet every criterion, `values` what the cell holds.
/// A number is taken, an error value ends the walk with that error.
pub fn ifs_values<T: Copy>(matched: &Vec<bool>, values: &Vec<IfsValue<T>>) -> (r: Result<Vec<T>, CalcError>)
    requires
        matched@.len() == values@.len(),
    ensures
        match r {
            Ok(v) => ifs_numbers(matched@, values@, values@.len() as int) == Ok::<Seq<T>, (Error, Seq<char>)>(v@),
            Err(e) => ifs_numbers(matched@, values@, values@.len() as int)
                == Err::<Seq<T>, (Error, Seq<char>)>((e.error, e.message@)),
        },
{
    let mut taken: Vec<T> = Vec::new();
    let mut i: usize = 0;
    while i < values.len()
        invariant
            i <= values.len() == matched@.len(),
            ifs_numbers(matched@, values@, i as int) == Ok::<Seq<T>, (Error, Seq<char>)>(taken@),
        decreases values.len() - i,
    {
        if matched[i] {
            match &values[i] {
                IfsValue::Number(v) => {
                    taken.push(*v);
                },
                IfsValue::Error { error, message } => {
                    let e = CalcError { error: *error, message: message.clone() };
                    proof {
                        lemma_ifs_failure_stays(matched@, values@, i + 1, values@.len() as int);
                    }
                    return Err(e);
                },
                IfsValue::Other => {},
            }
        }
        i = i + 1;
    }
    Ok(taken)
}

} // verus!
