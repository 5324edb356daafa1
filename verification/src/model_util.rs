//! The workbook model as the functions read it: the used extent of each sheet.
use vstd::prelude::*;
use vstd::string::*;
use crate::types::{WorksheetDimension, LAST_COLUMN, LAST_ROW};

verus! {

/// The part of a workbook that the functions read: the used extent of each
/// worksheet, by sheet index.
pub struct Model {
    pub worksheets: Vec<WorksheetDimension>,
}

/// The extent that `get_max_rc` resolves a range to; an error for a sheet
/// index that does not exist.
pub open spec fn max_rc_spec(
    sheets: Seq<WorksheetDimension>,
    sheet: int,
    row1: i32,
    col1: i32,
    row2: i32,
    col2: i32,
) -> Result<WorksheetDimension, Seq<char>> {
    let needs_row = row1 == 1 && row2 == LAST_ROW;
    let needs_col = col1 == 1 && col2 == LAST_COLUMN;
    if !(0 <= sheet < sheets.len()) {
        Err("Invalid sheet index"@)
    } else {
        Ok(WorksheetDimension {
            min_row: row1,
            max_row: if needs_row { sheets[sheet].max_row } else { row2 },
            min_column: col1,
            max_column: if needs_col { sheets[sheet].max_column } else { col2 },
        })
    }
}

impl Model {
    /// The used extent of the worksheet at `sheet`.
    pub fn worksheet_dimension(&self, sheet: u32) -> (r: Result<WorksheetDimension, String>)
        ensures
            match r {
                Ok(d) => (sheet as int) < self.worksheets@.len() && d == self.worksheets@[sheet as int],
                Err(m) => (sheet as int) >= self.worksheets@.len() && m@ == "Invalid sheet index"@,
            },
    {
        let index = sheet as usize;
        if index < self.worksheets.len() {
            Ok(self.worksheets[index])
        } else {
            Err(String::from_str("Invalid sheet index"))
        }
    }

    /// Resolves LAST_ROW / LAST_COLUMN sentinels to the actual sheet extents.
    ///
    /// Returns `Err` with a message when the sheet index is invalid.
    pub fn get_max_rc(
        &self,
        sheet: u32,
        row1: i32,
        col1: i32,
        row2: i32,
        col2: i32,
    ) -> (r: Result<WorksheetDimension, String>)
        ensures
            match r {
                Ok(d) => max_rc_spec(self.worksheets@, sheet as int, row1, col1, row2, col2)
                    == Ok::<WorksheetDimension, Seq<char>>(d),
                Err(m) => max_rc_spec(self.worksheets@, sheet as int, row1, col1, row2, col2)
                    == Err::<WorksheetDimension, Seq<char>>(m@),
            },
    {
        let needs_row = row1 == 1 && row2 == LAST_ROW;
        let needs_col = col1 == 1 && col2 == LAST_COLUMN;
        let dim = match self.worksheet_dimension(sheet) {
            Ok(d) => d,
            Err(m) => return Err(m),
        };
        let r_max = if needs_row { dim.max_row } else { row2 };
        let c_max = if needs_col { dim.max_column } else { col2 };
        Ok(WorksheetDimension { min_row: row1, max_row: r_max, min_column: col1, max_column: c_max })
    }
}

} // verus!
