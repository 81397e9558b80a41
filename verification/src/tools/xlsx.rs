//! Parameters of the Excel tools.

use vstd::prelude::*;
use crate::docs::cell::CellValue;
use crate::docs::strings::{chars_of, string_from_chars};
use crate::docs::xlsx::{CellUpdate, ReadSheetOptions, DEFAULT_ROW_LIMIT};

verus! {

/// A workbook to inspect (`.xlsx`).
pub struct XlsxPathParams {
    pub path: String,
}

/// A sheet to read: an optional A1 area, and a row window.
pub struct XlsxReadParams {
    pub path: String,
    pub sheet: String,
    pub range: Option<String>,
    pub limit: Option<usize>,
    pub offset: Option<usize>,
}

/// A sheet to export as CSV, and where to write it (optional).
pub struct XlsxCsvParams {
    pub path: String,
    pub sheet: String,
    pub output_path: Option<String>,
}

/// A new workbook: where it goes, the sheet's name, and its rows.
pub struct XlsxWriteParams {
    pub output_path: String,
    pub sheet: String,
    pub rows: Vec<Vec<CellValue>>,
}

/// One cell to change: its A1 address and new value.
pub struct CellUpdateParam {
    pub cell: String,
    pub value: CellValue,
}

/// Cells to change in a sheet, and where the result goes (the source when none is given).
pub struct XlsxUpdateParams {
    pub path: String,
    pub sheet: String,
    pub cells: Vec<CellUpdateParam>,
    pub output_path: Option<String>,
}

impl XlsxReadParams {
    /// The read options these parameters ask for: at most `DEFAULT_ROW_LIMIT` rows when no
    /// limit is given.
    pub fn options(&self) -> (o: ReadSheetOptions)
        ensures
            o.limit == Some(match self.limit {
                Some(l) => l,
                None => DEFAULT_ROW_LIMIT,
            }),
            o.offset == self.offset,
            match (self.range, o.range) {
                (Some(a), Some(b)) => a@ == b@,
                (None, None) => true,
                _ => false,
            },
    {
        let range = match &self.range {
            Some(s) => Some(string_from_chars(&chars_of(s.as_str()))),
            None => None,
        };
        let limit = match self.limit {
            Some(l) => l,
            None => DEFAULT_ROW_LIMIT,
        };
        ReadSheetOptions { range, limit: Some(limit), offset: self.offset }
    }
}

impl XlsxUpdateParams {
    /// The updates, in order, as the workbook operation takes them.
    pub fn updates(&self) -> (u: Vec<CellUpdate>)
        ensures
            u@.len() == self.cells@.len(),
            forall|i: int| 0 <= i < u@.len() ==> #[trigger] u@[i].cell@ == self.cells@[i].cell@ && u@[i].value@ == self.cells@[i].value@,
    {
        let mut out: Vec<CellUpdate> = Vec::new();
        let mut i: usize = 0;
        while i < self.cells.len()
            invariant
                i <= self.cells.len(),
                out@.len() == i,
                forall|k: int| 0 <= k < i ==> #[trigger] out@[k].cell@ == self.cells@[k].cell@ && out@[k].value@ == self.cells@[k].value@,
            decreases self.cells.len() - i,
        {
            let c = &self.cells[i];
            out.push(CellUpdate { cell: string_from_chars(&chars_of(c.cell.as_str())), value: c.value.clone_value() });
            i = i + 1;
        }
        out
    }
}

} // verus!
