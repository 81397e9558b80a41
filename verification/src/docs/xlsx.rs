//! Excel workbooks: listing sheets, reading a sheet page by page, exporting CSV, writing
//! and updating cells. Workbook files are read and written with calamine and
//! umya-spreadsheet; the paging, range and CSV rules are this module's own.

use vstd::prelude::*;
use calamine::{Data, Reader};
use serde_json::Number;
use crate::docs::a1::{a1_range, cell_address};
use crate::docs::cell::{csv_text, rows_to_csv, row_view, table_view, CellValue, CellView};
use crate::docs::error::{error_with, failure, make_error, outcome, DocsError, ErrorKind};
use crate::docs::docx::{export_target, export_target_spec, opt_target_view};
use crate::docs::pathutil::{
    extension_is, has_extension, opt_view, require_existing_file, PathInfo,
};
use crate::docs::strings::{
    ascii_lower_seq, ascii_lowercase, chars_of, contains, contains_seq, decimal, push_chars, push_decimal, push_str,
    string_from_chars,
};

verus! {

/// Rows a sheet read returns by default when the caller gives no limit.
pub const DEFAULT_ROW_LIMIT: usize = 5000;

#[verifier::external_type_specification]
#[verifier::external_body]
pub struct ExData(calamine::Data);

#[verifier::external_type_specification]
#[verifier::external_body]
#[verifier::reject_recursive_types(T)]
pub struct ExRange<T>(calamine::Range<T>);

/// A worksheet cell as calamine reads it: one variant per `calamine::Data` variant, with
/// what only the outside code can render (floats, dates, error codes) already rendered as
/// text.
#[derive(Debug)]
pub enum SheetData {
    Int(i64),
    /// A float: the text of its JSON number when it is finite, and its display text.
    Float(Option<String>, String),
    String(String),
    Bool(bool),
    /// A date and time, by its display text.
    DateTime(String),
    DateTimeIso(String),
    DurationIso(String),
    /// An error cell, by the debug text of its error code.
    Error(String),
    Empty,
}

pub enum SheetDataView {
    Int(i64),
    Float(Option<Seq<char>>, Seq<char>),
    String(Seq<char>),
    Bool(bool),
    DateTime(Seq<char>),
    DateTimeIso(Seq<char>),
    DurationIso(Seq<char>),
    Error(Seq<char>),
    Empty,
}

impl View for SheetData {
    type V = SheetDataView;

    open spec fn view(&self) -> SheetDataView {
        match self {
            SheetData::Int(i) => SheetDataView::Int(*i),
            SheetData::Float(j, d) => SheetDataView::Float(
                match j {
                    Some(t) => Some(t@),
                    None => None,
                },
                d@,
            ),
            SheetData::String(t) => SheetDataView::String(t@),
            SheetData::Bool(b) => SheetDataView::Bool(*b),
            SheetData::DateTime(t) => SheetDataView::DateTime(t@),
            SheetData::DateTimeIso(t) => SheetDataView::DateTimeIso(t@),
            SheetData::DurationIso(t) => SheetDataView::DurationIso(t@),
            SheetData::Error(t) => SheetDataView::Error(t@),
            SheetData::Empty => SheetDataView::Empty,
        }
    }
}

/// The value a worksheet cell reads as: empty to null, strings and ISO dates or durations
/// to text, integers and booleans as they are, a finite float to its JSON number (any
/// other float to its display text), a date to its display text, an error to `#ERROR:`
/// and its code.
pub open spec fn data_value(d: SheetDataView) -> CellView {
    match d {
        SheetDataView::Empty => CellView::Null,
        SheetDataView::String(t) => CellView::Text(t),
        SheetDataView::Float(j, t) => match j {
            Some(n) => CellView::Decimal(n),
            None => CellView::Text(t),
        },
        SheetDataView::Int(i) => CellView::Int(i),
        SheetDataView::Bool(b) => CellView::Bool(b),
        SheetDataView::DateTime(t) => CellView::Text(t),
        SheetDataView::DateTimeIso(t) => CellView::Text(t),
        SheetDataView::DurationIso(t) => CellView::Text(t),
        SheetDataView::Error(e) => CellView::Text("#ERROR:"@ + e),
    }
}

/// Only an empty cell reads as null; every other cell keeps what it holds: strings, ISO
/// dates and durations, and dates as their text, integers and booleans as themselves, a
/// float as its JSON number when it has one (else its display text), an error as
/// `#ERROR:` and its code.
pub proof fn law_cell_values_keep_content(d: SheetDataView)
    ensures
        (data_value(d) == CellView::Null) <==> (d == SheetDataView::Empty),
        d matches SheetDataView::DateTime(t) ==> data_value(d) == CellView::Text(t),
        d matches SheetDataView::String(t) ==> data_value(d) == CellView::Text(t),
        d matches SheetDataView::DateTimeIso(t) ==> data_value(d) == CellView::Text(t),
        d matches SheetDataView::DurationIso(t) ==> data_value(d) == CellView::Text(t),
        d matches SheetDataView::Int(i) ==> data_value(d) == CellView::Int(i),
        d matches SheetDataView::Bool(b) ==> data_value(d) == CellView::Bool(b),
        d matches SheetDataView::Float(Some(n), _) ==> data_value(d) == CellView::Decimal(n),
        d matches SheetDataView::Float(None, t) ==> data_value(d) == CellView::Text(t),
        d matches SheetDataView::Error(e) ==> data_value(d) == CellView::Text("#ERROR:"@ + e),
{
}

/// The value a worksheet cell reads as.
pub fn data_to_value(d: SheetData) -> (v: CellValue)
    ensures
        v@ == data_value(d@),
{
    match d {
        SheetData::Empty => CellValue::Null,
        SheetData::String(t) => CellValue::Text(t),
        SheetData::Float(j, t) => match j {
            Some(n) => CellValue::Decimal(n),
            None => CellValue::Text(t),
        },
        SheetData::Int(i) => CellValue::Int(i),
        SheetData::Bool(b) => CellValue::Bool(b),
        SheetData::DateTime(t) => CellValue::Text(t),
        SheetData::DateTimeIso(t) => CellValue::Text(t),
        SheetData::DurationIso(t) => CellValue::Text(t),
        SheetData::Error(e) => {
            let mut out: Vec<char> = Vec::new();
            push_str(&mut out, "#ERROR:");
            let code = chars_of(e.as_str());
            push_chars(&mut out, &code);
            CellValue::Text(string_from_chars(&out))
        },
    }
}

/// The values of a table of worksheet cells.
pub open spec fn data_table(t: Seq<Seq<SheetDataView>>) -> Seq<Seq<CellView>> {
    Seq::new(t.len(), |i: int| Seq::new(t[i].len(), |j: int| data_value(t[i][j])))
}

/// The cells of a calamine range, row by row, as calamine holds them.
pub uninterp spec fn range_data(r: calamine::Range<calamine::Data>) -> Seq<Seq<SheetDataView>>;

/// The values of a calamine range, row by row.
pub open spec fn range_rows(r: calamine::Range<calamine::Data>) -> Seq<Seq<CellView>> {
    data_table(range_data(r))
}

/// The absolute `(row, column)` of a calamine range's first cell (its `start` field).
pub uninterp spec fn range_origin(r: calamine::Range<calamine::Data>) -> (u32, u32);

/// The sheet names of the workbook in `data`, or the message of the error met opening it.
pub uninterp spec fn workbook_sheets(data: Seq<u8>) -> Result<Seq<Seq<char>>, Seq<char>>;

/// Why reading a worksheet failed: the workbook did not open, or the sheet did not read.
pub enum SheetFailure {
    Open(String),
    Sheet(String),
}

pub enum SheetFailureView {
    Open(Seq<char>),
    Sheet(Seq<char>),
}

impl View for SheetFailure {
    type V = SheetFailureView;

    open spec fn view(&self) -> SheetFailureView {
        match self {
            SheetFailure::Open(s) => SheetFailureView::Open(s@),
            SheetFailure::Sheet(s) => SheetFailureView::Sheet(s@),
        }
    }
}

/// The cells and origin of the named worksheet of the workbook in `data`, or why reading
/// it failed.
pub uninterp spec fn workbook_range(data: Seq<u8>, sheet: Seq<char>) -> Result<
    (Seq<Seq<SheetDataView>>, (u32, u32)),
    SheetFailureView,
>;

/// Opens the workbook in `data` with `calamine::Xlsx::new` and lists its sheets with
/// `Reader::sheet_names`; the result is the named `workbook_sheets` of the bytes.
#[verifier::external_body]
fn xlsx_sheet_names(data: &[u8]) -> (r: Result<Vec<String>, String>)
    ensures
        match r {
            Ok(v) => workbook_sheets(data@) == Ok::<Seq<Seq<char>>, Seq<char>>(
                v@.map_values(|s: String| s@),
            ),
            Err(m) => workbook_sheets(data@) == Err::<Seq<Seq<char>>, Seq<char>>(m@),
        },
{
    let wb: calamine::Xlsx<_> = calamine::Xlsx::new(std::io::Cursor::new(data.to_vec()))
        .map_err(|e| format!("{e}"))?;
    Ok(wb.sheet_names().to_vec())
}

/// Opens the workbook in `data` with `calamine::Xlsx::new` and reads one sheet with
/// `Reader::worksheet_range`; the range's cells and origin are the named
/// `workbook_range` of the bytes and the sheet name, and so is the failure.
#[verifier::external_body]
fn xlsx_worksheet(data: &[u8], sheet: &str) -> (r: Result<calamine::Range<calamine::Data>, SheetFailure>)
    ensures
        match r {
            Ok(rg) => workbook_range(data@, sheet@) == Ok::<(Seq<Seq<SheetDataView>>, (u32, u32)), SheetFailureView>(
                (range_data(rg), range_origin(rg)),
            ),
            Err(f) => workbook_range(data@, sheet@) == Err::<(Seq<Seq<SheetDataView>>, (u32, u32)), SheetFailureView>(f@),
        },
{
    let mut wb: calamine::Xlsx<_> = calamine::Xlsx::new(std::io::Cursor::new(data.to_vec()))
        .map_err(|e| SheetFailure::Open(format!("{e}")))?;
    wb.worksheet_range(sheet).map_err(|e| SheetFailure::Sheet(e.to_string()))
}

/// `Range::height`: the number of rows.
#[verifier::external_body]
fn range_height(r: &calamine::Range<calamine::Data>) -> (h: usize)
    ensures
        h == range_data(*r).len(),
{
    r.height()
}

/// `Range::width`: every row has this many cells.
#[verifier::external_body]
fn range_width(r: &calamine::Range<calamine::Data>) -> (w: usize)
    ensures
        forall|i: int| 0 <= i < range_data(*r).len() ==> #[trigger] range_data(*r)[i].len() == w,
{
    r.width()
}

/// `Index<(usize, usize)>` of a range at a relative `(row, column)`: the calamine `Data`
/// there, variant for variant. A float is given as `serde_json::Number::from_f64` renders
/// it (when finite) and as its `to_string` renders it, a date by its `Display` text and an
/// error code by its `Debug` text.
#[verifier::external_body]
fn range_cell(r: &calamine::Range<calamine::Data>, row: usize, col: usize) -> (d: SheetData)
    requires
        row < range_data(*r).len(),
        col < range_data(*r)[row as int].len(),
    ensures
        d@ == range_data(*r)[row as int][col as int],
{
    match &r[(row, col)] {
        Data::Int(i) => SheetData::Int(*i),
        Data::Float(f) => SheetData::Float(Number::from_f64(*f).map(|n| n.to_string()), f.to_string()),
        Data::String(s) => SheetData::String(s.clone()),
        Data::Bool(b) => SheetData::Bool(*b),
        Data::DateTime(dt) => SheetData::DateTime(dt.to_string()),
        Data::DateTimeIso(s) => SheetData::DateTimeIso(s.clone()),
        Data::DurationIso(s) => SheetData::DurationIso(s.clone()),
        Data::Error(e) => SheetData::Error(format!("{e:?}")),
        Data::Empty => SheetData::Empty,
    }
}

/// The raw cell at absolute `(row, col)` of a table whose first cell sits at `origin`;
/// empty outside the table.
pub open spec fn data_at(cells: Seq<Seq<SheetDataView>>, origin: (u32, u32), row: int, col: int) -> SheetDataView {
    let i = row - origin.0;
    let j = col - origin.1;
    if 0 <= i < cells.len() && 0 <= j < cells[i].len() {
        cells[i][j]
    } else {
        SheetDataView::Empty
    }
}

/// The rectangle from `start` to `end` (absolute, inclusive) cut out of a table of raw
/// cells whose first cell sits at `origin`, empty outside the table.
pub open spec fn data_sub_table(
    cells: Seq<Seq<SheetDataView>>,
    origin: (u32, u32),
    start: (u32, u32),
    end: (u32, u32),
) -> Seq<Seq<SheetDataView>> {
    Seq::new(
        (end.0 - start.0 + 1) as nat,
        |i: int| Seq::new((end.1 - start.1 + 1) as nat, |j: int| data_at(cells, origin, start.0 + i, start.1 + j)),
    )
}

/// The cell at absolute `(row, col)` of a table whose first cell sits at `origin`; null
/// outside the table.
pub open spec fn cell_at(cells: Seq<Seq<CellView>>, origin: (u32, u32), row: int, col: int) -> CellView {
    let i = row - origin.0;
    let j = col - origin.1;
    if 0 <= i < cells.len() && 0 <= j < cells[i].len() {
        cells[i][j]
    } else {
        CellView::Null
    }
}

/// The rectangle from `start` to `end` (absolute, inclusive) cut out of a table whose first
/// cell sits at `origin`, cells outside the table being null.
pub open spec fn sub_table(
    cells: Seq<Seq<CellView>>,
    origin: (u32, u32),
    start: (u32, u32),
    end: (u32, u32),
) -> Seq<Seq<CellView>> {
    Seq::new(
        (end.0 - start.0 + 1) as nat,
        |i: int| Seq::new((end.1 - start.1 + 1) as nat, |j: int| cell_at(cells, origin, start.0 + i, start.1 + j)),
    )
}

/// The requests `Range::range` serves without panicking: corners in order, a cell count
/// that fits `u32`, and, on an empty range (which sits at `(0, 0)`), a rectangle that
/// does not start at `(0, 0)`.
pub open spec fn sub_range_ok(cells: Seq<Seq<CellView>>, start: (u32, u32), end: (u32, u32)) -> bool {
    &&& start.0 <= end.0
    &&& start.1 <= end.1
    &&& (end.0 - start.0 + 1) * (end.1 - start.1 + 1) <= u32::MAX
    &&& cells.len() == 0 ==> !(start.0 == 0 && start.1 == 0)
}

/// `Range::range`: the rectangle from `start` to `end` (absolute, inclusive), filled from
/// this range where they overlap and empty elsewhere.
#[verifier::external_body]
fn range_sub(r: &calamine::Range<calamine::Data>, start: (u32, u32), end: (u32, u32)) -> (s: calamine::Range<calamine::Data>)
    requires
        sub_range_ok(range_rows(*r), start, end),
    ensures
        range_data(s) == data_sub_table(range_data(*r), range_origin(*r), start, end),
        range_origin(s) == start,
{
    r.range(start, end)
}

/// Options of a sheet read: an optional A1 area, a row limit and a row offset.
#[derive(Debug, Clone)]
pub struct ReadSheetOptions {
    pub range: Option<String>,
    pub limit: Option<usize>,
    pub offset: Option<usize>,
}

impl Default for ReadSheetOptions {
    fn default() -> (o: ReadSheetOptions)
        ensures
            o.range is None,
            o.limit is None,
            o.offset is None,
    {
        ReadSheetOptions { range: None, limit: None, offset: None }
    }
}

#[derive(Debug)]
pub struct ListSheetsResult {
    pub ok: bool,
    pub sheets: Vec<String>,
}

#[derive(Debug)]
pub struct ReadSheetResult {
    pub ok: bool,
    pub rows: Vec<Vec<CellValue>>,
    pub truncated: bool,
    pub total_rows: usize,
}

#[derive(Debug)]
pub struct CsvResult {
    pub ok: bool,
    pub csv: String,
    pub output_path: Option<String>,
}

#[derive(Debug)]
pub struct XlsxWriteResult {
    pub ok: bool,
    pub output_path: String,
}

/// What `require_xlsx` gives for a path.
pub open spec fn xlsx_path_spec(info: PathInfo) -> Result<Seq<char>, (ErrorKind, Seq<char>)> {
    if !info.exists {
        failure(ErrorKind::PathNotFound, info.path@)
    } else if !info.is_file {
        failure(ErrorKind::InvalidArgument, "不是文件: "@ + info.path@)
    } else if !has_extension(info.path@, "xlsx"@) {
        failure(ErrorKind::UnsupportedFormat, "仅支持 .xlsx"@)
    } else {
        Ok(info.path@)
    }
}

/// Accepts an existing regular file whose extension is `xlsx` (any ASCII case).
pub fn require_xlsx(info: &PathInfo) -> (r: Result<String, DocsError>)
    ensures
        outcome(r) == xlsx_path_spec(*info),
{
    let p = require_existing_file(info)?;
    if !extension_is(p.as_str(), "xlsx") {
        return Err(make_error(ErrorKind::UnsupportedFormat, &chars_of("仅支持 .xlsx")));
    }
    Ok(p)
}

/// The workbook bytes, or the parse error that a failed read of the file gives.
fn workbook_bytes(contents: &Result<Vec<u8>, String>) -> (r: Result<&Vec<u8>, DocsError>)
    ensures
        match contents {
            Ok(b) => r matches Ok(v) && v@ == b@,
            Err(m) => r matches Err(e) && e.kind() == ErrorKind::ParseError && e.detail() == "I/O error: "@ + m@,
        },
{
    match contents {
        Ok(b) => Ok(b),
        Err(m) => Err(error_with(ErrorKind::ParseError, "I/O error: ", &chars_of(m.as_str()))),
    }
}

pub open spec fn read_view(contents: Result<Vec<u8>, String>) -> Result<Seq<u8>, Seq<char>> {
    match contents {
        Ok(b) => Ok(b@),
        Err(m) => Err(m@),
    }
}

/// What `list_sheets` gives.
pub open spec fn list_sheets_spec(info: PathInfo, contents: Result<Seq<u8>, Seq<char>>) -> Result<Seq<Seq<char>>, (ErrorKind, Seq<char>)> {
    match xlsx_path_spec(info) {
        Err(e) => Err(e),
        Ok(_) => match contents {
            Err(m) => failure(ErrorKind::ParseError, "I/O error: "@ + m),
            Ok(b) => match workbook_sheets(b) {
                Err(m) => failure(ErrorKind::ParseError, m),
                Ok(names) => Ok(names),
            },
        },
    }
}

/// Lists the sheet names of a workbook file, in workbook order. `contents` is the file's
/// bytes, or the message of the error met reading it.
pub fn list_sheets(info: &PathInfo, contents: &Result<Vec<u8>, String>) -> (r: Result<ListSheetsResult, DocsError>)
    ensures
        match r {
            Ok(res) => res.ok && list_sheets_spec(*info, read_view(*contents)) == Ok::<Seq<Seq<char>>, (ErrorKind, Seq<char>)>(
                res.sheets@.map_values(|s: String| s@),
            ),
            Err(e) => list_sheets_spec(*info, read_view(*contents)) == failure::<Seq<Seq<char>>>(e.kind(), e.detail()),
        },
{
    let _path = require_xlsx(info)?;
    let data = workbook_bytes(contents)?;
    match xlsx_sheet_names(data.as_slice()) {
        Ok(sheets) => Ok(ListSheetsResult { ok: true, sheets }),
        Err(m) => Err(make_error(ErrorKind::ParseError, &chars_of(m.as_str()))),
    }
}

/// The error a failed worksheet read turns into: a message that speaks of a missing sheet
/// ("not found" in any ASCII case, "找不到" or "Sheet") becomes "sheet does not exist",
/// anything else a parse failure.
pub open spec fn sheet_error(sheet: Seq<char>, msg: Seq<char>) -> (ErrorKind, Seq<char>) {
    if contains_seq(ascii_lower_seq(msg), "not found"@) || contains_seq(msg, "找不到"@) || contains_seq(msg, "Sheet"@) {
        (ErrorKind::InvalidArgument, "工作表不存在: "@ + sheet)
    } else {
        (ErrorKind::ParseError, "读取工作表失败: "@ + msg)
    }
}

fn classify_sheet_error(sheet: &str, msg: &str) -> (e: DocsError)
    ensures
        (e.kind(), e.detail()) == sheet_error(sheet@, msg@),
{
    let m = chars_of(msg);
    let lower = ascii_lowercase(&m);
    let nf = chars_of("not found");
    let zh = chars_of("找不到");
    let sh = chars_of("Sheet");
    if contains(&lower, &nf) || contains(&m, &zh) || contains(&m, &sh) {
        error_with(ErrorKind::InvalidArgument, "工作表不存在: ", &chars_of(sheet))
    } else {
        error_with(ErrorKind::ParseError, "读取工作表失败: ", &m)
    }
}

/// One page of a table: rows `offset .. offset + limit` (limit defaulting to no limit),
/// whether rows remain after the page, and the table's row count; an offset past the end
/// is refused.
pub open spec fn page_spec(table: Seq<Seq<CellView>>, offset: Option<usize>, limit: Option<usize>) -> Result<
    (Seq<Seq<CellView>>, bool, nat),
    (ErrorKind, Seq<char>),
> {
    let total = table.len();
    let off = match offset { Some(o) => o as int, None => 0 };
    let lim = match limit { Some(l) => l as int, None => usize::MAX as int };
    if off > total {
        failure(ErrorKind::InvalidArgument, "offset "@ + decimal(off as nat) + " 超出总行数 "@ + decimal(total))
    } else {
        let end = if off + lim < total { off + lim } else { total as int };
        Ok((table.subrange(off, end), end < total, total))
    }
}

/// Reads one page of a calamine range.
fn page_of_range(view: &calamine::Range<calamine::Data>, offset: Option<usize>, limit: Option<usize>) -> (r: Result<ReadSheetResult, DocsError>)
    ensures
        match r {
            Ok(res) => res.ok && page_spec(range_rows(*view), offset, limit) == Ok::<(Seq<Seq<CellView>>, bool, nat), (ErrorKind, Seq<char>)>(
                (table_view(res.rows@), res.truncated, res.total_rows as nat),
            ),
            Err(e) => page_spec(range_rows(*view), offset, limit) == failure::<(Seq<Seq<CellView>>, bool, nat)>(e.kind(), e.detail()),
        },
{
    let total = range_height(view);
    let width = range_width(view);
    let ghost cells = range_rows(*view);
    let off: usize = match offset { Some(o) => o, None => 0 };
    let lim: usize = match limit { Some(l) => l, None => usize::MAX };
    if off > total {
        let mut d: Vec<char> = Vec::new();
        push_str(&mut d, "offset ");
        push_decimal(&mut d, off as u64);
        push_str(&mut d, " 超出总行数 ");
        push_decimal(&mut d, total as u64);
        let e = make_error(ErrorKind::InvalidArgument, &d);
        assert(e.detail() =~= "offset "@ + decimal(off as nat) + " 超出总行数 "@ + decimal(total as nat));
        return Err(e);
    }
    let end: usize = if lim < total - off { off + lim } else { total };
    let mut rows: Vec<Vec<CellValue>> = Vec::new();
    let mut i = off;
    while i < end
        invariant
            off <= i <= end <= total,
            total == cells.len(),
            cells == range_rows(*view),
            forall|k: int| 0 <= k < cells.len() ==> #[trigger] cells[k].len() == width,
            table_view(rows@) == cells.subrange(off as int, i as int),
            rows@.len() == i - off,
        decreases end - i,
    {
        let mut row: Vec<CellValue> = Vec::new();
        let mut j: usize = 0;
        assert(cells[i as int].len() == width);
        while j < width
            invariant
                i < total == cells.len(),
                cells == range_rows(*view),
                cells[i as int].len() == width,
                j <= width,
                row_view(row@) == cells[i as int].take(j as int),
                row@.len() == j,
            decreases width - j,
        {
            let c = data_to_value(range_cell(view, i, j));
            let ghost prev = row@;
            row.push(c);
            j = j + 1;
            assert(row@ == prev.push(c));
            assert forall|k: int| 0 <= k < j implies #[trigger] row_view(row@)[k] == cells[i as int].take(j as int)[k] by {
                if k < j - 1 {
                    assert(row@[k] == prev[k]);
                    assert(row_view(prev)[k] == cells[i as int].take(j - 1)[k]);
                }
            }
            assert(row_view(row@) =~= cells[i as int].take(j as int));
        }
        assert(cells[i as int].take(width as int) =~= cells[i as int]);
        let ghost prev_rows = rows@;
        let ghost rv = row@;
        rows.push(row);
        i = i + 1;
        assert(rows@ == prev_rows.push(row));
        assert forall|k: int| 0 <= k < i - off implies #[trigger] table_view(rows@)[k] == cells.subrange(off as int, i as int)[k] by {
            if k < i - off - 1 {
                assert(rows@[k] == prev_rows[k]);
                assert(table_view(prev_rows)[k] == cells.subrange(off as int, i - 1)[k]);
            } else {
                assert(rows@[k]@ == rv);
            }
        }
        assert(table_view(rows@) =~= cells.subrange(off as int, i as int));
    }
    Ok(ReadSheetResult { ok: true, rows, truncated: end < total, total_rows: total })
}

/// The table a sheet read pages through: the whole sheet, or the requested A1 area cut
/// out of it (cells outside the sheet's data read as null).
pub open spec fn sheet_view(
    cells: Seq<Seq<CellView>>,
    origin: (u32, u32),
    range: Option<Seq<char>>,
) -> Result<Seq<Seq<CellView>>, (ErrorKind, Seq<char>)> {
    match range {
        None => Ok(cells),
        Some(r) => match a1_range(r) {
            Err(e) => Err(e),
            Ok((s, e)) => Ok(sub_table(cells, origin, s, e)),
        },
    }
}

pub open spec fn opt_string_view(o: Option<String>) -> Option<Seq<char>> {
    match o {
        Some(s) => Some(s@),
        None => None,
    }
}

/// The area request of a read can be served: no area, an area that does not parse, or an
/// area that `Range::range` accepts.
pub open spec fn area_servable(cells: Seq<Seq<CellView>>, range: Option<Seq<char>>) -> bool {
    match range {
        None => true,
        Some(r) => match a1_range(r) {
            Err(_) => true,
            Ok((s, e)) => sub_range_ok(cells, s, e),
        },
    }
}

/// What a read of one sheet gives, from the sheet's cells and origin on.
pub open spec fn read_range_spec(
    cells: Seq<Seq<CellView>>,
    origin: (u32, u32),
    range: Option<Seq<char>>,
    offset: Option<usize>,
    limit: Option<usize>,
) -> Result<(Seq<Seq<CellView>>, bool, nat), (ErrorKind, Seq<char>)> {
    match sheet_view(cells, origin, range) {
        Err(e) => Err(e),
        Ok(t) => page_spec(t, offset, limit),
    }
}

/// Cutting an area out of raw cells and reading its values is reading the values of the
/// table and cutting the area out of them.
proof fn lemma_sub_table_values(t: Seq<Seq<SheetDataView>>, origin: (u32, u32), start: (u32, u32), end: (u32, u32))
    ensures
        data_table(data_sub_table(t, origin, start, end)) == sub_table(data_table(t), origin, start, end),
{
    let a = data_table(data_sub_table(t, origin, start, end));
    let b = sub_table(data_table(t), origin, start, end);
    assert forall|i: int| 0 <= i < a.len() implies #[trigger] a[i] =~= b[i] by {
        assert forall|j: int| 0 <= j < a[i].len() implies #[trigger] a[i][j] == b[i][j] by {
            let row = start.0 + i;
            let col = start.1 + j;
            let ii = row - origin.0;
            let jj = col - origin.1;
            if 0 <= ii < t.len() && 0 <= jj < t[ii].len() {
                assert(data_table(t)[ii][jj] == data_value(t[ii][jj]));
            }
        }
    }
    assert(a =~= b);
}

/// Reads one page of a worksheet range, after cutting out the requested A1 area.
pub fn read_sheet_range(
    sheet_range: &calamine::Range<calamine::Data>,
    opts: &ReadSheetOptions,
) -> (r: Result<ReadSheetResult, DocsError>)
    requires
        area_servable(range_rows(*sheet_range), opt_string_view(opts.range)),
    ensures
        match r {
            Ok(res) => res.ok && read_range_spec(range_rows(*sheet_range), range_origin(*sheet_range), opt_string_view(opts.range), opts.offset, opts.limit)
                == Ok::<(Seq<Seq<CellView>>, bool, nat), (ErrorKind, Seq<char>)>((table_view(res.rows@), res.truncated, res.total_rows as nat)),
            Err(e) => read_range_spec(range_rows(*sheet_range), range_origin(*sheet_range), opt_string_view(opts.range), opts.offset, opts.limit)
                == failure::<(Seq<Seq<CellView>>, bool, nat)>(e.kind(), e.detail()),
        },
{
    match &opts.range {
        Some(r) => {
            let (s, e) = crate::docs::a1::parse_a1_range(r.as_str())?;
            let sub = range_sub(sheet_range, s, e);
            proof {
                lemma_sub_table_values(range_data(*sheet_range), range_origin(*sheet_range), s, e);
            }
            page_of_range(&sub, opts.offset, opts.limit)
        },
        None => page_of_range(sheet_range, opts.offset, opts.limit),
    }
}

/// Paging never changes the count: every page of a table that can be read reports the
/// table's row count, whatever its offset and limit.
pub proof fn law_page_total_ignores_window(
    table: Seq<Seq<CellView>>,
    o1: Option<usize>,
    l1: Option<usize>,
    o2: Option<usize>,
    l2: Option<usize>,
)
    requires
        page_spec(table, o1, l1) is Ok,
        page_spec(table, o2, l2) is Ok,
    ensures
        page_spec(table, o1, l1)->Ok_0.2 == table.len(),
        page_spec(table, o2, l2)->Ok_0.2 == table.len(),
{
}

/// A page is truncated exactly when rows remain after it.
pub proof fn law_page_truncated_iff_rows_remain(table: Seq<Seq<CellView>>, offset: Option<usize>, limit: Option<usize>)
    requires
        page_spec(table, offset, limit) is Ok,
    ensures
        ({
            let (rows, truncated, total) = page_spec(table, offset, limit)->Ok_0;
            let off = match offset { Some(o) => o as int, None => 0 };
            truncated == (off + rows.len() < total)
        }),
{
}

/// Two consecutive pages hold the same rows as the one page that spans them.
pub proof fn law_pages_concatenate(table: Seq<Seq<CellView>>, offset: usize, l1: usize, l2: usize)
    requires
        offset + l1 <= table.len(),
        offset + l1 + l2 <= usize::MAX,
    ensures
        page_spec(table, Some(offset), Some(l1)) is Ok,
        page_spec(table, Some((offset + l1) as usize), Some(l2)) is Ok,
        page_spec(table, Some(offset), Some((l1 + l2) as usize)) is Ok,
        page_spec(table, Some(offset), Some(l1))->Ok_0.0 + page_spec(table, Some((offset + l1) as usize), Some(l2))->Ok_0.0
            == page_spec(table, Some(offset), Some((l1 + l2) as usize))->Ok_0.0,
{
    let end1 = offset + l1;
    let end2 = if end1 + l2 < table.len() { end1 + l2 } else { table.len() as int };
    assert(table.subrange(offset as int, end1) + table.subrange(end1, end2) =~= table.subrange(offset as int, end2));
}

/// Every page of one sheet read (same file, sheet and area) reports the same row count.
pub proof fn law_sheet_total_ignores_window(
    info: PathInfo,
    contents: Result<Seq<u8>, Seq<char>>,
    sheet: Seq<char>,
    range: Option<Seq<char>>,
    o1: Option<usize>,
    l1: Option<usize>,
    o2: Option<usize>,
    l2: Option<usize>,
)
    requires
        read_sheet_spec(info, contents, sheet, range, o1, l1) matches Some(Ok(_)),
        read_sheet_spec(info, contents, sheet, range, o2, l2) matches Some(Ok(_)),
    ensures
        read_sheet_spec(info, contents, sheet, range, o1, l1)->Some_0->Ok_0.2
            == read_sheet_spec(info, contents, sheet, range, o2, l2)->Some_0->Ok_0.2,
{
}

/// What `read_sheet` gives: `None` where the area request cannot be served on this sheet
/// (`Range::range` would panic), otherwise the page or the error.
pub open spec fn read_sheet_spec(
    info: PathInfo,
    contents: Result<Seq<u8>, Seq<char>>,
    sheet: Seq<char>,
    range: Option<Seq<char>>,
    offset: Option<usize>,
    limit: Option<usize>,
) -> Option<Result<(Seq<Seq<CellView>>, bool, nat), (ErrorKind, Seq<char>)>> {
    match xlsx_path_spec(info) {
        Err(e) => Some(Err(e)),
        Ok(_) => match contents {
            Err(m) => Some(failure(ErrorKind::ParseError, "I/O error: "@ + m)),
            Ok(b) => match workbook_range(b, sheet) {
                Err(SheetFailureView::Open(m)) => Some(failure(ErrorKind::ParseError, m)),
                Err(SheetFailureView::Sheet(m)) => Some(Err(sheet_error(sheet, m))),
                Ok((raw, origin)) => if area_servable(data_table(raw), range) {
                    Some(read_range_spec(data_table(raw), origin, range, offset, limit))
                } else {
                    None
                },
            },
        },
    }
}

pub open spec fn read_result_view(r: Result<ReadSheetResult, DocsError>) -> Result<(Seq<Seq<CellView>>, bool, nat), (ErrorKind, Seq<char>)> {
    match r {
        Ok(res) => Ok((table_view(res.rows@), res.truncated, res.total_rows as nat)),
        Err(e) => Err((e.kind(), e.detail())),
    }
}

fn area_check(cells_len: usize, range: &Option<String>, Ghost(cells): Ghost<Seq<Seq<CellView>>>) -> (ok: bool)
    requires
        cells_len == cells.len(),
    ensures
        ok == area_servable(cells, opt_string_view(*range)),
{
    match range {
        None => true,
        Some(r) => match crate::docs::a1::parse_a1_range(r.as_str()) {
            Err(_) => true,
            Ok((s, e)) => {
                let h: u128 = (e.0 - s.0) as u128 + 1;
                let w: u128 = (e.1 - s.1) as u128 + 1;
                assert(h * w <= 0x1_0000_0000u128 * 0x1_0000_0000u128) by (nonlinear_arith)
                    requires h <= 0x1_0000_0000u128, w <= 0x1_0000_0000u128, h >= 0, w >= 0;
                let small = h <= 0xffff_ffff && w <= 0xffff_ffff && h * w <= 0xffff_ffff;
                proof {
                    if !small {
                        if h <= 0xffff_ffff && w <= 0xffff_ffff {
                        } else {
                            assert(h >= 1 && w >= 1);
                            assert(h * w >= h) by (nonlinear_arith) requires w >= 1, h >= 0;
                            assert(h * w >= w) by (nonlinear_arith) requires h >= 1, w >= 0;
                        }
                    }
                }
                small && !(cells_len == 0 && s.0 == 0 && s.1 == 0)
            },
        },
    }
}

/// Reads one page of a sheet of a workbook file: the whole sheet or an A1 area of it, from
/// `offset` (default 0), at most `limit` rows (default: all). `contents` is the file's
/// bytes, or the message of the error met reading it. `None` when the area request cannot
/// be served on this sheet (an area on an empty sheet that starts at `A1`, or one of more
/// than `u32::MAX` cells).
pub fn read_sheet(
    info: &PathInfo,
    contents: &Result<Vec<u8>, String>,
    sheet: &str,
    opts: &ReadSheetOptions,
) -> (r: Option<Result<ReadSheetResult, DocsError>>)
    ensures
        match r {
            None => read_sheet_spec(*info, read_view(*contents), sheet@, opt_string_view(opts.range), opts.offset, opts.limit) is None,
            Some(res) => read_sheet_spec(*info, read_view(*contents), sheet@, opt_string_view(opts.range), opts.offset, opts.limit)
                == Some(read_result_view(res)) && (res matches Ok(v) ==> v.ok),
        },
{
    match require_xlsx(info) {
        Err(e) => {
            return Some(Err(e));
        },
        Ok(_) => {},
    }
    let data = match workbook_bytes(contents) {
        Err(e) => {
            return Some(Err(e));
        },
        Ok(d) => d,
    };
    let rg = match xlsx_worksheet(data.as_slice(), sheet) {
        Ok(rg) => rg,
        Err(SheetFailure::Open(m)) => {
            return Some(Err(make_error(ErrorKind::ParseError, &chars_of(m.as_str()))));
        },
        Err(SheetFailure::Sheet(m)) => {
            return Some(Err(classify_sheet_error(sheet, m.as_str())));
        },
    };
    let h = range_height(&rg);
    if !area_check(h, &opts.range, Ghost(range_rows(rg))) {
        return None;
    }
    Some(read_sheet_range(&rg, opts))
}

/// What `to_csv` gives: the CSV text of the whole sheet.
pub open spec fn to_csv_spec(info: PathInfo, contents: Result<Seq<u8>, Seq<char>>, sheet: Seq<char>) -> Result<Seq<char>, (ErrorKind, Seq<char>)> {
    match read_sheet_spec(info, contents, sheet, None, None, None) {
        Some(Ok((rows, _, _))) => Ok(csv_text(rows)),
        Some(Err(e)) => Err(e),
        None => Ok(Seq::empty()),
    }
}

/// Exports a whole sheet as CSV: every row, each field quoted when it holds a comma, a
/// quote or a newline, each line ended by a newline. With `output_path` (which must not
/// exist yet; `target_exists` tells whether it does) the result names it as where the
/// caller writes the text.
pub fn to_csv(info: &PathInfo, contents: &Result<Vec<u8>, String>, sheet: &str, output_path: Option<&str>, target_exists: bool) -> (r: Result<CsvResult, DocsError>)
    ensures
        read_sheet_spec(*info, read_view(*contents), sheet@, None, None, None) is Some,
        match r {
            Ok(res) => res.ok && to_csv_spec(*info, read_view(*contents), sheet@) == Ok::<Seq<char>, (ErrorKind, Seq<char>)>(res.csv@)
                && export_target_spec(opt_view(output_path), target_exists) == Ok::<Option<Seq<char>>, (ErrorKind, Seq<char>)>(opt_target_view(res.output_path)),
            Err(e) => match to_csv_spec(*info, read_view(*contents), sheet@) {
                Err(x) => x == (e.kind(), e.detail()),
                Ok(_) => export_target_spec(opt_view(output_path), target_exists) == failure::<Option<Seq<char>>>(e.kind(), e.detail()),
            },
        },
{
    let opts = ReadSheetOptions { range: None, limit: None, offset: None };
    let csv = match read_sheet(info, contents, sheet, &opts) {
        None => {
            proof {
                assert(area_servable(Seq::empty(), None));
            }
            string_from_chars(&Vec::new())
        },
        Some(Err(e)) => {
            return Err(e);
        },
        Some(Ok(res)) => rows_to_csv(&res.rows),
    };
    let target = export_target(output_path, target_exists)?;
    Ok(CsvResult { ok: true, csv, output_path: target })
}

#[verifier::external_type_specification]
#[verifier::external_body]
pub struct ExSpreadsheet(umya_spreadsheet::Spreadsheet);

/// The sheet names of a umya workbook, in order.
pub uninterp spec fn book_sheet_names(b: umya_spreadsheet::Spreadsheet) -> Seq<Seq<char>>;

/// The value umya-spreadsheet holds in a cell (its `CellRawValue`): nothing, a string, a
/// number (by the bits of its float), a boolean, or anything else (an error code, rich
/// text, a value not yet parsed).
pub enum StoredCell {
    Empty,
    Text(Seq<char>),
    Number(u64),
    Bool(bool),
    Other,
}

/// The values held in the cells of a umya workbook, keyed by (sheet index, column, row),
/// columns and rows counted from 1.
pub uninterp spec fn book_cells(b: umya_spreadsheet::Spreadsheet) -> Map<(int, u32, u32), StoredCell>;

/// What `Cell::set_value` stores for the text `s` (umya guesses its type: empty, a
/// boolean, an error code, a number, or a string).
pub uninterp spec fn value_stored(s: Seq<char>) -> StoredCell;

/// The bits of the float nearest to an integer.
pub uninterp spec fn f64_bits_of_int(i: i64) -> u64;

/// The bits of the float `serde_json` reads from a text (`from_str::<Number>`, then
/// `Number::as_f64`), or none when it reads none (the text is no JSON number).
pub uninterp spec fn json_number_bits(t: Seq<char>) -> Option<u64>;

/// What writing a cell value stores: null as the empty string, text and JSON text as
/// strings (umya guessing their type), booleans as booleans, numbers as numbers.
pub open spec fn stored_of(v: CellView) -> StoredCell {
    match v {
        CellView::Null => value_stored(""@),
        CellView::Bool(b) => StoredCell::Bool(b),
        CellView::Int(i) => StoredCell::Number(f64_bits_of_int(i)),
        CellView::Decimal(t) => match json_number_bits(t) {
            Some(bits) => StoredCell::Number(bits),
            None => value_stored(t),
        },
        CellView::Text(s) => value_stored(s),
        CellView::Json(s) => value_stored(s),
    }
}

/// The 1-based `(column, row)` umya-spreadsheet reads from a cell address (after upper-
/// casing it), or none when its parser finds no column or no row in it.
pub uninterp spec fn umya_position(addr: Seq<char>) -> Option<(u32, u32)>;

/// A workbook without cell values.
pub open spec fn no_cells() -> Map<(int, u32, u32), StoredCell> {
    Map::empty()
}

/// `umya_spreadsheet::new_file`: a workbook holding one sheet, named `Sheet1`, with no
/// cell values.
#[verifier::external_body]
fn new_book() -> (fresh: umya_spreadsheet::Spreadsheet)
    ensures
        book_sheet_names(fresh) =~= Seq::<Seq<char>>::empty().push("Sheet1"@),
        book_cells(fresh) == no_cells(),
{
    umya_spreadsheet::new_file()
}

/// `Spreadsheet::get_sheet_mut(&0)` followed by `Worksheet::set_name`: renames the first
/// sheet when there is one.
#[verifier::external_body]
fn rename_first_sheet(b: &mut umya_spreadsheet::Spreadsheet, name: &str) -> (done: bool)
    ensures
        done == (book_sheet_names(*old(b)).len() > 0),
        done ==> book_sheet_names(*final(b)) == book_sheet_names(*old(b)).update(0, name@),
        !done ==> book_sheet_names(*final(b)) == book_sheet_names(*old(b)),
        book_cells(*final(b)) == book_cells(*old(b)),
{
    match b.get_sheet_mut(&0) {
        Some(ws) => {
            ws.set_name(name);
            true
        },
        None => false,
    }
}

/// The index of the first sheet called `name`.
pub open spec fn first_named(names: Seq<Seq<char>>, name: Seq<char>) -> Option<int> {
    if exists|i: int| 0 <= i < names.len() && names[i] == name {
        Some(choose|i: int| 0 <= i < names.len() && names[i] == name && forall|j: int| 0 <= j < i ==> names[j] != name)
    } else {
        None
    }
}

/// `Spreadsheet::get_sheet_by_name`: whether a sheet called `name` exists.
#[verifier::external_body]
fn has_sheet(b: &umya_spreadsheet::Spreadsheet, name: &str) -> (found: bool)
    ensures
        found == first_named(book_sheet_names(*b), name@) is Some,
{
    b.get_sheet_by_name(name).is_some()
}

/// umya-spreadsheet's reading of a cell address
/// (`helper::coordinate::index_from_coordinate` on the upper-cased address), as a
/// 1-based `(column, row)` when it finds both.
#[verifier::external_body]
fn cell_position(addr: &str) -> (p: Option<(u32, u32)>)
    ensures
        p == umya_position(addr@),
{
    match umya_spreadsheet::helper::coordinate::index_from_coordinate(addr.to_uppercase()) {
        (Some(col), Some(row), _, _) => Some((col, row)),
        _ => None,
    }
}

/// The cells of a workbook after a cell of the first sheet called `sheet` at `addr` gets
/// `v`; unchanged when there is no such sheet.
pub open spec fn cells_after_set(b: umya_spreadsheet::Spreadsheet, sheet: Seq<char>, addr: Seq<char>, v: StoredCell) -> Map<(int, u32, u32), StoredCell> {
    match (first_named(book_sheet_names(b), sheet), umya_position(addr)) {
        (Some(i), Some((c, r))) => book_cells(b).insert((i, c, r), v),
        _ => book_cells(b),
    }
}

/// `Spreadsheet::get_sheet_by_name_mut`, `Worksheet::get_cell_mut` with the address, and
/// `Cell::set_value` with `text`: the cell holds what umya makes of the text.
#[verifier::external_body]
fn set_cell_text(b: &mut umya_spreadsheet::Spreadsheet, sheet: &str, addr: &str, text: &str) -> (found: bool)
    requires
        umya_position(addr@) is Some,
    ensures
        found == first_named(book_sheet_names(*old(b)), sheet@) is Some,
        book_sheet_names(*final(b)) == book_sheet_names(*old(b)),
        book_cells(*final(b)) == cells_after_set(*old(b), sheet@, addr@, value_stored(text@)),
{
    let Some(ws) = b.get_sheet_by_name_mut(sheet) else { return false };
    ws.get_cell_mut(addr).set_value(text);
    true
}

/// `Spreadsheet::get_sheet_by_name_mut`, `Worksheet::get_cell_mut` with the address, and
/// `Cell::set_value_bool`.
#[verifier::external_body]
fn set_cell_bool(b: &mut umya_spreadsheet::Spreadsheet, sheet: &str, addr: &str, value: bool) -> (found: bool)
    requires
        umya_position(addr@) is Some,
    ensures
        found == first_named(book_sheet_names(*old(b)), sheet@) is Some,
        book_sheet_names(*final(b)) == book_sheet_names(*old(b)),
        book_cells(*final(b)) == cells_after_set(*old(b), sheet@, addr@, StoredCell::Bool(value)),
{
    let Some(ws) = b.get_sheet_by_name_mut(sheet) else { return false };
    ws.get_cell_mut(addr).set_value_bool(value);
    true
}

/// `Spreadsheet::get_sheet_by_name_mut`, `Worksheet::get_cell_mut` with the address, and
/// `Cell::set_value_number` with the integer's nearest float (`serde_json::Number::as_f64`
/// of the integer, which always gives one).
#[verifier::external_body]
fn set_cell_int(b: &mut umya_spreadsheet::Spreadsheet, sheet: &str, addr: &str, value: i64) -> (found: bool)
    requires
        umya_position(addr@) is Some,
    ensures
        found == first_named(book_sheet_names(*old(b)), sheet@) is Some,
        book_sheet_names(*final(b)) == book_sheet_names(*old(b)),
        book_cells(*final(b)) == cells_after_set(*old(b), sheet@, addr@, StoredCell::Number(f64_bits_of_int(value))),
{
    let Some(ws) = b.get_sheet_by_name_mut(sheet) else { return false };
    ws.get_cell_mut(addr).set_value_number(Number::from(value).as_f64().unwrap_or_default());
    true
}

/// `serde_json::from_str::<serde_json::Number>` and `Number::as_f64` on `text`; when that
/// gives a float, `Spreadsheet::get_sheet_by_name_mut`, `Worksheet::get_cell_mut` with the
/// address, and `Cell::set_value_number` with it. `None`, touching nothing, when the text
/// is no JSON number.
#[verifier::external_body]
fn set_cell_decimal(b: &mut umya_spreadsheet::Spreadsheet, sheet: &str, addr: &str, text: &str) -> (found: Option<bool>)
    requires
        umya_position(addr@) is Some,
    ensures
        found is None <==> json_number_bits(text@) is None,
        found is None ==> *final(b) == *old(b),
        found matches Some(f) ==> {
            &&& f == first_named(book_sheet_names(*old(b)), sheet@) is Some
            &&& book_sheet_names(*final(b)) == book_sheet_names(*old(b))
            &&& book_cells(*final(b)) == cells_after_set(*old(b), sheet@, addr@, StoredCell::Number(json_number_bits(text@)->Some_0))
        },
{
    let Some(value) = serde_json::from_str::<Number>(text).ok().and_then(|n| n.as_f64()) else { return None };
    let Some(ws) = b.get_sheet_by_name_mut(sheet) else { return Some(false) };
    ws.get_cell_mut(addr).set_value_number(value);
    Some(true)
}

/// Writes a cell value at `addr` in the first sheet called `sheet`: null as the empty
/// string, booleans and numbers with their own setters (an integer through its nearest
/// float, a decimal through the float its JSON text parses to), text and JSON text as
/// strings that umya types itself.
fn set_cell(b: &mut umya_spreadsheet::Spreadsheet, sheet: &str, addr: &str, v: &CellValue) -> (found: bool)
    requires
        umya_position(addr@) is Some,
    ensures
        found == first_named(book_sheet_names(*old(b)), sheet@) is Some,
        book_sheet_names(*final(b)) == book_sheet_names(*old(b)),
        book_cells(*final(b)) == cells_after_set(*old(b), sheet@, addr@, stored_of(v@)),
{
    match v {
        CellValue::Null => set_cell_text(b, sheet, addr, ""),
        CellValue::Bool(x) => set_cell_bool(b, sheet, addr, *x),
        CellValue::Int(i) => set_cell_int(b, sheet, addr, *i),
        CellValue::Decimal(t) => match set_cell_decimal(b, sheet, addr, t.as_str()) {
            Some(found) => found,
            None => set_cell_text(b, sheet, addr, t.as_str()),
        },
        CellValue::Text(s) => set_cell_text(b, sheet, addr, s.as_str()),
        CellValue::Json(s) => set_cell_text(b, sheet, addr, s.as_str()),
    }
}

/// Writes `v` at the cell umya reads from `addr` in the first sheet called `sheet`.
pub open spec fn put_cell(m: Map<(int, u32, u32), StoredCell>, sheet: int, addr: Seq<char>, v: CellView) -> Map<(int, u32, u32), StoredCell> {
    match umya_position(addr) {
        Some((c, r)) => m.insert((sheet, c, r), stored_of(v)),
        None => m,
    }
}

/// The cells after writing `row` as row `r` (1-based), left to right from column `A`.
pub open spec fn put_row(m: Map<(int, u32, u32), StoredCell>, sheet: int, r: nat, row: Seq<CellView>) -> Map<(int, u32, u32), StoredCell>
    decreases row.len(),
{
    if row.len() == 0 {
        m
    } else {
        put_cell(put_row(m, sheet, r, row.drop_last()), sheet, crate::docs::a1::address_of(r, row.len()), row.last())
    }
}

/// The cells after writing `rows` from row 1 down.
pub open spec fn put_rows(m: Map<(int, u32, u32), StoredCell>, sheet: int, rows: Seq<Seq<CellView>>) -> Map<(int, u32, u32), StoredCell>
    decreases rows.len(),
{
    if rows.len() == 0 {
        m
    } else {
        put_row(put_rows(m, sheet, rows.drop_last()), sheet, rows.len(), rows.last())
    }
}

/// Every cell address a write of `rows` uses is one umya reads a cell from.
pub open spec fn rows_addressable(rows: Seq<Seq<CellView>>) -> bool {
    forall|r: int, c: int| 0 <= r < rows.len() && 0 <= c < rows[r].len() ==>
        (#[trigger] umya_position(crate::docs::a1::address_of((r + 1) as nat, (c + 1) as nat))) is Some
}

/// Fills the first sheet with `rows`, row `i` (0-based) at spreadsheet row `i + 1`,
/// column `j` at the `j + 1`-th column letter. `false`, leaving the book as it was at the
/// failing cell, when umya cannot read one of the addresses.
fn fill_rows(b: &mut umya_spreadsheet::Spreadsheet, sheet: &str, rows: &Vec<Vec<CellValue>>) -> (ok: bool)
    requires
        first_named(book_sheet_names(*old(b)), sheet@) == Some(0int),
    ensures
        ok == rows_addressable(table_view(rows@)),
        book_sheet_names(*final(b)) == book_sheet_names(*old(b)),
        ok ==> book_cells(*final(b)) == put_rows(book_cells(*old(b)), 0, table_view(rows@)),
{
    let mut i: usize = 0;
    while i < rows.len()
        invariant
            i <= rows.len(),
            first_named(book_sheet_names(*b), sheet@) == Some(0int),
            book_sheet_names(*b) == book_sheet_names(*old(b)),
            book_cells(*b) == put_rows(book_cells(*old(b)), 0, table_view(rows@.take(i as int))),
            rows_addressable(table_view(rows@.take(i as int))),
        decreases rows.len() - i,
    {
        let row = &rows[i];
        let ghost before = book_cells(*b);
        let mut j: usize = 0;
        while j < row.len()
            invariant
                i < rows.len(),
                row == &rows@[i as int],
                j <= row.len(),
                first_named(book_sheet_names(*b), sheet@) == Some(0int),
                book_sheet_names(*b) == book_sheet_names(*old(b)),
                book_cells(*b) == put_row(before, 0, (i + 1) as nat, row_view(row@.take(j as int))),
                forall|c: int| 0 <= c < j ==> (#[trigger] umya_position(crate::docs::a1::address_of((i + 1) as nat, (c + 1) as nat))) is Some,
            decreases row.len() - j,
        {
            let addr = cell_address(i + 1, j + 1);
            match cell_position(addr.as_str()) {
                None => {
                    proof {
                        let tv = table_view(rows@);
                        assert(tv[i as int] == row_view(rows@[i as int]@));
                        assert(umya_position(crate::docs::a1::address_of((i + 1) as nat, (j + 1) as nat)) is None);
                    }
                    return false;
                },
                Some(_) => {},
            }
            let _ = set_cell(b, sheet, addr.as_str(), &row[j]);
            j = j + 1;
            proof {
                let rv = row_view(row@.take(j as int));
                assert(rv.drop_last() =~= row_view(row@.take(j - 1)));
                assert(rv.last() == row@[j - 1]@);
                assert(rv.len() == j);
            }
        }
        assert(row@.take(row.len() as int) =~= row@);
        i = i + 1;
        proof {
            let tv = table_view(rows@.take(i as int));
            assert(tv.drop_last() =~= table_view(rows@.take(i - 1)));
            assert(tv.last() == row_view(rows@[i - 1]@));
            assert(tv.len() == i);
            assert forall|r: int, c: int| 0 <= r < tv.len() && 0 <= c < tv[r].len() implies
                (#[trigger] umya_position(crate::docs::a1::address_of((r + 1) as nat, (c + 1) as nat))) is Some by {
                if r < i - 1 {
                    assert(tv[r] == table_view(rows@.take(i - 1))[r]);
                }
            }
        }
    }
    assert(rows@.take(rows.len() as int) =~= rows@);
    true
}

/// What `write` gives before any cell is written: the target path, or the error.
pub open spec fn write_target_spec(path: Seq<char>, target_exists: bool) -> Result<Seq<char>, (ErrorKind, Seq<char>)> {
    if target_exists {
        failure(ErrorKind::InvalidArgument, "目标已存在且未允许覆盖: "@ + path)
    } else {
        Ok(path)
    }
}

/// Builds a new workbook holding one sheet named `sheet` with `rows` written from `A1`,
/// for a file at `path` that must not exist yet (`target_exists` tells whether it does).
/// `None` when umya cannot read one of the cell addresses the rows need.
pub fn write(path: &str, target_exists: bool, sheet: &str, rows: &Vec<Vec<CellValue>>) -> (r: Option<Result<(XlsxWriteResult, umya_spreadsheet::Spreadsheet), DocsError>>)
    ensures
        match write_target_spec(path@, target_exists) {
            Err(e) => r matches Some(Err(x)) && (x.kind(), x.detail()) == e,
            Ok(t) => match r {
                None => !rows_addressable(table_view(rows@)),
                Some(Err(_)) => false,
                Some(Ok((res, book))) => {
                    &&& rows_addressable(table_view(rows@))
                    &&& res.ok && res.output_path@ == t
                    &&& book_sheet_names(book) == seq![sheet@]
                    &&& book_cells(book) == put_rows(Map::empty(), 0, table_view(rows@))
                },
            },
        },
{
    let out = match crate::docs::pathutil::resolve_output_path(None, Some(path), false, target_exists) {
        Err(e) => {
            return Some(Err(e));
        },
        Ok(o) => o,
    };
    let mut book = new_book();
    if !rename_first_sheet(&mut book, sheet) {
        return Some(Err(make_error(ErrorKind::Other, &chars_of("无法创建默认工作表"))));
    }
    proof {
        let names = book_sheet_names(book);
        assert(names =~= seq![sheet@]);
        let k = choose|k: int| 0 <= k < names.len() && names[k] == sheet@ && forall|j: int| 0 <= j < k ==> names[j] != sheet@;
        assert(names[0] == sheet@);
        assert(k == 0);
    }
    if !fill_rows(&mut book, sheet, rows) {
        return None;
    }
    Some(Ok((XlsxWriteResult { ok: true, output_path: out }, book)))
}

/// A cell to update: its A1 address and the value to put there.
#[derive(Debug, Clone)]
pub struct CellUpdate {
    pub cell: String,
    pub value: CellValue,
}

/// The cells after applying `updates` in order to sheet `sheet`.
pub open spec fn put_updates(m: Map<(int, u32, u32), StoredCell>, sheet: int, updates: Seq<CellUpdate>) -> Map<(int, u32, u32), StoredCell>
    decreases updates.len(),
{
    if updates.len() == 0 {
        m
    } else {
        put_cell(put_updates(m, sheet, updates.drop_last()), sheet, updates.last().cell@, updates.last().value@)
    }
}

/// Updating cells changes only the cells the updates address: every other cell keeps
/// what it held (or stays empty).
pub proof fn law_update_touches_only_addressed_cells(
    m: Map<(int, u32, u32), StoredCell>,
    sheet: int,
    updates: Seq<CellUpdate>,
    key: (int, u32, u32),
)
    requires
        forall|k: int| 0 <= k < updates.len() ==> key.0 != sheet || umya_position(#[trigger] updates[k].cell@) != Some((key.1, key.2)),
    ensures
        put_updates(m, sheet, updates).dom().contains(key) == m.dom().contains(key),
        m.dom().contains(key) ==> put_updates(m, sheet, updates)[key] == m[key],
    decreases updates.len(),
{
    if updates.len() > 0 {
        let init = updates.drop_last();
        assert forall|k: int| 0 <= k < init.len() implies key.0 != sheet || umya_position(#[trigger] init[k].cell@) != Some((key.1, key.2)) by {
            assert(init[k] == updates[k]);
        }
        law_update_touches_only_addressed_cells(m, sheet, init, key);
        assert(umya_position(updates[updates.len() - 1].cell@) != Some((key.1, key.2)) || key.0 != sheet);
    }
}

/// After updating cells, an addressed cell holds the value of the last update that
/// addresses it.
pub proof fn law_update_last_write_wins(
    m: Map<(int, u32, u32), StoredCell>,
    sheet: int,
    updates: Seq<CellUpdate>,
    j: int,
)
    requires
        0 <= j < updates.len(),
        umya_position(updates[j].cell@) is Some,
        forall|k: int| j < k < updates.len() ==> umya_position(#[trigger] updates[k].cell@) != umya_position(updates[j].cell@),
    ensures
        ({
            let (c, r) = umya_position(updates[j].cell@)->Some_0;
            put_updates(m, sheet, updates).dom().contains((sheet, c, r))
                && put_updates(m, sheet, updates)[(sheet, c, r)] == stored_of(updates[j].value@)
        }),
    decreases updates.len(),
{
    let (c, r) = umya_position(updates[j].cell@)->Some_0;
    if j < updates.len() - 1 {
        let init = updates.drop_last();
        assert forall|k: int| j < k < init.len() implies umya_position(#[trigger] init[k].cell@) != umya_position(init[j].cell@) by {
            assert(init[k] == updates[k]);
        }
        assert(init[j] == updates[j]);
        law_update_last_write_wins(m, sheet, init, j);
        assert(umya_position(updates.last().cell@) != Some((c, r)));
    }
}

pub open spec fn updates_addressable(updates: Seq<CellUpdate>) -> bool {
    forall|k: int| 0 <= k < updates.len() ==> (#[trigger] umya_position(updates[k].cell@)) is Some
}

/// Applies cell updates, in order, to the first sheet called `sheet` of a workbook. An
/// unknown sheet is refused; `None` when umya cannot read one of the addresses.
pub fn apply_cell_updates(book: &mut umya_spreadsheet::Spreadsheet, sheet: &str, cells: &Vec<CellUpdate>) -> (r: Option<Result<(), DocsError>>)
    ensures
        book_sheet_names(*final(book)) == book_sheet_names(*old(book)),
        match first_named(book_sheet_names(*old(book)), sheet@) {
            None => r matches Some(Err(e)) && e.kind() == ErrorKind::InvalidArgument && e.detail() == "工作表不存在: "@ + sheet@
                && book_cells(*final(book)) == book_cells(*old(book)),
            Some(i) => {
                &&& (r is None <==> !updates_addressable(cells@))
                &&& (r is Some ==> r == Some(Ok::<(), DocsError>(())))
                &&& (r is Some ==> book_cells(*final(book)) == put_updates(book_cells(*old(book)), i, cells@))
            },
        },
{
    if !has_sheet(book, sheet) {
        return Some(Err(error_with(ErrorKind::InvalidArgument, "工作表不存在: ", &chars_of(sheet))));
    }
    let ghost idx = first_named(book_sheet_names(*book), sheet@)->Some_0;
    let mut k: usize = 0;
    while k < cells.len()
        invariant
            k <= cells.len(),
            first_named(book_sheet_names(*book), sheet@) == Some(idx),
            book_sheet_names(*book) == book_sheet_names(*old(book)),
            book_cells(*book) == put_updates(book_cells(*old(book)), idx, cells@.take(k as int)),
            forall|m: int| 0 <= m < k ==> (#[trigger] umya_position(cells@[m].cell@)) is Some,
        decreases cells.len() - k,
    {
        let upd = &cells[k];
        match cell_position(upd.cell.as_str()) {
            None => {
                return None;
            },
            Some(_) => {},
        }
        let _ = set_cell(book, sheet, upd.cell.as_str(), &upd.value);
        k = k + 1;
        proof {
            let t = cells@.take(k as int);
            assert(t.drop_last() =~= cells@.take(k - 1));
            assert(t.last() == cells@[k - 1]);
        }
    }
    assert(cells@.take(cells.len() as int) =~= cells@);
    Some(Ok(()))
}

/// Where `update_cells` writes: the explicit output path, else the source; an existing
/// target other than the source itself is refused.
pub open spec fn update_target_spec(info: PathInfo, output_path: Option<Seq<char>>, target_exists: bool) -> Result<Seq<char>, (ErrorKind, Seq<char>)> {
    match xlsx_path_spec(info) {
        Err(e) => Err(e),
        Ok(src) => {
            let t = match output_path {
                Some(p) => p,
                None => src,
            };
            if target_exists && !crate::docs::pathutil::same_path(src, t) {
                failure(ErrorKind::InvalidArgument, "目标已存在且未允许覆盖: "@ + t)
            } else {
                Ok(t)
            }
        },
    }
}

/// Checks the workbook to update and settles where the result goes, before the workbook
/// is read.
pub fn update_target(info: &PathInfo, output_path: Option<&str>, target_exists: bool) -> (r: Result<String, DocsError>)
    ensures
        outcome(r) == update_target_spec(*info, crate::docs::pathutil::opt_view(output_path), target_exists),
{
    let src = require_xlsx(info)?;
    let overwrite = match output_path {
        Some(p) => crate::docs::pathutil::paths_equal(src.as_str(), p),
        None => true,
    };
    crate::docs::pathutil::resolve_output_path(Some(src.as_str()), output_path, overwrite, target_exists)
}

/// A workbook as umya read it, by its sheet names and cells, or the message of the error
/// met reading it.
pub open spec fn book_view(book: Result<umya_spreadsheet::Spreadsheet, String>) -> Result<(Seq<Seq<char>>, Map<(int, u32, u32), StoredCell>), Seq<char>> {
    match book {
        Ok(b) => Ok((book_sheet_names(b), book_cells(b))),
        Err(m) => Err(m@),
    }
}

/// What `update_cells` gives: the target, and the sheet names and cells of the updated
/// workbook; or the error; `None` where umya cannot read one of the addresses.
pub open spec fn update_cells_spec(
    info: PathInfo,
    book: Result<(Seq<Seq<char>>, Map<(int, u32, u32), StoredCell>), Seq<char>>,
    sheet: Seq<char>,
    cells: Seq<CellUpdate>,
    output_path: Option<Seq<char>>,
    target_exists: bool,
) -> Option<Result<(Seq<char>, Seq<Seq<char>>, Map<(int, u32, u32), StoredCell>), (ErrorKind, Seq<char>)>> {
    match update_target_spec(info, output_path, target_exists) {
        Err(e) => Some(Err(e)),
        Ok(t) => match book {
            Err(m) => Some(failure(ErrorKind::ParseError, m)),
            Ok((names, m)) => match first_named(names, sheet) {
                None => Some(failure(ErrorKind::InvalidArgument, "工作表不存在: "@ + sheet)),
                Some(i) => if updates_addressable(cells) {
                    Some(Ok((t, names, put_updates(m, i, cells))))
                } else {
                    None
                },
            },
        },
    }
}

/// `update_cells`'s result reduced to what its specification speaks of.
pub open spec fn update_outcome(r: Option<Result<(XlsxWriteResult, umya_spreadsheet::Spreadsheet), DocsError>>) -> Option<Result<(Seq<char>, Seq<Seq<char>>, Map<(int, u32, u32), StoredCell>), (ErrorKind, Seq<char>)>> {
    match r {
        None => None,
        Some(Err(e)) => Some(Err((e.kind(), e.detail()))),
        Some(Ok((res, book))) => Some(Ok((res.output_path@, book_sheet_names(book), book_cells(book)))),
    }
}

/// Applies cell updates to one sheet of an existing workbook. Without `output_path` the
/// result goes back to the source; an explicit other path must not exist yet
/// (`target_exists` tells whether the chosen target does). `book` is the workbook umya
/// read from the source, or the message of the error met reading it. Returns the target
/// and the updated workbook; `None` when umya cannot read one of the addresses.
pub fn update_cells(
    info: &PathInfo,
    book: Result<umya_spreadsheet::Spreadsheet, String>,
    sheet: &str,
    cells: &Vec<CellUpdate>,
    output_path: Option<&str>,
    target_exists: bool,
) -> (r: Option<Result<(XlsxWriteResult, umya_spreadsheet::Spreadsheet), DocsError>>)
    ensures
        update_outcome(r) == update_cells_spec(*info, book_view(book), sheet@, cells@, crate::docs::pathutil::opt_view(output_path), target_exists),
        r matches Some(Ok((res, _))) ==> res.ok,
{
    let out = match update_target(info, output_path, target_exists) {
        Err(e) => {
            return Some(Err(e));
        },
        Ok(o) => o,
    };
    let mut book = match book {
        Ok(b) => b,
        Err(m) => {
            return Some(Err(make_error(ErrorKind::ParseError, &chars_of(m.as_str()))));
        },
    };
    match apply_cell_updates(&mut book, sheet, cells) {
        None => None,
        Some(Err(e)) => Some(Err(e)),
        Some(Ok(())) => Some(Ok((XlsxWriteResult { ok: true, output_path: out }, book))),
    }
}

} // verus!
