use wps_mcp_rust::docs::cell::CellValue;
use wps_mcp_rust::docs::error::DocsError;
use wps_mcp_rust::docs::pathutil::PathInfo;
use wps_mcp_rust::docs::xlsx::{
    data_to_value, list_sheets, read_sheet, to_csv, update_cells, CellUpdate, ReadSheetOptions, ReadSheetResult, SheetData,
};

fn book_bytes(book: &umya_spreadsheet::Spreadsheet) -> Vec<u8> {
    let mut out = std::io::Cursor::new(Vec::new());
    umya_spreadsheet::writer::xlsx::write_writer(book, &mut out).unwrap();
    out.into_inner()
}

fn read_book(bytes: &[u8]) -> Result<umya_spreadsheet::Spreadsheet, String> {
    umya_spreadsheet::reader::xlsx::read_reader(std::io::Cursor::new(bytes), true).map_err(|e| e.to_string())
}

fn sample_xlsx() -> Vec<u8> {
    let mut book = umya_spreadsheet::new_file();
    book.get_sheet_mut(&0).unwrap().set_name("Sheet1");
    {
        let sheet = book.get_sheet_by_name_mut("Sheet1").unwrap();
        sheet.get_cell_mut("A1").set_value("Name");
        sheet.get_cell_mut("B1").set_value("Age");
        sheet.get_cell_mut("A2").set_value("Alice");
        sheet.get_cell_mut("B2").set_value_number(30.0);
        sheet.get_cell_mut("A3").set_value("Bob");
        sheet.get_cell_mut("B3").set_value_number(25.0);
    }
    book.new_sheet("Sheet2").unwrap();
    book.get_sheet_by_name_mut("Sheet2").unwrap().get_cell_mut("A1").set_value("X");
    book_bytes(&book)
}

fn xlsx_file(path: &str) -> PathInfo {
    PathInfo { path: path.to_string(), exists: true, is_file: true }
}

fn sheet_read(bytes: &[u8], sheet: &str, opts: ReadSheetOptions) -> Result<ReadSheetResult, DocsError> {
    read_sheet(&xlsx_file("book.xlsx"), &Ok(bytes.to_vec()), sheet, &opts).expect("area can be served")
}

fn text_cell(v: &CellValue) -> Option<&str> {
    match v {
        CellValue::Text(s) => Some(s.as_str()),
        _ => None,
    }
}

#[test]
fn list_sheets_works() {
    let r = list_sheets(&xlsx_file("tests/fixtures/sample.xlsx"), &Ok(sample_xlsx())).unwrap();
    assert!(r.sheets.iter().any(|s| s == "Sheet1"));
}

#[test]
fn read_sheet_with_limit() {
    let r = sheet_read(&sample_xlsx(), "Sheet1", ReadSheetOptions { range: None, limit: Some(2), offset: Some(0) }).unwrap();
    assert_eq!(r.rows.len(), 2);
    assert!(r.truncated);
    assert!(r.total_rows >= 3);
}

#[test]
fn xlsx_to_csv_and_write_update() {
    let csv = to_csv(&xlsx_file("tests/fixtures/sample.xlsx"), &Ok(sample_xlsx()), "Sheet1", None, false).unwrap();
    assert!(csv.csv.contains("Alice"));

    let rows = vec![
        vec![CellValue::Text("H1".into()), CellValue::Text("H2".into())],
        vec![CellValue::Int(1), CellValue::Int(2)],
    ];
    let (written, book) = wps_mcp_rust::docs::xlsx::write("w.xlsx", false, "Data", &rows).unwrap().unwrap();
    assert_eq!(written.output_path, "w.xlsx");
    let cells = vec![CellUpdate { cell: "A2".into(), value: CellValue::Text("changed".into()) }];
    let (updated, book2) =
        update_cells(&xlsx_file("w.xlsx"), read_book(&book_bytes(&book)), "Data", &cells, Some("u.xlsx"), false).unwrap().unwrap();
    assert_eq!(updated.output_path, "u.xlsx");
    let r = sheet_read(&book_bytes(&book2), "Data", ReadSheetOptions { range: None, limit: None, offset: None }).unwrap();
    assert_eq!(text_cell(&r.rows[1][0]), Some("changed"));
}

#[test]
fn read_sheet_range_a1_style() {
    let r = sheet_read(&sample_xlsx(), "Sheet1", ReadSheetOptions { range: Some("A1:A2".into()), limit: None, offset: None }).unwrap();
    assert_eq!(r.total_rows, 2);
    assert_eq!(r.rows.len(), 2);
    assert_eq!(r.rows[0].len(), 1);
    assert_eq!(text_cell(&r.rows[0][0]), Some("Name"));
    assert_eq!(text_cell(&r.rows[1][0]), Some("Alice"));
    assert!(!r.truncated);
}

#[test]
fn read_sheet_invalid_range_errors() {
    let err = sheet_read(&sample_xlsx(), "Sheet1", ReadSheetOptions { range: Some("not-a-range".into()), limit: None, offset: None }).unwrap_err();
    assert!(err.to_public_message().contains("range") || err.to_public_message().contains("区域"));
}

#[test]
fn read_sheet_missing_sheet_errors() {
    let err = sheet_read(&sample_xlsx(), "NoSuchSheet", ReadSheetOptions { range: None, limit: None, offset: None }).unwrap_err();
    let msg = err.to_public_message();
    assert!(msg.contains("工作表") || msg.contains("NoSuchSheet"));
}

#[test]
fn to_csv_exports_all_rows_without_default_limit() {
    let mut rows = vec![vec![CellValue::Text("idx".into())]];
    for i in 0..5200 {
        rows.push(vec![CellValue::Int(i)]);
    }
    let (_, book) = wps_mcp_rust::docs::xlsx::write("big.xlsx", false, "Big", &rows).unwrap().unwrap();
    let csv = to_csv(&xlsx_file("big.xlsx"), &Ok(book_bytes(&book)), "Big", None, false).unwrap();
    let line_count = csv.csv.lines().count();
    assert_eq!(line_count, 5201, "csv should include header + 5200 data rows");
}

#[test]
fn xlsx_write_refuses_overwrite_existing() {
    assert!(matches!(wps_mcp_rust::docs::xlsx::write("once.xlsx", false, "S", &vec![vec![CellValue::Text("a".into())]]), Some(Ok(_))));
    let err = match wps_mcp_rust::docs::xlsx::write("once.xlsx", true, "S", &vec![vec![CellValue::Text("b".into())]]) {
        Some(Err(e)) => e,
        _ => panic!("expected a refusal"),
    };
    assert!(err.to_public_message().contains("覆盖") || err.to_public_message().contains("已存在"));
}

#[test]
fn read_sheet_pages_exactly() {
    let r = sheet_read(&sample_xlsx(), "Sheet1", ReadSheetOptions { range: None, limit: Some(1), offset: Some(1) }).unwrap();
    assert_eq!(r.total_rows, 3);
    assert_eq!(r.rows.len(), 1);
    assert_eq!(text_cell(&r.rows[0][0]), Some("Alice"));
    assert!(r.truncated);
    let tail = sheet_read(&sample_xlsx(), "Sheet1", ReadSheetOptions { range: None, limit: Some(5), offset: Some(2) }).unwrap();
    assert_eq!(tail.rows.len(), 1);
    assert!(!tail.truncated);
    assert_eq!(tail.total_rows, 3);
}

#[test]
fn sheet_order_is_workbook_order() {
    let r = list_sheets(&xlsx_file("b.xlsx"), &Ok(sample_xlsx())).unwrap();
    assert_eq!(r.sheets, vec!["Sheet1".to_string(), "Sheet2".to_string()]);
}

#[test]
fn xlsx_extension_is_required() {
    let err = list_sheets(&xlsx_file("book.xls"), &Ok(sample_xlsx())).unwrap_err();
    match err {
        DocsError::UnsupportedFormat(m) => assert_eq!(m, "仅支持 .xlsx"),
        other => panic!("unexpected {:?}", other),
    }
}

#[test]
fn csv_quotes_fields_with_separators() {
    let rows = vec![vec![CellValue::Text("a,b".into()), CellValue::Text("say \"hi\"".into()), CellValue::Null, CellValue::Bool(true)]];
    let (_, book) = wps_mcp_rust::docs::xlsx::write("q.xlsx", false, "Q", &rows).unwrap().unwrap();
    let csv = to_csv(&xlsx_file("q.xlsx"), &Ok(book_bytes(&book)), "Q", None, false).unwrap();
    assert!(csv.csv.starts_with("\"a,b\",\"say \"\"hi\"\"\","));
    assert!(csv.csv.ends_with("\n"));
}

#[test]
fn update_unknown_sheet_is_refused() {
    let cells = vec![CellUpdate { cell: "A1".into(), value: CellValue::Int(7) }];
    match update_cells(&xlsx_file("s.xlsx"), read_book(&sample_xlsx()), "Nope", &cells, None, true) {
        Some(Err(DocsError::InvalidArgument(m))) => assert_eq!(m, "工作表不存在: Nope"),
        other => panic!("unexpected {:?}", other.map(|r| r.map(|(w, _)| w))),
    }
}

#[test]
fn consecutive_pages_make_up_the_sheet() {
    let mut rows = Vec::new();
    for i in 0..7 {
        rows.push(vec![CellValue::Int(i)]);
    }
    let (_, book) = wps_mcp_rust::docs::xlsx::write("p.xlsx", false, "P", &rows).unwrap().unwrap();
    let bytes = book_bytes(&book);
    let first = sheet_read(&bytes, "P", ReadSheetOptions { range: None, limit: Some(3), offset: Some(1) }).unwrap();
    let second = sheet_read(&bytes, "P", ReadSheetOptions { range: None, limit: Some(2), offset: Some(4) }).unwrap();
    let both = sheet_read(&bytes, "P", ReadSheetOptions { range: None, limit: Some(5), offset: Some(1) }).unwrap();
    assert_eq!(first.total_rows, 7);
    assert_eq!(second.total_rows, 7);
    assert_eq!(both.rows.len(), first.rows.len() + second.rows.len());
    let cells = |r: &ReadSheetResult| -> Vec<String> { r.rows.iter().map(|row| format!("{:?}", row[0])).collect() };
    let mut joined = cells(&first);
    joined.extend(cells(&second));
    assert_eq!(joined, cells(&both));
    assert!(first.truncated && second.truncated && both.truncated);
    let last = sheet_read(&bytes, "P", ReadSheetOptions::default()).unwrap();
    assert_eq!(last.rows.len(), 7);
    assert!(!last.truncated);
}

#[test]
fn updates_touch_only_their_cells_and_the_last_wins() {
    let cells = vec![
        CellUpdate { cell: "b3".into(), value: CellValue::Text("first".into()) },
        CellUpdate { cell: "B3".into(), value: CellValue::Text("second".into()) },
    ];
    let (_, book) = update_cells(&xlsx_file("s.xlsx"), read_book(&sample_xlsx()), "Sheet1", &cells, None, true).unwrap().unwrap();
    let r = sheet_read(&book_bytes(&book), "Sheet1", ReadSheetOptions::default()).unwrap();
    assert_eq!(text_cell(&r.rows[2][1]), Some("second"));
    assert_eq!(text_cell(&r.rows[0][0]), Some("Name"));
    assert_eq!(text_cell(&r.rows[2][0]), Some("Bob"));
    assert_eq!(r.total_rows, 3);
}

#[test]
fn sheet_cells_read_as_values() {
    assert!(matches!(data_to_value(SheetData::Empty), CellValue::Null));
    assert!(matches!(data_to_value(SheetData::Int(-4)), CellValue::Int(-4)));
    assert!(matches!(data_to_value(SheetData::Bool(true)), CellValue::Bool(true)));
    match data_to_value(SheetData::Float(Some("2.5".into()), "2.5".into())) {
        CellValue::Decimal(t) => assert_eq!(t, "2.5"),
        other => panic!("unexpected {:?}", other),
    }
    match data_to_value(SheetData::Float(None, "NaN".into())) {
        CellValue::Text(t) => assert_eq!(t, "NaN"),
        other => panic!("unexpected {:?}", other),
    }
    match data_to_value(SheetData::Error("Div0".into())) {
        CellValue::Text(t) => assert_eq!(t, "#ERROR:Div0"),
        other => panic!("unexpected {:?}", other),
    }
    match data_to_value(SheetData::DurationIso("PT1H".into())) {
        CellValue::Text(t) => assert_eq!(t, "PT1H"),
        other => panic!("unexpected {:?}", other),
    }
}

#[test]
fn updated_text_is_typed_by_the_workbook() {
    let cells = vec![
        CellUpdate { cell: "C1".into(), value: CellValue::Text("TRUE".into()) },
        CellUpdate { cell: "C2".into(), value: CellValue::Decimal("1.5".into()) },
        CellUpdate { cell: "C3".into(), value: CellValue::Int(12) },
    ];
    let (_, book) = update_cells(&xlsx_file("s.xlsx"), read_book(&sample_xlsx()), "Sheet1", &cells, None, true).unwrap().unwrap();
    let r = sheet_read(&book_bytes(&book), "Sheet1", ReadSheetOptions::default()).unwrap();
    assert!(matches!(r.rows[0][2], CellValue::Bool(true)));
    match &r.rows[1][2] {
        CellValue::Decimal(t) => assert_eq!(t, "1.5"),
        other => panic!("unexpected {:?}", other),
    }
}

#[test]
fn unreadable_workbook_is_reported() {
    let cells = vec![CellUpdate { cell: "A1".into(), value: CellValue::Int(1) }];
    match update_cells(&xlsx_file("s.xlsx"), Err("bad".to_string()), "Sheet1", &cells, None, true) {
        Some(Err(DocsError::ParseError(m))) => assert_eq!(m, "bad"),
        other => panic!("unexpected {:?}", other.map(|r| r.map(|(w, _)| w))),
    }
}
