use std::io::Write;
use wps_mcp_rust::docs::docx::{create, read_tables, read_text, replace_text, to_markdown};
use wps_mcp_rust::docs::error::DocsError;
use wps_mcp_rust::docs::pathutil::PathInfo;
use wps_mcp_rust::docs::xml::Replacement;
use wps_mcp_rust::tools::docx::DocxCreateParams;

const SAMPLE_DOCUMENT: &str = "<?xml version=\"1.0\" encoding=\"UTF-8\" standalone=\"yes\"?><w:document xmlns:w=\"http://schemas.openxmlformats.org/wordprocessingml/2006/main\"><w:body><w:p><w:r><w:t>Hello Docx</w:t></w:r></w:p><w:p><w:r><w:t>第二段</w:t></w:r></w:p><w:tbl><w:tr><w:tc><w:p><w:r><w:t>A1</w:t></w:r></w:p></w:tc><w:tc><w:p><w:r><w:t>B1</w:t></w:r></w:p></w:tc></w:tr><w:tr><w:tc><w:p><w:r><w:t> A2 </w:t></w:r></w:p></w:tc><w:tc><w:p><w:r><w:t>B2</w:t></w:r></w:p></w:tc></w:tr></w:tbl></w:body></w:document>";

fn docx_bytes(document_xml: &str) -> Vec<u8> {
    let mut w = zip::ZipWriter::new(std::io::Cursor::new(Vec::new()));
    let opts = zip::write::SimpleFileOptions::default();
    w.start_file("[Content_Types].xml", opts).unwrap();
    w.write_all(b"<?xml version=\"1.0\"?><Types/>").unwrap();
    w.start_file("word/document.xml", opts).unwrap();
    w.write_all(document_xml.as_bytes()).unwrap();
    w.finish().unwrap().into_inner()
}

fn docx_file(path: &str) -> PathInfo {
    PathInfo { path: path.to_string(), exists: true, is_file: true }
}

#[test]
fn docx_read_text_works() {
    let r = read_text(&docx_file("tests/fixtures/sample.docx"), &Ok(docx_bytes(SAMPLE_DOCUMENT))).unwrap();
    assert!(r.text.contains("Hello Docx"));
    assert!(r.text.contains("第二段"));
}

#[test]
fn docx_read_tables_works() {
    let r = read_tables(&docx_file("tests/fixtures/sample.docx"), &Ok(docx_bytes(SAMPLE_DOCUMENT))).unwrap();
    assert_eq!(r.tables.len(), 1);
    assert_eq!(r.tables[0][0][0], "A1");
}

#[test]
fn docx_to_markdown_works() {
    let r = to_markdown(&docx_file("tests/fixtures/sample.docx"), &Ok(docx_bytes(SAMPLE_DOCUMENT)), None, false).unwrap();
    assert!(r.markdown.contains("Hello Docx"));
}

#[test]
fn docx_to_markdown_can_write_file() {
    let r = to_markdown(&docx_file("tests/fixtures/sample.docx"), &Ok(docx_bytes(SAMPLE_DOCUMENT)), Some("out.md"), false).unwrap();
    assert_eq!(r.output_path.as_deref(), Some("out.md"));
    assert!(r.markdown.contains("Hello Docx"));
    let err = to_markdown(&docx_file("tests/fixtures/sample.docx"), &Ok(docx_bytes(SAMPLE_DOCUMENT)), Some("out.md"), true).unwrap_err();
    assert!(err.to_public_message().contains("已存在"));
}

#[test]
fn docx_create_and_replace() {
    let (created, bytes) = create("new.docx", false, "Hello FOO", "text").unwrap();
    assert_eq!(created.output_path, "new.docx");
    let t = read_text(&docx_file("new.docx"), &Ok(bytes.clone())).unwrap();
    assert!(t.text.contains("Hello FOO"));

    let reps = vec![Replacement { from: "FOO".into(), to: "BAR".into() }];
    let (replaced, out) = replace_text(&docx_file("new.docx"), &Ok(bytes), &reps, Some("replaced.docx"), false).unwrap();
    assert_eq!(replaced.output_path, "replaced.docx");
    let t2 = read_text(&docx_file("replaced.docx"), &Ok(out)).unwrap();
    assert!(t2.text.contains("Hello BAR"));
}

#[test]
fn docx_rejects_non_docx_extension() {
    let err = read_text(&docx_file("tests/fixtures/sample_utf8.txt"), &Ok(b"hello".to_vec())).unwrap_err();
    assert!(err.to_public_message().contains("docx") || err.to_public_message().contains("不支持"));
}

#[test]
fn docx_create_refuses_overwrite_existing() {
    assert!(create("once.docx", false, "first", "text").is_ok());
    let err = create("once.docx", true, "second", "text").unwrap_err();
    assert!(err.to_public_message().contains("覆盖") || err.to_public_message().contains("已存在"));
}

#[test]
fn test_read_docx_text_streaming() {
    let (_, bytes) = create("test.docx", false, "Line 1\nLine 2", "text").unwrap();
    let res = read_text(&docx_file("test.docx"), &Ok(bytes)).unwrap();
    assert!(res.ok);
    assert!(res.text.contains("Line 1"));
    assert!(res.text.contains("Line 2"));
}

#[test]
fn docx_text_and_tables_exact() {
    let info = docx_file("s.docx");
    let r = read_text(&info, &Ok(docx_bytes(SAMPLE_DOCUMENT))).unwrap();
    assert_eq!(r.text, "Hello Docx\n第二段\n");
    let t = read_tables(&info, &Ok(docx_bytes(SAMPLE_DOCUMENT))).unwrap();
    assert_eq!(t.tables, vec![vec![vec!["A1".to_string(), "B1".to_string()], vec!["A2".to_string(), "B2".to_string()]]]);
}

#[test]
fn docx_markdown_layout() {
    let r = to_markdown(&docx_file("s.docx"), &Ok(docx_bytes(SAMPLE_DOCUMENT)), None, false).unwrap();
    assert_eq!(r.markdown, "Hello Docx\n第二段\n\n| A1 | B1 |\n| --- | --- |\n| A2 | B2 |\n");
    assert!(r.output_path.is_none());
}

#[test]
fn docx_missing_path_and_directory() {
    let missing = PathInfo { path: "nope.docx".into(), exists: false, is_file: false };
    match read_text(&missing, &Err("not found".into())) {
        Err(DocsError::PathNotFound(p)) => assert_eq!(p, "nope.docx"),
        other => panic!("unexpected {:?}", other),
    }
    let dir = PathInfo { path: "folder.docx".into(), exists: true, is_file: false };
    match read_text(&dir, &Err("is a directory".into())) {
        Err(DocsError::InvalidArgument(m)) => assert_eq!(m, "不是文件: folder.docx"),
        other => panic!("unexpected {:?}", other),
    }
}

#[test]
fn docx_not_a_zip_is_a_parse_error() {
    let err = read_text(&docx_file("bad.docx"), &Ok(b"plain text".to_vec())).unwrap_err();
    assert!(matches!(err, DocsError::ParseError(_)));
}

#[test]
fn docx_without_main_part_is_reported() {
    let mut w = zip::ZipWriter::new(std::io::Cursor::new(Vec::new()));
    w.start_file("other.xml", zip::write::SimpleFileOptions::default()).unwrap();
    w.write_all(b"<x/>").unwrap();
    let bytes = w.finish().unwrap().into_inner();
    match read_text(&docx_file("m.docx"), &Ok(bytes)) {
        Err(DocsError::ParseError(m)) => assert!(m.starts_with("缺少 word/document.xml: ")),
        other => panic!("unexpected {:?}", other),
    }
}

#[test]
fn docx_read_error_is_io_error() {
    match read_text(&docx_file("x.docx"), &Err("boom".into())) {
        Err(DocsError::IoError(m)) => assert_eq!(m, "boom"),
        other => panic!("unexpected {:?}", other),
    }
}

#[test]
fn docx_create_markdown_strips_hashes_and_drops_empty_lines() {
    let (_, bytes) = create("md.docx", false, "# Title\n\n## Sub\nbody", "markdown").unwrap();
    let r = read_text(&docx_file("md.docx"), &Ok(bytes)).unwrap();
    assert_eq!(r.text, "Title\nSub\nbody\n");
}

#[test]
fn docx_create_escapes_markup() {
    let (_, bytes) = create("esc.docx", false, "a < b & \"c\"", "text").unwrap();
    let r = read_text(&docx_file("esc.docx"), &Ok(bytes)).unwrap();
    assert_eq!(r.text, "a < b & \"c\"\n");
}

#[test]
fn docx_create_rejects_unknown_format() {
    match create("f.docx", false, "x", "html") {
        Err(DocsError::InvalidArgument(m)) => assert_eq!(m, "不支持的 format: html（支持 text|markdown）"),
        other => panic!("unexpected {:?}", other),
    }
}

#[test]
fn docx_replace_refuses_existing_other_target() {
    let (_, bytes) = create("a.docx", false, "x", "text").unwrap();
    let reps = vec![Replacement { from: "x".into(), to: "y".into() }];
    let err = replace_text(&docx_file("a.docx"), &Ok(bytes.clone()), &reps, Some("b.docx"), true).unwrap_err();
    assert!(err.to_public_message().contains("已存在"));
    let (same, _) = replace_text(&docx_file("a.docx"), &Ok(bytes.clone()), &reps, Some("a.docx"), true).unwrap();
    assert_eq!(same.output_path, "a.docx");
    let (back, _) = replace_text(&docx_file("a.docx"), &Ok(bytes), &reps, None, true).unwrap();
    assert_eq!(back.output_path, "a.docx");
}

#[test]
fn xml_escape_leaves_no_markup() {
    let s: Vec<char> = "<a href=\"x\">Tom & 'Jerry'</a>".chars().collect();
    let e: String = wps_mcp_rust::docs::xml::xml_escape(&s).into_iter().collect();
    assert!(!e.contains('<') && !e.contains('>') && !e.contains('"'));
    assert_eq!(e, "&lt;a href=&quot;x&quot;&gt;Tom &amp; &apos;Jerry&apos;&lt;/a&gt;");
}

#[test]
fn create_tool_defaults_to_text() {
    let content = "# Title\n\nbody";
    let p = DocxCreateParams { output_path: "t.docx".into(), content: content.into(), format: None };
    let (res, bytes) = p.create_document(false).unwrap();
    let (res2, bytes2) = create("t.docx", false, content, "text").unwrap();
    assert_eq!(res.output_path, res2.output_path);
    let a = read_text(&docx_file("t.docx"), &Ok(bytes)).unwrap();
    let b = read_text(&docx_file("t.docx"), &Ok(bytes2)).unwrap();
    assert_eq!(a.text, b.text);
    assert_eq!(a.text, "Title\n\nbody\n");
    let md = DocxCreateParams { output_path: "t.docx".into(), content: content.into(), format: Some("markdown".into()) };
    let (_, mbytes) = md.create_document(false).unwrap();
    assert_eq!(read_text(&docx_file("t.docx"), &Ok(mbytes)).unwrap().text, "Title\nbody\n");
    let bad = DocxCreateParams { output_path: "t.docx".into(), content: "x".into(), format: Some("html".into()) };
    assert!(bad.create_document(false).is_err());
    assert!(p.create_document(true).is_err());
}

#[test]
fn replaced_document_reads_back_the_replacement_and_source_keeps_old_text() {
    let (_, bytes) = create("s.docx", false, "old words here", "text").unwrap();
    let reps = vec![Replacement { from: "old".into(), to: "new".into() }];
    let (_, out) = replace_text(&docx_file("s.docx"), &Ok(bytes.clone()), &reps, Some("o.docx"), false).unwrap();
    assert_eq!(read_text(&docx_file("o.docx"), &Ok(out)).unwrap().text, "new words here\n");
    assert_eq!(read_text(&docx_file("s.docx"), &Ok(bytes)).unwrap().text, "old words here\n");
}
