use std::io::Write;
use wps_mcp_rust::docs::embeddings::{
    attr_value, classify_by_name, classify_bytes, extract, find_zip_payload, is_embedding_path, is_ole,
    is_zip_ooxml, list, normalize_target,
};
use wps_mcp_rust::docs::error::DocsError;
use wps_mcp_rust::docs::pathutil::PathInfo;
use wps_mcp_rust::docs::xlsx::list_sheets;

fn workbook_bytes() -> Vec<u8> {
    let mut book = umya_spreadsheet::new_file();
    book.get_sheet_mut(&0).unwrap().set_name("Sheet1");
    book.get_sheet_by_name_mut("Sheet1").unwrap().get_cell_mut("A1").set_value("embedded");
    let mut out = std::io::Cursor::new(Vec::new());
    umya_spreadsheet::writer::xlsx::write_writer(&book, &mut out).unwrap();
    out.into_inner()
}

fn host_docx(members: &[(&str, Vec<u8>)]) -> Vec<u8> {
    let mut w = zip::ZipWriter::new(std::io::Cursor::new(Vec::new()));
    let opts = zip::write::SimpleFileOptions::default();
    for (name, data) in members {
        w.start_file(*name, opts).unwrap();
        w.write_all(data).unwrap();
    }
    w.finish().unwrap().into_inner()
}

const RELS: &str = "<?xml version=\"1.0\" encoding=\"UTF-8\" standalone=\"yes\"?><Relationships xmlns=\"http://schemas.openxmlformats.org/package/2006/relationships\"><Relationship Id=\"rId1\" Type=\"http://schemas.openxmlformats.org/officeDocument/2006/relationships/styles\" Target=\"styles.xml\"/><Relationship Id=\"rId7\" Type=\"http://schemas.openxmlformats.org/officeDocument/2006/relationships/package\" Target=\"embeddings/Microsoft_Excel_Worksheet.xlsx\"/></Relationships>";

fn host_with_embed() -> Vec<u8> {
    host_docx(&[
        ("word/document.xml", b"<w:document/>".to_vec()),
        ("word/_rels/document.xml.rels", RELS.as_bytes().to_vec()),
        ("word/embeddings/Microsoft_Excel_Worksheet.xlsx", workbook_bytes()),
    ])
}

fn host_file() -> PathInfo {
    PathInfo { path: "tests/fixtures/host_with_embed.docx".into(), exists: true, is_file: true }
}

#[test]
fn list_and_extract_embedded_xlsx() {
    let listed = list(&host_file(), &Ok(host_with_embed())).unwrap();
    assert!(!listed.embeddings.is_empty());
    let emb = &listed.embeddings[0];
    assert!(emb.extractable);
    assert_eq!(emb.kind, "xlsx");
    assert!(emb.name.to_ascii_lowercase().contains("xlsx") || emb.name.contains("Excel"));
    assert_eq!(emb.id, "rId7");

    let (extracted, payload) =
        extract(&host_file(), &Ok(host_with_embed()), Some(emb.id.as_str()), None, None, Some("out")).unwrap();
    assert_eq!(extracted.output_path, "out/Microsoft_Excel_Worksheet.xlsx");
    assert_eq!(extracted.kind, "xlsx");

    let target = PathInfo { path: extracted.output_path.clone(), exists: true, is_file: true };
    let sheets = list_sheets(&target, &Ok(payload)).unwrap();
    assert!(!sheets.sheets.is_empty());
}

#[test]
fn extract_requires_id_or_name() {
    let err = extract(&host_file(), &Ok(host_with_embed()), None, None, None, Some("out")).unwrap_err();
    assert!(err.to_public_message().contains("id") || err.to_public_message().contains("name"));
}

#[test]
fn unnamed_objects_get_positional_ids() {
    let bytes = host_docx(&[
        ("word/embeddings/a.bin", vec![1, 2, 3]),
        ("xl/embeddings/b.docx", b"PK\x03\x04rest".to_vec()),
        ("word/media/c.png", vec![0]),
        ("word\\embeddings\\d.dat", vec![9]),
    ]);
    let listed = list(&host_file(), &Ok(bytes)).unwrap();
    let ids: Vec<&str> = listed.embeddings.iter().map(|e| e.id.as_str()).collect();
    assert_eq!(ids, vec!["emb_1", "emb_2", "emb_3"]);
    assert_eq!(listed.embeddings[0].kind, "ole");
    assert_eq!(listed.embeddings[1].kind, "docx");
    assert_eq!(listed.embeddings[2].kind, "unknown");
    assert!(!listed.embeddings[2].extractable);
}

#[test]
fn extract_by_name_and_refusals() {
    let bytes = host_docx(&[
        ("word/embeddings/note.txt", b"hello".to_vec()),
        ("word/embeddings/blob.bin", b"not ole, not zip".to_vec()),
        ("word/embeddings/inner.docx", b"PK\x03\x04payload".to_vec()),
    ]);
    match extract(&host_file(), &Ok(bytes.clone()), None, Some("note.txt"), None, Some("d")) {
        Err(DocsError::EmbeddingNotExtractable(m)) => assert_eq!(m, "未知扩展名"),
        other => panic!("unexpected {:?}", other.map(|(r, _)| r)),
    }
    match extract(&host_file(), &Ok(bytes.clone()), None, Some("blob.bin"), None, Some("d")) {
        Err(DocsError::EmbeddingNotExtractable(m)) => assert_eq!(m, "内容既不是 OOXML 也不是可解 OLE"),
        other => panic!("unexpected {:?}", other.map(|(r, _)| r)),
    }
    match extract(&host_file(), &Ok(bytes.clone()), None, Some("inner.docx"), None, None) {
        Err(DocsError::InvalidArgument(m)) => assert_eq!(m, "必须提供 output_path 或 output_dir"),
        other => panic!("unexpected {:?}", other.map(|(r, _)| r)),
    }
    let (res, payload) = extract(&host_file(), &Ok(bytes), Some("none"), Some("inner.docx"), Some("x/y.docx"), Some("d")).unwrap();
    assert_eq!(res.output_path, "x/y.docx");
    assert_eq!(res.kind, "docx");
    assert_eq!(payload, b"PK\x03\x04payload".to_vec());
}

#[test]
fn ole_wrapper_without_streams_falls_back_to_raw_scan() {
    let mut ole = vec![0xD0, 0xCF, 0x11, 0xE0, 0xA1, 0xB1, 0x1A, 0xE1];
    ole.extend_from_slice(b"junkPK\x03\x04zipdata");
    let bytes = host_docx(&[("word/embeddings/oleObject1.bin", ole)]);
    let listed = list(&host_file(), &Ok(bytes.clone())).unwrap();
    assert_eq!(listed.embeddings[0].kind, "ole");
    assert_eq!(listed.embeddings[0].reason.as_deref(), Some("OLE 包装，抽取时将尝试提取 OOXML"));
    let (res, payload) = extract(&host_file(), &Ok(bytes), Some("emb_1"), None, None, Some("out/")).unwrap();
    assert_eq!(res.output_path, "out/oleObject1.bin");
    assert_eq!(payload, b"PK\x03\x04zipdata".to_vec());
}

#[test]
fn magic_numbers_and_payload_search() {
    assert!(is_zip_ooxml(b"PK\x03\x04"));
    assert!(!is_zip_ooxml(b"PK\x03"));
    assert!(is_ole(&[0xD0, 0xCF, 0x11, 0xE0, 0xA1, 0xB1, 0x1A, 0xE1]));
    assert!(!is_ole(&[0xD0, 0xCF, 0x11, 0xE0]));
    assert_eq!(find_zip_payload(b"abPK\x03\x04cd"), Some(b"PK\x03\x04cd".to_vec()));
    assert_eq!(find_zip_payload(b"PK\x03"), None);
}

#[test]
fn classification_by_name_and_bytes() {
    let c = classify_by_name("Report.DOCX");
    assert_eq!((c.kind.as_str(), c.extractable, c.reason), ("docx", true, None));
    let c = classify_by_name("x.bin");
    assert_eq!(c.reason.as_deref(), Some("可能是 OLE，将尝试解包"));
    let c = classify_bytes(b"PK\x03\x04", "thing.dat");
    assert_eq!(c.kind, "ooxml");
    let c = classify_bytes(b"abc", "sheet.xlsx");
    assert_eq!(c.kind, "xlsx");
}

#[test]
fn embedding_paths_and_targets() {
    assert!(is_embedding_path("word/embeddings/a.xlsx"));
    assert!(is_embedding_path("ppt\\embeddings\\a.xlsx"));
    assert!(!is_embedding_path("embeddings/a.xlsx"));
    assert_eq!(normalize_target("word\\embeddings\\a.xlsx").iter().collect::<String>(), "embeddings/a.xlsx");
    assert_eq!(normalize_target("word/media/x.png").iter().collect::<String>(), "word/media/x.png");
}

#[test]
fn attribute_values() {
    let part: Vec<char> = " Id=\"rId3\" Target=\"./embeddings/x.bin\"/>".chars().collect();
    assert_eq!(attr_value(&part, "Id").map(|v| v.iter().collect::<String>()), Some("rId3".to_string()));
    assert_eq!(attr_value(&part, "Target").map(|v| v.iter().collect::<String>()), Some("./embeddings/x.bin".to_string()));
    assert_eq!(attr_value(&part, "Type"), None);
}

#[test]
fn relationship_target_with_dot_slash_is_matched() {
    let rels = "<Relationships><Relationship Id=\"rId5\" Target=\"./embeddings/w.xlsx\"/></Relationships>";
    let bytes = host_docx(&[
        ("word/_rels/document.xml.rels", rels.as_bytes().to_vec()),
        ("word/embeddings/w.xlsx", workbook_bytes()),
    ]);
    let listed = list(&host_file(), &Ok(bytes)).unwrap();
    assert_eq!(listed.embeddings[0].id, "rId5");
}

#[test]
fn ole_package_stream_payload_is_extracted() {
    let inner = workbook_bytes();
    let mut stream_data = b"header bytes ".to_vec();
    stream_data.extend_from_slice(&inner);
    let mut comp = cfb::CompoundFile::create(std::io::Cursor::new(Vec::new())).unwrap();
    {
        let mut s = comp.create_stream("/Package").unwrap();
        s.write_all(&stream_data).unwrap();
    }
    comp.flush().unwrap();
    let ole = comp.into_inner().into_inner();
    assert!(is_ole(&ole));
    let bytes = host_docx(&[("word/embeddings/oleObject2.bin", ole)]);
    let (res, payload) = extract(&host_file(), &Ok(bytes), None, Some("oleObject2.bin"), Some("x.xlsx"), None).unwrap();
    assert_eq!(res.kind, "ole");
    assert_eq!(payload, inner);
}
