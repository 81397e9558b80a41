use std::io::{BufRead, Read};
use wps_mcp_rust::docs::error::DocsError;
use wps_mcp_rust::docs::pathutil::{require_existing_file, PathInfo};
use wps_mcp_rust::tools::text::TextWriteParams;
use wps_mcp_rust::docs::text::{
    begin_read, decode_bytes_with_enc, detect_encoding, encode_string, text_info, write_text, LineCounter,
    ReadAction, ReadTextOptions, ReadTextResult, MAX_LINE_BYTES,
};

const SAMPLE_UTF8: &str = "你好，世界\n第二行 second line\n第三行 third line\n";

fn count_remaining(reader: &mut impl Read) -> usize {
    let mut counter = LineCounter::new();
    let mut buf = [0u8; 16384];
    loop {
        let n = reader.read(&mut buf).unwrap();
        if n == 0 {
            break;
        }
        counter.feed(&buf[..n]);
    }
    counter.count()
}

/// Reads text from in-memory file contents the way the server reads a file.
fn read_from_bytes(data: &[u8], opts: ReadTextOptions) -> Result<ReadTextResult, DocsError> {
    let mut reader = std::io::BufReader::new(std::io::Cursor::new(data.to_vec()));
    let sample = reader.fill_buf().unwrap().to_vec();
    let mut st = begin_read(&sample, &opts)?;
    let mut line = Vec::new();
    loop {
        match st.action() {
            ReadAction::ReadLine => {
                line.clear();
                (&mut reader).take(MAX_LINE_BYTES as u64).read_until(b'\n', &mut line).unwrap();
                st.feed(&line)?;
            }
            ReadAction::SkipLineThenCount => {
                let mut rest = Vec::new();
                reader.read_until(b'\n', &mut rest).unwrap();
                let n = count_remaining(&mut reader);
                return Ok(st.finish(n));
            }
            ReadAction::CountRest => {
                let n = count_remaining(&mut reader);
                return Ok(st.finish(n));
            }
            ReadAction::Finish => return Ok(st.finish(0)),
        }
    }
}

fn opts(limit: Option<usize>, offset: Option<usize>) -> ReadTextOptions {
    ReadTextOptions { encoding: None, limit, offset }
}

#[test]
fn read_utf8_text() {
    let r = read_from_bytes(SAMPLE_UTF8.as_bytes(), ReadTextOptions::default()).unwrap();
    assert!(r.text.contains("你好"));
    assert_eq!(r.encoding, "utf-8");
    assert!(!r.truncated);
}

#[test]
fn read_gbk_fallback() {
    let (bytes, _, _) = encoding_rs::GBK.encode("这是中文 GBK 文本\n第二行\n");
    let r = read_from_bytes(&bytes, ReadTextOptions::default()).unwrap();
    assert!(r.text.contains("中文") || r.text.contains("GBK"));
    assert!(r.encoding == "gbk" || r.encoding == "gb18030" || r.encoding.starts_with("gb"));
}

#[test]
fn read_with_limit_truncates() {
    let r = read_from_bytes(SAMPLE_UTF8.as_bytes(), ReadTextOptions { encoding: None, limit: Some(1), offset: Some(0) }).unwrap();
    assert_eq!(r.total_lines, 3);
    assert!(r.truncated);
    assert_eq!(r.text.lines().count(), 1);
}

#[test]
fn write_and_read_roundtrip() {
    let (out, bytes) = write_text("out.txt", false, "abc\n", None, true).unwrap();
    assert_eq!(out, "out.txt");
    let r = read_from_bytes(&bytes, ReadTextOptions::default()).unwrap();
    assert_eq!(r.text, "abc\n");
    let info = PathInfo { path: "out.txt".into(), exists: true, is_file: true };
    let mut counter = LineCounter::new();
    counter.feed(&bytes);
    let t = text_info(&info, bytes.len() as u64, &bytes, counter.count()).unwrap();
    assert!(t.line_count >= 1);
}

#[test]
fn missing_path_returns_not_found() {
    let info = PathInfo { path: "tests/fixtures/definitely-missing-xyz.txt".into(), exists: false, is_file: false };
    let err = require_existing_file(&info).unwrap_err();
    assert!(err.to_public_message().contains("不存在"));
    let err = text_info(&info, 0, b"", 0).unwrap_err();
    assert!(err.to_public_message().contains("不存在"));
}

#[test]
fn write_refuses_overwrite_without_flag() {
    assert!(write_text("exists.txt", false, "one", None, true).is_ok());
    let err = write_text("exists.txt", true, "two", None, false).unwrap_err();
    assert!(err.to_public_message().contains("覆盖") || err.to_public_message().contains("已存在"));
}

#[test]
fn lossy_fallback_does_not_panic() {
    let bytes = b"\xff\xfe not valid utf8 \x80\x81";
    let (enc, name) = detect_encoding(bytes, None).unwrap();
    assert!(!name.is_empty());
    let _ = decode_bytes_with_enc(bytes, &enc, &name);
}

#[test]
fn test_read_text_streaming_large_offset() {
    let mut content = String::new();
    for i in 1..=10000 {
        content.push_str(&format!("Line {i}: hello streaming world\n"));
    }
    let res = read_from_bytes(content.as_bytes(), opts(Some(10), Some(5000))).unwrap();
    assert!(res.ok);
    assert_eq!(res.total_lines, 10000);
    assert!(res.truncated);
    assert!(res.text.starts_with("Line 5001:"));
}

#[test]
fn offset_past_end_is_refused() {
    match read_from_bytes(b"a\nb\n", opts(None, Some(5))) {
        Err(DocsError::InvalidArgument(m)) => assert_eq!(m, "offset 5 超出总行数 2"),
        other => panic!("unexpected {:?}", other),
    }
    let r = read_from_bytes(b"a\nb\n", opts(None, Some(2))).unwrap();
    assert_eq!(r.text, "");
    assert_eq!(r.total_lines, 2);
    assert!(!r.truncated);
}

#[test]
fn window_in_the_middle() {
    let r = read_from_bytes(b"l1\nl2\nl3\nl4", opts(Some(2), Some(1))).unwrap();
    assert_eq!(r.text, "l2\nl3\n");
    assert_eq!(r.total_lines, 4);
    assert!(r.truncated);
    let all = read_from_bytes(b"l1\nl2\nl3\nl4", opts(None, None)).unwrap();
    assert_eq!(all.text, "l1\nl2\nl3\nl4");
    assert_eq!(all.total_lines, 4);
    assert!(!all.truncated);
}

#[test]
fn total_lines_do_not_depend_on_the_window() {
    let data = b"one\ntwo\nthree\nfour\nfive\n";
    for (limit, offset) in [(Some(1), Some(0)), (Some(2), Some(3)), (None, Some(4)), (Some(0), None)] {
        let r = read_from_bytes(data, opts(limit, offset)).unwrap();
        assert_eq!(r.total_lines, 5);
    }
}

#[test]
fn utf8_bom_is_detected_and_removed() {
    let r = read_from_bytes(b"\xEF\xBB\xBFhello\n", ReadTextOptions::default()).unwrap();
    assert_eq!(r.encoding, "utf-8");
    assert_eq!(r.text, "hello\n");
}

#[test]
fn forced_encoding_is_used_and_unknown_refused() {
    let (bytes, _, _) = encoding_rs::GBK.encode("中文\n");
    let r = read_from_bytes(&bytes, ReadTextOptions { encoding: Some("gbk".into()), limit: None, offset: None }).unwrap();
    assert_eq!(r.encoding, "gbk");
    assert_eq!(r.text, "中文\n");
    match read_from_bytes(b"x", ReadTextOptions { encoding: Some("klingon".into()), limit: None, offset: None }) {
        Err(DocsError::InvalidArgument(m)) => assert_eq!(m, "未知编码: klingon"),
        other => panic!("unexpected {:?}", other),
    }
}

#[test]
fn encode_in_labelled_encodings() {
    assert_eq!(encode_string("abc", None).unwrap(), b"abc".to_vec());
    assert_eq!(encode_string("中", Some("UTF-8")).unwrap(), "中".as_bytes().to_vec());
    assert_eq!(encode_string("中", Some("gbk")).unwrap(), vec![0xD6, 0xD0]);
    match encode_string("😀", Some("gbk")) {
        Err(DocsError::InvalidArgument(m)) => assert_eq!(m, "内容无法用编码 gbk 完整表示"),
        other => panic!("unexpected {:?}", other),
    }
    match encode_string("a", Some("nope")) {
        Err(DocsError::InvalidArgument(m)) => assert_eq!(m, "未知编码: nope"),
        other => panic!("unexpected {:?}", other),
    }
}

#[test]
fn line_counter_ignores_chunking() {
    let data = b"a\nbb\n\nccc";
    let mut whole = LineCounter::new();
    whole.feed(data);
    let mut pieces = LineCounter::new();
    for chunk in data.chunks(3) {
        pieces.feed(chunk);
    }
    assert_eq!(whole.count(), 4);
    assert_eq!(pieces.count(), 4);
    let mut empty = LineCounter::new();
    empty.feed(b"");
    assert_eq!(empty.count(), 0);
    let mut ends = LineCounter::new();
    ends.feed(b"x\n");
    assert_eq!(ends.count(), 1);
}

#[test]
fn text_info_reports_size_and_encoding() {
    let info = PathInfo { path: "t.txt".into(), exists: true, is_file: true };
    let t = text_info(&info, 12, SAMPLE_UTF8.as_bytes(), 3).unwrap();
    assert_eq!(t.path, "t.txt");
    assert_eq!(t.size, 12);
    assert_eq!(t.encoding, "utf-8");
    assert_eq!(t.line_count, 3);
}

#[test]
fn long_lines_are_read_in_pieces() {
    let mut data = vec![b'x'; MAX_LINE_BYTES + 10];
    data.push(b'\n');
    data.extend_from_slice(b"tail\n");
    let r = read_from_bytes(&data, opts(Some(1), Some(0))).unwrap();
    assert_eq!(r.text.len(), MAX_LINE_BYTES);
    assert_eq!(r.total_lines, 2);
    assert!(r.truncated);
}

#[test]
fn utf8_text_reads_back_as_written() {
    let content = "第一行\nsecond\n\nlast without newline";
    let (_, bytes) = write_text("r.txt", false, content, None, false).unwrap();
    let r = read_from_bytes(&bytes, ReadTextOptions::default()).unwrap();
    assert_eq!(r.text, content);
    assert!(!r.truncated);
    assert_eq!(r.total_lines, 4);
}

#[test]
fn leading_byte_order_mark_is_not_read_back() {
    let (_, bytes) = write_text("bom.txt", false, "\u{FEFF}x\n", None, false).unwrap();
    let r = read_from_bytes(&bytes, ReadTextOptions::default()).unwrap();
    assert_eq!(r.text, "x\n");
}

#[test]
fn window_reaching_the_last_line_counts_as_truncated() {
    let r = read_from_bytes(b"l1\nl2\nl3\nl4\n", opts(Some(2), Some(2))).unwrap();
    assert_eq!(r.text, "l3\nl4\n");
    assert_eq!(r.total_lines, 4);
    assert!(r.truncated);
    let short = read_from_bytes(b"l1\nl2\n", opts(Some(3), Some(0))).unwrap();
    assert!(!short.truncated);
}

fn write_params(path: Option<&str>, output_path: Option<&str>) -> TextWriteParams {
    TextWriteParams {
        path: path.map(|s| s.to_string()),
        output_path: output_path.map(|s| s.to_string()),
        content: "x".to_string(),
        encoding: None,
        overwrite: None,
    }
}

#[test]
fn text_write_target_choice() {
    assert_eq!(write_params(Some("a.txt"), Some("b.txt")).target(), Ok("b.txt".to_string()));
    assert_eq!(write_params(Some("a.txt"), None).target(), Ok("a.txt".to_string()));
    assert_eq!(write_params(None, None).target(), Err("必须提供 path 或 output_path".to_string()));
    assert_eq!(write_params(Some("a.txt"), Some("")).target(), Err("必须提供 path 或 output_path".to_string()));
    assert!(!write_params(Some("a.txt"), None).overwrite_allowed());
}
