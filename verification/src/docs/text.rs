//! Plain-text files: choosing their encoding, reading a window of their lines without
//! loading the whole file, counting lines, and writing text in a chosen encoding.
//!
//! Reading is a state machine: the caller opens the file, hands over its first bytes to
//! [`begin_read`], then performs what [`TextRead::action`] asks (read one line of at most
//! [`MAX_LINE_BYTES`], or count the remaining lines with a [`LineCounter`]) and hands the
//! result back, until [`TextRead::finish`] gives the result.

use vstd::prelude::*;
use crate::docs::archive::utf8_to_string;
use crate::docs::encoding::{
    check_utf8, decode_gb18030, decode_gbk, decode_labelled, decode_utf8_lossy, encode_labelled,
    encoding_label_known, gb18030_decoding, gbk_decoding, has_utf8_bom, is_known_label,
    label_decoding, label_encoding, utf8_check_result, utf8_decoding,
};
use crate::docs::error::{error_with, failure, make_error, outcome, DocsError, ErrorKind};
use crate::docs::pathutil::{
    chars_eq, opt_view, require_existing_file, resolve_output_path, PathInfo,
};
use crate::docs::strings::{chars_of, decimal, push_decimal, push_str, string_from_chars};

verus! {

/// Lines returned when no limit is given.
pub const DEFAULT_LINE_LIMIT: usize = 5000;

/// Most bytes of text one read returns.
pub const DEFAULT_BYTE_LIMIT: usize = 10485760;

/// Most bytes one line read takes; a longer line is read as several.
pub const MAX_LINE_BYTES: usize = 2097152;

/// Most bytes of the file's start looked at to guess its encoding.
pub const SAMPLE_BYTES: usize = 4096;

/// Which encoding text is decoded with: UTF-8, GBK, GB18030, or the one a label names.
#[derive(Debug, Clone)]
pub enum TextEncoding {
    Utf8,
    Gbk,
    Gb18030,
    Labelled(String),
}

pub enum EncodingView {
    Utf8,
    Gbk,
    Gb18030,
    Labelled(Seq<char>),
}

impl View for TextEncoding {
    type V = EncodingView;

    open spec fn view(&self) -> EncodingView {
        match self {
            TextEncoding::Utf8 => EncodingView::Utf8,
            TextEncoding::Gbk => EncodingView::Gbk,
            TextEncoding::Gb18030 => EncodingView::Gb18030,
            TextEncoding::Labelled(l) => EncodingView::Labelled(l@),
        }
    }
}

/// A labelled encoding's label is one `encoding_rs` knows.
pub open spec fn encoding_ok(e: EncodingView) -> bool {
    match e {
        EncodingView::Labelled(l) => encoding_label_known(l),
        _ => true,
    }
}

/// What decoding `bytes` in encoding `e` gives.
pub open spec fn decoding_in(e: EncodingView, bytes: Seq<u8>) -> (Seq<char>, bool) {
    match e {
        EncodingView::Utf8 => utf8_decoding(bytes),
        EncodingView::Gbk => gbk_decoding(bytes),
        EncodingView::Gb18030 => gb18030_decoding(bytes),
        EncodingView::Labelled(l) => label_decoding(l, bytes),
    }
}

/// The message for a label no encoding has.
pub open spec fn unknown_label_message(label: Seq<char>) -> Seq<char> {
    "未知编码: "@ + label
}

/// The encoding a label names, or an error for an unknown label.
pub fn encoding_from_label(label: &str) -> (r: Result<TextEncoding, DocsError>)
    ensures
        match r {
            Ok(e) => encoding_label_known(label@) && e@ == EncodingView::Labelled(label@),
            Err(e) => !encoding_label_known(label@) && e.kind() == ErrorKind::InvalidArgument
                && e.detail() == unknown_label_message(label@),
        },
{
    if is_known_label(label) {
        Ok(TextEncoding::Labelled(string_from_chars(&chars_of(label))))
    } else {
        Err(error_with(ErrorKind::InvalidArgument, "未知编码: ", &chars_of(label)))
    }
}

fn starts_with_bom(b: &[u8]) -> (r: bool)
    ensures
        r == has_utf8_bom(b@),
{
    b.len() >= 3 && b[0] == 0xEF && b[1] == 0xBB && b[2] == 0xBF
}

/// The sample passes as UTF-8: it is UTF-8, or only ends inside a character after a
/// non-empty valid start.
pub open spec fn utf8_sample(sample: Seq<u8>) -> bool {
    match utf8_check_result(sample) {
        Ok(_) => true,
        Err((valid_up_to, error_len)) => error_len is None && valid_up_to > 0,
    }
}

/// The encoding chosen for a file whose start is `sample`: the forced label when one is
/// given (an error when unknown); else UTF-8 for a BOM or UTF-8 sample, then GBK, then
/// GB18030 where the sample decodes without errors, else lossy UTF-8. Also the name
/// reported for it.
pub open spec fn detect_spec(sample: Seq<u8>, forced: Option<Seq<char>>) -> Result<(EncodingView, Seq<char>), (ErrorKind, Seq<char>)> {
    match forced {
        Some(l) => if encoding_label_known(l) {
            Ok((EncodingView::Labelled(l), l))
        } else {
            failure(ErrorKind::InvalidArgument, unknown_label_message(l))
        },
        None => if has_utf8_bom(sample) || utf8_sample(sample) {
            Ok((EncodingView::Utf8, "utf-8"@))
        } else if !gbk_decoding(sample).1 {
            Ok((EncodingView::Gbk, "gbk"@))
        } else if !gb18030_decoding(sample).1 {
            Ok((EncodingView::Gb18030, "gb18030"@))
        } else {
            Ok((EncodingView::Utf8, "utf-8-lossy"@))
        },
    }
}

pub open spec fn detect_outcome(r: Result<(TextEncoding, String), DocsError>) -> Result<(EncodingView, Seq<char>), (ErrorKind, Seq<char>)> {
    match r {
        Ok((e, n)) => Ok((e@, n@)),
        Err(e) => Err((e.kind(), e.detail())),
    }
}

/// Chooses the encoding of a text file from a sample of its start, or takes the forced one.
pub fn detect_encoding(sample: &[u8], forced: Option<&str>) -> (r: Result<(TextEncoding, String), DocsError>)
    ensures
        detect_outcome(r) == detect_spec(sample@, opt_view(forced)),
        r matches Ok((e, _)) ==> encoding_ok(e@),
{
    if let Some(label) = forced {
        let enc = encoding_from_label(label)?;
        return Ok((enc, string_from_chars(&chars_of(label))));
    }
    if starts_with_bom(sample) {
        return Ok((TextEncoding::Utf8, string_from_chars(&chars_of("utf-8"))));
    }
    let is_utf8 = match check_utf8(sample) {
        Ok(_) => true,
        Err((valid_up_to, error_len)) => error_len.is_none() && valid_up_to > 0,
    };
    if is_utf8 {
        return Ok((TextEncoding::Utf8, string_from_chars(&chars_of("utf-8"))));
    }
    let (_, gbk_errors) = decode_gbk(sample);
    if !gbk_errors {
        return Ok((TextEncoding::Gbk, string_from_chars(&chars_of("gbk"))));
    }
    let (_, gb18030_errors) = decode_gb18030(sample);
    if !gb18030_errors {
        return Ok((TextEncoding::Gb18030, string_from_chars(&chars_of("gb18030"))));
    }
    Ok((TextEncoding::Utf8, string_from_chars(&chars_of("utf-8-lossy"))))
}

/// The text of `bytes`: under the name `utf-8`, data with a BOM goes through the UTF-8
/// decoder and valid UTF-8 is taken as it is; otherwise the chosen encoding decodes.
pub open spec fn decode_text_spec(bytes: Seq<u8>, e: EncodingView, name: Seq<char>) -> Seq<char> {
    if name == "utf-8"@ && has_utf8_bom(bytes) {
        utf8_decoding(bytes).0
    } else if name == "utf-8"@ && vstd::utf8::valid_utf8(bytes) {
        vstd::utf8::decode_utf8(bytes)
    } else {
        decoding_in(e, bytes).0
    }
}

fn copy_bytes(b: &[u8]) -> (r: Vec<u8>)
    ensures
        r@ == b@,
{
    let mut out: Vec<u8> = Vec::new();
    let mut i: usize = 0;
    while i < b.len()
        invariant
            i <= b.len(),
            out@ == b@.take(i as int),
        decreases b.len() - i,
    {
        out.push(b[i]);
        i = i + 1;
        assert(out@ =~= b@.take(i as int));
    }
    assert(b@.take(b.len() as int) =~= b@);
    out
}

/// Decodes bytes read from a file in the encoding chosen for it.
pub fn decode_bytes_with_enc(bytes: &[u8], enc: &TextEncoding, encoding_name: &str) -> (s: String)
    requires
        encoding_ok(enc@),
    ensures
        s@ == decode_text_spec(bytes@, enc@, encoding_name@),
{
    let is_utf8_name = chars_eq(&chars_of(encoding_name), &chars_of("utf-8"));
    if is_utf8_name {
        if starts_with_bom(bytes) {
            let (s, _) = decode_utf8_lossy(bytes);
            return s;
        }
        if check_utf8(bytes).is_ok() {
            match utf8_to_string(copy_bytes(bytes)) {
                Ok(s) => {
                    return s;
                },
                Err(_) => {},
            }
        }
    }
    match enc {
        TextEncoding::Utf8 => decode_utf8_lossy(bytes).0,
        TextEncoding::Gbk => decode_gbk(bytes).0,
        TextEncoding::Gb18030 => decode_gb18030(bytes).0,
        TextEncoding::Labelled(l) => match decode_labelled(l.as_str(), bytes) {
            Some((s, _)) => s,
            None => vstd::pervasive::unreached(),
        },
    }
}

/// What writing `content` in the given encoding produces: UTF-8 for none or `utf-8` /
/// `UTF-8`; otherwise the labelled encoding's bytes, an error for an unknown label or for
/// characters it cannot represent.
pub open spec fn encode_spec(content: Seq<char>, encoding: Option<Seq<char>>) -> Result<Seq<u8>, (ErrorKind, Seq<char>)> {
    match encoding {
        None => Ok(vstd::utf8::encode_utf8(content)),
        Some(l) => if l == "utf-8"@ || l == "UTF-8"@ {
            Ok(vstd::utf8::encode_utf8(content))
        } else if !encoding_label_known(l) {
            failure(ErrorKind::InvalidArgument, unknown_label_message(l))
        } else if label_encoding(l, content).1 {
            failure(ErrorKind::InvalidArgument, "内容无法用编码 "@ + l + " 完整表示"@)
        } else {
            Ok(label_encoding(l, content).0)
        },
    }
}

/// Encodes text for writing.
pub fn encode_string(content: &str, encoding: Option<&str>) -> (r: Result<Vec<u8>, DocsError>)
    ensures
        outcome(r) == encode_spec(content@, opt_view(encoding)),
{
    match encoding {
        None => Ok(crate::docs::docx::utf8_bytes(content)),
        Some(label) => {
            let l = chars_of(label);
            if chars_eq(&l, &chars_of("utf-8")) || chars_eq(&l, &chars_of("UTF-8")) {
                return Ok(crate::docs::docx::utf8_bytes(content));
            }
            let _enc = encoding_from_label(label)?;
            match encode_labelled(label, content) {
                Some((bytes, unmappable)) => {
                    if unmappable {
                        let mut msg: Vec<char> = Vec::new();
                        push_str(&mut msg, "内容无法用编码 ");
                        push_str(&mut msg, label);
                        push_str(&mut msg, " 完整表示");
                        Err(make_error(ErrorKind::InvalidArgument, &msg))
                    } else {
                        Ok(bytes)
                    }
                },
                None => vstd::pervasive::unreached(),
            }
        },
    }
}


/// How many `\n` bytes `s` holds.
pub open spec fn newline_count(s: Seq<u8>) -> nat
    decreases s.len(),
{
    if s.len() == 0 {
        0
    } else {
        newline_count(s.drop_last()) + if s.last() == 10u8 { 1nat } else { 0nat }
    }
}

/// The number of lines of `s`: its newlines, and one more for a last line without one.
pub open spec fn line_count_of(s: Seq<u8>) -> nat {
    newline_count(s) + if s.len() > 0 && s.last() != 10u8 { 1nat } else { 0nat }
}

proof fn lemma_newline_count_append(a: Seq<u8>, b: Seq<u8>)
    ensures
        newline_count(a + b) == newline_count(a) + newline_count(b),
    decreases b.len(),
{
    if b.len() == 0 {
        assert(a + b =~= a);
    } else {
        lemma_newline_count_append(a, b.drop_last());
        assert((a + b).drop_last() =~= a + b.drop_last());
    }
}

/// Counts the lines of data handed over in chunks of any size.
pub struct LineCounter {
    line_count: usize,
    total_bytes: u64,
    last_byte: Option<u8>,
    seen: Ghost<Seq<u8>>,
}

impl View for LineCounter {
    type V = Seq<u8>;

    closed spec fn view(&self) -> Seq<u8> {
        self.seen@
    }
}

impl LineCounter {
    pub closed spec fn wf(&self) -> bool {
        &&& self.line_count == newline_count(self.seen@)
        &&& self.total_bytes == self.seen@.len()
        &&& self.last_byte == if self.seen@.len() > 0 { Some(self.seen@.last()) } else { None::<u8> }
    }

    /// A counter that has seen nothing.
    pub fn new() -> (c: LineCounter)
        ensures
            c.wf(),
            c@ == Seq::<u8>::empty(),
    {
        LineCounter { line_count: 0, total_bytes: 0, last_byte: None, seen: Ghost(Seq::empty()) }
    }

    /// Takes the next chunk of the data.
    pub fn feed(&mut self, chunk: &[u8])
        requires
            old(self).wf(),
            old(self)@.len() + chunk@.len() <= u64::MAX,
            newline_count(old(self)@ + chunk@) < usize::MAX,
        ensures
            final(self).wf(),
            final(self)@ == old(self)@ + chunk@,
    {
        let ghost start = self.seen@;
        let mut count = self.line_count;
        let mut i: usize = 0;
        proof {
            lemma_newline_count_append(start, chunk@);
        }
        while i < chunk.len()
            invariant
                i <= chunk.len(),
                count == newline_count(start + chunk@.take(i as int)),
                newline_count(start) + newline_count(chunk@) < usize::MAX,
            decreases chunk.len() - i,
        {
            proof {
                lemma_newline_count_append(start, chunk@.take(i + 1));
                lemma_newline_count_append(start, chunk@.take(i as int));
                lemma_newline_count_append(chunk@.take(i + 1), chunk@.skip(i + 1));
                assert(chunk@.take(i + 1) + chunk@.skip(i + 1) =~= chunk@);
                assert(chunk@.take(i + 1).drop_last() =~= chunk@.take(i as int));
            }
            if chunk[i] == 10u8 {
                count = count + 1;
            }
            i = i + 1;
        }
        assert(chunk@.take(chunk.len() as int) =~= chunk@);
        let last = if chunk.len() > 0 {
            Some(chunk[chunk.len() - 1])
        } else {
            self.last_byte
        };
        proof {
            if chunk.len() > 0 {
                assert((start + chunk@).last() == chunk@.last());
            } else {
                assert(start + chunk@ =~= start);
            }
        }
        let total = self.total_bytes + chunk.len() as u64;
        *self = LineCounter {
            line_count: count,
            total_bytes: total,
            last_byte: last,
            seen: Ghost(start + chunk@),
        };
    }

    /// The number of lines of all the data seen.
    pub fn count(&self) -> (n: usize)
        requires
            self.wf(),
            line_count_of(self@) <= usize::MAX,
        ensures
            n == line_count_of(self@),
    {
        let partial = match self.last_byte {
            Some(b) => b != 10u8,
            None => false,
        };
        if self.total_bytes > 0 && partial {
            self.line_count + 1
        } else {
            self.line_count
        }
    }
}


/// Options of a text read: a forced encoding label, how many lines, from which line on.
#[derive(Debug, Clone)]
pub struct ReadTextOptions {
    pub encoding: Option<String>,
    pub limit: Option<usize>,
    pub offset: Option<usize>,
}

impl Default for ReadTextOptions {
    fn default() -> (o: ReadTextOptions)
        ensures
            o.encoding is None,
            o.limit is None,
            o.offset is None,
    {
        ReadTextOptions { encoding: None, limit: None, offset: None }
    }
}

#[derive(Debug)]
pub struct ReadTextResult {
    pub ok: bool,
    pub text: String,
    pub encoding: String,
    pub truncated: bool,
    pub total_lines: usize,
}

#[derive(Debug)]
pub struct TextInfo {
    pub ok: bool,
    pub path: String,
    pub size: u64,
    pub encoding: String,
    pub line_count: usize,
}

/// What a read asks of the caller next.
#[derive(PartialEq, Eq, Structural, Clone, Copy, Debug)]
pub enum ReadAction {
    /// Read the next line (through `\n`, at most `MAX_LINE_BYTES`) and hand it to `feed`;
    /// at the end of the file, hand over nothing.
    ReadLine,
    /// Read to the end of the current line without a limit and drop it, then count the
    /// remaining lines.
    SkipLineThenCount,
    /// Count the remaining lines.
    CountRest,
    /// Nothing more to read.
    Finish,
}

/// A text read in progress: the chosen encoding and its reported name, the window asked
/// for, the lines passed so far, and the bytes collected.
#[derive(Debug)]
pub struct TextRead {
    pub enc: TextEncoding,
    pub encoding: String,
    pub offset: usize,
    pub limit: usize,
    pub current_line: usize,
    pub lines_collected: usize,
    pub out_bytes: Vec<u8>,
    pub truncated_by_byte_limit: bool,
    pub hit_eof: bool,
    pub last_line_had_newline: bool,
}

impl TextRead {
    pub open spec fn wf(&self) -> bool {
        &&& encoding_ok(self.enc@)
        &&& self.out_bytes.len() <= DEFAULT_BYTE_LIMIT
        &&& self.current_line < self.offset ==> {
            &&& self.lines_collected == 0
            &&& self.out_bytes.len() == 0
            &&& !self.hit_eof
            &&& !self.truncated_by_byte_limit
            &&& self.last_line_had_newline
        }
        &&& self.current_line >= self.offset ==> self.current_line == self.offset + self.lines_collected
    }

    /// Lines before the window are being passed over.
    pub open spec fn skipping(&self) -> bool {
        self.current_line < self.offset
    }

    /// The next line is wanted: still before the window, or inside it with room left.
    pub open spec fn wants_line(&self) -> bool {
        self.skipping() || (self.lines_collected < self.limit && !self.hit_eof && !self.truncated_by_byte_limit)
    }

    pub open spec fn next_action(&self) -> ReadAction {
        if self.wants_line() {
            ReadAction::ReadLine
        } else if self.hit_eof {
            ReadAction::Finish
        } else if !self.last_line_had_newline {
            ReadAction::SkipLineThenCount
        } else {
            ReadAction::CountRest
        }
    }

    /// What the caller is to do next.
    pub fn action(&self) -> (a: ReadAction)
        ensures
            a == self.next_action(),
    {
        let skipping = self.current_line < self.offset;
        if skipping || (self.lines_collected < self.limit && !self.hit_eof && !self.truncated_by_byte_limit) {
            ReadAction::ReadLine
        } else if self.hit_eof {
            ReadAction::Finish
        } else if !self.last_line_had_newline {
            ReadAction::SkipLineThenCount
        } else {
            ReadAction::CountRest
        }
    }
}

/// The encoding and window of `a` and `b` are the same.
pub open spec fn same_setup(a: TextRead, b: TextRead) -> bool {
    &&& a.enc@ == b.enc@
    &&& a.encoding@ == b.encoding@
    &&& a.offset == b.offset
    &&& a.limit == b.limit
}

/// The message for an offset past the last line.
pub open spec fn offset_message(offset: nat, lines: nat) -> Seq<char> {
    "offset "@ + decimal(offset) + " 超出总行数 "@ + decimal(lines)
}

/// How a non-empty line, or the end of the file, moves a read from `a` to `b`: before the
/// window a line is only counted; inside it, the line is counted and collected up to
/// the byte limit (the collected bytes stop exactly at the limit); the end of the file
/// inside the window is noted.
pub open spec fn feed_spec(a: TextRead, line: Seq<u8>, b: TextRead) -> bool {
    &&& same_setup(a, b)
    &&& if a.skipping() {
        &&& b.current_line == a.current_line + 1
        &&& b.lines_collected == a.lines_collected
        &&& b.out_bytes@ == a.out_bytes@
        &&& b.hit_eof == a.hit_eof
        &&& b.truncated_by_byte_limit == a.truncated_by_byte_limit
        &&& b.last_line_had_newline == a.last_line_had_newline
    } else if line.len() == 0 {
        &&& b.hit_eof
        &&& b.current_line == a.current_line
        &&& b.lines_collected == a.lines_collected
        &&& b.out_bytes@ == a.out_bytes@
        &&& b.truncated_by_byte_limit == a.truncated_by_byte_limit
        &&& b.last_line_had_newline == a.last_line_had_newline
    } else {
        &&& b.current_line == a.current_line + 1
        &&& b.lines_collected == a.lines_collected + 1
        &&& b.hit_eof == a.hit_eof
        &&& b.last_line_had_newline == (line.last() == 10u8)
        &&& if a.out_bytes.len() + line.len() > DEFAULT_BYTE_LIMIT {
            &&& b.out_bytes@ == a.out_bytes@ + line.take(DEFAULT_BYTE_LIMIT - a.out_bytes.len())
            &&& b.truncated_by_byte_limit
        } else {
            &&& b.out_bytes@ == a.out_bytes@ + line
            &&& b.truncated_by_byte_limit == a.truncated_by_byte_limit
        }
    }
}

/// Appends the first `n` bytes of `src` to `out`.
fn extend_with_prefix(out: &mut Vec<u8>, src: &[u8], n: usize)
    requires
        n <= src.len(),
    ensures
        final(out)@ == old(out)@ + src@.take(n as int),
{
    let ghost before = out@;
    let mut i: usize = 0;
    while i < n
        invariant
            i <= n <= src.len(),
            out@ == before + src@.take(i as int),
        decreases n - i,
    {
        out.push(src[i]);
        i = i + 1;
        assert(out@ =~= before + src@.take(i as int));
    }
}

impl TextRead {
    /// Takes the line just read (empty at the end of the file). The end of the file before
    /// the window is an error that names the offset and the lines there are.
    pub fn feed(&mut self, line: &[u8]) -> (r: Result<(), DocsError>)
        requires
            old(self).wf(),
            old(self).wants_line(),
            old(self).current_line < usize::MAX,
        ensures
            old(self).skipping() && line@.len() == 0 ==> {
                &&& r matches Err(e)
                &&& e.kind() == ErrorKind::InvalidArgument
                &&& e.detail() == offset_message(old(self).offset as nat, old(self).current_line as nat)
            },
            !(old(self).skipping() && line@.len() == 0) ==> {
                &&& r is Ok
                &&& final(self).wf()
                &&& feed_spec(*old(self), line@, *final(self))
            },
    {
        if self.current_line < self.offset {
            if line.len() == 0 {
                let mut msg: Vec<char> = Vec::new();
                push_str(&mut msg, "offset ");
                push_decimal(&mut msg, self.offset as u64);
                push_str(&mut msg, " 超出总行数 ");
                push_decimal(&mut msg, self.current_line as u64);
                return Err(make_error(ErrorKind::InvalidArgument, &msg));
            }
            self.current_line = self.current_line + 1;
            return Ok(());
        }
        if line.len() == 0 {
            self.hit_eof = true;
            return Ok(());
        }
        self.current_line = self.current_line + 1;
        self.lines_collected = self.lines_collected + 1;
        self.last_line_had_newline = line[line.len() - 1] == 10u8;
        let have = self.out_bytes.len();
        if line.len() > DEFAULT_BYTE_LIMIT - have {
            extend_with_prefix(&mut self.out_bytes, line, DEFAULT_BYTE_LIMIT - have);
            self.truncated_by_byte_limit = true;
        } else {
            extend_with_prefix(&mut self.out_bytes, line, line.len());
            assert(line@.take(line.len() as int) =~= line@);
        }
        Ok(())
    }
}

/// The largest character boundary of `b` at or below `k` (found by stepping down).
pub open spec fn boundary_at_most(b: Seq<u8>, k: int) -> int
    decreases k,
{
    if k <= 0 {
        0
    } else if vstd::utf8::is_char_boundary(b, k) {
        k
    } else {
        boundary_at_most(b, k - 1)
    }
}

/// Text of more than `DEFAULT_BYTE_LIMIT` UTF-8 bytes cut back to a character boundary
/// within the limit.
pub open spec fn within_byte_limit(t: Seq<char>) -> Seq<char> {
    let b = vstd::utf8::encode_utf8(t);
    if b.len() > DEFAULT_BYTE_LIMIT {
        vstd::utf8::decode_utf8(b.take(boundary_at_most(b, DEFAULT_BYTE_LIMIT as int)))
    } else {
        t
    }
}

/// The number of lines of the file: those passed when the end was met, else those passed
/// and the remaining ones counted.
pub open spec fn total_lines_of(st: TextRead, remaining: nat) -> nat {
    if st.hit_eof {
        st.current_line as nat
    } else {
        (st.current_line + remaining) as nat
    }
}

/// The result of a finished read.
pub open spec fn finish_spec(st: TextRead, remaining: nat, r: ReadTextResult) -> bool {
    let total = total_lines_of(st, remaining);
    let text = decode_text_spec(st.out_bytes@, st.enc@, st.encoding@);
    &&& r.ok
    &&& r.encoding@ == st.encoding@
    &&& r.total_lines == total
    &&& r.text@ == within_byte_limit(text)
    &&& r.truncated == (st.offset + st.lines_collected < total || st.truncated_by_byte_limit
        || (st.limit > 0 && st.lines_collected == st.limit)
        || vstd::utf8::encode_utf8(text).len() > DEFAULT_BYTE_LIMIT)
}

fn cut_to_limit(text: String) -> (r: String)
    ensures
        r@ == within_byte_limit(text@),
{
    let n = text.as_str().as_bytes().len();
    proof {
        vstd::utf8::encode_utf8_valid_utf8(text@);
    }
    if n <= DEFAULT_BYTE_LIMIT {
        return text;
    }
    let ghost b = vstd::utf8::encode_utf8(text@);
    let mut cut = DEFAULT_BYTE_LIMIT;
    assert(boundary_at_most(b, DEFAULT_BYTE_LIMIT as int) == boundary_at_most(b, cut as int));
    while cut > 0 && !text.as_str().is_char_boundary(cut)
        invariant
            vstd::utf8::valid_utf8(vstd::utf8::encode_utf8(text@)),
            cut <= DEFAULT_BYTE_LIMIT,
            b == vstd::utf8::encode_utf8(text@),
            b.len() > DEFAULT_BYTE_LIMIT,
            boundary_at_most(b, DEFAULT_BYTE_LIMIT as int) == boundary_at_most(b, cut as int),
        decreases cut,
    {
        cut = cut - 1;
    }
    assert(boundary_at_most(b, cut as int) == cut as int);
    proof {
        if cut == 0 {
            assert(vstd::utf8::is_char_boundary(b, 0));
        }
    }
    let (head, _) = text.as_str().split_at(cut);
    proof {
        vstd::utf8::encode_utf8_decode_utf8(head@);
        assert(vstd::utf8::encode_utf8(head@) =~= b.take(cut as int));
    }
    head.to_owned()
}

impl TextRead {
    /// The result of the read, given how many lines the caller counted after the window
    /// (unused when the end of the file was met).
    pub fn finish(self, remaining_lines: usize) -> (r: ReadTextResult)
        requires
            self.wf(),
            !self.wants_line(),
            !self.hit_eof ==> self.current_line + remaining_lines <= usize::MAX,
        ensures
            finish_spec(self, remaining_lines as nat, r),
    {
        let total = if self.hit_eof {
            self.current_line
        } else {
            self.current_line + remaining_lines
        };
        let text = decode_bytes_with_enc(self.out_bytes.as_slice(), &self.enc, self.encoding.as_str());
        let mut truncated = self.offset + self.lines_collected < total || self.truncated_by_byte_limit
            || (self.limit > 0 && self.lines_collected == self.limit);
        let long = text.as_str().as_bytes().len() > DEFAULT_BYTE_LIMIT;
        let text = cut_to_limit(text);
        if long {
            truncated = true;
        }
        ReadTextResult { ok: true, text, encoding: self.encoding, truncated, total_lines: total }
    }
}

/// The start of a read: encoding chosen from the first `SAMPLE_BYTES` of `sample` (or
/// forced), offset 0 and limit `DEFAULT_LINE_LIMIT` unless given, nothing read yet.
pub open spec fn begin_spec(sample: Seq<u8>, opts: ReadTextOptions, r: Result<TextRead, DocsError>) -> bool {
    let head = if sample.len() > SAMPLE_BYTES { sample.take(SAMPLE_BYTES as int) } else { sample };
    let forced = match opts.encoding {
        Some(l) => Some(l@),
        None => None,
    };
    match detect_spec(head, forced) {
        Err(e) => r matches Err(x) && x.kind() == e.0 && x.detail() == e.1,
        Ok((enc, name)) => match r {
            Ok(st) => {
                &&& st.wf()
                &&& st.enc@ == enc
                &&& st.encoding@ == name
                &&& st.offset == match opts.offset { Some(o) => o, None => 0usize }
                &&& st.limit == match opts.limit { Some(l) => l, None => DEFAULT_LINE_LIMIT }
                &&& st.current_line == 0
                &&& st.lines_collected == 0
                &&& st.out_bytes@.len() == 0
                &&& !st.truncated_by_byte_limit
                &&& !st.hit_eof
                &&& st.last_line_had_newline
            },
            Err(_) => false,
        },
    }
}

fn first_bytes(b: &[u8], n: usize) -> (r: &[u8])
    ensures
        r@ == if b@.len() > n { b@.take(n as int) } else { b@ },
{
    if b.len() > n {
        vstd::slice::slice_subrange(b, 0, n)
    } else {
        b
    }
}

/// Starts reading a text file whose first buffered bytes are `sample`.
pub fn begin_read(sample: &[u8], opts: &ReadTextOptions) -> (r: Result<TextRead, DocsError>)
    ensures
        begin_spec(sample@, *opts, r),
{
    let head = first_bytes(sample, SAMPLE_BYTES);
    let forced = match &opts.encoding {
        Some(l) => Some(l.as_str()),
        None => None,
    };
    let (enc, encoding) = detect_encoding(head, forced)?;
    let offset = match opts.offset {
        Some(o) => o,
        None => 0,
    };
    let limit = match opts.limit {
        Some(l) => l,
        None => DEFAULT_LINE_LIMIT,
    };
    Ok(TextRead {
        enc,
        encoding,
        offset,
        limit,
        current_line: 0,
        lines_collected: 0,
        out_bytes: Vec::new(),
        truncated_by_byte_limit: false,
        hit_eof: false,
        last_line_had_newline: true,
    })
}

/// Facts about a text file: its path, size, guessed encoding and number of lines (`size`
/// and `line_count` measured by the caller, `sample` its first buffered bytes).
pub fn text_info(info: &PathInfo, size: u64, sample: &[u8], line_count: usize) -> (r: Result<TextInfo, DocsError>)
    ensures
        match r {
            Ok(t) => {
                &&& info.exists && info.is_file
                &&& t.ok
                &&& t.path@ == info.path@
                &&& t.size == size
                &&& t.line_count == line_count
                &&& detect_spec(if sample@.len() > SAMPLE_BYTES { sample@.take(SAMPLE_BYTES as int) } else { sample@ }, None) matches Ok((_, name)) && t.encoding@ == name
            },
            Err(e) => {
                &&& !(info.exists && info.is_file)
                &&& !info.exists ==> e.kind() == ErrorKind::PathNotFound && e.detail() == info.path@
                &&& info.exists ==> e.kind() == ErrorKind::InvalidArgument && e.detail() == "不是文件: "@ + info.path@
            },
        },
{
    let path = require_existing_file(info)?;
    let head = first_bytes(sample, SAMPLE_BYTES);
    let (_, encoding) = detect_encoding(head, None)?;
    Ok(TextInfo { ok: true, path, size, encoding, line_count })
}

/// What writing text gives: the target path and the bytes, refused when the target exists
/// and overwriting was not asked for.
pub open spec fn write_text_spec(path: Seq<char>, target_exists: bool, content: Seq<char>, encoding: Option<Seq<char>>, overwrite: bool) -> Result<(Seq<char>, Seq<u8>), (ErrorKind, Seq<char>)> {
    if target_exists && !overwrite {
        failure(ErrorKind::InvalidArgument, "目标已存在且未允许覆盖: "@ + path)
    } else {
        match encode_spec(content, encoding) {
            Err(e) => Err(e),
            Ok(b) => Ok((path, b)),
        }
    }
}

pub open spec fn write_outcome(r: Result<(String, Vec<u8>), DocsError>) -> Result<(Seq<char>, Seq<u8>), (ErrorKind, Seq<char>)> {
    match r {
        Ok((p, b)) => Ok((p@, b@)),
        Err(e) => Err((e.kind(), e.detail())),
    }
}

/// Writes text: the target is `path` (refused when it exists and `overwrite` is not
/// set; `target_exists` tells whether it does), the bytes are `content` in the encoding.
/// Returns the target and the bytes to write there.
pub fn write_text(path: &str, target_exists: bool, content: &str, encoding: Option<&str>, overwrite: bool) -> (r: Result<(String, Vec<u8>), DocsError>)
    ensures
        write_outcome(r) == write_text_spec(path@, target_exists, content@, opt_view(encoding), overwrite),
{
    let out = resolve_output_path(None, Some(path), overwrite, target_exists)?;
    let bytes = encode_string(content, encoding)?;
    Ok((out, bytes))
}


/// How many bytes one line read takes from the start of `f` from position `i` on: through
/// the first `\n`, at most `MAX_LINE_BYTES`, or to the end.
pub open spec fn read_len_from(f: Seq<u8>, i: nat) -> nat
    decreases f.len() - i,
{
    if i >= f.len() {
        i
    } else if f[i as int] == 10u8 || i + 1 >= MAX_LINE_BYTES {
        i + 1
    } else {
        read_len_from(f, i + 1)
    }
}

/// The length of the next line read of `f`.
pub open spec fn line_read_len(f: Seq<u8>) -> nat {
    read_len_from(f, 0)
}

proof fn lemma_read_len_from(f: Seq<u8>, i: nat)
    requires
        i <= f.len(),
    ensures
        i <= read_len_from(f, i) <= f.len(),
        i < f.len() ==> i < read_len_from(f, i),
        forall|k: int| i <= k < read_len_from(f, i) - 1 ==> f[k] != 10u8,
    decreases f.len() - i,
{
    if i < f.len() && !(f[i as int] == 10u8 || i + 1 >= MAX_LINE_BYTES) {
        lemma_read_len_from(f, i + 1);
    }
}

/// Where a read stands, as far as what comes out of it is concerned: lines passed and
/// collected, bytes collected, and the three flags.
pub struct ReadProgress {
    pub current_line: int,
    pub lines_collected: int,
    pub out: Seq<u8>,
    pub truncated_by_byte_limit: bool,
    pub hit_eof: bool,
    pub last_line_had_newline: bool,
}

pub open spec fn progress(st: TextRead) -> ReadProgress {
    ReadProgress {
        current_line: st.current_line as int,
        lines_collected: st.lines_collected as int,
        out: st.out_bytes@,
        truncated_by_byte_limit: st.truncated_by_byte_limit,
        hit_eof: st.hit_eof,
        last_line_had_newline: st.last_line_had_newline,
    }
}

/// Nothing read yet.
pub open spec fn start_progress() -> ReadProgress {
    ReadProgress {
        current_line: 0,
        lines_collected: 0,
        out: Seq::empty(),
        truncated_by_byte_limit: false,
        hit_eof: false,
        last_line_had_newline: true,
    }
}

pub open spec fn wants_more(offset: int, limit: int, p: ReadProgress) -> bool {
    p.current_line < offset || (p.lines_collected < limit && !p.hit_eof && !p.truncated_by_byte_limit)
}

/// What one line read (empty at the end of the file) does to a read that wants it, when
/// it is not the end of the file before the window.
pub open spec fn after_line(offset: int, p: ReadProgress, line: Seq<u8>) -> ReadProgress {
    if p.current_line < offset {
        ReadProgress { current_line: p.current_line + 1, ..p }
    } else if line.len() == 0 {
        ReadProgress { hit_eof: true, ..p }
    } else if p.out.len() + line.len() > DEFAULT_BYTE_LIMIT {
        ReadProgress {
            current_line: p.current_line + 1,
            lines_collected: p.lines_collected + 1,
            out: p.out + line.take(DEFAULT_BYTE_LIMIT - p.out.len()),
            truncated_by_byte_limit: true,
            last_line_had_newline: line.last() == 10u8,
            ..p
        }
    } else {
        ReadProgress {
            current_line: p.current_line + 1,
            lines_collected: p.lines_collected + 1,
            out: p.out + line,
            last_line_had_newline: line.last() == 10u8,
            ..p
        }
    }
}

/// `feed` moves a read as `after_line` says.
pub proof fn law_feed_follows_after_line(a: TextRead, line: Seq<u8>, b: TextRead)
    requires
        feed_spec(a, line, b),
        !(a.skipping() && line.len() == 0),
    ensures
        progress(b) == after_line(a.offset as int, progress(a), line),
        b.offset == a.offset,
        b.limit == a.limit,
{
}

/// Reading `f` line by line while the read wants lines: where the read ends and what is
/// left of `f`; none when the file ends before the window.
pub open spec fn run_reads(offset: int, limit: int, p: ReadProgress, f: Seq<u8>) -> Option<(ReadProgress, Seq<u8>)>
    decreases f.len(),
{
    if !wants_more(offset, limit, p) {
        Some((p, f))
    } else if f.len() == 0 {
        if p.current_line < offset {
            None
        } else {
            Some((after_line(offset, p, Seq::empty()), f))
        }
    } else {
        let n = line_read_len(f);
        if 0 < n <= f.len() {
            run_reads(offset, limit, after_line(offset, p, f.take(n as int)), f.skip(n as int))
        } else {
            None
        }
    }
}

/// How many bytes reading to the next `\n` without a limit takes from `f`.
pub open spec fn rest_of_line_len(f: Seq<u8>) -> nat
    decreases f.len(),
{
    if f.len() == 0 {
        0
    } else if f[0] == 10u8 {
        1
    } else {
        1 + rest_of_line_len(f.drop_first())
    }
}

/// The number of lines a finished read reports, with `rest` what is left of the file:
/// the lines passed when the end was met; else those and the lines counted in the rest
/// (after the remainder of a line cut at `MAX_LINE_BYTES`).
pub open spec fn reported_total(p: ReadProgress, rest: Seq<u8>) -> int {
    if p.hit_eof {
        p.current_line
    } else if !p.last_line_had_newline {
        p.current_line + line_count_of(rest.skip(rest_of_line_len(rest) as int))
    } else {
        p.current_line + line_count_of(rest)
    }
}

/// Every line read of `f` takes a whole line: no line is longer than `MAX_LINE_BYTES`.
pub open spec fn lines_fit(f: Seq<u8>) -> bool
    decreases f.len(),
{
    if f.len() == 0 {
        true
    } else {
        let n = line_read_len(f);
        if 0 < n <= f.len() {
            (f[n - 1] == 10u8 || n == f.len()) && lines_fit(f.skip(n as int))
        } else {
            false
        }
    }
}

proof fn lemma_count_whole_line(f: Seq<u8>)
    requires
        f.len() > 0,
        line_read_len(f) > 0,
        f[line_read_len(f) - 1] == 10u8 || line_read_len(f) == f.len(),
    ensures
        line_count_of(f) == 1 + line_count_of(f.skip(line_read_len(f) as int)),
{
    let n = line_read_len(f);
    lemma_read_len_from(f, 0);
    let l = f.take(n as int);
    let r = f.skip(n as int);
    assert(f =~= l + r);
    lemma_newline_count_append(l, r);
    assert(newline_count(l) == if l.last() == 10u8 { 1nat } else { 0nat }) by {
        lemma_newline_count_append(l.drop_last(), seq![l.last()]);
        assert(l.drop_last() + seq![l.last()] =~= l);
        lemma_no_newlines(l.drop_last());
        assert(seq![l.last()].drop_last() =~= Seq::<u8>::empty());
    }
    if l.last() != 10u8 {
        assert(r.len() == 0);
        assert(f =~= l);
    } else if r.len() > 0 {
        assert((l + r).last() == r.last());
    } else {
        assert(f =~= l);
    }
}

proof fn lemma_no_newlines(s: Seq<u8>)
    requires
        forall|k: int| 0 <= k < s.len() ==> s[k] != 10u8,
    ensures
        newline_count(s) == 0,
    decreases s.len(),
{
    if s.len() > 0 {
        lemma_no_newlines(s.drop_last());
    }
}

proof fn lemma_run_total(offset: int, limit: int, p: ReadProgress, f: Seq<u8>)
    requires
        lines_fit(f),
        run_reads(offset, limit, p, f) is Some,
        !p.hit_eof,
        p.last_line_had_newline || f.len() == 0,
    ensures
        reported_total(run_reads(offset, limit, p, f)->Some_0.0, run_reads(offset, limit, p, f)->Some_0.1)
            == p.current_line + line_count_of(f),
    decreases f.len(),
{
    if !wants_more(offset, limit, p) {
        if !p.last_line_had_newline {
            assert(f.skip(0) =~= f);
        }
    } else if f.len() == 0 {
    } else {
        let n = line_read_len(f);
        lemma_read_len_from(f, 0);
        let q = after_line(offset, p, f.take(n as int));
        let l = f.take(n as int);
        assert(l.last() == f[n - 1]);
        lemma_count_whole_line(f);
        lemma_run_total(offset, limit, q, f.skip(n as int));
    }
}

/// However the window is chosen, a read of a file whose lines all fit a line read reports
/// the file's number of lines.
pub proof fn law_text_total_is_the_file_line_count(offset: usize, limit: usize, f: Seq<u8>)
    requires
        lines_fit(f),
        run_reads(offset as int, limit as int, start_progress(), f) is Some,
    ensures
        reported_total(
            run_reads(offset as int, limit as int, start_progress(), f)->Some_0.0,
            run_reads(offset as int, limit as int, start_progress(), f)->Some_0.1,
        ) == line_count_of(f),
{
    lemma_run_total(offset as int, limit as int, start_progress(), f);
}


/// How many line reads it takes to read all of `f`.
pub open spec fn read_count(f: Seq<u8>) -> nat
    decreases f.len(),
{
    if f.len() == 0 {
        0
    } else {
        let n = line_read_len(f);
        if 0 < n <= f.len() {
            1 + read_count(f.skip(n as int))
        } else {
            0
        }
    }
}

proof fn lemma_run_collects_all(limit: int, p: ReadProgress, f: Seq<u8>)
    requires
        p.current_line == p.lines_collected,
        p.lines_collected >= 0,
        !p.hit_eof,
        !p.truncated_by_byte_limit,
        p.lines_collected + read_count(f) <= limit,
        p.out.len() + f.len() <= DEFAULT_BYTE_LIMIT,
    ensures
        run_reads(0, limit, p, f) is Some,
        run_reads(0, limit, p, f)->Some_0.1.len() == 0,
        run_reads(0, limit, p, f)->Some_0.0.out == p.out + f,
        !run_reads(0, limit, p, f)->Some_0.0.truncated_by_byte_limit,
        run_reads(0, limit, p, f)->Some_0.0.current_line == run_reads(0, limit, p, f)->Some_0.0.lines_collected,
        run_reads(0, limit, p, f)->Some_0.0.lines_collected <= p.lines_collected + read_count(f),
        reported_total(run_reads(0, limit, p, f)->Some_0.0, run_reads(0, limit, p, f)->Some_0.1)
            == run_reads(0, limit, p, f)->Some_0.0.current_line,
    decreases f.len(),
{
    if f.len() == 0 {
        assert(p.out + f =~= p.out);
        if !p.last_line_had_newline {
            assert(f.skip(0) =~= f);
        }
    } else {
        let n = line_read_len(f);
        lemma_read_len_from(f, 0);
        let l = f.take(n as int);
        let q = after_line(0, p, l);
        assert(wants_more(0, limit, p));
        assert(q.out == p.out + l);
        lemma_run_collects_all(limit, q, f.skip(n as int));
        assert(p.out + l + f.skip(n as int) =~= p.out + f);
    }
}

/// Text written as UTF-8 reads back as written: reading the whole file (from the first
/// line, with room for more lines than the file has) with the name `utf-8`, the text returned is the
/// text written and the read is not truncated. `st` is the read after its line reads,
/// `rest` what is left of the file, `remaining` the lines the caller counted there.
pub proof fn law_utf8_text_reads_back(
    c: Seq<char>,
    st: TextRead,
    rest: Seq<u8>,
    remaining: usize,
    r: ReadTextResult,
)
    requires
        vstd::utf8::encode_utf8(c).len() <= DEFAULT_BYTE_LIMIT,
        !has_utf8_bom(vstd::utf8::encode_utf8(c)),
        st.wf(),
        st.offset == 0,
        st.limit > read_count(vstd::utf8::encode_utf8(c)),
        st.encoding@ == "utf-8"@,
        run_reads(0, st.limit as int, start_progress(), vstd::utf8::encode_utf8(c)) == Some((progress(st), rest)),
        st.hit_eof || remaining == reported_total(progress(st), rest) - st.current_line,
        finish_spec(st, remaining as nat, r),
    ensures
        r.text@ == c,
        !r.truncated,
{
    let f = vstd::utf8::encode_utf8(c);
    lemma_run_collects_all(st.limit as int, start_progress(), f);
    assert(Seq::<u8>::empty() + f =~= f);
    assert(st.out_bytes@ == f);
    vstd::utf8::encode_utf8_valid_utf8(c);
    vstd::utf8::encode_utf8_decode_utf8(c);
    assert(decode_text_spec(st.out_bytes@, st.enc@, st.encoding@) == c);
}

} // verus!
