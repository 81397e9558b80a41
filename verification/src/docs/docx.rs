//! Word documents: reading their text and tables, Markdown export, creating a minimal
//! document from text, and replacing text in runs.

use vstd::prelude::*;
use crate::docs::archive::{
    add_member, archive_holds, finish_archive, lemma_utf8_len_bound, member_count, members_fit, name_unused, packable,
    MEMBER_DATA_LIMIT, new_archive, read_entry, read_member, utf8_error_text,
    utf8_to_string, zip_count, zip_entry, zip_entry_name, zip_member, zip_written, ArchiveBuilder, ZipFailure,
    ZipFailureView,
};
use crate::docs::error::{error_with, failure, make_error, outcome, DocsError, ErrorKind};
use crate::docs::pathutil::{
    extension_is, has_extension, opt_view, paths_equal, require_existing_file, resolve_output_path,
    same_path, PathInfo,
};
use crate::docs::strings::{
    chars_of, push_chars, push_str, string_from_chars, trim, trim_chars,
};
use crate::docs::xml::{
    escape_seq, extract_spec, extract_text_and_tables, replace_in_document_xml, replace_spec,
    tables_view, xml_escape, Replacement,
};

verus! {

#[derive(Debug)]
pub struct DocxTextResult {
    pub ok: bool,
    pub text: String,
}

#[derive(Debug)]
pub struct DocxTablesResult {
    pub ok: bool,
    pub tables: Vec<Vec<Vec<String>>>,
}

#[derive(Debug)]
pub struct DocxMarkdownResult {
    pub ok: bool,
    pub markdown: String,
    pub output_path: Option<String>,
}

#[derive(Debug)]
pub struct DocxWriteResult {
    pub ok: bool,
    pub output_path: String,
}

pub open spec fn read_view(contents: Result<Vec<u8>, String>) -> Result<Seq<u8>, Seq<char>> {
    match contents {
        Ok(b) => Ok(b@),
        Err(m) => Err(m@),
    }
}

/// The message `read_to_string` reports for data that is not UTF-8.
pub open spec fn not_utf8_message() -> Seq<char> {
    "stream did not contain valid UTF-8"@
}

/// What `read_document_xml` gives: the text of `word/document.xml` of an existing `.docx`
/// file, or the error.
pub open spec fn document_xml_spec(info: PathInfo, contents: Result<Seq<u8>, Seq<char>>) -> Result<Seq<char>, (ErrorKind, Seq<char>)> {
    if !info.exists {
        failure(ErrorKind::PathNotFound, info.path@)
    } else if !info.is_file {
        failure(ErrorKind::InvalidArgument, "不是文件: "@ + info.path@)
    } else if !has_extension(info.path@, "docx"@) {
        failure(ErrorKind::UnsupportedFormat, "仅支持 .docx"@)
    } else {
        match contents {
            Err(m) => failure(ErrorKind::IoError, m),
            Ok(b) => match zip_member(b, "word/document.xml"@) {
                Err(ZipFailureView::Archive(m)) => failure(ErrorKind::ParseError, m),
                Err(ZipFailureView::Member(m)) => failure(ErrorKind::ParseError, "缺少 word/document.xml: "@ + m),
                Err(ZipFailureView::Read(m)) => failure(ErrorKind::IoError, m),
                Ok(x) => if vstd::utf8::valid_utf8(x) {
                    Ok(vstd::utf8::decode_utf8(x))
                } else {
                    failure(ErrorKind::IoError, not_utf8_message())
                },
            },
        }
    }
}

/// Reads the main part (`word/document.xml`) of a `.docx` file. `contents` is the file's
/// bytes, or the message of the error met reading it.
pub fn read_document_xml(info: &PathInfo, contents: &Result<Vec<u8>, String>) -> (r: Result<String, DocsError>)
    ensures
        outcome(r) == document_xml_spec(*info, read_view(*contents)),
{
    let p = require_existing_file(info)?;
    if !extension_is(p.as_str(), "docx") {
        return Err(make_error(ErrorKind::UnsupportedFormat, &chars_of("仅支持 .docx")));
    }
    let data = match contents {
        Ok(d) => d,
        Err(m) => {
            return Err(make_error(ErrorKind::IoError, &chars_of(m.as_str())));
        },
    };
    let bytes = match read_member(data.as_slice(), "word/document.xml") {
        Ok(b) => b,
        Err(ZipFailure::Archive(m)) => {
            return Err(make_error(ErrorKind::ParseError, &chars_of(m.as_str())));
        },
        Err(ZipFailure::Member(m)) => {
            return Err(error_with(ErrorKind::ParseError, "缺少 word/document.xml: ", &chars_of(m.as_str())));
        },
        Err(ZipFailure::Read(m)) => {
            return Err(make_error(ErrorKind::IoError, &chars_of(m.as_str())));
        },
    };
    match utf8_to_string(bytes) {
        Ok(s) => Ok(s),
        Err(_) => Err(make_error(ErrorKind::IoError, &chars_of("stream did not contain valid UTF-8"))),
    }
}

/// What reading a document gives: its body text and tables.
pub open spec fn docx_content_spec(info: PathInfo, contents: Result<Seq<u8>, Seq<char>>) -> Result<(Seq<char>, Seq<Seq<Seq<Seq<char>>>>), (ErrorKind, Seq<char>)> {
    match document_xml_spec(info, contents) {
        Err(e) => Err(e),
        Ok(x) => extract_spec(x),
    }
}

/// Reads the plain body text of a `.docx` file: the text of its runs, a newline after
/// each paragraph outside tables, tabs and breaks as `\t` and `\n`.
pub fn read_text(info: &PathInfo, contents: &Result<Vec<u8>, String>) -> (r: Result<DocxTextResult, DocsError>)
    ensures
        match r {
            Ok(res) => res.ok && (docx_content_spec(*info, read_view(*contents)) matches Ok((t, _)) && t == res.text@),
            Err(e) => docx_content_spec(*info, read_view(*contents)) == failure::<(Seq<char>, Seq<Seq<Seq<Seq<char>>>>)>(e.kind(), e.detail()),
        },
{
    let xml = read_document_xml(info, contents)?;
    let (text, _) = extract_text_and_tables(xml.as_str())?;
    Ok(DocxTextResult { ok: true, text })
}

/// Reads the tables of a `.docx` file: each a list of rows of trimmed cell texts.
pub fn read_tables(info: &PathInfo, contents: &Result<Vec<u8>, String>) -> (r: Result<DocxTablesResult, DocsError>)
    ensures
        match r {
            Ok(res) => res.ok && (docx_content_spec(*info, read_view(*contents)) matches Ok((_, tb)) && tb == tables_view(res.tables@)),
            Err(e) => docx_content_spec(*info, read_view(*contents)) == failure::<(Seq<char>, Seq<Seq<Seq<Seq<char>>>>)>(e.kind(), e.detail()),
        },
{
    let xml = read_document_xml(info, contents)?;
    let (_, tables) = extract_text_and_tables(xml.as_str())?;
    Ok(DocxTablesResult { ok: true, tables })
}

/// The cells of a Markdown table row after its leading `|`: ` cell |` each.
pub open spec fn md_cells(cells: Seq<Seq<char>>) -> Seq<char>
    decreases cells.len(),
{
    if cells.len() == 0 {
        Seq::empty()
    } else {
        md_cells(cells.drop_last()) + " "@ + cells.last() + " |"@
    }
}

/// The separator row's cells: ` --- |` for each column.
pub open spec fn md_rule(n: nat) -> Seq<char>
    decreases n,
{
    if n == 0 {
        Seq::empty()
    } else {
        md_rule((n - 1) as nat) + " --- |"@
    }
}

/// Body rows: `|`, the cells, a newline, for each row.
pub open spec fn md_rows(rows: Seq<Seq<Seq<char>>>) -> Seq<char>
    decreases rows.len(),
{
    if rows.len() == 0 {
        Seq::empty()
    } else {
        md_rows(rows.drop_last()) + "|"@ + md_cells(rows.last()) + "\n"@
    }
}

/// A table in Markdown, after a blank line: the first row as header, a separator row,
/// then the other rows. Empty tables are left out.
pub open spec fn md_table(t: Seq<Seq<Seq<char>>>) -> Seq<char> {
    if t.len() == 0 {
        Seq::empty()
    } else {
        "\n\n|"@ + md_cells(t[0]) + "\n|"@ + md_rule(t[0].len()) + "\n"@ + md_rows(t.skip(1))
    }
}

pub open spec fn md_tables(ts: Seq<Seq<Seq<Seq<char>>>>) -> Seq<char>
    decreases ts.len(),
{
    if ts.len() == 0 {
        Seq::empty()
    } else {
        md_tables(ts.drop_last()) + md_table(ts.last())
    }
}

/// Tables come out in document order: the Markdown of two runs of tables, one after the
/// other, is the Markdown of the first followed by that of the second.
pub proof fn law_markdown_tables_in_order(ts: Seq<Seq<Seq<Seq<char>>>>, us: Seq<Seq<Seq<Seq<char>>>>)
    ensures
        md_tables(ts + us) == md_tables(ts) + md_tables(us),
    decreases us.len(),
{
    if us.len() == 0 {
        assert(ts + us =~= ts);
        assert(md_tables(ts) + Seq::<char>::empty() =~= md_tables(ts));
    } else {
        law_markdown_tables_in_order(ts, us.drop_last());
        assert((ts + us).drop_last() =~= ts + us.drop_last());
        assert((ts + us).last() == us.last());
        assert(md_tables(ts) + md_tables(us.drop_last()) + md_table(us.last())
            =~= md_tables(ts) + (md_tables(us.drop_last()) + md_table(us.last())));
    }
}

/// The Markdown of two tables is the first's then the second's.
pub proof fn law_markdown_two_tables(a: Seq<Seq<Seq<char>>>, b: Seq<Seq<Seq<char>>>)
    ensures
        md_tables(seq![a, b]) == md_table(a) + md_table(b),
{
    let one = seq![a];
    let two = seq![a, b];
    assert(two.drop_last() =~= one);
    assert(two.last() == b);
    assert(one.drop_last() =~= Seq::<Seq<Seq<Seq<char>>>>::empty());
    assert(one.last() == a);
    assert(md_tables(Seq::<Seq<Seq<Seq<char>>>>::empty()) == Seq::<char>::empty());
    assert(md_tables(one) == md_tables(one.drop_last()) + md_table(a));
    assert(Seq::<char>::empty() + md_table(a) =~= md_table(a));
    assert(md_tables(two) == md_tables(one) + md_table(b));
}

/// The Markdown of a document: its trimmed body text, then its tables.
pub open spec fn markdown_of(text: Seq<char>, tables: Seq<Seq<Seq<Seq<char>>>>) -> Seq<char> {
    trim(text) + md_tables(tables)
}

fn push_md_cells(out: &mut Vec<char>, cells: &Vec<String>)
    ensures
        final(out)@ == old(out)@ + md_cells(crate::docs::xml::cells_view(cells@)),
{
    let ghost start = out@;
    let mut j: usize = 0;
    while j < cells.len()
        invariant
            j <= cells.len(),
            out@ == start + md_cells(crate::docs::xml::cells_view(cells@.take(j as int))),
        decreases cells.len() - j,
    {
        push_str(out, " ");
        push_str(out, cells[j].as_str());
        push_str(out, " |");
        j = j + 1;
        proof {
            let cv = crate::docs::xml::cells_view(cells@.take(j as int));
            assert(cv.drop_last() =~= crate::docs::xml::cells_view(cells@.take(j - 1)));
            assert(cv.last() == cells@[j - 1]@);
            assert(out@ =~= start + md_cells(cv));
        }
    }
    assert(cells@.take(cells.len() as int) =~= cells@);
}

fn push_md_table(out: &mut Vec<char>, table: &Vec<Vec<String>>)
    ensures
        final(out)@ == old(out)@ + md_table(crate::docs::xml::rows_view(table@)),
{
    let ghost start = out@;
    let ghost tv = crate::docs::xml::rows_view(table@);
    if table.len() == 0 {
        assert(out@ =~= start + md_table(tv));
        return;
    }
    push_str(out, "\n\n|");
    push_md_cells(out, &table[0]);
    push_str(out, "\n|");
    let ghost mid = out@;
    let n = table[0].len();
    let mut k: usize = 0;
    while k < n
        invariant
            k <= n,
            out@ == mid + md_rule(k as nat),
        decreases n - k,
    {
        push_str(out, " --- |");
        k = k + 1;
    }
    push_str(out, "\n");
    let ghost before_rows = out@;
    let mut i: usize = 1;
    while i < table.len()
        invariant
            1 <= i <= table.len(),
            tv == crate::docs::xml::rows_view(table@),
            out@ == before_rows + md_rows(tv.subrange(1, i as int)),
        decreases table.len() - i,
    {
        push_str(out, "|");
        push_md_cells(out, &table[i]);
        push_str(out, "\n");
        i = i + 1;
        proof {
            let rs = tv.subrange(1, i as int);
            assert(rs.drop_last() =~= tv.subrange(1, i - 1));
            assert(rs.last() == tv[i - 1]);
        }
    }
    proof {
        assert(tv.subrange(1, table.len() as int) =~= tv.skip(1));
        assert(tv[0] == crate::docs::xml::cells_view(table@[0]@));
        assert(crate::docs::xml::cells_view(table@[0]@).len() == n);
        assert(out@ =~= start + md_table(tv));
    }
}

/// Renders a document's text and tables as Markdown.
pub fn render_markdown(text: &String, tables: &Vec<Vec<Vec<String>>>) -> (md: String)
    ensures
        md@ == markdown_of(text@, tables_view(tables@)),
{
    let t = chars_of(text.as_str());
    let mut out = trim_chars(&t);
    let ghost start = out@;
    let mut i: usize = 0;
    while i < tables.len()
        invariant
            i <= tables.len(),
            out@ == start + md_tables(tables_view(tables@.take(i as int))),
        decreases tables.len() - i,
    {
        push_md_table(&mut out, &tables[i]);
        i = i + 1;
        proof {
            let ts = tables_view(tables@.take(i as int));
            assert(ts.drop_last() =~= tables_view(tables@.take(i - 1)));
            assert(ts.last() == crate::docs::xml::rows_view(tables@[i - 1]@));
            assert(out@ =~= start + md_tables(ts));
        }
    }
    assert(tables@.take(tables.len() as int) =~= tables@);
    string_from_chars(&out)
}

/// Where an export goes: nowhere without an output path; an output path that exists
/// already is refused.
pub open spec fn export_target_spec(output_path: Option<Seq<char>>, target_exists: bool) -> Result<Option<Seq<char>>, (ErrorKind, Seq<char>)> {
    match output_path {
        None => Ok(None),
        Some(p) => if target_exists {
            failure(ErrorKind::InvalidArgument, "目标已存在且未允许覆盖: "@ + p)
        } else {
            Ok(Some(p))
        },
    }
}

pub open spec fn opt_target_view(o: Option<String>) -> Option<Seq<char>> {
    match o {
        Some(s) => Some(s@),
        None => None,
    }
}

/// Settles where an export goes (`target_exists` tells whether the output path exists).
pub fn export_target(output_path: Option<&str>, target_exists: bool) -> (r: Result<Option<String>, DocsError>)
    ensures
        match r {
            Ok(t) => export_target_spec(opt_view(output_path), target_exists) == Ok::<Option<Seq<char>>, (ErrorKind, Seq<char>)>(opt_target_view(t)),
            Err(e) => export_target_spec(opt_view(output_path), target_exists) == failure::<Option<Seq<char>>>(e.kind(), e.detail()),
        },
{
    match output_path {
        None => Ok(None),
        Some(p) => {
            let out = resolve_output_path(None, Some(p), false, target_exists)?;
            Ok(Some(out))
        },
    }
}

/// Exports a `.docx` file as Markdown: its trimmed body text, then each non-empty table
/// with its first row as header. With `output_path` (which must not exist yet;
/// `target_exists` tells whether it does) the result names it as where the caller writes
/// the text.
pub fn to_markdown(info: &PathInfo, contents: &Result<Vec<u8>, String>, output_path: Option<&str>, target_exists: bool) -> (r: Result<DocxMarkdownResult, DocsError>)
    ensures
        match r {
            Ok(res) => res.ok && (docx_content_spec(*info, read_view(*contents)) matches Ok((t, tb)) && res.markdown@ == markdown_of(t, tb))
                && export_target_spec(opt_view(output_path), target_exists) == Ok::<Option<Seq<char>>, (ErrorKind, Seq<char>)>(opt_target_view(res.output_path)),
            Err(e) => match docx_content_spec(*info, read_view(*contents)) {
                Err(x) => x == (e.kind(), e.detail()),
                Ok(_) => export_target_spec(opt_view(output_path), target_exists) == failure::<Option<Seq<char>>>(e.kind(), e.detail()),
            },
        },
{
    let xml = read_document_xml(info, contents)?;
    let (text, tables) = extract_text_and_tables(xml.as_str())?;
    let markdown = render_markdown(&text, &tables);
    let target = export_target(output_path, target_exists)?;
    Ok(DocxMarkdownResult { ok: true, markdown, output_path: target })
}

/// Splits text into lines as `str::lines` does: at each `\n` (a `\r` just before it is
/// dropped too), a final line without `\n` kept as it is, nothing after a final `\n`.
pub open spec fn scan_lines(s: Seq<char>) -> (Seq<Seq<char>>, Seq<char>)
    decreases s.len(),
{
    if s.len() == 0 {
        (Seq::empty(), Seq::empty())
    } else {
        let (done, cur) = scan_lines(s.drop_last());
        if s.last() == '\n' {
            (done.push(strip_cr(cur)), Seq::empty())
        } else {
            (done, cur.push(s.last()))
        }
    }
}

pub open spec fn strip_cr(l: Seq<char>) -> Seq<char> {
    if l.len() > 0 && l.last() == '\r' {
        l.drop_last()
    } else {
        l
    }
}

pub open spec fn text_lines(s: Seq<char>) -> Seq<Seq<char>> {
    let (done, cur) = scan_lines(s);
    if cur.len() > 0 {
        done.push(cur)
    } else {
        done
    }
}

/// Leading `#` characters removed.
pub open spec fn strip_hashes(l: Seq<char>) -> Seq<char>
    decreases l.len(),
{
    if l.len() > 0 && l[0] == '#' {
        strip_hashes(l.drop_first())
    } else {
        l
    }
}

/// A line as a paragraph: leading `#` dropped, then trimmed.
pub open spec fn paragraph_of(l: Seq<char>) -> Seq<char> {
    trim(strip_hashes(l))
}

/// The paragraphs of the lines: empty ones are kept only in `text` format.
pub open spec fn paragraphs_of(lines: Seq<Seq<char>>, keep_empty: bool) -> Seq<Seq<char>>
    decreases lines.len(),
{
    if lines.len() == 0 {
        Seq::empty()
    } else {
        let p = paragraph_of(lines.last());
        let rest = paragraphs_of(lines.drop_last(), keep_empty);
        if p.len() > 0 || keep_empty {
            rest.push(p)
        } else {
            rest
        }
    }
}

/// The paragraphs a new document gets from `content`: one per line, at least one.
pub open spec fn document_paragraphs(content: Seq<char>, keep_empty: bool) -> Seq<Seq<char>> {
    let ps = paragraphs_of(text_lines(content), keep_empty);
    if ps.len() == 0 {
        seq![Seq::<char>::empty()]
    } else {
        ps
    }
}

fn strip_hashes_exec(l: &Vec<char>) -> (r: Vec<char>)
    ensures
        r@ == strip_hashes(l@),
{
    let mut i: usize = 0;
    assert(l@.skip(0) =~= l@);
    while i < l.len() && l[i] == '#'
        invariant
            i <= l.len(),
            strip_hashes(l@) == strip_hashes(l@.skip(i as int)),
        decreases l.len() - i,
    {
        assert(l@.skip(i as int).drop_first() =~= l@.skip(i + 1));
        i = i + 1;
    }
    let mut out: Vec<char> = Vec::new();
    let mut k = i;
    while k < l.len()
        invariant
            i <= k <= l.len(),
            out@ == l@.subrange(i as int, k as int),
        decreases l.len() - k,
    {
        out.push(l[k]);
        k = k + 1;
        assert(out@ =~= l@.subrange(i as int, k as int));
    }
    assert(out@ =~= l@.skip(i as int));
    proof {
        assert(l@.skip(0) =~= l@);
    }
    out
}

/// Splits `content` into lines as `str::lines` does.
fn split_lines(content: &str) -> (lines: Vec<Vec<char>>)
    ensures
        lines@.map_values(|v: Vec<char>| v@) == text_lines(content@),
{
    let c = chars_of(content);
    let mut done: Vec<Vec<char>> = Vec::new();
    let mut cur: Vec<char> = Vec::new();
    let mut i: usize = 0;
    while i < c.len()
        invariant
            i <= c.len(),
            scan_lines(c@.take(i as int)) == (done@.map_values(|v: Vec<char>| v@), cur@),
        decreases c.len() - i,
    {
        assert(c@.take(i + 1).drop_last() =~= c@.take(i as int));
        if c[i] == '\n' {
            if cur.len() > 0 && cur[cur.len() - 1] == '\r' {
                cur.pop();
            }
            let ghost old_done = done@;
            let mut line: Vec<char> = Vec::new();
            std::mem::swap(&mut line, &mut cur);
            done.push(line);
            assert(done@.map_values(|v: Vec<char>| v@) =~= old_done.map_values(|v: Vec<char>| v@).push(done@.last()@));
        } else {
            cur.push(c[i]);
        }
        i = i + 1;
    }
    assert(c@.take(c.len() as int) =~= c@);
    if cur.len() > 0 {
        let ghost old_done = done@;
        done.push(cur);
        assert(done@.map_values(|v: Vec<char>| v@) =~= old_done.map_values(|v: Vec<char>| v@).push(done@.last()@));
    }
    done
}

pub open spec fn para_view(v: Seq<Vec<char>>) -> Seq<Seq<char>> {
    v.map_values(|p: Vec<char>| p@)
}

/// The paragraphs of a new document's content.
pub fn content_paragraphs(content: &str, keep_empty: bool) -> (ps: Vec<Vec<char>>)
    ensures
        para_view(ps@) == document_paragraphs(content@, keep_empty),
{
    let lines = split_lines(content);
    let ghost lv = lines@.map_values(|v: Vec<char>| v@);
    let mut ps: Vec<Vec<char>> = Vec::new();
    let mut i: usize = 0;
    while i < lines.len()
        invariant
            i <= lines.len(),
            lv == lines@.map_values(|v: Vec<char>| v@),
            para_view(ps@) == paragraphs_of(lv.take(i as int), keep_empty),
        decreases lines.len() - i,
    {
        let p = trim_chars(&strip_hashes_exec(&lines[i]));
        proof {
            assert(lv.take(i + 1).drop_last() =~= lv.take(i as int));
            assert(lv.take(i + 1).last() == lines@[i as int]@);
        }
        if p.len() > 0 || keep_empty {
            let ghost old_ps = ps@;
            ps.push(p);
            assert(para_view(ps@) =~= para_view(old_ps).push(ps@.last()@));
        }
        i = i + 1;
    }
    assert(lv.take(lines.len() as int) =~= lv);
    if ps.len() == 0 {
        ps.push(Vec::new());
        assert(para_view(ps@) =~= seq![Seq::<char>::empty()]);
    }
    ps
}

/// The opening of a minimal document part.
pub open spec fn document_head() -> Seq<char> {
    "<?xml version=\"1.0\" encoding=\"UTF-8\" standalone=\"yes\"?>\n<w:document xmlns:w=\"http://schemas.openxmlformats.org/wordprocessingml/2006/main\">\n  <w:body>\n    "@
}

/// The closing of a minimal document part.
pub open spec fn document_tail() -> Seq<char> {
    "\n  </w:body>\n</w:document>"@
}

/// A paragraph with one run holding the escaped text (spaces preserved).
pub open spec fn paragraph_xml(p: Seq<char>) -> Seq<char> {
    "<w:p><w:r><w:t xml:space=\"preserve\">"@ + escape_seq(p) + "</w:t></w:r></w:p>"@
}

pub open spec fn paragraphs_xml(ps: Seq<Seq<char>>) -> Seq<char>
    decreases ps.len(),
{
    if ps.len() == 0 {
        Seq::empty()
    } else {
        paragraphs_xml(ps.drop_last()) + paragraph_xml(ps.last())
    }
}

/// The main part of a minimal document holding the given paragraphs.
pub open spec fn document_xml_of(ps: Seq<Seq<char>>) -> Seq<char> {
    document_head() + paragraphs_xml(ps) + document_tail()
}

/// Builds the main part of a minimal document holding the given paragraphs.
pub fn build_document_xml(paragraphs: &Vec<Vec<char>>) -> (xml: String)
    ensures
        xml@ == document_xml_of(para_view(paragraphs@)),
{
    let mut out: Vec<char> = Vec::new();
    push_str(&mut out, "<?xml version=\"1.0\" encoding=\"UTF-8\" standalone=\"yes\"?>\n<w:document xmlns:w=\"http://schemas.openxmlformats.org/wordprocessingml/2006/main\">\n  <w:body>\n    ");
    let ghost head = out@;
    let mut i: usize = 0;
    while i < paragraphs.len()
        invariant
            i <= paragraphs.len(),
            out@ == head + paragraphs_xml(para_view(paragraphs@.take(i as int))),
        decreases paragraphs.len() - i,
    {
        let esc = xml_escape(&paragraphs[i]);
        push_str(&mut out, "<w:p><w:r><w:t xml:space=\"preserve\">");
        push_chars(&mut out, &esc);
        push_str(&mut out, "</w:t></w:r></w:p>");
        i = i + 1;
        proof {
            let pv = para_view(paragraphs@.take(i as int));
            assert(pv.drop_last() =~= para_view(paragraphs@.take(i - 1)));
            assert(pv.last() == paragraphs@[i - 1]@);
            assert(out@ =~= head + paragraphs_xml(pv));
        }
    }
    assert(paragraphs@.take(paragraphs.len() as int) =~= paragraphs@);
    push_str(&mut out, "\n  </w:body>\n</w:document>");
    string_from_chars(&out)
}

/// The bytes of `s` in UTF-8.
pub fn utf8_bytes(s: &str) -> (b: Vec<u8>)
    ensures
        b@ == vstd::utf8::encode_utf8(s@),
{
    let src = s.as_bytes();
    let mut out: Vec<u8> = Vec::new();
    let mut i: usize = 0;
    while i < src.len()
        invariant
            i <= src.len(),
            out@ == src@.take(i as int),
        decreases src.len() - i,
    {
        out.push(src[i]);
        i = i + 1;
        assert(out@ =~= src@.take(i as int));
    }
    assert(src@.take(src.len() as int) =~= src@);
    out
}

/// The `[Content_Types].xml` part of a minimal document.
pub open spec fn content_types_xml() -> Seq<char> {
    "<?xml version=\"1.0\" encoding=\"UTF-8\" standalone=\"yes\"?>\n<Types xmlns=\"http://schemas.openxmlformats.org/package/2006/content-types\">\n  <Default Extension=\"rels\" ContentType=\"application/vnd.openxmlformats-package.relationships+xml\"/>\n  <Default Extension=\"xml\" ContentType=\"application/xml\"/>\n  <Override PartName=\"/word/document.xml\" ContentType=\"application/vnd.openxmlformats-officedocument.wordprocessingml.document.main+xml\"/>\n</Types>"@
}

/// The `_rels/.rels` part of a minimal document.
pub open spec fn package_rels_xml() -> Seq<char> {
    "<?xml version=\"1.0\" encoding=\"UTF-8\" standalone=\"yes\"?>\n<Relationships xmlns=\"http://schemas.openxmlformats.org/package/2006/relationships\">\n  <Relationship Id=\"rId1\" Type=\"http://schemas.openxmlformats.org/officeDocument/2006/relationships/officeDocument\" Target=\"word/document.xml\"/>\n</Relationships>"@
}

/// The three parts of a minimal document, in the order they are written.
pub open spec fn minimal_docx_members(document_xml: Seq<char>) -> Seq<(Seq<char>, Seq<u8>)> {
    seq![
        ("[Content_Types].xml"@, vstd::utf8::encode_utf8(content_types_xml())),
        ("_rels/.rels"@, vstd::utf8::encode_utf8(package_rels_xml())),
        ("word/document.xml"@, vstd::utf8::encode_utf8(document_xml)),
    ]
}

/// Adds the three parts of a minimal document to an archive being built.
fn add_minimal_members(w: &mut ArchiveBuilder, document_xml: &str) -> (r: Result<(), DocsError>)
    requires
        zip_written(*old(w)).len() == 0,
    ensures
        r is Ok ==> zip_written(*final(w)) == minimal_docx_members(document_xml@),
        r matches Err(e) ==> e.kind() == ErrorKind::Other,
        vstd::utf8::encode_utf8(document_xml@).len() <= MEMBER_DATA_LIMIT ==> r is Ok
            && members_fit(zip_written(*final(w))),
{
    let ct = "<?xml version=\"1.0\" encoding=\"UTF-8\" standalone=\"yes\"?>\n<Types xmlns=\"http://schemas.openxmlformats.org/package/2006/content-types\">\n  <Default Extension=\"rels\" ContentType=\"application/vnd.openxmlformats-package.relationships+xml\"/>\n  <Default Extension=\"xml\" ContentType=\"application/xml\"/>\n  <Override PartName=\"/word/document.xml\" ContentType=\"application/vnd.openxmlformats-officedocument.wordprocessingml.document.main+xml\"/>\n</Types>";
    let rels = "<?xml version=\"1.0\" encoding=\"UTF-8\" standalone=\"yes\"?>\n<Relationships xmlns=\"http://schemas.openxmlformats.org/package/2006/relationships\">\n  <Relationship Id=\"rId1\" Type=\"http://schemas.openxmlformats.org/officeDocument/2006/relationships/officeDocument\" Target=\"word/document.xml\"/>\n</Relationships>";
    let n1 = "[Content_Types].xml";
    let n2 = "_rels/.rels";
    let n3 = "word/document.xml";
    proof {
        reveal_strlit("<?xml version=\"1.0\" encoding=\"UTF-8\" standalone=\"yes\"?>\n<Types xmlns=\"http://schemas.openxmlformats.org/package/2006/content-types\">\n  <Default Extension=\"rels\" ContentType=\"application/vnd.openxmlformats-package.relationships+xml\"/>\n  <Default Extension=\"xml\" ContentType=\"application/xml\"/>\n  <Override PartName=\"/word/document.xml\" ContentType=\"application/vnd.openxmlformats-officedocument.wordprocessingml.document.main+xml\"/>\n</Types>");
        reveal_strlit("<?xml version=\"1.0\" encoding=\"UTF-8\" standalone=\"yes\"?>\n<Relationships xmlns=\"http://schemas.openxmlformats.org/package/2006/relationships\">\n  <Relationship Id=\"rId1\" Type=\"http://schemas.openxmlformats.org/officeDocument/2006/relationships/officeDocument\" Target=\"word/document.xml\"/>\n</Relationships>");
        reveal_strlit("[Content_Types].xml");
        reveal_strlit("_rels/.rels");
        reveal_strlit("word/document.xml");
        lemma_utf8_len_bound(ct@);
        lemma_utf8_len_bound(rels@);
        lemma_utf8_len_bound(n1@);
        lemma_utf8_len_bound(n2@);
        lemma_utf8_len_bound(n3@);
    }
    let ghost w0 = zip_written(*w);
    let b1 = utf8_bytes(ct);
    if let Err(m) = add_member(w, n1, &b1) {
        return Err(make_error(ErrorKind::Other, &chars_of(m.as_str())));
    }
    let ghost w1 = zip_written(*w);
    let b2 = utf8_bytes(rels);
    assert(w1.len() == 1 && w1[0].0 == n1@);
    assert(n1@ != n2@) by {
        assert(n1@[0] != n2@[0]);
    }
    if let Err(m) = add_member(w, n2, &b2) {
        return Err(make_error(ErrorKind::Other, &chars_of(m.as_str())));
    }
    let ghost w2 = zip_written(*w);
    let b3 = utf8_bytes(document_xml);
    assert(w2.len() == 2 && w2[0].0 == n1@ && w2[1].0 == n2@);
    assert(n1@ != n3@ && n2@ != n3@) by {
        assert(n1@[0] != n3@[0]);
        assert(n2@[0] != n3@[0]);
    }
    if let Err(m) = add_member(w, n3, &b3) {
        return Err(make_error(ErrorKind::Other, &chars_of(m.as_str())));
    }
    assert(zip_written(*w) =~= minimal_docx_members(document_xml@));
    Ok(())
}

/// Packs a minimal `.docx`: content types, package relationships and the main part,
/// deflated. The archive bytes are the zip crate's output and are not described beyond
/// the members handed to it. Packing succeeds whenever the main part is within the
/// member size bound.
pub fn write_minimal_docx(document_xml: &str) -> (r: Result<Vec<u8>, DocsError>)
    ensures
        r matches Err(e) ==> e.kind() == ErrorKind::Other,
        r matches Ok(b) ==> archive_holds(b@, minimal_docx_members(document_xml@)),
        vstd::utf8::encode_utf8(document_xml@).len() <= MEMBER_DATA_LIMIT ==> r is Ok,
{
    let mut w = new_archive();
    add_minimal_members(&mut w, document_xml)?;
    match finish_archive(w) {
        Ok(b) => Ok(b),
        Err(m) => Err(make_error(ErrorKind::Other, &chars_of(m.as_str()))),
    }
}

/// Whether `format` is one `create` accepts.
pub open spec fn known_format(format: Seq<char>) -> bool {
    format == "text"@ || format == "markdown"@
}

/// What `create` promises before packing: the target (which must not exist yet), the
/// format check, and the paragraphs the document gets.
pub open spec fn create_spec(path: Seq<char>, target_exists: bool, content: Seq<char>, format: Seq<char>) -> Result<Seq<Seq<char>>, (ErrorKind, Seq<char>)> {
    if target_exists {
        failure(ErrorKind::InvalidArgument, "目标已存在且未允许覆盖: "@ + path)
    } else if !known_format(format) {
        failure(ErrorKind::InvalidArgument, "不支持的 format: "@ + format + "（支持 text|markdown）"@)
    } else {
        Ok(document_paragraphs(content, format == "text"@))
    }
}

fn str_eq(a: &str, b: &str) -> (r: bool)
    ensures
        r == (a@ == b@),
{
    let x = chars_of(a);
    let y = chars_of(b);
    if x.len() != y.len() {
        return false;
    }
    let mut i: usize = 0;
    while i < x.len()
        invariant
            x.len() == y.len(),
            x@ == a@,
            y@ == b@,
            i <= x.len(),
            forall|j: int| 0 <= j < i ==> x@[j] == y@[j],
        decreases x.len() - i,
    {
        if x[i] != y[i] {
            return false;
        }
        i = i + 1;
    }
    assert(x@ =~= y@);
    true
}

/// The paragraphs `create` puts in a new document, or why it refuses.
pub fn create_paragraphs(path: &str, target_exists: bool, content: &str, format: &str) -> (r: Result<(String, Vec<Vec<char>>), DocsError>)
    ensures
        match r {
            Ok((out, ps)) => create_spec(path@, target_exists, content@, format@) == Ok::<Seq<Seq<char>>, (ErrorKind, Seq<char>)>(para_view(ps@)) && out@ == path@,
            Err(e) => create_spec(path@, target_exists, content@, format@) == failure::<Seq<Seq<char>>>(e.kind(), e.detail()),
        },
{
    let out = resolve_output_path(None, Some(path), false, target_exists)?;
    let is_text = str_eq(format, "text");
    let is_md = str_eq(format, "markdown");
    if !is_text && !is_md {
        let mut d = chars_of(format);
        push_str(&mut d, "（支持 text|markdown）");
        let e = error_with(ErrorKind::InvalidArgument, "不支持的 format: ", &d);
        assert(e.detail() =~= "不支持的 format: "@ + format@ + "（支持 text|markdown）"@);
        return Err(e);
    }
    let ps = content_paragraphs(content, is_text);
    Ok((out, ps))
}

/// What `create` promises: the refusal `create_spec` gives, or the target and an archive
/// holding the three parts of a minimal document built from the paragraphs. Only the
/// archive writer can still fail, with an `Other` error, and only on a main part over the
/// member size bound.
pub open spec fn create_post(path: Seq<char>, target_exists: bool, content: Seq<char>, format: Seq<char>, r: Result<(DocxWriteResult, Vec<u8>), DocsError>) -> bool {
    match create_spec(path, target_exists, content, format) {
        Err(e) => r matches Err(x) && (x.kind(), x.detail()) == e,
        Ok(ps) => match r {
            Ok((res, bytes)) => res.ok && res.output_path@ == path
                && archive_holds(bytes@, minimal_docx_members(document_xml_of(ps))),
            Err(x) => x.kind() == ErrorKind::Other
                && vstd::utf8::encode_utf8(document_xml_of(ps)).len() > MEMBER_DATA_LIMIT,
        },
    }
}

/// Creates a minimal `.docx` from text or Markdown at `path`, which must not exist yet
/// (`target_exists` tells whether it does): one paragraph per line (leading `#` dropped,
/// trimmed; empty lines kept only for `text`), at least one paragraph. Returns the target
/// and the file's bytes.
pub fn create(path: &str, target_exists: bool, content: &str, format: &str) -> (r: Result<(DocxWriteResult, Vec<u8>), DocsError>)
    ensures
        create_post(path@, target_exists, content@, format@, r),
{
    let (out, ps) = create_paragraphs(path, target_exists, content, format)?;
    let xml = build_document_xml(&ps);
    let bytes = write_minimal_docx(xml.as_str())?;
    Ok((DocxWriteResult { ok: true, output_path: out }, bytes))
}

/// A document `create` wrote reads back as written: at its path (now an existing
/// `.docx` file), the main part is the document built from the content's paragraphs, and
/// reading its text and tables is extracting them from that document.
pub proof fn law_created_document_reads_back(
    info: PathInfo,
    content: Seq<char>,
    format: Seq<char>,
    r: Result<(DocxWriteResult, Vec<u8>), DocsError>,
)
    requires
        create_post(info.path@, false, content, format, r),
        r is Ok,
        info.exists,
        info.is_file,
        has_extension(info.path@, "docx"@),
    ensures
        create_spec(info.path@, false, content, format) is Ok,
        document_xml_spec(info, Ok(r->Ok_0.1@)) == Ok::<Seq<char>, (ErrorKind, Seq<char>)>(
            document_xml_of(create_spec(info.path@, false, content, format)->Ok_0),
        ),
        docx_content_spec(info, Ok(r->Ok_0.1@)) == extract_spec(document_xml_of(create_spec(info.path@, false, content, format)->Ok_0)),
{
    let ps = create_spec(info.path@, false, content, format)->Ok_0;
    let x = document_xml_of(ps);
    let ms = minimal_docx_members(x);
    assert(ms[2] == ("word/document.xml"@, vstd::utf8::encode_utf8(x)));
    vstd::utf8::encode_utf8_valid_utf8(x);
    vstd::utf8::encode_utf8_decode_utf8(x);
}

/// What one member of the archive becomes in `replace_text`: the main part gets the
/// replacements (it must be UTF-8), every other member is copied.
pub open spec fn rewrite_member_spec(name: Seq<char>, data: Seq<u8>, reps: Seq<Replacement>) -> Result<Seq<u8>, (ErrorKind, Seq<char>)> {
    if name == "word/document.xml"@ {
        if !vstd::utf8::valid_utf8(data) {
            failure(ErrorKind::ParseError, "document.xml 非 UTF-8: "@ + utf8_error_text(data))
        } else {
            match replace_spec(vstd::utf8::decode_utf8(data), reps) {
                Err(e) => Err(e),
                Ok(x) => Ok(vstd::utf8::encode_utf8(x)),
            }
        }
    } else {
        Ok(data)
    }
}

/// The data one member of the archive gets in `replace_text`.
pub fn rewrite_member(name: &str, data: Vec<u8>, reps: &Vec<Replacement>) -> (r: Result<Vec<u8>, DocsError>)
    ensures
        outcome(r) == rewrite_member_spec(name@, data@, reps@),
{
    if str_eq(name, "word/document.xml") {
        let ghost d = data@;
        match utf8_to_string(data) {
            Err(m) => Err(error_with(ErrorKind::ParseError, "document.xml 非 UTF-8: ", &chars_of(m.as_str()))),
            Ok(xml) => {
                let rewritten = replace_in_document_xml(xml.as_str(), reps)?;
                Ok(utf8_bytes(rewritten.as_str()))
            },
        }
    } else {
        Ok(data)
    }
}

/// The members of the archive `replace_text` builds from the first `k` members of the
/// archive in `data`, in order, or the first error met: a member that does not read (an
/// I/O error for its data, a parse error otherwise) or a main part that cannot be
/// rewritten.
pub open spec fn replaced_members(data: Seq<u8>, reps: Seq<Replacement>, k: nat) -> Result<Seq<(Seq<char>, Seq<u8>)>, (ErrorKind, Seq<char>)>
    decreases k,
{
    if k == 0 {
        Ok(Seq::empty())
    } else {
        match replaced_members(data, reps, (k - 1) as nat) {
            Err(e) => Err(e),
            Ok(prev) => match zip_entry(data, (k - 1) as nat) {
                Err(ZipFailureView::Read(m)) => failure(ErrorKind::IoError, m),
                Err(ZipFailureView::Archive(m)) => failure(ErrorKind::ParseError, m),
                Err(ZipFailureView::Member(m)) => failure(ErrorKind::ParseError, m),
                Ok((n, d)) => match rewrite_member_spec(n, d, reps) {
                    Err(e) => Err(e),
                    Ok(x) => Ok(prev.push((n, x))),
                },
            },
        }
    }
}

proof fn lemma_replaced_error_stays(data: Seq<u8>, reps: Seq<Replacement>, k: nat, k2: nat)
    requires
        k <= k2,
        replaced_members(data, reps, k) is Err,
    ensures
        replaced_members(data, reps, k2) == replaced_members(data, reps, k),
    decreases k2 - k,
{
    if k < k2 {
        lemma_replaced_error_stays(data, reps, k, (k2 - 1) as nat);
    }
}

proof fn lemma_replaced_prefix(data: Seq<u8>, reps: Seq<Replacement>, j: nat, k: nat)
    requires
        j <= k,
        replaced_members(data, reps, k) is Ok,
    ensures
        replaced_members(data, reps, j) is Ok,
        replaced_members(data, reps, j)->Ok_0 == replaced_members(data, reps, k)->Ok_0.take(j as int),
    decreases k,
{
    lemma_replaced_members(data, reps, k);
    if j < k {
        lemma_replaced_prefix(data, reps, j, (k - 1) as nat);
        lemma_replaced_members(data, reps, (k - 1) as nat);
        let a = replaced_members(data, reps, (k - 1) as nat)->Ok_0;
        let b = replaced_members(data, reps, k)->Ok_0;
        assert(a =~= b.take(k - 1));
        assert(a.take(j as int) =~= b.take(j as int));
    } else {
        assert(replaced_members(data, reps, k)->Ok_0.take(k as int) =~= replaced_members(data, reps, k)->Ok_0);
    }
}

/// Once member `i` has been rewritten, the members written so far plus it are the first
/// `i + 1` of the whole rewritten archive, when that exists; so a member that cannot be
/// added means the whole archive cannot be packed.
proof fn lemma_replaced_prefix_step(data: Seq<u8>, reps: Seq<Replacement>, i: nat, count: nat)
    requires
        i < count,
        replaced_members(data, reps, i + 1) is Ok,
    ensures
        replaced_members(data, reps, count) matches Ok(ms) ==> ms.take((i + 1) as int) == replaced_members(data, reps, i + 1)->Ok_0,
{
    if replaced_members(data, reps, count) is Ok {
        lemma_replaced_prefix(data, reps, i + 1, count);
    }
}

/// Member `m` of the new archive is the source's member `i`, with the same name, and the
/// same data unless it is the main part.
pub open spec fn copied_entry(data: Seq<u8>, i: int, m: (Seq<char>, Seq<u8>)) -> bool {
    match zip_entry(data, i as nat) {
        Ok((n, d)) => m.0 == n && (n != "word/document.xml"@ ==> m.1 == d),
        Err(_) => false,
    }
}

proof fn lemma_replaced_members(data: Seq<u8>, reps: Seq<Replacement>, k: nat)
    requires
        replaced_members(data, reps, k) is Ok,
    ensures
        replaced_members(data, reps, k)->Ok_0.len() == k,
        forall|i: int| 0 <= i < k ==> copied_entry(data, i, #[trigger] replaced_members(data, reps, k)->Ok_0[i]),
    decreases k,
{
    if k > 0 {
        lemma_replaced_members(data, reps, (k - 1) as nat);
        let prev = replaced_members(data, reps, (k - 1) as nat)->Ok_0;
        let ms = replaced_members(data, reps, k)->Ok_0;
        let e = zip_entry(data, (k - 1) as nat);
        assert(e is Ok);
        let (nm, d) = e->Ok_0;
        assert(rewrite_member_spec(nm, d, reps) is Ok);
        assert(ms == prev.push((nm, rewrite_member_spec(nm, d, reps)->Ok_0)));
        assert forall|i: int| 0 <= i < k implies copied_entry(data, i, #[trigger] ms[i]) by {
            if i < k - 1 {
                assert(ms[i] == prev[i]);
            }
        }
    }
}

/// The new archive `out` has the source's member `i` under its name at the same position,
/// with its data unless it is the main part.
pub open spec fn kept_entry(source: Seq<u8>, out: Seq<u8>, i: int) -> bool {
    match zip_entry(source, i as nat) {
        Ok((n, d)) => zip_entry_name(out, i as nat) == Ok::<Seq<char>, Seq<char>>(n)
            && (n != "word/document.xml"@ ==> zip_member(out, n) == Ok::<Seq<u8>, ZipFailureView>(d)),
        Err(_) => false,
    }
}

/// Replacing text only touches the main part: the new archive holds the source's members
/// in the same order under the same names, every member other than `word/document.xml`
/// with its data unchanged.
pub proof fn law_replace_keeps_other_parts(
    info: PathInfo,
    contents: Result<Seq<u8>, Seq<char>>,
    reps: Seq<Replacement>,
    output_path: Option<Seq<char>>,
    target_exists: bool,
    r: Result<(DocxWriteResult, Vec<u8>), DocsError>,
)
    requires
        replace_text_post(info, contents, reps, output_path, target_exists, r),
        r is Ok,
    ensures
        contents is Ok,
        zip_count(contents->Ok_0) is Ok,
        zip_count(r->Ok_0.1@) == zip_count(contents->Ok_0),
        forall|i: int| 0 <= i < zip_count(contents->Ok_0)->Ok_0 ==> kept_entry(contents->Ok_0, r->Ok_0.1@, i),
{
    let b = contents->Ok_0;
    let n = zip_count(b)->Ok_0;
    lemma_replaced_members(b, reps, n);
    let ms = replaced_members(b, reps, n)->Ok_0;
    let out = r->Ok_0.1@;
    assert forall|i: int| 0 <= i < n implies kept_entry(b, out, i) by {
        let m = ms[i];
        assert(copied_entry(b, i, m));
        assert(zip_entry_name(out, i as nat) == Ok::<Seq<char>, Seq<char>>(m.0));
        assert(zip_member(out, m.0) == Ok::<Seq<u8>, ZipFailureView>(m.1));
    }
}

/// Replacing text and reading the result back: where member `i` of the source is the
/// main part, with data `d`, the new document's main part is `d` with the replacements
/// made, and reading its text and tables extracts them from that rewritten part. (The
/// source's bytes are an input and stay as they were.)
pub proof fn law_replaced_document_reads_back(
    info: PathInfo,
    contents: Result<Seq<u8>, Seq<char>>,
    reps: Seq<Replacement>,
    output_path: Option<Seq<char>>,
    target_exists: bool,
    r: Result<(DocxWriteResult, Vec<u8>), DocsError>,
    out_info: PathInfo,
    i: int,
)
    requires
        replace_text_post(info, contents, reps, output_path, target_exists, r),
        r is Ok,
        contents is Ok,
        zip_count(contents->Ok_0) is Ok,
        0 <= i < zip_count(contents->Ok_0)->Ok_0,
        zip_entry(contents->Ok_0, i as nat) is Ok,
        zip_entry(contents->Ok_0, i as nat)->Ok_0.0 == "word/document.xml"@,
        out_info.exists,
        out_info.is_file,
        has_extension(out_info.path@, "docx"@),
    ensures
        ({
            let d = zip_entry(contents->Ok_0, i as nat)->Ok_0.1;
            &&& vstd::utf8::valid_utf8(d)
            &&& replace_spec(vstd::utf8::decode_utf8(d), reps) is Ok
            &&& document_xml_spec(out_info, Ok(r->Ok_0.1@)) == Ok::<Seq<char>, (ErrorKind, Seq<char>)>(
                replace_spec(vstd::utf8::decode_utf8(d), reps)->Ok_0,
            )
            &&& docx_content_spec(out_info, Ok(r->Ok_0.1@)) == extract_spec(replace_spec(vstd::utf8::decode_utf8(d), reps)->Ok_0)
        }),
{
    let b = contents->Ok_0;
    let n = zip_count(b)->Ok_0;
    let (nm, d) = zip_entry(b, i as nat)->Ok_0;
    let ms = replaced_members(b, reps, n)->Ok_0;
    lemma_replaced_members(b, reps, n);
    lemma_replaced_prefix(b, reps, (i + 1) as nat, n);
    lemma_replaced_members(b, reps, i as nat);
    let prev = replaced_members(b, reps, i as nat)->Ok_0;
    assert(replaced_members(b, reps, (i + 1) as nat) is Ok);
    assert(rewrite_member_spec(nm, d, reps) is Ok);
    let x = rewrite_member_spec(nm, d, reps)->Ok_0;
    assert(replaced_members(b, reps, (i + 1) as nat)->Ok_0 == prev.push((nm, x)));
    assert(ms.take(i + 1)[i] == ms[i]);
    assert(ms[i] == (nm, x));
    let t = replace_spec(vstd::utf8::decode_utf8(d), reps)->Ok_0;
    assert(x == vstd::utf8::encode_utf8(t));
    let out = r->Ok_0.1@;
    assert(zip_member(out, ms[i].0) == Ok::<Seq<u8>, ZipFailureView>(ms[i].1));
    vstd::utf8::encode_utf8_valid_utf8(t);
    vstd::utf8::encode_utf8_decode_utf8(t);
}

/// Where `replace_text` writes: `output_path`, else the source; an existing target other
/// than the source itself is refused.
pub open spec fn replace_target_spec(info: PathInfo, output_path: Option<Seq<char>>, target_exists: bool) -> Result<Seq<char>, (ErrorKind, Seq<char>)> {
    if !info.exists {
        failure(ErrorKind::PathNotFound, info.path@)
    } else if !info.is_file {
        failure(ErrorKind::InvalidArgument, "不是文件: "@ + info.path@)
    } else {
        let t = match output_path {
            Some(p) => p,
            None => info.path@,
        };
        if target_exists && !same_path(info.path@, t) {
            failure(ErrorKind::InvalidArgument, "目标已存在且未允许覆盖: "@ + t)
        } else {
            Ok(t)
        }
    }
}

/// What `replace_text` gives: the target and the members of the new archive, or the error.
pub open spec fn replace_text_spec(
    info: PathInfo,
    contents: Result<Seq<u8>, Seq<char>>,
    reps: Seq<Replacement>,
    output_path: Option<Seq<char>>,
    target_exists: bool,
) -> Result<(Seq<char>, Seq<(Seq<char>, Seq<u8>)>), (ErrorKind, Seq<char>)> {
    match replace_target_spec(info, output_path, target_exists) {
        Err(e) => Err(e),
        Ok(t) => match contents {
            Err(m) => failure(ErrorKind::IoError, m),
            Ok(b) => match zip_count(b) {
                Err(m) => failure(ErrorKind::ParseError, m),
                Ok(n) => match replaced_members(b, reps, n) {
                    Err(e) => Err(e),
                    Ok(ms) => Ok((t, ms)),
                },
            },
        },
    }
}

/// The archive writer is reached: the target is settled and the source archive opens.
pub open spec fn replace_writes(info: PathInfo, contents: Result<Seq<u8>, Seq<char>>, output_path: Option<Seq<char>>, target_exists: bool) -> bool {
    &&& replace_target_spec(info, output_path, target_exists) is Ok
    &&& contents matches Ok(b) && zip_count(b) is Ok
}

/// What `replace_text` promises: on success, the target and an archive holding exactly
/// the rewritten members; on failure, the error `replace_text_spec` gives, or an `Other`
/// error of the archive writer once it is reached, which comes only where the members
/// cannot be packed (a repeated or over-long name, data over the member size bound).
/// Whenever `replace_text_spec` succeeds with members that can be packed, so does
/// `replace_text`.
pub open spec fn replace_text_post(
    info: PathInfo,
    contents: Result<Seq<u8>, Seq<char>>,
    reps: Seq<Replacement>,
    output_path: Option<Seq<char>>,
    target_exists: bool,
    r: Result<(DocxWriteResult, Vec<u8>), DocsError>,
) -> bool {
    match r {
        Ok((res, out)) => res.ok && match replace_text_spec(info, contents, reps, output_path, target_exists) {
            Ok((t, ms)) => res.output_path@ == t && archive_holds(out@, ms),
            Err(_) => false,
        },
        Err(x) => if x.kind() == ErrorKind::Other {
            &&& replace_writes(info, contents, output_path, target_exists)
            &&& replace_text_spec(info, contents, reps, output_path, target_exists) matches Ok((t, ms)) ==> !packable(ms)
        } else {
            replace_text_spec(info, contents, reps, output_path, target_exists) == Err::<(Seq<char>, Seq<(Seq<char>, Seq<u8>)>), (ErrorKind, Seq<char>)>((x.kind(), x.detail()))
        },
    }
}

/// Replaces text in the runs of a `.docx` file, member by member: every member is copied
/// into a new archive, the main part after the replacements. Without `output_path` the
/// result goes back to the source; an explicit other path must not exist yet
/// (`target_exists` tells whether the chosen target does). Returns the target and the new
/// archive's bytes.
pub fn replace_text(
    info: &PathInfo,
    contents: &Result<Vec<u8>, String>,
    reps: &Vec<Replacement>,
    output_path: Option<&str>,
    target_exists: bool,
) -> (r: Result<(DocxWriteResult, Vec<u8>), DocsError>)
    ensures
        replace_text_post(*info, read_view(*contents), reps@, opt_view(output_path), target_exists, r),
{
    let src = require_existing_file(info)?;
    let overwrite = match output_path {
        Some(p) => paths_equal(src.as_str(), p),
        None => true,
    };
    let out = resolve_output_path(Some(src.as_str()), output_path, overwrite, target_exists)?;
    assert(replace_target_spec(*info, opt_view(output_path), target_exists) == Ok::<Seq<char>, (ErrorKind, Seq<char>)>(out@));
    let data = match contents {
        Ok(d) => d,
        Err(m) => {
            return Err(make_error(ErrorKind::IoError, &chars_of(m.as_str())));
        },
    };
    let count = match member_count(data.as_slice()) {
        Ok(n) => n,
        Err(m) => {
            return Err(make_error(ErrorKind::ParseError, &chars_of(m.as_str())));
        },
    };
    let mut w = new_archive();
    let mut i: usize = 0;
    assert(read_view(*contents) == Ok::<Seq<u8>, Seq<char>>(data@));
    while i < count
        invariant
            i <= count,
            replace_text_spec(*info, read_view(*contents), reps@, opt_view(output_path), target_exists) == (match replaced_members(data@, reps@, count as nat) {
                Err(e) => Err(e),
                Ok(ms) => Ok((out@, ms)),
            }),
            replaced_members(data@, reps@, i as nat) == Ok::<Seq<(Seq<char>, Seq<u8>)>, (ErrorKind, Seq<char>)>(zip_written(w)),
            replace_writes(*info, read_view(*contents), opt_view(output_path), target_exists),
        decreases count - i,
    {
        let (name, bytes) = match read_entry(data.as_slice(), i) {
            Ok(e) => e,
            Err(ZipFailure::Read(m)) => {
                proof {
                    lemma_replaced_error_stays(data@, reps@, (i + 1) as nat, count as nat);
                }
                return Err(make_error(ErrorKind::IoError, &chars_of(m.as_str())));
            },
            Err(ZipFailure::Archive(m)) => {
                proof {
                    lemma_replaced_error_stays(data@, reps@, (i + 1) as nat, count as nat);
                }
                return Err(make_error(ErrorKind::ParseError, &chars_of(m.as_str())));
            },
            Err(ZipFailure::Member(m)) => {
                proof {
                    lemma_replaced_error_stays(data@, reps@, (i + 1) as nat, count as nat);
                }
                return Err(make_error(ErrorKind::ParseError, &chars_of(m.as_str())));
            },
        };
        let rewritten = match rewrite_member(name.as_str(), bytes, reps) {
            Ok(x) => x,
            Err(e) => {
                proof {
                    lemma_replaced_error_stays(data@, reps@, (i + 1) as nat, count as nat);
                }
                return Err(e);
            },
        };
        proof {
            lemma_replaced_prefix_step(data@, reps@, i as nat, count as nat);
        }
        let ghost written = zip_written(w);
        let ghost spec_ms = replaced_members(data@, reps@, count as nat);
        proof {
            lemma_replaced_members(data@, reps@, i as nat);
        }
        assert(replaced_members(data@, reps@, (i + 1) as nat) == Ok::<Seq<(Seq<char>, Seq<u8>)>, (ErrorKind, Seq<char>)>(
            written.push((name@, rewritten@)),
        ));
        if name.as_str().as_bytes().len() > 0xFFFF {
            proof {
                if spec_ms is Ok {
                    let ms = spec_ms->Ok_0;
                    lemma_replaced_members(data@, reps@, count as nat);
                    assert(ms.take((i + 1) as int)[i as int] == ms[i as int]);
                    assert(ms[i as int].0 == name@);
                }
            }
            return Err(error_with(ErrorKind::Other, "成员名过长: ", &chars_of(name.as_str())));
        }
        if let Err(m) = add_member(&mut w, name.as_str(), &rewritten) {
            proof {
                if spec_ms is Ok && packable(spec_ms->Ok_0) {
                    let ms = spec_ms->Ok_0;
                    lemma_replaced_members(data@, reps@, count as nat);
                    assert(ms.take((i + 1) as int) == written.push((name@, rewritten@)));
                    assert forall|k: int| 0 <= k < written.len() implies (#[trigger] written[k]).0 != name@ by {
                        assert(ms.take((i + 1) as int)[k] == written[k]);
                        assert(ms.take((i + 1) as int)[i as int] == (name@, rewritten@));
                        assert(ms[k].0 != ms[i as int].0);
                    }
                    assert forall|k: int| 0 <= k < written.len() implies (#[trigger] written[k]).1.len() <= MEMBER_DATA_LIMIT by {
                        assert(ms.take((i + 1) as int)[k] == written[k]);
                        assert(ms[k].1.len() <= MEMBER_DATA_LIMIT);
                    }
                    assert(ms.take((i + 1) as int)[i as int] == (name@, rewritten@));
                    assert(ms[i as int].1.len() <= MEMBER_DATA_LIMIT);
                    assert(false);
                }
            }
            return Err(make_error(ErrorKind::Other, &chars_of(m.as_str())));
        }
        i = i + 1;
    }
    let bytes = match finish_archive(w) {
        Ok(b) => b,
        Err(m) => {
            return Err(make_error(ErrorKind::Other, &chars_of(m.as_str())));
        },
    };
    Ok((DocxWriteResult { ok: true, output_path: out }, bytes))
}

} // verus!
