//! XML tokens of a WordprocessingML part, and the two passes this library makes over
//! them: collecting text and tables, and rewriting text runs. Tokenizing is quick-xml's
//! work; the passes are this module's own.

use vstd::prelude::*;
use quick_xml::events::Event;
use crate::docs::error::{failure, make_error, outcome, DocsError, ErrorKind};
use crate::docs::strings::{
    chars_of, has_suffix, push_chars, push_str, replace_all, replace_chars, string_from_chars,
    trim, trim_chars,
};

verus! {

/// The kind of an XML event, as quick-xml reports it.
#[derive(PartialEq, Eq, Structural, Clone, Copy, Debug)]
pub enum XmlKind {
    Start,
    End,
    Empty,
    Text,
    CData,
    Comment,
    Decl,
    PI,
    DocType,
}

/// One XML event: its kind and its content (for tags, the text between the delimiters;
/// for text, the raw escaped text).
pub struct XmlToken {
    pub kind: XmlKind,
    pub content: String,
}

pub struct XmlTokenView {
    pub kind: XmlKind,
    pub content: Seq<char>,
}

impl View for XmlToken {
    type V = XmlTokenView;

    open spec fn view(&self) -> XmlTokenView {
        XmlTokenView { kind: self.kind, content: self.content@ }
    }
}

#[verifier::external_type_specification]
#[verifier::external_body]
#[verifier::reject_recursive_types(R)]
pub struct ExXmlReader<R>(quick_xml::Reader<R>);

/// The events that a `quick_xml::Reader::from_str` reader (default configuration) gives
/// for `xml` with `read_event` before the end of input, each as kind and content, and the
/// message of the error that stops it early, if one does.
pub uninterp spec fn xml_events(xml: Seq<char>) -> (Seq<XmlTokenView>, Option<Seq<char>>);

/// What a reader still has to give: events, then the end of input (none) or an error.
pub uninterp spec fn reader_pending(r: quick_xml::Reader<&[u8]>) -> (Seq<XmlTokenView>, Option<Seq<char>>);

/// The events of `xml`, or the message of the error met reading them.
pub open spec fn xml_token_list(xml: Seq<char>) -> Result<Seq<XmlTokenView>, Seq<char>> {
    match xml_events(xml) {
        (ts, None) => Ok(ts),
        (_, Some(m)) => Err(m),
    }
}

/// What `quick_xml::escape::unescape` gives for `raw`, `None` where it fails.
pub uninterp spec fn xml_unescaped(raw: Seq<char>) -> Option<Seq<char>>;

/// `quick_xml::Reader::from_str`.
#[verifier::external_body]
fn xml_reader<'a>(xml: &'a str) -> (r: quick_xml::Reader<&'a [u8]>)
    ensures
        reader_pending(r) == xml_events(xml@),
{
    quick_xml::Reader::from_str(xml)
}

/// `Reader::read_event`: the next event with its kind and content (`Deref` of the event,
/// as UTF-8 text), none at the end of input, or the error's message.
#[verifier::external_body]
fn next_xml_event(r: &mut quick_xml::Reader<&[u8]>) -> (e: Result<Option<XmlToken>, String>)
    ensures
        reader_pending(*old(r)).0.len() > 0 ==> (e matches Ok(Some(t)) && t@ == reader_pending(*old(r)).0[0]),
        reader_pending(*old(r)).0.len() > 0 ==> reader_pending(*final(r)) == (reader_pending(*old(r)).0.drop_first(), reader_pending(*old(r)).1),
        reader_pending(*old(r)).0.len() == 0 && reader_pending(*old(r)).1 is None ==> e matches Ok(None),
        reader_pending(*old(r)).0.len() == 0 && reader_pending(*old(r)).1 is Some ==> (e matches Err(m) && reader_pending(*old(r)).1 == Some(m@)),
{
    let ev = r.read_event().map_err(|e| e.to_string())?;
    let kind = match ev {
        Event::Start(_) => XmlKind::Start, Event::End(_) => XmlKind::End, Event::Empty(_) => XmlKind::Empty,
        Event::Text(_) => XmlKind::Text, Event::CData(_) => XmlKind::CData, Event::Comment(_) => XmlKind::Comment,
        Event::Decl(_) => XmlKind::Decl, Event::PI(_) => XmlKind::PI, Event::DocType(_) => XmlKind::DocType,
        Event::Eof => return Ok(None),
    };
    Ok(Some(XmlToken { kind, content: String::from_utf8_lossy(&ev).into_owned() }))
}

/// Reads every event of `xml` until the end of input, or the first error.
fn read_xml_tokens(xml: &str) -> (r: Result<Vec<XmlToken>, String>)
    ensures
        match r {
            Ok(v) => xml_token_list(xml@) == Ok::<Seq<XmlTokenView>, Seq<char>>(v@.map_values(|t: XmlToken| t@)),
            Err(m) => xml_token_list(xml@) == Err::<Seq<XmlTokenView>, Seq<char>>(m@),
        },
{
    let mut reader = xml_reader(xml);
    let ghost ts = xml_events(xml@).0;
    let ghost end = xml_events(xml@).1;
    let mut out: Vec<XmlToken> = Vec::new();
    assert(ts.skip(0) =~= ts);
    loop
        invariant
            out.len() <= ts.len(),
            xml_events(xml@) == (ts, end),
            reader_pending(reader) == (ts.skip(out.len() as int), end),
            out@.map_values(|t: XmlToken| t@) == ts.take(out.len() as int),
        decreases ts.len() - out.len(),
    {
        let ghost before = out@;
        match next_xml_event(&mut reader) {
            Ok(Some(t)) => {
                assert(ts.skip(out.len() as int).drop_first() =~= ts.skip(out.len() + 1));
                out.push(t);
                assert(out@.map_values(|t: XmlToken| t@) =~= ts.take(out.len() as int));
            },
            Ok(None) => {
                assert(ts.take(out.len() as int) =~= ts);
                return Ok(out);
            },
            Err(m) => {
                return Err(m);
            },
        }
    }
}

pub open spec fn opt_text_view(o: Option<String>) -> Option<Seq<char>> {
    match o {
        Some(s) => Some(s@),
        None => None,
    }
}

/// The text holds no `&`, so no entity reference.
pub open spec fn no_entities(raw: Seq<char>) -> bool {
    forall|k: int| 0 <= k < raw.len() ==> raw[k] != '&'
}

/// `quick_xml::escape::unescape`: resolves the predefined entities and character
/// references of `raw`; `None` on an unknown or unterminated entity. Text without `&` comes
/// back unchanged.
#[verifier::external_body]
fn unescape_text(raw: &str) -> (r: Option<String>)
    ensures
        opt_text_view(r) == xml_unescaped(raw@),
        no_entities(raw@) ==> opt_text_view(r) == Some(raw@),
{
    quick_xml::escape::unescape(raw).ok().map(|c| c.into_owned())
}

/// `t.unescape().unwrap_or_default()`: the unescaped text, or empty where unescaping fails.
pub open spec fn text_value(raw: Seq<char>) -> Seq<char> {
    match xml_unescaped(raw) {
        Some(s) => s,
        None => Seq::empty(),
    }
}

pub fn text_value_of(raw: &str) -> (s: Vec<char>)
    ensures
        s@ == text_value(raw@),
{
    match unescape_text(raw) {
        Some(s) => chars_of(s.as_str()),
        None => Vec::new(),
    }
}

pub open spec fn is_xml_space(c: char) -> bool {
    c == ' ' || c == '\r' || c == '\n' || c == '\t'
}

/// Length of the tag name at the start of a tag's content (up to the first XML space).
pub open spec fn name_len(s: Seq<char>) -> nat
    decreases s.len(),
{
    if s.len() == 0 || is_xml_space(s[0]) {
        0
    } else {
        1 + name_len(s.drop_first())
    }
}

/// A qualified name without its prefix: everything after the first `:`.
pub open spec fn strip_prefix(name: Seq<char>) -> Seq<char> {
    if name.contains(':') {
        let k = choose|k: int| 0 <= k < name.len() && name[k] == ':' && forall|j: int| 0 <= j < k ==> name[j] != ':';
        name.skip(k + 1)
    } else {
        name
    }
}

/// The local name of a token: for start and empty tags the first word of the content,
/// for end tags the whole content, each without its namespace prefix.
pub open spec fn local_name(t: XmlTokenView) -> Seq<char> {
    if t.kind == XmlKind::End {
        strip_prefix(t.content)
    } else {
        strip_prefix(t.content.take(name_len(t.content) as int))
    }
}

proof fn lemma_name_len(s: Seq<char>, i: int)
    requires
        0 <= i <= s.len(),
        forall|j: int| 0 <= j < i ==> !is_xml_space(#[trigger] s[j]),
        i == s.len() || is_xml_space(s[i]),
    ensures
        name_len(s) == i,
    decreases i,
{
    if i > 0 {
        let t = s.drop_first();
        assert(!is_xml_space(s[0]));
        assert forall|j: int| 0 <= j < i - 1 implies !is_xml_space(#[trigger] t[j]) by {
            assert(t[j] == s[j + 1]);
        }
        lemma_name_len(t, i - 1);
    }
}

/// A qualified name without its prefix.
fn strip_prefix_exec(name: &Vec<char>) -> (r: Vec<char>)
    ensures
        r@ == strip_prefix(name@),
{
    let mut k: usize = 0;
    while k < name.len() && name[k] != ':'
        invariant
            k <= name.len(),
            forall|j: int| 0 <= j < k ==> name@[j] != ':',
        decreases name.len() - k,
    {
        k = k + 1;
    }
    let start = if k < name.len() { k + 1 } else { 0 };
    let mut out: Vec<char> = Vec::new();
    let mut m = start;
    while m < name.len()
        invariant
            start <= m <= name.len(),
            out@ == name@.subrange(start as int, m as int),
        decreases name.len() - m,
    {
        out.push(name[m]);
        m = m + 1;
        assert(out@ =~= name@.subrange(start as int, m as int));
    }
    proof {
        let n = name@;
        if k < name.len() {
            assert(n.contains(':')) by {
                assert(n[k as int] == ':');
            }
            let kk = choose|kk: int| 0 <= kk < n.len() && n[kk] == ':' && forall|j: int| 0 <= j < kk ==> n[j] != ':';
            assert(kk == k) by {
                if kk < k {
                    assert(n[kk] != ':');
                }
                if kk > k {
                    assert(n[k as int] == ':');
                }
            }
            assert(out@ =~= n.skip(k + 1));
        } else {
            assert(!n.contains(':')) by {
                if n.contains(':') {
                    let w = choose|w: int| 0 <= w < n.len() && n[w] == ':';
                    assert(n[w] != ':');
                }
            }
            assert(out@ =~= n);
        }
    }
    out
}

/// The tag name a token's content starts with (for end tags, the whole content).
fn tag_name(t: &XmlToken) -> (n: Vec<char>)
    ensures
        t.kind == XmlKind::End ==> n@ == t.content@,
        t.kind != XmlKind::End ==> n@ == t.content@.take(name_len(t.content@) as int),
{
    let c = chars_of(t.content.as_str());
    if t.kind == XmlKind::End {
        return c;
    }
    let mut i: usize = 0;
    while i < c.len() && !(c[i] == ' ' || c[i] == '\r' || c[i] == '\n' || c[i] == '\t')
        invariant
            i <= c.len(),
            forall|j: int| 0 <= j < i ==> !is_xml_space(#[trigger] c@[j]),
        decreases c.len() - i,
    {
        i = i + 1;
    }
    proof {
        lemma_name_len(c@, i as int);
    }
    let mut out: Vec<char> = Vec::new();
    let mut m: usize = 0;
    while m < i
        invariant
            m <= i <= c.len(),
            out@ == c@.take(m as int),
        decreases i - m,
    {
        out.push(c[m]);
        m = m + 1;
        assert(out@ =~= c@.take(m as int));
    }
    out
}

/// The local name of a token.
pub fn local_name_of(t: &XmlToken) -> (n: Vec<char>)
    ensures
        n@ == local_name(t@),
{
    let name = tag_name(t);
    strip_prefix_exec(&name)
}

fn is_local(n: &Vec<char>, s: &str) -> (b: bool)
    ensures
        b == (n@ == s@),
{
    let want = chars_of(s);
    if n.len() != want.len() {
        return false;
    }
    let mut i: usize = 0;
    while i < n.len()
        invariant
            n.len() == want.len(),
            want@ == s@,
            i <= n.len(),
            forall|j: int| 0 <= j < i ==> n@[j] == want@[j],
        decreases n.len() - i,
    {
        if n[i] != want[i] {
            return false;
        }
        i = i + 1;
    }
    assert(n@ =~= want@);
    true
}

/// What the text-and-tables pass has built after some events.
pub struct CollectState {
    pub text: Seq<char>,
    pub tables: Seq<Seq<Seq<Seq<char>>>>,
    pub in_table: bool,
    pub table: Seq<Seq<Seq<char>>>,
    pub row: Seq<Seq<char>>,
    pub cell: Seq<char>,
    pub in_t: bool,
}

pub open spec fn collect_start() -> CollectState {
    CollectState {
        text: Seq::empty(),
        tables: Seq::empty(),
        in_table: false,
        table: Seq::empty(),
        row: Seq::empty(),
        cell: Seq::empty(),
        in_t: false,
    }
}

/// Adds `s` to the current cell inside a table, to the body text outside one.
pub open spec fn add_text(st: CollectState, s: Seq<char>) -> CollectState {
    if st.in_table {
        CollectState { cell: st.cell + s, ..st }
    } else {
        CollectState { text: st.text + s, ..st }
    }
}

/// One step of the text-and-tables pass:
/// - `tbl` opens a table, `tr` a row and `tc` a cell (the last two inside a table only);
/// - `t` starts a text run, `tab` adds a tab and `br`/`cr` a newline;
/// - the end of `t` ends the run; the end of `p` adds a newline to the body text, or inside
///   a table a space to a non-empty cell that does not already end in one;
/// - the end of `tc` adds the trimmed cell to the row, of `tr` the row to the table, and of
///   `tbl` the table to the list;
/// - text inside a run is unescaped and added.
pub open spec fn collect_step(st: CollectState, t: XmlTokenView) -> CollectState {
    let l = local_name(t);
    if t.kind == XmlKind::Start || t.kind == XmlKind::Empty {
        if l == "tbl"@ {
            CollectState { in_table: true, table: Seq::empty(), ..st }
        } else if l == "tr"@ && st.in_table {
            CollectState { row: Seq::empty(), ..st }
        } else if l == "tc"@ && st.in_table {
            CollectState { cell: Seq::empty(), ..st }
        } else if l == "t"@ {
            CollectState { in_t: true, ..st }
        } else if l == "tab"@ {
            add_text(st, seq!['\t'])
        } else if l == "br"@ || l == "cr"@ {
            add_text(st, seq!['\n'])
        } else {
            st
        }
    } else if t.kind == XmlKind::End {
        if l == "t"@ {
            CollectState { in_t: false, ..st }
        } else if l == "p"@ {
            if st.in_table {
                if st.cell.len() != 0 && !has_suffix(st.cell, seq![' ']) {
                    CollectState { cell: st.cell.push(' '), ..st }
                } else {
                    st
                }
            } else {
                CollectState { text: st.text.push('\n'), ..st }
            }
        } else if l == "tc"@ && st.in_table {
            CollectState { row: st.row.push(trim(st.cell)), ..st }
        } else if l == "tr"@ && st.in_table {
            CollectState { table: st.table.push(st.row), row: Seq::empty(), ..st }
        } else if l == "tbl"@ {
            CollectState { in_table: false, tables: st.tables.push(st.table), table: Seq::empty(), ..st }
        } else {
            st
        }
    } else if t.kind == XmlKind::Text && st.in_t {
        add_text(st, text_value(t.content))
    } else {
        st
    }
}

pub open spec fn collect_all(tokens: Seq<XmlTokenView>) -> CollectState
    decreases tokens.len(),
{
    if tokens.len() == 0 {
        collect_start()
    } else {
        collect_step(collect_all(tokens.drop_last()), tokens.last())
    }
}

/// A line break (`br` or `cr`, as a start or an empty tag) adds exactly one newline: to the
/// body text outside a table, to the current cell inside one, and changes nothing else.
pub proof fn law_line_break_adds_one_newline(toks: Seq<XmlTokenView>, b: XmlTokenView)
    requires
        b.kind == XmlKind::Start || b.kind == XmlKind::Empty,
        local_name(b) == "br"@ || local_name(b) == "cr"@,
    ensures
        ({
            let a = collect_all(toks);
            let c = collect_all(toks.push(b));
            &&& !a.in_table ==> c.text == a.text.push('\n') && c.cell == a.cell
            &&& a.in_table ==> c.cell == a.cell.push('\n') && c.text == a.text
            &&& c.tables == a.tables
            &&& c.in_table == a.in_table
            &&& c.table == a.table
            &&& c.row == a.row
            &&& c.in_t == a.in_t
        }),
{
    reveal_strlit("br");
    reveal_strlit("cr");
    reveal_strlit("tbl");
    reveal_strlit("tr");
    reveal_strlit("tc");
    reveal_strlit("t");
    reveal_strlit("tab");
    assert(toks.push(b).drop_last() =~= toks);
    assert(toks.push(b).last() == b);
    let a = collect_all(toks);
    let l = local_name(b);
    assert(l.len() == 2);
    assert(l != "tbl"@ && l != "t"@ && l != "tab"@);
    assert(l != "tr"@) by {
        assert(l[0] == 'b' || l[0] == 'c');
    }
    assert(l != "tc"@) by {
        assert(l[0] == 'b' || l[0] == 'c');
    }
    assert(a.text + seq!['\n'] =~= a.text.push('\n'));
    assert(a.cell + seq!['\n'] =~= a.cell.push('\n'));
}

/// The local name of a tag written with the `w:` prefix is the name after it.
proof fn lemma_prefixed_local_name(kind: XmlKind, name: Seq<char>)
    requires
        name.len() > 0,
        forall|j: int| 0 <= j < name.len() ==> (#[trigger] name[j]) != ':' && !is_xml_space(name[j]),
    ensures
        local_name(XmlTokenView { kind, content: seq!['w', ':'] + name }) == name,
{
    let c = seq!['w', ':'] + name;
    assert forall|j: int| 0 <= j < c.len() implies !is_xml_space(#[trigger] c[j]) by {
        if j >= 2 {
            assert(c[j] == name[j - 2]);
        }
    }
    lemma_name_len(c, c.len() as int);
    assert(c.take(c.len() as int) =~= c);
    assert(c[1] == ':');
    assert(c.contains(':'));
    let k = choose|k: int| 0 <= k < c.len() && c[k] == ':' && forall|j: int| 0 <= j < k ==> c[j] != ':';
    assert(k == 1) by {
        if k == 0 {
            assert(c[0] == 'w');
        } else if k > 1 {
            assert(c[1] == ':');
        } else {
        }
    }
    assert(c.skip(2) =~= name);
}

/// A `w:` tag of the given kind and name.
pub open spec fn w_tag(kind: XmlKind, name: Seq<char>) -> XmlTokenView {
    XmlTokenView { kind, content: seq!['w', ':'] + name }
}

/// The events of a paragraph of one run holding the text `a`, a line break, and the text
/// `b`: `<w:p><w:r><w:t>a</w:t><w:br/><w:t>b</w:t></w:r></w:p>`.
pub open spec fn broken_paragraph(a: Seq<char>, b: Seq<char>) -> Seq<XmlTokenView> {
    seq![
        w_tag(XmlKind::Start, seq!['p']),
        w_tag(XmlKind::Start, seq!['r']),
        w_tag(XmlKind::Start, seq!['t']),
        XmlTokenView { kind: XmlKind::Text, content: a },
        w_tag(XmlKind::End, seq!['t']),
        w_tag(XmlKind::Empty, seq!['b', 'r']),
        w_tag(XmlKind::Start, seq!['t']),
        XmlTokenView { kind: XmlKind::Text, content: b },
        w_tag(XmlKind::End, seq!['t']),
        w_tag(XmlKind::End, seq!['r']),
        w_tag(XmlKind::End, seq!['p']),
    ]
}

proof fn lemma_collect_push(toks: Seq<XmlTokenView>, t: XmlTokenView)
    ensures
        collect_all(toks.push(t)) == collect_step(collect_all(toks), t),
{
    assert(toks.push(t).drop_last() =~= toks);
}

proof fn lemma_collect_prefix(toks: Seq<XmlTokenView>, ps: Seq<XmlTokenView>, k: int)
    requires
        0 <= k < ps.len(),
    ensures
        collect_all(toks + ps.take(k + 1)) == collect_step(collect_all(toks + ps.take(k)), ps[k]),
{
    assert(toks + ps.take(k + 1) =~= (toks + ps.take(k)).push(ps[k]));
    lemma_collect_push(toks + ps.take(k), ps[k]);
}

/// Outside a table, a paragraph of two run texts split by a line break adds the first
/// text, a newline, the second text and the paragraph's newline to the body text.
pub proof fn law_paragraph_with_line_break(toks: Seq<XmlTokenView>, a: Seq<char>, b: Seq<char>)
    requires
        !collect_all(toks).in_table,
    ensures
        collect_all(toks + broken_paragraph(a, b)).text
            == collect_all(toks).text + text_value(a) + seq!['\n'] + text_value(b) + seq!['\n'],
        collect_all(toks + broken_paragraph(a, b)).tables == collect_all(toks).tables,
{
    reveal_strlit("br");
    reveal_strlit("cr");
    reveal_strlit("tbl");
    reveal_strlit("tr");
    reveal_strlit("tc");
    reveal_strlit("t");
    reveal_strlit("tab");
    reveal_strlit("p");
    let ps = broken_paragraph(a, b);
    assert("t"@ =~= seq!['t']);
    assert("p"@ =~= seq!['p']);
    assert("br"@ =~= seq!['b', 'r']);
    assert("cr"@ =~= seq!['c', 'r']);
    assert("tbl"@ =~= seq!['t', 'b', 'l']);
    assert("tr"@ =~= seq!['t', 'r']);
    assert("tc"@ =~= seq!['t', 'c']);
    assert("tab"@ =~= seq!['t', 'a', 'b']);
    assert(seq!['p'] != seq!['t']) by { assert(seq!['p'][0] != seq!['t'][0]); }
    assert(seq!['r'] != seq!['t']) by { assert(seq!['r'][0] != seq!['t'][0]); }
    assert(seq!['r'] != seq!['p']) by { assert(seq!['r'][0] != seq!['p'][0]); }
    assert(seq!['t'] != seq!['p']) by { assert(seq!['t'][0] != seq!['p'][0]); }
    assert(seq!['b', 'r'] != seq!['t', 'r']) by { assert(seq!['b', 'r'][0] != seq!['t', 'r'][0]); }
    assert(seq!['b', 'r'] != seq!['t', 'c']) by { assert(seq!['b', 'r'][0] != seq!['t', 'c'][0]); }
    assert(ps[0] == w_tag(XmlKind::Start, seq!['p']));
    assert(ps[1] == w_tag(XmlKind::Start, seq!['r']));
    assert(ps[2] == w_tag(XmlKind::Start, seq!['t']));
    assert(ps[4] == w_tag(XmlKind::End, seq!['t']));
    assert(ps[5] == w_tag(XmlKind::Empty, seq!['b', 'r']));
    assert(ps[6] == w_tag(XmlKind::Start, seq!['t']));
    assert(ps[8] == w_tag(XmlKind::End, seq!['t']));
    assert(ps[9] == w_tag(XmlKind::End, seq!['r']));
    assert(ps[10] == w_tag(XmlKind::End, seq!['p']));
    lemma_prefixed_local_name(XmlKind::Start, seq!['p']);
    lemma_prefixed_local_name(XmlKind::Start, seq!['r']);
    lemma_prefixed_local_name(XmlKind::Start, seq!['t']);
    lemma_prefixed_local_name(XmlKind::Empty, seq!['b', 'r']);
    lemma_prefixed_local_name(XmlKind::End, seq!['t']);
    lemma_prefixed_local_name(XmlKind::End, seq!['r']);
    lemma_prefixed_local_name(XmlKind::End, seq!['p']);
    let s0 = collect_all(toks);
    assert(toks + ps.take(0) =~= toks);
    assert(ps.take(11) =~= ps);
    lemma_collect_prefix(toks, ps, 0);
    lemma_collect_prefix(toks, ps, 1);
    lemma_collect_prefix(toks, ps, 2);
    lemma_collect_prefix(toks, ps, 3);
    lemma_collect_prefix(toks, ps, 4);
    lemma_collect_prefix(toks, ps, 5);
    lemma_collect_prefix(toks, ps, 6);
    lemma_collect_prefix(toks, ps, 7);
    lemma_collect_prefix(toks, ps, 8);
    lemma_collect_prefix(toks, ps, 9);
    lemma_collect_prefix(toks, ps, 10);
    let s1 = collect_step(s0, ps[0]);
    let s2 = collect_step(s1, ps[1]);
    let s3 = collect_step(s2, ps[2]);
    let s4 = collect_step(s3, ps[3]);
    let s5 = collect_step(s4, ps[4]);
    let s6 = collect_step(s5, ps[5]);
    let s7 = collect_step(s6, ps[6]);
    let s8 = collect_step(s7, ps[7]);
    let s9 = collect_step(s8, ps[8]);
    let s10 = collect_step(s9, ps[9]);
    let s11 = collect_step(s10, ps[10]);
    assert(s1 == s0);
    assert(s2 == s0);
    assert(s3.in_t && !s3.in_table && s3.text == s0.text);
    assert(s4.text == s0.text + text_value(a) && s4.in_t && !s4.in_table);
    assert(!s5.in_t && s5.text == s4.text && !s5.in_table);
    assert(s6.text == s5.text + seq!['\n'] && !s6.in_table && !s6.in_t);
    assert(s7.in_t && s7.text == s6.text && !s7.in_table);
    assert(s8.text == s7.text + text_value(b) && !s8.in_table);
    assert(s9.text == s8.text && !s9.in_table);
    assert(s10.text == s9.text && !s10.in_table);
    assert(s11.text == s10.text.push('\n'));
    assert(s11.tables == s0.tables);
    assert(s11.text =~= s0.text + text_value(a) + seq!['\n'] + text_value(b) + seq!['\n']);
}

pub open spec fn cells_view(v: Seq<String>) -> Seq<Seq<char>> {
    v.map_values(|s: String| s@)
}

pub open spec fn rows_view(v: Seq<Vec<String>>) -> Seq<Seq<Seq<char>>> {
    v.map_values(|r: Vec<String>| cells_view(r@))
}

pub open spec fn tables_view(v: Seq<Vec<Vec<String>>>) -> Seq<Seq<Seq<Seq<char>>>> {
    v.map_values(|t: Vec<Vec<String>>| rows_view(t@))
}

pub open spec fn tokens_view(v: Seq<XmlToken>) -> Seq<XmlTokenView> {
    v.map_values(|t: XmlToken| t@)
}

/// The body text and the tables (each a list of rows of trimmed cell texts) of a
/// document's events.
pub fn collect_text_and_tables(tokens: &Vec<XmlToken>) -> (r: (String, Vec<Vec<Vec<String>>>))
    ensures
        r.0@ == collect_all(tokens_view(tokens@)).text,
        tables_view(r.1@) == collect_all(tokens_view(tokens@)).tables,
{
    let mut text: Vec<char> = Vec::new();
    let mut tables: Vec<Vec<Vec<String>>> = Vec::new();
    let mut in_table = false;
    let mut table: Vec<Vec<String>> = Vec::new();
    let mut row: Vec<String> = Vec::new();
    let mut cell: Vec<char> = Vec::new();
    let mut in_t = false;
    let mut i: usize = 0;
    while i < tokens.len()
        invariant
            i <= tokens.len(),
            ({
                let st = collect_all(tokens_view(tokens@.take(i as int)));
                &&& st.text == text@
                &&& st.tables == tables_view(tables@)
                &&& st.in_table == in_table
                &&& st.table == rows_view(table@)
                &&& st.row == cells_view(row@)
                &&& st.cell == cell@
                &&& st.in_t == in_t
            }),
        decreases tokens.len() - i,
    {
        let tok = &tokens[i];
        let ghost prev = collect_all(tokens_view(tokens@.take(i as int)));
        proof {
            let tv = tokens_view(tokens@.take(i + 1));
            assert(tv.drop_last() =~= tokens_view(tokens@.take(i as int)));
            assert(tv.last() == tok@);
        }
        let kind = tok.kind;
        if kind == XmlKind::Start || kind == XmlKind::Empty {
            let l = local_name_of(tok);
            if is_local(&l, "tbl") {
                in_table = true;
                table = Vec::new();
                assert(rows_view(table@) =~= Seq::<Seq<Seq<char>>>::empty());
            } else if is_local(&l, "tr") && in_table {
                row = Vec::new();
                assert(cells_view(row@) =~= Seq::<Seq<char>>::empty());
            } else if is_local(&l, "tc") && in_table {
                cell = Vec::new();
            } else if is_local(&l, "t") {
                in_t = true;
            } else if is_local(&l, "tab") {
                if in_table {
                    cell.push('\t');
                } else {
                    text.push('\t');
                }
            } else if is_local(&l, "br") || is_local(&l, "cr") {
                if in_table {
                    cell.push('\n');
                } else {
                    text.push('\n');
                }
            }
        } else if kind == XmlKind::End {
            let l = local_name_of(tok);
            if is_local(&l, "t") {
                in_t = false;
            } else if is_local(&l, "p") {
                if in_table {
                    if cell.len() != 0 && cell[cell.len() - 1] != ' ' {
                        proof {
                            assert(!has_suffix(cell@, seq![' '])) by {
                                assert(cell@.skip(cell@.len() - 1)[0] == cell@[cell@.len() - 1]);
                            }
                        }
                        cell.push(' ');
                    } else {
                        proof {
                            if cell.len() != 0 {
                                assert(cell@.skip(cell@.len() - 1) =~= seq![' ']);
                            }
                        }
                    }
                } else {
                    text.push('\n');
                }
            } else if is_local(&l, "tc") && in_table {
                let trimmed = trim_chars(&cell);
                let ghost old_row = row@;
                row.push(string_from_chars(&trimmed));
                assert(cells_view(row@) =~= cells_view(old_row).push(trim(cell@)));
            } else if is_local(&l, "tr") && in_table {
                let ghost old_table = table@;
                let mut r: Vec<String> = Vec::new();
                std::mem::swap(&mut r, &mut row);
                table.push(r);
                assert(rows_view(table@) =~= rows_view(old_table).push(prev.row));
                assert(cells_view(row@) =~= Seq::<Seq<char>>::empty());
            } else if is_local(&l, "tbl") {
                in_table = false;
                let ghost old_tables = tables@;
                let mut t: Vec<Vec<String>> = Vec::new();
                std::mem::swap(&mut t, &mut table);
                tables.push(t);
                assert(tables_view(tables@) =~= tables_view(old_tables).push(prev.table));
                assert(rows_view(table@) =~= Seq::<Seq<Seq<char>>>::empty());
            }
        } else if kind == XmlKind::Text && in_t {
            let v = text_value_of(tok.content.as_str());
            if in_table {
                push_chars(&mut cell, &v);
            } else {
                push_chars(&mut text, &v);
            }
        }
        i = i + 1;
    }
    assert(tokens@.take(tokens.len() as int) =~= tokens@);
    (string_from_chars(&text), tables)
}

/// What `extract_text_and_tables` gives for a document part.
pub open spec fn extract_spec(xml: Seq<char>) -> Result<(Seq<char>, Seq<Seq<Seq<Seq<char>>>>), (ErrorKind, Seq<char>)> {
    match xml_token_list(xml) {
        Err(m) => failure(ErrorKind::ParseError, m),
        Ok(toks) => Ok((collect_all(toks).text, collect_all(toks).tables)),
    }
}

/// Reads the body text and the tables of a document part; a malformed part is a parse
/// error carrying the reader's message.
pub fn extract_text_and_tables(xml: &str) -> (r: Result<(String, Vec<Vec<Vec<String>>>), DocsError>)
    ensures
        match r {
            Ok((t, tb)) => extract_spec(xml@) == Ok::<(Seq<char>, Seq<Seq<Seq<Seq<char>>>>), (ErrorKind, Seq<char>)>((t@, tables_view(tb@))),
            Err(e) => extract_spec(xml@) == failure::<(Seq<char>, Seq<Seq<Seq<Seq<char>>>>)>(e.kind(), e.detail()),
        },
{
    match read_xml_tokens(xml) {
        Err(m) => Err(make_error(ErrorKind::ParseError, &chars_of(m.as_str()))),
        Ok(tokens) => Ok(collect_text_and_tables(&tokens)),
    }
}

/// XML escaping of text (`quick_xml::escape::escape`): `&`, `<`, `>`, `'` and `"` become
/// entity references.
pub open spec fn escape_char(c: char) -> Seq<char> {
    if c == '&' {
        "&amp;"@
    } else if c == '<' {
        "&lt;"@
    } else if c == '>' {
        "&gt;"@
    } else if c == '\'' {
        "&apos;"@
    } else if c == '"' {
        "&quot;"@
    } else {
        seq![c]
    }
}

pub open spec fn escape_seq(s: Seq<char>) -> Seq<char>
    decreases s.len(),
{
    if s.len() == 0 {
        Seq::empty()
    } else {
        escape_seq(s.drop_last()) + escape_char(s.last())
    }
}

/// Escapes the XML special characters of a text.
pub fn xml_escape(s: &[char]) -> (r: Vec<char>)
    ensures
        r@ == escape_seq(s@),
{
    let mut out: Vec<char> = Vec::new();
    let mut i: usize = 0;
    while i < s.len()
        invariant
            i <= s.len(),
            out@ == escape_seq(s@.take(i as int)),
        decreases s.len() - i,
    {
        let c = s[i];
        if c == '&' {
            push_str(&mut out, "&amp;");
        } else if c == '<' {
            push_str(&mut out, "&lt;");
        } else if c == '>' {
            push_str(&mut out, "&gt;");
        } else if c == '\'' {
            push_str(&mut out, "&apos;");
        } else if c == '"' {
            push_str(&mut out, "&quot;");
        } else {
            out.push(c);
        }
        i = i + 1;
        assert(s@.take(i as int).drop_last() =~= s@.take(i - 1));
        assert(s@.take(i as int).last() == c);
    }
    assert(s@.take(s.len() as int) =~= s@);
    out
}

/// Escaped text holds no markup characters.
pub proof fn law_escape_has_no_markup(s: Seq<char>)
    ensures
        !escape_seq(s).contains('<'),
        !escape_seq(s).contains('>'),
        !escape_seq(s).contains('"'),
    decreases s.len(),
{
    if s.len() > 0 {
        law_escape_has_no_markup(s.drop_last());
        let p = escape_seq(s.drop_last());
        let e = escape_char(s.last());
        reveal_strlit("&amp;");
        reveal_strlit("&lt;");
        reveal_strlit("&gt;");
        reveal_strlit("&apos;");
        reveal_strlit("&quot;");
        assert(!e.contains('<') && !e.contains('>') && !e.contains('"'));
        assert forall|c: char| (p + e).contains(c) implies p.contains(c) || e.contains(c) by {
            let k = choose|k: int| 0 <= k < (p + e).len() && (p + e)[k] == c;
            if k < p.len() {
                assert(p[k] == c);
            } else {
                assert(e[k - p.len()] == c);
            }
        }
    }
}

/// A text replacement, applied to the text of every run.
#[derive(Debug, Clone)]
pub struct Replacement {
    pub from: String,
    pub to: String,
}

/// The text of a run after applying the replacements in order.
pub open spec fn apply_replacements(s: Seq<char>, reps: Seq<Replacement>) -> Seq<char>
    decreases reps.len(),
{
    if reps.len() == 0 {
        s
    } else {
        replace_all(apply_replacements(s, reps.drop_last()), reps.last().from@, reps.last().to@)
    }
}

/// Replacements apply one after another, each to the whole text the earlier ones left:
/// none leaves a run's text as it is, one replaces every occurrence of its `from` with its
/// `to`, and one more after a list replaces in the text the list gives.
pub proof fn law_replacements_apply_in_order(s: Seq<char>, reps: Seq<Replacement>, r: Replacement)
    ensures
        apply_replacements(s, Seq::empty()) == s,
        apply_replacements(s, seq![r]) == replace_all(s, r.from@, r.to@),
        apply_replacements(s, reps.push(r)) == replace_all(apply_replacements(s, reps), r.from@, r.to@),
{
    assert(seq![r].drop_last() =~= Seq::<Replacement>::empty());
    assert(reps.push(r).drop_last() =~= reps);
}

/// How quick-xml's `Writer` (without indentation) writes an event: its whole behaviour,
/// as `Writer::write_event` in `writer.rs` spells it out, is to put the event's bytes
/// between these delimiters (text as it is).
pub open spec fn render_token(kind: XmlKind, content: Seq<char>) -> Seq<char> {
    match kind {
        XmlKind::Start => "<"@ + content + ">"@,
        XmlKind::End => "</"@ + content + ">"@,
        XmlKind::Empty => "<"@ + content + "/>"@,
        XmlKind::Text => content,
        XmlKind::CData => "<![CDATA["@ + content + "]]>"@,
        XmlKind::Comment => "<!--"@ + content + "-->"@,
        XmlKind::Decl => "<?"@ + content + "?>"@,
        XmlKind::PI => "<?"@ + content + "?>"@,
        XmlKind::DocType => "<!DOCTYPE "@ + content + ">"@,
    }
}

/// The rewritten document after some events, and whether a text run is open (a `t`
/// start tag opens one, a `t` end tag closes it).
pub open spec fn rewrite_all(tokens: Seq<XmlTokenView>, reps: Seq<Replacement>) -> (Seq<char>, bool)
    decreases tokens.len(),
{
    if tokens.len() == 0 {
        (Seq::empty(), false)
    } else {
        let (out, in_t) = rewrite_all(tokens.drop_last(), reps);
        let t = tokens.last();
        if t.kind == XmlKind::Start {
            (out + render_token(t.kind, t.content), in_t || local_name(t) == "t"@)
        } else if t.kind == XmlKind::End {
            (out + render_token(t.kind, t.content), in_t && local_name(t) != "t"@)
        } else if t.kind == XmlKind::Text && in_t {
            (out + escape_seq(apply_replacements(text_value(t.content), reps)), in_t)
        } else {
            (out + render_token(t.kind, t.content), in_t)
        }
    }
}

fn render_into(out: &mut Vec<char>, kind: XmlKind, content: &str)
    ensures
        final(out)@ == old(out)@ + render_token(kind, content@),
{
    let ghost start = out@;
    match kind {
        XmlKind::Start => {
            push_str(out, "<");
            push_str(out, content);
            push_str(out, ">");
        },
        XmlKind::End => {
            push_str(out, "</");
            push_str(out, content);
            push_str(out, ">");
        },
        XmlKind::Empty => {
            push_str(out, "<");
            push_str(out, content);
            push_str(out, "/>");
        },
        XmlKind::Text => {
            push_str(out, content);
        },
        XmlKind::CData => {
            push_str(out, "<![CDATA[");
            push_str(out, content);
            push_str(out, "]]>");
        },
        XmlKind::Comment => {
            push_str(out, "<!--");
            push_str(out, content);
            push_str(out, "-->");
        },
        XmlKind::Decl => {
            push_str(out, "<?");
            push_str(out, content);
            push_str(out, "?>");
        },
        XmlKind::PI => {
            push_str(out, "<?");
            push_str(out, content);
            push_str(out, "?>");
        },
        XmlKind::DocType => {
            push_str(out, "<!DOCTYPE ");
            push_str(out, content);
            push_str(out, ">");
        },
    }
    assert(out@ =~= start + render_token(kind, content@));
}

fn replace_run_text(s: Vec<char>, reps: &Vec<Replacement>) -> (r: Vec<char>)
    ensures
        r@ == apply_replacements(s@, reps@),
{
    let mut cur = s;
    let mut k: usize = 0;
    while k < reps.len()
        invariant
            k <= reps.len(),
            cur@ == apply_replacements(s@, reps@.take(k as int)),
        decreases reps.len() - k,
    {
        let from = chars_of(reps[k].from.as_str());
        let to = chars_of(reps[k].to.as_str());
        cur = replace_chars(&cur, &from, &to);
        k = k + 1;
        assert(reps@.take(k as int).drop_last() =~= reps@.take(k - 1));
        assert(reps@.take(k as int).last() == reps@[k - 1]);
    }
    assert(reps@.take(reps.len() as int) =~= reps@);
    cur
}

/// Rewrites a document's events: every event is written back as quick-xml's writer
/// writes it, except the text of runs, which is unescaped, passed through the
/// replacements in order and escaped again.
pub fn rewrite_tokens(tokens: &Vec<XmlToken>, reps: &Vec<Replacement>) -> (r: String)
    ensures
        r@ == rewrite_all(tokens_view(tokens@), reps@).0,
{
    let mut out: Vec<char> = Vec::new();
    let mut in_t = false;
    let mut i: usize = 0;
    while i < tokens.len()
        invariant
            i <= tokens.len(),
            rewrite_all(tokens_view(tokens@.take(i as int)), reps@) == (out@, in_t),
        decreases tokens.len() - i,
    {
        let tok = &tokens[i];
        proof {
            let tv = tokens_view(tokens@.take(i + 1));
            assert(tv.drop_last() =~= tokens_view(tokens@.take(i as int)));
            assert(tv.last() == tok@);
        }
        let kind = tok.kind;
        if kind == XmlKind::Start {
            let l = local_name_of(tok);
            if is_local(&l, "t") {
                in_t = true;
            }
            render_into(&mut out, kind, tok.content.as_str());
        } else if kind == XmlKind::End {
            let l = local_name_of(tok);
            if is_local(&l, "t") {
                in_t = false;
            }
            render_into(&mut out, kind, tok.content.as_str());
        } else if kind == XmlKind::Text && in_t {
            let v = text_value_of(tok.content.as_str());
            let replaced = replace_run_text(v, reps);
            let esc = xml_escape(&replaced);
            push_chars(&mut out, &esc);
        } else {
            render_into(&mut out, kind, tok.content.as_str());
        }
        i = i + 1;
    }
    assert(tokens@.take(tokens.len() as int) =~= tokens@);
    string_from_chars(&out)
}

/// What `replace_in_document_xml` gives for a document part.
pub open spec fn replace_spec(xml: Seq<char>, reps: Seq<Replacement>) -> Result<Seq<char>, (ErrorKind, Seq<char>)> {
    match xml_token_list(xml) {
        Err(m) => failure(ErrorKind::ParseError, m),
        Ok(toks) => Ok(rewrite_all(toks, reps).0),
    }
}

/// Applies text replacements to the runs of a document part; a malformed part is a parse
/// error carrying the reader's message.
pub fn replace_in_document_xml(xml: &str, reps: &Vec<Replacement>) -> (r: Result<String, DocsError>)
    ensures
        outcome(r) == replace_spec(xml@, reps@),
{
    match read_xml_tokens(xml) {
        Err(m) => Err(make_error(ErrorKind::ParseError, &chars_of(m.as_str()))),
        Ok(tokens) => Ok(rewrite_tokens(&tokens, reps)),
    }
}

} // verus!
