//! Cell values of a worksheet, as plain values.

use vstd::prelude::*;
use crate::docs::strings::{
    contains, decimal, push_chars, push_decimal, push_str, replace_all, replace_chars,
    contains_seq, string_from_chars,
};

verus! {

/// One cell value, as the library reads and writes it. Numbers that fit `i64` are kept
/// exactly; other numbers are kept as their JSON text.
#[derive(Debug, Clone)]
pub enum CellValue {
    Null,
    Bool(bool),
    Int(i64),
    Decimal(String),
    Text(String),
    Json(String),
}

/// The mathematical view of a [`CellValue`].
pub enum CellView {
    Null,
    Bool(bool),
    Int(i64),
    Decimal(Seq<char>),
    Text(Seq<char>),
    Json(Seq<char>),
}

impl View for CellValue {
    type V = CellView;

    open spec fn view(&self) -> CellView {
        match self {
            CellValue::Null => CellView::Null,
            CellValue::Bool(b) => CellView::Bool(*b),
            CellValue::Int(i) => CellView::Int(*i),
            CellValue::Decimal(s) => CellView::Decimal(s@),
            CellValue::Text(s) => CellView::Text(s@),
            CellValue::Json(s) => CellView::Json(s@),
        }
    }
}

impl CellValue {
    pub fn clone_value(&self) -> (c: CellValue)
        ensures
            c@ == self@,
    {
        match self {
            CellValue::Null => CellValue::Null,
            CellValue::Bool(b) => CellValue::Bool(*b),
            CellValue::Int(i) => CellValue::Int(*i),
            CellValue::Decimal(s) => CellValue::Decimal(s.clone()),
            CellValue::Text(s) => CellValue::Text(s.clone()),
            CellValue::Json(s) => CellValue::Json(s.clone()),
        }
    }
}

/// Decimal text of a signed integer (`-` before negative values).
pub open spec fn int_text(i: int) -> Seq<char> {
    if i < 0 {
        seq!['-'] + decimal((-i) as nat)
    } else {
        decimal(i as nat)
    }
}

/// The text of a value in a CSV field before quoting: empty for `null`, the string
/// itself for text, and the JSON text of anything else.
pub open spec fn cell_text(v: CellView) -> Seq<char> {
    match v {
        CellView::Null => Seq::empty(),
        CellView::Bool(b) => if b { "true"@ } else { "false"@ },
        CellView::Int(i) => int_text(i as int),
        CellView::Decimal(t) => t,
        CellView::Text(s) => s,
        CellView::Json(t) => t,
    }
}

/// A CSV field: quoted, with inner quotes doubled, when the text holds a comma, a quote or
/// a newline; otherwise the text itself.
pub open spec fn csv_field(v: CellView) -> Seq<char> {
    let s = cell_text(v);
    if contains_seq(s, seq![',']) || contains_seq(s, seq!['"']) || contains_seq(s, seq!['\n']) {
        seq!['"'] + replace_all(s, seq!['"'], seq!['"', '"']) + seq!['"']
    } else {
        s
    }
}

/// A CSV field whose text holds a comma, a quote or a newline is quoted: it starts and
/// ends with `"`, so the newline stays inside one record; any other field is its text as
/// it is.
pub proof fn law_csv_field_quoting(v: CellView)
    ensures
        (contains_seq(cell_text(v), seq!['\n']) || contains_seq(cell_text(v), seq![','])
            || contains_seq(cell_text(v), seq!['"'])) ==> {
            let f = csv_field(v);
            &&& f.len() >= 2
            &&& f[0] == '"'
            &&& f[f.len() - 1] == '"'
        },
        !(contains_seq(cell_text(v), seq!['\n']) || contains_seq(cell_text(v), seq![','])
            || contains_seq(cell_text(v), seq!['"'])) ==> csv_field(v) == cell_text(v),
{
    let s = cell_text(v);
    let inner = replace_all(s, seq!['"'], seq!['"', '"']);
    let f = seq!['"'] + inner + seq!['"'];
    assert(f[0] == '"');
    assert(f[f.len() - 1] == '"');
}

fn push_int(out: &mut Vec<char>, i: i64)
    ensures
        final(out)@ == old(out)@ + int_text(i as int),
{
    if i < 0 {
        out.push('-');
        let ghost mid = out@;
        let mag: u64 = if i == i64::MIN {
            9223372036854775808u64
        } else {
            (-i) as u64
        };
        push_u64(out, mag);
        assert(out@ =~= old(out)@ + int_text(i as int));
    } else {
        push_u64(out, i as u64);
    }
}

fn push_u64(out: &mut Vec<char>, n: u64)
    ensures
        final(out)@ == old(out)@ + decimal(n as nat),
{
    push_decimal(out, n);
}

/// The text of a value in a CSV field before quoting.
pub fn cell_text_of(v: &CellValue) -> (t: Vec<char>)
    ensures
        t@ == cell_text(v@),
{
    let mut out: Vec<char> = Vec::new();
    match v {
        CellValue::Null => {},
        CellValue::Bool(b) => {
            if *b {
                push_str(&mut out, "true");
            } else {
                push_str(&mut out, "false");
            }
        },
        CellValue::Int(i) => push_int(&mut out, *i),
        CellValue::Decimal(t) => push_str(&mut out, t.as_str()),
        CellValue::Text(s) => push_str(&mut out, s.as_str()),
        CellValue::Json(t) => push_str(&mut out, t.as_str()),
    }
    out
}

/// One CSV field for a cell value.
pub fn value_to_csv_field(v: &CellValue) -> (f: Vec<char>)
    ensures
        f@ == csv_field(v@),
{
    let s = cell_text_of(v);
    let comma: [char; 1] = [','];
    let quote: [char; 1] = ['"'];
    let newline: [char; 1] = ['\n'];
    assert(comma@ =~= seq![',']);
    assert(quote@ =~= seq!['"']);
    assert(newline@ =~= seq!['\n']);
    if contains(&s, &comma) || contains(&s, &quote) || contains(&s, &newline) {
        let doubled: [char; 2] = ['"', '"'];
        assert(doubled@ =~= seq!['"', '"']);
        let inner = replace_chars(&s, &quote, &doubled);
        let mut out: Vec<char> = Vec::new();
        out.push('"');
        push_chars(&mut out, &inner);
        out.push('"');
        assert(out@ =~= seq!['"'] + inner@ + seq!['"']);
        out
    } else {
        s
    }
}

/// The fields of one row joined by commas.
pub open spec fn csv_line(row: Seq<CellView>) -> Seq<char>
    decreases row.len(),
{
    if row.len() == 0 {
        Seq::empty()
    } else if row.len() == 1 {
        csv_field(row[0])
    } else {
        csv_line(row.drop_last()) + seq![','] + csv_field(row.last())
    }
}

/// The CSV text of a table: each row's line followed by a newline.
pub open spec fn csv_text(rows: Seq<Seq<CellView>>) -> Seq<char>
    decreases rows.len(),
{
    if rows.len() == 0 {
        Seq::empty()
    } else {
        csv_text(rows.drop_last()) + csv_line(rows.last()) + seq!['\n']
    }
}

pub open spec fn row_view(row: Seq<CellValue>) -> Seq<CellView> {
    row.map_values(|c: CellValue| c@)
}

pub open spec fn table_view(rows: Seq<Vec<CellValue>>) -> Seq<Seq<CellView>> {
    rows.map_values(|r: Vec<CellValue>| row_view(r@))
}

/// CSV text of a table of cell values.
pub fn rows_to_csv(rows: &Vec<Vec<CellValue>>) -> (csv: String)
    ensures
        csv@ == csv_text(table_view(rows@)),
{
    let mut out: Vec<char> = Vec::new();
    let mut i: usize = 0;
    while i < rows.len()
        invariant
            i <= rows.len(),
            out@ == csv_text(table_view(rows@.take(i as int))),
        decreases rows.len() - i,
    {
        let row = &rows[i];
        let mut line: Vec<char> = Vec::new();
        let mut j: usize = 0;
        while j < row.len()
            invariant
                j <= row.len(),
                line@ == csv_line(row_view(row@.take(j as int))),
            decreases row.len() - j,
        {
            let f = value_to_csv_field(&row[j]);
            if j > 0 {
                line.push(',');
            }
            push_chars(&mut line, &f);
            j = j + 1;
            proof {
                let rv = row_view(row@.take(j as int));
                assert(rv.drop_last() =~= row_view(row@.take(j - 1)));
                assert(rv.last() == row@[j - 1]@);
                if j == 1 {
                    assert(row_view(row@.take(0)) =~= Seq::<CellView>::empty());
                }
            }
        }
        assert(row@.take(row.len() as int) =~= row@);
        push_chars(&mut out, &line);
        out.push('\n');
        i = i + 1;
        proof {
            let tv = table_view(rows@.take(i as int));
            assert(tv.drop_last() =~= table_view(rows@.take(i - 1)));
            assert(tv.last() == row_view(rows@[i - 1]@));
        }
    }
    assert(rows@.take(rows.len() as int) =~= rows@);
    string_from_chars(&out)
}


/// How many times `c` occurs in `s`.
pub open spec fn count_of(s: Seq<char>, c: char) -> nat
    decreases s.len(),
{
    if s.len() == 0 {
        0
    } else {
        (if s[0] == c { 1nat } else { 0nat }) + count_of(s.drop_first(), c)
    }
}

/// No character of `s` is a newline.
pub open spec fn newline_free(s: Seq<char>) -> bool {
    forall|k: int| 0 <= k < s.len() ==> s[k] != '\n'
}

proof fn lemma_count_concat(a: Seq<char>, b: Seq<char>, c: char)
    ensures
        count_of(a + b, c) == count_of(a, c) + count_of(b, c),
    decreases a.len(),
{
    if a.len() == 0 {
        assert(a + b =~= b);
    } else {
        lemma_count_concat(a.drop_first(), b, c);
        assert((a + b).drop_first() =~= a.drop_first() + b);
    }
}

proof fn lemma_count_single(c: char, x: char)
    ensures
        count_of(seq![c], x) == if c == x { 1nat } else { 0nat },
{
    assert(seq![c].drop_first() =~= Seq::<char>::empty());
    assert(count_of(Seq::<char>::empty(), x) == 0);
}

proof fn lemma_newline_free_count(s: Seq<char>)
    requires
        newline_free(s),
    ensures
        count_of(s, '\n') == 0,
    decreases s.len(),
{
    if s.len() > 0 {
        assert(newline_free(s.drop_first())) by {
            assert forall|k: int| 0 <= k < s.drop_first().len() implies s.drop_first()[k] != '\n' by {
                assert(s.drop_first()[k] == s[k + 1]);
            }
        }
        lemma_newline_free_count(s.drop_first());
    }
}

proof fn lemma_quote_doubling_keeps_newlines(s: Seq<char>)
    ensures
        count_of(replace_all(s, seq!['"'], seq!['"', '"']), '\n') == count_of(s, '\n'),
    decreases s.len(),
{
    if s.len() > 0 {
        let r = replace_all(s, seq!['"'], seq!['"', '"']);
        if crate::docs::strings::has_prefix(s, seq!['"']) {
            assert(s.skip(1) =~= s.drop_first());
            lemma_quote_doubling_keeps_newlines(s.drop_first());
            lemma_count_concat(seq!['"', '"'], replace_all(s.drop_first(), seq!['"'], seq!['"', '"']), '\n');
            assert(seq!['"', '"'] =~= seq!['"'] + seq!['"']);
            lemma_count_concat(seq!['"'], seq!['"'], '\n');
            lemma_count_single('"', '\n');
            assert(s.take(1) =~= seq![s[0]]);
            assert(s[0] == '"');
            lemma_count_single(s[0], '\n');
        } else {
            lemma_quote_doubling_keeps_newlines(s.drop_first());
            lemma_count_concat(seq![s[0]], replace_all(s.drop_first(), seq!['"'], seq!['"', '"']), '\n');
            lemma_count_single(s[0], '\n');
        }
    }
}

proof fn lemma_field_without_newline(v: CellView)
    requires
        newline_free(cell_text(v)),
    ensures
        count_of(csv_field(v), '\n') == 0,
{
    let s = cell_text(v);
    lemma_newline_free_count(s);
    if contains_seq(s, seq![',']) || contains_seq(s, seq!['"']) || contains_seq(s, seq!['\n']) {
        let inner = replace_all(s, seq!['"'], seq!['"', '"']);
        lemma_quote_doubling_keeps_newlines(s);
        lemma_count_concat(seq!['"'], inner, '\n');
        lemma_count_concat(seq!['"'] + inner, seq!['"'], '\n');
        lemma_count_single('"', '\n');
    }
}

proof fn lemma_line_without_newline(row: Seq<CellView>)
    requires
        forall|j: int| 0 <= j < row.len() ==> newline_free(cell_text(#[trigger] row[j])),
    ensures
        count_of(csv_line(row), '\n') == 0,
    decreases row.len(),
{
    if row.len() == 1 {
        lemma_field_without_newline(row[0]);
    } else if row.len() > 1 {
        lemma_line_without_newline(row.drop_last());
        lemma_field_without_newline(row.last());
        lemma_count_concat(csv_line(row.drop_last()), seq![','], '\n');
        lemma_count_concat(csv_line(row.drop_last()) + seq![','], csv_field(row.last()), '\n');
        lemma_count_single(',', '\n');
        assert(row.drop_last().len() >= 1);
    }
}

/// A table whose cell texts hold no newline exports to CSV as exactly one line per row:
/// the CSV text holds as many newlines as the table has rows.
pub proof fn law_csv_one_line_per_row(rows: Seq<Seq<CellView>>)
    requires
        forall|i: int, j: int| 0 <= i < rows.len() && 0 <= j < rows[i].len() ==> newline_free(cell_text(#[trigger] rows[i][j])),
    ensures
        count_of(csv_text(rows), '\n') == rows.len(),
    decreases rows.len(),
{
    if rows.len() > 0 {
        let last = rows.last();
        assert forall|j: int| 0 <= j < last.len() implies newline_free(cell_text(#[trigger] last[j])) by {
            assert(last[j] == rows[rows.len() - 1][j]);
        }
        let init = rows.drop_last();
        assert forall|i: int, j: int| 0 <= i < init.len() && 0 <= j < init[i].len() implies newline_free(cell_text(#[trigger] init[i][j])) by {
            assert(init[i] == rows[i]);
        }
        law_csv_one_line_per_row(init);
        lemma_line_without_newline(last);
        lemma_count_concat(csv_text(init), csv_line(last), '\n');
        lemma_count_concat(csv_text(init) + csv_line(last), seq!['\n'], '\n');
        lemma_count_single('\n', '\n');
    }
}

} // verus!
