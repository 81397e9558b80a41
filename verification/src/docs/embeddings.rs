//! Objects embedded in a host document (`word/embeddings/…`, `xl/embeddings/…`): listing
//! them, telling what they are, and extracting a `.docx` or `.xlsx` out of them, also from
//! inside an OLE wrapper.

use vstd::prelude::*;
use std::io::Read;
use crate::docs::archive::{
    entry_name, member_count, read_member, read_member_head, utf8_to_string, zip_count,
    zip_entry_name, zip_member, ZipFailure, ZipFailureView,
};
use crate::docs::error::{failure, make_error, outcome, DocsError, ErrorKind};
use crate::docs::docx::{not_utf8_message, read_view};
use crate::docs::compound::{entry_path, entry_total, ole_entry_path, ole_entry_total, ole_stream, stream_data};
use crate::docs::pathutil::{
    chars_eq, file_name, opt_view, path_file_name, require_existing_file, PathInfo,
};
use crate::docs::strings::{
    ascii_lower_seq, ascii_lowercase, chars_of, contains, contains_seq, decimal, ends_with, find_from,
    first_occurrence_from, has_prefix, has_suffix, occurs_at, push_chars,
    push_decimal, push_str, split_on, split_pieces, starts_with, string_from_chars, strip_repeated,
    trim_start_matches,
};

verus! {

/// `s` with every `\` turned into `/`.
pub open spec fn slashes(s: Seq<char>) -> Seq<char> {
    s.map_values(|c: char| if c == '\\' { '/' } else { c })
}

fn to_slashes(s: &[char]) -> (r: Vec<char>)
    ensures
        r@ == slashes(s@),
{
    let mut out: Vec<char> = Vec::new();
    let mut i: usize = 0;
    while i < s.len()
        invariant
            i <= s.len(),
            out@ == slashes(s@.take(i as int)),
        decreases s.len() - i,
    {
        out.push(if s[i] == '\\' { '/' } else { s[i] });
        i = i + 1;
        assert(out@ =~= slashes(s@.take(i as int)));
    }
    assert(s@.take(s.len() as int) =~= s@);
    out
}

/// Whether an archive member lies in an `embeddings` folder.
pub open spec fn embedding_path(name: Seq<char>) -> bool {
    let n = slashes(name);
    contains_seq(n, "/embeddings/"@) || has_prefix(n, "word/embeddings/"@) || has_prefix(n, "xl/embeddings/"@)
}

pub fn is_embedding_path(name: &str) -> (b: bool)
    ensures
        b == embedding_path(name@),
{
    let n = to_slashes(&chars_of(name));
    contains(&n, &chars_of("/embeddings/")) || starts_with(&n, &chars_of("word/embeddings/"))
        || starts_with(&n, &chars_of("xl/embeddings/"))
}

/// The key a member is looked up by among relationship targets: from its first
/// `embeddings/` on, or the whole (slash-normalised) name.
pub open spec fn normalized_target(zip_path: Seq<char>) -> Seq<char> {
    let n = slashes(zip_path);
    if contains_seq(n, "embeddings/"@) {
        let k = choose|k: int| first_occurrence_from(n, "embeddings/"@, 0, k);
        n.skip(k)
    } else {
        n
    }
}

proof fn lemma_first_occurrence_unique(s: Seq<char>, p: Seq<char>, from: int, i: int, j: int)
    requires
        first_occurrence_from(s, p, from, i),
        first_occurrence_from(s, p, from, j),
    ensures
        i == j,
{
    if i < j {
        assert(!occurs_at(s, p, i));
    }
    if j < i {
        assert(!occurs_at(s, p, j));
    }
}

fn skip_from(s: &Vec<char>, k: usize) -> (r: Vec<char>)
    requires
        k <= s.len(),
    ensures
        r@ == s@.skip(k as int),
{
    let mut out: Vec<char> = Vec::new();
    let mut i = k;
    while i < s.len()
        invariant
            k <= i <= s.len(),
            out@ == s@.subrange(k as int, i as int),
        decreases s.len() - i,
    {
        out.push(s[i]);
        i = i + 1;
        assert(out@ =~= s@.subrange(k as int, i as int));
    }
    assert(out@ =~= s@.skip(k as int));
    out
}

fn sub_chars(s: &Vec<char>, a: usize, b: usize) -> (r: Vec<char>)
    requires
        a <= b <= s.len(),
    ensures
        r@ == s@.subrange(a as int, b as int),
{
    let mut out: Vec<char> = Vec::new();
    let mut i = a;
    while i < b
        invariant
            a <= i <= b <= s.len(),
            out@ == s@.subrange(a as int, i as int),
        decreases b - i,
    {
        out.push(s[i]);
        i = i + 1;
        assert(out@ =~= s@.subrange(a as int, i as int));
    }
    out
}

pub fn normalize_target(zip_path: &str) -> (r: Vec<char>)
    ensures
        r@ == normalized_target(zip_path@),
{
    let n = to_slashes(&chars_of(zip_path));
    let pat = chars_of("embeddings/");
    match find_from(&n, &pat, 0) {
        Some(k) => {
            proof {
                assert(contains_seq(n@, "embeddings/"@));
                let kk = choose|kk: int| first_occurrence_from(n@, "embeddings/"@, 0, kk);
                lemma_first_occurrence_unique(n@, "embeddings/"@, 0, k as int, kk);
            }
            skip_from(&n, k)
        },
        None => {
            proof {
                if contains_seq(n@, "embeddings/"@) {
                    let w = choose|w: int| occurs_at(n@, "embeddings/"@, w);
                    assert(!occurs_at(n@, "embeddings/"@, w));
                }
            }
            n
        },
    }
}

/// The value of attribute `key` in `s`: the text between `key="` and the next `"`.
pub open spec fn attr_value_spec(s: Seq<char>, key: Seq<char>) -> Option<Seq<char>> {
    let pat = key + "=\""@;
    if contains_seq(s, pat) {
        let k = choose|k: int| first_occurrence_from(s, pat, 0, k);
        let start = k + pat.len();
        if exists|e: int| start <= e && occurs_at(s, seq!['"'], e) {
            let e = choose|e: int| first_occurrence_from(s, seq!['"'], start, e);
            Some(s.subrange(start, e))
        } else {
            None
        }
    } else {
        None
    }
}

pub fn attr_value(s: &Vec<char>, key: &str) -> (r: Option<Vec<char>>)
    ensures
        match r {
            Some(v) => attr_value_spec(s@, key@) == Some(v@),
            None => attr_value_spec(s@, key@) is None,
        },
{
    let mut pat = chars_of(key);
    push_str(&mut pat, "=\"");
    let ghost pv = pat@;
    assert(pv == key@ + "=\""@);
    let k = match find_from(s, &pat, 0) {
        None => {
            proof {
                if contains_seq(s@, pv) {
                    let w = choose|w: int| occurs_at(s@, pv, w);
                    assert(!occurs_at(s@, pv, w));
                }
            }
            return None;
        },
        Some(k) => k,
    };
    proof {
        assert(contains_seq(s@, pv));
        let kk = choose|kk: int| first_occurrence_from(s@, pv, 0, kk);
        lemma_first_occurrence_unique(s@, pv, 0, k as int, kk);
    }
    assert(occurs_at(s@, pat@, k as int));
    let plen = pat.len();
    assert(plen == pat@.len());
    assert(k + plen <= s.len());
    let start = k + plen;
    let quote: [char; 1] = ['"'];
    assert(quote@ =~= seq!['"']);
    match find_from(s, &quote, start) {
        None => {
            proof {
                if exists|e: int| start <= e && occurs_at(s@, seq!['"'], e) {
                    let w = choose|e: int| start <= e && occurs_at(s@, seq!['"'], e);
                    assert(!occurs_at(s@, quote@, w));
                }
            }
            None
        },
        Some(e) => {
            proof {
                assert(occurs_at(s@, seq!['"'], e as int));
                let ee = choose|ee: int| first_occurrence_from(s@, seq!['"'], start as int, ee);
                lemma_first_occurrence_unique(s@, seq!['"'], start as int, e as int, ee);
            }
            Some(sub_chars(s, start, e))
        },
    }
}

/// How an embedded object is classified: kind, whether it can be extracted, and why not
/// (or what will be tried).
#[derive(Debug)]
pub struct Classification {
    pub kind: String,
    pub extractable: bool,
    pub reason: Option<String>,
}

pub struct ClassView {
    pub kind: Seq<char>,
    pub extractable: bool,
    pub reason: Option<Seq<char>>,
}

impl View for Classification {
    type V = ClassView;

    open spec fn view(&self) -> ClassView {
        ClassView {
            kind: self.kind@,
            extractable: self.extractable,
            reason: match self.reason {
                Some(r) => Some(r@),
                None => None,
            },
        }
    }
}

pub open spec fn class_of(kind: Seq<char>, extractable: bool, reason: Option<Seq<char>>) -> ClassView {
    ClassView { kind, extractable, reason }
}

/// Classification by file name (extension, any ASCII case).
pub open spec fn classify_name_spec(name: Seq<char>) -> ClassView {
    let lower = ascii_lower_seq(name);
    if has_suffix(lower, ".docx"@) {
        class_of("docx"@, true, None)
    } else if has_suffix(lower, ".xlsx"@) {
        class_of("xlsx"@, true, None)
    } else if has_suffix(lower, ".bin"@) {
        class_of("ole"@, true, Some("可能是 OLE，将尝试解包"@))
    } else {
        class_of("unknown"@, false, Some("未知扩展名"@))
    }
}

fn class(kind: &str, extractable: bool, reason: Option<&str>) -> (c: Classification)
    ensures
        c@ == class_of(kind@, extractable, match reason { Some(r) => Some(r@), None => None }),
{
    Classification {
        kind: string_from_chars(&chars_of(kind)),
        extractable,
        reason: match reason {
            Some(r) => Some(string_from_chars(&chars_of(r))),
            None => None,
        },
    }
}

pub fn classify_by_name(name: &str) -> (c: Classification)
    ensures
        c@ == classify_name_spec(name@),
{
    let lower = ascii_lowercase(&chars_of(name));
    if ends_with(&lower, &chars_of(".docx")) {
        class("docx", true, None)
    } else if ends_with(&lower, &chars_of(".xlsx")) {
        class("xlsx", true, None)
    } else if ends_with(&lower, &chars_of(".bin")) {
        class("ole", true, Some("可能是 OLE，将尝试解包"))
    } else {
        class("unknown", false, Some("未知扩展名"))
    }
}

/// The data starts with the ZIP local-file signature `PK\x03\x04`.
pub open spec fn zip_magic(d: Seq<u8>) -> bool {
    d.len() >= 4 && d[0] == 0x50 && d[1] == 0x4B && d[2] == 0x03 && d[3] == 0x04
}

/// The data starts with the OLE compound-file signature.
pub open spec fn ole_magic(d: Seq<u8>) -> bool {
    d.len() >= 8 && d[0] == 0xD0 && d[1] == 0xCF && d[2] == 0x11 && d[3] == 0xE0 && d[4] == 0xA1
        && d[5] == 0xB1 && d[6] == 0x1A && d[7] == 0xE1
}

pub fn is_zip_ooxml(data: &[u8]) -> (b: bool)
    ensures
        b == zip_magic(data@),
{
    data.len() >= 4 && data[0] == 0x50 && data[1] == 0x4B && data[2] == 0x03 && data[3] == 0x04
}

pub fn is_ole(data: &[u8]) -> (b: bool)
    ensures
        b == ole_magic(data@),
{
    data.len() >= 8 && data[0] == 0xD0 && data[1] == 0xCF && data[2] == 0x11 && data[3] == 0xE0
        && data[4] == 0xA1 && data[5] == 0xB1 && data[6] == 0x1A && data[7] == 0xE1
}

/// Classification by the first bytes: a ZIP is an OOXML file (named by its extension
/// when it is `.docx` or `.xlsx`), an OLE file is a wrapper to unpack, anything else is
/// classified by name.
pub open spec fn classify_bytes_spec(header: Seq<u8>, name: Seq<char>) -> ClassView {
    if zip_magic(header) {
        let lower = ascii_lower_seq(name);
        if has_suffix(lower, ".docx"@) {
            class_of("docx"@, true, None)
        } else if has_suffix(lower, ".xlsx"@) {
            class_of("xlsx"@, true, None)
        } else {
            class_of("ooxml"@, true, None)
        }
    } else if ole_magic(header) {
        class_of("ole"@, true, Some("OLE 包装，抽取时将尝试提取 OOXML"@))
    } else {
        classify_name_spec(name)
    }
}

pub fn classify_bytes(header: &[u8], name: &str) -> (c: Classification)
    ensures
        c@ == classify_bytes_spec(header@, name@),
{
    if is_zip_ooxml(header) {
        let lower = ascii_lowercase(&chars_of(name));
        if ends_with(&lower, &chars_of(".docx")) {
            return class("docx", true, None);
        }
        if ends_with(&lower, &chars_of(".xlsx")) {
            return class("xlsx", true, None);
        }
        return class("ooxml", true, None);
    }
    if is_ole(header) {
        return class("ole", true, Some("OLE 包装，抽取时将尝试提取 OOXML"));
    }
    classify_by_name(name)
}

/// The data from the first ZIP signature on, if there is one.
pub open spec fn zip_payload(d: Seq<u8>) -> Option<Seq<u8>> {
    if exists|i: int| 0 <= i && i + 4 <= d.len() && zip_magic(d.skip(i)) {
        let i = choose|i: int| 0 <= i && i + 4 <= d.len() && zip_magic(d.skip(i)) && forall|j: int| 0 <= j < i ==> !zip_magic(#[trigger] d.skip(j));
        Some(d.skip(i))
    } else {
        None
    }
}

pub fn find_zip_payload(data: &[u8]) -> (r: Option<Vec<u8>>)
    ensures
        match r {
            Some(v) => zip_payload(data@) == Some(v@),
            None => zip_payload(data@) is None,
        },
{
    let mut i: usize = 0;
    while i <= data.len() && data.len() - i >= 4
        invariant
            i <= data.len() + 1,
            forall|j: int| 0 <= j < i ==> !zip_magic(#[trigger] data@.skip(j)),
        decreases data.len() - i,
    {
        if data[i] == 0x50 && data[i + 1] == 0x4B && data[i + 2] == 0x03 && data[i + 3] == 0x04 {
            let mut out: Vec<u8> = Vec::new();
            let mut k = i;
            while k < data.len()
                invariant
                    i <= k <= data.len(),
                    out@ == data@.subrange(i as int, k as int),
                decreases data.len() - k,
            {
                out.push(data[k]);
                k = k + 1;
                assert(out@ =~= data@.subrange(i as int, k as int));
            }
            proof {
                assert(out@ =~= data@.skip(i as int));
                assert(zip_magic(data@.skip(i as int)));
                let c = choose|c: int| 0 <= c && c + 4 <= data@.len() && zip_magic(data@.skip(c)) && forall|j: int| 0 <= j < c ==> !zip_magic(#[trigger] data@.skip(j));
                assert(c == i) by {
                    if c < i {
                        assert(!zip_magic(data@.skip(c)));
                    }
                    if c > i {
                        assert(!zip_magic(data@.skip(i as int)));
                    }
                }
            }
            return Some(out);
        }
        assert(!zip_magic(data@.skip(i as int)));
        i = i + 1;
    }
    proof {
        if exists|c: int| 0 <= c && c + 4 <= data@.len() && zip_magic(data@.skip(c)) {
            let c = choose|c: int| 0 <= c && c + 4 <= data@.len() && zip_magic(data@.skip(c));
            assert(c < i);
            assert(!zip_magic(data@.skip(c)));
        }
    }
    None
}


/// The map that inserting the pairs in order builds: a later value for a key wins.
pub open spec fn pairs_map(s: Seq<(Seq<char>, Seq<char>)>) -> Map<Seq<char>, Seq<char>>
    decreases s.len(),
{
    if s.len() == 0 {
        Map::empty()
    } else {
        pairs_map(s.drop_last()).insert(s.last().0, s.last().1)
    }
}

pub open spec fn pairs_view(v: Seq<(Vec<char>, Vec<char>)>) -> Seq<(Seq<char>, Seq<char>)> {
    v.map_values(|p: (Vec<char>, Vec<char>)| (p.0@, p.1@))
}

/// `s` without the pairs whose key is `k`.
spec fn without_key(s: Seq<(Seq<char>, Seq<char>)>, k: Seq<char>) -> Seq<(Seq<char>, Seq<char>)>
    decreases s.len(),
{
    if s.len() == 0 {
        s
    } else {
        let f = without_key(s.drop_last(), k);
        if s.last().0 == k {
            f
        } else {
            f.push(s.last())
        }
    }
}

proof fn lemma_without_key(s: Seq<(Seq<char>, Seq<char>)>, k: Seq<char>)
    ensures
        pairs_map(without_key(s, k)) == pairs_map(s).remove(k),
    decreases s.len(),
{
    if s.len() == 0 {
        assert(pairs_map(s).remove(k) =~= Map::empty());
    } else {
        lemma_without_key(s.drop_last(), k);
        let f = without_key(s.drop_last(), k);
        if s.last().0 == k {
            assert(pairs_map(s).remove(k) =~= pairs_map(s.drop_last()).remove(k));
        } else {
            assert(f.push(s.last()).drop_last() =~= f);
            assert(pairs_map(s).remove(k) =~= pairs_map(s.drop_last()).remove(k).insert(s.last().0, s.last().1));
        }
    }
}

proof fn lemma_last_with_key(s: Seq<(Seq<char>, Seq<char>)>, k: Seq<char>, j: int)
    requires
        0 <= j < s.len(),
        s[j].0 == k,
        forall|m: int| j < m < s.len() ==> s[m].0 != k,
    ensures
        pairs_map(s).dom().contains(k),
        pairs_map(s)[k] == s[j].1,
    decreases s.len(),
{
    if j < s.len() - 1 {
        lemma_last_with_key(s.drop_last(), k, j);
    }
}

proof fn lemma_no_key(s: Seq<(Seq<char>, Seq<char>)>, k: Seq<char>)
    requires
        forall|m: int| 0 <= m < s.len() ==> s[m].0 != k,
    ensures
        !pairs_map(s).dom().contains(k),
    decreases s.len(),
{
    if s.len() > 0 {
        lemma_no_key(s.drop_last(), k);
    }
}

fn copy_chars(v: &Vec<char>) -> (r: Vec<char>)
    ensures
        r@ == v@,
{
    let mut out: Vec<char> = Vec::new();
    push_chars(&mut out, v.as_slice());
    out
}

/// Takes the value recorded for `key` out of the pairs: what the map had for it, and the
/// map without it afterwards.
fn take_value(pairs: &mut Vec<(Vec<char>, Vec<char>)>, key: &Vec<char>) -> (r: Option<Vec<char>>)
    ensures
        pairs_map(pairs_view(final(pairs)@)) == pairs_map(pairs_view(old(pairs)@)).remove(key@),
        match r {
            Some(v) => pairs_map(pairs_view(old(pairs)@)).dom().contains(key@)
                && pairs_map(pairs_view(old(pairs)@))[key@] == v@,
            None => !pairs_map(pairs_view(old(pairs)@)).dom().contains(key@),
        },
{
    let ghost s = pairs_view(pairs@);
    let mut j = pairs.len();
    while j > 0 && !chars_eq(&pairs[j - 1].0, key)
        invariant
            j <= pairs.len(),
            s == pairs_view(pairs@),
            forall|m: int| j <= m < s.len() ==> s[m].0 != key@,
        decreases j,
    {
        j = j - 1;
    }
    let found = if j > 0 {
        proof {
            lemma_last_with_key(s, key@, j - 1);
        }
        Some(copy_chars(&pairs[j - 1].1))
    } else {
        proof {
            lemma_no_key(s, key@);
        }
        None
    };
    let mut kept: Vec<(Vec<char>, Vec<char>)> = Vec::new();
    let mut i: usize = 0;
    while i < pairs.len()
        invariant
            i <= pairs.len(),
            s == pairs_view(pairs@),
            pairs_view(kept@) == without_key(s.take(i as int), key@),
        decreases pairs.len() - i,
    {
        assert(s.take(i + 1).drop_last() =~= s.take(i as int));
        if !chars_eq(&pairs[i].0, key) {
            let k = copy_chars(&pairs[i].0);
            let v = copy_chars(&pairs[i].1);
            kept.push((k, v));
            assert(pairs_view(kept@) =~= without_key(s.take(i as int), key@).push(s[i as int]));
        }
        i = i + 1;
    }
    assert(s.take(s.len() as int) =~= s);
    proof {
        lemma_without_key(s, key@);
    }
    std::mem::swap(pairs, &mut kept);
    found
}

/// `o`, or the empty text when there is none.
pub open spec fn or_empty(o: Option<Seq<char>>) -> Seq<char> {
    match o {
        Some(v) => v,
        None => Seq::empty(),
    }
}

/// The (target, id) pairs that the pieces of a relationships part (split at
/// `<Relationship`) record for embedded objects, in order: a piece counts when it has
/// both `Id=` and `Target=`, and its target contains `embeddings/`; the target is kept
/// without leading `./`.
pub open spec fn rel_entries(parts: Seq<Seq<char>>) -> Seq<(Seq<char>, Seq<char>)>
    decreases parts.len(),
{
    if parts.len() == 0 {
        Seq::empty()
    } else {
        let prev = rel_entries(parts.drop_last());
        let part = parts.last();
        if contains_seq(part, "Id="@) && contains_seq(part, "Target="@) {
            let id = or_empty(attr_value_spec(part, "Id"@));
            let target = or_empty(attr_value_spec(part, "Target"@));
            if contains_seq(target, "embeddings/"@) {
                prev.push((strip_repeated(target, "./"@), id))
            } else {
                prev
            }
        } else {
            prev
        }
    }
}

/// The pairs one relationships part of the archive contributes: none when the part is
/// missing, an I/O error when its data does not read or is not UTF-8.
pub open spec fn rels_part_entries(data: Seq<u8>, part: Seq<char>) -> Result<Seq<(Seq<char>, Seq<char>)>, (ErrorKind, Seq<char>)> {
    match zip_member(data, part) {
        Err(ZipFailureView::Read(m)) => failure(ErrorKind::IoError, m),
        Err(_) => Ok(Seq::empty()),
        Ok(x) => if vstd::utf8::valid_utf8(x) {
            Ok(rel_entries(split_pieces(vstd::utf8::decode_utf8(x), "<Relationship"@)))
        } else {
            failure(ErrorKind::IoError, not_utf8_message())
        },
    }
}

/// The pairs of the document's and then the workbook's relationships part.
pub open spec fn relationship_entries(data: Seq<u8>) -> Result<Seq<(Seq<char>, Seq<char>)>, (ErrorKind, Seq<char>)> {
    match rels_part_entries(data, "word/_rels/document.xml.rels"@) {
        Err(e) => Err(e),
        Ok(a) => match rels_part_entries(data, "xl/_rels/workbook.xml.rels"@) {
            Err(e) => Err(e),
            Ok(b) => Ok(a + b),
        },
    }
}

fn rels_part(data: &[u8], part: &str, out: &mut Vec<(Vec<char>, Vec<char>)>) -> (r: Result<(), DocsError>)
    ensures
        match r {
            Ok(_) => match rels_part_entries(data@, part@) {
                Ok(a) => pairs_view(final(out)@) == pairs_view(old(out)@) + a,
                Err(_) => false,
            },
            Err(e) => rels_part_entries(data@, part@) == failure::<Seq<(Seq<char>, Seq<char>)>>(e.kind(), e.detail()),
        },
{
    let bytes = match read_member(data, part) {
        Ok(b) => b,
        Err(ZipFailure::Read(m)) => {
            return Err(make_error(ErrorKind::IoError, &chars_of(m.as_str())));
        },
        Err(_) => {
            assert(pairs_view(out@) =~= pairs_view(out@) + Seq::<(Seq<char>, Seq<char>)>::empty());
            return Ok(());
        },
    };
    let xml = match utf8_to_string(bytes) {
        Ok(s) => s,
        Err(_) => {
            return Err(make_error(ErrorKind::IoError, &chars_of("stream did not contain valid UTF-8")));
        },
    };
    proof {
        reveal_strlit("<Relationship");
        reveal_strlit("./");
    }
    let pieces = split_on(&chars_of(xml.as_str()), &chars_of("<Relationship"));
    let ghost pv = pieces@.map_values(|v: Vec<char>| v@);
    let ghost start = pairs_view(out@);
    let id_key = chars_of("Id=");
    let target_key = chars_of("Target=");
    let folder = chars_of("embeddings/");
    let dot_slash = chars_of("./");
    let mut k: usize = 0;
    assert(pv.take(0) =~= Seq::<Seq<char>>::empty());
    assert(start + Seq::<(Seq<char>, Seq<char>)>::empty() =~= start);
    while k < pieces.len()
        invariant
            k <= pieces.len(),
            pv == pieces@.map_values(|v: Vec<char>| v@),
            id_key@ == "Id="@,
            target_key@ == "Target="@,
            folder@ == "embeddings/"@,
            dot_slash@ == "./"@,
            dot_slash@.len() > 0,
            pairs_view(out@) == start + rel_entries(pv.take(k as int)),
        decreases pieces.len() - k,
    {
        let piece = &pieces[k];
        assert(piece@ == pv[k as int]);
        assert(pv.take(k + 1).drop_last() =~= pv.take(k as int));
        let ghost before = pairs_view(out@);
        if contains(piece, &id_key) && contains(piece, &target_key) {
            let id = match attr_value(piece, "Id") {
                Some(v) => v,
                None => Vec::new(),
            };
            let target = match attr_value(piece, "Target") {
                Some(v) => v,
                None => Vec::new(),
            };
            assert(id@ == or_empty(attr_value_spec(piece@, "Id"@)));
            assert(target@ == or_empty(attr_value_spec(piece@, "Target"@)));
            if contains(&target, &folder) {
                let t = trim_start_matches(&target, &dot_slash);
                out.push((t, id));
                assert(pairs_view(out@) =~= before.push((strip_repeated(target@, "./"@), id@)));
            }
        }
        k = k + 1;
    }
    assert(pv.take(pieces.len() as int) =~= pv);
    Ok(())
}

/// Reads the relationship pairs of both relationships parts.
fn relationship_pairs(data: &[u8]) -> (r: Result<Vec<(Vec<char>, Vec<char>)>, DocsError>)
    ensures
        match r {
            Ok(v) => relationship_entries(data@) == Ok::<Seq<(Seq<char>, Seq<char>)>, (ErrorKind, Seq<char>)>(pairs_view(v@)),
            Err(e) => relationship_entries(data@) == failure::<Seq<(Seq<char>, Seq<char>)>>(e.kind(), e.detail()),
        },
{
    let mut out: Vec<(Vec<char>, Vec<char>)> = Vec::new();
    assert(pairs_view(out@) =~= Seq::<(Seq<char>, Seq<char>)>::empty());
    rels_part(data, "word/_rels/document.xml.rels", &mut out)?;
    rels_part(data, "xl/_rels/workbook.xml.rels", &mut out)?;
    Ok(out)
}


/// An object embedded in a host document: its id (the relationship id, or `emb_<n>`), its
/// file name, what it is, whether it can be extracted and why not, and its archive path.
#[derive(Debug, Clone)]
pub struct EmbeddingInfo {
    pub id: String,
    pub name: String,
    pub kind: String,
    pub extractable: bool,
    pub reason: Option<String>,
    pub zip_path: String,
}

pub struct EmbeddingView {
    pub id: Seq<char>,
    pub name: Seq<char>,
    pub kind: Seq<char>,
    pub extractable: bool,
    pub reason: Option<Seq<char>>,
    pub zip_path: Seq<char>,
}

impl View for EmbeddingInfo {
    type V = EmbeddingView;

    open spec fn view(&self) -> EmbeddingView {
        EmbeddingView {
            id: self.id@,
            name: self.name@,
            kind: self.kind@,
            extractable: self.extractable,
            reason: match self.reason {
                Some(r) => Some(r@),
                None => None,
            },
            zip_path: self.zip_path@,
        }
    }
}

#[derive(Debug)]
pub struct ListEmbeddingsResult {
    pub ok: bool,
    pub embeddings: Vec<EmbeddingInfo>,
}

#[derive(Debug)]
pub struct ExtractEmbeddingResult {
    pub ok: bool,
    pub output_path: String,
    pub kind: String,
}

/// What the listing pass settles of an object before looking at its data: id, file name
/// and archive path.
pub struct Slot {
    pub id: Seq<char>,
    pub name: Seq<char>,
    pub zip_path: Seq<char>,
}

pub open spec fn slot_of(e: EmbeddingView) -> Slot {
    Slot { id: e.id, name: e.name, zip_path: e.zip_path }
}

pub open spec fn slots_of(v: Seq<EmbeddingInfo>) -> Seq<Slot> {
    v.map_values(|e: EmbeddingInfo| slot_of(e@))
}

pub open spec fn embedding_class(e: EmbeddingView) -> ClassView {
    class_of(e.kind, e.extractable, e.reason)
}

/// The id given to an object that no relationship names: `emb_` and its position.
pub open spec fn emb_id(n: nat) -> Seq<char> {
    "emb_"@ + decimal(n)
}

/// The name shown for a member: its file name, or the whole path when it has none.
pub open spec fn display_name(zip_path: Seq<char>) -> Seq<char> {
    match file_name(zip_path) {
        Some(f) => f,
        None => zip_path,
    }
}

/// One member considered by the listing: an embedded object takes the relationship id
/// recorded for its target (which is then used up) or the next `emb_<n>`.
pub open spec fn scan_step(st: (Map<Seq<char>, Seq<char>>, Seq<Slot>), name: Seq<char>) -> (Map<Seq<char>, Seq<char>>, Seq<Slot>) {
    if embedding_path(name) {
        let key = normalized_target(name);
        let id = if st.0.dom().contains(key) {
            st.0[key]
        } else {
            emb_id(st.1.len() + 1)
        };
        (st.0.remove(key), st.1.push(Slot { id, name: display_name(name), zip_path: name }))
    } else {
        st
    }
}

/// The listing after the first `k` members, starting from the relationship map `m`; a
/// member whose name cannot be had is a parse error.
pub open spec fn scan_entries(data: Seq<u8>, m: Map<Seq<char>, Seq<char>>, k: nat) -> Result<(Map<Seq<char>, Seq<char>>, Seq<Slot>), (ErrorKind, Seq<char>)>
    decreases k,
{
    if k == 0 {
        Ok((m, Seq::empty()))
    } else {
        match scan_entries(data, m, (k - 1) as nat) {
            Err(e) => Err(e),
            Ok(st) => match zip_entry_name(data, (k - 1) as nat) {
                Err(msg) => failure(ErrorKind::ParseError, msg),
                Ok(n) => Ok(scan_step(st, n)),
            },
        }
    }
}

proof fn lemma_scan_error_stays(data: Seq<u8>, m: Map<Seq<char>, Seq<char>>, k: nat, k2: nat)
    requires
        k <= k2,
        scan_entries(data, m, k) is Err,
    ensures
        scan_entries(data, m, k2) == scan_entries(data, m, k),
    decreases k2 - k,
{
    if k < k2 {
        lemma_scan_error_stays(data, m, k, (k2 - 1) as nat);
    }
}

/// The objects a listing finds (before their data is looked at), or the error.
pub open spec fn list_spec(info: PathInfo, contents: Result<Seq<u8>, Seq<char>>) -> Result<Seq<Slot>, (ErrorKind, Seq<char>)> {
    if !info.exists {
        failure(ErrorKind::PathNotFound, info.path@)
    } else if !info.is_file {
        failure(ErrorKind::InvalidArgument, "不是文件: "@ + info.path@)
    } else {
        match contents {
            Err(m) => failure(ErrorKind::IoError, m),
            Ok(b) => match zip_count(b) {
                Err(m) => failure(ErrorKind::ParseError, m),
                Ok(n) => match relationship_entries(b) {
                    Err(e) => Err(e),
                    Ok(ps) => match scan_entries(b, pairs_map(ps), n) {
                        Err(e) => Err(e),
                        Ok(st) => Ok(st.1),
                    },
                },
            },
        }
    }
}

/// `c` is the classification of the object by at most 8 bytes read from its start (none
/// when the member does not open); where the member's data reads in full, those bytes
/// are a start of it.
pub open spec fn head_class(data: Seq<u8>, zip_path: Seq<char>, name: Seq<char>, c: ClassView) -> bool {
    exists|h: Seq<u8>|
        h.len() <= 8 && (match zip_member(data, zip_path) {
            Ok(x) => h == x.take(h.len() as int),
            Err(_) => true,
        }) && c == #[trigger] classify_bytes_spec(h, name)
}

/// The listed objects are the slots in order, each classified by a start of its data.
pub open spec fn listing_agrees(data: Seq<u8>, slots: Seq<Slot>, got: Seq<EmbeddingView>) -> bool {
    &&& got.len() == slots.len()
    &&& forall|i: int| 0 <= i < got.len() ==> slot_of(#[trigger] got[i]) == slots[i]
    &&& forall|i: int| 0 <= i < got.len() ==> head_class(data, got[i].zip_path, got[i].name, embedding_class(#[trigger] got[i]))
}

pub open spec fn listed_view(v: Seq<EmbeddingInfo>) -> Seq<EmbeddingView> {
    v.map_values(|e: EmbeddingInfo| e@)
}

/// What `list` promises for a file in the given state.
pub open spec fn list_post(info: PathInfo, contents: Result<Seq<u8>, Seq<char>>, r: Result<ListEmbeddingsResult, DocsError>) -> bool {
    match r {
        Err(e) => list_spec(info, contents) == failure::<Seq<Slot>>(e.kind(), e.detail()),
        Ok(res) => res.ok && match (list_spec(info, contents), contents) {
            (Ok(slots), Ok(b)) => listing_agrees(b, slots, listed_view(res.embeddings@)),
            _ => false,
        },
    }
}

/// Lists the objects embedded in a document (`contents` is the file's bytes, or the
/// message of the error met reading it): every member under an `embeddings` folder, in
/// archive order, with the relationship id that targets it (or `emb_<n>`), classified by
/// its first bytes and its extension.
pub fn list(info: &PathInfo, contents: &Result<Vec<u8>, String>) -> (r: Result<ListEmbeddingsResult, DocsError>)
    ensures
        list_post(*info, read_view(*contents), r),
{
    let _src = require_existing_file(info)?;
    let data = match contents {
        Ok(d) => d,
        Err(m) => {
            return Err(make_error(ErrorKind::IoError, &chars_of(m.as_str())));
        },
    };
    let count = match member_count(data.as_slice()) {
        Ok(n) => n,
        Err(m) => {
            return Err(make_error(ErrorKind::ParseError, &chars_of(m.as_str())));
        },
    };
    let mut pairs = relationship_pairs(data.as_slice())?;
    let ghost m0 = pairs_map(pairs_view(pairs@));
    let mut embeddings: Vec<EmbeddingInfo> = Vec::new();
    let mut i: usize = 0;
    assert(slots_of(embeddings@) =~= Seq::<Slot>::empty());
    assert(read_view(*contents) == Ok::<Seq<u8>, Seq<char>>(data@));
    while i < count
        invariant
            i <= count,
            embeddings.len() <= i,
            list_spec(*info, read_view(*contents)) == (match scan_entries(data@, m0, count as nat) {
                Err(e) => Err(e),
                Ok(st) => Ok(st.1),
            }),
            scan_entries(data@, m0, i as nat) == Ok::<(Map<Seq<char>, Seq<char>>, Seq<Slot>), (ErrorKind, Seq<char>)>((pairs_map(pairs_view(pairs@)), slots_of(embeddings@))),
            forall|j: int| 0 <= j < embeddings.len() ==> head_class(data@, embeddings@[j]@.zip_path, embeddings@[j]@.name, embedding_class(#[trigger] embeddings@[j]@)),
        decreases count - i,
    {
        let name = match entry_name(data.as_slice(), i) {
            Ok(n) => n,
            Err(m) => {
                proof {
                    lemma_scan_error_stays(data@, m0, (i + 1) as nat, count as nat);
                }
                return Err(make_error(ErrorKind::ParseError, &chars_of(m.as_str())));
            },
        };
        let ghost st = (pairs_map(pairs_view(pairs@)), slots_of(embeddings@));
        if is_embedding_path(name.as_str()) {
            let fname = match path_file_name(name.as_str()) {
                Some(f) => string_from_chars(&f),
                None => string_from_chars(&chars_of(name.as_str())),
            };
            assert(fname@ == display_name(name@));
            let key = normalize_target(name.as_str());
            let n = embeddings.len();
            let id = match take_value(&mut pairs, &key) {
                Some(v) => string_from_chars(&v),
                None => {
                    let mut t = chars_of("emb_");
                    push_decimal(&mut t, (n + 1) as u64);
                    string_from_chars(&t)
                },
            };
            assert(id@ == (if st.0.dom().contains(key@) { st.0[key@] } else { emb_id(st.1.len() + 1) }));
            let class = match read_member_head(data.as_slice(), name.as_str()) {
                Some(h) => {
                    let c = classify_bytes(h.as_slice(), fname.as_str());
                    assert(head_class(data@, name@, fname@, c@)) by {
                        assert(c@ == classify_bytes_spec(h@, fname@));
                    }
                    c
                },
                None => {
                    let c = classify_by_name(fname.as_str());
                    assert(head_class(data@, name@, fname@, c@)) by {
                        let e = Seq::<u8>::empty();
                        assert(c@ == classify_bytes_spec(e, fname@));
                        match zip_member(data@, name@) {
                            Ok(x) => {
                                assert(e =~= x.take(0));
                            },
                            Err(_) => {},
                        }
                    }
                    c
                },
            };
            let ghost cv = class@;
            let info = EmbeddingInfo {
                id,
                name: fname,
                kind: class.kind,
                extractable: class.extractable,
                reason: class.reason,
                zip_path: name,
            };
            assert(embedding_class(info@) == cv);
            let ghost before = embeddings@;
            embeddings.push(info);
            assert(slots_of(embeddings@) =~= slots_of(before).push(slot_of(info@)));
            assert forall|j: int| 0 <= j < embeddings.len() implies head_class(data@, embeddings@[j]@.zip_path, embeddings@[j]@.name, embedding_class(#[trigger] embeddings@[j]@)) by {
                if j < before.len() {
                    assert(embeddings@[j] == before[j]);
                }
            }
        }
        i = i + 1;
    }
    let res = ListEmbeddingsResult { ok: true, embeddings };
    proof {
        let got = listed_view(res.embeddings@);
        assert forall|j: int| 0 <= j < got.len() implies slot_of(#[trigger] got[j]) == slots_of(res.embeddings@)[j] by {}
        assert forall|j: int| 0 <= j < got.len() implies head_class(data@, got[j].zip_path, got[j].name, embedding_class(#[trigger] got[j])) by {
            assert(got[j] == res.embeddings@[j]@);
        }
    }
    Ok(res)
}


/// The payload found in the streams of a compound file from the `k`-th entry of its walk
/// on: the data from the first ZIP signature of the first stream that has one.
pub open spec fn streams_payload(data: Seq<u8>, k: nat, total: nat) -> Option<Seq<u8>>
    decreases total - k,
{
    if k >= total {
        None
    } else {
        let here = match ole_entry_path(data, k) {
            Some(p) => match ole_stream(data, p) {
                Some(b) => zip_payload(b),
                None => None,
            },
            None => None,
        };
        match here {
            Some(v) => Some(v),
            None => streams_payload(data, k + 1, total),
        }
    }
}

/// The OOXML payload of an OLE wrapper: from the first stream holding a ZIP signature,
/// else from the first ZIP signature of the raw data.
pub open spec fn ole_payload(data: Seq<u8>) -> Option<Seq<u8>> {
    let inner = match ole_entry_total(data) {
        Some(n) => streams_payload(data, 0, n),
        None => None,
    };
    match inner {
        Some(v) => Some(v),
        None => zip_payload(data),
    }
}

pub open spec fn opt_bytes_view(o: Option<Vec<u8>>) -> Option<Seq<u8>> {
    match o {
        Some(v) => Some(v@),
        None => None,
    }
}

/// Looks for a `.docx`/`.xlsx` inside an OLE compound file: every stream in walk order,
/// then the raw data.
pub fn extract_ooxml_from_ole(data: &[u8]) -> (r: Option<Vec<u8>>)
    ensures
        opt_bytes_view(r) == ole_payload(data@),
{
    if let Some(total) = entry_total(data) {
        let mut k: usize = 0;
        while k < total
            invariant
                k <= total,
                ole_entry_total(data@) == Some(total as nat),
                streams_payload(data@, 0, total as nat) == streams_payload(data@, k as nat, total as nat),
            decreases total - k,
        {
            if let Some(p) = entry_path(data, k) {
                if let Some(buf) = stream_data(data, p.as_str()) {
                    if let Some(payload) = find_zip_payload(buf.as_slice()) {
                        return Some(payload);
                    }
                }
            }
            k = k + 1;
        }
    }
    find_zip_payload(data)
}

/// `name` put after `dir` as `Path::join` does: an absolute `name` replaces `dir`, and a
/// `/` goes between them unless `dir` is empty or already ends in one.
pub open spec fn join_path(dir: Seq<char>, name: Seq<char>) -> Seq<char> {
    if name.len() > 0 && name[0] == '/' {
        name
    } else if dir.len() > 0 && dir.last() != '/' {
        dir + seq!['/'] + name
    } else {
        dir + name
    }
}

/// Where an extracted object goes: `output_path` as given, else its name inside
/// `output_dir`; without either, an error.
pub open spec fn extract_target(name: Seq<char>, output_path: Option<Seq<char>>, output_dir: Option<Seq<char>>) -> Result<Seq<char>, (ErrorKind, Seq<char>)> {
    match output_path {
        Some(p) => Ok(p),
        None => match output_dir {
            Some(d) => Ok(join_path(d, name)),
            None => failure(ErrorKind::InvalidArgument, "必须提供 output_path 或 output_dir"@),
        },
    }
}

pub open spec fn target_outcome(r: Result<String, DocsError>) -> Result<Seq<char>, (ErrorKind, Seq<char>)> {
    match r {
        Ok(s) => Ok(s@),
        Err(e) => Err((e.kind(), e.detail())),
    }
}

pub fn resolve_extract_path(emb: &EmbeddingInfo, output_path: Option<&str>, output_dir: Option<&str>) -> (r: Result<String, DocsError>)
    ensures
        target_outcome(r) == extract_target(emb.name@, opt_view(output_path), opt_view(output_dir)),
{
    if let Some(p) = output_path {
        return Ok(string_from_chars(&chars_of(p)));
    }
    if let Some(dir) = output_dir {
        let name = chars_of(emb.name.as_str());
        if name.len() > 0 && name[0] == '/' {
            return Ok(string_from_chars(&name));
        }
        let mut out = chars_of(dir);
        if out.len() > 0 && out[out.len() - 1] != '/' {
            out.push('/');
        }
        push_chars(&mut out, name.as_slice());
        proof {
            if dir@.len() > 0 && dir@.last() != '/' {
                assert(out@ =~= dir@ + seq!['/'] + name@);
            }
        }
        return Ok(string_from_chars(&out));
    }
    Err(make_error(ErrorKind::InvalidArgument, &chars_of("必须提供 output_path 或 output_dir")))
}

/// The object is asked for: its id is `id` or its name is `name`.
pub open spec fn is_requested(e: EmbeddingView, id: Option<Seq<char>>, name: Option<Seq<char>>) -> bool {
    (match id {
        Some(i) => e.id == i,
        None => false,
    }) || (match name {
        Some(n) => e.name == n,
        None => false,
    })
}

/// The first object of the listing that is asked for.
pub open spec fn select_from(es: Seq<EmbeddingView>, id: Option<Seq<char>>, name: Option<Seq<char>>) -> Option<EmbeddingView>
    decreases es.len(),
{
    if es.len() == 0 {
        None
    } else if is_requested(es[0], id, name) {
        Some(es[0])
    } else {
        select_from(es.drop_first(), id, name)
    }
}

/// What extracting from a listing gives: the output path, the object's kind and the
/// payload to write, or the error.
pub open spec fn extract_spec(
    es: Seq<EmbeddingView>,
    data: Seq<u8>,
    id: Option<Seq<char>>,
    name: Option<Seq<char>>,
    output_path: Option<Seq<char>>,
    output_dir: Option<Seq<char>>,
) -> Result<(Seq<char>, Seq<char>, Seq<u8>), (ErrorKind, Seq<char>)> {
    match select_from(es, id, name) {
        None => failure(ErrorKind::InvalidArgument, "未找到匹配的内嵌对象（请提供 id 或 name）"@),
        Some(e) => if !e.extractable {
            failure(ErrorKind::EmbeddingNotExtractable, or_default_reason(e.reason))
        } else {
            match member_payload(data, e.zip_path) {
                Err(f) => Err(f),
                Ok(p) => match extract_target(e.name, output_path, output_dir) {
                    Err(f) => Err(f),
                    Ok(t) => Ok((t, e.kind, p)),
                },
            }
        }
    }
}

/// The file inside an embedded object's data: the data itself when it is a ZIP, the
/// payload of an OLE wrapper, else an error.
pub open spec fn payload_spec(x: Seq<u8>) -> Result<Seq<u8>, (ErrorKind, Seq<char>)> {
    if ole_magic(x) {
        match ole_payload(x) {
            Some(p) => Ok(p),
            None => failure(ErrorKind::EmbeddingNotExtractable, "OLE 包装中未找到 docx/xlsx 载荷"@),
        }
    } else if zip_magic(x) {
        Ok(x)
    } else {
        failure(ErrorKind::EmbeddingNotExtractable, "内容既不是 OOXML 也不是可解 OLE"@)
    }
}

/// The payload of the member at `zip_path`, or why it cannot be had.
pub open spec fn member_payload(data: Seq<u8>, zip_path: Seq<char>) -> Result<Seq<u8>, (ErrorKind, Seq<char>)> {
    match zip_member(data, zip_path) {
        Err(ZipFailureView::Read(m)) => failure(ErrorKind::IoError, m),
        Err(ZipFailureView::Archive(m)) => failure(ErrorKind::ParseError, m),
        Err(ZipFailureView::Member(m)) => failure(ErrorKind::ParseError, m),
        Ok(x) => payload_spec(x),
    }
}

fn read_payload(data: &[u8], zip_path: &str) -> (r: Result<Vec<u8>, DocsError>)
    ensures
        outcome(r) == member_payload(data@, zip_path@),
{
    let bytes = match read_member(data, zip_path) {
        Ok(b) => b,
        Err(ZipFailure::Read(m)) => {
            return Err(make_error(ErrorKind::IoError, &chars_of(m.as_str())));
        },
        Err(ZipFailure::Archive(m)) => {
            return Err(make_error(ErrorKind::ParseError, &chars_of(m.as_str())));
        },
        Err(ZipFailure::Member(m)) => {
            return Err(make_error(ErrorKind::ParseError, &chars_of(m.as_str())));
        },
    };
    if is_ole(bytes.as_slice()) {
        match extract_ooxml_from_ole(bytes.as_slice()) {
            Some(p) => Ok(p),
            None => Err(make_error(ErrorKind::EmbeddingNotExtractable, &chars_of("OLE 包装中未找到 docx/xlsx 载荷"))),
        }
    } else if is_zip_ooxml(bytes.as_slice()) {
        Ok(bytes)
    } else {
        Err(make_error(ErrorKind::EmbeddingNotExtractable, &chars_of("内容既不是 OOXML 也不是可解 OLE")))
    }
}

pub open spec fn or_default_reason(r: Option<Seq<char>>) -> Seq<char> {
    match r {
        Some(v) => v,
        None => "无法抽取为可用文件"@,
    }
}

pub open spec fn extract_outcome(r: Result<(ExtractEmbeddingResult, Vec<u8>), DocsError>) -> Result<(Seq<char>, Seq<char>, Seq<u8>), (ErrorKind, Seq<char>)> {
    match r {
        Ok((res, bytes)) => Ok((res.output_path@, res.kind@, bytes@)),
        Err(e) => Err((e.kind(), e.detail())),
    }
}

fn copy_string(s: &String) -> (r: String)
    ensures
        r@ == s@,
{
    string_from_chars(&chars_of(s.as_str()))
}

/// The position of the first listed object that is asked for.
fn find_requested(es: &Vec<EmbeddingInfo>, id: Option<&str>, name: Option<&str>) -> (r: Option<usize>)
    ensures
        match r {
            Some(i) => i < es.len() && select_from(listed_view(es@), opt_view(id), opt_view(name)) == Some(es@[i as int]@),
            None => select_from(listed_view(es@), opt_view(id), opt_view(name)) is None,
        },
{
    let ghost ev = listed_view(es@);
    let mut i: usize = 0;
    assert(ev.skip(0) =~= ev);
    while i < es.len()
        invariant
            i <= es.len(),
            ev == listed_view(es@),
            select_from(ev, opt_view(id), opt_view(name)) == select_from(ev.skip(i as int), opt_view(id), opt_view(name)),
        decreases es.len() - i,
    {
        let e = &es[i];
        let hit_id = match id {
            Some(x) => chars_eq(&chars_of(e.id.as_str()), &chars_of(x)),
            None => false,
        };
        let hit = hit_id || match name {
            Some(n) => chars_eq(&chars_of(e.name.as_str()), &chars_of(n)),
            None => false,
        };
        assert(ev.skip(i as int)[0] == e@);
        if hit {
            return Some(i);
        }
        assert(ev.skip(i as int).drop_first() =~= ev.skip(i + 1));
        i = i + 1;
    }
    None
}

/// Extracts the first listed object that is asked for (by id or name) from the archive in
/// `data`: a ZIP member as it is, an OLE wrapper's OOXML payload; returns where it goes
/// and the bytes to write there.
pub fn extract_listed(
    listed: &ListEmbeddingsResult,
    data: &[u8],
    id: Option<&str>,
    name: Option<&str>,
    output_path: Option<&str>,
    output_dir: Option<&str>,
) -> (r: Result<(ExtractEmbeddingResult, Vec<u8>), DocsError>)
    ensures
        extract_outcome(r) == extract_spec(listed_view(listed.embeddings@), data@, opt_view(id), opt_view(name), opt_view(output_path), opt_view(output_dir)),
        r matches Ok((res, _)) ==> res.ok,
{
    let es = &listed.embeddings;
    let i = match find_requested(es, id, name) {
        Some(i) => i,
        None => {
            return Err(make_error(ErrorKind::InvalidArgument, &chars_of("未找到匹配的内嵌对象（请提供 id 或 name）")));
        },
    };
    let emb = &es[i];
    if !emb.extractable {
        return Err(match &emb.reason {
            Some(r) => make_error(ErrorKind::EmbeddingNotExtractable, &chars_of(r.as_str())),
            None => make_error(ErrorKind::EmbeddingNotExtractable, &chars_of("无法抽取为可用文件")),
        });
    }
    let payload = read_payload(data, emb.zip_path.as_str())?;
    let out = resolve_extract_path(emb, output_path, output_dir)?;
    Ok((ExtractEmbeddingResult { ok: true, output_path: out, kind: copy_string(&emb.kind) }, payload))
}

/// What `extract` promises: a listing error is its error; otherwise the outcome is that of
/// extracting from a listing that `list` may give for the file.
pub open spec fn extract_post(
    info: PathInfo,
    contents: Result<Seq<u8>, Seq<char>>,
    id: Option<Seq<char>>,
    name: Option<Seq<char>>,
    output_path: Option<Seq<char>>,
    output_dir: Option<Seq<char>>,
    r: Result<(ExtractEmbeddingResult, Vec<u8>), DocsError>,
) -> bool {
    match (list_spec(info, contents), contents) {
        (Err(e), _) => extract_outcome(r) == Err::<(Seq<char>, Seq<char>, Seq<u8>), (ErrorKind, Seq<char>)>(e),
        (Ok(slots), Ok(b)) => exists|got: Seq<EmbeddingView>|
            listing_agrees(b, slots, got) && extract_outcome(r) == #[trigger] extract_spec(got, b, id, name, output_path, output_dir),
        _ => false,
    }
}

/// Extracts an embedded object from a document: lists the objects, picks the first whose
/// id is `id` or whose name is `name`, and gives the target path (`output_path`, or the
/// object's name inside `output_dir`) with the `.docx`/`.xlsx` bytes to write there.
pub fn extract(
    info: &PathInfo,
    contents: &Result<Vec<u8>, String>,
    id: Option<&str>,
    name: Option<&str>,
    output_path: Option<&str>,
    output_dir: Option<&str>,
) -> (r: Result<(ExtractEmbeddingResult, Vec<u8>), DocsError>)
    ensures
        extract_post(*info, read_view(*contents), opt_view(id), opt_view(name), opt_view(output_path), opt_view(output_dir), r),
        r matches Ok((res, _)) ==> res.ok,
{
    let listed = list(info, contents)?;
    let data = match contents {
        Ok(d) => d,
        Err(m) => {
            return Err(make_error(ErrorKind::IoError, &chars_of(m.as_str())));
        },
    };
    let r = extract_listed(&listed, data.as_slice(), id, name, output_path, output_dir);
    proof {
        let got = listed_view(listed.embeddings@);
        assert(extract_outcome(r) == extract_spec(got, data@, opt_view(id), opt_view(name), opt_view(output_path), opt_view(output_dir)));
    }
    r
}

} // verus!
