//! Path checks shared by the document operations. What the file system reports about a
//! path (whether it exists, whether it is a regular file) is handed in by the caller.

use vstd::prelude::*;
use crate::docs::error::{error_with, fails_with, make_error, DocsError, ErrorKind};
use crate::docs::strings::{chars_of, string_from_chars};

verus! {

/// What the file system reports about a path.
#[derive(Debug, Clone)]
pub struct PathInfo {
    pub path: String,
    pub exists: bool,
    pub is_file: bool,
}

/// The outcome of `require_existing_file` for a path in the given state.
pub open spec fn existing_file_spec(info: PathInfo, r: Result<String, DocsError>) -> bool {
    if !info.exists {
        fails_with(r, ErrorKind::PathNotFound, info.path@)
    } else if !info.is_file {
        fails_with(r, ErrorKind::InvalidArgument, "不是文件: "@ + info.path@)
    } else {
        r matches Ok(p) && p@ == info.path@
    }
}

/// Accepts a path only when it names an existing regular file.
pub fn require_existing_file(info: &PathInfo) -> (r: Result<String, DocsError>)
    ensures
        existing_file_spec(*info, r),
{
    let p = chars_of(info.path.as_str());
    if !info.exists {
        return Err(make_error(ErrorKind::PathNotFound, &p));
    }
    if !info.is_file {
        return Err(error_with(ErrorKind::InvalidArgument, "不是文件: ", &p));
    }
    Ok(string_from_chars(&p))
}

/// The components of a `/`-separated path, as `std::path::Path::components` yields them:
/// whether it starts at the root, whether it starts with a `.` component, and the
/// remaining components (empty and `.` segments dropped).
pub struct PathShape {
    pub root: bool,
    pub cur_dir: bool,
    pub parts: Seq<Seq<char>>,
}

/// Adds the segment `seg` to `parts` unless it is empty or `.`.
pub open spec fn flush_segment(parts: Seq<Seq<char>>, seg: Seq<char>) -> Seq<Seq<char>> {
    if seg.len() == 0 || seg == seq!['.'] {
        parts
    } else {
        parts.push(seg)
    }
}

/// Scans `s` from the left: the components finished so far and the segment in progress.
pub open spec fn scan_path(s: Seq<char>) -> (Seq<Seq<char>>, Seq<char>)
    decreases s.len(),
{
    if s.len() == 0 {
        (Seq::empty(), Seq::empty())
    } else {
        let (parts, seg) = scan_path(s.drop_last());
        if s.last() == '/' {
            (flush_segment(parts, seg), Seq::empty())
        } else {
            (parts, seg.push(s.last()))
        }
    }
}

pub open spec fn path_shape(s: Seq<char>) -> PathShape {
    let (parts, seg) = scan_path(s);
    PathShape {
        root: s.len() > 0 && s[0] == '/',
        cur_dir: s.len() > 0 && s[0] == '.' && (s.len() == 1 || s[1] == '/'),
        parts: flush_segment(parts, seg),
    }
}

/// Two paths are equal when they have the same components.
pub open spec fn same_path(a: Seq<char>, b: Seq<char>) -> bool {
    path_shape(a) == path_shape(b)
}

fn normal_parts(s: &[char]) -> (r: Vec<Vec<char>>)
    ensures
        r@.map_values(|v: Vec<char>| v@) == path_shape(s@).parts,
{
    let mut parts: Vec<Vec<char>> = Vec::new();
    let mut seg: Vec<char> = Vec::new();
    let mut i: usize = 0;
    while i < s.len()
        invariant
            i <= s.len(),
            scan_path(s@.take(i as int)) == (parts@.map_values(|v: Vec<char>| v@), seg@),
        decreases s.len() - i,
    {
        let ghost before = s@.take(i as int);
        assert(s@.take(i + 1).drop_last() =~= before);
        if s[i] == '/' {
            if !(seg.len() == 0 || (seg.len() == 1 && seg[0] == '.')) {
                let ghost old_parts = parts@;
                parts.push(seg);
                assert(parts@.map_values(|v: Vec<char>| v@) =~= old_parts.map_values(
                    |v: Vec<char>| v@,
                ).push(seg@));
            } else {
                if seg.len() == 1 {
                    assert(seg@ =~= seq!['.']);
                }
            }
            seg = Vec::new();
        } else {
            seg.push(s[i]);
        }
        i = i + 1;
    }
    assert(s@.take(s.len() as int) =~= s@);
    if !(seg.len() == 0 || (seg.len() == 1 && seg[0] == '.')) {
        let ghost old_parts = parts@;
        parts.push(seg);
        assert(parts@.map_values(|v: Vec<char>| v@) =~= old_parts.map_values(|v: Vec<char>| v@).push(
            seg@,
        ));
    } else {
        if seg.len() == 1 {
            assert(seg@ =~= seq!['.']);
        }
    }
    parts
}

pub fn chars_eq(a: &Vec<char>, b: &Vec<char>) -> (r: bool)
    ensures
        r == (a@ == b@),
{
    if a.len() != b.len() {
        return false;
    }
    let mut i: usize = 0;
    while i < a.len()
        invariant
            a.len() == b.len(),
            i <= a.len(),
            forall|j: int| 0 <= j < i ==> a@[j] == b@[j],
        decreases a.len() - i,
    {
        if a[i] != b[i] {
            return false;
        }
        i = i + 1;
    }
    assert(a@ =~= b@);
    true
}

fn starts_root(s: &[char]) -> (r: (bool, bool))
    ensures
        r.0 == path_shape(s@).root,
        r.1 == path_shape(s@).cur_dir,
{
    let root = s.len() > 0 && s[0] == '/';
    let cur = s.len() > 0 && s[0] == '.' && (s.len() == 1 || s[1] == '/');
    (root, cur)
}

/// Compares two paths component by component, as `Path`'s `==` does.
pub fn paths_equal(a: &str, b: &str) -> (r: bool)
    ensures
        r == same_path(a@, b@),
{
    let ca = chars_of(a);
    let cb = chars_of(b);
    let (ra, da) = starts_root(&ca);
    let (rb, db) = starts_root(&cb);
    let pa = normal_parts(&ca);
    let pb = normal_parts(&cb);
    let ghost va = pa@.map_values(|v: Vec<char>| v@);
    let ghost vb = pb@.map_values(|v: Vec<char>| v@);
    if ra != rb || da != db || pa.len() != pb.len() {
        proof {
            if pa.len() != pb.len() {
                assert(va.len() != vb.len());
            }
        }
        return false;
    }
    let mut i: usize = 0;
    while i < pa.len()
        invariant
            pa.len() == pb.len(),
            i <= pa.len(),
            va == pa@.map_values(|v: Vec<char>| v@),
            vb == pb@.map_values(|v: Vec<char>| v@),
            va == path_shape(a@).parts,
            vb == path_shape(b@).parts,
            forall|j: int| 0 <= j < i ==> va[j] == vb[j],
        decreases pa.len() - i,
    {
        if !chars_eq(&pa[i], &pb[i]) {
            assert(va[i as int] == pa@[i as int]@);
            assert(vb[i as int] == pb@[i as int]@);
            assert(va[i as int] != vb[i as int]);
            assert(path_shape(a@).parts != path_shape(b@).parts);
            return false;
        }
        i = i + 1;
    }
    assert(va =~= vb);
    true
}

/// Where an operation writes: the explicit output path, else the source path.
pub open spec fn output_target_spec(
    source: Option<Seq<char>>,
    output_path: Option<Seq<char>>,
) -> Option<Seq<char>> {
    match output_path {
        Some(p) => Some(p),
        None => source,
    }
}

pub open spec fn opt_view(o: Option<&str>) -> Option<Seq<char>> {
    match o {
        Some(s) => Some(s@),
        None => None,
    }
}

/// Picks the path an operation writes to; without either path the call is refused.
pub fn output_target(source: Option<&str>, output_path: Option<&str>) -> (r: Result<String, DocsError>)
    ensures
        match output_target_spec(opt_view(source), opt_view(output_path)) {
            Some(t) => r matches Ok(o) && o@ == t,
            None => fails_with(r, ErrorKind::InvalidArgument, "必须提供 output_path"@),
        },
{
    match output_path {
        Some(p) => Ok(string_from_chars(&chars_of(p))),
        None => match source {
            Some(s) => Ok(string_from_chars(&chars_of(s))),
            None => Err(make_error(ErrorKind::InvalidArgument, &chars_of("必须提供 output_path"))),
        },
    }
}

/// The outcome of `resolve_output_path`, where `target_exists` tells whether the chosen
/// target is already on disk.
pub open spec fn resolve_output_spec(
    source: Option<Seq<char>>,
    output_path: Option<Seq<char>>,
    overwrite: bool,
    target_exists: bool,
    r: Result<String, DocsError>,
) -> bool {
    match output_target_spec(source, output_path) {
        None => fails_with(r, ErrorKind::InvalidArgument, "必须提供 output_path"@),
        Some(t) => {
            let same_as_source = match source {
                Some(s) => same_path(s, t),
                None => false,
            };
            if target_exists && !overwrite && !same_as_source {
                fails_with(r, ErrorKind::InvalidArgument, "目标已存在且未允许覆盖: "@ + t)
            } else {
                r matches Ok(o) && o@ == t
            }
        },
    }
}

/// Decides where a write goes and whether it may go there: an existing target is only
/// replaced when `overwrite` is set or when it is the source itself.
pub fn resolve_output_path(
    source: Option<&str>,
    output_path: Option<&str>,
    overwrite: bool,
    target_exists: bool,
) -> (r: Result<String, DocsError>)
    ensures
        resolve_output_spec(opt_view(source), opt_view(output_path), overwrite, target_exists, r),
{
    let out = output_target(source, output_path)?;
    if target_exists {
        let same_as_source = match source {
            Some(s) => paths_equal(s, out.as_str()),
            None => false,
        };
        if !overwrite && !same_as_source {
            return Err(error_with(ErrorKind::InvalidArgument, "目标已存在且未允许覆盖: ", &chars_of(out.as_str())));
        }
    }
    Ok(out)
}

/// A write never lands on an existing file other than its own source unless overwriting
/// was asked for.
pub proof fn law_no_silent_overwrite(
    source: Option<Seq<char>>,
    output_path: Option<Seq<char>>,
    overwrite: bool,
    r: Result<String, DocsError>,
)
    requires
        resolve_output_spec(source, output_path, overwrite, true, r),
        r is Ok,
    ensures
        overwrite || (source matches Some(s) && same_path(s, r->Ok_0@)),
{
}

/// The final component of a path, as `Path::file_name` gives it: none for an empty path,
/// a bare root or `.`, or a path ending in `..`.
pub open spec fn file_name(s: Seq<char>) -> Option<Seq<char>> {
    let parts = path_shape(s).parts;
    if parts.len() == 0 || parts.last() == seq!['.', '.'] {
        None
    } else {
        Some(parts.last())
    }
}

/// The extension of a file name, as `Path::extension` gives it: the text after the last
/// `.`, unless there is no `.` or the only one starts the name.
pub open spec fn name_extension(name: Seq<char>) -> Option<Seq<char>> {
    if exists|k: int| 0 < k < name.len() && name[k] == '.' {
        let k = choose|k: int|
            0 < k < name.len() && name[k] == '.' && forall|j: int| k < j < name.len() ==> name[j] != '.';
        Some(name.skip(k + 1))
    } else {
        None
    }
}

pub open spec fn path_extension(s: Seq<char>) -> Option<Seq<char>> {
    match file_name(s) {
        Some(n) => name_extension(n),
        None => None,
    }
}

/// The path's extension equals `ext` (given in lower case), ignoring ASCII case.
pub open spec fn has_extension(s: Seq<char>, ext: Seq<char>) -> bool {
    match path_extension(s) {
        Some(e) => crate::docs::strings::ascii_lower_seq(e) == ext,
        None => false,
    }
}

pub open spec fn opt_chars_view(o: Option<Vec<char>>) -> Option<Seq<char>> {
    match o {
        Some(v) => Some(v@),
        None => None,
    }
}

/// The extension of a path, as `Path::extension` gives it.
pub fn path_ext(path: &str) -> (r: Option<Vec<char>>)
    ensures
        opt_chars_view(r) == path_extension(path@),
{
    let cs = chars_of(path);
    let parts = normal_parts(&cs);
    let ghost pv = parts@.map_values(|v: Vec<char>| v@);
    if parts.len() == 0 {
        return None;
    }
    let last = &parts[parts.len() - 1];
    assert(last@ == pv.last());
    if last.len() == 2 && last[0] == '.' && last[1] == '.' {
        assert(last@ =~= seq!['.', '.']);
        return None;
    }
    proof {
        if last@ == seq!['.', '.'] {
            assert(last@[0] == '.' && last@[1] == '.');
        }
    }
    let mut k = last.len();
    while k > 0 && last[k - 1] != '.'
        invariant
            k <= last.len(),
            forall|j: int| k <= j < last.len() ==> last@[j] != '.',
        decreases k,
    {
        k = k - 1;
    }
    if k <= 1 {
        proof {
            assert forall|m: int| 0 < m < last@.len() implies last@[m] != '.' by {
                if m >= k {
                } else {
                    assert(m == 0 || k == 0 || m < k);
                }
            }
        }
        return None;
    }
    let dot = k - 1;
    proof {
        let n = last@;
        assert(0 < dot < n.len() && n[dot as int] == '.');
        let c = choose|c: int|
            0 < c < n.len() && n[c] == '.' && forall|j: int| c < j < n.len() ==> n[j] != '.';
        assert(c == dot) by {
            if c < dot {
                assert(n[dot as int] != '.');
            }
            if c > dot {
                assert(n[c] != '.');
            }
        }
    }
    let mut e: Vec<char> = Vec::new();
    let mut j = k;
    while j < last.len()
        invariant
            k <= j <= last.len(),
            e@ == last@.subrange(k as int, j as int),
        decreases last.len() - j,
    {
        e.push(last[j]);
        j = j + 1;
        assert(e@ =~= last@.subrange(k as int, j as int));
    }
    assert(last@.subrange(k as int, last.len() as int) =~= last@.skip(k as int));
    Some(e)
}

/// Whether the path's extension is `ext` (given in lower case), ignoring ASCII case.
pub fn extension_is(path: &str, ext: &str) -> (b: bool)
    ensures
        b == has_extension(path@, ext@),
{
    match path_ext(path) {
        None => false,
        Some(e) => {
            let lower = crate::docs::strings::ascii_lowercase(&e);
            let want = chars_of(ext);
            chars_eq(&lower, &want)
        },
    }
}

/// The final component of a path, as `Path::file_name` gives it.
pub fn path_file_name(path: &str) -> (r: Option<Vec<char>>)
    ensures
        opt_chars_view(r) == file_name(path@),
{
    let cs = chars_of(path);
    let mut parts = normal_parts(&cs);
    let ghost pv = parts@.map_values(|v: Vec<char>| v@);
    if parts.len() == 0 {
        return None;
    }
    let last = parts.pop().unwrap();
    assert(last@ == pv.last());
    if last.len() == 2 && last[0] == '.' && last[1] == '.' {
        assert(last@ =~= seq!['.', '.']);
        return None;
    }
    proof {
        if last@ == seq!['.', '.'] {
            assert(last@[0] == '.' && last@[1] == '.');
        }
    }
    Some(last)
}

} // verus!
