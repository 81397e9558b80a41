//! A1-style cell references: column letters, cell addresses and ranges.

use vstd::prelude::*;
use crate::docs::error::{error_with, failure, make_error, outcome, DocsError, ErrorKind};
use crate::docs::strings::{chars_of, decimal, push_chars, push_decimal, string_from_chars, trim, trim_chars};

verus! {

pub open spec fn is_ascii_alpha(c: char) -> bool {
    ('A' <= c && c <= 'Z') || ('a' <= c && c <= 'z')
}

pub open spec fn is_ascii_digit(c: char) -> bool {
    '0' <= c && c <= '9'
}

/// Value of a column letter, `A`/`a` = 1 .. `Z`/`z` = 26.
pub open spec fn letter_value(c: char) -> int {
    if 'a' <= c && c <= 'z' {
        (c as int) - ('a' as int) + 1
    } else {
        (c as int) - ('A' as int) + 1
    }
}

/// Column number of a run of letters, read as bijective base 26 (`A` = 1, `Z` = 26,
/// `AA` = 27).
pub open spec fn col_value(s: Seq<char>) -> int
    decreases s.len(),
{
    if s.len() == 0 {
        0
    } else {
        col_value(s.drop_last()) * 26 + letter_value(s.last())
    }
}

/// Value of a run of decimal digits.
pub open spec fn digits_value(s: Seq<char>) -> int
    decreases s.len(),
{
    if s.len() == 0 {
        0
    } else {
        digits_value(s.drop_last()) * 10 + ((s.last() as int) - ('0' as int))
    }
}

pub open spec fn all_alpha(s: Seq<char>) -> bool {
    forall|j: int| 0 <= j < s.len() ==> is_ascii_alpha(#[trigger] s[j])
}

pub open spec fn all_digits(s: Seq<char>) -> bool {
    forall|j: int| 0 <= j < s.len() ==> is_ascii_digit(#[trigger] s[j])
}

/// Length of the run of ASCII letters at the start of `s`.
pub open spec fn leading_alpha(s: Seq<char>) -> nat
    decreases s.len(),
{
    if s.len() > 0 && is_ascii_alpha(s[0]) {
        1 + leading_alpha(s.drop_first())
    } else {
        0
    }
}

proof fn lemma_col_value_monotone(s: Seq<char>, k: int)
    requires
        all_alpha(s),
        0 <= k <= s.len(),
    ensures
        0 <= col_value(s.take(k)) <= col_value(s),
    decreases s.len() - k,
{
    if k < s.len() {
        lemma_col_value_monotone(s, k + 1);
        assert(s.take(k + 1).drop_last() =~= s.take(k));
        assert(s.take(k + 1).last() == s[k]);
        assert(is_ascii_alpha(s[k]));
        assert(all_alpha(s.take(k))) by {
            assert forall|j: int| 0 <= j < s.take(k).len() implies is_ascii_alpha(
                #[trigger] s.take(k)[j],
            ) by {
                assert(s.take(k)[j] == s[j]);
            }
        }
        lemma_col_value_nonneg(s.take(k));
    } else {
        assert(s.take(k) =~= s);
        lemma_col_value_nonneg(s);
    }
}

proof fn lemma_col_value_nonneg(s: Seq<char>)
    requires
        all_alpha(s),
    ensures
        col_value(s) >= 0,
        s.len() > 0 ==> col_value(s) >= 1,
    decreases s.len(),
{
    if s.len() > 0 {
        assert(all_alpha(s.drop_last())) by {
            assert forall|j: int| 0 <= j < s.drop_last().len() implies is_ascii_alpha(
                #[trigger] s.drop_last()[j],
            ) by {
                assert(s.drop_last()[j] == s[j]);
            }
        }
        lemma_col_value_nonneg(s.drop_last());
        assert(is_ascii_alpha(s[s.len() - 1]));
    }
}

proof fn lemma_digits_monotone(s: Seq<char>, k: int)
    requires
        all_digits(s),
        0 <= k <= s.len(),
    ensures
        0 <= digits_value(s.take(k)) <= digits_value(s),
    decreases s.len() - k,
{
    if k < s.len() {
        lemma_digits_monotone(s, k + 1);
        assert(s.take(k + 1).drop_last() =~= s.take(k));
        assert(is_ascii_digit(s[k]));
        lemma_digits_nonneg(s.take(k));
    } else {
        assert(s.take(k) =~= s);
        lemma_digits_nonneg(s);
    }
}

proof fn lemma_digits_nonneg(s: Seq<char>)
    requires
        all_digits(s),
    ensures
        digits_value(s) >= 0,
    decreases s.len(),
{
    if s.len() > 0 {
        assert(all_digits(s.drop_last())) by {
            assert forall|j: int| 0 <= j < s.drop_last().len() implies is_ascii_digit(
                #[trigger] s.drop_last()[j],
            ) by {
                assert(s.drop_last()[j] == s[j]);
            }
        }
        lemma_digits_nonneg(s.drop_last());
        assert(is_ascii_digit(s[s.len() - 1]));
    }
}

/// Some run of letters at the start of `s` reads as a column number over `u32::MAX`.
pub open spec fn letters_overflow(s: Seq<char>) -> bool {
    exists|k: int| 0 < k <= s.len() && all_alpha(#[trigger] s.take(k)) && col_value(s.take(k)) > u32::MAX
}

/// What the column letters `s` (either case) give: the column number, 1-based; a number
/// past `u32::MAX` is refused as soon as the letters read so far reach it, a character
/// other than a letter (before that) or no letters at all as illegal.
pub open spec fn letters_col(s: Seq<char>) -> Result<u32, (ErrorKind, Seq<char>)> {
    if letters_overflow(s) {
        failure(ErrorKind::InvalidArgument, "列标过大: "@ + s)
    } else if !all_alpha(s) || s.len() == 0 {
        failure(ErrorKind::InvalidArgument, "非法列标: "@ + s)
    } else {
        Ok(col_value(s) as u32)
    }
}

proof fn lemma_take_alpha(s: Seq<char>, k: int)
    requires
        all_alpha(s),
        0 <= k <= s.len(),
    ensures
        all_alpha(s.take(k)),
{
    assert forall|j: int| 0 <= j < s.take(k).len() implies is_ascii_alpha(#[trigger] s.take(k)[j]) by {
        assert(s.take(k)[j] == s[j]);
    }
}

/// Letters whose whole reading fits never overflow on the way.
proof fn lemma_no_overflow(s: Seq<char>)
    requires
        all_alpha(s),
        col_value(s) <= u32::MAX,
    ensures
        !letters_overflow(s),
{
    assert forall|k: int| 0 < k <= s.len() && all_alpha(#[trigger] s.take(k)) implies col_value(s.take(k)) <= u32::MAX by {
        lemma_col_value_monotone(s, k);
    }
}

/// The column number of column letters (either case).
pub fn letters_to_col(letters: &[char]) -> (r: Result<u32, DocsError>)
    ensures
        outcome(r) == letters_col(letters@),
{
    let mut col: u32 = 0;
    let mut i: usize = 0;
    while i < letters.len()
        invariant
            i <= letters.len(),
            all_alpha(letters@.take(i as int)),
            col as int == col_value(letters@.take(i as int)),
            !letters_overflow(letters@.take(i as int)),
        decreases letters.len() - i,
    {
        let c = letters[i];
        let ghost s = letters@;
        if !(('A' <= c && c <= 'Z') || ('a' <= c && c <= 'z')) {
            proof {
                let t = s.take(i as int);
                assert(!all_alpha(s)) by {
                    assert(!is_ascii_alpha(s[i as int]));
                }
                assert forall|k: int| 0 < k <= s.len() && all_alpha(#[trigger] s.take(k)) implies col_value(s.take(k)) <= u32::MAX by {
                    if k > i {
                        assert(s.take(k)[i as int] == s[i as int]);
                        assert(false);
                    } else {
                        lemma_col_value_monotone(t, k);
                        assert(t.take(k) =~= s.take(k));
                        lemma_no_overflow(t);
                    }
                }
                lemma_no_overflow(t);
            }
            return Err(error_with(ErrorKind::InvalidArgument, "非法列标: ", letters));
        }
        assert(s.take(i + 1).drop_last() =~= s.take(i as int));
        assert(s.take(i + 1).last() == s[i as int]);
        assert(all_alpha(s.take(i + 1))) by {
            assert forall|j: int| 0 <= j < i + 1 implies is_ascii_alpha(#[trigger] s.take(i + 1)[j]) by {
                if j < i {
                    assert(s.take(i + 1)[j] == s.take(i as int)[j]);
                }
            }
        }
        let d: u32 = if 'a' <= c && c <= 'z' {
            (c as u32) - ('a' as u32) + 1
        } else {
            (c as u32) - ('A' as u32) + 1
        };
        assert(col_value(s.take(i + 1)) == col * 26 + d);
        if col > (u32::MAX - d) / 26 {
            proof {
                assert(col * 26 + d > u32::MAX) by (nonlinear_arith)
                    requires
                        col > (u32::MAX - d) / 26,
                        d <= 26,
                ;
                assert(s.take(i + 1).len() == i + 1);
                assert(letters_overflow(s));
            }
            return Err(error_with(ErrorKind::InvalidArgument, "列标过大: ", letters));
        }
        proof {
            assert(col * 26 + d <= u32::MAX) by (nonlinear_arith)
                requires
                    col <= (u32::MAX - d) / 26,
                    d <= 26,
            ;
            lemma_no_overflow(s.take(i + 1));
        }
        col = col * 26 + d;
        i = i + 1;
    }
    assert(letters@.take(letters.len() as int) =~= letters@);
    if letters.len() == 0 {
        return Err(error_with(ErrorKind::InvalidArgument, "非法列标: ", letters));
    }
    Ok(col)
}

/// What `parse_a1_cell` gives for `s`: 0-based `(row, column)`, or the error.
pub open spec fn a1_cell(s: Seq<char>) -> Result<(u32, u32), (ErrorKind, Seq<char>)> {
    let i = leading_alpha(s) as int;
    let row = s.skip(i);
    let col = s.take(i);
    if s.len() == 0 {
        failure(ErrorKind::InvalidArgument, "非法单元格地址: "@ + s)
    } else if i == 0 || i == s.len() {
        failure(ErrorKind::InvalidArgument, "非法单元格地址: "@ + s + "（期望如 A1）"@)
    } else if !all_digits(row) {
        failure(ErrorKind::InvalidArgument, "非法单元格地址: "@ + s)
    } else if digits_value(row) > u32::MAX {
        failure(ErrorKind::InvalidArgument, "非法行号: "@ + row)
    } else if digits_value(row) == 0 {
        failure(ErrorKind::InvalidArgument, "行号必须从 1 开始"@)
    } else if col_value(col) > u32::MAX {
        failure(ErrorKind::InvalidArgument, "列标过大: "@ + col)
    } else {
        Ok(((digits_value(row) - 1) as u32, (col_value(col) - 1) as u32))
    }
}

proof fn lemma_leading_alpha(s: Seq<char>, i: int)
    requires
        0 <= i <= s.len(),
        forall|j: int| 0 <= j < i ==> is_ascii_alpha(#[trigger] s[j]),
        i == s.len() || !is_ascii_alpha(s[i]),
    ensures
        leading_alpha(s) == i,
    decreases i,
{
    if i > 0 {
        assert(is_ascii_alpha(s[0]));
        let t = s.drop_first();
        assert forall|j: int| 0 <= j < i - 1 implies is_ascii_alpha(#[trigger] t[j]) by {
            assert(t[j] == s[j + 1]);
        }
        lemma_leading_alpha(t, i - 1);
    }
}

/// Parses one cell reference such as `A1` or `c3` into 0-based `(row, column)`.
pub fn parse_a1_cell(cell: &str) -> (r: Result<(u32, u32), DocsError>)
    ensures
        outcome(r) == a1_cell(cell@),
{
    let s = chars_of(cell);
    if s.len() == 0 {
        return Err(error_with(ErrorKind::InvalidArgument, "非法单元格地址: ", &s));
    }
    let mut i: usize = 0;
    while i < s.len() && (('A' <= s[i] && s[i] <= 'Z') || ('a' <= s[i] && s[i] <= 'z'))
        invariant
            i <= s.len(),
            forall|j: int| 0 <= j < i ==> is_ascii_alpha(#[trigger] s@[j]),
        decreases s.len() - i,
    {
        i = i + 1;
    }
    proof {
        lemma_leading_alpha(s@, i as int);
    }
    if i == 0 || i == s.len() {
        let mut d: Vec<char> = Vec::new();
        push_chars(&mut d, &s);
        let tail = chars_of("（期望如 A1）");
        push_chars(&mut d, &tail);
        let e = error_with(ErrorKind::InvalidArgument, "非法单元格地址: ", &d);
        assert(e.detail() =~= "非法单元格地址: "@ + s@ + "（期望如 A1）"@);
        return Err(e);
    }
    let mut col_part: Vec<char> = Vec::new();
    let mut row_part: Vec<char> = Vec::new();
    let mut k: usize = 0;
    while k < s.len()
        invariant
            0 < i < s.len(),
            k <= s.len(),
            k <= i ==> col_part@ == s@.take(k as int) && row_part@.len() == 0,
            k > i ==> col_part@ == s@.take(i as int) && row_part@ == s@.subrange(i as int, k as int),
        decreases s.len() - k,
    {
        if k < i {
            col_part.push(s[k]);
            assert(col_part@ =~= s@.take(k + 1));
        } else {
            row_part.push(s[k]);
            assert(row_part@ =~= s@.subrange(i as int, k + 1));
        }
        k = k + 1;
    }
    assert(row_part@ =~= s@.skip(i as int));
    assert(all_alpha(col_part@));
    let mut j: usize = 0;
    while j < row_part.len()
        invariant
            j <= row_part.len(),
            forall|m: int| 0 <= m < j ==> is_ascii_digit(#[trigger] row_part@[m]),
            row_part@ == s@.skip(i as int),
            col_part@ == s@.take(i as int),
            leading_alpha(s@) == i,
            s@ == cell@,
            0 < i < s.len(),
        decreases row_part.len() - j,
    {
        if !('0' <= row_part[j] && row_part[j] <= '9') {
            assert(!is_ascii_digit(row_part@[j as int]));
            return Err(error_with(ErrorKind::InvalidArgument, "非法单元格地址: ", &s));
        }
        j = j + 1;
    }
    let mut row: u32 = 0;
    let mut m: usize = 0;
    while m < row_part.len()
        invariant
            m <= row_part.len(),
            all_digits(row_part@),
            row_part@ == s@.skip(i as int),
            col_part@ == s@.take(i as int),
            leading_alpha(s@) == i,
            s@ == cell@,
            0 < i < s.len(),
            row as int == digits_value(row_part@.take(m as int)),
        decreases row_part.len() - m,
    {
        assert(row_part@.take(m + 1).drop_last() =~= row_part@.take(m as int));
        assert(is_ascii_digit(row_part@[m as int]));
        let d: u32 = (row_part[m] as u32) - ('0' as u32);
        assert(row_part@.take(m + 1).last() == row_part@[m as int]);
        assert(digits_value(row_part@.take(m + 1)) == row * 10 + d);
        if row > (u32::MAX - d) / 10 {
            proof {
                assert(row * 10 + d > u32::MAX) by (nonlinear_arith)
                    requires
                        row > (u32::MAX - d) / 10,
                        d <= 9,
                ;
                lemma_digits_monotone(row_part@, m + 1);
            }
            return Err(error_with(ErrorKind::InvalidArgument, "非法行号: ", &row_part));
        }
        proof {
            assert(row * 10 + d <= u32::MAX) by (nonlinear_arith)
                requires
                    row <= (u32::MAX - d) / 10,
                    d <= 9,
            ;
        }
        row = row * 10 + d;
        m = m + 1;
    }
    assert(row_part@.take(row_part.len() as int) =~= row_part@);
    if row == 0 {
        return Err(make_error(ErrorKind::InvalidArgument, &chars_of("行号必须从 1 开始")));
    }
    proof {
        lemma_col_value_nonneg(col_part@);
        if col_value(col_part@) <= u32::MAX {
            lemma_no_overflow(col_part@);
        } else {
            assert(col_part@.take(col_part@.len() as int) =~= col_part@);
            assert(letters_overflow(col_part@));
        }
    }
    match letters_to_col(col_part.as_slice()) {
        Err(e) => Err(e),
        Ok(col) => Ok((row - 1, col - 1)),
    }
}

/// Splits `s` at its first `:`.
pub open spec fn first_colon(s: Seq<char>, k: int) -> bool {
    0 <= k < s.len() && s[k] == ':' && forall|j: int| 0 <= j < k ==> s[j] != ':'
}

pub open spec fn has_colon(s: Seq<char>) -> bool {
    exists|k: int| 0 <= k < s.len() && s[k] == ':'
}

/// The two corner references of a range text: trimmed, split at the first `:`, each side
/// trimmed; without a `:` both corners are the whole text.
pub open spec fn range_sides(s: Seq<char>) -> (Seq<char>, Seq<char>) {
    let t = trim(s);
    if has_colon(t) {
        let k = choose|k: int| first_colon(t, k);
        (trim(t.take(k)), trim(t.skip(k + 1)))
    } else {
        (t, t)
    }
}

pub open spec fn min_u32(a: u32, b: u32) -> u32 {
    if a <= b { a } else { b }
}

pub open spec fn max_u32(a: u32, b: u32) -> u32 {
    if a >= b { a } else { b }
}

/// What `parse_a1_range` gives for `input`.
pub open spec fn a1_range(input: Seq<char>) -> Result<((u32, u32), (u32, u32)), (ErrorKind, Seq<char>)> {
    let (left, right) = range_sides(input);
    if trim(input).len() == 0 {
        failure(ErrorKind::InvalidArgument, "range 不能为空"@)
    } else if left.len() == 0 || right.len() == 0 {
        failure(ErrorKind::InvalidArgument, "非法 range 区域: "@ + input)
    } else {
        match a1_cell(left) {
            Err(e) => Err(e),
            Ok((r1, c1)) => match a1_cell(right) {
                Err(e) => Err(e),
                Ok((r2, c2)) => Ok(
                    ((min_u32(r1, r2), min_u32(c1, c2)), (max_u32(r1, r2), max_u32(c1, c2))),
                ),
            },
        }
    }
}

/// Parses an A1-style area such as `A1:B2` or `C3` (case-insensitive, surrounding blanks
/// allowed) into 0-based `(row, column)` corners, top-left first.
pub fn parse_a1_range(input: &str) -> (r: Result<((u32, u32), (u32, u32)), DocsError>)
    ensures
        outcome(r) == a1_range(input@),
        r matches Ok((s, e)) ==> s.0 <= e.0 && s.1 <= e.1,
{
    let raw = chars_of(input);
    let s = trim_chars(&raw);
    if s.len() == 0 {
        return Err(make_error(ErrorKind::InvalidArgument, &chars_of("range 不能为空")));
    }
    let mut k: usize = 0;
    while k < s.len() && s[k] != ':'
        invariant
            k <= s.len(),
            forall|j: int| 0 <= j < k ==> s@[j] != ':',
        decreases s.len() - k,
    {
        k = k + 1;
    }
    let mut a: Vec<char> = Vec::new();
    let mut b: Vec<char> = Vec::new();
    if k < s.len() {
        assert(first_colon(s@, k as int));
        assert(has_colon(s@));
        let ghost kk = choose|kk: int| first_colon(s@, kk);
        assert(kk == k) by {
            if kk < k {
                assert(s@[kk] != ':');
            }
            if kk > k {
                assert(s@[k as int] != ':');
            }
        }
        let mut j: usize = 0;
        while j < s.len()
            invariant
                k < s.len(),
                j <= s.len(),
                j <= k ==> a@ == s@.take(j as int) && b@.len() == 0,
                j > k ==> a@ == s@.take(k as int) && b@ == s@.subrange(k + 1, j as int),
            decreases s.len() - j,
        {
            if j < k {
                a.push(s[j]);
                assert(a@ =~= s@.take(j + 1));
            } else if j > k {
                b.push(s[j]);
                assert(b@ =~= s@.subrange(k + 1, j + 1));
            } else {
                assert(b@ =~= s@.subrange(k + 1, j + 1));
            }
            j = j + 1;
        }
        assert(b@ =~= s@.skip(k + 1));
        a = trim_chars(&a);
        b = trim_chars(&b);
    } else {
        assert(!has_colon(s@));
        a = trim_chars(&raw);
        b = trim_chars(&raw);
    }
    if a.len() == 0 || b.len() == 0 {
        return Err(error_with(ErrorKind::InvalidArgument, "非法 range 区域: ", &raw));
    }
    let sa = string_from_chars(&a);
    let sb = string_from_chars(&b);
    let ra = parse_a1_cell(sa.as_str());
    let rb = match ra {
        Err(e) => {
            return Err(e);
        },
        Ok(_) => parse_a1_cell(sb.as_str()),
    };
    match (ra, rb) {
        (Ok((r1, c1)), Ok((r2, c2))) => {
            let rmin = if r1 <= r2 { r1 } else { r2 };
            let rmax = if r1 >= r2 { r1 } else { r2 };
            let cmin = if c1 <= c2 { c1 } else { c2 };
            let cmax = if c1 >= c2 { c1 } else { c2 };
            Ok(((rmin, cmin), (rmax, cmax)))
        },
        (Ok(_), Err(e)) => Err(e),
        (Err(e), _) => Err(e),
    }
}

/// Column letters of a 1-based column number (`1` = `A`, `27` = `AA`); `0` has none.
pub open spec fn col_letters(n: nat) -> Seq<char>
    decreases n,
{
    if n == 0 {
        Seq::empty()
    } else {
        col_letters(((n - 1) / 26) as nat).push((('A' as int) + (n - 1) % 26) as char)
    }
}

fn letter_of(d: usize) -> (c: char)
    requires
        d < 26,
    ensures
        c == (('A' as int) + d) as char,
{
    ((d as u8) + 65) as char
}

/// Column letters of a 1-based column number.
pub fn col_to_letters(col: usize) -> (s: String)
    ensures
        s@ == col_letters(col as nat),
{
    let mut rev: Vec<char> = Vec::new();
    let mut c = col;
    while c > 0
        invariant
            col_letters(col as nat) == col_letters(c as nat) + rev@.reverse(),
        decreases c,
    {
        let d = (c - 1) % 26;
        let ghost old_rev = rev@;
        rev.push(letter_of(d));
        assert(col_letters(c as nat) == col_letters(((c - 1) / 26) as nat).push(
            (('A' as int) + d) as char,
        ));
        assert(rev@.reverse() =~= seq![(('A' as int) + d) as char] + old_rev.reverse());
        c = (c - 1) / 26;
    }
    let mut out: Vec<char> = Vec::new();
    let mut i = rev.len();
    while i > 0
        invariant
            i <= rev.len(),
            out@ == rev@.skip(i as int).reverse(),
        decreases i,
    {
        i = i - 1;
        let ghost before = out@;
        out.push(rev[i]);
        assert(rev@.skip(i as int).reverse() =~= rev@.skip(i + 1).reverse().push(rev@[i as int]));
    }
    assert(rev@.skip(0) =~= rev@);
    assert(col_letters(0) =~= Seq::<char>::empty());
    string_from_chars(&out)
}

/// The A1 address of a 1-based `(row, column)`.
pub open spec fn address_of(row: nat, col: nat) -> Seq<char> {
    col_letters(col) + decimal(row)
}

pub fn cell_address(row: usize, col: usize) -> (s: String)
    ensures
        s@ == address_of(row as nat, col as nat),
{
    let letters = col_to_letters(col);
    let mut out = chars_of(letters.as_str());
    push_decimal(&mut out, row as u64);
    string_from_chars(&out)
}

proof fn lemma_col_letters(n: nat)
    ensures
        all_alpha(col_letters(n)),
        col_value(col_letters(n)) == n,
        n > 0 ==> col_letters(n).len() > 0,
        forall|j: int| 0 <= j < col_letters(n).len() ==> 'A' <= #[trigger] col_letters(n)[j] <= 'Z',
    decreases n,
{
    if n > 0 {
        let q = ((n - 1) / 26) as nat;
        let d = (n - 1) % 26;
        lemma_col_letters(q);
        let ch = (('A' as int) + d) as char;
        let l = col_letters(n);
        assert(l == col_letters(q).push(ch));
        assert(ch as int == 65 + d);
        assert(l.drop_last() =~= col_letters(q));
        assert(letter_value(ch) == d + 1);
        assert(n == q * 26 + d + 1);
        assert forall|j: int| 0 <= j < l.len() implies 'A' <= #[trigger] l[j] <= 'Z' by {
            if j < l.len() - 1 {
                assert(l[j] == col_letters(q)[j]);
            }
        }
    }
}

proof fn lemma_decimal(n: nat)
    ensures
        all_digits(decimal(n)),
        digits_value(decimal(n)) == n,
        decimal(n).len() > 0,
    decreases n,
{
    let s = decimal(n);
    if n < 10 {
        assert(s == seq![crate::docs::strings::digit_char(n)]);
        assert(s.drop_last() =~= Seq::<char>::empty());
        assert(s.last() == crate::docs::strings::digit_char(n));
        assert(crate::docs::strings::digit_char(n) as int - '0' as int == n);
        assert(digits_value(s) == digits_value(s.drop_last()) * 10 + (s.last() as int - '0' as int));
    } else {
        lemma_decimal(n / 10);
        let c = crate::docs::strings::digit_char(n % 10);
        assert(s == decimal(n / 10).push(c));
        assert(s.drop_last() =~= decimal(n / 10));
        assert(c as int - '0' as int == n % 10);
        assert forall|j: int| 0 <= j < s.len() implies is_ascii_digit(#[trigger] s[j]) by {
            if j < s.len() - 1 {
                assert(s[j] == decimal(n / 10)[j]);
            }
        }
    }
}

proof fn lemma_leading_alpha_concat(l: Seq<char>, d: Seq<char>)
    requires
        all_alpha(l),
        d.len() > 0,
        all_digits(d),
    ensures
        leading_alpha(l + d) == l.len(),
{
    let s = l + d;
    assert forall|j: int| 0 <= j < l.len() implies is_ascii_alpha(#[trigger] s[j]) by {
        assert(s[j] == l[j]);
    }
    assert(s[l.len() as int] == d[0]);
    assert(is_ascii_digit(d[0]));
    lemma_leading_alpha(s, l.len() as int);
}

/// Reading back the address written for a 1-based cell gives that cell, 0-based.
pub proof fn law_address_roundtrip(row: nat, col: nat)
    requires
        1 <= row <= u32::MAX,
        1 <= col <= u32::MAX,
    ensures
        a1_cell(address_of(row, col)) == Ok::<(u32, u32), (ErrorKind, Seq<char>)>(
            ((row - 1) as u32, (col - 1) as u32),
        ),
{
    let l = col_letters(col);
    let d = decimal(row);
    lemma_col_letters(col);
    lemma_decimal(row);
    lemma_leading_alpha_concat(l, d);
    let s = address_of(row, col);
    assert(s.skip(l.len() as int) =~= d);
    assert(s.take(l.len() as int) =~= l);
}

/// Column letters read back as the column number they were written for: reading the
/// letters `col_to_letters` writes for a column from 1 to `u32::MAX` gives that column.
pub proof fn law_column_letters_roundtrip(col: nat)
    requires
        1 <= col <= u32::MAX,
    ensures
        letters_col(col_letters(col)) == Ok::<u32, (ErrorKind, Seq<char>)>(col as u32),
{
    lemma_col_letters(col);
    lemma_no_overflow(col_letters(col));
}

} // verus!
