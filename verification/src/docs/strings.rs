//! Character-sequence helpers shared by the document modules.

use vstd::prelude::*;

verus! {

/// The characters of `s`, in order.
pub fn chars_of(s: &str) -> (v: Vec<char>)
    ensures
        v@ == s@,
{
    let mut v: Vec<char> = Vec::new();
    for c in it: s.chars()
        invariant
            v@ == it.seq().take(it.index() as int),
    {
        v.push(c);
    }
    v
}

/// Collects characters into a `String` (std's `FromIterator<char> for String`):
/// the string holds exactly the given characters, in order.
#[verifier::external_body]
pub(crate) fn string_from_chars(v: &[char]) -> (s: String)
    ensures
        s@ == v@,
{
    v.iter().collect()
}

/// Appends the characters of `s` to `out`.
pub fn push_str(out: &mut Vec<char>, s: &str)
    ensures
        final(out)@ == old(out)@ + s@,
{
    let cs = chars_of(s);
    push_chars(out, &cs);
}

/// Appends `cs` to `out`.
pub fn push_chars(out: &mut Vec<char>, cs: &[char])
    ensures
        final(out)@ == old(out)@ + cs@,
{
    let ghost start = out@;
    let mut i: usize = 0;
    while i < cs.len()
        invariant
            i <= cs.len(),
            out@ == start + cs@.take(i as int),
        decreases cs.len() - i,
    {
        out.push(cs[i]);
        i = i + 1;
        assert(cs@.take(i as int) == cs@.take((i - 1) as int).push(cs@[i - 1]));
    }
    assert(cs@.take(cs.len() as int) == cs@);
}

/// Decimal digits of a natural number, most significant first, without leading zeros
/// (`0` is written `"0"`).
pub open spec fn decimal(n: nat) -> Seq<char>
    decreases n,
{
    if n < 10 {
        seq![digit_char(n)]
    } else {
        decimal(n / 10).push(digit_char(n % 10))
    }
}

pub open spec fn digit_char(d: nat) -> char {
    if d == 0 { '0' }
    else if d == 1 { '1' }
    else if d == 2 { '2' }
    else if d == 3 { '3' }
    else if d == 4 { '4' }
    else if d == 5 { '5' }
    else if d == 6 { '6' }
    else if d == 7 { '7' }
    else if d == 8 { '8' }
    else { '9' }
}

fn digit(d: u64) -> (c: char)
    requires
        d < 10,
    ensures
        c == digit_char(d as nat),
{
    if d == 0 { '0' }
    else if d == 1 { '1' }
    else if d == 2 { '2' }
    else if d == 3 { '3' }
    else if d == 4 { '4' }
    else if d == 5 { '5' }
    else if d == 6 { '6' }
    else if d == 7 { '7' }
    else if d == 8 { '8' }
    else { '9' }
}

/// Writes `n` in decimal, as `format!("{n}")` does.
pub fn push_decimal(out: &mut Vec<char>, n: u64)
    ensures
        final(out)@ == old(out)@ + decimal(n as nat),
    decreases n,
{
    if n < 10 {
        out.push(digit(n));
        assert(decimal(n as nat) == seq![digit_char(n as nat)]);
    } else {
        push_decimal(out, n / 10);
        out.push(digit(n % 10));
        assert(decimal(n as nat) == decimal((n / 10) as nat).push(digit_char((n % 10) as nat)));
    }
}

/// `s` starts with `p`.
pub open spec fn has_prefix(s: Seq<char>, p: Seq<char>) -> bool {
    p.len() <= s.len() && s.take(p.len() as int) == p
}

/// `s` ends with `p`.
pub open spec fn has_suffix(s: Seq<char>, p: Seq<char>) -> bool {
    p.len() <= s.len() && s.skip(s.len() - p.len()) == p
}

/// `p` occurs in `s` starting at index `i`.
pub open spec fn occurs_at(s: Seq<char>, p: Seq<char>, i: int) -> bool {
    0 <= i && i + p.len() <= s.len() && s.subrange(i, i + p.len()) == p
}

/// `p` occurs somewhere in `s`.
pub open spec fn contains_seq(s: Seq<char>, p: Seq<char>) -> bool {
    exists|i: int| occurs_at(s, p, i)
}

/// Whether `p` occurs in `s` at index `i` (checked character by character).
pub fn matches_at(s: &[char], p: &[char], i: usize) -> (b: bool)
    requires
        i <= s.len(),
    ensures
        b == occurs_at(s@, p@, i as int),
{
    if p.len() > s.len() - i {
        return false;
    }
    let mut k: usize = 0;
    while k < p.len()
        invariant
            i + p.len() <= s.len(),
            k <= p.len(),
            forall|j: int| 0 <= j < k ==> s@[i + j] == p@[j],
        decreases p.len() - k,
    {
        if s[i + k] != p[k] {
            assert(s@.subrange(i as int, i + p.len())[k as int] != p@[k as int]);
            return false;
        }
        k = k + 1;
    }
    assert(s@.subrange(i as int, i + p.len()) =~= p@);
    true
}

/// Index of the first occurrence of `p` in `s` at or after `from`.
pub open spec fn first_occurrence_from(s: Seq<char>, p: Seq<char>, from: int, i: int) -> bool {
    from <= i && occurs_at(s, p, i) && forall|j: int| from <= j < i ==> !occurs_at(s, p, j)
}

/// Finds the first occurrence of `p` in `s` at or after `from`, as `str::find` does on the
/// suffix of `s` that starts at `from`.
pub fn find_from(s: &[char], p: &[char], from: usize) -> (r: Option<usize>)
    requires
        from <= s.len(),
    ensures
        match r {
            Some(i) => first_occurrence_from(s@, p@, from as int, i as int),
            None => forall|j: int| from <= j ==> !occurs_at(s@, p@, j),
        },
{
    let mut i = from;
    while i < s.len()
        invariant
            from <= i <= s.len(),
            forall|j: int| from <= j < i ==> !occurs_at(s@, p@, j),
        decreases s.len() - i,
    {
        if matches_at(s, p, i) {
            return Some(i);
        }
        i = i + 1;
    }
    if matches_at(s, p, i) {
        return Some(i);
    }
    None
}

/// `s` with every non-overlapping occurrence of a non-empty `from`, scanned from the
/// left, replaced by `to`; with an empty `from`, `to` is inserted before every character
/// and at the end (the behaviour of `str::replace`).
pub open spec fn replace_all(s: Seq<char>, from: Seq<char>, to: Seq<char>) -> Seq<char>
    decreases s.len(),
{
    if from.len() == 0 {
        if s.len() == 0 {
            to
        } else {
            to + seq![s[0]] + replace_all(s.drop_first(), from, to)
        }
    } else if s.len() == 0 {
        s
    } else if has_prefix(s, from) {
        to + replace_all(s.skip(from.len() as int), from, to)
    } else {
        seq![s[0]] + replace_all(s.drop_first(), from, to)
    }
}

proof fn lemma_replace_step(s: Seq<char>, from: Seq<char>, to: Seq<char>, i: int)
    requires
        0 <= i < s.len(),
    ensures
        from.len() == 0 ==> replace_all(s.skip(i), from, to) == to + seq![s[i]] + replace_all(
            s.skip(i + 1),
            from,
            to,
        ),
        from.len() > 0 && occurs_at(s, from, i) ==> replace_all(s.skip(i), from, to) == to
            + replace_all(s.skip(i + from.len()), from, to),
        from.len() > 0 && !occurs_at(s, from, i) ==> replace_all(s.skip(i), from, to) == seq![
            s[i],
        ] + replace_all(s.skip(i + 1), from, to),
{
    let t = s.skip(i);
    assert(t.len() > 0);
    assert(t[0] == s[i]);
    assert(t.drop_first() =~= s.skip(i + 1));
    if from.len() > 0 {
        if occurs_at(s, from, i) {
            assert(t.take(from.len() as int) =~= s.subrange(i, i + from.len()));
            assert(t.skip(from.len() as int) =~= s.skip(i + from.len()));
        } else {
            if from.len() <= t.len() {
                assert(t.take(from.len() as int) =~= s.subrange(i, i + from.len()));
            }
        }
    }
}

/// `str::replace` on character vectors.
pub fn replace_chars(s: &[char], from: &[char], to: &[char]) -> (r: Vec<char>)
    ensures
        r@ == replace_all(s@, from@, to@),
{
    let mut out: Vec<char> = Vec::new();
    let mut i: usize = 0;
    assert(s@.skip(0) =~= s@);
    while i < s.len()
        invariant
            i <= s.len(),
            out@ + replace_all(s@.skip(i as int), from@, to@) == replace_all(s@, from@, to@),
        decreases s.len() - i,
    {
        proof {
            lemma_replace_step(s@, from@, to@, i as int);
        }
        if from.len() == 0 {
            push_chars(&mut out, to);
            out.push(s[i]);
            i = i + 1;
            proof {
                assert(out@ + replace_all(s@.skip(i as int), from@, to@) =~= (out@.drop_last()
                    + seq![s@[i - 1]]) + replace_all(s@.skip(i as int), from@, to@));
            }
        } else if matches_at(s, from, i) {
            push_chars(&mut out, to);
            i = i + from.len();
        } else {
            out.push(s[i]);
            i = i + 1;
        }
    }
    assert(s@.skip(i as int) =~= Seq::<char>::empty());
    if from.len() == 0 {
        push_chars(&mut out, to);
    }
    out
}

/// Unicode `White_Space` characters (what `char::is_whitespace` accepts).
pub open spec fn is_white(c: char) -> bool {
    ('\u{9}' <= c && c <= '\u{d}') || c == ' ' || c == '\u{85}' || c == '\u{a0}' || c
        == '\u{1680}' || ('\u{2000}' <= c && c <= '\u{200a}') || c == '\u{2028}' || c
        == '\u{2029}' || c == '\u{202f}' || c == '\u{205f}' || c == '\u{3000}'
}

pub fn is_whitespace(c: char) -> (b: bool)
    ensures
        b == is_white(c),
{
    ('\u{9}' <= c && c <= '\u{d}') || c == ' ' || c == '\u{85}' || c == '\u{a0}' || c
        == '\u{1680}' || ('\u{2000}' <= c && c <= '\u{200a}') || c == '\u{2028}' || c
        == '\u{2029}' || c == '\u{202f}' || c == '\u{205f}' || c == '\u{3000}'
}

/// Number of leading whitespace characters of `s`.
pub open spec fn lead_ws(s: Seq<char>) -> nat
    decreases s.len(),
{
    if s.len() > 0 && is_white(s[0]) {
        1 + lead_ws(s.drop_first())
    } else {
        0
    }
}

/// Number of trailing whitespace characters of `s`.
pub open spec fn trail_ws(s: Seq<char>) -> nat
    decreases s.len(),
{
    if s.len() > 0 && is_white(s.last()) {
        1 + trail_ws(s.drop_last())
    } else {
        0
    }
}

/// `str::trim_start`.
pub open spec fn trim_start(s: Seq<char>) -> Seq<char> {
    s.skip(lead_ws(s) as int)
}

/// `str::trim_end`.
pub open spec fn trim_end(s: Seq<char>) -> Seq<char> {
    s.take(s.len() - trail_ws(s))
}

/// `str::trim`.
pub open spec fn trim(s: Seq<char>) -> Seq<char> {
    trim_end(trim_start(s))
}

proof fn lemma_lead_ws_skip(s: Seq<char>, i: int)
    requires
        0 <= i <= s.len(),
        forall|j: int| 0 <= j < i ==> is_white(#[trigger] s[j]),
    ensures
        lead_ws(s) == i + lead_ws(s.skip(i)),
    decreases i,
{
    if i > 0 {
        assert(is_white(s[0]));
        let t = s.drop_first();
        assert forall|j: int| 0 <= j < i - 1 implies is_white(#[trigger] t[j]) by {
            assert(t[j] == s[j + 1]);
        }
        lemma_lead_ws_skip(t, i - 1);
        assert(t.skip(i - 1) =~= s.skip(i));
    } else {
        assert(s.skip(0) =~= s);
    }
}

proof fn lemma_trail_ws_take(s: Seq<char>, n: int)
    requires
        0 <= n <= s.len(),
        forall|j: int| n <= j < s.len() ==> is_white(#[trigger] s[j]),
    ensures
        trail_ws(s) == (s.len() - n) + trail_ws(s.take(n)),
    decreases s.len() - n,
{
    if n < s.len() {
        assert(is_white(s.last()));
        let t = s.drop_last();
        assert forall|j: int| n <= j < t.len() implies is_white(#[trigger] t[j]) by {
            assert(t[j] == s[j]);
        }
        lemma_trail_ws_take(t, n);
        assert(t.take(n) =~= s.take(n));
    } else {
        assert(s.take(n) =~= s);
    }
}

/// `str::trim` on character vectors.
pub fn trim_chars(s: &[char]) -> (r: Vec<char>)
    ensures
        r@ == trim(s@),
{
    let mut a: usize = 0;
    while a < s.len() && is_whitespace(s[a])
        invariant
            a <= s.len(),
            forall|j: int| 0 <= j < a ==> is_white(#[trigger] s@[j]),
        decreases s.len() - a,
    {
        a = a + 1;
    }
    proof {
        lemma_lead_ws_skip(s@, a as int);
        if a < s.len() {
            assert(!is_white(s@.skip(a as int)[0]));
        } else {
            assert(s@.skip(a as int).len() == 0);
        }
    }
    let mut b: usize = s.len();
    while b > a && is_whitespace(s[b - 1])
        invariant
            a <= b <= s.len(),
            forall|j: int| b <= j < s.len() ==> is_white(#[trigger] s@[j]),
        decreases b,
    {
        b = b - 1;
    }
    let ghost t = s@.skip(a as int);
    proof {
        assert forall|j: int| (b - a) <= j < t.len() implies is_white(#[trigger] t[j]) by {
            assert(t[j] == s@[j + a]);
        }
        lemma_trail_ws_take(t, (b - a) as int);
        if b > a {
            assert(t.take((b - a) as int).last() == s@[b - 1]);
        } else {
            assert(t.take((b - a) as int).len() == 0);
        }
    }
    let mut out: Vec<char> = Vec::new();
    let mut k = a;
    while k < b
        invariant
            a <= k <= b <= s.len(),
            out@ == s@.subrange(a as int, k as int),
        decreases b - k,
    {
        out.push(s[k]);
        k = k + 1;
        assert(out@ =~= s@.subrange(a as int, k as int));
    }
    assert(out@ =~= trim(s@));
    out
}

/// ASCII upper-case letters mapped to lower case, everything else unchanged.
pub open spec fn ascii_lower(c: char) -> char {
    if 'A' <= c && c <= 'Z' {
        ((c as u8) + 32) as u8 as char
    } else {
        c
    }
}

pub open spec fn ascii_lower_seq(s: Seq<char>) -> Seq<char> {
    s.map_values(|c: char| ascii_lower(c))
}

pub fn to_ascii_lower(c: char) -> (r: char)
    ensures
        r == ascii_lower(c),
{
    if 'A' <= c && c <= 'Z' {
        ((c as u8) + 32) as char
    } else {
        c
    }
}

/// `str::to_ascii_lowercase` on character vectors.
pub fn ascii_lowercase(s: &[char]) -> (r: Vec<char>)
    ensures
        r@ == ascii_lower_seq(s@),
{
    let mut out: Vec<char> = Vec::new();
    let mut i: usize = 0;
    while i < s.len()
        invariant
            i <= s.len(),
            out@ == ascii_lower_seq(s@.take(i as int)),
        decreases s.len() - i,
    {
        out.push(to_ascii_lower(s[i]));
        i = i + 1;
        assert(out@ =~= ascii_lower_seq(s@.take(i as int)));
    }
    assert(s@.take(s.len() as int) =~= s@);
    out
}

/// Whether `s` ends with `p`.
pub fn ends_with(s: &[char], p: &[char]) -> (b: bool)
    ensures
        b == has_suffix(s@, p@),
{
    if p.len() > s.len() {
        return false;
    }
    let r = matches_at(s, p, s.len() - p.len());
    assert(s@.subrange(s.len() - p.len(), s.len() as int) =~= s@.skip(s.len() - p.len()));
    r
}

/// Whether `s` starts with `p`.
pub fn starts_with(s: &[char], p: &[char]) -> (b: bool)
    ensures
        b == has_prefix(s@, p@),
{
    let r = matches_at(s, p, 0);
    if p.len() <= s.len() {
        assert(s@.subrange(0, p.len() as int) =~= s@.take(p.len() as int));
    }
    r
}

/// Whether `p` occurs in `s`.
pub fn contains(s: &[char], p: &[char]) -> (b: bool)
    ensures
        b == contains_seq(s@, p@),
{
    match find_from(s, p, 0) {
        Some(i) => true,
        None => false,
    }
}

/// The pieces of `s` between the non-overlapping occurrences of a non-empty `p`, found
/// from the left (what `str::split` yields); with an empty `p`, `s` whole.
pub open spec fn split_pieces(s: Seq<char>, p: Seq<char>) -> Seq<Seq<char>>
    decreases s.len(),
{
    if p.len() == 0 || s.len() < p.len() {
        seq![s]
    } else if has_prefix(s, p) {
        seq![Seq::<char>::empty()] + split_pieces(s.skip(p.len() as int), p)
    } else {
        let rest = split_pieces(s.drop_first(), p);
        rest.update(0, seq![s[0]] + rest[0])
    }
}

/// `q` with `c` put before its first piece.
pub open spec fn prepend_first(c: Seq<char>, q: Seq<Seq<char>>) -> Seq<Seq<char>> {
    q.update(0, c + q[0])
}

proof fn lemma_split_nonempty(s: Seq<char>, p: Seq<char>)
    ensures
        split_pieces(s, p).len() >= 1,
    decreases s.len(),
{
    if p.len() == 0 || s.len() < p.len() {
    } else if has_prefix(s, p) {
        lemma_split_nonempty(s.skip(p.len() as int), p);
    } else {
        lemma_split_nonempty(s.drop_first(), p);
    }
}

/// Splits `s` at every occurrence of a non-empty `p` (`str::split`).
pub fn split_on(s: &[char], p: &[char]) -> (r: Vec<Vec<char>>)
    requires
        p.len() > 0,
    ensures
        r@.map_values(|v: Vec<char>| v@) == split_pieces(s@, p@),
{
    let mut pieces: Vec<Vec<char>> = Vec::new();
    let mut cur: Vec<char> = Vec::new();
    let mut i: usize = 0;
    assert(s@.skip(0) =~= s@);
    proof {
        lemma_split_nonempty(s@, p@);
        let q = split_pieces(s@, p@);
        assert(prepend_first(Seq::empty(), q) =~= q);
        assert(pieces@.map_values(|v: Vec<char>| v@) + q =~= q);
    }
    while i < s.len()
        invariant
            p.len() > 0,
            i <= s.len(),
            split_pieces(s@, p@) == pieces@.map_values(|v: Vec<char>| v@) + prepend_first(cur@, split_pieces(s@.skip(i as int), p@)),
        decreases s.len() - i,
    {
        let ghost t = s@.skip(i as int);
        let ghost pv = pieces@.map_values(|v: Vec<char>| v@);
        proof {
            lemma_split_nonempty(t, p@);
        }
        if matches_at(s, p, i) {
            proof {
                assert(t.take(p@.len() as int) =~= s@.subrange(i as int, i + p@.len()));
                assert(has_prefix(t, p@));
                assert(t.skip(p@.len() as int) =~= s@.skip(i + p@.len()));
                let rest = split_pieces(s@.skip(i + p@.len()), p@);
                lemma_split_nonempty(s@.skip(i + p@.len()), p@);
                assert(split_pieces(t, p@) == seq![Seq::<char>::empty()] + rest);
                assert(prepend_first(cur@, split_pieces(t, p@)) =~= seq![cur@] + rest);
                assert(prepend_first(Seq::empty(), rest) =~= rest);
            }
            let mut done: Vec<char> = Vec::new();
            std::mem::swap(&mut done, &mut cur);
            pieces.push(done);
            proof {
                assert(pieces@.map_values(|v: Vec<char>| v@) =~= pv.push(pieces@.last()@));
            }
            i = i + p.len();
            proof {
                let rest = split_pieces(s@.skip(i as int), p@);
                assert(pieces@.map_values(|v: Vec<char>| v@) + prepend_first(cur@, rest) =~= pv + (seq![
                    pieces@.last()@,
                ] + rest));
            }
        } else {
            proof {
                assert(t.drop_first() =~= s@.skip(i + 1));
                assert(t[0] == s@[i as int]);
                if t.len() >= p@.len() {
                    assert(t.take(p@.len() as int) =~= s@.subrange(i as int, i + p@.len()));
                    assert(!has_prefix(t, p@));
                }
                let rest = split_pieces(s@.skip(i + 1), p@);
                lemma_split_nonempty(s@.skip(i + 1), p@);
                if t.len() < p@.len() {
                    assert(split_pieces(t, p@) == seq![t]);
                    assert(s@.skip(i + 1).len() < p@.len());
                    assert(rest == seq![s@.skip(i + 1)]);
                    assert(t =~= seq![t[0]] + s@.skip(i + 1));
                    assert(cur@ + t =~= cur@.push(s@[i as int]) + rest[0]);
                } else {
                    assert(split_pieces(t, p@) == rest.update(0, seq![t[0]] + rest[0]));
                    assert(cur@ + (seq![t[0]] + rest[0]) =~= cur@.push(s@[i as int]) + rest[0]);
                }
                assert(prepend_first(cur@, split_pieces(t, p@)) =~= prepend_first(cur@.push(s@[i as int]), rest));
            }
            cur.push(s[i]);
            i = i + 1;
        }
    }
    proof {
        let t = s@.skip(i as int);
        assert(t.len() == 0);
        assert(split_pieces(t, p@) == seq![t]);
        assert(prepend_first(cur@, seq![t]) =~= seq![cur@]);
    }
    let ghost pv = pieces@.map_values(|v: Vec<char>| v@);
    pieces.push(cur);
    assert(pieces@.map_values(|v: Vec<char>| v@) =~= pv.push(pieces@.last()@));
    pieces
}

/// `p` removed from the start of `s` as often as it is there (`trim_start_matches`).
pub open spec fn strip_repeated(s: Seq<char>, p: Seq<char>) -> Seq<char>
    decreases s.len(),
{
    if p.len() > 0 && has_prefix(s, p) {
        strip_repeated(s.skip(p.len() as int), p)
    } else {
        s
    }
}

/// Removes every leading occurrence of a non-empty `p` from `s`.
pub fn trim_start_matches(s: &[char], p: &[char]) -> (r: Vec<char>)
    requires
        p.len() > 0,
    ensures
        r@ == strip_repeated(s@, p@),
{
    let mut i: usize = 0;
    assert(s@.skip(0) =~= s@);
    while i < s.len() && matches_at(s, p, i)
        invariant
            p.len() > 0,
            i <= s.len(),
            strip_repeated(s@, p@) == strip_repeated(s@.skip(i as int), p@),
        decreases s.len() - i,
    {
        proof {
            let t = s@.skip(i as int);
            assert(t.take(p@.len() as int) =~= s@.subrange(i as int, i + p@.len()));
            assert(t.skip(p@.len() as int) =~= s@.skip(i + p@.len()));
        }
        i = i + p.len();
    }
    proof {
        let t = s@.skip(i as int);
        if i < s.len() && t.len() >= p@.len() {
            assert(t.take(p@.len() as int) =~= s@.subrange(i as int, i + p@.len()));
        }
    }
    let mut out: Vec<char> = Vec::new();
    let mut k = i;
    while k < s.len()
        invariant
            i <= k <= s.len(),
            out@ == s@.subrange(i as int, k as int),
        decreases s.len() - k,
    {
        out.push(s[k]);
        k = k + 1;
        assert(out@ =~= s@.subrange(i as int, k as int));
    }
    assert(out@ =~= s@.skip(i as int));
    out
}

} // verus!
