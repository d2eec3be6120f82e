//! Character-level helpers: the `trim`, `strip_prefix` and `starts_with`
//! family of `str`, restated over `Seq<char>` and implemented over a `Vec<char>`
//! window `[lo, hi)`.
use vstd::prelude::*;
use vstd::utf8::{decode_utf8, valid_utf8};

verus! {

/// The Unicode `White_Space` property, which is exactly what `char::is_whitespace`
/// tests.
pub open spec fn is_ws(c: char) -> bool {
    let u = c as u32;
    ||| 9 <= u <= 13
    ||| u == 32
    ||| u == 0x85
    ||| u == 0xA0
    ||| u == 0x1680
    ||| 0x2000 <= u <= 0x200A
    ||| u == 0x2028
    ||| u == 0x2029
    ||| u == 0x202F
    ||| u == 0x205F
    ||| u == 0x3000
}

pub open spec fn opt_chars(o: Option<&str>) -> Option<Seq<char>> {
    match o {
        Some(s) => Some(s@),
        None => None,
    }
}

pub open spec fn strs_view(ps: Seq<&str>) -> Seq<Seq<char>> {
    ps.map_values(|p: &str| p@)
}

pub open spec fn strings_view(v: Seq<String>) -> Seq<Seq<char>> {
    v.map_values(|t: String| t@)
}

/// The character classes that the trimming helpers strip.
#[derive(Clone, Copy, PartialEq, Eq)]
pub enum CharClass {
    Space,
    StarOrBang,
    SlashOrBang,
    Star,
    Hash,
    Bang,
    OpenBracket,
    CloseBracket,
    CloseParen,
}

pub open spec fn in_class(c: char, k: CharClass) -> bool {
    match k {
        CharClass::Space => is_ws(c),
        CharClass::StarOrBang => c == '*' || c == '!',
        CharClass::SlashOrBang => c == '/' || c == '!',
        CharClass::Star => c == '*',
        CharClass::Hash => c == '#',
        CharClass::Bang => c == '!',
        CharClass::OpenBracket => c == '[',
        CharClass::CloseBracket => c == ']',
        CharClass::CloseParen => c == ')',
    }
}

/// `s.trim_start_matches(class)`.
pub open spec fn trim_start_with(s: Seq<char>, k: CharClass) -> Seq<char>
    decreases s.len(),
{
    if s.len() > 0 && in_class(s[0], k) {
        trim_start_with(s.drop_first(), k)
    } else {
        s
    }
}

/// `s.trim_end_matches(class)`.
pub open spec fn trim_end_with(s: Seq<char>, k: CharClass) -> Seq<char>
    decreases s.len(),
{
    if s.len() > 0 && in_class(s.last(), k) {
        trim_end_with(s.drop_last(), k)
    } else {
        s
    }
}

/// `s.trim_start()`.
pub open spec fn trim_start(s: Seq<char>) -> Seq<char> {
    trim_start_with(s, CharClass::Space)
}

/// `s.trim_end()`.
pub open spec fn trim_end(s: Seq<char>) -> Seq<char> {
    trim_end_with(s, CharClass::Space)
}

/// `s.trim()`.
pub open spec fn trim(s: Seq<char>) -> Seq<char> {
    trim_end(trim_start(s))
}

/// `s.strip_prefix(p)`.
pub open spec fn strip_prefix(s: Seq<char>, p: Seq<char>) -> Option<Seq<char>> {
    if p.is_prefix_of(s) {
        Some(s.skip(p.len() as int))
    } else {
        None
    }
}

/// `s.strip_suffix(p)`.
pub open spec fn strip_suffix(s: Seq<char>, p: Seq<char>) -> Option<Seq<char>> {
    if p.is_suffix_of(s) {
        Some(s.take(s.len() - p.len()))
    } else {
        None
    }
}

/// `s.contains(p)` for a pattern string `p`.
pub open spec fn contains_seq(s: Seq<char>, p: Seq<char>) -> bool {
    exists|i: int| 0 <= i <= s.len() - p.len() && #[trigger] s.subrange(i, i + p.len()) == p
}

/// Whether every character of `s` is whitespace (`s.trim().is_empty()`).
pub open spec fn all_ws(s: Seq<char>) -> bool {
    forall|i: int| 0 <= i < s.len() ==> is_ws(#[trigger] s[i])
}

pub fn char_in_class(c: char, k: CharClass) -> (r: bool)
    ensures
        r == in_class(c, k),
{
    match k {
        CharClass::Space => char_is_ws(c),
        CharClass::StarOrBang => c == '*' || c == '!',
        CharClass::SlashOrBang => c == '/' || c == '!',
        CharClass::Star => c == '*',
        CharClass::Hash => c == '#',
        CharClass::Bang => c == '!',
        CharClass::OpenBracket => c == '[',
        CharClass::CloseBracket => c == ']',
        CharClass::CloseParen => c == ')',
    }
}

pub fn char_is_ws(c: char) -> (r: bool)
    ensures
        r == is_ws(c),
{
    let u = c as u32;
    (9 <= u && u <= 13) || u == 32 || u == 0x85 || u == 0xA0 || u == 0x1680 || (0x2000 <= u && u
        <= 0x200A) || u == 0x2028 || u == 0x2029 || u == 0x202F || u == 0x205F || u == 0x3000
}

/// The characters of `s`.
pub fn chars_of(s: &str) -> (v: Vec<char>)
    ensures
        v@ == s@,
{
    let mut v: Vec<char> = Vec::new();
    for c in it: s.chars()
        invariant
            v@ == it.seq().take(it.index() as int),
            it.seq() == s@,
    {
        v.push(c);
    }
    v
}

/// Advances `lo` over the characters of class `k`.
pub fn skip_start(v: &Vec<char>, lo: usize, hi: usize, k: CharClass) -> (r: usize)
    requires
        lo <= hi <= v@.len(),
    ensures
        lo <= r <= hi,
        v@.subrange(r as int, hi as int) == trim_start_with(v@.subrange(lo as int, hi as int), k),
{
    let mut i = lo;
    while i < hi && char_in_class(v[i], k)
        invariant
            lo <= i <= hi <= v@.len(),
            trim_start_with(v@.subrange(lo as int, hi as int), k) == trim_start_with(
                v@.subrange(i as int, hi as int),
                k,
            ),
        decreases hi - i,
    {
        assert(v@.subrange(i as int, hi as int).drop_first() =~= v@.subrange(
            i + 1,
            hi as int,
        ));
        i = i + 1;
    }
    i
}

/// Moves `hi` back over the characters of class `k`.
pub fn skip_end(v: &Vec<char>, lo: usize, hi: usize, k: CharClass) -> (r: usize)
    requires
        lo <= hi <= v@.len(),
    ensures
        lo <= r <= hi,
        v@.subrange(lo as int, r as int) == trim_end_with(v@.subrange(lo as int, hi as int), k),
{
    let mut j = hi;
    while j > lo && char_in_class(v[j - 1], k)
        invariant
            lo <= j <= hi <= v@.len(),
            trim_end_with(v@.subrange(lo as int, hi as int), k) == trim_end_with(
                v@.subrange(lo as int, j as int),
                k,
            ),
        decreases j - lo,
    {
        assert(v@.subrange(lo as int, j as int).drop_last() =~= v@.subrange(
            lo as int,
            j - 1,
        ));
        j = j - 1;
    }
    j
}

/// Whether `p` is a prefix of the window `v[lo..hi]`.
pub fn window_starts_with(v: &Vec<char>, lo: usize, hi: usize, p: &Vec<char>) -> (r: bool)
    requires
        lo <= hi <= v@.len(),
    ensures
        r == p@.is_prefix_of(v@.subrange(lo as int, hi as int)),
{
    if p.len() > hi - lo {
        return false;
    }
    let mut i: usize = 0;
    while i < p.len()
        invariant
            p@.len() <= hi - lo,
            lo <= hi <= v@.len(),
            i <= p@.len(),
            forall|j: int| 0 <= j < i ==> p@[j] == v@[lo + j],
        decreases p@.len() - i,
    {
        if p[i] != v[lo + i] {
            assert(p@[i as int] != v@.subrange(lo as int, hi as int).subrange(0, p@.len() as int)[i as int]);
            return false;
        }
        i = i + 1;
    }
    assert(p@ =~= v@.subrange(lo as int, hi as int).subrange(0, p@.len() as int));
    true
}

/// Whether `p` is a suffix of the window `v[lo..hi]`.
pub fn window_ends_with(v: &Vec<char>, lo: usize, hi: usize, p: &Vec<char>) -> (r: bool)
    requires
        lo <= hi <= v@.len(),
    ensures
        r == p@.is_suffix_of(v@.subrange(lo as int, hi as int)),
{
    if p.len() > hi - lo {
        return false;
    }
    let start = hi - p.len();
    let r = window_starts_with(v, start, hi, p);
    proof {
        let w = v@.subrange(lo as int, hi as int);
        assert(w.subrange(w.len() - p@.len(), w.len() as int) =~= v@.subrange(
            start as int,
            hi as int,
        ));
        assert(v@.subrange(start as int, hi as int).subrange(0, p@.len() as int) =~= v@.subrange(
            start as int,
            hi as int,
        ));
    }
    r
}

/// Whether two windows hold the same characters.
pub fn windows_equal(a: &Vec<char>, alo: usize, ahi: usize, b: &Vec<char>, blo: usize, bhi: usize) -> (r: bool)
    requires
        alo <= ahi <= a@.len(),
        blo <= bhi <= b@.len(),
    ensures
        r == (a@.subrange(alo as int, ahi as int) == b@.subrange(blo as int, bhi as int)),
{
    if ahi - alo != bhi - blo {
        assert(a@.subrange(alo as int, ahi as int).len() != b@.subrange(blo as int, bhi as int).len());
        return false;
    }
    let n = ahi - alo;
    let ghost sa = a@.subrange(alo as int, ahi as int);
    let ghost sb = b@.subrange(blo as int, bhi as int);
    let mut i: usize = 0;
    while i < n
        invariant
            n == ahi - alo == bhi - blo,
            alo <= ahi <= a@.len(),
            blo <= bhi <= b@.len(),
            sa == a@.subrange(alo as int, ahi as int),
            sb == b@.subrange(blo as int, bhi as int),
            i <= n,
            forall|j: int| 0 <= j < i ==> #[trigger] sa[j] == sb[j],
        decreases n - i,
    {
        if a[alo + i] != b[blo + i] {
            assert(sa[i as int] != sb[i as int]);
            return false;
        }
        assert(sa[i as int] == sb[i as int]);
        i = i + 1;
    }
    assert(sa =~= sb);
    true
}

/// Whether `v` holds exactly the characters of `lit`.
pub fn eq_lit(v: &Vec<char>, lit: &str) -> (r: bool)
    ensures
        r == (v@ == lit@),
{
    let lv = chars_of(lit);
    assert(v@.subrange(0, v@.len() as int) =~= v@);
    assert(lv@.subrange(0, lv@.len() as int) =~= lv@);
    windows_equal(v, 0, v.len(), &lv, 0, lv.len())
}

/// `a == b` for two string slices.
pub fn str_eq(a: &str, b: &str) -> (r: bool)
    ensures
        r == (a@ == b@),
{
    let av = chars_of(a);
    let bv = chars_of(b);
    let r = windows_equal(&av, 0, av.len(), &bv, 0, bv.len());
    assert(av@.subrange(0, av@.len() as int) =~= av@);
    assert(bv@.subrange(0, bv@.len() as int) =~= bv@);
    r
}

/// `s.starts_with(p)` for two string slices.
pub fn str_starts_with(s: &str, p: &str) -> (r: bool)
    ensures
        r == p@.is_prefix_of(s@),
{
    let sv = chars_of(s);
    let pv = chars_of(p);
    assert(sv@.subrange(0, sv@.len() as int) =~= sv@);
    window_starts_with(&sv, 0, sv.len(), &pv)
}

/// `s.ends_with(p)` for two string slices.
pub fn str_ends_with(s: &str, p: &str) -> (r: bool)
    ensures
        r == p@.is_suffix_of(s@),
{
    let sv = chars_of(s);
    let pv = chars_of(p);
    assert(sv@.subrange(0, sv@.len() as int) =~= sv@);
    window_ends_with(&sv, 0, sv.len(), &pv)
}

/// `s.contains(p)` over the window `v[lo..hi]`.
pub fn window_contains(v: &Vec<char>, lo: usize, hi: usize, p: &Vec<char>) -> (r: bool)
    requires
        lo <= hi <= v@.len(),
    ensures
        r == contains_seq(v@.subrange(lo as int, hi as int), p@),
{
    let ghost w = v@.subrange(lo as int, hi as int);
    if p.len() > hi - lo {
        return false;
    }
    let last = hi - p.len();
    let mut i = lo;
    while i <= last
        invariant
            lo <= i <= last + 1,
            last + p@.len() == hi <= v@.len(),
            lo <= hi,
            w == v@.subrange(lo as int, hi as int),
            forall|j: int| 0 <= j < i - lo ==> #[trigger] w.subrange(j, j + p@.len()) != p@,
        decreases last + 1 - i,
    {
        let hit = window_starts_with(v, i, hi, p);
        if hit {
            assert(w.subrange(i - lo, i - lo + p@.len()) =~= v@.subrange(i as int, hi as int).subrange(0, p@.len() as int));
            return true;
        }
        assert(w.subrange(i - lo, i - lo + p@.len()) =~= v@.subrange(i as int, hi as int).subrange(0, p@.len() as int));
        i = i + 1;
    }
    false
}

/// `std::str::from_utf8`: the text that `b` encodes, if `b` is valid UTF-8.
/// Contract (as std documents): `Some` exactly when the bytes are valid UTF-8,
/// and then the characters are the UTF-8 decoding of the bytes.
#[verifier::external_body]
pub fn str_from_utf8(b: &[u8]) -> (r: Option<&str>)
    ensures
        r is Some <==> valid_utf8(b@),
        r matches Some(s) ==> s@ == decode_utf8(b@),
{
    std::str::from_utf8(b).ok()
}

/// The text of the bytes `src[s..e]`, or the empty text when they are not
/// valid UTF-8.
pub open spec fn node_text(src: Seq<u8>, s: int, e: int) -> Seq<char> {
    let b = src.subrange(s, e);
    if valid_utf8(b) {
        decode_utf8(b)
    } else {
        Seq::empty()
    }
}

/// `std::str::from_utf8(&src[s..e]).unwrap_or("").to_string()`.
pub fn text_of(src: &[u8], s: usize, e: usize) -> (r: String)
    requires
        s <= e <= src@.len(),
    ensures
        r@ == node_text(src@, s as int, e as int),
{
    let b = vstd::slice::slice_subrange(src, s, e);
    match str_from_utf8(b) {
        Some(t) => t.to_owned(),
        None => String::new(),
    }
}

/// The index of the first `\n` of `s` at or after `i`, or `s.len()`.
pub open spec fn newline_index(s: Seq<char>, i: int) -> int
    decreases s.len() - i,
{
    if 0 <= i < s.len() && s[i] != '\n' {
        newline_index(s, i + 1)
    } else {
        i
    }
}

/// `s.lines().next().unwrap_or("")`: the text before the first line break,
/// where `\r\n` is a line break too.
pub open spec fn first_line(s: Seq<char>) -> Seq<char> {
    let k = newline_index(s, 0);
    if 0 < k < s.len() && s[k - 1] == '\r' {
        s.take(k - 1)
    } else {
        s.take(k)
    }
}

/// The first line of `v`, as the window `[0, r)`.
pub fn first_line_end(v: &Vec<char>) -> (r: usize)
    ensures
        r <= v@.len(),
        v@.subrange(0, r as int) == first_line(v@),
{
    let mut k: usize = 0;
    while k < v.len() && v[k] != '\n'
        invariant
            k <= v@.len(),
            newline_index(v@, 0) == newline_index(v@, k as int),
        decreases v@.len() - k,
    {
        k = k + 1;
    }
    if 0 < k && k < v.len() && v[k - 1] == '\r' {
        k - 1
    } else {
        k
    }
}

/// The start of the line that holds byte `pos`: just after the last `\n`
/// before `pos`, or 0.
pub open spec fn line_start(src: Seq<u8>, pos: int) -> int
    decreases pos,
{
    if 0 < pos <= src.len() && src[pos - 1] != 10u8 {
        line_start(src, pos - 1)
    } else {
        pos
    }
}

/// The end of the line that holds byte `pos`: the first `\n` at or after
/// `pos`, or the end of the text.
pub open spec fn line_end(src: Seq<u8>, pos: int) -> int
    decreases src.len() - pos,
{
    if 0 <= pos < src.len() && src[pos] != 10u8 {
        line_end(src, pos + 1)
    } else {
        pos
    }
}

pub fn line_start_byte(bytes: &[u8], pos: usize) -> (r: usize)
    requires
        pos <= bytes@.len(),
    ensures
        r == line_start(bytes@, pos as int),
        r <= pos,
{
    let mut i = pos;
    while i > 0 && bytes[i - 1] != 10u8
        invariant
            i <= pos <= bytes@.len(),
            line_start(bytes@, pos as int) == line_start(bytes@, i as int),
        decreases i,
    {
        i = i - 1;
    }
    i
}

pub fn line_end_byte(bytes: &[u8], pos: usize) -> (r: usize)
    requires
        pos <= bytes@.len(),
    ensures
        r == line_end(bytes@, pos as int),
        pos <= r <= bytes@.len(),
{
    let mut i = pos;
    while i < bytes.len() && bytes[i] != 10u8
        invariant
            pos <= i <= bytes@.len(),
            line_end(bytes@, pos as int) == line_end(bytes@, i as int),
        decreases bytes@.len() - i,
    {
        i = i + 1;
    }
    i
}

} // verus!
