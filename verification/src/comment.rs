//! What a comment is, and the verdicts a comment can get: the tag test, the
//! directive test and the extraction of a comment's body.
use vstd::prelude::*;

use crate::text::{
    all_ws, char_is_ws, chars_of, contains_seq, is_ws, skip_end, skip_start, str_starts_with, strip_prefix,
    strip_suffix, trim, trim_end, trim_end_with, trim_start, trim_start_with, window_contains,
    window_ends_with, window_starts_with, windows_equal, CharClass, opt_chars, strs_view, strings_view,
};

verus! {

/// Where a comment stands relative to the code on its line(s).
#[derive(Debug, Clone, Copy, PartialEq, Eq, Structural)]
pub enum Placement {
    WholeLine,
    LeadingInline,
    Trailing,
}

#[derive(Debug, Clone, Copy, PartialEq, Eq, Structural)]
pub enum CommentShape {
    Line,
    Block,
}

/// One comment node, with its byte range and row/column span in the source.
#[derive(Debug, Clone)]
pub struct Comment {
    pub start_byte: usize,
    pub end_byte: usize,
    pub start_row: usize,
    pub start_col: usize,
    pub end_row: usize,
    pub end_col: usize,
    pub shape: CommentShape,
    pub is_doc: bool,
    pub text: String,
    pub in_macro: bool,
    pub enclosing_attributes: Vec<String>,
    pub embedded_script_row: Option<usize>,
}

/// The mathematical value of a [`Comment`].
pub struct CommentView {
    pub start_byte: int,
    pub end_byte: int,
    pub start_row: int,
    pub start_col: int,
    pub end_row: int,
    pub end_col: int,
    pub shape: CommentShape,
    pub is_doc: bool,
    pub text: Seq<char>,
    pub in_macro: bool,
    pub enclosing_attributes: Seq<Seq<char>>,
    pub embedded_script_row: Option<int>,
}

pub open spec fn opt_int(o: Option<usize>) -> Option<int> {
    match o {
        Some(v) => Some(v as int),
        None => None,
    }
}

impl View for Comment {
    type V = CommentView;

    open spec fn view(&self) -> CommentView {
        CommentView {
            start_byte: self.start_byte as int,
            end_byte: self.end_byte as int,
            start_row: self.start_row as int,
            start_col: self.start_col as int,
            end_row: self.end_row as int,
            end_col: self.end_col as int,
            shape: self.shape,
            is_doc: self.is_doc,
            text: self.text@,
            in_macro: self.in_macro,
            enclosing_attributes: strings_view(self.enclosing_attributes@),
            embedded_script_row: opt_int(self.embedded_script_row),
        }
    }
}

pub open spec fn comments_view(cs: Seq<Comment>) -> Seq<CommentView> {
    cs.map_values(|c: Comment| c@)
}

#[derive(Debug, Clone, Copy, PartialEq, Eq, Structural)]
pub enum Exemption {
    Shebang,
    GeneratedFile,
    Directive,
    DocSurface,
    ModuleDoc,
}

#[derive(Debug, Clone, Copy, PartialEq, Eq, Structural)]
pub enum Verdict {
    Exempt(Exemption),
    Tagged,
    Untagged,
}

/// What follows line prefix `p` in `t`, with the `/` and `!` that extend the
/// prefix (`///`, `//!`) also removed.
pub open spec fn line_rest(t: Seq<char>, p: Seq<char>) -> Option<Seq<char>> {
    match strip_prefix(t, p) {
        Some(rest) => Some(trim_start_with(rest, CharClass::SlashOrBang)),
        None => None,
    }
}

/// Among the first `n` line prefixes that open `t`, the rest left by the one
/// that leaves the shortest rest; an earlier prefix wins a tie.
pub open spec fn best_line_rest(t: Seq<char>, ps: Seq<Seq<char>>, n: int) -> Option<Seq<char>>
    decreases n,
{
    if n <= 0 {
        None
    } else {
        let prev = best_line_rest(t, ps, n - 1);
        match line_rest(t, ps[n - 1]) {
            Some(r) => match prev {
                Some(b) => if b.len() <= r.len() {
                    prev
                } else {
                    Some(r)
                },
                None => Some(r),
            },
            None => prev,
        }
    }
}

/// The body of a block comment whose opener `open` starts `t`: the opener,
/// the `*`/`!` run after it, the closer and the `*` run before the closer are
/// dropped, then whitespace is trimmed.
pub open spec fn block_body(t: Seq<char>, open: Seq<char>, close: Option<Seq<char>>) -> Seq<char> {
    let rest = trim_end(trim_start_with(t.skip(open.len() as int), CharClass::StarOrBang));
    let rest = match close {
        Some(c) => match strip_suffix(rest, c) {
            Some(r) => r,
            None => rest,
        },
        None => rest,
    };
    trim(trim_end_with(rest, CharClass::Star))
}

/// The text of a comment with its delimiters and surrounding whitespace removed.
pub open spec fn spec_comment_body(
    text: Seq<char>,
    line_prefixes: Seq<Seq<char>>,
    block_open: Option<Seq<char>>,
    block_close: Option<Seq<char>>,
) -> Seq<char> {
    let t = trim_start(text);
    if block_open is Some && block_open.unwrap().is_prefix_of(t) {
        block_body(t, block_open.unwrap(), block_close)
    } else {
        match best_line_rest(t, line_prefixes, line_prefixes.len() as int) {
            Some(b) => trim(b),
            None => trim(t),
        }
    }
}

proof fn lemma_trim_window(v: Seq<char>, lo: int, mid: int, hi: int, e: int)
    requires
        0 <= lo <= mid <= e <= hi <= v.len(),
        v.subrange(mid, hi) == trim_start(v.subrange(lo, hi)),
        v.subrange(mid, e) == trim_end(v.subrange(mid, hi)),
    ensures
        v.subrange(mid, e) == trim(v.subrange(lo, hi)),
{
}

/// `text` with its comment delimiters and surrounding whitespace removed.
pub fn comment_body<'a>(
    text: &'a str,
    line_prefixes: &[&str],
    block_open: Option<&str>,
    block_close: Option<&str>,
) -> (r: &'a str)
    ensures
        r@ == spec_comment_body(
            text@,
            strs_view(line_prefixes@),
            opt_chars(block_open),
            opt_chars(block_close),
        ),
{
    let v = chars_of(text);
    let n = v.len();
    let ghost s = v@;
    assert(s.subrange(0, n as int) =~= s);
    let t0 = skip_start(&v, 0, n, CharClass::Space);
    let ghost t = s.subrange(t0 as int, n as int);
    assert(t == trim_start(text@));
    if let Some(open) = block_open {
        let ov = chars_of(open);
        if window_starts_with(&v, t0, n, &ov) {
            let a = skip_start(&v, t0 + ov.len(), n, CharClass::StarOrBang);
            assert(t.skip(ov@.len() as int) =~= s.subrange(t0 + ov@.len(), n as int));
            let b = skip_end(&v, a, n, CharClass::Space);
            let ghost rest1 = s.subrange(a as int, b as int);
            let mut e = b;
            if let Some(close) = block_close {
                let cv = chars_of(close);
                if window_ends_with(&v, a, b, &cv) {
                    e = b - cv.len();
                    assert(rest1.take(rest1.len() - cv@.len()) =~= s.subrange(a as int, e as int));
                }
            }
            assert(rest1.subrange(0, (e - a) as int) =~= s.subrange(a as int, e as int));
            let e2 = skip_end(&v, a, e, CharClass::Star);
            let lo = skip_start(&v, a, e2, CharClass::Space);
            let hi = skip_end(&v, lo, e2, CharClass::Space);
            proof {
                lemma_trim_window(s, a as int, lo as int, e2 as int, hi as int);
            }
            return text.substring_char(lo, hi);
        }
    }
    let mut best: Option<usize> = None;
    let mut i: usize = 0;
    let ghost ps = strs_view(line_prefixes@);
    while i < line_prefixes.len()
        invariant
            0 <= i <= line_prefixes@.len(),
            t0 <= n == s.len(),
            s == v@,
            t == s.subrange(t0 as int, n as int),
            ps == strs_view(line_prefixes@),
            match best {
                Some(b) => t0 <= b <= n && best_line_rest(t, ps, i as int) == Some(
                    s.subrange(b as int, n as int),
                ),
                None => best_line_rest(t, ps, i as int) is None,
            },
        decreases line_prefixes@.len() - i,
    {
        let pv = chars_of(line_prefixes[i]);
        assert(ps[i as int] == pv@);
        if window_starts_with(&v, t0, n, &pv) {
            let st = skip_start(&v, t0 + pv.len(), n, CharClass::SlashOrBang);
            assert(t.skip(pv@.len() as int) =~= s.subrange(t0 + pv@.len(), n as int));
            assert(line_rest(t, ps[i as int]) == Some(s.subrange(st as int, n as int)));
            match best {
                Some(b) => {
                    if n - b <= n - st {
                    } else {
                        best = Some(st);
                    }
                },
                None => {
                    best = Some(st);
                },
            }
        }
        i = i + 1;
    }
    let start = match best {
        Some(b) => b,
        None => t0,
    };
    let lo = skip_start(&v, start, n, CharClass::Space);
    let hi = skip_end(&v, lo, n, CharClass::Space);
    proof {
        lemma_trim_window(s, start as int, lo as int, n as int, hi as int);
    }
    text.substring_char(lo, hi)
}

/// Whether `body` opens with `tag`, then `:`, then a reason that is not blank.
pub open spec fn tagged_by(body: Seq<char>, tag: Seq<char>) -> bool {
    match strip_prefix(body, tag) {
        Some(rest) => match strip_prefix(rest, seq![':']) {
            Some(reason) => !all_ws(reason),
            None => false,
        },
        None => false,
    }
}

pub open spec fn spec_is_tagged(body: Seq<char>, tags: Seq<Seq<char>>) -> bool {
    exists|i: int| 0 <= i < tags.len() && tagged_by(body, #[trigger] tags[i])
}

fn tagged_by_exec(bv: &Vec<char>, tag: &str) -> (r: bool)
    ensures
        r == tagged_by(bv@, tag@),
{
    let tv = chars_of(tag);
    let n = bv.len();
    assert(bv@.subrange(0, n as int) =~= bv@);
    if !window_starts_with(bv, 0, n, &tv) {
        return false;
    }
    let k = tv.len();
    let ghost rest = bv@.skip(k as int);
    assert(strip_prefix(bv@, tag@) == Some(rest));
    if k >= n {
        assert(rest.len() == 0);
        return false;
    }
    if bv[k] != ':' {
        assert(rest[0] == bv@[k as int]);
        assert(rest.subrange(0, 1)[0] != seq![':'][0]);
        return false;
    }
    assert(rest.subrange(0, 1) =~= seq![':']);
    let ghost reason = rest.skip(1);
    assert(strip_prefix(rest, seq![':']) == Some(reason));
    assert(reason =~= bv@.subrange(k + 1, n as int));
    let mut j = k + 1;
    while j < n
        invariant
            k + 1 <= j <= n == bv@.len(),
            reason == bv@.subrange(k + 1, n as int),
            strip_prefix(bv@, tag@) == Some(rest),
            strip_prefix(rest, seq![':']) == Some(reason),
            forall|m: int| k + 1 <= m < j ==> is_ws(#[trigger] bv@[m]),
        decreases n - j,
    {
        if !char_is_ws(bv[j]) {
            assert(reason[j - k - 1] == bv@[j as int]);
            assert(!all_ws(reason));
            return true;
        }
        j = j + 1;
    }
    assert(all_ws(reason)) by {
        assert forall|m: int| 0 <= m < reason.len() implies is_ws(#[trigger] reason[m]) by {
            assert(reason[m] == bv@[k + 1 + m]);
        }
    }
    false
}

/// Whether `body` opens with one of `tags`, a `:` and a non-blank reason.
pub fn is_tagged(body: &str, tags: &[String]) -> (r: bool)
    ensures
        r == spec_is_tagged(body@, strings_view(tags@)),
{
    let bv = chars_of(body);
    let ghost ts = strings_view(tags@);
    let mut i: usize = 0;
    while i < tags.len()
        invariant
            i <= tags@.len(),
            bv@ == body@,
            ts == strings_view(tags@),
            forall|j: int| 0 <= j < i ==> !tagged_by(body@, #[trigger] ts[j]),
        decreases tags@.len() - i,
    {
        if tagged_by_exec(&bv, tags[i].as_str()) {
            assert(tagged_by(body@, ts[i as int]));
            return true;
        }
        i = i + 1;
    }
    false
}

/// End of the run of non-whitespace characters of `t` that starts at `i`.
pub open spec fn word_end(t: Seq<char>, i: int) -> int
    decreases t.len() - i,
{
    if 0 <= i < t.len() && !is_ws(t[i]) {
        word_end(t, i + 1)
    } else {
        i
    }
}

/// `s.split_whitespace().next().unwrap_or("")`.
pub open spec fn first_word(s: Seq<char>) -> Seq<char> {
    let t = trim_start(s);
    t.take(word_end(t, 0))
}

/// The first words that mark a linter or formatter directive.
pub open spec fn directive_words() -> Seq<Seq<char>> {
    seq![
        "shellcheck"@,
        "swiftlint:disable"@,
        "swiftlint:enable"@,
        "eslint-disable"@,
        "eslint-enable"@,
        "eslint-disable-line"@,
        "eslint-disable-next-line"@,
        "eslint"@,
        "prettier-ignore"@,
        "@ts-ignore"@,
        "@ts-expect-error"@,
        "@ts-nocheck"@,
        "rubocop:disable"@,
        "rubocop:enable"@,
        "stylelint-disable"@,
        "stylelint-enable"@,
        "stylelint-disable-line"@,
        "stylelint-disable-next-line"@,
    ]
}

/// The webpack magic-comment keys that a bundler reads.
pub open spec fn webpack_magic_keys() -> Seq<Seq<char>> {
    seq![
        "webpackChunkName:"@,
        "webpackPrefetch:"@,
        "webpackPreload:"@,
        "webpackIgnore:"@,
        "webpackMode:"@,
        "webpackExports:"@,
        "webpackInclude:"@,
        "webpackExclude:"@,
    ]
}

/// Whether a comment body is a directive that a tool reads.
pub open spec fn spec_is_directive(body: Seq<char>) -> bool {
    let first = first_word(body);
    ||| directive_words().contains(first)
    ||| "swift-tools-version:"@.is_prefix_of(body)
    ||| "clippy::"@.is_prefix_of(body)
    ||| "frozen_string_literal:"@.is_prefix_of(body)
    ||| first == "clippy"@
    ||| ("-*-"@.is_prefix_of(body) && contains_seq(body, "coding:"@))
    ||| (exists|k: int| 0 <= k < webpack_magic_keys().len() && #[trigger] webpack_magic_keys()[k].is_prefix_of(body))
    ||| spec_is_eslint_globals(body)
}

fn directive_word_list() -> (r: &'static [&'static str])
    ensures
        strs_view(r@) == directive_words(),
{
    let r: &'static [&'static str] = &[
        "shellcheck",
        "swiftlint:disable",
        "swiftlint:enable",
        "eslint-disable",
        "eslint-enable",
        "eslint-disable-line",
        "eslint-disable-next-line",
        "eslint",
        "prettier-ignore",
        "@ts-ignore",
        "@ts-expect-error",
        "@ts-nocheck",
        "rubocop:disable",
        "rubocop:enable",
        "stylelint-disable",
        "stylelint-enable",
        "stylelint-disable-line",
        "stylelint-disable-next-line",
    ];
    assert(strs_view(r@) =~= directive_words());
    r
}

fn webpack_key_list() -> (r: &'static [&'static str])
    ensures
        strs_view(r@) == webpack_magic_keys(),
{
    let r: &'static [&'static str] = &[
        "webpackChunkName:",
        "webpackPrefetch:",
        "webpackPreload:",
        "webpackIgnore:",
        "webpackMode:",
        "webpackExports:",
        "webpackInclude:",
        "webpackExclude:",
    ];
    assert(strs_view(r@) =~= webpack_magic_keys());
    r
}

/// Whether a comment body is a directive that a linter, formatter, compiler or
/// bundler reads, and so must survive untagged.
pub fn is_directive(body: &str) -> (r: bool)
    ensures
        r == spec_is_directive(body@),
{
    let bv = chars_of(body);
    let n = bv.len();
    let ghost s = bv@;
    assert(s.subrange(0, n as int) =~= s);
    let lo = skip_start(&bv, 0, n, CharClass::Space);
    let ghost t = s.subrange(lo as int, n as int);
    let mut hi = lo;
    while hi < n && !char_is_ws(bv[hi])
        invariant
            lo <= hi <= n == s.len(),
            s == bv@,
            t == s.subrange(lo as int, n as int),
            word_end(t, 0) == word_end(t, hi - lo),
        decreases n - hi,
    {
        hi = hi + 1;
    }
    assert(first_word(body@) =~= s.subrange(lo as int, hi as int));
    let words = directive_word_list();
    let mut i: usize = 0;
    while i < words.len()
        invariant
            i <= words@.len(),
            strs_view(words@) == directive_words(),
            lo <= hi <= n == s.len(),
            s == bv@,
            first_word(body@) == s.subrange(lo as int, hi as int),
            forall|j: int| 0 <= j < i ==> directive_words()[j] != first_word(body@),
        decreases words@.len() - i,
    {
        let wv = chars_of(words[i]);
        assert(wv@ == directive_words()[i as int]);
        assert(wv@.subrange(0, wv@.len() as int) =~= wv@);
        if windows_equal(&bv, lo, hi, &wv, 0, wv.len()) {
            assert(directive_words()[i as int] == first_word(body@));
            return true;
        }
        i = i + 1;
    }
    assert(!directive_words().contains(first_word(body@)));
    if str_starts_with(body, "swift-tools-version:") || str_starts_with(body, "clippy::")
        || str_starts_with(body, "frozen_string_literal:") {
        return true;
    }
    let clippy = chars_of("clippy");
    assert(clippy@.subrange(0, clippy@.len() as int) =~= clippy@);
    if windows_equal(&bv, lo, hi, &clippy, 0, clippy.len()) {
        return true;
    }
    if str_starts_with(body, "-*-") {
        let coding = chars_of("coding:");
        if window_contains(&bv, 0, n, &coding) {
            return true;
        }
    }
    let keys = webpack_key_list();
    let mut k: usize = 0;
    while k < keys.len()
        invariant
            k <= keys@.len(),
            keys@.len() == webpack_magic_keys().len(),
            strs_view(keys@) == webpack_magic_keys(),
            forall|j: int| 0 <= j < k ==> !(#[trigger] webpack_magic_keys()[j]).is_prefix_of(body@),
        decreases keys@.len() - k,
    {
        if str_starts_with(body, keys[k]) {
            assert(webpack_magic_keys()[k as int].is_prefix_of(body@));
            return true;
        }
        k = k + 1;
    }
    is_eslint_globals(body)
}

/// The end of the comma-free segment of `s` that starts at `i`.
pub open spec fn seg_end(s: Seq<char>, i: int) -> int
    decreases s.len() - i,
{
    if 0 <= i < s.len() && s[i] != ',' {
        seg_end(s, i + 1)
    } else {
        i
    }
}

/// Whether `i` starts one of the pieces of `s.split(',')`.
pub open spec fn is_seg_start(s: Seq<char>, i: int) -> bool {
    i == 0 || (0 < i <= s.len() && s[i - 1] == ',')
}

/// The piece of `s.split(',')` that starts at `i`.
pub open spec fn seg_at(s: Seq<char>, i: int) -> Seq<char> {
    s.subrange(i, seg_end(s, i))
}

/// The part of `e` before its first `:` (`e.split(':').next()`).
pub open spec fn before_colon(e: Seq<char>) -> Seq<char>
    decreases e.len(),
{
    if e.len() > 0 && e[0] != ':' {
        seq![e[0]] + before_colon(e.drop_first())
    } else {
        Seq::empty()
    }
}

/// `char::is_alphanumeric`, which tests the Unicode `Alphabetic` and `Numeric`
/// properties.
pub uninterp spec fn char_alphanumeric(c: char) -> bool;

/// `char::is_alphanumeric`. Contract: the result is the named property.
#[verifier::external_body]
fn is_alphanumeric(c: char) -> (r: bool)
    ensures
        r == char_alphanumeric(c),
{
    c.is_alphanumeric()
}

/// An ASCII letter or digit.
pub open spec fn ascii_alphanumeric(c: char) -> bool {
    ('a' <= c && c <= 'z') || ('A' <= c && c <= 'Z') || ('0' <= c && c <= '9')
}

/// Whether `c` is a letter or a digit: on ASCII, the ASCII letters and
/// digits; beyond it, the Unicode properties that `char::is_alphanumeric`
/// tests.
pub open spec fn alphanumeric(c: char) -> bool {
    if (c as u32) < 128 {
        ascii_alphanumeric(c)
    } else {
        char_alphanumeric(c)
    }
}

fn alphanumeric_exec(c: char) -> (r: bool)
    ensures
        r == alphanumeric(c),
{
    if (c as u32) < 128 {
        ('a' <= c && c <= 'z') || ('A' <= c && c <= 'Z') || ('0' <= c && c <= '9')
    } else {
        is_alphanumeric(c)
    }
}

/// A character that may stand in an identifier of a `global` list.
pub open spec fn ident_char(c: char) -> bool {
    alphanumeric(c) || c == '_' || c == '$'
}

pub open spec fn is_identifier(name: Seq<char>) -> bool {
    name.len() > 0 && forall|i: int| 0 <= i < name.len() ==> ident_char(#[trigger] name[i])
}

/// Whether an entry of a `global` list is blank or names an identifier.
pub open spec fn entry_ok(e: Seq<char>) -> bool {
    let e = trim(e);
    e.len() == 0 || is_identifier(trim(before_colon(e)))
}

/// The identifier list after `global ` / `globals `, if the body opens so.
pub open spec fn globals_list(body: Seq<char>) -> Option<Seq<char>> {
    match strip_prefix(body, "global "@) {
        Some(rest) => Some(rest),
        None => strip_prefix(body, "globals "@),
    }
}

/// An ESLint `global`/`globals` declaration: a non-empty comma-separated list
/// of identifiers, each optionally followed by `:` and a setting.
pub open spec fn spec_is_eslint_globals(body: Seq<char>) -> bool {
    match globals_list(body) {
        Some(rest) => {
            &&& forall|i: int| is_seg_start(rest, i) ==> entry_ok(#[trigger] seg_at(rest, i))
            &&& exists|i: int| is_seg_start(rest, i) && trim(#[trigger] seg_at(rest, i)).len() > 0
        },
        None => false,
    }
}

proof fn lemma_seg_end_bounds(s: Seq<char>, i: int)
    requires
        0 <= i <= s.len(),
    ensures
        i <= seg_end(s, i) <= s.len(),
        seg_end(s, i) < s.len() ==> s[seg_end(s, i)] == ',',
        forall|k: int| i <= k < seg_end(s, i) ==> s[k] != ',',
    decreases s.len() - i,
{
    if i < s.len() && s[i] != ',' {
        lemma_seg_end_bounds(s, i + 1);
    }
}

fn seg_end_exec(v: &Vec<char>, lo: usize, i: usize) -> (r: usize)
    requires
        lo <= i <= v@.len(),
    ensures
        r == lo + seg_end(v@.subrange(lo as int, v@.len() as int), i - lo),
        i <= r <= v@.len(),
{
    let ghost s = v@.subrange(lo as int, v@.len() as int);
    let mut j = i;
    while j < v.len() && v[j] != ','
        invariant
            i <= j <= v@.len(),
            lo <= i,
            s == v@.subrange(lo as int, v@.len() as int),
            seg_end(s, i - lo) == seg_end(s, j - lo),
        decreases v@.len() - j,
    {
        j = j + 1;
    }
    j
}

fn before_colon_end(v: &Vec<char>, lo: usize, hi: usize) -> (r: usize)
    requires
        lo <= hi <= v@.len(),
    ensures
        lo <= r <= hi,
        v@.subrange(lo as int, r as int) == before_colon(v@.subrange(lo as int, hi as int)),
    decreases hi - lo,
{
    if lo < hi && v[lo] != ':' {
        let r = before_colon_end(v, lo + 1, hi);
        assert(v@.subrange(lo as int, hi as int).drop_first() =~= v@.subrange(lo + 1, hi as int));
        assert(v@.subrange(lo as int, r as int) =~= seq![v@[lo as int]] + v@.subrange(
            lo + 1,
            r as int,
        ));
        r
    } else {
        assert(v@.subrange(lo as int, lo as int) =~= Seq::<char>::empty());
        lo
    }
}

fn identifier_window(v: &Vec<char>, lo: usize, hi: usize) -> (r: bool)
    requires
        lo <= hi <= v@.len(),
    ensures
        r == is_identifier(v@.subrange(lo as int, hi as int)),
{
    if lo == hi {
        return false;
    }
    let mut i = lo;
    while i < hi
        invariant
            lo <= i <= hi <= v@.len(),
            forall|j: int| lo <= j < i ==> ident_char(#[trigger] v@[j]),
        decreases hi - i,
    {
        let c = v[i];
        if !(alphanumeric_exec(c) || c == '_' || c == '$') {
            assert(!ident_char(v@.subrange(lo as int, hi as int)[i - lo]));
            return false;
        }
        i = i + 1;
    }
    assert forall|j: int| 0 <= j < hi - lo implies ident_char(
        #[trigger] v@.subrange(lo as int, hi as int)[j],
    ) by {
        assert(v@.subrange(lo as int, hi as int)[j] == v@[lo + j]);
    }
    true
}

/// Checks one `global` list entry `v[lo..hi]`: returns whether it is blank and
/// whether it is acceptable.
fn check_entry(v: &Vec<char>, lo: usize, hi: usize) -> (r: (bool, bool))
    requires
        lo <= hi <= v@.len(),
    ensures
        r.0 == (trim(v@.subrange(lo as int, hi as int)).len() == 0),
        r.1 == entry_ok(v@.subrange(lo as int, hi as int)),
{
    let a = skip_start(v, lo, hi, CharClass::Space);
    let b = skip_end(v, a, hi, CharClass::Space);
    proof {
        lemma_trim_window(v@, lo as int, a as int, hi as int, b as int);
    }
    if a == b {
        return (true, true);
    }
    let c = before_colon_end(v, a, b);
    let na = skip_start(v, a, c, CharClass::Space);
    let nb = skip_end(v, na, c, CharClass::Space);
    proof {
        lemma_trim_window(v@, a as int, na as int, c as int, nb as int);
    }
    (false, identifier_window(v, na, nb))
}

fn is_eslint_globals(body: &str) -> (r: bool)
    ensures
        r == spec_is_eslint_globals(body@),
{
    let bv = chars_of(body);
    let n = bv.len();
    let ghost s = bv@;
    assert(s.subrange(0, n as int) =~= s);
    let g1 = chars_of("global ");
    let g2 = chars_of("globals ");
    let lo: usize = if window_starts_with(&bv, 0, n, &g1) {
        g1.len()
    } else if window_starts_with(&bv, 0, n, &g2) {
        g2.len()
    } else {
        return false;
    };
    assert(lo <= n);
    let ghost rest = s.subrange(lo as int, n as int);
    assert(globals_list(body@) == Some(rest));
    let mut named = false;
    let mut p = lo;
    loop
        invariant
            lo <= p <= n == s.len(),
            s == bv@,
            rest == s.subrange(lo as int, n as int),
            globals_list(body@) == Some(rest),
            is_seg_start(rest, p - lo),
            forall|i: int| #![trigger seg_at(rest, i)] 0 <= i < p - lo && is_seg_start(rest, i) ==> entry_ok(seg_at(rest, i)),
            named == exists|i: int| #![trigger seg_at(rest, i)] 0 <= i < p - lo && is_seg_start(rest, i) && trim(seg_at(rest, i)).len() > 0,
        decreases n - p,
    {
        let e = seg_end_exec(&bv, lo, p);
        proof {
            lemma_seg_end_bounds(rest, p - lo);
            assert(e - lo == seg_end(rest, p - lo));
            assert(rest.len() == n - lo);
            assert(p - lo <= e - lo <= rest.len());
            assert forall|j: int| 0 <= j < e - p implies #[trigger] rest.subrange(p - lo, e - lo)[j] == s.subrange(p as int, e as int)[j] by {
                assert(rest[p - lo + j] == s[p + j]);
            }
            assert(rest.subrange(p - lo, e - lo) =~= s.subrange(p as int, e as int));
            assert(seg_at(rest, p - lo) == rest.subrange(p - lo, e - lo));
        }
        let (blank, ok) = check_entry(&bv, p, e);
        if !ok {
            assert(!entry_ok(seg_at(rest, p - lo)));
            return false;
        }
        let ghost named_before = named;
        if !blank {
            named = true;
        }
        proof {
            if named {
                if named_before {
                    let i = choose|i: int| #![trigger seg_at(rest, i)] 0 <= i < p - lo && is_seg_start(rest, i) && trim(seg_at(rest, i)).len() > 0;
                    assert(0 <= i < e + 1 - lo && is_seg_start(rest, i) && trim(seg_at(rest, i)).len() > 0);
                } else {
                    assert(is_seg_start(rest, p - lo) && trim(seg_at(rest, p - lo)).len() > 0);
                }
            }
        }
        if e == n {
            proof {
                assert forall|i: int| is_seg_start(rest, i) implies i <= p - lo by {
                    if i > p - lo {
                        assert(rest[i - 1] != ',');
                    }
                }
                assert forall|i: int| is_seg_start(rest, i) implies entry_ok(#[trigger] seg_at(rest, i)) by {
                    assert(i <= p - lo);
                }
                if !named {
                    assert forall|i: int| is_seg_start(rest, i) implies !(trim(#[trigger] seg_at(rest, i)).len() > 0) by {
                        assert(i <= p - lo);
                        if i < p - lo {
                            assert(!(0 <= i < p - lo && is_seg_start(rest, i) && trim(seg_at(rest, i)).len() > 0));
                        }
                    }
                    assert(!spec_is_eslint_globals(body@));
                } else {
                    assert(exists|i: int| is_seg_start(rest, i) && trim(#[trigger] seg_at(rest, i)).len() > 0);
                    assert(forall|i: int| is_seg_start(rest, i) ==> entry_ok(#[trigger] seg_at(rest, i)));
                    assert(globals_list(body@).unwrap() == rest);
                    assert(spec_is_eslint_globals(body@));
                }
            }
            return named;
        }
        proof {
            assert forall|i: int| #![trigger seg_at(rest, i)] 0 <= i < e + 1 - lo && is_seg_start(rest, i) implies entry_ok(seg_at(rest, i)) by {
                if p - lo < i && i <= e - lo {
                    assert(rest[i - 1] != ',');
                }
            }
            assert(named == exists|i: int| #![trigger seg_at(rest, i)] 0 <= i < e + 1 - lo && is_seg_start(rest, i) && trim(seg_at(rest, i)).len() > 0) by {
                if exists|i: int| #![trigger seg_at(rest, i)] 0 <= i < e + 1 - lo && is_seg_start(rest, i) && trim(seg_at(rest, i)).len() > 0 {
                    let i = choose|i: int| #![trigger seg_at(rest, i)] 0 <= i < e + 1 - lo && is_seg_start(rest, i) && trim(seg_at(rest, i)).len() > 0;
                    if p - lo < i && i <= e - lo {
                        assert(rest[i - 1] != ',');
                    }
                }
            }
        }
        p = e + 1;
    }
}

} // verus!
