//! Judging and stripping: each comment gets a verdict, adjacent line comments
//! form blocks, and the untagged blocks are deleted one by one, each deletion
//! kept only when the code tokens of the file stay byte-identical.
use vstd::prelude::*;

use crate::comment::{
    comment_body, is_directive, is_tagged, spec_comment_body, spec_is_directive, spec_is_tagged,
    Comment, CommentShape, CommentView, Exemption, Placement, Verdict, comments_view,
};
use crate::config::{Config, ConfigView, DocSurfaceView};
use crate::error::WardenError;
use vstd::string::StringSliceAdditionalSpecFns;
use vstd::utf8::{decode_utf8, valid_utf8};
use crate::lang::{lang_row, spec_for, spec_row, LangId};
use crate::text::{
    all_ws, char_is_ws, chars_of, first_line, first_line_end, line_end, line_end_byte, line_start,
    line_start_byte, node_text, skip_end, skip_start, str_starts_with, text_of, trim, trim_start, CharClass,
};

verus! {

/// One or more comments judged and stripped as a unit.
#[derive(Debug, Clone)]
pub struct Block {
    pub start_byte: usize,
    pub end_byte: usize,
    pub start_row: usize,
    pub end_row: usize,
    pub end_col: usize,
    pub placement: Placement,
    pub verdict: Verdict,
    pub first_line: String,
}

pub struct BlockView {
    pub start_byte: int,
    pub end_byte: int,
    pub start_row: int,
    pub end_row: int,
    pub end_col: int,
    pub placement: Placement,
    pub verdict: Verdict,
    pub first_line: Seq<char>,
}

impl View for Block {
    type V = BlockView;

    open spec fn view(&self) -> BlockView {
        BlockView {
            start_byte: self.start_byte as int,
            end_byte: self.end_byte as int,
            start_row: self.start_row as int,
            end_row: self.end_row as int,
            end_col: self.end_col as int,
            placement: self.placement,
            verdict: self.verdict,
            first_line: self.first_line@,
        }
    }
}

pub open spec fn blocks_view(bs: Seq<Block>) -> Seq<BlockView> {
    bs.map_values(|b: Block| b@)
}

/// The language a comment is judged in: bash for a comment of a script
/// embedded in a nix string, else the file's language.
pub open spec fn judged_lang(id: LangId, c: CommentView) -> LangId {
    if c.embedded_script_row is Some {
        LangId::Bash
    } else {
        id
    }
}

/// The row of a comment counted from the start of its script.
pub open spec fn effective_row(c: CommentView) -> int {
    match c.embedded_script_row {
        Some(r) => if c.start_row >= r {
            c.start_row - r
        } else {
            0
        },
        None => c.start_row,
    }
}

/// A module doc comment of Rust or Swift (`//!`, `/*!`).
pub open spec fn spec_is_module_doc(id: LangId, text: Seq<char>) -> bool {
    (id == LangId::Rust || id == LangId::Swift) && ("//!"@.is_prefix_of(trim_start(text))
        || "/*!"@.is_prefix_of(trim_start(text)))
}

/// Some doc-surface rule for `lang` names an attribute that encloses `c`.
pub open spec fn spec_doc_surface_matches(lang: LangId, c: CommentView, cfg: ConfigView) -> bool {
    exists|k: int, w: int|
        #![trigger cfg.doc_surface[k].item_attributes[w]]
        0 <= k < cfg.doc_surface.len() && cfg.doc_surface[k].lang == lang && 0 <= w
            < cfg.doc_surface[k].item_attributes.len()
            && c.enclosing_attributes.contains(cfg.doc_surface[k].item_attributes[w])
}

pub open spec fn matches_exempt(cfg: ConfigView, body: Seq<char>) -> bool {
    exists|k: int| 0 <= k < cfg.exempt_patterns.len() && #[trigger] cfg.exempt_patterns[k].is_prefix_of(body)
}

/// The verdict on a comment.
pub open spec fn spec_verdict(id: LangId, c: CommentView, is_test_target: bool, cfg: ConfigView) -> Verdict {
    let lang = judged_lang(id, c);
    let row = lang_row(lang);
    let body = spec_comment_body(c.text, row.line_prefixes, row.block_open, row.block_close);
    if effective_row(c) == 0 && "#!"@.is_prefix_of(c.text) {
        Verdict::Exempt(Exemption::Shebang)
    } else if c.in_macro {
        Verdict::Exempt(Exemption::DocSurface)
    } else if spec_is_directive(body) || matches_exempt(cfg, body) {
        Verdict::Exempt(Exemption::Directive)
    } else if spec_is_tagged(body, cfg.tags) {
        Verdict::Tagged
    } else if !is_test_target && spec_is_module_doc(lang, c.text) {
        Verdict::Exempt(Exemption::ModuleDoc)
    } else if c.is_doc && !is_test_target && spec_doc_surface_matches(lang, c, cfg) {
        Verdict::Exempt(Exemption::DocSurface)
    } else {
        Verdict::Untagged
    }
}

/// Where a comment stands: after code on its line, before code on its line,
/// or alone. A comment that ends at column 0 has taken its newline and so
/// ends its line.
pub open spec fn spec_placement(src: Seq<u8>, c: CommentView) -> Placement {
    let code_before = !all_ws(node_text(src, line_start(src, c.start_byte), c.start_byte));
    let code_after = if c.end_col == 0 {
        false
    } else {
        !all_ws(node_text(src, c.end_byte, line_end(src, c.end_byte)))
    };
    if code_before {
        Placement::Trailing
    } else if code_after {
        Placement::LeadingInline
    } else {
        Placement::WholeLine
    }
}

/// The row after a comment: the one it ends on when it took its newline.
pub open spec fn spec_row_after(end_row: int, end_col: int) -> int {
    if end_col == 0 {
        end_row
    } else {
        end_row + 1
    }
}

/// Only whitespace stands between comment `a` and the later comment `b`.
pub open spec fn spec_no_code_between(src: Seq<u8>, a: CommentView, b: CommentView) -> bool {
    a.end_byte <= b.start_byte && all_ws(node_text(src, a.end_byte, b.start_byte))
}

/// Every comment lies within the text.
pub open spec fn spans_in(src: Seq<u8>, cs: Seq<CommentView>) -> bool {
    forall|k: int| 0 <= k < cs.len() ==> 0 <= #[trigger] cs[k].start_byte <= cs[k].end_byte <= src.len()
}

/// Comment `j` continues the run that comment `first` opened, right after `prev`.
pub open spec fn continues_run(src: Seq<u8>, cs: Seq<CommentView>, vs: Seq<Verdict>, first: int, prev: int, j: int) -> bool {
    &&& vs[j] == Verdict::Untagged
    &&& cs[j].shape == CommentShape::Line
    &&& cs[j].start_col == cs[first].start_col
    &&& cs[j].start_row == spec_row_after(cs[prev].end_row, cs[prev].end_col)
    &&& cs[j].is_doc == cs[first].is_doc
    &&& spec_placement(src, cs[j]) == Placement::WholeLine
    &&& spec_no_code_between(src, cs[prev], cs[j])
}

/// Where the run that `first` opened ends, checking from comment `j` on.
pub open spec fn run_end(src: Seq<u8>, cs: Seq<CommentView>, vs: Seq<Verdict>, first: int, j: int) -> int
    decreases cs.len() - j,
{
    if 0 < j < cs.len() && continues_run(src, cs, vs, first, j - 1, j) {
        run_end(src, cs, vs, first, j + 1)
    } else {
        j
    }
}

/// Comment `i` may lead a block of several lines: an untagged or tagged line
/// comment alone on its line, and no shebang.
pub open spec fn opens_run(src: Seq<u8>, cs: Seq<CommentView>, vs: Seq<Verdict>, i: int) -> bool {
    &&& !(cs[i].start_row == 0 && "#!"@.is_prefix_of(cs[i].text))
    &&& cs[i].shape == CommentShape::Line
    &&& spec_placement(src, cs[i]) == Placement::WholeLine
    &&& (vs[i] == Verdict::Untagged || vs[i] == Verdict::Tagged)
}

/// The block from comment `first` to comment `last`, with the verdict of its
/// leader.
pub open spec fn spec_make_block(src: Seq<u8>, first: CommentView, last: CommentView, verdict: Verdict) -> BlockView {
    BlockView {
        start_byte: first.start_byte,
        end_byte: last.end_byte,
        start_row: first.start_row,
        end_row: last.end_row,
        end_col: last.end_col,
        placement: spec_placement(src, first),
        verdict,
        first_line: trim(first_line(first.text)),
    }
}

/// The blocks of the comments from index `i` on.
pub open spec fn blocks_from(src: Seq<u8>, cs: Seq<CommentView>, vs: Seq<Verdict>, i: int) -> Seq<BlockView>
    decreases cs.len() - i,
{
    if i < 0 || i >= cs.len() {
        Seq::empty()
    } else {
        let e = if opens_run(src, cs, vs, i) {
            run_end(src, cs, vs, i, i + 1)
        } else {
            i + 1
        };
        if i < e <= cs.len() {
            seq![spec_make_block(src, cs[i], cs[e - 1], vs[i])] + blocks_from(src, cs, vs, e)
        } else {
            Seq::empty()
        }
    }
}

pub open spec fn verdicts(id: LangId, cs: Seq<CommentView>, is_test_target: bool, cfg: ConfigView) -> Seq<Verdict> {
    Seq::new(cs.len(), |k: int| spec_verdict(id, cs[k], is_test_target, cfg))
}

/// The blocks of a file's comments.
pub open spec fn spec_blocks(id: LangId, src: Seq<u8>, cs: Seq<CommentView>, is_test_target: bool, cfg: ConfigView) -> Seq<BlockView> {
    blocks_from(src, cs, verdicts(id, cs, is_test_target, cfg), 0)
}

/// Whether the text of `src[lo..hi]` is all whitespace.
fn blank_text(src: &[u8], lo: usize, hi: usize) -> (r: bool)
    requires
        lo <= hi <= src@.len(),
    ensures
        r == all_ws(node_text(src@, lo as int, hi as int)),
{
    let t = text_of(src, lo, hi);
    let v = chars_of(t.as_str());
    let mut k: usize = 0;
    while k < v.len()
        invariant
            k <= v@.len(),
            v@ == node_text(src@, lo as int, hi as int),
            forall|m: int| 0 <= m < k ==> crate::text::is_ws(#[trigger] v@[m]),
        decreases v@.len() - k,
    {
        if !char_is_ws(v[k]) {
            return false;
        }
        k = k + 1;
    }
    true
}

/// Where comment `c` stands relative to the code on its line(s).
pub fn placement_of(src: &[u8], c: &Comment) -> (r: Placement)
    requires
        c.start_byte <= c.end_byte <= src@.len(),
    ensures
        r == spec_placement(src@, c@),
{
    let ls = line_start_byte(src, c.start_byte);
    let code_before = !blank_text(src, ls, c.start_byte);
    let code_after = if c.end_col == 0 {
        false
    } else {
        let le = line_end_byte(src, c.end_byte);
        !blank_text(src, c.end_byte, le)
    };
    if code_before {
        Placement::Trailing
    } else if code_after {
        Placement::LeadingInline
    } else {
        Placement::WholeLine
    }
}

/// The row after a comment that ends at `(end_row, end_col)`.
pub fn row_after(end_row: usize, end_col: usize) -> (r: Option<usize>)
    ensures
        match r {
            Some(v) => v == spec_row_after(end_row as int, end_col as int),
            None => spec_row_after(end_row as int, end_col as int) > usize::MAX,
        },
{
    if end_col == 0 {
        Some(end_row)
    } else {
        end_row.checked_add(1)
    }
}

/// Whether only whitespace stands between comment `a` and comment `b`.
fn no_code_between(src: &[u8], a: &Comment, b: &Comment) -> (r: bool)
    requires
        b.start_byte <= src@.len(),
    ensures
        r == spec_no_code_between(src@, a@, b@),
{
    if a.end_byte > b.start_byte {
        return false;
    }
    blank_text(src, a.end_byte, b.start_byte)
}

/// Whether `id` is Rust or Swift and `text` opens with a module doc opener.
pub fn is_module_doc(id: LangId, text: &str) -> (r: bool)
    ensures
        r == spec_is_module_doc(id, text@),
{
    if !(id == LangId::Rust || id == LangId::Swift) {
        return false;
    }
    let v = chars_of(text);
    let n = v.len();
    assert(v@.subrange(0, n as int) =~= v@);
    let a = skip_start(&v, 0, n, CharClass::Space);
    let bang = chars_of("//!");
    let star = chars_of("/*!");
    window_prefix(&v, a, n, &bang) || window_prefix(&v, a, n, &star)
}

fn window_prefix(v: &Vec<char>, lo: usize, hi: usize, p: &Vec<char>) -> (r: bool)
    requires
        lo <= hi <= v@.len(),
    ensures
        r == p@.is_prefix_of(v@.subrange(lo as int, hi as int)),
{
    crate::text::window_starts_with(v, lo, hi, p)
}

/// Whether a doc-surface rule for `lang` names an attribute that encloses `c`.
pub fn doc_surface_matches(lang: LangId, c: &Comment, config: &Config) -> (r: bool)
    ensures
        r == spec_doc_surface_matches(lang, c@, config@),
{
    let rules = config.doc_surface_for(lang);
    let ghost all = config@.doc_surface;
    let ghost fr = all.filter(|d: DocSurfaceView| d.lang == lang);
    let ghost rv = rules@.map_values(|x: &crate::config::DocSurfaceRule| x@);
    let mut k: usize = 0;
    while k < rules.len()
        invariant
            rv == rules@.map_values(|x: &crate::config::DocSurfaceRule| x@),
            rv == fr,
            fr == all.filter(|d: DocSurfaceView| d.lang == lang),
            all == config@.doc_surface,
            k <= rules@.len(),
            forall|m: int, w: int| 0 <= m < k && 0 <= w < fr[m].item_attributes.len() ==> !c@.enclosing_attributes.contains(#[trigger] fr[m].item_attributes[w]),
        decreases rules@.len() - k,
    {
        let rule = rules[k];
        assert(rv[k as int] == rule@);
        let mut w: usize = 0;
        while w < rule.item_attributes.len()
            invariant
                rv == rules@.map_values(|x: &crate::config::DocSurfaceRule| x@),
                rv == fr,
                fr == all.filter(|d: DocSurfaceView| d.lang == lang),
                all == config@.doc_surface,
                k < rules@.len(),
                rule == rules@[k as int],
                w <= rule.item_attributes@.len(),
                forall|x: int| 0 <= x < w ==> !c@.enclosing_attributes.contains(#[trigger] fr[k as int].item_attributes[x]),
            decreases rule.item_attributes@.len() - w,
        {
            let want = &rule.item_attributes[w];
            assert(fr[k as int].item_attributes[w as int] == want@);
            let mut h: usize = 0;
            while h < c.enclosing_attributes.len()
                invariant
                    rv == rules@.map_values(|x: &crate::config::DocSurfaceRule| x@),
                    rv == fr,
                    fr == all.filter(|d: DocSurfaceView| d.lang == lang),
                    all == config@.doc_surface,
                    k < rules@.len(),
                    rule == rules@[k as int],
                    w < rule.item_attributes@.len(),
                    fr[k as int].item_attributes[w as int] == want@,
                    h <= c.enclosing_attributes@.len(),
                    forall|y: int| 0 <= y < h ==> (#[trigger] c@.enclosing_attributes[y]) != want@,
                decreases c.enclosing_attributes@.len() - h,
            {
                if crate::text::str_eq(c.enclosing_attributes[h].as_str(), want.as_str()) {
                    proof {
                        let p = |d: DocSurfaceView| d.lang == lang;
                        assert(c@.enclosing_attributes[h as int] == want@);
                        assert(c@.enclosing_attributes.contains(want@));
                        all.lemma_filter_pred(p, k as int);
                        assert(fr.contains(fr[k as int]));
                        all.lemma_filter_contains_rev(p, fr[k as int]);
                        let kk = choose|kk: int| 0 <= kk < all.len() && all[kk] == fr[k as int];
                        assert(all[kk].item_attributes[w as int] == want@);
                        assert(config@.doc_surface[kk].item_attributes[w as int] == want@);
                    }
                    return true;
                }
                h = h + 1;
            }
            w = w + 1;
        }
        k = k + 1;
    }
    proof {
        let p = |d: DocSurfaceView| d.lang == lang;
        assert forall|kk: int, ww: int|
            0 <= kk < all.len() && all[kk].lang == lang && 0 <= ww < all[kk].item_attributes.len()
            implies !c@.enclosing_attributes.contains(#[trigger] all[kk].item_attributes[ww]) by {
            all.lemma_filter_contains(p, kk);
            assert(fr.contains(all[kk]));
            let m = choose|m: int| 0 <= m < fr.len() && fr[m] == all[kk];
            assert(!c@.enclosing_attributes.contains(fr[m].item_attributes[ww]));
        }
    }
    false
}

/// The verdict on comment `c`.
pub fn verdict_of(id: LangId, c: &Comment, is_test_target: bool, config: &Config) -> (r: Verdict)
    ensures
        r == spec_verdict(id, c@, is_test_target, config@),
{
    let lang = match c.embedded_script_row {
        Some(_) => LangId::Bash,
        None => id,
    };
    let effective = match c.embedded_script_row {
        Some(sr) => if c.start_row >= sr {
            c.start_row - sr
        } else {
            0
        },
        None => c.start_row,
    };
    let spec = spec_for(lang);
    if effective == 0 && str_starts_with(c.text.as_str(), "#!") {
        return Verdict::Exempt(Exemption::Shebang);
    }
    if c.in_macro {
        return Verdict::Exempt(Exemption::DocSurface);
    }
    let body = comment_body(c.text.as_str(), spec.line_prefixes, spec.block_open, spec.block_close);
    if is_directive(body) || config.matches_exempt_pattern(body) {
        return Verdict::Exempt(Exemption::Directive);
    }
    if is_tagged(body, config.tags()) {
        return Verdict::Tagged;
    }
    if !is_test_target && is_module_doc(lang, c.text.as_str()) {
        return Verdict::Exempt(Exemption::ModuleDoc);
    }
    if c.is_doc && !is_test_target && doc_surface_matches(lang, c, config) {
        return Verdict::Exempt(Exemption::DocSurface);
    }
    Verdict::Untagged
}

/// The text of the first line of `text`, trimmed.
fn first_line_trimmed(text: &str) -> (r: String)
    ensures
        r@ == trim(first_line(text@)),
{
    let v = chars_of(text);
    let e = first_line_end(&v);
    let a = skip_start(&v, 0, e, CharClass::Space);
    let b = skip_end(&v, a, e, CharClass::Space);
    assert(v@.subrange(a as int, b as int) == trim(v@.subrange(0, e as int)));
    crate::parse::window_of(text, &v, a, b)
}

/// The block from comment `first` to comment `last`, with `verdict`.
pub fn make_block(src: &[u8], first: &Comment, last: &Comment, verdict: Verdict) -> (r: Block)
    requires
        first.start_byte <= first.end_byte <= src@.len(),
    ensures
        r@ == spec_make_block(src@, first@, last@, verdict),
{
    let placement = placement_of(src, first);
    Block {
        start_byte: first.start_byte,
        end_byte: last.end_byte,
        start_row: first.start_row,
        end_row: last.end_row,
        end_col: last.end_col,
        placement,
        verdict,
        first_line: first_line_trimmed(first.text.as_str()),
    }
}

/// Whether comment `j` continues the run that comment `first` opened, right
/// after comment `prev`.
fn continues_run_exec(src: &[u8], cs: &Vec<Comment>, vs: &Vec<Verdict>, first: usize, prev: usize, j: usize) -> (r: bool)
    requires
        first < cs@.len(),
        prev < cs@.len(),
        j < cs@.len(),
        vs@.len() == cs@.len(),
        spans_in(src@, comments_view(cs@)),
    ensures
        r == continues_run(src@, comments_view(cs@), vs@, first as int, prev as int, j as int),
{
    let ghost cv = comments_view(cs@);
    assert(cv[j as int] == cs@[j as int]@);
    assert(cv[prev as int] == cs@[prev as int]@);
    assert(cv[first as int] == cs@[first as int]@);
    let next = &cs[j];
    let p = &cs[prev];
    let f = &cs[first];
    if vs[j] != Verdict::Untagged || next.shape != CommentShape::Line || next.start_col != f.start_col || next.is_doc != f.is_doc {
        return false;
    }
    match row_after(p.end_row, p.end_col) {
        Some(ra) => {
            if next.start_row != ra {
                return false;
            }
        },
        None => return false,
    }
    assert(0 <= cv[j as int].start_byte <= cv[j as int].end_byte <= src@.len());
    if placement_of(src, next) != Placement::WholeLine {
        return false;
    }
    no_code_between(src, p, next)
}

pub(crate) proof fn lemma_run_end_bounds(src: Seq<u8>, cs: Seq<CommentView>, vs: Seq<Verdict>, first: int, j: int)
    requires
        0 < j <= cs.len(),
    ensures
        j <= run_end(src, cs, vs, first, j) <= cs.len(),
    decreases cs.len() - j,
{
    if j < cs.len() && continues_run(src, cs, vs, first, j - 1, j) {
        lemma_run_end_bounds(src, cs, vs, first, j + 1);
    }
}

/// The blocks of `cs`: a line comment alone on its line that is untagged or
/// tagged absorbs the untagged line comments of the same kind directly below
/// it in the same column; every other comment is a block of its own.
pub fn build_blocks(id: LangId, src: &[u8], cs: &Vec<Comment>, is_test_target: bool, config: &Config) -> (r: Vec<Block>)
    requires
        spans_in(src@, comments_view(cs@)),
    ensures
        blocks_view(r@) == spec_blocks(id, src@, comments_view(cs@), is_test_target, config@),
{
    let ghost cv = comments_view(cs@);
    let n = cs.len();
    let mut vs: Vec<Verdict> = Vec::new();
    let mut k: usize = 0;
    while k < n
        invariant
            n == cs@.len(),
            cv == comments_view(cs@),
            k <= n,
            vs@.len() == k,
            forall|m: int| 0 <= m < k ==> #[trigger] vs@[m] == spec_verdict(id, cv[m], is_test_target, config@),
        decreases n - k,
    {
        assert(cv[k as int] == cs@[k as int]@);
        vs.push(verdict_of(id, &cs[k], is_test_target, config));
        k = k + 1;
    }
    assert(vs@ =~= verdicts(id, cv, is_test_target, config@));
    let ghost vv = vs@;
    let mut blocks: Vec<Block> = Vec::new();
    let mut i: usize = 0;
    while i < n
        invariant
            n == cs@.len() == vs@.len(),
            cv == comments_view(cs@),
            vv == vs@,
            spans_in(src@, cv),
            i <= n,
            blocks_view(blocks@) + blocks_from(src@, cv, vv, i as int) == blocks_from(src@, cv, vv, 0),
        decreases n - i,
    {
        assert(cv[i as int] == cs@[i as int]@);
        let first = &cs[i];
        let is_shebang = first.start_row == 0 && str_starts_with(first.text.as_str(), "#!");
        let opens = !is_shebang && first.shape == CommentShape::Line && placement_of(src, first) == Placement::WholeLine && (vs[i] == Verdict::Untagged || vs[i] == Verdict::Tagged);
        assert(opens == opens_run(src@, cv, vv, i as int));
        let mut e = i + 1;
        if opens {
            while e < n && continues_run_exec(src, cs, &vs, i, e - 1, e)
                invariant
                    n == cs@.len() == vs@.len(),
                    cv == comments_view(cs@),
                    vv == vs@,
                    spans_in(src@, cv),
                    i < e <= n,
                    run_end(src@, cv, vv, i as int, i + 1) == run_end(src@, cv, vv, i as int, e as int),
                decreases n - e,
            {
                e = e + 1;
            }
        }
        proof {
            lemma_run_end_bounds(src@, cv, vv, i as int, i + 1);
        }
        assert(cv[e - 1] == cs@[e - 1]@);
        let b = make_block(src, &cs[i], &cs[e - 1], vs[i]);
        let ghost b0 = blocks_view(blocks@);
        blocks.push(b);
        assert(blocks_view(blocks@) =~= b0.push(b@));
        assert(blocks_from(src@, cv, vv, i as int) == seq![spec_make_block(src@, cv[i as int], cv[e - 1], vv[i as int])] + blocks_from(src@, cv, vv, e as int));
        assert(blocks_view(blocks@) + blocks_from(src@, cv, vv, e as int) =~= b0 + blocks_from(src@, cv, vv, i as int));
        i = e;
    }
    assert(blocks_view(blocks@) =~= blocks_from(src@, cv, vv, 0));
    blocks
}

/// The number of bytes that encode `c` in UTF-8.
pub open spec fn utf8_len(c: char) -> int {
    let u = c as u32;
    if u < 0x80 {
        1
    } else if u < 0x800 {
        2
    } else if u < 0x10000 {
        3
    } else {
        4
    }
}

/// The number of bytes that encode `s` in UTF-8.
pub open spec fn byte_len(s: Seq<char>) -> int
    decreases s.len(),
{
    if s.len() == 0 {
        0
    } else {
        byte_len(s.drop_last()) + utf8_len(s.last())
    }
}

/// The index of the first non-whitespace character of `s` at or after `i`.
pub open spec fn lead_ws(s: Seq<char>, i: int) -> int
    decreases s.len() - i,
{
    if 0 <= i < s.len() && crate::text::is_ws(s[i]) {
        lead_ws(s, i + 1)
    } else {
        i
    }
}

/// A comment opener of the language starts `rest`.
pub open spec fn opens_comment(row: crate::lang::LangRow, rest: Seq<char>) -> bool {
    crate::gather::any_prefix(row.line_prefixes, rest) || (row.block_open is Some
        && row.block_open.unwrap().is_prefix_of(rest))
}

/// Some block covers row `r`.
pub open spec fn row_covered(blocks: Seq<BlockView>, r: int) -> bool {
    exists|b: int|
        0 <= b < blocks.len() && #[trigger] blocks[b].start_row <= r < spec_row_after(
            blocks[b].end_row,
            blocks[b].end_col,
        )
}

/// Byte `byte` lies in one of the spans.
pub open spec fn in_spans(spans: Seq<(int, int)>, byte: int) -> bool {
    exists|k: int| 0 <= k < spans.len() && #[trigger] spans[k].0 <= byte < spans[k].1
}

/// What the line of `text` from character `p` to `e` (row `r`) reports: a
/// comment opener after its indent, at a byte no grammar read, on a row no
/// block covers, and untagged, reports its row and its text up to the end of
/// the line, trailing whitespace removed.
pub open spec fn line_report(
    text: Seq<char>,
    p: int,
    e: int,
    r: int,
    row: crate::lang::LangRow,
    tags: Seq<Seq<char>>,
    spans: Seq<(int, int)>,
    blocks: Seq<BlockView>,
) -> Option<(int, Seq<char>)> {
    let k = lead_ws(text.subrange(p, e), 0);
    let rest = text.subrange(p + k, e);
    if opens_comment(row, rest) && in_spans(spans, byte_len(text.take(p + k))) && !row_covered(blocks, r)
        && !spec_is_tagged(spec_comment_body(rest, row.line_prefixes, row.block_open, row.block_close), tags) {
        Some((r, crate::text::trim_end(rest)))
    } else {
        None
    }
}

/// The reports of the lines of `text` from the one that starts at character
/// `p` (row `r`) on.
pub open spec fn unclassified_from(
    text: Seq<char>,
    p: int,
    r: int,
    row: crate::lang::LangRow,
    tags: Seq<Seq<char>>,
    spans: Seq<(int, int)>,
    blocks: Seq<BlockView>,
) -> Seq<(int, Seq<char>)>
    decreases text.len() - p,
{
    if p < 0 || p > text.len() {
        Seq::empty()
    } else {
        let e = crate::text::newline_index(text, p);
        let here = match line_report(text, p, e, r, row, tags, spans, blocks) {
            Some(x) => seq![x],
            None => Seq::empty(),
        };
        if p <= e < text.len() {
            here + unclassified_from(text, e + 1, r + 1, row, tags, spans, blocks)
        } else {
            here
        }
    }
}

/// The comment-shaped lines that no grammar read, that no block covers and
/// that carry no tag.
pub open spec fn spec_unclassified(
    id: LangId,
    text: Seq<char>,
    spans: Seq<(int, int)>,
    blocks: Seq<BlockView>,
    cfg: ConfigView,
) -> Seq<(int, Seq<char>)> {
    if spans.len() == 0 {
        Seq::empty()
    } else {
        unclassified_from(text, 0, 0, lang_row(id), cfg.tags, spans, blocks)
    }
}

pub open spec fn rows_view(v: Seq<(usize, String)>) -> Seq<(int, Seq<char>)> {
    v.map_values(|x: (usize, String)| (x.0 as int, x.1@))
}

/// The UTF-8 length of `c`.
fn utf8_len_exec(c: char) -> (r: usize)
    ensures
        r == utf8_len(c),
{
    let u = c as u32;
    if u < 0x80 {
        1
    } else if u < 0x800 {
        2
    } else if u < 0x10000 {
        3
    } else {
        4
    }
}

/// Advances the byte offset `off` of character `q` of `v` to character `to`;
/// `None` stands for an offset beyond `usize::MAX`.
fn advance_offset(v: &Vec<char>, q: usize, off: Option<usize>, to: usize) -> (r: Option<usize>)
    requires
        q <= to <= v@.len(),
        match off {
            Some(o) => o == byte_len(v@.take(q as int)),
            None => byte_len(v@.take(q as int)) > usize::MAX,
        },
    ensures
        match r {
            Some(o) => o == byte_len(v@.take(to as int)),
            None => byte_len(v@.take(to as int)) > usize::MAX,
        },
{
    let mut i = q;
    let mut o = off;
    while i < to
        invariant
            q <= i <= to <= v@.len(),
            match o {
                Some(x) => x == byte_len(v@.take(i as int)),
                None => byte_len(v@.take(i as int)) > usize::MAX,
            },
        decreases to - i,
    {
        assert(v@.take(i + 1).drop_last() =~= v@.take(i as int));
        assert(v@.take(i + 1).last() == v@[i as int]);
        let w = utf8_len_exec(v[i]);
        o = match o {
            Some(x) => x.checked_add(w),
            None => None,
        };
        i = i + 1;
    }
    o
}

fn row_covered_exec(blocks: &Vec<Block>, r: usize) -> (res: bool)
    ensures
        res == row_covered(blocks_view(blocks@), r as int),
{
    let ghost bv = blocks_view(blocks@);
    let mut b: usize = 0;
    while b < blocks.len()
        invariant
            bv == blocks_view(blocks@),
            b <= blocks@.len(),
            forall|m: int| 0 <= m < b ==> !(#[trigger] bv[m].start_row <= r < spec_row_after(bv[m].end_row, bv[m].end_col)),
        decreases blocks@.len() - b,
    {
        assert(bv[b as int] == blocks@[b as int]@);
        let blk = &blocks[b];
        if blk.start_row <= r {
            match row_after(blk.end_row, blk.end_col) {
                Some(ra) => {
                    if r < ra {
                        assert(bv[b as int].start_row <= r < spec_row_after(bv[b as int].end_row, bv[b as int].end_col));
                        return true;
                    }
                },
                None => {
                    assert(bv[b as int].start_row <= r < spec_row_after(bv[b as int].end_row, bv[b as int].end_col));
                    return true;
                },
            }
        }
        b = b + 1;
    }
    false
}

fn in_spans_exec(spans: &Vec<(usize, usize)>, byte: Option<usize>) -> (res: bool)
    ensures
        forall|x: int| (match byte {
            Some(v) => x == v,
            None => x > usize::MAX,
        }) ==> res == in_spans(crate::parse::spans_view(spans@), x),
{
    let ghost sv = crate::parse::spans_view(spans@);
    let b = match byte {
        Some(b) => b,
        None => {
            assert forall|x: int| x > usize::MAX implies !in_spans(sv, x) by {
                if in_spans(sv, x) {
                    let k = choose|k: int| 0 <= k < sv.len() && #[trigger] sv[k].0 <= x < sv[k].1;
                    assert(sv[k].1 == spans@[k].1);
                }
            }
            return false;
        },
    };
    let mut k: usize = 0;
    while k < spans.len()
        invariant
            sv == crate::parse::spans_view(spans@),
            byte == Some(b),
            k <= spans@.len(),
            forall|m: int| 0 <= m < k ==> !(#[trigger] sv[m].0 <= b < sv[m].1),
        decreases spans@.len() - k,
    {
        assert(sv[k as int] == (spans@[k as int].0 as int, spans@[k as int].1 as int));
        if spans[k].0 <= b && b < spans[k].1 {
            assert(sv[k as int].0 <= b < sv[k as int].1);
            return true;
        }
        k = k + 1;
    }
    false
}

/// The comment-shaped lines of `source` that lie where no grammar read (in
/// `spans`), on no row a block covers, and that carry no tag.
pub fn unclassified_rows(
    id: LangId,
    source: &str,
    spans: &Vec<(usize, usize)>,
    blocks: &Vec<Block>,
    config: &Config,
) -> (r: Vec<(usize, String)>)
    ensures
        rows_view(r@) == spec_unclassified(id, source@, crate::parse::spans_view(spans@), blocks_view(blocks@), config@),
{
    let ghost sv = crate::parse::spans_view(spans@);
    let ghost bv = blocks_view(blocks@);
    let ghost row = lang_row(id);
    let mut out: Vec<(usize, String)> = Vec::new();
    if spans.len() == 0 {
        assert(rows_view(out@) =~= Seq::<(int, Seq<char>)>::empty());
        return out;
    }
    let spec = spec_for(id);
    let v = chars_of(source);
    let n = v.len();
    let mut p: usize = 0;
    let mut r: usize = 0;
    let mut off: Option<usize> = Some(0);
    assert(v@.take(0) =~= Seq::<char>::empty());
    assert(rows_view(out@) =~= Seq::<(int, Seq<char>)>::empty());
    loop
        invariant
            v@ == source@,
            n == v@.len(),
            p <= n,
            r <= p,
            row == lang_row(id),
            spec_row(&spec) == row,
            sv == crate::parse::spans_view(spans@),
            spans@.len() > 0,
            bv == blocks_view(blocks@),
            match off {
                Some(o) => o == byte_len(v@.take(p as int)),
                None => byte_len(v@.take(p as int)) > usize::MAX,
            },
            rows_view(out@) + unclassified_from(v@, p as int, r as int, row, config@.tags, sv, bv)
                == unclassified_from(v@, 0, 0, row, config@.tags, sv, bv),
        decreases n - p,
    {
        let mut e = p;
        while e < n && v[e] != '\n'
            invariant
                p <= e <= n == v@.len(),
                crate::text::newline_index(v@, p as int) == crate::text::newline_index(v@, e as int),
            decreases n - e,
        {
            e = e + 1;
        }
        let ghost line = v@.subrange(p as int, e as int);
        let mut k = p;
        while k < e && char_is_ws(v[k])
            invariant
                p <= k <= e <= v@.len(),
                line == v@.subrange(p as int, e as int),
                lead_ws(line, 0) == lead_ws(line, k - p),
            decreases e - k,
        {
            k = k + 1;
        }
        assert(p + lead_ws(line, 0) == k);
        let off_k = advance_offset(&v, p, off, k);
        let ghost x = line_report(v@, p as int, e as int, r as int, row, config@.tags, sv, bv);
        let ghost o0 = rows_view(out@);
        let opens = crate::gather::any_prefix_exec(spec.line_prefixes, &v, k, e) || match spec.block_open {
            Some(open) => {
                let ov = chars_of(open);
                crate::text::window_starts_with(&v, k, e, &ov)
            },
            None => false,
        };
        assert(opens == opens_comment(row, v@.subrange(k as int, e as int)));
        if opens {
            let hit = in_spans_exec(spans, off_k);
            if hit && !row_covered_exec(blocks, r) {
                let rest = crate::parse::window_of(source, &v, k, e);
                let body = comment_body(rest.as_str(), spec.line_prefixes, spec.block_open, spec.block_close);
                if !is_tagged(body, config.tags()) {
                    let te = skip_end(&v, k, e, CharClass::Space);
                    let shown = crate::parse::window_of(source, &v, k, te);
                    out.push((r, shown));
                    assert(rows_view(out@) =~= o0.push((r as int, crate::text::trim_end(v@.subrange(k as int, e as int)))));
                }
            }
        }
        assert(rows_view(out@) == o0 + match x {
            Some(y) => seq![y],
            None => Seq::<(int, Seq<char>)>::empty(),
        });
        if e >= n {
            assert(rows_view(out@) =~= o0 + unclassified_from(v@, p as int, r as int, row, config@.tags, sv, bv));
            return out;
        }
        let off_e = advance_offset(&v, k, off_k, e + 1);
        assert(o0 + unclassified_from(v@, p as int, r as int, row, config@.tags, sv, bv) =~= rows_view(out@) + unclassified_from(v@, e + 1, r + 1, row, config@.tags, sv, bv));
        off = off_e;
        p = e + 1;
        r = r + 1;
    }
}

/// What processing a file found and did.
#[derive(Debug)]
pub struct FileReport {
    pub stripped: usize,
    pub left_in_place: usize,
    pub untagged_found: usize,
    pub unclassified: usize,
    pub new_source: Option<String>,
    pub untagged_lines: Vec<(usize, String)>,
    pub left_lines: Vec<(usize, String)>,
    pub unclassified_lines: Vec<(usize, String)>,
}

pub struct ReportView {
    pub stripped: int,
    pub left_in_place: int,
    pub untagged_found: int,
    pub unclassified: int,
    pub new_source: Option<Seq<char>>,
    pub untagged_lines: Seq<(int, Seq<char>)>,
    pub left_lines: Seq<(int, Seq<char>)>,
    pub unclassified_lines: Seq<(int, Seq<char>)>,
}

impl View for FileReport {
    type V = ReportView;

    open spec fn view(&self) -> ReportView {
        ReportView {
            stripped: self.stripped as int,
            left_in_place: self.left_in_place as int,
            untagged_found: self.untagged_found as int,
            unclassified: self.unclassified as int,
            new_source: crate::config::opt_string_view(self.new_source),
            untagged_lines: rows_view(self.untagged_lines@),
            left_lines: rows_view(self.left_lines@),
            unclassified_lines: rows_view(self.unclassified_lines@),
        }
    }
}

/// The report of a file with nothing found.
pub open spec fn empty_report() -> ReportView {
    ReportView {
        stripped: 0,
        left_in_place: 0,
        untagged_found: 0,
        unclassified: 0,
        new_source: None,
        untagged_lines: Seq::empty(),
        left_lines: Seq::empty(),
        unclassified_lines: Seq::empty(),
    }
}

impl Default for FileReport {
    fn default() -> (r: Self)
        ensures
            r@ == empty_report(),
    {
        let r = FileReport {
            stripped: 0,
            left_in_place: 0,
            untagged_found: 0,
            unclassified: 0,
            new_source: None,
            untagged_lines: Vec::new(),
            left_lines: Vec::new(),
            unclassified_lines: Vec::new(),
        };
        assert(rows_view(r.untagged_lines@) =~= Seq::<(int, Seq<char>)>::empty());
        assert(rows_view(r.left_lines@) =~= Seq::<(int, Seq<char>)>::empty());
        assert(rows_view(r.unclassified_lines@) =~= Seq::<(int, Seq<char>)>::empty());
        r
    }
}

/// The untagged blocks, in order.
pub open spec fn untagged_of(bs: Seq<BlockView>) -> Seq<BlockView>
    decreases bs.len(),
{
    if bs.len() == 0 {
        Seq::empty()
    } else {
        let prev = untagged_of(bs.drop_last());
        if bs.last().verdict == Verdict::Untagged {
            prev.push(bs.last())
        } else {
            prev
        }
    }
}

/// The row and first line by which a block is reported.
pub open spec fn line_of(b: BlockView) -> (int, Seq<char>) {
    (b.start_row, b.first_line)
}

/// `s` with `b` put after every block that starts no earlier: one step of a
/// stable sort by descending start byte.
pub open spec fn insert_desc(s: Seq<BlockView>, b: BlockView) -> Seq<BlockView>
    decreases s.len(),
{
    if s.len() == 0 {
        seq![b]
    } else if s.last().start_byte >= b.start_byte {
        s.push(b)
    } else {
        insert_desc(s.drop_last(), b).push(s.last())
    }
}

/// `s` stably sorted by descending start byte, so that each deletion leaves
/// the offsets of the blocks still to come in place.
pub open spec fn sort_desc(s: Seq<BlockView>) -> Seq<BlockView>
    decreases s.len(),
{
    if s.len() == 0 {
        s
    } else {
        insert_desc(sort_desc(s.drop_last()), s.last())
    }
}

/// The run of spaces and tabs that ends at byte `i`, as its start.
pub open spec fn ws_back(w: Seq<u8>, i: int) -> int
    decreases i,
{
    if 0 < i <= w.len() && (w[i - 1] == 32u8 || w[i - 1] == 9u8) {
        ws_back(w, i - 1)
    } else {
        i
    }
}

/// The run of spaces and tabs that starts at byte `i`, as its end.
pub open spec fn ws_fwd(w: Seq<u8>, i: int) -> int
    decreases w.len() - i,
{
    if 0 <= i < w.len() && (w[i] == 32u8 || w[i] == 9u8) {
        ws_fwd(w, i + 1)
    } else {
        i
    }
}

/// The bytes of `w` that deleting block `b` removes: a whole-line block takes
/// its lines with their indentation and trailing newline; a trailing block
/// takes the spaces and tabs before it; a leading inline block takes the
/// spaces and tabs after it. `None` when the block does not lie in `w`.
pub open spec fn spec_deletion_span(w: Seq<u8>, b: BlockView) -> Option<(int, int)> {
    if !(0 <= b.start_byte <= b.end_byte <= w.len()) {
        None
    } else {
        match b.placement {
            Placement::WholeLine => {
                let end = if b.end_col == 0 {
                    b.end_byte
                } else {
                    let e = line_end(w, b.end_byte);
                    if e < w.len() && w[e] == 10u8 {
                        e + 1
                    } else {
                        e
                    }
                };
                Some((line_start(w, b.start_byte), end))
            },
            Placement::Trailing => Some((ws_back(w, b.start_byte), b.end_byte)),
            Placement::LeadingInline => Some((b.start_byte, ws_fwd(w, b.end_byte))),
        }
    }
}

/// The text, the count of deletions kept, and the blocks left in place, as
/// the strip goes.
pub struct StripState {
    pub working: Seq<u8>,
    pub stripped: int,
    pub left: Seq<(int, Seq<char>)>,
}

/// One step of the strip: block `b` is deleted from the text when the code
/// tokens after the deletion equal `before`, and left in place otherwise.
pub open spec fn strip_step(id: LangId, before: Seq<Seq<u8>>, st: StripState, b: BlockView) -> StripState {
    match spec_deletion_span(st.working, b) {
        None => StripState { working: st.working, stripped: st.stripped, left: st.left.push(line_of(b)) },
        Some((s, e)) => {
            let trial = st.working.take(s) + st.working.skip(e);
            if crate::parse::spec_code_tokens(id, trial) == Ok::<Seq<Seq<u8>>, WardenError>(before) {
                StripState { working: trial, stripped: st.stripped + 1, left: st.left }
            } else {
                StripState { working: st.working, stripped: st.stripped, left: st.left.push(line_of(b)) }
            }
        },
    }
}

/// The strip over the blocks `bs`, in order.
pub open spec fn strip_all(id: LangId, before: Seq<Seq<u8>>, init: StripState, bs: Seq<BlockView>) -> StripState
    decreases bs.len(),
{
    if bs.len() == 0 {
        init
    } else {
        strip_step(id, before, strip_all(id, before, init, bs.drop_last()), bs.last())
    }
}

/// What [`process`] reports for `source` (`src` its bytes, `text` its
/// characters): nothing for a generated file; else the untagged blocks and
/// the unclassified lines; and, when `apply`, the result of stripping the
/// untagged blocks from the last to the first.
pub open spec fn spec_process(
    id: LangId,
    src: Seq<u8>,
    text: Seq<char>,
    is_test_target: bool,
    cfg: ConfigView,
    apply: bool,
) -> Result<ReportView, WardenError> {
    match crate::parse::spec_parse(id, src, is_test_target) {
        Err(e) => Err(e),
        Ok(p) => if p.generated {
            Ok(empty_report())
        } else if !spans_in(src, p.comments) {
            Err(WardenError::BadSpan)
        } else {
            let bs = spec_blocks(id, src, p.comments, is_test_target, cfg);
            let un = spec_unclassified(id, text, p.unknown_spans, bs, cfg);
            let cands = untagged_of(bs);
            let found = ReportView {
                stripped: 0,
                left_in_place: 0,
                untagged_found: cands.len() as int,
                unclassified: un.len() as int,
                new_source: None,
                untagged_lines: cands.map_values(|b: BlockView| line_of(b)),
                left_lines: Seq::empty(),
                unclassified_lines: un,
            };
            if cands.len() == 0 || !apply {
                Ok(found)
            } else {
                match crate::parse::spec_code_tokens(id, src) {
                    Err(e) => Err(e),
                    Ok(before) => {
                        let st = strip_all(
                            id,
                            before,
                            StripState { working: src, stripped: 0, left: Seq::empty() },
                            sort_desc(cands),
                        );
                        match crate::parse::spec_code_tokens(id, st.working) {
                            Err(e) => Err(e),
                            Ok(after) => if after != before {
                                Err(WardenError::ProjectionChanged)
                            } else {
                                let done = ReportView {
                                    stripped: st.stripped,
                                    left_in_place: st.left.len() as int,
                                    left_lines: st.left,
                                    ..found
                                };
                                if st.working == src {
                                    Ok(done)
                                } else if valid_utf8(st.working) {
                                    Ok(ReportView { new_source: Some(decode_utf8(st.working)), ..done })
                                } else {
                                    Err(WardenError::BadSpan)
                                }
                            },
                        }
                    },
                }
            }
        },
    }
}

fn spans_in_exec(src: &[u8], cs: &Vec<Comment>) -> (r: bool)
    ensures
        r == spans_in(src@, comments_view(cs@)),
{
    let ghost cv = comments_view(cs@);
    let mut k: usize = 0;
    while k < cs.len()
        invariant
            cv == comments_view(cs@),
            k <= cs@.len(),
            forall|m: int| 0 <= m < k ==> 0 <= #[trigger] cv[m].start_byte <= cv[m].end_byte <= src@.len(),
        decreases cs@.len() - k,
    {
        assert(cv[k as int] == cs@[k as int]@);
        if cs[k].start_byte > cs[k].end_byte || cs[k].end_byte > src.len() {
            assert(!(0 <= cv[k as int].start_byte <= cv[k as int].end_byte <= src@.len()));
            return false;
        }
        k = k + 1;
    }
    true
}

/// Whether two token lists are equal.
fn tokens_equal(a: &Vec<Vec<u8>>, b: &Vec<Vec<u8>>) -> (r: bool)
    ensures
        r == (crate::parse::byte_vecs_view(a@) == crate::parse::byte_vecs_view(b@)),
{
    let ghost av = crate::parse::byte_vecs_view(a@);
    let ghost bv = crate::parse::byte_vecs_view(b@);
    if a.len() != b.len() {
        assert(av.len() != bv.len());
        return false;
    }
    let mut k: usize = 0;
    while k < a.len()
        invariant
            av == crate::parse::byte_vecs_view(a@),
            bv == crate::parse::byte_vecs_view(b@),
            a@.len() == b@.len(),
            k <= a@.len(),
            forall|m: int| 0 <= m < k ==> #[trigger] av[m] == bv[m],
        decreases a@.len() - k,
    {
        if !bytes_equal(a[k].as_slice(), b[k].as_slice()) {
            assert(av[k as int] != bv[k as int]);
            return false;
        }
        k = k + 1;
    }
    assert(av =~= bv);
    true
}

/// Whether two byte strings are equal.
fn bytes_equal(a: &[u8], b: &[u8]) -> (r: bool)
    ensures
        r == (a@ == b@),
{
    if a.len() != b.len() {
        return false;
    }
    let mut k: usize = 0;
    while k < a.len()
        invariant
            a@.len() == b@.len(),
            k <= a@.len(),
            forall|m: int| 0 <= m < k ==> a@[m] == b@[m],
        decreases a@.len() - k,
    {
        if a[k] != b[k] {
            return false;
        }
        k = k + 1;
    }
    assert(a@ =~= b@);
    true
}

/// The bytes that deleting block `b` from `w` removes (see
/// [`spec_deletion_span`]).
pub fn deletion_span(w: &[u8], b: &Block) -> (r: Option<(usize, usize)>)
    ensures
        match r {
            Some((s, e)) => spec_deletion_span(w@, b@) == Some((s as int, e as int)) && s <= e <= w@.len(),
            None => spec_deletion_span(w@, b@) is None,
        },
{
    if !(b.start_byte <= b.end_byte && b.end_byte <= w.len()) {
        return None;
    }
    match b.placement {
        Placement::WholeLine => {
            let start = line_start_byte(w, b.start_byte);
            let end = if b.end_col == 0 {
                b.end_byte
            } else {
                let e = line_end_byte(w, b.end_byte);
                if e < w.len() && w[e] == 10u8 {
                    e + 1
                } else {
                    e
                }
            };
            Some((start, end))
        },
        Placement::Trailing => {
            let mut start = b.start_byte;
            while start > 0 && (w[start - 1] == 32u8 || w[start - 1] == 9u8)
                invariant
                    start <= b.start_byte <= w@.len(),
                    ws_back(w@, b.start_byte as int) == ws_back(w@, start as int),
                decreases start,
            {
                start = start - 1;
            }
            Some((start, b.end_byte))
        },
        Placement::LeadingInline => {
            let mut end = b.end_byte;
            while end < w.len() && (w[end] == 32u8 || w[end] == 9u8)
                invariant
                    b.end_byte <= end <= w@.len(),
                    ws_fwd(w@, b.end_byte as int) == ws_fwd(w@, end as int),
                decreases w@.len() - end,
            {
                end = end + 1;
            }
            Some((b.start_byte, end))
        },
    }
}

/// `w` without the bytes `[s, e)`.
fn splice_out(w: &Vec<u8>, s: usize, e: usize) -> (r: Vec<u8>)
    requires
        s <= e <= w@.len(),
    ensures
        r@ == w@.take(s as int) + w@.skip(e as int),
{
    let mut out: Vec<u8> = Vec::new();
    let mut k: usize = 0;
    while k < s
        invariant
            k <= s <= e <= w@.len(),
            out@ == w@.take(k as int),
        decreases s - k,
    {
        out.push(w[k]);
        assert(w@.take(k + 1) =~= w@.take(k as int).push(w@[k as int]));
        k = k + 1;
    }
    let mut k = e;
    while k < w.len()
        invariant
            s <= e <= k <= w@.len(),
            out@ == w@.take(s as int) + w@.subrange(e as int, k as int),
        decreases w@.len() - k,
    {
        out.push(w[k]);
        assert(w@.subrange(e as int, k + 1) =~= w@.subrange(e as int, k as int).push(w@[k as int]));
        k = k + 1;
    }
    assert(w@.subrange(e as int, w@.len() as int) =~= w@.skip(e as int));
    out
}

pub open spec fn picked(bv: Seq<BlockView>, idx: Seq<usize>) -> Seq<BlockView> {
    idx.map_values(|k: usize| bv[k as int])
}

proof fn lemma_insert_desc_at(s: Seq<BlockView>, b: BlockView, k: int)
    requires
        0 <= k <= s.len(),
        k > 0 ==> s[k - 1].start_byte >= b.start_byte,
        forall|m: int| k <= m < s.len() ==> #[trigger] s[m].start_byte < b.start_byte,
    ensures
        insert_desc(s, b) == s.insert(k, b),
    decreases s.len(),
{
    if s.len() == 0 {
        assert(s.insert(k, b) =~= seq![b]);
    } else if k == s.len() {
        assert(s.insert(k, b) =~= s.push(b));
    } else {
        lemma_insert_desc_at(s.drop_last(), b, k);
        assert(s.insert(k, b) =~= s.drop_last().insert(k, b).push(s.last()));
    }
}

/// The indices `cands` (into `blocks`) stably sorted by descending start byte.
fn sort_desc_exec(blocks: &Vec<Block>, cands: &Vec<usize>) -> (r: Vec<usize>)
    requires
        forall|m: int| 0 <= m < cands@.len() ==> #[trigger] cands@[m] < blocks@.len(),
    ensures
        picked(blocks_view(blocks@), r@) == sort_desc(picked(blocks_view(blocks@), cands@)),
        forall|m: int| 0 <= m < r@.len() ==> #[trigger] r@[m] < blocks@.len(),
{
    let ghost bv = blocks_view(blocks@);
    let ghost cs = picked(bv, cands@);
    let mut out: Vec<usize> = Vec::new();
    let mut i: usize = 0;
    assert(cs.take(0) =~= Seq::<BlockView>::empty());
    assert(picked(bv, out@) =~= Seq::<BlockView>::empty());
    while i < cands.len()
        invariant
            bv == blocks_view(blocks@),
            cs == picked(bv, cands@),
            i <= cands@.len(),
            forall|m: int| 0 <= m < cands@.len() ==> #[trigger] cands@[m] < blocks@.len(),
            forall|m: int| 0 <= m < out@.len() ==> #[trigger] out@[m] < blocks@.len(),
            picked(bv, out@) == sort_desc(cs.take(i as int)),
        decreases cands@.len() - i,
    {
        let x = cands[i];
        assert(cs.take(i + 1).drop_last() =~= cs.take(i as int));
        assert(cs.take(i + 1).last() == bv[x as int]);
        assert(bv[x as int] == blocks@[x as int]@);
        let key = blocks[x].start_byte;
        let ghost s = picked(bv, out@);
        let mut k = out.len();
        while k > 0 && blocks[out[k - 1]].start_byte < key
            invariant
                bv == blocks_view(blocks@),
                k <= out@.len(),
                s == picked(bv, out@),
                key == bv[x as int].start_byte,
                forall|m: int| 0 <= m < out@.len() ==> #[trigger] out@[m] < blocks@.len(),
                forall|m: int| k <= m < s.len() ==> #[trigger] s[m].start_byte < key,
            decreases k,
        {
            assert(bv[out@[k - 1] as int] == blocks@[out@[k - 1] as int]@);
            k = k - 1;
        }
        proof {
            if k > 0 {
                assert(bv[out@[k - 1] as int] == blocks@[out@[k - 1] as int]@);
            }
            lemma_insert_desc_at(s, bv[x as int], k as int);
        }
        out.insert(k, x);
        assert(picked(bv, out@) =~= s.insert(k as int, bv[x as int]));
        i = i + 1;
    }
    assert(cs.take(cands@.len() as int) =~= cs);
    out
}

/// The indices of the untagged blocks, in order.
fn untagged_indices(blocks: &Vec<Block>) -> (r: Vec<usize>)
    ensures
        picked(blocks_view(blocks@), r@) == untagged_of(blocks_view(blocks@)),
        forall|m: int| 0 <= m < r@.len() ==> #[trigger] r@[m] < blocks@.len(),
        r@.len() <= blocks@.len(),
{
    let ghost bv = blocks_view(blocks@);
    let mut cands: Vec<usize> = Vec::new();
    let mut k: usize = 0;
    assert(bv.take(0) =~= Seq::<BlockView>::empty());
    assert(picked(bv, cands@) =~= Seq::<BlockView>::empty());
    while k < blocks.len()
        invariant
            bv == blocks_view(blocks@),
            k <= blocks@.len(),
            cands@.len() <= k,
            forall|m: int| 0 <= m < cands@.len() ==> #[trigger] cands@[m] < blocks@.len(),
            picked(bv, cands@) == untagged_of(bv.take(k as int)),
        decreases blocks@.len() - k,
    {
        assert(bv.take(k + 1).drop_last() =~= bv.take(k as int));
        assert(bv.take(k + 1).last() == bv[k as int]);
        assert(bv[k as int] == blocks@[k as int]@);
        if blocks[k].verdict == Verdict::Untagged {
            let ghost c0 = picked(bv, cands@);
            cands.push(k);
            assert(picked(bv, cands@) =~= c0.push(bv[k as int]));
        }
        k = k + 1;
    }
    assert(bv.take(blocks@.len() as int) =~= bv);
    cands
}

/// The row and first line of each of the blocks `idx`.
fn lines_of(blocks: &Vec<Block>, idx: &Vec<usize>) -> (r: Vec<(usize, String)>)
    requires
        forall|m: int| 0 <= m < idx@.len() ==> #[trigger] idx@[m] < blocks@.len(),
    ensures
        rows_view(r@) == picked(blocks_view(blocks@), idx@).map_values(|b: BlockView| line_of(b)),
{
    let ghost bv = blocks_view(blocks@);
    let mut out: Vec<(usize, String)> = Vec::new();
    let mut k: usize = 0;
    while k < idx.len()
        invariant
            bv == blocks_view(blocks@),
            k <= idx@.len(),
            forall|m: int| 0 <= m < idx@.len() ==> #[trigger] idx@[m] < blocks@.len(),
            rows_view(out@) == picked(bv, idx@).take(k as int).map_values(|b: BlockView| line_of(b)),
        decreases idx@.len() - k,
    {
        let x = idx[k];
        assert(bv[x as int] == blocks@[x as int]@);
        let ghost o0 = rows_view(out@);
        out.push((blocks[x].start_row, blocks[x].first_line.clone()));
        assert(rows_view(out@) =~= o0.push(line_of(bv[x as int])));
        assert(picked(bv, idx@)[k as int] == bv[x as int]);
        assert(picked(bv, idx@).take(k + 1) =~= picked(bv, idx@).take(k as int).push(bv[x as int]));
        assert(picked(bv, idx@).take(k + 1).map_values(|b: BlockView| line_of(b)) =~= picked(bv, idx@).take(k as int).map_values(|b: BlockView| line_of(b)).push(line_of(bv[x as int])));
        k = k + 1;
    }
    assert(picked(bv, idx@).take(idx@.len() as int) =~= picked(bv, idx@));
    out
}

/// Strips the blocks `ordered` (indices into `blocks`) from `src` in turn,
/// keeping each deletion after which the code tokens equal `before`.
fn strip_blocks(
    id: LangId,
    src: &[u8],
    blocks: &Vec<Block>,
    ordered: &Vec<usize>,
    before: &Vec<Vec<u8>>,
) -> (r: (Vec<u8>, usize, Vec<(usize, String)>))
    requires
        forall|m: int| 0 <= m < ordered@.len() ==> #[trigger] ordered@[m] < blocks@.len(),
    ensures
        r.1 + r.2@.len() == ordered@.len(),
        strip_all(
            id,
            crate::parse::byte_vecs_view(before@),
            StripState { working: src@, stripped: 0, left: Seq::empty() },
            picked(blocks_view(blocks@), ordered@),
        ) == (StripState { working: r.0@, stripped: r.1 as int, left: rows_view(r.2@) }),
{
    let ghost bv = blocks_view(blocks@);
    let ghost bt = crate::parse::byte_vecs_view(before@);
    let ghost os = picked(bv, ordered@);
    let mut working: Vec<u8> = vstd::slice::slice_to_vec(src);
    let mut stripped: usize = 0;
    let mut left: Vec<(usize, String)> = Vec::new();
    let mut i: usize = 0;
    assert(os.take(0) =~= Seq::<BlockView>::empty());
    assert(rows_view(left@) =~= Seq::<(int, Seq<char>)>::empty());
    while i < ordered.len()
        invariant
            bv == blocks_view(blocks@),
            bt == crate::parse::byte_vecs_view(before@),
            os == picked(bv, ordered@),
            forall|m: int| 0 <= m < ordered@.len() ==> #[trigger] ordered@[m] < blocks@.len(),
            i <= ordered@.len(),
            stripped + left@.len() == i,
            strip_all(id, bt, StripState { working: src@, stripped: 0, left: Seq::empty() }, os.take(i as int))
                == (StripState { working: working@, stripped: stripped as int, left: rows_view(left@) }),
        decreases ordered@.len() - i,
    {
        let x = ordered[i];
        assert(os.take(i + 1).drop_last() =~= os.take(i as int));
        assert(os.take(i + 1).last() == bv[x as int]);
        assert(bv[x as int] == blocks@[x as int]@);
        let blk = &blocks[x];
        let ghost l0 = rows_view(left@);
        let kept = match deletion_span(working.as_slice(), blk) {
            None => false,
            Some((s, e)) => {
                let trial = splice_out(&working, s, e);
                let ok = match crate::parse::code_tokens_of(id, trial.as_slice()) {
                    Ok(after) => tokens_equal(&after, before),
                    Err(_) => false,
                };
                if ok {
                    working = trial;
                }
                ok
            },
        };
        if kept {
            stripped = stripped + 1;
        } else {
            left.push((blk.start_row, blk.first_line.clone()));
            assert(rows_view(left@) =~= l0.push(line_of(bv[x as int])));
        }
        i = i + 1;
    }
    assert(os.take(ordered@.len() as int) =~= os);
    (working, stripped, left)
}

/// Judges the comments of `source` and, when `apply`, strips its untagged
/// blocks (see [`spec_process`]): each deletion is kept only when the code
/// tokens stay byte-identical, and the result is checked once more as a whole.
pub fn process(id: LangId, source: &str, is_test_target: bool, config: &Config, apply: bool) -> (r: Result<FileReport, WardenError>)
    ensures
        match r {
            Ok(rep) => spec_process(id, source.spec_bytes(), source@, is_test_target, config@, apply) == Ok::<ReportView, WardenError>(rep@),
            Err(e) => spec_process(id, source.spec_bytes(), source@, is_test_target, config@, apply) == Err::<ReportView, WardenError>(e),
        },
{
    let parsed = crate::parse::parse(id, source, is_test_target, config.tags())?;
    if parsed.generated {
        return Ok(FileReport::default());
    }
    let src = source.as_bytes();
    if !spans_in_exec(src, &parsed.comments) {
        return Err(WardenError::BadSpan);
    }
    let blocks = build_blocks(id, src, &parsed.comments, is_test_target, config);
    let unclassified_lines = unclassified_rows(id, source, &parsed.unknown_spans, &blocks, config);
    let cands = untagged_indices(&blocks);
    let untagged_lines = lines_of(&blocks, &cands);
    let mut report = FileReport {
        stripped: 0,
        left_in_place: 0,
        untagged_found: cands.len(),
        unclassified: unclassified_lines.len(),
        new_source: None,
        untagged_lines,
        left_lines: Vec::new(),
        unclassified_lines,
    };
    assert(rows_view(report.left_lines@) =~= Seq::<(int, Seq<char>)>::empty());
    assert(picked(blocks_view(blocks@), cands@).len() == cands@.len());
    if cands.len() == 0 || !apply {
        return Ok(report);
    }
    let before = crate::parse::code_tokens_of(id, src)?;
    let ordered = sort_desc_exec(&blocks, &cands);
    let (working, stripped, left) = strip_blocks(id, src, &blocks, &ordered, &before);
    let after = crate::parse::code_tokens_of(id, working.as_slice())?;
    if !tokens_equal(&after, &before) {
        return Err(WardenError::ProjectionChanged);
    }
    report.stripped = stripped;
    report.left_in_place = left.len();
    report.left_lines = left;
    if !bytes_equal(working.as_slice(), src) {
        match crate::text::str_from_utf8(working.as_slice()) {
            Some(t) => {
                report.new_source = Some(t.to_owned());
            },
            None => {
                return Err(WardenError::BadSpan);
            },
        }
    }
    Ok(report)
}

} // verus!
