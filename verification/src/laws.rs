//! What holds of the warden as a whole: stripping keeps the code, checking
//! writes nothing, only untagged blocks are ever deleted, each deletion takes
//! only whitespace besides its block, text that no deletion touches survives
//! intact, and every untagged block is either stripped or reported as left in
//! place; the report counts its own lines; the blocks partition the comments;
//! a parse returns its comments in order and in place, with no attributes in a
//! test target; the code tokens are slices of the text in order; a comment's
//! body is a trimmed piece of its text, a doc marker going with its prefix;
//! the comments of an embedded script land on their own lines; and only
//! heredocs fed to python give comments, at python's positions moved down to
//! the body.
use vstd::prelude::*;

use crate::comment::{CommentView, Exemption, Verdict};
use crate::config::ConfigView;
use crate::lang::LangId;
use crate::parse::{holds_data, is_token_node, spec_code_tokens, spec_parse, tokens_upto};
use crate::strip::{
    lemma_run_end_bounds,
    blocks_from, empty_report, line_report, row_covered, spec_deletion_span, spec_unclassified,
    unclassified_from, ws_back, ws_fwd, insert_desc, opens_run, run_end, sort_desc, spec_make_block,
    spec_process, spec_verdict, strip_all, untagged_of, BlockView, ReportView,
    StripState, continues_run,
};
use crate::comment::{CommentShape, Placement};
use crate::gather::{comment_of, comments_upto, insert_by_start, is_collected, sort_by_start};
use crate::lang::{lang_row, LangRow};
use crate::nix::{
    comment_positions, embed_all, embed_string, feeds_python, fragment_scan, fragments, heredoc_positions,
    is_script_string, nix_embedded, python_positions, shifted_positions,
};
use crate::script::{body_indent, count_newlines, dedented, line_starts, script_body};
use crate::syntax::{lemma_wf_node, nodes_wf, parsed_syntax, NodeView};
use crate::text::{all_ws, newline_index, node_text};
use crate::comment::{best_line_rest, block_body, line_rest, spec_comment_body};
use crate::text::{in_class, line_end, line_start, strip_suffix, trim, trim_end, trim_end_with, trim_start, trim_start_with, CharClass};
use vstd::utf8::{decode_utf8, decode_utf8_encode_utf8, encode_utf8, valid_utf8};

verus! {

/// Stripping keeps the code: when processing rewrites a file, the code tokens
/// of the new text are those of the old text, byte for byte.
pub proof fn law_strip_keeps_code_tokens(
    id: LangId,
    text: Seq<char>,
    is_test_target: bool,
    cfg: ConfigView,
    apply: bool,
    rep: ReportView,
    new_text: Seq<char>,
)
    requires
        spec_process(id, encode_utf8(text), text, is_test_target, cfg, apply) == Ok::<ReportView, crate::error::WardenError>(rep),
        rep.new_source == Some(new_text),
    ensures
        spec_code_tokens(id, encode_utf8(new_text)) is Ok,
        spec_code_tokens(id, encode_utf8(new_text)) == spec_code_tokens(id, encode_utf8(text)),
{
    let src = encode_utf8(text);
    let p = spec_parse(id, src, is_test_target)->Ok_0;
    let bs = crate::strip::spec_blocks(id, src, p.comments, is_test_target, cfg);
    let cands = untagged_of(bs);
    let before = spec_code_tokens(id, src)->Ok_0;
    let st = strip_all(id, before, StripState { working: src, stripped: 0, left: Seq::empty() }, sort_desc(cands));
    assert(valid_utf8(st.working));
    assert(new_text == decode_utf8(st.working));
    decode_utf8_encode_utf8(st.working);
}

/// Checking writes nothing: without `apply`, processing strips nothing,
/// leaves nothing in place and returns no new text.
pub proof fn law_check_writes_nothing(
    id: LangId,
    src: Seq<u8>,
    text: Seq<char>,
    is_test_target: bool,
    cfg: ConfigView,
    rep: ReportView,
)
    requires
        spec_process(id, src, text, is_test_target, cfg, false) == Ok::<ReportView, crate::error::WardenError>(rep),
    ensures
        rep.new_source is None,
        rep.stripped == 0,
        rep.left_in_place == 0,
{
}

/// A file that declares itself generated is reported clean and never changed.
pub proof fn law_generated_file_untouched(
    id: LangId,
    src: Seq<u8>,
    text: Seq<char>,
    is_test_target: bool,
    cfg: ConfigView,
    apply: bool,
)
    requires
        spec_parse(id, src, is_test_target) is Ok,
        spec_parse(id, src, is_test_target)->Ok_0.generated,
    ensures
        spec_process(id, src, text, is_test_target, cfg, apply) == Ok::<ReportView, crate::error::WardenError>(empty_report()),
{
}

proof fn lemma_insert_desc_len(s: Seq<BlockView>, b: BlockView)
    ensures
        insert_desc(s, b).len() == s.len() + 1,
    decreases s.len(),
{
    if s.len() > 0 && s.last().start_byte < b.start_byte {
        lemma_insert_desc_len(s.drop_last(), b);
    }
}

proof fn lemma_sort_desc_len(s: Seq<BlockView>)
    ensures
        sort_desc(s).len() == s.len(),
    decreases s.len(),
{
    if s.len() > 0 {
        lemma_sort_desc_len(s.drop_last());
        lemma_insert_desc_len(sort_desc(s.drop_last()), s.last());
    }
}

proof fn lemma_untagged_of_untagged(bs: Seq<BlockView>)
    ensures
        forall|k: int| 0 <= k < untagged_of(bs).len() ==> (#[trigger] untagged_of(bs)[k]).verdict == Verdict::Untagged,
    decreases bs.len(),
{
    if bs.len() > 0 {
        lemma_untagged_of_untagged(bs.drop_last());
    }
}

/// Only untagged blocks are ever deleted: every block that the strip tries,
/// in the order it tries them, is an untagged block, so a tagged or exempt
/// comment is never removed as a block of its own.
pub proof fn law_only_untagged_blocks_are_stripped(bs: Seq<BlockView>)
    ensures
        forall|k: int| 0 <= k < sort_desc(untagged_of(bs)).len() ==> (#[trigger] sort_desc(untagged_of(bs))[k]).verdict
            == Verdict::Untagged,
        sort_desc(untagged_of(bs)).len() == untagged_of(bs).len(),
{
    lemma_untagged_of_untagged(bs);
    lemma_sort_desc_all(untagged_of(bs), |b: BlockView| b.verdict == Verdict::Untagged);
    lemma_sort_desc_len(untagged_of(bs));
}

proof fn lemma_strip_all_counts(id: LangId, before: Seq<Seq<u8>>, init: StripState, bs: Seq<BlockView>)
    ensures
        strip_all(id, before, init, bs).stripped + strip_all(id, before, init, bs).left.len() == init.stripped
            + init.left.len() + bs.len(),
    decreases bs.len(),
{
    if bs.len() > 0 {
        lemma_strip_all_counts(id, before, init, bs.drop_last());
    }
}

/// Every untagged block is accounted for: when stripping, each untagged
/// block is either stripped or reported as left in place.
pub proof fn law_every_untagged_block_stripped_or_left(
    id: LangId,
    src: Seq<u8>,
    text: Seq<char>,
    is_test_target: bool,
    cfg: ConfigView,
    rep: ReportView,
)
    requires
        spec_process(id, src, text, is_test_target, cfg, true) == Ok::<ReportView, crate::error::WardenError>(rep),
    ensures
        rep.stripped + rep.left_in_place == rep.untagged_found,
        rep.left_lines.len() == rep.left_in_place,
{
    let p = spec_parse(id, src, is_test_target)->Ok_0;
    if !p.generated {
        let bs = crate::strip::spec_blocks(id, src, p.comments, is_test_target, cfg);
        let cands = untagged_of(bs);
        if cands.len() > 0 {
            let before = spec_code_tokens(id, src)->Ok_0;
            let init = StripState { working: src, stripped: 0, left: Seq::empty() };
            lemma_strip_all_counts(id, before, init, sort_desc(cands));
            lemma_sort_desc_len(cands);
        }
    }
}

/// A block absorbs only untagged lines of its own kind: every comment after
/// the leader of a multi-line block is an untagged line comment in the
/// leader's column, a doc line exactly when the leader is one, so an untagged
/// leader never takes a tag or an exemption below it with it.
pub proof fn law_block_absorbs_only_untagged(src: Seq<u8>, cs: Seq<CommentView>, vs: Seq<Verdict>, i: int, j: int)
    requires
        0 <= i < j < run_end(src, cs, vs, i, i + 1),
    ensures
        vs[j] == Verdict::Untagged,
        cs[j].shape == crate::comment::CommentShape::Line,
        cs[j].start_col == cs[i].start_col,
        cs[j].is_doc == cs[i].is_doc,
{
    lemma_run_prefix(src, cs, vs, i, i + 1, j);
}

proof fn lemma_run_prefix(src: Seq<u8>, cs: Seq<CommentView>, vs: Seq<Verdict>, i: int, m: int, j: int)
    requires
        0 <= i < m <= j < run_end(src, cs, vs, i, m),
    ensures
        continues_run(src, cs, vs, i, j - 1, j),
    decreases j - m,
{
    assert(0 < m < cs.len() && continues_run(src, cs, vs, i, m - 1, m));
    if m < j {
        lemma_run_prefix(src, cs, vs, i, m + 1, j);
    }
}

/// An exempt comment is a block of its own: it absorbs nothing below it.
pub proof fn law_exempt_comment_stands_alone(src: Seq<u8>, cs: Seq<CommentView>, vs: Seq<Verdict>, i: int)
    requires
        0 <= i < cs.len(),
        vs[i] is Exempt,
    ensures
        blocks_from(src, cs, vs, i) == seq![spec_make_block(src, cs[i], cs[i], vs[i])] + blocks_from(src, cs, vs, i + 1),
{
    assert(!opens_run(src, cs, vs, i));
}

/// With no doc-surface rules, no doc comment outside a macro is exempt as a
/// surface: `pub` grants nothing.
pub proof fn law_no_surface_rules_no_surface(id: LangId, c: CommentView, is_test_target: bool, cfg: ConfigView)
    requires
        cfg.doc_surface.len() == 0,
        !c.in_macro,
    ensures
        spec_verdict(id, c, is_test_target, cfg) != Verdict::Exempt(Exemption::DocSurface),
{
}

/// In a test target no comment outside a macro is a doc surface or a module
/// doc.
pub proof fn law_test_target_has_no_surface(id: LangId, c: CommentView, cfg: ConfigView)
    requires
        !c.in_macro,
    ensures
        spec_verdict(id, c, true, cfg) != Verdict::Exempt(Exemption::DocSurface),
        spec_verdict(id, c, true, cfg) != Verdict::Exempt(Exemption::ModuleDoc),
{
}

proof fn lemma_insert_desc_sorted(s: Seq<BlockView>, b: BlockView)
    requires
        forall|i: int, j: int| 0 <= i < j < s.len() ==> s[i].start_byte >= s[j].start_byte,
    ensures
        forall|i: int, j: int|
            0 <= i < j < insert_desc(s, b).len() ==> insert_desc(s, b)[i].start_byte >= insert_desc(s, b)[j].start_byte,
        forall|k: int| 0 <= k < insert_desc(s, b).len() ==> insert_desc(s, b)[k] == b || s.contains(insert_desc(s, b)[k]),
    decreases s.len(),
{
    lemma_insert_desc_len(s, b);
    if s.len() > 0 && s.last().start_byte < b.start_byte {
        let t = insert_desc(s.drop_last(), b);
        lemma_insert_desc_sorted(s.drop_last(), b);
        lemma_insert_desc_len(s.drop_last(), b);
        assert forall|k: int| 0 <= k < t.len() implies t[k].start_byte >= s.last().start_byte by {
            if t[k] != b {
                assert(s.drop_last().contains(t[k]));
                let m = choose|m: int| 0 <= m < s.drop_last().len() && s.drop_last()[m] == t[k];
                assert(s[m] == t[k]);
            }
        }
        assert forall|k: int| 0 <= k < insert_desc(s, b).len() implies insert_desc(s, b)[k] == b || s.contains(insert_desc(s, b)[k]) by {
            if k < t.len() {
                if t[k] != b {
                    let m = choose|m: int| 0 <= m < s.drop_last().len() && s.drop_last()[m] == t[k];
                    assert(s[m] == t[k]);
                }
            } else {
                assert(insert_desc(s, b)[k] == s[s.len() - 1]);
            }
        }
    } else if s.len() > 0 {
        assert forall|k: int| 0 <= k < insert_desc(s, b).len() implies insert_desc(s, b)[k] == b || s.contains(insert_desc(s, b)[k]) by {
            if k < s.len() {
                assert(insert_desc(s, b)[k] == s[k]);
            }
        }
    }
}

/// The strip goes from the last block of the file to the first: the blocks it
/// tries come in descending order of their start byte, so a deletion never
/// moves the bytes of a block still to come.
pub proof fn law_strip_goes_from_last_to_first(s: Seq<BlockView>)
    ensures
        forall|i: int, j: int|
            0 <= i < j < sort_desc(s).len() ==> sort_desc(s)[i].start_byte >= sort_desc(s)[j].start_byte,
    decreases s.len(),
{
    if s.len() > 0 {
        law_strip_goes_from_last_to_first(s.drop_last());
        lemma_insert_desc_sorted(sort_desc(s.drop_last()), s.last());
    }
}

proof fn lemma_strip_all_keeps_tokens(id: LangId, before: Seq<Seq<u8>>, init: StripState, bs: Seq<BlockView>)
    requires
        spec_code_tokens(id, init.working) == Ok::<Seq<Seq<u8>>, crate::error::WardenError>(before),
    ensures
        spec_code_tokens(id, strip_all(id, before, init, bs).working) == Ok::<Seq<Seq<u8>>, crate::error::WardenError>(before),
    decreases bs.len(),
{
    if bs.len() > 0 {
        lemma_strip_all_keeps_tokens(id, before, init, bs.drop_last());
    }
}

proof fn lemma_nix_errors(ns: Seq<crate::syntax::NodeView>, src: Seq<u8>, n: int)
    ensures
        crate::nix::nix_embedded(ns, src, n) is Err ==> crate::nix::nix_embedded(ns, src, n)->Err_0
            != crate::error::WardenError::ProjectionChanged,
    decreases n,
{
    if n > 0 {
        lemma_nix_errors(ns, src, n - 1);
    }
}

/// Every deletion the strip keeps leaves the code tokens as they were, so the
/// whole result always passes the final check: processing never ends in a
/// projection change.
pub proof fn law_strip_never_changes_projection(
    id: LangId,
    src: Seq<u8>,
    text: Seq<char>,
    is_test_target: bool,
    cfg: ConfigView,
    apply: bool,
)
    ensures
        spec_process(id, src, text, is_test_target, cfg, apply) != Err::<ReportView, crate::error::WardenError>(
            crate::error::WardenError::ProjectionChanged,
        ),
{
    if let Some(ns) = crate::syntax::parsed_syntax(id, src) {
        lemma_nix_errors(ns, src, ns.len() as int);
    }
    if let Ok(p) = spec_parse(id, src, is_test_target) {
        let bs = crate::strip::spec_blocks(id, src, p.comments, is_test_target, cfg);
        let cands = untagged_of(bs);
        if let Ok(before) = spec_code_tokens(id, src) {
            let init = StripState { working: src, stripped: 0, left: Seq::empty() };
            lemma_strip_all_keeps_tokens(id, before, init, sort_desc(cands));
        }
    }
}

/// Comment `j` continues the run that comment `first` opened, right after
/// comment `j - 1`.
pub open spec fn continues_at(src: Seq<u8>, cs: Seq<CommentView>, vs: Seq<Verdict>, first: int, j: int) -> bool {
    continues_run(src, cs, vs, first, j - 1, j)
}

/// Block `b` is made of the run of comments `cs[lo..hi]`: it spans the run,
/// from the first comment's start to the last one's end, and carries the
/// first comment's verdict; a run of several comments is opened by a comment
/// that may lead one and each later comment continues it; and the run could
/// not have taken the comment after it.
pub open spec fn block_of_run(src: Seq<u8>, cs: Seq<CommentView>, vs: Seq<Verdict>, b: BlockView, lo: int, hi: int) -> bool {
    &&& b == spec_make_block(src, cs[lo], cs[hi - 1], vs[lo])
    &&& hi - lo >= 2 ==> opens_run(src, cs, vs, lo)
    &&& forall|j: int| lo < j < hi ==> #[trigger] continues_at(src, cs, vs, lo, j)
    &&& hi < cs.len() ==> !(opens_run(src, cs, vs, lo) && continues_run(src, cs, vs, lo, hi - 1, hi))
}

/// `blocks` split the comments `cs[from..]` into consecutive non-empty runs,
/// the `k`-th being `cs[bounds[k]..bounds[k + 1]]`, so that every comment is
/// in exactly one run, in order; and each block is made of its run.
pub open spec fn is_block_partition(
    src: Seq<u8>,
    cs: Seq<CommentView>,
    vs: Seq<Verdict>,
    blocks: Seq<BlockView>,
    bounds: Seq<int>,
    from: int,
) -> bool {
    &&& bounds.len() == blocks.len() + 1
    &&& bounds[0] == from
    &&& bounds[blocks.len() as int] == cs.len()
    &&& forall|k1: int, k2: int| 0 <= k1 < k2 <= blocks.len() ==> #[trigger] bounds[k1] < #[trigger] bounds[k2]
    &&& forall|k: int|
        #![trigger blocks[k]]
        0 <= k < blocks.len() ==> block_of_run(src, cs, vs, blocks[k], bounds[k], bounds[k + 1])
}

proof fn lemma_run_end_stops(src: Seq<u8>, cs: Seq<CommentView>, vs: Seq<Verdict>, first: int, j: int)
    requires
        0 < j <= cs.len(),
    ensures
        run_end(src, cs, vs, first, j) < cs.len() ==> !continues_run(
            src,
            cs,
            vs,
            first,
            run_end(src, cs, vs, first, j) - 1,
            run_end(src, cs, vs, first, j),
        ),
    decreases cs.len() - j,
{
    if j < cs.len() && continues_run(src, cs, vs, first, j - 1, j) {
        lemma_run_end_stops(src, cs, vs, first, j + 1);
    }
}

proof fn lemma_partition_from(src: Seq<u8>, cs: Seq<CommentView>, vs: Seq<Verdict>, i: int) -> (bounds: Seq<int>)
    requires
        0 <= i <= cs.len(),
    ensures
        is_block_partition(src, cs, vs, blocks_from(src, cs, vs, i), bounds, i),
    decreases cs.len() - i,
{
    if i == cs.len() {
        let bounds = seq![i];
        assert(blocks_from(src, cs, vs, i).len() == 0);
        bounds
    } else {
        let e = if opens_run(src, cs, vs, i) {
            run_end(src, cs, vs, i, i + 1)
        } else {
            i + 1
        };
        lemma_run_end_bounds(src, cs, vs, i, i + 1);
        lemma_run_end_stops(src, cs, vs, i, i + 1);
        let rest = lemma_partition_from(src, cs, vs, e);
        let tail = blocks_from(src, cs, vs, e);
        let blocks = blocks_from(src, cs, vs, i);
        let head = spec_make_block(src, cs[i], cs[e - 1], vs[i]);
        assert(blocks == seq![head] + tail);
        let bounds = seq![i] + rest;
        assert(bounds.len() == blocks.len() + 1);
        assert(bounds[blocks.len() as int] == rest[tail.len() as int]);
        assert forall|j: int| i < j < e implies #[trigger] continues_at(src, cs, vs, i, j) by {
            lemma_run_prefix(src, cs, vs, i, i + 1, j);
        }
        assert(block_of_run(src, cs, vs, head, i, e));
        assert forall|k1: int, k2: int| 0 <= k1 < k2 <= blocks.len() implies #[trigger] bounds[k1]
            < #[trigger] bounds[k2] by {
            assert(bounds[k2] == rest[k2 - 1]);
            if k1 > 0 {
                assert(bounds[k1] == rest[k1 - 1]);
            } else if k2 > 1 {
                assert(rest[0] < rest[k2 - 1]);
            }
        }
        assert forall|k: int|
            #![trigger blocks[k]]
            0 <= k < blocks.len() implies block_of_run(src, cs, vs, blocks[k], bounds[k], bounds[k + 1]) by {
            if k > 0 {
                assert(blocks[k] == tail[k - 1]);
                assert(bounds[k] == rest[k - 1]);
                assert(bounds[k + 1] == rest[k]);
            }
        }
        bounds
    }
}

/// The blocks partition the comments: `blocks_from(.., 0)` splits `cs` into
/// consecutive non-empty runs, every comment in exactly one, in order. A run
/// of several comments is led by an untagged or tagged line comment alone on
/// its line (no shebang), and each later comment is an untagged line comment
/// alone on its line, in the leader's column and of its doc kind, on the row
/// after the one before it with only whitespace between; no run could take
/// the comment after it. So a tagged or exempt comment only ever leads a
/// block, and an exempt one leads a block of its own.
pub proof fn law_blocks_partition_comments(src: Seq<u8>, cs: Seq<CommentView>, vs: Seq<Verdict>) -> (bounds: Seq<int>)
    ensures
        is_block_partition(src, cs, vs, blocks_from(src, cs, vs, 0), bounds, 0),
{
    lemma_partition_from(src, cs, vs, 0)
}

proof fn lemma_strip_all_stripped_grows(id: LangId, before: Seq<Seq<u8>>, init: StripState, bs: Seq<BlockView>)
    ensures
        strip_all(id, before, init, bs).stripped >= init.stripped,
        strip_all(id, before, init, bs).stripped == init.stripped ==> strip_all(id, before, init, bs).working
            == init.working,
    decreases bs.len(),
{
    if bs.len() > 0 {
        lemma_strip_all_stripped_grows(id, before, init, bs.drop_last());
    }
}

/// The report counts its own lines: one reported line per untagged block,
/// per block left in place and per unclassified line. Checking strips and
/// leaves nothing; stripping accounts for every untagged block. A new text
/// comes back only when something was stripped, and it is never the old text.
pub proof fn law_report_counts_its_lines(
    id: LangId,
    text: Seq<char>,
    is_test_target: bool,
    cfg: ConfigView,
    apply: bool,
    rep: ReportView,
)
    requires
        spec_process(id, encode_utf8(text), text, is_test_target, cfg, apply) == Ok::<ReportView, crate::error::WardenError>(rep),
    ensures
        rep.untagged_lines.len() == rep.untagged_found,
        rep.left_lines.len() == rep.left_in_place,
        rep.unclassified_lines.len() == rep.unclassified,
        apply ==> rep.stripped + rep.left_in_place == rep.untagged_found,
        !apply ==> rep.stripped == 0 && rep.left_in_place == 0 && rep.new_source is None,
        rep.new_source is Some ==> rep.stripped > 0 && rep.new_source != Some(text),
{
    let src = encode_utf8(text);
    if apply {
        law_every_untagged_block_stripped_or_left(id, src, text, is_test_target, cfg, rep);
    }
    let p = spec_parse(id, src, is_test_target)->Ok_0;
    if !p.generated {
        let bs = crate::strip::spec_blocks(id, src, p.comments, is_test_target, cfg);
        let cands = untagged_of(bs);
        if cands.len() > 0 && apply {
            let before = spec_code_tokens(id, src)->Ok_0;
            let init = StripState { working: src, stripped: 0, left: Seq::empty() };
            let st = strip_all(id, before, init, sort_desc(cands));
            lemma_strip_all_stripped_grows(id, before, init, sort_desc(cands));
            if st.working != src {
                decode_utf8_encode_utf8(st.working);
                assert(encode_utf8(decode_utf8(st.working)) == st.working);
            }
        }
    }
}

proof fn lemma_insert_desc_all(s: Seq<BlockView>, b: BlockView, p: spec_fn(BlockView) -> bool)
    requires
        p(b),
        forall|k: int| 0 <= k < s.len() ==> p(#[trigger] s[k]),
    ensures
        forall|k: int| 0 <= k < insert_desc(s, b).len() ==> p(#[trigger] insert_desc(s, b)[k]),
    decreases s.len(),
{
    lemma_insert_desc_len(s, b);
    if s.len() > 0 && s.last().start_byte < b.start_byte {
        lemma_insert_desc_all(s.drop_last(), b, p);
        let t = insert_desc(s.drop_last(), b);
        assert forall|k: int| 0 <= k < insert_desc(s, b).len() implies p(#[trigger] insert_desc(s, b)[k]) by {
            if k < t.len() {
                assert(insert_desc(s, b)[k] == t[k]);
            } else {
                assert(insert_desc(s, b)[k] == s[s.len() - 1]);
            }
        }
    } else if s.len() > 0 {
        assert forall|k: int| 0 <= k < insert_desc(s, b).len() implies p(#[trigger] insert_desc(s, b)[k]) by {
            if k < s.len() {
                assert(insert_desc(s, b)[k] == s[k]);
            }
        }
    }
}

proof fn lemma_sort_desc_all(s: Seq<BlockView>, p: spec_fn(BlockView) -> bool)
    requires
        forall|k: int| 0 <= k < s.len() ==> p(#[trigger] s[k]),
    ensures
        forall|k: int| 0 <= k < sort_desc(s).len() ==> p(#[trigger] sort_desc(s)[k]),
    decreases s.len(),
{
    if s.len() > 0 {
        assert forall|k: int| 0 <= k < s.drop_last().len() implies p(#[trigger] s.drop_last()[k]) by {
            assert(s.drop_last()[k] == s[k]);
        }
        lemma_sort_desc_all(s.drop_last(), p);
        lemma_insert_desc_all(sort_desc(s.drop_last()), s.last(), p);
    }
}

proof fn lemma_untagged_of_all(bs: Seq<BlockView>, p: spec_fn(BlockView) -> bool)
    requires
        forall|k: int| 0 <= k < bs.len() ==> p(#[trigger] bs[k]),
    ensures
        forall|k: int| 0 <= k < untagged_of(bs).len() ==> p(#[trigger] untagged_of(bs)[k]),
    decreases bs.len(),
{
    if bs.len() > 0 {
        assert forall|k: int| 0 <= k < bs.drop_last().len() implies p(#[trigger] bs.drop_last()[k]) by {
            assert(bs.drop_last()[k] == bs[k]);
        }
        lemma_untagged_of_all(bs.drop_last(), p);
        let prev = untagged_of(bs.drop_last());
        if bs.last().verdict == Verdict::Untagged {
            assert forall|k: int| 0 <= k < untagged_of(bs).len() implies p(#[trigger] untagged_of(bs)[k]) by {
                if k < prev.len() {
                    assert(untagged_of(bs)[k] == prev[k]);
                }
            }
        }
    }
}

proof fn lemma_line_bounds(w: Seq<u8>, i: int)
    requires
        0 <= i <= w.len(),
    ensures
        0 <= line_start(w, i) <= i,
        i <= line_end(w, i) <= w.len(),
        0 <= ws_back(w, i) <= i,
        i <= ws_fwd(w, i) <= w.len(),
{
    lemma_line_start_bound(w, i);
    lemma_line_end_bound(w, i);
    lemma_ws_back_bound(w, i);
    lemma_ws_fwd_bound(w, i);
}

proof fn lemma_line_start_bound(w: Seq<u8>, i: int)
    requires
        0 <= i <= w.len(),
    ensures
        0 <= line_start(w, i) <= i,
    decreases i,
{
    if 0 < i && w[i - 1] != 10u8 {
        lemma_line_start_bound(w, i - 1);
    }
}

proof fn lemma_line_end_bound(w: Seq<u8>, i: int)
    requires
        0 <= i <= w.len(),
    ensures
        i <= line_end(w, i) <= w.len(),
    decreases w.len() - i,
{
    if i < w.len() && w[i] != 10u8 {
        lemma_line_end_bound(w, i + 1);
    }
}

proof fn lemma_ws_back_bound(w: Seq<u8>, i: int)
    requires
        0 <= i <= w.len(),
    ensures
        0 <= ws_back(w, i) <= i,
    decreases i,
{
    if 0 < i && (w[i - 1] == 32u8 || w[i - 1] == 9u8) {
        lemma_ws_back_bound(w, i - 1);
    }
}

proof fn lemma_ws_fwd_bound(w: Seq<u8>, i: int)
    requires
        0 <= i <= w.len(),
    ensures
        i <= ws_fwd(w, i) <= w.len(),
    decreases w.len() - i,
{
    if i < w.len() && (w[i] == 32u8 || w[i] == 9u8) {
        lemma_ws_fwd_bound(w, i + 1);
    }
}

/// A block with some bytes: deleting it removes at least one byte.
pub open spec fn nonempty_block(b: BlockView) -> bool {
    b.start_byte < b.end_byte
}

proof fn lemma_deletion_removes_bytes(w: Seq<u8>, b: BlockView)
    requires
        nonempty_block(b),
        spec_deletion_span(w, b) is Some,
    ensures
        0 <= spec_deletion_span(w, b)->Some_0.0 < spec_deletion_span(w, b)->Some_0.1 <= w.len(),
{
    lemma_line_bounds(w, b.start_byte);
    lemma_line_bounds(w, b.end_byte);
}

proof fn lemma_strip_all_shrinks(id: LangId, before: Seq<Seq<u8>>, init: StripState, bs: Seq<BlockView>)
    requires
        forall|k: int| 0 <= k < bs.len() ==> nonempty_block(#[trigger] bs[k]),
    ensures
        strip_all(id, before, init, bs).working.len() + (strip_all(id, before, init, bs).stripped - init.stripped)
            <= init.working.len(),
    decreases bs.len(),
{
    if bs.len() > 0 {
        assert forall|k: int| 0 <= k < bs.drop_last().len() implies nonempty_block(#[trigger] bs.drop_last()[k]) by {
            assert(bs.drop_last()[k] == bs[k]);
        }
        lemma_strip_all_shrinks(id, before, init, bs.drop_last());
        let st = strip_all(id, before, init, bs.drop_last());
        assert(nonempty_block(bs[bs.len() - 1]));
        if spec_deletion_span(st.working, bs.last()) is Some {
            lemma_deletion_removes_bytes(st.working, bs.last());
        }
    }
}

/// Each comment of `cs` has some bytes.
pub open spec fn comments_nonempty(cs: Seq<CommentView>) -> bool {
    forall|k: int| 0 <= k < cs.len() ==> (#[trigger] cs[k]).start_byte < cs[k].end_byte
}

proof fn lemma_run_spans(src: Seq<u8>, cs: Seq<CommentView>, vs: Seq<Verdict>, lo: int, j: int)
    requires
        comments_nonempty(cs),
        0 <= lo <= j < cs.len(),
        forall|m: int| lo < m <= j ==> #[trigger] continues_at(src, cs, vs, lo, m),
    ensures
        cs[lo].start_byte < cs[j].end_byte,
    decreases j - lo,
{
    if j > lo {
        lemma_run_spans(src, cs, vs, lo, j - 1);
        assert(continues_at(src, cs, vs, lo, j));
    }
}

proof fn lemma_blocks_nonempty(src: Seq<u8>, cs: Seq<CommentView>, vs: Seq<Verdict>)
    requires
        comments_nonempty(cs),
    ensures
        forall|k: int| 0 <= k < blocks_from(src, cs, vs, 0).len() ==> nonempty_block(#[trigger] blocks_from(src, cs, vs, 0)[k]),
{
    let blocks = blocks_from(src, cs, vs, 0);
    let bounds = law_blocks_partition_comments(src, cs, vs);
    assert forall|k: int| 0 <= k < blocks.len() implies nonempty_block(#[trigger] blocks[k]) by {
        let lo = bounds[k];
        let hi = bounds[k + 1];
        assert(block_of_run(src, cs, vs, blocks[k], lo, hi));
        assert(0 <= bounds[0] <= lo < hi <= bounds[blocks.len() as int]);
        lemma_run_spans(src, cs, vs, lo, hi - 1);
    }
}

/// Something stripped means a new text: when every comment has some bytes,
/// a strip that deletes a block returns the rewritten text.
pub proof fn law_stripping_rewrites_the_text(
    id: LangId,
    text: Seq<char>,
    is_test_target: bool,
    cfg: ConfigView,
    apply: bool,
    rep: ReportView,
)
    requires
        spec_process(id, encode_utf8(text), text, is_test_target, cfg, apply) == Ok::<ReportView, crate::error::WardenError>(rep),
        spec_parse(id, encode_utf8(text), is_test_target) is Ok ==> comments_nonempty(
            spec_parse(id, encode_utf8(text), is_test_target)->Ok_0.comments,
        ),
    ensures
        rep.stripped > 0 <==> rep.new_source is Some,
{
    law_report_counts_its_lines(id, text, is_test_target, cfg, apply, rep);
    let src = encode_utf8(text);
    let p = spec_parse(id, src, is_test_target)->Ok_0;
    if !p.generated && apply {
        let bs = crate::strip::spec_blocks(id, src, p.comments, is_test_target, cfg);
        let cands = untagged_of(bs);
        if cands.len() > 0 {
            let before = spec_code_tokens(id, src)->Ok_0;
            let init = StripState { working: src, stripped: 0, left: Seq::empty() };
            let vs = crate::strip::verdicts(id, p.comments, is_test_target, cfg);
            lemma_blocks_nonempty(src, p.comments, vs);
            let pr = |b: BlockView| nonempty_block(b);
            assert forall|k: int| 0 <= k < bs.len() implies pr(#[trigger] bs[k]) by {
                assert(nonempty_block(blocks_from(src, p.comments, vs, 0)[k]));
            }
            lemma_untagged_of_all(bs, pr);
            lemma_sort_desc_all(cands, pr);
            lemma_strip_all_shrinks(id, before, init, sort_desc(cands));
        }
    }
}

proof fn lemma_trim_start_with(s: Seq<char>, k: CharClass)
    ensures
        trim_start_with(s, k).len() <= s.len(),
        trim_start_with(s, k) == s.subrange(s.len() - trim_start_with(s, k).len(), s.len() as int),
        trim_start_with(s, k).len() > 0 ==> !in_class(trim_start_with(s, k)[0], k),
    decreases s.len(),
{
    if s.len() > 0 && in_class(s[0], k) {
        lemma_trim_start_with(s.drop_first(), k);
        assert(s.drop_first().subrange(
            s.drop_first().len() - trim_start_with(s, k).len(),
            s.drop_first().len() as int,
        ) =~= s.subrange(s.len() - trim_start_with(s, k).len(), s.len() as int));
    } else {
        assert(s.subrange(0, s.len() as int) =~= s);
    }
}

proof fn lemma_trim_end_with(s: Seq<char>, k: CharClass)
    ensures
        trim_end_with(s, k).len() <= s.len(),
        trim_end_with(s, k) == s.subrange(0, trim_end_with(s, k).len() as int),
        trim_end_with(s, k).len() > 0 ==> !in_class(trim_end_with(s, k).last(), k),
    decreases s.len(),
{
    if s.len() > 0 && in_class(s.last(), k) {
        lemma_trim_end_with(s.drop_last(), k);
        assert(s.drop_last().subrange(0, trim_end_with(s, k).len() as int) =~= s.subrange(
            0,
            trim_end_with(s, k).len() as int,
        ));
    } else {
        assert(s.subrange(0, s.len() as int) =~= s);
    }
}

/// `r` is the text of `s` between two of its offsets.
pub open spec fn is_window(r: Seq<char>, s: Seq<char>) -> bool {
    exists|lo: int, hi: int| 0 <= lo <= hi <= s.len() && r == #[trigger] s.subrange(lo, hi)
}

proof fn lemma_window_trans(r: Seq<char>, s: Seq<char>, t: Seq<char>)
    requires
        is_window(r, s),
        is_window(s, t),
    ensures
        is_window(r, t),
{
    let (a, b) = choose|lo: int, hi: int| 0 <= lo <= hi <= s.len() && r == #[trigger] s.subrange(lo, hi);
    let (c, d) = choose|lo: int, hi: int| 0 <= lo <= hi <= t.len() && s == #[trigger] t.subrange(lo, hi);
    assert(r =~= t.subrange(c + a, c + b));
}

proof fn lemma_window_self(s: Seq<char>)
    ensures
        is_window(s, s),
{
    assert(s =~= s.subrange(0, s.len() as int));
}

proof fn lemma_trims_are_windows(s: Seq<char>, k: CharClass)
    ensures
        is_window(trim_start_with(s, k), s),
        is_window(trim_end_with(s, k), s),
        is_window(trim(s), s),
{
    lemma_trim_start_with(s, k);
    lemma_trim_end_with(s, k);
    let a = trim_start_with(s, k);
    assert(a == s.subrange(s.len() - a.len(), s.len() as int));
    let b = trim_end_with(s, k);
    assert(b == s.subrange(0, b.len() as int));
    lemma_trim_start_with(s, CharClass::Space);
    let ts = trim_start(s);
    assert(ts == s.subrange(s.len() - ts.len(), s.len() as int));
    lemma_trim_end_with(ts, CharClass::Space);
    assert(trim(s) == ts.subrange(0, trim(s).len() as int));
    lemma_window_trans(trim(s), ts, s);
}

proof fn lemma_trim_trimmed(s: Seq<char>)
    ensures
        trim(trim(s)) == trim(s),
        trim(trim_start(s)) == trim(s),
{
    lemma_trim_start_with(s, CharClass::Space);
    let ts = trim_start(s);
    assert(trim_start(ts) == ts);
    lemma_trim_end_with(ts, CharClass::Space);
    let y = trim(s);
    assert(y == ts.subrange(0, y.len() as int));
    if y.len() > 0 {
        assert(y[0] == ts[0]);
    }
    assert(trim_start(y) == y);
    assert(trim_end(y) == y);
}

proof fn lemma_best_line_rest(t: Seq<char>, ps: Seq<Seq<char>>, n: int)
    ensures
        best_line_rest(t, ps, n) matches Some(b) ==> is_window(b, t),
        (forall|i: int| 0 <= i < n ==> !(#[trigger] ps[i]).is_prefix_of(t)) ==> best_line_rest(t, ps, n) is None,
    decreases n,
{
    if n > 0 {
        lemma_best_line_rest(t, ps, n - 1);
        if let Some(r) = line_rest(t, ps[n - 1]) {
            let rest = t.skip(ps[n - 1].len() as int);
            assert(rest =~= t.subrange(ps[n - 1].len() as int, t.len() as int));
            lemma_trims_are_windows(rest, CharClass::SlashOrBang);
            lemma_window_trans(r, rest, t);
        }
        if forall|i: int| 0 <= i < n ==> !(#[trigger] ps[i]).is_prefix_of(t) {
            assert(!ps[n - 1].is_prefix_of(t));
        }
    }
}

proof fn lemma_block_body_window(t: Seq<char>, open: Seq<char>, close: Option<Seq<char>>)
    requires
        open.is_prefix_of(t),
    ensures
        is_window(block_body(t, open, close), t),
        trim(block_body(t, open, close)) == block_body(t, open, close),
{
    let a = t.skip(open.len() as int);
    assert(a =~= t.subrange(open.len() as int, t.len() as int));
    let b = trim_start_with(a, CharClass::StarOrBang);
    lemma_trims_are_windows(a, CharClass::StarOrBang);
    lemma_window_trans(b, a, t);
    let c = trim_end(b);
    lemma_trims_are_windows(b, CharClass::Space);
    lemma_window_trans(c, b, t);
    let d = match close {
        Some(cl) => match strip_suffix(c, cl) {
            Some(r) => r,
            None => c,
        },
        None => c,
    };
    if d != c {
        assert(d =~= c.subrange(0, c.len() - close.unwrap().len()));
        lemma_window_trans(d, c, t);
    }
    let e = trim_end_with(d, CharClass::Star);
    lemma_trims_are_windows(d, CharClass::Star);
    lemma_window_trans(e, d, t);
    lemma_trims_are_windows(e, CharClass::Space);
    lemma_window_trans(trim(e), e, t);
    lemma_trim_trimmed(e);
}

/// A comment's body is a trimmed piece of its text: the characters between
/// two offsets of `text`, with no whitespace at either end; and a text that
/// opens with neither the block opener nor a line prefix gives itself,
/// trimmed.
pub proof fn law_comment_body_is_trimmed_window(
    text: Seq<char>,
    line_prefixes: Seq<Seq<char>>,
    block_open: Option<Seq<char>>,
    block_close: Option<Seq<char>>,
)
    ensures
        is_window(spec_comment_body(text, line_prefixes, block_open, block_close), text),
        trim(spec_comment_body(text, line_prefixes, block_open, block_close)) == spec_comment_body(
            text,
            line_prefixes,
            block_open,
            block_close,
        ),
        !(block_open is Some && block_open.unwrap().is_prefix_of(trim_start(text))) && (forall|i: int|
            0 <= i < line_prefixes.len() ==> !(#[trigger] line_prefixes[i]).is_prefix_of(trim_start(text)))
            ==> spec_comment_body(text, line_prefixes, block_open, block_close) == trim(text),
{
    let t = trim_start(text);
    lemma_trims_are_windows(text, CharClass::Space);
    lemma_best_line_rest(t, line_prefixes, line_prefixes.len() as int);
    lemma_trim_trimmed(text);
    if block_open is Some && block_open.unwrap().is_prefix_of(t) {
        lemma_block_body_window(t, block_open.unwrap(), block_close);
        lemma_window_trans(spec_comment_body(text, line_prefixes, block_open, block_close), t, text);
    } else {
        match best_line_rest(t, line_prefixes, line_prefixes.len() as int) {
            Some(b) => {
                lemma_trims_are_windows(b, CharClass::Space);
                lemma_window_trans(trim(b), b, t);
                lemma_window_trans(trim(b), t, text);
                lemma_trim_trimmed(b);
            },
            None => {
                lemma_trims_are_windows(t, CharClass::Space);
                lemma_window_trans(trim(t), t, text);
                lemma_trim_trimmed(t);
            },
        }
    }
}

proof fn lemma_insert_by_start_all(s: Seq<CommentView>, c: CommentView, p: spec_fn(CommentView) -> bool)
    requires
        p(c),
        forall|k: int| 0 <= k < s.len() ==> p(#[trigger] s[k]),
    ensures
        insert_by_start(s, c).len() == s.len() + 1,
        forall|k: int| 0 <= k < insert_by_start(s, c).len() ==> p(#[trigger] insert_by_start(s, c)[k]),
    decreases s.len(),
{
    if s.len() > 0 && s.last().start_byte > c.start_byte {
        assert forall|k: int| 0 <= k < s.drop_last().len() implies p(#[trigger] s.drop_last()[k]) by {
            assert(s.drop_last()[k] == s[k]);
        }
        lemma_insert_by_start_all(s.drop_last(), c, p);
        let t = insert_by_start(s.drop_last(), c);
        assert forall|k: int| 0 <= k < insert_by_start(s, c).len() implies p(#[trigger] insert_by_start(s, c)[k]) by {
            if k < t.len() {
                assert(insert_by_start(s, c)[k] == t[k]);
            } else {
                assert(insert_by_start(s, c)[k] == s[s.len() - 1]);
            }
        }
    } else if s.len() > 0 {
        assert forall|k: int| 0 <= k < insert_by_start(s, c).len() implies p(#[trigger] insert_by_start(s, c)[k]) by {
            if k < s.len() {
                assert(insert_by_start(s, c)[k] == s[k]);
            }
        }
    }
}

proof fn lemma_sort_by_start_all(s: Seq<CommentView>, p: spec_fn(CommentView) -> bool)
    requires
        forall|k: int| 0 <= k < s.len() ==> p(#[trigger] s[k]),
    ensures
        forall|k: int| 0 <= k < sort_by_start(s).len() ==> p(#[trigger] sort_by_start(s)[k]),
    decreases s.len(),
{
    if s.len() > 0 {
        assert forall|k: int| 0 <= k < s.drop_last().len() implies p(#[trigger] s.drop_last()[k]) by {
            assert(s.drop_last()[k] == s[k]);
        }
        lemma_sort_by_start_all(s.drop_last(), p);
        lemma_insert_by_start_all(sort_by_start(s.drop_last()), s.last(), p);
    }
}

proof fn lemma_insert_by_start_sorted(s: Seq<CommentView>, c: CommentView)
    requires
        forall|i: int, j: int| 0 <= i < j < s.len() ==> s[i].start_byte <= s[j].start_byte,
    ensures
        forall|i: int, j: int|
            0 <= i < j < insert_by_start(s, c).len() ==> insert_by_start(s, c)[i].start_byte <= insert_by_start(
                s,
                c,
            )[j].start_byte,
    decreases s.len(),
{
    lemma_insert_by_start_all(s, c, |x: CommentView| true);
    if s.len() > 0 && s.last().start_byte > c.start_byte {
        let t = insert_by_start(s.drop_last(), c);
        lemma_insert_by_start_sorted(s.drop_last(), c);
        let m = s.last().start_byte;
        let below = |x: CommentView| x.start_byte <= m;
        assert forall|k: int| 0 <= k < s.drop_last().len() implies below(#[trigger] s.drop_last()[k]) by {
            assert(s.drop_last()[k] == s[k]);
        }
        lemma_insert_by_start_all(s.drop_last(), c, below);
        assert forall|i: int, j: int|
            0 <= i < j < insert_by_start(s, c).len() implies insert_by_start(s, c)[i].start_byte <= insert_by_start(
            s,
            c,
        )[j].start_byte by {
            assert(insert_by_start(s, c)[i] == t[i]);
            if j < t.len() {
                assert(insert_by_start(s, c)[j] == t[j]);
            } else {
                assert(below(t[i]));
            }
        }
    } else if s.len() > 0 {
        assert forall|i: int, j: int|
            0 <= i < j < insert_by_start(s, c).len() implies insert_by_start(s, c)[i].start_byte <= insert_by_start(
            s,
            c,
        )[j].start_byte by {
            if j < s.len() {
                assert(insert_by_start(s, c)[j] == s[j]);
            }
            assert(insert_by_start(s, c)[i] == s[i]);
            assert(s[i].start_byte <= s[s.len() - 1].start_byte);
        }
    }
}

proof fn lemma_sort_by_start_sorted(s: Seq<CommentView>)
    ensures
        forall|i: int, j: int|
            0 <= i < j < sort_by_start(s).len() ==> sort_by_start(s)[i].start_byte <= sort_by_start(s)[j].start_byte,
    decreases s.len(),
{
    if s.len() > 0 {
        lemma_sort_by_start_sorted(s.drop_last());
        lemma_insert_by_start_sorted(sort_by_start(s.drop_last()), s.last());
    }
}

/// What holds of each comment that a parse returns for language `id` over
/// `src`: its text is the text of its bytes, which end within the file; a
/// comment of the tree itself starts at or before its end; a comment found in
/// a script embedded in a nix string is a non-empty line comment on one row,
/// neither a doc comment nor in a macro, with no attributes.
pub open spec fn well_placed(id: LangId, src: Seq<u8>, c: CommentView) -> bool {
    &&& c.text == node_text(src, c.start_byte, c.end_byte)
    &&& c.end_byte <= src.len()
    &&& match c.embedded_script_row {
        None => 0 <= c.start_byte <= c.end_byte,
        Some(_) => {
            &&& id == LangId::Nix
            &&& c.start_byte < c.end_byte
            &&& c.start_row == c.end_row
            &&& c.shape == CommentShape::Line
            &&& !c.is_doc
            &&& !c.in_macro
            &&& c.enclosing_attributes.len() == 0
        },
    }
}

proof fn lemma_comments_upto_placed(
    id: LangId,
    ns: Seq<NodeView>,
    src: Seq<u8>,
    row: LangRow,
    is_test_target: bool,
    n: int,
)
    requires
        nodes_wf(ns, src.len() as int),
        n <= ns.len(),
    ensures
        forall|k: int|
            0 <= k < comments_upto(ns, src, row, is_test_target, n).len() ==> well_placed(
                id,
                src,
                #[trigger] comments_upto(ns, src, row, is_test_target, n)[k],
            ),
    decreases n,
{
    if n > 0 {
        lemma_comments_upto_placed(id, ns, src, row, is_test_target, n - 1);
        lemma_wf_node(ns, src.len() as int, n - 1);
        let prev = comments_upto(ns, src, row, is_test_target, n - 1);
        if is_collected(ns, row, n - 1) {
            let all = comments_upto(ns, src, row, is_test_target, n);
            assert forall|k: int| 0 <= k < all.len() implies well_placed(id, src, #[trigger] all[k]) by {
                if k < prev.len() {
                    assert(all[k] == prev[k]);
                }
            }
        }
    }
}

/// A comment of a script embedded in a nix string: well placed, and it
/// names the script's row.
pub open spec fn embedded_placed(src: Seq<u8>, c: CommentView) -> bool {
    well_placed(LangId::Nix, src, c) && c.embedded_script_row is Some
}

proof fn lemma_embed_all_placed(
    src: Seq<u8>,
    starts: Seq<int>,
    end: int,
    indent: int,
    body_row: int,
    script_row: int,
    ps: Seq<(int, int)>,
)
    requires
        end <= src.len(),
    ensures
        forall|k: int|
            0 <= k < embed_all(src, starts, end, indent, body_row, script_row, ps).len() ==> embedded_placed(
                src,
                #[trigger] embed_all(src, starts, end, indent, body_row, script_row, ps)[k],
            ),
    decreases ps.len(),
{
    if ps.len() > 0 {
        lemma_embed_all_placed(src, starts, end, indent, body_row, script_row, ps.drop_last());
        let prev = embed_all(src, starts, end, indent, body_row, script_row, ps.drop_last());
        let all = embed_all(src, starts, end, indent, body_row, script_row, ps);
        assert forall|k: int| 0 <= k < all.len() implies embedded_placed(src, #[trigger] all[k]) by {
            if k < prev.len() {
                assert(all[k] == prev[k]);
            }
        }
    }
}

proof fn lemma_fragment_scan_range(ns: Seq<NodeView>, p: int, m: int)
    ensures
        forall|k: int| 0 <= k < fragment_scan(ns, p, m).len() ==> 0 <= #[trigger] fragment_scan(ns, p, m)[k] < ns.len(),
    decreases ns.len() - m,
{
    if !(m < 0 || m >= ns.len() || ns[m].depth <= ns[p].depth) {
        lemma_fragment_scan_range(ns, p, m + 1);
        let rest = fragment_scan(ns, p, m + 1);
        if ns[m].depth == ns[p].depth + 1 && ns[m].kind == "string_fragment"@ {
            assert forall|k: int| 0 <= k < fragment_scan(ns, p, m).len() implies 0 <= #[trigger] fragment_scan(
                ns,
                p,
                m,
            )[k] < ns.len() by {
                if k > 0 {
                    assert(fragment_scan(ns, p, m)[k] == rest[k - 1]);
                }
            }
        }
    }
}

proof fn lemma_nix_embedded_placed(ns: Seq<NodeView>, src: Seq<u8>, n: int)
    requires
        nodes_wf(ns, src.len() as int),
        n <= ns.len(),
    ensures
        nix_embedded(ns, src, n) matches Ok((cs, _)) ==> forall|k: int|
            0 <= k < cs.len() ==> embedded_placed(src, #[trigger] cs[k]),
    decreases n,
{
    if n > 0 {
        lemma_nix_embedded_placed(ns, src, n - 1);
        if let Ok((cs, spans)) = nix_embedded(ns, src, n - 1) {
            let i = n - 1;
            let frags = fragments(ns, i);
            if !(ns[i].kind != "indented_string_expression"@ || frags.len() == 0) && is_script_string(ns, src, i) {
                if let Ok(more) = embed_string(ns, src, frags) {
                    lemma_fragment_scan_range(ns, i, i + 1);
                    let last = frags[frags.len() - 1];
                    lemma_wf_node(ns, src.len() as int, last);
                    let start = ns[frags[0]].start_byte;
                    let end = ns[frags.last()].end_byte;
                    let body = script_body(ns, src, frags, start, end);
                    let buf = dedented(body);
                    let ns2 = parsed_syntax(LangId::Bash, buf).unwrap();
                    let body_row = count_newlines(src.take(start));
                    let script_row = body_row + if body.len() > 0 && body[0] == 10u8 {
                        1int
                    } else {
                        0int
                    };
                    lemma_embed_all_placed(
                        src,
                        line_starts(src),
                        end,
                        body_indent(body),
                        body_row,
                        script_row,
                        comment_positions(ns2, ns2.len() as int) + heredoc_positions(ns2, buf, ns2.len() as int),
                    );
                    let all = cs + more;
                    assert forall|k: int| 0 <= k < all.len() implies embedded_placed(src, #[trigger] all[k]) by {
                        if k < cs.len() {
                            assert(all[k] == cs[k]);
                        } else {
                            assert(all[k] == more[k - cs.len()]);
                        }
                    }
                }
            }
        }
    }
}

/// The comments of a parse come in order and in place: sorted by start byte,
/// each with the text of its bytes, which end within the file; a comment of
/// the tree starts at or before its end, and a comment of a script embedded in
/// a nix string is a non-empty line comment on one row, neither a doc comment
/// nor in a macro, with no attributes.
pub proof fn law_parse_comments_in_order_and_place(id: LangId, src: Seq<u8>, is_test_target: bool)
    requires
        spec_parse(id, src, is_test_target) is Ok,
    ensures
        forall|i: int, j: int|
            0 <= i < j < spec_parse(id, src, is_test_target)->Ok_0.comments.len() ==> spec_parse(
                id,
                src,
                is_test_target,
            )->Ok_0.comments[i].start_byte <= spec_parse(id, src, is_test_target)->Ok_0.comments[j].start_byte,
        forall|k: int|
            0 <= k < spec_parse(id, src, is_test_target)->Ok_0.comments.len() ==> well_placed(
                id,
                src,
                #[trigger] spec_parse(id, src, is_test_target)->Ok_0.comments[k],
            ),
{
    let ns = parsed_syntax(id, src).unwrap();
    let row = lang_row(id);
    let base = comments_upto(ns, src, row, is_test_target, ns.len() as int);
    lemma_comments_upto_placed(id, ns, src, row, is_test_target, ns.len() as int);
    let pl = |c: CommentView| well_placed(id, src, c);
    if id == LangId::Nix {
        lemma_nix_embedded_placed(ns, src, ns.len() as int);
        let more = nix_embedded(ns, src, ns.len() as int)->Ok_0.0;
        let all = base + more;
        assert forall|k: int| 0 <= k < all.len() implies pl(#[trigger] all[k]) by {
            if k < base.len() {
                assert(all[k] == base[k]);
            } else {
                assert(all[k] == more[k - base.len()]);
            }
        }
        lemma_sort_by_start_all(all, pl);
        lemma_sort_by_start_sorted(all);
    } else {
        assert forall|k: int| 0 <= k < base.len() implies pl(#[trigger] base[k]) by {
        }
        lemma_sort_by_start_all(base, pl);
        lemma_sort_by_start_sorted(base);
    }
}

/// Comment `c`, mapped back from a script embedded in a string that ends at
/// byte `end`, lies on one line of the file: it starts at or after the start
/// `starts[row]` of its row and in the column of that start, and ends no later
/// than that line's end and the string's end; it holds the text of its bytes,
/// is a line comment that is neither a doc comment nor in a macro, carries no
/// attributes, and names the script's first row.
pub open spec fn on_its_line(src: Seq<u8>, starts: Seq<int>, end: int, script_row: int, c: CommentView) -> bool {
    &&& 0 <= c.start_row < starts.len()
    &&& c.end_row == c.start_row
    &&& starts[c.start_row] <= c.start_byte < c.end_byte
    &&& c.end_byte <= end
    &&& c.end_byte <= line_end(src, starts[c.start_row])
    &&& c.start_col == c.start_byte - starts[c.start_row]
    &&& c.end_col == c.end_byte - starts[c.start_row]
    &&& c.text == node_text(src, c.start_byte, c.end_byte)
    &&& c.shape == CommentShape::Line
    &&& !c.is_doc
    &&& !c.in_macro
    &&& c.enclosing_attributes.len() == 0
    &&& c.embedded_script_row == Some(script_row)
}

/// Every comment that the positions `ps` of a script's comments map back to
/// lies on its own line of the file, within the string (see [`on_its_line`]).
pub proof fn law_embedded_comments_on_their_lines(
    src: Seq<u8>,
    starts: Seq<int>,
    end: int,
    indent: int,
    body_row: int,
    script_row: int,
    ps: Seq<(int, int)>,
)
    requires
        indent >= 0,
        body_row >= 0,
        forall|k: int| 0 <= k < ps.len() ==> (#[trigger] ps[k]).0 >= 0 && ps[k].1 >= 0,
    ensures
        forall|k: int|
            0 <= k < embed_all(src, starts, end, indent, body_row, script_row, ps).len() ==> on_its_line(
                src,
                starts,
                end,
                script_row,
                #[trigger] embed_all(src, starts, end, indent, body_row, script_row, ps)[k],
            ),
    decreases ps.len(),
{
    if ps.len() > 0 {
        assert forall|k: int| 0 <= k < ps.drop_last().len() implies (#[trigger] ps.drop_last()[k]).0 >= 0
            && ps.drop_last()[k].1 >= 0 by {
            assert(ps.drop_last()[k] == ps[k]);
        }
        law_embedded_comments_on_their_lines(src, starts, end, indent, body_row, script_row, ps.drop_last());
        assert(ps.last() == ps[ps.len() - 1]);
        let prev = embed_all(src, starts, end, indent, body_row, script_row, ps.drop_last());
        let all = embed_all(src, starts, end, indent, body_row, script_row, ps);
        assert forall|k: int| 0 <= k < all.len() implies on_its_line(src, starts, end, script_row, #[trigger] all[k]) by {
            if k < prev.len() {
                assert(all[k] == prev[k]);
            }
        }
    }
}

/// Only a heredoc that feeds python is read: when no heredoc body among the
/// first `n` nodes of a bash tree is fed to a `python` or `python3` command (a
/// `cat <<EOF` body, say), the heredocs contribute no comment positions.
pub proof fn law_only_python_heredocs_are_read(ns: Seq<NodeView>, buf: Seq<u8>, n: int)
    requires
        forall|h: int| 0 <= h < n && ns[h].kind == "heredoc_body"@ ==> !#[trigger] feeds_python(ns, buf, h),
    ensures
        heredoc_positions(ns, buf, n) == Seq::<(int, int)>::empty(),
    decreases n,
{
    if n > 0 {
        law_only_python_heredocs_are_read(ns, buf, n - 1);
        if ns[n - 1].kind == "heredoc_body"@ {
            assert(!feeds_python(ns, buf, n - 1));
        }
    }
}

/// The bytes of `w` from `lo` up to `hi` are spaces and tabs.
pub open spec fn blanks(w: Seq<u8>, lo: int, hi: int) -> bool {
    forall|i: int| lo <= i < hi ==> (#[trigger] w[i] == 32u8 || w[i] == 9u8)
}

proof fn lemma_ws_back_blanks(w: Seq<u8>, i: int)
    requires
        0 <= i <= w.len(),
    ensures
        blanks(w, ws_back(w, i), i),
    decreases i,
{
    if 0 < i && (w[i - 1] == 32u8 || w[i - 1] == 9u8) {
        lemma_ws_back_blanks(w, i - 1);
    }
}

proof fn lemma_ws_fwd_blanks(w: Seq<u8>, i: int)
    requires
        0 <= i <= w.len(),
    ensures
        blanks(w, i, ws_fwd(w, i)),
    decreases w.len() - i,
{
    if i < w.len() && (w[i] == 32u8 || w[i] == 9u8) {
        lemma_ws_fwd_blanks(w, i + 1);
    }
}

/// What deleting block `b` from `w` over the span `s..e` takes besides the
/// block's own bytes: only whitespace. Before a whole-line block, the text
/// from its line's start is blank, and after it the rest of its last line is
/// blank, taken with its newline when the block had not taken that already;
/// before a trailing block, spaces and tabs; after a leading inline block,
/// spaces and tabs.
pub open spec fn takes_only_whitespace(w: Seq<u8>, b: BlockView, s: int, e: int) -> bool {
    &&& s <= b.start_byte <= b.end_byte <= e
    &&& match b.placement {
        Placement::WholeLine => {
            &&& s == line_start(w, b.start_byte)
            &&& all_ws(node_text(w, s, b.start_byte))
            &&& b.end_col == 0 ==> e == b.end_byte
            &&& b.end_col != 0 ==> all_ws(node_text(w, b.end_byte, line_end(w, b.end_byte))) && (e == line_end(
                w,
                b.end_byte,
            ) || (e == line_end(w, b.end_byte) + 1 && w[line_end(w, b.end_byte)] == 10u8))
        },
        Placement::Trailing => e == b.end_byte && blanks(w, s, b.start_byte),
        Placement::LeadingInline => s == b.start_byte && blanks(w, b.end_byte, e),
    }
}

/// Deleting a block of the text takes, besides the block's own bytes, only
/// whitespace (see [`takes_only_whitespace`]): the code on the lines around
/// it, and any comment that is not blank, stay.
pub proof fn law_deletion_takes_only_whitespace(src: Seq<u8>, cs: Seq<CommentView>, vs: Seq<Verdict>, k: int)
    requires
        0 <= k < blocks_from(src, cs, vs, 0).len(),
        spec_deletion_span(src, blocks_from(src, cs, vs, 0)[k]) is Some,
    ensures
        takes_only_whitespace(
            src,
            blocks_from(src, cs, vs, 0)[k],
            spec_deletion_span(src, blocks_from(src, cs, vs, 0)[k])->Some_0.0,
            spec_deletion_span(src, blocks_from(src, cs, vs, 0)[k])->Some_0.1,
        ),
{
    let blocks = blocks_from(src, cs, vs, 0);
    let b = blocks[k];
    let bounds = law_blocks_partition_comments(src, cs, vs);
    let lo = bounds[k];
    let hi = bounds[k + 1];
    assert(block_of_run(src, cs, vs, b, lo, hi));
    assert(0 <= bounds[0] <= lo < hi <= bounds[blocks.len() as int]);
    if hi - 1 > lo {
        assert(continues_at(src, cs, vs, lo, hi - 1));
    }
    lemma_line_bounds(src, b.start_byte);
    lemma_line_bounds(src, b.end_byte);
    lemma_ws_back_blanks(src, b.start_byte);
    lemma_ws_fwd_blanks(src, b.end_byte);
}

proof fn lemma_unclassified_from_rows(
    text: Seq<char>,
    p: int,
    r: int,
    row: LangRow,
    tags: Seq<Seq<char>>,
    spans: Seq<(int, int)>,
    blocks: Seq<BlockView>,
)
    ensures
        forall|k: int|
            0 <= k < unclassified_from(text, p, r, row, tags, spans, blocks).len() ==> r <= (
            #[trigger] unclassified_from(text, p, r, row, tags, spans, blocks)[k]).0 && !row_covered(
                blocks,
                unclassified_from(text, p, r, row, tags, spans, blocks)[k].0,
            ),
        forall|i: int, j: int|
            0 <= i < j < unclassified_from(text, p, r, row, tags, spans, blocks).len() ==> (
            #[trigger] unclassified_from(text, p, r, row, tags, spans, blocks)[i]).0 < (
            #[trigger] unclassified_from(text, p, r, row, tags, spans, blocks)[j]).0,
    decreases text.len() - p,
{
    if !(p < 0 || p > text.len()) {
        let e = newline_index(text, p);
        let here = match line_report(text, p, e, r, row, tags, spans, blocks) {
            Some(x) => seq![x],
            None => Seq::<(int, Seq<char>)>::empty(),
        };
        if p <= e < text.len() {
            lemma_unclassified_from_rows(text, e + 1, r + 1, row, tags, spans, blocks);
            let rest = unclassified_from(text, e + 1, r + 1, row, tags, spans, blocks);
            let all = unclassified_from(text, p, r, row, tags, spans, blocks);
            assert(all == here + rest);
            assert forall|k: int| 0 <= k < all.len() implies r <= (#[trigger] all[k]).0 && !row_covered(
                blocks,
                all[k].0,
            ) by {
                if k >= here.len() {
                    assert(all[k] == rest[k - here.len()]);
                }
            }
            assert forall|i: int, j: int| 0 <= i < j < all.len() implies (#[trigger] all[i]).0 < (
            #[trigger] all[j]).0 by {
                assert(all[j] == rest[j - here.len()]);
                if i >= here.len() {
                    assert(all[i] == rest[i - here.len()]);
                }
            }
        }
    }
}

/// The unclassified lines come at most one per row, in ascending row order,
/// and none lies on a row that a block covers; with no span left unread by
/// the grammars there are none.
pub proof fn law_unclassified_lines_in_row_order(
    id: LangId,
    text: Seq<char>,
    spans: Seq<(int, int)>,
    blocks: Seq<BlockView>,
    cfg: ConfigView,
)
    ensures
        spans.len() == 0 ==> spec_unclassified(id, text, spans, blocks, cfg) == Seq::<(int, Seq<char>)>::empty(),
        forall|i: int, j: int|
            0 <= i < j < spec_unclassified(id, text, spans, blocks, cfg).len() ==> (
            #[trigger] spec_unclassified(id, text, spans, blocks, cfg)[i]).0 < (
            #[trigger] spec_unclassified(id, text, spans, blocks, cfg)[j]).0,
        forall|k: int|
            0 <= k < spec_unclassified(id, text, spans, blocks, cfg).len() ==> 0 <= (
            #[trigger] spec_unclassified(id, text, spans, blocks, cfg)[k]).0 && !row_covered(
                blocks,
                spec_unclassified(id, text, spans, blocks, cfg)[k].0,
            ),
{
    lemma_unclassified_from_rows(text, 0, 0, lang_row(id), cfg.tags, spans, blocks);
}

/// `w` and `src` agree on their first `p` bytes, and both have that many.
spec fn agree_upto(w: Seq<u8>, src: Seq<u8>, p: int) -> bool {
    &&& 0 <= p <= w.len()
    &&& p <= src.len()
    &&& forall|i: int| 0 <= i < p ==> #[trigger] w[i] == src[i]
}

proof fn lemma_line_start_agree(w: Seq<u8>, src: Seq<u8>, p: int, i: int)
    requires
        agree_upto(w, src, p),
        0 <= i <= p,
    ensures
        line_start(w, i) == line_start(src, i),
    decreases i,
{
    if i > 0 {
        assert(w[i - 1] == src[i - 1]);
        lemma_line_start_agree(w, src, p, i - 1);
    }
}

proof fn lemma_ws_back_agree(w: Seq<u8>, src: Seq<u8>, p: int, i: int)
    requires
        agree_upto(w, src, p),
        0 <= i <= p,
    ensures
        ws_back(w, i) == ws_back(src, i),
    decreases i,
{
    if i > 0 {
        assert(w[i - 1] == src[i - 1]);
        lemma_ws_back_agree(w, src, p, i - 1);
    }
}

proof fn lemma_line_end_agree(w: Seq<u8>, src: Seq<u8>, p: int, i: int)
    requires
        agree_upto(w, src, p),
        0 <= i,
        line_end(src, i) < p,
    ensures
        line_end(w, i) == line_end(src, i),
    decreases src.len() - i,
{
    if i < src.len() && src[i] != 10u8 {
        lemma_line_end_bound(src, i + 1);
        assert(w[i] == src[i]);
        lemma_line_end_agree(w, src, p, i + 1);
    } else {
        assert(w[i] == src[i]);
    }
}

proof fn lemma_ws_fwd_agree(w: Seq<u8>, src: Seq<u8>, p: int, i: int)
    requires
        agree_upto(w, src, p),
        0 <= i,
        ws_fwd(src, i) < p,
    ensures
        ws_fwd(w, i) == ws_fwd(src, i),
    decreases src.len() - i,
{
    if i < src.len() && (src[i] == 32u8 || src[i] == 9u8) {
        lemma_ws_fwd_bound(src, i + 1);
        assert(w[i] == src[i]);
        lemma_ws_fwd_agree(w, src, p, i + 1);
    } else {
        assert(w[i] == src[i]);
    }
}

proof fn lemma_span_agree(w: Seq<u8>, src: Seq<u8>, p: int, b: BlockView)
    requires
        agree_upto(w, src, p),
        spec_deletion_span(src, b) is Some,
        spec_deletion_span(src, b)->Some_0.1 < p,
    ensures
        spec_deletion_span(w, b) == spec_deletion_span(src, b),
{
    let e = spec_deletion_span(src, b)->Some_0.1;
    lemma_line_bounds(src, b.start_byte);
    lemma_line_bounds(src, b.end_byte);
    match b.placement {
        Placement::WholeLine => {
            lemma_line_start_agree(w, src, p, b.start_byte);
            if b.end_col != 0 {
                lemma_line_end_agree(w, src, p, b.end_byte);
                let le = line_end(src, b.end_byte);
                assert(w[le] == src[le]);
            }
        },
        Placement::Trailing => {
            lemma_ws_back_agree(w, src, p, b.start_byte);
        },
        Placement::LeadingInline => {
            lemma_ws_fwd_agree(w, src, p, b.end_byte);
        },
    }
}

/// The deletion span of block `b`, measured on `src`.
pub open spec fn span_on(src: Seq<u8>, b: BlockView) -> (int, int) {
    spec_deletion_span(src, b)->Some_0
}

/// The deletion spans of the blocks `bs`, measured on `src`, all exist and
/// come one strictly before the other: each later block's span ends before an
/// earlier block's span starts.
pub open spec fn spans_descend(src: Seq<u8>, bs: Seq<BlockView>) -> bool {
    &&& forall|t: int| 0 <= t < bs.len() ==> spec_deletion_span(src, #[trigger] bs[t]) is Some
    &&& forall|t1: int, t2: int|
        0 <= t1 < t2 < bs.len() ==> span_on(src, #[trigger] bs[t2]).1 < span_on(src, #[trigger] bs[t1]).0
}

/// No deletion span of the blocks `bs`, measured on `src`, touches the bytes
/// `ts..te`.
pub open spec fn untouched(src: Seq<u8>, bs: Seq<BlockView>, ts: int, te: int) -> bool {
    forall|t: int| 0 <= t < bs.len() ==> te <= span_on(src, #[trigger] bs[t]).0 || span_on(src, bs[t]).1 <= ts
}

/// The bytes `ts..te` of `src` stand intact in `w` at offset `o`.
pub open spec fn intact_at(w: Seq<u8>, src: Seq<u8>, ts: int, te: int, o: int) -> bool {
    &&& 0 <= o
    &&& o + (te - ts) <= w.len()
    &&& w.subrange(o, o + (te - ts)) == src.subrange(ts, te)
}

/// Where the strip over `bs` has got to: the start of the span of the block
/// it tried last, or the end of the text before it has tried any.
spec fn frontier(src: Seq<u8>, bs: Seq<BlockView>) -> int {
    if bs.len() == 0 {
        src.len() as int
    } else {
        span_on(src, bs.last()).0
    }
}

proof fn lemma_strip_all_keeps_untouched(
    id: LangId,
    before: Seq<Seq<u8>>,
    src: Seq<u8>,
    bs: Seq<BlockView>,
    ts: int,
    te: int,
) -> (o: int)
    requires
        spans_descend(src, bs),
        untouched(src, bs, ts, te),
        0 <= ts < te <= src.len(),
    ensures
        agree_upto(
            strip_all(id, before, StripState { working: src, stripped: 0, left: Seq::empty() }, bs).working,
            src,
            frontier(src, bs),
        ),
        intact_at(
            strip_all(id, before, StripState { working: src, stripped: 0, left: Seq::empty() }, bs).working,
            src,
            ts,
            te,
            o,
        ),
        (o == ts && te <= frontier(src, bs)) || (o >= frontier(src, bs) && ts >= frontier(src, bs)),
    decreases bs.len(),
{
    let init = StripState { working: src, stripped: 0, left: Seq::empty() };
    if bs.len() == 0 {
        assert(src.subrange(ts, te) == src.subrange(ts, ts + (te - ts)));
        ts
    } else {
        let prev_bs = bs.drop_last();
        assert forall|t: int| 0 <= t < prev_bs.len() implies spec_deletion_span(src, #[trigger] prev_bs[t]) is Some by {
            assert(prev_bs[t] == bs[t]);
        }
        assert forall|t1: int, t2: int| 0 <= t1 < t2 < prev_bs.len() implies span_on(src, #[trigger] prev_bs[t2]).1
            < span_on(src, #[trigger] prev_bs[t1]).0 by {
            assert(prev_bs[t1] == bs[t1] && prev_bs[t2] == bs[t2]);
        }
        assert forall|t: int| 0 <= t < prev_bs.len() implies te <= span_on(src, #[trigger] prev_bs[t]).0 || span_on(
            src,
            prev_bs[t],
        ).1 <= ts by {
            assert(prev_bs[t] == bs[t]);
        }
        let o0 = lemma_strip_all_keeps_untouched(id, before, src, prev_bs, ts, te);
        let st = strip_all(id, before, init, prev_bs);
        let w = st.working;
        let p = frontier(src, prev_bs);
        let b = bs.last();
        assert(b == bs[bs.len() - 1]);
        assert(spec_deletion_span(src, b) is Some);
        let (s, e) = span_on(src, b);
        lemma_line_bounds(src, b.start_byte);
        lemma_line_bounds(src, b.end_byte);
        assert(0 <= s <= e <= src.len());
        if prev_bs.len() > 0 {
            assert(prev_bs.last() == bs[bs.len() - 2]);
            assert(e < p);
            lemma_span_agree(w, src, p, b);
        } else {
            assert(w == src);
        }
        assert(te <= s || e <= ts);
        let trial = w.take(s) + w.skip(e);
        let fin = strip_all(id, before, init, bs).working;
        assert(agree_upto(fin, src, s)) by {
            if fin != w {
                assert(fin == trial);
                assert forall|i: int| 0 <= i < s implies #[trigger] fin[i] == src[i] by {
                    assert(fin[i] == w[i]);
                }
            }
        }
        let len = te - ts;
        if fin == w {
            o0
        } else {
            assert(fin == trial);
            if te <= s {
                assert(o0 == ts);
                assert(fin.subrange(o0, o0 + len) =~= w.subrange(o0, o0 + len));
                o0
            } else {
                let o1 = o0 - (e - s);
                assert(o0 >= e);
                assert(fin.subrange(o1, o1 + len) =~= w.subrange(o0, o0 + len));
                o1
            }
        }
    }
}

/// The order in which the strip tries the blocks of `src`: its untagged
/// blocks, from the last to the first.
pub open spec fn strip_order(id: LangId, src: Seq<u8>, is_test_target: bool, cfg: ConfigView) -> Seq<BlockView> {
    sort_desc(
        untagged_of(
            crate::strip::spec_blocks(id, src, spec_parse(id, src, is_test_target)->Ok_0.comments, is_test_target, cfg),
        ),
    )
}

/// The text after processing: the new text, or the old one when none came
/// back.
pub open spec fn text_after(src: Seq<u8>, rep: ReportView) -> Seq<u8> {
    match rep.new_source {
        Some(t) => encode_utf8(t),
        None => src,
    }
}

/// Text that no deletion touches survives the strip intact: when the
/// deletion spans of the blocks the strip tries, measured on the original
/// text, come strictly one before the other, every piece of the original
/// text that none of them touches (a tagged comment, say) stands byte for
/// byte in the text that processing returns.
pub proof fn law_untouched_text_survives_the_strip(
    id: LangId,
    text: Seq<char>,
    is_test_target: bool,
    cfg: ConfigView,
    rep: ReportView,
    ts: int,
    te: int,
)
    requires
        spec_process(id, encode_utf8(text), text, is_test_target, cfg, true) == Ok::<ReportView, crate::error::WardenError>(rep),
        0 <= ts < te <= encode_utf8(text).len(),
        spans_descend(encode_utf8(text), strip_order(id, encode_utf8(text), is_test_target, cfg)),
        untouched(encode_utf8(text), strip_order(id, encode_utf8(text), is_test_target, cfg), ts, te),
    ensures
        exists|o: int| intact_at(text_after(encode_utf8(text), rep), encode_utf8(text), ts, te, o),
{
    let src = encode_utf8(text);
    let p = spec_parse(id, src, is_test_target)->Ok_0;
    let out = text_after(src, rep);
    if p.generated {
        assert(intact_at(out, src, ts, te, ts));
    } else {
        let bs = crate::strip::spec_blocks(id, src, p.comments, is_test_target, cfg);
        let cands = untagged_of(bs);
        if cands.len() == 0 {
            assert(intact_at(out, src, ts, te, ts));
        } else {
            let before = spec_code_tokens(id, src)->Ok_0;
            let init = StripState { working: src, stripped: 0, left: Seq::empty() };
            let st = strip_all(id, before, init, sort_desc(cands));
            let o = lemma_strip_all_keeps_untouched(id, before, src, sort_desc(cands), ts, te);
            if st.working != src {
                decode_utf8_encode_utf8(st.working);
                assert(out == st.working);
            }
            assert(intact_at(out, src, ts, te, o));
        }
    }
}

proof fn lemma_trim_marker_run(m: Seq<char>, x: Seq<char>, k: CharClass)
    requires
        forall|i: int| 0 <= i < m.len() ==> in_class(#[trigger] m[i], k),
        x.len() == 0 || !in_class(x[0], k),
    ensures
        trim_start_with(m + x, k) == x,
    decreases m.len(),
{
    if m.len() == 0 {
        assert(m + x =~= x);
    } else {
        assert((m + x).drop_first() =~= m.drop_first() + x);
        assert forall|i: int| 0 <= i < m.drop_first().len() implies in_class(#[trigger] m.drop_first()[i], k) by {
            assert(m.drop_first()[i] == m[i + 1]);
        }
        lemma_trim_marker_run(m.drop_first(), x, k);
    }
}

/// A doc marker goes with the line prefix: with `//` as the one line prefix
/// and `/*` as the block opener, a comment `//` followed by any run of `/` and
/// `!` (as in `/// x` and `//! x`) and then the text `x` has the body of `x`,
/// trimmed.
pub proof fn law_doc_marker_goes_with_the_prefix(m: Seq<char>, x: Seq<char>, block_close: Option<Seq<char>>)
    requires
        forall|i: int| 0 <= i < m.len() ==> in_class(#[trigger] m[i], CharClass::SlashOrBang),
        x.len() == 0 || !in_class(x[0], CharClass::SlashOrBang),
    ensures
        spec_comment_body(seq!['/', '/'] + m + x, seq![seq!['/', '/']], Some(seq!['/', '*']), block_close) == trim(x),
{
    let p = seq!['/', '/'];
    let text = p + m + x;
    assert(text[0] == '/');
    assert(trim_start(text) == text);
    assert(!seq!['/', '*'].is_prefix_of(text)) by {
        assert(text[1] == '/');
    }
    assert(p.is_prefix_of(text)) by {
        assert(text.subrange(0, 2) =~= p);
    }
    assert(text.skip(2) =~= m + x);
    lemma_trim_marker_run(m, x, CharClass::SlashOrBang);
    let ps = seq![p];
    assert(ps[0] == p);
    assert(line_rest(text, ps[0]) == Some(x));
    assert(best_line_rest(text, ps, 0) is None);
    assert(best_line_rest(text, ps, 1) == Some(x));
}

/// Node `i` of `ns` is a code token node (see `is_token_node`).
#[verifier::opaque]
pub open spec fn token_node_at(ns: Seq<NodeView>, row: LangRow, i: int) -> bool {
    is_token_node(ns, row, i)
}

/// The tokens `ts` are, in order, the texts of the nodes `idx` of the tree
/// `ns` over `src`: the nodes come in preorder, each lies within the text,
/// is a code token node (a data node, or a leaf that is no comment, with no
/// comment or data node above it), and holds at least one byte unless it is a
/// data node.
pub open spec fn tokens_are_node_slices(
    ns: Seq<NodeView>,
    src: Seq<u8>,
    row: LangRow,
    ts: Seq<Seq<u8>>,
    idx: Seq<int>,
) -> bool {
    &&& idx.len() == ts.len()
    &&& forall|k1: int, k2: int| 0 <= k1 < k2 < idx.len() ==> #[trigger] idx[k1] < #[trigger] idx[k2]
    &&& forall|k: int| 0 <= k < ts.len() ==> token_slice(ns, src, row, #[trigger] ts[k], idx[k])
}

/// Token `t` is the text of node `i`, a code token node within `src` that
/// holds at least one byte unless it is a data node.
pub open spec fn token_slice(ns: Seq<NodeView>, src: Seq<u8>, row: LangRow, t: Seq<u8>, i: int) -> bool {
    &&& 0 <= i < ns.len()
    &&& token_node_at(ns, row, i)
    &&& 0 <= ns[i].start_byte <= ns[i].end_byte <= src.len()
    &&& !holds_data(ns[i].kind) ==> ns[i].start_byte < ns[i].end_byte
    &&& t == src.subrange(ns[i].start_byte, ns[i].end_byte)
}

proof fn lemma_tokens_upto_slices(ns: Seq<NodeView>, src: Seq<u8>, row: LangRow, n: int) -> (idx: Seq<int>)
    requires
        nodes_wf(ns, src.len() as int),
        0 <= n <= ns.len(),
    ensures
        tokens_are_node_slices(ns, src, row, tokens_upto(ns, src, row, n), idx),
        forall|k: int| 0 <= k < idx.len() ==> #[trigger] idx[k] < n,
    decreases n,
{
    if n == 0 {
        assert(tokens_upto(ns, src, row, 0).len() == 0);
        Seq::empty()
    } else {
        let prev = lemma_tokens_upto_slices(ns, src, row, n - 1);
        let pts = tokens_upto(ns, src, row, n - 1);
        if is_token_node(ns, row, n - 1) {
            lemma_wf_node(ns, src.len() as int, n - 1);
            assert(token_node_at(ns, row, n - 1)) by {
                reveal(token_node_at);
            }
            assert(!holds_data(ns[n - 1].kind) ==> ns[n - 1].start_byte < ns[n - 1].end_byte);
            let idx = prev.push(n - 1);
            let ts = tokens_upto(ns, src, row, n);
            assert(ts == pts.push(src.subrange(ns[n - 1].start_byte, ns[n - 1].end_byte)));
            assert forall|k1: int, k2: int| 0 <= k1 < k2 < idx.len() implies #[trigger] idx[k1] < #[trigger] idx[k2] by {
                assert(idx[k1] == prev[k1]);
                if k2 < prev.len() {
                    assert(idx[k2] == prev[k2]);
                }
            }
            assert forall|k: int| 0 <= k < ts.len() implies token_slice(ns, src, row, #[trigger] ts[k], idx[k]) by {
                if k < pts.len() {
                    assert(ts[k] == pts[k]);
                    assert(idx[k] == prev[k]);
                }
            }
            assert forall|k: int| 0 <= k < idx.len() implies #[trigger] idx[k] < n by {
                if k < prev.len() {
                    assert(idx[k] == prev[k]);
                }
            }
            idx
        } else {
            assert(tokens_upto(ns, src, row, n) == pts);
            prev
        }
    }
}

/// The projection is a sequence of slices of the text, in order: each code
/// token is the bytes of a node of the tree that lies within the text, later
/// in the preorder than the token before it, and that is a data node or a
/// non-empty leaf that is no comment, with no comment or data node above it
/// (see [`tokens_are_node_slices`]).
pub proof fn law_code_tokens_are_node_slices(id: LangId, src: Seq<u8>) -> (idx: Seq<int>)
    requires
        spec_code_tokens(id, src) is Ok,
    ensures
        tokens_are_node_slices(parsed_syntax(id, src).unwrap(), src, lang_row(id), spec_code_tokens(id, src)->Ok_0, idx),
{
    let ns = parsed_syntax(id, src).unwrap();
    lemma_tokens_upto_slices(ns, src, lang_row(id), ns.len() as int)
}

proof fn lemma_comments_upto_no_attributes(ns: Seq<NodeView>, src: Seq<u8>, row: LangRow, n: int)
    ensures
        forall|k: int|
            0 <= k < comments_upto(ns, src, row, true, n).len() ==> (#[trigger] comments_upto(
                ns,
                src,
                row,
                true,
                n,
            )[k]).enclosing_attributes.len() == 0,
    decreases n,
{
    if n > 0 {
        lemma_comments_upto_no_attributes(ns, src, row, n - 1);
        let prev = comments_upto(ns, src, row, true, n - 1);
        let all = comments_upto(ns, src, row, true, n);
        assert forall|k: int| 0 <= k < all.len() implies (#[trigger] all[k]).enclosing_attributes.len() == 0 by {
            if k < prev.len() {
                assert(all[k] == prev[k]);
            }
        }
    }
}

/// In a test target no comment carries enclosing attributes: a parse made
/// for a test target returns every comment with an empty attribute list.
pub proof fn law_test_target_comments_carry_no_attributes(id: LangId, src: Seq<u8>)
    requires
        spec_parse(id, src, true) is Ok,
    ensures
        forall|k: int|
            0 <= k < spec_parse(id, src, true)->Ok_0.comments.len() ==> (#[trigger] spec_parse(
                id,
                src,
                true,
            )->Ok_0.comments[k]).enclosing_attributes.len() == 0,
{
    let ns = parsed_syntax(id, src).unwrap();
    let row = lang_row(id);
    let base = comments_upto(ns, src, row, true, ns.len() as int);
    lemma_comments_upto_no_attributes(ns, src, row, ns.len() as int);
    let none = |c: CommentView| c.enclosing_attributes.len() == 0;
    if id == LangId::Nix {
        lemma_nix_embedded_placed(ns, src, ns.len() as int);
        let more = nix_embedded(ns, src, ns.len() as int)->Ok_0.0;
        let all = base + more;
        assert forall|k: int| 0 <= k < all.len() implies none(#[trigger] all[k]) by {
            if k < base.len() {
                assert(all[k] == base[k]);
            } else {
                assert(all[k] == more[k - base.len()]);
                assert(embedded_placed(src, more[k - base.len()]));
            }
        }
        lemma_sort_by_start_all(all, none);
    } else {
        assert forall|k: int| 0 <= k < base.len() implies none(#[trigger] base[k]) by {
        }
        lemma_sort_by_start_all(base, none);
    }
}

proof fn lemma_shifted_positions(ps: Seq<(int, int)>, base: int)
    ensures
        forall|k: int|
            0 <= k < shifted_positions(ps, base).len() ==> exists|j: int|
                0 <= j < ps.len() && #[trigger] shifted_positions(ps, base)[k] == (base + (#[trigger] ps[j]).0, ps[j].1),
    decreases ps.len(),
{
    if ps.len() > 0 {
        lemma_shifted_positions(ps.drop_last(), base);
        let prev = shifted_positions(ps.drop_last(), base);
        let all = shifted_positions(ps, base);
        assert forall|k: int| 0 <= k < all.len() implies exists|j: int|
            0 <= j < ps.len() && #[trigger] all[k] == (base + (#[trigger] ps[j]).0, ps[j].1) by {
            if k < prev.len() {
                assert(all[k] == prev[k]);
                let j = choose|j: int|
                    0 <= j < ps.drop_last().len() && #[trigger] prev[k] == (base + (#[trigger] ps.drop_last()[j]).0, ps.drop_last()[j].1);
                assert(ps.drop_last()[j] == ps[j]);
            } else {
                assert(all[k] == (base + ps[ps.len() - 1].0, ps[ps.len() - 1].1));
            }
        }
    }
}

/// Node `h` of a bash tree over `buf` is a heredoc body fed to python.
pub open spec fn is_python_heredoc(ns: Seq<NodeView>, buf: Seq<u8>, h: int) -> bool {
    ns[h].kind == "heredoc_body"@ && feeds_python(ns, buf, h)
}

/// The `j`-th comment position that python finds in heredoc body `h` of a
/// bash tree over `buf`, moved down to the body's start row; none when python
/// gives no well-formed tree or has fewer positions.
pub open spec fn heredoc_comment_at(ns: Seq<NodeView>, buf: Seq<u8>, h: int, j: int) -> Option<(int, int)> {
    let body = buf.subrange(ns[h].start_byte, ns[h].end_byte);
    match parsed_syntax(LangId::Python, body) {
        Some(ns3) => if nodes_wf(ns3, body.len() as int) && 0 <= j < comment_positions(ns3, ns3.len() as int).len() {
            let q = comment_positions(ns3, ns3.len() as int)[j];
            Some((ns[h].start_row + q.0, q.1))
        } else {
            None
        },
        None => None,
    }
}

/// Heredoc body `h` (among the first `n` nodes) is fed to python, and `q` is
/// the `j`-th comment position python finds in it, moved down to the body's
/// start row.
pub open spec fn heredoc_gives(ns: Seq<NodeView>, buf: Seq<u8>, n: int, h: int, j: int, q: (int, int)) -> bool {
    0 <= h < n && is_python_heredoc(ns, buf, h) && heredoc_comment_at(ns, buf, h, j) == Some(q)
}

/// Every python position of the heredocs comes from a heredoc that feeds
/// python: the `k`-th is, for some heredoc body `h` among the first `n` nodes
/// that is fed to `python` or `python3`, the `j`-th comment position of
/// python's parse of that body, its row moved down by the row the body starts
/// on and its column kept; the law gives that `(h, j)`.
pub proof fn law_heredoc_position_comes_from_a_python_body(ns: Seq<NodeView>, buf: Seq<u8>, n: int, k: int) -> (hj: (
    int,
    int,
))
    requires
        0 <= k < heredoc_positions(ns, buf, n).len(),
    ensures
        heredoc_gives(ns, buf, n, hj.0, hj.1, heredoc_positions(ns, buf, n)[k]),
    decreases n,
{
    let prev = heredoc_positions(ns, buf, n - 1);
    let h = n - 1;
    let q = heredoc_positions(ns, buf, n)[k];
    if is_python_heredoc(ns, buf, h) {
        let body = buf.subrange(ns[h].start_byte, ns[h].end_byte);
        let more = python_positions(body, ns[h].start_row);
        assert(heredoc_positions(ns, buf, n) == prev + more);
        if k < prev.len() {
            assert(q == prev[k]);
            let (h2, j) = law_heredoc_position_comes_from_a_python_body(ns, buf, n - 1, k);
            (h2, j)
        } else {
            assert(q == more[k - prev.len()]);
            let ns3 = parsed_syntax(LangId::Python, body).unwrap();
            let cps = comment_positions(ns3, ns3.len() as int);
            lemma_shifted_positions(cps, ns[h].start_row);
            let sh = shifted_positions(cps, ns[h].start_row);
            assert(more == sh);
            let j = choose|j: int|
                0 <= j < cps.len() && #[trigger] sh[k - prev.len()] == (ns[h].start_row + (#[trigger] cps[j]).0, cps[j].1);
            (h, j)
        }
    } else {
        assert(heredoc_positions(ns, buf, n) == prev);
        let (h2, j) = law_heredoc_position_comes_from_a_python_body(ns, buf, n - 1, k);
        (h2, j)
    }
}

/// A comment of a tree node: node `i` is a collected comment node and `c` is
/// what the warden records of it.
pub open spec fn from_node(ns: Seq<NodeView>, src: Seq<u8>, row: LangRow, is_test_target: bool, c: CommentView) -> bool {
    c.embedded_script_row is None ==> exists|i: int|
        is_collected(ns, row, i) && c == #[trigger] comment_of(ns, src, row, is_test_target, i)
}

proof fn lemma_comments_upto_from_nodes(ns: Seq<NodeView>, src: Seq<u8>, row: LangRow, is_test_target: bool, n: int)
    ensures
        forall|k: int|
            0 <= k < comments_upto(ns, src, row, is_test_target, n).len() ==> from_node(
                ns,
                src,
                row,
                is_test_target,
                #[trigger] comments_upto(ns, src, row, is_test_target, n)[k],
            ),
    decreases n,
{
    if n > 0 {
        lemma_comments_upto_from_nodes(ns, src, row, is_test_target, n - 1);
        let prev = comments_upto(ns, src, row, is_test_target, n - 1);
        let all = comments_upto(ns, src, row, is_test_target, n);
        assert forall|k: int| 0 <= k < all.len() implies from_node(ns, src, row, is_test_target, #[trigger] all[k]) by {
            if k < prev.len() {
                assert(all[k] == prev[k]);
            } else {
                assert(all[k] == comment_of(ns, src, row, is_test_target, n - 1));
            }
        }
    }
}

/// Every comment that a parse returns, but for those of a script embedded in a
/// nix string, is the record of a comment node of the tree: the law gives the
/// node.
pub proof fn law_parse_comment_comes_from_a_node(id: LangId, src: Seq<u8>, is_test_target: bool, k: int) -> (i: int)
    requires
        spec_parse(id, src, is_test_target) is Ok,
        0 <= k < spec_parse(id, src, is_test_target)->Ok_0.comments.len(),
        spec_parse(id, src, is_test_target)->Ok_0.comments[k].embedded_script_row is None,
    ensures
        is_collected(parsed_syntax(id, src).unwrap(), lang_row(id), i),
        spec_parse(id, src, is_test_target)->Ok_0.comments[k] == comment_of(
            parsed_syntax(id, src).unwrap(),
            src,
            lang_row(id),
            is_test_target,
            i,
        ),
{
    let ns = parsed_syntax(id, src).unwrap();
    let row = lang_row(id);
    let base = comments_upto(ns, src, row, is_test_target, ns.len() as int);
    lemma_comments_upto_from_nodes(ns, src, row, is_test_target, ns.len() as int);
    let pr = |c: CommentView| from_node(ns, src, row, is_test_target, c);
    if id == LangId::Nix {
        lemma_nix_embedded_placed(ns, src, ns.len() as int);
        let more = nix_embedded(ns, src, ns.len() as int)->Ok_0.0;
        let all = base + more;
        assert forall|m: int| 0 <= m < all.len() implies pr(#[trigger] all[m]) by {
            if m < base.len() {
                assert(all[m] == base[m]);
            } else {
                assert(all[m] == more[m - base.len()]);
                assert(embedded_placed(src, more[m - base.len()]));
            }
        }
        lemma_sort_by_start_all(all, pr);
    } else {
        assert forall|m: int| 0 <= m < base.len() implies pr(#[trigger] base[m]) by {
        }
        lemma_sort_by_start_all(base, pr);
    }
    let c = spec_parse(id, src, is_test_target)->Ok_0.comments[k];
    assert(pr(c));
    choose|i: int| is_collected(ns, row, i) && c == #[trigger] comment_of(ns, src, row, is_test_target, i)
}

/// A comment in a macro is never judged as prose: its verdict is an
/// exemption, so the strip never takes it.
pub proof fn law_comment_in_a_macro_is_exempt(id: LangId, c: CommentView, is_test_target: bool, cfg: ConfigView)
    requires
        c.in_macro,
    ensures
        spec_verdict(id, c, is_test_target, cfg) is Exempt,
{
}

} // verus!
