//! Gathering the comments of a syntax tree: which nodes are comments the
//! warden judges, what it records of each, and their order in the file.
use vstd::prelude::*;

use crate::attrs::{enclosing_attrs, enclosing_attrs_exec};
use crate::comment::{comments_view, Comment, CommentShape, CommentView};
use crate::lang::{spec_row, LangRow, LangSpec};
use crate::parse::{holds_data, is_macro_kind};
use crate::syntax::{blocked, blocked_flags, is_parent, NodeView, SyntaxTree};
use crate::parse::{is_comment_kind, node_holds_data, node_is_macro};
use crate::text::{
    strings_view, strs_view, chars_of, contains_seq, eq_lit, node_text, skip_start, text_of, trim_start, window_contains,
    window_starts_with, CharClass,
};

verus! {

/// A node below the root that the comment walk does not descend into: a data
/// node or a comment.
pub open spec fn walk_stop(row: LangRow, ns: Seq<NodeView>, j: int) -> bool {
    j > 0 && (holds_data(ns[j].kind) || row.comment_kinds.contains(ns[j].kind))
}

/// A node below the root whose subtree a macro expands.
pub open spec fn macro_mark(ns: Seq<NodeView>, j: int) -> bool {
    j > 0 && is_macro_kind(ns[j].kind)
}

pub open spec fn walk_stops(row: LangRow, ns: Seq<NodeView>) -> Seq<bool> {
    Seq::new(ns.len(), |j: int| walk_stop(row, ns, j))
}

pub open spec fn macro_marks(ns: Seq<NodeView>) -> Seq<bool> {
    Seq::new(ns.len(), |j: int| macro_mark(ns, j))
}

/// Node `i` is a comment that the walk from the root reaches.
pub open spec fn is_collected(ns: Seq<NodeView>, row: LangRow, i: int) -> bool {
    &&& 0 < i < ns.len()
    &&& !holds_data(ns[i].kind)
    &&& row.comment_kinds.contains(ns[i].kind)
    &&& !blocked(ns, walk_stops(row, ns), i)
}

/// Whether one of `ps` opens `t`.
pub open spec fn any_prefix(ps: Seq<Seq<char>>, t: Seq<char>) -> bool {
    exists|k: int| 0 <= k < ps.len() && #[trigger] ps[k].is_prefix_of(t)
}

/// A block comment: its kind says so, or the language's block opener starts it.
pub open spec fn is_block_comment(row: LangRow, kind: Seq<char>, text: Seq<char>) -> bool {
    ||| contains_seq(kind, "block"@)
    ||| kind == "multiline_comment"@
    ||| (row.block_open is Some && row.block_open.unwrap().is_prefix_of(trim_start(text)))
}

/// A doc comment: a line or block doc opener of the language starts it.
pub open spec fn spec_is_doc(row: LangRow, text: Seq<char>) -> bool {
    any_prefix(row.doc_line, trim_start(text)) || any_prefix(row.doc_block, trim_start(text))
}

/// The parent of node `i`.
pub open spec fn parent_of(ns: Seq<NodeView>, i: int) -> int {
    choose|p: int| is_parent(ns, p, i)
}

/// What the warden records of comment node `i`.
pub open spec fn comment_of(
    ns: Seq<NodeView>,
    src: Seq<u8>,
    row: LangRow,
    is_test_target: bool,
    i: int,
) -> CommentView {
    let n = ns[i];
    let text = node_text(src, n.start_byte, n.end_byte);
    CommentView {
        start_byte: n.start_byte,
        end_byte: n.end_byte,
        start_row: n.start_row,
        start_col: n.start_col,
        end_row: n.end_row,
        end_col: n.end_col,
        shape: if is_block_comment(row, n.kind, text) {
            CommentShape::Block
        } else {
            CommentShape::Line
        },
        is_doc: spec_is_doc(row, text),
        text: text,
        in_macro: blocked(ns, macro_marks(ns), i),
        enclosing_attributes: if is_test_target {
            Seq::empty()
        } else {
            enclosing_attrs(ns, src, parent_of(ns, i), i)
        },
        embedded_script_row: None,
    }
}

/// The comments among the first `n` nodes, in preorder.
pub open spec fn comments_upto(
    ns: Seq<NodeView>,
    src: Seq<u8>,
    row: LangRow,
    is_test_target: bool,
    n: int,
) -> Seq<CommentView>
    decreases n,
{
    if n <= 0 {
        Seq::empty()
    } else if is_collected(ns, row, n - 1) {
        comments_upto(ns, src, row, is_test_target, n - 1).push(
            comment_of(ns, src, row, is_test_target, n - 1),
        )
    } else {
        comments_upto(ns, src, row, is_test_target, n - 1)
    }
}

/// `s` with `c` put after every element that starts no later than `c`: one
/// step of a stable sort by start byte.
pub open spec fn insert_by_start(s: Seq<CommentView>, c: CommentView) -> Seq<CommentView>
    decreases s.len(),
{
    if s.len() == 0 {
        seq![c]
    } else if s.last().start_byte <= c.start_byte {
        s.push(c)
    } else {
        insert_by_start(s.drop_last(), c).push(s.last())
    }
}

/// `s` stably sorted by start byte.
pub open spec fn sort_by_start(s: Seq<CommentView>) -> Seq<CommentView>
    decreases s.len(),
{
    if s.len() == 0 {
        s
    } else {
        insert_by_start(sort_by_start(s.drop_last()), s.last())
    }
}

proof fn lemma_insert_at(s: Seq<CommentView>, c: CommentView, k: int)
    requires
        0 <= k <= s.len(),
        k > 0 ==> s[k - 1].start_byte <= c.start_byte,
        forall|m: int| k <= m < s.len() ==> #[trigger] s[m].start_byte > c.start_byte,
    ensures
        insert_by_start(s, c) == s.insert(k, c),
    decreases s.len(),
{
    if s.len() == 0 {
        assert(s.insert(k, c) =~= seq![c]);
    } else if k == s.len() {
        assert(s.insert(k, c) =~= s.push(c));
    } else {
        lemma_insert_at(s.drop_last(), c, k);
        assert(s.insert(k, c) =~= s.drop_last().insert(k, c).push(s.last()));
    }
}

/// Puts `c` into the sorted `out` after every comment that starts no later.
fn insert_sorted(out: &mut Vec<Comment>, c: Comment)
    ensures
        comments_view(final(out)@) == insert_by_start(comments_view(old(out)@), c@),
{
    let ghost s = comments_view(out@);
    let mut k = out.len();
    while k > 0 && out[k - 1].start_byte > c.start_byte
        invariant
            k <= out@.len(),
            s == comments_view(out@),
            forall|m: int| k <= m < s.len() ==> #[trigger] s[m].start_byte > c@.start_byte,
        decreases k,
    {
        assert(s[k - 1] == out@[k - 1]@);
        k = k - 1;
    }
    proof {
        if k > 0 {
            assert(s[k - 1] == out@[k - 1]@);
        }
        lemma_insert_at(s, c@, k as int);
    }
    let ghost cv = c@;
    out.insert(k, c);
    assert(comments_view(out@) =~= s.insert(k as int, cv));
}

/// `cs` stably sorted by start byte.
pub fn sort_comments(cs: Vec<Comment>) -> (r: Vec<Comment>)
    ensures
        comments_view(r@) == sort_by_start(comments_view(cs@)),
{
    let ghost s = comments_view(cs@);
    let n = cs.len();
    let mut rest = cs;
    let mut out: Vec<Comment> = Vec::new();
    let mut i: usize = 0;
    assert(s.take(0) =~= Seq::<CommentView>::empty());
    assert(comments_view(rest@) =~= s.skip(0));
    while i < n
        invariant
            i <= n == s.len(),
            comments_view(rest@) == s.skip(i as int),
            rest@.len() == n - i,
            comments_view(out@) == sort_by_start(s.take(i as int)),
        decreases n - i,
    {
        let ghost r0 = rest@;
        let c = rest.remove(0);
        assert(c@ == comments_view(r0)[0]);
        assert(rest@ =~= r0.subrange(1, r0.len() as int));
        assert forall|k: int| 0 <= k < rest@.len() implies #[trigger] comments_view(rest@)[k] == s.skip(i + 1)[k] by {
            assert(comments_view(rest@)[k] == rest@[k]@);
            assert(rest@[k] == r0[k + 1]);
            assert(comments_view(r0)[k + 1] == r0[k + 1]@);
            assert(s.skip(i as int)[k + 1] == s.skip(i + 1)[k]);
        }
        assert(comments_view(rest@) =~= s.skip(i + 1));
        assert(s.take(i + 1).drop_last() =~= s.take(i as int));
        assert(s.take(i + 1).last() == s[i as int]);
        insert_sorted(&mut out, c);
        i = i + 1;
    }
    assert(s.take(n as int) =~= s);
    out
}

/// Whether one of `ps` opens the window `v[lo..hi]`.
pub(crate) fn any_prefix_exec(ps: &[&str], v: &Vec<char>, lo: usize, hi: usize) -> (r: bool)
    requires
        lo <= hi <= v@.len(),
    ensures
        r == any_prefix(strs_view(ps@), v@.subrange(lo as int, hi as int)),
{
    let ghost pv = strs_view(ps@);
    let mut k: usize = 0;
    while k < ps.len()
        invariant
            lo <= hi <= v@.len(),
            pv == strs_view(ps@),
            k <= ps@.len(),
            forall|m: int| 0 <= m < k ==> !(#[trigger] pv[m]).is_prefix_of(v@.subrange(lo as int, hi as int)),
        decreases ps@.len() - k,
    {
        let p = chars_of(ps[k]);
        if window_starts_with(v, lo, hi, &p) {
            assert(pv[k as int].is_prefix_of(v@.subrange(lo as int, hi as int)));
            return true;
        }
        k = k + 1;
    }
    false
}

/// The record of comment node `i` of `t`, whose ancestors hold a macro
/// exactly when `in_macro`.
fn comment_node(t: &SyntaxTree, src: &[u8], spec: &LangSpec, is_test_target: bool, i: usize, in_macro: bool) -> (c: Comment)
    requires
        t.wf(src@.len() as int),
        0 < i < t.nodes@.len(),
        in_macro == blocked(t.ns(), macro_marks(t.ns()), i as int),
    ensures
        c@ == comment_of(t.ns(), src@, spec_row(spec), is_test_target, i as int),
{
    let ghost ns = t.ns();
    let ghost row = spec_row(spec);
    assert(ns[i as int] == t.nodes@[i as int]@);
    proof {
        crate::syntax::lemma_wf_node(ns, src@.len() as int, i as int);
    }
    let node = &t.nodes[i];
    let text = text_of(src, node.start_byte, node.end_byte);
    let v = chars_of(text.as_str());
    let n = v.len();
    assert(v@.subrange(0, n as int) =~= v@);
    let a = skip_start(&v, 0, n, CharClass::Space);
    let kind = &node.kind;
    let block_word = chars_of("block");
    assert(kind@.subrange(0, kind@.len() as int) =~= kind@);
    let opener_starts = match spec.block_open {
        Some(open) => {
            let ov = chars_of(open);
            window_starts_with(&v, a, n, &ov)
        },
        None => false,
    };
    let is_block = window_contains(kind, 0, kind.len(), &block_word) || eq_lit(kind, "multiline_comment") || opener_starts;
    let is_doc = any_prefix_exec(spec.doc_prefixes.line, &v, a, n) || any_prefix_exec(spec.doc_prefixes.block, &v, a, n);
    let enclosing = if is_test_target {
        Vec::new()
    } else {
        let p = t.parent[i];
        proof {
            assert(is_parent(ns, p as int, i as int));
            crate::syntax::lemma_parent_unique(ns, p as int, parent_of(ns, i as int), i as int);
        }
        enclosing_attrs_exec(t, src, p, i)
    };
    let c = Comment {
        start_byte: node.start_byte,
        end_byte: node.end_byte,
        start_row: node.start_row,
        start_col: node.start_col,
        end_row: node.end_row,
        end_col: node.end_col,
        shape: if is_block { CommentShape::Block } else { CommentShape::Line },
        is_doc,
        text,
        in_macro,
        enclosing_attributes: enclosing,
        embedded_script_row: None,
    };
    assert(strings_view(c.enclosing_attributes@) =~= comment_of(ns, src@, row, is_test_target, i as int).enclosing_attributes);
    c
}

/// The comments of `t` in preorder: every comment node that a walk from the
/// root reaches without entering a data node or another comment.
pub fn collect_comments(t: &SyntaxTree, src: &[u8], spec: &LangSpec, is_test_target: bool) -> (r: Vec<Comment>)
    requires
        t.wf(src@.len() as int),
    ensures
        comments_view(r@) == comments_upto(t.ns(), src@, spec_row(spec), is_test_target, t.ns().len() as int),
{
    let ghost ns = t.ns();
    let ghost row = spec_row(spec);
    let n = t.nodes.len();
    let mut stop: Vec<bool> = Vec::new();
    let mut marks: Vec<bool> = Vec::new();
    let mut i: usize = 0;
    while i < n
        invariant
            ns == t.ns(),
            row == spec_row(spec),
            n == ns.len(),
            i <= n,
            stop@.len() == i,
            marks@.len() == i,
            forall|k: int| 0 <= k < i ==> #[trigger] stop@[k] == walk_stop(row, ns, k),
            forall|k: int| 0 <= k < i ==> #[trigger] marks@[k] == macro_mark(ns, k),
        decreases n - i,
    {
        assert(ns[i as int] == t.nodes@[i as int]@);
        let kind = &t.nodes[i].kind;
        let s = i > 0 && (node_holds_data(kind) || is_comment_kind(spec, kind));
        let m = i > 0 && node_is_macro(kind);
        stop.push(s);
        marks.push(m);
        i = i + 1;
    }
    assert(stop@ =~= walk_stops(row, ns));
    assert(marks@ =~= macro_marks(ns));
    let under = blocked_flags(t, Ghost(src@.len() as int), &stop);
    let in_macro = blocked_flags(t, Ghost(src@.len() as int), &marks);
    let mut out: Vec<Comment> = Vec::new();
    let mut i: usize = 0;
    while i < n
        invariant
            t.wf(src@.len() as int),
            ns == t.ns(),
            row == spec_row(spec),
            n == ns.len() == under@.len() == in_macro@.len(),
            stop@ == walk_stops(row, ns),
            marks@ == macro_marks(ns),
            i <= n,
            forall|k: int| 0 <= k < n ==> #[trigger] under@[k] == blocked(ns, stop@, k),
            forall|k: int| 0 <= k < n ==> #[trigger] in_macro@[k] == blocked(ns, marks@, k),
            comments_view(out@) == comments_upto(ns, src@, row, is_test_target, i as int),
        decreases n - i,
    {
        assert(ns[i as int] == t.nodes@[i as int]@);
        let kind = &t.nodes[i].kind;
        let collected = i > 0 && !node_holds_data(kind) && is_comment_kind(spec, kind) && !under[i];
        assert(collected == is_collected(ns, row, i as int));
        if collected {
            let c = comment_node(t, src, spec, is_test_target, i, in_macro[i]);
            out.push(c);
        }
        assert(comments_view(out@) =~= comments_upto(ns, src@, row, is_test_target, i + 1));
        i = i + 1;
    }
    out
}

} // verus!
