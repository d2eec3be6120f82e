//! The attribute paths that enclose a comment: those of the item the comment
//! documents and those of every item around it. A doc-surface rule matches a
//! comment by these paths.
use vstd::prelude::*;

use crate::parse::{attribute_paths, is_attr_kind, spec_attribute_paths};
use crate::syntax::{NodeView, SyntaxTree};
use crate::text::{chars_of, contains_seq, eq_lit, node_text, strings_view, text_of, window_contains};

verus! {

/// The paths that node `m`, an attribute item, names.
pub open spec fn node_paths(ns: Seq<NodeView>, src: Seq<u8>, m: int) -> Seq<Seq<char>> {
    spec_attribute_paths(node_text(src, ns[m].start_byte, ns[m].end_byte))
}

/// The paths of the attribute items among the children of `p` from node `m`
/// on, in order.
pub open spec fn own_scan(ns: Seq<NodeView>, src: Seq<u8>, p: int, m: int) -> Seq<Seq<char>>
    decreases ns.len() - m,
{
    if m < 0 || m >= ns.len() || ns[m].depth <= ns[p].depth {
        Seq::empty()
    } else {
        let here = if ns[m].depth == ns[p].depth + 1 && is_attr_kind(ns[m].kind) {
            node_paths(ns, src, m)
        } else {
            Seq::empty()
        };
        here + own_scan(ns, src, p, m + 1)
    }
}

/// The paths of the attribute items that are children of `p`.
pub open spec fn own_attrs(ns: Seq<NodeView>, src: Seq<u8>, p: int) -> Seq<Seq<char>> {
    own_scan(ns, src, p, p + 1)
}

/// The paths of the attributes that stand after a comment among the children
/// of `p`, from node `m` on: attribute items are read, comments are passed
/// over, and the first other sibling, the item, ends the run with the
/// attribute items of its own.
pub open spec fn follow_scan(ns: Seq<NodeView>, src: Seq<u8>, p: int, m: int) -> Seq<Seq<char>>
    decreases ns.len() - m,
{
    if m < 0 || m >= ns.len() || ns[m].depth <= ns[p].depth {
        Seq::empty()
    } else if ns[m].depth != ns[p].depth + 1 {
        follow_scan(ns, src, p, m + 1)
    } else if is_attr_kind(ns[m].kind) {
        node_paths(ns, src, m) + follow_scan(ns, src, p, m + 1)
    } else if contains_seq(ns[m].kind, "comment"@) {
        follow_scan(ns, src, p, m + 1)
    } else {
        own_attrs(ns, src, m)
    }
}

/// The attribute paths of every ancestor of the node before `j + 1` whose
/// depth is `d`, nearest first.
pub open spec fn anc_scan(ns: Seq<NodeView>, src: Seq<u8>, d: int, j: int) -> Seq<Seq<char>>
    decreases j + 1,
{
    if j < 0 || j >= ns.len() {
        Seq::empty()
    } else if ns[j].depth < d {
        own_attrs(ns, src, j) + anc_scan(ns, src, ns[j].depth, j - 1)
    } else {
        anc_scan(ns, src, d, j - 1)
    }
}

/// The attribute paths that enclose node `i`, whose parent is `p`: those of
/// the item that follows it among its siblings, then those of each ancestor
/// from the parent up to the root.
pub open spec fn enclosing_attrs(ns: Seq<NodeView>, src: Seq<u8>, p: int, i: int) -> Seq<Seq<char>> {
    follow_scan(ns, src, p, i + 1) + anc_scan(ns, src, ns[i].depth, i - 1)
}

/// The attribute paths that node `m` of `t` names.
fn node_paths_exec(t: &SyntaxTree, src: &[u8], m: usize) -> (r: Vec<String>)
    requires
        t.wf(src@.len() as int),
        m < t.nodes@.len(),
    ensures
        strings_view(r@) == node_paths(t.ns(), src@, m as int),
{
    assert(t.ns()[m as int] == t.nodes@[m as int]@);
    proof { crate::syntax::lemma_wf_node(t.ns(), src@.len() as int, m as int); }
    let text = text_of(src, t.nodes[m].start_byte, t.nodes[m].end_byte);
    attribute_paths(text.as_str())
}

fn is_attr_node(kind: &Vec<char>) -> (r: bool)
    ensures
        r == is_attr_kind(kind@),
{
    eq_lit(kind, "attribute_item") || eq_lit(kind, "inner_attribute_item")
}

fn append_strings(out: &mut Vec<String>, more: Vec<String>)
    ensures
        strings_view(final(out)@) == strings_view(old(out)@) + strings_view(more@),
{
    let ghost o0 = out@;
    let ghost m0 = more@;
    let mut more = more;
    out.append(&mut more);
    assert(strings_view(out@) =~= strings_view(o0) + strings_view(m0));
}

/// The paths of the attribute items that are children of node `p`.
fn own_attrs_exec(t: &SyntaxTree, src: &[u8], p: usize) -> (r: Vec<String>)
    requires
        t.wf(src@.len() as int),
        p < t.nodes@.len(),
    ensures
        strings_view(r@) == own_attrs(t.ns(), src@, p as int),
{
    let ghost ns = t.ns();
    let n = t.nodes.len();
    assert(ns[p as int] == t.nodes@[p as int]@);
    let dp = t.nodes[p].depth;
    let mut out: Vec<String> = Vec::new();
    let mut m = p + 1;
    while m < n && t.nodes[m].depth > dp
        invariant
            t.wf(src@.len() as int),
            ns == t.ns(),
            n == ns.len(),
            p < m <= n,
            dp == ns[p as int].depth,
            strings_view(out@) + own_scan(ns, src@, p as int, m as int) == own_attrs(ns, src@, p as int),
        decreases n - m,
    {
        assert(ns[m as int] == t.nodes@[m as int]@);
        let ghost before = strings_view(out@);
        if t.nodes[m].depth == dp + 1 && is_attr_node(&t.nodes[m].kind) {
            let here = node_paths_exec(t, src, m);
            append_strings(&mut out, here);
        }
        assert(strings_view(out@) + own_scan(ns, src@, p as int, m + 1) =~= before + own_scan(ns, src@, p as int, m as int));
        m = m + 1;
    }
    proof {
        if m < n {
            assert(ns[m as int] == t.nodes@[m as int]@);
        }
    }
    assert(strings_view(out@) =~= own_attrs(ns, src@, p as int));
    out
}

/// The attribute paths that enclose node `i`, whose parent is `p`.
pub fn enclosing_attrs_exec(t: &SyntaxTree, src: &[u8], p: usize, i: usize) -> (r: Vec<String>)
    requires
        t.wf(src@.len() as int),
        p < i < t.nodes@.len(),
    ensures
        strings_view(r@) == enclosing_attrs(t.ns(), src@, p as int, i as int),
{
    let ghost ns = t.ns();
    let n = t.nodes.len();
    assert(ns[p as int] == t.nodes@[p as int]@);
    let dp = t.nodes[p].depth;
    let comment_word = chars_of("comment");
    let mut out: Vec<String> = Vec::new();
    let mut m = i + 1;
    let mut done = false;
    while m < n && !done
        invariant
            t.wf(src@.len() as int),
            ns == t.ns(),
            n == ns.len(),
            p < i < n,
            i < m <= n,
            dp == ns[p as int].depth,
            comment_word@ == "comment"@,
            done ==> strings_view(out@) == follow_scan(ns, src@, p as int, i + 1),
            !done ==> strings_view(out@) + follow_scan(ns, src@, p as int, m as int) == follow_scan(
                ns,
                src@,
                p as int,
                i + 1,
            ),
        decreases n - m,
    {
        assert(ns[m as int] == t.nodes@[m as int]@);
        let ghost before = strings_view(out@);
        let dm = t.nodes[m].depth;
        if dm <= dp {
            assert(follow_scan(ns, src@, p as int, m as int) == Seq::<Seq<char>>::empty());
            assert(strings_view(out@) =~= before + follow_scan(ns, src@, p as int, m as int));
            done = true;
            m = n;
        } else if dm != dp + 1 {
            m = m + 1;
        } else if is_attr_node(&t.nodes[m].kind) {
            let here = node_paths_exec(t, src, m);
            append_strings(&mut out, here);
            assert(strings_view(out@) + follow_scan(ns, src@, p as int, m + 1) =~= before
                + follow_scan(ns, src@, p as int, m as int));
            m = m + 1;
        } else if window_contains(&t.nodes[m].kind, 0, t.nodes[m].kind.len(), &comment_word) {
            assert(t.nodes@[m as int].kind@.subrange(0, t.nodes@[m as int].kind@.len() as int)
                =~= t.nodes@[m as int].kind@);
            m = m + 1;
        } else {
            assert(t.nodes@[m as int].kind@.subrange(0, t.nodes@[m as int].kind@.len() as int)
                =~= t.nodes@[m as int].kind@);
            let here = own_attrs_exec(t, src, m);
            append_strings(&mut out, here);
            done = true;
            m = n;
        }
    }
    proof {
        if !done {
            assert(follow_scan(ns, src@, p as int, m as int) == Seq::<Seq<char>>::empty());
            assert(strings_view(out@) =~= follow_scan(ns, src@, p as int, i + 1));
        }
    }
    let anc = anc_attrs_exec(t, src, i);
    append_strings(&mut out, anc);
    out
}

/// The attribute paths of every ancestor of node `i`, nearest first.
fn anc_attrs_exec(t: &SyntaxTree, src: &[u8], i: usize) -> (r: Vec<String>)
    requires
        t.wf(src@.len() as int),
        i < t.nodes@.len(),
    ensures
        strings_view(r@) == anc_scan(t.ns(), src@, t.ns()[i as int].depth, i - 1),
{
    let ghost ns = t.ns();
    let n = t.nodes.len();
    let mut out: Vec<String> = Vec::new();
    assert(ns[i as int] == t.nodes@[i as int]@);
    let mut d = t.nodes[i].depth;
    let mut j = i;
    while j > 0
        invariant
            t.wf(src@.len() as int),
            ns == t.ns(),
            n == ns.len(),
            j <= i < n,
            strings_view(out@) + anc_scan(ns, src@, d as int, j - 1) == anc_scan(
                ns,
                src@,
                ns[i as int].depth,
                i - 1,
            ),
        decreases j,
    {
        j = j - 1;
        assert(ns[j as int] == t.nodes@[j as int]@);
        let ghost before = strings_view(out@);
        let ghost d0 = d as int;
        if t.nodes[j].depth < d {
            let here = own_attrs_exec(t, src, j);
            append_strings(&mut out, here);
            d = t.nodes[j].depth;
        }
        assert(strings_view(out@) + anc_scan(ns, src@, d as int, j - 1) =~= before + anc_scan(
            ns,
            src@,
            d0,
            j as int,
        ));
    }
    assert(anc_scan(ns, src@, d as int, -1) == Seq::<Seq<char>>::empty());
    assert(strings_view(out@) =~= anc_scan(ns, src@, ns[i as int].depth, i - 1));
    out
}

} // verus!
