//! Whether a file declares itself generated: a `@generated` marker in a
//! comment that owns the file's first line (or its second, after a shebang).
use vstd::prelude::*;

use crate::comment::{comment_body, spec_comment_body};
use crate::gather::any_prefix;
use crate::lang::{spec_row, LangRow, LangSpec};
use crate::parse::{holds_data, is_comment_kind, node_holds_data};
use crate::syntax::{blocked, blocked_flags, NodeView, SyntaxTree};
use crate::text::{
    chars_of, first_line, first_line_end, line_start, line_start_byte, node_text, skip_start, str_starts_with, text_of, trim_start, window_starts_with, CharClass,
};

verus! {

pub open spec fn data_marks(ns: Seq<NodeView>) -> Seq<bool> {
    Seq::new(ns.len(), |j: int| holds_data(ns[j].kind))
}

/// A comment node with no data node at or above it.
pub open spec fn gen_candidate(ns: Seq<NodeView>, row: LangRow, i: int) -> bool {
    &&& row.comment_kinds.contains(ns[i].kind)
    &&& !holds_data(ns[i].kind)
    &&& !blocked(ns, data_marks(ns), i)
}

/// `s` with node `x` put after every node of `s` that starts no later.
pub open spec fn insert_index(ns: Seq<NodeView>, s: Seq<int>, x: int) -> Seq<int>
    decreases s.len(),
{
    if s.len() == 0 {
        seq![x]
    } else if ns[s.last()].start_byte <= ns[x].start_byte {
        s.push(x)
    } else {
        insert_index(ns, s.drop_last(), x).push(s.last())
    }
}

/// The candidate comments among the first `n` nodes, stably sorted by start
/// byte.
pub open spec fn candidates_upto(ns: Seq<NodeView>, row: LangRow, n: int) -> Seq<int>
    decreases n,
{
    if n <= 0 {
        Seq::empty()
    } else if gen_candidate(ns, row, n - 1) {
        insert_index(ns, candidates_upto(ns, row, n - 1), n - 1)
    } else {
        candidates_upto(ns, row, n - 1)
    }
}

/// Only spaces and tabs stand before byte `pos` on its line.
pub open spec fn owns_line(src: Seq<u8>, pos: int) -> bool {
    forall|k: int| line_start(src, pos) <= k < pos ==> #[trigger] src[k] == 32u8 || src[k] == 9u8
}

pub open spec fn generated_doc_prefixes() -> Seq<Seq<char>> {
    seq!["///"@, "//!"@, "/**"@, "/*!"@]
}

/// The first line of node `i`'s text.
pub open spec fn node_first_line(ns: Seq<NodeView>, src: Seq<u8>, i: int) -> Seq<char> {
    first_line(node_text(src, ns[i].start_byte, ns[i].end_byte))
}

/// Comment node `c` marks the file generated: it owns its line, is no doc
/// comment, and its first line's body opens with `@generated`.
pub open spec fn marks_generated(ns: Seq<NodeView>, src: Seq<u8>, row: LangRow, c: int) -> bool {
    let line = node_first_line(ns, src, c);
    &&& owns_line(src, ns[c].start_byte)
    &&& !any_prefix(generated_doc_prefixes(), trim_start(line))
    &&& "@generated"@.is_prefix_of(
        spec_comment_body(line, row.line_prefixes, row.block_open, row.block_close),
    )
}

/// The file is generated: its first comment, or its second when the first is
/// a shebang, stands on the first line (the second) and marks it so.
pub open spec fn spec_generated(ns: Seq<NodeView>, src: Seq<u8>, row: LangRow) -> bool {
    let g = candidates_upto(ns, row, ns.len() as int);
    if g.len() == 0 {
        false
    } else if ns[g[0]].start_row == 0 && "#!"@.is_prefix_of(node_first_line(ns, src, g[0])) {
        g.len() > 1 && ns[g[1]].start_row == 1 && marks_generated(ns, src, row, g[1])
    } else if ns[g[0]].start_row == 0 {
        marks_generated(ns, src, row, g[0])
    } else {
        false
    }
}

proof fn lemma_insert_index_at(ns: Seq<NodeView>, s: Seq<int>, x: int, k: int)
    requires
        0 <= k <= s.len(),
        k > 0 ==> ns[s[k - 1]].start_byte <= ns[x].start_byte,
        forall|m: int| k <= m < s.len() ==> #[trigger] ns[s[m]].start_byte > ns[x].start_byte,
    ensures
        insert_index(ns, s, x) == s.insert(k, x),
    decreases s.len(),
{
    if s.len() == 0 {
        assert(s.insert(k, x) =~= seq![x]);
    } else if k == s.len() {
        assert(s.insert(k, x) =~= s.push(x));
    } else {
        lemma_insert_index_at(ns, s.drop_last(), x, k);
        assert(s.insert(k, x) =~= s.drop_last().insert(k, x).push(s.last()));
    }
}

pub open spec fn indices_view(v: Seq<usize>) -> Seq<int> {
    v.map_values(|u: usize| u as int)
}

fn insert_index_exec(g: &mut Vec<usize>, t: &SyntaxTree, x: usize)
    requires
        x < t.nodes@.len(),
        forall|m: int| 0 <= m < old(g)@.len() ==> #[trigger] old(g)@[m] < t.nodes@.len(),
    ensures
        indices_view(final(g)@) == insert_index(t.ns(), indices_view(old(g)@), x as int),
        forall|m: int| 0 <= m < final(g)@.len() ==> #[trigger] final(g)@[m] < t.nodes@.len(),
{
    let ghost ns = t.ns();
    let ghost s = indices_view(g@);
    assert(ns[x as int] == t.nodes@[x as int]@);
    let key = t.nodes[x].start_byte;
    let mut k = g.len();
    while k > 0 && t.nodes[g[k - 1]].start_byte > key
        invariant
            k <= g@.len(),
            x < t.nodes@.len(),
            ns == t.ns(),
            key == ns[x as int].start_byte,
            s == indices_view(g@),
            forall|m: int| 0 <= m < g@.len() ==> #[trigger] g@[m] < t.nodes@.len(),
            forall|m: int| k <= m < s.len() ==> #[trigger] ns[s[m]].start_byte > key,
        decreases k,
    {
        assert(ns[g@[k - 1] as int] == t.nodes@[g@[k - 1] as int]@);
        k = k - 1;
    }
    proof {
        if k > 0 {
            assert(ns[g@[k - 1] as int] == t.nodes@[g@[k - 1] as int]@);
        }
        lemma_insert_index_at(ns, s, x as int, k as int);
    }
    g.insert(k, x);
    assert(indices_view(g@) =~= s.insert(k as int, x as int));
}

/// The first line of node `i`'s text, as its text and the window `[0, r)` of
/// its characters.
fn first_line_exec(t: &SyntaxTree, src: &[u8], i: usize) -> (r: (String, Vec<char>, usize))
    requires
        t.wf(src@.len() as int),
        i < t.nodes@.len(),
    ensures
        r.1@ == r.0@,
        r.2 <= r.1@.len(),
        r.1@.subrange(0, r.2 as int) == node_first_line(t.ns(), src@, i as int),
{
    assert(t.ns()[i as int] == t.nodes@[i as int]@);
    proof {
        crate::syntax::lemma_wf_node(t.ns(), src@.len() as int, i as int);
    }
    let text = text_of(src, t.nodes[i].start_byte, t.nodes[i].end_byte);
    let v = chars_of(text.as_str());
    let e = first_line_end(&v);
    (text, v, e)
}

fn owns_line_exec(src: &[u8], pos: usize) -> (r: bool)
    requires
        pos <= src@.len(),
    ensures
        r == owns_line(src@, pos as int),
{
    let ls = line_start_byte(src, pos);
    let mut k = ls;
    while k < pos
        invariant
            ls <= k <= pos <= src@.len(),
            ls == line_start(src@, pos as int),
            forall|m: int| ls <= m < k ==> #[trigger] src@[m] == 32u8 || src@[m] == 9u8,
        decreases pos - k,
    {
        if src[k] != 32u8 && src[k] != 9u8 {
            return false;
        }
        k = k + 1;
    }
    true
}

fn marks_generated_exec(t: &SyntaxTree, src: &[u8], spec: &LangSpec, c: usize) -> (r: bool)
    requires
        t.wf(src@.len() as int),
        c < t.nodes@.len(),
    ensures
        r == marks_generated(t.ns(), src@, spec_row(spec), c as int),
{
    let ghost ns = t.ns();
    assert(ns[c as int] == t.nodes@[c as int]@);
    proof {
        crate::syntax::lemma_wf_node(ns, src@.len() as int, c as int);
    }
    if !owns_line_exec(src, t.nodes[c].start_byte) {
        return false;
    }
    let (text, v, e) = first_line_exec(t, src, c);
    let a = skip_start(&v, 0, e, CharClass::Space);
    assert(v@.subrange(0, e as int).subrange(a as int, e as int) =~= v@.subrange(a as int, e as int));
    assert(v@.subrange(a as int, e as int) == trim_start(node_first_line(ns, src@, c as int)));
    let doc = ["///", "//!", "/**", "/*!"];
    let mut k: usize = 0;
    while k < 4
        invariant
            a <= e <= v@.len(),
            ns == t.ns(),
            k <= 4,
            doc@ == seq!["///", "//!", "/**", "/*!"],
            v@.subrange(a as int, e as int) == trim_start(node_first_line(ns, src@, c as int)),
            forall|m: int| 0 <= m < k ==> !(#[trigger] generated_doc_prefixes()[m]).is_prefix_of(
                v@.subrange(a as int, e as int),
            ),
        decreases 4 - k,
    {
        let p = chars_of(doc[k]);
        proof {
            reveal_strlit("///");
            reveal_strlit("//!");
            reveal_strlit("/**");
            reveal_strlit("/*!");
        }
        assert(p@ == generated_doc_prefixes()[k as int]);
        if window_starts_with(&v, a, e, &p) {
            assert(generated_doc_prefixes()[k as int].is_prefix_of(trim_start(node_first_line(ns, src@, c as int))));
            return false;
        }
        k = k + 1;
    }
    assert(!any_prefix(generated_doc_prefixes(), trim_start(node_first_line(ns, src@, c as int))));
    let line = text.as_str().substring_char(0, e);
    let body = comment_body(line, spec.line_prefixes, spec.block_open, spec.block_close);
    str_starts_with(body, "@generated")
}

/// Whether the file declares itself generated (see [`spec_generated`]).
pub fn detect_generated(t: &SyntaxTree, src: &[u8], spec: &LangSpec) -> (r: bool)
    requires
        t.wf(src@.len() as int),
    ensures
        r == spec_generated(t.ns(), src@, spec_row(spec)),
{
    let ghost ns = t.ns();
    let ghost row = spec_row(spec);
    let n = t.nodes.len();
    let mut marks: Vec<bool> = Vec::new();
    let mut i: usize = 0;
    while i < n
        invariant
            ns == t.ns(),
            n == ns.len(),
            i <= n,
            marks@.len() == i,
            forall|k: int| 0 <= k < i ==> #[trigger] marks@[k] == holds_data(ns[k].kind),
        decreases n - i,
    {
        assert(ns[i as int] == t.nodes@[i as int]@);
        marks.push(node_holds_data(&t.nodes[i].kind));
        i = i + 1;
    }
    assert(marks@ =~= data_marks(ns));
    let under = blocked_flags(t, Ghost(src@.len() as int), &marks);
    let mut g: Vec<usize> = Vec::new();
    let mut i: usize = 0;
    while i < n
        invariant
            t.wf(src@.len() as int),
            ns == t.ns(),
            row == spec_row(spec),
            n == ns.len() == under@.len(),
            marks@ == data_marks(ns),
            i <= n,
            forall|k: int| 0 <= k < n ==> #[trigger] under@[k] == blocked(ns, marks@, k),
            forall|m: int| 0 <= m < g@.len() ==> #[trigger] g@[m] < n,
            indices_view(g@) == candidates_upto(ns, row, i as int),
        decreases n - i,
    {
        assert(ns[i as int] == t.nodes@[i as int]@);
        let kind = &t.nodes[i].kind;
        if is_comment_kind(spec, kind) && !node_holds_data(kind) && !under[i] {
            insert_index_exec(&mut g, t, i);
        }
        i = i + 1;
    }
    let ghost gs = candidates_upto(ns, row, n as int);
    if g.len() == 0 {
        return false;
    }
    let first = g[0];
    assert(gs[0] == first);
    assert(ns[first as int] == t.nodes@[first as int]@);
    let (_ftext, fv, fe) = first_line_exec(t, src, first);
    let bang = chars_of("#!");
    assert(fv@.subrange(0, fe as int) =~= node_first_line(ns, src@, first as int));
    let is_shebang = t.nodes[first].start_row == 0 && window_starts_with(&fv, 0, fe, &bang);
    if is_shebang {
        if g.len() < 2 {
            return false;
        }
        let second = g[1];
        assert(gs[1] == second);
        assert(ns[second as int] == t.nodes@[second as int]@);
        if t.nodes[second].start_row != 1 {
            return false;
        }
        marks_generated_exec(t, src, spec, second)
    } else if t.nodes[first].start_row == 0 {
        marks_generated_exec(t, src, spec, first)
    } else {
        false
    }
}

} // verus!
