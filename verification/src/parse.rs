//! Reading a source text through its grammar: the comments it holds, the
//! regions no grammar read, whether it is a generated file, and its code
//! tokens (the projection that stripping must preserve).
use vstd::prelude::*;

use crate::error::WardenError;
use crate::lang::{lang_row, spec_for, spec_row, LangId, LangRow, LangSpec};
use crate::syntax::{
    blocked, blocked_flags, build_tree, is_ancestor, nodes_wf, parse_nodes, parsed_syntax,
    NodeView, SyntaxTree,
};
use crate::text::{
    chars_of, eq_lit, skip_end, skip_start, strings_view, strs_view, trim, trim_end_with,
    trim_start_with, windows_equal, CharClass,
};
use vstd::string::StringSliceAdditionalSpecFns;
use crate::comment::{comments_view, Comment, CommentView};
use crate::gather::{collect_comments, comments_upto, sort_by_start, sort_comments};
use crate::generated::{detect_generated, spec_generated};
use crate::nix::{collect_embedded_nix, nix_embedded};

verus! {

/// An html attribute value: data, though the grammar may read a comment in it.
pub open spec fn holds_data(k: Seq<char>) -> bool {
    k == "quoted_attribute_value"@
}

/// A node whose subtree a macro expands.
pub open spec fn is_macro_kind(k: Seq<char>) -> bool {
    k == "macro_invocation"@ || k == "macro_definition"@ || k == "token_tree"@ || k
        == "macro_rules"@
}

pub open spec fn is_error_kind(k: Seq<char>) -> bool {
    k == "ERROR"@
}

pub(crate) fn node_holds_data(kind: &Vec<char>) -> (r: bool)
    ensures
        r == holds_data(kind@),
{
    eq_lit(kind, "quoted_attribute_value")
}

pub(crate) fn node_is_macro(kind: &Vec<char>) -> (r: bool)
    ensures
        r == is_macro_kind(kind@),
{
    eq_lit(kind, "macro_invocation") || eq_lit(kind, "macro_definition") || eq_lit(
        kind,
        "token_tree",
    ) || eq_lit(kind, "macro_rules")
}

/// Whether `kind` is one of the language's comment node kinds.
pub(crate) fn is_comment_kind(spec: &LangSpec, kind: &Vec<char>) -> (r: bool)
    ensures
        r == spec_row(spec).comment_kinds.contains(kind@),
{
    let ghost ks = spec_row(spec).comment_kinds;
    let mut i: usize = 0;
    while i < spec.comment_kinds.len()
        invariant
            i <= spec.comment_kinds@.len(),
            ks == strs_view(spec.comment_kinds@),
            forall|j: int| 0 <= j < i ==> ks[j] != kind@,
        decreases spec.comment_kinds@.len() - i,
    {
        if eq_lit(kind, spec.comment_kinds[i]) {
            assert(ks[i as int] == kind@);
            return true;
        }
        i = i + 1;
    }
    false
}

/// The error walk stops at a node that holds no error, and at an `ERROR` node.
pub open spec fn error_stop(n: NodeView) -> bool {
    !n.has_error || is_error_kind(n.kind)
}

/// An `ERROR` node that the error walk reaches.
pub open spec fn reports_error(ns: Seq<NodeView>, i: int) -> bool {
    &&& ns[i].has_error
    &&& is_error_kind(ns[i].kind)
    &&& !exists|j: int| #[trigger] is_ancestor(ns, j, i) && error_stop(ns[j])
}

/// The byte spans of the `ERROR` nodes among the first `n` nodes that the
/// error walk reaches, in preorder.
pub open spec fn error_spans(ns: Seq<NodeView>, n: int) -> Seq<(int, int)>
    decreases n,
{
    if n <= 0 {
        Seq::empty()
    } else if reports_error(ns, n - 1) {
        error_spans(ns, n - 1).push((ns[n - 1].start_byte, ns[n - 1].end_byte))
    } else {
        error_spans(ns, n - 1)
    }
}

pub open spec fn spans_view(v: Seq<(usize, usize)>) -> Seq<(int, int)> {
    v.map_values(|p: (usize, usize)| (p.0 as int, p.1 as int))
}

/// The spans of the `ERROR` nodes that a walk from the root reaches, stopping
/// at nodes without errors and at `ERROR` nodes.
fn collect_error_spans(t: &SyntaxTree, len: Ghost<int>) -> (r: Vec<(usize, usize)>)
    requires
        t.wf(len@),
    ensures
        spans_view(r@) == error_spans(t.ns(), t.ns().len() as int),
{
    let ghost ns = t.ns();
    let n = t.nodes.len();
    let mut stop: Vec<bool> = Vec::new();
    let mut i: usize = 0;
    while i < n
        invariant
            ns == t.ns(),
            n == ns.len(),
            i <= n,
            stop@.len() == i,
            forall|k: int| 0 <= k < i ==> #[trigger] stop@[k] == error_stop(ns[k]),
        decreases n - i,
    {
        assert(ns[i as int] == t.nodes@[i as int]@);
        let s = !t.nodes[i].has_error || eq_lit(&t.nodes[i].kind, "ERROR");
        stop.push(s);
        i = i + 1;
    }
    let under = blocked_flags(t, len, &stop);
    let mut out: Vec<(usize, usize)> = Vec::new();
    let mut i: usize = 0;
    while i < n
        invariant
            ns == t.ns(),
            n == ns.len() == stop@.len() == under@.len(),
            i <= n,
            forall|k: int| 0 <= k < n ==> #[trigger] stop@[k] == error_stop(ns[k]),
            forall|k: int| 0 <= k < n ==> #[trigger] under@[k] == blocked(ns, stop@, k),
            spans_view(out@) == error_spans(ns, i as int),
        decreases n - i,
    {
        assert(ns[i as int] == t.nodes@[i as int]@);
        let reports = t.nodes[i].has_error && eq_lit(&t.nodes[i].kind, "ERROR") && !under[i];
        proof {
            assert(blocked(ns, stop@, i as int) == exists|j: int| #[trigger] is_ancestor(ns, j, i as int) && error_stop(ns[j]));
            assert(reports == reports_error(ns, i as int));
        }
        if reports {
            out.push((t.nodes[i].start_byte, t.nodes[i].end_byte));
        }
        assert(spans_view(out@) =~= error_spans(ns, i + 1));
        i = i + 1;
    }
    out
}

/// The leaf walk of the projection stops at data nodes and at comments.
pub open spec fn leaf_stop(row: LangRow, n: NodeView) -> bool {
    holds_data(n.kind) || row.comment_kinds.contains(n.kind)
}

/// A node with no children.
pub open spec fn is_childless(ns: Seq<NodeView>, i: int) -> bool {
    i + 1 >= ns.len() || ns[i + 1].depth <= ns[i].depth
}

/// A node whose text is a code token: a data node, or a non-empty leaf that is
/// not a comment, with no data node or comment above it.
pub open spec fn is_token_node(ns: Seq<NodeView>, row: LangRow, i: int) -> bool {
    &&& !exists|j: int| #[trigger] is_ancestor(ns, j, i) && leaf_stop(row, ns[j])
    &&& (holds_data(ns[i].kind) || (!row.comment_kinds.contains(ns[i].kind) && is_childless(ns, i)
        && ns[i].start_byte < ns[i].end_byte))
}

/// The texts of the token nodes among the first `n` nodes, in preorder.
pub open spec fn tokens_upto(ns: Seq<NodeView>, src: Seq<u8>, row: LangRow, n: int) -> Seq<Seq<u8>>
    decreases n,
{
    if n <= 0 {
        Seq::empty()
    } else if is_token_node(ns, row, n - 1) {
        tokens_upto(ns, src, row, n - 1).push(src.subrange(ns[n - 1].start_byte, ns[n - 1].end_byte))
    } else {
        tokens_upto(ns, src, row, n - 1)
    }
}

/// The projection of a parsed text: the byte text of every code token.
pub open spec fn spec_code_tokens(id: LangId, src: Seq<u8>) -> Result<Seq<Seq<u8>>, WardenError> {
    match parsed_syntax(id, src) {
        None => Err(WardenError::NoTree),
        Some(ns) => if nodes_wf(ns, src.len() as int) {
            Ok(tokens_upto(ns, src, lang_row(id), ns.len() as int))
        } else {
            Err(WardenError::MalformedTree)
        },
    }
}

pub open spec fn byte_vecs_view(v: Seq<Vec<u8>>) -> Seq<Seq<u8>> {
    v.map_values(|b: Vec<u8>| b@)
}

fn copy_bytes(src: &[u8], lo: usize, hi: usize) -> (r: Vec<u8>)
    requires
        lo <= hi <= src@.len(),
    ensures
        r@ == src@.subrange(lo as int, hi as int),
{
    vstd::slice::slice_to_vec(vstd::slice::slice_subrange(src, lo, hi))
}

/// The code tokens of a parsed tree.
fn collect_leaves(t: &SyntaxTree, spec: &LangSpec, src: &[u8]) -> (r: Vec<Vec<u8>>)
    requires
        t.wf(src@.len() as int),
    ensures
        byte_vecs_view(r@) == tokens_upto(t.ns(), src@, spec_row(spec), t.ns().len() as int),
{
    let ghost ns = t.ns();
    let ghost row = spec_row(spec);
    let n = t.nodes.len();
    let mut stop: Vec<bool> = Vec::new();
    let mut is_comment: Vec<bool> = Vec::new();
    let mut i: usize = 0;
    while i < n
        invariant
            ns == t.ns(),
            row == spec_row(spec),
            n == ns.len(),
            i <= n,
            stop@.len() == i,
            is_comment@.len() == i,
            forall|k: int| 0 <= k < i ==> #[trigger] stop@[k] == leaf_stop(row, ns[k]),
            forall|k: int| 0 <= k < i ==> #[trigger] is_comment@[k] == row.comment_kinds.contains(ns[k].kind),
        decreases n - i,
    {
        assert(ns[i as int] == t.nodes@[i as int]@);
        let c = is_comment_kind(spec, &t.nodes[i].kind);
        let s = node_holds_data(&t.nodes[i].kind) || c;
        stop.push(s);
        is_comment.push(c);
        i = i + 1;
    }
    let under = blocked_flags(t, Ghost(src@.len() as int), &stop);
    let mut out: Vec<Vec<u8>> = Vec::new();
    let mut i: usize = 0;
    while i < n
        invariant
            t.wf(src@.len() as int),
            ns == t.ns(),
            row == spec_row(spec),
            n == ns.len() == stop@.len() == under@.len() == is_comment@.len(),
            i <= n,
            forall|k: int| 0 <= k < n ==> #[trigger] stop@[k] == leaf_stop(row, ns[k]),
            forall|k: int| 0 <= k < n ==> #[trigger] is_comment@[k] == row.comment_kinds.contains(ns[k].kind),
            forall|k: int| 0 <= k < n ==> #[trigger] under@[k] == blocked(ns, stop@, k),
            byte_vecs_view(out@) == tokens_upto(ns, src@, row, i as int),
        decreases n - i,
    {
        assert(ns[i as int] == t.nodes@[i as int]@);
        let childless = i + 1 >= n || t.nodes[i + 1].depth <= t.nodes[i].depth;
        proof {
            if i + 1 < n {
                assert(ns[i + 1] == t.nodes@[i + 1]@);
            }
        }
        let node = &t.nodes[i];
        let token = !under[i] && (node_holds_data(&node.kind) || (!is_comment[i] && childless
            && node.start_byte < node.end_byte));
        proof {
            assert(blocked(ns, stop@, i as int) == exists|j: int| #[trigger] is_ancestor(ns, j, i as int) && leaf_stop(row, ns[j]));
            assert(token == is_token_node(ns, row, i as int));
            assert(0 <= ns[i as int].start_byte <= ns[i as int].end_byte <= src@.len());
        }
        if token {
            let b = copy_bytes(src, node.start_byte, node.end_byte);
            out.push(b);
        }
        assert(byte_vecs_view(out@) =~= tokens_upto(ns, src@, row, i + 1));
        i = i + 1;
    }
    out
}

/// Parses `src` with the grammar of `spec` into a checked syntax tree.
pub(crate) fn parse_tree(spec: &LangSpec, src: &[u8]) -> (r: Result<SyntaxTree, WardenError>)
    ensures
        match parsed_syntax(spec.grammar.lang(), src@) {
            None => r == Err::<SyntaxTree, WardenError>(WardenError::NoTree),
            Some(ns) => if nodes_wf(ns, src@.len() as int) {
                r matches Ok(t) && t.wf(src@.len() as int) && t.ns() == ns
            } else {
                r == Err::<SyntaxTree, WardenError>(WardenError::MalformedTree)
            },
        },
{
    let nodes = match parse_nodes(&spec.grammar, src) {
        Some(nodes) => nodes,
        None => return Err(WardenError::NoTree),
    };
    match build_tree(nodes, src.len()) {
        Some(t) => Ok(t),
        None => Err(WardenError::MalformedTree),
    }
}

/// The projection of `source`: the byte text of every non-comment leaf of its
/// syntax tree, in parse order. Two texts with equal projections hold the same
/// code.
pub fn code_tokens(id: LangId, source: &str) -> (r: Result<Vec<Vec<u8>>, WardenError>)
    ensures
        match r {
            Ok(v) => spec_code_tokens(id, source.spec_bytes()) == Ok::<Seq<Seq<u8>>, WardenError>(byte_vecs_view(v@)),
            Err(e) => spec_code_tokens(id, source.spec_bytes()) == Err::<Seq<Seq<u8>>, WardenError>(e),
        },
{
    code_tokens_of(id, source.as_bytes())
}

/// The projection of the bytes `src` (see [`code_tokens`]).
pub fn code_tokens_of(id: LangId, src: &[u8]) -> (r: Result<Vec<Vec<u8>>, WardenError>)
    ensures
        match r {
            Ok(v) => spec_code_tokens(id, src@) == Ok::<Seq<Seq<u8>>, WardenError>(byte_vecs_view(v@)),
            Err(e) => spec_code_tokens(id, src@) == Err::<Seq<Seq<u8>>, WardenError>(e),
        },
{
    let spec = spec_for(id);
    let t = parse_tree(&spec, src)?;
    Ok(collect_leaves(&t, &spec, src))
}

/// A node kind that names an attribute item.
pub open spec fn is_attr_kind(k: Seq<char>) -> bool {
    k == "attribute_item"@ || k == "inner_attribute_item"@
}

/// The inside of an attribute item's text: `#`, `!` and `[` runs dropped from
/// the front and a `]` run from the back.
pub open spec fn attr_inner(text: Seq<char>) -> Seq<char> {
    trim_end_with(
        trim_start_with(
            trim_start_with(trim_start_with(text, CharClass::Hash), CharClass::Bang),
            CharClass::OpenBracket,
        ),
        CharClass::CloseBracket,
    )
}

pub open spec fn is_piece_sep(c: char) -> bool {
    c == ',' || c == '('
}

/// The end of the piece of `s.split([',', '('])` that starts at `i`.
pub open spec fn piece_end(s: Seq<char>, i: int) -> int
    decreases s.len() - i,
{
    if 0 <= i < s.len() && !is_piece_sep(s[i]) {
        piece_end(s, i + 1)
    } else {
        i
    }
}

pub open spec fn is_head_sep(c: char) -> bool {
    c == '(' || c == '=' || c == ' '
}

/// The end of `s.split(['(', '=', ' ']).next()`.
pub open spec fn head_end(s: Seq<char>, i: int) -> int
    decreases s.len() - i,
{
    if 0 <= i < s.len() && !is_head_sep(s[i]) {
        head_end(s, i + 1)
    } else {
        i
    }
}

/// Where the text after the last `::` of `s[..k]` starts, or 0.
pub open spec fn last_sep_end(s: Seq<char>, k: int) -> int
    decreases k,
{
    if k < 2 || k > s.len() {
        0
    } else if s[k - 2] == ':' && s[k - 1] == ':' {
        k
    } else {
        last_sep_end(s, k - 1)
    }
}

/// `h.rsplit("::").next()`: the last path segment of `h`.
pub open spec fn last_path_segment(h: Seq<char>) -> Seq<char> {
    h.skip(last_sep_end(h, h.len() as int))
}

/// The paths one piece of an attribute names: its head, and the head's last
/// path segment when that differs from the head.
pub open spec fn piece_paths(p: Seq<char>) -> Seq<Seq<char>> {
    let name = trim(trim_end_with(trim(p), CharClass::CloseParen));
    if name.len() == 0 {
        Seq::empty()
    } else {
        let head = trim(name.take(head_end(name, 0)));
        if head.len() == 0 {
            Seq::empty()
        } else if last_path_segment(head) != head {
            seq![head, last_path_segment(head)]
        } else {
            seq![head]
        }
    }
}

/// The paths that the pieces of `s` from index `i` on name.
pub open spec fn paths_from(s: Seq<char>, i: int) -> Seq<Seq<char>>
    decreases s.len() - i,
{
    if i < 0 || i > s.len() {
        Seq::empty()
    } else {
        let e = piece_end(s, i);
        let here = piece_paths(s.subrange(i, e));
        if i <= e < s.len() {
            here + paths_from(s, e + 1)
        } else {
            here
        }
    }
}

/// The paths an attribute item names: `#[derive(Serialize, uniffi::Record)]`
/// names `derive`, `Serialize`, `uniffi::Record` and `Record`.
pub open spec fn spec_attribute_paths(text: Seq<char>) -> Seq<Seq<char>> {
    paths_from(attr_inner(text), 0)
}

proof fn lemma_piece_end(s: Seq<char>, i: int)
    requires
        0 <= i <= s.len(),
    ensures
        i <= piece_end(s, i) <= s.len(),
        piece_end(s, i) < s.len() ==> is_piece_sep(s[piece_end(s, i)]),
    decreases s.len() - i,
{
    if i < s.len() && !is_piece_sep(s[i]) {
        lemma_piece_end(s, i + 1);
    }
}

pub(crate) fn window_of(text: &str, v: &Vec<char>, lo: usize, hi: usize) -> (r: String)
    requires
        v@ == text@,
        lo <= hi <= v@.len(),
    ensures
        r@ == v@.subrange(lo as int, hi as int),
{
    text.substring_char(lo, hi).to_owned()
}

/// The paths that piece `v[lo..hi]` names.
fn piece_paths_exec(text: &str, v: &Vec<char>, lo: usize, hi: usize) -> (r: Vec<String>)
    requires
        v@ == text@,
        lo <= hi <= v@.len(),
    ensures
        strings_view(r@) == piece_paths(v@.subrange(lo as int, hi as int)),
{
    let ghost p = v@.subrange(lo as int, hi as int);
    let a = skip_start(v, lo, hi, CharClass::Space);
    let b = skip_end(v, a, hi, CharClass::Space);
    assert(v@.subrange(a as int, b as int) == trim(p));
    let c = skip_end(v, a, b, CharClass::CloseParen);
    let na = skip_start(v, a, c, CharClass::Space);
    let nb = skip_end(v, na, c, CharClass::Space);
    let ghost name = v@.subrange(na as int, nb as int);
    assert(name == trim(trim_end_with(trim(p), CharClass::CloseParen)));
    let mut out: Vec<String> = Vec::new();
    if na == nb {
        assert(strings_view(out@) =~= piece_paths(p));
        return out;
    }
    let mut he = na;
    while he < nb && !(v[he] == '(' || v[he] == '=' || v[he] == ' ')
        invariant
            na <= he <= nb <= v@.len(),
            name == v@.subrange(na as int, nb as int),
            head_end(name, 0) == head_end(name, he - na),
        decreases nb - he,
    {
        he = he + 1;
    }
    assert(name.take(head_end(name, 0)) =~= v@.subrange(na as int, he as int));
    let ha = skip_start(v, na, he, CharClass::Space);
    let hb = skip_end(v, ha, he, CharClass::Space);
    let ghost head = v@.subrange(ha as int, hb as int);
    assert(head == trim(name.take(head_end(name, 0))));
    if ha == hb {
        assert(strings_view(out@) =~= piece_paths(p));
        return out;
    }
    let mut k = hb;
    while k - ha >= 2 && !(v[k - 2] == ':' && v[k - 1] == ':')
        invariant
            ha <= hb <= v@.len(),
            ha <= k <= hb,
            head == v@.subrange(ha as int, hb as int),
            last_sep_end(head, head.len() as int) == last_sep_end(head, k - ha),
        decreases k,
    {
        k = k - 1;
    }
    let ls = if k - ha >= 2 {
        k
    } else {
        ha
    };
    assert(last_path_segment(head) =~= v@.subrange(ls as int, hb as int));
    out.push(window_of(text, v, ha, hb));
    let differs = !windows_equal(v, ls, hb, v, ha, hb);
    if differs {
        out.push(window_of(text, v, ls, hb));
    }
    assert(strings_view(out@) =~= piece_paths(p));
    out
}

/// The paths an attribute item names: the heads of its comma- and
/// paren-separated pieces, each with its last `::` segment when that differs.
pub fn attribute_paths(text: &str) -> (r: Vec<String>)
    ensures
        strings_view(r@) == spec_attribute_paths(text@),
{
    let v = chars_of(text);
    let n = v.len();
    assert(v@.subrange(0, n as int) =~= v@);
    let a1 = skip_start(&v, 0, n, CharClass::Hash);
    let a2 = skip_start(&v, a1, n, CharClass::Bang);
    let a3 = skip_start(&v, a2, n, CharClass::OpenBracket);
    let e = skip_end(&v, a3, n, CharClass::CloseBracket);
    let ghost inner = v@.subrange(a3 as int, e as int);
    assert(inner == attr_inner(text@));
    let mut out: Vec<String> = Vec::new();
    let mut i = a3;
    loop
        invariant
            a3 <= i <= e <= n == v@.len(),
            v@ == text@,
            inner == v@.subrange(a3 as int, e as int),
            inner == attr_inner(text@),
            strings_view(out@) + paths_from(inner, i - a3) == paths_from(inner, 0),
        decreases e - i,
    {
        let mut pe = i;
        while pe < e && !(v[pe] == ',' || v[pe] == '(')
            invariant
                i <= pe <= e <= v@.len(),
                a3 <= i,
                inner == v@.subrange(a3 as int, e as int),
                piece_end(inner, i - a3) == piece_end(inner, pe - a3),
            decreases e - pe,
        {
            pe = pe + 1;
        }
        proof {
            lemma_piece_end(inner, i - a3);
            assert(inner.subrange(i - a3, pe - a3) =~= v@.subrange(i as int, pe as int));
        }
        let mut here = piece_paths_exec(text, &v, i, pe);
        let ghost before = strings_view(out@);
        out.append(&mut here);
        proof {
            assert(strings_view(out@) =~= before + piece_paths(inner.subrange(i - a3, pe - a3)));
        }
        if pe == e {
            assert(strings_view(out@) =~= paths_from(inner, 0)) by {
                assert(inner.len() == e - a3);
                assert(piece_end(inner, pe - a3) == pe - a3);
                assert(piece_end(inner, i - a3) == pe - a3);
                assert(paths_from(inner, i - a3) == piece_paths(inner.subrange(i - a3, pe - a3)));
            }
            return out;
        }
        assert(paths_from(inner, i - a3) == piece_paths(inner.subrange(i - a3, pe - a3)) + paths_from(inner, pe + 1 - a3));
        assert(strings_view(out@) + paths_from(inner, pe + 1 - a3) =~= paths_from(inner, 0));
        i = pe + 1;
    }
}

/// What parsing a file yields: its comments in file order, the byte spans no
/// grammar read, and whether the file declares itself generated.
/// The spans of the `code` nodes among the first `n` nodes, in preorder: the
/// ruby inside ERB's `<% %>` tags, which no grammar here reads.
pub open spec fn code_spans(ns: Seq<NodeView>, n: int) -> Seq<(int, int)>
    decreases n,
{
    if n <= 0 {
        Seq::empty()
    } else if ns[n - 1].kind == "code"@ {
        code_spans(ns, n - 1).push((ns[n - 1].start_byte, ns[n - 1].end_byte))
    } else {
        code_spans(ns, n - 1)
    }
}

/// The spans of the `code` nodes of `t`: an ERB code region is reported as
/// unread, since a fragment of it such as ` if x ` is no ruby file of its own.
fn collect_code_spans(t: &SyntaxTree, len: Ghost<int>) -> (r: Vec<(usize, usize)>)
    requires
        t.wf(len@),
    ensures
        spans_view(r@) == code_spans(t.ns(), t.ns().len() as int),
{
    let ghost ns = t.ns();
    let n = t.nodes.len();
    let mut out: Vec<(usize, usize)> = Vec::new();
    let mut i: usize = 0;
    while i < n
        invariant
            ns == t.ns(),
            n == ns.len(),
            i <= n,
            spans_view(out@) == code_spans(ns, i as int),
        decreases n - i,
    {
        assert(ns[i as int] == t.nodes@[i as int]@);
        if eq_lit(&t.nodes[i].kind, "code") {
            out.push((t.nodes[i].start_byte, t.nodes[i].end_byte));
        }
        assert(spans_view(out@) =~= code_spans(ns, i + 1));
        i = i + 1;
    }
    out
}

pub struct Parsed {
    pub comments: Vec<Comment>,
    pub unknown_spans: Vec<(usize, usize)>,
    pub generated: bool,
}

pub struct ParsedView {
    pub comments: Seq<CommentView>,
    pub unknown_spans: Seq<(int, int)>,
    pub generated: bool,
}

impl View for Parsed {
    type V = ParsedView;

    open spec fn view(&self) -> ParsedView {
        ParsedView {
            comments: comments_view(self.comments@),
            unknown_spans: spans_view(self.unknown_spans@),
            generated: self.generated,
        }
    }
}

/// What [`parse`] yields for `src`: the comments the walk reaches (with, for
/// nix, those of its embedded scripts) stably sorted by start byte; the spans
/// of the `ERROR` nodes (with, for nix, the fragments of strings that are no
/// script, and for ERB, its code regions); and whether the file is generated.
pub open spec fn spec_parse(id: LangId, src: Seq<u8>, is_test_target: bool) -> Result<ParsedView, WardenError> {
    match parsed_syntax(id, src) {
        None => Err(WardenError::NoTree),
        Some(ns) => if !nodes_wf(ns, src.len() as int) {
            Err(WardenError::MalformedTree)
        } else {
            let row = lang_row(id);
            let base = comments_upto(ns, src, row, is_test_target, ns.len() as int);
            let errs = error_spans(ns, ns.len() as int);
            let generated = spec_generated(ns, src, row);
            if id == LangId::Nix {
                match nix_embedded(ns, src, ns.len() as int) {
                    Err(e) => Err(e),
                    Ok((more, opaque)) => Ok(
                        ParsedView {
                            comments: sort_by_start(base + more),
                            unknown_spans: errs + opaque,
                            generated,
                        },
                    ),
                }
            } else if id == LangId::Erb {
                Ok(
                    ParsedView {
                        comments: sort_by_start(base),
                        unknown_spans: errs + code_spans(ns, ns.len() as int),
                        generated,
                    },
                )
            } else {
                Ok(ParsedView { comments: sort_by_start(base), unknown_spans: errs, generated })
            }
        },
    }
}

/// Parses `source` as language `id`: its comments, the spans no grammar read,
/// and whether it is generated (see [`spec_parse`]). The tags play no part in
/// parsing.
pub fn parse(id: LangId, source: &str, is_test_target: bool, _tags: &[String]) -> (r: Result<Parsed, WardenError>)
    ensures
        match r {
            Ok(p) => spec_parse(id, source.spec_bytes(), is_test_target) == Ok::<ParsedView, WardenError>(p@),
            Err(e) => spec_parse(id, source.spec_bytes(), is_test_target) == Err::<ParsedView, WardenError>(e),
        },
{
    let spec = spec_for(id);
    let src = source.as_bytes();
    let t = parse_tree(&spec, src)?;
    let generated = detect_generated(&t, src, &spec);
    let mut comments = collect_comments(&t, src, &spec, is_test_target);
    let mut unknown_spans = collect_error_spans(&t, Ghost(src@.len() as int));
    if id == LangId::Nix {
        let (mut more, mut opaque) = collect_embedded_nix(&t, src)?;
        let ghost c0 = comments_view(comments@);
        let ghost m0 = comments_view(more@);
        let ghost u0 = spans_view(unknown_spans@);
        let ghost o0 = spans_view(opaque@);
        comments.append(&mut more);
        unknown_spans.append(&mut opaque);
        assert(comments_view(comments@) =~= c0 + m0);
        assert(spans_view(unknown_spans@) =~= u0 + o0);
    } else if id == LangId::Erb {
        let mut code = collect_code_spans(&t, Ghost(src@.len() as int));
        let ghost u0 = spans_view(unknown_spans@);
        let ghost k0 = spans_view(code@);
        unknown_spans.append(&mut code);
        assert(spans_view(unknown_spans@) =~= u0 + k0);
    }
    let comments = sort_comments(comments);
    Ok(Parsed { comments, unknown_spans, generated })
}

} // verus!
