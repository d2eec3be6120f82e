//! Shell scripts written inside nix `''…''` strings. The nix grammar sees such
//! a string as one token, so its `#` comments are found by reading the body
//! again as bash (and a python heredoc in it as python). Whether a string is a
//! script is decided by the nix around it: the attribute it is bound to, or
//! the function it is an argument of.
use vstd::prelude::*;

use crate::comment::{comments_view, first_word, Comment, CommentShape, CommentView};
use crate::generated::indices_view;
use crate::script::{
    dedent_exec, dedent_line, line_starts_exec, count_newlines_exec, min_indent_exec, script_body_exec,
    split_lines, split_lines_exec,
};
use crate::error::WardenError;
use crate::lang::LangId;
use crate::script::{
    body_indent, count_newlines, dedented, frags_within, line_starts, script_body,
};
use crate::syntax::{nodes_wf, parsed_syntax, NodeView, SyntaxTree};
use crate::text::{char_is_ws, line_end, line_end_byte, node_text, strings_view, text_of, windows_equal};
use crate::comment::word_end;
use crate::lang::spec_for;
use crate::parse::{parse_tree, spans_view};
use crate::text::{chars_of, eq_lit, str_from_utf8, strs_view, trim, CharClass, skip_start, skip_end};
use vstd::utf8::{decode_utf8, valid_utf8};

verus! {

/// The attributes whose string value is a build script.
pub open spec fn nix_script_attrs() -> Seq<Seq<char>> {
    seq![
        "buildCommand"@,
        "buildPhase"@,
        "checkPhase"@,
        "extraCommands"@,
        "installPhase"@,
        "installPhaseCommand"@,
        "postFixup"@,
        "postInstall"@,
        "postPatch"@,
        "preStart"@,
        "script"@,
        "shellHook"@,
    ]
}

/// The functions whose string argument is a script.
pub open spec fn nix_script_fns() -> Seq<Seq<char>> {
    seq![
        "runCommand"@,
        "runCommandLocal"@,
        "writeScript"@,
        "writeScriptBin"@,
        "writeShellApplication"@,
        "writeShellScript"@,
        "writeShellScriptBin"@,
    ]
}

/// The commands that run a heredoc as python.
pub open spec fn python_interpreters() -> Seq<Seq<char>> {
    seq!["python"@, "python3"@]
}

/// The first child of `p`, from node `m` on, whose field name is `f`.
pub open spec fn field_child_scan(ns: Seq<NodeView>, p: int, f: Seq<char>, m: int) -> Option<int>
    decreases ns.len() - m,
{
    if m < 0 || m >= ns.len() || ns[m].depth <= ns[p].depth {
        None
    } else if ns[m].depth == ns[p].depth + 1 && ns[m].field == Some(f) {
        Some(m)
    } else {
        field_child_scan(ns, p, f, m + 1)
    }
}

/// `child_by_field_name(f)` of node `p`.
pub open spec fn field_child(ns: Seq<NodeView>, p: int, f: Seq<char>) -> Option<int> {
    field_child_scan(ns, p, f, p + 1)
}

/// Where the text after the last `sep` among the first `k` characters starts.
pub open spec fn last_sep_index(s: Seq<char>, sep: char, k: int) -> int
    decreases k,
{
    if k <= 0 || k > s.len() {
        0
    } else if s[k - 1] == sep {
        k
    } else {
        last_sep_index(s, sep, k - 1)
    }
}

/// `s.rsplit(sep).next()`: the text after the last `sep`.
pub open spec fn after_last(s: Seq<char>, sep: char) -> Seq<char> {
    s.skip(last_sep_index(s, sep, s.len() as int))
}

/// The text of node `m`, when its bytes are valid UTF-8.
pub open spec fn valid_text(ns: Seq<NodeView>, src: Seq<u8>, m: int) -> Option<Seq<char>> {
    let b = src.subrange(ns[m].start_byte, ns[m].end_byte);
    if valid_utf8(b) {
        Some(decode_utf8(b))
    } else {
        None
    }
}

/// The last `.`-separated segment of node `m`'s text, trimmed.
pub open spec fn last_name(ns: Seq<NodeView>, src: Seq<u8>, m: int) -> Option<Seq<char>> {
    match valid_text(ns, src, m) {
        Some(t) => Some(trim(after_last(t, '.'))),
        None => None,
    }
}

/// The attribute a `binding` node binds: the last segment of its attrpath.
pub open spec fn binding_name(ns: Seq<NodeView>, src: Seq<u8>, b: int) -> Option<Seq<char>> {
    match field_child(ns, b, "attrpath"@) {
        Some(a) => last_name(ns, src, a),
        None => None,
    }
}

/// The function at the head of a chain of applications starting at `f`.
pub open spec fn apply_head(ns: Seq<NodeView>, f: int) -> Option<int>
    decreases ns.len() - f,
{
    if 0 <= f < ns.len() && ns[f].kind == "apply_expression"@ {
        match field_child(ns, f, "function"@) {
            Some(g) => if f < g < ns.len() {
                apply_head(ns, g)
            } else {
                None
            },
            None => None,
        }
    } else {
        Some(f)
    }
}

/// The name of the function an `apply_expression` node applies, through any
/// curried applications (`writeShellScript "name" ''body''`).
pub open spec fn apply_name(ns: Seq<NodeView>, src: Seq<u8>, a: int) -> Option<Seq<char>> {
    match field_child(ns, a, "function"@) {
        Some(f) => match apply_head(ns, f) {
            Some(h) => last_name(ns, src, h),
            None => None,
        },
        None => None,
    }
}

/// Node `j` names a script: a binding of a script attribute, or an application
/// of a script function.
pub open spec fn names_script(ns: Seq<NodeView>, src: Seq<u8>, j: int) -> bool {
    ||| (ns[j].kind == "binding"@ && match binding_name(ns, src, j) {
        Some(n) => nix_script_attrs().contains(n),
        None => false,
    })
    ||| (ns[j].kind == "apply_expression"@ && match apply_name(ns, src, j) {
        Some(n) => nix_script_fns().contains(n),
        None => false,
    })
}

/// Some ancestor, among the nodes up to `j`, of a node at depth `d` names a
/// script.
pub open spec fn script_scan(ns: Seq<NodeView>, src: Seq<u8>, d: int, j: int) -> bool
    decreases j + 1,
{
    if j < 0 || j >= ns.len() {
        false
    } else if ns[j].depth < d {
        names_script(ns, src, j) || script_scan(ns, src, ns[j].depth, j - 1)
    } else {
        script_scan(ns, src, d, j - 1)
    }
}

/// The string node `i` is a script: some ancestor names it one.
pub open spec fn is_script_string(ns: Seq<NodeView>, src: Seq<u8>, i: int) -> bool {
    script_scan(ns, src, ns[i].depth, i - 1)
}

/// The children of `p` from node `m` on whose kind is `string_fragment`.
pub open spec fn fragment_scan(ns: Seq<NodeView>, p: int, m: int) -> Seq<int>
    decreases ns.len() - m,
{
    if m < 0 || m >= ns.len() || ns[m].depth <= ns[p].depth {
        Seq::empty()
    } else if ns[m].depth == ns[p].depth + 1 && ns[m].kind == "string_fragment"@ {
        seq![m] + fragment_scan(ns, p, m + 1)
    } else {
        fragment_scan(ns, p, m + 1)
    }
}

pub open spec fn fragments(ns: Seq<NodeView>, p: int) -> Seq<int> {
    fragment_scan(ns, p, p + 1)
}

/// `child_by_field_name(f)` of node `p` of `t`.
fn field_child_exec(t: &SyntaxTree, p: usize, f: &str) -> (r: Option<usize>)
    requires
        p < t.nodes@.len(),
    ensures
        opt_index(r) == field_child(t.ns(), p as int, f@),
        r matches Some(m) ==> p < m < t.nodes@.len(),
{
    let ghost ns = t.ns();
    let n = t.nodes.len();
    assert(ns[p as int] == t.nodes@[p as int]@);
    let dp = t.nodes[p].depth;
    let mut m = p + 1;
    while m < n && t.nodes[m].depth > dp
        invariant
            ns == t.ns(),
            n == ns.len(),
            p < m <= n,
            dp == ns[p as int].depth,
            field_child(ns, p as int, f@) == field_child_scan(ns, p as int, f@, m as int),
        decreases n - m,
    {
        assert(ns[m as int] == t.nodes@[m as int]@);
        if t.nodes[m].depth == dp + 1 {
            match &t.nodes[m].field {
                Some(name) => {
                    if eq_lit(name, f) {
                        return Some(m);
                    }
                },
                None => {},
            }
        }
        m = m + 1;
    }
    proof {
        if m < n {
            assert(ns[m as int] == t.nodes@[m as int]@);
        }
    }
    None
}

pub open spec fn opt_index(o: Option<usize>) -> Option<int> {
    match o {
        Some(v) => Some(v as int),
        None => None,
    }
}

/// `s.rsplit(sep).next()` of the window `v[lo..hi]`, as the window `[r, hi)`.
fn after_last_exec(v: &Vec<char>, lo: usize, hi: usize, sep: char) -> (r: usize)
    requires
        lo <= hi <= v@.len(),
    ensures
        lo <= r <= hi,
        v@.subrange(r as int, hi as int) == after_last(v@.subrange(lo as int, hi as int), sep),
{
    let ghost w = v@.subrange(lo as int, hi as int);
    let mut k = hi;
    while k > lo && v[k - 1] != sep
        invariant
            lo <= k <= hi <= v@.len(),
            w == v@.subrange(lo as int, hi as int),
            last_sep_index(w, sep, w.len() as int) == last_sep_index(w, sep, k - lo),
        decreases k,
    {
        k = k - 1;
    }
    assert(w.skip(last_sep_index(w, sep, w.len() as int)) =~= v@.subrange(k as int, hi as int));
    k
}

/// The last `.`-separated segment of node `m`'s text, trimmed.
fn last_name_exec(t: &SyntaxTree, src: &[u8], m: usize) -> (r: Option<Vec<char>>)
    requires
        t.wf(src@.len() as int),
        m < t.nodes@.len(),
    ensures
        match r {
            Some(v) => last_name(t.ns(), src@, m as int) == Some(v@),
            None => last_name(t.ns(), src@, m as int) is None,
        },
{
    assert(t.ns()[m as int] == t.nodes@[m as int]@);
    proof {
        crate::syntax::lemma_wf_node(t.ns(), src@.len() as int, m as int);
    }
    let b = vstd::slice::slice_subrange(src, t.nodes[m].start_byte, t.nodes[m].end_byte);
    let text = match str_from_utf8(b) {
        Some(s) => s,
        None => return None,
    };
    let v = chars_of(text);
    let n = v.len();
    assert(v@.subrange(0, n as int) =~= v@);
    let k = after_last_exec(&v, 0, n, '.');
    let a = skip_start(&v, k, n, CharClass::Space);
    let e = skip_end(&v, a, n, CharClass::Space);
    let mut out: Vec<char> = Vec::new();
    let mut i = a;
    while i < e
        invariant
            a <= i <= e <= v@.len(),
            out@ == v@.subrange(a as int, i as int),
        decreases e - i,
    {
        out.push(v[i]);
        assert(out@ =~= v@.subrange(a as int, i + 1));
        i = i + 1;
    }
    assert(out@ == trim(v@.subrange(k as int, n as int)));
    Some(out)
}

/// Whether `name` is one of `list`.
fn listed(list: &[&str], name: &Vec<char>) -> (r: bool)
    ensures
        r == strs_view(list@).contains(name@),
{
    let ghost lv = strs_view(list@);
    let mut k: usize = 0;
    while k < list.len()
        invariant
            lv == strs_view(list@),
            k <= list@.len(),
            forall|m: int| 0 <= m < k ==> lv[m] != name@,
        decreases list@.len() - k,
    {
        if eq_lit(name, list[k]) {
            assert(lv[k as int] == name@);
            return true;
        }
        k = k + 1;
    }
    false
}

fn script_attr_list() -> (r: &'static [&'static str])
    ensures
        strs_view(r@) == nix_script_attrs(),
{
    let r: &'static [&'static str] = &[
        "buildCommand",
        "buildPhase",
        "checkPhase",
        "extraCommands",
        "installPhase",
        "installPhaseCommand",
        "postFixup",
        "postInstall",
        "postPatch",
        "preStart",
        "script",
        "shellHook",
    ];
    assert(strs_view(r@) =~= nix_script_attrs());
    r
}

fn script_fn_list() -> (r: &'static [&'static str])
    ensures
        strs_view(r@) == nix_script_fns(),
{
    let r: &'static [&'static str] = &[
        "runCommand",
        "runCommandLocal",
        "writeScript",
        "writeScriptBin",
        "writeShellApplication",
        "writeShellScript",
        "writeShellScriptBin",
    ];
    assert(strs_view(r@) =~= nix_script_fns());
    r
}

/// Whether node `j` names a script.
fn names_script_exec(t: &SyntaxTree, src: &[u8], j: usize) -> (r: bool)
    requires
        t.wf(src@.len() as int),
        j < t.nodes@.len(),
    ensures
        r == names_script(t.ns(), src@, j as int),
{
    let ghost ns = t.ns();
    assert(ns[j as int] == t.nodes@[j as int]@);
    let kind = &t.nodes[j].kind;
    if eq_lit(kind, "binding") {
        proof {
            reveal_strlit("binding");
            reveal_strlit("apply_expression");
            assert("binding"@.len() == 7);
            assert("apply_expression"@.len() == 16);
            assert(ns[j as int].kind != "apply_expression"@);
        }
        match field_child_exec(t, j, "attrpath") {
            Some(a) => {
                assert(field_child(ns, j as int, "attrpath"@) == Some(a as int));
                match last_name_exec(t, src, a) {
                    Some(name) => {
                        assert(binding_name(ns, src@, j as int) == Some(name@));
                        let b = listed(script_attr_list(), &name);
                        assert(b == nix_script_attrs().contains(name@));
                        assert(ns[j as int].kind == "binding"@);
                        assert(b ==> names_script(ns, src@, j as int));
                        b
                    },
                    None => false,
                }
            },
            None => false,
        }
    } else if eq_lit(kind, "apply_expression") {
        let mut f = match field_child_exec(t, j, "function") {
            Some(f) => f,
            None => return false,
        };
        let ghost start = f as int;
        while eq_lit(&t.nodes[f].kind, "apply_expression")
            invariant
                t.wf(src@.len() as int),
                ns == t.ns(),
                f < ns.len(),
                j < ns.len(),
                ns[j as int].kind == "apply_expression"@,
                ns[j as int].kind != "binding"@,
                apply_name(ns, src@, j as int) == match apply_head(ns, f as int) {
                    Some(h) => last_name(ns, src@, h),
                    None => None,
                },
            decreases ns.len() - f,
        {
            assert(ns[f as int] == t.nodes@[f as int]@);
            f = match field_child_exec(t, f, "function") {
                Some(g) => g,
                None => {
                    assert(apply_head(ns, f as int) is None);
                    return false;
                },
            };
        }
        assert(ns[f as int] == t.nodes@[f as int]@);
        assert(apply_head(ns, f as int) == Some(f as int));
        match last_name_exec(t, src, f) {
            Some(name) => {
                assert(apply_name(ns, src@, j as int) == Some(name@));
                let b = listed(script_fn_list(), &name);
                assert(b == nix_script_fns().contains(name@));
                assert(b == names_script(ns, src@, j as int));
                b
            },
            None => false,
        }
    } else {
        false
    }
}

/// Whether string node `i` of `t` is a script: some ancestor names it one.
fn is_script_exec(t: &SyntaxTree, src: &[u8], i: usize) -> (r: bool)
    requires
        t.wf(src@.len() as int),
        i < t.nodes@.len(),
    ensures
        r == is_script_string(t.ns(), src@, i as int),
{
    let ghost ns = t.ns();
    assert(ns[i as int] == t.nodes@[i as int]@);
    let mut d = t.nodes[i].depth;
    let mut j = i;
    while j > 0
        invariant
            t.wf(src@.len() as int),
            ns == t.ns(),
            j <= i < ns.len(),
            is_script_string(ns, src@, i as int) == script_scan(ns, src@, d as int, j - 1),
        decreases j,
    {
        j = j - 1;
        assert(ns[j as int] == t.nodes@[j as int]@);
        if t.nodes[j].depth < d {
            if names_script_exec(t, src, j) {
                return true;
            }
            d = t.nodes[j].depth;
        }
    }
    false
}

/// The `string_fragment` children of node `p`, in order.
fn fragments_exec(t: &SyntaxTree, p: usize) -> (r: Vec<usize>)
    requires
        p < t.nodes@.len(),
    ensures
        crate::generated::indices_view(r@) == fragments(t.ns(), p as int),
        forall|k: int| 0 <= k < r@.len() ==> p < #[trigger] r@[k] < t.nodes@.len(),
{
    let ghost ns = t.ns();
    let n = t.nodes.len();
    assert(ns[p as int] == t.nodes@[p as int]@);
    let dp = t.nodes[p].depth;
    let mut out: Vec<usize> = Vec::new();
    let mut m = p + 1;
    while m < n && t.nodes[m].depth > dp
        invariant
            ns == t.ns(),
            n == ns.len(),
            p < m <= n,
            dp == ns[p as int].depth,
            crate::generated::indices_view(out@) + fragment_scan(ns, p as int, m as int) == fragments(ns, p as int),
            forall|k: int| 0 <= k < out@.len() ==> p < #[trigger] out@[k] < n,
        decreases n - m,
    {
        assert(ns[m as int] == t.nodes@[m as int]@);
        let ghost before = crate::generated::indices_view(out@);
        if t.nodes[m].depth == dp + 1 && eq_lit(&t.nodes[m].kind, "string_fragment") {
            out.push(m);
        }
        assert(crate::generated::indices_view(out@) + fragment_scan(ns, p as int, m + 1) =~= before + fragment_scan(ns, p as int, m as int));
        m = m + 1;
    }
    proof {
        if m < n {
            assert(ns[m as int] == t.nodes@[m as int]@);
        }
    }
    assert(crate::generated::indices_view(out@) =~= fragments(ns, p as int));
    out
}

/// The positions (row, column) of the `comment` nodes among the first `n`
/// nodes, in preorder.
pub open spec fn comment_positions(ns: Seq<NodeView>, n: int) -> Seq<(int, int)>
    decreases n,
{
    if n <= 0 {
        Seq::empty()
    } else if ns[n - 1].kind == "comment"@ {
        comment_positions(ns, n - 1).push((ns[n - 1].start_row, ns[n - 1].start_col))
    } else {
        comment_positions(ns, n - 1)
    }
}

/// The nearest ancestor of kind `redirected_statement`, among the nodes up to
/// `j`, of a node at depth `d`.
pub open spec fn statement_scan(ns: Seq<NodeView>, d: int, j: int) -> Option<int>
    decreases j + 1,
{
    if j < 0 || j >= ns.len() {
        None
    } else if ns[j].depth < d {
        if ns[j].kind == "redirected_statement"@ {
            Some(j)
        } else {
            statement_scan(ns, ns[j].depth, j - 1)
        }
    } else {
        statement_scan(ns, d, j - 1)
    }
}

/// The first child of node `p`.
pub open spec fn first_child(ns: Seq<NodeView>, p: int) -> Option<int> {
    if 0 <= p && p + 1 < ns.len() && ns[p + 1].depth == ns[p].depth + 1 {
        Some(p + 1)
    } else {
        None
    }
}

/// The program a command runs: the last `/` segment of its first word.
pub open spec fn interpreter(cmd: Seq<char>) -> Seq<char> {
    after_last(first_word(cmd), '/')
}

/// The heredoc body `h` feeds a python interpreter: the statement around it
/// starts with a command that runs python.
pub open spec fn feeds_python(ns: Seq<NodeView>, buf: Seq<u8>, h: int) -> bool {
    match statement_scan(ns, ns[h].depth, h - 1) {
        Some(s) => match first_child(ns, s) {
            Some(c) => python_interpreters().contains(
                interpreter(node_text(buf, ns[c].start_byte, ns[c].end_byte)),
            ),
            None => false,
        },
        None => false,
    }
}

/// The positions of the comments of a python heredoc body, moved down by
/// `base_row` rows; none when python cannot parse it. A row beyond the
/// machine's range names no line of any file and is dropped.
pub open spec fn python_positions(body: Seq<u8>, base_row: int) -> Seq<(int, int)> {
    match parsed_syntax(LangId::Python, body) {
        Some(ns3) => if nodes_wf(ns3, body.len() as int) {
            shifted_positions(comment_positions(ns3, ns3.len() as int), base_row)
        } else {
            Seq::empty()
        },
        None => Seq::empty(),
    }
}

pub open spec fn shifted_positions(ps: Seq<(int, int)>, base_row: int) -> Seq<(int, int)>
    decreases ps.len(),
{
    if ps.len() == 0 {
        Seq::empty()
    } else {
        let prev = shifted_positions(ps.drop_last(), base_row);
        if base_row + ps.last().0 <= usize::MAX {
            prev.push((base_row + ps.last().0, ps.last().1))
        } else {
            prev
        }
    }
}

/// The python comment positions of the heredocs among the first `n` nodes of
/// a bash tree over `buf`.
pub open spec fn heredoc_positions(ns: Seq<NodeView>, buf: Seq<u8>, n: int) -> Seq<(int, int)>
    decreases n,
{
    if n <= 0 {
        Seq::empty()
    } else if ns[n - 1].kind == "heredoc_body"@ && feeds_python(ns, buf, n - 1) {
        heredoc_positions(ns, buf, n - 1) + python_positions(
            buf.subrange(ns[n - 1].start_byte, ns[n - 1].end_byte),
            ns[n - 1].start_row,
        )
    } else {
        heredoc_positions(ns, buf, n - 1)
    }
}

/// The comment that a position in the dedented script names in the file, if
/// it lands on a line of the file before the end of the string.
pub open spec fn embed_one(
    src: Seq<u8>,
    starts: Seq<int>,
    end: int,
    indent: int,
    body_row: int,
    script_row: int,
    p: (int, int),
) -> Option<CommentView> {
    let row = body_row + p.0;
    if row >= starts.len() {
        None
    } else {
        let begin = starts[row] + p.1 + indent;
        let le = if line_end(src, starts[row]) < end {
            line_end(src, starts[row])
        } else {
            end
        };
        if begin >= le {
            None
        } else {
            Some(
                CommentView {
                    start_byte: begin,
                    end_byte: le,
                    start_row: row,
                    start_col: begin - starts[row],
                    end_row: row,
                    end_col: le - starts[row],
                    shape: CommentShape::Line,
                    is_doc: false,
                    text: node_text(src, begin, le),
                    in_macro: false,
                    enclosing_attributes: Seq::empty(),
                    embedded_script_row: Some(script_row),
                },
            )
        }
    }
}

pub open spec fn embed_all(
    src: Seq<u8>,
    starts: Seq<int>,
    end: int,
    indent: int,
    body_row: int,
    script_row: int,
    ps: Seq<(int, int)>,
) -> Seq<CommentView>
    decreases ps.len(),
{
    if ps.len() == 0 {
        Seq::empty()
    } else {
        let prev = embed_all(src, starts, end, indent, body_row, script_row, ps.drop_last());
        match embed_one(src, starts, end, indent, body_row, script_row, ps.last()) {
            Some(c) => prev.push(c),
            None => prev,
        }
    }
}

/// The comments of the script whose fragments are `frags`: the body is read
/// as bash (and its python heredocs as python), and each comment found maps
/// back to the file's bytes and rows.
pub open spec fn embed_string(ns: Seq<NodeView>, src: Seq<u8>, frags: Seq<int>) -> Result<Seq<CommentView>, WardenError> {
    let start = ns[frags[0]].start_byte;
    let end = ns[frags.last()].end_byte;
    if !frags_within(ns, frags, start, end) {
        Err(WardenError::MalformedTree)
    } else {
        let body = script_body(ns, src, frags, start, end);
        let buf = dedented(body);
        let body_row = count_newlines(src.take(start));
        let script_row = body_row + if body.len() > 0 && body[0] == 10u8 {
            1int
        } else {
            0int
        };
        match parsed_syntax(LangId::Bash, buf) {
            None => Err(WardenError::NoTree),
            Some(ns2) => if !nodes_wf(ns2, buf.len() as int) {
                Err(WardenError::MalformedTree)
            } else {
                Ok(
                    embed_all(
                        src,
                        line_starts(src),
                        end,
                        body_indent(body),
                        body_row,
                        script_row,
                        comment_positions(ns2, ns2.len() as int) + heredoc_positions(
                            ns2,
                            buf,
                            ns2.len() as int,
                        ),
                    ),
                )
            },
        }
    }
}

pub open spec fn frag_spans(ns: Seq<NodeView>, frags: Seq<int>) -> Seq<(int, int)> {
    Seq::new(frags.len(), |k: int| (ns[frags[k]].start_byte, ns[frags[k]].end_byte))
}

/// The embedded comments and the opaque spans that the `''…''` strings among
/// the first `n` nodes give, in preorder: a script string is read as bash, and
/// the fragments of any other string are reported as unread.
pub open spec fn nix_embedded(ns: Seq<NodeView>, src: Seq<u8>, n: int) -> Result<(Seq<CommentView>, Seq<(int, int)>), WardenError>
    decreases n,
{
    if n <= 0 {
        Ok((Seq::empty(), Seq::empty()))
    } else {
        match nix_embedded(ns, src, n - 1) {
            Err(e) => Err(e),
            Ok((cs, spans)) => {
                let i = n - 1;
                let frags = fragments(ns, i);
                if ns[i].kind != "indented_string_expression"@ || frags.len() == 0 {
                    Ok((cs, spans))
                } else if !is_script_string(ns, src, i) {
                    Ok((cs, spans + frag_spans(ns, frags)))
                } else {
                    match embed_string(ns, src, frags) {
                        Err(e) => Err(e),
                        Ok(more) => Ok((cs + more, spans)),
                    }
                }
            },
        }
    }
}

/// The positions of the `comment` nodes of `t`, in preorder.
fn comment_positions_exec(t: &SyntaxTree) -> (r: Vec<(usize, usize)>)
    ensures
        spans_view(r@) == comment_positions(t.ns(), t.ns().len() as int),
{
    let ghost ns = t.ns();
    let n = t.nodes.len();
    let mut out: Vec<(usize, usize)> = Vec::new();
    let mut i: usize = 0;
    while i < n
        invariant
            ns == t.ns(),
            n == ns.len(),
            i <= n,
            spans_view(out@) == comment_positions(ns, i as int),
        decreases n - i,
    {
        assert(ns[i as int] == t.nodes@[i as int]@);
        if eq_lit(&t.nodes[i].kind, "comment") {
            out.push((t.nodes[i].start_row, t.nodes[i].start_col));
        }
        assert(spans_view(out@) =~= comment_positions(ns, i + 1));
        i = i + 1;
    }
    out
}

/// The nearest `redirected_statement` above node `h`.
fn statement_exec(t: &SyntaxTree, h: usize) -> (r: Option<usize>)
    requires
        h < t.nodes@.len(),
    ensures
        opt_index(r) == statement_scan(t.ns(), t.ns()[h as int].depth, h - 1),
        r matches Some(s) ==> s < h,
{
    let ghost ns = t.ns();
    assert(ns[h as int] == t.nodes@[h as int]@);
    let mut d = t.nodes[h].depth;
    let mut j = h;
    while j > 0
        invariant
            ns == t.ns(),
            j <= h < ns.len(),
            statement_scan(ns, ns[h as int].depth, h - 1) == statement_scan(ns, d as int, j - 1),
        decreases j,
    {
        j = j - 1;
        assert(ns[j as int] == t.nodes@[j as int]@);
        if t.nodes[j].depth < d {
            if eq_lit(&t.nodes[j].kind, "redirected_statement") {
                return Some(j);
            }
            d = t.nodes[j].depth;
        }
    }
    None
}

/// Whether the command text `cmd` runs a python interpreter.
fn runs_python(cmd: &str) -> (r: bool)
    ensures
        r == python_interpreters().contains(interpreter(cmd@)),
{
    let v = chars_of(cmd);
    let n = v.len();
    let ghost s = v@;
    assert(s.subrange(0, n as int) =~= s);
    let lo = skip_start(&v, 0, n, CharClass::Space);
    let ghost tt = s.subrange(lo as int, n as int);
    let mut hi = lo;
    while hi < n && !char_is_ws(v[hi])
        invariant
            lo <= hi <= n == s.len(),
            s == v@,
            tt == s.subrange(lo as int, n as int),
            word_end(tt, 0) == word_end(tt, hi - lo),
        decreases n - hi,
    {
        hi = hi + 1;
    }
    assert(first_word(cmd@) =~= s.subrange(lo as int, hi as int));
    let k = after_last_exec(&v, lo, hi, '/');
    let py = chars_of("python");
    let py3 = chars_of("python3");
    assert(py@.subrange(0, py@.len() as int) =~= py@);
    assert(py3@.subrange(0, py3@.len() as int) =~= py3@);
    let r = windows_equal(&v, k, hi, &py, 0, py.len()) || windows_equal(&v, k, hi, &py3, 0, py3.len());
    proof {
        let w = interpreter(cmd@);
        assert(w == v@.subrange(k as int, hi as int));
        assert(python_interpreters()[0] == "python"@);
        assert(python_interpreters()[1] == "python3"@);
        if python_interpreters().contains(w) {
            let m = choose|m: int| 0 <= m < python_interpreters().len() && python_interpreters()[m] == w;
            assert(m == 0 || m == 1);
        }
    }
    r
}

/// Whether heredoc body `h` of the bash tree `t` over `buf` feeds python.
fn feeds_python_exec(t: &SyntaxTree, buf: &[u8], h: usize) -> (r: bool)
    requires
        t.wf(buf@.len() as int),
        h < t.nodes@.len(),
    ensures
        r == feeds_python(t.ns(), buf@, h as int),
{
    let ghost ns = t.ns();
    let s = match statement_exec(t, h) {
        Some(s) => s,
        None => return false,
    };
    assert(ns[s as int] == t.nodes@[s as int]@);
    if s + 1 >= t.nodes.len() {
        assert(first_child(ns, s as int) is None);
        return false;
    }
    let c = s + 1;
    assert(ns[c as int] == t.nodes@[c as int]@);
    proof {
        crate::syntax::lemma_wf_node(ns, buf@.len() as int, c as int);
    }
    if t.nodes[c].depth <= t.nodes[s].depth {
        assert(first_child(ns, s as int) is None);
        return false;
    }
    assert(first_child(ns, s as int) == Some(c as int));
    let cmd = text_of(buf, t.nodes[c].start_byte, t.nodes[c].end_byte);
    runs_python(cmd.as_str())
}

/// The comment positions of the python heredoc `body`, moved down by
/// `base_row` rows.
fn python_positions_exec(body: &[u8], base_row: usize) -> (r: Vec<(usize, usize)>)
    ensures
        spans_view(r@) == python_positions(body@, base_row as int),
{
    let spec = spec_for(LangId::Python);
    let t3 = match parse_tree(&spec, body) {
        Ok(t3) => t3,
        Err(_) => return Vec::new(),
    };
    let ps = comment_positions_exec(&t3);
    let ghost pv = spans_view(ps@);
    let mut out: Vec<(usize, usize)> = Vec::new();
    let mut k: usize = 0;
    assert(pv.take(0) =~= Seq::<(int, int)>::empty());
    while k < ps.len()
        invariant
            pv == spans_view(ps@),
            k <= ps@.len(),
            spans_view(out@) == shifted_positions(pv.take(k as int), base_row as int),
        decreases ps@.len() - k,
    {
        assert(pv.take(k + 1).drop_last() =~= pv.take(k as int));
        assert(pv.take(k + 1).last() == pv[k as int]);
        let (r, c) = ps[k];
        match base_row.checked_add(r) {
            Some(row) => {
                let ghost o0 = spans_view(out@);
                out.push((row, c));
                assert(spans_view(out@) =~= o0.push((row as int, c as int)));
            },
            None => {},
        }
        k = k + 1;
    }
    assert(pv.take(ps@.len() as int) =~= pv);
    out
}

/// The python comment positions of the heredocs of the bash tree `t` over `buf`.
fn heredoc_positions_exec(t: &SyntaxTree, buf: &[u8]) -> (r: Vec<(usize, usize)>)
    requires
        t.wf(buf@.len() as int),
    ensures
        spans_view(r@) == heredoc_positions(t.ns(), buf@, t.ns().len() as int),
{
    let ghost ns = t.ns();
    let n = t.nodes.len();
    let mut out: Vec<(usize, usize)> = Vec::new();
    let mut i: usize = 0;
    while i < n
        invariant
            t.wf(buf@.len() as int),
            ns == t.ns(),
            n == ns.len(),
            i <= n,
            spans_view(out@) == heredoc_positions(ns, buf@, i as int),
        decreases n - i,
    {
        assert(ns[i as int] == t.nodes@[i as int]@);
        let ghost o0 = spans_view(out@);
        if eq_lit(&t.nodes[i].kind, "heredoc_body") && feeds_python_exec(t, buf, i) {
            proof {
                crate::syntax::lemma_wf_node(ns, buf@.len() as int, i as int);
            }
            let body = vstd::slice::slice_subrange(buf, t.nodes[i].start_byte, t.nodes[i].end_byte);
            let mut more = python_positions_exec(body, t.nodes[i].start_row);
            let ghost m0 = spans_view(more@);
            out.append(&mut more);
            assert(spans_view(out@) =~= o0 + m0);
        }
        assert(spans_view(out@) =~= heredoc_positions(ns, buf@, i + 1));
        i = i + 1;
    }
    out
}

/// The comment that position `p` of the dedented script names in the file.
fn embed_one_exec(
    src: &[u8],
    starts: &Vec<usize>,
    end: usize,
    indent: usize,
    body_row: usize,
    script_row: usize,
    p: (usize, usize),
) -> (r: Option<Comment>)
    requires
        end <= src@.len(),
        forall|k: int| 0 <= k < starts@.len() ==> #[trigger] starts@[k] <= src@.len(),
    ensures
        match r {
            Some(c) => embed_one(
                src@,
                indices_view(starts@),
                end as int,
                indent as int,
                body_row as int,
                script_row as int,
                (p.0 as int, p.1 as int),
            ) == Some(c@),
            None => embed_one(
                src@,
                indices_view(starts@),
                end as int,
                indent as int,
                body_row as int,
                script_row as int,
                (p.0 as int, p.1 as int),
            ) is None,
        },
{
    let ghost sv = indices_view(starts@);
    let sl = starts.len();
    let row = match body_row.checked_add(p.0) {
        Some(row) => row,
        None => {
            assert(sv.len() == sl);
            return None;
        },
    };
    if row >= starts.len() {
        return None;
    }
    let ls = starts[row];
    assert(sv[row as int] == ls);
    let le0 = line_end_byte(src, ls);
    let le = if le0 < end {
        le0
    } else {
        end
    };
    assert(le == if line_end(src@, sv[row as int]) < end { line_end(src@, sv[row as int]) } else { end as int });
    let begin = match ls.checked_add(p.1) {
        Some(b) => match b.checked_add(indent) {
            Some(b2) => b2,
            None => {
                assert(sv[row as int] + p.1 + indent >= le);
                return None;
            },
        },
        None => {
            assert(sv[row as int] + p.1 + indent >= le);
            return None;
        },
    };
    if begin >= le {
        return None;
    }
    let text = text_of(src, begin, le);
    let c = Comment {
        start_byte: begin,
        end_byte: le,
        start_row: row,
        start_col: begin - ls,
        end_row: row,
        end_col: le - ls,
        shape: CommentShape::Line,
        is_doc: false,
        text,
        in_macro: false,
        enclosing_attributes: Vec::new(),
        embedded_script_row: Some(script_row),
    };
    assert(strings_view(c.enclosing_attributes@) =~= Seq::<Seq<char>>::empty());
    Some(c)
}

/// The comments of the script whose fragments are `frags` (see [`embed_string`]).
fn embed_string_exec(t: &SyntaxTree, src: &[u8], frags: &Vec<usize>, starts: &Vec<usize>) -> (r: Result<Vec<Comment>, WardenError>)
    requires
        t.wf(src@.len() as int),
        frags@.len() > 0,
        forall|f: int| 0 <= f < frags@.len() ==> #[trigger] frags@[f] < t.nodes@.len(),
        indices_view(starts@) == line_starts(src@),
        forall|k: int| 0 <= k < starts@.len() ==> #[trigger] starts@[k] <= src@.len(),
    ensures
        match r {
            Ok(v) => embed_string(t.ns(), src@, indices_view(frags@)) == Ok::<Seq<CommentView>, WardenError>(comments_view(v@)),
            Err(e) => embed_string(t.ns(), src@, indices_view(frags@)) == Err::<Seq<CommentView>, WardenError>(e),
        },
{
    let ghost ns = t.ns();
    let ghost fv = indices_view(frags@);
    let first = frags[0];
    let last = frags[frags.len() - 1];
    assert(fv[0] == first);
    assert(fv.last() == last);
    assert(ns[first as int] == t.nodes@[first as int]@);
    assert(ns[last as int] == t.nodes@[last as int]@);
    let start = t.nodes[first].start_byte;
    let end = t.nodes[last].end_byte;
    if start > end {
        assert(!frags_within(ns, fv, start as int, end as int));
        return Err(WardenError::MalformedTree);
    }
    let mut fi: usize = 0;
    while fi < frags.len()
        invariant
            ns == t.ns(),
            fv == indices_view(frags@),
            fi <= frags@.len(),
            start <= end,
            fv.len() > 0,
            start == ns[fv[0]].start_byte,
            end == ns[fv.last()].end_byte,
            forall|f: int| 0 <= f < frags@.len() ==> #[trigger] frags@[f] < t.nodes@.len(),
            forall|f: int| #![trigger fv[f]] 0 <= f < fi ==> start <= ns[fv[f]].start_byte <= ns[fv[f]].end_byte <= end,
        decreases frags@.len() - fi,
    {
        let f = frags[fi];
        assert(fv[fi as int] == f);
        assert(ns[f as int] == t.nodes@[f as int]@);
        let fs = t.nodes[f].start_byte;
        let fe = t.nodes[f].end_byte;
        if fs < start || fe > end || fs > fe {
            assert(!frags_within(ns, fv, start as int, end as int));
            return Err(WardenError::MalformedTree);
        }
        fi = fi + 1;
    }
    assert(frags_within(ns, fv, start as int, end as int));
    proof {
        crate::syntax::lemma_wf_node(ns, src@.len() as int, last as int);
    }
    let body = script_body_exec(t, src, frags, start, end);
    let lines = split_lines_exec(&body);
    let indent = min_indent_exec(&lines);
    let buf = dedent_exec(&lines, indent);
    assert(Seq::new(lines@.len(), |k: int| dedent_line(lines@[k]@, indent as int)) =~= Seq::new(
        split_lines(body@).len(),
        |k: int| dedent_line(split_lines(body@)[k], body_indent(body@)),
    ));
    assert(buf@ == dedented(body@));
    let body_row = count_newlines_exec(src, start);
    let script_row = if body.len() > 0 && body[0] == 10u8 {
        body_row + 1
    } else {
        body_row
    };
    let bash = spec_for(LangId::Bash);
    let t2 = parse_tree(&bash, buf.as_slice())?;
    let mut ps = comment_positions_exec(&t2);
    let mut hp = heredoc_positions_exec(&t2, buf.as_slice());
    let ghost all = spans_view(ps@) + spans_view(hp@);
    ps.append(&mut hp);
    assert(spans_view(ps@) =~= all);
    let mut out: Vec<Comment> = Vec::new();
    let mut k: usize = 0;
    assert(all.take(0) =~= Seq::<(int, int)>::empty());
    while k < ps.len()
        invariant
            all == spans_view(ps@),
            k <= ps@.len(),
            end <= src@.len(),
            forall|m: int| 0 <= m < starts@.len() ==> #[trigger] starts@[m] <= src@.len(),
            comments_view(out@) == embed_all(
                src@,
                indices_view(starts@),
                end as int,
                indent as int,
                body_row as int,
                script_row as int,
                all.take(k as int),
            ),
        decreases ps@.len() - k,
    {
        assert(all.take(k + 1).drop_last() =~= all.take(k as int));
        assert(all.take(k + 1).last() == all[k as int]);
        let ghost o0 = comments_view(out@);
        match embed_one_exec(src, starts, end, indent, body_row, script_row, ps[k]) {
            Some(c) => {
                out.push(c);
                assert(comments_view(out@) =~= o0.push(out@.last()@));
            },
            None => {},
        }
        k = k + 1;
    }
    assert(all.take(ps@.len() as int) =~= all);
    Ok(out)
}

proof fn lemma_nix_error_stays(ns: Seq<NodeView>, src: Seq<u8>, m: int, k: int)
    requires
        nix_embedded(ns, src, m) is Err,
        m <= k,
    ensures
        nix_embedded(ns, src, k) == nix_embedded(ns, src, m),
    decreases k - m,
{
    if m < k {
        lemma_nix_error_stays(ns, src, m, k - 1);
    }
}

/// The comments of the shell scripts in the `''…''` strings of the nix tree
/// `t`, and the fragments of the strings that are no script (see
/// [`nix_embedded`]).
pub fn collect_embedded_nix(t: &SyntaxTree, src: &[u8]) -> (r: Result<(Vec<Comment>, Vec<(usize, usize)>), WardenError>)
    requires
        t.wf(src@.len() as int),
    ensures
        match r {
            Ok((cs, spans)) => nix_embedded(t.ns(), src@, t.ns().len() as int) == Ok::<(Seq<CommentView>, Seq<(int, int)>), WardenError>((comments_view(cs@), spans_view(spans@))),
            Err(e) => nix_embedded(t.ns(), src@, t.ns().len() as int) == Err::<(Seq<CommentView>, Seq<(int, int)>), WardenError>(e),
        },
{
    let ghost ns = t.ns();
    let starts = line_starts_exec(src);
    let n = t.nodes.len();
    let mut cs: Vec<Comment> = Vec::new();
    let mut spans: Vec<(usize, usize)> = Vec::new();
    let mut i: usize = 0;
    assert(comments_view(cs@) =~= Seq::<CommentView>::empty());
    assert(spans_view(spans@) =~= Seq::<(int, int)>::empty());
    while i < n
        invariant
            t.wf(src@.len() as int),
            ns == t.ns(),
            n == ns.len(),
            i <= n,
            indices_view(starts@) == line_starts(src@),
            forall|k: int| 0 <= k < starts@.len() ==> #[trigger] starts@[k] <= src@.len(),
            nix_embedded(ns, src@, i as int) == Ok::<(Seq<CommentView>, Seq<(int, int)>), WardenError>((comments_view(cs@), spans_view(spans@))),
        decreases n - i,
    {
        assert(ns[i as int] == t.nodes@[i as int]@);
        let ghost c0 = comments_view(cs@);
        let ghost s0 = spans_view(spans@);
        if eq_lit(&t.nodes[i].kind, "indented_string_expression") {
            let frags = fragments_exec(t, i);
            let ghost fv = indices_view(frags@);
            if frags.len() > 0 {
                if !is_script_exec(t, src, i) {
                    let mut k: usize = 0;
                    while k < frags.len()
                        invariant
                            ns == t.ns(),
                            fv == indices_view(frags@),
                            k <= frags@.len(),
                            forall|f: int| 0 <= f < frags@.len() ==> #[trigger] frags@[f] < t.nodes@.len(),
                            spans_view(spans@) == s0 + frag_spans(ns, fv).take(k as int),
                        decreases frags@.len() - k,
                    {
                        let f = frags[k];
                        assert(ns[f as int] == t.nodes@[f as int]@);
                        let ghost p0 = spans_view(spans@);
                        spans.push((t.nodes[f].start_byte, t.nodes[f].end_byte));
                        assert(spans_view(spans@) =~= p0.push((ns[f as int].start_byte, ns[f as int].end_byte)));
                        assert(frag_spans(ns, fv).take(k + 1) =~= frag_spans(ns, fv).take(k as int).push(frag_spans(ns, fv)[k as int]));
                        k = k + 1;
                    }
                    assert(frag_spans(ns, fv).take(frags@.len() as int) =~= frag_spans(ns, fv));
                } else {
                    let mut more = match embed_string_exec(t, src, &frags, &starts) {
                        Ok(more) => more,
                        Err(e) => {
                            proof {
                                lemma_nix_error_stays(ns, src@, i + 1, n as int);
                            }
                            return Err(e);
                        },
                    };
                    let ghost m0 = comments_view(more@);
                    cs.append(&mut more);
                    assert(comments_view(cs@) =~= c0 + m0);
                }
            }
        }
        i = i + 1;
    }
    Ok((cs, spans))
}

} // verus!
