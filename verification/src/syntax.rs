//! The syntax tree that tree-sitter builds for a source text, held as plain
//! values: every node of the tree in preorder, with its kind, its byte and
//! row/column span, its depth and its field name.
use vstd::prelude::*;

use crate::lang::LangId;

verus! {

#[verifier::external_type_specification]
#[verifier::external_body]
pub struct ExLanguage(tree_sitter::Language);

#[verifier::external_type_specification]
#[verifier::external_body]
pub struct ExTree(tree_sitter::Tree);

#[verifier::external_type_specification]
#[verifier::external_body]
pub struct ExParser(tree_sitter::Parser);

/// A tree-sitter grammar, with the language it was built for.
pub struct Grammar {
    language: tree_sitter::Language,
    lang: Ghost<LangId>,
}

impl Grammar {
    /// The language the grammar was built for.
    pub closed spec fn lang(&self) -> LangId {
        self.lang@
    }
}

/// A tree that tree-sitter returned for `source` under the grammar of `lang`.
struct ParsedTree {
    tree: tree_sitter::Tree,
    lang: Ghost<LangId>,
    source: Ghost<Seq<u8>>,
}

/// One node of a syntax tree. `depth` counts the edges from the root.
#[derive(Debug, Clone)]
pub struct SyntaxNode {
    pub kind: Vec<char>,
    pub field: Option<Vec<char>>,
    pub start_byte: usize,
    pub end_byte: usize,
    pub start_row: usize,
    pub start_col: usize,
    pub end_row: usize,
    pub end_col: usize,
    pub depth: usize,
    pub has_error: bool,
}

/// The mathematical value of a [`SyntaxNode`].
pub struct NodeView {
    pub kind: Seq<char>,
    pub field: Option<Seq<char>>,
    pub start_byte: int,
    pub end_byte: int,
    pub start_row: int,
    pub start_col: int,
    pub end_row: int,
    pub end_col: int,
    pub depth: int,
    pub has_error: bool,
}

pub open spec fn opt_vec_view(o: Option<Vec<char>>) -> Option<Seq<char>> {
    match o {
        Some(v) => Some(v@),
        None => None,
    }
}

impl View for SyntaxNode {
    type V = NodeView;

    open spec fn view(&self) -> NodeView {
        NodeView {
            kind: self.kind@,
            field: opt_vec_view(self.field),
            start_byte: self.start_byte as int,
            end_byte: self.end_byte as int,
            start_row: self.start_row as int,
            start_col: self.start_col as int,
            end_row: self.end_row as int,
            end_col: self.end_col as int,
            depth: self.depth as int,
            has_error: self.has_error,
        }
    }
}

pub open spec fn nodes_view(ns: Seq<SyntaxNode>) -> Seq<NodeView> {
    ns.map_values(|n: SyntaxNode| n@)
}

/// Whether `Parser::set_language` accepts the grammar of `lang` (its ABI
/// version is one this tree-sitter reads).
pub uninterp spec fn grammar_loads(lang: LangId) -> bool;

/// What `Parser::parse` returns for `source` under the grammar of `lang`:
/// `None` when it returns no tree, else the nodes of the tree in preorder
/// (the order of `TreeCursor::goto_descendant`).
pub uninterp spec fn syntax_of(lang: LangId, source: Seq<u8>) -> Option<Seq<NodeView>>;

/// The tree that a fresh parser gives for `source` under the grammar of
/// `lang`: none when the grammar does not load or the parser returns none.
pub open spec fn parsed_syntax(lang: LangId, source: Seq<u8>) -> Option<Seq<NodeView>> {
    if grammar_loads(lang) {
        syntax_of(lang, source)
    } else {
        None
    }
}

/// `tree_sitter_rust::LANGUAGE`, the Rust grammar.
#[verifier::external_body]
pub fn grammar_rust() -> (g: Grammar)
    ensures
        g.lang() == LangId::Rust,
{
    Grammar { language: tree_sitter_rust::LANGUAGE.into(), lang: Ghost(LangId::Rust) }
}

/// `tree_sitter_swift::LANGUAGE`, the Swift grammar.
#[verifier::external_body]
pub fn grammar_swift() -> (g: Grammar)
    ensures
        g.lang() == LangId::Swift,
{
    Grammar { language: tree_sitter_swift::LANGUAGE.into(), lang: Ghost(LangId::Swift) }
}

/// `tree_sitter_nix::LANGUAGE`, the Nix grammar.
#[verifier::external_body]
pub fn grammar_nix() -> (g: Grammar)
    ensures
        g.lang() == LangId::Nix,
{
    Grammar { language: tree_sitter_nix::LANGUAGE.into(), lang: Ghost(LangId::Nix) }
}

/// `tree_sitter_bash::LANGUAGE`, the Bash grammar.
#[verifier::external_body]
pub fn grammar_bash() -> (g: Grammar)
    ensures
        g.lang() == LangId::Bash,
{
    Grammar { language: tree_sitter_bash::LANGUAGE.into(), lang: Ghost(LangId::Bash) }
}

/// `tree_sitter_hcl::LANGUAGE`, the HCL grammar.
#[verifier::external_body]
pub fn grammar_hcl() -> (g: Grammar)
    ensures
        g.lang() == LangId::Hcl,
{
    Grammar { language: tree_sitter_hcl::LANGUAGE.into(), lang: Ghost(LangId::Hcl) }
}

/// `tree_sitter_python::LANGUAGE`, the Python grammar.
#[verifier::external_body]
pub fn grammar_python() -> (g: Grammar)
    ensures
        g.lang() == LangId::Python,
{
    Grammar { language: tree_sitter_python::LANGUAGE.into(), lang: Ghost(LangId::Python) }
}

/// `tree_sitter_typescript::LANGUAGE_TYPESCRIPT`, the TypeScript grammar.
#[verifier::external_body]
pub fn grammar_typescript() -> (g: Grammar)
    ensures
        g.lang() == LangId::TypeScript,
{
    Grammar {
        language: tree_sitter_typescript::LANGUAGE_TYPESCRIPT.into(),
        lang: Ghost(LangId::TypeScript),
    }
}

/// `tree_sitter_javascript::LANGUAGE`, the JavaScript grammar.
#[verifier::external_body]
pub fn grammar_javascript() -> (g: Grammar)
    ensures
        g.lang() == LangId::JavaScript,
{
    Grammar { language: tree_sitter_javascript::LANGUAGE.into(), lang: Ghost(LangId::JavaScript) }
}

/// `tree_sitter_go::LANGUAGE`, the Go grammar.
#[verifier::external_body]
pub fn grammar_go() -> (g: Grammar)
    ensures
        g.lang() == LangId::Go,
{
    Grammar { language: tree_sitter_go::LANGUAGE.into(), lang: Ghost(LangId::Go) }
}

/// `tree_sitter_c::LANGUAGE`, the C grammar.
#[verifier::external_body]
pub fn grammar_c() -> (g: Grammar)
    ensures
        g.lang() == LangId::C,
{
    Grammar { language: tree_sitter_c::LANGUAGE.into(), lang: Ghost(LangId::C) }
}

/// `tree_sitter_cpp::LANGUAGE`, the C++ grammar.
#[verifier::external_body]
pub fn grammar_cpp() -> (g: Grammar)
    ensures
        g.lang() == LangId::Cpp,
{
    Grammar { language: tree_sitter_cpp::LANGUAGE.into(), lang: Ghost(LangId::Cpp) }
}

/// `tree_sitter_yaml::LANGUAGE`, the YAML grammar.
#[verifier::external_body]
pub fn grammar_yaml() -> (g: Grammar)
    ensures
        g.lang() == LangId::Yaml,
{
    Grammar { language: tree_sitter_yaml::LANGUAGE.into(), lang: Ghost(LangId::Yaml) }
}

/// `tree_sitter_toml_ng::LANGUAGE`, the TOML grammar.
#[verifier::external_body]
pub fn grammar_toml() -> (g: Grammar)
    ensures
        g.lang() == LangId::Toml,
{
    Grammar { language: tree_sitter_toml_ng::LANGUAGE.into(), lang: Ghost(LangId::Toml) }
}

/// `tree_sitter_css::LANGUAGE`, the CSS grammar.
#[verifier::external_body]
pub fn grammar_css() -> (g: Grammar)
    ensures
        g.lang() == LangId::Css,
{
    Grammar { language: tree_sitter_css::LANGUAGE.into(), lang: Ghost(LangId::Css) }
}

/// `tree_sitter_ruby::LANGUAGE`, the Ruby grammar.
#[verifier::external_body]
pub fn grammar_ruby() -> (g: Grammar)
    ensures
        g.lang() == LangId::Ruby,
{
    Grammar { language: tree_sitter_ruby::LANGUAGE.into(), lang: Ghost(LangId::Ruby) }
}

/// `tree_sitter_html::LANGUAGE`, the HTML grammar.
#[verifier::external_body]
pub fn grammar_html() -> (g: Grammar)
    ensures
        g.lang() == LangId::Html,
{
    Grammar { language: tree_sitter_html::LANGUAGE.into(), lang: Ghost(LangId::Html) }
}

/// `tree_sitter_embedded_template::LANGUAGE`, the embedded-template grammar
/// that reads ERB.
#[verifier::external_body]
pub fn grammar_erb() -> (g: Grammar)
    ensures
        g.lang() == LangId::Erb,
{
    Grammar { language: tree_sitter_embedded_template::LANGUAGE.into(), lang: Ghost(LangId::Erb) }
}

/// `tree_sitter_scss::language()`, the SCSS grammar.
#[verifier::external_body]
pub fn grammar_scss() -> (g: Grammar)
    ensures
        g.lang() == LangId::Scss,
{
    Grammar { language: tree_sitter_scss::language(), lang: Ghost(LangId::Scss) }
}

/// A tree-sitter parser, with the language it was given.
struct TsParser {
    parser: tree_sitter::Parser,
    lang: Ghost<Option<LangId>>,
}

/// `Parser::new`: a parser with no language.
#[verifier::external_body]
fn ts_parser_new() -> (r: TsParser)
    ensures
        r.lang@ is None,
{
    TsParser { parser: tree_sitter::Parser::new(), lang: Ghost(None) }
}

/// `Parser::set_language`: gives the parser the grammar. Contract: it
/// succeeds exactly when [`grammar_loads`] says so, and a refusal leaves the
/// parser as it was.
#[verifier::external_body]
fn ts_set_language(p: &mut TsParser, grammar: &Grammar) -> (r: bool)
    ensures
        r == grammar_loads(grammar.lang()),
        r ==> final(p).lang@ == Some(grammar.lang()),
        !r ==> final(p).lang@ == old(p).lang@,
{
    match p.parser.set_language(&grammar.language) {
        Ok(()) => {
            p.lang = Ghost(Some(grammar.lang()));
            true
        },
        Err(_) => false,
    }
}

/// `Parser::parse`: parses `source`. Contract: a tree comes back exactly when
/// [`syntax_of`] says so, and the tree is tied to the parser's language and
/// to `source`.
#[verifier::external_body]
fn ts_parse(p: &mut TsParser, source: &[u8]) -> (r: Option<ParsedTree>)
    requires
        old(p).lang@ is Some,
    ensures
        r is Some <==> syntax_of(old(p).lang@->Some_0, source@) is Some,
        r matches Some(t) ==> t.lang@ == old(p).lang@->Some_0 && t.source@ == source@,
        final(p).lang@ == old(p).lang@,
{
    let tree = p.parser.parse(source, None)?;
    Some(ParsedTree { tree, lang: Ghost(p.lang@->Some_0), source: Ghost(source@) })
}

/// `Node::descendant_count` of the root: the number of nodes of the tree.
#[verifier::external_body]
fn ts_node_count(p: &ParsedTree) -> (n: usize)
    requires
        syntax_of(p.lang@, p.source@) is Some,
    ensures
        n == syntax_of(p.lang@, p.source@).unwrap().len(),
{
    p.tree.root_node().descendant_count()
}

/// `TreeCursor::goto_descendant(i)`: the `i`-th node of the tree in preorder,
/// with its kind, field name, span, depth and `has_error` flag.
#[verifier::external_body]
fn ts_node_at(p: &ParsedTree, i: usize) -> (n: SyntaxNode)
    requires
        syntax_of(p.lang@, p.source@) is Some,
        i < syntax_of(p.lang@, p.source@).unwrap().len(),
    ensures
        n@ == syntax_of(p.lang@, p.source@).unwrap()[i as int],
{
    let mut cursor = p.tree.walk();
    cursor.goto_descendant(i);
    let node = cursor.node();
    let field = match cursor.field_name() {
        Some(f) => Some(f.chars().collect()),
        None => None,
    };
    let (start, end) = (node.start_position(), node.end_position());
    SyntaxNode {
        kind: node.kind().chars().collect(), field,
        start_byte: node.start_byte(), end_byte: node.end_byte(),
        start_row: start.row, start_col: start.column, end_row: end.row, end_col: end.column,
        depth: cursor.depth() as usize, has_error: node.has_error(),
    }
}

/// The nodes, in preorder, of the tree that tree-sitter builds for `source`
/// under `grammar`; `None` when tree-sitter returns no tree.
pub fn parse_nodes(grammar: &Grammar, source: &[u8]) -> (r: Option<Vec<SyntaxNode>>)
    ensures
        match parsed_syntax(grammar.lang(), source@) {
            Some(ns) => r is Some && nodes_view(r.unwrap()@) == ns,
            None => r is None,
        },
{
    let mut parser = ts_parser_new();
    if !ts_set_language(&mut parser, grammar) {
        return None;
    }
    let p = match ts_parse(&mut parser, source) {
        Some(p) => p,
        None => return None,
    };
    let count = ts_node_count(&p);
    let ghost ns = syntax_of(p.lang@, p.source@).unwrap();
    let mut out: Vec<SyntaxNode> = Vec::new();
    let mut i: usize = 0;
    while i < count
        invariant
            syntax_of(p.lang@, p.source@) == Some(ns),
            count == ns.len(),
            i <= count,
            out@.len() == i,
            forall|j: int| 0 <= j < i ==> (#[trigger] out@[j])@ == ns[j],
        decreases count - i,
    {
        let n = ts_node_at(&p, i);
        out.push(n);
        i = i + 1;
    }
    assert(nodes_view(out@) =~= ns);
    Some(out)
}

/// Whether node `j` is a proper ancestor of node `i` in a preorder node
/// sequence: `j` comes first and every node after `j` up to `i` is deeper.
pub open spec fn is_ancestor(ns: Seq<NodeView>, j: int, i: int) -> bool {
    &&& 0 <= j < i < ns.len()
    &&& forall|k: int| j < k <= i ==> #[trigger] ns[k].depth > ns[j].depth
}

/// Whether node `j` is the parent of node `i`.
pub open spec fn is_parent(ns: Seq<NodeView>, j: int, i: int) -> bool {
    is_ancestor(ns, j, i) && ns[i].depth == ns[j].depth + 1
}

/// A preorder node sequence that describes a tree over a text of `len` bytes:
/// one root at depth 0, every later node at most one level deeper than the
/// node before it, and every span within the text.
pub open spec fn nodes_wf(ns: Seq<NodeView>, len: int) -> bool {
    &&& ns.len() > 0
    &&& ns[0].depth == 0
    &&& forall|i: int| 0 < i < ns.len() ==> 1 <= #[trigger] ns[i].depth <= ns[i - 1].depth + 1
    &&& forall|i: int| 0 <= i < ns.len() ==> 0 <= #[trigger] ns[i].start_byte <= ns[i].end_byte <= len
}

pub proof fn lemma_wf_node(ns: Seq<NodeView>, len: int, i: int)
    requires
        nodes_wf(ns, len),
        0 <= i < ns.len(),
    ensures
        0 <= ns[i].start_byte <= ns[i].end_byte <= len,
        i > 0 ==> 1 <= ns[i].depth <= ns[i - 1].depth + 1,
{
}

/// A syntax tree: its nodes in preorder and, for each node but the root, the
/// index of its parent.
pub struct SyntaxTree {
    pub nodes: Vec<SyntaxNode>,
    pub parent: Vec<usize>,
}

impl SyntaxTree {
    pub open spec fn ns(&self) -> Seq<NodeView> {
        nodes_view(self.nodes@)
    }

    /// The nodes describe a tree over `len` bytes and `parent` names each parent.
    pub open spec fn wf(&self, len: int) -> bool {
        &&& nodes_wf(self.ns(), len)
        &&& self.parent@.len() == self.nodes@.len()
        &&& forall|i: int| 0 < i < self.ns().len() ==> is_parent(self.ns(), #[trigger] self.parent@[i] as int, i)
    }
}

pub proof fn lemma_parent_unique(ns: Seq<NodeView>, a: int, b: int, i: int)
    requires
        is_parent(ns, a, i),
        is_parent(ns, b, i),
    ensures
        a == b,
{
    if a < b {
        assert(ns[b].depth > ns[a].depth);
    } else if b < a {
        assert(ns[a].depth > ns[b].depth);
    }
}

/// Every ancestor of `i` other than its parent `p` is an ancestor of `p`, and
/// every ancestor of `p` is an ancestor of `i`.
pub proof fn lemma_ancestor_step(ns: Seq<NodeView>, p: int, i: int, j: int)
    requires
        is_parent(ns, p, i),
    ensures
        is_ancestor(ns, j, i) <==> (j == p || is_ancestor(ns, j, p)),
{
    if is_ancestor(ns, j, i) && j != p {
        if j > p {
            assert(ns[j].depth > ns[p].depth);
            assert(ns[i].depth > ns[j].depth);
        }
    }
    if is_ancestor(ns, j, p) {
        assert forall|k: int| j < k <= i implies #[trigger] ns[k].depth > ns[j].depth by {
            if k > p {
                assert(ns[k].depth > ns[p].depth);
                assert(ns[p].depth > ns[j].depth);
            }
        }
    }
}

/// Checks that `nodes` describe a tree over `len` bytes and computes the parent
/// of each node; `None` when they do not.
pub fn build_tree(nodes: Vec<SyntaxNode>, len: usize) -> (r: Option<SyntaxTree>)
    ensures
        r matches Some(t) ==> t.wf(len as int) && t.nodes@ == nodes@,
        r is None ==> !nodes_wf(nodes_view(nodes@), len as int),
{
    let ghost ns = nodes_view(nodes@);
    let n = nodes.len();
    if n == 0 {
        return None;
    }
    assert(ns[0] == nodes@[0]@);
    if nodes[0].depth != 0 {
        assert(ns[0].depth != 0);
        return None;
    }
    if nodes[0].start_byte > nodes[0].end_byte || nodes[0].end_byte > len {
        assert(!(0 <= ns[0].start_byte <= ns[0].end_byte <= len));
        proof {
            if nodes_wf(ns, len as int) {
                lemma_wf_node(ns, len as int, 0);
            }
        }
        return None;
    }
    let mut parent: Vec<usize> = Vec::new();
    parent.push(0);
    let mut path: Vec<usize> = Vec::new();
    path.push(0);
    let mut i: usize = 1;
    while i < n
        invariant
            ns == nodes_view(nodes@),
            n == nodes@.len(),
            1 <= i <= n,
            ns[0].depth == 0,
            0 <= ns[0].start_byte <= ns[0].end_byte <= len,
            forall|k: int| 0 < k < i ==> 1 <= #[trigger] ns[k].depth <= ns[k - 1].depth + 1,
            forall|k: int| 0 <= k < i ==> 0 <= #[trigger] ns[k].start_byte <= ns[k].end_byte <= len,
            parent@.len() == i,
            forall|k: int| 0 < k < i ==> is_parent(ns, #[trigger] parent@[k] as int, k),
            path@.len() == ns[i - 1].depth + 1,
            forall|d: int| 0 <= d < path@.len() ==> ns[#[trigger] path@[d] as int].depth == d && (
            path@[d] == i - 1 || is_ancestor(ns, path@[d] as int, i - 1)),
        decreases n - i,
    {
        let d = nodes[i].depth;
        assert(ns[i as int] == nodes@[i as int]@);
        assert(ns[i - 1] == nodes@[i - 1]@);
        if d < 1 || d - 1 > nodes[i - 1].depth || nodes[i].start_byte > nodes[i].end_byte
            || nodes[i].end_byte > len {
            assert(!nodes_wf(ns, len as int)) by {
                assert(0 < i < ns.len());
                assert(!(1 <= ns[i as int].depth <= ns[i - 1].depth + 1) || !(0 <= ns[i as int].start_byte <= ns[i as int].end_byte <= len));
            }
            return None;
        }
        let p = path[d - 1];
        assert(is_parent(ns, p as int, i as int)) by {
            assert(ns[p as int].depth == d - 1);
            assert forall|k: int| p < k <= i implies #[trigger] ns[k].depth > ns[p as int].depth by {
                if k < i {
                    assert(path@[d - 1] == p);
                }
            }
        }
        parent.push(p);
        let ghost old_path = path@;
        path.truncate(d);
        path.push(i);
        assert(path@ =~= old_path.take(d as int).push(i));
        assert forall|dd: int| 0 <= dd < path@.len() implies ns[#[trigger] path@[dd] as int].depth == dd && (
            path@[dd] == i || is_ancestor(ns, path@[dd] as int, i as int)) by {
            if dd < d {
                assert(old_path[dd] == path@[dd]);
                let q = path@[dd] as int;
                assert forall|k: int| q < k <= i implies #[trigger] ns[k].depth > ns[q].depth by {
                    if k < i {
                        assert(old_path[dd] == q);
                    }
                }
            }
        }
        i = i + 1;
    }
    assert(nodes_wf(ns, len as int));
    Some(SyntaxTree { nodes, parent })
}

/// Whether a proper ancestor of node `i` is marked in `stop`.
pub open spec fn blocked(ns: Seq<NodeView>, stop: Seq<bool>, i: int) -> bool {
    exists|j: int| #[trigger] is_ancestor(ns, j, i) && stop[j]
}

/// For each node of `t`, whether one of its proper ancestors is marked in `stop`.
pub fn blocked_flags(t: &SyntaxTree, len: Ghost<int>, stop: &Vec<bool>) -> (r: Vec<bool>)
    requires
        t.wf(len@),
        stop@.len() == t.nodes@.len(),
    ensures
        r@.len() == t.nodes@.len(),
        forall|i: int| 0 <= i < r@.len() ==> #[trigger] r@[i] == blocked(t.ns(), stop@, i),
{
    let ghost ns = t.ns();
    let n = t.nodes.len();
    let mut r: Vec<bool> = Vec::new();
    r.push(false);
    assert(!blocked(ns, stop@, 0));
    let mut i: usize = 1;
    while i < n
        invariant
            t.wf(len@),
            ns == t.ns(),
            n == t.nodes@.len() == ns.len() == stop@.len(),
            1 <= i <= n,
            r@.len() == i,
            forall|k: int| 0 <= k < i ==> #[trigger] r@[k] == blocked(ns, stop@, k),
        decreases n - i,
    {
        let p = t.parent[i];
        assert(is_parent(ns, p as int, i as int));
        let b = stop[p] || r[p];
        proof {
            assert forall|j: int| #[trigger] is_ancestor(ns, j, i as int) <==> (j == p || is_ancestor(ns, j, p as int)) by {
                lemma_ancestor_step(ns, p as int, i as int, j);
            }
            if b {
                if stop@[p as int] {
                    assert(is_ancestor(ns, p as int, i as int) && stop@[p as int]);
                } else {
                    let j = choose|j: int| #[trigger] is_ancestor(ns, j, p as int) && stop@[j];
                    assert(is_ancestor(ns, j, i as int));
                }
            }
        }
        r.push(b);
        i = i + 1;
    }
    r
}

} // verus!
