//! The languages the warden reads, and what it knows of each: the comment
//! node kinds of its grammar, its doc-comment openers and its comment delimiters.
use vstd::prelude::*;

use crate::syntax::{
    grammar_bash, grammar_c, grammar_cpp, grammar_css, grammar_go, grammar_hcl, grammar_javascript,
    grammar_nix, grammar_python, grammar_rust, grammar_swift, grammar_toml, grammar_typescript,
    grammar_yaml, grammar_ruby, grammar_html, grammar_erb, grammar_scss, Grammar,
};
use crate::text::{chars_of, eq_lit, opt_chars, strs_view};

verus! {

#[derive(Debug, Clone, Copy, PartialEq, Eq, Hash, Structural)]
pub enum LangId {
    Rust,
    Swift,
    Nix,
    Bash,
    Hcl,
    Python,
    TypeScript,
    JavaScript,
    Go,
    C,
    Cpp,
    Yaml,
    Toml,
    Css,
    Ruby,
    Scss,
    Html,
    Erb,
}

/// The language a `comment-warden.toml` name selects.
pub open spec fn spec_from_config_name(name: Seq<char>) -> Option<LangId> {
    if name == "rust"@ {
        Some(LangId::Rust)
    } else if name == "swift"@ {
        Some(LangId::Swift)
    } else if name == "nix"@ {
        Some(LangId::Nix)
    } else if name == "bash"@ {
        Some(LangId::Bash)
    } else if name == "sh"@ {
        Some(LangId::Bash)
    } else if name == "shell"@ {
        Some(LangId::Bash)
    } else if name == "hcl"@ {
        Some(LangId::Hcl)
    } else if name == "terraform"@ {
        Some(LangId::Hcl)
    } else if name == "python"@ {
        Some(LangId::Python)
    } else if name == "typescript"@ {
        Some(LangId::TypeScript)
    } else if name == "ts"@ {
        Some(LangId::TypeScript)
    } else if name == "javascript"@ {
        Some(LangId::JavaScript)
    } else if name == "js"@ {
        Some(LangId::JavaScript)
    } else if name == "go"@ {
        Some(LangId::Go)
    } else if name == "c"@ {
        Some(LangId::C)
    } else if name == "cpp"@ {
        Some(LangId::Cpp)
    } else if name == "c++"@ {
        Some(LangId::Cpp)
    } else if name == "yaml"@ {
        Some(LangId::Yaml)
    } else if name == "yml"@ {
        Some(LangId::Yaml)
    } else if name == "toml"@ {
        Some(LangId::Toml)
    } else if name == "css"@ {
        Some(LangId::Css)
    } else if name == "ruby"@ {
        Some(LangId::Ruby)
    } else if name == "scss"@ {
        Some(LangId::Scss)
    } else if name == "html"@ {
        Some(LangId::Html)
    } else if name == "erb"@ {
        Some(LangId::Erb)
    } else {
        None
    }
}

/// The language a file extension selects.
pub open spec fn spec_from_extension(ext: Seq<char>) -> Option<LangId> {
    if ext == "rs"@ {
        Some(LangId::Rust)
    } else if ext == "swift"@ {
        Some(LangId::Swift)
    } else if ext == "nix"@ {
        Some(LangId::Nix)
    } else if ext == "sh"@ {
        Some(LangId::Bash)
    } else if ext == "bash"@ {
        Some(LangId::Bash)
    } else if ext == "tf"@ {
        Some(LangId::Hcl)
    } else if ext == "hcl"@ {
        Some(LangId::Hcl)
    } else if ext == "tfvars"@ {
        Some(LangId::Hcl)
    } else if ext == "py"@ {
        Some(LangId::Python)
    } else if ext == "pyi"@ {
        Some(LangId::Python)
    } else if ext == "ts"@ {
        Some(LangId::TypeScript)
    } else if ext == "tsx"@ {
        Some(LangId::TypeScript)
    } else if ext == "js"@ {
        Some(LangId::JavaScript)
    } else if ext == "jsx"@ {
        Some(LangId::JavaScript)
    } else if ext == "mjs"@ {
        Some(LangId::JavaScript)
    } else if ext == "cjs"@ {
        Some(LangId::JavaScript)
    } else if ext == "go"@ {
        Some(LangId::Go)
    } else if ext == "c"@ {
        Some(LangId::C)
    } else if ext == "h"@ {
        Some(LangId::C)
    } else if ext == "cpp"@ {
        Some(LangId::Cpp)
    } else if ext == "cc"@ {
        Some(LangId::Cpp)
    } else if ext == "cxx"@ {
        Some(LangId::Cpp)
    } else if ext == "hpp"@ {
        Some(LangId::Cpp)
    } else if ext == "hh"@ {
        Some(LangId::Cpp)
    } else if ext == "yaml"@ {
        Some(LangId::Yaml)
    } else if ext == "yml"@ {
        Some(LangId::Yaml)
    } else if ext == "toml"@ {
        Some(LangId::Toml)
    } else if ext == "css"@ {
        Some(LangId::Css)
    } else if ext == "rb"@ {
        Some(LangId::Ruby)
    } else if ext == "scss"@ {
        Some(LangId::Scss)
    } else if ext == "html"@ {
        Some(LangId::Html)
    } else if ext == "mjml"@ {
        Some(LangId::Html)
    } else if ext == "erb"@ {
        Some(LangId::Erb)
    } else {
        None
    }
}

impl LangId {
    /// The language a `comment-warden.toml` name selects, if any.
    pub fn from_config_name(name: &str) -> (r: Option<Self>)
        ensures
            r == spec_from_config_name(name@),
    {
        let v = chars_of(name);
            if eq_lit(&v, "rust") {
                Some(LangId::Rust)
            } else if eq_lit(&v, "swift") {
                Some(LangId::Swift)
            } else if eq_lit(&v, "nix") {
                Some(LangId::Nix)
            } else if eq_lit(&v, "bash") {
                Some(LangId::Bash)
            } else if eq_lit(&v, "sh") {
                Some(LangId::Bash)
            } else if eq_lit(&v, "shell") {
                Some(LangId::Bash)
            } else if eq_lit(&v, "hcl") {
                Some(LangId::Hcl)
            } else if eq_lit(&v, "terraform") {
                Some(LangId::Hcl)
            } else if eq_lit(&v, "python") {
                Some(LangId::Python)
            } else if eq_lit(&v, "typescript") {
                Some(LangId::TypeScript)
            } else if eq_lit(&v, "ts") {
                Some(LangId::TypeScript)
            } else if eq_lit(&v, "javascript") {
                Some(LangId::JavaScript)
            } else if eq_lit(&v, "js") {
                Some(LangId::JavaScript)
            } else if eq_lit(&v, "go") {
                Some(LangId::Go)
            } else if eq_lit(&v, "c") {
                Some(LangId::C)
            } else if eq_lit(&v, "cpp") {
                Some(LangId::Cpp)
            } else if eq_lit(&v, "c++") {
                Some(LangId::Cpp)
            } else if eq_lit(&v, "yaml") {
                Some(LangId::Yaml)
            } else if eq_lit(&v, "yml") {
                Some(LangId::Yaml)
            } else if eq_lit(&v, "toml") {
                Some(LangId::Toml)
            } else if eq_lit(&v, "css") {
                Some(LangId::Css)
            } else if eq_lit(&v, "ruby") {
                Some(LangId::Ruby)
            } else if eq_lit(&v, "scss") {
                Some(LangId::Scss)
            } else if eq_lit(&v, "html") {
                Some(LangId::Html)
            } else if eq_lit(&v, "erb") {
                Some(LangId::Erb)
            } else {
                None
            }

    }

    /// The language a file extension selects, if any.
    pub fn from_extension(ext: &str) -> (r: Option<Self>)
        ensures
            r == spec_from_extension(ext@),
    {
        let v = chars_of(ext);
            if eq_lit(&v, "rs") {
                Some(LangId::Rust)
            } else if eq_lit(&v, "swift") {
                Some(LangId::Swift)
            } else if eq_lit(&v, "nix") {
                Some(LangId::Nix)
            } else if eq_lit(&v, "sh") {
                Some(LangId::Bash)
            } else if eq_lit(&v, "bash") {
                Some(LangId::Bash)
            } else if eq_lit(&v, "tf") {
                Some(LangId::Hcl)
            } else if eq_lit(&v, "hcl") {
                Some(LangId::Hcl)
            } else if eq_lit(&v, "tfvars") {
                Some(LangId::Hcl)
            } else if eq_lit(&v, "py") {
                Some(LangId::Python)
            } else if eq_lit(&v, "pyi") {
                Some(LangId::Python)
            } else if eq_lit(&v, "ts") {
                Some(LangId::TypeScript)
            } else if eq_lit(&v, "tsx") {
                Some(LangId::TypeScript)
            } else if eq_lit(&v, "js") {
                Some(LangId::JavaScript)
            } else if eq_lit(&v, "jsx") {
                Some(LangId::JavaScript)
            } else if eq_lit(&v, "mjs") {
                Some(LangId::JavaScript)
            } else if eq_lit(&v, "cjs") {
                Some(LangId::JavaScript)
            } else if eq_lit(&v, "go") {
                Some(LangId::Go)
            } else if eq_lit(&v, "c") {
                Some(LangId::C)
            } else if eq_lit(&v, "h") {
                Some(LangId::C)
            } else if eq_lit(&v, "cpp") {
                Some(LangId::Cpp)
            } else if eq_lit(&v, "cc") {
                Some(LangId::Cpp)
            } else if eq_lit(&v, "cxx") {
                Some(LangId::Cpp)
            } else if eq_lit(&v, "hpp") {
                Some(LangId::Cpp)
            } else if eq_lit(&v, "hh") {
                Some(LangId::Cpp)
            } else if eq_lit(&v, "yaml") {
                Some(LangId::Yaml)
            } else if eq_lit(&v, "yml") {
                Some(LangId::Yaml)
            } else if eq_lit(&v, "toml") {
                Some(LangId::Toml)
            } else if eq_lit(&v, "css") {
                Some(LangId::Css)
            } else if eq_lit(&v, "rb") {
                Some(LangId::Ruby)
            } else if eq_lit(&v, "scss") {
                Some(LangId::Scss)
            } else if eq_lit(&v, "html") {
                Some(LangId::Html)
            } else if eq_lit(&v, "mjml") {
                Some(LangId::Html)
            } else if eq_lit(&v, "erb") {
                Some(LangId::Erb)
            } else {
                None
            }

    }
}

/// The openers that mark a doc comment, for line and for block comments.
#[derive(Debug, Clone, Copy)]
pub struct DocPrefixes {
    pub line: &'static [&'static str],
    pub block: &'static [&'static str],
}

/// What the warden knows of a language.
pub struct LangSpec {
    pub grammar: Grammar,
    pub comment_kinds: &'static [&'static str],
    pub doc_prefixes: DocPrefixes,
    pub line_prefixes: &'static [&'static str],
    pub block_open: Option<&'static str>,
    pub block_close: Option<&'static str>,
}

/// The registry row of a language, as sequences of characters.
#[verifier::ext_equal]
pub struct LangRow {
    pub comment_kinds: Seq<Seq<char>>,
    pub doc_line: Seq<Seq<char>>,
    pub doc_block: Seq<Seq<char>>,
    pub line_prefixes: Seq<Seq<char>>,
    pub block_open: Option<Seq<char>>,
    pub block_close: Option<Seq<char>>,
}

pub open spec fn spec_row(s: &LangSpec) -> LangRow {
    LangRow {
        comment_kinds: strs_view(s.comment_kinds@),
        doc_line: strs_view(s.doc_prefixes.line@),
        doc_block: strs_view(s.doc_prefixes.block@),
        line_prefixes: strs_view(s.line_prefixes@),
        block_open: opt_chars(s.block_open),
        block_close: opt_chars(s.block_close),
    }
}

/// The registry: each language's comment kinds, doc openers and delimiters.
pub open spec fn lang_row(id: LangId) -> LangRow {
    match id {
        LangId::Rust => LangRow {
            comment_kinds: seq!["line_comment"@, "block_comment"@],
            doc_line: seq!["///"@, "//!"@],
            doc_block: seq!["/**"@, "/*!"@],
            line_prefixes: seq!["//"@],
            block_open: Some("/*"@),
            block_close: Some("*/"@),
        },
        LangId::Swift => LangRow {
            comment_kinds: seq!["comment"@, "multiline_comment"@],
            doc_line: seq!["///"@, "//!"@],
            doc_block: seq!["/**"@, "/*!"@],
            line_prefixes: seq!["//"@],
            block_open: Some("/*"@),
            block_close: Some("*/"@),
        },
        LangId::Nix => LangRow {
            comment_kinds: seq!["comment"@],
            doc_line: seq![],
            doc_block: seq![],
            line_prefixes: seq!["#"@],
            block_open: Some("/*"@),
            block_close: Some("*/"@),
        },
        LangId::Bash => LangRow {
            comment_kinds: seq!["comment"@],
            doc_line: seq![],
            doc_block: seq![],
            line_prefixes: seq!["#"@],
            block_open: None,
            block_close: None,
        },
        LangId::Hcl => LangRow {
            comment_kinds: seq!["comment"@],
            doc_line: seq![],
            doc_block: seq![],
            line_prefixes: seq!["#"@, "//"@],
            block_open: Some("/*"@),
            block_close: Some("*/"@),
        },
        LangId::Python => LangRow {
            comment_kinds: seq!["comment"@],
            doc_line: seq![],
            doc_block: seq![],
            line_prefixes: seq!["#"@],
            block_open: None,
            block_close: None,
        },
        LangId::TypeScript => LangRow {
            comment_kinds: seq!["comment"@],
            doc_line: seq![],
            doc_block: seq!["/**"@],
            line_prefixes: seq!["//"@],
            block_open: Some("/*"@),
            block_close: Some("*/"@),
        },
        LangId::JavaScript => LangRow {
            comment_kinds: seq!["comment"@],
            doc_line: seq![],
            doc_block: seq!["/**"@],
            line_prefixes: seq!["//"@],
            block_open: Some("/*"@),
            block_close: Some("*/"@),
        },
        LangId::Go => LangRow {
            comment_kinds: seq!["comment"@],
            doc_line: seq![],
            doc_block: seq![],
            line_prefixes: seq!["//"@],
            block_open: Some("/*"@),
            block_close: Some("*/"@),
        },
        LangId::C => LangRow {
            comment_kinds: seq!["comment"@],
            doc_line: seq![],
            doc_block: seq!["/**"@],
            line_prefixes: seq!["//"@],
            block_open: Some("/*"@),
            block_close: Some("*/"@),
        },
        LangId::Cpp => LangRow {
            comment_kinds: seq!["comment"@],
            doc_line: seq!["///"@],
            doc_block: seq!["/**"@],
            line_prefixes: seq!["//"@],
            block_open: Some("/*"@),
            block_close: Some("*/"@),
        },
        LangId::Yaml => LangRow {
            comment_kinds: seq!["comment"@],
            doc_line: seq![],
            doc_block: seq![],
            line_prefixes: seq!["#"@],
            block_open: None,
            block_close: None,
        },
        LangId::Toml => LangRow {
            comment_kinds: seq!["comment"@],
            doc_line: seq![],
            doc_block: seq![],
            line_prefixes: seq!["#"@],
            block_open: None,
            block_close: None,
        },
        LangId::Css => LangRow {
            comment_kinds: seq!["comment"@],
            doc_line: seq![],
            doc_block: seq![],
            line_prefixes: seq![],
            block_open: Some("/*"@),
            block_close: Some("*/"@),
        },
        LangId::Ruby => LangRow {
            comment_kinds: seq!["comment"@],
            doc_line: seq![],
            doc_block: seq![],
            line_prefixes: seq!["#"@],
            block_open: Some("=begin"@),
            block_close: Some("=end"@),
        },
        LangId::Scss => LangRow {
            comment_kinds: seq!["comment"@, "js_comment"@],
            doc_line: seq![],
            doc_block: seq![],
            line_prefixes: seq!["//"@],
            block_open: Some("/*"@),
            block_close: Some("*/"@),
        },
        LangId::Html => LangRow {
            comment_kinds: seq!["comment"@],
            doc_line: seq![],
            doc_block: seq![],
            line_prefixes: seq![],
            block_open: Some("<!--"@),
            block_close: Some("-->"@),
        },
        LangId::Erb => LangRow {
            comment_kinds: seq!["comment_directive"@],
            doc_line: seq![],
            doc_block: seq![],
            line_prefixes: seq!["#"@],
            block_open: Some("<%#"@),
            block_close: Some("%>"@),
        },
    }
}

/// The registry entry of a language, with its tree-sitter grammar.
pub fn spec_for(id: LangId) -> (r: LangSpec)
    ensures
        r.grammar.lang() == id,
        spec_row(&r) == lang_row(id),
{
    let r = match id {
        LangId::Rust => LangSpec {
            grammar: grammar_rust(),
            comment_kinds: &["line_comment", "block_comment"],
            doc_prefixes: DocPrefixes { line: &["///", "//!"], block: &["/**", "/*!"] },
            line_prefixes: &["//"],
            block_open: Some("/*"),
            block_close: Some("*/"),
        },
        LangId::Swift => LangSpec {
            grammar: grammar_swift(),
            comment_kinds: &["comment", "multiline_comment"],
            doc_prefixes: DocPrefixes { line: &["///", "//!"], block: &["/**", "/*!"] },
            line_prefixes: &["//"],
            block_open: Some("/*"),
            block_close: Some("*/"),
        },
        LangId::Nix => LangSpec {
            grammar: grammar_nix(),
            comment_kinds: &["comment"],
            doc_prefixes: DocPrefixes { line: &[], block: &[] },
            line_prefixes: &["#"],
            block_open: Some("/*"),
            block_close: Some("*/"),
        },
        LangId::Bash => LangSpec {
            grammar: grammar_bash(),
            comment_kinds: &["comment"],
            doc_prefixes: DocPrefixes { line: &[], block: &[] },
            line_prefixes: &["#"],
            block_open: None,
            block_close: None,
        },
        LangId::Hcl => LangSpec {
            grammar: grammar_hcl(),
            comment_kinds: &["comment"],
            doc_prefixes: DocPrefixes { line: &[], block: &[] },
            line_prefixes: &["#", "//"],
            block_open: Some("/*"),
            block_close: Some("*/"),
        },
        LangId::Python => LangSpec {
            grammar: grammar_python(),
            comment_kinds: &["comment"],
            doc_prefixes: DocPrefixes { line: &[], block: &[] },
            line_prefixes: &["#"],
            block_open: None,
            block_close: None,
        },
        LangId::TypeScript => LangSpec {
            grammar: grammar_typescript(),
            comment_kinds: &["comment"],
            doc_prefixes: DocPrefixes { line: &[], block: &["/**"] },
            line_prefixes: &["//"],
            block_open: Some("/*"),
            block_close: Some("*/"),
        },
        LangId::JavaScript => LangSpec {
            grammar: grammar_javascript(),
            comment_kinds: &["comment"],
            doc_prefixes: DocPrefixes { line: &[], block: &["/**"] },
            line_prefixes: &["//"],
            block_open: Some("/*"),
            block_close: Some("*/"),
        },
        LangId::Go => LangSpec {
            grammar: grammar_go(),
            comment_kinds: &["comment"],
            doc_prefixes: DocPrefixes { line: &[], block: &[] },
            line_prefixes: &["//"],
            block_open: Some("/*"),
            block_close: Some("*/"),
        },
        LangId::C => LangSpec {
            grammar: grammar_c(),
            comment_kinds: &["comment"],
            doc_prefixes: DocPrefixes { line: &[], block: &["/**"] },
            line_prefixes: &["//"],
            block_open: Some("/*"),
            block_close: Some("*/"),
        },
        LangId::Cpp => LangSpec {
            grammar: grammar_cpp(),
            comment_kinds: &["comment"],
            doc_prefixes: DocPrefixes { line: &["///"], block: &["/**"] },
            line_prefixes: &["//"],
            block_open: Some("/*"),
            block_close: Some("*/"),
        },
        LangId::Yaml => LangSpec {
            grammar: grammar_yaml(),
            comment_kinds: &["comment"],
            doc_prefixes: DocPrefixes { line: &[], block: &[] },
            line_prefixes: &["#"],
            block_open: None,
            block_close: None,
        },
        LangId::Toml => LangSpec {
            grammar: grammar_toml(),
            comment_kinds: &["comment"],
            doc_prefixes: DocPrefixes { line: &[], block: &[] },
            line_prefixes: &["#"],
            block_open: None,
            block_close: None,
        },
        LangId::Css => LangSpec {
            grammar: grammar_css(),
            comment_kinds: &["comment"],
            doc_prefixes: DocPrefixes { line: &[], block: &[] },
            line_prefixes: &[],
            block_open: Some("/*"),
            block_close: Some("*/"),
        },
        LangId::Ruby => LangSpec {
            grammar: grammar_ruby(),
            comment_kinds: &["comment"],
            doc_prefixes: DocPrefixes { line: &[], block: &[] },
            line_prefixes: &["#"],
            block_open: Some("=begin"),
            block_close: Some("=end"),
        },
        LangId::Scss => LangSpec {
            grammar: grammar_scss(),
            comment_kinds: &["comment", "js_comment"],
            doc_prefixes: DocPrefixes { line: &[], block: &[] },
            line_prefixes: &["//"],
            block_open: Some("/*"),
            block_close: Some("*/"),
        },
        LangId::Html => LangSpec {
            grammar: grammar_html(),
            comment_kinds: &["comment"],
            doc_prefixes: DocPrefixes { line: &[], block: &[] },
            line_prefixes: &[],
            block_open: Some("<!--"),
            block_close: Some("-->"),
        },
        LangId::Erb => LangSpec {
            grammar: grammar_erb(),
            comment_kinds: &["comment_directive"],
            doc_prefixes: DocPrefixes { line: &[], block: &[] },
            line_prefixes: &["#"],
            block_open: Some("<%#"),
            block_close: Some("%>"),
        },
    };
    assert(spec_row(&r) =~= lang_row(id));
    r
}

} // verus!
