//! What the warden's fixed vocabularies say, stated with their literal words:
//! the first words that make a comment a tool's directive, the file extensions
//! and settings names that select each language, the macro node kinds under
//! which a comment belongs to a macro, the nix attributes and functions whose
//! strings are scripts, and the marker that declares a file generated.
use vstd::prelude::*;

use crate::comment::{first_word, spec_is_directive, word_end};
use crate::comment::spec_comment_body;
use crate::generated::{candidates_upto, gen_candidate, insert_index, node_first_line, owns_line};
use crate::parse::spec_parse;
use crate::syntax::parsed_syntax;
use crate::lang::lang_row;
use crate::text::{first_line, node_text};
use crate::comment::{spec_is_tagged, tagged_by, CommentView, Exemption, Verdict};
use crate::config::{default_tags_view, ConfigView};
use crate::generated::{generated_doc_prefixes, marks_generated};
use crate::parse::{code_spans, is_token_node, leaf_stop};
use crate::gather::is_collected;
use crate::scan::{ignored_dir_names, path_components, path_file_name, path_file_stem, spec_is_test_target, test_dir_names};
use crate::strip::{effective_row, spec_is_module_doc, spec_verdict};
use crate::nix::{feeds_python, first_child, interpreter, python_interpreters, statement_scan, apply_name, binding_name, is_script_string, names_script, nix_script_attrs, nix_script_fns, script_scan};
use crate::gather::{comment_of, macro_mark, macro_marks};
use crate::syntax::{blocked, is_ancestor, NodeView};
use crate::lang::{LangRow, spec_from_config_name, spec_from_extension, LangId};
use crate::text::{all_ws, is_ws, trim_start, trim_start_with, CharClass};

verus! {

/// Every character of `w` is one that a whitespace split keeps.
pub open spec fn all_visible(w: Seq<char>) -> bool {
    forall|i: int| 0 <= i < w.len() ==> !is_ws(#[trigger] w[i])
}

/// `rest` ends the word before it: it is empty or opens with whitespace.
pub open spec fn ends_word(rest: Seq<char>) -> bool {
    rest.len() == 0 || is_ws(rest[0])
}

/// Every character of `lead` is whitespace.
pub open spec fn blank(lead: Seq<char>) -> bool {
    forall|i: int| 0 <= i < lead.len() ==> is_ws(#[trigger] lead[i])
}

proof fn lemma_trim_blank_lead(lead: Seq<char>, t: Seq<char>)
    requires
        blank(lead),
        t.len() == 0 || !is_ws(t[0]),
    ensures
        trim_start(lead + t) == t,
    decreases lead.len(),
{
    if lead.len() == 0 {
        assert(lead + t =~= t);
        if t.len() > 0 {
            assert(!crate::text::in_class(t[0], CharClass::Space));
        }
    } else {
        assert((lead + t).drop_first() =~= lead.drop_first() + t);
        assert(crate::text::in_class((lead + t)[0], CharClass::Space));
        assert forall|i: int| 0 <= i < lead.drop_first().len() implies is_ws(#[trigger] lead.drop_first()[i]) by {
            assert(lead.drop_first()[i] == lead[i + 1]);
        }
        lemma_trim_blank_lead(lead.drop_first(), t);
    }
}

proof fn lemma_word_end(w: Seq<char>, rest: Seq<char>, i: int)
    requires
        all_visible(w),
        ends_word(rest),
        0 <= i <= w.len(),
    ensures
        word_end(w + rest, i) == w.len(),
    decreases w.len() - i,
{
    if i < w.len() {
        assert((w + rest)[i] == w[i]);
        lemma_word_end(w, rest, i + 1);
    } else if rest.len() > 0 {
        assert((w + rest)[i] == rest[0]);
    }
}

/// The first whitespace-separated word of `lead + w + rest` is `w`, when
/// `lead` is blank, `w` a non-empty word and `rest` ends it.
pub proof fn lemma_first_word_is(lead: Seq<char>, w: Seq<char>, rest: Seq<char>)
    requires
        blank(lead),
        w.len() > 0,
        all_visible(w),
        ends_word(rest),
    ensures
        first_word(lead + w + rest) == w,
{
    assert(lead + w + rest =~= lead + (w + rest));
    assert((w + rest)[0] == w[0]);
    lemma_trim_blank_lead(lead, w + rest);
    lemma_word_end(w, rest, 0);
    assert((w + rest).take(w.len() as int) =~= w);
}

/// A directive is known by its first word: a comment body whose first
/// whitespace-separated word is one of the linters' and formatters' directive
/// words (`shellcheck`, `swiftlint:disable`, `swiftlint:enable`,
/// `eslint-disable`, `eslint-enable`, `eslint-disable-line`,
/// `eslint-disable-next-line`, `eslint`, `prettier-ignore`, `@ts-ignore`,
/// `@ts-expect-error`, `@ts-nocheck`, `rubocop:disable`, `rubocop:enable`,
/// `stylelint-disable`, `stylelint-enable`, `stylelint-disable-line`,
/// `stylelint-disable-next-line`) is a directive, whatever follows the word.
pub proof fn law_directive_words_make_directives(lead: Seq<char>, rest: Seq<char>)
    requires
        blank(lead),
        ends_word(rest),
    ensures
        spec_is_directive(lead + "shellcheck"@ + rest),
        spec_is_directive(lead + "swiftlint:disable"@ + rest),
        spec_is_directive(lead + "swiftlint:enable"@ + rest),
        spec_is_directive(lead + "eslint-disable"@ + rest),
        spec_is_directive(lead + "eslint-enable"@ + rest),
        spec_is_directive(lead + "eslint-disable-line"@ + rest),
        spec_is_directive(lead + "eslint-disable-next-line"@ + rest),
        spec_is_directive(lead + "eslint"@ + rest),
        spec_is_directive(lead + "prettier-ignore"@ + rest),
        spec_is_directive(lead + "@ts-ignore"@ + rest),
        spec_is_directive(lead + "@ts-expect-error"@ + rest),
        spec_is_directive(lead + "@ts-nocheck"@ + rest),
        spec_is_directive(lead + "rubocop:disable"@ + rest),
        spec_is_directive(lead + "rubocop:enable"@ + rest),
        spec_is_directive(lead + "stylelint-disable"@ + rest),
        spec_is_directive(lead + "stylelint-enable"@ + rest),
        spec_is_directive(lead + "stylelint-disable-line"@ + rest),
        spec_is_directive(lead + "stylelint-disable-next-line"@ + rest),
{
    reveal_strlit("shellcheck");
    reveal_strlit("swiftlint:disable");
    reveal_strlit("swiftlint:enable");
    reveal_strlit("eslint-disable");
    reveal_strlit("eslint-enable");
    reveal_strlit("eslint-disable-line");
    reveal_strlit("eslint-disable-next-line");
    reveal_strlit("eslint");
    reveal_strlit("prettier-ignore");
    reveal_strlit("@ts-ignore");
    reveal_strlit("@ts-expect-error");
    reveal_strlit("@ts-nocheck");
    reveal_strlit("rubocop:disable");
    reveal_strlit("rubocop:enable");
    reveal_strlit("stylelint-disable");
    reveal_strlit("stylelint-enable");
    reveal_strlit("stylelint-disable-line");
    reveal_strlit("stylelint-disable-next-line");
    lemma_word_is_directive(lead, rest, "shellcheck"@, 0);
    lemma_word_is_directive(lead, rest, "swiftlint:disable"@, 1);
    lemma_word_is_directive(lead, rest, "swiftlint:enable"@, 2);
    lemma_word_is_directive(lead, rest, "eslint-disable"@, 3);
    lemma_word_is_directive(lead, rest, "eslint-enable"@, 4);
    lemma_word_is_directive(lead, rest, "eslint-disable-line"@, 5);
    lemma_word_is_directive(lead, rest, "eslint-disable-next-line"@, 6);
    lemma_word_is_directive(lead, rest, "eslint"@, 7);
    lemma_word_is_directive(lead, rest, "prettier-ignore"@, 8);
    lemma_word_is_directive(lead, rest, "@ts-ignore"@, 9);
    lemma_word_is_directive(lead, rest, "@ts-expect-error"@, 10);
    lemma_word_is_directive(lead, rest, "@ts-nocheck"@, 11);
    lemma_word_is_directive(lead, rest, "rubocop:disable"@, 12);
    lemma_word_is_directive(lead, rest, "rubocop:enable"@, 13);
    lemma_word_is_directive(lead, rest, "stylelint-disable"@, 14);
    lemma_word_is_directive(lead, rest, "stylelint-enable"@, 15);
    lemma_word_is_directive(lead, rest, "stylelint-disable-line"@, 16);
    lemma_word_is_directive(lead, rest, "stylelint-disable-next-line"@, 17);
}

proof fn lemma_word_is_directive(lead: Seq<char>, rest: Seq<char>, w: Seq<char>, k: int)
    requires
        blank(lead),
        ends_word(rest),
        0 <= k < crate::comment::directive_words().len(),
        crate::comment::directive_words()[k] == w,
        w.len() > 0,
        all_visible(w),
    ensures
        spec_is_directive(lead + w + rest),
{
    lemma_first_word_is(lead, w, rest);
}

proof fn lemma_prefix_of_concat(p: Seq<char>, rest: Seq<char>)
    ensures
        p.is_prefix_of(p + rest),
{
    assert((p + rest).subrange(0, p.len() as int) =~= p);
}

/// Markers read at the opening of a comment body are directives whatever
/// follows them: `frozen_string_literal:` (Ruby), `swift-tools-version:`
/// (Swift packages), `clippy::` (Rust lints), and the webpack magic-comment
/// keys (`webpackChunkName:`, `webpackPrefetch:`, `webpackPreload:`,
/// `webpackIgnore:`, `webpackMode:`, `webpackExports:`, `webpackInclude:`,
/// `webpackExclude:`); so is a body whose first word is `clippy`, and an
/// Emacs `-*-` line that names a `coding:`.
pub proof fn law_directive_markers_make_directives(lead: Seq<char>, rest: Seq<char>, mid: Seq<char>)
    requires
        blank(lead),
        ends_word(rest),
    ensures
        spec_is_directive("frozen_string_literal:"@ + rest),
        spec_is_directive("swift-tools-version:"@ + rest),
        spec_is_directive("clippy::"@ + rest),
        spec_is_directive("webpackChunkName:"@ + rest),
        spec_is_directive("webpackPrefetch:"@ + rest),
        spec_is_directive("webpackPreload:"@ + rest),
        spec_is_directive("webpackIgnore:"@ + rest),
        spec_is_directive("webpackMode:"@ + rest),
        spec_is_directive("webpackExports:"@ + rest),
        spec_is_directive("webpackInclude:"@ + rest),
        spec_is_directive("webpackExclude:"@ + rest),
        spec_is_directive(lead + "clippy"@ + rest),
        spec_is_directive("-*-"@ + mid + "coding:"@ + rest),
{
    reveal_strlit("webpackChunkName:");
    reveal_strlit("webpackPrefetch:");
    reveal_strlit("webpackPreload:");
    reveal_strlit("webpackIgnore:");
    reveal_strlit("webpackMode:");
    reveal_strlit("webpackExports:");
    reveal_strlit("webpackInclude:");
    reveal_strlit("webpackExclude:");
    reveal_strlit("frozen_string_literal:");
    reveal_strlit("swift-tools-version:");
    reveal_strlit("clippy::");
    reveal_strlit("clippy");
    reveal_strlit("-*-");
    reveal_strlit("coding:");
    lemma_prefix_of_concat("frozen_string_literal:"@, rest);
    lemma_prefix_of_concat("swift-tools-version:"@, rest);
    lemma_prefix_of_concat("clippy::"@, rest);
    lemma_prefix_of_concat("webpackChunkName:"@, rest);
    assert(crate::comment::webpack_magic_keys()[0] == "webpackChunkName:"@);
    lemma_prefix_of_concat("webpackPrefetch:"@, rest);
    assert(crate::comment::webpack_magic_keys()[1] == "webpackPrefetch:"@);
    lemma_prefix_of_concat("webpackPreload:"@, rest);
    assert(crate::comment::webpack_magic_keys()[2] == "webpackPreload:"@);
    lemma_prefix_of_concat("webpackIgnore:"@, rest);
    assert(crate::comment::webpack_magic_keys()[3] == "webpackIgnore:"@);
    lemma_prefix_of_concat("webpackMode:"@, rest);
    assert(crate::comment::webpack_magic_keys()[4] == "webpackMode:"@);
    lemma_prefix_of_concat("webpackExports:"@, rest);
    assert(crate::comment::webpack_magic_keys()[5] == "webpackExports:"@);
    lemma_prefix_of_concat("webpackInclude:"@, rest);
    assert(crate::comment::webpack_magic_keys()[6] == "webpackInclude:"@);
    lemma_prefix_of_concat("webpackExclude:"@, rest);
    assert(crate::comment::webpack_magic_keys()[7] == "webpackExclude:"@);
    lemma_first_word_is(lead, "clippy"@, rest);
    let t = "-*-"@ + mid + "coding:"@ + rest;
    assert(t =~= "-*-"@ + (mid + "coding:"@ + rest));
    lemma_prefix_of_concat("-*-"@, mid + "coding:"@ + rest);
    let at: int = 3 + mid.len() as int;
    assert(t.subrange(at, at + 7) =~= "coding:"@);
}

/// Each file extension selects its language: `rs` Rust; `swift` Swift; `nix`
/// Nix; `sh` and `bash` Bash; `tf`, `hcl` and `tfvars` HCL; `py` and `pyi`
/// Python; `ts` and `tsx` TypeScript; `js`, `jsx`, `mjs` and `cjs`
/// JavaScript; `go` Go; `c` and `h` C; `cpp`, `cc`, `cxx`, `hpp` and `hh` C++;
/// `yaml` and `yml` YAML; `toml` TOML; `css` CSS; `rb` Ruby; `scss` SCSS;
/// `html` and `mjml` HTML; `erb` ERB.
#[verifier::spinoff_prover]
#[verifier::rlimit(100)]
pub proof fn law_extensions_select_their_languages()
    ensures
        spec_from_extension("rs"@) == Some(LangId::Rust),
        spec_from_extension("swift"@) == Some(LangId::Swift),
        spec_from_extension("nix"@) == Some(LangId::Nix),
        spec_from_extension("sh"@) == Some(LangId::Bash),
        spec_from_extension("bash"@) == Some(LangId::Bash),
        spec_from_extension("tf"@) == Some(LangId::Hcl),
        spec_from_extension("hcl"@) == Some(LangId::Hcl),
        spec_from_extension("tfvars"@) == Some(LangId::Hcl),
        spec_from_extension("py"@) == Some(LangId::Python),
        spec_from_extension("pyi"@) == Some(LangId::Python),
        spec_from_extension("ts"@) == Some(LangId::TypeScript),
        spec_from_extension("tsx"@) == Some(LangId::TypeScript),
        spec_from_extension("js"@) == Some(LangId::JavaScript),
        spec_from_extension("jsx"@) == Some(LangId::JavaScript),
        spec_from_extension("mjs"@) == Some(LangId::JavaScript),
        spec_from_extension("cjs"@) == Some(LangId::JavaScript),
        spec_from_extension("go"@) == Some(LangId::Go),
        spec_from_extension("c"@) == Some(LangId::C),
        spec_from_extension("h"@) == Some(LangId::C),
        spec_from_extension("cpp"@) == Some(LangId::Cpp),
        spec_from_extension("cc"@) == Some(LangId::Cpp),
        spec_from_extension("cxx"@) == Some(LangId::Cpp),
        spec_from_extension("hpp"@) == Some(LangId::Cpp),
        spec_from_extension("hh"@) == Some(LangId::Cpp),
        spec_from_extension("yaml"@) == Some(LangId::Yaml),
        spec_from_extension("yml"@) == Some(LangId::Yaml),
        spec_from_extension("toml"@) == Some(LangId::Toml),
        spec_from_extension("css"@) == Some(LangId::Css),
        spec_from_extension("rb"@) == Some(LangId::Ruby),
        spec_from_extension("scss"@) == Some(LangId::Scss),
        spec_from_extension("html"@) == Some(LangId::Html),
        spec_from_extension("mjml"@) == Some(LangId::Html),
        spec_from_extension("erb"@) == Some(LangId::Erb),
{
    reveal_strlit("rs");
    assert("rs"@.len() == 2);
    reveal_strlit("swift");
    assert("swift"@.len() == 5);
    reveal_strlit("nix");
    assert("nix"@.len() == 3);
    reveal_strlit("sh");
    assert("sh"@.len() == 2);
    reveal_strlit("bash");
    assert("bash"@.len() == 4);
    reveal_strlit("tf");
    assert("tf"@.len() == 2);
    reveal_strlit("hcl");
    assert("hcl"@.len() == 3);
    reveal_strlit("tfvars");
    assert("tfvars"@.len() == 6);
    reveal_strlit("py");
    assert("py"@.len() == 2);
    reveal_strlit("pyi");
    assert("pyi"@.len() == 3);
    reveal_strlit("ts");
    assert("ts"@.len() == 2);
    reveal_strlit("tsx");
    assert("tsx"@.len() == 3);
    reveal_strlit("js");
    assert("js"@.len() == 2);
    reveal_strlit("jsx");
    assert("jsx"@.len() == 3);
    reveal_strlit("mjs");
    assert("mjs"@.len() == 3);
    reveal_strlit("cjs");
    assert("cjs"@.len() == 3);
    reveal_strlit("go");
    assert("go"@.len() == 2);
    reveal_strlit("c");
    assert("c"@.len() == 1);
    reveal_strlit("h");
    assert("h"@.len() == 1);
    reveal_strlit("cpp");
    assert("cpp"@.len() == 3);
    reveal_strlit("cc");
    assert("cc"@.len() == 2);
    reveal_strlit("cxx");
    assert("cxx"@.len() == 3);
    reveal_strlit("hpp");
    assert("hpp"@.len() == 3);
    reveal_strlit("hh");
    assert("hh"@.len() == 2);
    reveal_strlit("yaml");
    assert("yaml"@.len() == 4);
    reveal_strlit("yml");
    assert("yml"@.len() == 3);
    reveal_strlit("toml");
    assert("toml"@.len() == 4);
    reveal_strlit("css");
    assert("css"@.len() == 3);
    reveal_strlit("rb");
    assert("rb"@.len() == 2);
    reveal_strlit("scss");
    assert("scss"@.len() == 4);
    reveal_strlit("html");
    assert("html"@.len() == 4);
    reveal_strlit("mjml");
    assert("mjml"@.len() == 4);
    reveal_strlit("erb");
    assert("erb"@.len() == 3);
    assert("sh"@[0] != "rs"@[0]);
    assert("tf"@[0] != "rs"@[0]);
    assert("tf"@[0] != "sh"@[0]);
    assert("hcl"@[0] != "nix"@[0]);
    assert("py"@[0] != "rs"@[0]);
    assert("py"@[0] != "sh"@[0]);
    assert("py"@[0] != "tf"@[0]);
    assert("pyi"@[0] != "nix"@[0]);
    assert("pyi"@[0] != "hcl"@[0]);
    assert("ts"@[0] != "rs"@[0]);
    assert("ts"@[0] != "sh"@[0]);
    assert("ts"@[1] != "tf"@[1]);
    assert("ts"@[0] != "py"@[0]);
    assert("tsx"@[0] != "nix"@[0]);
    assert("tsx"@[0] != "hcl"@[0]);
    assert("tsx"@[0] != "pyi"@[0]);
    assert("js"@[0] != "rs"@[0]);
    assert("js"@[0] != "sh"@[0]);
    assert("js"@[0] != "tf"@[0]);
    assert("js"@[0] != "py"@[0]);
    assert("js"@[0] != "ts"@[0]);
    assert("jsx"@[0] != "nix"@[0]);
    assert("jsx"@[0] != "hcl"@[0]);
    assert("jsx"@[0] != "pyi"@[0]);
    assert("jsx"@[0] != "tsx"@[0]);
    assert("mjs"@[0] != "nix"@[0]);
    assert("mjs"@[0] != "hcl"@[0]);
    assert("mjs"@[0] != "pyi"@[0]);
    assert("mjs"@[0] != "tsx"@[0]);
    assert("mjs"@[0] != "jsx"@[0]);
    assert("cjs"@[0] != "nix"@[0]);
    assert("cjs"@[0] != "hcl"@[0]);
    assert("cjs"@[0] != "pyi"@[0]);
    assert("cjs"@[0] != "tsx"@[0]);
    assert("cjs"@[0] != "jsx"@[0]);
    assert("cjs"@[0] != "mjs"@[0]);
    assert("go"@[0] != "rs"@[0]);
    assert("go"@[0] != "sh"@[0]);
    assert("go"@[0] != "tf"@[0]);
    assert("go"@[0] != "py"@[0]);
    assert("go"@[0] != "ts"@[0]);
    assert("go"@[0] != "js"@[0]);
    assert("h"@[0] != "c"@[0]);
    assert("cpp"@[0] != "nix"@[0]);
    assert("cpp"@[0] != "hcl"@[0]);
    assert("cpp"@[0] != "pyi"@[0]);
    assert("cpp"@[0] != "tsx"@[0]);
    assert("cpp"@[0] != "jsx"@[0]);
    assert("cpp"@[0] != "mjs"@[0]);
    assert("cpp"@[1] != "cjs"@[1]);
    assert("cc"@[0] != "rs"@[0]);
    assert("cc"@[0] != "sh"@[0]);
    assert("cc"@[0] != "tf"@[0]);
    assert("cc"@[0] != "py"@[0]);
    assert("cc"@[0] != "ts"@[0]);
    assert("cc"@[0] != "js"@[0]);
    assert("cc"@[0] != "go"@[0]);
    assert("cxx"@[0] != "nix"@[0]);
    assert("cxx"@[0] != "hcl"@[0]);
    assert("cxx"@[0] != "pyi"@[0]);
    assert("cxx"@[0] != "tsx"@[0]);
    assert("cxx"@[0] != "jsx"@[0]);
    assert("cxx"@[0] != "mjs"@[0]);
    assert("cxx"@[1] != "cjs"@[1]);
    assert("cxx"@[1] != "cpp"@[1]);
    assert("hpp"@[0] != "nix"@[0]);
    assert("hpp"@[1] != "hcl"@[1]);
    assert("hpp"@[0] != "pyi"@[0]);
    assert("hpp"@[0] != "tsx"@[0]);
    assert("hpp"@[0] != "jsx"@[0]);
    assert("hpp"@[0] != "mjs"@[0]);
    assert("hpp"@[0] != "cjs"@[0]);
    assert("hpp"@[0] != "cpp"@[0]);
    assert("hpp"@[0] != "cxx"@[0]);
    assert("hh"@[0] != "rs"@[0]);
    assert("hh"@[0] != "sh"@[0]);
    assert("hh"@[0] != "tf"@[0]);
    assert("hh"@[0] != "py"@[0]);
    assert("hh"@[0] != "ts"@[0]);
    assert("hh"@[0] != "js"@[0]);
    assert("hh"@[0] != "go"@[0]);
    assert("hh"@[0] != "cc"@[0]);
    assert("yaml"@[0] != "bash"@[0]);
    assert("yml"@[0] != "nix"@[0]);
    assert("yml"@[0] != "hcl"@[0]);
    assert("yml"@[0] != "pyi"@[0]);
    assert("yml"@[0] != "tsx"@[0]);
    assert("yml"@[0] != "jsx"@[0]);
    assert("yml"@[0] != "mjs"@[0]);
    assert("yml"@[0] != "cjs"@[0]);
    assert("yml"@[0] != "cpp"@[0]);
    assert("yml"@[0] != "cxx"@[0]);
    assert("yml"@[0] != "hpp"@[0]);
    assert("toml"@[0] != "bash"@[0]);
    assert("toml"@[0] != "yaml"@[0]);
    assert("css"@[0] != "nix"@[0]);
    assert("css"@[0] != "hcl"@[0]);
    assert("css"@[0] != "pyi"@[0]);
    assert("css"@[0] != "tsx"@[0]);
    assert("css"@[0] != "jsx"@[0]);
    assert("css"@[0] != "mjs"@[0]);
    assert("css"@[1] != "cjs"@[1]);
    assert("css"@[1] != "cpp"@[1]);
    assert("css"@[1] != "cxx"@[1]);
    assert("css"@[0] != "hpp"@[0]);
    assert("css"@[0] != "yml"@[0]);
    assert("rb"@[1] != "rs"@[1]);
    assert("rb"@[0] != "sh"@[0]);
    assert("rb"@[0] != "tf"@[0]);
    assert("rb"@[0] != "py"@[0]);
    assert("rb"@[0] != "ts"@[0]);
    assert("rb"@[0] != "js"@[0]);
    assert("rb"@[0] != "go"@[0]);
    assert("rb"@[0] != "cc"@[0]);
    assert("rb"@[0] != "hh"@[0]);
    assert("scss"@[0] != "bash"@[0]);
    assert("scss"@[0] != "yaml"@[0]);
    assert("scss"@[0] != "toml"@[0]);
    assert("html"@[0] != "bash"@[0]);
    assert("html"@[0] != "yaml"@[0]);
    assert("html"@[0] != "toml"@[0]);
    assert("html"@[0] != "scss"@[0]);
    assert("mjml"@[0] != "bash"@[0]);
    assert("mjml"@[0] != "yaml"@[0]);
    assert("mjml"@[0] != "toml"@[0]);
    assert("mjml"@[0] != "scss"@[0]);
    assert("mjml"@[0] != "html"@[0]);
    assert("erb"@[0] != "nix"@[0]);
    assert("erb"@[0] != "hcl"@[0]);
    assert("erb"@[0] != "pyi"@[0]);
    assert("erb"@[0] != "tsx"@[0]);
    assert("erb"@[0] != "jsx"@[0]);
    assert("erb"@[0] != "mjs"@[0]);
    assert("erb"@[0] != "cjs"@[0]);
    assert("erb"@[0] != "cpp"@[0]);
    assert("erb"@[0] != "cxx"@[0]);
    assert("erb"@[0] != "hpp"@[0]);
    assert("erb"@[0] != "yml"@[0]);
    assert("erb"@[0] != "css"@[0]);
}

/// Each settings-file language name selects its language: `rust`; `swift`;
/// `nix`; `bash`, `sh` and `shell`; `hcl` and `terraform`; `python`;
/// `typescript` and `ts`; `javascript` and `js`; `go`; `c`; `cpp` and `c++`;
/// `yaml` and `yml`; `toml`; `css`; `ruby`; `scss`; `html`; `erb`.
#[verifier::spinoff_prover]
#[verifier::rlimit(100)]
pub proof fn law_config_names_select_their_languages()
    ensures
        spec_from_config_name("rust"@) == Some(LangId::Rust),
        spec_from_config_name("swift"@) == Some(LangId::Swift),
        spec_from_config_name("nix"@) == Some(LangId::Nix),
        spec_from_config_name("bash"@) == Some(LangId::Bash),
        spec_from_config_name("sh"@) == Some(LangId::Bash),
        spec_from_config_name("shell"@) == Some(LangId::Bash),
        spec_from_config_name("hcl"@) == Some(LangId::Hcl),
        spec_from_config_name("terraform"@) == Some(LangId::Hcl),
        spec_from_config_name("python"@) == Some(LangId::Python),
        spec_from_config_name("typescript"@) == Some(LangId::TypeScript),
        spec_from_config_name("ts"@) == Some(LangId::TypeScript),
        spec_from_config_name("javascript"@) == Some(LangId::JavaScript),
        spec_from_config_name("js"@) == Some(LangId::JavaScript),
        spec_from_config_name("go"@) == Some(LangId::Go),
        spec_from_config_name("c"@) == Some(LangId::C),
        spec_from_config_name("cpp"@) == Some(LangId::Cpp),
        spec_from_config_name("c++"@) == Some(LangId::Cpp),
        spec_from_config_name("yaml"@) == Some(LangId::Yaml),
        spec_from_config_name("yml"@) == Some(LangId::Yaml),
        spec_from_config_name("toml"@) == Some(LangId::Toml),
        spec_from_config_name("css"@) == Some(LangId::Css),
        spec_from_config_name("ruby"@) == Some(LangId::Ruby),
        spec_from_config_name("scss"@) == Some(LangId::Scss),
        spec_from_config_name("html"@) == Some(LangId::Html),
        spec_from_config_name("erb"@) == Some(LangId::Erb),
{
    reveal_strlit("rust");
    assert("rust"@.len() == 4);
    reveal_strlit("swift");
    assert("swift"@.len() == 5);
    reveal_strlit("nix");
    assert("nix"@.len() == 3);
    reveal_strlit("bash");
    assert("bash"@.len() == 4);
    reveal_strlit("sh");
    assert("sh"@.len() == 2);
    reveal_strlit("shell");
    assert("shell"@.len() == 5);
    reveal_strlit("hcl");
    assert("hcl"@.len() == 3);
    reveal_strlit("terraform");
    assert("terraform"@.len() == 9);
    reveal_strlit("python");
    assert("python"@.len() == 6);
    reveal_strlit("typescript");
    assert("typescript"@.len() == 10);
    reveal_strlit("ts");
    assert("ts"@.len() == 2);
    reveal_strlit("javascript");
    assert("javascript"@.len() == 10);
    reveal_strlit("js");
    assert("js"@.len() == 2);
    reveal_strlit("go");
    assert("go"@.len() == 2);
    reveal_strlit("c");
    assert("c"@.len() == 1);
    reveal_strlit("cpp");
    assert("cpp"@.len() == 3);
    reveal_strlit("c++");
    assert("c++"@.len() == 3);
    reveal_strlit("yaml");
    assert("yaml"@.len() == 4);
    reveal_strlit("yml");
    assert("yml"@.len() == 3);
    reveal_strlit("toml");
    assert("toml"@.len() == 4);
    reveal_strlit("css");
    assert("css"@.len() == 3);
    reveal_strlit("ruby");
    assert("ruby"@.len() == 4);
    reveal_strlit("scss");
    assert("scss"@.len() == 4);
    reveal_strlit("html");
    assert("html"@.len() == 4);
    reveal_strlit("erb");
    assert("erb"@.len() == 3);
    assert("bash"@[0] != "rust"@[0]);
    assert("shell"@[1] != "swift"@[1]);
    assert("hcl"@[0] != "nix"@[0]);
    assert("ts"@[0] != "sh"@[0]);
    assert("javascript"@[0] != "typescript"@[0]);
    assert("js"@[0] != "sh"@[0]);
    assert("js"@[0] != "ts"@[0]);
    assert("go"@[0] != "sh"@[0]);
    assert("go"@[0] != "ts"@[0]);
    assert("go"@[0] != "js"@[0]);
    assert("cpp"@[0] != "nix"@[0]);
    assert("cpp"@[0] != "hcl"@[0]);
    assert("c++"@[0] != "nix"@[0]);
    assert("c++"@[0] != "hcl"@[0]);
    assert("c++"@[1] != "cpp"@[1]);
    assert("yaml"@[0] != "rust"@[0]);
    assert("yaml"@[0] != "bash"@[0]);
    assert("yml"@[0] != "nix"@[0]);
    assert("yml"@[0] != "hcl"@[0]);
    assert("yml"@[0] != "cpp"@[0]);
    assert("yml"@[0] != "c++"@[0]);
    assert("toml"@[0] != "rust"@[0]);
    assert("toml"@[0] != "bash"@[0]);
    assert("toml"@[0] != "yaml"@[0]);
    assert("css"@[0] != "nix"@[0]);
    assert("css"@[0] != "hcl"@[0]);
    assert("css"@[1] != "cpp"@[1]);
    assert("css"@[1] != "c++"@[1]);
    assert("css"@[0] != "yml"@[0]);
    assert("ruby"@[2] != "rust"@[2]);
    assert("ruby"@[0] != "bash"@[0]);
    assert("ruby"@[0] != "yaml"@[0]);
    assert("ruby"@[0] != "toml"@[0]);
    assert("scss"@[0] != "rust"@[0]);
    assert("scss"@[0] != "bash"@[0]);
    assert("scss"@[0] != "yaml"@[0]);
    assert("scss"@[0] != "toml"@[0]);
    assert("scss"@[0] != "ruby"@[0]);
    assert("html"@[0] != "rust"@[0]);
    assert("html"@[0] != "bash"@[0]);
    assert("html"@[0] != "yaml"@[0]);
    assert("html"@[0] != "toml"@[0]);
    assert("html"@[0] != "ruby"@[0]);
    assert("html"@[0] != "scss"@[0]);
    assert("erb"@[0] != "nix"@[0]);
    assert("erb"@[0] != "hcl"@[0]);
    assert("erb"@[0] != "cpp"@[0]);
    assert("erb"@[0] != "c++"@[0]);
    assert("erb"@[0] != "yml"@[0]);
    assert("erb"@[0] != "css"@[0]);
}

/// A comment beneath a macro belongs to the macro: when comment node `i` has
/// an ancestor below the root whose kind is `macro_invocation`,
/// `macro_definition`, `token_tree` or `macro_rules`, the comment is recorded
/// as in a macro (and so is never judged as prose).
pub proof fn law_comment_under_a_macro_is_in_macro(
    ns: Seq<NodeView>,
    src: Seq<u8>,
    row: LangRow,
    is_test_target: bool,
    i: int,
    j: int,
)
    requires
        0 < j,
        is_ancestor(ns, j, i),
        ns[j].kind == "macro_invocation"@ || ns[j].kind == "macro_definition"@ || ns[j].kind == "token_tree"@
            || ns[j].kind == "macro_rules"@,
    ensures
        comment_of(ns, src, row, is_test_target, i).in_macro,
{
    assert(macro_marks(ns)[j] == macro_mark(ns, j));
    assert(blocked(ns, macro_marks(ns), i));
}

proof fn lemma_scan_reaches(ns: Seq<NodeView>, src: Seq<u8>, d: int, m: int, j: int)
    requires
        0 <= j <= m < ns.len(),
        ns[j].depth < d,
        names_script(ns, src, j),
        forall|k: int| j < k <= m ==> #[trigger] ns[k].depth > ns[j].depth,
    ensures
        script_scan(ns, src, d, m),
    decreases m,
{
    if m > j {
        if ns[m].depth < d {
            if !names_script(ns, src, m) {
                lemma_scan_reaches(ns, src, ns[m].depth, m - 1, j);
            }
        } else {
            lemma_scan_reaches(ns, src, d, m - 1, j);
        }
    }
}

proof fn lemma_ancestor_names_script(ns: Seq<NodeView>, src: Seq<u8>, i: int, j: int)
    requires
        is_ancestor(ns, j, i),
        names_script(ns, src, j),
    ensures
        is_script_string(ns, src, i),
{
    assert(ns[i].depth > ns[j].depth);
    lemma_scan_reaches(ns, src, ns[i].depth, i - 1, j);
}

/// A string bound to a build-script attribute is read as a script: when an
/// indented string node `i` lies (directly or through enclosing expressions)
/// under a `binding` whose attribute path ends in `buildCommand`,
/// `buildPhase`, `checkPhase`, `extraCommands`, `installPhase`,
/// `installPhaseCommand`, `postFixup`, `postInstall`, `postPatch`,
/// `preStart`, `script` or `shellHook`, the string is a script.
pub proof fn law_script_attributes_make_scripts(ns: Seq<NodeView>, src: Seq<u8>, i: int, j: int)
    requires
        is_ancestor(ns, j, i),
        ns[j].kind == "binding"@,
        binding_name(ns, src, j) == Some("buildCommand"@)
            || binding_name(ns, src, j) == Some("buildPhase"@)
            || binding_name(ns, src, j) == Some("checkPhase"@)
            || binding_name(ns, src, j) == Some("extraCommands"@)
            || binding_name(ns, src, j) == Some("installPhase"@)
            || binding_name(ns, src, j) == Some("installPhaseCommand"@)
            || binding_name(ns, src, j) == Some("postFixup"@)
            || binding_name(ns, src, j) == Some("postInstall"@)
            || binding_name(ns, src, j) == Some("postPatch"@)
            || binding_name(ns, src, j) == Some("preStart"@)
            || binding_name(ns, src, j) == Some("script"@)
            || binding_name(ns, src, j) == Some("shellHook"@),
    ensures
        is_script_string(ns, src, i),
{
    let n = binding_name(ns, src, j).unwrap();
    if n == "buildCommand"@ {
        assert(nix_script_attrs()[0] == n);
    }
    if n == "buildPhase"@ {
        assert(nix_script_attrs()[1] == n);
    }
    if n == "checkPhase"@ {
        assert(nix_script_attrs()[2] == n);
    }
    if n == "extraCommands"@ {
        assert(nix_script_attrs()[3] == n);
    }
    if n == "installPhase"@ {
        assert(nix_script_attrs()[4] == n);
    }
    if n == "installPhaseCommand"@ {
        assert(nix_script_attrs()[5] == n);
    }
    if n == "postFixup"@ {
        assert(nix_script_attrs()[6] == n);
    }
    if n == "postInstall"@ {
        assert(nix_script_attrs()[7] == n);
    }
    if n == "postPatch"@ {
        assert(nix_script_attrs()[8] == n);
    }
    if n == "preStart"@ {
        assert(nix_script_attrs()[9] == n);
    }
    if n == "script"@ {
        assert(nix_script_attrs()[10] == n);
    }
    if n == "shellHook"@ {
        assert(nix_script_attrs()[11] == n);
    }
    assert(nix_script_attrs().contains(n));
    assert(names_script(ns, src, j));
    lemma_ancestor_names_script(ns, src, i, j);
}

/// A string handed to a script-writing function is read as a script: when an
/// indented string node `i` lies under an application whose function (through
/// any curried applications) is named `runCommand`, `runCommandLocal`,
/// `writeScript`, `writeScriptBin`, `writeShellApplication`,
/// `writeShellScript` or `writeShellScriptBin`, the string is a script.
pub proof fn law_script_functions_make_scripts(ns: Seq<NodeView>, src: Seq<u8>, i: int, j: int)
    requires
        is_ancestor(ns, j, i),
        ns[j].kind == "apply_expression"@,
        apply_name(ns, src, j) == Some("runCommand"@)
            || apply_name(ns, src, j) == Some("runCommandLocal"@)
            || apply_name(ns, src, j) == Some("writeScript"@)
            || apply_name(ns, src, j) == Some("writeScriptBin"@)
            || apply_name(ns, src, j) == Some("writeShellApplication"@)
            || apply_name(ns, src, j) == Some("writeShellScript"@)
            || apply_name(ns, src, j) == Some("writeShellScriptBin"@),
    ensures
        is_script_string(ns, src, i),
{
    let n = apply_name(ns, src, j).unwrap();
    if n == "runCommand"@ {
        assert(nix_script_fns()[0] == n);
    }
    if n == "runCommandLocal"@ {
        assert(nix_script_fns()[1] == n);
    }
    if n == "writeScript"@ {
        assert(nix_script_fns()[2] == n);
    }
    if n == "writeScriptBin"@ {
        assert(nix_script_fns()[3] == n);
    }
    if n == "writeShellApplication"@ {
        assert(nix_script_fns()[4] == n);
    }
    if n == "writeShellScript"@ {
        assert(nix_script_fns()[5] == n);
    }
    if n == "writeShellScriptBin"@ {
        assert(nix_script_fns()[6] == n);
    }
    assert(nix_script_fns().contains(n));
    assert(names_script(ns, src, j));
    lemma_ancestor_names_script(ns, src, i, j);
}

proof fn lemma_insert_index_all(ns: Seq<NodeView>, s: Seq<int>, x: int, p: spec_fn(int) -> bool)
    requires
        p(x),
        forall|k: int| 0 <= k < s.len() ==> p(#[trigger] s[k]),
    ensures
        forall|k: int| 0 <= k < insert_index(ns, s, x).len() ==> p(#[trigger] insert_index(ns, s, x)[k]),
    decreases s.len(),
{
    if s.len() > 0 && ns[s.last()].start_byte > ns[x].start_byte {
        assert forall|k: int| 0 <= k < s.drop_last().len() implies p(#[trigger] s.drop_last()[k]) by {
            assert(s.drop_last()[k] == s[k]);
        }
        lemma_insert_index_all(ns, s.drop_last(), x, p);
        let t = insert_index(ns, s.drop_last(), x);
        assert forall|k: int| 0 <= k < insert_index(ns, s, x).len() implies p(#[trigger] insert_index(ns, s, x)[k]) by {
            if k < t.len() {
                assert(insert_index(ns, s, x)[k] == t[k]);
            } else {
                assert(insert_index(ns, s, x)[k] == s[s.len() - 1]);
            }
        }
    } else if s.len() > 0 {
        assert forall|k: int| 0 <= k < insert_index(ns, s, x).len() implies p(#[trigger] insert_index(ns, s, x)[k]) by {
            if k < s.len() {
                assert(insert_index(ns, s, x)[k] == s[k]);
            }
        }
    }
}

proof fn lemma_candidates_are_comments(ns: Seq<NodeView>, row: LangRow, n: int)
    requires
        n <= ns.len(),
    ensures
        forall|k: int|
            0 <= k < candidates_upto(ns, row, n).len() ==> 0 <= #[trigger] candidates_upto(ns, row, n)[k] < n
                && row.comment_kinds.contains(ns[candidates_upto(ns, row, n)[k]].kind),
    decreases n,
{
    if n > 0 {
        lemma_candidates_are_comments(ns, row, n - 1);
        let p = |x: int| 0 <= x < n && row.comment_kinds.contains(ns[x].kind);
        let prev = candidates_upto(ns, row, n - 1);
        assert forall|k: int| 0 <= k < prev.len() implies p(#[trigger] prev[k]) by {
        }
        if gen_candidate(ns, row, n - 1) {
            lemma_insert_index_all(ns, prev, n - 1, p);
        }
    }
}

/// A file is generated only when its first comment says so at once: if a
/// parse marks the file generated, there is a comment node `c` that starts on
/// the file's first line (or its second, after a shebang), stands alone on
/// its line, and whose first line's body begins with the literal
/// `@generated`; a comment that only mentions `@generated` later in its body
/// never marks the file.
pub proof fn law_generated_needs_a_leading_marker(id: LangId, src: Seq<u8>, is_test_target: bool) -> (c: int)
    requires
        spec_parse(id, src, is_test_target) is Ok,
        spec_parse(id, src, is_test_target)->Ok_0.generated,
    ensures
        0 <= c < parsed_syntax(id, src).unwrap().len(),
        lang_row(id).comment_kinds.contains(parsed_syntax(id, src).unwrap()[c].kind),
        parsed_syntax(id, src).unwrap()[c].start_row == 0 || parsed_syntax(id, src).unwrap()[c].start_row == 1,
        owns_line(src, parsed_syntax(id, src).unwrap()[c].start_byte),
        "@generated"@.is_prefix_of(
            spec_comment_body(
                first_line(
                    node_text(
                        src,
                        parsed_syntax(id, src).unwrap()[c].start_byte,
                        parsed_syntax(id, src).unwrap()[c].end_byte,
                    ),
                ),
                lang_row(id).line_prefixes,
                lang_row(id).block_open,
                lang_row(id).block_close,
            ),
        ),
{
    let ns = parsed_syntax(id, src).unwrap();
    let row = lang_row(id);
    let g = candidates_upto(ns, row, ns.len() as int);
    lemma_candidates_are_comments(ns, row, ns.len() as int);
    if ns[g[0]].start_row == 0 && "#!"@.is_prefix_of(node_first_line(ns, src, g[0])) {
        assert(g[1] == g[1]);
        g[1]
    } else {
        g[0]
    }
}

/// Python reads a heredoc that a `python` or `python3` command is fed: when
/// the statement around heredoc body `h` starts with a command whose program
/// (the last `/` segment of its first word) is `python` or `python3`, the body
/// is read as python.
pub proof fn law_python_commands_feed_python(ns: Seq<NodeView>, buf: Seq<u8>, h: int, st: int, c: int)
    requires
        statement_scan(ns, ns[h].depth, h - 1) == Some(st),
        first_child(ns, st) == Some(c),
        interpreter(node_text(buf, ns[c].start_byte, ns[c].end_byte)) == "python"@ || interpreter(
            node_text(buf, ns[c].start_byte, ns[c].end_byte),
        ) == "python3"@,
    ensures
        feeds_python(ns, buf, h),
{
    let n = interpreter(node_text(buf, ns[c].start_byte, ns[c].end_byte));
    if n == "python"@ {
        assert(python_interpreters()[0] == n);
    } else {
        assert(python_interpreters()[1] == n);
    }
}

/// By default the tags `TRIPWIRE` and `CONTEXT` keep a comment: a body that
/// opens with either, a colon and a reason that is not blank is tagged under
/// the default tags.
pub proof fn law_default_tags_keep_comments(reason: Seq<char>)
    requires
        !all_ws(reason),
    ensures
        spec_is_tagged("TRIPWIRE"@ + seq![':'] + reason, default_tags_view()),
        spec_is_tagged("CONTEXT"@ + seq![':'] + reason, default_tags_view()),
{
    reveal_strlit("TRIPWIRE");
    reveal_strlit("CONTEXT");
    let a = "TRIPWIRE"@ + seq![':'] + reason;
    assert(a.subrange(0, 8) =~= "TRIPWIRE"@);
    assert(a.skip(8) =~= seq![':'] + reason);
    assert((seq![':'] + reason).subrange(0, 1) =~= seq![':']);
    assert((seq![':'] + reason).skip(1) =~= reason);
    assert(tagged_by(a, default_tags_view()[0]));
    let b = "CONTEXT"@ + seq![':'] + reason;
    assert(b.subrange(0, 7) =~= "CONTEXT"@);
    assert(b.skip(7) =~= seq![':'] + reason);
    assert(tagged_by(b, default_tags_view()[1]));
}

/// A walk never enters version control, build output or dependency caches: a
/// directory named `.git`, `.build`, `.direnv`, `target`, `node_modules`,
/// `result` or `DerivedData` is one `is_ignored_dir` answers true for.
pub proof fn law_ignored_directories(path: Seq<char>)
    requires
        path_file_name(path) == Some(".git"@) || path_file_name(path) == Some(".build"@) || path_file_name(path)
            == Some(".direnv"@) || path_file_name(path) == Some("target"@) || path_file_name(path) == Some(
            "node_modules"@,
        ) || path_file_name(path) == Some("result"@) || path_file_name(path) == Some("DerivedData"@),
    ensures
        match path_file_name(path) {
            Some(n) => ignored_dir_names().contains(n),
            None => false,
        },
{
    let n = path_file_name(path).unwrap();
    if n == ".git"@ {
        assert(ignored_dir_names()[0] == n);
    } else if n == ".build"@ {
        assert(ignored_dir_names()[1] == n);
    } else if n == ".direnv"@ {
        assert(ignored_dir_names()[2] == n);
    } else if n == "target"@ {
        assert(ignored_dir_names()[3] == n);
    } else if n == "node_modules"@ {
        assert(ignored_dir_names()[4] == n);
    } else if n == "result"@ {
        assert(ignored_dir_names()[5] == n);
    } else {
        assert(ignored_dir_names()[6] == n);
    }
}

/// A file is of a test target when a directory on its path is named
/// `tests`, `test` or `__tests__`, or when its stem ends in `_test`, `.test`
/// or `_tests`.
pub proof fn law_test_targets(path: Seq<char>, k: int, stem: Seq<char>)
    requires
        (0 <= k < path_components(path).len() && (path_components(path)[k] == "tests"@ || path_components(path)[k]
            == "test"@ || path_components(path)[k] == "__tests__"@)) || path_file_stem(path) == Some(stem + "_test"@)
            || path_file_stem(path) == Some(stem + ".test"@) || path_file_stem(path) == Some(stem + "_tests"@),
    ensures
        spec_is_test_target(path),
{
    reveal_strlit("_test");
    reveal_strlit(".test");
    reveal_strlit("_tests");
    if 0 <= k < path_components(path).len() {
        let d = path_components(path)[k];
        if d == "tests"@ {
            assert(test_dir_names()[0] == d);
        } else if d == "test"@ {
            assert(test_dir_names()[1] == d);
        } else if d == "__tests__"@ {
            assert(test_dir_names()[2] == d);
        }
    }
    lemma_suffix_of_concat(stem, "_test"@);
    lemma_suffix_of_concat(stem, ".test"@);
    lemma_suffix_of_concat(stem, "_tests"@);
}

proof fn lemma_suffix_of_concat(s: Seq<char>, t: Seq<char>)
    ensures
        t.is_suffix_of(s + t),
{
    assert((s + t).subrange(s.len() as int, (s + t).len() as int) =~= t);
}

/// A doc comment never declares a file generated: a comment whose first line
/// opens (after indentation) with `///`, `//!`, `/**` or `/*!` does not mark
/// it, whatever follows.
pub proof fn law_doc_comments_never_mark_generated(ns: Seq<NodeView>, src: Seq<u8>, row: LangRow, c: int, rest: Seq<char>)
    requires
        trim_start(node_first_line(ns, src, c)) == "///"@ + rest || trim_start(node_first_line(ns, src, c))
            == "//!"@ + rest || trim_start(node_first_line(ns, src, c)) == "/**"@ + rest || trim_start(
            node_first_line(ns, src, c),
        ) == "/*!"@ + rest,
    ensures
        !marks_generated(ns, src, row, c),
{
    reveal_strlit("///");
    reveal_strlit("//!");
    reveal_strlit("/**");
    reveal_strlit("/*!");
    let t = trim_start(node_first_line(ns, src, c));
    lemma_prefix_of_concat("///"@, rest);
    lemma_prefix_of_concat("//!"@, rest);
    lemma_prefix_of_concat("/**"@, rest);
    lemma_prefix_of_concat("/*!"@, rest);
    if t == "///"@ + rest {
        assert(generated_doc_prefixes()[0].is_prefix_of(t));
    } else if t == "//!"@ + rest {
        assert(generated_doc_prefixes()[1].is_prefix_of(t));
    } else if t == "/**"@ + rest {
        assert(generated_doc_prefixes()[2].is_prefix_of(t));
    } else {
        assert(generated_doc_prefixes()[3].is_prefix_of(t));
    }
}

/// A shebang is never judged: a comment on the first line of its file (or of
/// its embedded script) whose text opens with `#!` is exempt as a shebang.
pub proof fn law_shebang_is_exempt(id: LangId, c: CommentView, is_test_target: bool, cfg: ConfigView, rest: Seq<char>)
    requires
        effective_row(c) == 0,
        c.text == "#!"@ + rest,
    ensures
        spec_verdict(id, c, is_test_target, cfg) == Verdict::Exempt(Exemption::Shebang),
{
    lemma_prefix_of_concat("#!"@, rest);
}

/// A Rust or Swift comment opening with `//!` or `/*!` is a module doc.
pub proof fn law_module_doc_openers(lead: Seq<char>, rest: Seq<char>)
    requires
        blank(lead),
    ensures
        spec_is_module_doc(LangId::Rust, lead + "//!"@ + rest),
        spec_is_module_doc(LangId::Rust, lead + "/*!"@ + rest),
        spec_is_module_doc(LangId::Swift, lead + "//!"@ + rest),
        spec_is_module_doc(LangId::Swift, lead + "/*!"@ + rest),
{
    reveal_strlit("//!");
    reveal_strlit("/*!");
    lemma_trim_blank_lead(lead, "//!"@ + rest);
    lemma_trim_blank_lead(lead, "/*!"@ + rest);
    assert(lead + "//!"@ + rest =~= lead + ("//!"@ + rest));
    assert(lead + "/*!"@ + rest =~= lead + ("/*!"@ + rest));
    lemma_prefix_of_concat("//!"@, rest);
    lemma_prefix_of_concat("/*!"@, rest);
}

/// The ruby of an ERB template is never read: every `code` node among the
/// first `n` nodes has its span among the unread spans.
pub proof fn law_erb_code_is_unread(ns: Seq<NodeView>, n: int, i: int)
    requires
        0 <= i < n <= ns.len(),
        ns[i].kind == "code"@,
    ensures
        code_spans(ns, n).contains((ns[i].start_byte, ns[i].end_byte)),
    decreases n,
{
    if i < n - 1 {
        law_erb_code_is_unread(ns, n - 1, i);
        let prev = code_spans(ns, n - 1);
        let m = choose|m: int| 0 <= m < prev.len() && prev[m] == (ns[i].start_byte, ns[i].end_byte);
        if ns[n - 1].kind == "code"@ {
            assert(code_spans(ns, n)[m] == prev[m]);
        }
    } else {
        let prev = code_spans(ns, n - 1);
        assert(code_spans(ns, n)[prev.len() as int] == (ns[i].start_byte, ns[i].end_byte));
    }
}

/// What the registry knows of each language, word for word: the tree-sitter
/// node kinds that are its comments, the openers that mark a doc line or a
/// doc block, the prefixes of its line comments and the delimiters of its
/// block comments. (Rust: `line_comment` and `block_comment`, `//`, `/*` `*/`,
/// docs `///`, `//!`, `/**`, `/*!`; Python, Bash, YAML, TOML: `comment`, `#`;
/// HTML: `comment`, `<!--` `-->`; ERB: `comment_directive`, `#`, `<%#` `%>`;
/// Ruby: `comment`, `#`, `=begin` `=end`; SCSS: `comment` and `js_comment`,
/// `//`, `/*` `*/`; and so on for each language.)
pub proof fn law_language_registry()
    ensures
        lang_row(LangId::Rust).comment_kinds.contains("line_comment"@),
        lang_row(LangId::Rust).comment_kinds.contains("block_comment"@),
        lang_row(LangId::Rust).doc_line.contains("///"@),
        lang_row(LangId::Rust).doc_line.contains("//!"@),
        lang_row(LangId::Rust).doc_block.contains("/**"@),
        lang_row(LangId::Rust).doc_block.contains("/*!"@),
        lang_row(LangId::Rust).line_prefixes.contains("//"@),
        lang_row(LangId::Rust).block_open == Some("/*"@),
        lang_row(LangId::Rust).block_close == Some("*/"@),
        lang_row(LangId::Swift).comment_kinds.contains("comment"@),
        lang_row(LangId::Swift).comment_kinds.contains("multiline_comment"@),
        lang_row(LangId::Swift).doc_line.contains("///"@),
        lang_row(LangId::Swift).doc_line.contains("//!"@),
        lang_row(LangId::Swift).doc_block.contains("/**"@),
        lang_row(LangId::Swift).doc_block.contains("/*!"@),
        lang_row(LangId::Swift).line_prefixes.contains("//"@),
        lang_row(LangId::Swift).block_open == Some("/*"@),
        lang_row(LangId::Swift).block_close == Some("*/"@),
        lang_row(LangId::Nix).comment_kinds.contains("comment"@),
        lang_row(LangId::Nix).line_prefixes.contains("#"@),
        lang_row(LangId::Nix).block_open == Some("/*"@),
        lang_row(LangId::Nix).block_close == Some("*/"@),
        lang_row(LangId::Bash).comment_kinds.contains("comment"@),
        lang_row(LangId::Bash).line_prefixes.contains("#"@),
        lang_row(LangId::Bash).block_open is None,
        lang_row(LangId::Bash).block_close is None,
        lang_row(LangId::Hcl).comment_kinds.contains("comment"@),
        lang_row(LangId::Hcl).line_prefixes.contains("#"@),
        lang_row(LangId::Hcl).line_prefixes.contains("//"@),
        lang_row(LangId::Hcl).block_open == Some("/*"@),
        lang_row(LangId::Hcl).block_close == Some("*/"@),
        lang_row(LangId::Python).comment_kinds.contains("comment"@),
        lang_row(LangId::Python).line_prefixes.contains("#"@),
        lang_row(LangId::Python).block_open is None,
        lang_row(LangId::Python).block_close is None,
        lang_row(LangId::TypeScript).comment_kinds.contains("comment"@),
        lang_row(LangId::TypeScript).doc_block.contains("/**"@),
        lang_row(LangId::TypeScript).line_prefixes.contains("//"@),
        lang_row(LangId::TypeScript).block_open == Some("/*"@),
        lang_row(LangId::TypeScript).block_close == Some("*/"@),
        lang_row(LangId::JavaScript).comment_kinds.contains("comment"@),
        lang_row(LangId::JavaScript).doc_block.contains("/**"@),
        lang_row(LangId::JavaScript).line_prefixes.contains("//"@),
        lang_row(LangId::JavaScript).block_open == Some("/*"@),
        lang_row(LangId::JavaScript).block_close == Some("*/"@),
        lang_row(LangId::Go).comment_kinds.contains("comment"@),
        lang_row(LangId::Go).line_prefixes.contains("//"@),
        lang_row(LangId::Go).block_open == Some("/*"@),
        lang_row(LangId::Go).block_close == Some("*/"@),
        lang_row(LangId::C).comment_kinds.contains("comment"@),
        lang_row(LangId::C).doc_block.contains("/**"@),
        lang_row(LangId::C).line_prefixes.contains("//"@),
        lang_row(LangId::C).block_open == Some("/*"@),
        lang_row(LangId::C).block_close == Some("*/"@),
        lang_row(LangId::Cpp).comment_kinds.contains("comment"@),
        lang_row(LangId::Cpp).doc_line.contains("///"@),
        lang_row(LangId::Cpp).doc_block.contains("/**"@),
        lang_row(LangId::Cpp).line_prefixes.contains("//"@),
        lang_row(LangId::Cpp).block_open == Some("/*"@),
        lang_row(LangId::Cpp).block_close == Some("*/"@),
        lang_row(LangId::Yaml).comment_kinds.contains("comment"@),
        lang_row(LangId::Yaml).line_prefixes.contains("#"@),
        lang_row(LangId::Yaml).block_open is None,
        lang_row(LangId::Yaml).block_close is None,
        lang_row(LangId::Toml).comment_kinds.contains("comment"@),
        lang_row(LangId::Toml).line_prefixes.contains("#"@),
        lang_row(LangId::Toml).block_open is None,
        lang_row(LangId::Toml).block_close is None,
        lang_row(LangId::Css).comment_kinds.contains("comment"@),
        lang_row(LangId::Css).block_open == Some("/*"@),
        lang_row(LangId::Css).block_close == Some("*/"@),
        lang_row(LangId::Ruby).comment_kinds.contains("comment"@),
        lang_row(LangId::Ruby).line_prefixes.contains("#"@),
        lang_row(LangId::Ruby).block_open == Some("=begin"@),
        lang_row(LangId::Ruby).block_close == Some("=end"@),
        lang_row(LangId::Scss).comment_kinds.contains("comment"@),
        lang_row(LangId::Scss).comment_kinds.contains("js_comment"@),
        lang_row(LangId::Scss).line_prefixes.contains("//"@),
        lang_row(LangId::Scss).block_open == Some("/*"@),
        lang_row(LangId::Scss).block_close == Some("*/"@),
        lang_row(LangId::Html).comment_kinds.contains("comment"@),
        lang_row(LangId::Html).block_open == Some("<!--"@),
        lang_row(LangId::Html).block_close == Some("-->"@),
        lang_row(LangId::Erb).comment_kinds.contains("comment_directive"@),
        lang_row(LangId::Erb).line_prefixes.contains("#"@),
        lang_row(LangId::Erb).block_open == Some("<%#"@),
        lang_row(LangId::Erb).block_close == Some("%>"@),
{
    assert(lang_row(LangId::Rust).comment_kinds[0] == "line_comment"@);
    assert(lang_row(LangId::Rust).comment_kinds[1] == "block_comment"@);
    assert(lang_row(LangId::Rust).doc_line[0] == "///"@);
    assert(lang_row(LangId::Rust).doc_line[1] == "//!"@);
    assert(lang_row(LangId::Rust).doc_block[0] == "/**"@);
    assert(lang_row(LangId::Rust).doc_block[1] == "/*!"@);
    assert(lang_row(LangId::Rust).line_prefixes[0] == "//"@);
    assert(lang_row(LangId::Swift).comment_kinds[0] == "comment"@);
    assert(lang_row(LangId::Swift).comment_kinds[1] == "multiline_comment"@);
    assert(lang_row(LangId::Swift).doc_line[0] == "///"@);
    assert(lang_row(LangId::Swift).doc_line[1] == "//!"@);
    assert(lang_row(LangId::Swift).doc_block[0] == "/**"@);
    assert(lang_row(LangId::Swift).doc_block[1] == "/*!"@);
    assert(lang_row(LangId::Swift).line_prefixes[0] == "//"@);
    assert(lang_row(LangId::Nix).comment_kinds[0] == "comment"@);
    assert(lang_row(LangId::Nix).line_prefixes[0] == "#"@);
    assert(lang_row(LangId::Bash).comment_kinds[0] == "comment"@);
    assert(lang_row(LangId::Bash).line_prefixes[0] == "#"@);
    assert(lang_row(LangId::Hcl).comment_kinds[0] == "comment"@);
    assert(lang_row(LangId::Hcl).line_prefixes[0] == "#"@);
    assert(lang_row(LangId::Hcl).line_prefixes[1] == "//"@);
    assert(lang_row(LangId::Python).comment_kinds[0] == "comment"@);
    assert(lang_row(LangId::Python).line_prefixes[0] == "#"@);
    assert(lang_row(LangId::TypeScript).comment_kinds[0] == "comment"@);
    assert(lang_row(LangId::TypeScript).doc_block[0] == "/**"@);
    assert(lang_row(LangId::TypeScript).line_prefixes[0] == "//"@);
    assert(lang_row(LangId::JavaScript).comment_kinds[0] == "comment"@);
    assert(lang_row(LangId::JavaScript).doc_block[0] == "/**"@);
    assert(lang_row(LangId::JavaScript).line_prefixes[0] == "//"@);
    assert(lang_row(LangId::Go).comment_kinds[0] == "comment"@);
    assert(lang_row(LangId::Go).line_prefixes[0] == "//"@);
    assert(lang_row(LangId::C).comment_kinds[0] == "comment"@);
    assert(lang_row(LangId::C).doc_block[0] == "/**"@);
    assert(lang_row(LangId::C).line_prefixes[0] == "//"@);
    assert(lang_row(LangId::Cpp).comment_kinds[0] == "comment"@);
    assert(lang_row(LangId::Cpp).doc_line[0] == "///"@);
    assert(lang_row(LangId::Cpp).doc_block[0] == "/**"@);
    assert(lang_row(LangId::Cpp).line_prefixes[0] == "//"@);
    assert(lang_row(LangId::Yaml).comment_kinds[0] == "comment"@);
    assert(lang_row(LangId::Yaml).line_prefixes[0] == "#"@);
    assert(lang_row(LangId::Toml).comment_kinds[0] == "comment"@);
    assert(lang_row(LangId::Toml).line_prefixes[0] == "#"@);
    assert(lang_row(LangId::Css).comment_kinds[0] == "comment"@);
    assert(lang_row(LangId::Ruby).comment_kinds[0] == "comment"@);
    assert(lang_row(LangId::Ruby).line_prefixes[0] == "#"@);
    assert(lang_row(LangId::Scss).comment_kinds[0] == "comment"@);
    assert(lang_row(LangId::Scss).comment_kinds[1] == "js_comment"@);
    assert(lang_row(LangId::Scss).line_prefixes[0] == "//"@);
    assert(lang_row(LangId::Html).comment_kinds[0] == "comment"@);
    assert(lang_row(LangId::Erb).comment_kinds[0] == "comment_directive"@);
    assert(lang_row(LangId::Erb).line_prefixes[0] == "#"@);
}

/// An HTML quoted attribute value is data, read whole: such a node with no
/// comment or data node above it is one code token (so a `<!-- -->` inside the
/// value is never taken as a comment and never deleted), and it is never
/// collected as a comment.
pub proof fn law_quoted_attribute_values_are_data(ns: Seq<NodeView>, row: LangRow, i: int)
    requires
        ns[i].kind == "quoted_attribute_value"@,
        !exists|j: int| #[trigger] is_ancestor(ns, j, i) && leaf_stop(row, ns[j]),
    ensures
        is_token_node(ns, row, i),
        !is_collected(ns, row, i),
{
}

} // verus!
