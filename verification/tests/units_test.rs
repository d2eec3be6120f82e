use comment_warden::comment::{comment_body, is_directive, is_tagged, CommentShape};
use comment_warden::config::{
    Advice, Config, ConfigError, RawConfig, RawDocSurface, DEFAULT_ADVICE,
};
use comment_warden::lang::{spec_for, LangId};
use comment_warden::parse::{attribute_paths, code_tokens, parse};
use comment_warden::scan::{
    exclude_entries, ext_of, hook_receipt, is_ignored_dir, is_test_target, lang_for_path, Mode,
    Outcome, RunTotals,
};
use comment_warden::strip::{process, FileReport};

fn raw(tags: Option<Vec<&str>>, patterns: Vec<&str>, paths: Vec<&str>, rules: Vec<(&str, Vec<&str>)>) -> RawConfig {
    RawConfig {
        advice: None,
        advice_file: None,
        tags: tags.map(|t| t.iter().map(|s| s.to_string()).collect()),
        exempt_patterns: patterns.iter().map(|s| s.to_string()).collect(),
        exempt_paths: paths.iter().map(|s| s.to_string()).collect(),
        doc_surface: rules
            .into_iter()
            .map(|(lang, attrs)| RawDocSurface {
                lang: lang.to_string(),
                item_attributes: attrs.iter().map(|s| s.to_string()).collect(),
            })
            .collect(),
    }
}

fn report_with(stripped: usize, left: usize, unclassified: usize) -> FileReport {
    let mut r = FileReport::default();
    r.stripped = stripped;
    r.left_in_place = left;
    r.unclassified = unclassified;
    r
}

#[test]
fn exit_codes_follow_the_outcome() {
    assert_eq!(Outcome::Clean.exit_code(), 0);
    assert_eq!(Outcome::Violations.exit_code(), 1);
    assert_eq!(Outcome::NothingScanned.exit_code(), 2);
}

#[test]
fn outcome_of_run_totals() {
    let mut t = RunTotals::new();
    assert_eq!(t.outcome(), Outcome::NothingScanned);
    t.record("a.rs".to_string(), FileReport::default());
    assert_eq!(t.outcome(), Outcome::Clean);
    let mut found = FileReport::default();
    found.untagged_found = 2;
    found.stripped = 1;
    t.record("b.rs".to_string(), found);
    assert_eq!(t.scanned, 2);
    assert_eq!(t.outcome(), Outcome::Violations);
    let mut rest = FileReport::default();
    rest.stripped = 1;
    t.record("c.rs".to_string(), rest);
    assert_eq!(t.outcome(), Outcome::Clean);
    t.record("d.rs".to_string(), report_with(0, 1, 0));
    assert_eq!(t.outcome(), Outcome::Violations);
    let mut u = RunTotals::new();
    u.record("e.rs".to_string(), report_with(0, 0, 1));
    assert_eq!(u.outcome(), Outcome::Violations);
    assert_eq!(u.reports.len(), 1);
    assert_eq!(u.reports[0].0, "e.rs");
}

#[test]
fn mode_applies_only_when_stripping() {
    assert!(Mode::Strip.applies());
    assert!(!Mode::Check.applies());
}

#[test]
fn test_targets_by_directory_and_stem() {
    assert!(is_test_target("crate/tests/behavior.rs"));
    assert!(is_test_target("web/__tests__/a.ts"));
    assert!(is_test_target("pkg/test/x.py"));
    assert!(is_test_target("src/parser_test.go"));
    assert!(is_test_target("src/widget.test.ts"));
    assert!(is_test_target("src/parse_tests.rs"));
    assert!(!is_test_target("src/lib.rs"));
    assert!(!is_test_target("src/testing/lib.rs"));
}

#[test]
fn ignored_directories() {
    assert!(is_ignored_dir("repo/target"));
    assert!(is_ignored_dir("repo/node_modules"));
    assert!(is_ignored_dir(".git"));
    assert!(is_ignored_dir("a/DerivedData"));
    assert!(!is_ignored_dir("repo/src"));
    assert!(!is_ignored_dir("repo/targets"));
}

#[test]
fn extensions_select_languages() {
    assert_eq!(ext_of("src/main.rs"), Some("rs".to_string()));
    assert_eq!(ext_of("Makefile"), None);
    assert_eq!(lang_for_path("a/b.tsx"), Some(LangId::TypeScript));
    assert_eq!(lang_for_path("infra/main.tf"), Some(LangId::Hcl));
    assert_eq!(lang_for_path("notes.md"), None);
    assert_eq!(lang_for_path("README"), None);
}

#[test]
fn exclusion_entries_skip_blank_and_hash_lines() {
    let text = "  src/a.rs  \n\n# a note\nvendor/b.rs\r\n   \nlast.rs";
    assert_eq!(
        exclude_entries(text),
        vec!["src/a.rs".to_string(), "vendor/b.rs".to_string(), "last.rs".to_string()]
    );
    assert!(exclude_entries("").is_empty());
}

#[test]
fn hook_receipt_says_what_happened() {
    assert_eq!(hook_receipt("a.rs", &report_with(0, 0, 0)), None);
    assert_eq!(
        hook_receipt("a.rs", &report_with(3, 0, 0)),
        Some("comment-warden: stripped 3 untagged comment(s) from a.rs".to_string())
    );
    assert_eq!(
        hook_receipt("x/b.nix", &report_with(12, 2, 1)),
        Some(
            "comment-warden: stripped 12 untagged comment(s) from x/b.nix, left 2 in place, 1 unclassified line(s)"
                .to_string()
        )
    );
    assert_eq!(
        hook_receipt("c.sh", &report_with(0, 0, 40)),
        Some("comment-warden: stripped 0 untagged comment(s) from c.sh, 40 unclassified line(s)".to_string())
    );
}

#[test]
fn empty_config_has_the_default_tags() {
    let c = Config::empty();
    assert_eq!(c.tags().to_vec(), vec!["TRIPWIRE".to_string(), "CONTEXT".to_string()]);
    assert!(c.doc_surface.is_empty());
    assert!(!c.matches_exempt_pattern("anything"));
    assert!(!c.path_is_exempt("vendor/x.rs", None));
}

#[test]
fn named_tags_replace_the_defaults() {
    let c = Config::from_raw(raw(Some(vec!["KEEP"]), vec![], vec![], vec![]), None).unwrap();
    assert_eq!(c.tags().to_vec(), vec!["KEEP".to_string()]);
}

#[test]
fn unknown_doc_surface_language_is_refused() {
    let r = Config::from_raw(raw(None, vec![], vec![], vec![("rust", vec!["Object"]), ("cobol", vec![])]), None);
    match r {
        Err(ConfigError::UnknownDocSurfaceLang(name)) => assert_eq!(name, "cobol"),
        _ => panic!("expected an unknown language"),
    }
}

#[test]
fn bad_exempt_glob_is_refused() {
    let r = Config::from_raw(raw(None, vec![], vec!["ok/**", "bad[", "worse{"], vec![]), None);
    match r {
        Err(ConfigError::BadGlob(p)) => assert_eq!(p, "bad["),
        _ => panic!("expected a bad glob"),
    }
}

#[test]
fn exempt_patterns_match_comment_openings() {
    let c = Config::from_raw(raw(None, vec!["NOLINT", "pragma:"], vec![], vec![]), None).unwrap();
    assert!(c.matches_exempt_pattern("NOLINT(readability)"));
    assert!(c.matches_exempt_pattern("pragma: keep"));
    assert!(!c.matches_exempt_pattern("see NOLINT"));
    let report = process(LangId::Cpp, "// NOLINT(x)\nint a = 1;\n", false, &c, true).unwrap();
    assert_eq!(report.untagged_found, 0);
}

#[test]
fn exempt_paths_match_as_written_without_dot_slash_and_relative_to_cwd() {
    let c = Config::from_raw(raw(None, vec![], vec!["vendor/**"], vec![]), None).unwrap();
    assert!(c.path_is_exempt("vendor/lib/x.rs", None));
    assert!(c.path_is_exempt("./vendor/x.rs", None));
    assert!(c.path_is_exempt("/home/me/repo/vendor/x.rs", Some("/home/me/repo")));
    assert!(!c.path_is_exempt("/home/me/repo/vendor/x.rs", None));
    assert!(!c.path_is_exempt("src/x.rs", Some("/home/me/repo")));
}

#[test]
fn doc_surface_rules_by_language() {
    let c = Config::from_raw(
        raw(None, vec![], vec![], vec![("rust", vec!["Object"]), ("swift", vec!["Model"]), ("rust", vec!["Enum"])]),
        None,
    )
    .unwrap();
    let rules = c.doc_surface_for(LangId::Rust);
    assert_eq!(rules.len(), 2);
    assert_eq!(rules[0].item_attributes, vec!["Object".to_string()]);
    assert_eq!(rules[1].item_attributes, vec!["Enum".to_string()]);
    assert!(c.doc_surface_for(LangId::Go).is_empty());
}

#[test]
fn advice_comes_from_inline_file_or_default() {
    match Config::empty().advice() {
        Advice::Default(text) => assert_eq!(text, DEFAULT_ADVICE),
        _ => panic!("expected the default"),
    }
    let mut r = raw(None, vec![], vec![], vec![]);
    r.advice_file = Some("docs/policy.md".to_string());
    let c = Config::from_raw(r, Some("/repo".to_string())).unwrap();
    match c.advice() {
        Advice::File { dir, path } => {
            assert_eq!(dir, Some("/repo".to_string()));
            assert_eq!(path, "docs/policy.md");
        }
        _ => panic!("expected a file"),
    }
    let mut r = raw(None, vec![], vec![], vec![]);
    r.advice = Some("be brief".to_string());
    r.advice_file = Some("ignored.md".to_string());
    match Config::from_raw(r, None).unwrap().advice() {
        Advice::Inline(text) => assert_eq!(text, "be brief"),
        _ => panic!("expected inline advice"),
    }
}

#[test]
fn config_names_and_extensions() {
    assert_eq!(LangId::from_config_name("sh"), Some(LangId::Bash));
    assert_eq!(LangId::from_config_name("terraform"), Some(LangId::Hcl));
    assert_eq!(LangId::from_config_name("c++"), Some(LangId::Cpp));
    assert_eq!(LangId::from_config_name("yml"), Some(LangId::Yaml));
    assert_eq!(LangId::from_config_name("Rust"), None);
    assert_eq!(LangId::from_extension("pyi"), Some(LangId::Python));
    assert_eq!(LangId::from_extension("cjs"), Some(LangId::JavaScript));
    assert_eq!(LangId::from_extension("hh"), Some(LangId::Cpp));
    assert_eq!(LangId::from_extension("json"), None);
}

#[test]
fn language_rows() {
    let rust = spec_for(LangId::Rust);
    assert_eq!(rust.comment_kinds.to_vec(), vec!["line_comment", "block_comment"]);
    assert_eq!(rust.block_open, Some("/*"));
    assert_eq!(rust.block_close, Some("*/"));
    let css = spec_for(LangId::Css);
    assert!(css.line_prefixes.is_empty());
    let py = spec_for(LangId::Python);
    assert_eq!(py.line_prefixes.to_vec(), vec!["#"]);
    assert_eq!(py.block_open, None);
}

#[test]
fn comment_bodies() {
    let rust = spec_for(LangId::Rust);
    assert_eq!(comment_body("   /// TRIPWIRE: x  ", rust.line_prefixes, rust.block_open, rust.block_close), "TRIPWIRE: x");
    assert_eq!(comment_body("//! note", rust.line_prefixes, rust.block_open, rust.block_close), "note");
    assert_eq!(comment_body("/** doc */", rust.line_prefixes, rust.block_open, rust.block_close), "doc");
    let hcl = spec_for(LangId::Hcl);
    assert_eq!(comment_body("## hash note", hcl.line_prefixes, hcl.block_open, hcl.block_close), "# hash note");
    assert_eq!(comment_body("// slash note", hcl.line_prefixes, hcl.block_open, hcl.block_close), "slash note");
}

#[test]
fn tag_needs_a_reason_after_the_colon() {
    let tags = vec!["TRIPWIRE".to_string(), "CONTEXT".to_string()];
    assert!(is_tagged("TRIPWIRE: keeps the cache warm", &tags));
    assert!(is_tagged("CONTEXT:x", &tags));
    assert!(!is_tagged("TRIPWIRE:   ", &tags));
    assert!(!is_tagged("TRIPWIRE keeps", &tags));
    assert!(!is_tagged("tripwire: lower case", &tags));
    assert!(!is_tagged("note TRIPWIRE: later", &tags));
}

#[test]
fn directives_by_kind() {
    assert!(is_directive("shellcheck disable=SC2086"));
    assert!(is_directive("eslint-disable-next-line no-console"));
    assert!(is_directive("@ts-nocheck"));
    assert!(is_directive("clippy::needless_return"));
    assert!(is_directive("clippy"));
    assert!(is_directive("-*- coding: utf-8 -*-"));
    assert!(is_directive("webpackChunkName: \"admin\""));
    assert!(is_directive("global ace, jQuery:writable"));
    assert!(is_directive("globals $"));
    assert!(!is_directive("global config lives here"));
    assert!(!is_directive("global"));
    assert!(!is_directive("-*- mode: rust -*-"));
    assert!(!is_directive("plain prose"));
}

#[test]
fn attribute_paths_name_heads_and_last_segments() {
    assert_eq!(
        attribute_paths("#[derive(Serialize, uniffi::Record)]"),
        vec!["derive", "Serialize", "uniffi::Record", "Record"]
    );
    assert_eq!(attribute_paths("#![allow(dead_code)]"), vec!["allow", "dead_code"]);
    assert_eq!(attribute_paths("#[serde(rename = \"x\")]"), vec!["serde", "rename"]);
    assert!(attribute_paths("#[]").is_empty());
}

#[test]
fn code_tokens_leave_comments_out() {
    let a = code_tokens(LangId::Rust, "fn a() { 1 } // note\n").unwrap();
    let b = code_tokens(LangId::Rust, "fn a() { 1 }\n").unwrap();
    assert_eq!(a, b);
    let toks: Vec<String> = a.iter().map(|t| String::from_utf8(t.clone()).unwrap()).collect();
    assert_eq!(toks, vec!["fn", "a", "(", ")", "{", "1", "}"]);
}

#[test]
fn parse_reports_comments_in_file_order_with_their_shape() {
    let src = "/* block */\nfn a() {} // line\n/// doc\nfn b() {}\n";
    let parsed = parse(LangId::Rust, src, false, Config::empty().tags()).unwrap();
    assert!(!parsed.generated);
    assert!(parsed.unknown_spans.is_empty());
    let starts: Vec<usize> = parsed.comments.iter().map(|c| c.start_byte).collect();
    assert_eq!(starts, vec![0, 22, 30]);
    assert_eq!(parsed.comments[0].shape, CommentShape::Block);
    assert_eq!(parsed.comments[1].shape, CommentShape::Line);
    assert!(parsed.comments[2].is_doc);
    assert_eq!(parsed.comments[1].start_row, 1);
    assert_eq!(parsed.comments[1].text.trim_end(), "// line");
}

#[test]
fn parse_marks_generated_files() {
    let parsed = parse(LangId::Go, "// @generated by stringer\npackage p\n", false, Config::empty().tags()).unwrap();
    assert!(parsed.generated);
    let indented = parse(LangId::Go, "package p // @generated\n", false, Config::empty().tags()).unwrap();
    assert!(!indented.generated);
}

#[test]
fn parse_reports_opaque_nix_fragments() {
    let src = "{ description = ''\n  # prose\n''; }\n";
    let parsed = parse(LangId::Nix, src, false, Config::empty().tags()).unwrap();
    assert_eq!(parsed.unknown_spans.len(), 1);
    let (lo, hi) = parsed.unknown_spans[0];
    assert!(src[lo..hi].contains("# prose"));
    assert!(parsed.comments.is_empty());
}

#[test]
fn parse_finds_comments_of_embedded_scripts_with_their_script_row() {
    let src = "{ buildPhase = ''\n  make\n  # a note\n''; }\n";
    let parsed = parse(LangId::Nix, src, false, Config::empty().tags()).unwrap();
    assert_eq!(parsed.comments.len(), 1);
    let c = &parsed.comments[0];
    assert_eq!(c.text, "# a note");
    assert_eq!(c.start_row, 2);
    assert_eq!(c.start_col, 2);
    assert_eq!(c.embedded_script_row, Some(1));
    assert_eq!(&src[c.start_byte..c.end_byte], "# a note");
}

#[test]
fn parse_reports_error_regions_as_unknown() {
    let src = "fn main() { let = ; }\n";
    let parsed = parse(LangId::Rust, src, false, Config::empty().tags()).unwrap();
    assert!(!parsed.unknown_spans.is_empty());
}

#[test]
fn unclassified_hash_line_reported_with_its_row_and_text() {
    let src = "{ description = ''\n  # prose line   \n''; }\n";
    let report = process(LangId::Nix, src, false, &Config::empty(), false).unwrap();
    assert_eq!(report.unclassified, 1);
    assert_eq!(report.unclassified_lines, vec![(1, "# prose line".to_string())]);
}

#[test]
fn stripped_text_keeps_multibyte_characters() {
    let src = "fn f() {\n    let s = \"héllo\"; // señal\n    let t = 'ü';\n}\n";
    let report = process(LangId::Rust, src, false, &Config::empty(), true).unwrap();
    assert_eq!(
        report.new_source,
        Some("fn f() {\n    let s = \"héllo\";\n    let t = 'ü';\n}\n".to_string())
    );
}

#[test]
fn untagged_lines_report_first_line_trimmed() {
    let src = "fn f() {\n    /* first line   \n       second */\n}\n";
    let report = process(LangId::Rust, src, false, &Config::empty(), false).unwrap();
    assert_eq!(report.untagged_lines, vec![(1, "/* first line".to_string())]);
}

#[test]
fn template_and_markup_extensions_select_their_languages() {
    assert_eq!(LangId::from_extension("erb"), Some(LangId::Erb));
    assert_eq!(LangId::from_extension("mjml"), Some(LangId::Html));
    assert_eq!(LangId::from_extension("html"), Some(LangId::Html));
    assert_eq!(LangId::from_extension("rb"), Some(LangId::Ruby));
    assert_eq!(LangId::from_extension("scss"), Some(LangId::Scss));
    assert_eq!(lang_for_path("app/views/show.html.erb"), Some(LangId::Erb));
    assert_eq!(lang_for_path("mail.html.mjml"), Some(LangId::Html));
    assert_eq!(LangId::from_config_name("ruby"), Some(LangId::Ruby));
    assert_eq!(LangId::from_config_name("erb"), Some(LangId::Erb));
}

#[test]
fn global_lists_take_letters_and_digits_of_any_script() {
    assert!(is_directive("global café, x1, $el, _private"));
    assert!(is_directive("globals ñandú:readonly"));
    assert!(!is_directive("global a-b"));
    assert!(!is_directive("global a.b"));
}

#[test]
fn hook_receipt_writes_counts_in_decimal() {
    assert_eq!(
        hook_receipt("d.py", &report_with(10, 105, 9)),
        Some("comment-warden: stripped 10 untagged comment(s) from d.py, left 105 in place, 9 unclassified line(s)".to_string())
    );
    assert_eq!(
        hook_receipt("e.go", &report_with(1234567890, 0, 0)),
        Some("comment-warden: stripped 1234567890 untagged comment(s) from e.go".to_string())
    );
}
