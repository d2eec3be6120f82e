use comment_warden::comment::{comment_body, CommentShape, Verdict};
use comment_warden::config::Config;
use comment_warden::lang::{spec_for, LangId};
use comment_warden::parse::{code_tokens, parse};
use comment_warden::strip::{build_blocks, deletion_span, process, FileReport};

fn run_strip(id: LangId, src: &str) -> FileReport {
    process(id, src, false, &Config::empty(), true).unwrap()
}

fn after_strip(id: LangId, src: &str) -> String {
    run_strip(id, src).new_source.unwrap_or_else(|| src.to_string())
}

const TAGGED_BODY: &str = "TRIPWIRE: this edit breaks something real";

fn rust_sample(inserts: &[u8]) -> String {
    let lines = [
        "fn main() {",
        "    let x = 1;",
        "    let s = \"COMMENT_LOOKALIKE\";",
        "    let _ = x;",
        "}",
    ];
    build(&lines, inserts, "//")
}

fn python_sample(inserts: &[u8]) -> String {
    let lines = ["def f():", "    x = 1", "    s = \"COMMENT_LOOKALIKE\"", "    return x"];
    build(&lines, inserts, "#")
}

fn go_sample(inserts: &[u8]) -> String {
    let lines = [
        "package main",
        "func f() int {",
        "\tx := 1",
        "\ts := \"COMMENT_LOOKALIKE\"",
        "\t_ = s",
        "\treturn x",
        "}",
    ];
    build(&lines, inserts, "//")
}

fn build(lines: &[&str], inserts: &[u8], p: &str) -> String {
    let mut out = String::new();
    for (line, insert) in lines.iter().zip(inserts.iter().cycle()) {
        match insert {
            0 => {
                out.push_str(p);
                out.push_str(" ordinary prose here\n");
                out.push_str(line);
                out.push('\n');
            }
            1 => {
                out.push_str(p);
                out.push(' ');
                out.push_str(TAGGED_BODY);
                out.push('\n');
                out.push_str(line);
                out.push('\n');
            }
            2 => {
                let injected = line.replace(
                    "COMMENT_LOOKALIKE",
                    "// TRIPWIRE: this looks like a comment but is inside a string",
                );
                out.push_str(&injected);
                out.push('\n');
            }
            _ => {
                out.push_str(line);
                out.push('\n');
            }
        }
    }
    out
}

fn samples() -> Vec<(LangId, String)> {
    let mixes: [&[u8]; 5] = [&[0], &[1], &[0, 1, 2], &[2, 0, 3, 1], &[3, 3, 0, 0, 1]];
    let mut out = Vec::new();
    for m in mixes {
        out.push((LangId::Rust, rust_sample(m)));
        out.push((LangId::Python, python_sample(m)));
        out.push((LangId::Go, go_sample(m)));
    }
    out
}

#[test]
fn stripping_keeps_code_tokens_on_mixed_samples() {
    for (id, src) in samples() {
        let out = after_strip(id, &src);
        assert_eq!(code_tokens(id, &out).unwrap(), code_tokens(id, &src).unwrap());
    }
}

#[test]
fn stripping_twice_changes_nothing_more() {
    for (id, src) in samples() {
        let once = after_strip(id, &src);
        let twice = after_strip(id, &once);
        assert_eq!(once, twice);
    }
}

#[test]
fn recheck_after_strip_finds_only_what_was_left() {
    for (id, src) in samples() {
        let stripped = after_strip(id, &src);
        let recheck = process(id, &stripped, false, &Config::empty(), false).unwrap();
        assert_eq!(recheck.untagged_found - recheck.left_in_place, 0);
    }
}

#[test]
fn tagged_comment_count_survives_stripping() {
    for (id, src) in samples() {
        let out = after_strip(id, &src);
        assert_eq!(src.matches(TAGGED_BODY).count(), out.matches(TAGGED_BODY).count());
    }
}

#[test]
fn tag_below_an_untagged_leader_survives() {
    for (id, p, body) in [
        (LangId::Rust, "//", rust_sample(&[3])),
        (LangId::Python, "#", python_sample(&[3])),
        (LangId::Go, "//", go_sample(&[3])),
    ] {
        let src = format!("{p} GATE_PROBE untagged sentinel\n{p} {TAGGED_BODY}\n{body}");
        let out = after_strip(id, &src);
        assert!(out.contains(TAGGED_BODY));
        assert!(!out.contains("GATE_PROBE untagged sentinel"));
    }
}

#[test]
fn check_mode_never_rewrites() {
    let src = "// plain note\nfn main() {}\n";
    let report = process(LangId::Rust, src, false, &Config::empty(), false).unwrap();
    assert_eq!(report.untagged_found, 1);
    assert_eq!(report.stripped, 0);
    assert_eq!(report.left_in_place, 0);
    assert!(report.new_source.is_none());
}

#[test]
fn generated_file_reports_nothing_even_when_stripping() {
    let src = "// @generated by a tool\n// plain note\nfn main() {}\n";
    let report = run_strip(LangId::Rust, src);
    assert_eq!(report.untagged_found, 0);
    assert_eq!(report.unclassified, 0);
    assert!(report.untagged_lines.is_empty());
    assert!(report.new_source.is_none());
}

#[test]
fn every_untagged_block_is_stripped_or_left() {
    let src = "{ pkgs }:\n# nix note\n{ buildPhase = ''\n  # shell note\n''; }\n";
    let report = run_strip(LangId::Nix, src);
    assert_eq!(report.untagged_found, 2);
    assert_eq!(report.stripped + report.left_in_place, report.untagged_found);
    assert_eq!(report.left_lines.len(), report.left_in_place);
    assert_eq!(report.stripped, 1);
    assert_eq!(report.left_in_place, 1);
}

#[test]
fn block_under_untagged_leader_stops_at_a_tag() {
    let src = "// first plain line\n// second plain line\n// CONTEXT: a fact\n// third plain line\nfn main() {}\n";
    let report = run_strip(LangId::Rust, src);
    assert_eq!(report.untagged_found, 1);
    assert_eq!(
        report.new_source,
        Some("// CONTEXT: a fact\n// third plain line\nfn main() {}\n".to_string())
    );
}

#[test]
fn exempt_leader_absorbs_nothing() {
    let src = "#!/usr/bin/env bash\n# plain note\necho hi\n";
    let report = run_strip(LangId::Bash, src);
    assert_eq!(report.untagged_found, 1);
    assert_eq!(report.new_source, Some("#!/usr/bin/env bash\necho hi\n".to_string()));
}

#[test]
fn doc_comment_without_rules_is_judged() {
    let src = "/// a doc line\npub fn f() {}\n";
    let report = run_strip(LangId::Rust, src);
    assert_eq!(report.untagged_found, 1);
    assert_eq!(report.new_source, Some("pub fn f() {}\n".to_string()));
}

#[test]
fn module_doc_is_judged_in_a_test_target_only() {
    let src = "//! crate docs\nfn main() {}\n";
    let app = process(LangId::Rust, src, false, &Config::empty(), false).unwrap();
    let test = process(LangId::Rust, src, true, &Config::empty(), false).unwrap();
    assert_eq!(app.untagged_found, 0);
    assert_eq!(test.untagged_found, 1);
}

#[test]
fn stripping_keeps_code_tokens_in_every_language() {
    let cases = [
        (LangId::Rust, "// c\nfn a() { let x = 1; } // t\n"),
        (LangId::Swift, "// c\nlet x = 1 // t\n"),
        (LangId::Nix, "# c\n{ a = 1; } # t\n"),
        (LangId::Bash, "# c\necho hi # t\n"),
        (LangId::Hcl, "# c\nresource \"a\" \"b\" {}\n"),
        (LangId::Python, "# c\ndef f():\n    return 1  # t\n"),
        (LangId::TypeScript, "// c\nconst x: number = 1; // t\n"),
        (LangId::JavaScript, "/* c */\nconst x = 1; // t\n"),
        (LangId::Go, "// c\npackage main\n"),
        (LangId::C, "/* c */\nint x = 1; // t\n"),
        (LangId::Cpp, "// c\nint x = 1; /* t */\n"),
        (LangId::Yaml, "# c\na: 1 # t\n"),
        (LangId::Toml, "# c\na = 1 # t\n"),
        (LangId::Css, "/* c */\na { color: red; }\n"),
    ];
    for (id, src) in cases {
        let report = run_strip(id, src);
        assert!(report.stripped >= 1, "nothing stripped for {id:?}");
        let out = report.new_source.unwrap();
        assert_eq!(code_tokens(id, &out).unwrap(), code_tokens(id, src).unwrap());
    }
}

#[test]
fn report_counts_its_own_lines() {
    for (id, src) in samples() {
        for apply in [false, true] {
            let r = process(id, &src, false, &Config::empty(), apply).unwrap();
            assert_eq!(r.untagged_lines.len(), r.untagged_found);
            assert_eq!(r.left_lines.len(), r.left_in_place);
            assert_eq!(r.unclassified_lines.len(), r.unclassified);
            if apply {
                assert_eq!(r.stripped + r.left_in_place, r.untagged_found);
            } else {
                assert_eq!((r.stripped, r.left_in_place, r.new_source.is_none()), (0, 0, true));
            }
            assert_eq!(r.new_source.is_some(), r.stripped > 0);
            assert_ne!(r.new_source.as_deref(), Some(src.as_str()));
        }
    }
}

#[test]
fn comment_bodies_are_trimmed_pieces_of_their_text() {
    let rust = spec_for(LangId::Rust);
    for text in ["/// x", "//! x", "  //   x  ", "/** x */", "/*! x */", "x", "   x\t"] {
        let body = comment_body(text, rust.line_prefixes, rust.block_open, rust.block_close);
        assert_eq!(body, "x", "text {text:?}");
        assert!(text.contains(body));
        assert_eq!(body.trim(), body);
    }
    let py = spec_for(LangId::Python);
    assert_eq!(comment_body("  plain words ", py.line_prefixes, py.block_open, py.block_close), "plain words");
}

#[test]
fn blocks_split_the_comments_into_runs() {
    let src = "// a\n// b\nfn f() {} // c\n// TRIPWIRE: keep this\n// d\n/* e */\n";
    let p = parse(LangId::Rust, src, false, &[]).unwrap();
    let starts: Vec<usize> = p.comments.iter().map(|c| c.start_byte).collect();
    let mut sorted = starts.clone();
    sorted.sort();
    assert_eq!(starts, sorted);
    for c in &p.comments {
        assert_eq!(&src[c.start_byte..c.end_byte], c.text);
    }
    let blocks = build_blocks(LangId::Rust, src.as_bytes(), &p.comments, false, &Config::empty());
    let firsts: Vec<usize> = blocks.iter().map(|b| b.start_byte).collect();
    let ends: Vec<usize> = blocks.iter().map(|b| b.end_byte).collect();
    let cs = &p.comments;
    assert_eq!(firsts, vec![cs[0].start_byte, cs[2].start_byte, cs[3].start_byte, cs[5].start_byte]);
    assert_eq!(ends, vec![cs[1].end_byte, cs[2].end_byte, cs[4].end_byte, cs[5].end_byte]);
    assert_eq!(blocks[2].verdict, Verdict::Tagged);
}

#[test]
fn a_deletion_takes_only_whitespace_around_its_block() {
    let src = "fn f() {}   // trailing\n    // whole line\nfn g() {}\n/* lead */  fn h() {}\n";
    let p = parse(LangId::Rust, src, false, &[]).unwrap();
    let blocks = build_blocks(LangId::Rust, src.as_bytes(), &p.comments, false, &Config::empty());
    assert_eq!(blocks.len(), 3);
    let taken: Vec<String> = blocks
        .iter()
        .map(|b| {
            let (s, e) = deletion_span(src.as_bytes(), b).unwrap();
            assert!(src[s..b.start_byte].trim().is_empty());
            assert!(src[b.end_byte..e].trim().is_empty());
            src[s..e].to_string()
        })
        .collect();
    assert_eq!(taken[0].trim_end_matches('\n'), "   // trailing");
    assert_eq!(taken[1], "    // whole line\n");
    assert_eq!(taken[2], "/* lead */  ");
}

#[test]
fn unclassified_lines_come_once_per_row_in_order() {
    let src = "{\n  a = ''\n    # first prose line\n    plain\n    # second prose line\n    # TRIPWIRE: judged\n  '';\n}\n";
    let r = process(LangId::Nix, src, false, &Config::empty(), false).unwrap();
    let rows: Vec<usize> = r.unclassified_lines.iter().map(|(row, _)| *row).collect();
    assert_eq!(rows, vec![2, 4]);
    assert_eq!(r.unclassified_lines[0].1, "# first prose line");
    assert_eq!(r.unclassified, 2);
    let plain = process(LangId::Rust, "// a note\nfn main() {}\n", false, &Config::empty(), false).unwrap();
    assert!(plain.unclassified_lines.is_empty());
}

#[test]
fn text_no_deletion_touches_survives_intact() {
    let src = "// plain one\nfn a() {} // plain two\n// TRIPWIRE: the order below is load-bearing\nfn b() {}\n    /* plain three */ fn c() {}\n";
    let p = parse(LangId::Rust, src, false, &[]).unwrap();
    let blocks = build_blocks(LangId::Rust, src.as_bytes(), &p.comments, false, &Config::empty());
    let mut spans: Vec<(usize, usize)> = blocks
        .iter()
        .filter(|b| b.verdict == Verdict::Untagged)
        .map(|b| deletion_span(src.as_bytes(), b).unwrap())
        .collect();
    spans.reverse();
    for w in spans.windows(2) {
        assert!(w[1].1 < w[0].0, "spans {spans:?}");
    }
    let tag = p.comments.iter().find(|c| c.text.contains("TRIPWIRE")).unwrap();
    for (s, e) in &spans {
        assert!(tag.end_byte <= *s || *e <= tag.start_byte);
    }
    let out = after_strip(LangId::Rust, src);
    assert!(out.contains(&src[tag.start_byte..tag.end_byte]));
    assert!(!out.contains("plain"));
    assert!(out.starts_with("fn a() {}"));
}

#[test]
fn embedded_script_comments_land_on_their_own_lines() {
    let src = "{ pkgs }:\n{\n  script = ''\n    #!/bin/bash\n    # embedded comment\n    echo hi # after code\n  '';\n}\n";
    let p = parse(LangId::Nix, src, false, &[]).unwrap();
    let embedded: Vec<_> = p.comments.iter().filter(|c| c.embedded_script_row.is_some()).collect();
    assert!(!embedded.is_empty());
    let line_starts: Vec<usize> =
        std::iter::once(0).chain(src.match_indices('\n').map(|(i, _)| i + 1)).collect();
    for c in embedded {
        assert_eq!(c.start_row, c.end_row);
        assert_eq!(c.shape, CommentShape::Line);
        assert!(!c.is_doc && !c.in_macro && c.enclosing_attributes.is_empty());
        assert!(c.start_byte < c.end_byte);
        assert_eq!(&src[c.start_byte..c.end_byte], c.text);
        let ls = line_starts[c.start_row];
        assert!(ls <= c.start_byte);
        assert_eq!(c.start_col, c.start_byte - ls);
        assert!(!src[c.start_byte..c.end_byte].contains('\n'));
        assert_eq!(c.embedded_script_row, Some(3));
    }
    let texts: Vec<&str> = p.comments.iter().map(|c| c.text.as_str()).collect();
    assert!(texts.contains(&"# embedded comment"));
    assert!(texts.contains(&"# after code"));
}

#[test]
fn doc_markers_go_with_the_line_prefix() {
    let rust = spec_for(LangId::Rust);
    for text in ["/// x", "//! x", "//// x", "//!/ x", "// x"] {
        assert_eq!(comment_body(text, rust.line_prefixes, rust.block_open, rust.block_close), "x", "text {text:?}");
    }
}

#[test]
fn code_tokens_are_slices_of_the_text_in_order() {
    let src = "fn a(x: u8) -> u8 { x + 1 } // note\n/* b */ fn b() {}\n";
    let tokens = code_tokens(LangId::Rust, src).unwrap();
    assert!(!tokens.is_empty());
    let bytes = src.as_bytes();
    let mut at = 0usize;
    for t in &tokens {
        assert!(!t.is_empty());
        let found = (at..=bytes.len() - t.len()).find(|&i| &bytes[i..i + t.len()] == t.as_slice());
        let i = found.expect("token in order");
        at = i + t.len();
    }
    assert!(tokens.iter().all(|t| !t.starts_with(b"//") && !t.starts_with(b"/*")));
}

#[test]
fn test_target_comments_carry_no_attributes() {
    let src = "/// docs\n#[derive(SimpleObject)]\npub struct T;\n";
    let p = parse(LangId::Rust, src, true, &[]).unwrap();
    assert!(!p.comments.is_empty());
    assert!(p.comments.iter().all(|c| c.enclosing_attributes.is_empty()));
}

#[test]
fn only_python_heredocs_give_embedded_comments() {
    let src = "{ pkgs }:\n{\n  script = ''\n    cat <<EOF\n    # not a comment\n    EOF\n    python3 <<EOF\n    # a python note\n    EOF\n  '';\n}\n";
    let p = parse(LangId::Nix, src, false, &[]).unwrap();
    let texts: Vec<&str> = p.comments.iter().map(|c| c.text.as_str()).collect();
    assert!(texts.iter().any(|t| t.contains("a python note")), "{texts:?}");
    assert!(!texts.iter().any(|t| t.contains("not a comment")), "{texts:?}");
}
