use comment_warden::config::Config;
use comment_warden::lang::LangId;
use comment_warden::parse::code_tokens;
use comment_warden::strip::{process, FileReport};

const RUST_STRINGS: &str = r###"//! TRIPWIRE: this module's raw strings are load-bearing test fixtures for the comment-tagging tool itself — do not "clean up" the // lines inside them

/// This doc comment carries no tag and must still survive stripping — it is
/// protected because async-graphql copies it into the SDL, not because of a tag.
#[derive(SimpleObject)]
pub struct BuiltQuery {
    sql: String,
}

pub fn build_query() -> &'static str {
    r#"
    // this looks like a comment but is SQL-adjacent fixture text inside a raw string
    #!/not/a/real/shebang/either
    SELECT 1;
    "#
}

fn describe() -> &'static str {
    "see https://example.com // this is part of the string, not a comment"
}

// this line explains nothing that the code doesn't already say

// TRIPWIRE: a tagged line keeps the continuation lines below it
// this second line is part of that note and survives with the tag above it

fn main() {
    let _ = build_query();
    let _ = describe(); // trailing untagged comment
}
"###;

fn strip_fixture(id: LangId, src: &str) -> (String, FileReport) {
    let report = process(id, src, false, &Config::empty(), true).unwrap();
    let out = report.new_source.clone().unwrap_or_else(|| src.to_string());
    assert_eq!(
        code_tokens(id, &out).unwrap(),
        code_tokens(id, src).unwrap(),
        "projection changed stripping the sample"
    );
    (out, report)
}

#[test]
fn rust_strings_fixture_keeps_strings_and_tags() {
    let (out, report) = strip_fixture(LangId::Rust, RUST_STRINGS);
    assert!(out.contains("// this looks like a comment but is SQL-adjacent"));
    assert!(out.contains("//! TRIPWIRE:"));
    assert!(out.contains("// TRIPWIRE: a tagged line keeps the continuation lines below it"));
    assert!(
        out.contains("this second line is part of that note and survives with the tag above it")
    );
    assert!(!out.contains("this line explains nothing that the code doesn't already say"));
    assert!(!out.contains("// trailing untagged comment"));
    assert!(report.stripped >= 1);
}
