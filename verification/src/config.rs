//! Per-repo settings: the tags that keep a comment, the comment openings and
//! paths that are exempt, the doc-comment surfaces, and the advice prompt.
use vstd::prelude::*;

use crate::lang::{spec_from_config_name, LangId};
use crate::text::{str_starts_with, strings_view};

verus! {

#[verifier::external_type_specification]
#[verifier::external_body]
pub struct ExGlob(globset::Glob);

#[verifier::external_type_specification]
#[verifier::external_body]
pub struct ExGlobSet(globset::GlobSet);

#[verifier::external_type_specification]
#[verifier::external_body]
pub struct ExGlobSetBuilder(globset::GlobSetBuilder);

#[verifier::external_type_specification]
#[verifier::external_body]
pub struct ExGlobError(globset::Error);

/// The advice prompt that steers a model toward tagged, load-bearing comments.
pub const DEFAULT_ADVICE: &'static str = "comment-warden is active.\n\nWrite a comment only when the code cannot say it itself. First reach for a clearer name, a type that makes the bad state impossible, or a test that fails loudly. Default to none. This applies to `///` doc comments too — an untagged `///` is deleted like any other comment, so don't add them.\n\nOnly two tags survive; everything else is deleted automatically after each write:\n- TRIPWIRE: name the future edit it prevents — e.g. `// TRIPWIRE: delete this sleep and retries hammer the server`.\n- CONTEXT: record a fact outside the code that no name or type can hold — an upstream bug, a wire-format quirk.\n\nUntagged comments vanish silently. Don't re-add them, and don't puzzle over a file that comes back without one.";

/// The name of the settings file.
pub const CONFIG_FILENAME: &'static str = "comment-warden.toml";

/// `GlobSet::clone`: a copy of the set. Nothing is claimed of the copy.
pub assume_specification[ <globset::GlobSet as Clone>::clone ](set: &globset::GlobSet) -> globset::GlobSet;

/// Whether `globset::Glob::new` accepts `pattern`.
pub uninterp spec fn glob_parses(pattern: Seq<char>) -> bool;

/// Whether `GlobSetBuilder::build` succeeds on globs of `patterns`.
pub uninterp spec fn globset_builds(patterns: Seq<Seq<char>>) -> bool;

/// Whether `GlobSet::is_match` holds for `path` in the set built from `patterns`.
pub uninterp spec fn glob_matches(patterns: Seq<Seq<char>>, path: Seq<char>) -> bool;

/// What `Path::strip_prefix` leaves of `path` after `base`, as text.
pub uninterp spec fn path_without_prefix(path: Seq<char>, base: Seq<char>) -> Option<Seq<char>>;

/// A parsed glob, with the pattern it was parsed from.
struct ParsedGlob {
    glob: globset::Glob,
    pattern: Ghost<Seq<char>>,
}

/// The globs added so far to a set under construction.
struct GlobList {
    builder: globset::GlobSetBuilder,
    patterns: Ghost<Seq<Seq<char>>>,
}

/// A built glob set, with the patterns it was built from.
#[derive(Clone)]
pub struct GlobMatcher {
    set: globset::GlobSet,
    patterns: Ghost<Seq<Seq<char>>>,
}

/// `globset::Glob::new`: parses a glob pattern. Contract: it succeeds exactly
/// when [`glob_parses`] says so, and the glob keeps its pattern.
#[verifier::external_body]
fn glob_new(pattern: &str) -> (r: Result<ParsedGlob, globset::Error>)
    ensures
        r is Ok <==> glob_parses(pattern@),
        r matches Ok(g) ==> g.pattern@ == pattern@,
{
    let glob = globset::Glob::new(pattern)?;
    Ok(ParsedGlob { glob, pattern: Ghost(pattern@) })
}

/// `GlobSetBuilder::new`: an empty builder.
#[verifier::external_body]
fn glob_list_new() -> (r: GlobList)
    ensures
        r.patterns@ == Seq::<Seq<char>>::empty(),
{
    GlobList { builder: globset::GlobSetBuilder::new(), patterns: Ghost(Seq::empty()) }
}

/// `GlobSetBuilder::add`: appends a glob to the builder's list.
#[verifier::external_body]
fn glob_list_add(list: &mut GlobList, g: ParsedGlob)
    ensures
        final(list).patterns@ == old(list).patterns@.push(g.pattern@),
{
    list.builder.add(g.glob);
    list.patterns = Ghost(list.patterns@.push(g.pattern@));
}

/// `GlobSetBuilder::build`: compiles the globs into a set. Contract: it
/// succeeds exactly when [`globset_builds`] says so, and the set keeps the
/// patterns it was built from.
#[verifier::external_body]
fn glob_list_build(list: &GlobList) -> (r: Result<GlobMatcher, globset::Error>)
    ensures
        r is Ok <==> globset_builds(list.patterns@),
        r matches Ok(m) ==> m.patterns@ == list.patterns@,
{
    let set = list.builder.build()?;
    Ok(GlobMatcher { set, patterns: Ghost(list.patterns@) })
}

/// `GlobSet::is_match`: whether a glob of the set matches `path`.
#[verifier::external_body]
fn glob_is_match(m: &GlobMatcher, path: &str) -> (r: bool)
    ensures
        r == glob_matches(m.patterns@, path@),
{
    m.set.is_match(path)
}

/// `Path::strip_prefix`: what is left of `path` after the leading components
/// of `base`, as text; `None` when `base` does not lead `path`.
#[verifier::external_body]
fn strip_path_prefix(path: &str, base: &str) -> (r: Option<String>)
    ensures
        match r {
            Some(s) => path_without_prefix(path@, base@) == Some(s@),
            None => path_without_prefix(path@, base@) is None,
        },
{
    match std::path::Path::new(path).strip_prefix(base) {
        Ok(rest) => Some(rest.to_string_lossy().into_owned()),
        Err(_) => None,
    }
}

/// A doc-comment surface: in `lang`, a doc comment is exempt when one of
/// `item_attributes` is on the item it documents or an item around it.
#[derive(Debug, Clone)]
pub struct DocSurfaceRule {
    pub lang: LangId,
    pub item_attributes: Vec<String>,
}

/// The settings as `comment-warden.toml` writes them, before any check.
pub struct RawConfig {
    pub advice: Option<String>,
    pub advice_file: Option<String>,
    pub tags: Option<Vec<String>>,
    pub exempt_patterns: Vec<String>,
    pub exempt_paths: Vec<String>,
    pub doc_surface: Vec<RawDocSurface>,
}

pub struct RawDocSurface {
    pub lang: String,
    pub item_attributes: Vec<String>,
}

/// The settings of a repo.
#[derive(Clone)]
pub struct Config {
    advice: Option<String>,
    advice_file: Option<String>,
    config_dir: Option<String>,
    tags: Vec<String>,
    exempt_patterns: Vec<String>,
    exempt_paths: Option<GlobMatcher>,
    pub doc_surface: Vec<DocSurfaceRule>,
}

pub struct DocSurfaceView {
    pub lang: LangId,
    pub item_attributes: Seq<Seq<char>>,
}

pub struct ConfigView {
    pub advice: Option<Seq<char>>,
    pub advice_file: Option<Seq<char>>,
    pub config_dir: Option<Seq<char>>,
    pub tags: Seq<Seq<char>>,
    pub exempt_patterns: Seq<Seq<char>>,
    pub exempt_paths: Option<Seq<Seq<char>>>,
    pub doc_surface: Seq<DocSurfaceView>,
}

pub open spec fn opt_string_view(o: Option<String>) -> Option<Seq<char>> {
    match o {
        Some(s) => Some(s@),
        None => None,
    }
}

impl View for DocSurfaceRule {
    type V = DocSurfaceView;

    open spec fn view(&self) -> DocSurfaceView {
        DocSurfaceView { lang: self.lang, item_attributes: strings_view(self.item_attributes@) }
    }
}

pub open spec fn rules_view(v: Seq<DocSurfaceRule>) -> Seq<DocSurfaceView> {
    v.map_values(|r: DocSurfaceRule| r@)
}

impl View for Config {
    type V = ConfigView;

    closed spec fn view(&self) -> ConfigView {
        ConfigView {
            advice: opt_string_view(self.advice),
            advice_file: opt_string_view(self.advice_file),
            config_dir: opt_string_view(self.config_dir),
            tags: strings_view(self.tags@),
            exempt_patterns: strings_view(self.exempt_patterns@),
            exempt_paths: match self.exempt_paths {
                Some(m) => Some(m.patterns@),
                None => None,
            },
            doc_surface: rules_view(self.doc_surface@),
        }
    }
}

/// Why the settings cannot be used.
#[derive(Debug)]
pub enum ConfigError {
    /// A `doc_surface` rule names a language the warden does not read.
    UnknownDocSurfaceLang(String),
    /// An `exempt_paths` entry is no glob.
    BadGlob(String),
    /// The `exempt_paths` globs do not build into one set.
    BadGlobSet,
}

/// Where the advice prompt comes from.
pub enum Advice {
    /// The prompt written in the settings.
    Inline(String),
    /// The file that holds the prompt, relative to the settings' directory
    /// when there is one.
    File { dir: Option<String>, path: String },
    /// The built-in prompt.
    Default(String),
}

pub open spec fn default_tags_view() -> Seq<Seq<char>> {
    seq!["TRIPWIRE"@, "CONTEXT"@]
}

/// The tags that keep a comment when the settings name none.
pub fn default_tags() -> (r: Vec<String>)
    ensures
        strings_view(r@) == default_tags_view(),
{
    let mut r: Vec<String> = Vec::new();
    r.push("TRIPWIRE".to_string());
    r.push("CONTEXT".to_string());
    assert(strings_view(r@) =~= default_tags_view());
    r
}

/// The first `n` rules turned into doc surfaces, or the name of the first of
/// them whose language is unknown.
pub open spec fn rules_upto(raw: Seq<(Seq<char>, Seq<Seq<char>>)>, n: int) -> Result<Seq<DocSurfaceView>, Seq<char>>
    decreases n,
{
    if n <= 0 {
        Ok(Seq::empty())
    } else {
        match rules_upto(raw, n - 1) {
            Err(name) => Err(name),
            Ok(done) => match spec_from_config_name(raw[n - 1].0) {
                Some(lang) => Ok(done.push(DocSurfaceView { lang, item_attributes: raw[n - 1].1 })),
                None => Err(raw[n - 1].0),
            },
        }
    }
}

/// The first `n` patterns parsed, or the first of them that is no glob.
pub open spec fn first_bad_glob(pats: Seq<Seq<char>>, n: int) -> Option<Seq<char>>
    decreases n,
{
    if n <= 0 {
        None
    } else {
        match first_bad_glob(pats, n - 1) {
            Some(p) => Some(p),
            None => if glob_parses(pats[n - 1]) {
                None
            } else {
                Some(pats[n - 1])
            },
        }
    }
}

pub open spec fn raw_rules_view(v: Seq<RawDocSurface>) -> Seq<(Seq<char>, Seq<Seq<char>>)> {
    v.map_values(|r: RawDocSurface| (r.lang@, strings_view(r.item_attributes@)))
}

pub open spec fn raw_tags_view(o: Option<Vec<String>>) -> Seq<Seq<char>> {
    match o {
        Some(v) => strings_view(v@),
        None => default_tags_view(),
    }
}

impl Config {
    /// The settings of a repo with no `comment-warden.toml`: the default tags
    /// and nothing exempt.
    pub fn empty() -> (r: Self)
        ensures
            r@ == (ConfigView {
                advice: None,
                advice_file: None,
                config_dir: None,
                tags: default_tags_view(),
                exempt_patterns: Seq::empty(),
                exempt_paths: None,
                doc_surface: Seq::empty(),
            }),
    {
        let r = Config {
            advice: None,
            advice_file: None,
            config_dir: None,
            tags: default_tags(),
            exempt_patterns: Vec::new(),
            exempt_paths: None,
            doc_surface: Vec::new(),
        };
        assert(strings_view(r.exempt_patterns@) =~= Seq::<Seq<char>>::empty());
        assert(rules_view(r.doc_surface@) =~= Seq::<DocSurfaceView>::empty());
        r
    }

    /// The tags that keep a comment.
    pub fn tags(&self) -> (r: &[String])
        ensures
            strings_view(r@) == self@.tags,
    {
        self.tags.as_slice()
    }

    /// Whether `body` opens with one of the exempt patterns.
    pub fn matches_exempt_pattern(&self, body: &str) -> (r: bool)
        ensures
            r == exists|k: int| 0 <= k < self@.exempt_patterns.len() && #[trigger] self@.exempt_patterns[k].is_prefix_of(body@),
    {
        let ghost ps = self@.exempt_patterns;
        let mut k: usize = 0;
        while k < self.exempt_patterns.len()
            invariant
                ps == strings_view(self.exempt_patterns@),
                ps == self@.exempt_patterns,
                k <= self.exempt_patterns@.len(),
                forall|m: int| 0 <= m < k ==> !(#[trigger] ps[m]).is_prefix_of(body@),
            decreases self.exempt_patterns@.len() - k,
        {
            if str_starts_with(body, self.exempt_patterns[k].as_str()) {
                assert(ps[k as int].is_prefix_of(body@));
                return true;
            }
            k = k + 1;
        }
        false
    }

    /// The doc-surface rules for `lang`, in order.
    pub fn doc_surface_for(&self, lang: LangId) -> (r: Vec<&DocSurfaceRule>)
        ensures
            r@.map_values(|x: &DocSurfaceRule| x@) == self@.doc_surface.filter(|d: DocSurfaceView| d.lang == lang),
    {
        let ghost all = self@.doc_surface;
        let mut out: Vec<&DocSurfaceRule> = Vec::new();
        let mut k: usize = 0;
        proof {
            reveal(Seq::filter);
        }
        assert(all.take(0).filter(|d: DocSurfaceView| d.lang == lang) =~= Seq::<DocSurfaceView>::empty());
        while k < self.doc_surface.len()
            invariant
                all == rules_view(self.doc_surface@),
                k <= self.doc_surface@.len(),
                out@.map_values(|x: &DocSurfaceRule| x@) == all.take(k as int).filter(|d: DocSurfaceView| d.lang == lang),
            decreases self.doc_surface@.len() - k,
        {
            let rule = &self.doc_surface[k];
            let ghost before = out@.map_values(|x: &DocSurfaceRule| x@);
            assert(all.take(k + 1).drop_last() =~= all.take(k as int));
            if rule.lang == lang {
                out.push(rule);
                assert(out@.map_values(|x: &DocSurfaceRule| x@) =~= before.push(rule@));
            }
            proof {
                reveal(Seq::filter);
                assert(all.take(k + 1).last() == all[k as int]);
            }
            k = k + 1;
        }
        assert(all.take(self.doc_surface@.len() as int) =~= all);
        out
    }

    /// Whether `path` is exempt: some `exempt_paths` glob matches it as
    /// written, without a leading `./`, or relative to `cwd`.
    pub fn path_is_exempt(&self, path: &str, cwd: Option<&str>) -> (r: bool)
        ensures
            r == match self@.exempt_paths {
                None => false,
                Some(ps) => glob_matches(ps, path@) || (match path_without_prefix(path@, "./"@) {
                    Some(p) => glob_matches(ps, p),
                    None => false,
                }) || (match cwd {
                    Some(c) => match path_without_prefix(path@, c@) {
                        Some(p) => glob_matches(ps, p),
                        None => false,
                    },
                    None => false,
                }),
            },
    {
        let globs = match &self.exempt_paths {
            Some(g) => g,
            None => return false,
        };
        if glob_is_match(globs, path) {
            return true;
        }
        match strip_path_prefix(path, "./") {
            Some(p) => {
                if glob_is_match(globs, p.as_str()) {
                    return true;
                }
            },
            None => {},
        }
        match cwd {
            Some(c) => match strip_path_prefix(path, c) {
                Some(p) => glob_is_match(globs, p.as_str()),
                None => false,
            },
            None => false,
        }
    }

    /// Where the advice prompt comes from: the inline prompt, else the prompt
    /// file, else the built-in prompt.
    pub fn advice(&self) -> (r: Advice)
        ensures
            match self@.advice {
                Some(a) => r matches Advice::Inline(s) && s@ == a,
                None => match self@.advice_file {
                    Some(f) => r matches Advice::File { dir, path } && path@ == f && opt_string_view(dir) == self@.config_dir,
                    None => r matches Advice::Default(s) && s@ == DEFAULT_ADVICE@,
                },
            },
    {
        match &self.advice {
            Some(a) => Advice::Inline(a.clone()),
            None => match &self.advice_file {
                Some(f) => Advice::File { dir: self.config_dir.clone(), path: f.clone() },
                None => Advice::Default(DEFAULT_ADVICE.to_string()),
            },
        }
    }

    /// The settings that `raw`, read from a file in `config_dir`, describes:
    /// the tags default when none are named; a `doc_surface` rule with an
    /// unknown language, then an `exempt_paths` entry that is no glob, or
    /// globs that do not build, make them unusable.
    pub fn from_raw(raw: RawConfig, config_dir: Option<String>) -> (r: Result<Config, ConfigError>)
        ensures
            match rules_upto(raw_rules_view(raw.doc_surface@), raw.doc_surface@.len() as int) {
                Err(name) => r matches Err(ConfigError::UnknownDocSurfaceLang(n)) && n@ == name,
                Ok(rules) => match first_bad_glob(strings_view(raw.exempt_paths@), raw.exempt_paths@.len() as int) {
                    Some(p) => r matches Err(ConfigError::BadGlob(q)) && q@ == p,
                    None => if raw.exempt_paths@.len() > 0 && !globset_builds(strings_view(raw.exempt_paths@)) {
                        r matches Err(ConfigError::BadGlobSet)
                    } else {
                        r matches Ok(c) && c@ == (ConfigView {
                            advice: opt_string_view(raw.advice),
                            advice_file: opt_string_view(raw.advice_file),
                            config_dir: opt_string_view(config_dir),
                            tags: raw_tags_view(raw.tags),
                            exempt_patterns: strings_view(raw.exempt_patterns@),
                            exempt_paths: if raw.exempt_paths@.len() > 0 {
                                Some(strings_view(raw.exempt_paths@))
                            } else {
                                None
                            },
                            doc_surface: rules,
                        })
                    },
                },
            },
    {
        let ghost rv = raw_rules_view(raw.doc_surface@);
        let mut doc_surface: Vec<DocSurfaceRule> = Vec::new();
        let n = raw.doc_surface.len();
        let mut k: usize = 0;
        let RawConfig { advice, advice_file, tags, exempt_patterns, exempt_paths, doc_surface: raw_rules } = raw;
        let mut rest = raw_rules;
        assert(rv.take(0) =~= Seq::<(Seq<char>, Seq<Seq<char>>)>::empty());
        assert(raw_rules_view(rest@) =~= rv.skip(0));
        assert(rules_view(doc_surface@) =~= Seq::<DocSurfaceView>::empty());
        while k < n
            invariant
                rv == raw_rules_view(raw.doc_surface@),
                n == rv.len(),
                k <= n,
                rest@.len() == n - k,
                raw_rules_view(rest@) == rv.skip(k as int),
                rules_upto(rv, k as int) == Ok::<Seq<DocSurfaceView>, Seq<char>>(rules_view(doc_surface@)),
            decreases n - k,
        {
            let ghost r0 = rest@;
            let rule = rest.remove(0);
            assert(rv[k as int] == raw_rules_view(r0)[0]);
            assert(raw_rules_view(rest@) =~= rv.skip(k + 1)) by {
                assert(rest@ =~= r0.subrange(1, r0.len() as int));
                assert forall|m: int| 0 <= m < rest@.len() implies #[trigger] raw_rules_view(rest@)[m] == rv.skip(k + 1)[m] by {
                    assert(raw_rules_view(r0)[m + 1] == rv.skip(k as int)[m + 1]);
                }
            }
            let RawDocSurface { lang: name, item_attributes } = rule;
            match LangId::from_config_name(name.as_str()) {
                Some(lang) => {
                    let ghost d0 = rules_view(doc_surface@);
                    doc_surface.push(DocSurfaceRule { lang, item_attributes });
                    assert(rules_view(doc_surface@) =~= d0.push(doc_surface@.last()@));
                },
                None => {
                    proof {
                        lemma_rules_error_stays(rv, k + 1, n as int);
                    }
                    return Err(ConfigError::UnknownDocSurfaceLang(name));
                },
            }
            k = k + 1;
        }
        let ghost pats = strings_view(exempt_paths@);
        let exempt = if exempt_paths.len() == 0 {
            None
        } else {
            let mut list = glob_list_new();
            let mut j: usize = 0;
            assert(pats.take(0) =~= Seq::<Seq<char>>::empty());
            while j < exempt_paths.len()
                invariant
                    pats == strings_view(exempt_paths@),
                    j <= exempt_paths@.len(),
                    first_bad_glob(pats, j as int) is None,
                    pats == strings_view(raw.exempt_paths@),
                    rules_upto(raw_rules_view(raw.doc_surface@), raw.doc_surface@.len() as int) == Ok::<Seq<DocSurfaceView>, Seq<char>>(rules_view(doc_surface@)),
                    list.patterns@ == pats.take(j as int),
                decreases exempt_paths@.len() - j,
            {
                match glob_new(exempt_paths[j].as_str()) {
                    Ok(g) => {
                        glob_list_add(&mut list, g);
                        assert(pats.take(j + 1) =~= pats.take(j as int).push(pats[j as int]));
                    },
                    Err(_) => {
                        proof {
                            lemma_bad_glob_stays(pats, j + 1, exempt_paths@.len() as int);
                        }
                        let bad = exempt_paths[j].clone();
                        assert(bad@ == pats[j as int]);
                        assert(first_bad_glob(pats, j + 1) == Some(pats[j as int]));
                        assert(pats.len() == raw.exempt_paths@.len());
                        assert(first_bad_glob(strings_view(raw.exempt_paths@), raw.exempt_paths@.len() as int) == Some(pats[j as int]));
                        assert(rules_upto(raw_rules_view(raw.doc_surface@), raw.doc_surface@.len() as int) is Ok);
                        return Err(ConfigError::BadGlob(bad));
                    },
                }
                j = j + 1;
            }
            assert(pats.take(exempt_paths@.len() as int) =~= pats);
            match glob_list_build(&list) {
                Ok(m) => Some(m),
                Err(_) => return Err(ConfigError::BadGlobSet),
            }
        };
        let tags = match tags {
            Some(t) => t,
            None => default_tags(),
        };
        Ok(Config { advice, advice_file, config_dir, tags, exempt_patterns, exempt_paths: exempt, doc_surface })
    }
}

proof fn lemma_rules_error_stays(raw: Seq<(Seq<char>, Seq<Seq<char>>)>, m: int, k: int)
    requires
        rules_upto(raw, m) is Err,
        m <= k,
    ensures
        rules_upto(raw, k) == rules_upto(raw, m),
    decreases k - m,
{
    if m < k {
        lemma_rules_error_stays(raw, m, k - 1);
    }
}

proof fn lemma_bad_glob_stays(pats: Seq<Seq<char>>, m: int, k: int)
    requires
        first_bad_glob(pats, m) is Some,
        m <= k,
    ensures
        first_bad_glob(pats, k) == first_bad_glob(pats, m),
    decreases k - m,
{
    if m < k {
        lemma_bad_glob_stays(pats, m, k - 1);
    }
}

} // verus!
