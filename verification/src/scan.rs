//! A run over many files: which files are read, what the run totals come to,
//! and the exit code that the totals give.
use vstd::prelude::*;
use vstd::string::StringExecFns;

use crate::config::opt_string_view;
use crate::lang::{spec_from_extension, LangId};
use crate::strip::{FileReport, ReportView};
use crate::text::{chars_of, skip_end, skip_start, str_ends_with, str_eq, strings_view, CharClass};

verus! {

/// How a run ended. A run that could not complete is an error, not an outcome.
#[derive(Debug, Clone, Copy, PartialEq, Eq, Structural)]
pub enum Outcome {
    Clean,
    Violations,
    NothingScanned,
}

impl Outcome {
    /// The process exit code of an outcome: 0 clean, 1 violations, 2 nothing
    /// scanned.
    pub fn exit_code(self) -> (r: i32)
        ensures
            r == match self {
                Outcome::Clean => 0i32,
                Outcome::Violations => 1i32,
                Outcome::NothingScanned => 2i32,
            },
    {
        match self {
            Outcome::Clean => 0,
            Outcome::Violations => 1,
            Outcome::NothingScanned => 2,
        }
    }
}

/// Whether a run only reports or also strips.
#[derive(Debug, Clone, Copy, PartialEq, Eq, Structural)]
pub enum Mode {
    Check,
    Strip,
}

impl Mode {
    /// Whether a run in this mode rewrites files.
    pub fn applies(self) -> (r: bool)
        ensures
            r == (self == Mode::Strip),
    {
        match self {
            Mode::Check => false,
            Mode::Strip => true,
        }
    }
}

/// The totals of a run, with the report of each file read.
#[derive(Debug)]
pub struct RunTotals {
    pub scanned: usize,
    pub stripped: usize,
    pub left_in_place: usize,
    pub untagged_found: usize,
    pub unclassified: usize,
    pub reports: Vec<(String, FileReport)>,
}

/// The outcome that a run's counts give: nothing scanned, else violations
/// while an untagged comment remains unstripped, one was left in place, or a
/// line is unclassified, else clean.
pub open spec fn spec_outcome(scanned: int, stripped: int, left_in_place: int, untagged_found: int, unclassified: int) -> Outcome {
    if scanned == 0 {
        Outcome::NothingScanned
    } else if untagged_found > stripped || left_in_place > 0 || unclassified > 0 {
        Outcome::Violations
    } else {
        Outcome::Clean
    }
}

impl Default for RunTotals {
    fn default() -> (r: Self)
        ensures
            r.scanned == 0 && r.stripped == 0 && r.left_in_place == 0 && r.untagged_found == 0
                && r.unclassified == 0 && r.reports@.len() == 0,
    {
        RunTotals::new()
    }
}

impl RunTotals {
    /// Totals of a run that has read nothing yet.
    pub fn new() -> (r: Self)
        ensures
            r.scanned == 0 && r.stripped == 0 && r.left_in_place == 0 && r.untagged_found == 0
                && r.unclassified == 0 && r.reports@.len() == 0,
    {
        RunTotals {
            scanned: 0,
            stripped: 0,
            left_in_place: 0,
            untagged_found: 0,
            unclassified: 0,
            reports: Vec::new(),
        }
    }

    /// The outcome of the run (see [`spec_outcome`]).
    pub fn outcome(&self) -> (r: Outcome)
        ensures
            r == spec_outcome(
                self.scanned as int,
                self.stripped as int,
                self.left_in_place as int,
                self.untagged_found as int,
                self.unclassified as int,
            ),
    {
        if self.scanned == 0 {
            return Outcome::NothingScanned;
        }
        let remaining = if self.untagged_found > self.stripped {
            self.untagged_found - self.stripped
        } else {
            0
        };
        if remaining > 0 || self.left_in_place > 0 || self.unclassified > 0 {
            Outcome::Violations
        } else {
            Outcome::Clean
        }
    }

    /// Adds the report of a file read at `path` to the totals.
    pub fn record(&mut self, path: String, report: FileReport)
        requires
            old(self).scanned < usize::MAX,
            old(self).stripped + report.stripped <= usize::MAX,
            old(self).left_in_place + report.left_in_place <= usize::MAX,
            old(self).untagged_found + report.untagged_found <= usize::MAX,
            old(self).unclassified + report.unclassified <= usize::MAX,
        ensures
            final(self).scanned == old(self).scanned + 1,
            final(self).stripped == old(self).stripped + report.stripped,
            final(self).left_in_place == old(self).left_in_place + report.left_in_place,
            final(self).untagged_found == old(self).untagged_found + report.untagged_found,
            final(self).unclassified == old(self).unclassified + report.unclassified,
            final(self).reports@.len() == old(self).reports@.len() + 1,
            final(self).reports@.last().0@ == path@,
            final(self).reports@.last().1@ == report@,
            final(self).reports@.drop_last() == old(self).reports@,
    {
        self.scanned = self.scanned + 1;
        self.stripped = self.stripped + report.stripped;
        self.left_in_place = self.left_in_place + report.left_in_place;
        self.untagged_found = self.untagged_found + report.untagged_found;
        self.unclassified = self.unclassified + report.unclassified;
        self.reports.push((path, report));
    }
}

/// The last component of a path (`Path::file_name`), as text.
pub uninterp spec fn path_file_name(path: Seq<char>) -> Option<Seq<char>>;

/// The extension of a path (`Path::extension`), as text.
pub uninterp spec fn path_extension(path: Seq<char>) -> Option<Seq<char>>;

/// The stem of a path's file name (`Path::file_stem`), as text.
pub uninterp spec fn path_file_stem(path: Seq<char>) -> Option<Seq<char>>;

/// The components of a path (`Path::components`), each as text.
pub uninterp spec fn path_components(path: Seq<char>) -> Seq<Seq<char>>;

/// `Path::file_name`, as text.
#[verifier::external_body]
fn file_name_of(path: &str) -> (r: Option<String>)
    ensures
        opt_string_view(r) == path_file_name(path@),
{
    match std::path::Path::new(path).file_name() {
        Some(n) => Some(n.to_string_lossy().into_owned()),
        None => None,
    }
}

/// `Path::extension`, as text.
#[verifier::external_body]
fn extension_of(path: &str) -> (r: Option<String>)
    ensures
        opt_string_view(r) == path_extension(path@),
{
    match std::path::Path::new(path).extension() {
        Some(n) => Some(n.to_string_lossy().into_owned()),
        None => None,
    }
}

/// `Path::file_stem`, as text.
#[verifier::external_body]
fn file_stem_of(path: &str) -> (r: Option<String>)
    ensures
        opt_string_view(r) == path_file_stem(path@),
{
    match std::path::Path::new(path).file_stem() {
        Some(n) => Some(n.to_string_lossy().into_owned()),
        None => None,
    }
}

/// `Path::components`, each as text.
#[verifier::external_body]
fn components_of(path: &str) -> (r: Vec<String>)
    ensures
        strings_view(r@) == path_components(path@),
{
    let mut out = Vec::new();
    for c in std::path::Path::new(path).components() {
        out.push(c.as_os_str().to_string_lossy().into_owned());
    }
    out
}

/// The directories a walk never enters.
pub open spec fn ignored_dir_names() -> Seq<Seq<char>> {
    seq![".git"@, ".build"@, ".direnv"@, "target"@, "node_modules"@, "result"@, "DerivedData"@]
}

/// Whether `path` names a directory that a walk never enters: version
/// control, build output and dependency caches.
pub fn is_ignored_dir(path: &str) -> (r: bool)
    ensures
        r == match path_file_name(path@) {
            Some(n) => ignored_dir_names().contains(n),
            None => false,
        },
{
    let name = match file_name_of(path) {
        Some(n) => n,
        None => return false,
    };
    let names = [".git", ".build", ".direnv", "target", "node_modules", "result", "DerivedData"];
    let mut k: usize = 0;
    while k < 7
        invariant
            k <= 7,
            names@ == seq![".git", ".build", ".direnv", "target", "node_modules", "result", "DerivedData"],
            path_file_name(path@) == Some(name@),
            forall|m: int| 0 <= m < k ==> ignored_dir_names()[m] != name@,
        decreases 7 - k,
    {
        if str_eq(name.as_str(), names[k]) {
            assert(ignored_dir_names()[k as int] == name@);
            return true;
        }
        k = k + 1;
    }
    assert(!ignored_dir_names().contains(name@));
    false
}

/// The extension of `path`, which selects its language.
pub fn ext_of(path: &str) -> (r: Option<String>)
    ensures
        opt_string_view(r) == path_extension(path@),
{
    extension_of(path)
}

/// The language of the file at `path`, chosen by its extension; `None` for
/// a file the warden does not read.
pub fn lang_for_path(path: &str) -> (r: Option<LangId>)
    ensures
        r == match path_extension(path@) {
            Some(e) => spec_from_extension(e),
            None => None,
        },
{
    match extension_of(path) {
        Some(e) => LangId::from_extension(e.as_str()),
        None => None,
    }
}

pub open spec fn test_dir_names() -> Seq<Seq<char>> {
    seq!["tests"@, "test"@, "__tests__"@]
}

/// A file of a test target: under a `tests`, `test` or `__tests__`
/// directory, or with a stem that ends in `_test`, `.test` or `_tests`.
pub open spec fn spec_is_test_target(path: Seq<char>) -> bool {
    (exists|k: int| 0 <= k < path_components(path).len() && test_dir_names().contains(
        #[trigger] path_components(path)[k],
    )) || match path_file_stem(path) {
        Some(s) => "_test"@.is_suffix_of(s) || ".test"@.is_suffix_of(s) || "_tests"@.is_suffix_of(s),
        None => false,
    }
}

/// Whether `path` is a file of a test target (see [`spec_is_test_target`]).
pub fn is_test_target(path: &str) -> (r: bool)
    ensures
        r == spec_is_test_target(path@),
{
    let comps = components_of(path);
    let ghost cv = strings_view(comps@);
    let dirs = ["tests", "test", "__tests__"];
    let mut k: usize = 0;
    while k < comps.len()
        invariant
            cv == strings_view(comps@),
            cv == path_components(path@),
            dirs@ == seq!["tests", "test", "__tests__"],
            k <= comps@.len(),
            forall|m: int| 0 <= m < k ==> !test_dir_names().contains(#[trigger] cv[m]),
        decreases comps@.len() - k,
    {
        let c = comps[k].as_str();
        let hit = str_eq(c, dirs[0]) || str_eq(c, dirs[1]) || str_eq(c, dirs[2]);
        proof {
            if test_dir_names().contains(cv[k as int]) {
                let j = choose|j: int| 0 <= j < 3 && test_dir_names()[j] == cv[k as int];
                assert(j == 0 || j == 1 || j == 2);
            }
        }
        if hit {
            assert(test_dir_names()[0] == dirs[0]@);
            assert(test_dir_names()[1] == dirs[1]@);
            assert(test_dir_names()[2] == dirs[2]@);
            assert(test_dir_names().contains(cv[k as int]));
            assert(cv.len() == comps@.len());
            assert(test_dir_names().contains(path_components(path@)[k as int]));
            return true;
        }
        k = k + 1;
    }
    match file_stem_of(path) {
        Some(s) => {
            let a = str_ends_with(s.as_str(), "_test");
            let b = str_ends_with(s.as_str(), ".test");
            let c = str_ends_with(s.as_str(), "_tests");
            a || b || c
        },
        None => {
            assert(!(exists|k: int| 0 <= k < comps@.len() && test_dir_names().contains(#[trigger] cv[k])));
            false
        },
    }
}

/// The entries of an exclusion list: each line trimmed, empty lines and `#`
/// comments dropped.
pub open spec fn entries_from(text: Seq<char>, p: int) -> Seq<Seq<char>>
    decreases text.len() - p,
{
    if p < 0 || p > text.len() {
        Seq::empty()
    } else {
        let e = crate::text::newline_index(text, p);
        let line = crate::text::trim(text.subrange(p, e));
        let here = if line.len() == 0 || "#"@.is_prefix_of(line) {
            Seq::empty()
        } else {
            seq![line]
        };
        if p <= e < text.len() {
            here + entries_from(text, e + 1)
        } else {
            here
        }
    }
}

/// The paths an exclusion list names (see [`entries_from`]).
pub fn exclude_entries(text: &str) -> (r: Vec<String>)
    ensures
        strings_view(r@) == entries_from(text@, 0),
{
    let v = chars_of(text);
    let n = v.len();
    let mut out: Vec<String> = Vec::new();
    let mut p: usize = 0;
    assert(strings_view(out@) =~= Seq::<Seq<char>>::empty());
    loop
        invariant
            v@ == text@,
            n == v@.len(),
            p <= n,
            strings_view(out@) + entries_from(v@, p as int) == entries_from(v@, 0),
        decreases n - p,
    {
        let mut e = p;
        while e < n && v[e] != '\n'
            invariant
                p <= e <= n == v@.len(),
                crate::text::newline_index(v@, p as int) == crate::text::newline_index(v@, e as int),
            decreases n - e,
        {
            e = e + 1;
        }
        let a = skip_start(&v, p, e, CharClass::Space);
        let b = skip_end(&v, a, e, CharClass::Space);
        assert(v@.subrange(a as int, b as int) == crate::text::trim(v@.subrange(p as int, e as int)));
        let ghost o0 = strings_view(out@);
        if a < b && v[a] != '#' {
            let entry = crate::parse::window_of(text, &v, a, b);
            out.push(entry);
            assert(strings_view(out@) =~= o0.push(v@.subrange(a as int, b as int)));
        }
        proof {
            reveal_strlit("#");
            let line = v@.subrange(a as int, b as int);
            assert("#"@ =~= seq!['#']);
            if line.len() > 0 {
                if line[0] == '#' {
                    assert(line.subrange(0, 1) =~= seq!['#']);
                    assert("#"@.is_prefix_of(line));
                } else {
                    assert(line.subrange(0, 1)[0] != '#');
                    assert(!"#"@.is_prefix_of(line));
                }
            }
        }
        if e >= n {
            assert(strings_view(out@) =~= o0 + entries_from(v@, p as int));
            return out;
        }
        assert(o0 + entries_from(v@, p as int) =~= strings_view(out@) + entries_from(v@, e + 1));
        p = e + 1;
    }
}

/// The decimal digit for `d < 10`.
pub open spec fn digit(d: int) -> char {
    if d == 0 {
        '0'
    } else if d == 1 {
        '1'
    } else if d == 2 {
        '2'
    } else if d == 3 {
        '3'
    } else if d == 4 {
        '4'
    } else if d == 5 {
        '5'
    } else if d == 6 {
        '6'
    } else if d == 7 {
        '7'
    } else if d == 8 {
        '8'
    } else {
        '9'
    }
}

/// The decimal text of `n`.
pub open spec fn decimal(n: nat) -> Seq<char>
    decreases n,
{
    if n < 10 {
        seq![digit(n as int)]
    } else {
        decimal(n / 10).push(digit((n % 10) as int))
    }
}

/// The one-character text of the decimal digit `d`.
fn digit_text(d: usize) -> (r: &'static str)
    requires
        d < 10,
    ensures
        r@ == seq![digit(d as int)],
{
    proof {
        reveal_strlit("0");
        reveal_strlit("1");
        reveal_strlit("2");
        reveal_strlit("3");
        reveal_strlit("4");
        reveal_strlit("5");
        reveal_strlit("6");
        reveal_strlit("7");
        reveal_strlit("8");
        reveal_strlit("9");
    }
    if d == 0 {
        "0"
    } else if d == 1 {
        "1"
    } else if d == 2 {
        "2"
    } else if d == 3 {
        "3"
    } else if d == 4 {
        "4"
    } else if d == 5 {
        "5"
    } else if d == 6 {
        "6"
    } else if d == 7 {
        "7"
    } else if d == 8 {
        "8"
    } else {
        "9"
    }
}

/// The decimal text of `n`: its leading digits, then its last one.
fn decimal_of(n: usize) -> (r: String)
    ensures
        r@ == decimal(n as nat),
    decreases n,
{
    if n < 10 {
        String::from_str(digit_text(n))
    } else {
        let mut s = decimal_of(n / 10);
        let last = digit_text(n % 10);
        s.append(last);
        assert(s@ =~= decimal((n / 10) as nat).push(digit((n % 10) as int)));
        s
    }
}

/// The receipt text for a file whose report is `report`.
pub open spec fn receipt_text(path: Seq<char>, report: ReportView) -> Seq<char> {
    let base = "comment-warden: stripped "@ + decimal(report.stripped as nat) + " untagged comment(s) from "@ + path;
    let with_left = if report.left_in_place > 0 {
        base + ", left "@ + decimal(report.left_in_place as nat) + " in place"@
    } else {
        base
    };
    if report.unclassified > 0 {
        with_left + ", "@ + decimal(report.unclassified as nat) + " unclassified line(s)"@
    } else {
        with_left
    }
}

/// The one-line receipt that the edit hook prints for a file: none when
/// nothing was stripped, left in place or unclassified.
pub fn hook_receipt(path: &str, report: &FileReport) -> (r: Option<String>)
    ensures
        match r {
            None => report.stripped == 0 && report.left_in_place == 0 && report.unclassified == 0,
            Some(m) => !(report.stripped == 0 && report.left_in_place == 0 && report.unclassified == 0)
                && m@ == receipt_text(path@, report@),
        },
{
    if report.stripped == 0 && report.left_in_place == 0 && report.unclassified == 0 {
        return None;
    }
    let mut msg = String::from_str("comment-warden: stripped ");
    msg.append(decimal_of(report.stripped).as_str());
    msg.append(" untagged comment(s) from ");
    msg.append(path);
    if report.left_in_place > 0 {
        msg.append(", left ");
        msg.append(decimal_of(report.left_in_place).as_str());
        msg.append(" in place");
    }
    if report.unclassified > 0 {
        msg.append(", ");
        msg.append(decimal_of(report.unclassified).as_str());
        msg.append(" unclassified line(s)");
    }
    Some(msg)
}

} // verus!
