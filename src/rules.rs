//! The rule engine: a fixed pipeline of single-file rules over a parsed `.env` file.
use vstd::prelude::*;

use crate::error::EnvCheckError;
use crate::parser::env::{var_views, EnvFile, VarModel};
use crate::text::{chars_of, less_than, seq_lt, string_views};

pub mod duplicate;
pub mod empty;
pub mod sort;
pub mod syntax;
pub mod whitespace;

verus! {

/// Identifier of a rule or of a reconciliation finding.
#[derive(Debug, Clone, Copy, PartialEq, Eq, Structural, PartialOrd, Ord, Hash)]
pub enum RuleId {
    /// Duplicate key.
    E001,
    /// Invalid syntax.
    E002,
    /// Empty value.
    W001,
    /// Trailing whitespace.
    W002,
    /// Unsorted keys.
    W003,
    /// Key missing from a compared file.
    W004,
    /// Key of an infrastructure manifest missing from the env file.
    W005,
    /// Env key that no infrastructure manifest names.
    W006,
}

impl RuleId {
    /// The identifier as text, e.g. `E001`.
    pub fn as_string(&self) -> (r: String)
        ensures
            r@ == rule_name(*self),
    {
        let s = match self {
            RuleId::E001 => "E001",
            RuleId::E002 => "E002",
            RuleId::W001 => "W001",
            RuleId::W002 => "W002",
            RuleId::W003 => "W003",
            RuleId::W004 => "W004",
            RuleId::W005 => "W005",
            RuleId::W006 => "W006",
        };
        s.to_owned()
    }
}

pub open spec fn rule_name(id: RuleId) -> Seq<char> {
    match id {
        RuleId::E001 => "E001"@,
        RuleId::E002 => "E002"@,
        RuleId::W001 => "W001"@,
        RuleId::W002 => "W002"@,
        RuleId::W003 => "W003"@,
        RuleId::W004 => "W004"@,
        RuleId::W005 => "W005"@,
        RuleId::W006 => "W006"@,
    }
}

/// Severity of a diagnostic; an `Error` makes the run fail.
#[derive(Debug, Clone, Copy, PartialEq, Eq, Structural, PartialOrd, Ord, Hash)]
pub enum Severity {
    Error,
    Warning,
    Info,
}

impl Severity {
    /// The severity as text: `Error`, `Warning` or `Info`.
    pub fn as_string(&self) -> (r: String)
        ensures
            r@ == severity_name(*self),
    {
        let s = match self {
            Severity::Error => "Error",
            Severity::Warning => "Warning",
            Severity::Info => "Info",
        };
        s.to_owned()
    }
}

pub open spec fn severity_name(s: Severity) -> Seq<char> {
    match s {
        Severity::Error => "Error"@,
        Severity::Warning => "Warning"@,
        Severity::Info => "Info"@,
    }
}

/// One finding.
#[derive(Debug, Clone)]
pub struct Diagnostic {
    pub id: RuleId,
    pub severity: Severity,
    pub message: String,
    pub path: String,
    /// The line of the finding, when it has one.
    pub line: Option<usize>,
}

/// What a diagnostic holds, as mathematical values.
pub struct DiagModel {
    pub id: RuleId,
    pub severity: Severity,
    pub message: Seq<char>,
    pub path: Seq<char>,
    pub line: Option<int>,
}

impl View for Diagnostic {
    type V = DiagModel;

    open spec fn view(&self) -> DiagModel {
        DiagModel {
            id: self.id,
            severity: self.severity,
            message: self.message@,
            path: self.path@,
            line: match self.line {
                Some(l) => Some(l as int),
                None => None,
            },
        }
    }
}

pub open spec fn diag_views(v: Seq<Diagnostic>) -> Seq<DiagModel> {
    v.map_values(|d: Diagnostic| d@)
}

pub open spec fn diag(
    id: RuleId,
    severity: Severity,
    message: Seq<char>,
    path: Seq<char>,
    line: Option<int>,
) -> DiagModel {
    DiagModel { id, severity, message, path, line }
}

/// The entries of a file, as mathematical values.
pub open spec fn file_vars(f: &EnvFile) -> Seq<VarModel> {
    var_views(f.vars@)
}

/// The raw lines of a file, as mathematical values.
pub open spec fn file_lines(f: &EnvFile) -> Seq<Seq<char>> {
    string_views(f.lines@)
}

/// A single-file lint rule.
pub trait Rule {
    /// What the rule reports on `f`.
    spec fn findings(&self, f: &EnvFile) -> Seq<DiagModel>;

    spec fn spec_id(&self) -> RuleId;

    /// The rule's identifier.
    fn id(&self) -> (r: RuleId)
        ensures
            r == self.spec_id(),
    ;

    /// Runs the rule on `env_file`.
    fn check(&self, env_file: &EnvFile) -> (r: Vec<Diagnostic>)
        ensures
            diag_views(r@) == self.findings(env_file),
    ;
}

/// `a + x + b`.
pub fn concat3(a: &str, x: &str, b: &str) -> (r: String)
    ensures
        r@ == a@ + x@ + b@,
{
    let mut s = String::new();
    s.append(a);
    s.append(x);
    s.append(b);
    s
}

/// `a + x + b + y + c`.
pub fn concat5(a: &str, x: &str, b: &str, y: &str, c: &str) -> (r: String)
    ensures
        r@ == a@ + x@ + b@ + y@ + c@,
{
    let mut s = concat3(a, x, b);
    s.append(y);
    s.append(c);
    s
}

/// A copy of `d`.
pub fn copy_diag(d: &Diagnostic) -> (r: Diagnostic)
    ensures
        r@ == d@,
{
    Diagnostic {
        id: d.id,
        severity: d.severity,
        message: d.message.clone(),
        path: d.path.clone(),
        line: d.line,
    }
}

/// Appends copies of `src` to `dst`.
pub fn extend_diags(dst: &mut Vec<Diagnostic>, src: &Vec<Diagnostic>)
    ensures
        diag_views(final(dst)@) == diag_views(old(dst)@) + diag_views(src@),
{
    let ghost start = diag_views(dst@);
    let mut i: usize = 0;
    while i < src.len()
        invariant
            i <= src@.len(),
            diag_views(dst@) == start + diag_views(src@).take(i as int),
        decreases src.len() - i,
    {
        let d = copy_diag(&src[i]);
        let ghost prev = diag_views(dst@);
        dst.push(d);
        assert(diag_views(dst@) =~= prev.push(d@));
        i += 1;
        assert(diag_views(dst@) =~= start + diag_views(src@).take(i as int));
    }
    assert(diag_views(src@).take(src@.len() as int) =~= diag_views(src@));
}

/// The sort key of a diagnostic: its line, and 0 for none.
pub open spec fn line_key(d: DiagModel) -> int {
    match d.line {
        Some(l) => l,
        None => 0,
    }
}

/// Inserts `d` after every element of `s` whose key is at most `d`'s.
pub open spec fn insert_by_line(s: Seq<DiagModel>, d: DiagModel) -> Seq<DiagModel>
    decreases s.len(),
{
    if s.len() == 0 {
        seq![d]
    } else if line_key(s.last()) <= line_key(d) {
        s.push(d)
    } else {
        insert_by_line(s.drop_last(), d).push(s.last())
    }
}

/// Stable sort by line, diagnostics without a line first.
pub open spec fn sort_by_line(s: Seq<DiagModel>) -> Seq<DiagModel>
    decreases s.len(),
{
    if s.len() == 0 {
        s
    } else {
        insert_by_line(sort_by_line(s.drop_last()), s.last())
    }
}

proof fn lemma_insert_by_line(s: Seq<DiagModel>, d: DiagModel, j: int)
    requires
        0 <= j <= s.len(),
        forall|m: int| j <= m < s.len() ==> line_key(s[m]) > line_key(d),
        j > 0 ==> line_key(s[j - 1]) <= line_key(d),
    ensures
        insert_by_line(s, d) == s.insert(j, d),
    decreases s.len(),
{
    if s.len() == j {
        assert(s.insert(j, d) =~= s.push(d));
    } else {
        lemma_insert_by_line(s.drop_last(), d, j);
        assert(s.insert(j, d) =~= s.drop_last().insert(j, d).push(s.last()));
    }
}

fn line_key_exec(d: &Diagnostic) -> (r: usize)
    ensures
        r as int == line_key(d@),
{
    match d.line {
        Some(l) => l,
        None => 0,
    }
}

/// Sorts diagnostics by line, stably; those without a line come first.
pub fn sort_diagnostics(all: &Vec<Diagnostic>) -> (r: Vec<Diagnostic>)
    ensures
        diag_views(r@) == sort_by_line(diag_views(all@)),
{
    let mut r: Vec<Diagnostic> = Vec::new();
    let mut i: usize = 0;
    while i < all.len()
        invariant
            i <= all@.len(),
            diag_views(r@) == sort_by_line(diag_views(all@).take(i as int)),
        decreases all.len() - i,
    {
        let d = copy_diag(&all[i]);
        let k = line_key_exec(&d);
        let mut j: usize = r.len();
        while j > 0 && line_key_exec(&r[j - 1]) > k
            invariant
                j <= r@.len(),
                forall|m: int| j <= m < r@.len() ==> line_key(r@[m]@) > k,
            decreases j,
        {
            j -= 1;
        }
        let ghost before = diag_views(r@);
        proof {
            assert forall|m: int| j <= m < before.len() implies line_key(before[m]) > line_key(
                d@,
            ) by {
                assert(before[m] == r@[m]@);
            }
            if j > 0 {
                assert(before[j - 1] == r@[j - 1]@);
            }
            lemma_insert_by_line(before, d@, j as int);
        }
        r.insert(j, d);
        assert(diag_views(r@) =~= before.insert(j as int, d@));
        assert(diag_views(all@).take(i + 1).drop_last() =~= diag_views(all@).take(i as int));
        i += 1;
    }
    assert(diag_views(all@).take(all@.len() as int) =~= diag_views(all@));
    r
}

/// Everything the rules report on `f`, in pipeline order, before sorting.
pub open spec fn all_findings(f: &EnvFile) -> Seq<DiagModel> {
    duplicate::duplicate_findings(f) + syntax::syntax_findings(f) + empty::empty_findings(f)
        + whitespace::whitespace_findings(f) + sort::unsorted_findings(f)
}

/// Runs every rule on a file: duplicate keys, syntax, empty values, trailing whitespace and
/// unsorted keys, in that order, then sorts the findings stably by line.
pub fn check_file(env_file: &EnvFile) -> (r: Vec<Diagnostic>)
    ensures
        diag_views(r@) == sort_by_line(all_findings(env_file)),
{
    let mut all = duplicate::DuplicateKeyRule.check(env_file);
    let s = syntax::SyntaxRule.check(env_file);
    extend_diags(&mut all, &s);
    let e = empty::EmptyValueRule.check(env_file);
    extend_diags(&mut all, &e);
    let w = whitespace::TrailingWhitespaceRule.check(env_file);
    extend_diags(&mut all, &w);
    let u = sort::UnsortedKeysRule.check(env_file);
    extend_diags(&mut all, &u);
    sort_diagnostics(&all)
}

/// `a` comes before `b` in a report over several files: by path, then by line, a missing
/// line first.
pub open spec fn file_order_lt(a: DiagModel, b: DiagModel) -> bool {
    seq_lt(a.path, b.path) || (a.path == b.path && match (a.line, b.line) {
        (None, Some(_)) => true,
        (Some(x), Some(y)) => x < y,
        _ => false,
    })
}

/// Inserts `d` after every element of `s` that does not come after it.
pub open spec fn insert_by_file(s: Seq<DiagModel>, d: DiagModel) -> Seq<DiagModel>
    decreases s.len(),
{
    if s.len() == 0 {
        seq![d]
    } else if !file_order_lt(d, s.last()) {
        s.push(d)
    } else {
        insert_by_file(s.drop_last(), d).push(s.last())
    }
}

/// Stable sort by path, then line.
pub open spec fn sort_by_file(s: Seq<DiagModel>) -> Seq<DiagModel>
    decreases s.len(),
{
    if s.len() == 0 {
        s
    } else {
        insert_by_file(sort_by_file(s.drop_last()), s.last())
    }
}

proof fn lemma_insert_by_file(s: Seq<DiagModel>, d: DiagModel, j: int)
    requires
        0 <= j <= s.len(),
        forall|m: int| j <= m < s.len() ==> file_order_lt(d, #[trigger] s[m]),
        j > 0 ==> !file_order_lt(d, s[j - 1]),
    ensures
        insert_by_file(s, d) == s.insert(j, d),
    decreases s.len(),
{
    if s.len() == j {
        assert(s.insert(j, d) =~= s.push(d));
    } else {
        lemma_insert_by_file(s.drop_last(), d, j);
        assert(s.insert(j, d) =~= s.drop_last().insert(j, d).push(s.last()));
    }
}

fn file_order_less(a: &Diagnostic, b: &Diagnostic) -> (r: bool)
    ensures
        r == file_order_lt(a@, b@),
{
    let pa = chars_of(a.path.as_str());
    let pb = chars_of(b.path.as_str());
    if less_than(pa.as_slice(), pb.as_slice()) {
        return true;
    }
    if a.path != b.path {
        return false;
    }
    match (a.line, b.line) {
        (None, Some(_)) => true,
        (Some(x), Some(y)) => x < y,
        _ => false,
    }
}

/// Sorts the diagnostics of several files by path, then line, stably.
pub fn sort_by_file_and_line(all: &Vec<Diagnostic>) -> (r: Vec<Diagnostic>)
    ensures
        diag_views(r@) == sort_by_file(diag_views(all@)),
{
    let mut r: Vec<Diagnostic> = Vec::new();
    let mut i: usize = 0;
    while i < all.len()
        invariant
            i <= all@.len(),
            diag_views(r@) == sort_by_file(diag_views(all@).take(i as int)),
        decreases all.len() - i,
    {
        let d = copy_diag(&all[i]);
        let mut j: usize = r.len();
        while j > 0 && file_order_less(&d, &r[j - 1])
            invariant
                j <= r@.len(),
                forall|m: int| j <= m < r@.len() ==> file_order_lt(d@, #[trigger] r@[m]@),
            decreases j,
        {
            j -= 1;
        }
        let ghost before = diag_views(r@);
        proof {
            assert forall|m: int| j <= m < before.len() implies file_order_lt(
                d@,
                #[trigger] before[m],
            ) by {
                assert(before[m] == r@[m]@);
            }
            if j > 0 {
                assert(before[j - 1] == r@[j - 1]@);
            }
            lemma_insert_by_file(before, d@, j as int);
        }
        let ghost dv = d@;
        r.insert(j, d);
        assert(diag_views(r@) =~= before.insert(j as int, dv));
        assert(diag_views(all@).take(i + 1).drop_last() =~= diag_views(all@).take(i as int));
        i += 1;
    }
    assert(diag_views(all@).take(all@.len() as int) =~= diag_views(all@));
    r
}

/// The number of diagnostics of severity `sev` among the first `n`.
pub open spec fn count_severity(s: Seq<DiagModel>, sev: Severity, n: int) -> int
    decreases n,
{
    if n <= 0 || n > s.len() {
        0
    } else {
        count_severity(s, sev, n - 1) + if s[n - 1].severity == sev {
            1int
        } else {
            0
        }
    }
}

/// The outcome of linting: a failure carrying the error and warning counts when any
/// diagnostic is an error, success otherwise.
pub fn lint_outcome(diagnostics: &Vec<Diagnostic>) -> (r: Result<(), EnvCheckError>)
    ensures
        ({
            let ds = diag_views(diagnostics@);
            let errors = count_severity(ds, Severity::Error, ds.len() as int);
            let warnings = count_severity(ds, Severity::Warning, ds.len() as int);
            &&& errors == 0 ==> r is Ok
            &&& errors > 0 ==> r == Err::<(), EnvCheckError>(
                EnvCheckError::LintFailed {
                    error_count: errors as usize,
                    warning_count: warnings as usize,
                },
            )
        }),
{
    let ghost ds = diag_views(diagnostics@);
    let mut errors: usize = 0;
    let mut warnings: usize = 0;
    let mut i: usize = 0;
    while i < diagnostics.len()
        invariant
            i <= diagnostics@.len(),
            ds == diag_views(diagnostics@),
            errors as int == count_severity(ds, Severity::Error, i as int),
            warnings as int == count_severity(ds, Severity::Warning, i as int),
            errors + warnings <= i,
        decreases diagnostics.len() - i,
    {
        assert(ds[i as int] == diagnostics@[i as int]@);
        match diagnostics[i].severity {
            Severity::Error => errors += 1,
            Severity::Warning => warnings += 1,
            Severity::Info => {},
        }
        i += 1;
    }
    if errors > 0 {
        Err(EnvCheckError::LintFailed { error_count: errors, warning_count: warnings })
    } else {
        Ok(())
    }
}

} // verus!
