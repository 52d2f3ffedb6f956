//! Settings: disabled rules, ignore patterns and the default output format.
use vstd::prelude::*;

use crate::text::{chars_of, copy_range, starts_with, starts_with_vec};

verus! {

/// Settings of a run.
#[derive(Debug, Clone)]
pub struct Config {
    pub rules: RulesConfig,
    /// Patterns of paths to leave out.
    pub ignore: Vec<String>,
    /// Output format to use when none is given.
    pub format: Option<String>,
}

/// Settings of the rules.
#[derive(Debug, Clone)]
pub struct RulesConfig {
    /// Identifiers of rules to skip, e.g. `W001`.
    pub disable: Vec<String>,
    /// Report warnings as errors.
    pub warnings_as_errors: bool,
    /// Severity overrides by rule identifier.
    pub severity: std::collections::HashMap<String, String>,
}

impl Default for RulesConfig {
    fn default() -> (r: Self)
        ensures
            r.disable@.len() == 0,
            !r.warnings_as_errors,
            r.severity@.len() == 0,
    {
        RulesConfig {
            disable: Vec::new(),
            warnings_as_errors: false,
            severity: std::collections::HashMap::new(),
        }
    }
}

impl Default for Config {
    fn default() -> (r: Self)
        ensures
            r.rules.disable@.len() == 0,
            !r.rules.warnings_as_errors,
            r.rules.severity@.len() == 0,
            r.ignore@.len() == 0,
            r.format is None,
    {
        Config { rules: RulesConfig::default(), ignore: Vec::new(), format: None }
    }
}

/// `s` ends with `p`.
pub open spec fn ends_with(s: Seq<char>, p: Seq<char>) -> bool {
    p.len() <= s.len() && s.subrange(s.len() - p.len(), s.len() as int) == p
}

/// `p` occurs in `s`.
pub open spec fn contains(s: Seq<char>, p: Seq<char>) -> bool {
    exists|i: int| 0 <= i <= s.len() - p.len() && #[trigger] s.subrange(i, i + p.len()) == p
}

/// Whether a path, or its last component, matches an ignore pattern: `*x` matches a path
/// ending in `x`, `x*` one starting with `x`, and any other pattern one that contains it or
/// whose last component equals it.
pub open spec fn pattern_matches(path: Seq<char>, name: Seq<char>, pat: Seq<char>) -> bool {
    if pat.len() > 0 && pat[0] == '*' {
        let suffix = pat.skip(1);
        ends_with(path, suffix) || ends_with(name, suffix)
    } else if pat.len() > 0 && pat.last() == '*' {
        let prefix = pat.take(pat.len() - 1);
        starts_with(path, prefix) || starts_with(name, prefix)
    } else {
        contains(path, pat) || name == pat
    }
}

/// The final component of a path, as `Path::file_name` gives it; empty where it gives none.
pub uninterp spec fn file_name(path: Seq<char>) -> Seq<char>;

/// Relies on `Path::file_name`: the final component of a path, which depends on the path
/// text alone.
#[verifier::external_body]
fn last_component(path: &str) -> (r: String)
    ensures
        r@ == file_name(path@),
{
    match std::path::Path::new(path).file_name() {
        Some(n) => n.to_string_lossy().into_owned(),
        None => String::new(),
    }
}

fn ends_with_vec(s: &[char], p: &[char]) -> (r: bool)
    ensures
        r == ends_with(s@, p@),
{
    let n = s.len();
    if p.len() > n {
        return false;
    }
    let off = n - p.len();
    let mut i: usize = 0;
    while i < p.len()
        invariant
            n == s@.len(),
            off + p@.len() == n,
            i <= p@.len(),
            forall|j: int| 0 <= j < i ==> s@[off + j] == p@[j],
        decreases p.len() - i,
    {
        assert(off + i < s@.len());
        if s[off + i] != p[i] {
            assert(s@.subrange(off as int, s@.len() as int)[i as int] != p@[i as int]);
            return false;
        }
        i += 1;
    }
    assert(s@.subrange(off as int, s@.len() as int) =~= p@);
    true
}

fn contains_vec(s: &[char], p: &[char]) -> (r: bool)
    ensures
        r == contains(s@, p@),
{
    let n = s.len();
    if p.len() > n {
        return false;
    }
    let last = n - p.len();
    let mut i: usize = 0;
    while i <= last
        invariant
            n == s@.len(),
            p@.len() <= s@.len(),
            last == s@.len() - p@.len(),
            i <= last + 1,
            forall|j: int| 0 <= j < i ==> #[trigger] s@.subrange(j, j + p@.len()) != p@,
        decreases last + 1 - i,
    {
        let part = copy_range(s, i, i + p.len());
        let ghost sub = s@.subrange(i as int, i + p@.len());
        if starts_with_vec(part.as_slice(), p) {
            assert(part@.subrange(0, p@.len() as int) =~= sub);
            return true;
        }
        assert(part@.subrange(0, p@.len() as int) =~= sub);
        if i == last {
            return false;
        }
        i += 1;
    }
    false
}

fn same_chars(a: &[char], b: &[char]) -> (r: bool)
    ensures
        r == (a@ == b@),
{
    if a.len() != b.len() {
        return false;
    }
    let n = a.len();
    let mut i: usize = 0;
    while i < n
        invariant
            n == a@.len() == b@.len(),
            i <= n,
            forall|j: int| 0 <= j < i ==> a@[j] == b@[j],
        decreases n - i,
    {
        if a[i] != b[i] {
            assert(a@[i as int] != b@[i as int]);
            return false;
        }
        i += 1;
    }
    assert(a@ =~= b@);
    true
}

fn matches_pattern(path: &[char], name: &[char], pat: &[char]) -> (r: bool)
    ensures
        r == pattern_matches(path@, name@, pat@),
{
    let n = pat.len();
    if n > 0 && pat[0] == '*' {
        let suffix = copy_range(pat, 1, n);
        assert(suffix@ =~= pat@.skip(1));
        ends_with_vec(path, suffix.as_slice()) || ends_with_vec(name, suffix.as_slice())
    } else if n > 0 && pat[n - 1] == '*' {
        let prefix = copy_range(pat, 0, n - 1);
        assert(prefix@ =~= pat@.take(n - 1));
        starts_with_vec(path, prefix.as_slice()) || starts_with_vec(name, prefix.as_slice())
    } else {
        contains_vec(path, pat) || same_chars(name, pat)
    }
}

impl Config {
    /// Whether rule `rule_id` is listed as disabled.
    pub fn is_rule_disabled(&self, rule_id: &str) -> (r: bool)
        ensures
            r == exists|i: int|
                0 <= i < self.rules.disable@.len() && self.rules.disable@[i]@ == rule_id@,
    {
        let d = &self.rules.disable;
        let id = rule_id.to_owned();
        let mut i: usize = 0;
        while i < d.len()
            invariant
                i <= d@.len(),
                d == &self.rules.disable,
                id@ == rule_id@,
                forall|j: int| 0 <= j < i ==> d@[j]@ != rule_id@,
            decreases d.len() - i,
        {
            if d[i] == id {
                return true;
            }
            i += 1;
        }
        false
    }

    /// Whether `path`, whose last component is `name`, matches one of `patterns`.
    pub fn matches_any(path: &str, name: &str, patterns: &[String]) -> (r: bool)
        ensures
            r == exists|i: int|
                0 <= i < patterns@.len() && pattern_matches(path@, name@, patterns@[i]@),
    {
        let p = chars_of(path);
        let n = chars_of(name);
        let mut i: usize = 0;
        while i < patterns.len()
            invariant
                i <= patterns@.len(),
                p@ == path@,
                n@ == name@,
                forall|j: int| 0 <= j < i ==> !pattern_matches(path@, name@, patterns@[j]@),
            decreases patterns.len() - i,
        {
            let pat = chars_of(patterns[i].as_str());
            if matches_pattern(p.as_slice(), n.as_slice(), pat.as_slice()) {
                return true;
            }
            i += 1;
        }
        false
    }

    /// Whether `path` matches one of `patterns`.
    pub fn should_ignore(path: &str, patterns: &[String]) -> (r: bool)
        ensures
            r == exists|i: int|
                0 <= i < patterns@.len() && pattern_matches(
                    path@,
                    file_name(path@),
                    patterns@[i]@,
                ),
    {
        let name = last_component(path);
        Config::matches_any(path, name.as_str(), patterns)
    }
}

} // verus!
