//! Repeated keys.
use vstd::prelude::*;

use crate::parser::env::{EnvFile, VarModel};
use crate::rules::{
    concat5, diag, diag_views, file_vars, DiagModel, Diagnostic, Rule, RuleId, Severity,
};
use crate::text::{decimal, decimal_string};

verus! {

pub struct DuplicateKeyRule;

/// Index of the last entry before `j` with key `key`.
pub open spec fn last_before(vars: Seq<VarModel>, key: Seq<char>, j: int) -> Option<int>
    decreases j,
{
    if j <= 0 {
        None
    } else if vars[j - 1].key == key {
        Some(j - 1)
    } else {
        last_before(vars, key, j - 1)
    }
}

pub open spec fn duplicate_message(key: Seq<char>, first: int) -> Seq<char> {
    "Duplicate key '"@ + key + "' (first defined on line "@ + decimal(first as nat) + ")"@
}

/// Findings for the first `n` entries: each entry whose key occurred before cites the line
/// of the nearest earlier occurrence.
pub open spec fn duplicate_upto(path: Seq<char>, vars: Seq<VarModel>, n: int) -> Seq<DiagModel>
    decreases n,
{
    if n <= 0 {
        Seq::empty()
    } else {
        let prev = duplicate_upto(path, vars, n - 1);
        let v = vars[n - 1];
        match last_before(vars, v.key, n - 1) {
            Some(i) => prev.push(
                diag(
                    RuleId::E001,
                    Severity::Error,
                    duplicate_message(v.key, vars[i].line),
                    path,
                    Some(v.line),
                ),
            ),
            None => prev,
        }
    }
}

pub open spec fn duplicate_findings(f: &EnvFile) -> Seq<DiagModel> {
    duplicate_upto(f.path@, file_vars(f), file_vars(f).len() as int)
}

/// Index of the last entry before `j` whose key is `key`.
fn find_last_before(vars: &Vec<crate::parser::env::EnvVar>, key: &String, j: usize) -> (r: Option<
    usize,
>)
    requires
        j <= vars@.len(),
    ensures
        r matches Some(i) ==> last_before(crate::parser::env::var_views(vars@), key@, j as int)
            == Some(i as int) && i < j,
        r is None ==> last_before(crate::parser::env::var_views(vars@), key@, j as int) is None,
{
    let ghost vs = crate::parser::env::var_views(vars@);
    let mut k: usize = j;
    while k > 0
        invariant
            k <= j <= vars@.len(),
            vs == crate::parser::env::var_views(vars@),
            last_before(vs, key@, j as int) == last_before(vs, key@, k as int),
        decreases k,
    {
        assert(vs[k - 1] == vars@[k - 1]@);
        if vars[k - 1].key == *key {
            return Some(k - 1);
        }
        k -= 1;
    }
    None
}

impl Rule for DuplicateKeyRule {
    open spec fn findings(&self, f: &EnvFile) -> Seq<DiagModel> {
        duplicate_findings(f)
    }

    open spec fn spec_id(&self) -> RuleId {
        RuleId::E001
    }

    fn id(&self) -> (r: RuleId) {
        RuleId::E001
    }

    fn check(&self, env_file: &EnvFile) -> (r: Vec<Diagnostic>) {
        let vars = &env_file.vars;
        let ghost vs = file_vars(env_file);
        let mut out: Vec<Diagnostic> = Vec::new();
        let mut j: usize = 0;
        while j < vars.len()
            invariant
                j <= vars@.len(),
                vs == file_vars(env_file),
                vars == &env_file.vars,
                diag_views(out@) == duplicate_upto(env_file.path@, vs, j as int),
            decreases vars.len() - j,
        {
            let var = &vars[j];
            assert(vs[j as int] == var@);
            match find_last_before(vars, &var.key, j) {
                Some(i) => {
                    assert(vs[i as int] == vars@[i as int]@);
                    let num = decimal_string(vars[i].line);
                    let d = Diagnostic {
                        id: RuleId::E001,
                        severity: Severity::Error,
                        message: concat5(
                            "Duplicate key '",
                            var.key.as_str(),
                            "' (first defined on line ",
                            num.as_str(),
                            ")",
                        ),
                        path: env_file.path.clone(),
                        line: Some(var.line),
                    };
                    let ghost prev = diag_views(out@);
                    out.push(d);
                    assert(diag_views(out@) =~= prev.push(d@));
                },
                None => {},
            }
            j += 1;
        }
        out
    }
}

/// A key that occurs `N` times yields `N - 1` duplicate errors, one at each later
/// occurrence, each citing the line of the occurrence just before it.
pub proof fn law_duplicates_of_one_key(path: Seq<char>, vars: Seq<VarModel>)
    requires
        vars.len() >= 1,
        forall|i: int| 0 <= i < vars.len() ==> (#[trigger] vars[i]).key == vars[0].key,
    ensures
        duplicate_upto(path, vars, vars.len() as int).len() == vars.len() - 1,
        forall|i: int|
            0 <= i < vars.len() - 1 ==> #[trigger] duplicate_upto(path, vars, vars.len() as int)[i] == diag(
                RuleId::E001,
                Severity::Error,
                duplicate_message(vars[0].key, vars[i].line),
                path,
                Some(vars[i + 1].line),
            ),
{
    lemma_duplicates_of_one_key(path, vars, vars.len() as int);
}

proof fn lemma_duplicates_of_one_key(path: Seq<char>, vars: Seq<VarModel>, n: int)
    requires
        1 <= n <= vars.len(),
        forall|i: int| 0 <= i < vars.len() ==> (#[trigger] vars[i]).key == vars[0].key,
    ensures
        duplicate_upto(path, vars, n).len() == n - 1,
        forall|i: int|
            0 <= i < n - 1 ==> #[trigger] duplicate_upto(path, vars, n)[i] == diag(
                RuleId::E001,
                Severity::Error,
                duplicate_message(vars[0].key, vars[i].line),
                path,
                Some(vars[i + 1].line),
            ),
    decreases n,
{
    if n == 1 {
        assert(last_before(vars, vars[0].key, 0) is None);
        assert(duplicate_upto(path, vars, 0).len() == 0);
    } else {
        lemma_duplicates_of_one_key(path, vars, n - 1);
        assert(vars[n - 1].key == vars[0].key);
        assert(vars[n - 2].key == vars[0].key);
        assert(last_before(vars, vars[n - 1].key, n - 1) == Some(n - 2));
        let prev = duplicate_upto(path, vars, n - 1);
        assert forall|i: int| 0 <= i < n - 1 implies #[trigger] duplicate_upto(path, vars, n)[i]
            == diag(
            RuleId::E001,
            Severity::Error,
            duplicate_message(vars[0].key, vars[i].line),
            path,
            Some(vars[i + 1].line),
        ) by {
            if i < n - 2 {
                assert(duplicate_upto(path, vars, n)[i] == prev[i]);
            }
        }
    }
}

} // verus!
