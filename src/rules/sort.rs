//! Keys out of order.
use vstd::prelude::*;

use crate::parser::env::{EnvFile, VarModel};
use crate::rules::{
    concat5, diag, diag_views, file_vars, DiagModel, Diagnostic, Rule, RuleId, Severity,
};
use crate::text::{chars_of, less_than, seq_lt};

verus! {

pub struct UnsortedKeysRule;

pub open spec fn unsorted_message(key: Seq<char>, prev: Seq<char>) -> Seq<char> {
    "Unsorted key '"@ + key + "' should come before '"@ + prev + "'"@
}

/// One warning for each of the first `n` entries whose key sorts before the key of the
/// entry just before it.
pub open spec fn unsorted_upto(path: Seq<char>, vars: Seq<VarModel>, n: int) -> Seq<DiagModel>
    decreases n,
{
    if n <= 1 {
        Seq::empty()
    } else {
        let prev = unsorted_upto(path, vars, n - 1);
        let v = vars[n - 1];
        let p = vars[n - 2];
        if seq_lt(v.key, p.key) {
            prev.push(
                diag(
                    RuleId::W003,
                    Severity::Warning,
                    unsorted_message(v.key, p.key),
                    path,
                    Some(v.line),
                ),
            )
        } else {
            prev
        }
    }
}

pub open spec fn unsorted_findings(f: &EnvFile) -> Seq<DiagModel> {
    unsorted_upto(f.path@, file_vars(f), file_vars(f).len() as int)
}

impl Rule for UnsortedKeysRule {
    open spec fn findings(&self, f: &EnvFile) -> Seq<DiagModel> {
        unsorted_findings(f)
    }

    open spec fn spec_id(&self) -> RuleId {
        RuleId::W003
    }

    fn id(&self) -> (r: RuleId) {
        RuleId::W003
    }

    fn check(&self, env_file: &EnvFile) -> (r: Vec<Diagnostic>) {
        let vars = &env_file.vars;
        let ghost vs = file_vars(env_file);
        let mut out: Vec<Diagnostic> = Vec::new();
        if vars.len() == 0 {
            return out;
        }
        let mut j: usize = 1;
        while j < vars.len()
            invariant
                1 <= j <= vars@.len(),
                vs == file_vars(env_file),
                vars == &env_file.vars,
                diag_views(out@) == unsorted_upto(env_file.path@, vs, j as int),
            decreases vars.len() - j,
        {
            let var = &vars[j];
            let prev_var = &vars[j - 1];
            assert(vs[j as int] == var@);
            assert(vs[j - 1] == prev_var@);
            let a = chars_of(var.key.as_str());
            let b = chars_of(prev_var.key.as_str());
            if less_than(a.as_slice(), b.as_slice()) {
                let d = Diagnostic {
                    id: RuleId::W003,
                    severity: Severity::Warning,
                    message: concat5(
                        "Unsorted key '",
                        var.key.as_str(),
                        "' should come before '",
                        prev_var.key.as_str(),
                        "'",
                    ),
                    path: env_file.path.clone(),
                    line: Some(var.line),
                };
                let ghost prev = diag_views(out@);
                out.push(d);
                assert(diag_views(out@) =~= prev.push(d@));
            }
            j += 1;
        }
        out
    }
}

/// Keys in non-decreasing order yield no warning.
pub proof fn law_sorted_keys_are_silent(path: Seq<char>, vars: Seq<VarModel>)
    requires
        forall|i: int| 1 <= i < vars.len() ==> !seq_lt(#[trigger] vars[i].key, vars[i - 1].key),
    ensures
        unsorted_upto(path, vars, vars.len() as int).len() == 0,
{
    lemma_sorted_prefix(path, vars, vars.len() as int);
}

proof fn lemma_sorted_prefix(path: Seq<char>, vars: Seq<VarModel>, n: int)
    requires
        n <= vars.len(),
        forall|i: int| 1 <= i < vars.len() ==> !seq_lt(#[trigger] vars[i].key, vars[i - 1].key),
    ensures
        unsorted_upto(path, vars, n).len() == 0,
    decreases n,
{
    if n > 1 {
        lemma_sorted_prefix(path, vars, n - 1);
    }
}

/// Two entries whose keys are out of order yield exactly one warning, naming the second.
pub proof fn law_one_inversion(path: Seq<char>, a: VarModel, b: VarModel)
    requires
        seq_lt(b.key, a.key),
    ensures
        unsorted_upto(path, seq![a, b], 2) == seq![
            diag(RuleId::W003, Severity::Warning, unsorted_message(b.key, a.key), path, Some(b.line)),
        ],
{
    assert(unsorted_upto(path, seq![a, b], 1).len() == 0);
    assert(unsorted_upto(path, seq![a, b], 2) =~= seq![
        diag(RuleId::W003, Severity::Warning, unsorted_message(b.key, a.key), path, Some(b.line)),
    ]);
}

} // verus!
