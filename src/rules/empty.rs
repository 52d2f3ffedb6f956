//! Empty values.
use vstd::prelude::*;

use crate::parser::env::{EnvFile, VarModel};
use crate::rules::{
    concat3, diag, diag_views, file_vars, DiagModel, Diagnostic, Rule, RuleId, Severity,
};

verus! {

pub struct EmptyValueRule;

pub open spec fn empty_message(key: Seq<char>) -> Seq<char> {
    "Key '"@ + key + "' has an empty value"@
}

/// One warning for each of the first `n` entries whose value is empty.
pub open spec fn empty_upto(path: Seq<char>, vars: Seq<VarModel>, n: int) -> Seq<DiagModel>
    decreases n,
{
    if n <= 0 {
        Seq::empty()
    } else {
        let prev = empty_upto(path, vars, n - 1);
        let v = vars[n - 1];
        if v.value.len() == 0 {
            prev.push(
                diag(RuleId::W001, Severity::Warning, empty_message(v.key), path, Some(v.line)),
            )
        } else {
            prev
        }
    }
}

pub open spec fn empty_findings(f: &EnvFile) -> Seq<DiagModel> {
    empty_upto(f.path@, file_vars(f), file_vars(f).len() as int)
}

impl Rule for EmptyValueRule {
    open spec fn findings(&self, f: &EnvFile) -> Seq<DiagModel> {
        empty_findings(f)
    }

    open spec fn spec_id(&self) -> RuleId {
        RuleId::W001
    }

    fn id(&self) -> (r: RuleId) {
        RuleId::W001
    }

    fn check(&self, env_file: &EnvFile) -> (r: Vec<Diagnostic>) {
        let vars = &env_file.vars;
        let ghost vs = file_vars(env_file);
        let mut out: Vec<Diagnostic> = Vec::new();
        let mut j: usize = 0;
        while j < vars.len()
            invariant
                j <= vars@.len(),
                vs == file_vars(env_file),
                vars == &env_file.vars,
                diag_views(out@) == empty_upto(env_file.path@, vs, j as int),
            decreases vars.len() - j,
        {
            let var = &vars[j];
            assert(vs[j as int] == var@);
            if var.value.as_str().is_empty() {
                let d = Diagnostic {
                    id: RuleId::W001,
                    severity: Severity::Warning,
                    message: concat3("Key '", var.key.as_str(), "' has an empty value"),
                    path: env_file.path.clone(),
                    line: Some(var.line),
                };
                let ghost prev = diag_views(out@);
                out.push(d);
                assert(diag_views(out@) =~= prev.push(d@));
            }
            j += 1;
        }
        out
    }
}

} // verus!
