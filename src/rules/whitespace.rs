//! Trailing whitespace.
use vstd::prelude::*;

use crate::parser::env::EnvFile;
use crate::rules::{diag, diag_views, file_lines, DiagModel, Diagnostic, Rule, RuleId, Severity};
use crate::text::{chars_of, trim_end, trim_end_len};

verus! {

pub struct TrailingWhitespaceRule;

pub open spec fn whitespace_message() -> Seq<char> {
    "Line contains trailing whitespace"@
}

/// One warning for each of the first `n` lines that ends in whitespace.
pub open spec fn whitespace_upto(path: Seq<char>, ls: Seq<Seq<char>>, n: int) -> Seq<DiagModel>
    decreases n,
{
    if n <= 0 {
        Seq::empty()
    } else {
        let prev = whitespace_upto(path, ls, n - 1);
        if trim_end(ls[n - 1]) != ls[n - 1] {
            prev.push(diag(RuleId::W002, Severity::Warning, whitespace_message(), path, Some(n)))
        } else {
            prev
        }
    }
}

pub open spec fn whitespace_findings(f: &EnvFile) -> Seq<DiagModel> {
    whitespace_upto(f.path@, file_lines(f), file_lines(f).len() as int)
}

impl Rule for TrailingWhitespaceRule {
    open spec fn findings(&self, f: &EnvFile) -> Seq<DiagModel> {
        whitespace_findings(f)
    }

    open spec fn spec_id(&self) -> RuleId {
        RuleId::W002
    }

    fn id(&self) -> (r: RuleId) {
        RuleId::W002
    }

    fn check(&self, env_file: &EnvFile) -> (r: Vec<Diagnostic>) {
        let lines = &env_file.lines;
        let ghost ls = file_lines(env_file);
        let mut out: Vec<Diagnostic> = Vec::new();
        let mut i: usize = 0;
        while i < lines.len()
            invariant
                i <= lines@.len(),
                ls == file_lines(env_file),
                lines == &env_file.lines,
                diag_views(out@) == whitespace_upto(env_file.path@, ls, i as int),
            decreases lines.len() - i,
        {
            let cs = chars_of(lines[i].as_str());
            assert(ls[i as int] == cs@);
            let n = trim_end_len(cs.as_slice());
            if n != cs.len() {
                assert(trim_end(cs@).len() != cs@.len());
                let d = Diagnostic {
                    id: RuleId::W002,
                    severity: Severity::Warning,
                    message: "Line contains trailing whitespace".to_owned(),
                    path: env_file.path.clone(),
                    line: Some(i + 1),
                };
                let ghost prev = diag_views(out@);
                out.push(d);
                assert(diag_views(out@) =~= prev.push(d@));
            } else {
                assert(cs@.subrange(0, n as int) =~= cs@);
            }
            i += 1;
        }
        out
    }
}

} // verus!
