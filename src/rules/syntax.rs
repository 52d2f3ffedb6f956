//! Lines that do not parse as assignments. Works on the raw lines, since the parser drops
//! exactly the lines this rule must see.
use vstd::prelude::*;

use crate::parser::env::{strip_export, EnvFile};
use crate::rules::{
    concat3, diag, diag_views, extend_diags, file_lines, DiagModel, Diagnostic, Rule, RuleId,
    Severity,
};
use crate::text::{
    chars_of, copy_range, find, find_char, is_space, is_ws, starts_with_vec, string_of, trim,
    trim_vec,
};

verus! {

pub struct SyntaxRule;

/// Whether `c` is a numeric character (Unicode general categories Nd, Nl and No).
pub uninterp spec fn numeric_char(c: char) -> bool;

/// Relies on `char::is_numeric`, whose result depends on the character alone.
#[verifier::external_body]
fn is_numeric(c: char) -> (r: bool)
    ensures
        r == numeric_char(c),
{
    c.is_numeric()
}

pub open spec fn has_ws(s: Seq<char>) -> bool {
    exists|i: int| 0 <= i < s.len() && is_ws(s[i])
}

pub open spec fn missing_eq_message(t: Seq<char>) -> Seq<char> {
    "Invalid syntax: missing assignment operator '=' in line '"@ + t + "'"@
}

pub open spec fn empty_key_message() -> Seq<char> {
    "Invalid syntax: key name cannot be empty"@
}

pub open spec fn key_ws_message(key: Seq<char>) -> Seq<char> {
    "Invalid syntax: key '"@ + key + "' contains whitespace"@
}

pub open spec fn key_digit_message(key: Seq<char>) -> Seq<char> {
    "Invalid syntax: key '"@ + key + "' cannot start with a number"@
}

/// The errors that line number `num` yields.
pub open spec fn line_syntax(path: Seq<char>, line: Seq<char>, num: int) -> Seq<DiagModel> {
    let t = trim(line);
    let err = |m: Seq<char>| diag(RuleId::E002, Severity::Error, m, path, Some(num));
    if t.len() == 0 || t[0] == '#' {
        Seq::empty()
    } else {
        let content = strip_export(t).1;
        match find(content, '=') {
            None => seq![err(missing_eq_message(t))],
            Some(k) => if k == 0 {
                seq![err(empty_key_message())]
            } else {
                let key = trim(content.take(k));
                let a = if has_ws(key) {
                    seq![err(key_ws_message(key))]
                } else {
                    Seq::empty()
                };
                let b = if key.len() > 0 && numeric_char(key[0]) {
                    seq![err(key_digit_message(key))]
                } else {
                    Seq::empty()
                };
                a + b
            },
        }
    }
}

/// The errors of the first `n` lines.
pub open spec fn syntax_upto(path: Seq<char>, ls: Seq<Seq<char>>, n: int) -> Seq<DiagModel>
    decreases n,
{
    if n <= 0 {
        Seq::empty()
    } else {
        syntax_upto(path, ls, n - 1) + line_syntax(path, ls[n - 1], n)
    }
}

pub open spec fn syntax_findings(f: &EnvFile) -> Seq<DiagModel> {
    syntax_upto(f.path@, file_lines(f), file_lines(f).len() as int)
}

fn contains_space(v: &[char]) -> (r: bool)
    ensures
        r == has_ws(v@),
{
    let mut i: usize = 0;
    while i < v.len()
        invariant
            i <= v@.len(),
            forall|j: int| 0 <= j < i ==> !is_ws(v@[j]),
        decreases v.len() - i,
    {
        if is_space(v[i]) {
            return true;
        }
        i += 1;
    }
    false
}

fn error_at(message: String, path: &String, num: usize) -> (r: Diagnostic)
    ensures
        r@ == diag(RuleId::E002, Severity::Error, message@, path@, Some(num as int)),
{
    Diagnostic {
        id: RuleId::E002,
        severity: Severity::Error,
        message,
        path: path.clone(),
        line: Some(num),
    }
}

/// The errors about the key part `key` of line `num`: whitespace inside it, and a first
/// character that is numeric, which `leading_numeric` tells.
pub fn key_errors(path: &String, key: &String, num: usize, leading_numeric: bool) -> (r: Vec<
    Diagnostic,
>)
    ensures
        diag_views(r@) == (if has_ws(key@) {
            seq![diag(RuleId::E002, Severity::Error, key_ws_message(key@), path@, Some(num as int))]
        } else {
            Seq::empty()
        }) + (if leading_numeric {
            seq![diag(RuleId::E002, Severity::Error, key_digit_message(key@), path@, Some(num as int))]
        } else {
            Seq::empty()
        }),
{
    let mut out: Vec<Diagnostic> = Vec::new();
    let cs = chars_of(key.as_str());
    if contains_space(cs.as_slice()) {
        let d = error_at(
            concat3("Invalid syntax: key '", key.as_str(), "' contains whitespace"),
            path,
            num,
        );
        out.push(d);
    }
    if leading_numeric {
        let d = error_at(
            concat3("Invalid syntax: key '", key.as_str(), "' cannot start with a number"),
            path,
            num,
        );
        let ghost prev = diag_views(out@);
        out.push(d);
        assert(diag_views(out@) =~= prev.push(d@));
    }
    assert(diag_views(out@) =~= (if has_ws(key@) {
        seq![diag(RuleId::E002, Severity::Error, key_ws_message(key@), path@, Some(num as int))]
    } else {
        Seq::empty()
    }) + (if leading_numeric {
        seq![diag(RuleId::E002, Severity::Error, key_digit_message(key@), path@, Some(num as int))]
    } else {
        Seq::empty()
    }));
    out
}

/// The errors that one line yields.
fn check_line(path: &String, line: &[char], num: usize) -> (r: Vec<Diagnostic>)
    ensures
        diag_views(r@) == line_syntax(path@, line@, num as int),
{
    let mut out: Vec<Diagnostic> = Vec::new();
    let t = trim_vec(line);
    if t.len() == 0 || t[0] == '#' {
        assert(diag_views(out@) =~= Seq::empty());
        return out;
    }
    let mut prefix: Vec<char> = Vec::new();
    prefix.push('e');
    prefix.push('x');
    prefix.push('p');
    prefix.push('o');
    prefix.push('r');
    prefix.push('t');
    prefix.push(' ');
    assert(prefix@ =~= crate::parser::env::export_prefix());
    let content = if starts_with_vec(t.as_slice(), prefix.as_slice()) {
        let rest = copy_range(t.as_slice(), 7, t.len());
        assert(rest@ =~= t@.skip(7));
        trim_vec(rest.as_slice())
    } else {
        t.clone()
    };
    assert(content@ == strip_export(t@).1);
    match find_char(content.as_slice(), '=') {
        None => {
            let ts = string_of(t.as_slice());
            let d = error_at(
                concat3(
                    "Invalid syntax: missing assignment operator '=' in line '",
                    ts.as_str(),
                    "'",
                ),
                path,
                num,
            );
            out.push(d);
            assert(diag_views(out@) =~= seq![d@]);
        },
        Some(k) => {
            if k == 0 {
                let d = error_at("Invalid syntax: key name cannot be empty".to_owned(), path, num);
                out.push(d);
                assert(diag_views(out@) =~= seq![d@]);
            } else {
                let head = copy_range(content.as_slice(), 0, k);
                assert(head@ =~= content@.take(k as int));
                let key = trim_vec(head.as_slice());
                let leading_numeric = key.len() > 0 && is_numeric(key[0]);
                let ks = string_of(key.as_slice());
                out = key_errors(path, &ks, num, leading_numeric);
                assert(diag_views(out@) =~= line_syntax(path@, line@, num as int));
            }
        },
    }
    out
}

impl Rule for SyntaxRule {
    open spec fn findings(&self, f: &EnvFile) -> Seq<DiagModel> {
        syntax_findings(f)
    }

    open spec fn spec_id(&self) -> RuleId {
        RuleId::E002
    }

    fn id(&self) -> (r: RuleId) {
        RuleId::E002
    }

    fn check(&self, env_file: &EnvFile) -> (r: Vec<Diagnostic>) {
        let lines = &env_file.lines;
        let ghost ls = file_lines(env_file);
        let mut out: Vec<Diagnostic> = Vec::new();
        let mut i: usize = 0;
        while i < lines.len()
            invariant
                i <= lines@.len(),
                ls == file_lines(env_file),
                lines == &env_file.lines,
                diag_views(out@) == syntax_upto(env_file.path@, ls, i as int),
            decreases lines.len() - i,
        {
            let cs = chars_of(lines[i].as_str());
            assert(ls[i as int] == cs@);
            let found = check_line(&env_file.path, cs.as_slice(), i + 1);
            extend_diags(&mut out, &found);
            i += 1;
        }
        out
    }
}

} // verus!
