//! Environment lookups of Ansible playbooks.
use vstd::prelude::*;

use crate::text::{chars_of, copy_range, is_space, is_ws, string_of};

verus! {

/// A `lookup('env', 'NAME')` of a playbook.
#[derive(Debug, Clone, PartialEq, Eq)]
pub struct AnsibleEnvRef {
    pub env_var: String,
    pub path: String,
}

pub open spec fn is_quote_char(c: char) -> bool {
    c == '\'' || c == '"'
}

/// The first position from `i` on that is not whitespace, or the length.
pub open spec fn skip_ws(s: Seq<char>, i: int) -> int
    decreases s.len() - i,
{
    if i < 0 || i >= s.len() || !is_ws(s[i]) {
        if i < 0 { 0 } else { i }
    } else {
        skip_ws(s, i + 1)
    }
}

/// The first position from `i` on that holds a quote, or the length.
pub open spec fn quote_from(s: Seq<char>, i: int) -> int
    decreases s.len() - i,
{
    if i < 0 || i >= s.len() || is_quote_char(s[i]) {
        if i < 0 { 0 } else { i }
    } else {
        quote_from(s, i + 1)
    }
}

/// `lit` stands in `s` at `i`.
pub open spec fn lit_at(s: Seq<char>, i: int, lit: Seq<char>) -> bool {
    0 <= i && i + lit.len() <= s.len() && s.subrange(i, i + lit.len()) == lit
}

/// A lookup `lookup( 'env' , 'NAME' )` starting at `i`, with any whitespace around its
/// parts and either quote on each string: where it ends, and `NAME` (one or more
/// characters, no quote).
pub open spec fn lookup_at(s: Seq<char>, i: int) -> Option<(int, Seq<char>)> {
    if !lit_at(s, i, "lookup("@) {
        None
    } else {
        let a = skip_ws(s, i + 7);
        let b = a + 4;
        let c = skip_ws(s, b + 1);
        let d = skip_ws(s, c + 1);
        let e = quote_from(s, d + 1);
        let f = skip_ws(s, e + 1);
        if !(a < s.len() && is_quote_char(s[a]) && lit_at(s, a + 1, "env"@) && b < s.len()
            && is_quote_char(s[b]) && c < s.len() && s[c] == ',' && d < s.len()
            && is_quote_char(s[d]) && e > d + 1 && e < s.len() && f < s.len() && s[f] == ')') {
            None
        } else {
            Some((f + 1, s.subrange(d + 1, e)))
        }
    }
}

/// The names of the lookups in `s` from `i` on, left to right, none overlapping.
pub open spec fn lookups_from(s: Seq<char>, i: int) -> Seq<Seq<char>>
    decreases s.len() - i,
{
    if i < 0 || i >= s.len() {
        Seq::empty()
    } else {
        match lookup_at(s, i) {
            Some((end, name)) => if end > i {
                seq![name] + lookups_from(s, end)
            } else {
                Seq::empty()
            },
            None => lookups_from(s, i + 1),
        }
    }
}

fn skip_spaces(s: &[char], i: usize) -> (r: usize)
    requires
        i <= s@.len(),
    ensures
        r as int == skip_ws(s@, i as int),
        i <= r <= s@.len(),
{
    let mut j = i;
    while j < s.len() && is_space(s[j])
        invariant
            i <= j <= s@.len(),
            skip_ws(s@, i as int) == skip_ws(s@, j as int),
        decreases s.len() - j,
    {
        j += 1;
    }
    j
}

fn next_quote(s: &[char], i: usize) -> (r: usize)
    requires
        i <= s@.len(),
    ensures
        r as int == quote_from(s@, i as int),
        i <= r <= s@.len(),
{
    let mut j = i;
    while j < s.len() && !(s[j] == '\'' || s[j] == '"')
        invariant
            i <= j <= s@.len(),
            quote_from(s@, i as int) == quote_from(s@, j as int),
        decreases s.len() - j,
    {
        j += 1;
    }
    j
}

fn is_quote_at(s: &[char], i: usize) -> (r: bool)
    ensures
        r == (i < s@.len() && is_quote_char(s@[i as int])),
{
    i < s.len() && (s[i] == '\'' || s[i] == '"')
}

fn lit_at_exec(s: &[char], i: usize, lit: &[char]) -> (r: bool)
    ensures
        r == lit_at(s@, i as int, lit@),
{
    let n = s.len();
    if i > n || lit.len() > n - i {
        return false;
    }
    let mut k: usize = 0;
    while k < lit.len()
        invariant
            n == s@.len(),
            i + lit@.len() <= n,
            k <= lit@.len(),
            forall|m: int| 0 <= m < k ==> s@[i + m] == lit@[m],
        decreases lit.len() - k,
    {
        if s[i + k] != lit[k] {
            assert(s@.subrange(i as int, i + lit@.len())[k as int] != lit@[k as int]);
            return false;
        }
        k += 1;
    }
    assert(s@.subrange(i as int, i + lit@.len()) =~= lit@);
    true
}

fn lookup_at_exec(s: &[char], i: usize, lookup: &[char], env: &[char]) -> (r: Option<(usize, Vec<char>)>)
    requires
        i < s@.len(),
        lookup@ == "lookup("@,
        env@ == "env"@,
        lookup@.len() == 7,
        env@.len() == 3,
    ensures
        r matches Some(m) ==> lookup_at(s@, i as int) == Some((m.0 as int, m.1@)) && i < m.0
            <= s@.len(),
        r is None ==> lookup_at(s@, i as int) is None,
{
    let n = s.len();
    if !lit_at_exec(s, i, lookup) {
        return None;
    }
    let a = skip_spaces(s, i + 7);
    if !(a < n && is_quote_at(s, a)) {
        return None;
    }
    if !lit_at_exec(s, a + 1, env) {
        return None;
    }
    let b = a + 4;
    if !is_quote_at(s, b) {
        return None;
    }
    let c = skip_spaces(s, b + 1);
    if !(c < n && s[c] == ',') {
        return None;
    }
    let d = skip_spaces(s, c + 1);
    if !(d < n && is_quote_at(s, d)) {
        return None;
    }
    let e = next_quote(s, d + 1);
    if !(e > d + 1 && e < n) {
        return None;
    }
    let f = skip_spaces(s, e + 1);
    if !(f < n && s[f] == ')') {
        return None;
    }
    Some((f + 1, copy_range(s, d + 1, e)))
}

/// The `lookup('env', 'NAME')` calls of a playbook text, left to right, each marked with
/// `path`.
pub fn playbook_refs(path: &String, content: &str) -> (r: Vec<AnsibleEnvRef>)
    ensures
        r@.len() == lookups_from(content@, 0).len(),
        forall|i: int|
            0 <= i < r@.len() ==> (#[trigger] r@[i]).env_var@ == lookups_from(content@, 0)[i]
                && r@[i].path@ == path@,
{
    let s = chars_of(content);
    let lookup = chars_of("lookup(");
    let env = chars_of("env");
    proof {
        reveal_strlit("lookup(");
        reveal_strlit("env");
    }
    let mut out: Vec<AnsibleEnvRef> = Vec::new();
    let ghost names: Seq<Seq<char>> = Seq::empty();
    let mut i: usize = 0;
    while i < s.len()
        invariant
            i <= s@.len(),
            s@ == content@,
            lookup@ == "lookup("@,
            env@ == "env"@,
            lookup@.len() == 7,
            env@.len() == 3,
            names + lookups_from(s@, i as int) == lookups_from(s@, 0),
            out@.len() == names.len(),
            forall|j: int|
                0 <= j < out@.len() ==> (#[trigger] out@[j]).env_var@ == names[j] && out@[j].path@
                    == path@,
        decreases s.len() - i,
    {
        match lookup_at_exec(s.as_slice(), i, lookup.as_slice(), env.as_slice()) {
            Some((end, name)) => {
                let r = AnsibleEnvRef { env_var: string_of(name.as_slice()), path: path.clone() };
                out.push(r);
                proof {
                    assert(names.push(name@) + lookups_from(s@, end as int) =~= names + (seq![name@]
                        + lookups_from(s@, end as int)));
                    names = names.push(name@);
                }
                i = end;
            },
            None => {
                i += 1;
            },
        }
    }
    assert(names + Seq::<Seq<char>>::empty() =~= names);
    out
}

} // verus!
