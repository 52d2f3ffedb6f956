//! Upper-case keys of Helm values files.
use vstd::prelude::*;

use crate::parser::yaml::{YamlEntry, YamlNode};

verus! {

/// A `SCREAMING_SNAKE_CASE` key of a values file.
#[derive(Debug, Clone, PartialEq, Eq)]
pub struct HelmEnvRef {
    pub env_var: String,
    pub path: String,
}

pub open spec fn is_upper(c: char) -> bool {
    'A' <= c && c <= 'Z'
}

/// An upper-case ASCII letter followed by at least one upper-case ASCII letter, digit or
/// underscore: what the pattern `^[A-Z][A-Z0-9_]+$` matches.
pub open spec fn is_screaming(s: Seq<char>) -> bool {
    &&& s.len() >= 2
    &&& is_upper(s[0])
    &&& forall|i: int|
        1 <= i < s.len() ==> is_upper(#[trigger] s[i]) || ('0' <= s[i] && s[i] <= '9') || s[i] == '_'
}

/// Relies on `regex::Regex::new` and `Regex::is_match`: the pattern `^[A-Z][A-Z0-9_]+$`
/// compiles, and matches a text exactly when the text is as `is_screaming` states (`^` and
/// `$` anchor at the ends of the whole text).
#[verifier::external_body]
fn matches_key_pattern(pattern: &str, text: &str) -> (r: bool)
    requires
        pattern@ == "^[A-Z][A-Z0-9_]+$"@,
    ensures
        r == is_screaming(text@),
{
    match regex::Regex::new(pattern) {
        Ok(re) => re.is_match(text),
        Err(_) => false,
    }
}

/// The upper-case key of an entry, if it has one.
pub open spec fn entry_upper_key(e: YamlEntry) -> Seq<Seq<char>> {
    match e.key {
        YamlNode::Str(s) => if is_screaming(s@) {
            seq![s@]
        } else {
            Seq::empty()
        },
        _ => Seq::empty(),
    }
}

/// Every upper-case mapping key of a values document, depth first, in document order.
pub open spec fn upper_keys(n: YamlNode) -> Seq<Seq<char>>
    decreases n, 1int, 0int,
{
    match n {
        YamlNode::Mapping(es) => entries_upper(n, es@.len() as int),
        YamlNode::List(items) => items_upper(n, items@.len() as int),
        _ => Seq::empty(),
    }
}

pub open spec fn entries_upper(n: YamlNode, k: int) -> Seq<Seq<char>>
    decreases n, 0int, k
    via entries_upper_decreases
{
    match n {
        YamlNode::Mapping(es) => if 0 < k <= es@.len() {
            entries_upper(n, k - 1) + entry_upper_key(es@[k - 1]) + upper_keys(es@[k - 1].value)
        } else {
            Seq::empty()
        },
        _ => Seq::empty(),
    }
}

pub open spec fn items_upper(n: YamlNode, k: int) -> Seq<Seq<char>>
    decreases n, 0int, k
    via items_upper_decreases
{
    match n {
        YamlNode::List(items) => if 0 < k <= items@.len() {
            items_upper(n, k - 1) + upper_keys(items@[k - 1])
        } else {
            Seq::empty()
        },
        _ => Seq::empty(),
    }
}

#[via_fn]
proof fn entries_upper_decreases(n: YamlNode, k: int) {
    match n {
        YamlNode::Mapping(es) => {
            if 0 < k <= es@.len() {
                assert(decreases_to!(n => es));
                assert(decreases_to!(es => es@));
                assert(decreases_to!(es@ => es@[k - 1]));
                assert(decreases_to!(es@[k - 1] => es@[k - 1].value));
            }
        },
        _ => {},
    }
}

#[via_fn]
proof fn items_upper_decreases(n: YamlNode, k: int) {
    match n {
        YamlNode::List(items) => {
            if 0 < k <= items@.len() {
                assert(decreases_to!(n => items));
                assert(decreases_to!(items => items@));
                assert(decreases_to!(items@ => items@[k - 1]));
            }
        },
        _ => {},
    }
}

pub open spec fn helm_keys(v: Seq<HelmEnvRef>) -> Seq<Seq<char>> {
    v.map_values(|r: HelmEnvRef| r.env_var@)
}

fn upper_entry(e: &YamlEntry, path: &String, out: &mut Vec<HelmEnvRef>)
    ensures
        helm_keys(final(out)@) == helm_keys(old(out)@) + entry_upper_key(*e),
        final(out)@.len() >= old(out)@.len(),
        forall|i: int| 0 <= i < old(out)@.len() ==> final(out)@[i] == old(out)@[i],
        forall|i: int|
            old(out)@.len() <= i < final(out)@.len() ==> (#[trigger] final(out)@[i]).path@ == path@,
{
    let ghost start = helm_keys(out@);
    match &e.key {
        YamlNode::Str(k) => {
            if matches_key_pattern("^[A-Z][A-Z0-9_]+$", k.as_str()) {
                out.push(HelmEnvRef { env_var: k.clone(), path: path.clone() });
                assert(helm_keys(out@) =~= start + seq![k@]);
                return ;
            }
        },
        _ => {},
    }
    assert(helm_keys(out@) =~= start + entry_upper_key(*e));
}

fn walk(n: &YamlNode, path: &String, out: &mut Vec<HelmEnvRef>)
    ensures
        helm_keys(final(out)@) == helm_keys(old(out)@) + upper_keys(*n),
        final(out)@.len() >= old(out)@.len(),
        forall|i: int| 0 <= i < old(out)@.len() ==> final(out)@[i] == old(out)@[i],
        forall|i: int|
            old(out)@.len() <= i < final(out)@.len() ==> (#[trigger] final(out)@[i]).path@ == path@,
    decreases *n,
{
    let ghost start = helm_keys(out@);
    let ghost out0 = out@;
    match n {
        YamlNode::Mapping(es) => {
            let mut i: usize = 0;
            assert(start + entries_upper(*n, 0) =~= start);
            while i < es.len()
                invariant
                    i <= es@.len(),
                    *n == YamlNode::Mapping(*es),
                    helm_keys(out@) == start + entries_upper(*n, i as int),
                    out@.len() >= out0.len(),
                    forall|j: int| 0 <= j < out0.len() ==> out@[j] == out0[j],
                    forall|j: int| out0.len() <= j < out@.len() ==> (#[trigger] out@[j]).path@ == path@,
                decreases es.len() - i,
            {
                let e = &es[i];
                let ghost o1 = out@;
                upper_entry(e, path, out);
                let ghost o2 = out@;
                proof {
                    assert(decreases_to!(*n => *es));
                    assert(decreases_to!(*es => es@));
                    assert(decreases_to!(es@ => es@[i as int]));
                    assert(decreases_to!(es@[i as int] => es@[i as int].value));
                }
                walk(&e.value, path, out);
                assert forall|j: int| out0.len() <= j < out@.len() implies (#[trigger] out@[j]).path@
                    == path@ by {
                    if j < o1.len() {
                        assert(out@[j] == o1[j]);
                    } else if j < o2.len() {
                        assert(out@[j] == o2[j]);
                    }
                }
                i += 1;
                assert(helm_keys(out@) =~= start + entries_upper(*n, i as int));
            }
        },
        YamlNode::List(items) => {
            let mut i: usize = 0;
            assert(start + items_upper(*n, 0) =~= start);
            while i < items.len()
                invariant
                    i <= items@.len(),
                    *n == YamlNode::List(*items),
                    helm_keys(out@) == start + items_upper(*n, i as int),
                    out@.len() >= out0.len(),
                    forall|j: int| 0 <= j < out0.len() ==> out@[j] == out0[j],
                    forall|j: int| out0.len() <= j < out@.len() ==> (#[trigger] out@[j]).path@ == path@,
                decreases items.len() - i,
            {
                let ghost o1 = out@;
                proof {
                    assert(decreases_to!(*n => *items));
                    assert(decreases_to!(*items => items@));
                    assert(decreases_to!(items@ => items@[i as int]));
                }
                walk(&items[i], path, out);
                assert forall|j: int| out0.len() <= j < out@.len() implies (#[trigger] out@[j]).path@
                    == path@ by {
                    if j < o1.len() {
                        assert(out@[j] == o1[j]);
                    }
                }
                i += 1;
                assert(helm_keys(out@) =~= start + items_upper(*n, i as int));
            }
        },
        _ => {
            assert(start + Seq::<Seq<char>>::empty() =~= start);
        },
    }
}

/// Every `SCREAMING_SNAKE_CASE` mapping key of a values document, depth first in document
/// order, each marked with `path`.
pub fn values_refs(path: &String, doc: &YamlNode) -> (r: Vec<HelmEnvRef>)
    ensures
        helm_keys(r@) == upper_keys(*doc),
        forall|i: int| 0 <= i < r@.len() ==> (#[trigger] r@[i]).path@ == path@,
{
    let mut out: Vec<HelmEnvRef> = Vec::new();
    assert(helm_keys(out@) =~= Seq::<Seq<char>>::empty());
    walk(doc, path, &mut out);
    assert(Seq::<Seq<char>>::empty() + upper_keys(*doc) =~= upper_keys(*doc));
    out
}

} // verus!
