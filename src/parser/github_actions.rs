//! Keys of `env:` blocks in GitHub Actions workflows.
use vstd::prelude::*;

use crate::parser::yaml::{str_eq, YamlEntry, YamlNode};

verus! {

/// A key of an `env:` block of a workflow.
#[derive(Debug, Clone, PartialEq, Eq)]
pub struct GitHubActionEnvRef {
    pub env_var: String,
    pub path: String,
}

/// The string keys of the first `n` entries.
pub open spec fn string_keys(es: Seq<YamlEntry>, n: int) -> Seq<Seq<char>>
    decreases n,
{
    if n <= 0 || n > es.len() {
        Seq::empty()
    } else {
        let prev = string_keys(es, n - 1);
        match es[n - 1].key {
            YamlNode::Str(s) => prev.push(s@),
            _ => prev,
        }
    }
}

/// The keys an entry declares when its key is `env` and its value a mapping.
pub open spec fn env_entry_keys(e: YamlEntry) -> Seq<Seq<char>> {
    if e.key is Str && e.key->Str_0@ == "env"@ {
        match e.value {
            YamlNode::Mapping(es) => string_keys(es@, es@.len() as int),
            _ => Seq::empty(),
        }
    } else {
        Seq::empty()
    }
}

/// The keys of every `env:` mapping in a document, depth first, in document order.
pub open spec fn workflow_keys(n: YamlNode) -> Seq<Seq<char>>
    decreases n, 1int, 0int,
{
    match n {
        YamlNode::Mapping(es) => entries_keys(n, es@.len() as int),
        YamlNode::List(items) => items_keys(n, items@.len() as int),
        _ => Seq::empty(),
    }
}

/// `workflow_keys` over the first `k` entries of mapping `n`.
pub open spec fn entries_keys(n: YamlNode, k: int) -> Seq<Seq<char>>
    decreases n, 0int, k
    via entries_keys_decreases
{
    match n {
        YamlNode::Mapping(es) => if 0 < k <= es@.len() {
            entries_keys(n, k - 1) + env_entry_keys(es@[k - 1]) + workflow_keys(es@[k - 1].value)
        } else {
            Seq::empty()
        },
        _ => Seq::empty(),
    }
}

/// `workflow_keys` over the first `k` items of list `n`.
pub open spec fn items_keys(n: YamlNode, k: int) -> Seq<Seq<char>>
    decreases n, 0int, k
    via items_keys_decreases
{
    match n {
        YamlNode::List(items) => if 0 < k <= items@.len() {
            items_keys(n, k - 1) + workflow_keys(items@[k - 1])
        } else {
            Seq::empty()
        },
        _ => Seq::empty(),
    }
}

#[via_fn]
proof fn entries_keys_decreases(n: YamlNode, k: int) {
    match n {
        YamlNode::Mapping(es) => {
            if 0 < k <= es@.len() {
                assert(decreases_to!(n => es));
                assert(decreases_to!(es => es@));
                assert(decreases_to!(es@ => es@[k - 1]));
                assert(decreases_to!(es@[k - 1] => es@[k - 1].value));
            }
        },
        _ => {},
    }
}

#[via_fn]
proof fn items_keys_decreases(n: YamlNode, k: int) {
    match n {
        YamlNode::List(items) => {
            if 0 < k <= items@.len() {
                assert(decreases_to!(n => items));
                assert(decreases_to!(items => items@));
                assert(decreases_to!(items@ => items@[k - 1]));
            }
        },
        _ => {},
    }
}

pub open spec fn action_keys(v: Seq<GitHubActionEnvRef>) -> Seq<Seq<char>> {
    v.map_values(|r: GitHubActionEnvRef| r.env_var@)
}

/// Appends a reference with key `key` at `path`.
fn push_key(out: &mut Vec<GitHubActionEnvRef>, key: &String, path: &String)
    ensures
        action_keys(final(out)@) == action_keys(old(out)@).push(key@),
        final(out)@.len() == old(out)@.len() + 1,
        forall|i: int| 0 <= i < old(out)@.len() ==> final(out)@[i] == old(out)@[i],
        final(out)@.last().path@ == path@,
{
    let ghost prev = action_keys(out@);
    out.push(GitHubActionEnvRef { env_var: key.clone(), path: path.clone() });
    assert(action_keys(out@) =~= prev.push(key@));
}

/// Appends the keys of an `env:` entry.
fn env_entry(e: &YamlEntry, path: &String, out: &mut Vec<GitHubActionEnvRef>)
    ensures
        action_keys(final(out)@) == action_keys(old(out)@) + env_entry_keys(*e),
        final(out)@.len() >= old(out)@.len(),
        forall|i: int| 0 <= i < old(out)@.len() ==> final(out)@[i] == old(out)@[i],
        forall|i: int|
            old(out)@.len() <= i < final(out)@.len() ==> (#[trigger] final(out)@[i]).path@ == path@,
{
    let ghost start = action_keys(out@);
    let ghost out0 = out@;
    let is_env = match &e.key {
        YamlNode::Str(k) => str_eq(k.as_str(), "env"),
        _ => false,
    };
    if is_env {
        match &e.value {
            YamlNode::Mapping(es) => {
                let mut i: usize = 0;
                assert(start + string_keys(es@, 0) =~= start);
                while i < es.len()
                    invariant
                        i <= es@.len(),
                        action_keys(out@) == start + string_keys(es@, i as int),
                        out@.len() >= out0.len(),
                        forall|j: int| 0 <= j < out0.len() ==> out@[j] == out0[j],
                        forall|j: int|
                            out0.len() <= j < out@.len() ==> (#[trigger] out@[j]).path@ == path@,
                    decreases es.len() - i,
                {
                    match &es[i].key {
                        YamlNode::Str(k) => {
                            let ghost before = action_keys(out@);
                            push_key(out, k, path);
                            assert(start + string_keys(es@, i + 1) =~= before.push(k@));
                        },
                        _ => {},
                    }
                    i += 1;
                }
                return ;
            },
            _ => {},
        }
    }
    assert(action_keys(out@) =~= start + env_entry_keys(*e));
}

/// Appends the keys of every `env:` mapping under `n`, depth first.
fn walk(n: &YamlNode, path: &String, out: &mut Vec<GitHubActionEnvRef>)
    ensures
        action_keys(final(out)@) == action_keys(old(out)@) + workflow_keys(*n),
        final(out)@.len() >= old(out)@.len(),
        forall|i: int| 0 <= i < old(out)@.len() ==> final(out)@[i] == old(out)@[i],
        forall|i: int|
            old(out)@.len() <= i < final(out)@.len() ==> (#[trigger] final(out)@[i]).path@ == path@,
    decreases *n,
{
    let ghost start = action_keys(out@);
    let ghost out0 = out@;
    match n {
        YamlNode::Mapping(es) => {
            let mut i: usize = 0;
            assert(start + entries_keys(*n, 0) =~= start);
            while i < es.len()
                invariant
                    i <= es@.len(),
                    *n == YamlNode::Mapping(*es),
                    action_keys(out@) == start + entries_keys(*n, i as int),
                    out@.len() >= out0.len(),
                    forall|j: int| 0 <= j < out0.len() ==> out@[j] == out0[j],
                    forall|j: int| out0.len() <= j < out@.len() ==> (#[trigger] out@[j]).path@ == path@,
                decreases es.len() - i,
            {
                let e = &es[i];
                let ghost o1 = out@;
                env_entry(e, path, out);
                let ghost o2 = out@;
                proof {
                    assert(decreases_to!(*n => *es));
                    assert(decreases_to!(*es => es@));
                    assert(decreases_to!(es@ => es@[i as int]));
                    assert(decreases_to!(es@[i as int] => es@[i as int].value));
                }
                walk(&e.value, path, out);
                assert forall|j: int| out0.len() <= j < out@.len() implies (#[trigger] out@[j]).path@
                    == path@ by {
                    if j < o1.len() {
                        assert(out@[j] == o1[j]);
                    } else if j < o2.len() {
                        assert(out@[j] == o2[j]);
                    }
                }
                i += 1;
                assert(action_keys(out@) =~= start + entries_keys(*n, i as int));
            }
        },
        YamlNode::List(items) => {
            let mut i: usize = 0;
            assert(start + items_keys(*n, 0) =~= start);
            while i < items.len()
                invariant
                    i <= items@.len(),
                    *n == YamlNode::List(*items),
                    action_keys(out@) == start + items_keys(*n, i as int),
                    out@.len() >= out0.len(),
                    forall|j: int| 0 <= j < out0.len() ==> out@[j] == out0[j],
                    forall|j: int| out0.len() <= j < out@.len() ==> (#[trigger] out@[j]).path@ == path@,
                decreases items.len() - i,
            {
                let ghost o1 = out@;
                proof {
                    assert(decreases_to!(*n => *items));
                    assert(decreases_to!(*items => items@));
                    assert(decreases_to!(items@ => items@[i as int]));
                }
                walk(&items[i], path, out);
                assert forall|j: int| out0.len() <= j < out@.len() implies (#[trigger] out@[j]).path@
                    == path@ by {
                    if j < o1.len() {
                        assert(out@[j] == o1[j]);
                    }
                }
                i += 1;
                assert(action_keys(out@) =~= start + items_keys(*n, i as int));
            }
        },
        _ => {
            assert(start + Seq::<Seq<char>>::empty() =~= start);
        },
    }
}

/// The keys of every `env:` mapping of a workflow document, depth first in document order,
/// each marked with `path`.
pub fn workflow_refs(path: &String, doc: &YamlNode) -> (r: Vec<GitHubActionEnvRef>)
    ensures
        action_keys(r@) == workflow_keys(*doc),
        forall|i: int| 0 <= i < r@.len() ==> (#[trigger] r@[i]).path@ == path@,
{
    let mut out: Vec<GitHubActionEnvRef> = Vec::new();
    assert(action_keys(out@) =~= Seq::<Seq<char>>::empty());
    walk(doc, path, &mut out);
    assert(Seq::<Seq<char>>::empty() + workflow_keys(*doc) =~= workflow_keys(*doc));
    out
}

} // verus!
