//! Environment entries of Argo CD Applications.
use vstd::prelude::*;

use crate::parser::k8s::{list_items, text_or_empty};
use crate::parser::yaml::{text_of, yaml_get, yaml_text, YamlNode};
use crate::text::{chars_of, starts_with, starts_with_vec};

verus! {

/// Where in an Application the entry stands.
#[derive(Debug, Clone, Copy, PartialEq, Eq, Structural)]
pub enum EnvSource {
    /// `plugin.env`.
    Plugin,
    /// `kustomize.commonEnv`, `kustomize.env` or `kustomize.commonEnvs`.
    Kustomize,
}

/// An environment entry of an Application's source.
#[derive(Debug, Clone, PartialEq, Eq)]
pub struct ArgoCDEnvRef {
    pub env_var: String,
    pub path: String,
    pub source: EnvSource,
}

/// An entry as mathematical values: the key and where it stands.
pub open spec fn argo_view(r: ArgoCDEnvRef) -> (Seq<char>, EnvSource) {
    (r.env_var@, r.source)
}

pub open spec fn argo_views(v: Seq<ArgoCDEnvRef>) -> Seq<(Seq<char>, EnvSource)> {
    v.map_values(|r: ArgoCDEnvRef| argo_view(r))
}

/// The document is an Argo CD `Application`.
pub open spec fn is_application(doc: YamlNode) -> bool {
    &&& text_or_empty(yaml_text(yaml_get(doc, "kind"@))) == "Application"@
    &&& starts_with(text_or_empty(yaml_text(yaml_get(doc, "apiVersion"@))), "argoproj.io"@)
}

/// The first `n` items of a list that have a string `name`.
pub open spec fn named_items(items: Seq<YamlNode>, n: int, source: EnvSource) -> Seq<(Seq<char>, EnvSource)>
    decreases n,
{
    if n <= 0 || n > items.len() {
        Seq::empty()
    } else {
        let prev = named_items(items, n - 1, source);
        match yaml_text(yaml_get(items[n - 1], "name"@)) {
            Some(name) => prev.push((name, source)),
            None => prev,
        }
    }
}

pub open spec fn named_list(o: Option<YamlNode>, source: EnvSource) -> Seq<(Seq<char>, EnvSource)> {
    match list_items(o) {
        Some(items) => named_items(items, items.len() as int, source),
        None => Seq::empty(),
    }
}

/// Entries of one source: `plugin.env`, then `kustomize.commonEnv`, `kustomize.env` and
/// `kustomize.commonEnvs`.
pub open spec fn source_entries(src: YamlNode) -> Seq<(Seq<char>, EnvSource)> {
    let a = match yaml_get(src, "plugin"@) {
        Some(p) => named_list(yaml_get(p, "env"@), EnvSource::Plugin),
        None => Seq::empty(),
    };
    let b = match yaml_get(src, "kustomize"@) {
        Some(k) => named_list(yaml_get(k, "commonEnv"@), EnvSource::Kustomize) + named_list(
            yaml_get(k, "env"@),
            EnvSource::Kustomize,
        ) + named_list(yaml_get(k, "commonEnvs"@), EnvSource::Kustomize),
        None => Seq::empty(),
    };
    a + b
}

pub open spec fn sources_entries(ss: Seq<YamlNode>, n: int) -> Seq<(Seq<char>, EnvSource)>
    decreases n,
{
    if n <= 0 || n > ss.len() {
        Seq::empty()
    } else {
        sources_entries(ss, n - 1) + source_entries(ss[n - 1])
    }
}

/// Entries of an Application: its `spec.source`, then each of its `spec.sources`.
pub open spec fn application_entries(doc: YamlNode) -> Seq<(Seq<char>, EnvSource)> {
    match yaml_get(doc, "spec"@) {
        Some(spec) => {
            let a = match yaml_get(spec, "source"@) {
                Some(src) => source_entries(src),
                None => Seq::empty(),
            };
            let b = match list_items(yaml_get(spec, "sources"@)) {
                Some(ss) => sources_entries(ss, ss.len() as int),
                None => Seq::empty(),
            };
            a + b
        },
        None => Seq::empty(),
    }
}

fn text_or_blank(n: Option<&YamlNode>) -> (r: Vec<char>)
    ensures
        r@ == text_or_empty(
            yaml_text(
                match n {
                    Some(v) => Some(*v),
                    None => None,
                },
            ),
        ),
{
    match text_of(n) {
        Some(s) => chars_of(s.as_str()),
        None => Vec::new(),
    }
}

fn application_kind(doc: &YamlNode) -> (r: bool)
    ensures
        r == is_application(*doc),
{
    let kind = text_or_blank(doc.get("kind"));
    let api = text_or_blank(doc.get("apiVersion"));
    let app = chars_of("Application");
    let prefix = chars_of("argoproj.io");
    let same = kind.len() == app.len() && starts_with_vec(kind.as_slice(), app.as_slice());
    proof {
        if kind@.len() == app@.len() && starts_with(kind@, app@) {
            assert(kind@ =~= kind@.subrange(0, app@.len() as int));
        }
        if kind@ == app@ {
            assert(kind@.subrange(0, kind@.len() as int) =~= kind@);
        }
    }
    same && starts_with_vec(api.as_slice(), prefix.as_slice())
}

fn push_entry(out: &mut Vec<ArgoCDEnvRef>, r: ArgoCDEnvRef)
    ensures
        argo_views(final(out)@) == argo_views(old(out)@).push(argo_view(r)),
        forall|i: int| 0 <= i < old(out)@.len() ==> final(out)@[i] == old(out)@[i],
        final(out)@.len() == old(out)@.len() + 1,
        final(out)@.last() == r,
{
    let ghost prev = argo_views(out@);
    out.push(r);
    assert(argo_views(out@) =~= prev.push(argo_view(r)));
}

fn named(list: Option<&YamlNode>, path: &String, source: EnvSource, out: &mut Vec<ArgoCDEnvRef>)
    ensures
        argo_views(final(out)@) == argo_views(old(out)@) + named_list(
            match list {
                Some(v) => Some(*v),
                None => None,
            },
            source,
        ),
        forall|i: int| 0 <= i < old(out)@.len() ==> final(out)@[i] == old(out)@[i],
        forall|i: int|
            old(out)@.len() <= i < final(out)@.len() ==> (#[trigger] final(out)@[i]).path@ == path@,
{
    let ghost start = argo_views(out@);
    let ghost out0 = out@;
    match list {
        Some(YamlNode::List(items)) => {
            let mut i: usize = 0;
            assert(start + named_items(items@, 0, source) =~= start);
            while i < items.len()
                invariant
                    i <= items@.len(),
                    argo_views(out@) == start + named_items(items@, i as int, source),
                    out@.len() >= out0.len(),
                    forall|j: int| 0 <= j < out0.len() ==> out@[j] == out0[j],
                    forall|j: int| out0.len() <= j < out@.len() ==> (#[trigger] out@[j]).path@ == path@,
                decreases items.len() - i,
            {
                match text_of(items[i].get("name")) {
                    Some(name) => {
                        let r = ArgoCDEnvRef { env_var: name.clone(), path: path.clone(), source };
                        let ghost before = argo_views(out@);
                        push_entry(out, r);
                        assert(start + named_items(items@, i + 1, source) =~= before.push(argo_view(r)));
                    },
                    None => {},
                }
                i += 1;
            }
        },
        _ => {
            assert(start + Seq::<(Seq<char>, EnvSource)>::empty() =~= start);
        },
    }
}

fn source_refs(src: &YamlNode, path: &String, out: &mut Vec<ArgoCDEnvRef>)
    ensures
        argo_views(final(out)@) == argo_views(old(out)@) + source_entries(*src),
        forall|i: int| 0 <= i < old(out)@.len() ==> final(out)@[i] == old(out)@[i],
        forall|i: int|
            old(out)@.len() <= i < final(out)@.len() ==> (#[trigger] final(out)@[i]).path@ == path@,
{
    let ghost start = argo_views(out@);
    let ghost out0 = out@;
    match src.get("plugin") {
        Some(p) => named(p.get("env"), path, EnvSource::Plugin, out),
        None => {},
    }
    let ghost out1 = out@;
    match src.get("kustomize") {
        Some(k) => {
            named(k.get("commonEnv"), path, EnvSource::Kustomize, out);
            named(k.get("env"), path, EnvSource::Kustomize, out);
            named(k.get("commonEnvs"), path, EnvSource::Kustomize, out);
        },
        None => {},
    }
    assert(argo_views(out@) =~= start + source_entries(*src));
    assert forall|i: int| out0.len() <= i < out@.len() implies (#[trigger] out@[i]).path@ == path@ by {
        if i < out1.len() {
            assert(out@[i] == out1[i]);
        }
    }
}

/// The environment entries of an Argo CD Application document, each marked with `path`;
/// none for any other document.
pub fn application_refs(path: &String, doc: &YamlNode) -> (r: Vec<ArgoCDEnvRef>)
    ensures
        !is_application(*doc) ==> r@.len() == 0,
        is_application(*doc) ==> argo_views(r@) == application_entries(*doc),
        forall|i: int| 0 <= i < r@.len() ==> (#[trigger] r@[i]).path@ == path@,
{
    let mut out: Vec<ArgoCDEnvRef> = Vec::new();
    if !application_kind(doc) {
        return out;
    }
    assert(argo_views(out@) =~= Seq::<(Seq<char>, EnvSource)>::empty());
    match doc.get("spec") {
        Some(spec) => {
            match spec.get("source") {
                Some(src) => source_refs(src, path, &mut out),
                None => {},
            }
            let ghost out1 = out@;
            let ghost mid = argo_views(out@);
            match spec.get("sources") {
                Some(YamlNode::List(ss)) => {
                    let mut i: usize = 0;
                    assert(mid + sources_entries(ss@, 0) =~= mid);
                    while i < ss.len()
                        invariant
                            i <= ss@.len(),
                            argo_views(out@) == mid + sources_entries(ss@, i as int),
                            forall|j: int| 0 <= j < out@.len() ==> (#[trigger] out@[j]).path@ == path@,
                        decreases ss.len() - i,
                    {
                        let ghost before = out@;
                        source_refs(&ss[i], path, &mut out);
                        assert forall|j: int| 0 <= j < out@.len() implies (#[trigger] out@[j]).path@
                            == path@ by {
                            if j < before.len() {
                                assert(out@[j] == before[j]);
                            }
                        }
                        i += 1;
                        assert(argo_views(out@) =~= mid + sources_entries(ss@, i as int));
                    }
                },
                _ => {
                    assert(mid + Seq::<(Seq<char>, EnvSource)>::empty() =~= mid);
                },
            }
            assert(argo_views(out@) =~= application_entries(*doc));
        },
        None => {},
    }
    out
}

} // verus!
