//! Keys that Kubernetes manifests define or consume.
use vstd::prelude::*;

use crate::parser::yaml::{str_eq, text_of, yaml_get, yaml_text, YamlEntry, YamlNode};

verus! {

/// How a manifest names a key.
#[derive(Debug, Clone, PartialEq, Eq)]
pub enum K8sRefSource {
    /// An entry of a container's `env:` list.
    Direct,
    /// Taken from a Secret through `secretKeyRef`.
    SecretKeyRef { name: String, key: String },
    /// Taken from a ConfigMap through `configMapKeyRef`.
    ConfigMapKeyRef { name: String, key: String },
    /// A key of a ConfigMap's `data`.
    ConfigMapData,
    /// A key of a Secret's `data` or `stringData`.
    SecretData,
    /// Every key of a Secret or ConfigMap, through `envFrom`; names no key of its own.
    EnvFrom { name: String, kind: String },
}

/// One key that a manifest names.
#[derive(Debug, Clone)]
pub struct K8sEnvRef {
    pub key: String,
    pub source: K8sRefSource,
}

/// One manifest document.
#[derive(Debug, Clone)]
pub struct K8sManifest {
    pub path: String,
    pub kind: String,
    pub name: String,
    pub env_refs: Vec<K8sEnvRef>,
}

/// The key physically exists in a ConfigMap or Secret.
pub open spec fn is_defining(s: K8sRefSource) -> bool {
    s is ConfigMapData || s is SecretData
}

/// The reference stands for a whole bundle of keys.
pub open spec fn is_wildcard(s: K8sRefSource) -> bool {
    s is EnvFrom
}

impl K8sRefSource {
    pub fn defines(&self) -> (r: bool)
        ensures
            r == is_defining(*self),
    {
        match self {
            K8sRefSource::ConfigMapData | K8sRefSource::SecretData => true,
            _ => false,
        }
    }

    pub fn is_bundle(&self) -> (r: bool)
        ensures
            r == is_wildcard(*self),
    {
        match self {
            K8sRefSource::EnvFrom { .. } => true,
            _ => false,
        }
    }
}

/// What a reference source holds, as mathematical values.
pub enum SourceModel {
    Direct,
    SecretKeyRef(Seq<char>, Seq<char>),
    ConfigMapKeyRef(Seq<char>, Seq<char>),
    ConfigMapData,
    SecretData,
    EnvFrom(Seq<char>, Seq<char>),
}

impl View for K8sRefSource {
    type V = SourceModel;

    open spec fn view(&self) -> SourceModel {
        match self {
            K8sRefSource::Direct => SourceModel::Direct,
            K8sRefSource::SecretKeyRef { name, key } => SourceModel::SecretKeyRef(name@, key@),
            K8sRefSource::ConfigMapKeyRef { name, key } => SourceModel::ConfigMapKeyRef(name@, key@),
            K8sRefSource::ConfigMapData => SourceModel::ConfigMapData,
            K8sRefSource::SecretData => SourceModel::SecretData,
            K8sRefSource::EnvFrom { name, kind } => SourceModel::EnvFrom(name@, kind@),
        }
    }
}

/// What a reference holds, as mathematical values.
pub struct RefModel {
    pub key: Seq<char>,
    pub source: SourceModel,
}

impl View for K8sEnvRef {
    type V = RefModel;

    open spec fn view(&self) -> RefModel {
        RefModel { key: self.key@, source: self.source@ }
    }
}

pub open spec fn ref_views(v: Seq<K8sEnvRef>) -> Seq<RefModel> {
    v.map_values(|r: K8sEnvRef| r@)
}

pub open spec fn text_or_empty(o: Option<Seq<char>>) -> Seq<char> {
    match o {
        Some(s) => s,
        None => Seq::empty(),
    }
}

/// The items of a list value.
pub open spec fn list_items(o: Option<YamlNode>) -> Option<Seq<YamlNode>> {
    match o {
        Some(YamlNode::List(v)) => Some(v@),
        _ => None,
    }
}

/// The text under `field` of `n`, or nothing.
pub open spec fn field_text(n: YamlNode, field: Seq<char>) -> Seq<char> {
    text_or_empty(yaml_text(yaml_get(n, field)))
}

/// Where an `env:` item takes its value from: a Secret or ConfigMap key under `valueFrom`,
/// else the item itself.
pub open spec fn source_model(item: YamlNode) -> SourceModel {
    match yaml_get(item, "valueFrom"@) {
        Some(vf) => match yaml_get(vf, "secretKeyRef"@) {
            Some(r) => SourceModel::SecretKeyRef(field_text(r, "name"@), field_text(r, "key"@)),
            None => match yaml_get(vf, "configMapKeyRef"@) {
                Some(r) => SourceModel::ConfigMapKeyRef(
                    field_text(r, "name"@),
                    field_text(r, "key"@),
                ),
                None => SourceModel::Direct,
            },
        },
        None => SourceModel::Direct,
    }
}

/// References of the first `n` items of an `env:` list: each item with a string `name`.
pub open spec fn env_item_refs(items: Seq<YamlNode>, n: int) -> Seq<RefModel>
    decreases n,
{
    if n <= 0 || n > items.len() {
        Seq::empty()
    } else {
        let prev = env_item_refs(items, n - 1);
        match yaml_text(yaml_get(items[n - 1], "name"@)) {
            Some(name) => prev.push(RefModel { key: name, source: source_model(items[n - 1]) }),
            None => prev,
        }
    }
}

/// A wildcard reference to the bundle named under `field` of `item`, if it names one.
pub open spec fn bundle_ref(item: YamlNode, field: Seq<char>, marker: Seq<char>, kind: Seq<char>) -> Seq<RefModel> {
    match yaml_get(item, field) {
        Some(r) => match yaml_text(yaml_get(r, "name"@)) {
            Some(name) => seq![RefModel { key: marker, source: SourceModel::EnvFrom(name, kind) }],
            None => Seq::empty(),
        },
        None => Seq::empty(),
    }
}

/// References of the first `n` items of an `envFrom:` list.
pub open spec fn env_from_refs(items: Seq<YamlNode>, n: int) -> Seq<RefModel>
    decreases n,
{
    if n <= 0 || n > items.len() {
        Seq::empty()
    } else {
        env_from_refs(items, n - 1) + bundle_ref(items[n - 1], "secretRef"@, "SECRET_REF:*"@, "Secret"@)
            + bundle_ref(items[n - 1], "configMapRef"@, "CM_REF:*"@, "ConfigMap"@)
    }
}

pub open spec fn container_refs(c: YamlNode) -> Seq<RefModel> {
    let a = match list_items(yaml_get(c, "env"@)) {
        Some(items) => env_item_refs(items, items.len() as int),
        None => Seq::empty(),
    };
    let b = match list_items(yaml_get(c, "envFrom"@)) {
        Some(items) => env_from_refs(items, items.len() as int),
        None => Seq::empty(),
    };
    a + b
}

pub open spec fn containers_refs(cs: Seq<YamlNode>, n: int) -> Seq<RefModel>
    decreases n,
{
    if n <= 0 || n > cs.len() {
        Seq::empty()
    } else {
        containers_refs(cs, n - 1) + container_refs(cs[n - 1])
    }
}

/// The containers of a workload: under `spec.template.spec`, or under `spec` for a Pod.
pub open spec fn containers_of(doc: YamlNode) -> Option<YamlNode> {
    match yaml_get(doc, "spec"@) {
        Some(spec) => match yaml_get(spec, "template"@) {
            Some(t) => match yaml_get(t, "spec"@) {
                Some(ps) => yaml_get(ps, "containers"@),
                None => None,
            },
            None => yaml_get(spec, "containers"@),
        },
        None => None,
    }
}

pub open spec fn pod_refs(doc: YamlNode) -> Seq<RefModel> {
    match list_items(containers_of(doc)) {
        Some(cs) => containers_refs(cs, cs.len() as int),
        None => Seq::empty(),
    }
}

/// References for the first `n` string keys of a mapping.
pub open spec fn entry_key_refs(es: Seq<YamlEntry>, n: int, source: SourceModel) -> Seq<RefModel>
    decreases n,
{
    if n <= 0 || n > es.len() {
        Seq::empty()
    } else {
        let prev = entry_key_refs(es, n - 1, source);
        match es[n - 1].key {
            YamlNode::Str(s) => prev.push(RefModel { key: s@, source }),
            _ => prev,
        }
    }
}

pub open spec fn data_refs(o: Option<YamlNode>, source: SourceModel) -> Seq<RefModel> {
    match o {
        Some(YamlNode::Mapping(es)) => entry_key_refs(es@, es@.len() as int, source),
        _ => Seq::empty(),
    }
}

pub open spec fn is_workload(kind: Seq<char>) -> bool {
    kind == "Deployment"@ || kind == "StatefulSet"@ || kind == "DaemonSet"@ || kind == "Job"@
        || kind == "CronJob"@ || kind == "Pod"@
}

/// The references of a document of kind `kind`: container env entries of workloads, the
/// `data` keys of a ConfigMap, the `stringData` then `data` keys of a Secret.
pub open spec fn document_refs(kind: Seq<char>, doc: YamlNode) -> Seq<RefModel> {
    if is_workload(kind) {
        pod_refs(doc)
    } else if kind == "ConfigMap"@ {
        data_refs(yaml_get(doc, "data"@), SourceModel::ConfigMapData)
    } else if kind == "Secret"@ {
        data_refs(yaml_get(doc, "stringData"@), SourceModel::SecretData) + data_refs(
            yaml_get(doc, "data"@),
            SourceModel::SecretData,
        )
    } else {
        Seq::empty()
    }
}

/// The `metadata.name` of a document.
pub open spec fn document_name(doc: YamlNode) -> Option<Seq<char>> {
    match yaml_get(doc, "metadata"@) {
        Some(m) => yaml_text(yaml_get(m, "name"@)),
        None => None,
    }
}

fn copy_string(s: &String) -> (r: String)
    ensures
        r@ == s@,
{
    s.clone()
}

fn field_string(n: &YamlNode, field: &str) -> (r: String)
    ensures
        r@ == field_text(*n, field@),
{
    match text_of(n.get(field)) {
        Some(s) => copy_string(s),
        None => String::new(),
    }
}

fn source_for(item: &YamlNode) -> (r: K8sRefSource)
    ensures
        r@ == source_model(*item),
{
    match item.get("valueFrom") {
        Some(vf) => match vf.get("secretKeyRef") {
            Some(r) => K8sRefSource::SecretKeyRef {
                name: field_string(r, "name"),
                key: field_string(r, "key"),
            },
            None => match vf.get("configMapKeyRef") {
                Some(r) => K8sRefSource::ConfigMapKeyRef {
                    name: field_string(r, "name"),
                    key: field_string(r, "key"),
                },
                None => K8sRefSource::Direct,
            },
        },
        None => K8sRefSource::Direct,
    }
}

fn push_ref(out: &mut Vec<K8sEnvRef>, r: K8sEnvRef)
    ensures
        ref_views(final(out)@) == ref_views(old(out)@).push(r@),
{
    let ghost prev = ref_views(out@);
    out.push(r);
    assert(ref_views(out@) =~= prev.push(r@));
}

fn env_items(items: &Vec<YamlNode>, out: &mut Vec<K8sEnvRef>)
    ensures
        ref_views(final(out)@) == ref_views(old(out)@) + env_item_refs(items@, items@.len() as int),
{
    let ghost start = ref_views(out@);
    let mut i: usize = 0;
    assert(start + env_item_refs(items@, 0) =~= start);
    while i < items.len()
        invariant
            i <= items@.len(),
            ref_views(out@) == start + env_item_refs(items@, i as int),
        decreases items.len() - i,
    {
        let item = &items[i];
        match text_of(item.get("name")) {
            Some(name) => {
                let r = K8sEnvRef { key: copy_string(name), source: source_for(item) };
                push_ref(out, r);
                assert(start + env_item_refs(items@, i + 1) =~= (start + env_item_refs(
                    items@,
                    i as int,
                )).push(r@));
            },
            None => {},
        }
        i += 1;
    }
}

fn bundle(item: &YamlNode, field: &str, marker: &str, kind: &str, out: &mut Vec<K8sEnvRef>)
    ensures
        ref_views(final(out)@) == ref_views(old(out)@) + bundle_ref(*item, field@, marker@, kind@),
{
    let ghost start = ref_views(out@);
    match item.get(field) {
        Some(r) => match text_of(r.get("name")) {
            Some(name) => {
                let e = K8sEnvRef {
                    key: marker.to_owned(),
                    source: K8sRefSource::EnvFrom { name: copy_string(name), kind: kind.to_owned() },
                };
                push_ref(out, e);
                assert(start.push(e@) =~= start + seq![e@]);
            },
            None => {
                assert(start + Seq::<RefModel>::empty() =~= start);
            },
        },
        None => {
            assert(start + Seq::<RefModel>::empty() =~= start);
        },
    }
}

fn env_from_items(items: &Vec<YamlNode>, out: &mut Vec<K8sEnvRef>)
    ensures
        ref_views(final(out)@) == ref_views(old(out)@) + env_from_refs(items@, items@.len() as int),
{
    let ghost start = ref_views(out@);
    let mut i: usize = 0;
    assert(start + env_from_refs(items@, 0) =~= start);
    while i < items.len()
        invariant
            i <= items@.len(),
            ref_views(out@) == start + env_from_refs(items@, i as int),
        decreases items.len() - i,
    {
        let item = &items[i];
        bundle(item, "secretRef", "SECRET_REF:*", "Secret", out);
        bundle(item, "configMapRef", "CM_REF:*", "ConfigMap", out);
        i += 1;
        assert(ref_views(out@) =~= start + env_from_refs(items@, i as int));
    }
}

fn container(c: &YamlNode, out: &mut Vec<K8sEnvRef>)
    ensures
        ref_views(final(out)@) == ref_views(old(out)@) + container_refs(*c),
{
    let ghost start = ref_views(out@);
    match c.get("env") {
        Some(YamlNode::List(items)) => env_items(items, out),
        _ => {},
    }
    let ghost mid = ref_views(out@);
    match c.get("envFrom") {
        Some(YamlNode::List(items)) => env_from_items(items, out),
        _ => {},
    }
    assert(ref_views(out@) =~= start + container_refs(*c));
}

fn pod_spec_env(doc: &YamlNode, out: &mut Vec<K8sEnvRef>)
    ensures
        ref_views(final(out)@) == ref_views(old(out)@) + pod_refs(*doc),
{
    let ghost start = ref_views(out@);
    let containers = match doc.get("spec") {
        Some(spec) => match spec.get("template") {
            Some(t) => match t.get("spec") {
                Some(ps) => ps.get("containers"),
                None => None,
            },
            None => spec.get("containers"),
        },
        None => None,
    };
    match containers {
        Some(YamlNode::List(cs)) => {
            let mut i: usize = 0;
            assert(start + containers_refs(cs@, 0) =~= start);
            while i < cs.len()
                invariant
                    i <= cs@.len(),
                    ref_views(out@) == start + containers_refs(cs@, i as int),
                decreases cs.len() - i,
            {
                container(&cs[i], out);
                i += 1;
                assert(ref_views(out@) =~= start + containers_refs(cs@, i as int));
            }
        },
        _ => {
            assert(start + Seq::<RefModel>::empty() =~= start);
        },
    }
}

fn data_keys(o: Option<&YamlNode>, defining_secret: bool, out: &mut Vec<K8sEnvRef>)
    ensures
        ref_views(final(out)@) == ref_views(old(out)@) + data_refs(
            match o {
                Some(v) => Some(*v),
                None => None,
            },
            if defining_secret {
                SourceModel::SecretData
            } else {
                SourceModel::ConfigMapData
            },
        ),
{
    let ghost start = ref_views(out@);
    let ghost src = if defining_secret {
        SourceModel::SecretData
    } else {
        SourceModel::ConfigMapData
    };
    match o {
        Some(YamlNode::Mapping(es)) => {
            let mut i: usize = 0;
            assert(start + entry_key_refs(es@, 0, src) =~= start);
            while i < es.len()
                invariant
                    i <= es@.len(),
                    src == if defining_secret {
                        SourceModel::SecretData
                    } else {
                        SourceModel::ConfigMapData
                    },
                    ref_views(out@) == start + entry_key_refs(es@, i as int, src),
                decreases es.len() - i,
            {
                match &es[i].key {
                    YamlNode::Str(s) => {
                        let source = if defining_secret {
                            K8sRefSource::SecretData
                        } else {
                            K8sRefSource::ConfigMapData
                        };
                        let r = K8sEnvRef { key: copy_string(s), source };
                        push_ref(out, r);
                    },
                    _ => {},
                }
                i += 1;
                assert(ref_views(out@) =~= start + entry_key_refs(es@, i as int, src));
            }
        },
        _ => {
            assert(start + Seq::<RefModel>::empty() =~= start);
        },
    }
}

fn kind_is_workload(kind: &String) -> (r: bool)
    ensures
        r == is_workload(kind@),
{
    let k = kind.as_str();
    str_eq(k, "Deployment") || str_eq(k, "StatefulSet") || str_eq(k, "DaemonSet") || str_eq(
        k,
        "Job",
    ) || str_eq(k, "CronJob") || str_eq(k, "Pod")
}

impl K8sManifest {
    /// Reads one manifest document: nothing when it lacks a string `kind` or a string
    /// `metadata.name`; otherwise the keys it defines or consumes, in document order.
    pub fn from_document(path: String, doc: &YamlNode) -> (r: Option<K8sManifest>)
        ensures
            match (yaml_text(yaml_get(*doc, "kind"@)), document_name(*doc)) {
                (Some(kind), Some(name)) => r matches Some(m) && m.path@ == path@ && m.kind@ == kind
                    && m.name@ == name && ref_views(m.env_refs@) == document_refs(kind, *doc),
                _ => r is None,
            },
    {
        let kind = match text_of(doc.get("kind")) {
            Some(k) => copy_string(k),
            None => return None,
        };
        let name = match doc.get("metadata") {
            Some(m) => match text_of(m.get("name")) {
                Some(n) => copy_string(n),
                None => return None,
            },
            None => return None,
        };
        let mut env_refs: Vec<K8sEnvRef> = Vec::new();
        let ghost empty = ref_views(env_refs@);
        assert(empty =~= Seq::<RefModel>::empty());
        if kind_is_workload(&kind) {
            pod_spec_env(doc, &mut env_refs);
        } else if str_eq(kind.as_str(), "ConfigMap") {
            data_keys(doc.get("data"), false, &mut env_refs);
        } else if str_eq(kind.as_str(), "Secret") {
            data_keys(doc.get("stringData"), true, &mut env_refs);
            data_keys(doc.get("data"), true, &mut env_refs);
        }
        assert(ref_views(env_refs@) =~= document_refs(kind@, *doc));
        Some(K8sManifest { path, kind, name, env_refs })
    }
}

} // verus!
