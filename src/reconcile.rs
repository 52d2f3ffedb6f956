//! Reconciliation of env keys: one env file against others, and an env file against the keys
//! that infrastructure manifests define or consume.
use vstd::prelude::*;

use crate::error::EnvCheckError;
use crate::parser::env::{var_views, EnvFile, EnvVar, VarModel};
use crate::parser::ansible::AnsibleEnvRef;
use crate::parser::argocd::ArgoCDEnvRef;
use crate::parser::github_actions::GitHubActionEnvRef;
use crate::parser::helm::HelmEnvRef;
use crate::parser::k8s::{is_defining, is_wildcard, K8sEnvRef, K8sManifest};
use crate::parser::terraform::TerraformVariable;
use crate::rules::duplicate::last_before;
use crate::rules::{
    concat3, concat5, diag, diag_views, extend_diags, file_vars, DiagModel, Diagnostic, RuleId,
    Severity,
};

verus! {

/// Some entry of `vars` has key `key`.
pub open spec fn has_key(vars: Seq<VarModel>, key: Seq<char>) -> bool {
    exists|i: int| 0 <= i < vars.len() && vars[i].key == key
}

/// Whether some entry of `vars` has key `key`.
pub fn env_has_key(vars: &Vec<EnvVar>, key: &String) -> (r: bool)
    ensures
        r == has_key(var_views(vars@), key@),
{
    let ghost vs = var_views(vars@);
    let mut i: usize = 0;
    while i < vars.len()
        invariant
            i <= vars@.len(),
            vs == var_views(vars@),
            forall|j: int| 0 <= j < i ==> vs[j].key != key@,
        decreases vars.len() - i,
    {
        assert(vs[i as int] == vars@[i as int]@);
        if vars[i].key == *key {
            return true;
        }
        i += 1;
    }
    false
}

/// Whether an entry before `j` has key `key`.
fn has_key_before(vars: &Vec<EnvVar>, key: &String, j: usize) -> (r: bool)
    requires
        j <= vars@.len(),
    ensures
        r == (last_before(var_views(vars@), key@, j as int) is Some),
{
    let ghost vs = var_views(vars@);
    let mut k: usize = j;
    while k > 0
        invariant
            k <= j <= vars@.len(),
            vs == var_views(vars@),
            last_before(vs, key@, j as int) == last_before(vs, key@, k as int),
        decreases k,
    {
        assert(vs[k - 1] == vars@[k - 1]@);
        if vars[k - 1].key == *key {
            return true;
        }
        k -= 1;
    }
    false
}

pub open spec fn missing_message(key: Seq<char>, reference: Seq<char>) -> Seq<char> {
    "Missing key '"@ + key + "' (present in "@ + reference + ")"@
}

/// Warnings for the first `n` entries of the reference file: each key, at its first
/// occurrence, that `other_vars` lacks.
pub open spec fn missing_upto(
    ref_path: Seq<char>,
    ref_vars: Seq<VarModel>,
    other_path: Seq<char>,
    other_vars: Seq<VarModel>,
    n: int,
) -> Seq<DiagModel>
    decreases n,
{
    if n <= 0 {
        Seq::empty()
    } else {
        let prev = missing_upto(ref_path, ref_vars, other_path, other_vars, n - 1);
        let key = ref_vars[n - 1].key;
        if last_before(ref_vars, key, n - 1) is None && !has_key(other_vars, key) {
            prev.push(
                diag(
                    RuleId::W004,
                    Severity::Warning,
                    missing_message(key, ref_path),
                    other_path,
                    None,
                ),
            )
        } else {
            prev
        }
    }
}

/// Warnings for the keys of `reference` that `other` lacks.
pub open spec fn missing_between(reference: EnvFile, other: EnvFile) -> Seq<DiagModel> {
    missing_upto(
        reference.path@,
        file_vars(&reference),
        other.path@,
        file_vars(&other),
        file_vars(&reference).len() as int,
    )
}

/// Warnings against the first file for files `1..m`.
pub open spec fn compare_upto(files: Seq<EnvFile>, m: int) -> Seq<DiagModel>
    decreases m,
{
    if m <= 1 || m > files.len() {
        Seq::empty()
    } else {
        compare_upto(files, m - 1) + missing_between(files[0], files[m - 1])
    }
}

pub open spec fn compare_findings(files: Seq<EnvFile>) -> Seq<DiagModel> {
    compare_upto(files, files.len() as int)
}

/// Warnings for the keys of `reference` that `other` lacks.
fn missing_in(reference: &EnvFile, other: &EnvFile) -> (r: Vec<Diagnostic>)
    ensures
        diag_views(r@) == missing_between(*reference, *other),
{
    let vars = &reference.vars;
    let ghost vs = file_vars(reference);
    let mut out: Vec<Diagnostic> = Vec::new();
    let mut j: usize = 0;
    while j < vars.len()
        invariant
            j <= vars@.len(),
            vs == file_vars(reference),
            vars == &reference.vars,
            diag_views(out@) == missing_upto(
                reference.path@,
                vs,
                other.path@,
                file_vars(other),
                j as int,
            ),
        decreases vars.len() - j,
    {
        let key = &vars[j].key;
        assert(vs[j as int] == vars@[j as int]@);
        if !has_key_before(vars, key, j) && !env_has_key(&other.vars, key) {
            let d = Diagnostic {
                id: RuleId::W004,
                severity: Severity::Warning,
                message: concat5(
                    "Missing key '",
                    key.as_str(),
                    "' (present in ",
                    reference.path.as_str(),
                    ")",
                ),
                path: other.path.clone(),
                line: None,
            };
            let ghost prev = diag_views(out@);
            out.push(d);
            assert(diag_views(out@) =~= prev.push(d@));
        }
        j += 1;
    }
    out
}

/// Compares env files against the first, the reference: one warning for each key of the
/// reference, per other file that lacks it. Keys found only in other files are not reported.
pub fn compare_files(files: &Vec<EnvFile>) -> (r: Result<Vec<Diagnostic>, EnvCheckError>)
    ensures
        files@.len() < 2 ==> r == Err::<Vec<Diagnostic>, EnvCheckError>(
            EnvCheckError::InsufficientFiles { count: files@.len() as usize },
        ),
        files@.len() >= 2 ==> (r matches Ok(d) && diag_views(d@) == compare_findings(files@)),
{
    if files.len() < 2 {
        return Err(EnvCheckError::InsufficientFiles { count: files.len() });
    }
    let mut out: Vec<Diagnostic> = Vec::new();
    let mut m: usize = 1;
    while m < files.len()
        invariant
            1 <= m <= files@.len(),
            diag_views(out@) == compare_upto(files@, m as int),
        decreases files.len() - m,
    {
        let found = missing_in(&files[0], &files[m]);
        extend_diags(&mut out, &found);
        m += 1;
    }
    Ok(out)
}

/// Keys of the reference that the other file lacks raise no warning once the other file
/// has every one of them; so a file holding a subset of another's keys, compared as the
/// reference, yields no warning, whatever the other holds beyond it.
pub proof fn law_compare_subset_is_silent(reference: EnvFile, other: EnvFile)
    requires
        forall|k: Seq<char>| has_key(file_vars(&reference), k) ==> has_key(file_vars(&other), k),
    ensures
        compare_findings(seq![reference, other]).len() == 0,
{
    let files = seq![reference, other];
    let rv = file_vars(&reference);
    assert forall|n: int| 0 <= n <= rv.len() implies missing_upto(
        reference.path@,
        rv,
        other.path@,
        file_vars(&other),
        n,
    ).len() == 0 by {
        lemma_missing_none(reference.path@, rv, other.path@, file_vars(&other), n);
    }
    assert(compare_upto(files, 1).len() == 0);
}

proof fn lemma_missing_none(
    ref_path: Seq<char>,
    ref_vars: Seq<VarModel>,
    other_path: Seq<char>,
    other_vars: Seq<VarModel>,
    n: int,
)
    requires
        0 <= n <= ref_vars.len(),
        forall|k: Seq<char>| has_key(ref_vars, k) ==> has_key(other_vars, k),
    ensures
        missing_upto(ref_path, ref_vars, other_path, other_vars, n).len() == 0,
    decreases n,
{
    if n > 0 {
        lemma_missing_none(ref_path, ref_vars, other_path, other_vars, n - 1);
        assert(has_key(ref_vars, ref_vars[n - 1].key));
    }
}

pub open spec fn found_message(key: Seq<char>, kind: Seq<char>, name: Seq<char>) -> Seq<char> {
    "Key '"@ + key + "' found in K8s "@ + kind + "/"@ + name + " but missing in .env"@
}

pub open spec fn referenced_message(key: Seq<char>, kind: Seq<char>, name: Seq<char>) -> Seq<
    char,
> {
    "Key '"@ + key + "' referenced in K8s "@ + kind + "/"@ + name + " but missing in .env"@
}

pub open spec fn unused_message(key: Seq<char>) -> Seq<char> {
    "Key '"@ + key + "' in .env but not found in any K8s manifest"@
}

/// The reference belongs to the class being checked: defining when `defining`, else
/// consuming a concrete key.
pub open spec fn in_class(r: K8sEnvRef, defining: bool) -> bool {
    if defining {
        is_defining(r.source)
    } else {
        !is_defining(r.source) && !is_wildcard(r.source)
    }
}

/// Warnings for the first `n` references of `m` of one class whose key the env file lacks.
pub open spec fn manifest_missing(
    env_vars: Seq<VarModel>,
    m: K8sManifest,
    defining: bool,
    n: int,
) -> Seq<DiagModel>
    decreases n,
{
    if n <= 0 {
        Seq::empty()
    } else {
        let prev = manifest_missing(env_vars, m, defining, n - 1);
        let r = m.env_refs@[n - 1];
        if in_class(r, defining) && !has_key(env_vars, r.key@) {
            let msg = if defining {
                found_message(r.key@, m.kind@, m.name@)
            } else {
                referenced_message(r.key@, m.kind@, m.name@)
            };
            prev.push(diag(RuleId::W005, Severity::Warning, msg, m.path@, None))
        } else {
            prev
        }
    }
}

/// Warnings for the first `k` manifests, for one class of references.
pub open spec fn manifests_missing(
    env_vars: Seq<VarModel>,
    ms: Seq<K8sManifest>,
    defining: bool,
    k: int,
) -> Seq<DiagModel>
    decreases k,
{
    if k <= 0 || k > ms.len() {
        Seq::empty()
    } else {
        manifests_missing(env_vars, ms, defining, k - 1) + manifest_missing(
            env_vars,
            ms[k - 1],
            defining,
            ms[k - 1].env_refs@.len() as int,
        )
    }
}

/// Some manifest names `key` by a reference that is not a wildcard.
pub open spec fn named_concretely(ms: Seq<K8sManifest>, key: Seq<char>) -> bool {
    exists|i: int, j: int|
        0 <= i < ms.len() && 0 <= j < ms[i].env_refs@.len() && !is_wildcard(
            ms[i].env_refs@[j].source,
        ) && ms[i].env_refs@[j].key@ == key
}

/// Notes for the first `n` env entries: each key, at its first occurrence, that no manifest
/// names concretely.
pub open spec fn unused_upto(
    path: Seq<char>,
    env_vars: Seq<VarModel>,
    ms: Seq<K8sManifest>,
    n: int,
) -> Seq<DiagModel>
    decreases n,
{
    if n <= 0 {
        Seq::empty()
    } else {
        let prev = unused_upto(path, env_vars, ms, n - 1);
        let v = env_vars[n - 1];
        if last_before(env_vars, v.key, n - 1) is None && !named_concretely(ms, v.key) {
            prev.push(diag(RuleId::W006, Severity::Info, unused_message(v.key), path, Some(v.line)))
        } else {
            prev
        }
    }
}

/// Everything that reconciling `env` with `ms` reports: defined keys missing from the env
/// file, then consumed keys missing from it, then env keys that no manifest names.
pub open spec fn sync_findings(env: EnvFile, ms: Seq<K8sManifest>) -> Seq<DiagModel> {
    let vs = file_vars(&env);
    manifests_missing(vs, ms, true, ms.len() as int) + manifests_missing(
        vs,
        ms,
        false,
        ms.len() as int,
    ) + unused_upto(env.path@, vs, ms, vs.len() as int)
}

fn class_of(r: &K8sEnvRef, defining: bool) -> (b: bool)
    ensures
        b == in_class(*r, defining),
{
    if defining {
        r.source.defines()
    } else {
        !r.source.defines() && !r.source.is_bundle()
    }
}

/// Warnings for the references of `m` of one class whose key `env` lacks.
fn missing_from_manifest(env: &EnvFile, m: &K8sManifest, defining: bool) -> (r: Vec<Diagnostic>)
    ensures
        diag_views(r@) == manifest_missing(
            file_vars(env),
            *m,
            defining,
            m.env_refs@.len() as int,
        ),
{
    let refs = &m.env_refs;
    let mut out: Vec<Diagnostic> = Vec::new();
    let mut j: usize = 0;
    while j < refs.len()
        invariant
            j <= refs@.len(),
            refs == &m.env_refs,
            diag_views(out@) == manifest_missing(file_vars(env), *m, defining, j as int),
        decreases refs.len() - j,
    {
        let r = &refs[j];
        if class_of(r, defining) && !env_has_key(&env.vars, &r.key) {
            let msg = if defining {
                concat5(
                    "Key '",
                    r.key.as_str(),
                    "' found in K8s ",
                    m.kind.as_str(),
                    "/",
                )
            } else {
                concat5(
                    "Key '",
                    r.key.as_str(),
                    "' referenced in K8s ",
                    m.kind.as_str(),
                    "/",
                )
            };
            let message = concat3(msg.as_str(), m.name.as_str(), " but missing in .env");
            let d = Diagnostic {
                id: RuleId::W005,
                severity: Severity::Warning,
                message,
                path: m.path.clone(),
                line: None,
            };
            let ghost prev = diag_views(out@);
            out.push(d);
            assert(diag_views(out@) =~= prev.push(d@));
        }
        j += 1;
    }
    out
}

fn named_in(ms: &Vec<K8sManifest>, key: &String) -> (r: bool)
    ensures
        r == named_concretely(ms@, key@),
{
    let mut i: usize = 0;
    while i < ms.len()
        invariant
            i <= ms@.len(),
            forall|a: int, b: int|
                0 <= a < i && 0 <= b < ms@[a].env_refs@.len() ==> is_wildcard(
                    ms@[a].env_refs@[b].source,
                ) || ms@[a].env_refs@[b].key@ != key@,
        decreases ms.len() - i,
    {
        let refs = &ms[i].env_refs;
        let mut j: usize = 0;
        while j < refs.len()
            invariant
                i < ms@.len(),
                j <= refs@.len(),
                refs == &ms@[i as int].env_refs,
                forall|a: int, b: int|
                    0 <= a < i && 0 <= b < ms@[a].env_refs@.len() ==> is_wildcard(
                        ms@[a].env_refs@[b].source,
                    ) || ms@[a].env_refs@[b].key@ != key@,
                forall|b: int|
                    0 <= b < j ==> is_wildcard(refs@[b].source) || refs@[b].key@ != key@,
            decreases refs.len() - j,
        {
            if !refs[j].source.is_bundle() && refs[j].key == *key {
                assert(!is_wildcard(ms@[i as int].env_refs@[j as int].source));
                return true;
            }
            j += 1;
        }
        i += 1;
    }
    false
}

/// Reconciles an env file with manifests: a warning for each defining reference (a
/// ConfigMap or Secret entry) whose key the env file lacks, one per manifest and role and
/// never merged; the same for each reference that consumes a concrete key; and a note for
/// each env key that no manifest names, at the line of its first definition. Wildcard
/// references (`envFrom`) are never tested as keys. Fails when there are no manifests.
pub fn sync_with_manifests(env: &EnvFile, manifests: &Vec<K8sManifest>, pattern: String) -> (r:
    Result<Vec<Diagnostic>, EnvCheckError>)
    ensures
        manifests@.len() == 0 ==> r == Err::<Vec<Diagnostic>, EnvCheckError>(
            EnvCheckError::NoFilesMatched { pattern },
        ),
        manifests@.len() > 0 ==> (r matches Ok(d) && diag_views(d@) == sync_findings(
            *env,
            manifests@,
        )),
{
    if manifests.len() == 0 {
        return Err(EnvCheckError::NoFilesMatched { pattern });
    }
    let ghost vs = file_vars(env);
    let ghost ms = manifests@;
    let mut defined: Vec<Diagnostic> = Vec::new();
    let mut consumed: Vec<Diagnostic> = Vec::new();
    let mut i: usize = 0;
    while i < manifests.len()
        invariant
            i <= ms.len(),
            ms == manifests@,
            vs == file_vars(env),
            diag_views(defined@) == manifests_missing(vs, ms, true, i as int),
            diag_views(consumed@) == manifests_missing(vs, ms, false, i as int),
        decreases manifests.len() - i,
    {
        let a = missing_from_manifest(env, &manifests[i], true);
        extend_diags(&mut defined, &a);
        let b = missing_from_manifest(env, &manifests[i], false);
        extend_diags(&mut consumed, &b);
        i += 1;
    }
    let vars = &env.vars;
    let mut unused: Vec<Diagnostic> = Vec::new();
    let mut j: usize = 0;
    while j < vars.len()
        invariant
            j <= vars@.len(),
            vars == &env.vars,
            vs == file_vars(env),
            ms == manifests@,
            diag_views(unused@) == unused_upto(env.path@, vs, ms, j as int),
        decreases vars.len() - j,
    {
        let v = &vars[j];
        assert(vs[j as int] == v@);
        if !has_key_before(vars, &v.key, j) && !named_in(manifests, &v.key) {
            let d = Diagnostic {
                id: RuleId::W006,
                severity: Severity::Info,
                message: concat3(
                    "Key '",
                    v.key.as_str(),
                    "' in .env but not found in any K8s manifest",
                ),
                path: env.path.clone(),
                line: Some(v.line),
            };
            let ghost prev = diag_views(unused@);
            unused.push(d);
            assert(diag_views(unused@) =~= prev.push(d@));
        }
        j += 1;
    }
    extend_diags(&mut defined, &consumed);
    extend_diags(&mut defined, &unused);
    Ok(defined)
}

/// Positions, among the first `n` keys, of those that no entry of `vars` has.
pub open spec fn absent_upto(keys: Seq<Seq<char>>, vars: Seq<VarModel>, n: int) -> Seq<usize>
    decreases n,
{
    if n <= 0 {
        Seq::empty()
    } else {
        let prev = absent_upto(keys, vars, n - 1);
        if has_key(vars, keys[n - 1]) {
            prev
        } else {
            prev.push((n - 1) as usize)
        }
    }
}

/// A key that an infrastructure source expects the env file to define. Each kind of source
/// adds an implementation; reconciliation needs nothing else of it.
pub trait ExternalReference {
    spec fn expected_key(&self) -> Seq<char>;

    /// The env key that the reference expects.
    fn env_key(&self) -> (r: String)
        ensures
            r@ == self.expected_key(),
    ;
}

impl ExternalReference for TerraformVariable {
    /// Terraform reads variable `name` from `TF_VAR_name`.
    open spec fn expected_key(&self) -> Seq<char> {
        "TF_VAR_"@ + self.name@
    }

    fn env_key(&self) -> (r: String) {
        terraform_env_key(&self.name)
    }
}

impl ExternalReference for AnsibleEnvRef {
    open spec fn expected_key(&self) -> Seq<char> {
        self.env_var@
    }

    fn env_key(&self) -> (r: String) {
        self.env_var.clone()
    }
}

impl ExternalReference for HelmEnvRef {
    open spec fn expected_key(&self) -> Seq<char> {
        self.env_var@
    }

    fn env_key(&self) -> (r: String) {
        self.env_var.clone()
    }
}

impl ExternalReference for GitHubActionEnvRef {
    open spec fn expected_key(&self) -> Seq<char> {
        self.env_var@
    }

    fn env_key(&self) -> (r: String) {
        self.env_var.clone()
    }
}

impl ExternalReference for ArgoCDEnvRef {
    open spec fn expected_key(&self) -> Seq<char> {
        self.env_var@
    }

    fn env_key(&self) -> (r: String) {
        self.env_var.clone()
    }
}

pub open spec fn expected_keys<R: ExternalReference>(refs: Seq<R>) -> Seq<Seq<char>> {
    refs.map_values(|x: R| x.expected_key())
}

/// Positions, in order, of the references whose key the env file does not define.
pub fn missing_references<R: ExternalReference>(refs: &Vec<R>, env: &EnvFile) -> (r: Vec<usize>)
    ensures
        r@ == absent_upto(expected_keys(refs@), file_vars(env), refs@.len() as int),
{
    let ghost ks = expected_keys(refs@);
    let mut out: Vec<usize> = Vec::new();
    let mut i: usize = 0;
    while i < refs.len()
        invariant
            i <= refs@.len(),
            ks == expected_keys(refs@),
            out@ == absent_upto(ks, file_vars(env), i as int),
        decreases refs.len() - i,
    {
        let key = refs[i].env_key();
        assert(ks[i as int] == refs@[i as int].expected_key());
        if !env_has_key(&env.vars, &key) {
            out.push(i);
        }
        i += 1;
    }
    out
}

/// The environment key through which Terraform reads variable `name`.
pub fn terraform_env_key(name: &String) -> (r: String)
    ensures
        r@ == "TF_VAR_"@ + name@,
{
    let mut s = "TF_VAR_".to_owned();
    s.append(name.as_str());
    s
}

proof fn lemma_wildcards_silent(env_vars: Seq<VarModel>, m: K8sManifest, defining: bool, n: int)
    requires
        n <= m.env_refs@.len(),
        forall|j: int| 0 <= j < m.env_refs@.len() ==> is_wildcard(m.env_refs@[j].source),
    ensures
        manifest_missing(env_vars, m, defining, n).len() == 0,
    decreases n,
{
    if n > 0 {
        lemma_wildcards_silent(env_vars, m, defining, n - 1);
    }
}

/// Wildcard references (`envFrom`) never raise a missing-key warning by themselves:
/// manifests that hold nothing else yield none, whatever the env file holds.
pub proof fn law_wildcards_raise_nothing(env: EnvFile, ms: Seq<K8sManifest>)
    requires
        forall|i: int, j: int|
            0 <= i < ms.len() && 0 <= j < ms[i].env_refs@.len() ==> is_wildcard(
                ms[i].env_refs@[j].source,
            ),
    ensures
        forall|d: DiagModel| sync_findings(env, ms).contains(d) ==> d.id == RuleId::W006,
{
    let vs = file_vars(&env);
    assert forall|k: int, defining: bool| 0 <= k <= ms.len() implies manifests_missing(
        vs,
        ms,
        defining,
        k,
    ).len() == 0 by {
        lemma_manifests_silent(vs, ms, defining, k);
    }
    let u = unused_upto(env.path@, vs, ms, vs.len() as int);
    lemma_unused_ids(env.path@, vs, ms, vs.len() as int);
    assert(sync_findings(env, ms) =~= u);
}

proof fn lemma_manifests_silent(vs: Seq<VarModel>, ms: Seq<K8sManifest>, defining: bool, k: int)
    requires
        0 <= k <= ms.len(),
        forall|i: int, j: int|
            0 <= i < ms.len() && 0 <= j < ms[i].env_refs@.len() ==> is_wildcard(
                ms[i].env_refs@[j].source,
            ),
    ensures
        manifests_missing(vs, ms, defining, k).len() == 0,
    decreases k,
{
    if k > 0 {
        lemma_manifests_silent(vs, ms, defining, k - 1);
        lemma_wildcards_silent(vs, ms[k - 1], defining, ms[k - 1].env_refs@.len() as int);
    }
}

proof fn lemma_unused_ids(path: Seq<char>, vs: Seq<VarModel>, ms: Seq<K8sManifest>, n: int)
    ensures
        forall|d: DiagModel| unused_upto(path, vs, ms, n).contains(d) ==> d.id == RuleId::W006,
    decreases n,
{
    if n > 0 {
        lemma_unused_ids(path, vs, ms, n - 1);
        let prev = unused_upto(path, vs, ms, n - 1);
        assert forall|d: DiagModel| unused_upto(path, vs, ms, n).contains(d) implies d.id
            == RuleId::W006 by {
            let u = unused_upto(path, vs, ms, n);
            let i = choose|i: int| 0 <= i < u.len() && u[i] == d;
            if i < prev.len() {
                assert(prev[i] == d);
                assert(prev.contains(d));
            }
        }
    }
}

/// Manifests that each define key `key` once, absent from the env file, yield one
/// warning per manifest, in manifest order, each at that manifest.
pub proof fn law_one_warning_per_definition(env: EnvFile, ms: Seq<K8sManifest>, key: Seq<char>)
    requires
        !has_key(file_vars(&env), key),
        forall|i: int|
            0 <= i < ms.len() ==> ms[i].env_refs@.len() == 1 && ms[i].env_refs@[0].key@ == key
                && is_defining(#[trigger] ms[i].env_refs@[0].source),
    ensures
        manifests_missing(file_vars(&env), ms, true, ms.len() as int).len() == ms.len(),
        forall|i: int|
            0 <= i < ms.len() ==> #[trigger] manifests_missing(file_vars(&env), ms, true, ms.len() as int)[i]
                == diag(
                RuleId::W005,
                Severity::Warning,
                found_message(key, ms[i].kind@, ms[i].name@),
                ms[i].path@,
                None,
            ),
{
    lemma_one_per_definition(file_vars(&env), ms, key, ms.len() as int);
}

proof fn lemma_one_per_definition(vs: Seq<VarModel>, ms: Seq<K8sManifest>, key: Seq<char>, k: int)
    requires
        0 <= k <= ms.len(),
        !has_key(vs, key),
        forall|i: int|
            0 <= i < ms.len() ==> ms[i].env_refs@.len() == 1 && ms[i].env_refs@[0].key@ == key
                && is_defining(#[trigger] ms[i].env_refs@[0].source),
    ensures
        manifests_missing(vs, ms, true, k).len() == k,
        forall|i: int|
            0 <= i < k ==> #[trigger] manifests_missing(vs, ms, true, k)[i] == diag(
                RuleId::W005,
                Severity::Warning,
                found_message(key, ms[i].kind@, ms[i].name@),
                ms[i].path@,
                None,
            ),
    decreases k,
{
    if k > 0 {
        lemma_one_per_definition(vs, ms, key, k - 1);
        let m = ms[k - 1];
        assert(is_defining(m.env_refs@[0].source));
        assert(manifest_missing(vs, m, true, 0).len() == 0);
        assert(manifest_missing(vs, m, true, 1) =~= seq![
            diag(RuleId::W005, Severity::Warning, found_message(key, m.kind@, m.name@), m.path@, None),
        ]);
    }
}

} // verus!
