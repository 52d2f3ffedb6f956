use envcheck::parser::argocd::{application_refs, EnvSource};
use envcheck::parser::github_actions::workflow_refs;
use envcheck::parser::helm::values_refs;
use envcheck::parser::k8s::{K8sManifest, K8sRefSource};
use envcheck::parser::yaml::{YamlEntry, YamlNode};
use serde_yaml::Value;

fn node(v: &Value) -> YamlNode {
    match v {
        Value::Null => YamlNode::Null,
        Value::Bool(b) => YamlNode::Bool(*b),
        Value::Number(n) => YamlNode::Number(n.to_string()),
        Value::String(s) => YamlNode::Str(s.clone()),
        Value::Sequence(items) => YamlNode::List(items.iter().map(node).collect()),
        Value::Mapping(map) => YamlNode::Mapping(
            map.iter().map(|(k, v)| YamlEntry { key: node(k), value: node(v) }).collect(),
        ),
        Value::Tagged(t) => node(&t.value),
    }
}

fn parse(yaml: &str) -> YamlNode {
    node(&serde_yaml::from_str::<Value>(yaml).unwrap())
}

#[test]
fn test_parse_deployment() {
    let yaml = r#"
apiVersion: apps/v1
kind: Deployment
metadata:
  name: test
spec:
  template:
    spec:
      containers:
      - name: app
        env:
        - name: DB_HOST
          value: localhost
        - name: DB_PASS
          valueFrom:
            secretKeyRef:
              name: db-secret
              key: password
"#;
    let manifest = K8sManifest::from_document("test.yaml".to_string(), &parse(yaml)).unwrap();

    assert_eq!(manifest.env_refs.len(), 2);
    assert_eq!(manifest.env_refs[0].key, "DB_HOST");
    assert_eq!(manifest.env_refs[1].key, "DB_PASS");
    match &manifest.env_refs[1].source {
        K8sRefSource::SecretKeyRef { name, key } => {
            assert_eq!(name, "db-secret");
            assert_eq!(key, "password");
        },
        _ => panic!("Wrong source"),
    }
}

#[test]
fn manifest_kinds_and_bundles() {
    let cm = parse("kind: ConfigMap\nmetadata:\n  name: cfg\ndata:\n  A: '1'\n  B: '2'\n");
    let m = K8sManifest::from_document("cm.yaml".to_string(), &cm).unwrap();
    assert_eq!((m.kind.as_str(), m.name.as_str(), m.path.as_str()), ("ConfigMap", "cfg", "cm.yaml"));
    let keys: Vec<&str> = m.env_refs.iter().map(|r| r.key.as_str()).collect();
    assert_eq!(keys, vec!["A", "B"]);
    assert_eq!(m.env_refs[0].source, K8sRefSource::ConfigMapData);

    let secret = parse("kind: Secret\nmetadata:\n  name: s\ndata:\n  D: eA==\nstringData:\n  S: x\n");
    let m = K8sManifest::from_document("s.yaml".to_string(), &secret).unwrap();
    let keys: Vec<&str> = m.env_refs.iter().map(|r| r.key.as_str()).collect();
    assert_eq!(keys, vec!["S", "D"]);
    assert!(m.env_refs.iter().all(|r| r.source == K8sRefSource::SecretData));

    let pod = parse(
        "kind: Pod\nmetadata:\n  name: p\nspec:\n  containers:\n  - envFrom:\n    - secretRef:\n        name: s\n    - configMapRef:\n        name: c\n    env:\n    - name: X\n      valueFrom:\n        configMapKeyRef:\n          name: c\n          key: x\n",
    );
    let m = K8sManifest::from_document("p.yaml".to_string(), &pod).unwrap();
    assert_eq!(m.env_refs.len(), 3);
    assert_eq!(m.env_refs[0].key, "X");
    assert_eq!(
        m.env_refs[0].source,
        K8sRefSource::ConfigMapKeyRef { name: "c".to_string(), key: "x".to_string() }
    );
    assert_eq!(m.env_refs[1].key, "SECRET_REF:*");
    assert_eq!(
        m.env_refs[1].source,
        K8sRefSource::EnvFrom { name: "s".to_string(), kind: "Secret".to_string() }
    );
    assert_eq!(m.env_refs[2].key, "CM_REF:*");

    assert!(K8sManifest::from_document("x".to_string(), &parse("kind: Service\n")).is_none());
    let svc = K8sManifest::from_document("x".to_string(), &parse("kind: Service\nmetadata:\n  name: web\n")).unwrap();
    assert!(svc.env_refs.is_empty());
}

#[test]
fn test_parse_plugin_env() {
    let yaml = r#"
apiVersion: argoproj.io/v1alpha1
kind: Application
metadata:
  name: test-app
spec:
  source:
    plugin:
      env:
        - name: DATABASE_URL
          value: secret
        - name: API_KEY
          value: test
"#;
    let refs = application_refs(&"test.yaml".to_string(), &parse(yaml));

    assert_eq!(refs.len(), 2);
    assert_eq!(refs[0].env_var, "DATABASE_URL");
    assert_eq!(refs[0].source, EnvSource::Plugin);
    assert_eq!(refs[1].env_var, "API_KEY");
}

#[test]
fn test_parse_kustomize_common_env() {
    let yaml = r#"
apiVersion: argoproj.io/v1alpha1
kind: Application
metadata:
  name: kustomize-app
spec:
  source:
    kustomize:
      commonEnv:
        - name: POSTGRES_PASSWORD
        - name: REDIS_URL
"#;
    let refs = application_refs(&"test.yaml".to_string(), &parse(yaml));

    assert_eq!(refs.len(), 2);
    assert_eq!(refs[0].env_var, "POSTGRES_PASSWORD");
    assert_eq!(refs[0].source, EnvSource::Kustomize);
    assert_eq!(refs[1].env_var, "REDIS_URL");
}

#[test]
fn test_parse_multi_source() {
    let yaml = r#"
apiVersion: argoproj.io/v1alpha1
kind: Application
metadata:
  name: multi-source-app
spec:
  sources:
    - plugin:
        env:
          - name: SOURCE1_VAR
    - kustomize:
        commonEnv:
          - name: SOURCE2_VAR
"#;
    let refs = application_refs(&"test.yaml".to_string(), &parse(yaml));

    assert_eq!(refs.len(), 2);
    assert_eq!(refs[0].env_var, "SOURCE1_VAR");
    assert_eq!(refs[1].env_var, "SOURCE2_VAR");
}

#[test]
fn non_applications_yield_nothing() {
    let yaml = "apiVersion: apps/v1\nkind: Application\nspec:\n  source:\n    plugin:\n      env:\n        - name: X\n";
    assert!(application_refs(&"a.yaml".to_string(), &parse(yaml)).is_empty());
    let yaml = "apiVersion: argoproj.io/v1\nkind: Application\nspec:\n  source:\n    plugin:\n      env:\n        - name: X\n";
    let refs = application_refs(&"a.yaml".to_string(), &parse(yaml));
    assert_eq!(refs.len(), 1);
    assert_eq!(refs[0].path, "a.yaml");
}

#[test]
fn workflow_env_blocks_depth_first() {
    let yaml = r#"
name: CI
env:
  GLOBAL_VAR: "1"
jobs:
  build:
    env:
      JOB_VAR: x
    steps:
      - run: echo
        env:
          STEP_VAR: y
          OTHER: z
"#;
    let refs = workflow_refs(&"ci.yml".to_string(), &parse(yaml));
    let keys: Vec<&str> = refs.iter().map(|r| r.env_var.as_str()).collect();
    assert_eq!(keys, vec!["GLOBAL_VAR", "JOB_VAR", "STEP_VAR", "OTHER"]);
    assert!(refs.iter().all(|r| r.path == "ci.yml"));
    assert!(workflow_refs(&"x".to_string(), &parse("env: plain\n")).is_empty());
}

#[test]
fn helm_uppercase_keys() {
    let yaml = r#"
env:
  DB_PASSWORD: secret
  lower: 1
  A: too_short
  API_KEY2: k
list:
  - NESTED_KEY: 1
  - Mixed_Case: 2
"#;
    let refs = values_refs(&"values.yaml".to_string(), &parse(yaml));
    let keys: Vec<&str> = refs.iter().map(|r| r.env_var.as_str()).collect();
    assert_eq!(keys, vec!["DB_PASSWORD", "API_KEY2", "NESTED_KEY"]);
    assert!(refs.iter().all(|r| r.path == "values.yaml"));
}
