use envcheck::error::EnvCheckError;
use envcheck::parser::env::EnvFile;
use envcheck::parser::k8s::{K8sEnvRef, K8sManifest, K8sRefSource};
use envcheck::reconcile::{compare_files, sync_with_manifests, terraform_env_key};
use envcheck::rules::{RuleId, Severity};

fn file(path: &str, content: &str) -> EnvFile {
    EnvFile::parse_content(path.to_string(), content).unwrap()
}

fn manifest(kind: &str, name: &str, refs: Vec<(&str, K8sRefSource)>) -> K8sManifest {
    K8sManifest {
        path: format!("{name}.yaml"),
        kind: kind.to_string(),
        name: name.to_string(),
        env_refs: refs
            .into_iter()
            .map(|(k, s)| K8sEnvRef { key: k.to_string(), source: s })
            .collect(),
    }
}

#[test]
fn compare_reports_reference_keys_missing_elsewhere() {
    let files = vec![file(".env.example", "A=1\nB=1\nC=1\n"), file(".env.local", "A=1\nB=1\n")];
    let ds = compare_files(&files).unwrap();
    assert_eq!(ds.len(), 1);
    assert_eq!(ds[0].id, RuleId::W004);
    assert_eq!(ds[0].severity, Severity::Warning);
    assert_eq!(ds[0].message, "Missing key 'C' (present in .env.example)");
    assert_eq!(ds[0].path, ".env.local");
    assert_eq!(ds[0].line, None);

    let swapped = vec![file(".env.local", "A=1\nB=1\n"), file(".env.example", "A=1\nB=1\nC=1\n")];
    assert!(compare_files(&swapped).unwrap().is_empty());
}

#[test]
fn compare_multiple_files() {
    let files = vec![
        file(".env.example", "DB_HOST=\nDB_PORT=\nAPI_KEY=\nDB_HOST=x\n"),
        file(".env.local", "DB_HOST=localhost\nDB_PORT=5432\n"),
        file(".env.prod", "DB_HOST=prod-db\nAPI_KEY=secret\n"),
    ];
    let ds = compare_files(&files).unwrap();
    let got: Vec<(String, String)> = ds.iter().map(|d| (d.path.clone(), d.message.clone())).collect();
    assert_eq!(
        got,
        vec![
            (".env.local".to_string(), "Missing key 'API_KEY' (present in .env.example)".to_string()),
            (".env.prod".to_string(), "Missing key 'DB_PORT' (present in .env.example)".to_string()),
        ]
    );
}

#[test]
fn compare_needs_two_files() {
    let one = vec![file("a.env", "A=1\n")];
    assert_eq!(compare_files(&one).unwrap_err(), EnvCheckError::InsufficientFiles { count: 1 });
    assert_eq!(compare_files(&Vec::new()).unwrap_err(), EnvCheckError::InsufficientFiles { count: 0 });
}

#[test]
fn sync_warns_once_per_defining_manifest() {
    let env = file(".env", "A=1\nGROQ_API_KEY=2\nA=3\n");
    let ms = vec![
        manifest("ConfigMap", "cfg", vec![("X", K8sRefSource::ConfigMapData), ("A", K8sRefSource::ConfigMapData)]),
        manifest("Secret", "sec", vec![("X", K8sRefSource::SecretData)]),
        manifest(
            "Deployment",
            "web",
            vec![
                ("SECRET_REF:*", K8sRefSource::EnvFrom { name: "sec".to_string(), kind: "Secret".to_string() }),
                ("Y", K8sRefSource::SecretKeyRef { name: "sec".to_string(), key: "y".to_string() }),
                ("A", K8sRefSource::Direct),
            ],
        ),
    ];
    let ds = sync_with_manifests(&env, &ms, "k8s/*.yaml".to_string()).unwrap();
    let got: Vec<(RuleId, Severity, String, String, Option<usize>)> = ds
        .iter()
        .map(|d| (d.id, d.severity, d.path.clone(), d.message.clone(), d.line))
        .collect();
    assert_eq!(
        got,
        vec![
            (RuleId::W005, Severity::Warning, "cfg.yaml".to_string(), "Key 'X' found in K8s ConfigMap/cfg but missing in .env".to_string(), None),
            (RuleId::W005, Severity::Warning, "sec.yaml".to_string(), "Key 'X' found in K8s Secret/sec but missing in .env".to_string(), None),
            (RuleId::W005, Severity::Warning, "web.yaml".to_string(), "Key 'Y' referenced in K8s Deployment/web but missing in .env".to_string(), None),
            (RuleId::W006, Severity::Info, ".env".to_string(), "Key 'GROQ_API_KEY' in .env but not found in any K8s manifest".to_string(), Some(2)),
        ]
    );
}

#[test]
fn sync_envfrom_alone_reports_nothing_missing() {
    let env = file(".env", "");
    let ms = vec![manifest(
        "Deployment",
        "web",
        vec![("CM_REF:*", K8sRefSource::EnvFrom { name: "cfg".to_string(), kind: "ConfigMap".to_string() })],
    )];
    assert!(sync_with_manifests(&env, &ms, "x".to_string()).unwrap().is_empty());
}

#[test]
fn sync_without_manifests_fails() {
    let env = file(".env", "A=1\n");
    assert_eq!(
        sync_with_manifests(&env, &Vec::new(), "k8s/*.yaml".to_string()).unwrap_err(),
        EnvCheckError::NoFilesMatched { pattern: "k8s/*.yaml".to_string() }
    );
}

#[test]
fn terraform_keys_carry_prefix() {
    assert_eq!(terraform_env_key(&"region".to_string()), "TF_VAR_region");
}

#[test]
fn exit_codes() {
    assert_eq!(EnvCheckError::LintFailed { error_count: 2, warning_count: 0 }.exit_code(), 1);
    assert_eq!(EnvCheckError::LintFailed { error_count: 0, warning_count: 3 }.exit_code(), 0);
    assert_eq!(EnvCheckError::MissingEnvFile.exit_code(), 2);
    assert_eq!(EnvCheckError::file_not_found("x".to_string()).exit_code(), 2);
}
