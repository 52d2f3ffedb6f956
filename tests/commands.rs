use envcheck::parser::ansible::{playbook_refs, AnsibleEnvRef};
use envcheck::parser::argocd::{ArgoCDEnvRef, EnvSource};
use envcheck::parser::env::EnvFile;
use envcheck::parser::github_actions::GitHubActionEnvRef;
use envcheck::parser::helm::HelmEnvRef;
use envcheck::parser::terraform::{declared_variables, HclBlock, TerraformVariable};
use envcheck::reconcile::{missing_references, terraform_env_key, ExternalReference};

fn env_file(content: &str) -> EnvFile {
    EnvFile::parse_content(".env".to_string(), content).unwrap()
}

#[test]
fn test_actions_command_detects_missing_env_vars() {
    // ci.yml: `env:\n  CI_KEY: "123"`
    let env = env_file("OTHER=1\n");
    let refs = vec![GitHubActionEnvRef { env_var: "CI_KEY".to_string(), path: "ci.yml".to_string() }];
    assert_eq!(missing_references(&refs, &env), vec![0]);
}

#[test]
fn test_helm_command_detects_missing_env_vars() {
    // values.yaml: `env:\n  DB_HOST: "localhost"`
    let env = env_file("OTHER=1\n");
    let refs = vec![HelmEnvRef { env_var: "DB_HOST".to_string(), path: "values.yaml".to_string() }];
    assert_eq!(missing_references(&refs, &env), vec![0]);
}

#[test]
fn test_argo_command_detects_missing_env_vars() {
    // app.yaml: plugin env `ARGO_SECRET`
    let env = env_file("OTHER=1\n");
    let refs = vec![ArgoCDEnvRef {
        env_var: "ARGO_SECRET".to_string(),
        path: "app.yaml".to_string(),
        source: EnvSource::Plugin,
    }];
    assert_eq!(missing_references(&refs, &env), vec![0]);
}

#[test]
fn test_terraform_command_detects_missing_env_vars() {
    // main.tf: `variable "region"` and `variable "secret_key"`
    let env = env_file("TF_VAR_region=us-west-2\n");
    let vars = vec![
        TerraformVariable { name: "region".to_string(), path: "main.tf".to_string() },
        TerraformVariable { name: "secret_key".to_string(), path: "main.tf".to_string() },
    ];
    assert_eq!(missing_references(&vars, &env), vec![1]);
    assert_eq!(vars[1].env_key(), "TF_VAR_secret_key");
}

#[test]
fn test_ansible_command_detects_missing_lookups() {
    // playbook.yml: `lookup('env', 'API_KEY')`
    let env = env_file("OTHER=1\n");
    let refs = vec![AnsibleEnvRef { env_var: "API_KEY".to_string(), path: "playbook.yml".to_string() }];
    assert_eq!(missing_references(&refs, &env), vec![0]);
}

#[test]
fn test_terraform_command_exists() {
    assert_eq!(terraform_env_key(&String::new()), "TF_VAR_");
}

#[test]
fn present_references_are_not_reported() {
    let env = env_file("A=1\nB=2\n");
    let refs = vec![
        HelmEnvRef { env_var: "B".to_string(), path: "v.yaml".to_string() },
        HelmEnvRef { env_var: "C".to_string(), path: "v.yaml".to_string() },
        HelmEnvRef { env_var: "A".to_string(), path: "v.yaml".to_string() },
    ];
    assert_eq!(missing_references(&refs, &env), vec![1]);
}

#[test]
fn terraform_blocks_declare_variables() {
    let block = |id: &str, labels: &[&str]| HclBlock {
        identifier: id.to_string(),
        labels: labels.iter().map(|l| l.to_string()).collect(),
    };
    let blocks = vec![
        block("variable", &["region"]),
        block("resource", &["aws_s3_bucket", "b"]),
        block("variable", &[]),
        block("variable", &["db_password", "extra"]),
    ];
    let vars = declared_variables(&"main.tf".to_string(), &blocks);
    let names: Vec<&str> = vars.iter().map(|v| v.name.as_str()).collect();
    assert_eq!(names, vec!["region", "db_password"]);
    assert!(vars.iter().all(|v| v.path == "main.tf"));
}

#[test]
fn ansible_lookups_in_playbooks() {
    let text = r#"
    - debug: msg="{{ lookup('env', 'API_KEY') }}"
    - set_fact: a="{{ lookup( "env" ,"SECRET_KEY" ) }}" b="{{ lookup('env','ANOTHER_VAR') }}"
    - skip: "{{ lookup('file', 'NOT_ENV') }} {{ lookup('env', '') }} lookup('env', 'UNCLOSED"
"#;
    let refs = playbook_refs(&"playbook.yml".to_string(), text);
    let names: Vec<&str> = refs.iter().map(|r| r.env_var.as_str()).collect();
    assert_eq!(names, vec!["API_KEY", "SECRET_KEY", "ANOTHER_VAR"]);
    assert!(refs.iter().all(|r| r.path == "playbook.yml"));
}
