use envcheck::output::{Format, GithubFormatter, OutputFormatter};
use envcheck::rules::{Diagnostic, RuleId, Severity};

#[test]
fn format_names_in_any_case() {
    assert_eq!("text".parse::<Format>(), Ok(Format::Text));
    assert_eq!("JSON".parse::<Format>(), Ok(Format::Json));
    assert_eq!("GitHub".parse::<Format>(), Ok(Format::Github));
    assert_eq!("sarif".parse::<Format>(), Ok(Format::Sarif));
    assert_eq!("pr-comment".parse::<Format>(), Ok(Format::PrComment));
    assert_eq!("PR_COMMENT".parse::<Format>(), Ok(Format::PrComment));
    assert_eq!("yaml".parse::<Format>(), Err("Unknown format: yaml".to_string()));
}

#[test]
fn github_annotations() {
    let ds = vec![
        Diagnostic {
            id: RuleId::E001,
            severity: Severity::Error,
            message: "100% bad\nreally".to_string(),
            path: "a.env".to_string(),
            line: Some(12),
        },
        Diagnostic {
            id: RuleId::W004,
            severity: Severity::Info,
            message: "m\r".to_string(),
            path: "b.env".to_string(),
            line: None,
        },
    ];
    assert_eq!(
        GithubFormatter.render(&ds),
        "::error file=a.env,line=12,title=E001::100%25 bad%0Areally\n::notice file=b.env,title=W004::m%0D\n"
    );
    assert_eq!(GithubFormatter.render(&Vec::new()), "");
}
