use envcheck::parser::env::EnvFile;
use envcheck::rules::duplicate::DuplicateKeyRule;
use envcheck::rules::empty::EmptyValueRule;
use envcheck::rules::sort::UnsortedKeysRule;
use envcheck::rules::syntax::SyntaxRule;
use envcheck::rules::whitespace::TrailingWhitespaceRule;
use envcheck::rules::{check_file, Diagnostic, Rule, RuleId, Severity};

fn file(content: &str) -> EnvFile {
    EnvFile::parse_content("t.env".to_string(), content).unwrap()
}

fn summary(ds: &[Diagnostic]) -> Vec<(RuleId, Option<usize>, String)> {
    ds.iter().map(|d| (d.id, d.line, d.message.clone())).collect()
}

#[test]
fn duplicate_cites_preceding_occurrence() {
    let f = file("K=1\nA=0\nK=2\nK=3\n");
    let ds = DuplicateKeyRule.check(&f);
    assert_eq!(ds.len(), 2);
    assert_eq!(ds[0].line, Some(3));
    assert_eq!(ds[0].message, "Duplicate key 'K' (first defined on line 1)");
    assert_eq!(ds[1].line, Some(4));
    assert_eq!(ds[1].message, "Duplicate key 'K' (first defined on line 3)");
    assert_eq!(ds[0].severity, Severity::Error);
    assert_eq!(ds[0].path, "t.env");
    assert_eq!(DuplicateKeyRule.id(), RuleId::E001);
}

#[test]
fn duplicate_single_occurrence_is_silent() {
    assert!(DuplicateKeyRule.check(&file("K=1\nL=2\n")).is_empty());
}

#[test]
fn syntax_errors() {
    let f = file("NOEQ\n=x\nBAD KEY=1\n1KEY=2\n2 X=3\nexport =4\n# ok\n\nGOOD=1\n");
    let ds = SyntaxRule.check(&f);
    assert_eq!(
        summary(&ds),
        vec![
            (RuleId::E002, Some(1), "Invalid syntax: missing assignment operator '=' in line 'NOEQ'".to_string()),
            (RuleId::E002, Some(2), "Invalid syntax: key name cannot be empty".to_string()),
            (RuleId::E002, Some(3), "Invalid syntax: key 'BAD KEY' contains whitespace".to_string()),
            (RuleId::E002, Some(4), "Invalid syntax: key '1KEY' cannot start with a number".to_string()),
            (RuleId::E002, Some(5), "Invalid syntax: key '2 X' contains whitespace".to_string()),
            (RuleId::E002, Some(5), "Invalid syntax: key '2 X' cannot start with a number".to_string()),
            (RuleId::E002, Some(6), "Invalid syntax: key name cannot be empty".to_string()),
        ]
    );
}

#[test]
fn empty_values_warn() {
    let ds = EmptyValueRule.check(&file("A=\nB=1\nC=\"\"\n"));
    assert_eq!(
        summary(&ds),
        vec![
            (RuleId::W001, Some(1), "Key 'A' has an empty value".to_string()),
            (RuleId::W001, Some(3), "Key 'C' has an empty value".to_string()),
        ]
    );
    assert_eq!(ds[0].severity, Severity::Warning);
}

#[test]
fn trailing_whitespace_on_raw_lines() {
    let ds = TrailingWhitespaceRule.check(&file("A=1 \n# c\t\nB=2\n  \n"));
    let lines: Vec<Option<usize>> = ds.iter().map(|d| d.line).collect();
    assert_eq!(lines, vec![Some(1), Some(2), Some(4)]);
    assert_eq!(ds[0].message, "Line contains trailing whitespace");
}

#[test]
fn unsorted_pair_gives_one_warning() {
    let ds = UnsortedKeysRule.check(&file("B=1\nA=2\n"));
    assert_eq!(
        summary(&ds),
        vec![(RuleId::W003, Some(2), "Unsorted key 'A' should come before 'B'".to_string())]
    );
}

#[test]
fn unsorted_non_decreasing_is_silent() {
    assert!(UnsortedKeysRule.check(&file("A=1\nA=2\nB=3\nb=4\n")).is_empty());
    assert_eq!(UnsortedKeysRule.check(&file("b=1\nB=2\n")).len(), 1);
}

#[test]
fn check_file_sorts_by_line_then_rule_order() {
    let ds = check_file(&file("B=1\nB= \nA=\n"));
    assert_eq!(
        summary(&ds),
        vec![
            (RuleId::E001, Some(2), "Duplicate key 'B' (first defined on line 1)".to_string()),
            (RuleId::W001, Some(2), "Key 'B' has an empty value".to_string()),
            (RuleId::W002, Some(2), "Line contains trailing whitespace".to_string()),
            (RuleId::W001, Some(3), "Key 'A' has an empty value".to_string()),
            (RuleId::W003, Some(3), "Unsorted key 'A' should come before 'B'".to_string()),
        ]
    );
}

#[test]
fn lint_before_and_after_fix() {
    let before = check_file(&file("B=2\nA=1\n"));
    assert_eq!(
        summary(&before),
        vec![(RuleId::W003, Some(2), "Unsorted key 'A' should come before 'B'".to_string())]
    );
    let fixed = envcheck::fix::fix_content("B=2\nA=1\n");
    assert_eq!(fixed, "A=1\nB=2\n");
    assert!(check_file(&file(&fixed)).is_empty());
}

#[test]
fn trailing_spaces_give_exactly_one_warning() {
    let f = file("KEY=value  \n");
    assert_eq!(f.vars[0].value, "value");
    let ds = check_file(&f);
    assert_eq!(
        summary(&ds),
        vec![(RuleId::W002, Some(1), "Line contains trailing whitespace".to_string())]
    );
    assert_eq!(ds[0].severity, Severity::Warning);
}

#[test]
fn rule_and_severity_names() {
    assert_eq!(RuleId::W004.as_string(), "W004");
    assert_eq!(RuleId::E002.as_string(), "E002");
    assert_eq!(Severity::Info.as_string(), "Info");
    assert_eq!(Severity::Error.as_string(), "Error");
}

fn diag(path: &str, line: Option<usize>, severity: Severity) -> Diagnostic {
    Diagnostic { id: RuleId::E001, severity, message: String::new(), path: path.to_string(), line }
}

#[test]
fn merged_reports_sort_by_file_then_line() {
    let ds = vec![
        diag("b.env", Some(2), Severity::Error),
        diag("a.env", Some(3), Severity::Warning),
        diag("b.env", None, Severity::Info),
        diag("a.env", Some(1), Severity::Error),
        diag("a.env", Some(3), Severity::Info),
    ];
    let sorted = envcheck::rules::sort_by_file_and_line(&ds);
    let got: Vec<(String, Option<usize>, Severity)> =
        sorted.iter().map(|d| (d.path.clone(), d.line, d.severity)).collect();
    assert_eq!(
        got,
        vec![
            ("a.env".to_string(), Some(1), Severity::Error),
            ("a.env".to_string(), Some(3), Severity::Warning),
            ("a.env".to_string(), Some(3), Severity::Info),
            ("b.env".to_string(), None, Severity::Info),
            ("b.env".to_string(), Some(2), Severity::Error),
        ]
    );
}

#[test]
fn lint_fails_only_with_errors() {
    let warn_only = vec![diag("a", Some(1), Severity::Warning), diag("a", Some(2), Severity::Info)];
    assert!(envcheck::rules::lint_outcome(&warn_only).is_ok());
    let with_errors = vec![
        diag("a", Some(1), Severity::Error),
        diag("a", Some(2), Severity::Warning),
        diag("b", Some(1), Severity::Error),
    ];
    assert_eq!(
        envcheck::rules::lint_outcome(&with_errors).unwrap_err(),
        envcheck::error::EnvCheckError::LintFailed { error_count: 2, warning_count: 1 }
    );
}

#[test]
fn key_errors_follow_the_numeric_flag() {
    let path = "k.env".to_string();
    let ds = envcheck::rules::syntax::key_errors(&path, &"A B".to_string(), 7, true);
    assert_eq!(
        summary(&ds),
        vec![
            (RuleId::E002, Some(7), "Invalid syntax: key 'A B' contains whitespace".to_string()),
            (RuleId::E002, Some(7), "Invalid syntax: key 'A B' cannot start with a number".to_string()),
        ]
    );
    assert!(envcheck::rules::syntax::key_errors(&path, &"AB".to_string(), 1, false).is_empty());
    // A non-ASCII numeric character also counts as a leading number.
    let ds = check_file(&file("\u{0663}X=1\n"));
    assert_eq!(ds.len(), 1);
    assert_eq!(ds[0].message, "Invalid syntax: key '\u{0663}X' cannot start with a number");
}
