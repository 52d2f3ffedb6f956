use envcheck::parser::env::{EnvFile, EnvVarIter, EnvVarRef};

#[test]
fn test_parse_simple() {
    let content = "KEY=value\n# Comment\n  \nOTHER=foo";
    let env = EnvFile::parse_content("test.env".to_string(), content).unwrap();

    assert_eq!(env.vars.len(), 2);
    assert_eq!(env.vars[0].key, "KEY");
    assert_eq!(env.vars[0].value, "value");
    assert_eq!(env.vars[0].line, 1);
    assert_eq!(env.vars[1].key, "OTHER");
    assert_eq!(env.vars[1].value, "foo");
    assert_eq!(env.vars[1].line, 4);
}

#[test]
fn test_parse_export() {
    let content = "export MY_VAR=123";
    let env = EnvFile::parse_content("test.env".to_string(), content).unwrap();
    assert_eq!(env.vars[0].key, "MY_VAR");
    assert!(env.vars[0].exported);
}

fn collect(content: &str) -> Vec<EnvVarRef> {
    let mut it = EnvVarIter::new(content);
    let mut out = Vec::new();
    while let Some(v) = it.next_var() {
        out.push(v);
    }
    out
}

#[test]
fn test_zero_copy_iterator() {
    let content = "KEY=value\nOTHER=foo";
    let vars = collect(content);

    assert_eq!(vars.len(), 2);
    assert_eq!(vars[0].key, "KEY");
    assert_eq!(vars[0].value, "value");
}

#[test]
fn test_quoted_values() {
    let content = "KEY=\"quoted value\"";
    let env = EnvFile::parse_content("test.env".to_string(), content).unwrap();
    assert_eq!(env.vars[0].value, "quoted value");
}

#[test]
fn parse_keeps_lines_verbatim() {
    let env = EnvFile::parse_content("a.env".to_string(), "A=1  \r\nB=2\n\n").unwrap();
    assert_eq!(env.lines, vec!["A=1  ".to_string(), "B=2".to_string(), String::new()]);
    assert_eq!(env.path, "a.env");
}

#[test]
fn parse_splits_on_first_equals_and_trims() {
    let env = EnvFile::parse_content("a.env".to_string(), "  URL = postgres://h/db?x=1  \n").unwrap();
    assert_eq!(env.vars.len(), 1);
    assert_eq!(env.vars[0].key, "URL");
    assert_eq!(env.vars[0].value, "postgres://h/db?x=1");
    assert!(!env.vars[0].exported);
    assert!(!env.vars[0].quoted);
}

#[test]
fn parse_unquotes_one_layer_and_marks_quoted() {
    let env = EnvFile::parse_content("a.env".to_string(), "A='\"x\"'\nB=\"\nC=\"a'\nD=''\n").unwrap();
    assert_eq!(env.vars[0].value, "\"x\"");
    assert!(env.vars[0].quoted);
    assert_eq!(env.vars[1].value, "\"");
    assert!(!env.vars[1].quoted);
    assert_eq!(env.vars[2].value, "\"a'");
    assert!(!env.vars[2].quoted);
    assert_eq!(env.vars[3].value, "");
    assert!(env.vars[3].quoted);
}

#[test]
fn parse_drops_malformed_lines_and_keeps_duplicates() {
    let env = EnvFile::parse_content("a.env".to_string(), "A=1\nnot a pair\n=x\nA=2\n# c=1\n").unwrap();
    assert_eq!(env.vars.len(), 2);
    assert_eq!((env.vars[0].key.as_str(), env.vars[0].line), ("A", 1));
    assert_eq!((env.vars[1].key.as_str(), env.vars[1].line), ("A", 4));
    assert_eq!(env.vars[1].value, "2");
}

#[test]
fn parse_empty_text() {
    let env = EnvFile::parse_content("a.env".to_string(), "").unwrap();
    assert!(env.vars.is_empty());
    assert!(env.lines.is_empty());
}

#[test]
fn iterator_keeps_quotes_and_skips_comments() {
    let vars = collect("# c\n\nexport A = \"x\"\nbad\nB=");
    assert_eq!(vars.len(), 2);
    assert_eq!(vars[0].key, "A");
    assert_eq!(vars[0].value, "\"x\"");
    assert_eq!(vars[0].line, 3);
    assert!(vars[0].exported);
    assert_eq!(vars[1].key, "B");
    assert_eq!(vars[1].line, 5);
    let owned = vars[0].to_owned();
    assert_eq!(owned.key, "A");
    assert_eq!(owned.value, "\"x\"");
    assert_eq!(owned.line, 3);
    assert!(owned.exported);
    assert!(!owned.quoted);
}
