use envcheck::fix::fix_content;

#[test]
fn fix_sorts_keys() {
    assert_eq!(fix_content("B_KEY=2\nA_KEY=1\n"), "A_KEY=1\nB_KEY=2\n");
}

#[test]
fn fix_trims_whitespace() {
    assert_eq!(fix_content("KEY=value  \n"), "KEY=value\n");
}

#[test]
fn fix_preserves_comments() {
    let input = "# Header\n\n# Key B\nB_KEY=2\n\n# Key A\nA_KEY=1\n# Footer";
    assert_eq!(
        fix_content(input),
        "# Header\n# Key A\nA_KEY=1\n# Key B\nB_KEY=2\n# Footer\n"
    );
}

#[test]
fn fix_moves_interleaved_comments_to_the_end() {
    let input = "B=1\n\n# between\n\nA=2\n";
    assert_eq!(fix_content(input), "A=2\nB=1\n# between\n");
}

#[test]
fn fix_keeps_duplicates_in_order_and_folds_garbage() {
    let input = "K=2\ngarbage line\nK=1\nexport J=0\n";
    assert_eq!(fix_content(input), "export J=0\nK=2\ngarbage line\nK=1\n");
}

#[test]
fn fix_is_idempotent_on_examples() {
    for input in [
        "",
        "   \n\n",
        "# only a comment",
        "A=1\nB=2\n",
        "# h\n\n# b\nB=2\n\n# a\nA=1\n# f",
        "Z=1\r\n  Y = 2 \r\n\r\n# t\r\n",
    ] {
        let once = fix_content(input);
        assert_eq!(fix_content(&once), once, "input {input:?}");
    }
}

#[test]
fn fix_leaves_blank_text_alone() {
    assert_eq!(fix_content(""), "");
    assert_eq!(fix_content(" \n\t\n"), " \n\t\n");
}

#[test]
fn fix_comment_only_text() {
    assert_eq!(fix_content("# a\n\n# b"), "# a\n# b\n");
}
