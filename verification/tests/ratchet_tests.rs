use ratchet_dispatcher::ratchet::clean_ratchet_comments;

#[test]
fn test_clean_ratchet_comments() {
    let input = "# ratchet:actions/checkout@v4";
    let expected = "# v4";
    assert_eq!(clean_ratchet_comments(input), expected);

    let input_with_dot = "# ratchet:actions/github-script@v7.0.1";
    let expected_with_dot = "# v7.0.1";
    assert_eq!(clean_ratchet_comments(input_with_dot), expected_with_dot);

    let regular_comment = "# This is a regular comment";
    assert_eq!(clean_ratchet_comments(regular_comment), regular_comment);

    let multiple_lines = "name: CI\n# ratchet:actions/checkout@v4\nruns-on: ubuntu-latest\n# ratchet:actions/setup-node@v3";
    let expected_multiple = "name: CI\n# v4\nruns-on: ubuntu-latest\n# v3";
    assert_eq!(clean_ratchet_comments(multiple_lines), expected_multiple);

    // Test newline preservation
    let input_with_newline = "# ratchet:actions/checkout@v4\n";
    let expected_with_newline = "# v4\n";
    assert_eq!(
        clean_ratchet_comments(input_with_newline),
        expected_with_newline
    );

    let input_without_newline = "# ratchet:actions/checkout@v4";
    let expected_without_newline = "# v4";
    assert_eq!(
        clean_ratchet_comments(input_without_newline),
        expected_without_newline
    );
}

#[test]
fn clean_keeps_what_stands_before_the_comment() {
    let input = "      - uses: actions/checkout@08c6903cd8c0fde910a37f88322edcfb5dd907a8 # ratchet:actions/checkout@v5\n";
    let expected = "      - uses: actions/checkout@08c6903cd8c0fde910a37f88322edcfb5dd907a8 # v5\n";
    assert_eq!(clean_ratchet_comments(input), expected);
}

#[test]
fn clean_puts_v_before_a_bare_version() {
    assert_eq!(clean_ratchet_comments("x # ratchet:a/b@7.0.1"), "x # v7.0.1");
    assert_eq!(clean_ratchet_comments("x # ratchet:a/b@main"), "x # vmain");
}

#[test]
fn clean_takes_the_first_word_behind_the_sign() {
    assert_eq!(clean_ratchet_comments("x # ratchet:a/b@  v3 trailing words"), "x # v3");
    assert_eq!(clean_ratchet_comments("x # ratchet:a/b@v3\t# more"), "x # v3");
}

#[test]
fn clean_leaves_a_comment_without_version_alone() {
    assert_eq!(clean_ratchet_comments("x # ratchet:exclude"), "x # ratchet:exclude");
    assert_eq!(clean_ratchet_comments("x # ratchet:a/b@"), "x # ratchet:a/b@");
    assert_eq!(clean_ratchet_comments("x # ratchet:a/b@   "), "x # ratchet:a/b@   ");
}

#[test]
fn clean_keeps_empty_lines_and_closing() {
    assert_eq!(clean_ratchet_comments(""), "");
    assert_eq!(clean_ratchet_comments("\n"), "\n");
    assert_eq!(clean_ratchet_comments("a\n\n"), "a\n\n");
    assert_eq!(clean_ratchet_comments("a\n\nb"), "a\n\nb");
    assert_eq!(
        clean_ratchet_comments("a\n# ratchet:o/n@v1\n\n"),
        "a\n# v1\n\n"
    );
}

#[test]
fn clean_twice_is_clean_once() {
    let input = "name: CI\n  uses: a/b@0123 # ratchet:a/b@v4\nrun: x\n";
    let once = clean_ratchet_comments(input);
    assert_eq!(clean_ratchet_comments(&once), once);
}

#[test]
fn clean_writes_line_feeds_alone() {
    assert_eq!(clean_ratchet_comments("x # ratchet:a/b@v4\r\ny\r\n"), "x # v4\ny\n");
    assert_eq!(clean_ratchet_comments("x\r\ny\r\n"), "x\ny\n");
    assert_eq!(clean_ratchet_comments("x\r\ny"), "x\ny");
    // A carriage return that no line feed follows is no line end.
    assert_eq!(clean_ratchet_comments("x\ry\r"), "x\ry\r");
    assert_eq!(clean_ratchet_comments("k # ratchet:a/b@v4 \r"), "k # v4");
}
