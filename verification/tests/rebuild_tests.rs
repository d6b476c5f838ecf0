use ratchet_dispatcher::git::GitRepository;
use ratchet_dispatcher::lines::{close_lines, read_lines, render_text, split_raw_lines};
use ratchet_dispatcher::rebuild::{
    build_reconstructed, pairs_passed_over, reconstruct, reconstruct_text,
};
use ratchet_dispatcher::target::{
    extract_target_lines, line_is_target, match_by_position, uses_marker, Correspondence,
    TargetLine,
};
use ratchet_dispatcher::text::{
    char_is_whitespace, chars_to_string, count_leading_whitespace, find, str_to_chars,
};

fn chars(s: &str) -> Vec<char> {
    s.chars().collect()
}

fn text(v: &Vec<char>) -> String {
    v.iter().collect()
}

fn repository() -> GitRepository {
    GitRepository::open(String::from("/tmp/repository")).expect("open never fails")
}

fn rebuilt(base: &str, modified: &str) -> String {
    repository()
        .create_uses_only_version(base, modified)
        .expect("rebuilding never fails")
}

#[test]
fn open_keeps_the_working_directory() {
    let repository = GitRepository::open(String::from("some/where")).unwrap();
    assert_eq!(repository.working_dir, "some/where");
}

#[test]
fn whitespace_is_what_std_calls_whitespace() {
    let mut code: u32 = 0;
    while code <= 0x10FFFF {
        if let Some(c) = char::from_u32(code) {
            assert_eq!(char_is_whitespace(c), c.is_whitespace(), "U+{:04X}", code);
        }
        code += 1;
    }
}

#[test]
fn conversions_keep_every_character() {
    let s = "  - uses: ä/ö@v1 \u{3000}\u{1F600}\n";
    assert_eq!(str_to_chars(s), chars(s));
    assert_eq!(chars_to_string(&chars(s)), s);
}

#[test]
fn leading_whitespace_is_counted_in_characters() {
    assert_eq!(count_leading_whitespace(&chars("")), 0);
    assert_eq!(count_leading_whitespace(&chars("   ")), 3);
    assert_eq!(count_leading_whitespace(&chars(" \t\u{3000}x ")), 3);
    assert_eq!(count_leading_whitespace(&chars("x  ")), 0);
}

#[test]
fn find_gives_the_first_occurrence() {
    assert_eq!(find(&chars("a uses: uses:"), &chars("uses:")), Some(2));
    assert_eq!(find(&chars("uses"), &chars("uses:")), None);
    assert_eq!(find(&chars("ususes:"), &chars("uses:")), Some(2));
    assert_eq!(find(&chars("äö uses:"), &chars("uses:")), Some(3));
    assert_eq!(find(&chars(""), &chars("")), Some(0));
    assert_eq!(find(&chars("abc"), &chars("")), Some(0));
    assert_eq!(find(&chars(""), &chars("a")), None);
}

#[test]
fn lines_are_divided_by_line_feeds() {
    let empty: Vec<Vec<char>> = Vec::new();
    assert_eq!(split_raw_lines(&chars("")), empty);
    assert_eq!(split_raw_lines(&chars("\n")), vec![chars("")]);
    assert_eq!(split_raw_lines(&chars("a")), vec![chars("a")]);
    assert_eq!(split_raw_lines(&chars("a\n")), vec![chars("a")]);
    assert_eq!(split_raw_lines(&chars("a\nb")), vec![chars("a"), chars("b")]);
    assert_eq!(split_raw_lines(&chars("a\n\n")), vec![chars("a"), chars("")]);
    assert_eq!(
        split_raw_lines(&chars("\n\nb\n")),
        vec![chars(""), chars(""), chars("b")]
    );
}

#[test]
fn rendering_gives_the_text_back() {
    for s in ["", "\n", "a", "a\n", "a\nb", "a\n\n", "\n\nb\n", "x\r\ny\r\n"] {
        let lines = split_raw_lines(&chars(s));
        assert_eq!(text(&render_text(&lines, s.ends_with('\n'))), s);
    }
}

#[test]
fn extractor_accepts_the_marker_behind_any_indent() {
    let marker = uses_marker();
    assert!(line_is_target(&chars("uses: actions/checkout@v3"), &marker));
    assert!(line_is_target(&chars("- uses: actions/checkout@v3"), &marker));
    assert!(line_is_target(&chars("        uses: a/b@v1"), &marker));
    assert!(line_is_target(&chars("      - uses: a/b@v1"), &marker));
    assert!(line_is_target(&chars("\t \u{a0}- uses: a/b@v1"), &marker));
    assert!(line_is_target(&chars("  uses:"), &marker));
}

#[test]
fn extractor_rejects_the_marker_elsewhere() {
    let marker = uses_marker();
    assert!(!line_is_target(&chars("  # uses: example"), &marker));
    assert!(!line_is_target(&chars("  name: uses: example"), &marker));
    assert!(!line_is_target(&chars("  -uses: example"), &marker));
    assert!(!line_is_target(&chars("  -  uses: example"), &marker));
    assert!(!line_is_target(&chars("  - - uses: example"), &marker));
    assert!(!line_is_target(&chars("  \"uses: example\""), &marker));
    assert!(!line_is_target(&chars("  uses"), &marker));
    assert!(!line_is_target(&chars(""), &marker));
    assert!(!line_is_target(&chars("   "), &marker));
}

#[test]
fn extractor_serves_another_marker() {
    let marker = chars("image:");
    assert!(line_is_target(&chars("    image: alpine:3"), &marker));
    assert!(line_is_target(&chars("  - image: alpine:3"), &marker));
    assert!(!line_is_target(&chars("  - uses: a/b@v1"), &marker));
}

#[test]
fn extract_uses_context_gives_positions_and_lines() {
    let lines = [
        "name: CI",
        "    steps:",
        "      - uses: actions/checkout@v3",
        "      - name: Parse  # uses: nothing",
        "        uses: zentered/issue-forms-body-parser@v2.2.0",
        "",
    ];
    let found = repository().extract_uses_context(&lines);
    assert_eq!(
        found,
        vec![
            (2, String::from("      - uses: actions/checkout@v3")),
            (4, String::from("        uses: zentered/issue-forms-body-parser@v2.2.0")),
        ]
    );
}

#[test]
fn extract_target_lines_matches_extract_uses_context() {
    let lines = vec![chars("a"), chars(" uses: x"), chars("- uses: y"), chars("b")];
    let found = extract_target_lines(&lines, &uses_marker());
    assert_eq!(
        found,
        vec![
            TargetLine { index: 1, content: chars(" uses: x") },
            TargetLine { index: 2, content: chars("- uses: y") },
        ]
    );
}

#[test]
fn reconstructed_line_is_base_prefix_and_modified_payload() {
    let line = repository().preserve_indentation_with_new_uses_content(
        "        - uses: actions/checkout@v3",
        "      - uses: actions/checkout@08c6903...#v4",
    );
    assert_eq!(line, "        - uses: actions/checkout@08c6903...#v4");
}

#[test]
fn reconstructed_line_crosses_list_item_and_plain_form() {
    let repository = repository();
    assert_eq!(
        repository.preserve_indentation_with_new_uses_content(
            "          uses: zentered/issue-forms-body-parser@v2.2.0",
            "      - uses: zentered/issue-forms-body-parser@93bd9fd # ratchet:zentered/issue-forms-body-parser@v2.2.0",
        ),
        "          uses: zentered/issue-forms-body-parser@93bd9fd # ratchet:zentered/issue-forms-body-parser@v2.2.0"
    );
    assert_eq!(
        repository.preserve_indentation_with_new_uses_content("\t- uses: a@v1", "uses: a@v2"),
        "\t- uses: a@v2"
    );
}

#[test]
fn reconstructed_line_falls_back_without_marker() {
    let repository = repository();
    // No marker in the base line: its opening white space is kept.
    assert_eq!(
        repository.preserve_indentation_with_new_uses_content("    name: x", "  uses: a@v2"),
        "    uses: a@v2"
    );
    // No marker in the modified line: it is taken without its opening white space.
    assert_eq!(
        repository.preserve_indentation_with_new_uses_content("    - uses: a@v1", "   run: y  "),
        "    - run: y  "
    );
    assert_eq!(
        repository.preserve_indentation_with_new_uses_content("", ""),
        ""
    );
    assert_eq!(
        text(&reconstruct(&chars("  x"), &chars("\t y"), &uses_marker())),
        "  y"
    );
}

#[test]
fn matcher_pairs_by_rank_and_drops_the_excess() {
    let base = vec![
        TargetLine { index: 5, content: chars("  uses: a@v1") },
        TargetLine { index: 12, content: chars("  uses: b@v1") },
        TargetLine { index: 20, content: chars("  uses: c@v1") },
    ];
    let modified = vec![
        TargetLine { index: 3, content: chars("uses: a@1111") },
        TargetLine { index: 10, content: chars("uses: b@2222") },
    ];
    let pairs = match_by_position(&base, &modified);
    assert_eq!(
        pairs,
        vec![
            Correspondence {
                base_index: 5,
                base_line: chars("  uses: a@v1"),
                modified_line: chars("uses: a@1111"),
            },
            Correspondence {
                base_index: 12,
                base_line: chars("  uses: b@v1"),
                modified_line: chars("uses: b@2222"),
            },
        ]
    );
    // More target lines in the modified text: the excess is dropped.
    let pairs = match_by_position(&modified, &base);
    assert_eq!(pairs.len(), 2);
    assert_eq!(pairs[1].base_index, 10);
    assert_eq!(pairs[1].modified_line, chars("  uses: b@v1"));
    assert_eq!(match_by_position(&Vec::new(), &base), Vec::new());
}

fn numbered_text(count: usize, targets: &[(usize, &str)]) -> String {
    let mut out = String::new();
    for i in 0..count {
        match targets.iter().find(|(at, _)| *at == i) {
            Some((_, line)) => out.push_str(line),
            None => out.push_str(&format!("line {}", i)),
        }
        out.push('\n');
    }
    out
}

#[test]
fn position_count_mismatch_leaves_the_third_target_line() {
    let base = numbered_text(
        22,
        &[(5, "        - uses: a/a@v1"), (12, "          uses: b/b@v1"), (20, "        - uses: c/c@v1")],
    );
    let modified = numbered_text(12, &[(3, "      - uses: a/a@1111 # v1"), (10, "        uses: b/b@2222 # v1")]);
    let base_lines = read_lines(&chars(&base));
    let modified_lines = read_lines(&chars(&modified));
    let marker = uses_marker();
    let base_targets = extract_target_lines(&base_lines, &marker);
    let modified_targets = extract_target_lines(&modified_lines, &marker);
    assert_eq!(base_targets.iter().map(|t| t.index).collect::<Vec<_>>(), vec![5, 12, 20]);
    assert_eq!(modified_targets.iter().map(|t| t.index).collect::<Vec<_>>(), vec![3, 10]);
    let pairs = match_by_position(&base_targets, &modified_targets);
    assert_eq!(pairs.len(), 2);
    assert_eq!(pairs[0].base_index, 5);
    assert_eq!(pairs[1].base_index, 12);

    let out = rebuilt(&base, &modified);
    let expected = numbered_text(
        22,
        &[
            (5, "        - uses: a/a@1111 # v1"),
            (12, "          uses: b/b@2222 # v1"),
            (20, "        - uses: c/c@v1"),
        ],
    );
    assert_eq!(out, expected);
    assert_eq!(out.lines().count(), base.lines().count());
    assert_eq!(out.lines().nth(20), Some("        - uses: c/c@v1"));
}

#[test]
fn excess_modified_target_lines_are_dropped() {
    let base = "steps:\n  - uses: a@v1\n";
    let modified = "steps:\n- uses: a@1111\n- uses: b@2222\n";
    assert_eq!(rebuilt(base, modified), "steps:\n  - uses: a@1111\n");
}

#[test]
fn end_to_end_keeps_indentation_and_takes_the_pin() {
    let base = "jobs:\n  build:\n    steps:\n        - uses: actions/checkout@v3\n        - name: Some step\n          run: echo hi\n";
    let modified = "jobs:\n  build:\n    steps:\n      - uses: actions/checkout@08c6903...#v4\n      - name: Some step\n        run: echo hi\n";
    let expected = "jobs:\n  build:\n    steps:\n        - uses: actions/checkout@08c6903...#v4\n        - name: Some step\n          run: echo hi\n";
    assert_eq!(rebuilt(base, modified), expected);
}

#[test]
fn rebuilt_text_is_closed_as_the_base_text() {
    assert_eq!(rebuilt("  uses: a@v1", "uses: a@v2\n"), "  uses: a@v2");
    assert_eq!(rebuilt("  uses: a@v1\n", "uses: a@v2"), "  uses: a@v2\n");
    assert_eq!(rebuilt("", "uses: a@v2\n"), "");
    assert_eq!(rebuilt("\n", "uses: a@v2\n"), "\n");
    assert_eq!(rebuilt("a\n\n", "b"), "a\n\n");
    assert_eq!(rebuilt("uses: a\n\n\n", "uses: b"), "uses: b\n\n\n");
}

#[test]
fn rebuilt_text_has_the_line_count_of_the_base_text() {
    let bases = ["", "\n", "x", "x\n", "uses: a", " - uses: a\nb\n\n", "a\n- uses: b\nuses: c"];
    let modifieds = ["", "uses: z", "uses: z\nuses: y\n   - uses: w\n", "q\n\n"];
    for base in bases {
        for modified in modifieds {
            let out = rebuilt(base, modified);
            assert_eq!(out.lines().count(), base.lines().count(), "{:?} {:?}", base, modified);
            assert_eq!(out.ends_with('\n'), base.ends_with('\n'));
        }
    }
}

#[test]
fn rebuilding_the_rebuilt_text_changes_nothing() {
    let base = "a\n        - uses: x/y@v1\n  b\n    uses: z@v2\nuses: last@v0";
    let modified = "a\n   - uses: x/y@1234 # v1\nnew\nuses: z@5678 # v2\n";
    let once = rebuilt(base, modified);
    assert_eq!(once, "a\n        - uses: x/y@1234 # v1\n  b\n    uses: z@5678 # v2\nuses: last@v0");
    assert_eq!(rebuilt(&once, modified), once);
}

#[test]
fn a_text_rebuilt_from_itself_is_itself() {
    for s in ["", "\n", "uses: a\n", "  - uses: a@v1\nb\n\n  uses: c", "x\r\n uses: y\r\n"] {
        assert_eq!(rebuilt(s, s), s);
    }
    assert_eq!(rebuilt("  uses: a@v1", "  uses: a@v1\n"), "  uses: a@v1");
    assert_eq!(rebuilt("  uses: a@v1\n", "  uses: a@v1"), "  uses: a@v1\n");
}

#[test]
fn builder_passes_over_a_position_beyond_the_last_line() {
    let base = chars("a\n  uses: b@v1\n");
    let pairs = vec![
        Correspondence {
            base_index: 7,
            base_line: chars("  uses: b@v1"),
            modified_line: chars("uses: lost@v9"),
        },
        Correspondence {
            base_index: 1,
            base_line: chars("  uses: b@v1"),
            modified_line: chars("uses: b@v2"),
        },
        Correspondence {
            base_index: 2,
            base_line: chars("  uses: b@v1"),
            modified_line: chars("uses: lost@v9"),
        },
    ];
    assert_eq!(
        text(&build_reconstructed(&base, &pairs, &uses_marker())),
        "a\n  uses: b@v2\n"
    );
    assert_eq!(pairs_passed_over(&base, &pairs), vec![0, 2]);
    assert_eq!(pairs_passed_over(&chars("a\nb\nc"), &pairs), vec![0]);
    assert_eq!(pairs_passed_over(&chars("1\n2\n3\n4\n5\n6\n7\n8"), &pairs), Vec::<usize>::new());
}

#[test]
fn builder_lets_the_last_pair_of_a_position_win() {
    let base = chars("uses: a@v1");
    let pairs = vec![
        Correspondence { base_index: 0, base_line: chars("uses: a@v1"), modified_line: chars("uses: a@v2") },
        Correspondence { base_index: 0, base_line: chars("  uses: a@v1"), modified_line: chars("uses: a@v3") },
    ];
    assert_eq!(text(&build_reconstructed(&base, &pairs, &uses_marker())), "  uses: a@v3");
    assert_eq!(text(&build_reconstructed(&base, &Vec::new(), &uses_marker())), "uses: a@v1");
}

#[test]
fn reconstruct_text_serves_another_marker() {
    let out = reconstruct_text(
        &chars("services:\n    image: alpine:3\n"),
        &chars("services:\n  image: alpine@sha256:0123\n"),
        &chars("image:"),
    );
    assert_eq!(text(&out), "services:\n    image: alpine@sha256:0123\n");
}

#[test]
fn a_carriage_return_that_closes_a_working_line_is_no_payload() {
    assert_eq!(rebuilt("- uses: a@v1", "- uses: a@v2\r\n"), "- uses: a@v2");
    assert_eq!(rebuilt("- uses: a@v1", "- uses: a@v2\n"), "- uses: a@v2");
    assert_eq!(rebuilt("  - uses: a@v1\n", "- uses: a@v2\r\nname: x\r\n"), "  - uses: a@v2\n");
    // Only a carriage return before a line feed closes a line.
    assert_eq!(rebuilt("- uses: a@v1", "- uses: a@v2\r"), "- uses: a@v2\r");
    assert_eq!(rebuilt("- uses: a@v1", "- uses: a\r@v2\n"), "- uses: a\r@v2");
}

#[test]
fn a_rebuilt_line_is_closed_as_the_base_line() {
    // Carriage return and line feed in the base text stay, whatever closes the working lines.
    assert_eq!(
        rebuilt("a\r\n  uses: b@v1\r\nc\r\n", "uses: b@v2\nother\n"),
        "a\r\n  uses: b@v2\r\nc\r\n"
    );
    assert_eq!(
        rebuilt("a\r\n  uses: b@v1\r\nc\r\n", "x\r\nuses: b@v2\r\n"),
        "a\r\n  uses: b@v2\r\nc\r\n"
    );
    // A base line that a line feed alone closes is closed by a line feed alone.
    assert_eq!(rebuilt("a\r\n  uses: b@v1\nc\r\n", "uses: b@v2\r\n"), "a\r\n  uses: b@v2\nc\r\n");
    // The last line of a base text that no line feed closes is closed by nothing.
    assert_eq!(rebuilt("a\r\n  uses: b@v1", "uses: b@v2\r\n"), "a\r\n  uses: b@v2");
    assert_eq!(rebuilt("a\r\n  uses: b@v1\r", "uses: b@v2\r\n"), "a\r\n  uses: b@v2");
    // Lines that are not rebuilt stay character by character.
    assert_eq!(rebuilt("a\r\r\nb\rc\n\r\n", "uses: x\n"), "a\r\r\nb\rc\n\r\n");
}

#[test]
fn rebuilding_again_adds_no_carriage_return() {
    let working = "uses: b\r";
    let once = rebuilt("uses: a\nx", working);
    assert_eq!(once, "uses: b\r\nx");
    let twice = rebuilt(&once, working);
    assert_eq!(twice, "uses: b\r\nx");
    assert_eq!(rebuilt(&twice, working), "uses: b\r\nx");
    // The same where a carriage return and a line feed close the base line.
    assert_eq!(rebuilt("uses: a\r\nx", working), "uses: b\r\nx");
    assert_eq!(rebuilt("uses: a\r\nx\r\n", "uses: b\r\r\n"), "uses: b\r\nx\r\n");
    // A line that stays keeps every carriage return.
    assert_eq!(rebuilt("uses: a\r\r\nx", "uses: a\r"), "uses: a\r\r\nx");
    assert_eq!(rebuilt("y\r\r\nuses: a", "uses: b"), "y\r\r\nuses: b");
}

#[test]
fn lines_are_closed_as_given_raw_lines() {
    let raw = split_raw_lines(&chars("a\r\nb\r\nc\n"));
    let bodies = vec![chars("a"), chars("x\r"), chars("y\r")];
    assert_eq!(close_lines(&raw, true, bodies), vec![chars("a\r"), chars("x\r"), chars("y\r")]);
    let raw = split_raw_lines(&chars("a\r\r\n"));
    assert_eq!(close_lines(&raw, true, vec![chars("a\r")]), vec![chars("a\r\r")]);

    let raw = split_raw_lines(&chars("a\r\nb\nc\r"));
    let bodies = vec![chars("x"), chars("y"), chars("z")];
    assert_eq!(close_lines(&raw, false, bodies), vec![chars("x\r"), chars("y"), chars("z")]);
    let bodies = vec![chars("x"), chars("y"), chars("z")];
    assert_eq!(close_lines(&raw, true, bodies), vec![chars("x\r"), chars("y"), chars("z\r")]);
}

#[test]
fn builder_closes_lines_as_the_base_text() {
    let base = chars("a\r\n  uses: b@v1\r\n");
    let pairs = vec![Correspondence {
        base_index: 1,
        base_line: chars("  uses: b@v1"),
        modified_line: chars("uses: b@v2"),
    }];
    assert_eq!(
        text(&build_reconstructed(&base, &pairs, &uses_marker())),
        "a\r\n  uses: b@v2\r\n"
    );
}
