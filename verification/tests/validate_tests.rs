use ratchet_dispatcher::validate::{scan_text, shape_of_line, Anomaly, AnomalyKind};

fn chars(s: &str) -> Vec<char> {
    s.chars().collect()
}

fn scan(s: &str) -> Vec<Anomaly> {
    scan_text(&chars(s))
}

fn duplicate(line: usize) -> Anomaly {
    Anomaly { line, kind: AnomalyKind::DuplicateKey }
}

fn orphan(line: usize) -> Anomaly {
    Anomaly { line, kind: AnomalyKind::OrphanedProperty }
}

#[test]
fn a_sound_workflow_has_no_findings() {
    let text = "name: Test\non:\n  push:\n    branches: [main]\n\njobs:\n  test:\n    runs-on: ubuntu-latest\n    steps:\n      - uses: actions/checkout@v4\n      - name: Parse\n        id: parse\n        uses: zentered/issue-forms-body-parser@v2.2.0\n        with:\n          body: ${{ steps.read.output.body }}\n      - name: Run\n        id: run\n        run: |\n          echo one\n          echo one\n        env:\n          A: b\n  other:\n    runs-on: ubuntu-latest\n    steps:\n    - uses: actions/checkout@v4\n    - name: Again\n      id: parse\n";
    assert_eq!(scan(text), Vec::new());
    assert_eq!(scan(""), Vec::new());
    assert_eq!(scan("\n\n"), Vec::new());
}

#[test]
fn a_key_that_stands_twice_in_a_record_is_found() {
    let text = "steps:\n  - name: A\n    id: x\n    id: x\n  - name: B\n    id: x\n";
    assert_eq!(scan(text), vec![duplicate(3)]);
    let text = "steps:\n  - name: A\n    uses: a@v1\n    with:\n    with:\n      token: t\n";
    assert_eq!(scan(text), vec![duplicate(4)]);
    // The key that opens the item counts as one of the record.
    let text = "steps:\n  - uses: a@v1\n    name: A\n    uses: b@v1\n";
    assert_eq!(scan(text), vec![duplicate(3)]);
    // Three times: each repetition is found.
    assert_eq!(scan("a: 1\na: 2\na: 3\n"), vec![duplicate(1), duplicate(2)]);
}

#[test]
fn blank_lines_and_comments_do_not_part_a_record() {
    let text = "  - name: A\n    id: x\n\n# comment at the margin\n    id: x\n";
    assert_eq!(scan(text), vec![duplicate(4)]);
}

#[test]
fn a_less_indented_line_parts_two_records() {
    let text = "jobs:\n  a:\n    name: x\n  b:\n    name: x\n";
    assert_eq!(scan(text), Vec::new());
    // Deeper lines in between do not.
    let text = "with:\n  a: 1\nwith:\n";
    assert_eq!(scan(text), vec![duplicate(2)]);
    // The same key at another column is another key.
    let text = "id: x\n  id:\n";
    assert_eq!(scan(text), vec![orphan(1)]);
}

#[test]
fn a_property_below_a_value_is_an_orphan() {
    assert_eq!(scan("name: CI\n  uses: a@v1\n"), vec![orphan(1)]);
    let text = "steps:\n  - name: A\n      token: t\n";
    assert_eq!(scan(text), vec![orphan(2)]);
    // Below a key without a value, a block sign or a comment nothing is orphaned.
    assert_eq!(scan("with:\n  token: t\n"), Vec::new());
    assert_eq!(scan("run: |\n  token: t\n"), Vec::new());
    assert_eq!(scan("run: >-\n  token: t\n"), Vec::new());
    assert_eq!(scan("with: # options\n  token: t\n"), Vec::new());
    // Nor below a line that holds no key.
    assert_eq!(scan("echo hello\n  token: t\n"), Vec::new());
    // A property at the column of the item's first key is a sibling.
    assert_eq!(scan("- name: A\n  id: x\n"), Vec::new());
}

#[test]
fn the_lines_of_a_block_are_read_like_any_others() {
    assert_eq!(scan("run: |\n  echo: one\n  echo: one\n"), vec![duplicate(2)]);
}

#[test]
fn both_findings_on_one_line_come_in_order() {
    let text = "a: 1\n  b: 2\n  b: 3\n";
    assert_eq!(scan(text), vec![orphan(1), duplicate(2), orphan(2)]);
}

#[test]
fn duplicated_keys_of_a_corrupted_workflow_are_found() {
    let text = "    steps:\n      - name: Call GitHub API to check if user exists\n        uses: actions/github-script@f28e40c7 # ratchet:actions/github-script@v7\n        with:\n        with:\n          github-token: ${{ secrets.TOKEN }}\n\n        uses: peter-evans/find-comment@3eae4d37 # ratchet:peter-evans/find-comment@v3\n        id: fc\n        id: fc\n        if: ${{ steps.condition.outputs.user_exists == 'false' }}\n";
    assert_eq!(scan(text), vec![duplicate(4), duplicate(7), duplicate(9)]);
}

#[test]
fn the_shape_of_a_line_is_read_by_indentation() {
    let shape = shape_of_line(&chars("      - name: Fetch the issue"));
    assert!(!shape.skipped);
    assert_eq!(shape.indent, 6);
    assert!(shape.has_key);
    assert_eq!(shape.key_column, 8);
    assert_eq!(shape.key, chars("name"));
    assert!(shape.holds_scalar);

    let shape = shape_of_line(&chars("        with:"));
    assert!(shape.has_key);
    assert_eq!(shape.indent, 8);
    assert_eq!(shape.key_column, 8);
    assert_eq!(shape.key, chars("with"));
    assert!(!shape.holds_scalar);

    let shape = shape_of_line(&chars("  runs-on:   ubuntu-latest"));
    assert_eq!(shape.key, chars("runs-on"));
    assert!(shape.holds_scalar);

    let shape = shape_of_line(&chars("  -   ARTIFACTORY_USER: x"));
    assert_eq!(shape.key_column, 6);
    assert_eq!(shape.key, chars("ARTIFACTORY_USER"));

    for line in ["", "    ", "  # uses: a", "  echo \"body=1\"", "  key:value", "  : x", "  - x", "run: |"] {
        let shape = shape_of_line(&chars(line));
        assert_eq!(shape.has_key, line == "run: |", "{:?}", line);
        assert!(!shape.holds_scalar, "{:?}", line);
    }
    assert!(shape_of_line(&chars("   ")).skipped);
    assert!(shape_of_line(&chars("  # c")).skipped);
    assert!(!shape_of_line(&chars("  c")).skipped);
}
