use ratchet_dispatcher::git::GitRepository;
use ratchet_dispatcher::staging::{FileVersions, Operation, StagingError, Step};
use ratchet_dispatcher::validate::{scan_text, AnomalyKind};

const WORKFLOW: &str = r#"name: Issue Ops Onboard User Request
on:
  workflow_dispatch:
    inputs:
      issue_number:
        description: 'Issue number'
        required: true
        type: string

jobs:
  parse-incoming-onboard-request:
    runs-on: ubuntu-latest
    outputs:
      ghname: ${{ steps.prepare.outputs.ghname }}
      email: ${{ steps.prepare.outputs.email }}
    steps:
        - uses: actions/checkout@08c6903cd8c0fde910a37f88322edcfb5dd907a8 #v5.0.0
        - name: Fetch the issue
          id: read_issue_body
          run:
            echo "body=$(gh issue view ${{ inputs.issue_number }} --repo ${{
            github.repo }} --json body --jq '.body')" >> $GITHUB_OUTPUT

        - name: Parse issue form body 
          id: parse
          uses: zentered/issue-forms-body-parser@v2.2.0
          with:
            body: ${{ steps.read_issue_body.output.body }}

  check-user-exists:
    needs: parse-incoming-onboard-request
    runs-on: ubuntu-latest
    steps:
      - name: Call GitHub API to check if user exists
        id: call_github_api
        uses: actions/github-script@v7
        with:
          github-token: ${{ secrets.ONBOARDER_GITHUB_TOKEN }}
          script: |
            try {
              const response = await github.rest.orgs.getMembershipForUser({
                org: 'example-rg',
                username: '${{needs.parse-incoming-onboard-request.outputs.ghname}}'
              });
              return response.status;
            } catch (error) {
              return null;
            }

      - name: Find Comment
        uses: peter-evans/find-comment@v3
        id: fc
        if: ${{ steps.condition.outputs.user_exists == 'false' }}
        with:
          issue-number: ${{ github.event.issue.number }}
          comment-author: 'github-actions[bot]'
          body-includes: I'm sorry, but I couldn't find the user

  execute-onboard-request:
    needs: [parse-incoming-onboard-request, check-user-exists]
    runs-on: ubuntu-latest
    container:
      image: project-docker-rnd.artifactory-ehv.ta.company.com/project-member-onboarder:latest
      credentials:
        username: ${{ secrets.DISTRIBUTED_SECRET_ARTIFACTORY_USER }}
        password: ${{ secrets.DISTRIBUTED_SECRET_ARTIFACTORY_PASS }}
      env:
        ARTIFACTORY_USER: ${{ secrets.DISTRIBUTED_SECRET_ARTIFACTORY_USER }}
        ARTIFACTORY_PASS: ${{ secrets.DISTRIBUTED_SECRET_ARTIFACTORY_PASS }}
    steps:
        - uses: actions/checkout@08c6903cd8c0fde910a37f88322edcfb5dd907a8 #v5.0.0

        - name: Get Github Token
          uses: actions/create-github-app-token@a8d616148505b5069dccd32f177bb87d7f39123b # v2.1.1
          id: token
          with:
            app-id: 349757
            private-key: ${{ secrets.ONBOARDER_project_MANAGER_GITHUB_APP_PRIVATE_KEY }}
            owner: ${{ github.repository_owner }}

        - name: Download Rivendell Release Artifact
          uses: dsaltares/fetch-gh-release-asset@aa2ab1243d6e0d5b405b973c89fa4d06a2d0fff7
          with:
            file: 'rivendell'
            target: 'rivendell'
            token: ${{steps.token.outputs.token}}

        - name: Create Pull Request
          id: create_pull_request
          uses: peter-evans/create-pull-request@v7
          with:
            token: ${{ secrets.ONBOARDER_GITHUB_TOKEN }}
            commit-message: "chore(onboard): Onboard user."
            title: "chore(onboard): Onboard user"
            branch: "automated-onboard-user"
"#;

const REWRITTEN_WORKFLOW: &str = r#"name: Issue Ops Onboard User Request
on:
  workflow_dispatch:
    inputs:
      issue_number:
        description: 'Issue number'
        required: true
        type: string

jobs:
  parse-incoming-onboard-request:
    runs-on: ubuntu-latest
    outputs:
      ghname: ${{ steps.prepare.outputs.ghname }}
      email: ${{ steps.prepare.outputs.email }}
    steps:
      - uses: actions/checkout@08c6903cd8c0fde910a37f88322edcfb5dd907a8 #v5.0.0
      - name: Fetch the issue
        id: read_issue_body
        run:
          echo "body=$(gh issue view ${{ inputs.issue_number }} --repo ${{
          github.repo }} --json body --jq '.body')" >> $GITHUB_OUTPUT

        uses: zentered/issue-forms-body-parser@93bd9fdcb3679be1889d2006e9c2cf496899402e # ratchet:zentered/issue-forms-body-parser@v2.2.0
        id: parse
        body: ${{ steps.read_issue_body.output.body }}
        with:
          body: ${{ steps.read_issue_body.output.body }}

  check-user-exists:
    needs: parse-incoming-onboard-request
    runs-on: ubuntu-latest
    steps:
      - name: Call GitHub API to check if user exists
        uses: actions/github-script@f28e40c7f34bde8b3046d885e986cb6290c5673b # ratchet:actions/github-script@v7
        with:
        with:
          github-token: ${{ secrets.ONBOARDER_GITHUB_TOKEN }}
          script: |
            try {
              const response = await github.rest.orgs.getMembershipForUser({
                org: 'example-rg',
                username: '${{needs.parse-incoming-onboard-request.outputs.ghname}}'
              });
              return response.status;
            } catch (error) {
              return null;
            }

        uses: peter-evans/find-comment@3eae4d37986fb5a8592848f6a574fdf654e61f9e # ratchet:peter-evans/find-comment@v3
        id: fc
        id: fc
        if: ${{ steps.condition.outputs.user_exists == 'false' }}
        with:
          issue-number: ${{ github.event.issue.number }}
          comment-author: 'github-actions[bot]'
          body-includes: I'm sorry, but I couldn't find the user

  execute-onboard-request:
    needs: [parse-incoming-onboard-request, check-user-exists]
    runs-on: ubuntu-latest
    container:
      image: project-docker-rnd.artifactory-ehv.ta.company.com/project-member-onboarder:latest
      credentials:
        username: ${{ secrets.DISTRIBUTED_SECRET_ARTIFACTORY_USER }}
        password: ${{ secrets.DISTRIBUTED_SECRET_ARTIFACTORY_PASS }}
      env:
        ARTIFACTORY_USER: ${{ secrets.DISTRIBUTED_SECRET_ARTIFACTORY_USER }}
        ARTIFACTORY_PASS: ${{ secrets.DISTRIBUTED_SECRET_ARTIFACTORY_PASS }}
      - uses: actions/checkout@08c6903cd8c0fde910a37f88322edcfb5dd907a8 #v5.0.0
      - name: Get Github Token

        uses: actions/create-github-app-token@a8d616148505b5069dccd32f177bb87d7f39123b # v2.1.1
        id: token
        id: token
        with:
          app-id: 349757
          private-key: ${{ secrets.ONBOARDER_project_MANAGER_GITHUB_APP_PRIVATE_KEY }}
          owner: ${{ github.repository_owner }}

        uses: dsaltares/fetch-gh-release-asset@aa2ab1243d6e0d5b405b973c89fa4d06a2d0fff7
        with:
        with:
          file: 'rivendell'
          target: 'rivendell'
          token: ${{steps.token.outputs.token}}

        uses: peter-evans/create-pull-request@271a8d0340265f705b14b6d32b9829c1cb33d45e # ratchet:peter-evans/create-pull-request@v7
        id: create_pull_request
        token: ${{ secrets.ONBOARDER_GITHUB_TOKEN }} # PAT is needed to trigger workflows
        with:
          token: ${{ secrets.ONBOARDER_GITHUB_TOKEN }}
          commit-message: "chore(onboard): Onboard user."
          title: "chore(onboard): Onboard user"
          branch: "automated-onboard-user"
"#;

fn versions(base: &str, current: &str, diff: &str) -> FileVersions {
    FileVersions {
        path: String::from(".github/workflows/test.yml"),
        diff: Ok(String::from(diff)),
        base: Ok(String::from(base)),
        current: Ok(String::from(current)),
    }
}

/// The difference as the version control prints it for a change of the last line.
fn last_line_diff(removed: &str, added: &str, base_closed: bool, current_closed: bool) -> String {
    let mut diff = String::from("@@ -6,3 +6,3 @@ jobs:\n     runs-on: ubuntu-latest\n     steps:\n");
    diff.push_str(&format!("-{}\n", removed));
    if !base_closed {
        diff.push_str("\\ No newline at end of file\n");
    }
    diff.push_str(&format!("+{}\n", added));
    if !current_closed {
        diff.push_str("\\ No newline at end of file\n");
    }
    diff
}

/// What staging the one file writes over the working file before it adds it.
fn staged_by(file: FileVersions, preserve_newline: bool) -> Option<String> {
    let git_repo = GitRepository::open(String::from("/tmp/repository")).expect("Failed to open repo");
    let mut session = git_repo.stage_changes(&vec![file], preserve_newline);
    assert_eq!(session.failures.len(), 0, "Failed to stage changes");
    let mut written = None;
    let mut added = false;
    let mut restored = false;
    while !session.is_finished() {
        match session.next_step() {
            Step::Write { path, content } => {
                assert_eq!(path, ".github/workflows/test.yml");
                written = Some(content);
            }
            Step::Add { path } => {
                assert_eq!(path, ".github/workflows/test.yml");
                added = true;
            }
            Step::Restore { .. } => restored = true,
            Step::Finished => {}
        }
        session.advance(Ok(()));
    }
    assert_eq!(session.result(), Ok(()), "Failed to stage changes");
    assert_eq!(written.is_some(), added);
    assert_eq!(written.is_some(), restored);
    written
}

#[test]
fn test_preserve_newline_enabled() {
    // A workflow file without trailing newline
    let original_content = "name: Test\non:\n  push:\njobs:\n  test:\n    runs-on: ubuntu-latest\n    steps:\n      - uses: actions/checkout@v3";
    // The file with updated uses: and a trailing newline
    let modified_content = "name: Test\non:\n  push:\njobs:\n  test:\n    runs-on: ubuntu-latest\n    steps:\n      - uses: actions/checkout@v4\n";
    let diff = last_line_diff("      - uses: actions/checkout@v3", "      - uses: actions/checkout@v4", false, true);

    let staged_content = staged_by(versions(original_content, modified_content, &diff), true)
        .expect("Should stage the file");

    assert!(
        staged_content.contains("actions/checkout@v4"),
        "Should contain the updated uses: line"
    );
    assert!(
        staged_content.lines().any(|line| line == "      - uses: actions/checkout@v4"),
        "Should stage the new line"
    );
    assert!(
        !staged_content.lines().any(|line| line == "      - uses: actions/checkout@v3"),
        "Should remove the old line"
    );
    assert_eq!(
        staged_content,
        "name: Test\non:\n  push:\njobs:\n  test:\n    runs-on: ubuntu-latest\n    steps:\n      - uses: actions/checkout@v4"
    );
}

#[test]
fn test_preserve_newline_disabled() {
    let original_content = "name: Test\non:\n  push:\njobs:\n  test:\n    runs-on: ubuntu-latest\n    steps:\n      - uses: actions/checkout@v3";
    let modified_content = "name: Test\non:\n  push:\njobs:\n  test:\n    runs-on: ubuntu-latest\n    steps:\n      - uses: actions/checkout@v4\n";
    let diff = last_line_diff("      - uses: actions/checkout@v3", "      - uses: actions/checkout@v4", false, true);

    let staged_content = staged_by(versions(original_content, modified_content, &diff), false)
        .expect("Should stage the file");

    assert!(
        staged_content.contains("actions/checkout@v4"),
        "Should contain the updated uses: line"
    );
    assert!(
        staged_content.lines().any(|line| line == "      - uses: actions/checkout@v4"),
        "Should stage the new line"
    );
    assert!(
        !staged_content.lines().any(|line| line == "      - uses: actions/checkout@v3"),
        "Should remove the old line"
    );
    assert!(!staged_content.ends_with('\n'));
}

#[test]
fn test_skip_only_newline_changes() {
    // A workflow file with trailing newline
    let original_content = "name: Test\non:\n  push:\njobs:\n  test:\n    runs-on: ubuntu-latest\n    steps:\n      - uses: actions/checkout@v4\n";
    // The same file without the trailing newline (no uses: changes)
    let modified_content = "name: Test\non:\n  push:\njobs:\n  test:\n    runs-on: ubuntu-latest\n    steps:\n      - uses: actions/checkout@v4";
    let diff = last_line_diff("      - uses: actions/checkout@v4", "      - uses: actions/checkout@v4", true, false);

    // Should be nothing to stage because only newlines changed
    assert_eq!(
        staged_by(versions(original_content, modified_content, &diff), true),
        None,
        "Should not stage files when only newlines change with preserve_newline=true"
    );
}

#[test]
fn test_real_world_yaml_corruption_issues() {
    let diff = "@@ -30,1 +24,1 @@\n-          uses: zentered/issue-forms-body-parser@v2.2.0\n+        uses: zentered/issue-forms-body-parser@93bd9fdcb3679be1889d2006e9c2cf496899402e # ratchet:zentered/issue-forms-body-parser@v2.2.0\n";
    let staged_content = staged_by(versions(WORKFLOW, REWRITTEN_WORKFLOW, diff), false)
        .expect("Should stage the file");

    let base_lines: Vec<&str> = WORKFLOW.lines().collect();
    let staged_lines: Vec<&str> = staged_content.lines().collect();
    assert_eq!(staged_lines.len(), base_lines.len());
    assert_eq!(staged_content.ends_with('\n'), WORKFLOW.ends_with('\n'));

    // Only uses: lines may differ, and each keeps its indentation.
    let mut changed = Vec::new();
    for (index, (base, staged)) in base_lines.iter().zip(staged_lines.iter()).enumerate() {
        if base != staged {
            assert!(base.contains("uses:"), "line {} is no uses: line: {:?}", index, base);
            assert!(staged.contains("uses:"));
            let indent = |line: &str| line.len() - line.trim_start().len();
            assert_eq!(indent(base), indent(staged));
            changed.push(*staged);
        }
    }
    assert_eq!(
        changed,
        vec![
            "          uses: zentered/issue-forms-body-parser@93bd9fdcb3679be1889d2006e9c2cf496899402e # ratchet:zentered/issue-forms-body-parser@v2.2.0",
            "        uses: actions/github-script@f28e40c7f34bde8b3046d885e986cb6290c5673b # ratchet:actions/github-script@v7",
            "        uses: peter-evans/find-comment@3eae4d37986fb5a8592848f6a574fdf654e61f9e # ratchet:peter-evans/find-comment@v3",
            "          uses: peter-evans/create-pull-request@271a8d0340265f705b14b6d32b9829c1cb33d45e # ratchet:peter-evans/create-pull-request@v7",
        ]
    );

    // The duplicated and orphaned lines of the rewritten file are not staged.
    assert_eq!(staged_content.matches("id: fc").count(), 1);
    assert_eq!(staged_content.matches("id: token").count(), 1);
    assert_eq!(
        staged_content.matches("with:").count(),
        WORKFLOW.matches("with:").count()
    );
}

#[test]
fn a_failure_is_described_with_operation_file_and_cause() {
    let describe = |operation| {
        StagingError {
            operation,
            path: String::from("w.yml"),
            cause: String::from("exit status 1"),
        }
        .describe()
    };
    assert_eq!(describe(Operation::Diff), "Failed to get diff for w.yml: exit status 1");
    assert_eq!(describe(Operation::ReadBase), "Git show failed for w.yml: exit status 1");
    assert_eq!(describe(Operation::ReadCurrent), "Failed to read current file w.yml: exit status 1");
    assert_eq!(describe(Operation::Write), "Failed to write uses-only content to w.yml: exit status 1");
    assert_eq!(describe(Operation::Add), "Failed to stage file w.yml: exit status 1");
    assert_eq!(describe(Operation::Restore), "Failed to restore current file content of w.yml: exit status 1");
}

#[test]
fn the_scan_is_silent_on_the_workflow_and_loud_on_the_rewritten_one() {
    assert_eq!(scan_text(&WORKFLOW.chars().collect()), Vec::new());

    let found = scan_text(&REWRITTEN_WORKFLOW.chars().collect());
    assert!(found.iter().all(|anomaly| anomaly.kind == AnomalyKind::DuplicateKey));
    let lines: Vec<&str> = REWRITTEN_WORKFLOW.lines().collect();
    let repeated: Vec<(usize, &str)> = found
        .iter()
        .map(|anomaly| (anomaly.line, lines[anomaly.line].trim_start().split(':').next().unwrap()))
        .collect();
    assert_eq!(
        repeated,
        vec![
            (24, "id"),
            (36, "with"),
            (49, "uses"),
            (51, "id"),
            (53, "with"),
            (74, "id"),
            (80, "uses"),
            (81, "with"),
            (82, "with"),
            (87, "uses"),
            (88, "id"),
            (90, "with"),
        ]
    );

    // What is staged of the rewritten workflow has the structure of the committed one.
    let repository = GitRepository::open(String::from("/tmp/repository")).unwrap();
    let staged_content = repository.create_uses_only_version(WORKFLOW, REWRITTEN_WORKFLOW).unwrap();
    assert_eq!(scan_text(&staged_content.chars().collect()), Vec::new());
}
