use ratchet_dispatcher::git::GitRepository;
use ratchet_dispatcher::staging::{
    plan_file, ErrorKind, FileVersions, Operation, Phase, Planned, StagingError, StagingSession,
    StagingTask, Step,
};
use ratchet_dispatcher::validate::{Anomaly, AnomalyKind};

fn repository() -> GitRepository {
    GitRepository::open(String::from("/tmp/repository")).expect("open never fails")
}

fn ok(s: &str) -> Result<String, String> {
    Ok(String::from(s))
}

fn err(s: &str) -> Result<String, String> {
    Err(String::from(s))
}

fn versions(path: &str, base: &str, current: &str, diff: &str) -> FileVersions {
    FileVersions { path: String::from(path), diff: ok(diff), base: ok(base), current: ok(current) }
}

const BASE: &str = "steps:\n        - uses: actions/checkout@v3\n        - name: Some step\n";
const CURRENT: &str = "steps:\n      - uses: actions/checkout@08c6903 # v3\n      - name: Some step\n";
const DIFF: &str = "@@ -1,3 +1,3 @@\n steps:\n-        - uses: actions/checkout@v3\n-        - name: Some step\n+      - uses: actions/checkout@08c6903 # v3\n+      - name: Some step\n";
const STAGED: &str = "steps:\n        - uses: actions/checkout@08c6903 # v3\n        - name: Some step\n";

#[test]
fn a_changed_file_is_planned_with_the_rebuilt_text() {
    let planned = plan_file(&versions("w.yml", BASE, CURRENT, DIFF), false);
    assert_eq!(
        planned,
        Planned::Stage(StagingTask {
            path: String::from("w.yml"),
            staged: String::from(STAGED),
            original: String::from(CURRENT),
            anomalies: Vec::new(),
        })
    );
    assert_eq!(plan_file(&versions("w.yml", BASE, CURRENT, DIFF), true), planned);
}

#[test]
fn a_file_without_changed_target_lines_is_skipped() {
    let diff = "@@ -1 +1 @@\n-name: a\n+name: b\n";
    assert_eq!(plan_file(&versions("w.yml", "name: a\n", "name: b\n", diff), false), Planned::Skip);
    // What else was read of it does not matter.
    let unread = FileVersions {
        path: String::from("w.yml"),
        diff: ok(diff),
        base: err("no such revision"),
        current: err("no such file"),
    };
    assert_eq!(plan_file(&unread, false), Planned::Skip);
}

#[test]
fn what_could_not_be_read_is_a_failure_of_its_own_kind() {
    let mut file = versions("w.yml", BASE, CURRENT, DIFF);
    file.diff = err("git diff: exit status 128");
    let planned = plan_file(&file, false);
    let expected = StagingError {
        operation: Operation::Diff,
        path: String::from("w.yml"),
        cause: String::from("git diff: exit status 128"),
    };
    assert_eq!(expected.kind(), ErrorKind::VersionControl);
    assert_eq!(planned, Planned::Fail(expected));

    let mut file = versions("w.yml", BASE, CURRENT, DIFF);
    file.base = err("fatal: path not in HEAD");
    file.current = err("permission denied");
    match plan_file(&file, false) {
        Planned::Fail(error) => {
            assert_eq!(error.operation, Operation::ReadBase);
            assert_eq!(error.kind(), ErrorKind::VersionControl);
            assert_eq!(error.path, "w.yml");
            assert_eq!(error.cause, "fatal: path not in HEAD");
        }
        other => panic!("planned {:?}", other),
    }

    let mut file = versions("w.yml", BASE, CURRENT, DIFF);
    file.current = err("permission denied");
    match plan_file(&file, false) {
        Planned::Fail(error) => {
            assert_eq!(error.operation, Operation::ReadCurrent);
            assert_eq!(error.kind(), ErrorKind::Io);
            assert_eq!(error.cause, "permission denied");
        }
        other => panic!("planned {:?}", other),
    }
}

#[test]
fn every_operation_has_its_kind_of_failure() {
    let kind = |operation| {
        StagingError { operation, path: String::new(), cause: String::new() }.kind()
    };
    assert_eq!(kind(Operation::Diff), ErrorKind::VersionControl);
    assert_eq!(kind(Operation::ReadBase), ErrorKind::VersionControl);
    assert_eq!(kind(Operation::Add), ErrorKind::VersionControl);
    assert_eq!(kind(Operation::ReadCurrent), ErrorKind::Io);
    assert_eq!(kind(Operation::Write), ErrorKind::Io);
    assert_eq!(kind(Operation::Restore), ErrorKind::Io);
}

#[test]
fn newline_guard_decides_on_a_file_that_gained_only_its_closing() {
    let base = "    steps:\n      - uses: actions/checkout@v4";
    let current = "    steps:\n      - uses: actions/checkout@v4\n";
    let diff = "@@ -1,2 +1,2 @@\n     steps:\n-      - uses: actions/checkout@v4\n\\ No newline at end of file\n+      - uses: actions/checkout@v4\n";
    assert_eq!(plan_file(&versions("w.yml", base, current, diff), true), Planned::Skip);
    // Without the guard the file is staged like any other; what is staged of
    // it is closed as the committed text is.
    match plan_file(&versions("w.yml", base, current, diff), false) {
        Planned::Stage(task) => {
            assert_eq!(task.staged, base);
            assert_eq!(task.original, current);
        }
        other => panic!("planned {:?}", other),
    }
}

#[test]
fn the_scan_reports_on_the_text_to_stage() {
    let base = "steps:\n  - name: A\n    uses: a@v1\n    id: x\n    id: x\n";
    let current = "steps:\n- name: A\n  uses: a@1111\n  id: x\n";
    let diff = "@@ -1,5 +1,4 @@\n-    uses: a@v1\n+  uses: a@1111\n";
    match plan_file(&versions("w.yml", base, current, diff), false) {
        Planned::Stage(task) => {
            assert_eq!(task.staged, "steps:\n  - name: A\n    uses: a@1111\n    id: x\n    id: x\n");
            assert_eq!(task.anomalies, vec![Anomaly { line: 4, kind: AnomalyKind::DuplicateKey }]);
        }
        other => panic!("planned {:?}", other),
    }
}

fn two_files() -> Vec<FileVersions> {
    vec![
        versions("first.yml", BASE, CURRENT, DIFF),
        versions("untouched.yml", "name: a\n", "name: b\n", "-name: a\n+name: b\n"),
        FileVersions {
            path: String::from("lost.yml"),
            diff: ok(DIFF),
            base: ok(BASE),
            current: err("No such file or directory"),
        },
        versions("second.yml", "  uses: b@v1\n", "uses: b@2222\n", "-  uses: b@v1\n+uses: b@2222\n"),
    ]
}

#[test]
fn a_session_names_write_add_restore_for_each_file() {
    let mut session = repository().stage_changes(&two_files(), false);
    assert_eq!(session.tasks.len(), 2);
    assert_eq!(session.position, 0);
    assert_eq!(session.phase, Phase::Write);
    // The file that could not be read stands recorded and keeps nothing from going on.
    assert_eq!(session.failures.len(), 1);
    assert_eq!(session.failures[0].operation, Operation::ReadCurrent);
    assert_eq!(session.failures[0].path, "lost.yml");

    let mut steps = Vec::new();
    while !session.is_finished() {
        steps.push(session.next_step());
        session.advance(Ok(()));
    }
    assert_eq!(
        steps,
        vec![
            Step::Write { path: String::from("first.yml"), content: String::from(STAGED) },
            Step::Add { path: String::from("first.yml") },
            Step::Restore { path: String::from("first.yml"), content: String::from(CURRENT) },
            Step::Write { path: String::from("second.yml"), content: String::from("  uses: b@2222\n") },
            Step::Add { path: String::from("second.yml") },
            Step::Restore { path: String::from("second.yml"), content: String::from("uses: b@2222\n") },
        ]
    );
    assert_eq!(session.next_step(), Step::Finished);
    assert_eq!(session.failures.len(), 1);
}

#[test]
fn a_failed_add_is_recorded_and_the_working_text_written_back() {
    let files = vec![
        versions("first.yml", BASE, CURRENT, DIFF),
        versions("second.yml", "  uses: b@v1\n", "uses: b@2222\n", "-  uses: b@v1\n+uses: b@2222\n"),
    ];
    let mut session = StagingSession::plan(&files, false);
    assert_eq!(session.result(), Ok(()));
    session.advance(Ok(()));
    assert_eq!(session.next_step(), Step::Add { path: String::from("first.yml") });
    session.advance(Err(String::from("fatal: Unable to create index.lock")));
    assert_eq!(
        session.next_step(),
        Step::Restore { path: String::from("first.yml"), content: String::from(CURRENT) }
    );
    session.advance(Ok(()));
    // The sibling is staged all the same.
    assert_eq!(
        session.next_step(),
        Step::Write { path: String::from("second.yml"), content: String::from("  uses: b@2222\n") }
    );
    session.advance(Ok(()));
    session.advance(Ok(()));
    session.advance(Ok(()));
    assert!(session.is_finished());
    let expected = StagingError {
        operation: Operation::Add,
        path: String::from("first.yml"),
        cause: String::from("fatal: Unable to create index.lock"),
    };
    assert_eq!(expected.kind(), ErrorKind::VersionControl);
    assert_eq!(session.failures.len(), 1);
    assert_eq!(session.failures[0], expected);
    assert_eq!(session.result(), Err(expected));
}

#[test]
fn a_failed_write_is_not_staged_but_written_back() {
    let files = vec![
        versions("first.yml", BASE, CURRENT, DIFF),
        versions("second.yml", "  uses: b@v1\n", "uses: b@2222\n", "-  uses: b@v1\n+uses: b@2222\n"),
    ];
    let mut session = StagingSession::plan(&files, true);
    session.advance(Err(String::from("disk full")));
    assert_eq!(
        session.next_step(),
        Step::Restore { path: String::from("first.yml"), content: String::from(CURRENT) }
    );
    session.advance(Err(String::from("disk still full")));
    assert_eq!(session.position, 1);
    assert_eq!(session.phase, Phase::Write);
    assert_eq!(
        session.failures,
        vec![
            StagingError {
                operation: Operation::Write,
                path: String::from("first.yml"),
                cause: String::from("disk full"),
            },
            StagingError {
                operation: Operation::Restore,
                path: String::from("first.yml"),
                cause: String::from("disk still full"),
            },
        ]
    );
    assert_eq!(session.failures[0].kind(), ErrorKind::Io);
    assert_eq!(session.result().unwrap_err().cause, "disk full");
}

#[test]
fn a_finished_session_stays_as_it_is() {
    let mut session = StagingSession::plan(&Vec::new(), false);
    assert!(session.is_finished());
    assert_eq!(session.next_step(), Step::Finished);
    session.advance(Err(String::from("nothing was asked for")));
    assert!(session.is_finished());
    assert_eq!(session.position, 0);
    assert_eq!(session.failures, Vec::new());
    assert_eq!(session.result(), Ok(()));
}

#[test]
fn staging_again_stages_the_same_text_whatever_closes_the_working_lines() {
    let diff = "@@ -1 +1 @@\n-uses: a\n+uses: b\r\n";
    let first = match plan_file(&versions("w.yml", "uses: a\nx", "uses: b\r", diff), false) {
        Planned::Stage(task) => task.staged,
        other => panic!("planned {:?}", other),
    };
    assert_eq!(first, "uses: b\r\nx");
    match plan_file(&versions("w.yml", &first, "uses: b\r", diff), true) {
        Planned::Stage(task) => assert_eq!(task.staged, first),
        other => panic!("planned {:?}", other),
    }
}

#[test]
fn staging_what_was_staged_stages_the_same_text() {
    // After a commit the committed text is what was staged; the working text is as it was.
    let first = match plan_file(&versions("w.yml", BASE, CURRENT, DIFF), false) {
        Planned::Stage(task) => task.staged,
        other => panic!("planned {:?}", other),
    };
    let diff = "@@ -1,3 +1,3 @@\n steps:\n-        - uses: actions/checkout@08c6903 # v3\n-        - name: Some step\n+      - uses: actions/checkout@08c6903 # v3\n+      - name: Some step\n";
    match plan_file(&versions("w.yml", &first, CURRENT, diff), false) {
        Planned::Stage(task) => assert_eq!(task.staged, first),
        other => panic!("planned {:?}", other),
    }
}
