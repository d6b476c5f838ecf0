//! Staging, step by step.
//!
//! The library neither reads nor writes files and runs no command. The caller
//! hands it what it has read of each changed file; the library plans what is
//! to be staged, and a session then names one step at a time: write the
//! rebuilt text over the working file, stage the file, write the working
//! file back. The caller does what the step says and reports how it went.
//!
//! A file whose write fails is not staged. In every case the working file is
//! written back, after a failure as after a success, and a failure on one
//! file does not keep the next one from being staged.

use crate::changes::{belongs_to_changed_set, diff_has_target_changes, diff_touches_targets,
    in_changed_set};
use crate::rebuild::{rebuilt_text, reconstruct_text};
use crate::laws::lemma_rebuilt_text_idempotent;
use crate::target::{uses_keyword, uses_marker, valid_marker};
use crate::text::{append_chars, chars_to_string, str_to_chars};
use crate::validate::{anomalies_of, scan_text, Anomaly};
use vstd::prelude::*;

verus! {

/// What the caller does for the library, one thing at a time.
#[derive(Clone, Copy, Debug, PartialEq, Eq, Structural)]
pub enum Operation {
    /// Computing the difference between the committed file and the working
    /// file.
    Diff,
    /// Reading the committed file.
    ReadBase,
    /// Reading the working file.
    ReadCurrent,
    /// Writing the rebuilt text over the working file.
    Write,
    /// Staging the file.
    Add,
    /// Writing the working file back.
    Restore,
}

/// The two kinds of failure.
#[derive(Clone, Copy, Debug, PartialEq, Eq, Structural)]
pub enum ErrorKind {
    /// A file could not be read or written.
    Io,
    /// The version control failed or could not be run.
    VersionControl,
}

/// The kind of failure that an operation can end in.
pub open spec fn kind_of(operation: Operation) -> ErrorKind {
    match operation {
        Operation::Diff => ErrorKind::VersionControl,
        Operation::ReadBase => ErrorKind::VersionControl,
        Operation::Add => ErrorKind::VersionControl,
        Operation::ReadCurrent => ErrorKind::Io,
        Operation::Write => ErrorKind::Io,
        Operation::Restore => ErrorKind::Io,
    }
}

/// A failure: the operation that failed, the file, and what the caller
/// reported as the cause.
#[derive(Debug, PartialEq, Eq)]
pub struct StagingError {
    pub operation: Operation,
    pub path: String,
    pub cause: String,
}

/// A failure, as a value of the model.
pub struct StagingErrorView {
    pub operation: Operation,
    pub path: Seq<char>,
    pub cause: Seq<char>,
}

impl View for StagingError {
    type V = StagingErrorView;

    open spec fn view(&self) -> StagingErrorView {
        StagingErrorView { operation: self.operation, path: self.path@, cause: self.cause@ }
    }
}

/// What the caller has read of one file that the version control lists as
/// changed: its difference, its committed text and its working text, each of
/// them or the cause for which it could not be had.
#[derive(Debug, PartialEq, Eq)]
pub struct FileVersions {
    pub path: String,
    pub diff: Result<String, String>,
    pub base: Result<String, String>,
    pub current: Result<String, String>,
}

/// What was read, or the cause for which it was not, as a value of the
/// model.
pub open spec fn text_view(text: Result<String, String>) -> Result<Seq<char>, Seq<char>> {
    match text {
        Ok(s) => Ok(s@),
        Err(e) => Err(e@),
    }
}

/// What was read of one file, as a value of the model.
pub struct FileVersionsView {
    pub path: Seq<char>,
    pub diff: Result<Seq<char>, Seq<char>>,
    pub base: Result<Seq<char>, Seq<char>>,
    pub current: Result<Seq<char>, Seq<char>>,
}

impl View for FileVersions {
    type V = FileVersionsView;

    open spec fn view(&self) -> FileVersionsView {
        FileVersionsView {
            path: self.path@,
            diff: text_view(self.diff),
            base: text_view(self.base),
            current: text_view(self.current),
        }
    }
}

/// One file to stage: the text to stage, the working text to write back, and
/// what the scan found in the text to stage.
#[derive(Debug, PartialEq, Eq)]
pub struct StagingTask {
    pub path: String,
    pub staged: String,
    pub original: String,
    pub anomalies: Vec<Anomaly>,
}

/// One file to stage, as a value of the model.
pub struct StagingTaskView {
    pub path: Seq<char>,
    pub staged: Seq<char>,
    pub original: Seq<char>,
    pub anomalies: Seq<Anomaly>,
}

impl View for StagingTask {
    type V = StagingTaskView;

    open spec fn view(&self) -> StagingTaskView {
        StagingTaskView {
            path: self.path@,
            staged: self.staged@,
            original: self.original@,
            anomalies: self.anomalies@,
        }
    }
}

/// What is planned for one file.
#[derive(Debug, PartialEq, Eq)]
pub enum Planned {
    /// The file does not belong to the changed set.
    Skip,
    /// The file could not be looked at.
    Fail(StagingError),
    /// The file is to be staged.
    Stage(StagingTask),
}

/// What is planned for one file, as a value of the model.
pub enum PlannedView {
    Skip,
    Fail(StagingErrorView),
    Stage(StagingTaskView),
}

impl View for Planned {
    type V = PlannedView;

    open spec fn view(&self) -> PlannedView {
        match self {
            Planned::Skip => PlannedView::Skip,
            Planned::Fail(error) => PlannedView::Fail(error@),
            Planned::Stage(task) => PlannedView::Stage(task@),
        }
    }
}

/// What is planned for a file. A difference that could not be computed is a
/// failure. A difference that touches no `uses:` line leaves the file out,
/// whatever else was read of it. Of the others, the committed and the
/// working text have to be there, in that order; the file is left out if the
/// closing line feed is preserved and nothing else differs, and is staged
/// otherwise, with the rebuilt text.
pub open spec fn plan_for(file: FileVersionsView, preserve_newline: bool) -> PlannedView {
    match file.diff {
        Err(cause) => PlannedView::Fail(
            StagingErrorView { operation: Operation::Diff, path: file.path, cause },
        ),
        Ok(diff) => if !diff_touches_targets(diff, uses_keyword()) {
            PlannedView::Skip
        } else {
            match file.base {
                Err(cause) => PlannedView::Fail(
                    StagingErrorView { operation: Operation::ReadBase, path: file.path, cause },
                ),
                Ok(base) => match file.current {
                    Err(cause) => PlannedView::Fail(
                        StagingErrorView {
                            operation: Operation::ReadCurrent,
                            path: file.path,
                            cause,
                        },
                    ),
                    Ok(current) => if in_changed_set(
                        diff,
                        base,
                        current,
                        preserve_newline,
                        uses_keyword(),
                    ) {
                        PlannedView::Stage(
                            StagingTaskView {
                                path: file.path,
                                staged: rebuilt_text(base, current, uses_keyword()),
                                original: current,
                                anomalies: anomalies_of(
                                    rebuilt_text(base, current, uses_keyword()),
                                ),
                            },
                        )
                    } else {
                        PlannedView::Skip
                    },
                },
            }
        },
    }
}

/// The files to stage among `files`, in order.
pub open spec fn planned_tasks(files: Seq<FileVersionsView>, preserve_newline: bool) -> Seq<
    StagingTaskView,
>
    decreases files.len(),
{
    if files.len() == 0 {
        Seq::<StagingTaskView>::empty()
    } else {
        let before = planned_tasks(files.drop_last(), preserve_newline);
        match plan_for(files.last(), preserve_newline) {
            PlannedView::Stage(task) => before.push(task),
            _ => before,
        }
    }
}

/// The failures that planning `files` meets, in order.
pub open spec fn planned_failures(files: Seq<FileVersionsView>, preserve_newline: bool) -> Seq<
    StagingErrorView,
>
    decreases files.len(),
{
    if files.len() == 0 {
        Seq::<StagingErrorView>::empty()
    } else {
        let before = planned_failures(files.drop_last(), preserve_newline);
        match plan_for(files.last(), preserve_newline) {
            PlannedView::Fail(error) => before.push(error),
            _ => before,
        }
    }
}

/// Which of the three steps of a file comes next.
#[derive(Clone, Copy, Debug, PartialEq, Eq, Structural)]
pub enum Phase {
    /// The rebuilt text is to be written over the working file.
    Write,
    /// The file is to be staged.
    Add,
    /// The working text is to be written back.
    Restore,
}

/// What the caller is to do next.
#[derive(Debug, PartialEq, Eq)]
pub enum Step {
    /// Write `content` over the working file at `path`.
    Write { path: String, content: String },
    /// Stage the file at `path`.
    Add { path: String },
    /// Write `content`, the working text, back to the file at `path`.
    Restore { path: String, content: String },
    /// Nothing is left to do.
    Finished,
}

/// A step, as a value of the model.
pub enum StepView {
    Write { path: Seq<char>, content: Seq<char> },
    Add { path: Seq<char> },
    Restore { path: Seq<char>, content: Seq<char> },
    Finished,
}

impl View for Step {
    type V = StepView;

    open spec fn view(&self) -> StepView {
        match self {
            Step::Write { path, content } => StepView::Write { path: path@, content: content@ },
            Step::Add { path } => StepView::Add { path: path@ },
            Step::Restore { path, content } => StepView::Restore {
                path: path@,
                content: content@,
            },
            Step::Finished => StepView::Finished,
        }
    }
}

/// A staging in progress: the files to stage, the one that is being staged,
/// the step that comes next for it, and the failures so far.
pub struct StagingSession {
    pub tasks: Vec<StagingTask>,
    pub position: usize,
    pub phase: Phase,
    pub failures: Vec<StagingError>,
}

/// A staging in progress, as a value of the model.
pub struct SessionView {
    pub tasks: Seq<StagingTaskView>,
    pub position: nat,
    pub phase: Phase,
    pub failures: Seq<StagingErrorView>,
}

/// The tasks, as values of the model.
pub open spec fn tasks_view(tasks: Seq<StagingTask>) -> Seq<StagingTaskView> {
    Seq::new(tasks.len(), |i: int| tasks[i]@)
}

/// The failures, as values of the model.
pub open spec fn failures_view(failures: Seq<StagingError>) -> Seq<StagingErrorView> {
    Seq::new(failures.len(), |i: int| failures[i]@)
}

impl View for StagingSession {
    type V = SessionView;

    open spec fn view(&self) -> SessionView {
        SessionView {
            tasks: tasks_view(self.tasks@),
            position: self.position as nat,
            phase: self.phase,
            failures: failures_view(self.failures@),
        }
    }
}

/// How a step went, as a value of the model.
pub open spec fn outcome_view(outcome: Result<(), String>) -> Result<(), Seq<char>> {
    match outcome {
        Ok(()) => Ok(()),
        Err(cause) => Err(cause@),
    }
}

impl SessionView {
    /// Whether the session is sound: the file that is being staged is one of
    /// the plan, or all are done and the next session would begin with a
    /// write.
    pub open spec fn wf(self) -> bool {
        self.position <= self.tasks.len() && (self.position == self.tasks.len() ==> self.phase
            == Phase::Write)
    }

    /// Whether all files are done.
    pub open spec fn finished(self) -> bool {
        self.position >= self.tasks.len()
    }

    /// The operation that the next step asks for.
    pub open spec fn operation(self) -> Operation {
        match self.phase {
            Phase::Write => Operation::Write,
            Phase::Add => Operation::Add,
            Phase::Restore => Operation::Restore,
        }
    }

    /// The step that comes next.
    pub open spec fn step(self) -> StepView {
        if self.finished() {
            StepView::Finished
        } else {
            let task = self.tasks[self.position as int];
            match self.phase {
                Phase::Write => StepView::Write { path: task.path, content: task.staged },
                Phase::Add => StepView::Add { path: task.path },
                Phase::Restore => StepView::Restore { path: task.path, content: task.original },
            }
        }
    }

    /// The session after the step that came next has been taken with the
    /// given outcome. A failure is recorded with the operation, the file and
    /// the cause. After a write the file is staged if the write went well and
    /// written back if it did not; after the staging it is written back;
    /// after that the next file is taken up. A finished session stays as it
    /// is.
    pub open spec fn advance(self, outcome: Result<(), Seq<char>>) -> SessionView {
        if self.finished() {
            self
        } else {
            let failures = match outcome {
                Ok(()) => self.failures,
                Err(cause) => self.failures.push(
                    StagingErrorView {
                        operation: self.operation(),
                        path: self.tasks[self.position as int].path,
                        cause,
                    },
                ),
            };
            match self.phase {
                Phase::Write => SessionView {
                    phase: if outcome is Ok {
                        Phase::Add
                    } else {
                        Phase::Restore
                    },
                    failures,
                    ..self
                },
                Phase::Add => SessionView { phase: Phase::Restore, failures, ..self },
                Phase::Restore => SessionView {
                    position: self.position + 1,
                    phase: Phase::Write,
                    failures,
                    ..self
                },
            }
        }
    }

    /// The number of steps that are left at most: three for a file, less the
    /// steps that lie behind.
    pub open spec fn steps_left(self) -> int {
        if self.finished() {
            0
        } else {
            3 * (self.tasks.len() - self.position) - match self.phase {
                Phase::Write => 0int,
                Phase::Add => 1int,
                Phase::Restore => 2int,
            }
        }
    }
}

/// A step leaves a sound session sound and keeps the plan, and it leaves
/// fewer steps to take: a session comes to its end.
pub proof fn lemma_advance_makes_progress(session: SessionView, outcome: Result<(), Seq<char>>)
    requires
        session.wf(),
    ensures
        session.advance(outcome).wf(),
        session.advance(outcome).tasks == session.tasks,
        !session.finished() ==> 0 <= session.advance(outcome).steps_left() < session.steps_left(),
        session.finished() ==> session.advance(outcome) == session,
{
}

/// The session leaves a file only by the step that writes the working text
/// back: whatever the outcome of a write or of a staging, the same file is
/// still at hand, and the step that follows a staging, or a write that
/// failed, writes the working text back.
pub proof fn lemma_working_text_is_written_back(
    session: SessionView,
    outcome: Result<(), Seq<char>>,
)
    requires
        session.wf(),
        !session.finished(),
    ensures
        session.phase != Phase::Restore ==> session.advance(outcome).position == session.position,
        session.phase == Phase::Add || (session.phase == Phase::Write && outcome is Err)
            ==> session.advance(outcome).step() == (StepView::Restore {
            path: session.tasks[session.position as int].path,
            content: session.tasks[session.position as int].original,
        }),
        session.phase == Phase::Write && outcome is Ok ==> session.advance(outcome).step() == (
        StepView::Add { path: session.tasks[session.position as int].path }),
        session.advance(outcome).position != session.position ==> session.step() == (
        StepView::Restore {
            path: session.tasks[session.position as int].path,
            content: session.tasks[session.position as int].original,
        }),
{
}

/// A file takes three steps, or two if the write fails, and the next file
/// is taken up after them whatever their outcomes: a failure on one file
/// keeps no other file from being staged.
pub proof fn lemma_failures_are_isolated(
    session: SessionView,
    first: Result<(), Seq<char>>,
    second: Result<(), Seq<char>>,
    third: Result<(), Seq<char>>,
)
    requires
        session.wf(),
        !session.finished(),
        session.phase == Phase::Write,
    ensures
        first is Ok ==> session.advance(first).advance(second).advance(third).position
            == session.position + 1 && session.advance(first).advance(second).advance(
            third,
        ).phase == Phase::Write,
        first is Err ==> session.advance(first).advance(second).position == session.position + 1
            && session.advance(first).advance(second).phase == Phase::Write,
        session.advance(first).advance(second).advance(third).tasks == session.tasks,
{
}

/// A step that goes well records nothing, and a step that fails records one
/// failure, of the operation that was asked for and of the file at hand.
pub proof fn lemma_failures_are_recorded(session: SessionView, outcome: Result<(), Seq<char>>)
    requires
        session.wf(),
        !session.finished(),
    ensures
        outcome is Ok ==> session.advance(outcome).failures == session.failures,
        outcome matches Err(cause) ==> session.advance(outcome).failures == session.failures.push(
            StagingErrorView {
                operation: session.operation(),
                path: session.tasks[session.position as int].path,
                cause,
            },
        ),
{
}

/// Once what was staged of a file is committed, planning the file again for
/// the same working text stages nothing new: what would be staged is the
/// committed text.
pub proof fn lemma_staging_again_changes_nothing(
    file: FileVersionsView,
    again: FileVersionsView,
    preserve_newline: bool,
    preserve_newline_again: bool,
)
    requires
        plan_for(file, preserve_newline) is Stage,
        again.base == Ok::<Seq<char>, Seq<char>>(plan_for(file, preserve_newline)->Stage_0.staged),
        again.current == file.current,
    ensures
        plan_for(again, preserve_newline_again) matches PlannedView::Stage(task) ==> task.staged
            == plan_for(file, preserve_newline)->Stage_0.staged,
{
    let base = file.base->Ok_0;
    let current = file.current->Ok_0;
    assert(valid_marker(uses_keyword()));
    lemma_rebuilt_text_idempotent(base, current, uses_keyword());
}

/// What went wrong, in words: the operation, the file, the cause.
pub open spec fn description(error: StagingErrorView) -> Seq<char> {
    opening_words(error.operation) + error.path + ": "@ + error.cause
}

/// The words that open the description of a failure.
pub open spec fn opening_words(operation: Operation) -> Seq<char> {
    match operation {
        Operation::Diff => "Failed to get diff for "@,
        Operation::ReadBase => "Git show failed for "@,
        Operation::ReadCurrent => "Failed to read current file "@,
        Operation::Write => "Failed to write uses-only content to "@,
        Operation::Add => "Failed to stage file "@,
        Operation::Restore => "Failed to restore current file content of "@,
    }
}

impl StagingError {
    /// What went wrong, in words.
    pub fn describe(&self) -> (words: String)
        ensures
            words@ == description(self@),
    {
        let mut words = match self.operation {
            Operation::Diff => str_to_chars("Failed to get diff for "),
            Operation::ReadBase => str_to_chars("Git show failed for "),
            Operation::ReadCurrent => str_to_chars("Failed to read current file "),
            Operation::Write => str_to_chars("Failed to write uses-only content to "),
            Operation::Add => str_to_chars("Failed to stage file "),
            Operation::Restore => str_to_chars("Failed to restore current file content of "),
        };
        let path = str_to_chars(self.path.as_str());
        let colon = str_to_chars(": ");
        let cause = str_to_chars(self.cause.as_str());
        append_chars(&mut words, &path);
        append_chars(&mut words, &colon);
        append_chars(&mut words, &cause);
        chars_to_string(&words)
    }

    /// The kind of the failure.
    pub fn kind(&self) -> (kind: ErrorKind)
        ensures
            kind == kind_of(self.operation),
    {
        match self.operation {
            Operation::Diff => ErrorKind::VersionControl,
            Operation::ReadBase => ErrorKind::VersionControl,
            Operation::Add => ErrorKind::VersionControl,
            Operation::ReadCurrent => ErrorKind::Io,
            Operation::Write => ErrorKind::Io,
            Operation::Restore => ErrorKind::Io,
        }
    }
}

/// Plans one file.
pub fn plan_file(file: &FileVersions, preserve_newline: bool) -> (planned: Planned)
    ensures
        planned@ == plan_for(file@, preserve_newline),
{
    let marker = uses_marker();
    let diff = match &file.diff {
        Ok(diff) => str_to_chars(diff.as_str()),
        Err(cause) => {
            return Planned::Fail(
                StagingError {
                    operation: Operation::Diff,
                    path: file.path.clone(),
                    cause: cause.clone(),
                },
            );
        },
    };
    if !diff_has_target_changes(&diff, &marker) {
        return Planned::Skip;
    }
    let base = match &file.base {
        Ok(base) => str_to_chars(base.as_str()),
        Err(cause) => {
            return Planned::Fail(
                StagingError {
                    operation: Operation::ReadBase,
                    path: file.path.clone(),
                    cause: cause.clone(),
                },
            );
        },
    };
    let current = match &file.current {
        Ok(current) => str_to_chars(current.as_str()),
        Err(cause) => {
            return Planned::Fail(
                StagingError {
                    operation: Operation::ReadCurrent,
                    path: file.path.clone(),
                    cause: cause.clone(),
                },
            );
        },
    };
    if !belongs_to_changed_set(&diff, &base, &current, preserve_newline, &marker) {
        return Planned::Skip;
    }
    let staged = reconstruct_text(&base, &current, &marker);
    let anomalies = scan_text(&staged);
    Planned::Stage(
        StagingTask {
            path: file.path.clone(),
            staged: chars_to_string(&staged),
            original: chars_to_string(&current),
            anomalies,
        },
    )
}

impl StagingSession {
    /// The session that stages the files of `files` that belong to the
    /// changed set, in order. The failures met in planning stand recorded.
    pub fn plan(files: &Vec<FileVersions>, preserve_newline: bool) -> (session: StagingSession)
        ensures
            session@.wf(),
            session@.position == 0,
            session@.phase == Phase::Write,
            session@.tasks == planned_tasks(files_view(files@), preserve_newline),
            session@.failures == planned_failures(files_view(files@), preserve_newline),
    {
        let mut tasks: Vec<StagingTask> = Vec::new();
        let mut failures: Vec<StagingError> = Vec::new();
        let ghost all = files_view(files@);
        let mut i: usize = 0;
        proof {
            assert(all.take(0) =~= Seq::<FileVersionsView>::empty());
            assert(tasks_view(tasks@) =~= planned_tasks(all.take(0), preserve_newline));
            assert(failures_view(failures@) =~= planned_failures(all.take(0), preserve_newline));
        }
        while i < files.len()
            invariant
                i <= files.len(),
                all == files_view(files@),
                tasks_view(tasks@) == planned_tasks(all.take(i as int), preserve_newline),
                failures_view(failures@) == planned_failures(all.take(i as int), preserve_newline),
            decreases files.len() - i,
        {
            proof {
                assert(all.take(i + 1).drop_last() =~= all.take(i as int));
                assert(all.take(i + 1).last() == files@[i as int]@);
            }
            let ghost tasks_before = tasks_view(tasks@);
            let ghost failures_before = failures_view(failures@);
            match plan_file(&files[i], preserve_newline) {
                Planned::Skip => {},
                Planned::Fail(error) => {
                    failures.push(error);
                    proof {
                        assert(failures_view(failures@) =~= failures_before.push(error@));
                    }
                },
                Planned::Stage(task) => {
                    tasks.push(task);
                    proof {
                        assert(tasks_view(tasks@) =~= tasks_before.push(task@));
                    }
                },
            }
            i += 1;
        }
        proof {
            assert(all.take(files.len() as int) =~= all);
        }
        StagingSession { tasks, position: 0, phase: Phase::Write, failures }
    }

    /// Whether nothing is left to do.
    pub fn is_finished(&self) -> (r: bool)
        ensures
            r == self@.finished(),
    {
        self.position >= self.tasks.len()
    }

    /// What the caller is to do next.
    pub fn next_step(&self) -> (step: Step)
        ensures
            step@ == self@.step(),
    {
        if self.position >= self.tasks.len() {
            return Step::Finished;
        }
        let task = &self.tasks[self.position];
        match self.phase {
            Phase::Write => Step::Write { path: task.path.clone(), content: task.staged.clone() },
            Phase::Add => Step::Add { path: task.path.clone() },
            Phase::Restore => Step::Restore {
                path: task.path.clone(),
                content: task.original.clone(),
            },
        }
    }

    /// Takes note of how the step that `next_step` named went, and moves on.
    pub fn advance(&mut self, outcome: Result<(), String>)
        ensures
            final(self)@ == old(self)@.advance(outcome_view(outcome)),
            old(self)@.wf() ==> final(self)@.wf(),
    {
        if self.position >= self.tasks.len() {
            return ;
        }
        let ghost failures_before = failures_view(self.failures@);
        let went_well = match outcome {
            Ok(()) => true,
            Err(cause) => {
                let operation = match self.phase {
                    Phase::Write => Operation::Write,
                    Phase::Add => Operation::Add,
                    Phase::Restore => Operation::Restore,
                };
                let error = StagingError {
                    operation,
                    path: self.tasks[self.position].path.clone(),
                    cause,
                };
                self.failures.push(error);
                proof {
                    assert(failures_view(self.failures@) =~= failures_before.push(error@));
                }
                false
            },
        };
        match self.phase {
            Phase::Write => {
                if went_well {
                    self.phase = Phase::Add;
                } else {
                    self.phase = Phase::Restore;
                }
            },
            Phase::Add => {
                self.phase = Phase::Restore;
            },
            Phase::Restore => {
                self.position = self.position + 1;
                self.phase = Phase::Write;
            },
        }
    }

    /// How the staging went so far: the first failure, if there was one.
    pub fn result(&self) -> (r: Result<(), StagingError>)
        ensures
            self@.failures.len() == 0 ==> r is Ok,
            self@.failures.len() > 0 ==> (r matches Err(error) && error@ == self@.failures[0]),
    {
        if self.failures.len() == 0 {
            Ok(())
        } else {
            let first = &self.failures[0];
            Err(
                StagingError {
                    operation: first.operation,
                    path: first.path.clone(),
                    cause: first.cause.clone(),
                },
            )
        }
    }
}

/// The files, as values of the model.
pub open spec fn files_view(files: Seq<FileVersions>) -> Seq<FileVersionsView> {
    Seq::new(files.len(), |i: int| files[i]@)
}

} // verus!
