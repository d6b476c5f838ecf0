//! What is decided on the way from a list of repositories to a pull request
//! for each: which repositories the list names, where each is cloned to, and
//! what is done next with a repository after each thing done with it.
//!
//! Nothing is done here. The caller clones, runs the pinning tool, stages,
//! commits, pushes and asks the hosting service; it is told what comes next
//! and reports how it went.

use crate::git::strings_view;
use crate::lines::{lines_view, split_by, split_on};
use crate::text::{append_chars, chars_to_string, str_to_chars};
use vstd::prelude::*;

verus! {

/// A repository to work on: its owner and name, where it is cloned from and
/// where to.
#[derive(Debug, PartialEq, Eq)]
pub struct RepositoryTarget {
    pub owner: String,
    pub name: String,
    pub url: String,
    pub local_path: String,
}

/// Where a repository is cloned from.
pub open spec fn clone_url(owner: Seq<char>, name: Seq<char>) -> Seq<char> {
    "https://github.com/"@ + owner + "/"@ + name + ".git"@
}

/// Where a repository is cloned to, below `clone_dir`.
pub open spec fn clone_path(clone_dir: Seq<char>, owner: Seq<char>, name: Seq<char>) -> Seq<char> {
    clone_dir + "/"@ + owner + "_"@ + name
}

/// Whether `repository` names an owner and a repository: it holds exactly
/// one slash.
pub open spec fn names_repository(repository: Seq<char>) -> bool {
    split_by(repository, '/').len() == 2
}

/// Where the workflows of a clone lie.
pub open spec fn workflows_path(local_path: Seq<char>) -> Seq<char> {
    local_path + "/.github/workflows"@
}

/// The head that a pull request is looked up by: the owner, a colon, the
/// branch.
pub open spec fn head_reference(owner: Seq<char>, branch: Seq<char>) -> Seq<char> {
    owner + ":"@ + branch
}

/// The text of a pull request where no other is given.
pub open spec fn default_body() -> Seq<char> {
    "This automatically generated pull request upgrades the workflows using ratchet. It pins the versions of the actions used in the workflows to prevent bad actors from overwriting tags/versions. Please review the changes and merge if everything looks good."@
}

/// The repositories that a list names: what stands between its commas.
pub fn split_repositories(repositories: &str) -> (names: Vec<String>)
    ensures
        strings_view(names@) == split_by(repositories@, ','),
{
    let list = str_to_chars(repositories);
    let parts = split_on(&list, ',');
    let mut names: Vec<String> = Vec::new();
    let mut i: usize = 0;
    while i < parts.len()
        invariant
            i <= parts.len(),
            names.len() == i,
            forall|k: int| 0 <= k < i ==> (#[trigger] names@[k])@ == parts@[k]@,
        decreases parts.len() - i,
    {
        names.push(chars_to_string(&parts[i]));
        i += 1;
    }
    proof {
        assert(strings_view(names@) =~= lines_view(parts@));
    }
    names
}

/// Reads `repository` as owner, slash, name. `None` where it does not hold
/// exactly one slash.
pub fn parse_repository(repository: &str, clone_dir: &str) -> (target: Option<RepositoryTarget>)
    ensures
        target is Some == names_repository(repository@),
        target matches Some(t) ==> {
            &&& t.owner@ == split_by(repository@, '/')[0]
            &&& t.name@ == split_by(repository@, '/')[1]
            &&& t.url@ == clone_url(t.owner@, t.name@)
            &&& t.local_path@ == clone_path(clone_dir@, t.owner@, t.name@)
        },
{
    let text = str_to_chars(repository);
    let parts = split_on(&text, '/');
    if parts.len() != 2 {
        return None;
    }
    let owner = &parts[0];
    let name = &parts[1];
    let mut url = str_to_chars("https://github.com/");
    append_chars(&mut url, owner);
    url.push('/');
    append_chars(&mut url, name);
    let git = str_to_chars(".git");
    append_chars(&mut url, &git);
    let mut local_path = str_to_chars(clone_dir);
    local_path.push('/');
    append_chars(&mut local_path, owner);
    local_path.push('_');
    append_chars(&mut local_path, name);
    proof {
        reveal_strlit("/");
        reveal_strlit("_");
        assert("/"@ =~= seq!['/']);
        assert("_"@ =~= seq!['_']);
        assert(url@ =~= clone_url(owner@, name@));
        assert(local_path@ =~= clone_path(clone_dir@, owner@, name@));
    }
    Some(
        RepositoryTarget {
            owner: chars_to_string(owner),
            name: chars_to_string(name),
            url: chars_to_string(&url),
            local_path: chars_to_string(&local_path),
        },
    )
}

/// Where the workflows of the clone at `local_path` lie.
pub fn workflows_directory(local_path: &str) -> (path: String)
    ensures
        path@ == workflows_path(local_path@),
{
    let mut path = str_to_chars(local_path);
    let tail = str_to_chars("/.github/workflows");
    append_chars(&mut path, &tail);
    chars_to_string(&path)
}

/// The head by which the pull request of `branch` is looked up.
pub fn pull_request_head(owner: &str, branch: &str) -> (head: String)
    ensures
        head@ == head_reference(owner@, branch@),
{
    let mut head = str_to_chars(owner);
    head.push(':');
    let tail = str_to_chars(branch);
    append_chars(&mut head, &tail);
    proof {
        reveal_strlit(":");
        assert(":"@ =~= seq![':']);
        assert(head@ =~= head_reference(owner@, branch@));
    }
    chars_to_string(&head)
}

/// The text of the pull request: the one given, or the default.
pub fn pr_body(custom: Option<String>) -> (body: String)
    ensures
        body@ == match custom {
            Some(text) => text@,
            None => default_body(),
        },
{
    match custom {
        Some(text) => text,
        None => "This automatically generated pull request upgrades the workflows using ratchet. It pins the versions of the actions used in the workflows to prevent bad actors from overwriting tags/versions. Please review the changes and merge if everything looks good.".to_owned(),
    }
}

/// The branch that pull requests go to: the one the hosting service names,
/// or `main` where it names none.
pub fn default_branch_or_main(named: Option<String>) -> (branch: String)
    ensures
        branch@ == match named {
            Some(name) => name@,
            None => "main"@,
        },
{
    match named {
        Some(name) => name,
        None => "main".to_owned(),
    }
}

/// One thing done with a repository.
#[derive(Clone, Copy, Debug, PartialEq, Eq, Structural)]
pub enum Task {
    /// Clone the repository.
    Clone,
    /// Check out the branch that holds the pins.
    CheckoutBranch,
    /// Create that branch.
    CreateBranch,
    /// Run the pinning tool on the workflows.
    UpgradeWorkflows,
    /// Stage the pinned lines.
    StageChanges,
    /// Commit what is staged, and find whether anything was.
    Commit,
    /// Find whether anything is staged, without committing.
    CheckStaged,
    /// Show what is staged.
    ShowStagedDiff,
    /// Find whether a pull request of the branch is open.
    FindExistingPr,
    /// Push the branch, by force.
    Push,
    /// Open a pull request.
    CreatePullRequest,
}

/// How the work on a repository ended.
#[derive(Clone, Copy, Debug, PartialEq, Eq, Structural)]
pub enum RunEnd {
    /// Nothing was staged, so nothing was pushed.
    NoChanges,
    /// A dry run: what would be committed was shown, nothing was pushed.
    DryRun,
    /// The branch was pushed and a pull request opened.
    Created,
    /// The branch was pushed; its pull request was open already.
    Updated,
    /// A task failed, and the work ended there.
    Failed(Task),
}

/// Where the work on a repository stands.
#[derive(Clone, Copy, Debug, PartialEq, Eq, Structural)]
pub enum RunState {
    /// The task that comes next.
    Doing(Task),
    /// The work has ended.
    Ended(RunEnd),
}

/// The work on one repository: whether it is a dry run, where it stands, and
/// whether a pull request was found open.
#[derive(Clone, Copy, Debug, PartialEq, Eq, Structural)]
pub struct RepositoryRun {
    pub dry_run: bool,
    pub state: RunState,
    pub existing_pr: bool,
}

/// Whether a task changes anything outside the clone, or commits.
pub open spec fn publishes(task: Task) -> bool {
    task == Task::Commit || task == Task::Push || task == Task::CreatePullRequest
}

/// Whether a task is one that a dry run takes, or that a real run takes.
pub open spec fn fits(task: Task, dry_run: bool) -> bool {
    if dry_run {
        !publishes(task) && task != Task::FindExistingPr
    } else {
        task != Task::CheckStaged && task != Task::ShowStagedDiff
    }
}

/// The place of a task in the order in which tasks are taken.
pub open spec fn rank(task: Task) -> int {
    match task {
        Task::Clone => 0,
        Task::CheckoutBranch => 1,
        Task::CreateBranch => 2,
        Task::UpgradeWorkflows => 3,
        Task::StageChanges => 4,
        Task::Commit => 5,
        Task::CheckStaged => 5,
        Task::ShowStagedDiff => 6,
        Task::FindExistingPr => 6,
        Task::Push => 7,
        Task::CreatePullRequest => 8,
    }
}

impl RepositoryRun {
    /// Whether the run is sound: a dry run stands at no task that only a
    /// real run takes and has not ended as only a real run ends, and the
    /// other way round.
    pub open spec fn wf(self) -> bool {
        match self.state {
            RunState::Doing(task) => fits(task, self.dry_run),
            RunState::Ended(RunEnd::Failed(task)) => fits(task, self.dry_run),
            RunState::Ended(RunEnd::Created) => !self.dry_run,
            RunState::Ended(RunEnd::Updated) => !self.dry_run,
            RunState::Ended(RunEnd::DryRun) => self.dry_run,
            RunState::Ended(RunEnd::NoChanges) => true,
        }
    }

    /// The run after the task at which it stands was done. `succeeded` says
    /// whether it went well; `answer` is what it found, where it finds
    /// something: whether anything is staged (`Commit`, `CheckStaged`), or
    /// whether a pull request is open (`FindExistingPr`).
    ///
    /// A failed task ends the run, but for two: where the branch cannot be
    /// checked out it is created, and a dry run ends as one whether or not
    /// what is staged could be shown.
    pub open spec fn after(self, succeeded: bool, answer: bool) -> RepositoryRun {
        match self.state {
            RunState::Ended(_) => self,
            RunState::Doing(task) => {
                let next = match task {
                    Task::Clone => if succeeded {
                        RunState::Doing(Task::CheckoutBranch)
                    } else {
                        RunState::Ended(RunEnd::Failed(task))
                    },
                    Task::CheckoutBranch => if succeeded {
                        RunState::Doing(Task::UpgradeWorkflows)
                    } else {
                        RunState::Doing(Task::CreateBranch)
                    },
                    Task::CreateBranch => if succeeded {
                        RunState::Doing(Task::UpgradeWorkflows)
                    } else {
                        RunState::Ended(RunEnd::Failed(task))
                    },
                    Task::UpgradeWorkflows => if succeeded {
                        RunState::Doing(Task::StageChanges)
                    } else {
                        RunState::Ended(RunEnd::Failed(task))
                    },
                    Task::StageChanges => if !succeeded {
                        RunState::Ended(RunEnd::Failed(task))
                    } else if self.dry_run {
                        RunState::Doing(Task::CheckStaged)
                    } else {
                        RunState::Doing(Task::Commit)
                    },
                    Task::Commit => if !succeeded {
                        RunState::Ended(RunEnd::Failed(task))
                    } else if !answer {
                        RunState::Ended(RunEnd::NoChanges)
                    } else {
                        RunState::Doing(Task::FindExistingPr)
                    },
                    Task::CheckStaged => if !succeeded {
                        RunState::Ended(RunEnd::Failed(task))
                    } else if !answer {
                        RunState::Ended(RunEnd::NoChanges)
                    } else {
                        RunState::Doing(Task::ShowStagedDiff)
                    },
                    Task::ShowStagedDiff => RunState::Ended(RunEnd::DryRun),
                    Task::FindExistingPr => if succeeded {
                        RunState::Doing(Task::Push)
                    } else {
                        RunState::Ended(RunEnd::Failed(task))
                    },
                    Task::Push => if !succeeded {
                        RunState::Ended(RunEnd::Failed(task))
                    } else if self.existing_pr {
                        RunState::Ended(RunEnd::Updated)
                    } else {
                        RunState::Doing(Task::CreatePullRequest)
                    },
                    Task::CreatePullRequest => if succeeded {
                        RunState::Ended(RunEnd::Created)
                    } else {
                        RunState::Ended(RunEnd::Failed(task))
                    },
                };
                RepositoryRun {
                    dry_run: self.dry_run,
                    state: next,
                    existing_pr: if task == Task::FindExistingPr && succeeded {
                        answer
                    } else {
                        self.existing_pr
                    },
                }
            },
        }
    }

    /// The run that begins with the clone.
    pub fn new(dry_run: bool) -> (run: RepositoryRun)
        ensures
            run == (RepositoryRun {
                dry_run,
                state: RunState::Doing(Task::Clone),
                existing_pr: false,
            }),
            run.wf(),
    {
        RepositoryRun { dry_run, state: RunState::Doing(Task::Clone), existing_pr: false }
    }

    /// The task that comes next, or `None` where the run has ended.
    pub fn next_task(&self) -> (task: Option<Task>)
        ensures
            task == match self.state {
                RunState::Doing(task) => Some(task),
                RunState::Ended(_) => None::<Task>,
            },
    {
        match self.state {
            RunState::Doing(task) => Some(task),
            RunState::Ended(_) => None,
        }
    }

    /// How the run ended, or `None` where it has not.
    pub fn end(&self) -> (end: Option<RunEnd>)
        ensures
            end == match self.state {
                RunState::Doing(_) => None::<RunEnd>,
                RunState::Ended(end) => Some(end),
            },
    {
        match self.state {
            RunState::Doing(_) => None,
            RunState::Ended(end) => Some(end),
        }
    }

    /// Whether the clone is kept when the run is over: that of a dry run is.
    pub fn keeps_clone(&self) -> (kept: bool)
        ensures
            kept == self.dry_run,
    {
        self.dry_run
    }

    /// Takes note of how the task at which the run stands went, and of what
    /// it found, and moves on.
    pub fn advance(&mut self, succeeded: bool, answer: bool)
        ensures
            *final(self) == old(self).after(succeeded, answer),
    {
        let task = match self.state {
            RunState::Doing(task) => task,
            RunState::Ended(_) => {
                return ;
            },
        };
        let failed = RunState::Ended(RunEnd::Failed(task));
        let next = match task {
            Task::Clone => if succeeded {
                RunState::Doing(Task::CheckoutBranch)
            } else {
                failed
            },
            Task::CheckoutBranch => if succeeded {
                RunState::Doing(Task::UpgradeWorkflows)
            } else {
                RunState::Doing(Task::CreateBranch)
            },
            Task::CreateBranch => if succeeded {
                RunState::Doing(Task::UpgradeWorkflows)
            } else {
                failed
            },
            Task::UpgradeWorkflows => if succeeded {
                RunState::Doing(Task::StageChanges)
            } else {
                failed
            },
            Task::StageChanges => if !succeeded {
                failed
            } else if self.dry_run {
                RunState::Doing(Task::CheckStaged)
            } else {
                RunState::Doing(Task::Commit)
            },
            Task::Commit => if !succeeded {
                failed
            } else if !answer {
                RunState::Ended(RunEnd::NoChanges)
            } else {
                RunState::Doing(Task::FindExistingPr)
            },
            Task::CheckStaged => if !succeeded {
                failed
            } else if !answer {
                RunState::Ended(RunEnd::NoChanges)
            } else {
                RunState::Doing(Task::ShowStagedDiff)
            },
            Task::ShowStagedDiff => RunState::Ended(RunEnd::DryRun),
            Task::FindExistingPr => {
                if succeeded {
                    self.existing_pr = answer;
                    RunState::Doing(Task::Push)
                } else {
                    failed
                }
            },
            Task::Push => if !succeeded {
                failed
            } else if self.existing_pr {
                RunState::Ended(RunEnd::Updated)
            } else {
                RunState::Doing(Task::CreatePullRequest)
            },
            Task::CreatePullRequest => if succeeded {
                RunState::Ended(RunEnd::Created)
            } else {
                failed
            },
        };
        self.state = next;
    }
}

/// A sound run stays sound, so that a dry run never commits, pushes or opens
/// a pull request; and an ended run stays as it is.
pub proof fn lemma_dry_run_publishes_nothing(run: RepositoryRun, succeeded: bool, answer: bool)
    requires
        run.wf(),
    ensures
        run.after(succeeded, answer).wf(),
        run.after(succeeded, answer).dry_run == run.dry_run,
        run.dry_run ==> !(run.after(succeeded, answer).state matches RunState::Doing(task)
            && publishes(task)),
        run.dry_run ==> run.after(succeeded, answer).state != RunState::Ended(RunEnd::Created)
            && run.after(succeeded, answer).state != RunState::Ended(RunEnd::Updated),
        run.state is Ended ==> run.after(succeeded, answer) == run,
{
}

/// The branch is pushed only after something was committed and the hosting
/// service was asked for an open pull request; a pull request is opened only
/// after a push that went well, and only where none was found open.
pub proof fn lemma_pull_request_follows_push(run: RepositoryRun, succeeded: bool, answer: bool)
    ensures
        run.after(succeeded, answer).state == RunState::Doing(Task::FindExistingPr) ==> run.state
            == RunState::Doing(Task::Commit) && succeeded && answer,
        run.after(succeeded, answer).state == RunState::Doing(Task::Push) ==> run.state
            == RunState::Doing(Task::FindExistingPr) && succeeded && run.after(
            succeeded,
            answer,
        ).existing_pr == answer,
        run.after(succeeded, answer).state == RunState::Doing(Task::CreatePullRequest)
            ==> run.state == RunState::Doing(Task::Push) && succeeded && !run.existing_pr,
        run.state == RunState::Doing(Task::Push) && succeeded && run.existing_pr ==> run.after(
            succeeded,
            answer,
        ).state == RunState::Ended(RunEnd::Updated),
{
}

/// Every task leads to a later one or to the end, so that a run ends; and a
/// run that fails names the task that failed.
pub proof fn lemma_run_moves_on(run: RepositoryRun, succeeded: bool, answer: bool)
    requires
        run.state is Doing,
    ensures
        run.after(succeeded, answer).state matches RunState::Doing(next) ==> rank(
            run.state->Doing_0,
        ) < rank(next),
        run.after(succeeded, answer).state matches RunState::Ended(RunEnd::Failed(task)) ==> task
            == run.state->Doing_0 && !succeeded,
{
}

} // verus!
