//! The repository whose changed workflow files are staged, and what is
//! rebuilt of a file for staging.

use crate::changes::{
    changed_target_lines,
    diff_has_target_changes,
    diff_touches_targets,
    extract_changed_target_lines,
    is_blank,
};
use crate::laws::{lemma_rebuilt_text_idempotent, lemma_rebuilt_text_lines};
use crate::lines::{ends_with_newline, lines_view, raw_lines, text_lines, with_closings};
use crate::staging::{
    files_view,
    planned_failures,
    planned_tasks,
    FileVersions,
    FileVersionsView,
    Phase,
    StagingSession,
};
use crate::rebuild::{
    rebuilt_lines,
    rebuilt_text,
    reconstruct,
    reconstruct_line,
    reconstruct_text,
};
use crate::target::{
    lemma_target_positions_step,
    line_is_target,
    target_positions,
    uses_keyword,
    uses_marker,
};
use crate::text::{all_whitespace, chars_to_string, str_to_chars};
use vstd::prelude::*;

verus! {

/// A working copy of a repository.
pub struct GitRepository {
    pub working_dir: String,
}

/// The texts that a vector of strings stands for.
pub open spec fn strings_view(strings: Seq<String>) -> Seq<Seq<char>> {
    Seq::new(strings.len(), |i: int| strings[i]@)
}

/// The paths of the files whose difference was computed and adds or removes
/// a `uses:` line, in order.
pub open spec fn paths_with_uses_changes(files: Seq<FileVersionsView>) -> Seq<Seq<char>>
    decreases files.len(),
{
    if files.len() == 0 {
        Seq::<Seq<char>>::empty()
    } else {
        let before = paths_with_uses_changes(files.drop_last());
        match files.last().diff {
            Ok(diff) => if diff_touches_targets(diff, uses_keyword()) {
                before.push(files.last().path)
            } else {
                before
            },
            Err(_) => before,
        }
    }
}

/// What is handed to the version control to push `branch`: `push`, then
/// `--force` if asked for, then `origin` and the branch.
pub open spec fn push_command(branch: Seq<char>, force: bool) -> Seq<Seq<char>> {
    if force {
        seq!["push"@, "--force"@, "origin"@, branch]
    } else {
        seq!["push"@, "origin"@, branch]
    }
}

/// The lines of a difference that add or remove a `uses:` line, in order,
/// each with its sign.
pub fn extract_uses_lines_from_diff(diff_content: &str) -> (r: Result<Vec<String>, String>)
    ensures
        r matches Ok(found) && strings_view(found@) == changed_target_lines(
            text_lines(diff_content@),
            uses_keyword(),
        ),
{
    let marker = uses_marker();
    let diff = str_to_chars(diff_content);
    let lines = extract_changed_target_lines(&diff, &marker);
    let mut found: Vec<String> = Vec::new();
    let mut i: usize = 0;
    while i < lines.len()
        invariant
            i <= lines.len(),
            found.len() == i,
            forall|k: int| 0 <= k < i ==> (#[trigger] found@[k])@ == lines@[k]@,
        decreases lines.len() - i,
    {
        found.push(chars_to_string(&lines[i]));
        i += 1;
    }
    proof {
        assert(strings_view(found@) =~= lines_view(lines@));
    }
    Ok(found)
}

/// The lines that a slice of string slices stands for.
pub open spec fn str_lines(lines: Seq<&str>) -> Seq<Seq<char>> {
    Seq::new(lines.len(), |i: int| lines[i]@)
}

impl GitRepository {
    /// The repository whose working copy is at `working_dir`.
    pub fn open(working_dir: String) -> (r: Result<Self, String>)
        ensures
            r matches Ok(repository) && repository.working_dir == working_dir,
    {
        Ok(GitRepository { working_dir })
    }

    /// The `uses:` lines among `lines`, in order, each with its position.
    pub fn extract_uses_context(&self, lines: &[&str]) -> (found: Vec<(usize, String)>)
        ensures
            found.len() == target_positions(str_lines(lines@), uses_keyword()).len(),
            forall|k: int|
                0 <= k < found.len() ==> (#[trigger] found[k]).0 == target_positions(
                    str_lines(lines@),
                    uses_keyword(),
                )[k] && found[k].1@ == lines[found[k].0 as int]@,
    {
        let marker = uses_marker();
        let mut found: Vec<(usize, String)> = Vec::new();
        let ghost all = str_lines(lines@);
        let mut i: usize = 0;
        proof {
            assert(all.take(0) =~= Seq::<Seq<char>>::empty());
        }
        while i < lines.len()
            invariant
                i <= lines.len(),
                all == str_lines(lines@),
                marker@ == uses_keyword(),
                found.len() == target_positions(all.take(i as int), uses_keyword()).len(),
                forall|k: int|
                    0 <= k < found.len() ==> (#[trigger] found[k]).0 == target_positions(
                        all.take(i as int),
                        uses_keyword(),
                    )[k] && found[k].1@ == lines[found[k].0 as int]@ && found[k].0 < i,
            decreases lines.len() - i,
        {
            proof {
                lemma_target_positions_step(all, uses_keyword(), i as int);
            }
            let line = str_to_chars(lines[i]);
            if line_is_target(&line, &marker) {
                let content = chars_to_string(&line);
                found.push((i, content));
            }
            i += 1;
        }
        proof {
            assert(all.take(lines.len() as int) =~= all);
        }
        found
    }

    /// The line that keeps what stands before `uses:` in `original_line` and
    /// takes `uses:` and what follows it from `current_line`. Where a line
    /// does not hold `uses:`, the white space that opens `original_line` is
    /// kept, and `current_line` is taken without the white space that opens
    /// it.
    pub fn preserve_indentation_with_new_uses_content(
        &self,
        original_line: &str,
        current_line: &str,
    ) -> (line: String)
        ensures
            line@ == reconstruct_line(original_line@, current_line@, uses_keyword()),
    {
        let marker = uses_marker();
        let base = str_to_chars(original_line);
        let modified = str_to_chars(current_line);
        let line = reconstruct(&base, &modified, &marker);
        chars_to_string(&line)
    }

    /// The text to stage: `original` with each `uses:` line rebuilt from the
    /// `uses:` line of the same rank in `current`. Both texts are read as
    /// text lines, closed by a line feed or by a carriage return and a line
    /// feed; a rebuilt line takes the marker and what follows it up to the
    /// end of the line of `current`, without what closes that line. The
    /// text has as many lines as `original`, each closed as it is in
    /// `original`, and is closed by a line feed exactly if `original` is. A
    /// rebuilt line that ends with a carriage return of its own takes no
    /// second one. Staged again from the text and the same `current`, the
    /// text stays as it is.
    pub fn create_uses_only_version(&self, original: &str, current: &str) -> (r: Result<
        String,
        String,
    >)
        ensures
            r matches Ok(text) && text@ == rebuilt_text(original@, current@, uses_keyword())
                && raw_lines(text@) == with_closings(
                raw_lines(original@),
                ends_with_newline(original@),
                rebuilt_lines(text_lines(original@), text_lines(current@), uses_keyword()),
            ) && raw_lines(text@).len() == raw_lines(original@).len() && ends_with_newline(text@)
                == ends_with_newline(original@) && rebuilt_text(
                text@,
                current@,
                uses_keyword(),
            ) == text@,
    {
        proof {
            lemma_rebuilt_text_idempotent(original@, current@, uses_keyword());
        }
        let marker = uses_marker();
        let base = str_to_chars(original);
        let modified = str_to_chars(current);
        let text = reconstruct_text(&base, &modified, &marker);
        proof {
            lemma_rebuilt_text_lines(original@, current@, uses_keyword());
        }
        Ok(chars_to_string(&text))
    }

    /// The paths of the files whose difference adds or removes a `uses:`
    /// line, in order. A file whose difference could not be computed is
    /// passed over.
    pub fn get_files_with_uses_changes(&self, files: &Vec<FileVersions>) -> (paths: Vec<String>)
        ensures
            strings_view(paths@) == paths_with_uses_changes(files_view(files@)),
    {
        let marker = uses_marker();
        let mut paths: Vec<String> = Vec::new();
        let ghost all = files_view(files@);
        let mut i: usize = 0;
        proof {
            assert(all.take(0) =~= Seq::<FileVersionsView>::empty());
            assert(strings_view(paths@) =~= paths_with_uses_changes(all.take(0)));
        }
        while i < files.len()
            invariant
                i <= files.len(),
                all == files_view(files@),
                marker@ == uses_keyword(),
                strings_view(paths@) == paths_with_uses_changes(all.take(i as int)),
            decreases files.len() - i,
        {
            proof {
                assert(all.take(i + 1).drop_last() =~= all.take(i as int));
                assert(all.take(i + 1).last() == files@[i as int]@);
            }
            let ghost before = strings_view(paths@);
            match &files[i].diff {
                Ok(text) => {
                    let diff = str_to_chars(text.as_str());
                    if diff_has_target_changes(&diff, &marker) {
                        let path = files[i].path.clone();
                        paths.push(path);
                        proof {
                            assert(strings_view(paths@) =~= before.push(files@[i as int].path@));
                        }
                    }
                },
                Err(_) => {},
            }
            i += 1;
        }
        proof {
            assert(all.take(files.len() as int) =~= all);
        }
        paths
    }

    /// Plans the staging of the files that belong to the changed set, and
    /// gives the session that names the steps to take, one at a time. With
    /// `preserve_newline`, a file whose committed and working text differ in
    /// nothing but a closing line feed is left out.
    pub fn stage_changes(&self, files: &Vec<FileVersions>, preserve_newline: bool) -> (session:
        StagingSession)
        ensures
            session@.wf(),
            session@.position == 0,
            session@.phase == Phase::Write,
            session@.tasks == planned_tasks(files_view(files@), preserve_newline),
            session@.failures == planned_failures(files_view(files@), preserve_newline),
    {
        StagingSession::plan(files, preserve_newline)
    }

    /// Whether anything is staged, going by the listing of the staged files:
    /// nothing is if the listing holds white space only.
    pub fn has_staged_changes(&self, staged_listing: &str) -> (r: bool)
        ensures
            r == !all_whitespace(staged_listing@),
    {
        let listing = str_to_chars(staged_listing);
        !is_blank(&listing)
    }

    /// What is handed to the version control to push `branch`.
    pub fn push_arguments(&self, branch: &str, force: bool) -> (arguments: Vec<String>)
        ensures
            strings_view(arguments@) == push_command(branch@, force),
    {
        let mut arguments: Vec<String> = Vec::new();
        arguments.push("push".to_owned());
        if force {
            arguments.push("--force".to_owned());
        }
        arguments.push("origin".to_owned());
        arguments.push(branch.to_owned());
        proof {
            assert(strings_view(arguments@) =~= push_command(branch@, force));
        }
        arguments
    }
}

} // verus!
