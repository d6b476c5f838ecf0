//! Which files belong to the changed set.
//!
//! A file belongs to it if the difference between its committed version and
//! its working copy adds or removes a target line. Where the closing line
//! feed is to be preserved, a file whose versions differ in nothing but that
//! line feed is left out.

use crate::lines::{lines_view, text_lines, read_lines};
use crate::target::{is_target_line, line_is_target};
use crate::text::{
    all_whitespace,
    copy_range,
    is_whitespace,
    char_is_whitespace,
    matches_at,
    starts_with,
};
use vstd::prelude::*;

verus! {

/// Whether `line`, a line of a difference, adds or removes a target line: it
/// begins with `+` or `-`, and what follows the sign is a target line.
pub open spec fn is_changed_target_line(line: Seq<char>, marker: Seq<char>) -> bool {
    line.len() > 0 && (line[0] == '+' || line[0] == '-') && is_target_line(line.skip(1), marker)
}

/// The lines among `lines` that add or remove a target line, in order.
pub open spec fn changed_target_lines(lines: Seq<Seq<char>>, marker: Seq<char>) -> Seq<Seq<char>>
    decreases lines.len(),
{
    if lines.len() == 0 {
        Seq::<Seq<char>>::empty()
    } else if is_changed_target_line(lines.last(), marker) {
        changed_target_lines(lines.drop_last(), marker).push(lines.last())
    } else {
        changed_target_lines(lines.drop_last(), marker)
    }
}

/// Whether the difference `diff` adds or removes a target line.
pub open spec fn diff_touches_targets(diff: Seq<char>, marker: Seq<char>) -> bool {
    changed_target_lines(text_lines(diff), marker).len() > 0
}

/// Whether two texts differ in nothing but a closing line feed that one has
/// and the other has not.
pub open spec fn differs_by_closing_only(base: Seq<char>, current: Seq<char>) -> bool {
    base == current.push('\n') || current == base.push('\n')
}

/// Whether a file belongs to the changed set: its difference adds or
/// removes a target line, and, where the closing line feed is preserved, its
/// versions differ in more than that.
pub open spec fn in_changed_set(
    diff: Seq<char>,
    base: Seq<char>,
    current: Seq<char>,
    preserve_newline: bool,
    marker: Seq<char>,
) -> bool {
    diff_touches_targets(diff, marker) && !(preserve_newline && differs_by_closing_only(
        base,
        current,
    ))
}

/// Whether `path` is listed: it holds more than white space and begins with
/// `prefix`.
pub open spec fn is_listed_path(path: Seq<char>, prefix: Seq<char>) -> bool {
    !all_whitespace(path) && starts_with(path, prefix)
}

/// The listed paths among `lines`, in order.
pub open spec fn listed_paths(lines: Seq<Seq<char>>, prefix: Seq<char>) -> Seq<Seq<char>>
    decreases lines.len(),
{
    if lines.len() == 0 {
        Seq::<Seq<char>>::empty()
    } else if is_listed_path(lines.last(), prefix) {
        listed_paths(lines.drop_last(), prefix).push(lines.last())
    } else {
        listed_paths(lines.drop_last(), prefix)
    }
}

/// A difference touches target lines exactly if one of its lines adds or
/// removes one.
pub proof fn lemma_changed_target_lines_exist(lines: Seq<Seq<char>>, marker: Seq<char>)
    ensures
        changed_target_lines(lines, marker).len() > 0 <==> exists|i: int|
            0 <= i < lines.len() && is_changed_target_line(#[trigger] lines[i], marker),
    decreases lines.len(),
{
    if lines.len() > 0 {
        let front = lines.drop_last();
        lemma_changed_target_lines_exist(front, marker);
        if is_changed_target_line(lines.last(), marker) {
            assert(is_changed_target_line(lines[lines.len() - 1], marker));
        } else if changed_target_lines(lines, marker).len() > 0 {
            let i = choose|i: int|
                0 <= i < front.len() && is_changed_target_line(#[trigger] front[i], marker);
            assert(front[i] == lines[i]);
        } else {
            assert forall|i: int| 0 <= i < lines.len() implies !is_changed_target_line(
                #[trigger] lines[i],
                marker,
            ) by {
                if i < front.len() {
                    assert(front[i] == lines[i]);
                }
            }
        }
    }
}

/// Tests whether a line of a difference adds or removes a target line.
pub fn line_changes_target(line: &Vec<char>, marker: &Vec<char>) -> (r: bool)
    ensures
        r == is_changed_target_line(line@, marker@),
{
    if line.len() == 0 {
        return false;
    }
    if line[0] != '+' && line[0] != '-' {
        return false;
    }
    let rest = copy_range(line, 1, line.len());
    assert(rest@ =~= line@.skip(1));
    line_is_target(&rest, marker)
}

/// The lines of the difference that add or remove a target line, in order.
pub fn extract_changed_target_lines(diff: &Vec<char>, marker: &Vec<char>) -> (found: Vec<
    Vec<char>,
>)
    ensures
        lines_view(found@) == changed_target_lines(text_lines(diff@), marker@),
{
    let lines = read_lines(diff);
    let ghost all = text_lines(diff@);
    let mut found: Vec<Vec<char>> = Vec::new();
    let mut i: usize = 0;
    proof {
        assert(all.take(0) =~= Seq::<Seq<char>>::empty());
        assert(lines_view(found@) =~= changed_target_lines(all.take(0), marker@));
    }
    while i < lines.len()
        invariant
            i <= lines.len(),
            all == lines_view(lines@),
            lines_view(found@) == changed_target_lines(all.take(i as int), marker@),
        decreases lines.len() - i,
    {
        proof {
            assert(all.take(i + 1).drop_last() =~= all.take(i as int));
            assert(all.take(i + 1).last() == lines@[i as int]@);
        }
        if line_changes_target(&lines[i], marker) {
            let line = copy_range(&lines[i], 0, lines[i].len());
            let ghost before = lines_view(found@);
            proof {
                assert(line@ =~= lines@[i as int]@);
            }
            found.push(line);
            proof {
                assert(lines_view(found@) =~= before.push(line@));
            }
        }
        i += 1;
    }
    proof {
        assert(all.take(lines.len() as int) =~= all);
    }
    found
}

/// Tests whether the difference adds or removes a target line.
pub fn diff_has_target_changes(diff: &Vec<char>, marker: &Vec<char>) -> (r: bool)
    ensures
        r == diff_touches_targets(diff@, marker@),
{
    let found = extract_changed_target_lines(diff, marker);
    found.len() > 0
}

/// Tests whether two texts differ in nothing but a closing line feed.
pub fn only_closing_differs(base: &Vec<char>, current: &Vec<char>) -> (r: bool)
    ensures
        r == differs_by_closing_only(base@, current@),
{
    if base.len() > 0 && base.len() - 1 == current.len() {
        let r = base[base.len() - 1] == '\n' && matches_at(base, current, 0);
        proof {
            if r {
                assert(base@ =~= current@.push('\n'));
            } else {
                if base@ == current@.push('\n') {
                    assert(base@.subrange(0, current@.len() as int) =~= current@);
                }
            }
        }
        r
    } else if current.len() > 0 && current.len() - 1 == base.len() {
        let r = current[current.len() - 1] == '\n' && matches_at(current, base, 0);
        proof {
            if r {
                assert(current@ =~= base@.push('\n'));
            } else {
                if current@ == base@.push('\n') {
                    assert(current@.subrange(0, base@.len() as int) =~= base@);
                }
            }
        }
        r
    } else {
        proof {
            assert(current@.push('\n').len() == current@.len() + 1);
            assert(base@.push('\n').len() == base@.len() + 1);
        }
        false
    }
}

/// Tests whether a file belongs to the changed set.
pub fn belongs_to_changed_set(
    diff: &Vec<char>,
    base: &Vec<char>,
    current: &Vec<char>,
    preserve_newline: bool,
    marker: &Vec<char>,
) -> (r: bool)
    ensures
        r == in_changed_set(diff@, base@, current@, preserve_newline, marker@),
{
    if !diff_has_target_changes(diff, marker) {
        return false;
    }
    !(preserve_newline && only_closing_differs(base, current))
}

/// Tests whether a line holds white space only.
pub fn is_blank(line: &Vec<char>) -> (r: bool)
    ensures
        r == all_whitespace(line@),
{
    let mut i: usize = 0;
    while i < line.len()
        invariant
            i <= line.len(),
            forall|j: int| 0 <= j < i ==> is_whitespace(#[trigger] line@[j]),
        decreases line.len() - i,
    {
        if !char_is_whitespace(line[i]) {
            return false;
        }
        i += 1;
    }
    true
}

/// The paths that a listing names, one to a line, as far as they begin with
/// `prefix`. Lines of white space are passed over.
pub fn changed_paths(listing: &Vec<char>, prefix: &Vec<char>) -> (paths: Vec<Vec<char>>)
    ensures
        lines_view(paths@) == listed_paths(text_lines(listing@), prefix@),
{
    let lines = read_lines(listing);
    let ghost all = text_lines(listing@);
    let mut paths: Vec<Vec<char>> = Vec::new();
    let mut i: usize = 0;
    proof {
        assert(all.take(0) =~= Seq::<Seq<char>>::empty());
        assert(lines_view(paths@) =~= listed_paths(all.take(0), prefix@));
    }
    while i < lines.len()
        invariant
            i <= lines.len(),
            all == lines_view(lines@),
            lines_view(paths@) == listed_paths(all.take(i as int), prefix@),
        decreases lines.len() - i,
    {
        proof {
            assert(all.take(i + 1).drop_last() =~= all.take(i as int));
            assert(all.take(i + 1).last() == lines@[i as int]@);
        }
        if !is_blank(&lines[i]) && matches_at(&lines[i], prefix, 0) {
            let path = copy_range(&lines[i], 0, lines[i].len());
            let ghost before = lines_view(paths@);
            proof {
                assert(path@ =~= lines@[i as int]@);
            }
            paths.push(path);
            proof {
                assert(lines_view(paths@) =~= before.push(path@));
            }
        }
        i += 1;
    }
    proof {
        assert(all.take(lines.len() as int) =~= all);
    }
    paths
}

} // verus!
