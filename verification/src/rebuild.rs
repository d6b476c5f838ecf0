//! Rebuilding a text from its base version and the target lines of a
//! modified version.
//!
//! Both texts are read as text lines: a line is closed by a line feed, or by
//! a carriage return and a line feed. The rebuilt text has the lines of the
//! base text. A target line of the base text whose rank among the target
//! lines is also a rank in the modified text keeps what stands before its
//! marker and takes the marker, and what follows it up to the end of the
//! line, from the modified line of that rank. Every line is closed as it is
//! in the base text, a rebuilt line too: by a carriage return and a line feed
//! where the base line is, by a line feed alone where the base line is, and
//! by nothing where it is the last line of a base text that no line feed
//! closes. A rebuilt line that ends with a carriage return of its own takes
//! no second one: its own closes it with the line feed. Every other line
//! stays as it is, character by character. So a text rebuilt from the
//! rebuilt text and the same modified text is the rebuilt text.

use crate::lines::{
    close_lines,
    ends_with_newline,
    lines_view,
    raw_lines,
    read_lines,
    render,
    render_text,
    split_raw_lines,
    text_lines,
    with_closings,
};
use crate::target::{
    extract_target_lines,
    is_target_line,
    lemma_target_positions_rise,
    lemma_target_rank,
    match_by_position,
    paired_by_rank,
    target_positions,
    targets_of,
    Correspondence,
    TargetLine,
};
use crate::text::{
    append_chars,
    copy_range,
    count_leading_whitespace,
    find,
    first_occurrence,
    leading_whitespace,
    lemma_first_occurrence_from,
    trim_start,
};
use vstd::prelude::*;

verus! {

/// What a base line keeps: everything before the first occurrence of the
/// marker, or, where the marker does not occur, the white space that opens
/// the line.
pub open spec fn line_prefix(base_line: Seq<char>, marker: Seq<char>) -> Seq<char> {
    match first_occurrence(base_line, marker) {
        Some(i) => base_line.take(i),
        None => base_line.take(leading_whitespace(base_line) as int),
    }
}

/// What a modified line gives: everything from the first occurrence of the
/// marker on, or, where the marker does not occur, the line without the white
/// space that opens it.
pub open spec fn line_payload(modified_line: Seq<char>, marker: Seq<char>) -> Seq<char> {
    match first_occurrence(modified_line, marker) {
        Some(i) => modified_line.skip(i),
        None => trim_start(modified_line),
    }
}

/// The line that keeps the prefix of `base_line` and takes the payload of
/// `modified_line`.
pub open spec fn reconstruct_line(
    base_line: Seq<char>,
    modified_line: Seq<char>,
    marker: Seq<char>,
) -> Seq<char> {
    line_prefix(base_line, marker) + line_payload(modified_line, marker)
}

/// The lines after the pairs have been applied in order: each pair whose
/// position is one of a line puts the reconstructed line there, and a pair
/// whose position is beyond the last line changes nothing.
pub open spec fn apply_correspondences(
    lines: Seq<Seq<char>>,
    pairs: Seq<Correspondence>,
    marker: Seq<char>,
) -> Seq<Seq<char>>
    decreases pairs.len(),
{
    if pairs.len() == 0 {
        lines
    } else {
        let before = apply_correspondences(lines, pairs.drop_last(), marker);
        let pair = pairs.last();
        if pair.base_index < lines.len() {
            before.update(
                pair.base_index as int,
                reconstruct_line(pair.base_line@, pair.modified_line@, marker),
            )
        } else {
            before
        }
    }
}

/// The ranks of the pairs whose position is beyond the last of `line_count`
/// lines, in order: the pairs that building passes over.
pub open spec fn passed_over(line_count: int, pairs: Seq<Correspondence>) -> Seq<usize>
    decreases pairs.len(),
{
    if pairs.len() == 0 {
        Seq::<usize>::empty()
    } else if pairs.last().base_index >= line_count {
        passed_over(line_count, pairs.drop_last()).push((pairs.len() - 1) as usize)
    } else {
        passed_over(line_count, pairs.drop_last())
    }
}

/// Line `i` of the rebuilt text, where only target lines of a rank below
/// `limit` are rebuilt.
spec fn rebuilt_line_below(
    base_lines: Seq<Seq<char>>,
    modified_lines: Seq<Seq<char>>,
    marker: Seq<char>,
    limit: int,
    i: int,
) -> Seq<char> {
    let rank = target_positions(base_lines.take(i), marker).len() as int;
    let modified_targets = target_positions(modified_lines, marker);
    if is_target_line(base_lines[i], marker) && rank < limit && rank < modified_targets.len() {
        reconstruct_line(base_lines[i], modified_lines[modified_targets[rank]], marker)
    } else {
        base_lines[i]
    }
}

/// Line `i` of the rebuilt text. The rank of a target line is the number of
/// target lines before it.
pub open spec fn rebuilt_line(
    base_lines: Seq<Seq<char>>,
    modified_lines: Seq<Seq<char>>,
    marker: Seq<char>,
    i: int,
) -> Seq<char> {
    let rank = target_positions(base_lines.take(i), marker).len() as int;
    let modified_targets = target_positions(modified_lines, marker);
    if is_target_line(base_lines[i], marker) && rank < modified_targets.len() {
        reconstruct_line(base_lines[i], modified_lines[modified_targets[rank]], marker)
    } else {
        base_lines[i]
    }
}

/// The lines of the rebuilt text.
pub open spec fn rebuilt_lines(
    base_lines: Seq<Seq<char>>,
    modified_lines: Seq<Seq<char>>,
    marker: Seq<char>,
) -> Seq<Seq<char>> {
    Seq::new(base_lines.len(), |i: int| rebuilt_line(base_lines, modified_lines, marker, i))
}

/// The rebuilt text: the rebuilt text lines, each closed as the line of the
/// base text is.
pub open spec fn rebuilt_text(base: Seq<char>, modified: Seq<char>, marker: Seq<char>) -> Seq<
    char,
> {
    render(
        with_closings(
            raw_lines(base),
            ends_with_newline(base),
            rebuilt_lines(text_lines(base), text_lines(modified), marker),
        ),
        ends_with_newline(base),
    )
}

/// The text built from pairs: the text lines of the base text after the
/// pairs have been applied, each closed as the line of the base text is.
pub open spec fn built_text(base: Seq<char>, pairs: Seq<Correspondence>, marker: Seq<char>) -> Seq<
    char,
> {
    render(
        with_closings(
            raw_lines(base),
            ends_with_newline(base),
            apply_correspondences(text_lines(base), pairs, marker),
        ),
        ends_with_newline(base),
    )
}

/// Applying pairs changes no line count.
pub proof fn lemma_apply_keeps_length(
    lines: Seq<Seq<char>>,
    pairs: Seq<Correspondence>,
    marker: Seq<char>,
)
    ensures
        apply_correspondences(lines, pairs, marker).len() == lines.len(),
    decreases pairs.len(),
{
    if pairs.len() > 0 {
        lemma_apply_keeps_length(lines, pairs.drop_last(), marker);
    }
}

/// A line whose position no pair names stays as it is.
pub proof fn lemma_apply_keeps_other_lines(
    lines: Seq<Seq<char>>,
    pairs: Seq<Correspondence>,
    marker: Seq<char>,
    i: int,
)
    requires
        0 <= i < lines.len(),
        forall|k: int| 0 <= k < pairs.len() ==> (#[trigger] pairs[k]).base_index != i,
    ensures
        apply_correspondences(lines, pairs, marker)[i] == lines[i],
    decreases pairs.len(),
{
    if pairs.len() > 0 {
        let front = pairs.drop_last();
        assert forall|k: int| 0 <= k < front.len() implies (#[trigger] front[k]).base_index
            != i by {
            assert(front[k] == pairs[k]);
        }
        lemma_apply_keeps_other_lines(lines, front, marker, i);
        lemma_apply_keeps_length(lines, front, marker);
        assert(pairs.last() == pairs[pairs.len() - 1]);
    }
}

/// A line holds what the last pair that names its position puts there.
pub proof fn lemma_apply_last_pair_wins(
    lines: Seq<Seq<char>>,
    pairs: Seq<Correspondence>,
    marker: Seq<char>,
    k: int,
)
    requires
        0 <= k < pairs.len(),
        pairs[k].base_index < lines.len(),
        forall|j: int| k < j < pairs.len() ==> (#[trigger] pairs[j]).base_index != pairs[k].base_index,
    ensures
        apply_correspondences(lines, pairs, marker)[pairs[k].base_index as int] == reconstruct_line(
            pairs[k].base_line@,
            pairs[k].modified_line@,
            marker,
        ),
    decreases pairs.len(),
{
    let front = pairs.drop_last();
    lemma_apply_keeps_length(lines, front, marker);
    if k < pairs.len() - 1 {
        assert(front[k] == pairs[k]);
        assert forall|j: int| k < j < front.len() implies (#[trigger] front[j]).base_index
            != front[k].base_index by {
            assert(front[j] == pairs[j]);
        }
        lemma_apply_last_pair_wins(lines, front, marker, k);
        assert(pairs.last() == pairs[pairs.len() - 1]);
    }
}

/// Applying the first `count` of the pairs that pair the target lines of two
/// texts by rank rebuilds the target lines of a rank below `count`.
proof fn lemma_apply_paired(
    base_lines: Seq<Seq<char>>,
    modified_lines: Seq<Seq<char>>,
    marker: Seq<char>,
    base_targets: Seq<TargetLine>,
    modified_targets: Seq<TargetLine>,
    pairs: Seq<Correspondence>,
    count: int,
)
    requires
        targets_of(base_targets, base_lines, marker),
        targets_of(modified_targets, modified_lines, marker),
        paired_by_rank(pairs, base_targets, modified_targets),
        0 <= count <= pairs.len(),
    ensures
        apply_correspondences(base_lines, pairs.take(count), marker) == Seq::new(
            base_lines.len(),
            |i: int| rebuilt_line_below(base_lines, modified_lines, marker, count, i),
        ),
    decreases count,
{
    let done = apply_correspondences(base_lines, pairs.take(count), marker);
    let goal = Seq::new(
        base_lines.len(),
        |i: int| rebuilt_line_below(base_lines, modified_lines, marker, count, i),
    );
    lemma_apply_keeps_length(base_lines, pairs.take(count), marker);
    if count == 0 {
        assert(pairs.take(0) =~= Seq::<Correspondence>::empty());
        assert(done =~= goal);
    } else {
        lemma_apply_paired(
            base_lines,
            modified_lines,
            marker,
            base_targets,
            modified_targets,
            pairs,
            count - 1,
        );
        let positions = target_positions(base_lines, marker);
        let modified_positions = target_positions(modified_lines, marker);
        lemma_target_positions_rise(base_lines, marker);
        let pair = pairs[count - 1];
        assert(pairs.take(count).drop_last() =~= pairs.take(count - 1));
        assert(pairs.take(count).last() == pair);
        let at = positions[count - 1];
        assert(pair.base_index == base_targets[count - 1].index);
        assert(pair.base_index == at);
        assert(pair.base_line@ == base_lines[at]);
        assert(pair.modified_line@ == modified_lines[modified_positions[count - 1]]);
        lemma_target_rank(base_lines, marker, at);
        let rank_at = target_positions(base_lines.take(at), marker).len() as int;
        assert(rank_at == count - 1) by {
            if rank_at < count - 1 {
                assert(positions[rank_at] < positions[count - 1]);
            } else if rank_at > count - 1 {
                assert(positions[count - 1] < positions[rank_at]);
            }
        }
        assert forall|i: int| 0 <= i < base_lines.len() implies done[i] == goal[i] by {
            let rank = target_positions(base_lines.take(i), marker).len() as int;
            if i == at {
            } else {
                if is_target_line(base_lines[i], marker) {
                    lemma_target_rank(base_lines, marker, i);
                    assert(rank != count - 1);
                }
            }
        }
        assert(done =~= goal);
    }
}

/// Of the pairs that pair the target lines of two texts by rank, building
/// passes over none.
pub proof fn lemma_paired_are_in_range(
    base_lines: Seq<Seq<char>>,
    marker: Seq<char>,
    base_targets: Seq<TargetLine>,
    modified_targets: Seq<TargetLine>,
    pairs: Seq<Correspondence>,
    count: int,
)
    requires
        targets_of(base_targets, base_lines, marker),
        paired_by_rank(pairs, base_targets, modified_targets),
        0 <= count <= pairs.len(),
    ensures
        passed_over(base_lines.len() as int, pairs.take(count)).len() == 0,
    decreases count,
{
    if count > 0 {
        lemma_paired_are_in_range(
            base_lines,
            marker,
            base_targets,
            modified_targets,
            pairs,
            count - 1,
        );
        lemma_target_positions_rise(base_lines, marker);
        assert(pairs.take(count).drop_last() =~= pairs.take(count - 1));
        assert(pairs.take(count).last() == pairs[count - 1]);
        assert(pairs[count - 1].base_index == target_positions(base_lines, marker)[count - 1]);
    } else {
        assert(pairs.take(0) =~= Seq::<Correspondence>::empty());
    }
}

/// Pairing the target lines of two texts by rank and applying the pairs to
/// the base lines gives the rebuilt lines.
pub proof fn lemma_apply_paired_is_rebuilt(
    base_lines: Seq<Seq<char>>,
    modified_lines: Seq<Seq<char>>,
    marker: Seq<char>,
    base_targets: Seq<TargetLine>,
    modified_targets: Seq<TargetLine>,
    pairs: Seq<Correspondence>,
)
    requires
        targets_of(base_targets, base_lines, marker),
        targets_of(modified_targets, modified_lines, marker),
        paired_by_rank(pairs, base_targets, modified_targets),
    ensures
        apply_correspondences(base_lines, pairs, marker) == rebuilt_lines(
            base_lines,
            modified_lines,
            marker,
        ),
{
    lemma_apply_paired(
        base_lines,
        modified_lines,
        marker,
        base_targets,
        modified_targets,
        pairs,
        pairs.len() as int,
    );
    assert(pairs.take(pairs.len() as int) =~= pairs);
    let count = pairs.len() as int;
    assert forall|i: int| 0 <= i < base_lines.len() implies rebuilt_line_below(
        base_lines,
        modified_lines,
        marker,
        count,
        i,
    ) == rebuilt_line(base_lines, modified_lines, marker, i) by {
        if is_target_line(base_lines[i], marker) {
            lemma_target_rank(base_lines, marker, i);
        }
    }
    assert(apply_correspondences(base_lines, pairs, marker) =~= rebuilt_lines(
        base_lines,
        modified_lines,
        marker,
    ));
}

/// Keeps the prefix of `base_line` and takes the payload of `modified_line`.
pub fn reconstruct(base_line: &Vec<char>, modified_line: &Vec<char>, marker: &Vec<char>) -> (line:
    Vec<char>)
    ensures
        line@ == reconstruct_line(base_line@, modified_line@, marker@),
{
    proof {
        lemma_first_occurrence_from(base_line@, marker@, 0);
        lemma_first_occurrence_from(modified_line@, marker@, 0);
    }
    let prefix_end: usize = match find(base_line, marker) {
        Some(i) => i,
        None => count_leading_whitespace(base_line),
    };
    let payload_start: usize = match find(modified_line, marker) {
        Some(i) => i,
        None => count_leading_whitespace(modified_line),
    };
    let mut line = copy_range(base_line, 0, prefix_end);
    let payload = copy_range(modified_line, payload_start, modified_line.len());
    append_chars(&mut line, &payload);
    line
}

/// Applies the pairs to the text lines of the base text and renders the
/// result, each line closed as it is in the base text. A pair whose position
/// is beyond the last line is passed over, and the rest is built all the
/// same; `pairs_passed_over` names such pairs.
pub fn build_reconstructed(base: &Vec<char>, pairs: &Vec<Correspondence>, marker: &Vec<char>) -> (text:
    Vec<char>)
    ensures
        text@ == built_text(base@, pairs@, marker@),
{
    let raw = split_raw_lines(base);
    let mut lines = read_lines(base);
    let ghost base_lines = text_lines(base@);
    let mut k: usize = 0;
    proof {
        assert(pairs@.take(0) =~= Seq::<Correspondence>::empty());
    }
    while k < pairs.len()
        invariant
            k <= pairs.len(),
            lines_view(lines@) == apply_correspondences(base_lines, pairs@.take(k as int), marker@),
        decreases pairs.len() - k,
    {
        proof {
            assert(pairs@.take(k + 1).drop_last() =~= pairs@.take(k as int));
            assert(pairs@.take(k + 1).last() == pairs@[k as int]);
            lemma_apply_keeps_length(base_lines, pairs@.take(k as int), marker@);
        }
        let index = pairs[k].base_index;
        if index < lines.len() {
            let line = reconstruct(&pairs[k].base_line, &pairs[k].modified_line, marker);
            let ghost before = lines_view(lines@);
            lines.set(index, line);
            proof {
                assert(lines_view(lines@) =~= before.update(index as int, line@));
            }
        }
        k += 1;
    }
    proof {
        assert(pairs@.take(pairs.len() as int) =~= pairs@);
        lemma_apply_keeps_length(base_lines, pairs@, marker@);
    }
    let trailing = base.len() > 0 && base[base.len() - 1] == '\n';
    let closed = close_lines(&raw, trailing, lines);
    render_text(&closed, trailing)
}

/// The ranks of the pairs that building from `base` passes over, for the
/// caller to report.
pub fn pairs_passed_over(base: &Vec<char>, pairs: &Vec<Correspondence>) -> (ranks: Vec<usize>)
    ensures
        ranks@ == passed_over(raw_lines(base@).len() as int, pairs@),
{
    let lines = split_raw_lines(base);
    let mut ranks: Vec<usize> = Vec::new();
    let mut k: usize = 0;
    proof {
        assert(pairs@.take(0) =~= Seq::<Correspondence>::empty());
    }
    while k < pairs.len()
        invariant
            k <= pairs.len(),
            lines.len() == raw_lines(base@).len(),
            ranks@ == passed_over(lines.len() as int, pairs@.take(k as int)),
        decreases pairs.len() - k,
    {
        proof {
            assert(pairs@.take(k + 1).drop_last() =~= pairs@.take(k as int));
            assert(pairs@.take(k + 1).last() == pairs@[k as int]);
        }
        if pairs[k].base_index >= lines.len() {
            ranks.push(k);
        }
        k += 1;
    }
    proof {
        assert(pairs@.take(pairs.len() as int) =~= pairs@);
    }
    ranks
}

/// Rebuilds `base` with the target lines of `modified`.
pub fn reconstruct_text(base: &Vec<char>, modified: &Vec<char>, marker: &Vec<char>) -> (text: Vec<
    char,
>)
    ensures
        text@ == rebuilt_text(base@, modified@, marker@),
{
    let base_lines = read_lines(base);
    let modified_lines = read_lines(modified);
    let base_targets = extract_target_lines(&base_lines, marker);
    let modified_targets = extract_target_lines(&modified_lines, marker);
    let pairs = match_by_position(&base_targets, &modified_targets);
    proof {
        lemma_apply_paired_is_rebuilt(
            text_lines(base@),
            text_lines(modified@),
            marker@,
            base_targets@,
            modified_targets@,
            pairs@,
        );
    }
    build_reconstructed(base, &pairs, marker)
}

} // verus!
