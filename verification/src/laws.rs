//! What holds of every rebuilt text.

use crate::changes::differs_by_closing_only;
use crate::lines::{
    all_single_lines,
    bodies_close_as,
    ends_with_return,
    ends_with_newline,
    is_closed,
    is_document,
    lemma_bodies_of_closings,
    lemma_body_of_closed_line,
    lemma_closings_again,
    lemma_closings_make_document,
    lemma_closings_of_bodies,
    lemma_join_last,
    lemma_render_split,
    lemma_split_is_document,
    lemma_split_render,
    lemma_text_lines_shape,
    line_bodies,
    line_body,
    no_newline,
    raw_lines,
    text_lines,
    with_closings,
};
use crate::rebuild::{
    apply_correspondences,
    built_text,
    lemma_apply_keeps_length,
    line_payload,
    line_prefix,
    rebuilt_line,
    rebuilt_lines,
    rebuilt_text,
    reconstruct_line,
};
use crate::target::{
    Correspondence,
    is_target_line,
    lemma_occurs_at_skip,
    lemma_target_positions_rise,
    lemma_target_rank,
    list_item,
    target_positions,
    valid_marker,
};
use crate::text::{
    first_occurrence,
    is_whitespace,
    leading_whitespace,
    lemma_first_occurrence_from,
    lemma_first_occurrence_is,
    lemma_leading_whitespace_bounds,
    lemma_leading_whitespace_is,
    occurs_at,
    starts_with,
    trim_start,
};
use vstd::prelude::*;

verus! {

/// The marker occurs in every target line, at the end of the opening white
/// space or two characters further on.
pub proof fn lemma_target_line_holds_marker(line: Seq<char>, marker: Seq<char>)
    requires
        is_target_line(line, marker),
    ensures
        first_occurrence(line, marker) is Some,
        occurs_at(line, marker, leading_whitespace(line) as int) || occurs_at(
            line,
            marker,
            leading_whitespace(line) as int + 2,
        ),
{
    let n = leading_whitespace(line) as int;
    lemma_leading_whitespace_bounds(line);
    let t = trim_start(line);
    if starts_with(t, marker) {
        lemma_occurs_at_skip(line, marker, n, 0);
    } else {
        let item = list_item(marker);
        assert(t.subrange(2, 2 + marker.len() as int) =~= t.subrange(0, item.len() as int).subrange(
            2,
            2 + marker.len() as int,
        ));
        assert(item.subrange(2, 2 + marker.len() as int) =~= marker);
        assert(occurs_at(t, marker, 2));
        lemma_occurs_at_skip(line, marker, n, 2);
    }
    lemma_first_occurrence_from(line, marker, 0);
}

/// What a target line gives as its payload begins with the marker.
pub proof fn lemma_payload_starts_with_marker(line: Seq<char>, marker: Seq<char>)
    requires
        is_target_line(line, marker),
    ensures
        starts_with(line_payload(line, marker), marker),
        line_payload(line, marker).len() >= marker.len(),
{
    lemma_target_line_holds_marker(line, marker);
    lemma_first_occurrence_from(line, marker, 0);
    let at = first_occurrence(line, marker)->0;
    lemma_occurs_at_skip(line, marker, at, 0);
}

/// A line reconstructed from two lines without a line feed holds none.
pub proof fn lemma_reconstructed_is_single_line(
    base_line: Seq<char>,
    modified_line: Seq<char>,
    marker: Seq<char>,
)
    requires
        no_newline(base_line),
        no_newline(modified_line),
    ensures
        no_newline(reconstruct_line(base_line, modified_line, marker)),
{
    lemma_first_occurrence_from(base_line, marker, 0);
    lemma_first_occurrence_from(modified_line, marker, 0);
    lemma_leading_whitespace_bounds(base_line);
    lemma_leading_whitespace_bounds(modified_line);
    let prefix = line_prefix(base_line, marker);
    let payload = line_payload(modified_line, marker);
    let line = reconstruct_line(base_line, modified_line, marker);
    assert forall|j: int| 0 <= j < line.len() implies #[trigger] line[j] != '\n' by {
        if j < prefix.len() {
            assert(line[j] == base_line[j]);
        } else {
            let start = modified_line.len() - payload.len();
            assert(line[j] == modified_line[start + (j - prefix.len())]);
        }
    }
}

/// Where the marker stands in a target line: behind the opening white
/// space, or behind the dash and the blank that follow it.
pub open spec fn marker_column(line: Seq<char>, marker: Seq<char>) -> int {
    if starts_with(trim_start(line), marker) {
        leading_whitespace(line) as int
    } else {
        leading_whitespace(line) as int + 2
    }
}

/// In a target line the marker stands first at the marker column: the
/// prefix of the line is its indentation, with the dash and the blank of a
/// list item, and its payload is the marker and what follows it.
pub proof fn lemma_target_line_parts(line: Seq<char>, marker: Seq<char>)
    requires
        valid_marker(marker),
        is_target_line(line, marker),
    ensures
        0 <= marker_column(line, marker) <= line.len(),
        first_occurrence(line, marker) == Some(marker_column(line, marker)),
        line_prefix(line, marker) == line.take(marker_column(line, marker)),
        line_payload(line, marker) == line.skip(marker_column(line, marker)),
        forall|j: int|
            0 <= j < leading_whitespace(line) ==> is_whitespace(#[trigger] line[j]),
        marker_column(line, marker) != leading_whitespace(line) ==> line[leading_whitespace(
            line,
        ) as int] == '-' && line[leading_whitespace(line) as int + 1] == ' ',
{
    let n = leading_whitespace(line) as int;
    lemma_leading_whitespace_bounds(line);
    let t = trim_start(line);
    let at = marker_column(line, marker);
    if !starts_with(t, marker) {
        let item = list_item(marker);
        assert(t.subrange(0, item.len() as int)[0] == item[0]);
        assert(t.subrange(0, item.len() as int)[1] == item[1]);
        assert(line[n] == '-');
        assert(line[n + 1] == ' ');
        assert(t.subrange(2, 2 + marker.len() as int) =~= t.subrange(0, item.len() as int).subrange(
            2,
            2 + marker.len() as int,
        ));
        assert(item.subrange(2, 2 + marker.len() as int) =~= marker);
        assert(occurs_at(t, marker, 2));
        lemma_occurs_at_skip(line, marker, n, 2);
    } else {
        lemma_occurs_at_skip(line, marker, n, 0);
    }
    assert forall|j: int| 0 <= j < at implies !occurs_at(line, marker, j) by {
        if occurs_at(line, marker, j) {
            assert(line.subrange(j, j + marker.len())[0] == marker[0]);
            if j < n {
                assert(is_whitespace(line[j]));
            }
        }
    }
    lemma_first_occurrence_is(line, marker, at);
}

/// A target line rebuilt from a target line keeps its indentation, with the
/// dash and the blank of a list item, and takes the marker and what follows
/// it.
pub proof fn lemma_reconstructed_target_line(
    base_line: Seq<char>,
    modified_line: Seq<char>,
    marker: Seq<char>,
)
    requires
        valid_marker(marker),
        is_target_line(base_line, marker),
        is_target_line(modified_line, marker),
    ensures
        reconstruct_line(base_line, modified_line, marker) == base_line.take(
            marker_column(base_line, marker),
        ) + modified_line.skip(marker_column(modified_line, marker)),
{
    lemma_target_line_parts(base_line, marker);
    lemma_target_line_parts(modified_line, marker);
}

/// A target line of the base text, rebuilt with a payload that begins with
/// the marker, is a target line again and keeps the same prefix.
pub proof fn lemma_rebuilt_line_keeps_prefix(
    base_line: Seq<char>,
    payload: Seq<char>,
    marker: Seq<char>,
)
    requires
        valid_marker(marker),
        is_target_line(base_line, marker),
        starts_with(payload, marker),
    ensures
        is_target_line(line_prefix(base_line, marker) + payload, marker),
        line_prefix(line_prefix(base_line, marker) + payload, marker) == line_prefix(
            base_line,
            marker,
        ),
{
    let n = leading_whitespace(base_line) as int;
    let at = marker_column(base_line, marker);
    lemma_target_line_parts(base_line, marker);
    let prefix = line_prefix(base_line, marker);
    let line = prefix + payload;
    assert(payload.subrange(0, marker.len() as int)[0] == marker[0]);
    assert(line[at] == marker[0]);
    assert forall|j: int| 0 <= j < n implies is_whitespace(#[trigger] line[j]) by {
        assert(line[j] == base_line[j]);
    }
    assert(!is_whitespace(line[n])) by {
        if at != n {
            assert(line[n] == base_line[n]);
        }
    }
    lemma_leading_whitespace_is(line, n);
    if at == n {
        assert(line.skip(n).subrange(0, marker.len() as int) =~= payload.subrange(
            0,
            marker.len() as int,
        ));
    } else {
        let item = list_item(marker);
        assert(line.skip(n)[0] != marker[0]);
        assert(!starts_with(line.skip(n), marker)) by {
            if starts_with(line.skip(n), marker) {
                assert(line.skip(n).subrange(0, marker.len() as int)[0] == marker[0]);
            }
        }
        assert(line.skip(n).subrange(0, item.len() as int) =~= item) by {
            assert forall|j: int| 0 <= j < item.len() implies line.skip(n).subrange(
                0,
                item.len() as int,
            )[j] == item[j] by {
                if j >= 2 {
                    assert(line[n + j] == payload.subrange(0, marker.len() as int)[j - 2]);
                } else {
                    assert(line[n + j] == base_line[n + j]);
                }
            }
        }
    }
    lemma_target_line_parts(line, marker);
    assert(line.take(at) =~= prefix);
}

/// Lines that agree one by one on being target lines have their target lines
/// at the same positions.
pub proof fn lemma_same_targets_same_positions(
    first: Seq<Seq<char>>,
    second: Seq<Seq<char>>,
    marker: Seq<char>,
)
    requires
        first.len() == second.len(),
        forall|i: int|
            0 <= i < first.len() ==> is_target_line(#[trigger] first[i], marker) == is_target_line(
                second[i],
                marker,
            ),
    ensures
        target_positions(first, marker) == target_positions(second, marker),
    decreases first.len(),
{
    if first.len() > 0 {
        let a = first.drop_last();
        let b = second.drop_last();
        assert forall|i: int| 0 <= i < a.len() implies is_target_line(#[trigger] a[i], marker)
            == is_target_line(b[i], marker) by {
            assert(a[i] == first[i]);
            assert(b[i] == second[i]);
        }
        lemma_same_targets_same_positions(a, b, marker);
        assert(is_target_line(first[first.len() - 1], marker) == is_target_line(
            second[first.len() - 1],
            marker,
        ));
    }
}

/// The rebuilt lines are as many as the base lines, and a line that is no
/// target line, or whose rank the modified text does not reach, is the base
/// line.
pub proof fn lemma_rebuilt_lines_keep_the_rest(
    base_lines: Seq<Seq<char>>,
    modified_lines: Seq<Seq<char>>,
    marker: Seq<char>,
)
    ensures
        rebuilt_lines(base_lines, modified_lines, marker).len() == base_lines.len(),
        forall|i: int|
            0 <= i < base_lines.len() && !is_target_line(base_lines[i], marker) ==> #[trigger] rebuilt_lines(
                base_lines,
                modified_lines,
                marker,
            )[i] == base_lines[i],
        forall|i: int|
            0 <= i < base_lines.len() && target_positions(base_lines.take(i), marker).len()
                >= target_positions(modified_lines, marker).len() ==> #[trigger] rebuilt_lines(
                base_lines,
                modified_lines,
                marker,
            )[i] == base_lines[i],
{
}

/// A rebuilt line is a target line exactly if the base line is.
pub proof fn lemma_rebuilt_lines_keep_targets(
    base_lines: Seq<Seq<char>>,
    modified_lines: Seq<Seq<char>>,
    marker: Seq<char>,
    i: int,
)
    requires
        valid_marker(marker),
        0 <= i < base_lines.len(),
    ensures
        is_target_line(rebuilt_lines(base_lines, modified_lines, marker)[i], marker)
            == is_target_line(base_lines[i], marker),
        is_target_line(base_lines[i], marker) ==> line_prefix(
            rebuilt_lines(base_lines, modified_lines, marker)[i],
            marker,
        ) == line_prefix(base_lines[i], marker),
{
    let rank = target_positions(base_lines.take(i), marker).len() as int;
    let modified_targets = target_positions(modified_lines, marker);
    if is_target_line(base_lines[i], marker) && rank < modified_targets.len() {
        lemma_target_positions_rise(modified_lines, marker);
        let from = modified_lines[modified_targets[rank]];
        lemma_payload_starts_with_marker(from, marker);
        lemma_rebuilt_line_keeps_prefix(base_lines[i], line_payload(from, marker), marker);
    }
}

/// Rebuilding what was rebuilt, from the same modified lines, changes
/// nothing.
pub proof fn lemma_rebuilt_lines_idempotent(
    base_lines: Seq<Seq<char>>,
    modified_lines: Seq<Seq<char>>,
    marker: Seq<char>,
)
    requires
        valid_marker(marker),
    ensures
        rebuilt_lines(rebuilt_lines(base_lines, modified_lines, marker), modified_lines, marker)
            == rebuilt_lines(base_lines, modified_lines, marker),
{
    let once = rebuilt_lines(base_lines, modified_lines, marker);
    let twice = rebuilt_lines(once, modified_lines, marker);
    let modified_targets = target_positions(modified_lines, marker);
    assert forall|i: int| 0 <= i < once.len() implies twice[i] == once[i] by {
        assert forall|j: int| 0 <= j < i implies is_target_line(
            #[trigger] once.take(i)[j],
            marker,
        ) == is_target_line(base_lines.take(i)[j], marker) by {
            lemma_rebuilt_lines_keep_targets(base_lines, modified_lines, marker, j);
        }
        lemma_same_targets_same_positions(once.take(i), base_lines.take(i), marker);
        lemma_rebuilt_lines_keep_targets(base_lines, modified_lines, marker, i);
    }
    assert(twice =~= once);
}

/// The target lines among `lines`, in order.
pub open spec fn target_contents(lines: Seq<Seq<char>>, marker: Seq<char>) -> Seq<Seq<char>> {
    Seq::new(
        target_positions(lines, marker).len(),
        |k: int| lines[target_positions(lines, marker)[k]],
    )
}

/// Whether no target line among `lines` ends with a carriage return.
pub open spec fn targets_end_cleanly(lines: Seq<Seq<char>>, marker: Seq<char>) -> bool {
    forall|i: int|
        0 <= i < lines.len() && is_target_line(#[trigger] lines[i], marker) ==> !(lines[i].len()
            > 0 && lines[i].last() == '\r')
}

/// The modified lines count only by their target lines: two sequences of
/// modified lines with the same target lines in the same order give the same
/// rebuilt lines.
pub proof fn lemma_rebuilt_lines_by_target_lines(
    base_lines: Seq<Seq<char>>,
    first: Seq<Seq<char>>,
    second: Seq<Seq<char>>,
    marker: Seq<char>,
)
    requires
        target_contents(first, marker) == target_contents(second, marker),
    ensures
        rebuilt_lines(base_lines, first, marker) == rebuilt_lines(base_lines, second, marker),
{
    let one = rebuilt_lines(base_lines, first, marker);
    let other = rebuilt_lines(base_lines, second, marker);
    assert(target_contents(first, marker).len() == target_contents(second, marker).len());
    assert(target_positions(first, marker).len() == target_contents(first, marker).len());
    assert(target_positions(second, marker).len() == target_contents(second, marker).len());
    assert forall|i: int| 0 <= i < base_lines.len() implies one[i] == other[i] by {
        let rank = target_positions(base_lines.take(i), marker).len() as int;
        if rank < target_positions(first, marker).len() {
            assert(target_contents(first, marker)[rank] == first[target_positions(
                first,
                marker,
            )[rank]]);
            assert(target_contents(second, marker)[rank] == second[target_positions(
                second,
                marker,
            )[rank]]);
        }
    }
    assert(one =~= other);
}

/// Two modified texts whose text lines hold the same target lines in the
/// same order give the same rebuilt text: nothing else of a modified text
/// goes into it.
pub proof fn lemma_rebuilt_text_by_target_lines(
    base: Seq<char>,
    first: Seq<char>,
    second: Seq<char>,
    marker: Seq<char>,
)
    requires
        target_contents(text_lines(first), marker) == target_contents(text_lines(second), marker),
    ensures
        rebuilt_text(base, first, marker) == rebuilt_text(base, second, marker),
{
    lemma_rebuilt_lines_by_target_lines(
        text_lines(base),
        text_lines(first),
        text_lines(second),
        marker,
    );
}

/// The rebuilt lines hold no line feed, and a rebuilt line is empty only if
/// the base line is.
pub proof fn lemma_rebuilt_lines_are_lines(
    base: Seq<char>,
    modified: Seq<char>,
    marker: Seq<char>,
)
    requires
        marker.len() > 0,
    ensures
        rebuilt_lines(text_lines(base), text_lines(modified), marker).len() == raw_lines(
            base,
        ).len(),
        all_single_lines(rebuilt_lines(text_lines(base), text_lines(modified), marker)),
        forall|i: int|
            0 <= i < raw_lines(base).len() && text_lines(base)[i].len() > 0
                ==> (#[trigger] rebuilt_lines(text_lines(base), text_lines(modified), marker)[i]).len()
                > 0,
{
    let base_lines = text_lines(base);
    let modified_lines = text_lines(modified);
    let modified_targets = target_positions(modified_lines, marker);
    let lines = rebuilt_lines(base_lines, modified_lines, marker);
    lemma_text_lines_shape(base);
    lemma_text_lines_shape(modified);
    lemma_target_positions_rise(modified_lines, marker);
    assert forall|i: int| 0 <= i < lines.len() implies no_newline(#[trigger] lines[i]) && (
    base_lines[i].len() > 0 ==> lines[i].len() > 0) by {
        let rank = target_positions(base_lines.take(i), marker).len() as int;
        assert(no_newline(base_lines[i]));
        if is_target_line(base_lines[i], marker) && rank < modified_targets.len() {
            let from = modified_lines[modified_targets[rank]];
            assert(no_newline(from));
            lemma_reconstructed_is_single_line(base_lines[i], from, marker);
            lemma_payload_starts_with_marker(from, marker);
        }
    }
}

/// The raw lines of the rebuilt text are the rebuilt lines, each closed as
/// the line of the base text is: as many as the base text has. The rebuilt
/// text is closed by a line feed exactly if the base text is.
pub proof fn lemma_rebuilt_text_lines(base: Seq<char>, modified: Seq<char>, marker: Seq<char>)
    requires
        marker.len() > 0,
    ensures
        raw_lines(rebuilt_text(base, modified, marker)) == with_closings(
            raw_lines(base),
            ends_with_newline(base),
            rebuilt_lines(text_lines(base), text_lines(modified), marker),
        ),
        raw_lines(rebuilt_text(base, modified, marker)).len() == raw_lines(base).len(),
        text_lines(rebuilt_text(base, modified, marker)).len() == text_lines(base).len(),
        ends_with_newline(rebuilt_text(base, modified, marker)) == ends_with_newline(base),
{
    let raw = raw_lines(base);
    let trailing = ends_with_newline(base);
    let lines = rebuilt_lines(text_lines(base), text_lines(modified), marker);
    lemma_rebuilt_lines_are_lines(base, modified, marker);
    lemma_split_is_document(base);
    lemma_text_lines_shape(base);
    if raw.len() > 0 && !trailing {
        assert(lines.last() == lines[raw.len() - 1]);
        assert(text_lines(base).last() == text_lines(base)[raw.len() - 1]);
    }
    lemma_closings_make_document(raw, trailing, lines);
    lemma_split_render(with_closings(raw, trailing, lines), trailing);
}

/// Whether the rebuilt text, read again, has the rebuilt lines for its text
/// lines: no rebuilt line ends with a carriage return of its own where a
/// line feed closes it, for there the carriage return would be read as part
/// of what closes the line.
pub open spec fn rebuilt_closes_cleanly(base: Seq<char>, modified: Seq<char>, marker: Seq<char>) -> bool {
    bodies_close_as(
        raw_lines(base),
        ends_with_newline(base),
        rebuilt_lines(text_lines(base), text_lines(modified), marker),
    )
}

/// The rebuilt lines close cleanly where no target line of the modified
/// text ends with a carriage return of its own.
pub proof fn lemma_clean_targets_close_cleanly(
    base: Seq<char>,
    modified: Seq<char>,
    marker: Seq<char>,
)
    requires
        marker.len() > 0,
        targets_end_cleanly(text_lines(modified), marker),
    ensures
        rebuilt_closes_cleanly(base, modified, marker),
{
    let raw = raw_lines(base);
    let trailing = ends_with_newline(base);
    let base_lines = text_lines(base);
    let modified_lines = text_lines(modified);
    let modified_targets = target_positions(modified_lines, marker);
    let lines = rebuilt_lines(base_lines, modified_lines, marker);
    lemma_rebuilt_text_lines(base, modified, marker);
    lemma_target_positions_rise(modified_lines, marker);
    assert forall|i: int|
        0 <= i < raw.len() && is_closed(raw.len() as int, trailing, i) && ends_with_return(
            #[trigger] lines[i],
        ) implies lines[i] == line_body(raw[i], true) by {
        let rank = target_positions(base_lines.take(i), marker).len() as int;
        if is_target_line(base_lines[i], marker) && rank < modified_targets.len() {
            let from = modified_lines[modified_targets[rank]];
            lemma_payload_starts_with_marker(from, marker);
            lemma_first_occurrence_from(from, marker, 0);
            lemma_target_line_holds_marker(from, marker);
            let payload = line_payload(from, marker);
            let at = first_occurrence(from, marker)->0;
            assert(payload == from.skip(at));
            assert(payload.len() > 0);
            assert(lines[i].last() == payload.last());
            assert(payload.last() == from[from.len() - 1]);
            assert(!(from.len() > 0 && from.last() == '\r'));
        }
    }
}

/// The rebuilt text, read again, has the rebuilt lines for its text lines:
/// a line that was not rebuilt is the text line of the base text, and a
/// rebuilt line is the prefix of the base line and the payload of the
/// modified line. This holds where the rebuilt lines close cleanly.
pub proof fn lemma_rebuilt_text_read_again(base: Seq<char>, modified: Seq<char>, marker: Seq<char>)
    requires
        marker.len() > 0,
        rebuilt_closes_cleanly(base, modified, marker),
    ensures
        text_lines(rebuilt_text(base, modified, marker)) == rebuilt_lines(
            text_lines(base),
            text_lines(modified),
            marker,
        ),
{
    lemma_rebuilt_text_lines(base, modified, marker);
    lemma_bodies_of_closings(
        raw_lines(base),
        ends_with_newline(base),
        rebuilt_lines(text_lines(base), text_lines(modified), marker),
    );
}

/// A payload that begins with the marker and ends with a carriage return
/// begins with the marker without that carriage return too.
proof fn lemma_payload_without_return(payload: Seq<char>, marker: Seq<char>)
    requires
        valid_marker(marker),
        starts_with(payload, marker),
        ends_with_return(payload),
    ensures
        starts_with(payload.drop_last(), marker),
{
    let head = payload.subrange(0, marker.len() as int);
    if payload.len() == marker.len() {
        assert(head[marker.len() - 1] == payload.last());
        assert(marker[marker.len() - 1] != '\r');
    }
    assert(payload.drop_last().subrange(0, marker.len() as int) =~= head);
}

/// Base lines that are the rebuilt lines, but for a carriage return that
/// some rebuilt lines have lost at their end, give the rebuilt lines again.
proof fn lemma_rebuilt_lines_read_again(
    base_lines: Seq<Seq<char>>,
    modified_lines: Seq<Seq<char>>,
    marker: Seq<char>,
    read: Seq<Seq<char>>,
)
    requires
        valid_marker(marker),
        read.len() == base_lines.len(),
        forall|i: int|
            0 <= i < read.len() ==> (#[trigger] read[i]) == rebuilt_lines(
                base_lines,
                modified_lines,
                marker,
            )[i] || (ends_with_return(rebuilt_lines(base_lines, modified_lines, marker)[i])
                && rebuilt_lines(base_lines, modified_lines, marker)[i] != base_lines[i] && read[i]
                == rebuilt_lines(base_lines, modified_lines, marker)[i].drop_last()),
    ensures
        rebuilt_lines(read, modified_lines, marker) == rebuilt_lines(
            base_lines,
            modified_lines,
            marker,
        ),
{
    let once = rebuilt_lines(base_lines, modified_lines, marker);
    let twice = rebuilt_lines(read, modified_lines, marker);
    let modified_targets = target_positions(modified_lines, marker);
    lemma_target_positions_rise(modified_lines, marker);
    // A line that was read is a target line exactly if the base line is, and
    // has its prefix.
    assert forall|j: int| 0 <= j < read.len() implies is_target_line(#[trigger] read[j], marker)
        == is_target_line(base_lines[j], marker) && (is_target_line(base_lines[j], marker)
        ==> line_prefix(read[j], marker) == line_prefix(base_lines[j], marker)) by {
        lemma_rebuilt_lines_keep_targets(base_lines, modified_lines, marker, j);
        if read[j] != once[j] {
            let rank = target_positions(base_lines.take(j), marker).len() as int;
            assert(once[j] == rebuilt_line(base_lines, modified_lines, marker, j));
            assert(is_target_line(base_lines[j], marker) && rank < modified_targets.len());
            let from = modified_lines[modified_targets[rank]];
            let prefix = line_prefix(base_lines[j], marker);
            let payload = line_payload(from, marker);
            lemma_payload_starts_with_marker(from, marker);
            assert(once[j] == prefix + payload);
            assert(payload.len() > 0);
            assert(payload.last() == once[j].last());
            lemma_payload_without_return(payload, marker);
            assert(once[j].drop_last() =~= prefix + payload.drop_last());
            lemma_rebuilt_line_keeps_prefix(base_lines[j], payload.drop_last(), marker);
        }
    }
    assert forall|i: int| 0 <= i < read.len() implies twice[i] == once[i] by {
        assert forall|j: int| 0 <= j < i implies is_target_line(#[trigger] read.take(i)[j], marker)
            == is_target_line(base_lines.take(i)[j], marker) by {
            assert(read.take(i)[j] == read[j]);
            assert(base_lines.take(i)[j] == base_lines[j]);
        }
        lemma_same_targets_same_positions(read.take(i), base_lines.take(i), marker);
        assert(twice[i] == rebuilt_line(read, modified_lines, marker, i));
        assert(once[i] == rebuilt_line(base_lines, modified_lines, marker, i));
    }
    assert(twice =~= once);
}

/// Rebuilding the rebuilt text from the same modified text gives the rebuilt
/// text: once it stands for the base text, nothing is left to take over.
pub proof fn lemma_rebuilt_text_idempotent(base: Seq<char>, modified: Seq<char>, marker: Seq<char>)
    requires
        valid_marker(marker),
    ensures
        rebuilt_text(rebuilt_text(base, modified, marker), modified, marker) == rebuilt_text(
            base,
            modified,
            marker,
        ),
{
    let raw = raw_lines(base);
    let trailing = ends_with_newline(base);
    let base_lines = text_lines(base);
    let modified_lines = text_lines(modified);
    let once = rebuilt_lines(base_lines, modified_lines, marker);
    let rebuilt = rebuilt_text(base, modified, marker);
    let closed = with_closings(raw, trailing, once);
    lemma_rebuilt_text_lines(base, modified, marker);
    let read = text_lines(rebuilt);
    assert(read == line_bodies(closed, trailing));
    assert forall|i: int| 0 <= i < read.len() implies (#[trigger] read[i]) == once[i] || (
    ends_with_return(once[i]) && once[i] != base_lines[i] && read[i] == once[i].drop_last()) by {
        lemma_body_of_closed_line(raw[i], is_closed(raw.len() as int, trailing, i), once[i]);
    }
    lemma_rebuilt_lines_read_again(base_lines, modified_lines, marker, read);
    lemma_closings_again(raw, trailing, once);
}

/// Where the modified lines have the same target lines at the same
/// positions as the base lines, rebuilding changes nothing.
pub proof fn lemma_rebuilt_lines_from_same_targets(
    base_lines: Seq<Seq<char>>,
    modified_lines: Seq<Seq<char>>,
    marker: Seq<char>,
)
    requires
        target_positions(modified_lines, marker) == target_positions(base_lines, marker),
        forall|k: int|
            0 <= k < target_positions(base_lines, marker).len()
                ==> modified_lines[#[trigger] target_positions(base_lines, marker)[k]]
                == base_lines[target_positions(base_lines, marker)[k]],
    ensures
        rebuilt_lines(base_lines, modified_lines, marker) == base_lines,
{
    let rebuilt = rebuilt_lines(base_lines, modified_lines, marker);
    let targets = target_positions(base_lines, marker);
    assert forall|i: int| 0 <= i < base_lines.len() implies rebuilt[i] == base_lines[i] by {
        let rank = target_positions(base_lines.take(i), marker).len() as int;
        if is_target_line(base_lines[i], marker) && rank < targets.len() {
            lemma_target_rank(base_lines, marker, i);
            assert(modified_lines[targets[rank]] == base_lines[i]);
            lemma_first_occurrence_from(base_lines[i], marker, 0);
            lemma_target_line_holds_marker(base_lines[i], marker);
            let at = first_occurrence(base_lines[i], marker)->0;
            assert(base_lines[i].take(at) + base_lines[i].skip(at) =~= base_lines[i]);
        }
    }
    assert(rebuilt =~= base_lines);
}

/// Rebuilt lines that are the text lines of the base text give the base
/// text back, character by character.
proof fn lemma_same_lines_give_the_base(base: Seq<char>, modified: Seq<char>, marker: Seq<char>)
    requires
        rebuilt_lines(text_lines(base), text_lines(modified), marker) == text_lines(base),
    ensures
        rebuilt_text(base, modified, marker) == base,
{
    lemma_closings_of_bodies(raw_lines(base), ends_with_newline(base));
    lemma_render_split(base);
}

/// A modified text with the text lines of the base text gives the base text
/// back, whether or not the two are closed alike.
pub proof fn lemma_rebuilt_from_same_lines(base: Seq<char>, modified: Seq<char>, marker: Seq<char>)
    requires
        text_lines(modified) == text_lines(base),
    ensures
        rebuilt_text(base, modified, marker) == base,
{
    lemma_rebuilt_lines_from_same_targets(text_lines(base), text_lines(modified), marker);
    lemma_same_lines_give_the_base(base, modified, marker);
}

/// An empty line behind the others is no target line and moves none.
proof fn lemma_empty_line_is_no_target(lines: Seq<Seq<char>>, marker: Seq<char>)
    requires
        marker.len() > 0,
    ensures
        target_positions(lines.push(Seq::<char>::empty()), marker) == target_positions(
            lines,
            marker,
        ),
{
    let longer = lines.push(Seq::<char>::empty());
    assert(longer.drop_last() =~= lines);
    assert(trim_start(longer.last()).len() == 0);
}

/// A text that no line feed closes ends as its last raw line ends.
proof fn lemma_last_line_ends_the_text(s: Seq<char>)
    requires
        s.len() > 0,
        s.last() != '\n',
    ensures
        raw_lines(s).len() > 0,
        raw_lines(s).last().len() > 0,
        raw_lines(s).last().last() == s.last(),
{
    lemma_split_is_document(s);
    lemma_render_split(s);
    lemma_join_last(raw_lines(s));
}

/// Two texts that differ in nothing but a closing line feed give the base
/// text back: a file left out for that difference alone would have been
/// staged as it is committed. This holds where the text without the line
/// feed does not end with a carriage return.
pub proof fn lemma_closing_only_stages_the_base(
    base: Seq<char>,
    current: Seq<char>,
    marker: Seq<char>,
)
    requires
        marker.len() > 0,
        differs_by_closing_only(base, current),
        current == base.push('\n') ==> !(base.len() > 0 && base.last() == '\r'),
        base == current.push('\n') ==> !(current.len() > 0 && current.last() == '\r'),
    ensures
        rebuilt_text(base, current, marker) == base,
{
    let base_lines = text_lines(base);
    let current_lines = text_lines(current);
    let empty = Seq::<char>::empty();
    lemma_target_positions_rise(base_lines, marker);
    lemma_target_positions_rise(current_lines, marker);
    if current == base.push('\n') {
        assert(current.drop_last() =~= base);
        if base.len() == 0 {
            assert(rebuilt_lines(base_lines, current_lines, marker) =~= base_lines);
        } else if base.last() != '\n' {
            lemma_last_line_ends_the_text(base);
            assert(raw_lines(current) == raw_lines(base));
            assert(current_lines =~= base_lines);
            lemma_rebuilt_lines_from_same_targets(base_lines, current_lines, marker);
        } else {
            assert(raw_lines(current) == raw_lines(base).push(empty));
            assert(current_lines =~= base_lines.push(empty));
            lemma_empty_line_is_no_target(base_lines, marker);
            lemma_rebuilt_lines_from_same_targets(base_lines, current_lines, marker);
        }
    } else {
        assert(base.drop_last() =~= current);
        if current.len() == 0 {
            assert(raw_lines(base) =~= seq![empty]);
            assert(base_lines =~= seq![empty]);
            assert(trim_start(base_lines[0]).len() == 0);
            assert(rebuilt_lines(base_lines, current_lines, marker) =~= base_lines);
        } else if current.last() != '\n' {
            lemma_last_line_ends_the_text(current);
            assert(raw_lines(current) == raw_lines(base));
            assert(current_lines =~= base_lines);
            lemma_rebuilt_lines_from_same_targets(base_lines, current_lines, marker);
        } else {
            assert(raw_lines(base) == raw_lines(current).push(empty));
            assert(base_lines =~= current_lines.push(empty));
            lemma_empty_line_is_no_target(current_lines, marker);
            lemma_rebuilt_lines_from_same_targets(base_lines, current_lines, marker);
        }
    }
    lemma_same_lines_give_the_base(base, current, marker);
}

/// Whether every pair gives a line that is not empty and holds no line
/// feed.
pub open spec fn pairs_give_lines(pairs: Seq<Correspondence>, marker: Seq<char>) -> bool {
    forall|k: int|
        0 <= k < pairs.len() ==> no_newline(
            #[trigger] reconstruct_line(pairs[k].base_line@, pairs[k].modified_line@, marker),
        ) && reconstruct_line(pairs[k].base_line@, pairs[k].modified_line@, marker).len() > 0
}

/// Pairs that give lines leave a document a document.
pub proof fn lemma_apply_keeps_document(
    lines: Seq<Seq<char>>,
    trailing: bool,
    pairs: Seq<Correspondence>,
    marker: Seq<char>,
)
    requires
        is_document(lines, trailing),
        pairs_give_lines(pairs, marker),
    ensures
        is_document(apply_correspondences(lines, pairs, marker), trailing),
    decreases pairs.len(),
{
    lemma_apply_keeps_length(lines, pairs, marker);
    if pairs.len() > 0 {
        let front = pairs.drop_last();
        assert(pairs_give_lines(front, marker)) by {
            assert forall|k: int| 0 <= k < front.len() implies no_newline(
                #[trigger] reconstruct_line(front[k].base_line@, front[k].modified_line@, marker),
            ) && reconstruct_line(front[k].base_line@, front[k].modified_line@, marker).len()
                > 0 by {
                assert(front[k] == pairs[k]);
            }
        }
        lemma_apply_keeps_document(lines, trailing, front, marker);
        lemma_apply_keeps_length(lines, front, marker);
        let before = apply_correspondences(lines, front, marker);
        let after = apply_correspondences(lines, pairs, marker);
        let pair = pairs[pairs.len() - 1];
        let line = reconstruct_line(pair.base_line@, pair.modified_line@, marker);
        assert(no_newline(line) && line.len() > 0);
        assert forall|i: int| 0 <= i < after.len() implies no_newline(#[trigger] after[i]) by {
            if i != pair.base_index {
                assert(after[i] == before[i]);
            }
        }
        if after.len() > 0 && !trailing {
            assert(before.last() == before[before.len() - 1]);
            assert(after.last() == after[after.len() - 1]);
        }
    }
}

/// The text built from pairs that give lines has, for its raw lines, the
/// lines that the pairs leave, each closed as the line of the base text is:
/// as many as the base text has. It is closed by a line feed exactly if the
/// base text is.
pub proof fn lemma_built_text_lines(base: Seq<char>, pairs: Seq<Correspondence>, marker: Seq<char>)
    requires
        pairs_give_lines(pairs, marker),
    ensures
        raw_lines(built_text(base, pairs, marker)) == with_closings(
            raw_lines(base),
            ends_with_newline(base),
            apply_correspondences(text_lines(base), pairs, marker),
        ),
        raw_lines(built_text(base, pairs, marker)).len() == raw_lines(base).len(),
        ends_with_newline(built_text(base, pairs, marker)) == ends_with_newline(base),
{
    let raw = raw_lines(base);
    let trailing = ends_with_newline(base);
    lemma_split_is_document(base);
    lemma_text_lines_shape(base);
    assert(is_document(text_lines(base), trailing));
    lemma_apply_keeps_document(text_lines(base), trailing, pairs, marker);
    lemma_apply_keeps_length(text_lines(base), pairs, marker);
    let lines = apply_correspondences(text_lines(base), pairs, marker);
    lemma_closings_make_document(raw, trailing, lines);
    lemma_split_render(with_closings(raw, trailing, lines), trailing);
}

} // verus!
