//! Target lines: which lines of a text name a reusable action, and how the
//! target lines of two versions of a text are paired.
//!
//! A line is a target line if, after the white space that opens it, it begins
//! with the marker, or with a list item's dash and blank followed by the
//! marker. The marker is a parameter: `uses:` is the one that workflow files
//! call for.

use crate::lines::{lines_view, no_newline};
use crate::text::{
    all_whitespace,
    append_chars,
    copy_range,
    count_leading_whitespace,
    is_whitespace,
    lemma_leading_whitespace_is,
    matches_at,
    occurs_at,
    starts_with,
    trim_start,
};
use vstd::prelude::*;

verus! {

/// The marker `uses:`.
pub open spec fn uses_keyword() -> Seq<char> {
    seq!['u', 's', 'e', 's', ':']
}

/// The marker as a list item opens with it: a dash, a blank, the marker.
pub open spec fn list_item(marker: Seq<char>) -> Seq<char> {
    seq!['-', ' '] + marker
}

/// Whether `line` is a target line for `marker`.
pub open spec fn is_target_line(line: Seq<char>, marker: Seq<char>) -> bool {
    starts_with(trim_start(line), marker) || starts_with(trim_start(line), list_item(marker))
}

/// What a marker has to be for the laws on target lines to hold: it is not
/// empty, does not begin with white space or a dash, and holds nothing that
/// closes a line, neither a line feed nor a carriage return.
pub open spec fn valid_marker(marker: Seq<char>) -> bool {
    &&& marker.len() > 0
    &&& !is_whitespace(marker[0])
    &&& marker[0] != '-'
    &&& no_newline(marker)
    &&& forall|j: int| 0 <= j < marker.len() ==> #[trigger] marker[j] != '\r'
}

/// The positions of the target lines among `lines`, in rising order.
pub open spec fn target_positions(lines: Seq<Seq<char>>, marker: Seq<char>) -> Seq<int>
    decreases lines.len(),
{
    if lines.len() == 0 {
        Seq::<int>::empty()
    } else if is_target_line(lines.last(), marker) {
        target_positions(lines.drop_last(), marker).push(lines.len() - 1)
    } else {
        target_positions(lines.drop_last(), marker)
    }
}

/// A target line of a text: its position among the lines, from 0, and its
/// characters.
#[derive(Debug, PartialEq, Eq)]
pub struct TargetLine {
    pub index: usize,
    pub content: Vec<char>,
}

/// A target line of the base text paired with the target line of the
/// modified text that has the same rank among the target lines.
#[derive(Debug, PartialEq, Eq)]
pub struct Correspondence {
    pub base_index: usize,
    pub base_line: Vec<char>,
    pub modified_line: Vec<char>,
}

/// Whether `targets` are the target lines of `lines`, each with its position
/// and its characters, in order.
pub open spec fn targets_of(
    targets: Seq<TargetLine>,
    lines: Seq<Seq<char>>,
    marker: Seq<char>,
) -> bool {
    let positions = target_positions(lines, marker);
    &&& targets.len() == positions.len()
    &&& forall|k: int|
        0 <= k < targets.len() ==> (#[trigger] targets[k]).index == positions[k]
            && targets[k].content@ == lines[positions[k]]
}

/// Whether `pairs` pair `base` and `modified` by rank: there are as many
/// pairs as the shorter of the two has entries, and the pair of rank `k`
/// holds the entries of rank `k`.
pub open spec fn paired_by_rank(
    pairs: Seq<Correspondence>,
    base: Seq<TargetLine>,
    modified: Seq<TargetLine>,
) -> bool {
    &&& pairs.len() == if base.len() <= modified.len() {
        base.len()
    } else {
        modified.len()
    }
    &&& forall|k: int|
        0 <= k < pairs.len() ==> (#[trigger] pairs[k]).base_index == base[k].index
            && pairs[k].base_line@ == base[k].content@ && pairs[k].modified_line@
            == modified[k].content@
}

/// Looking for a pattern in what is left after skipping `n` characters is
/// looking for it `n` positions further on.
pub proof fn lemma_occurs_at_skip(s: Seq<char>, pat: Seq<char>, n: int, i: int)
    requires
        0 <= n <= s.len(),
        0 <= i,
    ensures
        occurs_at(s.skip(n), pat, i) == occurs_at(s, pat, n + i),
{
    if i + pat.len() <= s.len() - n {
        assert(s.skip(n).subrange(i, i + pat.len()) =~= s.subrange(n + i, n + i + pat.len()));
    }
}

/// The positions of the target lines rise strictly, and each is the position
/// of a target line.
pub proof fn lemma_target_positions_rise(lines: Seq<Seq<char>>, marker: Seq<char>)
    ensures
        target_positions(lines, marker).len() <= lines.len(),
        forall|k: int|
            0 <= k < target_positions(lines, marker).len() ==> 0 <= #[trigger] target_positions(
                lines,
                marker,
            )[k] < lines.len() && is_target_line(
                lines[target_positions(lines, marker)[k]],
                marker,
            ),
        forall|j: int, k: int|
            0 <= j < k < target_positions(lines, marker).len() ==> target_positions(
                lines,
                marker,
            )[j] < target_positions(lines, marker)[k],
    decreases lines.len(),
{
    if lines.len() > 0 {
        let front = lines.drop_last();
        lemma_target_positions_rise(front, marker);
        let p = target_positions(lines, marker);
        let q = target_positions(front, marker);
        assert forall|k: int| 0 <= k < p.len() implies 0 <= #[trigger] p[k] < lines.len()
            && is_target_line(lines[p[k]], marker) by {
            if k < q.len() {
                assert(p[k] == q[k]);
                assert(front[q[k]] == lines[q[k]]);
            }
        }
        assert forall|j: int, k: int| 0 <= j < k < p.len() implies p[j] < p[k] by {
            assert(p[j] == q[j]);
            if k < q.len() {
                assert(p[k] == q[k]);
            }
        }
    }
}

/// The target positions of the first `n + 1` lines are those of the first
/// `n`, with `n` added when line `n` is a target line.
pub proof fn lemma_target_positions_step(lines: Seq<Seq<char>>, marker: Seq<char>, n: int)
    requires
        0 <= n < lines.len(),
    ensures
        target_positions(lines.take(n + 1), marker) == if is_target_line(lines[n], marker) {
            target_positions(lines.take(n), marker).push(n)
        } else {
            target_positions(lines.take(n), marker)
        },
{
    assert(lines.take(n + 1).drop_last() =~= lines.take(n));
    assert(lines.take(n + 1).last() == lines[n]);
}

/// The target positions of the first `n` lines open those of all the lines.
pub proof fn lemma_target_positions_prefix(lines: Seq<Seq<char>>, marker: Seq<char>, n: int)
    requires
        0 <= n <= lines.len(),
    ensures
        target_positions(lines.take(n), marker).len() <= target_positions(lines, marker).len(),
        target_positions(lines.take(n), marker) == target_positions(lines, marker).take(
            target_positions(lines.take(n), marker).len() as int,
        ),
    decreases lines.len() - n,
{
    if n == lines.len() {
        assert(lines.take(n) =~= lines);
        assert(target_positions(lines, marker).take(target_positions(lines, marker).len() as int)
            =~= target_positions(lines, marker));
    } else {
        lemma_target_positions_step(lines, marker, n);
        lemma_target_positions_prefix(lines, marker, n + 1);
        let all = target_positions(lines, marker);
        let next = target_positions(lines.take(n + 1), marker);
        let here = target_positions(lines.take(n), marker);
        assert(here =~= all.take(here.len() as int)) by {
            assert(next == all.take(next.len() as int));
            assert forall|k: int| 0 <= k < here.len() implies here[k] == all[k] by {
                assert(here[k] == next[k]);
                assert(next[k] == all.take(next.len() as int)[k]);
            }
        }
    }
}

/// A target line stands among the target positions at its rank: the number
/// of target lines before it.
pub proof fn lemma_target_rank(lines: Seq<Seq<char>>, marker: Seq<char>, i: int)
    requires
        0 <= i < lines.len(),
        is_target_line(lines[i], marker),
    ensures
        target_positions(lines.take(i), marker).len() < target_positions(lines, marker).len(),
        target_positions(lines, marker)[target_positions(lines.take(i), marker).len() as int] == i,
{
    lemma_target_positions_step(lines, marker, i);
    lemma_target_positions_prefix(lines, marker, i + 1);
    let next = target_positions(lines.take(i + 1), marker);
    let all = target_positions(lines, marker);
    let rank = target_positions(lines.take(i), marker).len() as int;
    assert(next[rank] == i);
    assert(next[rank] == all.take(next.len() as int)[rank]);
}

/// White space followed by the marker, or by a list item's dash and blank
/// and the marker, makes a target line, whatever stands after the marker.
pub proof fn lemma_marker_after_whitespace(indent: Seq<char>, rest: Seq<char>, marker: Seq<char>)
    requires
        all_whitespace(indent),
        marker.len() > 0,
        !is_whitespace(marker[0]),
    ensures
        is_target_line(indent + marker + rest, marker),
        is_target_line(indent + list_item(marker) + rest, marker),
{
    let n = indent.len() as int;
    let plain = indent + marker + rest;
    assert(plain[n] == marker[0]);
    assert forall|j: int| 0 <= j < n implies is_whitespace(#[trigger] plain[j]) by {
        assert(plain[j] == indent[j]);
    }
    lemma_leading_whitespace_is(plain, n);
    assert(plain.skip(n).subrange(0, marker.len() as int) =~= marker);

    let item = indent + list_item(marker) + rest;
    assert(item[n] == '-');
    assert forall|j: int| 0 <= j < n implies is_whitespace(#[trigger] item[j]) by {
        assert(item[j] == indent[j]);
    }
    lemma_leading_whitespace_is(item, n);
    assert(item.skip(n).subrange(0, list_item(marker).len() as int) =~= list_item(marker));
}

/// A line whose first character after the opening white space is neither
/// the marker's first character nor a dash is no target line; nor is a line
/// of white space only.
pub proof fn lemma_other_opening_is_no_target(line: Seq<char>, marker: Seq<char>)
    requires
        marker.len() > 0,
        trim_start(line).len() > 0 ==> trim_start(line)[0] != marker[0] && trim_start(line)[0]
            != '-',
    ensures
        !is_target_line(line, marker),
{
    let t = trim_start(line);
    if starts_with(t, marker) {
        assert(t.subrange(0, marker.len() as int)[0] == marker[0]);
    }
    if starts_with(t, list_item(marker)) {
        assert(t.subrange(0, list_item(marker).len() as int)[0] == list_item(marker)[0]);
    }
}

/// The marker `uses:`.
pub fn uses_marker() -> (marker: Vec<char>)
    ensures
        marker@ == uses_keyword(),
        valid_marker(marker@),
{
    let mut marker: Vec<char> = Vec::new();
    marker.push('u');
    marker.push('s');
    marker.push('e');
    marker.push('s');
    marker.push(':');
    assert(marker@ =~= uses_keyword());
    marker
}

/// A dash, a blank and the marker.
pub fn list_item_marker(marker: &Vec<char>) -> (item: Vec<char>)
    ensures
        item@ == list_item(marker@),
{
    let mut item: Vec<char> = Vec::new();
    item.push('-');
    item.push(' ');
    append_chars(&mut item, marker);
    assert(item@ =~= list_item(marker@));
    item
}

/// Tests whether `line` is a target line for `marker`.
pub fn line_is_target(line: &Vec<char>, marker: &Vec<char>) -> (r: bool)
    ensures
        r == is_target_line(line@, marker@),
{
    let n = count_leading_whitespace(line);
    let item = list_item_marker(marker);
    proof {
        lemma_occurs_at_skip(line@, marker@, n as int, 0);
        lemma_occurs_at_skip(line@, item@, n as int, 0);
    }
    matches_at(line, marker, n) || matches_at(line, &item, n)
}

/// The target lines among `lines`, in order, each with its position.
pub fn extract_target_lines(lines: &Vec<Vec<char>>, marker: &Vec<char>) -> (targets: Vec<
    TargetLine,
>)
    ensures
        targets_of(targets@, lines_view(lines@), marker@),
{
    let mut targets: Vec<TargetLine> = Vec::new();
    let mut i: usize = 0;
    let ghost all = lines_view(lines@);
    proof {
        assert(all.take(0) =~= Seq::<Seq<char>>::empty());
    }
    while i < lines.len()
        invariant
            i <= lines.len(),
            all == lines_view(lines@),
            targets_of(targets@, all.take(i as int), marker@),
        decreases lines.len() - i,
    {
        proof {
            lemma_target_positions_step(all, marker@, i as int);
        }
        let ghost before = targets@;
        let ghost here = target_positions(all.take(i as int), marker@);
        if line_is_target(&lines[i], marker) {
            let content = copy_range(&lines[i], 0, lines[i].len());
            proof {
                assert(content@ =~= lines@[i as int]@);
            }
            targets.push(TargetLine { index: i, content });
            proof {
                let next = here.push(i as int);
                assert forall|k: int| 0 <= k < targets@.len() implies (#[trigger] targets@[k]).index
                    == next[k] && targets@[k].content@ == all.take(i + 1)[next[k]] by {
                    if k < before.len() {
                        assert(targets@[k] == before[k]);
                        assert(next[k] == here[k]);
                        lemma_target_positions_rise(all.take(i as int), marker@);
                        assert(all.take(i as int)[here[k]] == all.take(i + 1)[here[k]]);
                    }
                }
            }
        } else {
            proof {
                assert forall|k: int| 0 <= k < targets@.len() implies (#[trigger] targets@[k]).index
                    == here[k] && targets@[k].content@ == all.take(i + 1)[here[k]] by {
                    lemma_target_positions_rise(all.take(i as int), marker@);
                    assert(all.take(i as int)[here[k]] == all.take(i + 1)[here[k]]);
                }
            }
        }
        i += 1;
    }
    proof {
        assert(all.take(lines.len() as int) =~= all);
    }
    targets
}

/// Pairs the target lines of the base text with those of the modified text
/// by rank. Entries of the longer list beyond the length of the shorter are
/// left out.
pub fn match_by_position(base: &Vec<TargetLine>, modified: &Vec<TargetLine>) -> (pairs: Vec<
    Correspondence,
>)
    ensures
        paired_by_rank(pairs@, base@, modified@),
{
    let count: usize = if base.len() <= modified.len() {
        base.len()
    } else {
        modified.len()
    };
    let mut pairs: Vec<Correspondence> = Vec::new();
    let mut k: usize = 0;
    while k < count
        invariant
            k <= count,
            count <= base.len(),
            count <= modified.len(),
            pairs.len() == k,
            forall|j: int|
                0 <= j < k ==> (#[trigger] pairs@[j]).base_index == base@[j].index
                    && pairs@[j].base_line@ == base@[j].content@ && pairs@[j].modified_line@
                    == modified@[j].content@,
        decreases count - k,
    {
        let base_line = copy_range(&base[k].content, 0, base[k].content.len());
        let modified_line = copy_range(&modified[k].content, 0, modified[k].content.len());
        proof {
            assert(base_line@ =~= base@[k as int].content@);
            assert(modified_line@ =~= modified@[k as int].content@);
        }
        pairs.push(Correspondence { base_index: base[k].index, base_line, modified_line });
        k += 1;
    }
    pairs
}

} // verus!
