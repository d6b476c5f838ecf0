//! An advisory scan of a rebuilt text for two signs of a broken structure.
//!
//! The scan reads the text line by line, by indentation alone. A line holds a
//! key if, behind its indentation and a list item's dash, it begins with a
//! word of letters, digits, `_` and `-` that a colon closes. Two things are
//! reported:
//!
//! - a repeated key: a key that stands again at the same column with no less
//!   indented line in between, so that both belong to one record;
//! - an orphaned property: a key line whose owner, the nearest less indented
//!   line above it, is a key line that already holds a value of its own.
//!
//! The scan knows nothing of blocks of literal text: the lines of a script
//! are read like any others. It only reports. Whether a finding stops
//! anything is for the caller to decide.

use crate::lines::{lines_view, text_lines, read_lines};
use crate::text::{
    char_is_whitespace,
    copy_range,
    count_leading_whitespace,
    is_whitespace,
    leading_whitespace,
    lemma_leading_whitespace_bounds,
    lemma_leading_whitespace_is,
    matches_at,
    starts_with,
    trim_start,
};
use vstd::prelude::*;

verus! {

/// What the scan can find.
#[derive(Clone, Copy, Debug, PartialEq, Eq, Structural)]
pub enum AnomalyKind {
    /// A key stands twice in one record.
    DuplicateKey,
    /// A property hangs below a key that holds a value of its own.
    OrphanedProperty,
}

/// A finding: the position of the line, from 0, and what was found there.
#[derive(Clone, Copy, Debug, PartialEq, Eq, Structural)]
pub struct Anomaly {
    pub line: usize,
    pub kind: AnomalyKind,
}

/// Whether `c` may stand in a key: a letter or digit of ASCII, `_` or `-`.
pub open spec fn is_key_char(c: char) -> bool {
    ('a' <= c && c <= 'z') || ('A' <= c && c <= 'Z') || ('0' <= c && c <= '9') || c == '_' || c
        == '-'
}

/// The number of key characters that open `s`.
pub open spec fn leading_key_chars(s: Seq<char>) -> nat
    decreases s.len(),
{
    if s.len() > 0 && is_key_char(s[0]) {
        1 + leading_key_chars(s.drop_first())
    } else {
        0
    }
}

/// Whether the scan passes over `line`: it is blank or a comment.
pub open spec fn is_skipped(line: Seq<char>) -> bool {
    trim_start(line).len() == 0 || trim_start(line)[0] == '#'
}

/// Whether `line` opens a list item: behind its indentation stand a dash and
/// a blank.
pub open spec fn opens_item(line: Seq<char>) -> bool {
    starts_with(trim_start(line), seq!['-', ' '])
}

/// The column at which the key of `line` begins, if it holds one: behind
/// the indentation, and behind the dash of a list item and the white space
/// that follows it.
pub open spec fn key_column(line: Seq<char>) -> int {
    let indent = leading_whitespace(line) as int;
    if opens_item(line) {
        indent + 2 + leading_whitespace(line.skip(indent + 2))
    } else {
        indent
    }
}

/// The column behind the last key character from `key_column` on.
pub open spec fn key_end(line: Seq<char>) -> int {
    key_column(line) + leading_key_chars(line.skip(key_column(line)))
}

/// Whether `line` holds a key: at least one key character, then a colon,
/// then white space or the end of the line.
pub open spec fn has_key(line: Seq<char>) -> bool {
    let end = key_end(line);
    &&& key_column(line) < end
    &&& end < line.len()
    &&& line[end] == ':'
    &&& (end + 1 == line.len() || is_whitespace(line[end + 1]))
}

/// The key of `line`.
pub open spec fn key_text(line: Seq<char>) -> Seq<char> {
    line.subrange(key_column(line), key_end(line))
}

/// What stands behind the colon of the key, without the white space that
/// opens it.
pub open spec fn value_text(line: Seq<char>) -> Seq<char> {
    trim_start(line.skip(key_end(line) + 1))
}

/// Whether `line` holds a key with a value of its own on the same line. A
/// comment is no value, and neither is the sign of a block that follows
/// (`|` or `>`).
pub open spec fn holds_scalar(line: Seq<char>) -> bool {
    &&& has_key(line)
    &&& value_text(line).len() > 0
    &&& value_text(line)[0] != '#'
    &&& value_text(line)[0] != '|'
    &&& value_text(line)[0] != '>'
}

/// Whether two lines hold the same key at the same column.
pub open spec fn same_key(first: Seq<char>, second: Seq<char>) -> bool {
    &&& has_key(first)
    &&& has_key(second)
    &&& key_column(first) == key_column(second)
    &&& key_text(first) == key_text(second)
}

/// Whether no line behind `from`, up to and including `to`, is indented less
/// than `column`; lines that the scan passes over do not count.
pub open spec fn stays_inside(lines: Seq<Seq<char>>, from: int, to: int, column: int) -> bool {
    forall|m: int|
        from < m <= to ==> is_skipped(#[trigger] lines[m]) || leading_whitespace(lines[m])
            >= column
}

/// Whether line `first` holds the key of line `second` in the same record.
pub open spec fn repeats(lines: Seq<Seq<char>>, first: int, second: int) -> bool {
    &&& 0 <= first < second
    &&& same_key(lines[first], lines[second])
    &&& stays_inside(lines, first, second, key_column(lines[second]))
}

/// Whether the key of line `i` stands already in the same record.
pub open spec fn is_duplicate_key(lines: Seq<Seq<char>>, i: int) -> bool {
    exists|j: int| #[trigger] repeats(lines, j, i)
}

/// Whether line `owner` is the nearest line above line `i` that is indented
/// less.
pub open spec fn owns(lines: Seq<Seq<char>>, owner: int, i: int) -> bool {
    &&& 0 <= owner < i
    &&& !is_skipped(lines[owner])
    &&& leading_whitespace(lines[owner]) < leading_whitespace(lines[i])
    &&& stays_inside(lines, owner, i - 1, leading_whitespace(lines[i]) as int)
}

/// Whether line `i` is an orphaned property: it holds a key, and its owner
/// holds a key with a value of its own, at another column than line `i`
/// begins at.
pub open spec fn is_orphaned(lines: Seq<Seq<char>>, i: int) -> bool {
    has_key(lines[i]) && exists|j: int|
        #[trigger] owns(lines, j, i) && holds_scalar(lines[j]) && key_column(lines[j])
            != leading_whitespace(lines[i])
}

/// The findings in the first `count` lines, by line; on one line a repeated
/// key comes before an orphaned property.
pub open spec fn anomalies_in(lines: Seq<Seq<char>>, count: int) -> Seq<Anomaly>
    decreases count,
{
    if count <= 0 {
        Seq::<Anomaly>::empty()
    } else {
        let before = anomalies_in(lines, count - 1);
        let i = count - 1;
        let repeated = if is_duplicate_key(lines, i) {
            before.push(Anomaly { line: i as usize, kind: AnomalyKind::DuplicateKey })
        } else {
            before
        };
        if is_orphaned(lines, i) {
            repeated.push(Anomaly { line: i as usize, kind: AnomalyKind::OrphanedProperty })
        } else {
            repeated
        }
    }
}

/// The findings in a text.
pub open spec fn anomalies_of(text: Seq<char>) -> Seq<Anomaly> {
    anomalies_in(text_lines(text), text_lines(text).len() as int)
}

/// What the scan keeps of a line.
pub struct LineShape {
    pub skipped: bool,
    pub indent: usize,
    pub has_key: bool,
    pub key_column: usize,
    pub key: Vec<char>,
    pub holds_scalar: bool,
}

/// Whether `shape` is what the scan keeps of `line`.
pub open spec fn describes(shape: LineShape, line: Seq<char>) -> bool {
    &&& shape.skipped == is_skipped(line)
    &&& shape.indent == leading_whitespace(line)
    &&& shape.has_key == has_key(line)
    &&& shape.has_key ==> shape.key_column == key_column(line) && shape.key@ == key_text(line)
    &&& shape.holds_scalar == holds_scalar(line)
}

/// The key characters that open `s` are `n` when the first `n` characters
/// are key characters and the next one, if there is one, is not.
pub proof fn lemma_leading_key_chars_is(s: Seq<char>, n: int)
    requires
        0 <= n <= s.len(),
        forall|j: int| 0 <= j < n ==> is_key_char(#[trigger] s[j]),
        n < s.len() ==> !is_key_char(s[n]),
    ensures
        leading_key_chars(s) == n,
    decreases n,
{
    if n > 0 {
        let t = s.drop_first();
        assert(is_key_char(s[0]));
        assert forall|j: int| 0 <= j < n - 1 implies is_key_char(#[trigger] t[j]) by {
            assert(t[j] == s[j + 1]);
        }
        if n - 1 < t.len() {
            assert(t[n - 1] == s[n]);
        }
        lemma_leading_key_chars_is(t, n - 1);
    }
}

/// Tests whether a character may stand in a key.
pub fn char_is_key_char(c: char) -> (r: bool)
    ensures
        r == is_key_char(c),
{
    ('a' <= c && c <= 'z') || ('A' <= c && c <= 'Z') || ('0' <= c && c <= '9') || c == '_' || c
        == '-'
}

/// The length of the white-space run in `line` from `from` on.
fn whitespace_run(line: &Vec<char>, from: usize) -> (n: usize)
    requires
        from <= line.len(),
    ensures
        n == leading_whitespace(line@.skip(from as int)),
        from + n <= line.len(),
{
    let mut end: usize = from;
    while end < line.len() && char_is_whitespace(line[end])
        invariant
            from <= end <= line.len(),
            forall|j: int| from <= j < end ==> is_whitespace(#[trigger] line@[j]),
        decreases line.len() - end,
    {
        end += 1;
    }
    proof {
        let t = line@.skip(from as int);
        assert forall|j: int| 0 <= j < end - from implies is_whitespace(#[trigger] t[j]) by {
            assert(t[j] == line@[from + j]);
        }
        lemma_leading_whitespace_is(t, end - from);
    }
    end - from
}

/// What the scan keeps of `line`.
pub fn shape_of_line(line: &Vec<char>) -> (shape: LineShape)
    ensures
        describes(shape, line@),
{
    let indent = count_leading_whitespace(line);
    let skipped = indent == line.len() || line[indent] == '#';
    proof {
        if indent < line.len() {
            assert(trim_start(line@)[0] == line@[indent as int]);
        }
    }
    let item = indent < line.len() && line.len() - indent >= 2 && line[indent] == '-' && line[indent
        + 1] == ' ';
    proof {
        let t = trim_start(line@);
        let dash = seq!['-', ' '];
        if item {
            assert(t.subrange(0, 2) =~= dash);
        } else if starts_with(t, dash) {
            assert(t.subrange(0, 2)[0] == dash[0]);
            assert(t.subrange(0, 2)[1] == dash[1]);
        }
        assert(item == opens_item(line@));
    }
    let column: usize = if item {
        let more = whitespace_run(line, indent + 2);
        indent + 2 + more
    } else {
        indent
    };
    let mut end: usize = column;
    while end < line.len() && char_is_key_char(line[end])
        invariant
            column <= end <= line.len(),
            forall|j: int| column <= j < end ==> is_key_char(#[trigger] line@[j]),
        decreases line.len() - end,
    {
        end += 1;
    }
    proof {
        let t = line@.skip(column as int);
        assert forall|j: int| 0 <= j < end - column implies is_key_char(#[trigger] t[j]) by {
            assert(t[j] == line@[column + j]);
        }
        if end < line.len() {
            assert(t[end - column] == line@[end as int]);
        }
        lemma_leading_key_chars_is(t, end - column);
        assert(key_end(line@) == end);
    }
    let keyed = column < end && end < line.len() && line[end] == ':' && (end + 1 == line.len()
        || char_is_whitespace(line[end + 1]));
    if !keyed {
        return LineShape {
            skipped,
            indent,
            has_key: false,
            key_column: column,
            key: Vec::new(),
            holds_scalar: false,
        };
    }
    let key = copy_range(line, column, end);
    let gap = whitespace_run(line, end + 1);
    let value_at: usize = end + 1 + gap;
    proof {
        let behind = line@.skip(end + 1);
        assert(value_text(line@) =~= line@.skip(value_at as int));
        if value_at < line.len() {
            assert(value_text(line@)[0] == line@[value_at as int]);
        }
    }
    let scalar = value_at < line.len() && line[value_at] != '#' && line[value_at] != '|'
        && line[value_at] != '>';
    LineShape { skipped, indent, has_key: true, key_column: column, key, holds_scalar: scalar }
}

/// Tests whether two character vectors hold the same characters.
fn same_chars(first: &Vec<char>, second: &Vec<char>) -> (r: bool)
    ensures
        r == (first@ == second@),
{
    if first.len() != second.len() {
        return false;
    }
    let r = matches_at(first, second, 0);
    proof {
        assert(first@.subrange(0, second@.len() as int) =~= first@);
    }
    r
}

/// Tests whether the key of line `i` stands already in the same record.
fn repeats_a_key(shapes: &Vec<LineShape>, i: usize, Ghost(lines): Ghost<Seq<Seq<char>>>) -> (r:
    bool)
    requires
        i < shapes.len(),
        shapes.len() == lines.len(),
        forall|k: int| 0 <= k < shapes.len() ==> describes(#[trigger] shapes@[k], lines[k]),
    ensures
        r == is_duplicate_key(lines, i as int),
{
    if !shapes[i].has_key {
        assert forall|j: int| !#[trigger] repeats(lines, j, i as int) by {}
        return false;
    }
    let column = shapes[i].key_column;
    if shapes[i].indent < column {
        // A list item opens a record of its own.
        assert forall|j: int| !#[trigger] repeats(lines, j, i as int) by {
            lemma_keyed_line_is_not_skipped(lines[i as int]);
            if repeats(lines, j, i as int) {
                assert(is_skipped(lines[i as int]) || leading_whitespace(lines[i as int])
                    >= column);
            }
        }
        return false;
    }
    let mut m: usize = i;
    while m > 0
        invariant
            m <= i,
            i < shapes.len(),
            shapes.len() == lines.len(),
            forall|k: int| 0 <= k < shapes.len() ==> describes(#[trigger] shapes@[k], lines[k]),
            shapes@[i as int].has_key,
            column == key_column(lines[i as int]),
            stays_inside(lines, m as int - 1, i as int, column as int),
            forall|j: int| m <= j < i ==> !#[trigger] repeats(lines, j, i as int),
        decreases m,
    {
        m -= 1;
        let shape = &shapes[m];
        if shape.has_key && shape.key_column == column && same_chars(&shape.key, &shapes[i].key) {
            assert(repeats(lines, m as int, i as int));
            return true;
        }
        assert(!repeats(lines, m as int, i as int));
        if !shape.skipped && shape.indent < column {
            assert forall|j: int| !#[trigger] repeats(lines, j, i as int) by {
                if repeats(lines, j, i as int) && j < m {
                    assert(is_skipped(lines[m as int]) || leading_whitespace(lines[m as int])
                        >= column);
                }
            }
            return false;
        }
    }
    assert forall|j: int| !#[trigger] repeats(lines, j, i as int) by {}
    false
}

/// A line that holds a key is neither blank nor a comment.
pub proof fn lemma_keyed_line_is_not_skipped(line: Seq<char>)
    requires
        has_key(line),
    ensures
        !is_skipped(line),
{
    let indent = leading_whitespace(line) as int;
    lemma_leading_whitespace_bounds(line);
    let t = trim_start(line);
    assert(indent < line.len());
    assert(t[0] == line[indent]);
    if !opens_item(line) {
        let region = line.skip(key_column(line));
        assert(leading_key_chars(region) > 0);
        assert(is_key_char(region[0]));
    } else {
        assert(t.subrange(0, 2)[0] == seq!['-', ' '][0]);
    }
}

/// Tests whether line `i` is an orphaned property.
fn hangs_below_a_value(shapes: &Vec<LineShape>, i: usize, Ghost(lines): Ghost<Seq<Seq<char>>>) -> (r:
    bool)
    requires
        i < shapes.len(),
        shapes.len() == lines.len(),
        forall|k: int| 0 <= k < shapes.len() ==> describes(#[trigger] shapes@[k], lines[k]),
    ensures
        r == is_orphaned(lines, i as int),
{
    if !shapes[i].has_key {
        return false;
    }
    let indent = shapes[i].indent;
    let mut m: usize = i;
    while m > 0
        invariant
            m <= i,
            i < shapes.len(),
            shapes.len() == lines.len(),
            forall|k: int| 0 <= k < shapes.len() ==> describes(#[trigger] shapes@[k], lines[k]),
            shapes@[i as int].has_key,
            indent == leading_whitespace(lines[i as int]),
            stays_inside(lines, m as int - 1, i as int - 1, indent as int),
            forall|j: int| m <= j < i ==> !#[trigger] owns(lines, j, i as int),
        decreases m,
    {
        m -= 1;
        let shape = &shapes[m];
        if !shape.skipped && shape.indent < indent {
            assert(owns(lines, m as int, i as int));
            assert forall|j: int| j != m implies !#[trigger] owns(lines, j, i as int) by {
                if owns(lines, j, i as int) && j < m {
                    assert(is_skipped(lines[m as int]) || leading_whitespace(lines[m as int])
                        >= indent);
                }
            }
            return shape.holds_scalar && shape.key_column != indent;
        }
        assert(!owns(lines, m as int, i as int));
    }
    assert forall|j: int| !#[trigger] owns(lines, j, i as int) by {}
    false
}

/// Scans a text and gives the findings, by line.
pub fn scan_text(text: &Vec<char>) -> (found: Vec<Anomaly>)
    ensures
        found@ == anomalies_of(text@),
{
    let lines = read_lines(text);
    let ghost all = text_lines(text@);
    let mut shapes: Vec<LineShape> = Vec::new();
    let mut k: usize = 0;
    while k < lines.len()
        invariant
            k <= lines.len(),
            all == lines_view(lines@),
            shapes.len() == k,
            forall|j: int| 0 <= j < k ==> describes(#[trigger] shapes@[j], all[j]),
        decreases lines.len() - k,
    {
        let shape = shape_of_line(&lines[k]);
        shapes.push(shape);
        k += 1;
    }
    let mut found: Vec<Anomaly> = Vec::new();
    let mut i: usize = 0;
    while i < shapes.len()
        invariant
            i <= shapes.len(),
            shapes.len() == all.len(),
            forall|j: int| 0 <= j < shapes.len() ==> describes(#[trigger] shapes@[j], all[j]),
            found@ == anomalies_in(all, i as int),
        decreases shapes.len() - i,
    {
        if repeats_a_key(&shapes, i, Ghost(all)) {
            found.push(Anomaly { line: i, kind: AnomalyKind::DuplicateKey });
        }
        if hangs_below_a_value(&shapes, i, Ghost(all)) {
            found.push(Anomaly { line: i, kind: AnomalyKind::OrphanedProperty });
        }
        i += 1;
    }
    found
}

} // verus!
