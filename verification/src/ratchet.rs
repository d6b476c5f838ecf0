//! The comments that the pinning tool leaves behind, cut down to the version.
//!
//! The tool writes `# ratchet:owner/name@version` behind each reference that it
//! pins. Cleaning replaces such a comment by `# version`, with a `v` put
//! before a version that does not begin with one.

use crate::lines::{
    ends_with_newline,
    lemma_split_is_document,
    lemma_split_render,
    lemma_text_lines_shape,
    lines_view,
    no_newline,
    raw_lines,
    render,
    render_text,
    text_lines,
    read_lines,
};
use crate::text::{
    append_chars,
    chars_to_string,
    copy_range,
    count_leading_whitespace,
    char_is_whitespace,
    find,
    first_occurrence,
    is_whitespace,
    lemma_first_occurrence_from,
    str_to_chars,
    trim_start,
};
use vstd::prelude::*;

verus! {

/// What opens a comment of the pinning tool: `# ratchet:`.
pub open spec fn comment_opening() -> Seq<char> {
    seq!['#', ' ', 'r', 'a', 't', 'c', 'h', 'e', 't', ':']
}

/// The number of characters other than white space that open `s`.
pub open spec fn leading_word(s: Seq<char>) -> nat
    decreases s.len(),
{
    if s.len() > 0 && !is_whitespace(s[0]) {
        1 + leading_word(s.drop_first())
    } else {
        0
    }
}

/// The first word of `s`: what stands between the white space that opens `s`
/// and the next white space. It is empty where `s` holds white space only.
pub open spec fn first_word(s: Seq<char>) -> Seq<char> {
    trim_start(s).take(leading_word(trim_start(s)) as int)
}

/// The comment that replaces the tool's: `# `, then the version, with a `v`
/// before it unless it begins with one.
pub open spec fn version_comment(version: Seq<char>) -> Seq<char> {
    if version.len() > 0 && version[0] == 'v' {
        seq!['#', ' '] + version
    } else {
        seq!['#', ' ', 'v'] + version
    }
}

/// The version that the first comment of the tool in `line` names: the first
/// word behind the first `@` of the comment. `None` where the line holds no
/// such comment, the comment no `@`, or nothing but white space follows it.
pub open spec fn pinned_version(line: Seq<char>) -> Option<Seq<char>> {
    match first_occurrence(line, comment_opening()) {
        None => None,
        Some(at) => {
            let comment = line.skip(at + comment_opening().len());
            match first_occurrence(comment, seq!['@']) {
                None => None,
                Some(sign) => {
                    let version = first_word(comment.skip(sign + 1));
                    if version.len() == 0 {
                        None
                    } else {
                        Some(version)
                    }
                },
            }
        },
    }
}

/// The line with the tool's comment cut down to the version. What stands
/// before the comment stays; what stands behind the version goes. A line
/// that names no version stays as it is.
pub open spec fn cleaned_line(line: Seq<char>) -> Seq<char> {
    match pinned_version(line) {
        None => line,
        Some(version) => line.take(first_occurrence(line, comment_opening())->0)
            + version_comment(version),
    }
}

/// The lines, each one cleaned.
pub open spec fn cleaned_lines(lines: Seq<Seq<char>>) -> Seq<Seq<char>> {
    Seq::new(lines.len(), |i: int| cleaned_line(lines[i]))
}

/// The text with every text line cleaned. The lines are joined by line
/// feeds alone: a carriage return that closed a line with its line feed is
/// not kept, on a cleaned line as on any other. A line feed closes the
/// cleaned text exactly if it closes the text.
pub open spec fn cleaned_text(content: Seq<char>) -> Seq<char> {
    render(cleaned_lines(text_lines(content)), ends_with_newline(content))
}

/// The word that opens `s` has length `n` when the first `n` characters are
/// no white space and the next one, if there is one, is.
pub proof fn lemma_leading_word_is(s: Seq<char>, n: int)
    requires
        0 <= n <= s.len(),
        forall|j: int| 0 <= j < n ==> !is_whitespace(#[trigger] s[j]),
        n < s.len() ==> is_whitespace(s[n]),
    ensures
        leading_word(s) == n,
    decreases n,
{
    if n > 0 {
        let t = s.drop_first();
        assert(!is_whitespace(s[0]));
        assert forall|j: int| 0 <= j < n - 1 implies !is_whitespace(#[trigger] t[j]) by {
            assert(t[j] == s[j + 1]);
        }
        if n - 1 < t.len() {
            assert(t[n - 1] == s[n]);
        }
        lemma_leading_word_is(t, n - 1);
    }
}

/// The word that opens `s` ends inside `s` and holds no white space.
pub proof fn lemma_leading_word_bounds(s: Seq<char>)
    ensures
        leading_word(s) <= s.len(),
        forall|j: int| 0 <= j < leading_word(s) ==> !is_whitespace(#[trigger] s[j]),
    decreases s.len(),
{
    if s.len() > 0 && !is_whitespace(s[0]) {
        let t = s.drop_first();
        lemma_leading_word_bounds(t);
        assert forall|j: int| 0 <= j < leading_word(s) implies !is_whitespace(#[trigger] s[j]) by {
            if j > 0 {
                assert(s[j] == t[j - 1]);
            }
        }
    }
}

/// A cleaned line is a line: it holds no line feed if the line holds none,
/// and it is empty only if the line is.
pub proof fn lemma_cleaned_line_is_line(line: Seq<char>)
    requires
        no_newline(line),
    ensures
        no_newline(cleaned_line(line)),
        line.len() > 0 ==> cleaned_line(line).len() > 0,
{
    match pinned_version(line) {
        None => {},
        Some(version) => {
            let at = first_occurrence(line, comment_opening())->0;
            lemma_first_occurrence_from(line, comment_opening(), 0);
            let comment = line.skip(at + comment_opening().len());
            let sign = first_occurrence(comment, seq!['@'])->0;
            lemma_first_occurrence_from(comment, seq!['@'], 0);
            let behind = trim_start(comment.skip(sign + 1));
            lemma_leading_word_bounds(behind);
            assert(version == behind.take(leading_word(behind) as int));
            let replaced = version_comment(version);
            let cleaned = cleaned_line(line);
            assert forall|j: int| 0 <= j < version.len() implies #[trigger] version[j] != '\n' by {
                assert(version[j] == behind[j]);
                assert(!is_whitespace(behind[j]));
            }
            assert forall|j: int| 0 <= j < cleaned.len() implies #[trigger] cleaned[j] != '\n' by {
                if j < at {
                    assert(cleaned[j] == line[j]);
                } else {
                    let k = j - at;
                    assert(cleaned[j] == replaced[k]);
                    if version[0] == 'v' {
                        if k >= 2 {
                            assert(replaced[k] == version[k - 2]);
                        }
                    } else {
                        if k >= 3 {
                            assert(replaced[k] == version[k - 3]);
                        }
                    }
                }
            }
        },
    }
}

/// The raw lines of the cleaned text are the cleaned text lines: as many as
/// the text has. The cleaned text is closed by a line feed exactly if the
/// text is.
pub proof fn lemma_cleaned_text_lines(content: Seq<char>)
    ensures
        raw_lines(cleaned_text(content)) == cleaned_lines(text_lines(content)),
        raw_lines(cleaned_text(content)).len() == raw_lines(content).len(),
        ends_with_newline(cleaned_text(content)) == ends_with_newline(content),
{
    let lines = text_lines(content);
    let cleaned = cleaned_lines(lines);
    lemma_split_is_document(content);
    lemma_text_lines_shape(content);
    assert forall|i: int| 0 <= i < cleaned.len() implies no_newline(#[trigger] cleaned[i]) by {
        assert(no_newline(lines[i]));
        lemma_cleaned_line_is_line(lines[i]);
    }
    if lines.len() > 0 {
        assert(no_newline(lines[lines.len() - 1]));
        lemma_cleaned_line_is_line(lines.last());
        assert(cleaned.last() == cleaned_line(lines.last()));
    }
    lemma_split_render(cleaned, ends_with_newline(content));
}

/// The characters `# ratchet:`.
pub fn comment_opening_chars() -> (opening: Vec<char>)
    ensures
        opening@ == comment_opening(),
{
    let mut opening: Vec<char> = Vec::new();
    opening.push('#');
    opening.push(' ');
    opening.push('r');
    opening.push('a');
    opening.push('t');
    opening.push('c');
    opening.push('h');
    opening.push('e');
    opening.push('t');
    opening.push(':');
    assert(opening@ =~= comment_opening());
    opening
}

/// The first word of `s`.
pub fn take_first_word(s: &Vec<char>) -> (word: Vec<char>)
    ensures
        word@ == first_word(s@),
{
    let start = count_leading_whitespace(s);
    let mut end: usize = start;
    while end < s.len() && !char_is_whitespace(s[end])
        invariant
            start <= end <= s.len(),
            forall|j: int| start <= j < end ==> !is_whitespace(#[trigger] s@[j]),
        decreases s.len() - end,
    {
        end += 1;
    }
    proof {
        let t = s@.skip(start as int);
        assert forall|j: int| 0 <= j < end - start implies !is_whitespace(#[trigger] t[j]) by {
            assert(t[j] == s@[start + j]);
        }
        lemma_leading_word_is(t, end - start);
        assert(t.take(end - start) =~= s@.subrange(start as int, end as int));
    }
    copy_range(s, start, end)
}

/// Cuts the tool's comment in `line` down to the version.
pub fn clean_line(line: &Vec<char>) -> (cleaned: Vec<char>)
    ensures
        cleaned@ == cleaned_line(line@),
{
    let opening = comment_opening_chars();
    proof {
        lemma_first_occurrence_from(line@, opening@, 0);
    }
    let at: usize = match find(line, &opening) {
        Some(at) => at,
        None => {
            let same = copy_range(line, 0, line.len());
            assert(same@ =~= line@);
            return same;
        },
    };
    assert(at + opening.len() <= line.len());
    let comment = copy_range(line, at + opening.len(), line.len());
    let mut sign_pattern: Vec<char> = Vec::new();
    sign_pattern.push('@');
    proof {
        assert(sign_pattern@ =~= seq!['@']);
        assert(comment@ =~= line@.skip(at + comment_opening().len()));
        lemma_first_occurrence_from(comment@, sign_pattern@, 0);
    }
    let sign: usize = match find(&comment, &sign_pattern) {
        Some(sign) => sign,
        None => {
            let same = copy_range(line, 0, line.len());
            assert(same@ =~= line@);
            return same;
        },
    };
    assert(sign < comment.len());
    let behind = copy_range(&comment, sign + 1, comment.len());
    proof {
        assert(behind@ =~= comment@.skip(sign + 1));
    }
    let version = take_first_word(&behind);
    if version.len() == 0 {
        let same = copy_range(line, 0, line.len());
        assert(same@ =~= line@);
        return same;
    }
    let mut cleaned = copy_range(line, 0, at);
    cleaned.push('#');
    cleaned.push(' ');
    if version[0] != 'v' {
        cleaned.push('v');
    }
    append_chars(&mut cleaned, &version);
    proof {
        assert(cleaned@ =~= line@.take(at as int) + version_comment(version@));
    }
    cleaned
}

/// Cuts every comment of the pinning tool in `content` down to the version.
/// The text is read as text lines, closed by a line feed or by a carriage
/// return and a line feed, and written with line feeds alone: no line keeps
/// a carriage return that closed it. The lines stay as many as they were,
/// and the text is closed by a line feed exactly if `content` is.
pub fn clean_ratchet_comments(content: &str) -> (cleaned: String)
    ensures
        cleaned@ == cleaned_text(content@),
        raw_lines(cleaned@).len() == raw_lines(content@).len(),
        ends_with_newline(cleaned@) == ends_with_newline(content@),
{
    proof {
        lemma_cleaned_text_lines(content@);
    }
    let chars = str_to_chars(content);
    let lines = read_lines(&chars);
    let mut result: Vec<Vec<char>> = Vec::new();
    let mut i: usize = 0;
    while i < lines.len()
        invariant
            i <= lines.len(),
            result.len() == i,
            forall|j: int| 0 <= j < i ==> (#[trigger] result@[j])@ == cleaned_line(lines@[j]@),
        decreases lines.len() - i,
    {
        let line = clean_line(&lines[i]);
        result.push(line);
        i += 1;
    }
    proof {
        assert(lines_view(result@) =~= cleaned_lines(text_lines(content@)));
    }
    let trailing = chars.len() > 0 && chars[chars.len() - 1] == '\n';
    let text = render_text(&result, trailing);
    chars_to_string(&text)
}

} // verus!
