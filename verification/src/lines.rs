//! A text as a sequence of lines, and back.
//!
//! A text is divided into lines at its line feeds. A line feed at the end of
//! a text closes the last line and opens no further one, so that a text is
//! given by its lines together with the fact whether a line feed closes it.
//!
//! There are two ways to take the lines. The raw lines hold every character
//! between two line feeds. The text lines are what is read: a line is closed
//! by a line feed, or by a carriage return and a line feed, and neither
//! belongs to the line. A carriage return that no line feed follows stays in
//! its line, also at the end of a text that no line feed closes.

use crate::text::{append_chars, copy_range, matches_at};
use vstd::prelude::*;

verus! {

/// The pieces into which the separators in `s` divide it. There is always at
/// least one piece: a text with `n` separators has `n + 1` pieces.
pub open spec fn split_by(s: Seq<char>, separator: char) -> Seq<Seq<char>>
    decreases s.len(),
{
    if s.len() == 0 {
        seq![Seq::<char>::empty()]
    } else {
        let p = split_by(s.drop_last(), separator);
        if s.last() == separator {
            p.push(Seq::<char>::empty())
        } else {
            p.drop_last().push(p.last().push(s.last()))
        }
    }
}

/// The pieces into which the line feeds of `s` divide it.
pub open spec fn pieces(s: Seq<char>) -> Seq<Seq<char>> {
    split_by(s, '\n')
}

/// Whether a line feed closes `s`.
pub open spec fn ends_with_newline(s: Seq<char>) -> bool {
    s.len() > 0 && s.last() == '\n'
}

/// The raw lines of `s`: what stands between its line feeds, a carriage
/// return before a line feed too. The empty text has no lines; a closing line
/// feed opens no further line.
pub open spec fn raw_lines(s: Seq<char>) -> Seq<Seq<char>> {
    if s.len() == 0 {
        Seq::<Seq<char>>::empty()
    } else if s.last() == '\n' {
        pieces(s.drop_last())
    } else {
        pieces(s)
    }
}

/// The lines with one line feed between each two.
pub open spec fn join_lines(lines: Seq<Seq<char>>) -> Seq<char>
    decreases lines.len(),
{
    if lines.len() == 0 {
        Seq::<char>::empty()
    } else if lines.len() == 1 {
        lines[0]
    } else {
        join_lines(lines.drop_last()) + seq!['\n'] + lines.last()
    }
}

/// The text with the given lines, closed by a line feed if `trailing`.
pub open spec fn render(lines: Seq<Seq<char>>, trailing: bool) -> Seq<char> {
    if trailing {
        join_lines(lines).push('\n')
    } else {
        join_lines(lines)
    }
}

/// Whether `line` holds no line feed.
pub open spec fn no_newline(line: Seq<char>) -> bool {
    forall|j: int| 0 <= j < line.len() ==> #[trigger] line[j] != '\n'
}

/// Whether none of the lines holds a line feed.
pub open spec fn all_single_lines(lines: Seq<Seq<char>>) -> bool {
    forall|i: int| 0 <= i < lines.len() ==> no_newline(#[trigger] lines[i])
}

/// Whether `lines` and `trailing` are the lines and the closing of some
/// text: no line holds a line feed, a text without lines is not closed, and
/// a text that is not closed does not end in an empty line.
pub open spec fn is_document(lines: Seq<Seq<char>>, trailing: bool) -> bool {
    &&& all_single_lines(lines)
    &&& lines.len() == 0 ==> !trailing
    &&& lines.len() > 0 && !trailing ==> lines.last().len() > 0
}

/// Whether line `i` of `count` lines is closed by a line feed: every line
/// but the last is, and the last is if a line feed closes the text.
pub open spec fn is_closed(count: int, trailing: bool, i: int) -> bool {
    i + 1 < count || trailing
}

/// Whether a raw line is closed by a carriage return and a line feed.
pub open spec fn closes_with_return(line: Seq<char>, closed: bool) -> bool {
    closed && line.len() > 0 && line.last() == '\r'
}

/// A raw line as it is read: without the carriage return, if a carriage
/// return and a line feed close it.
pub open spec fn line_body(line: Seq<char>, closed: bool) -> Seq<char> {
    if closes_with_return(line, closed) {
        line.drop_last()
    } else {
        line
    }
}

/// The raw lines of a text as they are read.
pub open spec fn line_bodies(lines: Seq<Seq<char>>, trailing: bool) -> Seq<Seq<char>> {
    Seq::new(
        lines.len(),
        |i: int| line_body(lines[i], is_closed(lines.len() as int, trailing, i)),
    )
}

/// The text lines of `s`: its lines as closed by a line feed, or by a
/// carriage return and a line feed.
pub open spec fn text_lines(s: Seq<char>) -> Seq<Seq<char>> {
    line_bodies(raw_lines(s), ends_with_newline(s))
}

/// Whether `line` ends with a carriage return.
pub open spec fn ends_with_return(line: Seq<char>) -> bool {
    line.len() > 0 && line.last() == '\r'
}

/// The raw line that takes its content from `body` and its closing from
/// `line`. Where a carriage return and a line feed close `line`, a carriage
/// return is put behind `body`, unless `body` is a new body that ends with a
/// carriage return already: that one closes the line. So the body of `line`
/// itself gives `line` back, character by character.
pub open spec fn closed_line(line: Seq<char>, closed: bool, body: Seq<char>) -> Seq<char> {
    if closes_with_return(line, closed) && (body == line.drop_last() || !ends_with_return(body)) {
        body.push('\r')
    } else {
        body
    }
}

/// The raw lines that take their content from `bodies` and their closing
/// from `lines`, line by line.
pub open spec fn with_closings(
    lines: Seq<Seq<char>>,
    trailing: bool,
    bodies: Seq<Seq<char>>,
) -> Seq<Seq<char>> {
    Seq::new(
        lines.len(),
        |i: int| closed_line(lines[i], is_closed(lines.len() as int, trailing, i), bodies[i]),
    )
}

/// Whether `bodies`, closed as `lines` are, are read again unchanged: a body
/// that ends with a carriage return and is closed by a line feed is the body
/// of its line. Any other such body would be read without its carriage
/// return.
pub open spec fn bodies_close_as(lines: Seq<Seq<char>>, trailing: bool, bodies: Seq<Seq<char>>) -> bool {
    forall|i: int|
        0 <= i < lines.len() && is_closed(lines.len() as int, trailing, i) && ends_with_return(
            #[trigger] bodies[i],
        ) ==> bodies[i] == line_body(lines[i], true)
}

/// The lines that a vector of character vectors stands for.
pub open spec fn lines_view(v: Seq<Vec<char>>) -> Seq<Seq<char>> {
    Seq::new(v.len(), |i: int| v[i]@)
}

/// There is at least one piece, and no piece holds a line feed.
pub proof fn lemma_pieces_shape(s: Seq<char>)
    ensures
        pieces(s).len() >= 1,
        all_single_lines(pieces(s)),
        s.len() > 0 && s.last() != '\n' ==> pieces(s).last().len() > 0,
    decreases s.len(),
{
    if s.len() > 0 {
        lemma_pieces_shape(s.drop_last());
    }
}

/// Joining the pieces of a text gives the text back.
pub proof fn lemma_join_pieces(s: Seq<char>)
    ensures
        join_lines(pieces(s)) == s,
    decreases s.len(),
{
    if s.len() == 0 {
        assert(join_lines(pieces(s)) =~= s);
    } else {
        let t = s.drop_last();
        let p = pieces(t);
        lemma_join_pieces(t);
        lemma_pieces_shape(t);
        if s.last() == '\n' {
            let q = p.push(Seq::<char>::empty());
            assert(q.drop_last() =~= p);
            assert(join_lines(q) =~= t.push('\n'));
            assert(t.push('\n') =~= s);
        } else {
            let q = p.drop_last().push(p.last().push(s.last()));
            if p.len() == 1 {
                assert(join_lines(p) == p[0]);
                assert(join_lines(q) =~= t.push(s.last()));
            } else {
                assert(q.drop_last() =~= p.drop_last());
                assert(join_lines(q) =~= (join_lines(p.drop_last()) + seq!['\n'] + p.last()).push(
                    s.last(),
                ));
            }
            assert(t.push(s.last()) =~= s);
        }
    }
}

/// Characters without a line feed, put after a text, lengthen its last piece.
pub proof fn lemma_pieces_append(a: Seq<char>, b: Seq<char>)
    requires
        no_newline(b),
    ensures
        pieces(a + b) == pieces(a).drop_last().push(pieces(a).last() + b),
    decreases b.len(),
{
    lemma_pieces_shape(a);
    if b.len() == 0 {
        assert(a + b =~= a);
        assert(pieces(a).last() + b =~= pieces(a).last());
        assert(pieces(a).drop_last().push(pieces(a).last()) =~= pieces(a));
    } else {
        let b0 = b.drop_last();
        assert(no_newline(b0)) by {
            assert forall|j: int| 0 <= j < b0.len() implies #[trigger] b0[j] != '\n' by {
                assert(b0[j] == b[j]);
            }
        }
        lemma_pieces_append(a, b0);
        assert((a + b).drop_last() =~= a + b0);
        assert((a + b).last() == b.last());
        assert(b[b.len() - 1] != '\n');
        let p = pieces(a + b0);
        assert(p.drop_last() =~= pieces(a).drop_last());
        assert(p.last().push(b.last()) =~= pieces(a).last() + b);
    }
}

/// The pieces of joined lines are those lines, if there is at least one and
/// none holds a line feed.
pub proof fn lemma_pieces_join(lines: Seq<Seq<char>>)
    requires
        lines.len() >= 1,
        all_single_lines(lines),
    ensures
        pieces(join_lines(lines)) == lines,
    decreases lines.len(),
{
    if lines.len() == 1 {
        let e = Seq::<char>::empty();
        assert(no_newline(lines[0]));
        lemma_pieces_append(e, lines[0]);
        assert(e + lines[0] =~= lines[0]);
        assert(pieces(e) =~= seq![e]);
        assert(pieces(e).drop_last().push(pieces(e).last() + lines[0]) =~= lines);
    } else {
        let front = lines.drop_last();
        assert(all_single_lines(front)) by {
            assert forall|i: int| 0 <= i < front.len() implies no_newline(#[trigger] front[i]) by {
                assert(front[i] == lines[i]);
            }
        }
        lemma_pieces_join(front);
        let a = join_lines(front).push('\n');
        assert(a.drop_last() =~= join_lines(front));
        assert(pieces(a) == front.push(Seq::<char>::empty()));
        assert(no_newline(lines.last()));
        lemma_pieces_append(a, lines.last());
        assert(join_lines(lines) =~= a + lines.last());
        assert(pieces(a).drop_last() =~= front);
        assert(pieces(a).last() + lines.last() =~= lines.last());
        assert(front.push(lines.last()) =~= lines);
    }
}

/// Joined lines end as their last line ends.
pub proof fn lemma_join_last(lines: Seq<Seq<char>>)
    requires
        lines.len() >= 1,
        lines.last().len() > 0,
    ensures
        join_lines(lines).len() > 0,
        join_lines(lines).last() == lines.last().last(),
{
    if lines.len() > 1 {
        assert(join_lines(lines) == join_lines(lines.drop_last()) + seq!['\n'] + lines.last());
    }
}

/// The lines of a text and its closing make a document.
pub proof fn lemma_split_is_document(s: Seq<char>)
    ensures
        is_document(raw_lines(s), ends_with_newline(s)),
{
    if s.len() > 0 {
        if s.last() == '\n' {
            lemma_pieces_shape(s.drop_last());
        } else {
            lemma_pieces_shape(s);
        }
    }
}

/// A text is given back by its lines and its closing.
pub proof fn lemma_render_split(s: Seq<char>)
    ensures
        render(raw_lines(s), ends_with_newline(s)) == s,
{
    if s.len() == 0 {
        assert(render(raw_lines(s), ends_with_newline(s)) =~= s);
    } else if s.last() == '\n' {
        lemma_join_pieces(s.drop_last());
        assert(s.drop_last().push('\n') =~= s);
    } else {
        lemma_join_pieces(s);
    }
}

/// The lines and the closing of a rendered document are those it was
/// rendered from.
pub proof fn lemma_split_render(lines: Seq<Seq<char>>, trailing: bool)
    requires
        is_document(lines, trailing),
    ensures
        raw_lines(render(lines, trailing)) == lines,
        ends_with_newline(render(lines, trailing)) == trailing,
{
    let r = render(lines, trailing);
    if trailing {
        assert(r.drop_last() =~= join_lines(lines));
        lemma_pieces_join(lines);
    } else if lines.len() == 0 {
        assert(raw_lines(r) =~= lines);
    } else {
        lemma_join_last(lines);
        assert(no_newline(lines.last()));
        assert(lines.last()[lines.last().len() - 1] != '\n');
        lemma_pieces_join(lines);
    }
}

/// The body of a line, closed as the line is, is the line.
pub proof fn lemma_closed_line_of_body(line: Seq<char>, closed: bool)
    ensures
        closed_line(line, closed, line_body(line, closed)) == line,
{
    if closes_with_return(line, closed) {
        assert(line.drop_last().push('\r') =~= line);
    }
}

/// A line that took its content from `body`, read again, gives `body`, or
/// `body` without its last character where `body` is a new body that ends
/// with a carriage return and a line feed closes the line.
pub proof fn lemma_body_of_closed_line(line: Seq<char>, closed: bool, body: Seq<char>)
    ensures
        line_body(closed_line(line, closed, body), closed) == body || (closed && ends_with_return(
            body,
        ) && body != line_body(line, closed) && line_body(closed_line(line, closed, body), closed)
            == body.drop_last()),
{
    let taken = closed_line(line, closed, body);
    if closes_with_return(line, closed) && (body == line.drop_last() || !ends_with_return(body)) {
        assert(body.push('\r').drop_last() =~= body);
    }
}

/// A line that took its content from `body` takes it again and stays as it
/// is.
pub proof fn lemma_closed_line_again(line: Seq<char>, closed: bool, body: Seq<char>)
    ensures
        closed_line(closed_line(line, closed, body), closed, body) == closed_line(
            line,
            closed,
            body,
        ),
{
    let taken = closed_line(line, closed, body);
    if closes_with_return(line, closed) && (body == line.drop_last() || !ends_with_return(body)) {
        assert(body.push('\r').drop_last() =~= body);
    } else if body.len() > 0 {
        assert(body.drop_last().len() != body.len());
    }
}

/// Raw lines take their content and their closing from themselves.
pub proof fn lemma_closings_of_bodies(lines: Seq<Seq<char>>, trailing: bool)
    ensures
        with_closings(lines, trailing, line_bodies(lines, trailing)) == lines,
{
    let closed = with_closings(lines, trailing, line_bodies(lines, trailing));
    assert forall|i: int| 0 <= i < lines.len() implies closed[i] == lines[i] by {
        lemma_closed_line_of_body(lines[i], is_closed(lines.len() as int, trailing, i));
    }
    assert(closed =~= lines);
}

/// Bodies without a line feed, closed as the lines of a document are, make
/// a document, if the body of a last line that no line feed closes is not
/// empty.
pub proof fn lemma_closings_make_document(
    lines: Seq<Seq<char>>,
    trailing: bool,
    bodies: Seq<Seq<char>>,
)
    requires
        is_document(lines, trailing),
        bodies.len() == lines.len(),
        all_single_lines(bodies),
        lines.len() > 0 && !trailing ==> bodies.last().len() > 0,
    ensures
        is_document(with_closings(lines, trailing, bodies), trailing),
{
    let closed = with_closings(lines, trailing, bodies);
    assert forall|i: int| 0 <= i < closed.len() implies no_newline(#[trigger] closed[i]) by {
        assert(no_newline(bodies[i]));
    }
    if lines.len() > 0 && !trailing {
        assert(closed.last() == bodies.last());
    }
}

/// Lines that took their content from `bodies` take it again and stay as
/// they are.
pub proof fn lemma_closings_again(lines: Seq<Seq<char>>, trailing: bool, bodies: Seq<Seq<char>>)
    ensures
        with_closings(with_closings(lines, trailing, bodies), trailing, bodies) == with_closings(
            lines,
            trailing,
            bodies,
        ),
{
    let closed = with_closings(lines, trailing, bodies);
    assert forall|i: int| 0 <= i < lines.len() implies with_closings(closed, trailing, bodies)[i]
        == closed[i] by {
        lemma_closed_line_again(lines[i], is_closed(lines.len() as int, trailing, i), bodies[i]);
    }
    assert(with_closings(closed, trailing, bodies) =~= closed);
}

/// Read again, lines that took their content from `bodies` and their
/// closing from `lines` give `bodies`, if every body that ends with a
/// carriage return and is closed by a line feed is the body of its line.
pub proof fn lemma_bodies_of_closings(
    lines: Seq<Seq<char>>,
    trailing: bool,
    bodies: Seq<Seq<char>>,
)
    requires
        bodies.len() == lines.len(),
        bodies_close_as(lines, trailing, bodies),
    ensures
        line_bodies(with_closings(lines, trailing, bodies), trailing) == bodies,
{
    let closed = with_closings(lines, trailing, bodies);
    let read = line_bodies(closed, trailing);
    assert forall|i: int| 0 <= i < lines.len() implies read[i] == bodies[i] by {
        let shut = is_closed(lines.len() as int, trailing, i);
        lemma_body_of_closed_line(lines[i], shut, bodies[i]);
        if shut && ends_with_return(bodies[i]) {
            assert(bodies[i] == line_body(lines[i], true));
        }
    }
    assert(read =~= bodies);
}

/// The text lines are as many as the raw lines, and none holds a line feed.
pub proof fn lemma_text_lines_shape(s: Seq<char>)
    ensures
        text_lines(s).len() == raw_lines(s).len(),
        all_single_lines(text_lines(s)),
        raw_lines(s).len() > 0 && !ends_with_newline(s) ==> text_lines(s).last() == raw_lines(
            s,
        ).last(),
{
    lemma_split_is_document(s);
    let raw = raw_lines(s);
    let read = text_lines(s);
    assert forall|i: int| 0 <= i < read.len() implies no_newline(#[trigger] read[i]) by {
        assert(no_newline(raw[i]));
    }
}

/// Divides a text at each separator.
pub fn split_on(s: &Vec<char>, separator: char) -> (parts: Vec<Vec<char>>)
    ensures
        lines_view(parts@) == split_by(s@, separator),
        parts.len() >= 1,
{
    let mut parts: Vec<Vec<char>> = Vec::new();
    let mut current: Vec<char> = Vec::new();
    let mut i: usize = 0;
    proof {
        assert(s@.take(0) =~= Seq::<char>::empty());
        assert(lines_view(parts@).push(current@) =~= split_by(s@.take(0), separator));
    }
    while i < s.len()
        invariant
            i <= s.len(),
            split_by(s@.take(i as int), separator) == lines_view(parts@).push(current@),
        decreases s.len() - i,
    {
        let c = s[i];
        proof {
            assert(s@.take(i + 1).drop_last() =~= s@.take(i as int));
            assert(s@.take(i + 1).last() == c);
        }
        let ghost before = lines_view(parts@);
        let ghost old_current = current@;
        if c == separator {
            parts.push(current);
            current = Vec::new();
            proof {
                assert(lines_view(parts@) =~= before.push(old_current));
            }
        } else {
            current.push(c);
            proof {
                assert(before.push(old_current).drop_last() =~= before);
            }
        }
        i += 1;
    }
    let ghost before = lines_view(parts@);
    parts.push(current);
    proof {
        assert(s@.take(s.len() as int) =~= s@);
        assert(lines_view(parts@) =~= before.push(current@));
    }
    parts
}

/// Splits a text into its lines.
pub fn split_raw_lines(s: &Vec<char>) -> (lines: Vec<Vec<char>>)
    ensures
        lines_view(lines@) == raw_lines(s@),
{
    if s.len() == 0 {
        let lines: Vec<Vec<char>> = Vec::new();
        proof {
            assert(lines_view(lines@) =~= raw_lines(s@));
        }
        return lines;
    }
    let mut lines = split_on(s, '\n');
    if s[s.len() - 1] == '\n' {
        let ghost all = lines_view(lines@);
        lines.pop();
        proof {
            let p = pieces(s@.drop_last());
            assert(all == p.push(Seq::<char>::empty()));
            assert(p.push(Seq::<char>::empty()).drop_last() =~= p);
            assert(lines_view(lines@) =~= all.drop_last());
        }
    }
    lines
}

/// Reads a text as its text lines.
pub fn read_lines(s: &Vec<char>) -> (lines: Vec<Vec<char>>)
    ensures
        lines_view(lines@) == text_lines(s@),
{
    let raw = split_raw_lines(s);
    let trailing = s.len() > 0 && s[s.len() - 1] == '\n';
    let mut lines: Vec<Vec<char>> = Vec::new();
    let mut i: usize = 0;
    while i < raw.len()
        invariant
            i <= raw.len(),
            lines_view(raw@) == raw_lines(s@),
            trailing == ends_with_newline(s@),
            lines.len() == i,
            forall|k: int| 0 <= k < i ==> (#[trigger] lines@[k])@ == text_lines(s@)[k],
        decreases raw.len() - i,
    {
        let line = &raw[i];
        let closed = i + 1 < raw.len() || trailing;
        proof {
            assert(lines_view(raw@)[i as int] == line@);
        }
        let end: usize = if closed && line.len() > 0 && line[line.len() - 1] == '\r' {
            line.len() - 1
        } else {
            line.len()
        };
        let body = copy_range(line, 0, end);
        proof {
            assert(line@.subrange(0, line@.len() - 1) =~= line@.drop_last());
            assert(line@.subrange(0, line@.len() as int) =~= line@);
        }
        lines.push(body);
        i += 1;
    }
    proof {
        assert(lines_view(lines@) =~= text_lines(s@));
    }
    lines
}

/// Closes `bodies` as `raw` is closed: a carriage return is put behind the
/// body of each line that a carriage return and a line feed close in `raw`,
/// unless the body is a new one that ends with a carriage return already.
pub fn close_lines(raw: &Vec<Vec<char>>, trailing: bool, bodies: Vec<Vec<char>>) -> (lines: Vec<
    Vec<char>,
>)
    requires
        bodies.len() == raw.len(),
    ensures
        lines_view(lines@) == with_closings(lines_view(raw@), trailing, lines_view(bodies@)),
{
    let mut lines = bodies;
    let ghost given = lines_view(bodies@);
    let mut i: usize = 0;
    while i < raw.len()
        invariant
            i <= raw.len(),
            lines.len() == raw.len(),
            given.len() == raw.len(),
            forall|k: int|
                0 <= k < i ==> (#[trigger] lines@[k])@ == with_closings(
                    lines_view(raw@),
                    trailing,
                    given,
                )[k],
            forall|k: int| i <= k < raw.len() ==> (#[trigger] lines@[k])@ == given[k],
        decreases raw.len() - i,
    {
        let line = &raw[i];
        let closed = i + 1 < raw.len() || trailing;
        proof {
            assert(lines_view(raw@)[i as int] == line@);
        }
        if closed && line.len() > 0 && line[line.len() - 1] == '\r' {
            let body = &lines[i];
            let own = body.len() == line.len() - 1 && matches_at(line, body, 0);
            let ends = body.len() > 0 && body[body.len() - 1] == '\r';
            proof {
                if body@.len() == line@.len() - 1 {
                    assert(line@.subrange(0, body@.len() as int) =~= line@.drop_last());
                }
                assert(own == (body@ == line@.drop_last()));
            }
            if own || !ends {
                let mut closing = copy_range(body, 0, body.len());
                proof {
                    assert(closing@ =~= lines@[i as int]@);
                }
                closing.push('\r');
                lines.set(i, closing);
            }
        }
        i += 1;
    }
    proof {
        assert(lines_view(lines@) =~= with_closings(lines_view(raw@), trailing, given));
    }
    lines
}

/// Renders lines as a text, closed by a line feed if `trailing`.
pub fn render_text(lines: &Vec<Vec<char>>, trailing: bool) -> (s: Vec<char>)
    ensures
        s@ == render(lines_view(lines@), trailing),
{
    let mut out: Vec<char> = Vec::new();
    let mut i: usize = 0;
    let ghost all = lines_view(lines@);
    proof {
        assert(out@ =~= join_lines(all.take(0)));
    }
    while i < lines.len()
        invariant
            i <= lines.len(),
            all == lines_view(lines@),
            out@ == join_lines(all.take(i as int)),
        decreases lines.len() - i,
    {
        let ghost front = all.take(i as int);
        let ghost next = all.take(i + 1);
        proof {
            assert(next.drop_last() =~= front);
            assert(next.last() == lines@[i as int]@);
        }
        if i > 0 {
            out.push('\n');
        }
        append_chars(&mut out, &lines[i]);
        proof {
            if i == 0 {
                assert(front.len() == 0);
                assert(out@ =~= next[0]);
            } else {
                assert(out@ =~= join_lines(front) + seq!['\n'] + next.last());
            }
        }
        i += 1;
    }
    proof {
        assert(all.take(lines.len() as int) =~= all);
    }
    if trailing {
        out.push('\n');
    }
    out
}

} // verus!
