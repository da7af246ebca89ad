//! Lines of a document: splitting text at its line endings and joining
//! lines with a newline between them.

use vstd::prelude::*;
use crate::text::{first_index_of, lemma_first_index_of, lemma_first_index_of_is, slice_of};

verus! {

/// `s` without one carriage return at its end, where it has one.
pub open spec fn strip_cr(s: Seq<char>) -> Seq<char> {
    if s.len() > 0 && s.last() == '\r' {
        s.drop_last()
    } else {
        s
    }
}

/// The lines of `s`. A line ends at a newline, or at a carriage return
/// directly followed by a newline; neither belongs to the line. What follows
/// the last newline is a line too, unless it is empty.
pub open spec fn split_lines(s: Seq<char>) -> Seq<Seq<char>>
    decreases s.len(),
{
    let n = first_index_of(s, '\n');
    if s.len() == 0 {
        Seq::empty()
    } else if n < 0 || n >= s.len() {
        seq![s]
    } else {
        seq![strip_cr(s.take(n))] + split_lines(s.skip(n + 1))
    }
}

/// The lines with a single newline between each two neighbours.
pub open spec fn join_lines(lines: Seq<Seq<char>>) -> Seq<char>
    decreases lines.len(),
{
    if lines.len() == 0 {
        Seq::empty()
    } else if lines.len() == 1 {
        lines[0]
    } else {
        join_lines(lines.drop_last()) + seq!['\n'] + lines.last()
    }
}

/// Whether no line holds a newline.
pub open spec fn free_of_newlines(lines: Seq<Seq<char>>) -> bool {
    forall|i: int, j: int|
        0 <= i < lines.len() && 0 <= j < lines[i].len() ==> (#[trigger] lines[i][j]) != '\n'
}

/// The view of a vector of lines: the lines as sequences of characters.
pub open spec fn lines_view(lines: Vec<Vec<char>>) -> Seq<Seq<char>> {
    Seq::new(lines@.len(), |i: int| lines@[i]@)
}

/// Joining more than one line puts the first line, then a newline, then the
/// other lines joined.
pub proof fn lemma_join_first(lines: Seq<Seq<char>>)
    requires
        lines.len() >= 2,
    ensures
        join_lines(lines) == lines[0] + seq!['\n'] + join_lines(lines.drop_first()),
    decreases lines.len(),
{
    let front = lines.drop_last();
    let rest = lines.drop_first();
    if lines.len() == 2 {
        assert(join_lines(front) == lines[0]);
        assert(rest.len() == 1);
        assert(join_lines(rest) == lines[1]);
    } else {
        lemma_join_first(front);
        assert(front.drop_first() =~= rest.drop_last());
        assert(front[0] == lines[0]);
        assert(rest.last() == lines.last());
        assert(join_lines(lines) =~= lines[0] + seq!['\n'] + join_lines(rest));
    }
}

/// No line of a text holds a newline.
pub proof fn lemma_split_free_of_newlines(s: Seq<char>)
    ensures
        free_of_newlines(split_lines(s)),
    decreases s.len(),
{
    let n = first_index_of(s, '\n');
    lemma_first_index_of(s, '\n');
    if s.len() == 0 {
    } else if n >= s.len() {
        assert(split_lines(s) =~= seq![s]);
    } else {
        let head = strip_cr(s.take(n));
        let tail = split_lines(s.skip(n + 1));
        lemma_split_free_of_newlines(s.skip(n + 1));
        assert forall|i: int, j: int|
            0 <= i < split_lines(s).len() && 0 <= j < split_lines(s)[i].len() implies (
        #[trigger] split_lines(s)[i][j]) != '\n' by {
            if i == 0 {
                assert(split_lines(s)[0] == head);
                assert(head[j] == s[j]);
            } else {
                assert(split_lines(s)[i] == tail[i - 1]);
            }
        }
    }
}

/// The lines of `text`.
pub fn split(text: &Vec<char>) -> (lines: Vec<Vec<char>>)
    ensures
        lines_view(lines) == split_lines(text@),
{
    let len: usize = text.len();
    let mut lines: Vec<Vec<char>> = Vec::new();
    let mut start: usize = 0;
    let mut i: usize = 0;
    assert(text@.skip(0) =~= text@);
    assert(lines_view(lines) =~= Seq::<Seq<char>>::empty());
    while i < len
        invariant
            start <= i <= len,
            len == text.len(),
            forall|j: int| start <= j < i ==> text@[j] != '\n',
            split_lines(text@) == lines_view(lines) + split_lines(text@.skip(start as int)),
        decreases len - i,
    {
        if text[i] == '\n' {
            let ghost rest = text@.skip(start as int);
            let end: usize = if i > start && text[i - 1] == '\r' {
                i - 1
            } else {
                i
            };
            let line = slice_of(text, start, end);
            proof {
                assert forall|j: int| 0 <= j < i - start implies #[trigger] rest[j] != '\n' by {
                    assert(rest[j] == text@[start + j]);
                }
                assert(rest[i - start] == '\n');
                lemma_first_index_of_is(rest, '\n', i - start);
                let head = rest.take(i - start);
                if i > start {
                    assert(head.last() == text@[i - 1]);
                }
                assert(line@ =~= strip_cr(head));
                assert(rest.skip(i - start + 1) =~= text@.skip(i + 1));
                assert(split_lines(rest) == seq![line@] + split_lines(text@.skip(i + 1)));
                assert(lines_view(lines).push(line@) =~= lines_view(lines) + seq![line@]);
            }
            let ghost before = lines_view(lines);
            lines.push(line);
            assert(lines_view(lines) =~= before.push(line@));
            start = i + 1;
        }
        i += 1;
    }
    if start < len {
        let ghost rest = text@.skip(start as int);
        let line = slice_of(text, start, len);
        proof {
            assert forall|j: int| 0 <= j < rest.len() implies #[trigger] rest[j] != '\n' by {
                assert(rest[j] == text@[start + j]);
            }
            lemma_first_index_of_is(rest, '\n', rest.len() as int);
            assert(line@ =~= rest);
            assert(split_lines(rest) =~= seq![line@]);
        }
        let ghost before = lines_view(lines);
        lines.push(line);
        assert(lines_view(lines) =~= before.push(line@));
    } else {
        assert(text@.skip(start as int).len() == 0);
        assert(split_lines(text@.skip(start as int)) =~= Seq::<Seq<char>>::empty());
    }
    lines
}

/// The lines joined with a newline between each two neighbours.
pub fn join(lines: &Vec<Vec<char>>) -> (text: Vec<char>)
    ensures
        text@ == join_lines(lines_view(*lines)),
{
    let mut text: Vec<char> = Vec::new();
    let mut i: usize = 0;
    assert(lines_view(*lines).take(0) =~= Seq::<Seq<char>>::empty());
    while i < lines.len()
        invariant
            i <= lines.len(),
            text@ == join_lines(lines_view(*lines).take(i as int)),
        decreases lines.len() - i,
    {
        let ghost done = lines_view(*lines).take(i as int);
        let ghost next = lines_view(*lines).take(i + 1);
        let ghost joined = text@;
        if i > 0 {
            text.push('\n');
        }
        let ghost base = text@;
        let line = &lines[i];
        let mut j: usize = 0;
        while j < line.len()
            invariant
                j <= line.len(),
                text@ == base + line@.take(j as int),
            decreases line.len() - j,
        {
            text.push(line[j]);
            assert(text@ =~= base + line@.take(j + 1));
            j += 1;
        }
        proof {
            assert(line@.take(line.len() as int) =~= line@);
            assert(next.drop_last() =~= done);
            assert(next.last() == line@);
            if i == 0 {
                assert(base =~= Seq::<char>::empty());
                assert(text@ =~= line@);
            } else {
                assert(base =~= joined + seq!['\n']);
            }
        }
        i += 1;
    }
    assert(lines_view(*lines).take(lines.len() as int) =~= lines_view(*lines));
    text
}

} // verus!
