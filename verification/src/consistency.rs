//! What reading and changing a document have to do with each other: the
//! tasks that are read from a changed document, and what a second change
//! undoes.

use vstd::prelude::*;
use crate::lines::{free_of_newlines, join_lines, lemma_join_first, split_lines, strip_cr};
use crate::model::TaskView;
use crate::parse::{has_marker, is_checkbox, is_done, parsed, task_of, task_text, tasks_of};
use crate::text::{
    begins_with, lemma_first_index_of_is, lemma_trailing_white, lemma_trim_bounds, lemma_trim_bounds_are, trim_end,
    trim_start, trimmed, white_space,
};
use crate::toggle::{
    checkbox_at, is_checked, is_unchecked, lemma_checkbox_at, toggled_line, toggled_lines,
    toggled_text,
};

verus! {

/// A carriage return at the end of a line does not show in its trimmed text.
pub proof fn lemma_trimmed_strip_cr(line: Seq<char>)
    ensures
        trimmed(strip_cr(line)) == trimmed(line),
{
    if line.len() > 0 && line.last() == '\r' {
        let short = line.drop_last();
        assert(white_space('\r'));
        assert(trim_end(line) == trim_end(short));
        lemma_trailing_white(short);
        assert(line.take(trim_end(line)) =~= short.take(trim_end(short)));
        assert(trim_start(line) == trim_start(short));
        lemma_trim_bounds(short);
        assert(trimmed(short) =~= trimmed(line));
    }
}

/// An empty line is no checkbox line.
pub proof fn lemma_empty_is_no_checkbox(line: Seq<char>)
    requires
        line.len() == 0,
    ensures
        !is_checkbox(line),
{
    reveal_strlit("- [");
    lemma_trim_bounds(line);
}

/// The tasks of two runs of lines, one behind the other, are the tasks of
/// the first and then those of the second.
pub proof fn lemma_tasks_of_concat(a: Seq<Seq<char>>, b: Seq<Seq<char>>)
    ensures
        tasks_of(a + b) == tasks_of(a) + tasks_of(b),
    decreases b.len(),
{
    if b.len() == 0 {
        assert(a + b =~= a);
        assert(tasks_of(a) + tasks_of(b) =~= tasks_of(a));
    } else {
        lemma_tasks_of_concat(a, b.drop_last());
        assert((a + b).drop_last() =~= a + b.drop_last());
        assert((a + b).last() == b.last());
        assert(tasks_of(a + b) =~= tasks_of(a) + tasks_of(b));
    }
}

/// The tasks of a single line: one task where it is a checkbox line.
pub proof fn lemma_tasks_of_single(line: Seq<char>)
    ensures
        tasks_of(seq![line]) == if is_checkbox(line) {
            seq![task_of(line)]
        } else {
            Seq::<TaskView>::empty()
        },
{
    let one = seq![line];
    assert(one.drop_last() =~= Seq::<Seq<char>>::empty());
    assert(tasks_of(one.drop_last()) =~= Seq::<TaskView>::empty());
    assert(one.last() == line);
    if is_checkbox(line) {
        assert(tasks_of(one) =~= seq![task_of(line)]);
    }
}

/// Lines with the same trimmed texts hold the same tasks.
pub proof fn lemma_tasks_of_same_trimmed(a: Seq<Seq<char>>, b: Seq<Seq<char>>)
    requires
        a.len() == b.len(),
        forall|i: int| 0 <= i < a.len() ==> trimmed(#[trigger] a[i]) == trimmed(b[i]),
    ensures
        tasks_of(a) == tasks_of(b),
    decreases a.len(),
{
    if a.len() > 0 {
        assert forall|i: int| 0 <= i < a.drop_last().len() implies trimmed(
            #[trigger] a.drop_last()[i],
        ) == trimmed(b.drop_last()[i]) by {
            assert(a.drop_last()[i] == a[i]);
            assert(b.drop_last()[i] == b[i]);
        }
        lemma_tasks_of_same_trimmed(a.drop_last(), b.drop_last());
        assert(trimmed(a[a.len() - 1]) == trimmed(b[a.len() - 1]));
    }
}

/// What is left of `lines` when they are joined and split again: every line
/// but the last loses a carriage return at its end, and the last line is
/// gone where it is empty.
pub open spec fn settled(lines: Seq<Seq<char>>) -> Seq<Seq<char>> {
    if lines.len() == 0 {
        lines
    } else {
        Seq::new((lines.len() - 1) as nat, |i: int| strip_cr(lines[i])) + if lines.last().len()
            == 0 {
            Seq::<Seq<char>>::empty()
        } else {
            seq![lines.last()]
        }
    }
}

/// Splitting what was joined gives the lines back as `settled` describes.
pub proof fn lemma_split_join(lines: Seq<Seq<char>>)
    requires
        free_of_newlines(lines),
    ensures
        split_lines(join_lines(lines)) == settled(lines),
    decreases lines.len(),
{
    if lines.len() == 0 {
        assert(split_lines(join_lines(lines)) =~= settled(lines));
    } else if lines.len() == 1 {
        let only = lines[0];
        assert(join_lines(lines) == only);
        if only.len() > 0 {
            assert forall|j: int| 0 <= j < only.len() implies #[trigger] only[j] != '\n' by {
                assert(lines[0][j] != '\n');
            }
            lemma_first_index_of_is(only, '\n', only.len() as int);
            assert(split_lines(only) =~= seq![only]);
        }
        assert(split_lines(join_lines(lines)) =~= settled(lines));
    } else {
        let first = lines[0];
        let rest = lines.drop_first();
        let text = join_lines(lines);
        lemma_join_first(lines);
        assert(text == first + seq!['\n'] + join_lines(rest));
        assert forall|j: int| 0 <= j < first.len() implies #[trigger] text[j] != '\n' by {
            assert(text[j] == first[j]);
            assert(lines[0][j] != '\n');
        }
        assert(text[first.len() as int] == '\n');
        lemma_first_index_of_is(text, '\n', first.len() as int);
        assert(text.take(first.len() as int) =~= first);
        assert(text.skip(first.len() as int + 1) =~= join_lines(rest));
        assert forall|i: int, j: int|
            0 <= i < rest.len() && 0 <= j < rest[i].len() implies (#[trigger] rest[i][j])
            != '\n' by {
            assert(rest[i] == lines[i + 1]);
            assert(lines[i + 1][j] != '\n');
        }
        lemma_split_join(rest);
        assert(split_lines(text) == seq![strip_cr(first)] + settled(rest));
        assert(rest.last() == lines.last());
        assert(seq![strip_cr(first)] + settled(rest) =~= settled(lines));
    }
}

/// Joining and splitting lines again keeps their tasks.
pub proof fn lemma_tasks_of_settled(lines: Seq<Seq<char>>)
    ensures
        tasks_of(settled(lines)) == tasks_of(lines),
{
    if lines.len() > 0 {
        let front = lines.drop_last();
        let stripped = Seq::new((lines.len() - 1) as nat, |i: int| strip_cr(lines[i]));
        let tail = if lines.last().len() == 0 {
            Seq::<Seq<char>>::empty()
        } else {
            seq![lines.last()]
        };
        assert forall|i: int| 0 <= i < stripped.len() implies trimmed(#[trigger] stripped[i])
            == trimmed(front[i]) by {
            lemma_trimmed_strip_cr(lines[i]);
        }
        lemma_tasks_of_same_trimmed(stripped, front);
        lemma_tasks_of_concat(stripped, tail);
        lemma_tasks_of_single(lines.last());
        if lines.last().len() == 0 {
            lemma_empty_is_no_checkbox(lines.last());
            assert(tasks_of(tail) =~= Seq::<TaskView>::empty());
        }
        assert(lines =~= front + seq![lines.last()]);
        lemma_tasks_of_concat(front, seq![lines.last()]);
    }
}

/// Whether joining `lines` and splitting the text again gives the same
/// lines: no line before the last ends with a carriage return, and the last
/// line is not empty.
pub open spec fn survives_rejoining(lines: Seq<Seq<char>>) -> bool {
    &&& forall|i: int|
        0 <= i < lines.len() - 1 ==> !((#[trigger] lines[i]).len() > 0 && lines[i].last() == '\r')
    &&& lines.len() > 0 ==> lines.last().len() > 0
}

/// Lines that survive rejoining come back from the joined text as they are.
pub proof fn lemma_split_join_same(lines: Seq<Seq<char>>)
    requires
        free_of_newlines(lines),
        survives_rejoining(lines),
    ensures
        split_lines(join_lines(lines)) == lines,
{
    lemma_split_join(lines);
    assert(settled(lines) =~= lines);
}

/// What a line looks like after the box at the start of its trimmed text
/// was replaced by `lit`: the same length and the same trimmed bounds, the
/// box replaced and every other character in its place.
pub proof fn lemma_box_replaced(line: Seq<char>, lit: Seq<char>)
    requires
        is_checked(line) || is_unchecked(line),
        lit == "- [ ]"@ || lit == "- [x]"@,
    ensures
        ({
            let lo = trim_start(line);
            let after = line.take(lo) + lit + line.skip(lo + 5);
            &&& after.len() == line.len()
            &&& 0 <= lo
            &&& lo + 5 <= trim_end(line) <= line.len()
            &&& trim_start(after) == lo
            &&& trim_end(after) == trim_end(line)
            &&& trimmed(after) == lit + trimmed(line).skip(5)
            &&& forall|j: int|
                0 <= j < line.len() && !(lo <= j < lo + 5) ==> #[trigger] after[j] == line[j]
            &&& forall|i: int| 0 <= i < 5 ==> #[trigger] after[lo + i] == lit[i]
            &&& forall|i: int|
                0 <= i < 5 && i != 3 ==> #[trigger] line[lo + i] == lit[i]
        }),
{
    reveal_strlit("- [x]");
    reveal_strlit("- [X]");
    reveal_strlit("- [ ]");
    let lo = trim_start(line);
    let hi = trim_end(line);
    let after = line.take(lo) + lit + line.skip(lo + 5);
    let inner = trimmed(line);
    lemma_trim_bounds(line);
    let head = inner.take(5);
    assert(head == "- [x]"@ || head == "- [X]"@ || head == "- [ ]"@);
    assert forall|i: int| 0 <= i < 5 implies line[lo + i] == #[trigger] head[i] by {
        assert(inner[i] == line[lo + i]);
    }
    assert(head[0] == '-' && head[1] == ' ' && head[2] == '[' && head[4] == ']');
    assert(after.len() == line.len());
    assert forall|j: int| 0 <= j < line.len() && !(lo <= j < lo + 5) implies #[trigger] after[j]
        == line[j] by {}
    assert forall|i: int| 0 <= i < 5 implies #[trigger] after[lo + i] == lit[i] by {}
    assert(after[lo + 0] == '-');
    assert(!white_space(after[lo]));
    if hi - 1 >= lo + 5 {
        assert(after[hi - 1] == line[hi - 1]);
    } else {
        assert(after[lo + 4] == ']');
    }
    assert(!white_space(after[hi - 1]));
    assert forall|j: int| 0 <= j < lo implies white_space(#[trigger] after[j]) by {
        assert(after[j] == line[j]);
    }
    assert forall|j: int| hi <= j < after.len() implies white_space(#[trigger] after[j]) by {
        assert(after[j] == line[j]);
    }
    lemma_trim_bounds_are(after, lo, hi);
    assert(trimmed(after) =~= lit + inner.skip(5)) by {
        assert forall|j: int| 0 <= j < hi - lo implies trimmed(after)[j] == (lit + inner.skip(
            5,
        ))[j] by {
            if j < 5 {
                assert(after[lo + j] == lit[j]);
            } else {
                assert(after[lo + j] == line[lo + j]);
            }
        }
    }
    assert forall|i: int| 0 <= i < 5 && i != 3 implies #[trigger] line[lo + i] == lit[i] by {
        assert(line[lo + i] == head[i]);
    }
}

/// Flipping the box of a line keeps its length, the bounds of its trimmed
/// text, whether it is a checkbox line, that it holds no newline, and what
/// stands at its end.
pub proof fn lemma_toggled_line(line: Seq<char>)
    ensures
        toggled_line(line).len() == line.len(),
        trim_start(toggled_line(line)) == trim_start(line),
        trim_end(toggled_line(line)) == trim_end(line),
        is_checkbox(toggled_line(line)) == is_checkbox(line),
        (forall|j: int| 0 <= j < line.len() ==> line[j] != '\n') ==> (forall|j: int|
            0 <= j < line.len() ==> toggled_line(line)[j] != '\n'),
        line.len() > 0 ==> (toggled_line(line).last() == '\r') == (line.last() == '\r'),
{
    reveal_strlit("- [x]");
    reveal_strlit("- [X]");
    reveal_strlit("- [ ]");
    reveal_strlit("- [");
    let after = toggled_line(line);
    let lo = trim_start(line);
    if is_checked(line) || is_unchecked(line) {
        let lit = if is_checked(line) {
            "- [ ]"@
        } else {
            "- [x]"@
        };
        lemma_box_replaced(line, lit);
        assert(after == line.take(lo) + lit + line.skip(lo + 5));
        assert(trimmed(line).take(5).take(3) =~= trimmed(line).take(3));
        assert(trimmed(after).take(3) =~= "- ["@);
        assert(trimmed(line).take(3) =~= "- ["@) by {
            assert forall|i: int| 0 <= i < 3 implies trimmed(line).take(3)[i] == "- ["@[i] by {
                assert(trimmed(line)[i] == line[lo + i]);
            }
        }
        if forall|j: int| 0 <= j < line.len() ==> line[j] != '\n' {
            assert forall|j: int| 0 <= j < line.len() implies after[j] != '\n' by {
                if lo <= j < lo + 5 {
                    assert(after[lo + (j - lo)] == lit[j - lo]);
                } else {
                    assert(after[j] == line[j]);
                }
            }
        }
        let end = line.len() - 1;
        if lo <= end < lo + 5 {
            assert(after[lo + (end - lo)] == lit[end - lo]);
            assert(end - lo == 4);
            assert(line[lo + 4] == lit[4]);
        } else {
            assert(after[end] == line[end]);
        }
    }
}

/// Flipping the box of a line twice gives the line back, unless its box was
/// checked with a capital letter: that one comes back with a small one.
pub proof fn lemma_toggled_line_twice(line: Seq<char>)
    requires
        !begins_with(trimmed(line), "- [X]"@),
    ensures
        toggled_line(toggled_line(line)) == line,
{
    reveal_strlit("- [x]");
    reveal_strlit("- [X]");
    reveal_strlit("- [ ]");
    let lo = trim_start(line);
    let once = toggled_line(line);
    if is_checked(line) || is_unchecked(line) {
        let lit = if is_checked(line) {
            "- [ ]"@
        } else {
            "- [x]"@
        };
        let back = if is_checked(line) {
            "- [x]"@
        } else {
            "- [ ]"@
        };
        lemma_box_replaced(line, lit);
        assert(once == line.take(lo) + lit + line.skip(lo + 5));
        assert(trimmed(once).take(5) =~= lit);
        assert(trimmed(line).take(5) =~= back);
        assert(lit[3] != back[3]);
        if is_checked(line) {
            assert(is_unchecked(once));
            assert(!is_checked(once)) by {
                assert(trimmed(once).take(5)[3] == ' ');
            }
        } else {
            assert(is_checked(once));
        }
        lemma_box_replaced(once, back);
        let twice = once.take(lo) + back + once.skip(lo + 5);
        assert(toggled_line(once) == twice);
        assert(twice =~= line) by {
            assert forall|j: int| 0 <= j < line.len() implies twice[j] == line[j] by {
                if lo <= j < lo + 5 {
                    assert(twice[lo + (j - lo)] == back[j - lo]);
                    assert(trimmed(line).take(5)[j - lo] == line[j]);
                } else {
                    assert(twice[j] == once[j]);
                    assert(once[j] == line[j]);
                }
            }
        }
    }
}

/// The task of a line whose box was flipped. Where the line has one of the
/// three markers, the task keeps its text and changes its state; where it
/// has none, the task is not completed before or after.
pub proof fn lemma_toggled_task(line: Seq<char>)
    ensures
        has_marker(line) ==> task_of(toggled_line(line)) == (TaskView {
            text: task_text(line),
            done: !is_done(line),
        }),
        !has_marker(line) ==> !is_done(line) && !is_done(toggled_line(line)),
{
    reveal_strlit("- [x]");
    reveal_strlit("- [X]");
    reveal_strlit("- [ ]");
    reveal_strlit("- [x] ");
    reveal_strlit("- [X] ");
    reveal_strlit("- [ ] ");
    let lo = trim_start(line);
    let inner = trimmed(line);
    let after = toggled_line(line);
    if has_marker(line) {
        let six = inner.take(6);
        assert(six == "- [x] "@ || six == "- [X] "@ || six == "- [ ] "@);
        assert(inner.take(5) =~= six.take(5));
        assert(inner[5] == six[5]);
        if is_done(line) {
            assert(six.take(5) =~= "- [x]"@ || six.take(5) =~= "- [X]"@);
            assert(is_checked(line));
            lemma_box_replaced(line, "- [ ]"@);
            let inner2 = trimmed(after);
            assert(inner2 == "- [ ]"@ + inner.skip(5));
            assert(inner2.take(6) =~= "- [ ] "@);
            assert(!is_done(after)) by {
                assert(inner2.take(6)[3] == ' ');
            }
            assert(inner2.skip(6) =~= inner.skip(6));
        } else {
            assert(six.take(5) =~= "- [ ]"@);
            assert(is_unchecked(line));
            assert(!is_checked(line)) by {
                assert(inner.take(5)[3] == ' ');
            }
            lemma_box_replaced(line, "- [x]"@);
            let inner2 = trimmed(after);
            assert(inner2 == "- [x]"@ + inner.skip(5));
            assert(inner2.take(6) =~= "- [x] "@);
            assert(inner2.skip(6) =~= inner.skip(6));
        }
    } else {
        if is_checked(line) {
            lemma_box_replaced(line, "- [ ]"@);
            let inner2 = trimmed(after);
            if inner2.len() >= 6 {
                assert(inner2.take(6)[3] == ' ');
            }
        } else if is_unchecked(line) {
            lemma_box_replaced(line, "- [x]"@);
            let inner2 = trimmed(after);
            assert(inner.take(5) =~= "- [ ]"@);
            if inner2.len() >= 6 {
                assert(inner2.take(6)[5] == inner[5]);
                assert(inner2.take(6)[3] == 'x');
                if inner[5] == ' ' {
                    assert(inner.take(6) =~= "- [ ] "@) by {
                        assert forall|i: int| 0 <= i < 6 implies inner.take(6)[i] == "- [ ] "@[i] by {
                            if i < 5 {
                                assert(inner.take(5)[i] == inner[i]);
                            }
                        }
                    }
                }
            }
        }
    }
}

/// As many tasks stand before the line of task `ordinal` as its ordinal
/// says; where there is no such task, the lines hold at most `ordinal` tasks.
pub proof fn lemma_tasks_before_checkbox(lines: Seq<Seq<char>>, ordinal: nat)
    ensures
        0 <= checkbox_at(lines, ordinal) <= lines.len(),
        checkbox_at(lines, ordinal) < lines.len() ==> tasks_of(
            lines.take(checkbox_at(lines, ordinal)),
        ).len() == ordinal && ordinal < tasks_of(lines).len(),
        checkbox_at(lines, ordinal) >= lines.len() ==> tasks_of(lines).len() <= ordinal,
    decreases lines.len(),
{
    lemma_checkbox_at(lines, ordinal);
    let at = checkbox_at(lines, ordinal);
    if lines.len() == 0 {
    } else {
        let first = lines[0];
        let rest = lines.drop_first();
        assert(lines =~= seq![first] + rest);
        lemma_tasks_of_concat(seq![first], rest);
        lemma_tasks_of_single(first);
        if is_checkbox(first) && ordinal == 0 {
            assert(lines.take(0) =~= Seq::<Seq<char>>::empty());
        } else {
            let left: nat = if is_checkbox(first) {
                (ordinal - 1) as nat
            } else {
                ordinal
            };
            lemma_tasks_before_checkbox(rest, left);
            let inner = checkbox_at(rest, left);
            assert(at == 1 + inner);
            if at < lines.len() {
                assert(lines.take(at) =~= seq![first] + rest.take(inner));
                lemma_tasks_of_concat(seq![first], rest.take(inner));
            }
        }
    }
}

/// Putting another checkbox line in the place of one changes the task at
/// its position among the tasks, and no other.
pub proof fn lemma_tasks_of_update(lines: Seq<Seq<char>>, at: int, line: Seq<char>)
    requires
        0 <= at < lines.len(),
        is_checkbox(lines[at]),
        is_checkbox(line),
    ensures
        tasks_of(lines.take(at)).len() < tasks_of(lines).len(),
        tasks_of(lines)[tasks_of(lines.take(at)).len() as int] == task_of(lines[at]),
        tasks_of(lines.update(at, line)) == tasks_of(lines).update(
            tasks_of(lines.take(at)).len() as int,
            task_of(line),
        ),
{
    let head = lines.take(at);
    let tail = lines.skip(at + 1);
    let changed = lines.update(at, line);
    assert(lines =~= head + seq![lines[at]] + tail);
    assert(changed =~= head + seq![line] + tail);
    lemma_tasks_of_concat(head, seq![lines[at]]);
    lemma_tasks_of_concat(head + seq![lines[at]], tail);
    lemma_tasks_of_concat(head, seq![line]);
    lemma_tasks_of_concat(head + seq![line], tail);
    lemma_tasks_of_single(lines[at]);
    lemma_tasks_of_single(line);
    assert(tasks_of(changed) =~= tasks_of(lines).update(
        tasks_of(head).len() as int,
        task_of(line),
    ));
}

/// Where the same lines are checkbox lines, the same line holds the task
/// `ordinal`.
pub proof fn lemma_checkbox_at_same(a: Seq<Seq<char>>, b: Seq<Seq<char>>, ordinal: nat)
    requires
        a.len() == b.len(),
        forall|i: int| 0 <= i < a.len() ==> is_checkbox(#[trigger] a[i]) == is_checkbox(b[i]),
    ensures
        checkbox_at(a, ordinal) == checkbox_at(b, ordinal),
    decreases a.len(),
{
    if a.len() > 0 {
        assert(is_checkbox(a[0]) == is_checkbox(b[0]));
        assert forall|i: int| 0 <= i < a.drop_first().len() implies is_checkbox(
            #[trigger] a.drop_first()[i],
        ) == is_checkbox(b.drop_first()[i]) by {
            assert(a.drop_first()[i] == a[i + 1]);
            assert(b.drop_first()[i] == b[i + 1]);
        }
        if is_checkbox(a[0]) {
            if ordinal != 0 {
                lemma_checkbox_at_same(a.drop_first(), b.drop_first(), (ordinal - 1) as nat);
            }
        } else {
            lemma_checkbox_at_same(a.drop_first(), b.drop_first(), ordinal);
        }
    }
}

/// Flipping the box of one task leaves lines that hold no newline.
pub proof fn lemma_toggled_lines_free_of_newlines(lines: Seq<Seq<char>>, ordinal: nat)
    requires
        free_of_newlines(lines),
    ensures
        free_of_newlines(toggled_lines(lines, ordinal)),
        toggled_lines(lines, ordinal).len() == lines.len(),
{
    let at = checkbox_at(lines, ordinal);
    let after = toggled_lines(lines, ordinal);
    if 0 <= at < lines.len() {
        lemma_toggled_line(lines[at]);
        assert forall|j: int| 0 <= j < lines[at].len() implies lines[at][j] != '\n' by {}
        assert forall|i: int, j: int| 0 <= i < after.len() && 0 <= j < after[i].len() implies (
        #[trigger] after[i][j]) != '\n' by {
            if i == at {
                assert(after[i] == toggled_line(lines[at]));
            } else {
                assert(after[i] == lines[i]);
                assert(lines[i][j] != '\n');
            }
        }
    }
}

/// The number of checkbox lines among `lines`.
pub open spec fn checkbox_count(lines: Seq<Seq<char>>) -> nat {
    lines.filter(|l: Seq<char>| is_checkbox(l)).len()
}

/// Lines hold one task for each checkbox line.
pub proof fn lemma_one_task_per_checkbox(lines: Seq<Seq<char>>)
    ensures
        tasks_of(lines).len() == checkbox_count(lines),
    decreases lines.len(),
{
    reveal(Seq::filter);
    if lines.len() > 0 {
        lemma_one_task_per_checkbox(lines.drop_last());
    }
}

/// A document that is read holds one task for each of its checkbox lines.
/// After the box of task `ordinal` was flipped it holds as many tasks as
/// before, and every task but that one is as it was. That task, where it
/// has one of the three markers, keeps its text and changes its state;
/// where it has none it is not completed before or after.
pub proof fn lemma_toggle_changes_one_task(text: Seq<char>, stem: Seq<char>, ordinal: nat)
    ensures
        ({
            let lines = split_lines(text);
            let at = checkbox_at(lines, ordinal);
            let before = parsed(text, stem).tasks;
            let after = parsed(toggled_text(text, ordinal), stem).tasks;
            &&& before.len() == checkbox_count(lines)
            &&& after.len() == before.len()
            &&& forall|j: int| 0 <= j < before.len() && j != ordinal ==> after[j] == before[j]
            &&& ordinal < before.len() <==> 0 <= at < lines.len()
            &&& ordinal < before.len() ==> {
                &&& before[ordinal as int] == task_of(lines[at])
                &&& after[ordinal as int] == task_of(toggled_line(lines[at]))
                &&& has_marker(lines[at]) ==> {
                    &&& after[ordinal as int].text == before[ordinal as int].text
                    &&& after[ordinal as int].done == !before[ordinal as int].done
                }
                &&& !has_marker(lines[at]) ==> {
                    &&& !before[ordinal as int].done
                    &&& !after[ordinal as int].done
                }
            }
        }),
{
    let lines = split_lines(text);
    let at = checkbox_at(lines, ordinal);
    let changed = toggled_lines(lines, ordinal);
    crate::lines::lemma_split_free_of_newlines(text);
    lemma_toggled_lines_free_of_newlines(lines, ordinal);
    lemma_split_join(changed);
    lemma_tasks_of_settled(changed);
    lemma_tasks_before_checkbox(lines, ordinal);
    lemma_one_task_per_checkbox(lines);
    lemma_checkbox_at(lines, ordinal);
    if at < lines.len() {
        lemma_toggled_line(lines[at]);
        lemma_tasks_of_update(lines, at, toggled_line(lines[at]));
        lemma_toggled_task(lines[at]);
    }
}

/// Flipping the box of a task that the document does not have changes no
/// line: what comes back is the document's lines joined, with the same
/// tasks.
pub proof fn lemma_toggle_out_of_range(text: Seq<char>, stem: Seq<char>, ordinal: nat)
    requires
        ordinal >= parsed(text, stem).tasks.len(),
    ensures
        toggled_lines(split_lines(text), ordinal) == split_lines(text),
        toggled_text(text, ordinal) == join_lines(split_lines(text)),
        parsed(toggled_text(text, ordinal), stem).tasks == parsed(text, stem).tasks,
{
    let lines = split_lines(text);
    lemma_tasks_before_checkbox(lines, ordinal);
    crate::lines::lemma_split_free_of_newlines(text);
    lemma_split_join(lines);
    lemma_tasks_of_settled(lines);
}

/// Flipping the box of the same task twice gives the document back, with
/// its lines joined by single newlines. This is stated of documents whose
/// lines survive rejoining, or that are one empty line, and of a task whose
/// box is not checked with a capital letter: in every other document the
/// second result differs from the joined lines.
pub proof fn lemma_toggle_twice_restores(text: Seq<char>, ordinal: nat)
    requires
        survives_rejoining(split_lines(text)) || split_lines(text) == seq![Seq::<char>::empty()],
        0 <= checkbox_at(split_lines(text), ordinal) < split_lines(text).len() ==> !begins_with(
            trimmed(split_lines(text)[checkbox_at(split_lines(text), ordinal)]),
            "- [X]"@,
        ),
    ensures
        toggled_text(toggled_text(text, ordinal), ordinal) == join_lines(split_lines(text)),
{
    let lines = split_lines(text);
    let at = checkbox_at(lines, ordinal);
    let once = toggled_lines(lines, ordinal);
    lemma_checkbox_at(lines, ordinal);
    if lines == seq![Seq::<char>::empty()] {
        let none = Seq::<Seq<char>>::empty();
        assert(lines.len() == 1 && lines[0].len() == 0);
        lemma_empty_is_no_checkbox(lines[0]);
        assert(once == lines);
        assert(join_lines(lines) =~= Seq::<char>::empty());
        assert(split_lines(join_lines(lines)) =~= none);
        assert(checkbox_at(none, ordinal) == 0);
        assert(toggled_lines(none, ordinal) == none);
        assert(join_lines(none) =~= Seq::<char>::empty());
    } else {
        crate::lines::lemma_split_free_of_newlines(text);
        lemma_toggled_lines_free_of_newlines(lines, ordinal);
        if at < lines.len() {
            lemma_toggled_line(lines[at]);
            lemma_toggled_line_twice(lines[at]);
        }
        assert(survives_rejoining(once)) by {
            assert forall|i: int| 0 <= i < once.len() - 1 implies !((#[trigger] once[i]).len() > 0
                && once[i].last() == '\r') by {
                if i != at {
                    assert(once[i] == lines[i]);
                }
            }
            if once.len() > 0 && at != once.len() - 1 {
                assert(once.last() == lines.last());
            }
        }
        lemma_split_join_same(once);
        assert forall|i: int| 0 <= i < once.len() implies is_checkbox(#[trigger] once[i])
            == is_checkbox(lines[i]) by {
            if i != at {
                assert(once[i] == lines[i]);
            }
        }
        lemma_checkbox_at_same(once, lines, ordinal);
        assert(toggled_lines(once, ordinal) =~= lines);
    }
}

} // verus!
