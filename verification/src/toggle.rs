//! Changing a document: flipping the checkbox of one task.
//!
//! A task is known by its position among the checkbox lines of the document,
//! counted from 0. The lines are split and the checkbox lines are told apart
//! exactly as when the document is read.

use vstd::prelude::*;
use crate::lines::{join, join_lines, lines_view, split, split_lines};
use crate::parse::is_checkbox;
use crate::text::{
    begins_with, chars_of, has_prefix, slice_of, string_of, trim_bounds, trim_start, trimmed,
};

verus! {

/// Whether the trimmed text of `line` begins with a checked box: `- [x]` or
/// `- [X]`.
pub open spec fn is_checked(line: Seq<char>) -> bool {
    begins_with(trimmed(line), "- [x]"@) || begins_with(trimmed(line), "- [X]"@)
}

/// Whether the trimmed text of `line` begins with an unchecked box: `- [ ]`.
pub open spec fn is_unchecked(line: Seq<char>) -> bool {
    begins_with(trimmed(line), "- [ ]"@)
}

/// `line` with the box at the start of its trimmed text flipped: a checked
/// box becomes `- [ ]`, an unchecked box becomes `- [x]`. A line that begins
/// with neither stays as it is.
pub open spec fn toggled_line(line: Seq<char>) -> Seq<char> {
    let lo = trim_start(line);
    if is_checked(line) {
        line.take(lo) + "- [ ]"@ + line.skip(lo + 5)
    } else if is_unchecked(line) {
        line.take(lo) + "- [x]"@ + line.skip(lo + 5)
    } else {
        line
    }
}

/// The index of the checkbox line that has `ordinal` checkbox lines before
/// it; the number of lines where there are not that many checkbox lines.
pub open spec fn checkbox_at(lines: Seq<Seq<char>>, ordinal: nat) -> int
    decreases lines.len(),
{
    if lines.len() == 0 {
        0
    } else if is_checkbox(lines[0]) {
        if ordinal == 0 {
            0
        } else {
            1 + checkbox_at(lines.drop_first(), (ordinal - 1) as nat)
        }
    } else {
        1 + checkbox_at(lines.drop_first(), ordinal)
    }
}

/// The lines with the box of the task `ordinal` flipped; the lines
/// unchanged where there is no such task.
pub open spec fn toggled_lines(lines: Seq<Seq<char>>, ordinal: nat) -> Seq<Seq<char>> {
    let at = checkbox_at(lines, ordinal);
    if 0 <= at < lines.len() {
        lines.update(at, toggled_line(lines[at]))
    } else {
        lines
    }
}

/// The document with the box of the task `ordinal` flipped: its lines, with
/// that one line changed, joined by single newlines.
pub open spec fn toggled_text(text: Seq<char>, ordinal: nat) -> Seq<char> {
    join_lines(toggled_lines(split_lines(text), ordinal))
}

/// `checkbox_at` lies among the lines or is their number; a checkbox line
/// stands at it where it lies among them.
pub proof fn lemma_checkbox_at(lines: Seq<Seq<char>>, ordinal: nat)
    ensures
        0 <= checkbox_at(lines, ordinal) <= lines.len(),
        checkbox_at(lines, ordinal) < lines.len() ==> is_checkbox(
            lines[checkbox_at(lines, ordinal)],
        ),
    decreases lines.len(),
{
    if lines.len() == 0 {
    } else if is_checkbox(lines[0]) {
        if ordinal != 0 {
            lemma_checkbox_at(lines.drop_first(), (ordinal - 1) as nat);
        }
    } else {
        lemma_checkbox_at(lines.drop_first(), ordinal);
    }
}

/// `line` with the box at the start of its trimmed text flipped.
pub fn toggle_line(line: &Vec<char>) -> (out: Vec<char>)
    ensures
        out@ == toggled_line(line@),
{
    let (lo, hi) = trim_bounds(line);
    let checked = has_prefix(line, lo, hi, "- [x]") || has_prefix(line, lo, hi, "- [X]");
    let unchecked = has_prefix(line, lo, hi, "- [ ]");
    let mut out = slice_of(line, 0, line.len());
    assert(out@ =~= line@);
    if checked || unchecked {
        proof {
            reveal_strlit("- [x]");
            reveal_strlit("- [X]");
            reveal_strlit("- [ ]");
        }
        let ghost box_now = trimmed(line@).take(5);
        assert(hi - lo >= 5);
        assert forall|j: int| 0 <= j < 5 implies line@[lo + j] == #[trigger] box_now[j] by {
            assert(trimmed(line@)[j] == line@[lo + j]);
        }
        let mark: char = if checked {
            ' '
        } else {
            'x'
        };
        out.set(lo + 3, mark);
        proof {
            let want = toggled_line(line@);
            let lit = if checked {
                "- [ ]"@
            } else {
                "- [x]"@
            };
            assert(box_now[0] == '-' && box_now[1] == ' ' && box_now[2] == '[' && box_now[4]
                == ']');
            assert(want == line@.take(lo as int) + lit + line@.skip(lo + 5));
            assert(want.len() == line@.len());
            assert forall|j: int| 0 <= j < want.len() implies out@[j] == want[j] by {
                if j < lo {
                } else if j < lo + 5 {
                    assert(want[j] == lit[j - lo]);
                    assert(line@[j] == box_now[j - lo]);
                } else {
                }
            }
            assert(out@ =~= want);
        }
    }
    out
}

/// Flips the box of the task `ordinal` among `lines`.
pub fn toggle_lines(lines: &mut Vec<Vec<char>>, ordinal: usize)
    ensures
        lines_view(*final(lines)) == toggled_lines(lines_view(*old(lines)), ordinal as nat),
{
    let ghost all = lines_view(*lines);
    let mut seen: usize = 0;
    let mut i: usize = 0;
    assert(all.skip(0) =~= all);
    while i < lines.len()
        invariant
            i <= lines.len(),
            seen <= ordinal,
            *lines == *old(lines),
            all == lines_view(*lines),
            checkbox_at(all, ordinal as nat) == i + checkbox_at(
                all.skip(i as int),
                (ordinal - seen) as nat,
            ),
        decreases lines.len() - i,
    {
        let ghost rest = all.skip(i as int);
        assert(rest[0] == lines@[i as int]@);
        assert(rest.drop_first() =~= all.skip(i + 1));
        let (lo, hi) = trim_bounds(&lines[i]);
        if has_prefix(&lines[i], lo, hi, "- [") {
            if seen == ordinal {
                let flipped = toggle_line(&lines[i]);
                lines.set(i, flipped);
                assert(lines_view(*lines) =~= toggled_lines(all, ordinal as nat));
                return ;
            }
            seen += 1;
        }
        i += 1;
    }
    assert(all.skip(i as int).len() == 0);
}

/// The document `content` with the box of the task `ordinal` flipped. Where
/// the document has no such task, only its line endings change.
pub fn toggle_task(content: &str, ordinal: usize) -> (out: String)
    ensures
        out@ == toggled_text(content@, ordinal as nat),
{
    let text = chars_of(content);
    let mut lines = split(&text);
    toggle_lines(&mut lines, ordinal);
    let joined = join(&lines);
    string_of(&joined)
}

/// Why a task could not be toggled. Nothing about the document's text can
/// fail; only reading the document and writing it back can.
#[derive(Debug)]
pub enum ToggleError {
    /// The document could not be read; it is left untouched.
    Read(String),
    /// The changed document could not be written.
    Write(String),
}

/// What a failure is: its kind and the detail that came with it.
pub enum ToggleErrorView {
    Read(Seq<char>),
    Write(Seq<char>),
}

impl View for ToggleError {
    type V = ToggleErrorView;

    open spec fn view(&self) -> ToggleErrorView {
        match self {
            ToggleError::Read(detail) => ToggleErrorView::Read(detail@),
            ToggleError::Write(detail) => ToggleErrorView::Write(detail@),
        }
    }
}

/// The message that tells the caller of a failure.
pub open spec fn message_of(error: ToggleErrorView) -> Seq<char> {
    match error {
        ToggleErrorView::Read(detail) => "Failed to read project file: "@ + detail,
        ToggleErrorView::Write(detail) => "Failed to write project file: "@ + detail,
    }
}

impl ToggleError {
    /// The message that tells the caller of this failure.
    pub fn message(&self) -> (message: String)
        ensures
            message@ == message_of(self@),
    {
        match self {
            ToggleError::Read(detail) => {
                let mut message = String::from_str("Failed to read project file: ");
                message.append(detail.as_str());
                message
            },
            ToggleError::Write(detail) => {
                let mut message = String::from_str("Failed to write project file: ");
                message.append(detail.as_str());
                message
            },
        }
    }
}

/// What is to be written back, given what reading the document gave: the
/// document with the box of the task `ordinal` flipped, or the failure to
/// read it, in which case nothing is to be written.
pub fn toggle_document(read: Result<String, String>, ordinal: usize) -> (out: Result<
    String,
    ToggleError,
>)
    ensures
        read is Ok ==> out is Ok && out->Ok_0@ == toggled_text(read->Ok_0@, ordinal as nat),
        read is Err ==> out is Err && out->Err_0@ == ToggleErrorView::Read(read->Err_0@),
{
    match read {
        Ok(content) => Ok(toggle_task(content.as_str(), ordinal)),
        Err(detail) => Err(ToggleError::Read(detail)),
    }
}

} // verus!
