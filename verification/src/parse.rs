//! Reading a document: from its text to a project record.
//!
//! A document is read line by line. Nothing in it is required: where a piece
//! is missing the project gets a stated default.

use vstd::prelude::*;
use crate::lines::{lines_view, split, split_lines};
use crate::model::{tasks_view, Project, ProjectView, Task, TaskView};
use crate::scan::{first_where, lemma_first_where_is};
use crate::text::{
    begins_with, chars_of, find_char, first_index_of, has_prefix, has_prefix_chars,
    line_has_prefix, lowercase_of, slice_of, string_of, to_lowercase, trim_bounds, trimmed,
};

verus! {

/// Whether `line` is a checkbox line: its trimmed text begins with `- [`.
pub open spec fn is_checkbox(line: Seq<char>) -> bool {
    begins_with(trimmed(line), "- ["@)
}

/// Whether `line` is marked as completed: its trimmed text begins with
/// `- [x] ` or `- [X] `.
pub open spec fn is_done(line: Seq<char>) -> bool {
    begins_with(trimmed(line), "- [x] "@) || begins_with(trimmed(line), "- [X] "@)
}

/// Whether the trimmed text of `line` begins with one of the three markers
/// that are taken off a task's text.
pub open spec fn has_marker(line: Seq<char>) -> bool {
    is_done(line) || begins_with(trimmed(line), "- [ ] "@)
}

/// The text of the task on `line`: the trimmed line without its marker,
/// where it has one of the three; else the trimmed line as it is.
pub open spec fn task_text(line: Seq<char>) -> Seq<char> {
    if has_marker(line) {
        trimmed(line).skip(6)
    } else {
        trimmed(line)
    }
}

/// The task on a checkbox line.
pub open spec fn task_of(line: Seq<char>) -> TaskView {
    TaskView { text: task_text(line), done: is_done(line) }
}

/// The tasks of the checkbox lines among `lines`, in order.
pub open spec fn tasks_of(lines: Seq<Seq<char>>) -> Seq<TaskView>
    decreases lines.len(),
{
    if lines.len() == 0 {
        Seq::empty()
    } else if is_checkbox(lines.last()) {
        tasks_of(lines.drop_last()).push(task_of(lines.last()))
    } else {
        tasks_of(lines.drop_last())
    }
}

/// The project's name: what follows `# ` on the first line that begins with
/// it; `stem` where there is no such line.
pub open spec fn name_of(lines: Seq<Seq<char>>, stem: Seq<char>) -> Seq<char> {
    let at = first_where(lines, |l: Seq<char>| begins_with(l, "# "@));
    if at < lines.len() {
        lines[at].skip(2)
    } else {
        stem
    }
}

/// What follows the first colon of `line`, trimmed; empty where `line` has
/// no colon.
pub open spec fn value_after_colon(line: Seq<char>) -> Seq<char> {
    let colon = first_index_of(line, ':');
    if colon < line.len() {
        trimmed(line.skip(colon + 1))
    } else {
        Seq::empty()
    }
}

/// The value of the field `key`: taken from the first line whose lowercase
/// form begins with `key`; `default` where there is no such line.
/// `lowered` holds the lowercase form of each line.
pub open spec fn field_of(
    lines: Seq<Seq<char>>,
    lowered: Seq<Seq<char>>,
    key: Seq<char>,
    default: Seq<char>,
) -> Seq<char> {
    let at = first_where(lowered, |l: Seq<char>| begins_with(l, key));
    if at < lines.len() {
        value_after_colon(lines[at])
    } else {
        default
    }
}

/// The first line of the section `section`. The section begins behind the
/// first line that begins with `## ` and the section's name. Its first line
/// is the first line there that is not empty, unless that line begins with
/// `## ` and so opens the next section.
pub open spec fn section_first_line(lines: Seq<Seq<char>>, section: Seq<char>) -> Option<
    Seq<char>,
> {
    let header = first_where(lines, |l: Seq<char>| begins_with(l, "## "@ + section));
    let body = lines.skip(header + 1);
    let at = first_where(body, |l: Seq<char>| l.len() > 0);
    if header < lines.len() && at < body.len() && !begins_with(body[at], "## "@) {
        Some(body[at])
    } else {
        None
    }
}

/// Whether `line` is passed over when the description is looked for at the
/// head of the document: a heading, a line of one of the fields `Status:`,
/// `Created:` and `Priority:`, or an empty line.
pub open spec fn is_preamble(line: Seq<char>) -> bool {
    ||| line.len() == 0
    ||| begins_with(line, "#"@)
    ||| begins_with(line, "Status:"@)
    ||| begins_with(line, "Created:"@)
    ||| begins_with(line, "Priority:"@)
}

/// The first line that is not passed over; empty where every line is.
pub open spec fn first_paragraph_line(lines: Seq<Seq<char>>) -> Seq<char> {
    let at = first_where(lines, |l: Seq<char>| !is_preamble(l));
    if at < lines.len() {
        lines[at]
    } else {
        Seq::empty()
    }
}

/// The project's description: the first line of the section `Description`,
/// else the first line that is not passed over, else empty.
pub open spec fn description_of(lines: Seq<Seq<char>>) -> Seq<char> {
    match section_first_line(lines, "Description"@) {
        Some(line) => line,
        None => first_paragraph_line(lines),
    }
}

/// The lowercase form of each line.
pub open spec fn lowered_lines(lines: Seq<Seq<char>>) -> Seq<Seq<char>> {
    Seq::new(lines.len(), |i: int| lowercase_of(lines[i]))
}

/// The project that `lines` describe, where `lowered` holds the lowercase
/// form of each line and `stem` is the stem of the document's file name.
pub open spec fn project_of(lines: Seq<Seq<char>>, lowered: Seq<Seq<char>>, stem: Seq<char>)
    -> ProjectView {
    ProjectView {
        id: stem,
        name: name_of(lines, stem),
        status: field_of(lines, lowered, "status:"@, "Unknown"@),
        category: field_of(lines, lowered, "category:"@, "personal"@),
        description: description_of(lines),
        tasks: tasks_of(lines),
    }
}

/// The project that the document `content` describes.
pub open spec fn parsed(content: Seq<char>, stem: Seq<char>) -> ProjectView {
    project_of(split_lines(content), lowered_lines(split_lines(content)), stem)
}

/// A document none of whose lines begins, in lowercase, with `status:` has
/// the status `Unknown`; one none of whose lines begins with `category:` has
/// the category `personal`.
pub proof fn lemma_missing_fields_get_defaults(content: Seq<char>, stem: Seq<char>)
    ensures
        (forall|i: int|
            0 <= i < split_lines(content).len() ==> !begins_with(
                lowercase_of(#[trigger] split_lines(content)[i]),
                "status:"@,
            )) ==> parsed(content, stem).status == "Unknown"@,
        (forall|i: int|
            0 <= i < split_lines(content).len() ==> !begins_with(
                lowercase_of(#[trigger] split_lines(content)[i]),
                "category:"@,
            )) ==> parsed(content, stem).category == "personal"@,
{
    let lines = split_lines(content);
    let lowered = lowered_lines(lines);
    if forall|i: int|
        0 <= i < lines.len() ==> !begins_with(lowercase_of(#[trigger] lines[i]), "status:"@) {
        assert forall|j: int| 0 <= j < lowered.len() implies !begins_with(
            #[trigger] lowered[j],
            "status:"@,
        ) by {
            assert(lowered[j] == lowercase_of(lines[j]));
        }
        lemma_first_where_is(
            lowered,
            |l: Seq<char>| begins_with(l, "status:"@),
            lowered.len() as int,
        );
    }
    if forall|i: int|
        0 <= i < lines.len() ==> !begins_with(lowercase_of(#[trigger] lines[i]), "category:"@) {
        assert forall|j: int| 0 <= j < lowered.len() implies !begins_with(
            #[trigger] lowered[j],
            "category:"@,
        ) by {
            assert(lowered[j] == lowercase_of(lines[j]));
        }
        lemma_first_where_is(
            lowered,
            |l: Seq<char>| begins_with(l, "category:"@),
            lowered.len() as int,
        );
    }
}

/// The index of the first line that begins with `pat`; the number of lines
/// where there is none.
fn first_line_with(lines: &Vec<Vec<char>>, pat: &Vec<char>) -> (at: usize)
    ensures
        at <= lines.len(),
        forall|j: int| 0 <= j < at ==> !begins_with(#[trigger] lines_view(*lines)[j], pat@),
        at < lines.len() ==> begins_with(lines_view(*lines)[at as int], pat@),
{
    let mut i: usize = 0;
    while i < lines.len()
        invariant
            i <= lines.len(),
            forall|j: int| 0 <= j < i ==> !begins_with(#[trigger] lines_view(*lines)[j], pat@),
        decreases lines.len() - i,
    {
        let line = &lines[i];
        assert(line@.subrange(0, line.len() as int) =~= line@);
        if has_prefix_chars(line, 0, line.len(), pat) {
            return i;
        }
        i += 1;
    }
    i
}

/// The task on `line`; `None` where `line` is no checkbox line.
pub fn task_of_line(line: &Vec<char>) -> (task: Option<Task>)
    ensures
        is_checkbox(line@) <==> task is Some,
        task is Some ==> task->0@ == task_of(line@),
{
    let (lo, hi) = trim_bounds(line);
    if !has_prefix(line, lo, hi, "- [") {
        return None;
    }
    let done = has_prefix(line, lo, hi, "- [x] ") || has_prefix(line, lo, hi, "- [X] ");
    let marked = done || has_prefix(line, lo, hi, "- [ ] ");
    let from: usize = if marked {
        proof {
            reveal_strlit("- [x] ");
            reveal_strlit("- [X] ");
            reveal_strlit("- [ ] ");
        }
        lo + 6
    } else {
        lo
    };
    let text = slice_of(line, from, hi);
    assert(text@ =~= task_text(line@));
    Some(Task::new(string_of(&text), done))
}

/// The tasks of the checkbox lines among `lines`, in order.
pub fn tasks_of_lines(lines: &Vec<Vec<char>>) -> (tasks: Vec<Task>)
    ensures
        tasks_view(tasks@) == tasks_of(lines_view(*lines)),
{
    let mut tasks: Vec<Task> = Vec::new();
    let mut i: usize = 0;
    assert(lines_view(*lines).take(0) =~= Seq::<Seq<char>>::empty());
    assert(tasks_view(tasks@) =~= Seq::<TaskView>::empty());
    while i < lines.len()
        invariant
            i <= lines.len(),
            tasks_view(tasks@) == tasks_of(lines_view(*lines).take(i as int)),
        decreases lines.len() - i,
    {
        let ghost next = lines_view(*lines).take(i + 1);
        assert(next.drop_last() =~= lines_view(*lines).take(i as int));
        assert(next.last() == lines@[i as int]@);
        match task_of_line(&lines[i]) {
            Some(task) => {
                let ghost before = tasks_view(tasks@);
                tasks.push(task);
                assert(tasks_view(tasks@) =~= before.push(task@));
            },
            None => {},
        }
        i += 1;
    }
    assert(lines_view(*lines).take(lines.len() as int) =~= lines_view(*lines));
    tasks
}

/// The project's name, from its lines and the stem of its file name.
pub fn name_from_lines(lines: &Vec<Vec<char>>, stem: &str) -> (name: String)
    ensures
        name@ == name_of(lines_view(*lines), stem@),
{
    let pat = chars_of("# ");
    let at = first_line_with(lines, &pat);
    proof {
        lemma_first_where_is(
            lines_view(*lines),
            |l: Seq<char>| begins_with(l, "# "@),
            at as int,
        );
    }
    if at < lines.len() {
        proof {
            reveal_strlit("# ");
        }
        let line = &lines[at];
        let rest = slice_of(line, 2, line.len());
        assert(rest@ =~= line@.skip(2));
        string_of(&rest)
    } else {
        String::from_str(stem)
    }
}

/// What follows the first colon of `line`, trimmed.
pub fn value_of_line(line: &Vec<char>) -> (value: String)
    ensures
        value@ == value_after_colon(line@),
{
    assert(line@.subrange(0, line.len() as int) =~= line@);
    let colon = find_char(line, 0, line.len(), ':');
    if colon < line.len() {
        let rest = slice_of(line, colon + 1, line.len());
        assert(rest@ =~= line@.skip(colon + 1));
        let (lo, hi) = trim_bounds(&rest);
        let value = slice_of(&rest, lo, hi);
        string_of(&value)
    } else {
        String::new()
    }
}

/// The value of the field `key`, from the lines and their lowercase forms.
pub fn field_from_lines(
    lines: &Vec<Vec<char>>,
    lowered: &Vec<Vec<char>>,
    key: &str,
    default: &str,
) -> (value: String)
    requires
        lowered.len() == lines.len(),
    ensures
        value@ == field_of(lines_view(*lines), lines_view(*lowered), key@, default@),
{
    let pat = chars_of(key);
    let at = first_line_with(lowered, &pat);
    proof {
        lemma_first_where_is(
            lines_view(*lowered),
            |l: Seq<char>| begins_with(l, key@),
            at as int,
        );
    }
    if at < lines.len() {
        value_of_line(&lines[at])
    } else {
        String::from_str(default)
    }
}

/// The first line of the section `section` among `lines`.
pub fn section_from_lines(lines: &Vec<Vec<char>>, section: &str) -> (line: Option<String>)
    ensures
        line is Some <==> section_first_line(lines_view(*lines), section@) is Some,
        line is Some ==> line->0@ == section_first_line(lines_view(*lines), section@)->0,
{
    let mut pat = chars_of("## ");
    let mut name = chars_of(section);
    pat.append(&mut name);
    assert(pat@ =~= "## "@ + section@);
    let header = first_line_with(lines, &pat);
    let ghost all = lines_view(*lines);
    proof {
        lemma_first_where_is(all, |l: Seq<char>| begins_with(l, "## "@ + section@), header as int);
    }
    if header >= lines.len() {
        return None;
    }
    let ghost body = all.skip(header + 1);
    let mut i: usize = header + 1;
    while i < lines.len() && lines[i].len() == 0
        invariant
            header < i <= lines.len(),
            body == all.skip(header + 1),
            all == lines_view(*lines),
            forall|j: int| 0 <= j < i - (header + 1) ==> (#[trigger] body[j]).len() == 0,
        decreases lines.len() - i,
    {
        i += 1;
    }
    proof {
        if i < lines.len() {
            assert(body[i - (header + 1)] == lines@[i as int]@);
        }
        lemma_first_where_is(body, |l: Seq<char>| l.len() > 0, i - (header + 1));
    }
    if i < lines.len() && !line_has_prefix(&lines[i], "## ") {
        Some(string_of(&lines[i]))
    } else {
        None
    }
}

/// The first line that is not passed over when the description is looked
/// for at the head of the document.
pub fn paragraph_from_lines(lines: &Vec<Vec<char>>) -> (line: String)
    ensures
        line@ == first_paragraph_line(lines_view(*lines)),
{
    let mut i: usize = 0;
    while i < lines.len() && (lines[i].len() == 0 || line_has_prefix(&lines[i], "#")
        || line_has_prefix(&lines[i], "Status:") || line_has_prefix(&lines[i], "Created:")
        || line_has_prefix(&lines[i], "Priority:"))
        invariant
            i <= lines.len(),
            forall|j: int| 0 <= j < i ==> is_preamble(#[trigger] lines_view(*lines)[j]),
        decreases lines.len() - i,
    {
        i += 1;
    }
    proof {
        lemma_first_where_is(lines_view(*lines), |l: Seq<char>| !is_preamble(l), i as int);
    }
    if i < lines.len() {
        string_of(&lines[i])
    } else {
        String::new()
    }
}

/// The project's description, from its lines.
pub fn description_from_lines(lines: &Vec<Vec<char>>) -> (description: String)
    ensures
        description@ == description_of(lines_view(*lines)),
{
    match section_from_lines(lines, "Description") {
        Some(line) => line,
        None => paragraph_from_lines(lines),
    }
}

/// The project that `lines` describe. `lowered` holds the lowercase form of
/// each line, and `stem` is the stem of the document's file name.
pub fn project_from_lines(lines: &Vec<Vec<char>>, lowered: &Vec<Vec<char>>, stem: &str) -> (project:
    Project)
    requires
        lowered.len() == lines.len(),
    ensures
        project@ == project_of(lines_view(*lines), lines_view(*lowered), stem@),
{
    let name = name_from_lines(lines, stem);
    let status = field_from_lines(lines, lowered, "status:", "Unknown");
    let category = field_from_lines(lines, lowered, "category:", "personal");
    let description = description_from_lines(lines);
    let tasks = tasks_of_lines(lines);
    Project::new(String::from_str(stem), name, status, category, description, tasks)
}

/// The lowercase form of each line.
pub fn lowercase_lines(lines: &Vec<Vec<char>>) -> (lowered: Vec<Vec<char>>)
    ensures
        lines_view(lowered) == lowered_lines(lines_view(*lines)),
{
    let mut lowered: Vec<Vec<char>> = Vec::new();
    let mut i: usize = 0;
    while i < lines.len()
        invariant
            i <= lines.len(),
            lowered.len() == i,
            forall|j: int| 0 <= j < i ==> (#[trigger] lowered@[j])@ == lowercase_of(lines@[j]@),
        decreases lines.len() - i,
    {
        let line = string_of(&lines[i]);
        let lowered_line = to_lowercase(line.as_str());
        lowered.push(chars_of(lowered_line.as_str()));
        i += 1;
    }
    assert(lines_view(lowered) =~= lowered_lines(lines_view(*lines)));
    lowered
}

/// Reads the document `content` of the file whose name has the stem `stem`.
/// Every document can be read: a missing piece gets its default.
pub fn parse_project(content: &str, stem: &str) -> (project: Project)
    ensures
        project@ == parsed(content@, stem@),
{
    let text = chars_of(content);
    let lines = split(&text);
    let lowered = lowercase_lines(&lines);
    assert(lowered.len() == lines_view(lowered).len());
    assert(lines.len() == lines_view(lines).len());
    project_from_lines(&lines, &lowered, stem)
}

/// The first line of the section `section` of the document `content`, where
/// the section is there and holds a line that is not empty.
pub fn extract_section(content: &str, section: &str) -> (line: Option<String>)
    ensures
        line is Some <==> section_first_line(split_lines(content@), section@) is Some,
        line is Some ==> line->0@ == section_first_line(split_lines(content@), section@)->0,
{
    let text = chars_of(content);
    let lines = split(&text);
    section_from_lines(&lines, section)
}

} // verus!
