use project_ledger::parse::parse_project;
use project_ledger::toggle::{toggle_document, toggle_line, toggle_lines, toggle_task, ToggleError};

fn chars(s: &str) -> Vec<char> {
    s.chars().collect()
}

fn text(v: &Vec<char>) -> String {
    v.iter().collect()
}

fn done_flags(content: &str) -> Vec<bool> {
    parse_project(content, "p").tasks().iter().map(|t| t.done()).collect()
}

#[test]
fn unchecked_box_becomes_checked() {
    assert_eq!(toggle_task("- [ ] a", 0), "- [x] a");
}

#[test]
fn checked_box_becomes_unchecked() {
    assert_eq!(toggle_task("- [x] a", 0), "- [ ] a");
    assert_eq!(toggle_task("- [X] a", 0), "- [ ] a");
}

#[test]
fn box_without_text_is_flipped() {
    assert_eq!(text(&toggle_line(&chars("- [x]"))), "- [ ]");
    assert_eq!(text(&toggle_line(&chars("- [ ]"))), "- [x]");
    assert_eq!(text(&toggle_line(&chars("- [X]tight"))), "- [ ]tight");
}

#[test]
fn white_space_around_the_line_stays() {
    assert_eq!(text(&toggle_line(&chars("  \t- [ ] a  "))), "  \t- [x] a  ");
    assert_eq!(text(&toggle_line(&chars("\u{3000}- [x] a\u{a0}"))), "\u{3000}- [ ] a\u{a0}");
}

#[test]
fn only_the_box_at_the_start_is_flipped() {
    assert_eq!(text(&toggle_line(&chars("- [x] a - [X] b - [x] c"))), "- [ ] a - [X] b - [x] c");
    assert_eq!(text(&toggle_line(&chars("- [ ] a - [ ] b"))), "- [x] a - [ ] b");
}

#[test]
fn line_without_a_box_stays() {
    assert_eq!(text(&toggle_line(&chars("- [?] weird"))), "- [?] weird");
    assert_eq!(text(&toggle_line(&chars("plain"))), "plain");
    assert_eq!(text(&toggle_line(&chars(""))), "");
    assert_eq!(text(&toggle_line(&chars("- ["))), "- [");
    assert_eq!(text(&toggle_line(&chars("x - [ ] later"))), "x - [ ] later");
}

#[test]
fn the_task_is_found_by_its_ordinal() {
    let doc = "# T\n- [ ] a\ntext\n  - [x] b\n- [ ] c";
    assert_eq!(toggle_task(doc, 0), "# T\n- [x] a\ntext\n  - [x] b\n- [ ] c");
    assert_eq!(toggle_task(doc, 1), "# T\n- [ ] a\ntext\n  - [ ] b\n- [ ] c");
    assert_eq!(toggle_task(doc, 2), "# T\n- [ ] a\ntext\n  - [x] b\n- [x] c");
}

#[test]
fn malformed_checkbox_counts_but_does_not_change() {
    let doc = "- [?] weird\n- [ ] b";
    assert_eq!(toggle_task(doc, 0), doc);
    assert_eq!(toggle_task(doc, 1), "- [?] weird\n- [x] b");
}

#[test]
fn ordinal_out_of_range_changes_no_task() {
    let doc = "# T\n- [ ] a\n- [x] b";
    assert_eq!(toggle_task(doc, 2), doc);
    assert_eq!(toggle_task(doc, 100), doc);
    assert_eq!(toggle_task(doc, usize::MAX), doc);
    assert_eq!(done_flags(&toggle_task(doc, 2)), done_flags(doc));
    assert_eq!(toggle_task("", 0), "");
    assert_eq!(toggle_task("no tasks\n", 0), "no tasks");
}

#[test]
fn line_endings_are_normalised() {
    assert_eq!(toggle_task("a\r\n- [ ] b\r\nc\r\n", 0), "a\n- [x] b\nc");
    assert_eq!(toggle_task("a\n\n- [ ] b\n", 5), "a\n\n- [ ] b");
    assert_eq!(toggle_task("a\n\n", 0), "a\n");
    assert_eq!(toggle_task("a\rb", 0), "a\rb");
}

#[test]
fn toggling_twice_restores_the_document() {
    let doc = "# T\nStatus: Active\n\n- [ ] a\n  - [x] b  \n- [?] c\nend";
    for k in 0..5 {
        let once = toggle_task(doc, k);
        let twice = toggle_task(&once, k);
        assert_eq!(twice, doc);
    }
    let with_newline = "- [ ] a\n- [x] b\n";
    assert_eq!(toggle_task(&toggle_task(with_newline, 1), 1), "- [ ] a\n- [x] b");
}

#[test]
fn capital_mark_comes_back_small() {
    let once = toggle_task("- [X] a", 0);
    assert_eq!(once, "- [ ] a");
    assert_eq!(toggle_task(&once, 0), "- [x] a");
}

#[test]
fn toggling_changes_exactly_one_task() {
    let doc = "# T\n- [ ] a\n- [x] b\nnote\n- [X] c\n- [ ] d\n";
    let before = done_flags(doc);
    assert_eq!(before, vec![false, true, true, false]);
    for k in 0..before.len() {
        let after = done_flags(&toggle_task(doc, k));
        assert_eq!(after.len(), before.len());
        for j in 0..before.len() {
            if j == k {
                assert_eq!(after[j], !before[j]);
            } else {
                assert_eq!(after[j], before[j]);
            }
        }
    }
}

#[test]
fn toggling_keeps_the_task_texts() {
    let doc = "- [ ] first\r\n- [x] second\r\n";
    let after = parse_project(&toggle_task(doc, 1), "p");
    assert_eq!(after.tasks()[0].text(), "first");
    assert_eq!(after.tasks()[1].text(), "second");
    assert!(!after.tasks()[1].done());
}

#[test]
fn end_to_end_toggle_then_read() {
    let doc = "# Proj One\nStatus: Active\n\n- [ ] first\n- [x] second\n";
    let project = parse_project(&toggle_task(doc, 0), "proj1");
    assert!(project.tasks()[0].done());
    assert!(project.tasks()[1].done());
    assert_eq!(project.tasks_done(), 2);
    assert_eq!(project.task_count(), 2);
    assert_eq!(project.name(), "Proj One");
    assert_eq!(project.status(), "Active");
}

#[test]
fn lines_are_changed_in_place() {
    let mut lines = vec![chars("- [ ] a"), chars("b"), chars("- [ ] c")];
    toggle_lines(&mut lines, 1);
    assert_eq!(lines, vec![chars("- [ ] a"), chars("b"), chars("- [x] c")]);
    toggle_lines(&mut lines, 2);
    assert_eq!(lines, vec![chars("- [ ] a"), chars("b"), chars("- [x] c")]);
    toggle_lines(&mut lines, 0);
    toggle_lines(&mut lines, 1);
    assert_eq!(lines, vec![chars("- [x] a"), chars("b"), chars("- [ ] c")]);
}

#[test]
fn document_that_was_read_is_toggled() {
    let out = toggle_document(Ok("- [ ] a\n- [ ] b\n".to_string()), 1);
    assert_eq!(out.unwrap(), "- [ ] a\n- [x] b");
    let same = toggle_document(Ok("- [ ] a".to_string()), 7);
    assert_eq!(same.unwrap(), "- [ ] a");
}

#[test]
fn failure_to_read_is_handed_on() {
    let out = toggle_document(Err("No such file or directory (os error 2)".to_string()), 0);
    match out {
        Err(ToggleError::Read(detail)) => {
            assert_eq!(detail, "No such file or directory (os error 2)")
        }
        other => panic!("{:?}", other),
    }
}

#[test]
fn failures_have_their_messages() {
    assert_eq!(
        ToggleError::Read("gone".to_string()).message(),
        "Failed to read project file: gone"
    );
    assert_eq!(
        ToggleError::Write("disk full".to_string()).message(),
        "Failed to write project file: disk full"
    );
    assert_eq!(ToggleError::Write(String::new()).message(), "Failed to write project file: ");
}
