use project_ledger::listing::{
    flagged_projects_first, list_projects, lowered_is_active, sort_active_first,
    status_is_active, Document,
};
use project_ledger::model::Project;
use project_ledger::parse::parse_project;

fn document(stem: &str, content: &str) -> Document {
    Document { stem: stem.to_string(), content: content.to_string() }
}

fn with_status(stem: &str, status: &str) -> Project {
    parse_project(&format!("Status: {}\n", status), stem)
}

fn ids(projects: &Vec<Project>) -> Vec<String> {
    projects.iter().map(|p| p.id().to_string()).collect()
}

#[test]
fn active_projects_come_first() {
    let documents = vec![
        document("a", "Status: Blocked\n"),
        document("b", "Status: Active\n"),
        document("c", "Status: done\n"),
        document("d", "Status: ACTIVE-ish\n"),
    ];
    let projects = list_projects(&documents);
    assert_eq!(ids(&projects), vec!["b", "d", "a", "c"]);
    assert_eq!(projects[0].status(), "Active");
    assert_eq!(projects[1].status(), "ACTIVE-ish");
    assert_eq!(projects[2].status(), "Blocked");
    assert_eq!(projects[3].status(), "done");
}

#[test]
fn order_within_each_group_is_kept() {
    let projects = vec![
        with_status("1", "paused"),
        with_status("2", "active"),
        with_status("3", "Inactive"),
        with_status("4", "waiting"),
        with_status("5", "Reactivated"),
        with_status("6", "ACTIVE"),
    ];
    let sorted = sort_active_first(projects);
    assert_eq!(ids(&sorted), vec!["2", "3", "6", "1", "4", "5"]);
}

#[test]
fn listing_nothing_gives_nothing() {
    assert!(list_projects(&Vec::new()).is_empty());
    assert!(sort_active_first(Vec::new()).is_empty());
}

#[test]
fn each_document_is_read_on_its_own() {
    let documents = vec![
        document("one", "# One\n- [x] a\n"),
        document("two", "- [ ] b\n- [ ] c\nStatus: active now\n"),
    ];
    let projects = list_projects(&documents);
    assert_eq!(ids(&projects), vec!["two", "one"]);
    assert_eq!(projects[0].name(), "two");
    assert_eq!(projects[0].task_count(), 2);
    assert_eq!(projects[0].tasks_done(), 0);
    assert_eq!(projects[1].name(), "One");
    assert_eq!(projects[1].status(), "Unknown");
    assert_eq!(projects[1].tasks_done(), 1);
}

#[test]
fn status_is_active_looks_for_the_word_in_any_case() {
    assert!(status_is_active("Active"));
    assert!(status_is_active("ACTIVE-ish"));
    assert!(status_is_active("inactive"));
    assert!(status_is_active("not AcTiVe yet"));
    assert!(!status_is_active("Blocked"));
    assert!(!status_is_active("done"));
    assert!(!status_is_active(""));
    assert!(!status_is_active("activ"));
    assert!(!status_is_active("act ive"));
}

#[test]
fn lowered_status_is_searched_as_it_is() {
    let lowered: Vec<char> = "is active".chars().collect();
    assert!(lowered_is_active(&lowered));
    let upper: Vec<char> = "ACTIVE".chars().collect();
    assert!(!lowered_is_active(&upper));
}

#[test]
fn set_flags_come_first() {
    let projects = vec![
        with_status("1", "x"),
        with_status("2", "x"),
        with_status("3", "x"),
        with_status("4", "x"),
    ];
    let sorted = flagged_projects_first(projects, &vec![false, true, false, true]);
    assert_eq!(ids(&sorted), vec!["2", "4", "1", "3"]);
    let same = flagged_projects_first(sorted, &vec![true, true, true, true]);
    assert_eq!(ids(&same), vec!["2", "4", "1", "3"]);
    let still = flagged_projects_first(same, &vec![false, false, false, false]);
    assert_eq!(ids(&still), vec!["2", "4", "1", "3"]);
}
