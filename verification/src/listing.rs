//! Listing the projects of a directory: each document read on its own, and
//! the active projects put first.

use vstd::prelude::*;
use crate::model::{Project, ProjectView};
use crate::parse::{parse_project, parsed};
use crate::text::{chars_of, contains, contains_run, lowercase_of, to_lowercase};

verus! {

/// Whether a status counts as active: its lowercase form holds `active`.
pub open spec fn is_active(status: Seq<char>) -> bool {
    contains_run(lowercase_of(status), "active"@)
}

/// The items whose flag is `want`, in their order.
pub open spec fn flagged(items: Seq<ProjectView>, flags: Seq<bool>, want: bool) -> Seq<ProjectView>
    decreases items.len(),
{
    if items.len() == 0 || flags.len() != items.len() {
        Seq::empty()
    } else {
        let front = flagged(items.drop_last(), flags.drop_last(), want);
        if flags.last() == want {
            front.push(items.last())
        } else {
            front
        }
    }
}

/// The items with a set flag, then the others; each group in its order.
pub open spec fn flagged_first(items: Seq<ProjectView>, flags: Seq<bool>) -> Seq<ProjectView> {
    flagged(items, flags, true) + flagged(items, flags, false)
}

/// For each project, whether its status counts as active.
pub open spec fn active_flags(items: Seq<ProjectView>) -> Seq<bool> {
    Seq::new(items.len(), |i: int| is_active(items[i].status))
}

/// The active projects, then the others; each group in its order.
pub open spec fn active_first(items: Seq<ProjectView>) -> Seq<ProjectView> {
    flagged_first(items, active_flags(items))
}

/// The views of the projects in `projects`, in order.
pub open spec fn projects_view(projects: Seq<Project>) -> Seq<ProjectView> {
    Seq::new(projects.len(), |i: int| projects[i]@)
}

/// A document as it is handed in: the stem of its file name and its text.
#[derive(Debug)]
pub struct Document {
    pub stem: String,
    pub content: String,
}

/// The projects that the documents describe, in the documents' order.
pub open spec fn parsed_all(documents: Seq<Document>) -> Seq<ProjectView> {
    Seq::new(documents.len(), |i: int| parsed(documents[i].content@, documents[i].stem@))
}

/// The items whose flag is `want` are items of `items`; there are at most
/// as many of them, and the two groups together hold every item as often as
/// `items` does.
pub proof fn lemma_flagged_keeps_items(items: Seq<ProjectView>, flags: Seq<bool>)
    requires
        flags.len() == items.len(),
    ensures
        flagged(items, flags, true).len() + flagged(items, flags, false).len() == items.len(),
        flagged(items, flags, true).to_multiset().add(flagged(items, flags, false).to_multiset())
            == items.to_multiset(),
    decreases items.len(),
{
    broadcast use vstd::seq_lib::group_to_multiset_ensures;

    if items.len() == 0 {
        assert(items =~= Seq::<ProjectView>::empty());
        assert(flagged(items, flags, true).to_multiset().add(
            flagged(items, flags, false).to_multiset(),
        ) =~= items.to_multiset());
    } else {
        let front = items.drop_last();
        lemma_flagged_keeps_items(front, flags.drop_last());
        assert(items =~= front.push(items.last()));
        assert(front.push(items.last()).to_multiset() =~= front.to_multiset().insert(items.last()));
        assert(flagged(items, flags, true).to_multiset().add(
            flagged(items, flags, false).to_multiset(),
        ) =~= items.to_multiset());
    }
}

/// Every item among those flagged `want` is active exactly if `want` says
/// so, where the flags say which items are active.
pub proof fn lemma_flagged_by_activity(items: Seq<ProjectView>, want: bool)
    ensures
        forall|k: int|
            0 <= k < flagged(items, active_flags(items), want).len() ==> is_active(
                (#[trigger] flagged(items, active_flags(items), want)[k]).status,
            ) == want,
    decreases items.len(),
{
    let flags = active_flags(items);
    let kept = flagged(items, flags, want);
    if items.len() > 0 {
        let front = items.drop_last();
        let kept_front = flagged(front, active_flags(front), want);
        lemma_flagged_by_activity(front, want);
        assert(flags.drop_last() =~= active_flags(front));
        assert(flags.last() == is_active(items.last().status));
        assert forall|k: int| 0 <= k < kept.len() implies is_active((#[trigger] kept[k]).status)
            == want by {
            if k < kept_front.len() {
                assert(kept[k] == kept_front[k]);
            } else {
                assert(kept[k] == items.last());
            }
        }
    }
}

/// Putting the active projects first keeps every project, as often as it
/// was there, and leaves no active project behind one that is not active.
/// Within the active projects, and within the others, the order is kept:
/// that is how `active_first` is defined.
pub proof fn lemma_active_first_is_sorted(items: Seq<ProjectView>)
    ensures
        active_first(items).len() == items.len(),
        active_first(items).to_multiset() == items.to_multiset(),
        forall|i: int, j: int|
            0 <= i < j < items.len() && is_active(active_first(items)[j].status) ==> is_active(
                active_first(items)[i].status,
            ),
{
    let flags = active_flags(items);
    let first = flagged(items, flags, true);
    let rest = flagged(items, flags, false);
    lemma_flagged_keeps_items(items, flags);
    lemma_flagged_by_activity(items, true);
    lemma_flagged_by_activity(items, false);
    vstd::seq_lib::lemma_multiset_commutative(first, rest);
    assert forall|i: int, j: int|
        0 <= i < j < items.len() && is_active(active_first(items)[j].status) implies is_active(
        active_first(items)[i].status,
    ) by {
        if j >= first.len() {
            assert(active_first(items)[j] == rest[j - first.len()]);
        } else {
            assert(active_first(items)[i] == first[i]);
        }
    }
}

/// Whether the lowercase form `lowered` of a status holds `active`.
pub fn lowered_is_active(lowered: &Vec<char>) -> (r: bool)
    ensures
        r == contains_run(lowered@, "active"@),
{
    contains(lowered, "active")
}

/// Whether `status` counts as active.
pub fn status_is_active(status: &str) -> (r: bool)
    ensures
        r == is_active(status@),
{
    let lowered = to_lowercase(status);
    lowered_is_active(&chars_of(lowered.as_str()))
}

/// The projects with a set flag, then the others; each group in its order.
pub fn flagged_projects_first(projects: Vec<Project>, flags: &Vec<bool>) -> (out: Vec<Project>)
    requires
        flags.len() == projects.len(),
    ensures
        projects_view(out@) == flagged_first(projects_view(projects@), flags@),
{
    let ghost items = projects_view(projects@);
    let mut first: Vec<Project> = Vec::new();
    let mut rest: Vec<Project> = Vec::new();
    let mut i: usize = 0;
    assert(items.take(0) =~= Seq::<ProjectView>::empty());
    assert(projects_view(first@) =~= Seq::<ProjectView>::empty());
    assert(projects_view(rest@) =~= Seq::<ProjectView>::empty());
    for project in it: projects
        invariant
            it.seq() == projects@,
            i == it.index(),
            flags.len() == projects.len(),
            items == projects_view(projects@),
            projects_view(first@) == flagged(items.take(i as int), flags@.take(i as int), true),
            projects_view(rest@) == flagged(items.take(i as int), flags@.take(i as int), false),
    {
        assert(items.take(i + 1).drop_last() =~= items.take(i as int));
        assert(flags@.take(i + 1).drop_last() =~= flags@.take(i as int));
        assert(items.take(i + 1).last() == project@);
        if flags[i] {
            let ghost before = projects_view(first@);
            first.push(project);
            assert(projects_view(first@) =~= before.push(project@));
        } else {
            let ghost before = projects_view(rest@);
            rest.push(project);
            assert(projects_view(rest@) =~= before.push(project@));
        }
        i += 1;
    }
    assert(items.take(i as int) =~= items);
    assert(flags@.take(i as int) =~= flags@);
    let ghost head = projects_view(first@);
    let ghost tail = projects_view(rest@);
    first.append(&mut rest);
    assert(projects_view(first@) =~= head + tail);
    first
}

/// The active projects, then the others; each group in its order.
pub fn sort_active_first(projects: Vec<Project>) -> (out: Vec<Project>)
    ensures
        projects_view(out@) == active_first(projects_view(projects@)),
{
    let mut flags: Vec<bool> = Vec::new();
    let mut i: usize = 0;
    while i < projects.len()
        invariant
            i <= projects.len(),
            flags.len() == i,
            forall|j: int| 0 <= j < i ==> flags@[j] == is_active(#[trigger] projects@[j]@.status),
        decreases projects.len() - i,
    {
        flags.push(status_is_active(projects[i].status()));
        i += 1;
    }
    assert(flags@ =~= active_flags(projects_view(projects@)));
    flagged_projects_first(projects, &flags)
}

/// The projects of the documents, each read on its own, active ones first.
pub fn list_projects(documents: &Vec<Document>) -> (out: Vec<Project>)
    ensures
        projects_view(out@) == active_first(parsed_all(documents@)),
{
    let mut projects: Vec<Project> = Vec::new();
    let mut i: usize = 0;
    while i < documents.len()
        invariant
            i <= documents.len(),
            projects.len() == i,
            forall|j: int|
                0 <= j < i ==> (#[trigger] projects@[j])@ == parsed(
                    documents@[j].content@,
                    documents@[j].stem@,
                ),
        decreases documents.len() - i,
    {
        let document = &documents[i];
        projects.push(parse_project(document.content.as_str(), document.stem.as_str()));
        i += 1;
    }
    assert(projects_view(projects@) =~= parsed_all(documents@));
    sort_active_first(projects)
}

} // verus!
