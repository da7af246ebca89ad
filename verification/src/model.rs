//! The records that a document is read into: a project and its tasks.

use vstd::prelude::*;

verus! {

/// What a task is: its text and whether it is completed.
pub struct TaskView {
    pub text: Seq<char>,
    pub done: bool,
}

/// What a project is. The number of tasks and the number of completed tasks
/// are not part of it: they follow from `tasks`.
pub struct ProjectView {
    pub id: Seq<char>,
    pub name: Seq<char>,
    pub status: Seq<char>,
    pub category: Seq<char>,
    pub description: Seq<char>,
    pub tasks: Seq<TaskView>,
}

/// The number of completed tasks among `tasks`.
pub open spec fn done_count(tasks: Seq<TaskView>) -> nat
    decreases tasks.len(),
{
    if tasks.len() == 0 {
        0
    } else {
        done_count(tasks.drop_last()) + if tasks.last().done {
            1nat
        } else {
            0nat
        }
    }
}

/// No more tasks are completed than there are.
pub proof fn lemma_done_count_bound(tasks: Seq<TaskView>)
    ensures
        done_count(tasks) <= tasks.len(),
    decreases tasks.len(),
{
    if tasks.len() > 0 {
        lemma_done_count_bound(tasks.drop_last());
    }
}

/// One task of a project. Within one reading of a document a task is known
/// by its position among the tasks.
#[derive(Debug)]
pub struct Task {
    text: String,
    done: bool,
}

impl View for Task {
    type V = TaskView;

    closed spec fn view(&self) -> TaskView {
        TaskView { text: self.text@, done: self.done }
    }
}

impl Clone for Task {
    fn clone(&self) -> (task: Task)
        ensures
            task@ == self@,
    {
        Task { text: self.text.clone(), done: self.done }
    }
}

impl Task {
    /// A task with the given text and state.
    pub fn new(text: String, done: bool) -> (task: Task)
        ensures
            task@ == (TaskView { text: text@, done }),
    {
        Task { text, done }
    }

    /// The task's text.
    pub fn text(&self) -> (text: &str)
        ensures
            text@ == self@.text,
    {
        self.text.as_str()
    }

    /// Whether the task is completed.
    pub fn done(&self) -> (done: bool)
        ensures
            done == self@.done,
    {
        self.done
    }
}

/// The views of the tasks in `tasks`, in order.
pub open spec fn tasks_view(tasks: Seq<Task>) -> Seq<TaskView> {
    Seq::new(tasks.len(), |i: int| tasks[i]@)
}

/// A project as read from one document.
#[derive(Debug)]
pub struct Project {
    id: String,
    name: String,
    status: String,
    category: String,
    description: String,
    task_count: usize,
    tasks_done: usize,
    tasks: Vec<Task>,
}

impl View for Project {
    type V = ProjectView;

    closed spec fn view(&self) -> ProjectView {
        ProjectView {
            id: self.id@,
            name: self.name@,
            status: self.status@,
            category: self.category@,
            description: self.description@,
            tasks: tasks_view(self.tasks@),
        }
    }
}

impl Project {
    /// The two counts agree with the tasks.
    #[verifier::type_invariant]
    closed spec fn counts_agree(self) -> bool {
        &&& self.task_count == self.tasks@.len()
        &&& self.tasks_done == done_count(tasks_view(self.tasks@))
    }

    /// A project with the given fields; the counts are taken from `tasks`.
    pub fn new(
        id: String,
        name: String,
        status: String,
        category: String,
        description: String,
        tasks: Vec<Task>,
    ) -> (project: Project)
        ensures
            project@ == (ProjectView {
                id: id@,
                name: name@,
                status: status@,
                category: category@,
                description: description@,
                tasks: tasks_view(tasks@),
            }),
    {
        let task_count: usize = tasks.len();
        let mut tasks_done: usize = 0;
        let mut i: usize = 0;
        assert(tasks_view(tasks@).take(0) =~= Seq::<TaskView>::empty());
        while i < task_count
            invariant
                i <= task_count,
                task_count == tasks.len(),
                tasks_done == done_count(tasks_view(tasks@).take(i as int)),
                tasks_done <= i,
            decreases task_count - i,
        {
            let ghost next = tasks_view(tasks@).take(i + 1);
            assert(next.drop_last() =~= tasks_view(tasks@).take(i as int));
            assert(next.last() == tasks@[i as int]@);
            if tasks[i].done() {
                tasks_done += 1;
            }
            i += 1;
        }
        assert(tasks_view(tasks@).take(task_count as int) =~= tasks_view(tasks@));
        Project { id, name, status, category, description, task_count, tasks_done, tasks }
    }

    /// The project's identifier: the stem of its document's file name.
    pub fn id(&self) -> (id: &str)
        ensures
            id@ == self@.id,
    {
        self.id.as_str()
    }

    /// The project's name.
    pub fn name(&self) -> (name: &str)
        ensures
            name@ == self@.name,
    {
        self.name.as_str()
    }

    /// The project's status.
    pub fn status(&self) -> (status: &str)
        ensures
            status@ == self@.status,
    {
        self.status.as_str()
    }

    /// The project's category.
    pub fn category(&self) -> (category: &str)
        ensures
            category@ == self@.category,
    {
        self.category.as_str()
    }

    /// The project's description.
    pub fn description(&self) -> (description: &str)
        ensures
            description@ == self@.description,
    {
        self.description.as_str()
    }

    /// The number of tasks.
    pub fn task_count(&self) -> (count: usize)
        ensures
            count == self@.tasks.len(),
    {
        proof {
            use_type_invariant(self);
        }
        self.task_count
    }

    /// The number of completed tasks.
    pub fn tasks_done(&self) -> (count: usize)
        ensures
            count == done_count(self@.tasks),
            count <= self@.tasks.len(),
    {
        proof {
            use_type_invariant(self);
            lemma_done_count_bound(self@.tasks);
        }
        self.tasks_done
    }

    /// The tasks, in the order of the document.
    pub fn tasks(&self) -> (tasks: &Vec<Task>)
        ensures
            tasks_view(tasks@) == self@.tasks,
    {
        &self.tasks
    }
}

} // verus!
