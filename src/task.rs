use vstd::prelude::*;

verus! {

/// One unit of work: its number, what it says, and whether it is done.
#[derive(Debug, Clone)]
pub struct Task {
    pub id: u32,
    pub content: String,
    pub completed: bool,
}

/// The mathematical value of a [`Task`].
pub struct TaskView {
    pub id: nat,
    pub content: Seq<char>,
    pub completed: bool,
}

impl View for Task {
    type V = TaskView;

    open spec fn view(&self) -> TaskView {
        TaskView { id: self.id as nat, content: self.content@, completed: self.completed }
    }
}

impl PartialEq for Task {
    fn eq(&self, other: &Task) -> (r: bool)
        ensures
            r == (self@ == other@),
    {
        self.id == other.id && self.content == other.content && self.completed == other.completed
    }
}

impl vstd::std_specs::cmp::PartialEqSpecImpl for Task {
    open spec fn obeys_eq_spec() -> bool {
        true
    }

    open spec fn eq_spec(&self, other: &Task) -> bool {
        self@ == other@
    }
}

impl Eq for Task {
}

impl Task {
    /// A task that is not yet done.
    pub fn new(id: u32, content: String) -> (t: Task)
        ensures
            t@ == (TaskView { id: id as nat, content: content@, completed: false }),
    {
        Task { id, content, completed: false }
    }
}

/// The view of a whole store.
pub open spec fn store_view(tasks: Seq<Task>) -> Seq<TaskView> {
    tasks.map_values(|t: Task| t@)
}

} // verus!
