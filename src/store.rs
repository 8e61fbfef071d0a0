use vstd::prelude::*;
use crate::task::{store_view, Task, TaskView};

verus! {

/// Why a task could not be completed.
#[derive(Debug, Clone, Copy, PartialEq, Eq, Structural)]
pub enum CompleteError {
    /// No task in the store has the id asked for.
    NotFound,
    /// The task asked for is already done; it stays done.
    AlreadyCompleted,
}

/// The store after `content` is added: a new, not yet completed task whose
/// id is one more than the number of tasks before it.
pub open spec fn add_spec(s: Seq<TaskView>, content: Seq<char>) -> Seq<TaskView> {
    s.push(TaskView { id: s.len() + 1, content, completed: false })
}

/// The store after adding each of `contents` in turn.
pub open spec fn add_all_spec(s: Seq<TaskView>, contents: Seq<Seq<char>>) -> Seq<TaskView>
    decreases contents.len(),
{
    if contents.len() == 0 {
        s
    } else {
        add_spec(add_all_spec(s, contents.drop_last()), contents.last())
    }
}

/// The position of the first task with the given id, if there is one.
pub open spec fn first_index(s: Seq<TaskView>, id: nat) -> Option<int>
    decreases s.len(),
{
    if s.len() == 0 {
        None
    } else {
        match first_index(s.drop_last(), id) {
            Some(i) => Some(i),
            None => if s.last().id == id {
                Some(s.len() - 1)
            } else {
                None
            },
        }
    }
}

/// A task marked as done, all else kept.
pub open spec fn completed_view(t: TaskView) -> TaskView {
    TaskView { completed: true, ..t }
}

/// The store and the outcome after asking to complete the task with `id`.
pub open spec fn complete_spec(s: Seq<TaskView>, id: nat) -> (Seq<TaskView>, Result<(), CompleteError>) {
    match first_index(s, id) {
        None => (s, Err(CompleteError::NotFound)),
        Some(i) => if s[i].completed {
            (s, Err(CompleteError::AlreadyCompleted))
        } else {
            (s.update(i, completed_view(s[i])), Ok(()))
        },
    }
}

/// `first_index` finds a task with that id exactly when there is one, and
/// no task before it has that id.
pub proof fn lemma_first_index(s: Seq<TaskView>, id: nat)
    ensures
        first_index(s, id) is None <==> (forall|j: int| 0 <= j < s.len() ==> s[j].id != id),
        first_index(s, id) matches Some(i) ==> {
            &&& 0 <= i < s.len()
            &&& s[i].id == id
            &&& forall|j: int| 0 <= j < i ==> s[j].id != id
        },
    decreases s.len(),
{
    if s.len() > 0 {
        lemma_first_index(s.drop_last(), id);
        assert forall|j: int| 0 <= j < s.len() - 1 implies s.drop_last()[j] == s[j] by {}
    }
}

/// A first match in a prefix of the store is the first match in the store.
proof fn lemma_first_index_prefix(s: Seq<TaskView>, k: int, id: nat)
    requires
        0 <= k <= s.len(),
        first_index(s.take(k), id) is Some,
    ensures
        first_index(s, id) == first_index(s.take(k), id),
    decreases s.len(),
{
    if k == s.len() {
        assert(s.take(k) =~= s);
    } else {
        assert(s.drop_last().take(k) =~= s.take(k));
        lemma_first_index_prefix(s.drop_last(), k, id);
    }
}

/// Adds a new task with the given content at the end of the store. Its id is
/// the number of tasks before it plus one, and it is not yet completed.
pub fn add_task(tasks: &mut Vec<Task>, content: String)
    requires
        old(tasks).len() < u32::MAX,
    ensures
        store_view(final(tasks)@) == add_spec(store_view(old(tasks)@), content@),
{
    let id: u32 = tasks.len() as u32 + 1;
    tasks.push(Task::new(id, content));
    assert(store_view(tasks@) =~= add_spec(store_view(old(tasks)@), content@));
}

/// The position of the first task whose id is `task_id`, if any.
pub fn find_task(tasks: &Vec<Task>, task_id: u32) -> (r: Option<usize>)
    ensures
        r matches Some(i) ==> i < tasks.len(),
        r matches Some(i) ==> first_index(store_view(tasks@), task_id as nat) == Some(i as int),
        r is None ==> first_index(store_view(tasks@), task_id as nat) is None,
{
    let ghost s = store_view(tasks@);
    let mut i: usize = 0;
    while i < tasks.len()
        invariant
            s == store_view(tasks@),
            0 <= i <= tasks.len(),
            first_index(s.take(i as int), task_id as nat) is None,
        decreases tasks.len() - i,
    {
        assert(s.take(i + 1).drop_last() =~= s.take(i as int));
        if tasks[i].id == task_id {
            proof {
                lemma_first_index_prefix(s, i + 1, task_id as nat);
            }
            return Some(i);
        }
        i = i + 1;
    }
    assert(s.take(i as int) =~= s);
    None
}

/// Marks the first task with id `task_id` as completed. Fails with `NotFound`
/// when no task has that id, and with `AlreadyCompleted` when it is already
/// done; on failure the store is left as it was.
pub fn complete_task(tasks: &mut Vec<Task>, task_id: u32) -> (r: Result<(), CompleteError>)
    ensures
        (store_view(final(tasks)@), r) == complete_spec(store_view(old(tasks)@), task_id as nat),
{
    match find_task(tasks, task_id) {
        None => Err(CompleteError::NotFound),
        Some(i) => {
            if tasks[i].completed {
                Err(CompleteError::AlreadyCompleted)
            } else {
                let content = tasks[i].content.clone();
                let done = Task { id: tasks[i].id, content, completed: true };
                tasks.set(i, done);
                assert(store_view(tasks@) =~= store_view(old(tasks)@).update(
                    i as int,
                    completed_view(store_view(old(tasks)@)[i as int]),
                ));
                Ok(())
            }
        },
    }
}


/// Adding contents one after another to an empty store gives the tasks
/// numbered 1, 2, ... in the order of the contents, none of them completed.
pub proof fn lemma_add_all_numbers_in_order(contents: Seq<Seq<char>>)
    ensures
        add_all_spec(Seq::empty(), contents).len() == contents.len(),
        forall|i: int|
            0 <= i < contents.len() ==> #[trigger] add_all_spec(Seq::empty(), contents)[i] == (
            TaskView { id: (i + 1) as nat, content: contents[i], completed: false }),
    decreases contents.len(),
{
    if contents.len() > 0 {
        let rest = contents.drop_last();
        lemma_add_all_numbers_in_order(rest);
        assert forall|i: int| 0 <= i < rest.len() implies rest[i] == contents[i] by {}
    }
}

/// Completing the first task with `id`, when it is not done yet, succeeds,
/// marks that task done and changes no other task. Asking again fails with
/// `AlreadyCompleted` and changes nothing.
pub proof fn lemma_complete_marks_only_that_task(s: Seq<TaskView>, id: nat, i: int)
    requires
        0 <= i < s.len(),
        s[i].id == id,
        !s[i].completed,
        forall|j: int| 0 <= j < i ==> s[j].id != id,
    ensures
        complete_spec(s, id).1 == Ok::<(), CompleteError>(()),
        complete_spec(s, id).0.len() == s.len(),
        complete_spec(s, id).0[i] == completed_view(s[i]),
        forall|j: int| 0 <= j < s.len() && j != i ==> #[trigger] complete_spec(s, id).0[j] == s[j],
        complete_spec(complete_spec(s, id).0, id) == (
            complete_spec(s, id).0,
            Err::<(), CompleteError>(CompleteError::AlreadyCompleted),
        ),
{
    lemma_first_index(s, id);
    let t = complete_spec(s, id).0;
    assert(first_index(s, id) == Some(i)) by {
        if first_index(s, id) is None {
            assert(s[i].id == id);
        }
    }
    lemma_first_index(t, id);
    assert(first_index(t, id) == Some(i)) by {
        if first_index(t, id) is None {
            assert(t[i].id == id);
        }
        let k = first_index(t, id)->0;
        if k < i {
            assert(t[k] == s[k]);
        }
    }
}

/// Completing never turns a done task back into an undone one.
pub proof fn lemma_complete_keeps_done(s: Seq<TaskView>, id: nat, j: int)
    requires
        0 <= j < s.len(),
        s[j].completed,
    ensures
        complete_spec(s, id).0.len() == s.len(),
        complete_spec(s, id).0[j].completed,
{
    lemma_first_index(s, id);
}

/// Completing an id that no task has changes nothing and fails with
/// `NotFound`.
pub proof fn lemma_complete_absent(s: Seq<TaskView>, id: nat)
    requires
        forall|j: int| 0 <= j < s.len() ==> s[j].id != id,
    ensures
        complete_spec(s, id) == (s, Err::<(), CompleteError>(CompleteError::NotFound)),
{
    lemma_first_index(s, id);
}

} // verus!
