use vstd::prelude::*;
use vstd::string::*;
use crate::decimal::{decimal, push_decimal};
use crate::task::{store_view, Task, TaskView};

verus! {

/// The one line shown for an empty store.
pub open spec fn no_tasks_line() -> Seq<char> {
    seq!['N', 'o', ' ', 't', 'a', 's', 'k', 's', ' ', 'f', 'o', 'u', 'n', 'd', '.']
}

/// The mark that tells a done task from an open one.
pub open spec fn marker(completed: bool) -> char {
    if completed {
        'x'
    } else {
        ' '
    }
}

/// The line shown for one task: `[id] m - content`, where `m` is `x` for a
/// done task and a space for an open one.
pub open spec fn row_text(t: TaskView) -> Seq<char> {
    seq!['['] + decimal(t.id) + seq![']', ' ', marker(t.completed), ' ', '-', ' '] + t.content
}

/// The lines shown for a store: one per task in store order, or the single
/// no-tasks line when the store is empty.
pub open spec fn list_spec(s: Seq<TaskView>) -> Seq<Seq<char>> {
    if s.len() == 0 {
        seq![no_tasks_line()]
    } else {
        s.map_values(|t: TaskView| row_text(t))
    }
}

/// The line shown for one task.
pub fn render_row(task: &Task) -> (r: String)
    ensures
        r@ == row_text(task@),
{
    proof {
        reveal_strlit("[");
        reveal_strlit("] x - ");
        reveal_strlit("]   - ");
    }
    let mut r = String::new();
    r.append("[");
    push_decimal(&mut r, task.id);
    if task.completed {
        r.append("] x - ");
    } else {
        r.append("]   - ");
    }
    r.append(task.content.as_str());
    assert(r@ =~= row_text(task@));
    r
}

/// The lines to show for the store, in store order; the single line
/// `No tasks found.` when it is empty.
pub fn list_tasks(tasks: &Vec<Task>) -> (r: Vec<String>)
    ensures
        r@.len() == list_spec(store_view(tasks@)).len(),
        forall|i: int| 0 <= i < r@.len() ==> #[trigger] r@[i]@ == list_spec(store_view(tasks@))[i],
        tasks@.len() == 0 ==> r@.len() == 1 && r@[0]@ == no_tasks_line(),
        tasks@.len() > 0 ==> r@.len() == tasks@.len(),
{
    let mut r: Vec<String> = Vec::new();
    if tasks.len() == 0 {
        proof {
            reveal_strlit("No tasks found.");
        }
        let line = String::from_str("No tasks found.");
        assert(line@ =~= no_tasks_line());
        r.push(line);
        return r;
    }
    let ghost s = store_view(tasks@);
    let mut i: usize = 0;
    while i < tasks.len()
        invariant
            s == store_view(tasks@),
            s.len() > 0,
            0 <= i <= tasks.len(),
            r@.len() == i,
            forall|k: int| 0 <= k < i ==> #[trigger] r@[k]@ == row_text(s[k]),
        decreases tasks.len() - i,
    {
        r.push(render_row(&tasks[i]));
        i = i + 1;
    }
    r
}

} // verus!
