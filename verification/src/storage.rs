//! Choosing an id for a new task from the tasks alone: one more than the
//! largest id in use.

use vstd::prelude::*;

use crate::task::{task_views, Task, TaskView};

verus! {

/// The largest id among the tasks, 0 when there are none.
pub open spec fn max_id(tasks: Seq<TaskView>) -> nat
    decreases tasks.len(),
{
    if tasks.len() == 0 {
        0
    } else {
        let m = max_id(tasks.drop_last());
        if tasks.last().id > m {
            tasks.last().id as nat
        } else {
            m
        }
    }
}

/// `max_id` bounds every id and is one of them (or 0 for no tasks).
pub proof fn lemma_max_id(tasks: Seq<TaskView>)
    ensures
        forall|i: int| 0 <= i < tasks.len() ==> tasks[i].id <= max_id(tasks),
        tasks.len() == 0 ==> max_id(tasks) == 0,
        tasks.len() > 0 ==> exists|i: int| 0 <= i < tasks.len() && tasks[i].id == max_id(tasks),
    decreases tasks.len(),
{
    if tasks.len() > 0 {
        let s = tasks.drop_last();
        lemma_max_id(s);
        assert forall|i: int| 0 <= i < tasks.len() implies tasks[i].id <= max_id(tasks) by {
            if i < s.len() {
                assert(tasks[i] == s[i]);
            }
        }
        if tasks.last().id <= max_id(s) && s.len() > 0 {
            let i = choose|i: int| 0 <= i < s.len() && s[i].id == max_id(s);
            assert(tasks[i] == s[i]);
        }
    }
}

/// One more than the largest id in use, 1 when there are no tasks. No task
/// has that id.
pub fn next_id(tasks: &[Task]) -> (id: u32)
    requires
        max_id(task_views(tasks@)) < u32::MAX,
    ensures
        id == max_id(task_views(tasks@)) + 1,
        forall|i: int| 0 <= i < tasks@.len() ==> tasks@[i].id < id,
{
    let ghost views = task_views(tasks@);
    let n = tasks.len();
    let mut m: u32 = 0;
    let mut i: usize = 0;
    while i < n
        invariant
            n == tasks@.len(),
            views == task_views(tasks@),
            i <= n,
            m == max_id(views.take(i as int)),
        decreases n - i,
    {
        assert(views.take(i + 1).drop_last() =~= views.take(i as int));
        if tasks[i].id > m {
            m = tasks[i].id;
        }
        i = i + 1;
    }
    assert(views.take(n as int) =~= views);
    proof {
        lemma_max_id(views);
        assert forall|i: int| 0 <= i < tasks@.len() implies tasks@[i].id < m + 1 by {
            assert(views[i] == tasks@[i]@);
        }
    }
    m + 1
}

/// The id for a new task: one more than the largest id in use.
pub fn get_next_id(tasks: &[Task]) -> (id: u32)
    requires
        max_id(task_views(tasks@)) < u32::MAX,
    ensures
        id == max_id(task_views(tasks@)) + 1,
        forall|i: int| 0 <= i < tasks@.len() ==> tasks@[i].id < id,
{
    next_id(tasks)
}

} // verus!
