//! Counting the tasks of a store: how many there are, how many are still to
//! do and done, and how many fall under each priority and each project.

use vstd::prelude::*;

use crate::task::{task_views, Priority, Status, Task, TaskView};

verus! {

/// The number of tasks with the given status.
pub open spec fn count_status(tasks: Seq<TaskView>, s: Status) -> nat
    decreases tasks.len(),
{
    if tasks.len() == 0 {
        0
    } else {
        count_status(tasks.drop_last(), s) + if tasks.last().status == s {
            1nat
        } else {
            0nat
        }
    }
}

/// The number of tasks with the given priority.
pub open spec fn count_priority(tasks: Seq<TaskView>, p: Priority) -> nat
    decreases tasks.len(),
{
    if tasks.len() == 0 {
        0
    } else {
        count_priority(tasks.drop_last(), p) + if tasks.last().priority == p {
            1nat
        } else {
            0nat
        }
    }
}

/// The name a task is counted under in the project rows: its project, or
/// `(none)` when it has none.
pub open spec fn project_key(t: TaskView) -> Seq<char> {
    match t.project {
        Some(p) => p,
        None => "(none)"@,
    }
}

/// The project names of the tasks, in store order.
pub open spec fn project_keys(tasks: Seq<TaskView>) -> Seq<Seq<char>> {
    tasks.map_values(|t: TaskView| project_key(t))
}

/// How often `k` occurs in `keys`.
pub open spec fn count_key(keys: Seq<Seq<char>>, k: Seq<char>) -> nat
    decreases keys.len(),
{
    if keys.len() == 0 {
        0
    } else {
        count_key(keys.drop_last(), k) + if keys.last() == k {
            1nat
        } else {
            0nat
        }
    }
}

/// The first row at or after `from` whose name is `k`, or -1.
pub open spec fn key_position_from(rows: Seq<(Seq<char>, nat)>, k: Seq<char>, from: nat) -> int
    decreases rows.len() - from,
{
    if from >= rows.len() {
        -1
    } else if rows[from as int].0 == k {
        from as int
    } else {
        key_position_from(rows, k, from + 1)
    }
}

/// The first row whose name is `k`, or -1.
pub open spec fn key_position(rows: Seq<(Seq<char>, nat)>, k: Seq<char>) -> int {
    key_position_from(rows, k, 0)
}

/// The count of the row named `k`, or 0 when there is none.
pub open spec fn key_lookup(rows: Seq<(Seq<char>, nat)>, k: Seq<char>) -> nat {
    let p = key_position(rows, k);
    if p < 0 {
        0
    } else {
        rows[p].1
    }
}

/// One more occurrence of `k`: its row counts one more, or a new row with
/// count 1 goes at the end.
pub open spec fn add_key(rows: Seq<(Seq<char>, nat)>, k: Seq<char>) -> Seq<(Seq<char>, nat)> {
    let p = key_position(rows, k);
    if p < 0 {
        rows.push((k, 1nat))
    } else {
        rows.update(p, (k, rows[p].1 + 1))
    }
}

/// One row per distinct name, in the order the names first occur, with the
/// number of its occurrences.
pub open spec fn tally(keys: Seq<Seq<char>>) -> Seq<(Seq<char>, nat)>
    decreases keys.len(),
{
    if keys.len() == 0 {
        Seq::empty()
    } else {
        add_key(tally(keys.drop_last()), keys.last())
    }
}

/// `x` put into `s` after every row whose count is at least its own (for
/// `s` sorted by decreasing count this keeps it sorted, and equal counts
/// keep their order).
pub open spec fn insert_desc(s: Seq<(Seq<char>, nat)>, x: (Seq<char>, nat)) -> Seq<(Seq<char>, nat)>
    decreases s.len(),
{
    if s.len() == 0 {
        seq![x]
    } else if s.last().1 >= x.1 {
        s.push(x)
    } else {
        insert_desc(s.drop_last(), x).push(s.last())
    }
}

/// The rows sorted by decreasing count; rows with equal counts keep their
/// order (a stable sort).
pub open spec fn sort_desc(s: Seq<(Seq<char>, nat)>) -> Seq<(Seq<char>, nat)>
    decreases s.len(),
{
    if s.len() == 0 {
        s
    } else {
        insert_desc(sort_desc(s.drop_last()), s.last())
    }
}

/// The project rows of a summary: one per project name, most tasks first,
/// names with equal counts in the order they first occur.
pub open spec fn project_rows(tasks: Seq<TaskView>) -> Seq<(Seq<char>, nat)> {
    sort_desc(tally(project_keys(tasks)))
}

/// The priority rows of a summary: one per priority that some task has,
/// from `Low` to `High`.
pub open spec fn priority_rows(tasks: Seq<TaskView>) -> Seq<(Priority, nat)> {
    let row = |p: Priority|
        if count_priority(tasks, p) > 0 {
            seq![(p, count_priority(tasks, p))]
        } else {
            Seq::<(Priority, nat)>::empty()
        };
    row(Priority::Low) + row(Priority::Medium) + row(Priority::High)
}

/// The count of the first row for `p`, or 0 when there is none.
pub open spec fn priority_lookup(rows: Seq<(Priority, nat)>, p: Priority) -> nat
    decreases rows.len(),
{
    if rows.len() == 0 {
        0
    } else if rows[0].0 == p {
        rows[0].1
    } else {
        priority_lookup(rows.drop_first(), p)
    }
}

/// No name heads two rows.
pub open spec fn names_distinct(rows: Seq<(Seq<char>, nat)>) -> bool {
    forall|i: int, j: int| 0 <= i < j < rows.len() ==> rows[i].0 != rows[j].0
}

/// Counts do not grow along the rows.
pub open spec fn sorted_desc(rows: Seq<(Seq<char>, nat)>) -> bool {
    forall|i: int, j: int| 0 <= i < j < rows.len() ==> rows[i].1 >= rows[j].1
}

/// Some row is named `k`.
pub open spec fn has_name(rows: Seq<(Seq<char>, nat)>, k: Seq<char>) -> bool {
    exists|i: int| 0 <= i < rows.len() && rows[i].0 == k
}

proof fn lemma_key_position_from(rows: Seq<(Seq<char>, nat)>, k: Seq<char>, from: nat)
    requires
        forall|j: int| 0 <= j < from && j < rows.len() ==> rows[j].0 != k,
    ensures
        ({
            let p = key_position_from(rows, k, from);
            &&& -1 <= p < rows.len()
            &&& p >= 0 ==> rows[p].0 == k && forall|j: int| 0 <= j < p ==> rows[j].0 != k
            &&& p < 0 <==> !has_name(rows, k)
        }),
    decreases rows.len() - from,
{
    if from < rows.len() && rows[from as int].0 != k {
        lemma_key_position_from(rows, k, from + 1);
    }
}

/// `key_position` finds the first row named `k`, and finds one exactly when
/// there is one.
pub proof fn lemma_key_position(rows: Seq<(Seq<char>, nat)>, k: Seq<char>)
    ensures
        ({
            let p = key_position(rows, k);
            &&& -1 <= p < rows.len()
            &&& p >= 0 ==> rows[p].0 == k && forall|j: int| 0 <= j < p ==> rows[j].0 != k
            &&& p < 0 <==> !has_name(rows, k)
        }),
{
    lemma_key_position_from(rows, k, 0);
}

/// A name that does not occur is counted 0 times; no name is counted more
/// often than there are names.
pub proof fn lemma_count_key(keys: Seq<Seq<char>>, k: Seq<char>)
    ensures
        count_key(keys, k) <= keys.len(),
        (forall|i: int| 0 <= i < keys.len() ==> keys[i] != k) ==> count_key(keys, k) == 0,
    decreases keys.len(),
{
    if keys.len() > 0 {
        lemma_count_key(keys.drop_last(), k);
    }
}

/// The rows of `tally` name each key exactly once, count it as often as it
/// occurs, and leave out no key.
pub proof fn lemma_tally(keys: Seq<Seq<char>>)
    ensures
        names_distinct(tally(keys)),
        forall|i: int|
            0 <= i < tally(keys).len() ==> (#[trigger] tally(keys)[i]).1 == count_key(
                keys,
                tally(keys)[i].0,
            ) && tally(keys)[i].1 >= 1,
        forall|j: int| 0 <= j < keys.len() ==> has_name(tally(keys), #[trigger] keys[j]),
    decreases keys.len(),
{
    if keys.len() > 0 {
        let ks = keys.drop_last();
        let x = keys.last();
        let r = tally(ks);
        lemma_tally(ks);
        lemma_key_position(r, x);
        let t = tally(keys);
        assert(t == add_key(r, x));
        let p = key_position(r, x);
        if p < 0 {
            assert forall|i: int| 0 <= i < ks.len() implies ks[i] != x by {
                assert(has_name(r, ks[i]));
            }
            lemma_count_key(ks, x);
            assert forall|j: int| 0 <= j < keys.len() implies has_name(t, #[trigger] keys[j]) by {
                if j < keys.len() - 1 {
                    assert(keys[j] == ks[j]);
                    let i = choose|i: int| 0 <= i < r.len() && r[i].0 == ks[j];
                    assert(t[i] == r[i]);
                } else {
                    assert(t[r.len() as int].0 == x);
                }
            }
        } else {
            assert forall|j: int| 0 <= j < keys.len() implies has_name(t, #[trigger] keys[j]) by {
                if j < keys.len() - 1 {
                    assert(keys[j] == ks[j]);
                    let i = choose|i: int| 0 <= i < r.len() && r[i].0 == ks[j];
                    assert(t[i].0 == r[i].0);
                } else {
                    assert(t[p].0 == x);
                }
            }
        }
    }
}

/// `insert_desc` adds `x` and nothing else, and keeps names distinct and
/// counts sorted.
pub proof fn lemma_insert_desc(s: Seq<(Seq<char>, nat)>, x: (Seq<char>, nat))
    ensures
        insert_desc(s, x).len() == s.len() + 1,
        forall|y: (Seq<char>, nat)| #[trigger]
            insert_desc(s, x).contains(y) <==> (s.contains(y) || y == x),
        names_distinct(s) && !has_name(s, x.0) ==> names_distinct(insert_desc(s, x)),
        sorted_desc(s) ==> sorted_desc(insert_desc(s, x)),
    decreases s.len(),
{
    let r = insert_desc(s, x);
    if s.len() == 0 {
        assert forall|y: (Seq<char>, nat)| #[trigger] r.contains(y) <==> (s.contains(y) || y == x) by {
            if r.contains(y) {
                assert(r[0] == x);
            }
            if y == x {
                assert(r[0] == y);
            }
        }
    } else if s.last().1 >= x.1 {
        assert forall|y: (Seq<char>, nat)| #[trigger] r.contains(y) <==> (s.contains(y) || y == x) by {
            if r.contains(y) {
                let i = choose|i: int| 0 <= i < r.len() && r[i] == y;
                if i < s.len() {
                    assert(s[i] == y);
                }
            }
            if s.contains(y) {
                let i = choose|i: int| 0 <= i < s.len() && s[i] == y;
                assert(r[i] == y);
            }
            if y == x {
                assert(r[s.len() as int] == y);
            }
        }
        if names_distinct(s) && !has_name(s, x.0) {
            assert forall|i: int, j: int| 0 <= i < j < r.len() implies r[i].0 != r[j].0 by {
                if j == s.len() {
                    assert(r[i] == s[i]);
                }
            }
        }
    } else {
        let s0 = s.drop_last();
        let l = s.last();
        let r0 = insert_desc(s0, x);
        lemma_insert_desc(s0, x);
        assert(r == r0.push(l));
        assert forall|y: (Seq<char>, nat)| #[trigger] r.contains(y) <==> (s.contains(y) || y == x) by {
            if r.contains(y) {
                let i = choose|i: int| 0 <= i < r.len() && r[i] == y;
                if i < r0.len() {
                    assert(r0.contains(y));
                    if s0.contains(y) {
                        let k = choose|k: int| 0 <= k < s0.len() && s0[k] == y;
                        assert(s[k] == y);
                    }
                } else {
                    assert(s[s.len() - 1] == y);
                }
            }
            if s.contains(y) {
                let i = choose|i: int| 0 <= i < s.len() && s[i] == y;
                if i < s0.len() {
                    assert(s0[i] == y);
                    assert(r0.contains(y));
                    let k = choose|k: int| 0 <= k < r0.len() && r0[k] == y;
                    assert(r[k] == y);
                } else {
                    assert(r[r.len() - 1] == y);
                }
            }
            if y == x {
                assert(r0.contains(y));
                let k = choose|k: int| 0 <= k < r0.len() && r0[k] == y;
                assert(r[k] == y);
            }
        }
        if names_distinct(s) && !has_name(s, x.0) {
            assert(names_distinct(s0)) by {
                assert forall|i: int, j: int| 0 <= i < j < s0.len() implies s0[i].0 != s0[j].0 by {
                    assert(s0[i] == s[i] && s0[j] == s[j]);
                }
            }
            assert(!has_name(s0, x.0)) by {
                if has_name(s0, x.0) {
                    let i = choose|i: int| 0 <= i < s0.len() && s0[i].0 == x.0;
                    assert(s[i].0 == x.0);
                }
            }
            assert forall|i: int, j: int| 0 <= i < j < r.len() implies r[i].0 != r[j].0 by {
                if j == r.len() - 1 {
                    assert(r0.contains(r[i]));
                    if s0.contains(r[i]) {
                        let k = choose|k: int| 0 <= k < s0.len() && s0[k] == r[i];
                        assert(s[k] == s0[k]);
                        assert(s[s.len() - 1] == l);
                    } else {
                        assert(r[i] == x);
                        assert(s[s.len() - 1] == l);
                    }
                } else {
                    assert(r[i] == r0[i] && r[j] == r0[j]);
                }
            }
        }
        if sorted_desc(s) {
            assert(sorted_desc(s0)) by {
                assert forall|i: int, j: int| 0 <= i < j < s0.len() implies s0[i].1 >= s0[j].1 by {
                    assert(s0[i] == s[i] && s0[j] == s[j]);
                }
            }
            assert forall|i: int, j: int| 0 <= i < j < r.len() implies r[i].1 >= r[j].1 by {
                if j == r.len() - 1 {
                    assert(r[j] == l);
                    assert(r0.contains(r[i]));
                    if s0.contains(r[i]) {
                        let k = choose|k: int| 0 <= k < s0.len() && s0[k] == r[i];
                        assert(s[k] == s0[k]);
                        assert(s[s.len() - 1] == l);
                    } else {
                        assert(r[i] == x);
                    }
                } else {
                    assert(r[i] == r0[i] && r[j] == r0[j]);
                }
            }
        }
    }
}

/// Sorting keeps exactly the rows it was given, keeps names distinct and
/// orders the rows by decreasing count.
pub proof fn lemma_sort_desc(s: Seq<(Seq<char>, nat)>)
    ensures
        sort_desc(s).len() == s.len(),
        forall|y: (Seq<char>, nat)| #[trigger] sort_desc(s).contains(y) <==> s.contains(y),
        names_distinct(s) ==> names_distinct(sort_desc(s)),
        sorted_desc(sort_desc(s)),
    decreases s.len(),
{
    if s.len() > 0 {
        let s0 = s.drop_last();
        let l = s.last();
        lemma_sort_desc(s0);
        let q = sort_desc(s0);
        lemma_insert_desc(q, l);
        assert forall|y: (Seq<char>, nat)| #[trigger] sort_desc(s).contains(y) <==> s.contains(y) by {
            if s0.contains(y) {
                let k = choose|k: int| 0 <= k < s0.len() && s0[k] == y;
                assert(s[k] == y);
            }
            if s.contains(y) {
                let k = choose|k: int| 0 <= k < s.len() && s[k] == y;
                if k < s0.len() {
                    assert(s0[k] == y);
                } else {
                    assert(y == l);
                }
            }
            if y == l {
                assert(s[s.len() - 1] == y);
            }
        }
        if names_distinct(s) {
            assert(names_distinct(s0)) by {
                assert forall|i: int, j: int| 0 <= i < j < s0.len() implies s0[i].0 != s0[j].0 by {
                    assert(s0[i] == s[i] && s0[j] == s[j]);
                }
            }
            assert(!has_name(q, l.0)) by {
                if has_name(q, l.0) {
                    let i = choose|i: int| 0 <= i < q.len() && q[i].0 == l.0;
                    assert(q.contains(q[i]));
                    let k = choose|k: int| 0 <= k < s0.len() && s0[k] == q[i];
                    assert(s[k] == s0[k]);
                    assert(s[s.len() - 1] == l);
                }
            }
        }
    }
}

/// The project rows name every project once, count the tasks of each name
/// exactly, leave out no task, and go from the most tasks to the fewest.
pub proof fn law_project_rows(tasks: Seq<TaskView>)
    ensures
        names_distinct(project_rows(tasks)),
        sorted_desc(project_rows(tasks)),
        forall|i: int|
            0 <= i < project_rows(tasks).len() ==> (#[trigger] project_rows(tasks)[i]).1
                == count_key(project_keys(tasks), project_rows(tasks)[i].0) && project_rows(
                tasks,
            )[i].1 >= 1,
        forall|j: int|
            0 <= j < tasks.len() ==> has_name(project_rows(tasks), project_key(#[trigger] tasks[j])),
{
    let keys = project_keys(tasks);
    let t = tally(keys);
    let rows = project_rows(tasks);
    lemma_tally(keys);
    lemma_sort_desc(t);
    assert forall|i: int| 0 <= i < rows.len() implies (#[trigger] rows[i]).1 == count_key(
        keys,
        rows[i].0,
    ) && rows[i].1 >= 1 by {
        assert(rows.contains(rows[i]));
        let k = choose|k: int| 0 <= k < t.len() && t[k] == rows[i];
        assert(t[k].1 == count_key(keys, t[k].0));
    }
    assert forall|j: int| 0 <= j < tasks.len() implies has_name(rows, project_key(#[trigger] tasks[j])) by {
        assert(keys[j] == project_key(tasks[j]));
        assert(has_name(t, keys[j]));
        let k = choose|k: int| 0 <= k < t.len() && t[k].0 == keys[j];
        assert(t.contains(t[k]));
        assert(sort_desc(t).contains(t[k]));
        let i = choose|i: int| 0 <= i < rows.len() && rows[i] == t[k];
        assert(rows[i].0 == project_key(tasks[j]));
    }
}

/// Looking a project name up in the project rows gives the number of tasks
/// under that name, 0 for a name no task has.
pub proof fn law_project_lookup(tasks: Seq<TaskView>, k: Seq<char>)
    ensures
        key_lookup(project_rows(tasks), k) == count_key(project_keys(tasks), k),
{
    let keys = project_keys(tasks);
    let rows = project_rows(tasks);
    law_project_rows(tasks);
    lemma_key_position(rows, k);
    if !has_name(rows, k) {
        assert forall|j: int| 0 <= j < keys.len() implies keys[j] != k by {
            assert(keys[j] == project_key(tasks[j]));
        }
        lemma_count_key(keys, k);
    }
}

/// Looking a priority up in the priority rows gives the number of tasks
/// with that priority, 0 for a priority no task has.
pub proof fn law_priority_lookup(tasks: Seq<TaskView>, p: Priority)
    ensures
        priority_lookup(priority_rows(tasks), p) == count_priority(tasks, p),
{
    let rows = priority_rows(tasks);
    let l = count_priority(tasks, Priority::Low);
    let m = count_priority(tasks, Priority::Medium);
    let h = count_priority(tasks, Priority::High);
    reveal_with_fuel(priority_lookup, 4);
    if l > 0 {
        assert(rows.drop_first() =~= (if m > 0 { seq![(Priority::Medium, m)] } else { Seq::empty() })
            + (if h > 0 { seq![(Priority::High, h)] } else { Seq::empty() }));
    }
    let r1 = rows.subrange(if l > 0 { 1 } else { 0 }, rows.len() as int);
    if m > 0 {
        assert(r1.drop_first() =~= (if h > 0 { seq![(Priority::High, h)] } else { Seq::empty() }));
    }
}

/// The sum of the counts of the rows.
pub open spec fn total_count(rows: Seq<(Seq<char>, nat)>) -> nat
    decreases rows.len(),
{
    if rows.len() == 0 {
        0
    } else {
        total_count(rows.drop_last()) + rows.last().1
    }
}

/// The sum of the counts of the priority rows.
pub open spec fn priority_total(rows: Seq<(Priority, nat)>) -> nat
    decreases rows.len(),
{
    if rows.len() == 0 {
        0
    } else {
        priority_total(rows.drop_last()) + rows.last().1
    }
}

proof fn lemma_total_count_update(rows: Seq<(Seq<char>, nat)>, p: int, x: (Seq<char>, nat))
    requires
        0 <= p < rows.len(),
    ensures
        total_count(rows.update(p, x)) + rows[p].1 == total_count(rows) + x.1,
    decreases rows.len(),
{
    let u = rows.update(p, x);
    if p < rows.len() - 1 {
        lemma_total_count_update(rows.drop_last(), p, x);
        assert(u.drop_last() =~= rows.drop_last().update(p, x));
    } else {
        assert(u.drop_last() =~= rows.drop_last());
    }
}

proof fn lemma_total_count_tally(keys: Seq<Seq<char>>)
    ensures
        total_count(tally(keys)) == keys.len(),
    decreases keys.len(),
{
    if keys.len() > 0 {
        let r = tally(keys.drop_last());
        let x = keys.last();
        lemma_total_count_tally(keys.drop_last());
        lemma_key_position(r, x);
        let p = key_position(r, x);
        if p < 0 {
            assert(r.push((x, 1nat)).drop_last() =~= r);
        } else {
            lemma_total_count_update(r, p, (x, r[p].1 + 1));
        }
    }
}

proof fn lemma_total_count_insert(s: Seq<(Seq<char>, nat)>, x: (Seq<char>, nat))
    ensures
        total_count(insert_desc(s, x)) == total_count(s) + x.1,
    decreases s.len(),
{
    if s.len() == 0 {
        assert(seq![x].drop_last() =~= Seq::<(Seq<char>, nat)>::empty());
        assert(total_count(Seq::<(Seq<char>, nat)>::empty()) == 0);
        assert(seq![x].last() == x);
        assert(total_count(seq![x]) == x.1);
    } else if s.last().1 >= x.1 {
        assert(s.push(x).drop_last() =~= s);
        assert(total_count(s.push(x)) == total_count(s) + x.1);
    } else {
        let s0 = s.drop_last();
        let r0 = insert_desc(s0, x);
        lemma_total_count_insert(s0, x);
        assert(r0.push(s.last()).drop_last() =~= r0);
        assert(insert_desc(s, x) == r0.push(s.last()));
        assert(total_count(r0.push(s.last())) == total_count(r0) + s.last().1);
    }
}

proof fn lemma_total_count_sort(s: Seq<(Seq<char>, nat)>)
    ensures
        total_count(sort_desc(s)) == total_count(s),
    decreases s.len(),
{
    if s.len() > 0 {
        lemma_total_count_sort(s.drop_last());
        lemma_total_count_insert(sort_desc(s.drop_last()), s.last());
    }
}

/// The project counts add up to the number of tasks.
pub proof fn law_project_counts_add_up(tasks: Seq<TaskView>)
    ensures
        total_count(project_rows(tasks)) == tasks.len(),
{
    lemma_total_count_tally(project_keys(tasks));
    lemma_total_count_sort(tally(project_keys(tasks)));
}

/// The priority counts add up to the number of tasks.
pub proof fn law_priority_counts_add_up(tasks: Seq<TaskView>)
    ensures
        priority_total(priority_rows(tasks)) == tasks.len(),
{
    law_priority_counts_cover_all(tasks);
    let rows = priority_rows(tasks);
    reveal_with_fuel(priority_total, 4);
    let l = count_priority(tasks, Priority::Low);
    let m = count_priority(tasks, Priority::Medium);
    let h = count_priority(tasks, Priority::High);
    let a = if l > 0 { seq![(Priority::Low, l)] } else { Seq::<(Priority, nat)>::empty() };
    let b = if m > 0 { seq![(Priority::Medium, m)] } else { Seq::<(Priority, nat)>::empty() };
    let c = if h > 0 { seq![(Priority::High, h)] } else { Seq::<(Priority, nat)>::empty() };
    assert(rows =~= a + b + c);
    assert(priority_total(a) == l);
    assert(priority_total(a + b) == l + m) by {
        if m > 0 {
            assert((a + b).drop_last() =~= a);
        } else {
            assert(a + b =~= a);
        }
    }
    if h > 0 {
        assert((a + b + c).drop_last() =~= a + b);
    } else {
        assert(a + b + c =~= a + b);
    }
}

/// The number of tasks with a status is the length of the list of those
/// tasks, whatever else the tasks hold; one more task counts one more
/// exactly when it has that status.
pub proof fn law_count_status_counts_matching(tasks: Seq<TaskView>, s: Status, t: TaskView)
    ensures
        count_status(tasks, s) == tasks.filter(|x: TaskView| x.status == s).len(),
        count_status(tasks.push(t), s) == count_status(tasks, s) + if t.status == s {
            1nat
        } else {
            0nat
        },
    decreases tasks.len(),
{
    reveal(Seq::filter);
    assert(tasks.push(t).drop_last() =~= tasks);
    if tasks.len() > 0 {
        law_count_status_counts_matching(tasks.drop_last(), s, t);
    }
}

/// The number of tasks with a priority is the length of the list of those
/// tasks, whatever else the tasks hold; one more task counts one more
/// exactly when it has that priority.
pub proof fn law_count_priority_counts_matching(tasks: Seq<TaskView>, p: Priority, t: TaskView)
    ensures
        count_priority(tasks, p) == tasks.filter(|x: TaskView| x.priority == p).len(),
        count_priority(tasks.push(t), p) == count_priority(tasks, p) + if t.priority == p {
            1nat
        } else {
            0nat
        },
    decreases tasks.len(),
{
    reveal(Seq::filter);
    assert(tasks.push(t).drop_last() =~= tasks);
    if tasks.len() > 0 {
        law_count_priority_counts_matching(tasks.drop_last(), p, t);
    }
}

/// The number of occurrences of a name is the length of the list of its
/// occurrences.
pub proof fn law_count_key_counts_matching(keys: Seq<Seq<char>>, k: Seq<char>)
    ensures
        count_key(keys, k) == keys.filter(|x: Seq<char>| x == k).len(),
    decreases keys.len(),
{
    reveal(Seq::filter);
    if keys.len() > 0 {
        law_count_key_counts_matching(keys.drop_last(), k);
    }
}

/// The project name of a task is its project, or `(none)` without one.
pub proof fn law_project_key(t: TaskView)
    ensures
        t.project is Some ==> project_key(t) == t.project->Some_0,
        t.project is None ==> project_key(t) == "(none)"@,
{
}

/// The place of a priority in its declared order `Low`, `Medium`, `High`.
pub open spec fn priority_rank(p: Priority) -> int {
    match p {
        Priority::Low => 0,
        Priority::Medium => 1,
        Priority::High => 2,
    }
}

/// A priority that some task has is counted at least once.
pub proof fn lemma_count_priority_present(tasks: Seq<TaskView>, j: int)
    requires
        0 <= j < tasks.len(),
    ensures
        count_priority(tasks, tasks[j].priority) >= 1,
    decreases tasks.len(),
{
    if j < tasks.len() - 1 {
        lemma_count_priority_present(tasks.drop_last(), j);
        assert(tasks.drop_last()[j] == tasks[j]);
    }
}

/// The priority rows go strictly from `Low` to `High` (so no priority
/// twice and at most three rows), count each priority exactly and at least
/// once, and leave out no priority that a task has.
pub proof fn law_priority_rows(tasks: Seq<TaskView>)
    ensures
        ({
            let rows = priority_rows(tasks);
            &&& rows.len() <= 3
            &&& forall|i: int, j: int|
                0 <= i < j < rows.len() ==> priority_rank(rows[i].0) < priority_rank(rows[j].0)
            &&& forall|i: int|
                0 <= i < rows.len() ==> (#[trigger] rows[i]).1 == count_priority(tasks, rows[i].0)
                    && rows[i].1 >= 1
            &&& forall|j: int|
                0 <= j < tasks.len() ==> exists|i: int|
                    0 <= i < rows.len() && rows[i].0 == (#[trigger] tasks[j]).priority
        }),
{
    let rows = priority_rows(tasks);
    let l = count_priority(tasks, Priority::Low);
    let m = count_priority(tasks, Priority::Medium);
    let h = count_priority(tasks, Priority::High);
    let a = if l > 0 { seq![(Priority::Low, l)] } else { Seq::<(Priority, nat)>::empty() };
    let b = if m > 0 { seq![(Priority::Medium, m)] } else { Seq::<(Priority, nat)>::empty() };
    let c = if h > 0 { seq![(Priority::High, h)] } else { Seq::<(Priority, nat)>::empty() };
    assert(rows =~= a + b + c);
    assert forall|i: int| 0 <= i < rows.len() implies (#[trigger] rows[i]).1 == count_priority(
        tasks,
        rows[i].0,
    ) && rows[i].1 >= 1 && priority_rank(rows[i].0) >= i by {
        if i < a.len() {
            assert(rows[i] == a[i]);
        } else if i < a.len() + b.len() {
            assert(rows[i] == b[i - a.len()]);
        } else {
            assert(rows[i] == c[i - a.len() - b.len()]);
        }
    }
    assert forall|i: int, j: int| 0 <= i < j < rows.len() implies priority_rank(rows[i].0)
        < priority_rank(rows[j].0) by {
        if i < a.len() {
            assert(rows[i] == a[i]);
        } else if i < a.len() + b.len() {
            assert(rows[i] == b[i - a.len()]);
        } else {
            assert(rows[i] == c[i - a.len() - b.len()]);
        }
        if j < a.len() {
            assert(rows[j] == a[j]);
        } else if j < a.len() + b.len() {
            assert(rows[j] == b[j - a.len()]);
        } else {
            assert(rows[j] == c[j - a.len() - b.len()]);
        }
    }
    assert forall|j: int| 0 <= j < tasks.len() implies exists|i: int|
        0 <= i < rows.len() && rows[i].0 == (#[trigger] tasks[j]).priority by {
        lemma_count_priority_present(tasks, j);
        match tasks[j].priority {
            Priority::Low => {
                assert(rows[0].0 == Priority::Low);
            },
            Priority::Medium => {
                assert(rows[a.len() as int].0 == Priority::Medium);
            },
            Priority::High => {
                assert(rows[(a.len() + b.len()) as int].0 == Priority::High);
            },
        }
    }
}

/// Every task has one of the three priorities.
pub proof fn law_priority_counts_cover_all(tasks: Seq<TaskView>)
    ensures
        count_priority(tasks, Priority::Low) + count_priority(tasks, Priority::Medium)
            + count_priority(tasks, Priority::High) == tasks.len(),
    decreases tasks.len(),
{
    if tasks.len() > 0 {
        law_priority_counts_cover_all(tasks.drop_last());
    }
}

/// Every task is either still to do or done.
pub proof fn law_todo_plus_done(tasks: Seq<TaskView>)
    ensures
        count_status(tasks, Status::Todo) + count_status(tasks, Status::Done) == tasks.len(),
    decreases tasks.len(),
{
    if tasks.len() > 0 {
        law_todo_plus_done(tasks.drop_last());
    }
}

/// Where `insert_desc` puts `x`: after the last row, counting from the end,
/// whose count is at least its own.
pub open spec fn insert_pos(s: Seq<(Seq<char>, nat)>, x: (Seq<char>, nat)) -> int
    decreases s.len(),
{
    if s.len() == 0 {
        0
    } else if s.last().1 >= x.1 {
        s.len() as int
    } else {
        insert_pos(s.drop_last(), x)
    }
}

proof fn lemma_insert_pos(s: Seq<(Seq<char>, nat)>, x: (Seq<char>, nat))
    ensures
        0 <= insert_pos(s, x) <= s.len(),
        insert_desc(s, x) == s.insert(insert_pos(s, x), x),
    decreases s.len(),
{
    if s.len() == 0 {
        assert(insert_desc(s, x) =~= s.insert(0, x));
    } else if s.last().1 >= x.1 {
        assert(insert_desc(s, x) =~= s.insert(s.len() as int, x));
    } else {
        let s0 = s.drop_last();
        lemma_insert_pos(s0, x);
        let p = insert_pos(s0, x);
        assert(s0.insert(p, x).push(s.last()) =~= s.insert(p, x));
    }
}

/// The first position of `k` in `keys` at or after `from`, or -1.
pub open spec fn first_occurrence_from(keys: Seq<Seq<char>>, k: Seq<char>, from: nat) -> int
    decreases keys.len() - from,
{
    if from >= keys.len() {
        -1
    } else if keys[from as int] == k {
        from as int
    } else {
        first_occurrence_from(keys, k, from + 1)
    }
}

/// The first position of `k` in `keys`, or -1.
pub open spec fn first_occurrence(keys: Seq<Seq<char>>, k: Seq<char>) -> int {
    first_occurrence_from(keys, k, 0)
}

proof fn lemma_first_occurrence_from(keys: Seq<Seq<char>>, k: Seq<char>, from: nat)
    requires
        forall|j: int| 0 <= j < from && j < keys.len() ==> keys[j] != k,
    ensures
        ({
            let p = first_occurrence_from(keys, k, from);
            &&& -1 <= p < keys.len()
            &&& p >= 0 ==> keys[p] == k && forall|j: int| 0 <= j < p ==> keys[j] != k
            &&& p < 0 ==> forall|j: int| 0 <= j < keys.len() ==> keys[j] != k
        }),
    decreases keys.len() - from,
{
    if from < keys.len() && keys[from as int] != k {
        lemma_first_occurrence_from(keys, k, from + 1);
    }
}

/// `first_occurrence` finds the first position of the name, and -1 only
/// when the name does not occur.
pub proof fn lemma_first_occurrence(keys: Seq<Seq<char>>, k: Seq<char>)
    ensures
        ({
            let p = first_occurrence(keys, k);
            &&& -1 <= p < keys.len()
            &&& p >= 0 ==> keys[p] == k && forall|j: int| 0 <= j < p ==> keys[j] != k
            &&& p < 0 ==> forall|j: int| 0 <= j < keys.len() ==> keys[j] != k
        }),
{
    lemma_first_occurrence_from(keys, k, 0);
}

/// A name that occurs in `keys` keeps its first position when a name is
/// added at the end; a name that did not occur gets the last position.
proof fn lemma_first_occurrence_push(keys: Seq<Seq<char>>, x: Seq<char>, k: Seq<char>)
    ensures
        first_occurrence(keys, k) >= 0 ==> first_occurrence(keys.push(x), k) == first_occurrence(
            keys,
            k,
        ),
        first_occurrence(keys, x) < 0 ==> first_occurrence(keys.push(x), x) == keys.len(),
{
    let ks = keys.push(x);
    lemma_first_occurrence(keys, k);
    lemma_first_occurrence(ks, k);
    lemma_first_occurrence(keys, x);
    lemma_first_occurrence(ks, x);
    let p = first_occurrence(keys, k);
    let q = first_occurrence(ks, k);
    if p >= 0 {
        assert(ks[p] == k);
        if q < p {
            assert(ks[q] == keys[q]);
        }
    }
    if first_occurrence(keys, x) < 0 {
        assert(ks[keys.len() as int] == x);
        let r = first_occurrence(ks, x);
        if r < keys.len() {
            assert(ks[r] == keys[r]);
        }
    }
}

/// The rows of `tally` follow the order in which their names first occur.
pub proof fn lemma_tally_order(keys: Seq<Seq<char>>)
    ensures
        forall|i: int| 0 <= i < tally(keys).len() ==> first_occurrence(keys, #[trigger] tally(keys)[i].0) >= 0,
        forall|i: int, j: int|
            0 <= i < j < tally(keys).len() ==> first_occurrence(keys, #[trigger] tally(keys)[i].0)
                < first_occurrence(keys, #[trigger] tally(keys)[j].0),
    decreases keys.len(),
{
    if keys.len() > 0 {
        let ks = keys.drop_last();
        let x = keys.last();
        let r = tally(ks);
        let t = tally(keys);
        lemma_tally_order(ks);
        lemma_tally(ks);
        lemma_key_position(r, x);
        assert(ks.push(x) =~= keys);
        assert(t == add_key(r, x));
        assert forall|i: int| 0 <= i < r.len() implies first_occurrence(keys, #[trigger] r[i].0)
            == first_occurrence(ks, r[i].0) by {
            lemma_first_occurrence_push(ks, x, r[i].0);
        }
        let p = key_position(r, x);
        if p < 0 {
            assert(first_occurrence(ks, x) < 0) by {
                lemma_first_occurrence(ks, x);
                if first_occurrence(ks, x) >= 0 {
                    let j = first_occurrence(ks, x);
                    assert(has_name(r, ks[j]));
                }
            }
            lemma_first_occurrence_push(ks, x, x);
            assert forall|i: int| 0 <= i < t.len() implies first_occurrence(keys, #[trigger] t[i].0)
                >= 0 by {
                if i < r.len() {
                    assert(t[i] == r[i]);
                }
            }
            assert forall|i: int, j: int| 0 <= i < j < t.len() implies first_occurrence(
                keys,
                #[trigger] t[i].0,
            ) < first_occurrence(keys, #[trigger] t[j].0) by {
                assert(t[i] == r[i]);
                lemma_first_occurrence(ks, r[i].0);
                if j < r.len() {
                    assert(t[j] == r[j]);
                }
            }
        } else {
            assert forall|i: int| 0 <= i < t.len() implies #[trigger] t[i].0 == r[i].0 by {}
            assert forall|i: int| 0 <= i < t.len() implies first_occurrence(keys, #[trigger] t[i].0)
                >= 0 by {
                assert(t[i].0 == r[i].0);
            }
            assert forall|i: int, j: int| 0 <= i < j < t.len() implies first_occurrence(
                keys,
                #[trigger] t[i].0,
            ) < first_occurrence(keys, #[trigger] t[j].0) by {
                assert(t[i].0 == r[i].0);
                assert(t[j].0 == r[j].0);
            }
        }
    }
}

/// In rows sorted by decreasing count, the rows before `insert_pos` count
/// at least as much as `x` and the rows from it on count less.
proof fn lemma_insert_pos_split(s: Seq<(Seq<char>, nat)>, x: (Seq<char>, nat))
    requires
        sorted_desc(s),
    ensures
        forall|k: int| 0 <= k < insert_pos(s, x) ==> s[k].1 >= x.1,
        forall|k: int| insert_pos(s, x) <= k < s.len() ==> s[k].1 < x.1,
    decreases s.len(),
{
    lemma_insert_pos(s, x);
    if s.len() > 0 && s.last().1 < x.1 {
        let s0 = s.drop_last();
        assert(sorted_desc(s0)) by {
            assert forall|i: int, j: int| 0 <= i < j < s0.len() implies s0[i].1 >= s0[j].1 by {
                assert(s0[i] == s[i] && s0[j] == s[j]);
            }
        }
        lemma_insert_pos_split(s0, x);
        lemma_insert_pos(s0, x);
        assert forall|k: int| 0 <= k < insert_pos(s, x) implies s[k].1 >= x.1 by {
            assert(s[k] == s0[k]);
        }
        assert forall|k: int| insert_pos(s, x) <= k < s.len() implies s[k].1 < x.1 by {
            if k < s0.len() {
                assert(s[k] == s0[k]);
            }
        }
    }
}

/// A name that heads a row of `s` keeps its row position when a row with
/// a new name is added at the end.
proof fn lemma_key_position_push(s: Seq<(Seq<char>, nat)>, l: (Seq<char>, nat), k: Seq<char>)
    requires
        has_name(s, k),
    ensures
        key_position(s.push(l), k) == key_position(s, k),
        0 <= key_position(s, k) < s.len(),
{
    let t = s.push(l);
    lemma_key_position(s, k);
    lemma_key_position(t, k);
    let p = key_position(s, k);
    let q = key_position(t, k);
    assert(t[p] == s[p]);
    if q < p {
        assert(t[q] == s[q]);
    }
}

/// Sorting is stable: two rows with equal counts keep the order they had.
pub proof fn lemma_sort_desc_stable(s: Seq<(Seq<char>, nat)>)
    requires
        names_distinct(s),
    ensures
        forall|i: int, j: int|
            0 <= i < j < sort_desc(s).len() && sort_desc(s)[i].1 == sort_desc(s)[j].1 ==> key_position(
                s,
                #[trigger] sort_desc(s)[i].0,
            ) < key_position(s, #[trigger] sort_desc(s)[j].0),
        forall|i: int| 0 <= i < sort_desc(s).len() ==> 0 <= key_position(s, #[trigger] sort_desc(s)[i].0) < s.len(),
    decreases s.len(),
{
    lemma_sort_desc(s);
    if s.len() > 0 {
        let s0 = s.drop_last();
        let l = s.last();
        assert(s0.push(l) =~= s);
        assert(names_distinct(s0)) by {
            assert forall|i: int, j: int| 0 <= i < j < s0.len() implies s0[i].0 != s0[j].0 by {
                assert(s0[i] == s[i] && s0[j] == s[j]);
            }
        }
        lemma_sort_desc_stable(s0);
        lemma_sort_desc(s0);
        let q = sort_desc(s0);
        let rows = sort_desc(s);
        lemma_insert_pos(q, l);
        lemma_insert_pos_split(q, l);
        let ip = insert_pos(q, l);
        assert(rows == q.insert(ip, l));
        // positions in s of the rows of q, and of l
        assert forall|i: int| 0 <= i < q.len() implies key_position(s, #[trigger] q[i].0)
            == key_position(s0, q[i].0) && 0 <= key_position(s0, q[i].0) < s0.len() by {
            assert(q.contains(q[i]));
            let k = choose|k: int| 0 <= k < s0.len() && s0[k] == q[i];
            assert(has_name(s0, q[i].0));
            lemma_key_position_push(s0, l, q[i].0);
        }
        assert(key_position(s, l.0) == s0.len()) by {
            lemma_key_position(s, l.0);
            assert(s[s0.len() as int].0 == l.0);
            let p = key_position(s, l.0);
            if p < s0.len() {
                assert(s[p] == s0[p]);
            }
        }
        assert forall|i: int| 0 <= i < rows.len() implies 0 <= key_position(
            s,
            #[trigger] rows[i].0,
        ) < s.len() by {
            if i < ip {
                assert(rows[i] == q[i]);
            } else if i > ip {
                assert(rows[i] == q[i - 1]);
            }
        }
        assert forall|i: int, j: int|
            0 <= i < j < rows.len() && rows[i].1 == rows[j].1 implies key_position(
            s,
            #[trigger] rows[i].0,
        ) < key_position(s, #[trigger] rows[j].0) by {
            if i == ip {
                assert(rows[i] == l);
                assert(rows[j] == q[j - 1]);
            } else if j == ip {
                assert(rows[i] == q[i]);
                assert(rows[j] == l);
            } else {
                let i2 = if i < ip { i } else { i - 1 };
                let j2 = if j < ip { j } else { j - 1 };
                assert(rows[i] == q[i2]);
                assert(rows[j] == q[j2]);
            }
        }
    }
}

/// Project rows with equal counts stand in the order in which their names
/// first occur among the tasks.
pub proof fn law_project_rows_ties_in_first_order(tasks: Seq<TaskView>)
    ensures
        forall|i: int, j: int|
            0 <= i < j < project_rows(tasks).len() && project_rows(tasks)[i].1 == project_rows(
                tasks,
            )[j].1 ==> first_occurrence(project_keys(tasks), #[trigger] project_rows(tasks)[i].0)
                < first_occurrence(project_keys(tasks), #[trigger] project_rows(tasks)[j].0),
{
    let keys = project_keys(tasks);
    let t = tally(keys);
    let rows = project_rows(tasks);
    lemma_tally(keys);
    lemma_tally_order(keys);
    lemma_sort_desc_stable(t);
    assert forall|i: int, j: int| 0 <= i < j < rows.len() && rows[i].1 == rows[j].1 implies first_occurrence(
        keys,
        #[trigger] rows[i].0,
    ) < first_occurrence(keys, #[trigger] rows[j].0) by {
        let a = key_position(t, rows[i].0);
        let b = key_position(t, rows[j].0);
        lemma_key_position(t, rows[i].0);
        lemma_key_position(t, rows[j].0);
        assert(t[a].0 == rows[i].0);
        assert(t[b].0 == rows[j].0);
    }
}

/// The counts of a summary: how many tasks, how many still to do and done,
/// and the rows per project and per priority.
pub struct Summary {
    pub total: usize,
    pub todo: usize,
    pub done: usize,
    pub by_project: Vec<(String, usize)>,
    pub by_priority: Vec<(Priority, usize)>,
}

/// Project rows with their names as characters.
pub open spec fn project_row_texts(rows: Seq<(String, usize)>) -> Seq<(Seq<char>, nat)> {
    rows.map_values(|r: (String, usize)| (r.0@, r.1 as nat))
}

/// Priority rows with their counts as numbers.
pub open spec fn priority_row_counts(rows: Seq<(Priority, usize)>) -> Seq<(Priority, nat)> {
    rows.map_values(|r: (Priority, usize)| (r.0, r.1 as nat))
}

/// The status and priority counts of the tasks.
fn count_tasks(tasks: &[Task]) -> (counts: (usize, usize, usize, usize))
    ensures
        counts.0 == count_status(task_views(tasks@), Status::Todo),
        counts.1 == count_priority(task_views(tasks@), Priority::Low),
        counts.2 == count_priority(task_views(tasks@), Priority::Medium),
        counts.3 == count_priority(task_views(tasks@), Priority::High),
{
    let ghost views = task_views(tasks@);
    let n = tasks.len();
    let mut todo: usize = 0;
    let mut low: usize = 0;
    let mut medium: usize = 0;
    let mut high: usize = 0;
    let mut i: usize = 0;
    while i < n
        invariant
            n == tasks@.len(),
            views == task_views(tasks@),
            i <= n,
            todo == count_status(views.take(i as int), Status::Todo),
            low == count_priority(views.take(i as int), Priority::Low),
            medium == count_priority(views.take(i as int), Priority::Medium),
            high == count_priority(views.take(i as int), Priority::High),
            todo <= i && low + medium + high <= i,
        decreases n - i,
    {
        let t = &tasks[i];
        assert(views.take(i + 1).drop_last() =~= views.take(i as int));
        assert(views.take(i + 1).last() == t@);
        if t.status == Status::Todo {
            todo = todo + 1;
        }
        match t.priority {
            Priority::Low => {
                low = low + 1;
            },
            Priority::Medium => {
                medium = medium + 1;
            },
            Priority::High => {
                high = high + 1;
            },
        }
        i = i + 1;
    }
    assert(views.take(n as int) =~= views);
    (todo, low, medium, high)
}

/// The project name of a task as a new string.
pub fn project_name_of(t: &Task) -> (name: String)
    ensures
        name@ == project_key(t@),
{
    match &t.project {
        Some(p) => p.clone(),
        None => String::from_str("(none)"),
    }
}

/// One row per project name, in the order the names first occur.
fn tally_projects(tasks: &[Task]) -> (rows: Vec<(String, usize)>)
    ensures
        project_row_texts(rows@) == tally(project_keys(task_views(tasks@))),
{
    let ghost keys = project_keys(task_views(tasks@));
    let n = tasks.len();
    let mut rows: Vec<(String, usize)> = Vec::new();
    let mut i: usize = 0;
    while i < n
        invariant
            n == tasks@.len(),
            keys == project_keys(task_views(tasks@)),
            i <= n,
            project_row_texts(rows@) == tally(keys.take(i as int)),
        decreases n - i,
    {
        let key = project_name_of(&tasks[i]);
        let ghost before = project_row_texts(rows@);
        proof {
            assert(keys.take(i + 1).drop_last() =~= keys.take(i as int));
            assert(keys.take(i + 1).last() == key@);
            lemma_tally(keys.take(i as int));
            lemma_key_position(before, key@);
        }
        let m = rows.len();
        let mut j: usize = 0;
        while j < m && !rows[j].0.eq(&key)
            invariant
                m == rows@.len(),
                before == project_row_texts(rows@),
                j <= m,
                key_position(before, key@) == key_position_from(before, key@, j as nat),
            decreases m - j,
        {
            j = j + 1;
        }
        if j < m {
            let c = rows[j].1;
            proof {
                lemma_count_key(keys.take(i as int), key@);
                assert(before[j as int].1 == count_key(keys.take(i as int), before[j as int].0));
            }
            rows[j].1 = c + 1;
            assert(project_row_texts(rows@) =~= add_key(before, key@));
        } else {
            rows.push((key, 1));
            assert(project_row_texts(rows@) =~= add_key(before, key@));
        }
        i = i + 1;
    }
    assert(keys.take(n as int) =~= keys);
    rows
}

/// The rows sorted by decreasing count, equal counts keeping their order.
fn sort_rows(rows: &Vec<(String, usize)>) -> (sorted: Vec<(String, usize)>)
    ensures
        project_row_texts(sorted@) == sort_desc(project_row_texts(rows@)),
{
    let ghost input = project_row_texts(rows@);
    let n = rows.len();
    let mut sorted: Vec<(String, usize)> = Vec::new();
    let mut i: usize = 0;
    while i < n
        invariant
            n == rows@.len(),
            input == project_row_texts(rows@),
            i <= n,
            project_row_texts(sorted@) == sort_desc(input.take(i as int)),
        decreases n - i,
    {
        let count = rows[i].1;
        let row = (rows[i].0.clone(), count);
        let ghost s = project_row_texts(sorted@);
        let ghost x = input[i as int];
        assert(row.0@ == x.0 && row.1 as nat == x.1);
        let mut p = sorted.len();
        assert(s.take(p as int) =~= s);
        while p > 0 && sorted[p - 1].1 < count
            invariant
                s == project_row_texts(sorted@),
                x.1 == count,
                p <= sorted@.len(),
                insert_pos(s, x) == insert_pos(s.take(p as int), x),
            decreases p,
        {
            assert(s.take(p as int).drop_last() =~= s.take(p - 1));
            p = p - 1;
        }
        proof {
            if p > 0 {
                assert(s.take(p as int).last() == s[p - 1]);
            } else {
                assert(s.take(0) =~= Seq::<(Seq<char>, nat)>::empty());
            }
            lemma_insert_pos(s, x);
            assert(input.take(i + 1).drop_last() =~= input.take(i as int));
        }
        sorted.insert(p, row);
        assert(project_row_texts(sorted@) =~= s.insert(p as int, x));
        i = i + 1;
    }
    assert(input.take(n as int) =~= input);
    sorted
}

impl Summary {
    /// The summary of the tasks: all of them, those still to do and those
    /// done; the project rows (most tasks first, equal counts in the order
    /// the names first occur, `(none)` for tasks without a project); the
    /// priority rows (from `Low` to `High`, only priorities some task has).
    pub fn of_tasks(tasks: &[Task]) -> (summary: Summary)
        ensures
            summary.total == tasks@.len(),
            summary.todo == count_status(task_views(tasks@), Status::Todo),
            summary.done == count_status(task_views(tasks@), Status::Done),
            summary.done == summary.total - summary.todo,
            project_row_texts(summary.by_project@) == project_rows(task_views(tasks@)),
            priority_row_counts(summary.by_priority@) == priority_rows(task_views(tasks@)),
    {
        let ghost views = task_views(tasks@);
        let total = tasks.len();
        let (todo, low, medium, high) = count_tasks(tasks);
        proof {
            law_todo_plus_done(views);
        }
        let done = total - todo;
        let mut by_priority: Vec<(Priority, usize)> = Vec::new();
        if low > 0 {
            by_priority.push((Priority::Low, low));
        }
        if medium > 0 {
            by_priority.push((Priority::Medium, medium));
        }
        if high > 0 {
            by_priority.push((Priority::High, high));
        }
        assert(priority_row_counts(by_priority@) =~= priority_rows(views));
        let tallied = tally_projects(tasks);
        let by_project = sort_rows(&tallied);
        Summary { total, todo, done, by_project, by_priority }
    }

    /// The count of the row for the priority, 0 when there is none.
    pub fn priority_count(&self, priority: Priority) -> (count: usize)
        ensures
            count == priority_lookup(priority_row_counts(self.by_priority@), priority),
    {
        let ghost rows = priority_row_counts(self.by_priority@);
        let n = self.by_priority.len();
        let mut i: usize = 0;
        assert(rows.subrange(0, n as int) =~= rows);
        while i < n
            invariant
                n == self.by_priority@.len(),
                rows == priority_row_counts(self.by_priority@),
                i <= n,
                priority_lookup(rows, priority) == priority_lookup(rows.subrange(i as int, n as int), priority),
            decreases n - i,
        {
            assert(rows.subrange(i + 1, n as int) =~= rows.subrange(i as int, n as int).drop_first());
            if self.by_priority[i].0 == priority {
                return self.by_priority[i].1;
            }
            i = i + 1;
        }
        0
    }

    /// The count of the row for the project name, 0 when there is none.
    pub fn project_count(&self, project: &str) -> (count: usize)
        ensures
            count == key_lookup(project_row_texts(self.by_project@), project@),
    {
        let ghost rows = project_row_texts(self.by_project@);
        proof {
            lemma_key_position(rows, project@);
        }
        let name = String::from_str(project);
        let n = self.by_project.len();
        let mut i: usize = 0;
        while i < n
            invariant
                n == self.by_project@.len(),
                rows == project_row_texts(self.by_project@),
                name@ == project@,
                i <= n,
                key_position(rows, project@) == key_position_from(rows, project@, i as nat),
            decreases n - i,
        {
            if self.by_project[i].0.eq(&name) {
                return self.by_project[i].1;
            }
            i = i + 1;
        }
        0
    }
}

} // verus!
