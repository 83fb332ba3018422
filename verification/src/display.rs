//! The text the command line shows: task tables and summaries.

use vstd::prelude::*;

use crate::summary::{
    priority_row_counts, project_key, project_name_of, project_row_texts, Summary,
};
use crate::task::{Priority, Status, Task, TaskView};
use crate::text::{
    contains_text, count_char, decimal, decimal_text, lemma_count_char_absent,
    lemma_count_char_concat, lemma_decimal_digits, lemma_occurs_in_concat, lemma_pad_right_chars,
    occurs_at, pad_right, push_decimal, push_padded,
};

verus! {

/// A priority in capitals, as the task table shows it.
pub open spec fn priority_upper(p: Priority) -> Seq<char> {
    match p {
        Priority::Low => "LOW"@,
        Priority::Medium => "MEDIUM"@,
        Priority::High => "HIGH"@,
    }
}

/// A priority by its name, as the summary shows it.
pub open spec fn priority_name(p: Priority) -> Seq<char> {
    match p {
        Priority::Low => "Low"@,
        Priority::Medium => "Medium"@,
        Priority::High => "High"@,
    }
}

/// A status in small letters, as the task table shows it.
pub open spec fn status_lower(s: Status) -> Seq<char> {
    match s {
        Status::Todo => "todo"@,
        Status::Done => "done"@,
    }
}

/// One table row: id, creation day, priority, status and project, each
/// padded to its column, then the title.
pub open spec fn row_text(t: TaskView) -> Seq<char> {
    pad_right(decimal(t.id as nat), 4) + seq![' '] + pad_right(t.created_at, 12) + seq![' ']
        + pad_right(priority_upper(t.priority), 9) + seq![' '] + pad_right(status_lower(t.status), 7)
        + seq![' '] + pad_right(project_key(t), 10) + seq![' '] + t.title
}

/// The table header, padded like the rows.
pub open spec fn header_text() -> Seq<char> {
    pad_right("ID"@, 4) + seq![' '] + pad_right("CREATED AT"@, 12) + seq![' '] + pad_right(
        "PRIORITY"@,
        9,
    ) + seq![' '] + pad_right("STATUS"@, 7) + seq![' '] + pad_right("PROJECT"@, 10) + seq![' ']
        + "TITLE"@
}

/// The rows of the tasks, each ended by a line break.
pub open spec fn rows_text(tasks: Seq<TaskView>) -> Seq<char>
    decreases tasks.len(),
{
    if tasks.len() == 0 {
        Seq::empty()
    } else {
        rows_text(tasks.drop_last()) + row_text(tasks.last()) + seq!['\n']
    }
}

/// The table of the tasks: a header line and one line per task, or
/// `No tasks found.` when there are none.
pub open spec fn list_text(tasks: Seq<TaskView>) -> Seq<char> {
    if tasks.len() == 0 {
        "No tasks found."@
    } else {
        header_text() + seq!['\n'] + rows_text(tasks)
    }
}

/// A line of the summary's head: the label padded to 10, the number, a
/// line break.
pub open spec fn count_line(label: Seq<char>, n: nat) -> Seq<char> {
    pad_right(label, 10) + seq![' '] + decimal(n) + seq!['\n']
}

/// An indented line of a summary section: the name padded to 10, the count.
pub open spec fn entry_line(name: Seq<char>, n: nat) -> Seq<char> {
    "  "@ + pad_right(name, 10) + seq![' '] + decimal(n) + seq!['\n']
}

/// The lines of the project rows.
pub open spec fn project_lines(rows: Seq<(Seq<char>, nat)>) -> Seq<char>
    decreases rows.len(),
{
    if rows.len() == 0 {
        Seq::empty()
    } else {
        project_lines(rows.drop_last()) + entry_line(rows.last().0, rows.last().1)
    }
}

/// The lines of the priority rows.
pub open spec fn priority_lines(rows: Seq<(Priority, nat)>) -> Seq<char>
    decreases rows.len(),
{
    if rows.len() == 0 {
        Seq::empty()
    } else {
        priority_lines(rows.drop_last()) + entry_line(priority_name(rows.last().0), rows.last().1)
    }
}

/// The summary text: the three totals, then the project section, then the
/// priority section.
pub open spec fn summary_text(
    total: nat,
    todo: nat,
    done: nat,
    projects: Seq<(Seq<char>, nat)>,
    priorities: Seq<(Priority, nat)>,
) -> Seq<char> {
    count_line("Total:"@, total) + count_line("Todo:"@, todo) + count_line("Done:"@, done)
        + "\nBy Project:\n"@ + project_lines(projects) + "\nBy Priority:\n"@ + priority_lines(
        priorities,
    )
}

/// No line break in `s`.
pub open spec fn no_newline(s: Seq<char>) -> bool {
    forall|i: int| 0 <= i < s.len() ==> s[i] != '\n'
}

proof fn lemma_no_newline_concat(a: Seq<char>, b: Seq<char>)
    requires
        no_newline(a),
        no_newline(b),
    ensures
        no_newline(a + b),
{
    assert forall|i: int| 0 <= i < (a + b).len() implies (a + b)[i] != '\n' by {
        if i < a.len() {
            assert((a + b)[i] == a[i]);
        } else {
            assert((a + b)[i] == b[i - a.len()]);
        }
    }
}

/// A text without line breaks, then one line break, holds one line break.
proof fn lemma_one_line(body: Seq<char>)
    requires
        no_newline(body),
    ensures
        count_char(body + seq!['\n'], '\n') == 1,
{
    lemma_count_char_absent(body, '\n');
    lemma_count_char_concat(body, seq!['\n'], '\n');
    assert(seq!['\n'].drop_last() =~= Seq::<char>::empty());
    assert(count_char(Seq::<char>::empty(), '\n') == 0);
    assert(count_char(seq!['\n'], '\n') == 1);
}

proof fn lemma_padded_number_no_newline(s: Seq<char>, width: nat, n: nat)
    requires
        no_newline(s),
    ensures
        no_newline(pad_right(s, width) + seq![' '] + decimal(n)),
{
    lemma_pad_right_chars(s, width, '\n');
    lemma_decimal_digits(n);
    assert(no_newline(seq![' ']));
    lemma_no_newline_concat(pad_right(s, width), seq![' ']);
    lemma_no_newline_concat(pad_right(s, width) + seq![' '], decimal(n));
}

proof fn lemma_entry_line_count(name: Seq<char>, n: nat)
    requires
        no_newline(name),
    ensures
        count_char(entry_line(name, n), '\n') == 1,
{
    reveal_strlit("  ");
    let indent = "  "@;
    assert(no_newline(indent));
    lemma_padded_number_no_newline(name, 10, n);
    let rest = pad_right(name, 10) + seq![' '] + decimal(n);
    lemma_no_newline_concat(indent, rest);
    lemma_one_line(indent + rest);
    assert(entry_line(name, n) =~= indent + rest + seq!['\n']);
}

proof fn lemma_project_lines_count(rows: Seq<(Seq<char>, nat)>)
    requires
        forall|i: int| 0 <= i < rows.len() ==> no_newline(#[trigger] rows[i].0),
    ensures
        count_char(project_lines(rows), '\n') == rows.len(),
    decreases rows.len(),
{
    if rows.len() > 0 {
        let r0 = rows.drop_last();
        assert forall|i: int| 0 <= i < r0.len() implies no_newline(#[trigger] r0[i].0) by {
            assert(r0[i] == rows[i]);
        }
        lemma_project_lines_count(r0);
        lemma_entry_line_count(rows.last().0, rows.last().1);
        lemma_count_char_concat(project_lines(r0), entry_line(rows.last().0, rows.last().1), '\n');
    }
}

proof fn lemma_priority_lines_count(rows: Seq<(Priority, nat)>)
    ensures
        count_char(priority_lines(rows), '\n') == rows.len(),
    decreases rows.len(),
{
    if rows.len() > 0 {
        let r0 = rows.drop_last();
        let p = rows.last().0;
        lemma_priority_lines_count(r0);
        reveal_strlit("Low");
        reveal_strlit("Medium");
        reveal_strlit("High");
        assert(no_newline(priority_name(p)));
        lemma_entry_line_count(priority_name(p), rows.last().1);
        lemma_count_char_concat(priority_lines(r0), entry_line(priority_name(p), rows.last().1), '\n');
    }
}

/// A heading `\n<title>\n` holds two line breaks.
proof fn lemma_heading_count(title: Seq<char>)
    requires
        no_newline(title),
    ensures
        count_char(seq!['\n'] + title + seq!['\n'], '\n') == 2,
{
    lemma_one_line(title);
    lemma_count_char_concat(seq!['\n'], title + seq!['\n'], '\n');
    assert(seq!['\n'] + title + seq!['\n'] =~= seq!['\n'] + (title + seq!['\n']));
    assert(seq!['\n'].drop_last() =~= Seq::<char>::empty());
    assert(count_char(Seq::<char>::empty(), '\n') == 0);
}

/// The summary text, when no project name holds a line break: one line
/// per total, per project row and per priority row, the two section
/// headings each with a blank line before them (7 + rows line breaks in
/// all); it starts with `Total:`, ends with a line break, and the project
/// heading comes before the priority heading.
pub proof fn law_summary_text_shape(
    total: nat,
    todo: nat,
    done: nat,
    projects: Seq<(Seq<char>, nat)>,
    priorities: Seq<(Priority, nat)>,
)
    requires
        forall|i: int| 0 <= i < projects.len() ==> no_newline(#[trigger] projects[i].0),
    ensures
        ({
            let t = summary_text(total, todo, done, projects, priorities);
            &&& count_char(t, '\n') == 7 + projects.len() + priorities.len()
            &&& t.len() >= 6 && t.subrange(0, 6) == "Total:"@
            &&& t.last() == '\n'
            &&& exists|i: int, j: int|
                i < j && occurs_at(t, "\nBy Project:\n"@, i) && occurs_at(t, "\nBy Priority:\n"@, j)
        }),
{
    reveal_strlit("Total:");
    reveal_strlit("Todo:");
    reveal_strlit("Done:");
    reveal_strlit("\nBy Project:\n");
    reveal_strlit("\nBy Priority:\n");
    reveal_strlit("By Project:");
    reveal_strlit("By Priority:");
    let c1 = count_line("Total:"@, total);
    let c2 = count_line("Todo:"@, todo);
    let c3 = count_line("Done:"@, done);
    let h1 = "\nBy Project:\n"@;
    let h2 = "\nBy Priority:\n"@;
    let pl = project_lines(projects);
    let ql = priority_lines(priorities);
    let t = summary_text(total, todo, done, projects, priorities);
    assert(t == c1 + c2 + c3 + h1 + pl + h2 + ql);
    // line breaks
    assert(no_newline("Total:"@));
    assert(no_newline("Todo:"@));
    assert(no_newline("Done:"@));
    assert(no_newline("By Project:"@));
    assert(no_newline("By Priority:"@));
    lemma_padded_number_no_newline("Total:"@, 10, total);
    lemma_padded_number_no_newline("Todo:"@, 10, todo);
    lemma_padded_number_no_newline("Done:"@, 10, done);
    lemma_one_line(pad_right("Total:"@, 10) + seq![' '] + decimal(total));
    lemma_one_line(pad_right("Todo:"@, 10) + seq![' '] + decimal(todo));
    lemma_one_line(pad_right("Done:"@, 10) + seq![' '] + decimal(done));
    lemma_heading_count("By Project:"@);
    lemma_heading_count("By Priority:"@);
    assert(h1 =~= seq!['\n'] + "By Project:"@ + seq!['\n']);
    assert(h2 =~= seq!['\n'] + "By Priority:"@ + seq!['\n']);
    lemma_project_lines_count(projects);
    lemma_priority_lines_count(priorities);
    lemma_count_char_concat(c1, c2, '\n');
    lemma_count_char_concat(c1 + c2, c3, '\n');
    lemma_count_char_concat(c1 + c2 + c3, h1, '\n');
    lemma_count_char_concat(c1 + c2 + c3 + h1, pl, '\n');
    lemma_count_char_concat(c1 + c2 + c3 + h1 + pl, h2, '\n');
    lemma_count_char_concat(c1 + c2 + c3 + h1 + pl + h2, ql, '\n');
    // the start
    lemma_pad_right_chars("Total:"@, 10, '\n');
    assert(t.subrange(0, 6) =~= pad_right("Total:"@, 10).subrange(0, 6));
    // the end
    if ql.len() > 0 {
        let r = priorities.last();
        assert(ql == priority_lines(priorities.drop_last()) + entry_line(priority_name(r.0), r.1));
        assert(ql.last() == '\n');
    }
    assert(t.last() == '\n');
    // the headings
    let a = c1 + c2 + c3;
    assert(h1.subrange(0, h1.len() as int) =~= h1);
    assert(h2.subrange(0, h2.len() as int) =~= h2);
    assert(occurs_at(h1, h1, 0));
    assert(occurs_at(h2, h2, 0));
    lemma_occurs_in_concat(a, h1, h1, 0);
    lemma_occurs_in_concat(a + h1, pl, h1, a.len() as int);
    lemma_occurs_in_concat(a + h1 + pl, h2, h1, a.len() as int);
    lemma_occurs_in_concat(a + h1 + pl + h2, ql, h1, a.len() as int);
    lemma_occurs_in_concat(a + h1 + pl, h2, h2, 0);
    lemma_occurs_in_concat(a + h1 + pl + h2, ql, h2, (a + h1 + pl).len() as int);
    assert(occurs_at(t, h1, a.len() as int));
    assert(occurs_at(t, h2, (a + h1 + pl).len() as int));
}

/// Every task's title stands in the rows of a table of the tasks.
pub proof fn lemma_rows_text_shows_titles(tasks: Seq<TaskView>)
    ensures
        forall|i: int| 0 <= i < tasks.len() ==> contains_text(rows_text(tasks), #[trigger] tasks[i].title),
    decreases tasks.len(),
{
    if tasks.len() > 0 {
        let t0 = tasks.drop_last();
        let last = tasks.last();
        lemma_rows_text_shows_titles(t0);
        let r0 = rows_text(t0);
        let row = row_text(last);
        let x = pad_right(decimal(last.id as nat), 4) + seq![' '] + pad_right(last.created_at, 12)
            + seq![' '] + pad_right(priority_upper(last.priority), 9) + seq![' '] + pad_right(
            status_lower(last.status),
            7,
        ) + seq![' '] + pad_right(project_key(last), 10) + seq![' '];
        assert(row == x + last.title);
        assert(rows_text(tasks) == r0 + row + seq!['\n']);
        assert forall|i: int| 0 <= i < tasks.len() implies contains_text(
            rows_text(tasks),
            #[trigger] tasks[i].title,
        ) by {
            if i < t0.len() {
                assert(t0[i] == tasks[i]);
                let p = choose|p: int| occurs_at(r0, t0[i].title, p);
                lemma_occurs_in_concat(r0, row, tasks[i].title, p);
                lemma_occurs_in_concat(r0 + row, seq!['\n'], tasks[i].title, p);
            } else {
                assert(last.title.subrange(0, last.title.len() as int) =~= last.title);
                assert(occurs_at(last.title, last.title, 0));
                lemma_occurs_in_concat(x, last.title, last.title, 0);
                lemma_occurs_in_concat(r0, row, last.title, x.len() as int);
                lemma_occurs_in_concat(r0 + row, seq!['\n'], last.title, (r0.len() + x.len()) as int);
            }
        }
    }
}

/// A table of tasks shows the title of every task it lists.
pub proof fn law_list_text_shows_titles(tasks: Seq<TaskView>)
    ensures
        forall|i: int| 0 <= i < tasks.len() ==> contains_text(list_text(tasks), #[trigger] tasks[i].title),
{
    lemma_rows_text_shows_titles(tasks);
    let head = header_text() + seq!['\n'];
    assert forall|i: int| 0 <= i < tasks.len() implies contains_text(
        list_text(tasks),
        #[trigger] tasks[i].title,
    ) by {
        let p = choose|p: int| occurs_at(rows_text(tasks), tasks[i].title, p);
        lemma_occurs_in_concat(head, rows_text(tasks), tasks[i].title, p);
    }
}

fn priority_upper_text(p: Priority) -> (s: &'static str)
    ensures
        s@ == priority_upper(p),
{
    match p {
        Priority::Low => "LOW",
        Priority::Medium => "MEDIUM",
        Priority::High => "HIGH",
    }
}

fn priority_name_text(p: Priority) -> (s: &'static str)
    ensures
        s@ == priority_name(p),
{
    match p {
        Priority::Low => "Low",
        Priority::Medium => "Medium",
        Priority::High => "High",
    }
}

fn status_lower_text(s: Status) -> (t: &'static str)
    ensures
        t@ == status_lower(s),
{
    match s {
        Status::Todo => "todo",
        Status::Done => "done",
    }
}

/// One table row for the task.
pub fn format_task(task: &Task) -> (row: String)
    ensures
        row@ == row_text(task@),
{
    let mut row = String::new();
    let id = decimal_text(task.id as u64);
    push_padded(&mut row, id.as_str(), 4);
    row.push(' ');
    push_padded(&mut row, task.created_at.as_str(), 12);
    row.push(' ');
    push_padded(&mut row, priority_upper_text(task.priority), 9);
    row.push(' ');
    push_padded(&mut row, status_lower_text(task.status), 7);
    row.push(' ');
    let project = project_name_of(task);
    push_padded(&mut row, project.as_str(), 10);
    row.push(' ');
    row.append(task.title.as_str());
    assert(row@ =~= row_text(task@));
    row
}

fn header() -> (h: String)
    ensures
        h@ == header_text(),
{
    let mut h = String::new();
    push_padded(&mut h, "ID", 4);
    h.push(' ');
    push_padded(&mut h, "CREATED AT", 12);
    h.push(' ');
    push_padded(&mut h, "PRIORITY", 9);
    h.push(' ');
    push_padded(&mut h, "STATUS", 7);
    h.push(' ');
    push_padded(&mut h, "PROJECT", 10);
    h.push(' ');
    h.append("TITLE");
    assert(h@ =~= header_text());
    h
}

/// The table of the tasks, or `No tasks found.` when there are none.
pub fn format_task_list(tasks: Vec<&Task>) -> (list: String)
    ensures
        list@ == list_text(tasks@.map_values(|t: &Task| t@)),
{
    let ghost views = tasks@.map_values(|t: &Task| t@);
    if tasks.len() == 0 {
        return String::from_str("No tasks found.");
    }
    let mut list = header();
    list.push('\n');
    let ghost head = list@;
    let n = tasks.len();
    let mut i: usize = 0;
    assert(views.take(0) =~= Seq::<TaskView>::empty());
    while i < n
        invariant
            n == tasks@.len(),
            views == tasks@.map_values(|t: &Task| t@),
            i <= n,
            list@ == head + rows_text(views.take(i as int)),
        decreases n - i,
    {
        let row = format_task(tasks[i]);
        list.append(row.as_str());
        list.push('\n');
        assert(views.take(i + 1).drop_last() =~= views.take(i as int));
        assert(list@ =~= head + rows_text(views.take(i + 1)));
        i = i + 1;
    }
    assert(views.take(n as int) =~= views);
    list
}

fn push_count_line(out: &mut String, label: &str, n: usize)
    ensures
        final(out)@ == old(out)@ + count_line(label@, n as nat),
{
    push_padded(out, label, 10);
    out.push(' ');
    push_decimal(out, n as u64);
    out.push('\n');
    assert(final(out)@ =~= old(out)@ + count_line(label@, n as nat));
}

fn push_entry_line(out: &mut String, name: &str, n: usize)
    ensures
        final(out)@ == old(out)@ + entry_line(name@, n as nat),
{
    out.append("  ");
    push_padded(out, name, 10);
    out.push(' ');
    push_decimal(out, n as u64);
    out.push('\n');
    assert(final(out)@ =~= old(out)@ + entry_line(name@, n as nat));
}

/// The summary as text: totals, then counts per project, then per priority.
pub fn format_summary(summary: &Summary) -> (text: String)
    ensures
        text@ == summary_text(
            summary.total as nat,
            summary.todo as nat,
            summary.done as nat,
            project_row_texts(summary.by_project@),
            priority_row_counts(summary.by_priority@),
        ),
{
    let ghost projects = project_row_texts(summary.by_project@);
    let ghost priorities = priority_row_counts(summary.by_priority@);
    let mut output = String::new();
    push_count_line(&mut output, "Total:", summary.total);
    push_count_line(&mut output, "Todo:", summary.todo);
    push_count_line(&mut output, "Done:", summary.done);
    output.append("\nBy Project:\n");
    let ghost head = output@;
    let n = summary.by_project.len();
    let mut i: usize = 0;
    assert(projects.take(0) =~= Seq::<(Seq<char>, nat)>::empty());
    while i < n
        invariant
            n == summary.by_project@.len(),
            projects == project_row_texts(summary.by_project@),
            i <= n,
            output@ == head + project_lines(projects.take(i as int)),
        decreases n - i,
    {
        push_entry_line(&mut output, summary.by_project[i].0.as_str(), summary.by_project[i].1);
        assert(projects.take(i + 1).drop_last() =~= projects.take(i as int));
        assert(output@ =~= head + project_lines(projects.take(i + 1)));
        i = i + 1;
    }
    assert(projects.take(n as int) =~= projects);
    output.append("\nBy Priority:\n");
    let ghost mid = output@;
    let m = summary.by_priority.len();
    let mut j: usize = 0;
    assert(priorities.take(0) =~= Seq::<(Priority, nat)>::empty());
    while j < m
        invariant
            m == summary.by_priority@.len(),
            priorities == priority_row_counts(summary.by_priority@),
            j <= m,
            output@ == mid + priority_lines(priorities.take(j as int)),
        decreases m - j,
    {
        push_entry_line(
            &mut output,
            priority_name_text(summary.by_priority[j].0),
            summary.by_priority[j].1,
        );
        assert(priorities.take(j + 1).drop_last() =~= priorities.take(j as int));
        assert(output@ =~= mid + priority_lines(priorities.take(j + 1)));
        j = j + 1;
    }
    assert(priorities.take(m as int) =~= priorities);
    assert(output@ =~= summary_text(
        summary.total as nat,
        summary.todo as nat,
        summary.done as nat,
        projects,
        priorities,
    ));
    output
}

} // verus!
