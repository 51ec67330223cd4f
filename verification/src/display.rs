use vstd::prelude::*;

use crate::app::{ColumnStateView, Status, StatusView, TuiApp};
use crate::text::{int_text, signed_decimal};
use crate::models::{Column, ColumnView, Todo, TodoView, todo_views};

verus! {

/// The number of todos over all columns.
pub open spec fn total_count(cols: Seq<ColumnStateView>) -> int
    decreases cols.len(),
{
    if cols.len() == 0 {
        0
    } else {
        total_count(cols.drop_last()) + cols.last().todos.len()
    }
}

/// The number of todos of the last column with the given name, or 0.
pub open spec fn named_count(cols: Seq<ColumnStateView>, name: Seq<char>) -> int
    decreases cols.len(),
{
    if cols.len() == 0 {
        0
    } else if cols.last().name == name {
        cols.last().todos.len() as int
    } else {
        named_count(cols.drop_last(), name)
    }
}

/// The counts shown in the header.
#[derive(Debug, Clone, Copy, PartialEq, Eq, Structural)]
pub struct HeaderCounts {
    pub total: u128,
    pub backlog: usize,
    pub todo: usize,
    pub in_progress: usize,
    pub done: usize,
}

/// Counts the todos shown: all of them, and those of each default column.
pub fn header_counts(app: &TuiApp) -> (h: HeaderCounts)
    ensures
        h.total == total_count(app@.columns),
        h.backlog == named_count(app@.columns, "backlog"@),
        h.todo == named_count(app@.columns, "todo"@),
        h.in_progress == named_count(app@.columns, "in-progress"@),
        h.done == named_count(app@.columns, "done"@),
{
    let ghost cols = app@.columns;
    let backlog_name = String::from_str("backlog");
    let todo_name = String::from_str("todo");
    let in_progress_name = String::from_str("in-progress");
    let done_name = String::from_str("done");
    let mut h = HeaderCounts { total: 0, backlog: 0, todo: 0, in_progress: 0, done: 0 };
    let mut i: usize = 0;
    while i < app.columns.len()
        invariant
            cols == app@.columns,
            backlog_name@ == "backlog"@,
            todo_name@ == "todo"@,
            in_progress_name@ == "in-progress"@,
            done_name@ == "done"@,
            i <= cols.len(),
            h.total == total_count(cols.take(i as int)),
            h.total <= i * (usize::MAX as int),
            h.backlog == named_count(cols.take(i as int), "backlog"@),
            h.todo == named_count(cols.take(i as int), "todo"@),
            h.in_progress == named_count(cols.take(i as int), "in-progress"@),
            h.done == named_count(cols.take(i as int), "done"@),
        decreases cols.len() - i,
    {
        let c = &app.columns[i];
        assert(c@ == cols[i as int]);
        assert(cols.take(i as int + 1).drop_last() =~= cols.take(i as int));
        assert(cols.take(i as int + 1).last() == cols[i as int]);
        let count = c.todos.len();
        h.total = h.total + count as u128;
        if c.name == backlog_name {
            h.backlog = count;
        }
        if c.name == todo_name {
            h.todo = count;
        }
        if c.name == in_progress_name {
            h.in_progress = count;
        }
        if c.name == done_name {
            h.done = count;
        }
        i = i + 1;
    }
    assert(cols.take(i as int) =~= cols);
    h
}

/// The heading of a column: the default columns get an icon and capitals.
pub open spec fn heading_of(name: Seq<char>) -> Seq<char> {
    if name == "backlog"@ {
        "📋 BACKLOG"@
    } else if name == "todo"@ {
        "📥 TODO"@
    } else if name == "in-progress"@ {
        "⚡ IN PROGRESS"@
    } else if name == "done"@ {
        "✅ DONE"@
    } else {
        name
    }
}

/// The heading of a column (without its count).
pub fn column_heading(name: &String) -> (h: String)
    ensures
        h@ == heading_of(name@),
{
    if *name == String::from_str("backlog") {
        String::from_str("📋 BACKLOG")
    } else if *name == String::from_str("todo") {
        String::from_str("📥 TODO")
    } else if *name == String::from_str("in-progress") {
        String::from_str("⚡ IN PROGRESS")
    } else if *name == String::from_str("done") {
        String::from_str("✅ DONE")
    } else {
        name.clone()
    }
}

pub open spec fn priority_tag_of(p: Seq<char>) -> Seq<char> {
    if p == "High"@ {
        " [H]"@
    } else if p == "Medium"@ {
        " [M]"@
    } else if p == "Low"@ {
        " [L]"@
    } else {
        ""@
    }
}

/// The tag a card shows for its priority; nothing for an unknown one.
pub fn priority_tag(p: &String) -> (tag: &'static str)
    ensures
        tag@ == priority_tag_of(p@),
{
    if *p == String::from_str("High") {
        " [H]"
    } else if *p == String::from_str("Medium") {
        " [M]"
    } else if *p == String::from_str("Low") {
        " [L]"
    } else {
        ""
    }
}

/// The due date as the details panel shows it.
pub fn due_date_label(due_date: &String) -> (label: String)
    ensures
        label@ == (if due_date@.len() == 0 {
            "Not set"@
        } else {
            due_date@
        }),
{
    if due_date.as_str().is_empty() {
        String::from_str("Not set")
    } else {
        due_date.clone()
    }
}

/// The description as the details panel shows it, with a hint when there is none.
pub fn description_body(description: &String) -> (body: String)
    ensures
        body@ == (if description@.len() == 0 {
            "\n  No description. Press [c] to add one."@
        } else {
            description@
        }),
{
    if description.as_str().is_empty() {
        String::from_str("\n  No description. Press [c] to add one.")
    } else {
        description.clone()
    }
}

pub open spec fn ansi_color_of(name: Seq<char>) -> Seq<char> {
    if name == "backlog"@ {
        "\x1b[90m"@
    } else if name == "todo"@ {
        "\x1b[94m"@
    } else if name == "in-progress"@ {
        "\x1b[93m"@
    } else if name == "done"@ {
        "\x1b[92m"@
    } else {
        "\x1b[0m"@
    }
}

/// The terminal color of a column in the command-line listing.
pub fn ansi_color(name: &String) -> (code: &'static str)
    ensures
        code@ == ansi_color_of(name@),
{
    if *name == String::from_str("backlog") {
        "\x1b[90m"
    } else if *name == String::from_str("todo") {
        "\x1b[94m"
    } else if *name == String::from_str("in-progress") {
        "\x1b[93m"
    } else if *name == String::from_str("done") {
        "\x1b[92m"
    } else {
        "\x1b[0m"
    }
}

/// A column with the todos listed in it.
#[derive(Debug, Clone, PartialEq, Eq)]
pub struct ColumnGroup {
    pub name: String,
    pub todos: Vec<Todo>,
}

/// For each column in order that holds a todo of `todos`: its name and its todos, in order.
pub open spec fn grouped(cols: Seq<ColumnView>, todos: Seq<TodoView>) -> Seq<(Seq<char>, Seq<TodoView>)>
    decreases cols.len(),
{
    if cols.len() == 0 {
        Seq::empty()
    } else {
        let before = grouped(cols.drop_last(), todos);
        let c = cols.last();
        let mine = todos.filter(|t: TodoView| t.column_id == c.id);
        if mine.len() == 0 {
            before
        } else {
            before.push((c.name, mine))
        }
    }
}

pub open spec fn groups_view(gs: Seq<ColumnGroup>) -> Seq<(Seq<char>, Seq<TodoView>)> {
    gs.map_values(|g: ColumnGroup| (g.name@, todo_views(g.todos@)))
}

/// The todos of one column, in order.
fn todos_in_column(todos: &Vec<Todo>, column_id: i64) -> (out: Vec<Todo>)
    ensures
        todo_views(out@) == todo_views(todos@).filter(|t: TodoView| t.column_id == column_id),
{
    let ghost src = todo_views(todos@);
    let ghost pred = |t: TodoView| t.column_id == column_id;
    let mut out: Vec<Todo> = Vec::new();
    let mut i: usize = 0;
    while i < todos.len()
        invariant
            src == todo_views(todos@),
            pred == (|t: TodoView| t.column_id == column_id),
            i <= todos@.len(),
            todo_views(out@) == src.take(i as int).filter(pred),
        decreases todos@.len() - i,
    {
        assert(src.take(i as int + 1).drop_last() =~= src.take(i as int));
        assert(src.take(i as int + 1).last() == todos@[i as int]@);
        reveal_with_fuel(Seq::<_>::filter, 1);
        if todos[i].column_id == column_id {
            out.push(todos[i].duplicate());
            assert(todo_views(out@) =~= src.take(i as int).filter(pred).push(todos@[i as int]@));
        }
        i = i + 1;
    }
    assert(src.take(todos@.len() as int) =~= src);
    out
}

/// Groups listed todos by column for the command-line listing; columns
/// without a todo are left out.
pub fn group_by_column(columns: &Vec<Column>, todos: &Vec<Todo>) -> (groups: Vec<ColumnGroup>)
    ensures
        groups_view(groups@) == grouped(columns@.map_values(|c: Column| c@), todo_views(todos@)),
{
    let ghost cols = columns@.map_values(|c: Column| c@);
    let mut groups: Vec<ColumnGroup> = Vec::new();
    let mut i: usize = 0;
    while i < columns.len()
        invariant
            cols == columns@.map_values(|c: Column| c@),
            i <= cols.len(),
            groups_view(groups@) == grouped(cols.take(i as int), todo_views(todos@)),
        decreases cols.len() - i,
    {
        assert(cols.take(i as int + 1).drop_last() =~= cols.take(i as int));
        assert(cols.take(i as int + 1).last() == columns@[i as int]@);
        let mine = todos_in_column(todos, columns[i].id);
        if mine.len() > 0 {
            let g = ColumnGroup { name: columns[i].name.clone(), todos: mine };
            let ghost before = groups_view(groups@);
            groups.push(g);
            assert(groups_view(groups@) =~= before.push((columns@[i as int].name@, todo_views(groups@.last().todos@))));
        }
        i = i + 1;
    }
    assert(cols.take(i as int) =~= cols);
    groups
}

/// The key hints shown in the footer at start.
pub open spec fn hint_text() -> Seq<char> {
    "💡 [/] Search | [Shift+Arrows] Move/Sort | [c] Description | [r] Recycle Bin"@
}

/// `prefix`, the id in decimal, then `suffix`.
pub open spec fn with_id_text(prefix: Seq<char>, id: i64, suffix: Seq<char>) -> Seq<char> {
    prefix + signed_decimal(id as int) + suffix
}

/// The footer message of a status.
pub open spec fn status_message(s: StatusView) -> Seq<char> {
    match s {
        StatusView::Hint => hint_text(),
        StatusView::Empty => Seq::empty(),
        StatusView::MovedUp(id) => with_id_text(" Moved #"@, id, " UP"@),
        StatusView::MovedDown(id) => with_id_text(" Moved #"@, id, " DOWN"@),
        StatusView::MovedTo(id, name) => with_id_text(" Moved #"@, id, " to "@) + name,
        StatusView::PrioritySet(id, p) => with_id_text(" Priority of #"@, id, " set to "@) + p,
        StatusView::Deleted(id) => with_id_text(" Deleted #"@, id, ""@),
        StatusView::DueDateSet(date, id) => " Due date set to '"@ + date + with_id_text("' for #"@, id, ""@),
        StatusView::Restored(id) => with_id_text(" Restored #"@, id, " to board"@),
        StatusView::PermanentlyDeleted(id) => with_id_text(" Permanently deleted #"@, id, ""@),
        StatusView::DescriptionUpdated(id) => with_id_text(" Description updated for #"@, id, ""@),
        StatusView::Added(id, name) => with_id_text(" Added #"@, id, " to "@) + name,
        StatusView::TitleUpdated(id) => with_id_text(" Title updated for #"@, id, ""@),
        StatusView::SearchCleared => " Search cleared"@,
        StatusView::Filtering(q) => " Filtering: '"@ + q + "'"@,
    }
}

fn with_id(prefix: &str, id: i64, suffix: &str) -> (s: String)
    ensures
        s@ == with_id_text(prefix@, id, suffix@),
{
    let mut s = String::from_str(prefix);
    let n = int_text(id);
    s.append(n.as_str());
    s.append(suffix);
    s
}

/// The message the footer shows for a status.
pub fn status_text(status: &Status) -> (text: String)
    ensures
        text@ == status_message(status@),
{
    match status {
        Status::Hint => String::from_str("💡 [/] Search | [Shift+Arrows] Move/Sort | [c] Description | [r] Recycle Bin"),
        Status::Empty => String::new(),
        Status::MovedUp(id) => with_id(" Moved #", *id, " UP"),
        Status::MovedDown(id) => with_id(" Moved #", *id, " DOWN"),
        Status::MovedTo(id, name) => {
            let mut s = with_id(" Moved #", *id, " to ");
            s.append(name.as_str());
            s
        },
        Status::PrioritySet(id, p) => {
            let mut s = with_id(" Priority of #", *id, " set to ");
            s.append(p.as_str());
            s
        },
        Status::Deleted(id) => with_id(" Deleted #", *id, ""),
        Status::DueDateSet(date, id) => {
            let mut s = String::from_str(" Due date set to '");
            s.append(date.as_str());
            let tail = with_id("' for #", *id, "");
            s.append(tail.as_str());
            s
        },
        Status::Restored(id) => with_id(" Restored #", *id, " to board"),
        Status::PermanentlyDeleted(id) => with_id(" Permanently deleted #", *id, ""),
        Status::DescriptionUpdated(id) => with_id(" Description updated for #", *id, ""),
        Status::Added(id, name) => {
            let mut s = with_id(" Added #", *id, " to ");
            s.append(name.as_str());
            s
        },
        Status::TitleUpdated(id) => with_id(" Title updated for #", *id, ""),
        Status::SearchCleared => String::from_str(" Search cleared"),
        Status::Filtering(q) => {
            let mut s = String::from_str(" Filtering: '");
            s.append(q.as_str());
            s.append("'");
            s
        },
    }
}

} // verus!
