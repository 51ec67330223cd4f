use vstd::prelude::*;

verus! {

/// A column of the board, as stored in the `columns` table.
#[derive(Debug, Clone, PartialEq, Eq)]
pub struct Column {
    pub id: i64,
    pub name: String,
    pub position: i32,
}

pub struct ColumnView {
    pub id: i64,
    pub name: Seq<char>,
    pub position: i32,
}

impl View for Column {
    type V = ColumnView;

    open spec fn view(&self) -> ColumnView {
        ColumnView { id: self.id, name: self.name@, position: self.position }
    }
}

impl Column {
    /// A field-by-field copy.
    pub fn duplicate(&self) -> (copy: Column)
        ensures
            copy@ == self@,
    {
        Column { id: self.id, name: self.name.clone(), position: self.position }
    }
}

/// A stored todo card: one row of the `todos` table.
#[derive(Debug, Clone, PartialEq, Eq)]
pub struct TodoRow {
    pub id: i64,
    pub title: String,
    pub column_id: i64,
    pub position: i32,
    pub created_at: String,
    pub description: String,
    pub priority: String,
    pub due_date: String,
    pub archived: bool,
}

pub struct RowView {
    pub id: i64,
    pub title: Seq<char>,
    pub column_id: i64,
    pub position: i32,
    pub created_at: Seq<char>,
    pub description: Seq<char>,
    pub priority: Seq<char>,
    pub due_date: Seq<char>,
    pub archived: bool,
}

impl View for TodoRow {
    type V = RowView;

    open spec fn view(&self) -> RowView {
        RowView {
            id: self.id,
            title: self.title@,
            column_id: self.column_id,
            position: self.position,
            created_at: self.created_at@,
            description: self.description@,
            priority: self.priority@,
            due_date: self.due_date@,
            archived: self.archived,
        }
    }
}

impl TodoRow {
    /// A field-by-field copy.
    pub fn duplicate(&self) -> (copy: TodoRow)
        ensures
            copy@ == self@,
    {
        TodoRow {
            id: self.id,
            title: self.title.clone(),
            column_id: self.column_id,
            position: self.position,
            created_at: self.created_at.clone(),
            description: self.description.clone(),
            priority: self.priority.clone(),
            due_date: self.due_date.clone(),
            archived: self.archived,
        }
    }
}

/// A todo card as the board presents it: its row joined with its column's name.
/// `created_at` holds the stored `%Y-%m-%d %H:%M:%S` text.
#[derive(Debug, Clone, PartialEq, Eq)]
pub struct Todo {
    pub id: i64,
    pub title: String,
    pub column_id: i64,
    pub column_name: String,
    pub position: i32,
    pub created_at: String,
    pub description: String,
    pub priority: String,
    pub due_date: String,
}

pub struct TodoView {
    pub id: i64,
    pub title: Seq<char>,
    pub column_id: i64,
    pub column_name: Seq<char>,
    pub position: i32,
    pub created_at: Seq<char>,
    pub description: Seq<char>,
    pub priority: Seq<char>,
    pub due_date: Seq<char>,
}

impl View for Todo {
    type V = TodoView;

    open spec fn view(&self) -> TodoView {
        TodoView {
            id: self.id,
            title: self.title@,
            column_id: self.column_id,
            column_name: self.column_name@,
            position: self.position,
            created_at: self.created_at@,
            description: self.description@,
            priority: self.priority@,
            due_date: self.due_date@,
        }
    }
}

impl Todo {
    /// A field-by-field copy.
    pub fn duplicate(&self) -> (copy: Todo)
        ensures
            copy@ == self@,
    {
        Todo {
            id: self.id,
            title: self.title.clone(),
            column_id: self.column_id,
            column_name: self.column_name.clone(),
            position: self.position,
            created_at: self.created_at.clone(),
            description: self.description.clone(),
            priority: self.priority.clone(),
            due_date: self.due_date.clone(),
        }
    }
}

/// The views of a vector of todos, in order.
pub open spec fn todo_views(todos: Seq<Todo>) -> Seq<TodoView> {
    todos.map_values(|t: Todo| t@)
}

} // verus!
