use vstd::prelude::*;

use crate::calendar::{self, Date};
use crate::db::{self, Board, BoardView, DbError, is_todo_listing, is_column_listing, well_formed};
use crate::models::{Column, ColumnView, RowView, Todo, TodoView, todo_views};
use crate::text::{self, has_substring, lowercase};

verus! {

/// What the keyboard currently edits.
#[derive(Debug, Clone, Copy, PartialEq, Eq, Structural)]
pub enum InputMode {
    Normal,
    Adding,
    EditingTitle,
    EditingDescription,
    EditingDueDate,
    Searching,
    RecycleBin,
}

/// The message shown in the footer.
#[derive(Debug, Clone, PartialEq, Eq)]
pub enum Status {
    /// The key hints shown at start.
    Hint,
    /// No message.
    Empty,
    MovedUp(i64),
    MovedDown(i64),
    /// A todo went to the named column.
    MovedTo(i64, String),
    /// A todo got the named priority.
    PrioritySet(i64, String),
    Deleted(i64),
    /// The due date (as text) of a todo was set.
    DueDateSet(String, i64),
    Restored(i64),
    PermanentlyDeleted(i64),
    DescriptionUpdated(i64),
    /// A todo was added to the named column.
    Added(i64, String),
    TitleUpdated(i64),
    SearchCleared,
    /// The board is filtered by the given query.
    Filtering(String),
}

pub enum StatusView {
    Hint,
    Empty,
    MovedUp(i64),
    MovedDown(i64),
    MovedTo(i64, Seq<char>),
    PrioritySet(i64, Seq<char>),
    Deleted(i64),
    DueDateSet(Seq<char>, i64),
    Restored(i64),
    PermanentlyDeleted(i64),
    DescriptionUpdated(i64),
    Added(i64, Seq<char>),
    TitleUpdated(i64),
    SearchCleared,
    Filtering(Seq<char>),
}

impl View for Status {
    type V = StatusView;

    open spec fn view(&self) -> StatusView {
        match self {
            Status::Hint => StatusView::Hint,
            Status::Empty => StatusView::Empty,
            Status::MovedUp(id) => StatusView::MovedUp(*id),
            Status::MovedDown(id) => StatusView::MovedDown(*id),
            Status::MovedTo(id, name) => StatusView::MovedTo(*id, name@),
            Status::PrioritySet(id, p) => StatusView::PrioritySet(*id, p@),
            Status::Deleted(id) => StatusView::Deleted(*id),
            Status::DueDateSet(d, id) => StatusView::DueDateSet(d@, *id),
            Status::Restored(id) => StatusView::Restored(*id),
            Status::PermanentlyDeleted(id) => StatusView::PermanentlyDeleted(*id),
            Status::DescriptionUpdated(id) => StatusView::DescriptionUpdated(*id),
            Status::Added(id, name) => StatusView::Added(*id, name@),
            Status::TitleUpdated(id) => StatusView::TitleUpdated(*id),
            Status::SearchCleared => StatusView::SearchCleared,
            Status::Filtering(q) => StatusView::Filtering(q@),
        }
    }
}

/// One column of the board as the interface shows it.
#[derive(Debug, Clone, PartialEq, Eq)]
pub struct ColumnState {
    pub id: i64,
    pub name: String,
    pub todos: Vec<Todo>,
    pub selected: usize,
}

pub struct ColumnStateView {
    pub id: i64,
    pub name: Seq<char>,
    pub todos: Seq<TodoView>,
    pub selected: usize,
}

impl View for ColumnState {
    type V = ColumnStateView;

    open spec fn view(&self) -> ColumnStateView {
        ColumnStateView {
            id: self.id,
            name: self.name@,
            todos: todo_views(self.todos@),
            selected: self.selected,
        }
    }
}

/// The state of the terminal interface.
#[derive(Debug)]
pub struct TuiApp {
    pub columns: Vec<ColumnState>,
    pub focused_col: usize,
    pub input_mode: InputMode,
    pub search_query: String,
    pub due_date_picker: Option<Date>,
    pub recycle_bin_todos: Vec<Todo>,
    pub recycle_bin_selected: usize,
    pub edit_todo_id: Option<i64>,
    pub should_quit: bool,
    pub status: Status,
}

pub struct AppView {
    pub columns: Seq<ColumnStateView>,
    pub focused_col: usize,
    pub input_mode: InputMode,
    pub search_query: Seq<char>,
    pub due_date_picker: Option<Date>,
    pub recycle_bin_todos: Seq<TodoView>,
    pub recycle_bin_selected: usize,
    pub edit_todo_id: Option<i64>,
    pub should_quit: bool,
    pub status: StatusView,
}

impl View for TuiApp {
    type V = AppView;

    open spec fn view(&self) -> AppView {
        AppView {
            columns: self.columns@.map_values(|c: ColumnState| c@),
            focused_col: self.focused_col,
            input_mode: self.input_mode,
            search_query: self.search_query@,
            due_date_picker: self.due_date_picker,
            recycle_bin_todos: todo_views(self.recycle_bin_todos@),
            recycle_bin_selected: self.recycle_bin_selected,
            edit_todo_id: self.edit_todo_id,
            should_quit: self.should_quit,
            status: self.status@,
        }
    }
}

/// The interface's invariant: at least one column, the focus on one of
/// them, each selection on a card whenever its list has cards, and a valid
/// picker date.
pub open spec fn app_ok(a: AppView) -> bool {
    &&& a.columns.len() > 0
    &&& a.focused_col < a.columns.len()
    &&& forall|i: int| 0 <= i < a.columns.len() ==> (#[trigger] a.columns[i]).selected < usize::MAX
    &&& forall|i: int|
        0 <= i < a.columns.len() && (#[trigger] a.columns[i]).todos.len() > 0 ==> a.columns[i].selected
            < a.columns[i].todos.len()
    &&& a.recycle_bin_selected < usize::MAX
    &&& a.recycle_bin_todos.len() > 0 ==> a.recycle_bin_selected < a.recycle_bin_todos.len()
    &&& a.due_date_picker matches Some(d) ==> d.valid()
}

/// A todo matches a search query (already lowercased) when the query is
/// empty or occurs in its lowercased title or description.
pub open spec fn matches_query(t: TodoView, query: Seq<char>) -> bool {
    ||| query.len() == 0
    ||| has_substring(lowercase(t.title), query)
    ||| has_substring(lowercase(t.description), query)
}

/// The todos of `all` in the given column that match the query, in order.
pub open spec fn column_todos(all: Seq<TodoView>, column_id: i64, query: Seq<char>) -> Seq<TodoView> {
    all.filter(|t: TodoView| t.column_id == column_id && matches_query(t, query))
}

/// A selection kept inside a non-empty list.
pub open spec fn clamped(selected: usize, len: nat) -> usize {
    if len > 0 && selected >= len {
        (len - 1) as usize
    } else {
        selected
    }
}

/// The interface after refreshing every column from the listing `all`,
/// filtered by the lowercased search query.
pub open spec fn reload_with(a: AppView, all: Seq<TodoView>) -> AppView {
    let query = lowercase(a.search_query);
    AppView {
        columns: Seq::new(
            a.columns.len(),
            |i: int|
                {
                    let c = a.columns[i];
                    let todos = column_todos(all, c.id, query);
                    ColumnStateView {
                        id: c.id,
                        name: c.name,
                        todos,
                        selected: clamped(c.selected, todos.len()),
                    }
                },
        ),
        ..a
    }
}

/// `post` is `pre` refreshed from the board `b`.
pub open spec fn reloaded(pre: AppView, post: AppView, b: BoardView) -> bool {
    exists|all: Seq<TodoView>| is_todo_listing(b, None, all) && post == reload_with(pre, all)
}

/// The interface as it opens on a board with the column listing `cols` and todo listing `all`.
pub open spec fn initial_app(cols: Seq<ColumnView>, all: Seq<TodoView>) -> AppView {
    AppView {
        columns: Seq::new(
            cols.len(),
            |i: int|
                ColumnStateView {
                    id: cols[i].id,
                    name: cols[i].name,
                    todos: column_todos(all, cols[i].id, Seq::empty()),
                    selected: 0,
                },
        ),
        focused_col: 0,
        input_mode: InputMode::Normal,
        search_query: Seq::empty(),
        due_date_picker: None,
        recycle_bin_todos: Seq::empty(),
        recycle_bin_selected: 0,
        edit_todo_id: None,
        should_quit: false,
        status: StatusView::Hint,
    }
}

/// The todos of `all` in the given column that match `query`.
fn filter_column(all: &Vec<Todo>, column_id: i64, query: &str) -> (out: Vec<Todo>)
    ensures
        todo_views(out@) == column_todos(todo_views(all@), column_id, query@),
{
    let ghost src = todo_views(all@);
    let ghost pred = |t: TodoView| t.column_id == column_id && matches_query(t, query@);
    let empty_query = query.is_empty();
    let mut out: Vec<Todo> = Vec::new();
    let mut i: usize = 0;
    while i < all.len()
        invariant
            src == todo_views(all@),
            pred == (|t: TodoView| t.column_id == column_id && matches_query(t, query@)),
            empty_query == (query@.len() == 0),
            i <= all@.len(),
            todo_views(out@) == src.take(i as int).filter(pred),
        decreases all@.len() - i,
    {
        let ghost pre = src.take(i as int);
        assert(src.take(i as int + 1).drop_last() =~= pre);
        assert(src.take(i as int + 1).last() == all@[i as int]@);
        reveal_with_fuel(Seq::<_>::filter, 1);
        let t = &all[i];
        let keep = t.column_id == column_id && (empty_query || {
            let title = text::to_lowercase(t.title.as_str());
            let desc = text::to_lowercase(t.description.as_str());
            text::contains_text(title.as_str(), query) || text::contains_text(desc.as_str(), query)
        });
        if keep {
            out.push(t.duplicate());
            assert(todo_views(out@) =~= pre.filter(pred).push(all@[i as int]@));
        } else {
            assert(!pred(all@[i as int]@));
        }
        i = i + 1;
    }
    assert(src.take(all@.len() as int) =~= src);
    out
}

impl TuiApp {
    /// Opens the interface on the board: one column state per column, by
    /// position, each holding its todos in order, the first column focused.
    pub fn load(board: &Board) -> (app: TuiApp)
        requires
            well_formed(board@),
        ensures
            exists|cols: Seq<ColumnView>, all: Seq<TodoView>|
                is_column_listing(board@, cols) && is_todo_listing(board@, None, all) && app@
                    == initial_app(cols, all),
            board@.columns.len() > 0 ==> app_ok(app@),
    {
        let db_cols = db::list_columns(board);
        let all = db::list_todos(board, None);
        let ghost cols = db_cols@.map_values(|c: Column| c@);
        let ghost allv = todo_views(all@);
        let mut columns: Vec<ColumnState> = Vec::new();
        let mut i: usize = 0;
        while i < db_cols.len()
            invariant
                cols == db_cols@.map_values(|c: Column| c@),
                allv == todo_views(all@),
                i <= db_cols@.len(),
                columns@.len() == i,
                forall|j: int|
                    0 <= j < i ==> #[trigger] columns@[j]@ == initial_app(cols, allv).columns[j],
            decreases db_cols@.len() - i,
        {
            let c = &db_cols[i];
            let todos = filter_column(&all, c.id, "");
            proof {
                reveal_strlit("");
                assert(""@ =~= Seq::<char>::empty());
            }
            let cs = ColumnState { id: c.id, name: c.name.clone(), todos, selected: 0 };
            assert(cs@ == initial_app(cols, allv).columns[i as int]);
            columns.push(cs);
            i = i + 1;
        }
        let app = TuiApp {
            columns,
            focused_col: 0,
            input_mode: InputMode::Normal,
            search_query: String::new(),
            due_date_picker: None,
            recycle_bin_todos: Vec::new(),
            recycle_bin_selected: 0,
            edit_todo_id: None,
            should_quit: false,
            status: Status::Hint,
        };
        assert(app@.columns =~= initial_app(cols, allv).columns);
        assert(app@.recycle_bin_todos =~= Seq::<TodoView>::empty());
        assert(app@ == initial_app(cols, allv));
        proof {
            if board@.columns.len() > 0 {
                assert(cols.contains(board@.columns[0]));
            }
        }
        app
    }
}

impl TuiApp {
    /// Refreshes every column from the board, keeping only the todos that
    /// match the search query, and pulls each selection back inside its list.
    pub fn reload(&mut self, board: &Board)
        requires
            well_formed(board@),
        ensures
            reloaded(old(self)@, final(self)@, board@),
            app_ok(old(self)@) ==> app_ok(final(self)@),
    {
        let ghost pre = self@;
        let all = db::list_todos(board, None);
        let ghost allv = todo_views(all@);
        let query = text::to_lowercase(self.search_query.as_str());
        let ghost target = reload_with(pre, allv);
        let mut columns: Vec<ColumnState> = Vec::new();
        let mut i: usize = 0;
        while i < self.columns.len()
            invariant
                self@ == pre,
                allv == todo_views(all@),
                query@ == lowercase(pre.search_query),
                target == reload_with(pre, allv),
                i <= pre.columns.len(),
                columns@.len() == i,
                forall|j: int| 0 <= j < i ==> #[trigger] columns@[j]@ == target.columns[j],
            decreases pre.columns.len() - i,
        {
            let c = &self.columns[i];
            assert(c@ == pre.columns[i as int]);
            let todos = filter_column(&all, c.id, query.as_str());
            let len = todos.len();
            let selected = if len > 0 && c.selected >= len {
                len - 1
            } else {
                c.selected
            };
            let cs = ColumnState { id: c.id, name: c.name.clone(), todos, selected };
            assert(cs@ == target.columns[i as int]);
            columns.push(cs);
            i = i + 1;
        }
        self.columns = columns;
        assert(self@.columns =~= target.columns);
        assert(self@ == target);
        assert(is_todo_listing(board@, None, allv));
    }
}

// ------------------------------------------------------------------------
// Keys
// ------------------------------------------------------------------------

/// A key, as the interface reads it.
#[derive(Debug, Clone, Copy, PartialEq, Eq, Structural)]
pub enum KeyCode {
    Char(char),
    Up,
    Down,
    Left,
    Right,
    Tab,
    BackTab,
    Enter,
    Esc,
    PageUp,
    PageDown,
    Other,
}

/// A key press with the state of its Shift and Control modifiers.
#[derive(Debug, Clone, Copy, PartialEq, Eq, Structural)]
pub struct Key {
    pub code: KeyCode,
    pub shift: bool,
    pub ctrl: bool,
}

/// What a key does on the board.
#[derive(Debug, Clone, Copy, PartialEq, Eq, Structural)]
pub enum NormalAction {
    Quit,
    Add,
    EditTitle,
    EditDescription,
    EditDueDate,
    CyclePriority,
    Search,
    Delete,
    MoveLeft,
    MoveRight,
    OpenRecycleBin,
    SortUp,
    SortDown,
    FocusNext,
    FocusPrev,
    SelectNext,
    SelectPrev,
    Nothing,
}

/// What a key does in the date picker.
#[derive(Debug, Clone, Copy, PartialEq, Eq, Structural)]
pub enum PickerAction {
    Cancel,
    Confirm,
    PrevDay,
    NextDay,
    PrevWeek,
    NextWeek,
    PrevMonth,
    NextMonth,
    Today,
    Nothing,
}

/// What a key does in the recycle bin.
#[derive(Debug, Clone, Copy, PartialEq, Eq, Structural)]
pub enum BinAction {
    Close,
    Next,
    Prev,
    Restore,
    Purge,
    Nothing,
}

/// What a key does while text is edited.
#[derive(Debug, Clone, Copy, PartialEq, Eq, Structural)]
pub enum InputAction {
    /// Leave the editor (saving a description).
    Finish,
    /// Use the text (not for descriptions, where Enter is a line break).
    Submit,
    /// Hand the key to the text editor.
    Forward,
}

pub open spec fn normal_action_of(key: Key) -> NormalAction {
    if key.shift && key.code == KeyCode::Up {
        NormalAction::SortUp
    } else if key.shift && key.code == KeyCode::Down {
        NormalAction::SortDown
    } else if key.shift && key.code == KeyCode::Left {
        NormalAction::MoveLeft
    } else if key.shift && key.code == KeyCode::Right {
        NormalAction::MoveRight
    } else {
        match key.code {
            KeyCode::Char('q') => NormalAction::Quit,
            KeyCode::Char('a') => NormalAction::Add,
            KeyCode::Char('e') => NormalAction::EditTitle,
            KeyCode::Char('c') => NormalAction::EditDescription,
            KeyCode::Char('t') => NormalAction::EditDueDate,
            KeyCode::Char('p') => NormalAction::CyclePriority,
            KeyCode::Char('/') => NormalAction::Search,
            KeyCode::Char('d') => NormalAction::Delete,
            KeyCode::Char('m') => NormalAction::MoveRight,
            KeyCode::Char('r') => NormalAction::OpenRecycleBin,
            KeyCode::Char('K') => NormalAction::SortUp,
            KeyCode::Char('J') => NormalAction::SortDown,
            KeyCode::Char('H') => NormalAction::MoveLeft,
            KeyCode::Char('L') => NormalAction::MoveRight,
            KeyCode::Tab | KeyCode::Right | KeyCode::Char('l') => NormalAction::FocusNext,
            KeyCode::BackTab | KeyCode::Left | KeyCode::Char('h') => NormalAction::FocusPrev,
            KeyCode::Down | KeyCode::Char('j') => NormalAction::SelectNext,
            KeyCode::Up | KeyCode::Char('k') => NormalAction::SelectPrev,
            _ => NormalAction::Nothing,
        }
    }
}

/// The action of a key on the board.
pub fn normal_action(key: Key) -> (a: NormalAction)
    ensures
        a == normal_action_of(key),
{
    if key.shift && key.code == KeyCode::Up {
        NormalAction::SortUp
    } else if key.shift && key.code == KeyCode::Down {
        NormalAction::SortDown
    } else if key.shift && key.code == KeyCode::Left {
        NormalAction::MoveLeft
    } else if key.shift && key.code == KeyCode::Right {
        NormalAction::MoveRight
    } else {
        match key.code {
            KeyCode::Char('q') => NormalAction::Quit,
            KeyCode::Char('a') => NormalAction::Add,
            KeyCode::Char('e') => NormalAction::EditTitle,
            KeyCode::Char('c') => NormalAction::EditDescription,
            KeyCode::Char('t') => NormalAction::EditDueDate,
            KeyCode::Char('p') => NormalAction::CyclePriority,
            KeyCode::Char('/') => NormalAction::Search,
            KeyCode::Char('d') => NormalAction::Delete,
            KeyCode::Char('m') => NormalAction::MoveRight,
            KeyCode::Char('r') => NormalAction::OpenRecycleBin,
            KeyCode::Char('K') => NormalAction::SortUp,
            KeyCode::Char('J') => NormalAction::SortDown,
            KeyCode::Char('H') => NormalAction::MoveLeft,
            KeyCode::Char('L') => NormalAction::MoveRight,
            KeyCode::Tab | KeyCode::Right | KeyCode::Char('l') => NormalAction::FocusNext,
            KeyCode::BackTab | KeyCode::Left | KeyCode::Char('h') => NormalAction::FocusPrev,
            KeyCode::Down | KeyCode::Char('j') => NormalAction::SelectNext,
            KeyCode::Up | KeyCode::Char('k') => NormalAction::SelectPrev,
            _ => NormalAction::Nothing,
        }
    }
}

pub open spec fn picker_action_of(key: Key) -> PickerAction {
    match key.code {
        KeyCode::Esc => PickerAction::Cancel,
        KeyCode::Enter => PickerAction::Confirm,
        KeyCode::Left | KeyCode::Char('h') => PickerAction::PrevDay,
        KeyCode::Right | KeyCode::Char('l') => PickerAction::NextDay,
        KeyCode::Up | KeyCode::Char('k') => PickerAction::PrevWeek,
        KeyCode::Down | KeyCode::Char('j') => PickerAction::NextWeek,
        KeyCode::Char('[') | KeyCode::PageUp => PickerAction::PrevMonth,
        KeyCode::Char(']') | KeyCode::PageDown => PickerAction::NextMonth,
        KeyCode::Char('t') | KeyCode::Char('T') => PickerAction::Today,
        _ => PickerAction::Nothing,
    }
}

/// The action of a key in the date picker.
pub fn picker_action(key: Key) -> (a: PickerAction)
    ensures
        a == picker_action_of(key),
{
    match key.code {
        KeyCode::Esc => PickerAction::Cancel,
        KeyCode::Enter => PickerAction::Confirm,
        KeyCode::Left | KeyCode::Char('h') => PickerAction::PrevDay,
        KeyCode::Right | KeyCode::Char('l') => PickerAction::NextDay,
        KeyCode::Up | KeyCode::Char('k') => PickerAction::PrevWeek,
        KeyCode::Down | KeyCode::Char('j') => PickerAction::NextWeek,
        KeyCode::Char('[') | KeyCode::PageUp => PickerAction::PrevMonth,
        KeyCode::Char(']') | KeyCode::PageDown => PickerAction::NextMonth,
        KeyCode::Char('t') | KeyCode::Char('T') => PickerAction::Today,
        _ => PickerAction::Nothing,
    }
}

pub open spec fn bin_action_of(key: Key) -> BinAction {
    match key.code {
        KeyCode::Esc => BinAction::Close,
        KeyCode::Down | KeyCode::Char('j') => BinAction::Next,
        KeyCode::Up | KeyCode::Char('k') => BinAction::Prev,
        KeyCode::Char('r') | KeyCode::Enter => BinAction::Restore,
        KeyCode::Char('d') => BinAction::Purge,
        _ => BinAction::Nothing,
    }
}

/// The action of a key in the recycle bin.
pub fn bin_action(key: Key) -> (a: BinAction)
    ensures
        a == bin_action_of(key),
{
    match key.code {
        KeyCode::Esc => BinAction::Close,
        KeyCode::Down | KeyCode::Char('j') => BinAction::Next,
        KeyCode::Up | KeyCode::Char('k') => BinAction::Prev,
        KeyCode::Char('r') | KeyCode::Enter => BinAction::Restore,
        KeyCode::Char('d') => BinAction::Purge,
        _ => BinAction::Nothing,
    }
}

pub open spec fn input_action_of(key: Key, mode: InputMode) -> InputAction {
    match key.code {
        KeyCode::Esc => InputAction::Finish,
        KeyCode::Char('s') => if key.ctrl {
            InputAction::Finish
        } else {
            InputAction::Forward
        },
        KeyCode::Enter => if mode != InputMode::EditingDescription {
            InputAction::Submit
        } else {
            InputAction::Forward
        },
        _ => InputAction::Forward,
    }
}

/// The action of a key in a text editor of the given mode.
pub fn input_action(key: Key, mode: InputMode) -> (a: InputAction)
    ensures
        a == input_action_of(key, mode),
{
    match key.code {
        KeyCode::Esc => InputAction::Finish,
        KeyCode::Char('s') if key.ctrl => InputAction::Finish,
        KeyCode::Enter if mode != InputMode::EditingDescription => InputAction::Submit,
        _ => InputAction::Forward,
    }
}

// ------------------------------------------------------------------------
// Transitions
// ------------------------------------------------------------------------

/// The purpose of a text editor that a key opens.
#[derive(Debug, Clone, Copy, PartialEq, Eq, Structural)]
pub enum EditorKind {
    AddTodo,
    EditTitle,
    EditDescription,
    Search,
}

/// What the text editor should do after a key.
#[derive(Debug, Clone, PartialEq, Eq)]
pub enum EditorRequest {
    /// Nothing.
    Keep,
    /// Open an editor of this kind on these lines.
    Open(EditorKind, Vec<String>),
    /// The key is for the editor.
    Forward,
}

pub enum EditorRequestView {
    Keep,
    Open(EditorKind, Seq<Seq<char>>),
    Forward,
}

impl View for EditorRequest {
    type V = EditorRequestView;

    open spec fn view(&self) -> EditorRequestView {
        match self {
            EditorRequest::Keep => EditorRequestView::Keep,
            EditorRequest::Open(k, lines) => EditorRequestView::Open(*k, text::strings_view(lines@)),
            EditorRequest::Forward => EditorRequestView::Forward,
        }
    }
}

/// The view of a key's outcome.
pub open spec fn outcome_view(r: Result<EditorRequest, DbError>) -> Result<EditorRequestView, DbError> {
    match r {
        Ok(q) => Ok(q@),
        Err(e) => Err(e),
    }
}

pub open spec fn keep() -> Result<EditorRequestView, DbError> {
    Ok(EditorRequestView::Keep)
}

/// The selected todo of the focused column, if its selection is on one.
pub open spec fn selected_todo(a: AppView) -> Option<TodoView> {
    let c = a.columns[a.focused_col as int];
    if c.selected < c.todos.len() {
        Some(c.todos[c.selected as int])
    } else {
        None
    }
}

pub open spec fn with_status(a: AppView, s: StatusView) -> AppView {
    AppView { status: s, ..a }
}

/// `a` with the selection of column `i` set to `sel`.
pub open spec fn with_selection(a: AppView, i: int, sel: usize) -> AppView {
    AppView { columns: a.columns.update(i, ColumnStateView { selected: sel, ..a.columns[i] }), ..a }
}

pub open spec fn next_column(a: AppView) -> usize {
    ((a.focused_col + 1) % (a.columns.len() as int)) as usize
}

pub open spec fn prev_column(a: AppView) -> usize {
    if a.focused_col == 0 {
        (a.columns.len() - 1) as usize
    } else {
        (a.focused_col - 1) as usize
    }
}

/// The first index of a todo with the given id.
pub open spec fn position_of_id(s: Seq<TodoView>, id: i64) -> Option<int>
    decreases s.len(),
{
    if s.len() == 0 {
        None
    } else {
        match position_of_id(s.drop_last(), id) {
            Some(i) => Some(i),
            None => if s.last().id == id {
                Some(s.len() - 1)
            } else {
                None
            },
        }
    }
}

/// After moving a todo to column `next`: focus that column and select the todo there.
pub open spec fn follow_moved(a: AppView, next: usize, id: i64) -> AppView {
    let b = AppView { focused_col: next, ..a };
    match position_of_id(b.columns[next as int].todos, id) {
        Some(p) => with_selection(b, next as int, p as usize),
        None => b,
    }
}

/// The selection of the focused column one step up, if not at the top.
pub open spec fn selection_up(a: AppView) -> AppView {
    let f = a.focused_col as int;
    if a.columns[f].selected > 0 {
        with_selection(a, f, (a.columns[f].selected - 1) as usize)
    } else {
        a
    }
}

/// The selection of the focused column one step down, if not at the bottom.
pub open spec fn selection_down(a: AppView) -> AppView {
    let f = a.focused_col as int;
    if a.columns[f].selected + 1 < a.columns[f].todos.len() {
        with_selection(a, f, (a.columns[f].selected + 1) as usize)
    } else {
        a
    }
}

/// `post` is `f(reload_with(mid, all))` for the listing `all` of board `b`.
pub open spec fn reloaded_then(mid: AppView, b: BoardView, post: AppView, step: spec_fn(AppView) -> AppView) -> bool {
    exists|all: Seq<TodoView>| is_todo_listing(b, None, all) && post == step(reload_with(mid, all))
}

/// The priority that follows `p`: Low, Medium, High, and back to Low.
pub open spec fn next_priority(p: Seq<char>) -> Seq<char> {
    if p == "Low"@ {
        "Medium"@
    } else if p == "Medium"@ {
        "High"@
    } else {
        "Low"@
    }
}

/// Moving the selected todo to the nearest column on one side, `next`.
pub open spec fn move_across_step(
    pre: AppView,
    b: BoardView,
    next: usize,
    post: AppView,
    nb: BoardView,
    r: Result<EditorRequestView, DbError>,
) -> bool {
    match selected_todo(pre) {
        None => post == pre && nb == b && r == keep(),
        Some(t) => {
            let name = pre.columns[next as int].name;
            match db::move_outcome(b, t.id, name) {
                Err(e) => post == pre && nb == b && r == Err::<EditorRequestView, DbError>(e),
                Ok(o) => {
                    &&& nb == (match o {
                        None => b,
                        Some((moved, _)) => moved,
                    })
                    &&& r == keep()
                    &&& reloaded_then(
                        with_status(pre, StatusView::MovedTo(t.id, name)),
                        nb,
                        post,
                        |a: AppView| follow_moved(a, next, t.id),
                    )
                },
            }
        },
    }
}

/// Swapping the selected todo with its neighbour above (`up`) or below.
pub open spec fn sort_step(
    pre: AppView,
    b: BoardView,
    up: bool,
    post: AppView,
    nb: BoardView,
    r: Result<EditorRequestView, DbError>,
) -> bool {
    match selected_todo(pre) {
        None => post == pre && nb == b && r == keep(),
        Some(t) => if !db::has_row(b, t.id) {
            post == pre && nb == b && r == Err::<EditorRequestView, DbError>(DbError::NotFound)
        } else {
            let k = db::row_index(b, t.id);
            let has_peer = if up {
                db::has_peer_above(b, k)
            } else {
                db::has_peer_below(b, k)
            };
            if !has_peer {
                post == pre && nb == b && r == keep()
            } else if up {
                &&& nb == db::swapped(b, k, db::peer_above(b, k))
                &&& r == keep()
                &&& reloaded_then(
                    with_status(pre, StatusView::MovedUp(t.id)),
                    nb,
                    post,
                    |a: AppView| selection_up(a),
                )
            } else {
                &&& nb == db::swapped(b, k, db::peer_below(b, k))
                &&& r == keep()
                &&& reloaded_then(
                    with_status(pre, StatusView::MovedDown(t.id)),
                    nb,
                    post,
                    |a: AppView| selection_down(a),
                )
            }
        },
    }
}

/// The row with the given id (meaningful when there is one).
pub open spec fn row_of(b: BoardView, id: i64) -> RowView {
    b.rows[db::row_index(b, id)]
}

/// What a key does in normal mode.
pub open spec fn normal_step(
    pre: AppView,
    b: BoardView,
    key: Key,
    today: Date,
    post: AppView,
    nb: BoardView,
    r: Result<EditorRequestView, DbError>,
) -> bool {
    let cleared = with_status(pre, StatusView::Empty);
    match normal_action_of(key) {
        NormalAction::SortUp => sort_step(pre, b, true, post, nb, r),
        NormalAction::SortDown => sort_step(pre, b, false, post, nb, r),
        NormalAction::MoveLeft => move_across_step(pre, b, prev_column(pre), post, nb, r),
        NormalAction::MoveRight => move_across_step(pre, b, next_column(pre), post, nb, r),
        NormalAction::Quit => nb == b && r == keep() && post == AppView { should_quit: true, ..pre },
        NormalAction::Add => nb == b && r == Ok::<EditorRequestView, DbError>(
            EditorRequestView::Open(EditorKind::AddTodo, seq![Seq::<char>::empty()]),
        ) && post == AppView {
            input_mode: InputMode::Adding,
            edit_todo_id: None,
            ..cleared
        },
        NormalAction::EditTitle => nb == b && match selected_todo(pre) {
            None => post == pre && r == keep(),
            Some(t) => r == Ok::<EditorRequestView, DbError>(
                EditorRequestView::Open(EditorKind::EditTitle, seq![t.title]),
            ) && post == AppView {
                input_mode: InputMode::EditingTitle,
                edit_todo_id: Some(t.id),
                ..cleared
            },
        },
        NormalAction::EditDescription => nb == b && match selected_todo(pre) {
            None => post == pre && r == keep(),
            Some(t) => r == Ok::<EditorRequestView, DbError>(
                EditorRequestView::Open(
                    EditorKind::EditDescription,
                    text::split_at_char(t.description, '\n'),
                ),
            ) && post == AppView {
                input_mode: InputMode::EditingDescription,
                edit_todo_id: Some(t.id),
                ..cleared
            },
        },
        NormalAction::EditDueDate => nb == b && r == keep() && match selected_todo(pre) {
            None => post == pre,
            Some(t) => post == AppView {
                input_mode: InputMode::EditingDueDate,
                edit_todo_id: Some(t.id),
                due_date_picker: Some(
                    match calendar::parsed_ymd(t.due_date) {
                        Some(d) => d,
                        None => today,
                    },
                ),
                ..cleared
            },
        },
        NormalAction::CyclePriority => r == keep() && match selected_todo(pre) {
            None => post == pre && nb == b,
            Some(t) => {
                let p = next_priority(t.priority);
                &&& nb == db::edited(b, t.id, RowView { priority: p, ..row_of(b, t.id) })
                &&& reloaded(with_status(pre, StatusView::PrioritySet(t.id, p)), post, nb)
            },
        },
        NormalAction::Search => nb == b && r == Ok::<EditorRequestView, DbError>(
            EditorRequestView::Open(EditorKind::Search, seq![pre.search_query]),
        ) && post == AppView { input_mode: InputMode::Searching, ..cleared },
        NormalAction::Delete => r == keep() && match selected_todo(pre) {
            None => post == pre && nb == b,
            Some(t) => {
                &&& nb == db::edited(b, t.id, RowView { archived: true, ..row_of(b, t.id) })
                &&& reloaded(with_status(pre, StatusView::Deleted(t.id)), post, nb)
            },
        },
        NormalAction::OpenRecycleBin => nb == b && r == keep() && exists|arch: Seq<TodoView>|
            db::is_archive_listing(b, arch) && post == AppView {
                input_mode: InputMode::RecycleBin,
                recycle_bin_todos: arch,
                recycle_bin_selected: 0,
                ..cleared
            },
        NormalAction::FocusNext => nb == b && r == keep() && post == AppView {
            focused_col: next_column(pre),
            ..cleared
        },
        NormalAction::FocusPrev => nb == b && r == keep() && post == AppView {
            focused_col: prev_column(pre),
            ..cleared
        },
        NormalAction::SelectNext => nb == b && r == keep() && {
            let f = pre.focused_col as int;
            let c = pre.columns[f];
            post == if c.todos.len() > 0 {
                with_selection(cleared, f, ((c.selected + 1) % (c.todos.len() as int)) as usize)
            } else {
                cleared
            }
        },
        NormalAction::SelectPrev => nb == b && r == keep() && {
            let f = pre.focused_col as int;
            let c = pre.columns[f];
            post == if c.todos.len() > 0 {
                with_selection(
                    cleared,
                    f,
                    if c.selected == 0 {
                        (c.todos.len() - 1) as usize
                    } else {
                        (c.selected - 1) as usize
                    },
                )
            } else {
                cleared
            }
        },
        NormalAction::Nothing => nb == b && r == keep() && post == pre,
    }
}

impl TuiApp {
    /// Sets the selection of column `i`.
    fn set_selection(&mut self, i: usize, sel: usize)
        requires
            i < old(self)@.columns.len(),
        ensures
            final(self)@ == with_selection(old(self)@, i as int, sel),
    {
        let ghost pre = self@;
        self.columns[i].selected = sel;
        assert(self@.columns =~= with_selection(pre, i as int, sel).columns);
    }

    /// The index of the selected todo in the focused column, if the selection is on one.
    fn selected_index(&self) -> (k: Option<usize>)
        requires
            app_ok(self@),
        ensures
            match k {
                Some(k) => k == self@.columns[self@.focused_col as int].selected && selected_todo(self@)
                    == Some(self@.columns[self@.focused_col as int].todos[k as int]),
                None => selected_todo(self@) is None,
            },
    {
        let f = self.focused_col;
        let c = &self.columns[f];
        assert(c@ == self@.columns[f as int]);
        if c.selected < c.todos.len() {
            Some(c.selected)
        } else {
            None
        }
    }

    /// Swaps the selected todo with its neighbour above (`up`) or below.
    fn sort_selected(&mut self, board: &mut Board, up: bool) -> (r: Result<EditorRequest, DbError>)
        requires
            app_ok(old(self)@),
            well_formed(old(board)@),
        ensures
            app_ok(final(self)@),
            well_formed(final(board)@),
            sort_step(old(self)@, old(board)@, up, final(self)@, final(board)@, outcome_view(r)),
    {
        let ghost pre = self@;
        let ghost b = board@;
        let k = match self.selected_index() {
            Some(k) => k,
            None => {
                return Ok(EditorRequest::Keep);
            },
        };
        let f = self.focused_col;
        let id = self.columns[f].todos[k].id;
        assert(self@.columns[f as int].todos[k as int].id == id);
        let moved = if up {
            db::move_todo_up(board, id)
        } else {
            db::move_todo_down(board, id)
        };
        match moved {
            Err(e) => {
                return Err(e);
            },
            Ok(false) => {
                return Ok(EditorRequest::Keep);
            },
            Ok(true) => {},
        }
        self.status = if up {
            Status::MovedUp(id)
        } else {
            Status::MovedDown(id)
        };
        let ghost mid = self@;
        assert(mid == with_status(pre, if up {
            StatusView::MovedUp(id)
        } else {
            StatusView::MovedDown(id)
        }));
        self.reload(board);
        let ghost reloaded_app = self@;
        let f = self.focused_col;
        assert(self@.columns[f as int] == self.columns@[f as int]@);
        let sel = self.columns[f].selected;
        if up {
            if sel > 0 {
                self.set_selection(f, sel - 1);
            }
            assert(self@ == selection_up(reloaded_app));
        } else {
            if sel + 1 < self.columns[f].todos.len() {
                self.set_selection(f, sel + 1);
            }
            assert(self@ == selection_down(reloaded_app));
        }
        proof {
            let all = choose|all: Seq<TodoView>|
                is_todo_listing(board@, None, all) && reloaded_app == reload_with(mid, all);
            if up {
                assert(is_todo_listing(board@, None, all) && self@ == (|a: AppView| selection_up(a))(
                    reload_with(mid, all),
                ));
            } else {
                assert(is_todo_listing(board@, None, all) && self@ == (|a: AppView| selection_down(
                    a,
                ))(reload_with(mid, all)));
            }
        }
        Ok(EditorRequest::Keep)
    }
}

/// The first index of a todo with the given id.
fn position_of(todos: &Vec<Todo>, id: i64) -> (p: Option<usize>)
    ensures
        match p {
            Some(i) => i < todos.len() && position_of_id(todo_views(todos@), id) == Some(i as int),
            None => position_of_id(todo_views(todos@), id) is None,
        },
{
    let ghost s = todo_views(todos@);
    let mut i: usize = 0;
    while i < todos.len()
        invariant
            s == todo_views(todos@),
            i <= todos@.len(),
            position_of_id(s.take(i as int), id) is None,
        decreases todos@.len() - i,
    {
        assert(s.take(i as int + 1).drop_last() =~= s.take(i as int));
        assert(s.take(i as int + 1).last() == todos@[i as int]@);
        if todos[i].id == id {
            proof {
                lemma_position_extends(s, i as int + 1, id);
            }
            return Some(i);
        }
        i = i + 1;
    }
    assert(s.take(todos@.len() as int) =~= s);
    None
}

/// A first occurrence in a prefix is the first occurrence in the whole sequence.
proof fn lemma_position_extends(s: Seq<TodoView>, n: int, id: i64)
    requires
        0 <= n <= s.len(),
        position_of_id(s.take(n), id) is Some,
    ensures
        position_of_id(s, id) == position_of_id(s.take(n), id),
    decreases s.len() - n,
{
    if n < s.len() {
        assert(s.take(n + 1).drop_last() =~= s.take(n));
        lemma_position_extends(s, n + 1, id);
    } else {
        assert(s.take(n) =~= s);
    }
}

impl TuiApp {
    /// Moves the selected todo to column `next`, then focuses that column and
    /// selects the todo there.
    fn move_selected_across(&mut self, board: &mut Board, next: usize) -> (r: Result<EditorRequest, DbError>)
        requires
            app_ok(old(self)@),
            well_formed(old(board)@),
            next < old(self)@.columns.len(),
        ensures
            app_ok(final(self)@),
            well_formed(final(board)@),
            move_across_step(old(self)@, old(board)@, next, final(self)@, final(board)@, outcome_view(r)),
    {
        let ghost pre = self@;
        let ghost b = board@;
        let k = match self.selected_index() {
            Some(k) => k,
            None => {
                return Ok(EditorRequest::Keep);
            },
        };
        let f = self.focused_col;
        let id = self.columns[f].todos[k].id;
        assert(self@.columns[f as int].todos[k as int].id == id);
        let name = self.columns[next].name.clone();
        assert(self@.columns[next as int].name == name@);
        match db::move_todo(board, id, name.as_str()) {
            Err(e) => {
                return Err(e);
            },
            Ok(_) => {},
        }
        self.status = Status::MovedTo(id, name);
        let ghost mid = self@;
        assert(mid.columns == pre.columns);
        assert(app_ok(mid));
        self.reload(board);
        let ghost reloaded_app = self@;
        assert(app_ok(reloaded_app));
        self.focused_col = next;
        let ghost focused_app = self@;
        assert(self@.columns[next as int] == self.columns@[next as int]@);
        match position_of(&self.columns[next].todos, id) {
            Some(p) => {
                self.set_selection(next, p);
                assert forall|i: int| 0 <= i < self@.columns.len() implies (
                #[trigger] self@.columns[i]).selected < usize::MAX by {
                    if i != next {
                        assert(self@.columns[i] == focused_app.columns[i]);
                        assert(focused_app.columns[i] == reloaded_app.columns[i]);
                        assert(reloaded_app.columns[i].selected < usize::MAX);
                    } else {
                        assert(self@.columns[i].selected == p);
                        assert(p < usize::MAX);
                    }
                }
            },
            None => {},
        }
        assert(self@ == follow_moved(reloaded_app, next, id));
        proof {
            let all = choose|all: Seq<TodoView>|
                is_todo_listing(board@, None, all) && reloaded_app == reload_with(mid, all);
            assert(is_todo_listing(board@, None, all) && self@ == (|a: AppView|
                follow_moved(a, next, id))(reload_with(mid, all)));
        }
        Ok(EditorRequest::Keep)
    }
}

/// The priority that follows `p`.
fn next_priority_of(p: &String) -> (next: &'static str)
    ensures
        next@ == next_priority(p@),
{
    if *p == String::from_str("Low") {
        "Medium"
    } else if *p == String::from_str("Medium") {
        "High"
    } else {
        "Low"
    }
}

/// A vector holding one line.
fn one_line(line: String) -> (v: Vec<String>)
    ensures
        text::strings_view(v@) == seq![line@],
{
    let mut v: Vec<String> = Vec::new();
    v.push(line);
    assert(text::strings_view(v@) =~= seq![line@]);
    v
}

impl TuiApp {
    /// Handles a key in normal mode.
    fn handle_normal_key(&mut self, board: &mut Board, key: Key, today: Date) -> (r: Result<EditorRequest, DbError>)
        requires
            app_ok(old(self)@),
            well_formed(old(board)@),
            today.valid(),
        ensures
            app_ok(final(self)@),
            well_formed(final(board)@),
            normal_step(old(self)@, old(board)@, key, today, final(self)@, final(board)@, outcome_view(r)),
    {
        let ghost pre = self@;
        let ghost b = board@;
        let n = self.columns.len();
        let f = self.focused_col;
        let next = (f + 1) % n;
        let prev = if f == 0 {
            n - 1
        } else {
            f - 1
        };
        assert(next == next_column(pre) && prev == prev_column(pre));
        match normal_action(key) {
            NormalAction::SortUp => self.sort_selected(board, true),
            NormalAction::SortDown => self.sort_selected(board, false),
            NormalAction::MoveLeft => self.move_selected_across(board, prev),
            NormalAction::MoveRight => self.move_selected_across(board, next),
            NormalAction::Quit => {
                self.should_quit = true;
                Ok(EditorRequest::Keep)
            },
            NormalAction::Add => {
                self.input_mode = InputMode::Adding;
                self.edit_todo_id = None;
                self.status = Status::Empty;
                let lines = one_line(String::new());
                Ok(EditorRequest::Open(EditorKind::AddTodo, lines))
            },
            NormalAction::EditTitle => match self.selected_index() {
                Some(k) => {
                    let id = self.columns[f].todos[k].id;
                    let title = self.columns[f].todos[k].title.clone();
                    assert(selected_todo(pre) == Some(pre.columns[f as int].todos[k as int]));
                    self.input_mode = InputMode::EditingTitle;
                    self.edit_todo_id = Some(id);
                    self.status = Status::Empty;
                    let lines = one_line(title);
                    Ok(EditorRequest::Open(EditorKind::EditTitle, lines))
                },
                None => Ok(EditorRequest::Keep),
            },
            NormalAction::EditDescription => match self.selected_index() {
                Some(k) => {
                    let id = self.columns[f].todos[k].id;
                    let lines = text::split_lines(self.columns[f].todos[k].description.as_str());
                    self.input_mode = InputMode::EditingDescription;
                    self.edit_todo_id = Some(id);
                    self.status = Status::Empty;
                    Ok(EditorRequest::Open(EditorKind::EditDescription, lines))
                },
                None => Ok(EditorRequest::Keep),
            },
            NormalAction::EditDueDate => match self.selected_index() {
                Some(k) => {
                    let id = self.columns[f].todos[k].id;
                    let parsed = calendar::parse_ymd(self.columns[f].todos[k].due_date.as_str());
                    let date = match parsed {
                        Some(d) => d,
                        None => today,
                    };
                    self.input_mode = InputMode::EditingDueDate;
                    self.edit_todo_id = Some(id);
                    self.due_date_picker = Some(date);
                    self.status = Status::Empty;
                    Ok(EditorRequest::Keep)
                },
                None => Ok(EditorRequest::Keep),
            },
            NormalAction::CyclePriority => match self.selected_index() {
                Some(k) => {
                    let id = self.columns[f].todos[k].id;
                    let p = next_priority_of(&self.columns[f].todos[k].priority);
                    let _ = db::update_todo_priority(board, id, p);
                    self.status = Status::PrioritySet(id, String::from_str(p));
                    let ghost mid = self@;
                    assert(mid.columns == pre.columns);
                    self.reload(board);
                    Ok(EditorRequest::Keep)
                },
                None => Ok(EditorRequest::Keep),
            },
            NormalAction::Search => {
                let lines = one_line(self.search_query.clone());
                self.input_mode = InputMode::Searching;
                self.status = Status::Empty;
                Ok(EditorRequest::Open(EditorKind::Search, lines))
            },
            NormalAction::Delete => match self.selected_index() {
                Some(k) => {
                    let id = self.columns[f].todos[k].id;
                    let _ = db::delete_todo(board, id);
                    self.status = Status::Deleted(id);
                    let ghost mid = self@;
                    assert(mid.columns == pre.columns);
                    self.reload(board);
                    Ok(EditorRequest::Keep)
                },
                None => Ok(EditorRequest::Keep),
            },
            NormalAction::OpenRecycleBin => {
                let archived = db::list_archived_todos(board);
                self.input_mode = InputMode::RecycleBin;
                self.recycle_bin_todos = archived;
                self.recycle_bin_selected = 0;
                self.status = Status::Empty;
                Ok(EditorRequest::Keep)
            },
            NormalAction::FocusNext => {
                self.focused_col = next;
                self.status = Status::Empty;
                Ok(EditorRequest::Keep)
            },
            NormalAction::FocusPrev => {
                self.focused_col = prev;
                self.status = Status::Empty;
                Ok(EditorRequest::Keep)
            },
            NormalAction::SelectNext => {
                self.status = Status::Empty;
                let len = self.columns[f].todos.len();
                if len > 0 {
                    let sel = self.columns[f].selected;
                    assert(self@.columns[f as int] == self.columns@[f as int]@);
                    self.set_selection(f, (sel + 1) % len);
                }
                Ok(EditorRequest::Keep)
            },
            NormalAction::SelectPrev => {
                self.status = Status::Empty;
                let len = self.columns[f].todos.len();
                if len > 0 {
                    let sel = self.columns[f].selected;
                    assert(self@.columns[f as int] == self.columns@[f as int]@);
                    let s2 = if sel == 0 {
                        len - 1
                    } else {
                        sel - 1
                    };
                    self.set_selection(f, s2);
                }
                Ok(EditorRequest::Keep)
            },
            NormalAction::Nothing => Ok(EditorRequest::Keep),
        }
    }
}

// ------------------------------------------------------------------------
// Date picker
// ------------------------------------------------------------------------

/// The picker's date after a key (the date itself for keys that do not move it).
pub open spec fn picker_moved(d: Date, action: PickerAction, today: Date) -> Date {
    match action {
        PickerAction::PrevDay => calendar::prev_day(d)->0,
        PickerAction::NextDay => calendar::next_day(d)->0,
        PickerAction::PrevWeek => calendar::days_before(d, 7)->0,
        PickerAction::NextWeek => calendar::days_after(d, 7)->0,
        PickerAction::PrevMonth => calendar::month_earlier(d),
        PickerAction::NextMonth => calendar::month_later(d),
        PickerAction::Today => today,
        _ => d,
    }
}

/// The key's move of the picker stays among the dates that exist.
pub open spec fn picker_move_fits(d: Date, action: PickerAction) -> bool {
    match action {
        PickerAction::PrevDay => calendar::prev_day(d) is Some,
        PickerAction::NextDay => calendar::next_day(d) is Some,
        PickerAction::PrevWeek => calendar::days_before(d, 7) is Some,
        PickerAction::NextWeek => calendar::days_after(d, 7) is Some,
        PickerAction::PrevMonth => !(d.year == calendar::MIN_YEAR && d.month == 1),
        PickerAction::NextMonth => !(d.year == calendar::MAX_YEAR && d.month == 12),
        _ => true,
    }
}

/// The key can be handled: in the date picker it does not step past the
/// first or last date.
pub open spec fn key_fits(a: AppView, key: Key) -> bool {
    a.input_mode == InputMode::EditingDueDate && a.due_date_picker is Some ==> picker_move_fits(
        a.due_date_picker->0,
        picker_action_of(key),
    )
}

/// Leaving the date picker.
pub open spec fn close_picker(a: AppView) -> AppView {
    AppView { input_mode: InputMode::Normal, edit_todo_id: None, due_date_picker: None, ..a }
}

/// What a key does in the date picker.
pub open spec fn picker_step(
    pre: AppView,
    b: BoardView,
    key: Key,
    today: Date,
    post: AppView,
    nb: BoardView,
    r: Result<EditorRequestView, DbError>,
) -> bool {
    match pre.due_date_picker {
        None => post == pre && nb == b && r == keep(),
        Some(d) => match picker_action_of(key) {
            PickerAction::Cancel => nb == b && r == keep() && post == close_picker(pre),
            PickerAction::Confirm => r == keep() && {
                let text = calendar::ymd_text(d);
                match pre.edit_todo_id {
                    Some(id) => {
                        &&& nb == db::edited(b, id, RowView { due_date: text, ..row_of(b, id) })
                        &&& reloaded_then(
                            with_status(pre, StatusView::DueDateSet(text, id)),
                            nb,
                            post,
                            |a: AppView| close_picker(a),
                        )
                    },
                    None => nb == b && reloaded_then(pre, b, post, |a: AppView| close_picker(a)),
                }
            },
            _ => nb == b && r == keep() && post == AppView {
                due_date_picker: Some(picker_moved(d, picker_action_of(key), today)),
                ..pre
            },
        },
    }
}

/// Whether a key can be handled (see `key_fits`).
pub fn check_key_fits(app: &TuiApp, key: Key) -> (ok: bool)
    requires
        app_ok(app@),
    ensures
        ok == key_fits(app@, key),
{
    if app.input_mode != InputMode::EditingDueDate {
        return true;
    }
    match app.due_date_picker {
        None => true,
        Some(d) => match picker_action(key) {
            PickerAction::PrevDay => calendar::pred(d).is_some(),
            PickerAction::NextDay => calendar::succ(d).is_some(),
            PickerAction::PrevWeek => steps_fit(d, false),
            PickerAction::NextWeek => steps_fit(d, true),
            PickerAction::PrevMonth => !(d.year == calendar::MIN_YEAR && d.month == 1),
            PickerAction::NextMonth => !(d.year == calendar::MAX_YEAR && d.month == 12),
            _ => true,
        },
    }
}

/// Whether the seven days after (`forward`) or before `d` exist.
fn steps_fit(d: Date, forward: bool) -> (ok: bool)
    requires
        d.valid(),
    ensures
        forward ==> ok == calendar::days_after(d, 7) is Some,
        !forward ==> ok == calendar::days_before(d, 7) is Some,
{
    let mut cur = d;
    let mut i: u32 = 0;
    while i < 7
        invariant
            d.valid(),
            i <= 7,
            forward ==> Some(cur) == calendar::days_after(d, i as nat),
            !forward ==> Some(cur) == calendar::days_before(d, i as nat),
            cur.valid(),
        decreases 7 - i,
    {
        proof {
            calendar::lemma_next_day_valid(cur);
            calendar::lemma_prev_day_valid(cur);
        }
        let step = if forward {
            calendar::succ(cur)
        } else {
            calendar::pred(cur)
        };
        match step {
            Some(n) => {
                cur = n;
            },
            None => {
                proof {
                    if forward {
                        lemma_days_after_none(d, (i + 1) as nat, 7);
                    } else {
                        lemma_days_before_none(d, (i + 1) as nat, 7);
                    }
                }
                return false;
            },
        }
        i = i + 1;
    }
    true
}

proof fn lemma_days_after_none(d: Date, n: nat, m: nat)
    requires
        n <= m,
        calendar::days_after(d, n) is None,
    ensures
        calendar::days_after(d, m) is None,
    decreases m,
{
    if n < m {
        lemma_days_after_none(d, n, (m - 1) as nat);
    }
}

proof fn lemma_days_before_none(d: Date, n: nat, m: nat)
    requires
        n <= m,
        calendar::days_before(d, n) is None,
    ensures
        calendar::days_before(d, m) is None,
    decreases m,
{
    if n < m {
        lemma_days_before_none(d, n, (m - 1) as nat);
    }
}

impl TuiApp {
    /// Handles a key in the due-date picker.
    fn handle_date_picker_key(&mut self, board: &mut Board, key: Key, today: Date) -> (r: Result<EditorRequest, DbError>)
        requires
            app_ok(old(self)@),
            well_formed(old(board)@),
            today.valid(),
            old(self)@.input_mode == InputMode::EditingDueDate,
            key_fits(old(self)@, key),
        ensures
            app_ok(final(self)@),
            well_formed(final(board)@),
            picker_step(old(self)@, old(board)@, key, today, final(self)@, final(board)@, outcome_view(r)),
    {
        let ghost pre = self@;
        let d = match self.due_date_picker {
            Some(d) => d,
            None => {
                return Ok(EditorRequest::Keep);
            },
        };
        let action = picker_action(key);
        match action {
            PickerAction::Cancel => {
                self.input_mode = InputMode::Normal;
                self.edit_todo_id = None;
                self.due_date_picker = None;
            },
            PickerAction::Confirm => {
                let formatted = calendar::format_ymd(d);
                match self.edit_todo_id {
                    Some(id) => {
                        let _ = db::update_todo_due_date(board, id, formatted.as_str());
                        self.status = Status::DueDateSet(formatted, id);
                    },
                    None => {},
                }
                let ghost mid = self@;
                assert(mid.columns == pre.columns);
                self.reload(board);
                let ghost reloaded_app = self@;
                self.input_mode = InputMode::Normal;
                self.edit_todo_id = None;
                self.due_date_picker = None;
                proof {
                    let all = choose|all: Seq<TodoView>|
                        is_todo_listing(board@, None, all) && reloaded_app == reload_with(mid, all);
                    assert(is_todo_listing(board@, None, all) && self@ == (|a: AppView| close_picker(a))(
                        reload_with(mid, all),
                    ));
                }
            },
            PickerAction::PrevDay => {
                proof {
                    calendar::lemma_prev_day_valid(d);
                }
                self.due_date_picker = Some(calendar::pred(d).unwrap());
            },
            PickerAction::NextDay => {
                proof {
                    calendar::lemma_next_day_valid(d);
                }
                self.due_date_picker = Some(calendar::succ(d).unwrap());
            },
            PickerAction::PrevWeek => {
                self.due_date_picker = Some(calendar::back_days(d, 7));
            },
            PickerAction::NextWeek => {
                self.due_date_picker = Some(calendar::forward_days(d, 7));
            },
            PickerAction::PrevMonth => {
                self.due_date_picker = Some(calendar::subtract_one_month(d));
            },
            PickerAction::NextMonth => {
                self.due_date_picker = Some(calendar::add_one_month(d));
            },
            PickerAction::Today => {
                self.due_date_picker = Some(today);
            },
            PickerAction::Nothing => {},
        }
        Ok(EditorRequest::Keep)
    }
}

// ------------------------------------------------------------------------
// Recycle bin
// ------------------------------------------------------------------------

/// The selected todo of the recycle bin, if the selection is on one.
pub open spec fn bin_selected(a: AppView) -> Option<TodoView> {
    if a.recycle_bin_selected < a.recycle_bin_todos.len() {
        Some(a.recycle_bin_todos[a.recycle_bin_selected as int])
    } else {
        None
    }
}

/// The recycle bin refilled from `arch`: closed when empty, the selection
/// pulled back inside otherwise.
pub open spec fn refill_bin(a: AppView, arch: Seq<TodoView>) -> AppView {
    let a2 = AppView { recycle_bin_todos: arch, ..a };
    if arch.len() == 0 {
        AppView { input_mode: InputMode::Normal, ..a2 }
    } else if a2.recycle_bin_selected >= arch.len() {
        AppView { recycle_bin_selected: (arch.len() - 1) as usize, ..a2 }
    } else {
        a2
    }
}

/// `post` is `mid` reloaded from `b` with the recycle bin refilled.
pub open spec fn bin_refreshed(mid: AppView, b: BoardView, post: AppView) -> bool {
    exists|all: Seq<TodoView>, arch: Seq<TodoView>|
        is_todo_listing(b, None, all) && db::is_archive_listing(b, arch) && post == refill_bin(
            reload_with(mid, all),
            arch,
        )
}

/// What a key does in the recycle bin.
pub open spec fn bin_step(
    pre: AppView,
    b: BoardView,
    key: Key,
    post: AppView,
    nb: BoardView,
    r: Result<EditorRequestView, DbError>,
) -> bool {
    let len = pre.recycle_bin_todos.len();
    let sel = pre.recycle_bin_selected;
    match bin_action_of(key) {
        BinAction::Close => nb == b && r == keep() && post == AppView {
            input_mode: InputMode::Normal,
            recycle_bin_todos: Seq::empty(),
            ..pre
        },
        BinAction::Next => nb == b && r == keep() && post == if len > 0 {
            AppView { recycle_bin_selected: ((sel + 1) % (len as int)) as usize, ..pre }
        } else {
            pre
        },
        BinAction::Prev => nb == b && r == keep() && post == if len > 0 {
            AppView {
                recycle_bin_selected: if sel == 0 {
                    (len - 1) as usize
                } else {
                    (sel - 1) as usize
                },
                ..pre
            }
        } else {
            pre
        },
        BinAction::Restore => r == keep() && match bin_selected(pre) {
            Some(t) => {
                &&& nb == db::edited(b, t.id, RowView { archived: false, ..row_of(b, t.id) })
                &&& bin_refreshed(with_status(pre, StatusView::Restored(t.id)), nb, post)
            },
            None => nb == b && bin_refreshed(pre, b, post),
        },
        BinAction::Purge => r == keep() && match bin_selected(pre) {
            Some(t) => {
                &&& nb == (if db::has_row(b, t.id) {
                    BoardView { columns: b.columns, rows: b.rows.remove(db::row_index(b, t.id)) }
                } else {
                    b
                })
                &&& bin_refreshed(with_status(pre, StatusView::PermanentlyDeleted(t.id)), nb, post)
            },
            None => nb == b && bin_refreshed(pre, b, post),
        },
        BinAction::Nothing => nb == b && r == keep() && post == pre,
    }
}

impl TuiApp {
    /// Reloads the board and refills the recycle bin from it.
    fn refresh_bin(&mut self, board: &Board)
        requires
            app_ok(old(self)@),
            well_formed(board@),
        ensures
            app_ok(final(self)@),
            bin_refreshed(old(self)@, board@, final(self)@),
    {
        let ghost mid = self@;
        self.reload(board);
        let ghost reloaded_app = self@;
        let archived = db::list_archived_todos(board);
        let ghost arch = todo_views(archived@);
        let len = archived.len();
        self.recycle_bin_todos = archived;
        if len == 0 {
            self.input_mode = InputMode::Normal;
        } else if self.recycle_bin_selected >= len {
            self.recycle_bin_selected = len - 1;
        }
        proof {
            let all = choose|all: Seq<TodoView>|
                is_todo_listing(board@, None, all) && reloaded_app == reload_with(mid, all);
            assert(self@ == refill_bin(reload_with(mid, all), arch));
        }
    }

    /// Handles a key in the recycle bin.
    fn handle_recycle_bin_key(&mut self, board: &mut Board, key: Key) -> (r: Result<EditorRequest, DbError>)
        requires
            app_ok(old(self)@),
            well_formed(old(board)@),
        ensures
            app_ok(final(self)@),
            well_formed(final(board)@),
            bin_step(old(self)@, old(board)@, key, final(self)@, final(board)@, outcome_view(r)),
    {
        let ghost pre = self@;
        let len = self.recycle_bin_todos.len();
        let sel = self.recycle_bin_selected;
        match bin_action(key) {
            BinAction::Close => {
                self.input_mode = InputMode::Normal;
                self.recycle_bin_todos.clear();
                assert(self@.recycle_bin_todos =~= Seq::<TodoView>::empty());
            },
            BinAction::Next => {
                if len > 0 {
                    self.recycle_bin_selected = (sel + 1) % len;
                }
            },
            BinAction::Prev => {
                if len > 0 {
                    self.recycle_bin_selected = if sel == 0 {
                        len - 1
                    } else {
                        sel - 1
                    };
                }
            },
            BinAction::Restore => {
                if sel < len {
                    let id = self.recycle_bin_todos[sel].id;
                    assert(bin_selected(pre) == Some(pre.recycle_bin_todos[sel as int]));
                    let _ = db::restore_todo(board, id);
                    self.status = Status::Restored(id);
                }
                self.refresh_bin(board);
            },
            BinAction::Purge => {
                if sel < len {
                    let id = self.recycle_bin_todos[sel].id;
                    assert(bin_selected(pre) == Some(pre.recycle_bin_todos[sel as int]));
                    let _ = db::delete_todo_permanently(board, id);
                    self.status = Status::PermanentlyDeleted(id);
                }
                self.refresh_bin(board);
            },
            BinAction::Nothing => {},
        }
        Ok(EditorRequest::Keep)
    }
}

// ------------------------------------------------------------------------
// Text editors
// ------------------------------------------------------------------------

/// The text of an editor: its lines joined by line feeds, trimmed.
pub open spec fn editor_text(lines: Seq<Seq<char>>) -> Seq<char> {
    text::trimmed(text::joined(lines, seq!['\n']))
}

/// Leaving a text editor.
pub open spec fn finish_editing(a: AppView) -> AppView {
    AppView { input_mode: InputMode::Normal, edit_todo_id: None, ..a }
}

/// What a key does while text is edited; `lines` are the editor's lines and
/// `now` the creation time for a todo that gets added.
pub open spec fn input_step(
    pre: AppView,
    b: BoardView,
    key: Key,
    lines: Seq<Seq<char>>,
    now: Seq<char>,
    post: AppView,
    nb: BoardView,
    r: Result<EditorRequestView, DbError>,
) -> bool {
    let content = editor_text(lines);
    match input_action_of(key, pre.input_mode) {
        InputAction::Forward => post == pre && nb == b && r == Ok::<EditorRequestView, DbError>(
            EditorRequestView::Forward,
        ),
        InputAction::Finish => r == keep() && if pre.input_mode == InputMode::EditingDescription {
            match pre.edit_todo_id {
                Some(id) => {
                    &&& nb == db::edited(b, id, RowView { description: content, ..row_of(b, id) })
                    &&& reloaded_then(
                        with_status(pre, StatusView::DescriptionUpdated(id)),
                        nb,
                        post,
                        |a: AppView| finish_editing(a),
                    )
                },
                None => nb == b && reloaded_then(pre, b, post, |a: AppView| finish_editing(a)),
            }
        } else {
            nb == b && post == finish_editing(pre)
        },
        InputAction::Submit => match pre.input_mode {
            InputMode::Adding => if content.len() == 0 {
                r == keep() && nb == b && reloaded_then(pre, b, post, |a: AppView| finish_editing(a))
            } else {
                let name = pre.columns[pre.focused_col as int].name;
                match db::add_outcome(b, content, Some(name), now) {
                    Err(e) => r == Err::<EditorRequestView, DbError>(e) && nb == b && post == pre,
                    Ok((added, row)) => {
                        &&& r == keep()
                        &&& nb == added
                        &&& reloaded_then(
                            with_status(pre, StatusView::Added(row.id, name)),
                            nb,
                            post,
                            |a: AppView| finish_editing(a),
                        )
                    },
                }
            },
            InputMode::EditingTitle => r == keep() && if content.len() > 0 && pre.edit_todo_id is Some {
                let id = pre.edit_todo_id->0;
                &&& nb == db::edited(b, id, RowView { title: content, ..row_of(b, id) })
                &&& reloaded_then(
                    with_status(pre, StatusView::TitleUpdated(id)),
                    nb,
                    post,
                    |a: AppView| finish_editing(a),
                )
            } else {
                nb == b && reloaded_then(pre, b, post, |a: AppView| finish_editing(a))
            },
            InputMode::Searching => r == keep() && nb == b && reloaded_then(
                AppView {
                    search_query: content,
                    status: if content.len() == 0 {
                        StatusView::SearchCleared
                    } else {
                        StatusView::Filtering(content)
                    },
                    ..pre
                },
                b,
                post,
                |a: AppView| finish_editing(a),
            ),
            _ => r == keep() && nb == b && reloaded_then(pre, b, post, |a: AppView| finish_editing(a)),
        },
    }
}

/// The text of an editor's lines: joined by line feeds, then trimmed.
pub fn editor_content(lines: &Vec<String>) -> (content: String)
    ensures
        content@ == editor_text(text::strings_view(lines@)),
{
    let joined = text::join_lines(lines);
    text::trim_text(joined.as_str())
}

impl TuiApp {
    /// Reloads, then leaves the editor.
    fn reload_and_finish(&mut self, board: &Board)
        requires
            app_ok(old(self)@),
            well_formed(board@),
        ensures
            app_ok(final(self)@),
            reloaded_then(old(self)@, board@, final(self)@, |a: AppView| finish_editing(a)),
    {
        let ghost mid = self@;
        self.reload(board);
        let ghost reloaded_app = self@;
        self.input_mode = InputMode::Normal;
        self.edit_todo_id = None;
        proof {
            let all = choose|all: Seq<TodoView>|
                is_todo_listing(board@, None, all) && reloaded_app == reload_with(mid, all);
            assert(is_todo_listing(board@, None, all) && self@ == (|a: AppView| finish_editing(a))(
                reload_with(mid, all),
            ));
        }
    }

    /// Handles a key while text is edited.
    fn handle_input_key(&mut self, board: &mut Board, key: Key, lines: &Vec<String>, now: &str) -> (r: Result<EditorRequest, DbError>)
        requires
            app_ok(old(self)@),
            well_formed(old(board)@),
        ensures
            app_ok(final(self)@),
            well_formed(final(board)@),
            input_step(
                old(self)@,
                old(board)@,
                key,
                text::strings_view(lines@),
                now@,
                final(self)@,
                final(board)@,
                outcome_view(r),
            ),
    {
        let ghost pre = self@;
        match input_action(key, self.input_mode) {
            InputAction::Forward => Ok(EditorRequest::Forward),
            InputAction::Finish => {
                if self.input_mode == InputMode::EditingDescription {
                    let content = editor_content(lines);
                    match self.edit_todo_id {
                        Some(id) => {
                            let _ = db::update_todo_description(board, id, content.as_str());
                            self.status = Status::DescriptionUpdated(id);
                        },
                        None => {},
                    }
                    assert(self@.columns == pre.columns);
                    self.reload_and_finish(board);
                } else {
                    self.input_mode = InputMode::Normal;
                    self.edit_todo_id = None;
                }
                Ok(EditorRequest::Keep)
            },
            InputAction::Submit => {
                let content = editor_content(lines);
                match self.input_mode {
                    InputMode::Adding => {
                        if !content.as_str().is_empty() {
                            let f = self.focused_col;
                            let name = self.columns[f].name.clone();
                            assert(name@ == pre.columns[f as int].name);
                            match db::add_todo_at(board, content.as_str(), Some(name.as_str()), now) {
                                Err(e) => {
                                    return Err(e);
                                },
                                Ok(todo) => {
                                    self.status = Status::Added(todo.id, name);
                                },
                            }
                        }
                    },
                    InputMode::EditingTitle => {
                        if !content.as_str().is_empty() {
                            match self.edit_todo_id {
                                Some(id) => {
                                    let _ = db::update_todo(board, id, content.as_str());
                                    self.status = Status::TitleUpdated(id);
                                },
                                None => {},
                            }
                        }
                    },
                    InputMode::Searching => {
                        let empty = content.as_str().is_empty();
                        self.search_query = content;
                        self.status = if empty {
                            Status::SearchCleared
                        } else {
                            Status::Filtering(self.search_query.clone())
                        };
                    },
                    _ => {},
                }
                assert(self@.columns == pre.columns);
                self.reload_and_finish(board);
                Ok(EditorRequest::Keep)
            },
        }
    }
}

// ------------------------------------------------------------------------
// Keys
// ------------------------------------------------------------------------

/// What a key does, by the interface's mode.
pub open spec fn key_step(
    pre: AppView,
    b: BoardView,
    key: Key,
    lines: Seq<Seq<char>>,
    today: Date,
    now: Seq<char>,
    post: AppView,
    nb: BoardView,
    r: Result<EditorRequestView, DbError>,
) -> bool {
    match pre.input_mode {
        InputMode::Normal => normal_step(pre, b, key, today, post, nb, r),
        InputMode::EditingDueDate => picker_step(pre, b, key, today, post, nb, r),
        InputMode::RecycleBin => bin_step(pre, b, key, post, nb, r),
        _ => input_step(pre, b, key, lines, now, post, nb, r),
    }
}

/// Handles a key with the given date of today and creation time for new
/// todos; `lines` are the lines of the open text editor.
pub fn handle_key_at(
    app: &mut TuiApp,
    board: &mut Board,
    key: Key,
    lines: &Vec<String>,
    today: Date,
    now: &str,
) -> (r: Result<EditorRequest, DbError>)
    requires
        app_ok(old(app)@),
        well_formed(old(board)@),
        today.valid(),
        key_fits(old(app)@, key),
    ensures
        app_ok(final(app)@),
        well_formed(final(board)@),
        key_step(
            old(app)@,
            old(board)@,
            key,
            text::strings_view(lines@),
            today,
            now@,
            final(app)@,
            final(board)@,
            outcome_view(r),
        ),
{
    match app.input_mode {
        InputMode::Normal => app.handle_normal_key(board, key, today),
        InputMode::EditingDueDate => app.handle_date_picker_key(board, key, today),
        InputMode::RecycleBin => app.handle_recycle_bin_key(board, key),
        _ => app.handle_input_key(board, key, lines, now),
    }
}

/// Handles a key, reading today's date and the time from the clock.
pub fn handle_key(app: &mut TuiApp, board: &mut Board, key: Key, lines: &Vec<String>) -> (r: Result<EditorRequest, DbError>)
    requires
        app_ok(old(app)@),
        well_formed(old(board)@),
        key_fits(old(app)@, key),
    ensures
        app_ok(final(app)@),
        well_formed(final(board)@),
        exists|today: Date, now: Seq<char>|
            today.valid() && calendar::is_timestamp(now) && key_step(
                old(app)@,
                old(board)@,
                key,
                text::strings_view(lines@),
                today,
                now,
                final(app)@,
                final(board)@,
                outcome_view(r),
            ),
{
    let today = calendar::today();
    let now = calendar::now_timestamp();
    handle_key_at(app, board, key, lines, today, now.as_str())
}

impl TuiApp {
    /// Handles a key, reading today's date and the time from the clock.
    pub fn handle_key(&mut self, board: &mut Board, key: Key, lines: &Vec<String>) -> (r: Result<EditorRequest, DbError>)
        requires
            app_ok(old(self)@),
            well_formed(old(board)@),
            key_fits(old(self)@, key),
        ensures
            app_ok(final(self)@),
            well_formed(final(board)@),
            exists|today: Date, now: Seq<char>|
                today.valid() && calendar::is_timestamp(now) && key_step(
                    old(self)@,
                    old(board)@,
                    key,
                    text::strings_view(lines@),
                    today,
                    now,
                    final(self)@,
                    final(board)@,
                    outcome_view(r),
                ),
    {
        handle_key(self, board, key, lines)
    }
}

} // verus!
