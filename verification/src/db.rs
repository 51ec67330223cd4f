use vstd::prelude::*;

use crate::calendar::is_timestamp;
use crate::models::{Column, ColumnView, RowView, Todo, TodoRow, TodoView, todo_views};

verus! {

/// What a board operation can fail with.
#[derive(Debug, Clone, Copy, PartialEq, Eq, Structural)]
pub enum DbError {
    /// The row that the operation reads does not exist.
    NotFound,
    /// The next position in a column does not fit in an `i32`.
    PositionOverflow,
    /// The greatest todo id is `i64::MAX` and every positive id is taken.
    IdsExhausted,
}

/// The two tables of the board: `columns` and `todos`.
pub struct Board {
    columns: Vec<Column>,
    rows: Vec<TodoRow>,
}

/// The tables' contents, row by row in storage order.
pub struct BoardView {
    pub columns: Seq<ColumnView>,
    pub rows: Seq<RowView>,
}

impl View for Board {
    type V = BoardView;

    closed spec fn view(&self) -> BoardView {
        BoardView {
            columns: self.columns@.map_values(|c: Column| c@),
            rows: self.rows@.map_values(|r: TodoRow| r@),
        }
    }
}

// ------------------------------------------------------------------------
// The model
// ------------------------------------------------------------------------

/// The table constraints: column ids and names are unique; todo ids are
/// unique; and every todo names an existing column. Positions may repeat.
pub open spec fn well_formed(b: BoardView) -> bool {
    &&& forall|i: int, j: int|
        #![trigger b.columns[i], b.columns[j]]
        0 <= i < b.columns.len() && 0 <= j < b.columns.len() && i != j ==> {
            &&& b.columns[i].id != b.columns[j].id
            &&& b.columns[i].name != b.columns[j].name
        }
    &&& forall|i: int, j: int|
        #![trigger b.rows[i], b.rows[j]]
        0 <= i < b.rows.len() && 0 <= j < b.rows.len() && i != j ==> b.rows[i].id != b.rows[j].id
    &&& forall|i: int| 0 <= i < b.rows.len() ==> has_column(b, #[trigger] b.rows[i].column_id)
}

pub open spec fn has_column(b: BoardView, id: i64) -> bool {
    exists|i: int| 0 <= i < b.columns.len() && #[trigger] b.columns[i].id == id
}

/// The index of the column with the given id.
pub open spec fn column_index(b: BoardView, id: i64) -> int {
    choose|i: int| 0 <= i < b.columns.len() && #[trigger] b.columns[i].id == id
}

pub open spec fn has_column_named(b: BoardView, name: Seq<char>) -> bool {
    exists|i: int| 0 <= i < b.columns.len() && #[trigger] b.columns[i].name == name
}

/// The index of the column with the given name.
pub open spec fn column_index_named(b: BoardView, name: Seq<char>) -> int {
    choose|i: int| 0 <= i < b.columns.len() && #[trigger] b.columns[i].name == name
}

pub open spec fn has_row(b: BoardView, id: i64) -> bool {
    exists|i: int| 0 <= i < b.rows.len() && #[trigger] b.rows[i].id == id
}

/// The index of the todo row with the given id.
pub open spec fn row_index(b: BoardView, id: i64) -> int {
    choose|i: int| 0 <= i < b.rows.len() && #[trigger] b.rows[i].id == id
}

/// A row joined with the name of its column.
pub open spec fn todo_of(b: BoardView, r: RowView) -> TodoView {
    TodoView {
        id: r.id,
        title: r.title,
        column_id: r.column_id,
        column_name: b.columns[column_index(b, r.column_id)].name,
        position: r.position,
        created_at: r.created_at,
        description: r.description,
        priority: r.priority,
        due_date: r.due_date,
    }
}

/// The board with its `k`-th row replaced.
pub open spec fn with_row(b: BoardView, k: int, r: RowView) -> BoardView {
    BoardView { columns: b.columns, rows: b.rows.update(k, r) }
}

/// Strict lexicographic order on sort keys.
pub open spec fn key_before(a: (i128, i128), b: (i128, i128)) -> bool {
    a.0 < b.0 || (a.0 == b.0 && a.1 < b.1)
}

pub open spec fn keys_ascending(keys: Seq<(i128, i128)>) -> bool {
    forall|i: int, j: int|
        0 <= i < j < keys.len() ==> key_before(#[trigger] keys[i], #[trigger] keys[j])
}

/// The greatest position among the rows of the given column, or -1 when it has none.
pub open spec fn max_position(rows: Seq<RowView>, column_id: i64) -> int
    decreases rows.len(),
{
    if rows.len() == 0 {
        -1
    } else {
        let m = max_position(rows.drop_last(), column_id);
        let r = rows.last();
        if r.column_id == column_id && r.position > m {
            r.position as int
        } else {
            m
        }
    }
}

/// The greatest todo id, or 0 when there are no todos.
pub open spec fn max_id(rows: Seq<RowView>) -> int
    decreases rows.len(),
{
    if rows.len() == 0 {
        0
    } else {
        let m = max_id(rows.drop_last());
        if rows.last().id > m {
            rows.last().id as int
        } else {
            m
        }
    }
}

pub proof fn lemma_max_position_bounds(rows: Seq<RowView>, column_id: i64)
    ensures
        forall|i: int|
            0 <= i < rows.len() && #[trigger] rows[i].column_id == column_id ==> rows[i].position
                <= max_position(rows, column_id),
        max_position(rows, column_id) >= -1,
        max_position(rows, column_id) <= i32::MAX,
    decreases rows.len(),
{
    if rows.len() > 0 {
        lemma_max_position_bounds(rows.drop_last(), column_id);
        assert forall|i: int|
            0 <= i < rows.len() && #[trigger] rows[i].column_id == column_id implies rows[i].position
                <= max_position(rows, column_id) by {
            if i < rows.len() - 1 {
                assert(rows[i] == rows.drop_last()[i]);
            }
        }
    }
}

pub proof fn lemma_max_id_bounds(rows: Seq<RowView>)
    ensures
        forall|i: int| 0 <= i < rows.len() ==> #[trigger] rows[i].id <= max_id(rows),
        0 <= max_id(rows) <= i64::MAX,
    decreases rows.len(),
{
    if rows.len() > 0 {
        lemma_max_id_bounds(rows.drop_last());
        assert forall|i: int| 0 <= i < rows.len() implies #[trigger] rows[i].id <= max_id(rows) by {
            if i < rows.len() - 1 {
                assert(rows[i] == rows.drop_last()[i]);
            }
        }
    }
}

/// The columns that a fresh board starts with.
pub open spec fn default_columns() -> Seq<ColumnView> {
    seq![
        ColumnView { id: 1, name: "backlog"@, position: 0 },
        ColumnView { id: 2, name: "todo"@, position: 1 },
        ColumnView { id: 3, name: "in-progress"@, position: 2 },
        ColumnView { id: 4, name: "done"@, position: 3 },
    ]
}

// ------------------------------------------------------------------------
// Sorting
// ------------------------------------------------------------------------

fn key_lt(a: (i128, i128), b: (i128, i128)) -> (r: bool)
    ensures
        r == key_before(a, b),
{
    a.0 < b.0 || (a.0 == b.0 && a.1 < b.1)
}

/// Inserts `item` at the place that keeps `keys` ascending.
fn insert_by_key<T>(items: &mut Vec<T>, keys: &mut Vec<(i128, i128)>, key: (i128, i128), item: T) -> (at: usize)
    requires
        old(items)@.len() == old(keys)@.len(),
        keys_ascending(old(keys)@),
        forall|i: int| 0 <= i < old(keys)@.len() ==> #[trigger] old(keys)@[i] != key,
    ensures
        at <= old(keys)@.len(),
        final(keys)@ == old(keys)@.insert(at as int, key),
        final(items)@ == old(items)@.insert(at as int, item),
        keys_ascending(final(keys)@),
{
    let mut i: usize = 0;
    while i < keys.len()
        invariant
            i <= keys@.len(),
            keys@ == old(keys)@,
            items@ == old(items)@,
            forall|j: int| 0 <= j < i ==> key_before(#[trigger] keys@[j], key),
        ensures
            i <= keys@.len(),
            keys@ == old(keys)@,
            items@ == old(items)@,
            forall|j: int| 0 <= j < i ==> key_before(#[trigger] keys@[j], key),
            i < keys@.len() ==> !key_before(keys@[i as int], key),
        decreases keys@.len() - i,
    {
        if !key_lt(keys[i], key) {
            break;
        }
        i = i + 1;
    }
    let ghost ks = keys@;
    assert forall|j: int| i <= j < ks.len() implies key_before(key, #[trigger] ks[j]) by {
        assert(ks[i as int] != key);
        if j > i {
            assert(key_before(ks[i as int], ks[j]));
        }
    }
    keys.insert(i, key);
    items.insert(i, item);
    assert(keys_ascending(keys@)) by {
        assert forall|a: int, c: int| 0 <= a < c < keys@.len() implies key_before(
            #[trigger] keys@[a],
            #[trigger] keys@[c],
        ) by {
            if c < i {
            } else if c == i {
                assert(keys@[a] == ks[a]);
            } else if a < i {
                assert(keys@[c] == ks[c - 1]);
                assert(keys@[a] == ks[a]);
                assert(key_before(ks[a], key));
                assert(key_before(key, ks[c - 1]));
            } else if a == i {
                assert(keys@[c] == ks[c - 1]);
            } else {
                assert(keys@[c] == ks[c - 1]);
                assert(keys@[a] == ks[a - 1]);
            }
        }
    }
    i
}

// ------------------------------------------------------------------------
// Construction and lookups
// ------------------------------------------------------------------------

impl Board {
    /// A board with no columns and no todos.
    pub fn new() -> (b: Board)
        ensures
            b@.columns.len() == 0,
            b@.rows.len() == 0,
            well_formed(b@),
    {
        let b = Board { columns: Vec::new(), rows: Vec::new() };
        assert(b@.columns =~= Seq::<ColumnView>::empty());
        assert(b@.rows =~= Seq::<RowView>::empty());
        b
    }

    /// Builds a board from stored tables; `None` when they break the table constraints.
    pub fn from_tables(columns: Vec<Column>, rows: Vec<TodoRow>) -> (b: Option<Board>)
        ensures
            b is Some <==> well_formed(
                BoardView {
                    columns: columns@.map_values(|c: Column| c@),
                    rows: rows@.map_values(|r: TodoRow| r@),
                },
            ),
            b matches Some(board) ==> board@.columns == columns@.map_values(|c: Column| c@)
                && board@.rows == rows@.map_values(|r: TodoRow| r@),
    {
        let board = Board { columns, rows };
        if board.check_well_formed() {
            Some(board)
        } else {
            None
        }
    }

    fn check_well_formed(&self) -> (ok: bool)
        ensures
            ok == well_formed(self@),
    {
        let ghost b = self@;
        let n = self.columns.len();
        let mut i: usize = 0;
        while i < n
            invariant
                n == self.columns@.len(),
                b == self@,
                i <= n,
                forall|x: int, y: int|
                    #![trigger b.columns[x], b.columns[y]]
                    0 <= x < i && 0 <= y < n && x != y ==> {
                        &&& b.columns[x].id != b.columns[y].id
                        &&& b.columns[x].name != b.columns[y].name
                    },
            decreases n - i,
        {
            let mut j: usize = 0;
            while j < n
                invariant
                    n == self.columns@.len(),
                    b == self@,
                    i < n,
                    j <= n,
                    forall|x: int, y: int|
                        #![trigger b.columns[x], b.columns[y]]
                        0 <= x < i && 0 <= y < n && x != y ==> {
                            &&& b.columns[x].id != b.columns[y].id
                            &&& b.columns[x].name != b.columns[y].name
                        },
                    forall|y: int|
                        #![trigger b.columns[y]]
                        0 <= y < j && i != y ==> {
                            &&& b.columns[i as int].id != b.columns[y].id
                            &&& b.columns[i as int].name != b.columns[y].name
                        },
                decreases n - j,
            {
                if i != j {
                    let ci = &self.columns[i];
                    let cj = &self.columns[j];
                    assert(b.columns[i as int] == ci@);
                    assert(b.columns[j as int] == cj@);
                    if ci.id == cj.id || ci.name == cj.name {
                        assert(!well_formed(b)) by {
                            assert(b.columns[i as int].id == b.columns[j as int].id
                                || b.columns[i as int].name == b.columns[j as int].name);
                        }
                        return false;
                    }
                }
                j = j + 1;
            }
            i = i + 1;
        }
        let m = self.rows.len();
        let mut i: usize = 0;
        while i < m
            invariant
                m == self.rows@.len(),
                b == self@,
                i <= m,
                well_formed(BoardView { columns: b.columns, rows: Seq::empty() }),
                forall|x: int, y: int|
                    #![trigger b.rows[x], b.rows[y]]
                    0 <= x < i && 0 <= y < m && x != y ==> b.rows[x].id != b.rows[y].id,
                forall|x: int| 0 <= x < i ==> has_column(b, #[trigger] b.rows[x].column_id),
            decreases m - i,
        {
            assert(b.rows[i as int] == self.rows@[i as int]@);
            if self.find_column(self.rows[i].column_id).is_none() {
                assert(!has_column(b, b.rows[i as int].column_id));
                return false;
            }
            let mut j: usize = 0;
            while j < m
                invariant
                    m == self.rows@.len(),
                    b == self@,
                    i < m,
                    j <= m,
                    forall|x: int, y: int|
                        #![trigger b.rows[x], b.rows[y]]
                        0 <= x < i && 0 <= y < m && x != y ==> b.rows[x].id != b.rows[y].id,
                    forall|y: int|
                        #![trigger b.rows[y]]
                        0 <= y < j && i != y ==> b.rows[i as int].id != b.rows[y].id,
                decreases m - j,
            {
                if i != j {
                    let ri = &self.rows[i];
                    let rj = &self.rows[j];
                    assert(b.rows[i as int] == ri@);
                    assert(b.rows[j as int] == rj@);
                    if ri.id == rj.id {
                        assert(!well_formed(b)) by {
                            assert(b.rows[i as int].id == b.rows[j as int].id);
                        }
                        return false;
                    }
                }
                j = j + 1;
            }
            i = i + 1;
        }
        true
    }

    /// The index of the column with the given id, if any.
    fn find_column(&self, id: i64) -> (found: Option<usize>)
        ensures
            found matches Some(i) ==> i < self@.columns.len() && self@.columns[i as int].id == id,
            found is None <==> !has_column(self@, id),
    {
        let mut i: usize = 0;
        while i < self.columns.len()
            invariant
                i <= self.columns@.len(),
                forall|j: int| 0 <= j < i ==> #[trigger] self@.columns[j].id != id,
            decreases self.columns@.len() - i,
        {
            if self.columns[i].id == id {
                assert(self@.columns[i as int].id == id);
                return Some(i);
            }
            i = i + 1;
        }
        None
    }

    /// The index of the column with the given name, if any.
    fn find_column_named(&self, name: &str) -> (found: Option<usize>)
        ensures
            found matches Some(i) ==> i < self@.columns.len() && self@.columns[i as int].name
                == name@,
            found is None <==> !has_column_named(self@, name@),
    {
        let wanted = String::from_str(name);
        let mut i: usize = 0;
        while i < self.columns.len()
            invariant
                wanted@ == name@,
                i <= self.columns@.len(),
                forall|j: int| 0 <= j < i ==> #[trigger] self@.columns[j].name != name@,
            decreases self.columns@.len() - i,
        {
            if self.columns[i].name == wanted {
                assert(self@.columns[i as int].name == name@);
                return Some(i);
            }
            i = i + 1;
        }
        None
    }

    /// The index of the todo row with the given id, if any.
    fn find_row(&self, id: i64) -> (found: Option<usize>)
        ensures
            found matches Some(k) ==> k < self@.rows.len() && self@.rows[k as int].id == id,
            found is None <==> !has_row(self@, id),
    {
        let mut k: usize = 0;
        while k < self.rows.len()
            invariant
                k <= self.rows@.len(),
                forall|j: int| 0 <= j < k ==> #[trigger] self@.rows[j].id != id,
            decreases self.rows@.len() - k,
        {
            if self.rows[k].id == id {
                assert(self@.rows[k as int].id == id);
                return Some(k);
            }
            k = k + 1;
        }
        None
    }

    /// The `k`-th row joined with its column's name.
    fn todo_at(&self, k: usize) -> (t: Todo)
        requires
            well_formed(self@),
            k < self@.rows.len(),
        ensures
            t@ == todo_of(self@, self@.rows[k as int]),
    {
        let row = &self.rows[k];
        assert(has_column(self@, self@.rows[k as int].column_id));
        let ci = self.find_column(row.column_id).unwrap();
        assert(ci as int == column_index(self@, row.column_id));
        Todo {
            id: row.id,
            title: row.title.clone(),
            column_id: row.column_id,
            column_name: self.columns[ci].name.clone(),
            position: row.position,
            created_at: row.created_at.clone(),
            description: row.description.clone(),
            priority: row.priority.clone(),
            due_date: row.due_date.clone(),
        }
    }

    /// A copy of the `columns` table, in storage order.
    pub fn columns_table(&self) -> (cols: Vec<Column>)
        ensures
            cols@.map_values(|c: Column| c@) == self@.columns,
    {
        let mut cols: Vec<Column> = Vec::new();
        let mut i: usize = 0;
        while i < self.columns.len()
            invariant
                i <= self.columns@.len(),
                cols@.len() == i,
                forall|j: int| 0 <= j < i ==> #[trigger] cols@[j]@ == self@.columns[j],
            decreases self.columns@.len() - i,
        {
            cols.push(self.columns[i].duplicate());
            i = i + 1;
        }
        assert(cols@.map_values(|c: Column| c@) =~= self@.columns);
        cols
    }

    /// A copy of the `todos` table, in storage order.
    pub fn rows_table(&self) -> (rows: Vec<TodoRow>)
        ensures
            rows@.map_values(|r: TodoRow| r@) == self@.rows,
    {
        let mut rows: Vec<TodoRow> = Vec::new();
        let mut i: usize = 0;
        while i < self.rows.len()
            invariant
                i <= self.rows@.len(),
                rows@.len() == i,
                forall|j: int| 0 <= j < i ==> #[trigger] rows@[j]@ == self@.rows[j],
            decreases self.rows@.len() - i,
        {
            rows.push(self.rows[i].duplicate());
            i = i + 1;
        }
        assert(rows@.map_values(|r: TodoRow| r@) =~= self@.rows);
        rows
    }
}

// ------------------------------------------------------------------------
// Uniqueness
// ------------------------------------------------------------------------

pub proof fn lemma_column_index(b: BoardView, i: int)
    requires
        well_formed(b),
        0 <= i < b.columns.len(),
    ensures
        has_column(b, b.columns[i].id),
        column_index(b, b.columns[i].id) == i,
{
    let j = column_index(b, b.columns[i].id);
    assert(b.columns[j].id == b.columns[i].id);
}

pub proof fn lemma_column_index_named(b: BoardView, i: int)
    requires
        well_formed(b),
        0 <= i < b.columns.len(),
    ensures
        has_column_named(b, b.columns[i].name),
        column_index_named(b, b.columns[i].name) == i,
{
    let j = column_index_named(b, b.columns[i].name);
    assert(b.columns[j].name == b.columns[i].name);
}

pub proof fn lemma_row_index(b: BoardView, k: int)
    requires
        well_formed(b),
        0 <= k < b.rows.len(),
    ensures
        has_row(b, b.rows[k].id),
        row_index(b, b.rows[k].id) == k,
{
    let j = row_index(b, b.rows[k].id);
    assert(b.rows[j].id == b.rows[k].id);
}

// ------------------------------------------------------------------------
// Reading
// ------------------------------------------------------------------------

/// A sort key for a position with an id that breaks ties: the keys order by
/// position and then by id (see `lemma_tie_key_order`).
pub open spec fn tie_key(position: i32, id: i64) -> i128 {
    (position as int * 0x1_0000_0000_0000_0000 + id as int + 0x8000_0000_0000_0000) as i128
}

/// Tie keys order by position and then by id, and only equal pairs share a key.
pub proof fn lemma_tie_key_order(p1: i32, i1: i64, p2: i32, i2: i64)
    ensures
        tie_key(p1, i1) < tie_key(p2, i2) <==> (p1 < p2 || (p1 == p2 && i1 < i2)),
        tie_key(p1, i1) == tie_key(p2, i2) <==> (p1 == p2 && i1 == i2),
{
    assert(p1 as int * 0x1_0000_0000_0000_0000 + i1 as int + 0x8000_0000_0000_0000 < 0x8000_0000_0000_0000_0000_0000)
        by (nonlinear_arith);
    assert(p2 as int * 0x1_0000_0000_0000_0000 + i2 as int + 0x8000_0000_0000_0000 < 0x8000_0000_0000_0000_0000_0000)
        by (nonlinear_arith);
    assert(p1 as int * 0x1_0000_0000_0000_0000 + i1 as int + 0x8000_0000_0000_0000 >= -0x8000_0000_0000_0000_0000_0000)
        by (nonlinear_arith);
    assert(p2 as int * 0x1_0000_0000_0000_0000 + i2 as int + 0x8000_0000_0000_0000 >= -0x8000_0000_0000_0000_0000_0000)
        by (nonlinear_arith);
}

fn tie_key_of(position: i32, id: i64) -> (k: i128)
    ensures
        k == tie_key(position, id),
{
    proof {
        lemma_tie_key_order(position, id, position, id);
    }
    position as i128 * 0x1_0000_0000_0000_0000i128 + id as i128 + 0x8000_0000_0000_0000i128
}

/// The key by which listed todos are ordered: column position, then position,
/// with ids breaking ties.
pub open spec fn todo_key(b: BoardView, t: TodoView) -> (i128, i128) {
    let c = b.columns[column_index(b, t.column_id)];
    (tie_key(c.position, c.id), tie_key(t.position, t.id))
}

/// Whether a row appears on the board: not archived, and in the filtered column if any.
pub open spec fn listed_row(b: BoardView, r: RowView, filter: Option<Seq<char>>) -> bool {
    &&& !r.archived
    &&& match filter {
        None => true,
        Some(name) => b.columns[column_index(b, r.column_id)].name == name,
    }
}

/// `t` is the todo of some row that `listed_row` admits.
pub open spec fn listed_todo(b: BoardView, filter: Option<Seq<char>>, t: TodoView) -> bool {
    exists|k: int|
        0 <= k < b.rows.len() && listed_row(b, b.rows[k], filter) && t == todo_of(b, #[trigger] b.rows[k])
}

/// `out` lists exactly the todos of the rows that `listed_row` admits, ordered
/// by column position and then by position within the column, with ids
/// breaking ties (see `todo_key`).
pub open spec fn is_todo_listing(b: BoardView, filter: Option<Seq<char>>, out: Seq<TodoView>) -> bool {
    &&& forall|i: int, j: int|
        0 <= i < j < out.len() ==> key_before(
            todo_key(b, #[trigger] out[i]),
            todo_key(b, #[trigger] out[j]),
        )
    &&& forall|i: int| 0 <= i < out.len() ==> #[trigger] listed_todo(b, filter, out[i])
    &&& forall|k: int|
        0 <= k < b.rows.len() && listed_row(b, #[trigger] b.rows[k], filter) ==> out.contains(
            todo_of(b, b.rows[k]),
        )
}

/// `t` is the todo of some archived row.
pub open spec fn archived_todo(b: BoardView, t: TodoView) -> bool {
    exists|k: int| 0 <= k < b.rows.len() && b.rows[k].archived && t == todo_of(b, #[trigger] b.rows[k])
}

/// `out` lists exactly the todos of the archived rows, greatest id first.
pub open spec fn is_archive_listing(b: BoardView, out: Seq<TodoView>) -> bool {
    &&& forall|i: int, j: int| 0 <= i < j < out.len() ==> #[trigger] out[i].id > #[trigger] out[j].id
    &&& forall|i: int| 0 <= i < out.len() ==> #[trigger] archived_todo(b, out[i])
    &&& forall|k: int|
        0 <= k < b.rows.len() && (#[trigger] b.rows[k]).archived ==> out.contains(todo_of(b, b.rows[k]))
}

/// The key by which columns are ordered: position, with ids breaking ties.
pub open spec fn column_key(c: ColumnView) -> i128 {
    tie_key(c.position, c.id)
}

/// `out` lists exactly the columns, by ascending position and, at equal
/// positions, by ascending id.
pub open spec fn is_column_listing(b: BoardView, out: Seq<ColumnView>) -> bool {
    &&& forall|i: int, j: int|
        0 <= i < j < out.len() ==> column_key(#[trigger] out[i]) < column_key(#[trigger] out[j])
    &&& forall|i: int| 0 <= i < out.len() ==> #[trigger] b.columns.contains(out[i])
    &&& forall|k: int| 0 <= k < b.columns.len() ==> out.contains(#[trigger] b.columns[k])
}

/// The todo with the given id, joined with its column's name.
pub fn get_todo(board: &Board, id: i64) -> (r: Result<Todo, DbError>)
    requires
        well_formed(board@),
    ensures
        match r {
            Ok(t) => has_row(board@, id) && t@ == todo_of(board@, board@.rows[row_index(board@, id)]),
            Err(e) => !has_row(board@, id) && e == DbError::NotFound,
        },
{
    match board.find_row(id) {
        Some(k) => {
            proof {
                lemma_row_index(board@, k as int);
            }
            Ok(board.todo_at(k))
        },
        None => Err(DbError::NotFound),
    }
}

/// Each element of `out` is the selected `src[origin[i]]`, with `origin[i] < n`.
pub open spec fn traced<A>(out: Seq<A>, src: Seq<A>, origin: Seq<int>, n: int, sel: spec_fn(int) -> bool) -> bool {
    &&& origin.len() == out.len()
    &&& forall|i: int|
        0 <= i < out.len() ==> 0 <= #[trigger] origin[i] < n && sel(origin[i]) && out[i]
            == src[origin[i]]
}

/// Each selected `src[j]` with `j < n` stands in `out` at `place[j]`.
pub open spec fn placed<A>(out: Seq<A>, src: Seq<A>, place: Seq<int>, n: int, sel: spec_fn(int) -> bool) -> bool {
    &&& place.len() == n
    &&& forall|j: int|
        0 <= j < n && sel(j) ==> 0 <= #[trigger] place[j] < out.len() && out[place[j]] == src[j]
}

/// `place` after an insertion at `at`.
pub open spec fn shifted(place: Seq<int>, at: int) -> Seq<int> {
    place.map_values(|p: int| if p >= at { p + 1 } else { p })
}

proof fn lemma_track_insert<A>(
    out: Seq<A>,
    src: Seq<A>,
    origin: Seq<int>,
    place: Seq<int>,
    n: int,
    sel: spec_fn(int) -> bool,
    at: int,
)
    requires
        traced(out, src, origin, n, sel),
        placed(out, src, place, n, sel),
        0 <= n < src.len(),
        sel(n),
        0 <= at <= out.len(),
    ensures
        traced(out.insert(at, src[n]), src, origin.insert(at, n), n + 1, sel),
        placed(out.insert(at, src[n]), src, shifted(place, at).push(at), n + 1, sel),
{
    let o2 = out.insert(at, src[n]);
    let g2 = origin.insert(at, n);
    let p2 = shifted(place, at).push(at);
    assert forall|i: int| 0 <= i < o2.len() implies 0 <= #[trigger] g2[i] < n + 1 && sel(g2[i])
        && o2[i] == src[g2[i]] by {
        if i < at {
            assert(g2[i] == origin[i] && o2[i] == out[i]);
        } else if i > at {
            assert(g2[i] == origin[i - 1] && o2[i] == out[i - 1]);
        }
    }
    assert forall|j: int| 0 <= j < n + 1 && sel(j) implies 0 <= #[trigger] p2[j] < o2.len()
        && o2[p2[j]] == src[j] by {
        if j < n {
            let p = place[j];
            if p >= at {
                assert(o2[p + 1] == out[p]);
            } else {
                assert(o2[p] == out[p]);
            }
        }
    }
}

proof fn lemma_track_skip<A>(
    out: Seq<A>,
    src: Seq<A>,
    origin: Seq<int>,
    place: Seq<int>,
    n: int,
    sel: spec_fn(int) -> bool,
)
    requires
        traced(out, src, origin, n, sel),
        placed(out, src, place, n, sel),
        0 <= n,
        !sel(n),
    ensures
        traced(out, src, origin, n + 1, sel),
        placed(out, src, place.push(0), n + 1, sel),
{
    let p2 = place.push(0);
    assert forall|j: int| 0 <= j < n + 1 && sel(j) implies 0 <= #[trigger] p2[j] < out.len()
        && out[p2[j]] == src[j] by {
        assert(p2[j] == place[j]);
    }
}

/// The columns, by ascending position (and id, where positions are equal).
pub fn list_columns(board: &Board) -> (cols: Vec<Column>)
    requires
        well_formed(board@),
    ensures
        is_column_listing(board@, cols@.map_values(|c: Column| c@)),
{
    let ghost b = board@;
    let ghost sel = |j: int| true;
    let ghost mut origin: Seq<int> = Seq::empty();
    let ghost mut place: Seq<int> = Seq::empty();
    let mut cols: Vec<Column> = Vec::new();
    let mut keys: Vec<(i128, i128)> = Vec::new();
    let mut k: usize = 0;
    while k < board.columns.len()
        invariant
            b == board@,
            well_formed(b),
            k <= b.columns.len(),
            cols@.len() == keys@.len(),
            keys_ascending(keys@),
            forall|i: int|
                0 <= i < keys@.len() ==> #[trigger] keys@[i] == (column_key(cols@[i]@), 0i128),
            traced(cols@.map_values(|c: Column| c@), b.columns, origin, k as int, sel),
            placed(cols@.map_values(|c: Column| c@), b.columns, place, k as int, sel),
            sel == (|j: int| true),
        decreases b.columns.len() - k,
    {
        let col = board.columns[k].duplicate();
        let key = (tie_key_of(col.position, col.id), 0i128);
        let ghost old_cols = cols@;
        let ghost old_view = cols@.map_values(|c: Column| c@);
        assert forall|i: int| 0 <= i < keys@.len() implies #[trigger] keys@[i] != key by {
            assert(old_view[i] == cols@[i]@);
            let c1 = b.columns[origin[i]];
            let c2 = b.columns[k as int];
            assert(c1.id != c2.id);
            lemma_tie_key_order(c1.position, c1.id, c2.position, c2.id);
        }
        let at = insert_by_key(&mut cols, &mut keys, key, col);
        proof {
            assert(sel(k as int));
            lemma_track_insert(old_view, b.columns, origin, place, k as int, sel, at as int);
            assert(cols@.map_values(|c: Column| c@) =~= old_view.insert(at as int, b.columns[k as int]));
            origin = origin.insert(at as int, k as int);
            place = shifted(place, at as int).push(at as int);
        }
        assert forall|i: int|
            0 <= i < keys@.len() implies #[trigger] keys@[i] == (column_key(cols@[i]@), 0i128) by {
            if i < at {
                assert(cols@[i] == old_cols[i]);
            } else if i > at {
                assert(cols@[i] == old_cols[i - 1]);
            }
        }
        k = k + 1;
    }
    let ghost out = cols@.map_values(|c: Column| c@);
    assert forall|i: int, j: int| 0 <= i < j < out.len() implies column_key(#[trigger] out[i])
        < column_key(#[trigger] out[j]) by {
        assert(key_before(keys@[i], keys@[j]));
    }
    assert forall|i: int| 0 <= i < out.len() implies #[trigger] b.columns.contains(out[i]) by {
        assert(b.columns[origin[i]] == out[i]);
    }
    assert forall|j: int| 0 <= j < b.columns.len() implies out.contains(#[trigger] b.columns[j]) by {
        assert(sel(j));
        assert(out[place[j]] == b.columns[j]);
    }
    cols
}

/// The view of an optional name.
pub open spec fn name_view(name: Option<&str>) -> Option<Seq<char>> {
    match name {
        Some(n) => Some(n@),
        None => None,
    }
}

pub proof fn lemma_keys_differ(b: BoardView, j: int, k: int)
    requires
        well_formed(b),
        0 <= j < b.rows.len(),
        0 <= k < b.rows.len(),
        j != k,
    ensures
        todo_key(b, todo_of(b, b.rows[j])) != todo_key(b, todo_of(b, b.rows[k])),
{
    let cj = column_index(b, b.rows[j].column_id);
    let ck = column_index(b, b.rows[k].column_id);
    assert(has_column(b, b.rows[j].column_id));
    assert(has_column(b, b.rows[k].column_id));
    assert(b.rows[j].id != b.rows[k].id);
    lemma_tie_key_order(b.columns[cj].position, b.columns[cj].id, b.columns[ck].position, b.columns[ck].id);
    lemma_tie_key_order(b.rows[j].position, b.rows[j].id, b.rows[k].position, b.rows[k].id);
}

/// The todos on the board (not archived), optionally only those of the named
/// column, ordered by column position and then by position within the column;
/// where positions are equal, the lesser id comes first.
pub fn list_todos(board: &Board, column_filter: Option<&str>) -> (todos: Vec<Todo>)
    requires
        well_formed(board@),
    ensures
        is_todo_listing(board@, name_view(column_filter), todo_views(todos@)),
{
    let ghost b = board@;
    let ghost filter = name_view(column_filter);
    let ghost sel = |j: int| listed_row(b, b.rows[j], filter);
    let ghost src = b.rows.map_values(|r: RowView| todo_of(b, r));
    let wanted: Option<String> = match column_filter {
        Some(n) => Some(String::from_str(n)),
        None => None,
    };
    let ghost mut origin: Seq<int> = Seq::empty();
    let ghost mut place: Seq<int> = Seq::empty();
    let mut todos: Vec<Todo> = Vec::new();
    let mut keys: Vec<(i128, i128)> = Vec::new();
    let mut k: usize = 0;
    while k < board.rows.len()
        invariant
            b == board@,
            well_formed(b),
            filter == name_view(column_filter),
            match wanted {
                Some(w) => filter == Some(w@),
                None => filter is None,
            },
            sel == (|j: int| listed_row(b, b.rows[j], filter)),
            src == b.rows.map_values(|r: RowView| todo_of(b, r)),
            k <= b.rows.len(),
            todos@.len() == keys@.len(),
            keys_ascending(keys@),
            forall|i: int|
                0 <= i < keys@.len() ==> #[trigger] keys@[i] == todo_key(b, todos@[i]@),
            traced(todo_views(todos@), src, origin, k as int, sel),
            placed(todo_views(todos@), src, place, k as int, sel),
        decreases b.rows.len() - k,
    {
        let ghost old_todos = todos@;
        let ghost old_view = todo_views(todos@);
        let row = &board.rows[k];
        assert(row@ == b.rows[k as int]);
        assert(has_column(b, b.rows[k as int].column_id));
        let ci = board.find_column(row.column_id).unwrap();
        proof {
            lemma_column_index(b, ci as int);
        }
        let pass = !row.archived && match &wanted {
            Some(w) => board.columns[ci].name == *w,
            None => true,
        };
        if pass {
            assert(sel(k as int));
            let key = (tie_key_of(board.columns[ci].position, board.columns[ci].id), tie_key_of(row.position, row.id));
            let todo = board.todo_at(k);
            assert(key == todo_key(b, todo@));
            assert forall|i: int| 0 <= i < keys@.len() implies #[trigger] keys@[i] != key by {
                assert(old_view[i] == todos@[i]@);
                let j = origin[i];
                assert(old_view[i] == src[j]);
                lemma_keys_differ(b, j, k as int);
            }
            let at = insert_by_key(&mut todos, &mut keys, key, todo);
            proof {
                lemma_track_insert(old_view, src, origin, place, k as int, sel, at as int);
                assert(todo_views(todos@) =~= old_view.insert(at as int, src[k as int]));
                origin = origin.insert(at as int, k as int);
                place = shifted(place, at as int).push(at as int);
            }
            assert forall|i: int|
                0 <= i < keys@.len() implies #[trigger] keys@[i] == todo_key(b, todos@[i]@) by {
                if i < at {
                    assert(todos@[i] == old_todos[i]);
                } else if i > at {
                    assert(todos@[i] == old_todos[i - 1]);
                }
            }
        } else {
            assert(!sel(k as int));
            proof {
                lemma_track_skip(old_view, src, origin, place, k as int, sel);
                place = place.push(0);
            }
        }
        k = k + 1;
    }
    let ghost out = todo_views(todos@);
    assert forall|i: int, j: int| 0 <= i < j < out.len() implies key_before(
        todo_key(b, #[trigger] out[i]),
        todo_key(b, #[trigger] out[j]),
    ) by {
        assert(key_before(keys@[i], keys@[j]));
    }
    assert forall|i: int| 0 <= i < out.len() implies #[trigger] listed_todo(b, filter, out[i]) by {
        assert(sel(origin[i]));
        assert(out[i] == todo_of(b, b.rows[origin[i]]));
    }
    assert forall|j: int| 0 <= j < b.rows.len() && listed_row(b, #[trigger] b.rows[j], filter)
        implies out.contains(todo_of(b, b.rows[j])) by {
        assert(sel(j));
        assert(out[place[j]] == src[j]);
    }
    todos
}

/// The archived todos, greatest id first.
pub fn list_archived_todos(board: &Board) -> (todos: Vec<Todo>)
    requires
        well_formed(board@),
    ensures
        is_archive_listing(board@, todo_views(todos@)),
{
    let ghost b = board@;
    let ghost sel = |j: int| b.rows[j].archived;
    let ghost src = b.rows.map_values(|r: RowView| todo_of(b, r));
    let ghost mut origin: Seq<int> = Seq::empty();
    let ghost mut place: Seq<int> = Seq::empty();
    let mut todos: Vec<Todo> = Vec::new();
    let mut keys: Vec<(i128, i128)> = Vec::new();
    let mut k: usize = 0;
    while k < board.rows.len()
        invariant
            b == board@,
            well_formed(b),
            sel == (|j: int| b.rows[j].archived),
            src == b.rows.map_values(|r: RowView| todo_of(b, r)),
            k <= b.rows.len(),
            todos@.len() == keys@.len(),
            keys_ascending(keys@),
            forall|i: int|
                0 <= i < keys@.len() ==> #[trigger] keys@[i] == ((0 - todos@[i]@.id) as i128, 0i128),
            traced(todo_views(todos@), src, origin, k as int, sel),
            placed(todo_views(todos@), src, place, k as int, sel),
        decreases b.rows.len() - k,
    {
        let ghost old_todos = todos@;
        let ghost old_view = todo_views(todos@);
        assert(board.rows@[k as int]@ == b.rows[k as int]);
        if board.rows[k].archived {
            assert(sel(k as int));
            let key = (0 - board.rows[k].id as i128, 0i128);
            let todo = board.todo_at(k);
            assert forall|i: int| 0 <= i < keys@.len() implies #[trigger] keys@[i] != key by {
                assert(old_view[i] == todos@[i]@);
                let j = origin[i];
                assert(old_view[i] == src[j]);
                assert(b.rows[j].id != b.rows[k as int].id);
            }
            let at = insert_by_key(&mut todos, &mut keys, key, todo);
            proof {
                lemma_track_insert(old_view, src, origin, place, k as int, sel, at as int);
                assert(todo_views(todos@) =~= old_view.insert(at as int, src[k as int]));
                origin = origin.insert(at as int, k as int);
                place = shifted(place, at as int).push(at as int);
            }
            assert forall|i: int|
                0 <= i < keys@.len() implies #[trigger] keys@[i] == ((0 - todos@[i]@.id) as i128, 0i128) by {
                if i < at {
                    assert(todos@[i] == old_todos[i]);
                } else if i > at {
                    assert(todos@[i] == old_todos[i - 1]);
                }
            }
        } else {
            assert(!sel(k as int));
            proof {
                lemma_track_skip(old_view, src, origin, place, k as int, sel);
                place = place.push(0);
            }
        }
        k = k + 1;
    }
    let ghost out = todo_views(todos@);
    assert forall|i: int, j: int| 0 <= i < j < out.len() implies #[trigger] out[i].id
        > #[trigger] out[j].id by {
        assert(key_before(keys@[i], keys@[j]));
    }
    assert forall|i: int| 0 <= i < out.len() implies #[trigger] archived_todo(b, out[i]) by {
        assert(sel(origin[i]));
        assert(out[i] == todo_of(b, b.rows[origin[i]]));
    }
    assert forall|j: int| 0 <= j < b.rows.len() && (#[trigger] b.rows[j]).archived implies out.contains(
        todo_of(b, b.rows[j]),
    ) by {
        assert(sel(j));
        assert(out[place[j]] == src[j]);
    }
    todos
}

// ------------------------------------------------------------------------
// Writing
// ------------------------------------------------------------------------

/// Column `i` comes first: the least position, and the least id among columns at that position.
pub open spec fn is_first_column(b: BoardView, i: int) -> bool {
    &&& 0 <= i < b.columns.len()
    &&& forall|j: int| 0 <= j < b.columns.len() ==> column_key(b.columns[i]) <= column_key(#[trigger] b.columns[j])
}

pub open spec fn first_column_index(b: BoardView) -> int {
    choose|i: int| is_first_column(b, i)
}

/// The column a new todo goes to: the named one, or else the first by position.
pub open spec fn target_column_index(b: BoardView, name: Option<Seq<char>>) -> Option<int> {
    match name {
        Some(n) => if has_column_named(b, n) {
            Some(column_index_named(b, n))
        } else {
            None
        },
        None => if b.columns.len() > 0 {
            Some(first_column_index(b))
        } else {
            None
        },
    }
}

/// A freshly added row: empty description and due date, priority `Medium`.
pub open spec fn new_row(id: i64, title: Seq<char>, column_id: i64, position: i32, created_at: Seq<char>) -> RowView {
    RowView {
        id,
        title,
        column_id,
        position,
        created_at,
        description: Seq::empty(),
        priority: "Medium"@,
        due_date: Seq::empty(),
        archived: false,
    }
}

/// What adding a todo does: the new board and the added row, or the error.
pub open spec fn add_outcome(b: BoardView, title: Seq<char>, column: Option<Seq<char>>, now: Seq<char>) -> Result<
    (BoardView, RowView),
    DbError,
> {
    match target_column_index(b, column) {
        None => Err(DbError::NotFound),
        Some(ci) => {
            let col = b.columns[ci].id;
            let mp = max_position(b.rows, col);
            if mp >= i32::MAX {
                Err(DbError::PositionOverflow)
            } else {
                match next_id(b) {
                    None => Err(DbError::IdsExhausted),
                    Some(id) => {
                        let r = new_row(id, title, col, (mp + 1) as i32, now);
                        Ok((BoardView { columns: b.columns, rows: b.rows.push(r) }, r))
                    },
                }
            }
        },
    }
}

/// `c` is the least positive id that no todo has.
pub open spec fn least_free_id(b: BoardView, c: i64) -> bool {
    &&& 1 <= c
    &&& !has_row(b, c)
    &&& forall|j: i64| 1 <= j < c ==> #[trigger] has_row(b, j)
}

/// The id a new todo gets: one past the greatest id, or, when that would
/// pass `i64::MAX`, the least positive id that no todo has, if there is one.
pub open spec fn next_id(b: BoardView) -> Option<i64> {
    if max_id(b.rows) < i64::MAX {
        Some((max_id(b.rows) + 1) as i64)
    } else if exists|c: i64| #[trigger] least_free_id(b, c) {
        Some(choose|c: i64| #[trigger] least_free_id(b, c))
    } else {
        None
    }
}

/// The id a new todo gets is positive and free.
pub proof fn lemma_next_id_free(b: BoardView)
    ensures
        next_id(b) matches Some(i) ==> 1 <= i && !has_row(b, i),
{
    lemma_max_id_bounds(b.rows);
    if max_id(b.rows) < i64::MAX {
        let i = (max_id(b.rows) + 1) as i64;
        if has_row(b, i) {
            let k = choose|k: int| 0 <= k < b.rows.len() && #[trigger] b.rows[k].id == i;
            assert(b.rows[k].id <= max_id(b.rows));
        }
    }
}

/// What moving a todo to a named column does: `None` when no column has
/// that name or no todo has that id; otherwise the new board and the index of
/// the moved row, which goes to the end of the column (one past its greatest
/// position).
pub open spec fn move_outcome(b: BoardView, id: i64, column: Seq<char>) -> Result<Option<(BoardView, int)>, DbError> {
    if !has_column_named(b, column) || !has_row(b, id) {
        Ok(None)
    } else {
        let col = b.columns[column_index_named(b, column)].id;
        let mp = max_position(b.rows, col);
        if mp >= i32::MAX {
            Err(DbError::PositionOverflow)
        } else {
            let k = row_index(b, id);
            let r = RowView { column_id: col, position: (mp + 1) as i32, ..b.rows[k] };
            Ok(Some((with_row(b, k, r), k)))
        }
    }
}

/// The board after replacing one field of the row with the given id, if any.
pub open spec fn edited(b: BoardView, id: i64, r: RowView) -> BoardView {
    if has_row(b, id) {
        with_row(b, row_index(b, id), r)
    } else {
        b
    }
}

/// Row `p` is the nearest row above row `k` in its column: the greatest
/// position below `k`'s, and the greatest id among rows at that position.
pub open spec fn is_peer_above(b: BoardView, k: int, p: int) -> bool {
    &&& 0 <= p < b.rows.len()
    &&& b.rows[p].column_id == b.rows[k].column_id
    &&& b.rows[p].position < b.rows[k].position
    &&& forall|q: int|
        0 <= q < b.rows.len() && (#[trigger] b.rows[q]).column_id == b.rows[k].column_id
            && b.rows[q].position < b.rows[k].position ==> tie_key(b.rows[q].position, b.rows[q].id)
            <= tie_key(b.rows[p].position, b.rows[p].id)
}

/// Row `p` is the nearest row below row `k` in its column: the least
/// position above `k`'s, and the least id among rows at that position.
pub open spec fn is_peer_below(b: BoardView, k: int, p: int) -> bool {
    &&& 0 <= p < b.rows.len()
    &&& b.rows[p].column_id == b.rows[k].column_id
    &&& b.rows[p].position > b.rows[k].position
    &&& forall|q: int|
        0 <= q < b.rows.len() && (#[trigger] b.rows[q]).column_id == b.rows[k].column_id
            && b.rows[q].position > b.rows[k].position ==> tie_key(b.rows[p].position, b.rows[p].id)
            <= tie_key(b.rows[q].position, b.rows[q].id)
}

/// The board with the positions of rows `k` and `p` exchanged.
pub open spec fn swapped(b: BoardView, k: int, p: int) -> BoardView {
    let rk = b.rows[k];
    let rp = b.rows[p];
    BoardView {
        columns: b.columns,
        rows: b.rows.update(k, RowView { position: rp.position, ..rk }).update(
            p,
            RowView { position: rk.position, ..rp },
        ),
    }
}

pub open spec fn has_peer_above(b: BoardView, k: int) -> bool {
    exists|p: int| is_peer_above(b, k, p)
}

pub open spec fn peer_above(b: BoardView, k: int) -> int {
    choose|p: int| is_peer_above(b, k, p)
}

pub open spec fn has_peer_below(b: BoardView, k: int) -> bool {
    exists|p: int| is_peer_below(b, k, p)
}

pub open spec fn peer_below(b: BoardView, k: int) -> int {
    choose|p: int| is_peer_below(b, k, p)
}

impl Board {
    /// Replaces the `k`-th row.
    fn put_row(&mut self, k: usize, row: TodoRow)
        requires
            k < old(self)@.rows.len(),
        ensures
            final(self)@ == with_row(old(self)@, k as int, row@),
    {
        let ghost r = row@;
        self.rows.set(k, row);
        assert(self@.rows =~= old(self)@.rows.update(k as int, r));
    }

    /// Index of the column that comes first (least position, then least id); the board must have a column.
    fn find_first_column(&self) -> (i: usize)
        requires
            self@.columns.len() > 0,
            well_formed(self@),
        ensures
            i as int == first_column_index(self@),
            i < self@.columns.len(),
    {
        let ghost b = self@;
        let mut best: usize = 0;
        let mut j: usize = 1;
        while j < self.columns.len()
            invariant
                b == self@,
                0 <= best < j <= b.columns.len(),
                forall|q: int| 0 <= q < j ==> column_key(b.columns[best as int]) <= column_key(#[trigger] b.columns[q]),
            decreases b.columns.len() - j,
        {
            assert(self.columns@[j as int]@ == b.columns[j as int]);
            assert(self.columns@[best as int]@ == b.columns[best as int]);
            if tie_key_of(self.columns[j].position, self.columns[j].id) < tie_key_of(
                self.columns[best].position,
                self.columns[best].id,
            ) {
                best = j;
            }
            j = j + 1;
        }
        proof {
            assert(is_first_column(b, best as int));
            let c = first_column_index(b);
            assert(is_first_column(b, c));
            let x = b.columns[c];
            let y = b.columns[best as int];
            assert(column_key(x) == column_key(y));
            lemma_tie_key_order(x.position, x.id, y.position, y.id);
            if c != best as int {
                assert(x.id != y.id);
            }
        }
        best
    }

    /// The greatest position in the given column, or -1.
    fn max_position_in(&self, column_id: i64) -> (m: i32)
        ensures
            m as int == max_position(self@.rows, column_id),
    {
        let ghost rows = self@.rows;
        let mut m: i32 = -1;
        let mut k: usize = 0;
        while k < self.rows.len()
            invariant
                rows == self@.rows,
                k <= rows.len(),
                m as int == max_position(rows.take(k as int), column_id),
            decreases rows.len() - k,
        {
            assert(rows.take(k as int + 1).drop_last() =~= rows.take(k as int));
            assert(self.rows@[k as int]@ == rows[k as int]);
            if self.rows[k].column_id == column_id && self.rows[k].position > m {
                m = self.rows[k].position;
            }
            k = k + 1;
        }
        assert(rows.take(k as int) =~= rows);
        m
    }

    /// The greatest todo id, or 0.
    /// The id a new todo gets (see `next_id`).
    fn next_free_id(&self) -> (r: Option<i64>)
        ensures
            r == next_id(self@),
    {
        let ghost b = self@;
        let m = self.max_row_id();
        proof {
            lemma_max_id_bounds(b.rows);
        }
        if m < i64::MAX {
            return Some(m + 1);
        }
        let mut c: i64 = 1;
        loop
            invariant
                b == self@,
                max_id(b.rows) >= i64::MAX,
                1 <= c <= i64::MAX,
                forall|j: i64| 1 <= j < c ==> #[trigger] has_row(b, j),
            decreases i64::MAX - c,
        {
            if self.find_row(c).is_none() {
                proof {
                    assert(least_free_id(b, c));
                    let d = choose|d: i64| #[trigger] least_free_id(b, d);
                    assert(least_free_id(b, d));
                    if d < c {
                        assert(has_row(b, d));
                    } else if c < d {
                        assert(has_row(b, c));
                    }
                }
                return Some(c);
            }
            if c == i64::MAX {
                proof {
                    assert forall|d: i64| !(#[trigger] least_free_id(b, d)) by {
                        if least_free_id(b, d) && d < c {
                            assert(has_row(b, d));
                        }
                    }
                }
                return None;
            }
            c = c + 1;
        }
    }

    fn max_row_id(&self) -> (m: i64)
        ensures
            m as int == max_id(self@.rows),
    {
        let ghost rows = self@.rows;
        let mut m: i64 = 0;
        let mut k: usize = 0;
        while k < self.rows.len()
            invariant
                rows == self@.rows,
                k <= rows.len(),
                m as int == max_id(rows.take(k as int)),
            decreases rows.len() - k,
        {
            assert(rows.take(k as int + 1).drop_last() =~= rows.take(k as int));
            assert(self.rows@[k as int]@ == rows[k as int]);
            if self.rows[k].id > m {
                m = self.rows[k].id;
            }
            k = k + 1;
        }
        assert(rows.take(k as int) =~= rows);
        m
    }
}

/// Fills an empty `columns` table with the four default columns; a table
/// that already holds a column is left alone.
pub fn init_db(board: &mut Board)
    requires
        well_formed(old(board)@),
    ensures
        well_formed(final(board)@),
        final(board)@.rows == old(board)@.rows,
        old(board)@.columns.len() == 0 ==> final(board)@.columns == default_columns(),
        old(board)@.columns.len() != 0 ==> final(board)@.columns == old(board)@.columns,
{
    if board.columns.len() == 0 {
        let ghost rows = board@.rows;
        board.columns.push(Column { id: 1, name: String::from_str("backlog"), position: 0 });
        board.columns.push(Column { id: 2, name: String::from_str("todo"), position: 1 });
        board.columns.push(Column { id: 3, name: String::from_str("in-progress"), position: 2 });
        board.columns.push(Column { id: 4, name: String::from_str("done"), position: 3 });
        assert(board@.columns =~= default_columns());
        assert(board@.rows == rows);
        proof {
            reveal_strlit("backlog");
            reveal_strlit("todo");
            reveal_strlit("in-progress");
            reveal_strlit("done");
            assert(rows.len() == 0) by {
                if rows.len() > 0 {
                    assert(has_column(old(board)@, rows[0].column_id));
                }
            }
            let d = default_columns();
            assert(d[0].name.len() != d[1].name.len());
            assert(d[0].name != d[2].name) by { assert(d[0].name[0] != d[2].name[0]); }
            assert(d[0].name != d[3].name) by { assert(d[0].name[0] != d[3].name[0]); }
            assert(d[1].name != d[2].name) by { assert(d[1].name.len() != d[2].name.len()); }
            assert(d[1].name != d[3].name) by { assert(d[1].name[0] != d[3].name[0]); }
            assert(d[2].name != d[3].name) by { assert(d[2].name.len() != d[3].name.len()); }
        }
    }
}

/// Adds a todo created at `now` to the named column, or to the first column
/// by position when no name is given. It gets the next free id and goes to
/// the end of its column.
pub fn add_todo_at(board: &mut Board, title: &str, column_name: Option<&str>, now: &str) -> (r: Result<Todo, DbError>)
    requires
        well_formed(old(board)@),
    ensures
        well_formed(final(board)@),
        match add_outcome(old(board)@, title@, name_view(column_name), now@) {
            Err(e) => r == Err::<Todo, DbError>(e) && final(board)@ == old(board)@,
            Ok((nb, row)) => final(board)@ == nb && (r matches Ok(t) && t@ == todo_of(nb, row)),
        },
{
    let ghost b = board@;
    let ci = match column_name {
        Some(name) => match board.find_column_named(name) {
            Some(i) => {
                proof {
                    lemma_column_index_named(b, i as int);
                }
                i
            },
            None => {
                return Err(DbError::NotFound);
            },
        },
        None => {
            if board.columns.len() == 0 {
                return Err(DbError::NotFound);
            }
            board.find_first_column()
        },
    };
    let col = board.columns[ci].id;
    let mp = board.max_position_in(col);
    proof {
        lemma_max_position_bounds(b.rows, col);
        lemma_max_id_bounds(b.rows);
    }
    if mp == i32::MAX {
        return Err(DbError::PositionOverflow);
    }
    let id = match board.next_free_id() {
        Some(i) => i,
        None => {
            return Err(DbError::IdsExhausted);
        },
    };
    proof {
        lemma_max_position_bounds(b.rows, col);
        lemma_next_id_free(b);
    }
    let row = TodoRow {
        id,
        title: String::from_str(title),
        column_id: col,
        position: mp + 1,
        created_at: String::from_str(now),
        description: String::new(),
        priority: String::from_str("Medium"),
        due_date: String::new(),
        archived: false,
    };
    let ghost r = row@;
    assert(r == new_row(id, title@, col, (mp + 1) as i32, now@));
    board.rows.push(row);
    let ghost nb = board@;
    assert(nb.rows =~= b.rows.push(r));
    assert(nb.columns == b.columns);
    assert(well_formed(nb)) by {
        assert(has_column(nb, col)) by {
            assert(nb.columns[ci as int].id == col);
        }
        assert forall|i: int, j: int|
            #![trigger nb.rows[i], nb.rows[j]]
            0 <= i < nb.rows.len() && 0 <= j < nb.rows.len() && i != j implies nb.rows[i].id
                != nb.rows[j].id by {
            if i < b.rows.len() && j < b.rows.len() {
                assert(nb.rows[i] == b.rows[i] && nb.rows[j] == b.rows[j]);
            } else if i < b.rows.len() {
                assert(nb.rows[i] == b.rows[i]);
                assert(b.rows[i].id != id);
            } else {
                assert(nb.rows[j] == b.rows[j]);
                assert(b.rows[j].id != id);
            }
        }
        assert forall|i: int| 0 <= i < nb.rows.len() implies has_column(nb, #[trigger] nb.rows[i].column_id) by {
            if i < b.rows.len() {
                assert(nb.rows[i] == b.rows[i]);
            }
        }
    }
    let last = board.rows.len() - 1;
    let t = board.todo_at(last);
    Ok(t)
}

/// Replacing row `k` by a row with the same id in an existing column keeps
/// the table constraints.
pub proof fn lemma_replace_row_keeps_well_formed(b: BoardView, k: int, r: RowView)
    requires
        well_formed(b),
        0 <= k < b.rows.len(),
        r.id == b.rows[k].id,
        has_column(b, r.column_id),
    ensures
        well_formed(with_row(b, k, r)),
{
    let nb = with_row(b, k, r);
    assert forall|i: int, j: int|
        #![trigger nb.rows[i], nb.rows[j]]
        0 <= i < nb.rows.len() && 0 <= j < nb.rows.len() && i != j implies nb.rows[i].id
            != nb.rows[j].id by {
        assert(b.rows[i] == b.rows[i] && b.rows[j] == b.rows[j]);
    }
    assert forall|i: int| 0 <= i < nb.rows.len() implies has_column(nb, #[trigger] nb.rows[i].column_id) by {
        if i != k {
            assert(nb.rows[i] == b.rows[i]);
            assert(has_column(b, b.rows[i].column_id));
            lemma_has_column_same(b, nb, b.rows[i].column_id);
        } else {
            lemma_has_column_same(b, nb, r.column_id);
        }
    }
}

pub proof fn lemma_has_column_same(b: BoardView, nb: BoardView, id: i64)
    requires
        b.columns == nb.columns,
        has_column(b, id),
    ensures
        has_column(nb, id),
{
    let i = choose|i: int| 0 <= i < b.columns.len() && #[trigger] b.columns[i].id == id;
    assert(nb.columns[i].id == id);
}

/// Moves the todo to the end of the named column. `Ok(None)`, with the board
/// unchanged, when no column has that name or no todo has that id.
pub fn move_todo(board: &mut Board, todo_id: i64, target_column: &str) -> (r: Result<Option<Todo>, DbError>)
    requires
        well_formed(old(board)@),
    ensures
        well_formed(final(board)@),
        match move_outcome(old(board)@, todo_id, target_column@) {
            Ok(None) => r == Ok::<Option<Todo>, DbError>(None) && final(board)@ == old(board)@,
            Err(e) => r == Err::<Option<Todo>, DbError>(e) && final(board)@ == old(board)@,
            Ok(Some((nb, k))) => final(board)@ == nb && (r matches Ok(Some(t)) && t@ == todo_of(
                nb,
                nb.rows[k],
            )),
        },
{
    let ghost b = board@;
    let ci = match board.find_column_named(target_column) {
        Some(i) => i,
        None => {
            return Ok(None);
        },
    };
    proof {
        lemma_column_index_named(b, ci as int);
    }
    let k = match board.find_row(todo_id) {
        Some(k) => k,
        None => {
            return Ok(None);
        },
    };
    let col = board.columns[ci].id;
    let mp = board.max_position_in(col);
    proof {
        lemma_max_position_bounds(b.rows, col);
    }
    if mp == i32::MAX {
        return Err(DbError::PositionOverflow);
    }
    proof {
        lemma_row_index(b, k as int);
    }
    let mut row = board.rows[k].duplicate();
    row.column_id = col;
    row.position = mp + 1;
    let ghost nr = row@;
    proof {
        assert(has_column(b, col)) by {
            assert(b.columns[ci as int].id == col);
        }
        lemma_replace_row_keeps_well_formed(b, k as int, nr);
    }
    board.put_row(k, row);
    let t = board.todo_at(k);
    Ok(Some(t))
}

/// Replaces the title of the todo with the given id; `None` when there is none.
pub fn update_todo(board: &mut Board, todo_id: i64, title: &str) -> (r: Option<Todo>)
    requires
        well_formed(old(board)@),
    ensures
        well_formed(final(board)@),
        has_row(old(board)@, todo_id) ==> final(board)@ == with_row(
            old(board)@,
            row_index(old(board)@, todo_id),
            RowView { title: title@, ..old(board)@.rows[row_index(old(board)@, todo_id)] },
        ) && (r matches Some(t) && t@ == todo_of(
            final(board)@,
            final(board)@.rows[row_index(old(board)@, todo_id)],
        )),
        !has_row(old(board)@, todo_id) ==> r is None && final(board)@ == old(board)@,
{
    let ghost b = board@;
    let k = match board.find_row(todo_id) {
        Some(k) => k,
        None => {
            return None;
        },
    };
    proof {
        lemma_row_index(b, k as int);
    }
    let mut row = board.rows[k].duplicate();
    row.title = String::from_str(title);
    proof {
        lemma_replace_row_keeps_well_formed(b, k as int, row@);
    }
    board.put_row(k, row);
    Some(board.todo_at(k))
}

/// Replaces the description of the todo with the given id; `None` when there is none.
pub fn update_todo_description(board: &mut Board, todo_id: i64, description: &str) -> (r: Option<Todo>)
    requires
        well_formed(old(board)@),
    ensures
        well_formed(final(board)@),
        has_row(old(board)@, todo_id) ==> final(board)@ == with_row(
            old(board)@,
            row_index(old(board)@, todo_id),
            RowView { description: description@, ..old(board)@.rows[row_index(old(board)@, todo_id)] },
        ) && (r matches Some(t) && t@ == todo_of(
            final(board)@,
            final(board)@.rows[row_index(old(board)@, todo_id)],
        )),
        !has_row(old(board)@, todo_id) ==> r is None && final(board)@ == old(board)@,
{
    let ghost b = board@;
    let k = match board.find_row(todo_id) {
        Some(k) => k,
        None => {
            return None;
        },
    };
    proof {
        lemma_row_index(b, k as int);
    }
    let mut row = board.rows[k].duplicate();
    row.description = String::from_str(description);
    proof {
        lemma_replace_row_keeps_well_formed(b, k as int, row@);
    }
    board.put_row(k, row);
    Some(board.todo_at(k))
}

/// Replaces the priority of the todo with the given id; `None` when there is none.
pub fn update_todo_priority(board: &mut Board, todo_id: i64, priority: &str) -> (r: Option<Todo>)
    requires
        well_formed(old(board)@),
    ensures
        well_formed(final(board)@),
        has_row(old(board)@, todo_id) ==> final(board)@ == with_row(
            old(board)@,
            row_index(old(board)@, todo_id),
            RowView { priority: priority@, ..old(board)@.rows[row_index(old(board)@, todo_id)] },
        ) && (r matches Some(t) && t@ == todo_of(
            final(board)@,
            final(board)@.rows[row_index(old(board)@, todo_id)],
        )),
        !has_row(old(board)@, todo_id) ==> r is None && final(board)@ == old(board)@,
{
    let ghost b = board@;
    let k = match board.find_row(todo_id) {
        Some(k) => k,
        None => {
            return None;
        },
    };
    proof {
        lemma_row_index(b, k as int);
    }
    let mut row = board.rows[k].duplicate();
    row.priority = String::from_str(priority);
    proof {
        lemma_replace_row_keeps_well_formed(b, k as int, row@);
    }
    board.put_row(k, row);
    Some(board.todo_at(k))
}

/// Replaces the due date of the todo with the given id; `None` when there is none.
pub fn update_todo_due_date(board: &mut Board, todo_id: i64, due_date: &str) -> (r: Option<Todo>)
    requires
        well_formed(old(board)@),
    ensures
        well_formed(final(board)@),
        has_row(old(board)@, todo_id) ==> final(board)@ == with_row(
            old(board)@,
            row_index(old(board)@, todo_id),
            RowView { due_date: due_date@, ..old(board)@.rows[row_index(old(board)@, todo_id)] },
        ) && (r matches Some(t) && t@ == todo_of(
            final(board)@,
            final(board)@.rows[row_index(old(board)@, todo_id)],
        )),
        !has_row(old(board)@, todo_id) ==> r is None && final(board)@ == old(board)@,
{
    let ghost b = board@;
    let k = match board.find_row(todo_id) {
        Some(k) => k,
        None => {
            return None;
        },
    };
    proof {
        lemma_row_index(b, k as int);
    }
    let mut row = board.rows[k].duplicate();
    row.due_date = String::from_str(due_date);
    proof {
        lemma_replace_row_keeps_well_formed(b, k as int, row@);
    }
    board.put_row(k, row);
    Some(board.todo_at(k))
}

/// Sets the archived flag of the todo with the given id; `false` when there is none.
fn set_archived(board: &mut Board, todo_id: i64, archived: bool) -> (found: bool)
    requires
        well_formed(old(board)@),
    ensures
        well_formed(final(board)@),
        found == has_row(old(board)@, todo_id),
        found ==> final(board)@ == with_row(
            old(board)@,
            row_index(old(board)@, todo_id),
            RowView { archived, ..old(board)@.rows[row_index(old(board)@, todo_id)] },
        ),
        !found ==> final(board)@ == old(board)@,
{
    let ghost b = board@;
    let k = match board.find_row(todo_id) {
        Some(k) => k,
        None => {
            return false;
        },
    };
    proof {
        lemma_row_index(b, k as int);
    }
    let mut row = board.rows[k].duplicate();
    row.archived = archived;
    proof {
        lemma_replace_row_keeps_well_formed(b, k as int, row@);
    }
    board.put_row(k, row);
    true
}

/// Moves the todo with the given id to the recycle bin; `false` when there is none.
pub fn delete_todo(board: &mut Board, todo_id: i64) -> (found: bool)
    requires
        well_formed(old(board)@),
    ensures
        well_formed(final(board)@),
        found == has_row(old(board)@, todo_id),
        found ==> final(board)@ == with_row(
            old(board)@,
            row_index(old(board)@, todo_id),
            RowView { archived: true, ..old(board)@.rows[row_index(old(board)@, todo_id)] },
        ),
        !found ==> final(board)@ == old(board)@,
{
    set_archived(board, todo_id, true)
}

/// Takes the todo with the given id out of the recycle bin; `false` when there is none.
pub fn restore_todo(board: &mut Board, todo_id: i64) -> (found: bool)
    requires
        well_formed(old(board)@),
    ensures
        well_formed(final(board)@),
        found == has_row(old(board)@, todo_id),
        found ==> final(board)@ == with_row(
            old(board)@,
            row_index(old(board)@, todo_id),
            RowView { archived: false, ..old(board)@.rows[row_index(old(board)@, todo_id)] },
        ),
        !found ==> final(board)@ == old(board)@,
{
    set_archived(board, todo_id, false)
}

/// Removes the todo with the given id for good; `false` when there is none.
pub fn delete_todo_permanently(board: &mut Board, todo_id: i64) -> (found: bool)
    requires
        well_formed(old(board)@),
    ensures
        well_formed(final(board)@),
        found == has_row(old(board)@, todo_id),
        found ==> final(board)@ == (BoardView {
            columns: old(board)@.columns,
            rows: old(board)@.rows.remove(row_index(old(board)@, todo_id)),
        }),
        !found ==> final(board)@ == old(board)@,
{
    let ghost b = board@;
    let k = match board.find_row(todo_id) {
        Some(k) => k,
        None => {
            return false;
        },
    };
    proof {
        lemma_row_index(b, k as int);
    }
    board.rows.remove(k);
    let ghost nb = board@;
    assert(nb.rows =~= b.rows.remove(k as int));
    assert(well_formed(nb)) by {
        assert forall|i: int, j: int|
            #![trigger nb.rows[i], nb.rows[j]]
            0 <= i < nb.rows.len() && 0 <= j < nb.rows.len() && i != j implies nb.rows[i].id
                != nb.rows[j].id by {
            let oi = if i < k { i } else { i + 1 };
            let oj = if j < k { j } else { j + 1 };
            assert(nb.rows[i] == b.rows[oi] && nb.rows[j] == b.rows[oj]);
        }
        assert forall|i: int| 0 <= i < nb.rows.len() implies has_column(nb, #[trigger] nb.rows[i].column_id) by {
            let oi = if i < k { i } else { i + 1 };
            assert(nb.rows[i] == b.rows[oi]);
            assert(has_column(b, b.rows[oi].column_id));
            lemma_has_column_same(b, nb, b.rows[oi].column_id);
        }
    }
    true
}

pub proof fn lemma_swap_keeps_well_formed(b: BoardView, k: int, p: int)
    requires
        well_formed(b),
        0 <= k < b.rows.len(),
        0 <= p < b.rows.len(),
        k != p,
        b.rows[k].column_id == b.rows[p].column_id,
    ensures
        well_formed(swapped(b, k, p)),
{
    let nb = swapped(b, k, p);
    assert forall|i: int, j: int|
        #![trigger nb.rows[i], nb.rows[j]]
        0 <= i < nb.rows.len() && 0 <= j < nb.rows.len() && i != j implies nb.rows[i].id
            != nb.rows[j].id by {
        let oi = if i == k { p } else if i == p { k } else { i };
        let oj = if j == k { p } else if j == p { k } else { j };
        assert(nb.rows[i].position == b.rows[oi].position);
        assert(nb.rows[j].position == b.rows[oj].position);
        assert(nb.rows[i].column_id == b.rows[i].column_id);
        assert(nb.rows[j].column_id == b.rows[j].column_id);
        assert(b.rows[i].id != b.rows[j].id);
        assert(b.rows[oi].column_id == b.rows[i].column_id);
        assert(b.rows[oj].column_id == b.rows[j].column_id);
        assert(oi != oj);
        assert(b.rows[oi] == b.rows[oi] && b.rows[oj] == b.rows[oj]);
    }
    assert forall|i: int| 0 <= i < nb.rows.len() implies has_column(nb, #[trigger] nb.rows[i].column_id) by {
        assert(nb.rows[i].column_id == b.rows[i].column_id);
        assert(has_column(b, b.rows[i].column_id));
        lemma_has_column_same(b, nb, b.rows[i].column_id);
    }
}

impl Board {
    /// Swaps the positions of rows `k` and `p`.
    fn swap_positions(&mut self, k: usize, p: usize)
        requires
            k < old(self)@.rows.len(),
            p < old(self)@.rows.len(),
            k != p,
        ensures
            final(self)@ == swapped(old(self)@, k as int, p as int),
    {
        let ghost b = self@;
        let pk = self.rows[k].position;
        let pp = self.rows[p].position;
        let mut rk = self.rows[k].duplicate();
        rk.position = pp;
        let mut rp = self.rows[p].duplicate();
        rp.position = pk;
        self.put_row(k, rk);
        self.put_row(p, rp);
        assert(self@.rows =~= swapped(b, k as int, p as int).rows);
    }
}

/// Swaps the todo with the nearest todo above it in its column (the one with
/// the greatest position below its own, the greatest id among several at that
/// position); `Ok(false)` when it is the top one.
pub fn move_todo_up(board: &mut Board, todo_id: i64) -> (r: Result<bool, DbError>)
    requires
        well_formed(old(board)@),
    ensures
        well_formed(final(board)@),
        !has_row(old(board)@, todo_id) ==> r == Err::<bool, DbError>(DbError::NotFound)
            && final(board)@ == old(board)@,
        has_row(old(board)@, todo_id) && has_peer_above(old(board)@, row_index(old(board)@, todo_id))
            ==> r == Ok::<bool, DbError>(true) && final(board)@ == swapped(
            old(board)@,
            row_index(old(board)@, todo_id),
            peer_above(old(board)@, row_index(old(board)@, todo_id)),
        ),
        has_row(old(board)@, todo_id) && !has_peer_above(old(board)@, row_index(old(board)@, todo_id))
            ==> r == Ok::<bool, DbError>(false) && final(board)@ == old(board)@,
{
    let ghost b = board@;
    let k = match board.find_row(todo_id) {
        Some(k) => k,
        None => {
            return Err(DbError::NotFound);
        },
    };
    proof {
        lemma_row_index(b, k as int);
    }
    let col = board.rows[k].column_id;
    let pos = board.rows[k].position;
    let mut best: Option<usize> = None;
    let mut q: usize = 0;
    while q < board.rows.len()
        invariant
            b == board@,
            k < b.rows.len(),
            col == b.rows[k as int].column_id,
            pos == b.rows[k as int].position,
            q <= b.rows.len(),
            match best {
                Some(p) => {
                    &&& p < q
                    &&& b.rows[p as int].column_id == col
                    &&& b.rows[p as int].position < pos
                    &&& forall|x: int|
                        0 <= x < q && (#[trigger] b.rows[x]).column_id == col && b.rows[x].position
                            < pos ==> tie_key(b.rows[x].position, b.rows[x].id) <= tie_key(
                            b.rows[p as int].position,
                            b.rows[p as int].id,
                        )
                },
                None => forall|x: int|
                    0 <= x < q && (#[trigger] b.rows[x]).column_id == col ==> b.rows[x].position >= pos,
            },
        decreases b.rows.len() - q,
    {
        assert(board.rows@[q as int]@ == b.rows[q as int]);
        let rq = &board.rows[q];
        if rq.column_id == col && rq.position < pos {
            let better = match best {
                Some(p) => tie_key_of(rq.position, rq.id) > tie_key_of(board.rows[p].position, board.rows[p].id),
                None => true,
            };
            if better {
                best = Some(q);
            }
        }
        q = q + 1;
    }
    match best {
        Some(p) => {
            proof {
                assert(is_peer_above(b, k as int, p as int));
                let c = peer_above(b, k as int);
                assert(is_peer_above(b, k as int, c));
                let rc = b.rows[c];
                let rp = b.rows[p as int];
                assert(tie_key(rc.position, rc.id) == tie_key(rp.position, rp.id));
                lemma_tie_key_order(rc.position, rc.id, rp.position, rp.id);
                if c != p {
                    assert(b.rows[c] == b.rows[c] && b.rows[p as int] == b.rows[p as int]);
                }
                lemma_swap_keeps_well_formed(b, k as int, p as int);
            }
            board.swap_positions(k, p);
            Ok(true)
        },
        None => {
            proof {
                if has_peer_above(b, k as int) {
                    let c = peer_above(b, k as int);
                    assert(b.rows[c].column_id == col);
                }
            }
            Ok(false)
        },
    }
}

/// Swaps the todo with the nearest todo below it in its column (the one with
/// the least position above its own, the least id among several at that
/// position); `Ok(false)` when it is the bottom one.
pub fn move_todo_down(board: &mut Board, todo_id: i64) -> (r: Result<bool, DbError>)
    requires
        well_formed(old(board)@),
    ensures
        well_formed(final(board)@),
        !has_row(old(board)@, todo_id) ==> r == Err::<bool, DbError>(DbError::NotFound)
            && final(board)@ == old(board)@,
        has_row(old(board)@, todo_id) && has_peer_below(old(board)@, row_index(old(board)@, todo_id))
            ==> r == Ok::<bool, DbError>(true) && final(board)@ == swapped(
            old(board)@,
            row_index(old(board)@, todo_id),
            peer_below(old(board)@, row_index(old(board)@, todo_id)),
        ),
        has_row(old(board)@, todo_id) && !has_peer_below(old(board)@, row_index(old(board)@, todo_id))
            ==> r == Ok::<bool, DbError>(false) && final(board)@ == old(board)@,
{
    let ghost b = board@;
    let k = match board.find_row(todo_id) {
        Some(k) => k,
        None => {
            return Err(DbError::NotFound);
        },
    };
    proof {
        lemma_row_index(b, k as int);
    }
    let col = board.rows[k].column_id;
    let pos = board.rows[k].position;
    let mut best: Option<usize> = None;
    let mut q: usize = 0;
    while q < board.rows.len()
        invariant
            b == board@,
            k < b.rows.len(),
            col == b.rows[k as int].column_id,
            pos == b.rows[k as int].position,
            q <= b.rows.len(),
            match best {
                Some(p) => {
                    &&& p < q
                    &&& b.rows[p as int].column_id == col
                    &&& b.rows[p as int].position > pos
                    &&& forall|x: int|
                        0 <= x < q && (#[trigger] b.rows[x]).column_id == col && b.rows[x].position
                            > pos ==> tie_key(b.rows[p as int].position, b.rows[p as int].id) <= tie_key(
                            b.rows[x].position,
                            b.rows[x].id,
                        )
                },
                None => forall|x: int|
                    0 <= x < q && (#[trigger] b.rows[x]).column_id == col ==> b.rows[x].position <= pos,
            },
        decreases b.rows.len() - q,
    {
        assert(board.rows@[q as int]@ == b.rows[q as int]);
        let rq = &board.rows[q];
        if rq.column_id == col && rq.position > pos {
            let better = match best {
                Some(p) => tie_key_of(rq.position, rq.id) < tie_key_of(board.rows[p].position, board.rows[p].id),
                None => true,
            };
            if better {
                best = Some(q);
            }
        }
        q = q + 1;
    }
    match best {
        Some(p) => {
            proof {
                assert(is_peer_below(b, k as int, p as int));
                let c = peer_below(b, k as int);
                assert(is_peer_below(b, k as int, c));
                let rc = b.rows[c];
                let rp = b.rows[p as int];
                assert(tie_key(rc.position, rc.id) == tie_key(rp.position, rp.id));
                lemma_tie_key_order(rc.position, rc.id, rp.position, rp.id);
                if c != p {
                    assert(b.rows[c] == b.rows[c] && b.rows[p as int] == b.rows[p as int]);
                }
                lemma_swap_keeps_well_formed(b, k as int, p as int);
            }
            board.swap_positions(k, p);
            Ok(true)
        },
        None => {
            proof {
                if has_peer_below(b, k as int) {
                    let c = peer_below(b, k as int);
                    assert(b.rows[c].column_id == col);
                }
            }
            Ok(false)
        },
    }
}

/// Adds a todo created now (local time) to the named column, or to the
/// first column by position when no name is given.
pub fn add_todo(board: &mut Board, title: &str, column_name: Option<&str>) -> (r: Result<Todo, DbError>)
    requires
        well_formed(old(board)@),
    ensures
        well_formed(final(board)@),
        exists|now: Seq<char>|
            is_timestamp(now) && match #[trigger] add_outcome(old(board)@, title@, name_view(column_name), now) {
                Err(e) => r == Err::<Todo, DbError>(e) && final(board)@ == old(board)@,
                Ok((nb, row)) => final(board)@ == nb && (r matches Ok(t) && t@ == todo_of(nb, row)),
            },
{
    let now = crate::calendar::now_timestamp();
    add_todo_at(board, title, column_name, now.as_str())
}

/// A column that comes first (by position, then id) among the first `n` columns.
pub proof fn lemma_first_column_prefix(b: BoardView, n: int) -> (i: int)
    requires
        0 < n <= b.columns.len(),
    ensures
        0 <= i < n,
        forall|j: int| 0 <= j < n ==> column_key(b.columns[i]) <= column_key(#[trigger] b.columns[j]),
    decreases n,
{
    if n == 1 {
        0
    } else {
        let i = lemma_first_column_prefix(b, n - 1);
        if column_key(b.columns[n - 1]) < column_key(b.columns[i]) {
            n - 1
        } else {
            i
        }
    }
}

/// The column a new todo goes to, when there is one, is a column of the board.
pub proof fn lemma_target_column_in_range(b: BoardView, column: Option<Seq<char>>)
    ensures
        target_column_index(b, column) matches Some(ci) ==> 0 <= ci < b.columns.len(),
        column matches Some(n) ==> (target_column_index(b, column) matches Some(ci) ==> b.columns[ci].name == n),
        column is None ==> (target_column_index(b, column) matches Some(ci) ==> is_first_column(b, ci)),
{
    match column {
        Some(n) => {},
        None => {
            if b.columns.len() > 0 {
                let i = lemma_first_column_prefix(b, b.columns.len() as int);
                assert(is_first_column(b, i));
            }
        },
    }
}

/// Adding a todo keeps the table constraints; the row goes after the others.
pub proof fn lemma_add_keeps_well_formed(b: BoardView, title: Seq<char>, column: Option<Seq<char>>, now: Seq<char>)
    requires
        well_formed(b),
        add_outcome(b, title, column, now) is Ok,
    ensures
        ({
            let (nb, row) = add_outcome(b, title, column, now)->Ok_0;
            &&& well_formed(nb)
            &&& nb.columns == b.columns
            &&& nb.rows == b.rows.push(row)
        }),
{
    lemma_target_column_in_range(b, column);
    let ci = target_column_index(b, column)->0;
    let col = b.columns[ci].id;
    lemma_max_position_bounds(b.rows, col);
    lemma_next_id_free(b);
    let (nb, r) = add_outcome(b, title, column, now)->Ok_0;
    assert(has_column(nb, col)) by {
        assert(nb.columns[ci].id == col);
    }
    assert forall|i: int, j: int|
        #![trigger nb.rows[i], nb.rows[j]]
        0 <= i < nb.rows.len() && 0 <= j < nb.rows.len() && i != j implies nb.rows[i].id
            != nb.rows[j].id by {
        if i < b.rows.len() && j < b.rows.len() {
            assert(nb.rows[i] == b.rows[i] && nb.rows[j] == b.rows[j]);
        } else if i < b.rows.len() {
            assert(nb.rows[i] == b.rows[i]);
        } else {
            assert(nb.rows[j] == b.rows[j]);
        }
    }
    assert forall|i: int| 0 <= i < nb.rows.len() implies has_column(nb, #[trigger] nb.rows[i].column_id) by {
        if i < b.rows.len() {
            assert(nb.rows[i] == b.rows[i]);
            assert(has_column(b, b.rows[i].column_id));
            lemma_has_column_same(b, nb, b.rows[i].column_id);
        }
    }
}

} // verus!
