use kanban::db::{
    add_todo, add_todo_at, delete_todo, delete_todo_permanently, get_todo, init_db, list_archived_todos,
    list_columns, list_todos, move_todo, move_todo_down, move_todo_up, restore_todo, update_todo,
    update_todo_description, update_todo_due_date, update_todo_priority, Board, DbError,
};
use kanban::models::{Column, TodoRow};

const NOW: &str = "2024-05-01 09:30:00";

fn fresh_board() -> Board {
    let mut board = Board::new();
    init_db(&mut board);
    board
}

fn ids(todos: &[kanban::models::Todo]) -> Vec<i64> {
    todos.iter().map(|t| t.id).collect()
}

fn row(id: i64, column_id: i64, position: i32) -> TodoRow {
    TodoRow {
        id,
        title: format!("card {}", id),
        column_id,
        position,
        created_at: NOW.to_string(),
        description: String::new(),
        priority: "Medium".to_string(),
        due_date: String::new(),
        archived: false,
    }
}

fn column(id: i64, name: &str, position: i32) -> Column {
    Column { id, name: name.to_string(), position }
}

#[test]
fn init_creates_default_columns_in_order() {
    let board = fresh_board();
    let cols = list_columns(&board);
    let names: Vec<&str> = cols.iter().map(|c| c.name.as_str()).collect();
    assert_eq!(names, vec!["backlog", "todo", "in-progress", "done"]);
    let col_ids: Vec<i64> = cols.iter().map(|c| c.id).collect();
    assert_eq!(col_ids, vec![1, 2, 3, 4]);
}

#[test]
fn init_leaves_existing_columns_alone() {
    let mut board = Board::from_tables(vec![column(7, "later", 5)], vec![]).unwrap();
    init_db(&mut board);
    let cols = list_columns(&board);
    assert_eq!(cols.len(), 1);
    assert_eq!(cols[0].name, "later");
}

#[test]
fn list_columns_orders_by_position() {
    let board = Board::from_tables(
        vec![column(1, "c", 9), column(2, "a", -1), column(3, "b", 4)],
        vec![],
    )
    .unwrap();
    let names: Vec<String> = list_columns(&board).into_iter().map(|c| c.name).collect();
    assert_eq!(names, vec!["a", "b", "c"]);
}

#[test]
fn add_goes_to_first_column_with_defaults() {
    let mut board = fresh_board();
    let t = add_todo_at(&mut board, "Write the spec", None, NOW).unwrap();
    assert_eq!(t.id, 1);
    assert_eq!(t.column_id, 1);
    assert_eq!(t.column_name, "backlog");
    assert_eq!(t.position, 0);
    assert_eq!(t.priority, "Medium");
    assert_eq!(t.description, "");
    assert_eq!(t.due_date, "");
    assert_eq!(t.created_at, NOW);
    assert_eq!(t.title, "Write the spec");
}

#[test]
fn add_to_named_column_appends_at_end() {
    let mut board = fresh_board();
    let a = add_todo_at(&mut board, "a", Some("todo"), NOW).unwrap();
    let b = add_todo_at(&mut board, "b", Some("todo"), NOW).unwrap();
    assert_eq!((a.id, a.column_id, a.position), (1, 2, 0));
    assert_eq!((b.id, b.column_id, b.position), (2, 2, 1));
}

#[test]
fn add_to_unknown_column_is_not_found() {
    let mut board = fresh_board();
    assert_eq!(add_todo_at(&mut board, "x", Some("nope"), NOW), Err(DbError::NotFound));
    assert!(list_todos(&board, None).is_empty());
}

#[test]
fn add_without_columns_is_not_found() {
    let mut board = Board::new();
    assert_eq!(add_todo_at(&mut board, "x", None, NOW), Err(DbError::NotFound));
}

#[test]
fn add_past_the_last_position_overflows() {
    let mut board =
        Board::from_tables(vec![column(1, "backlog", 0)], vec![row(5, 1, i32::MAX)]).unwrap();
    assert_eq!(add_todo_at(&mut board, "x", None, NOW), Err(DbError::PositionOverflow));
    assert_eq!(board.rows_table().len(), 1);
}

#[test]
fn after_the_last_id_the_least_free_id_is_taken() {
    let mut board =
        Board::from_tables(vec![column(1, "backlog", 0)], vec![row(i64::MAX, 1, 0)]).unwrap();
    assert_eq!(add_todo_at(&mut board, "x", None, NOW).unwrap().id, 1);
    let mut board = Board::from_tables(
        vec![column(1, "backlog", 0)],
        vec![row(2, 1, 0), row(i64::MAX, 1, 1), row(1, 1, 2), row(4, 1, 3)],
    )
    .unwrap();
    let t = add_todo_at(&mut board, "x", None, NOW).unwrap();
    assert_eq!((t.id, t.position), (3, 4));
    assert_eq!(add_todo_at(&mut board, "y", None, NOW).unwrap().id, 5);
}

#[test]
fn add_takes_the_next_id_after_the_greatest() {
    let mut board = Board::from_tables(
        vec![column(1, "backlog", 0)],
        vec![row(3, 1, 0), row(41, 1, 7)],
    )
    .unwrap();
    let t = add_todo_at(&mut board, "x", None, NOW).unwrap();
    assert_eq!((t.id, t.position), (42, 8));
}

#[test]
fn add_with_clock_stamps_creation_time() {
    let mut board = fresh_board();
    let t = add_todo(&mut board, "x", None).unwrap();
    assert_eq!(t.created_at.len(), 19);
    assert_eq!(&t.created_at[4..5], "-");
    assert_eq!(&t.created_at[13..14], ":");
}

#[test]
fn get_todo_reads_back_and_reports_missing() {
    let mut board = fresh_board();
    let t = add_todo_at(&mut board, "read me", Some("done"), NOW).unwrap();
    assert_eq!(get_todo(&board, t.id), Ok(t));
    assert_eq!(get_todo(&board, 99), Err(DbError::NotFound));
}

#[test]
fn list_orders_by_column_then_position() {
    let mut board = fresh_board();
    add_todo_at(&mut board, "one", None, NOW).unwrap();
    add_todo_at(&mut board, "two", Some("todo"), NOW).unwrap();
    add_todo_at(&mut board, "three", None, NOW).unwrap();
    add_todo_at(&mut board, "four", Some("done"), NOW).unwrap();
    assert_eq!(ids(&list_todos(&board, None)), vec![1, 3, 2, 4]);
    assert_eq!(ids(&list_todos(&board, Some("backlog"))), vec![1, 3]);
    assert!(list_todos(&board, Some("missing")).is_empty());
}

#[test]
fn move_goes_to_end_of_target_column() {
    let mut board = fresh_board();
    add_todo_at(&mut board, "a", None, NOW).unwrap();
    add_todo_at(&mut board, "b", Some("todo"), NOW).unwrap();
    let moved = move_todo(&mut board, 1, "todo").unwrap().unwrap();
    assert_eq!((moved.column_id, moved.column_name.as_str(), moved.position), (2, "todo", 1));
    assert_eq!(ids(&list_todos(&board, Some("todo"))), vec![2, 1]);
    assert!(list_todos(&board, Some("backlog")).is_empty());
}

#[test]
fn move_within_same_column_goes_to_its_end() {
    let mut board = fresh_board();
    add_todo_at(&mut board, "a", None, NOW).unwrap();
    add_todo_at(&mut board, "b", None, NOW).unwrap();
    let moved = move_todo(&mut board, 1, "backlog").unwrap().unwrap();
    assert_eq!(moved.position, 2);
    assert_eq!(ids(&list_todos(&board, None)), vec![2, 1]);
}

#[test]
fn move_to_unknown_column_or_of_unknown_todo_is_none() {
    let mut board = fresh_board();
    add_todo_at(&mut board, "a", None, NOW).unwrap();
    let before = board.rows_table();
    assert_eq!(move_todo(&mut board, 1, "nowhere"), Ok(None));
    assert_eq!(move_todo(&mut board, 77, "todo"), Ok(None));
    assert_eq!(board.rows_table(), before);
    assert_eq!(list_todos(&board, None)[0].column_id, 1);
}

#[test]
fn move_into_a_full_column_overflows() {
    let mut board = Board::from_tables(
        vec![column(1, "a", 0), column(2, "b", 1)],
        vec![row(1, 1, 0), row(2, 2, i32::MAX)],
    )
    .unwrap();
    assert_eq!(move_todo(&mut board, 1, "b"), Err(DbError::PositionOverflow));
}

#[test]
fn move_up_swaps_with_nearest_above() {
    let mut board = fresh_board();
    add_todo_at(&mut board, "a", None, NOW).unwrap();
    add_todo_at(&mut board, "b", None, NOW).unwrap();
    add_todo_at(&mut board, "c", None, NOW).unwrap();
    assert_eq!(move_todo_up(&mut board, 3), Ok(true));
    assert_eq!(ids(&list_todos(&board, None)), vec![1, 3, 2]);
    assert_eq!(move_todo_up(&mut board, 1), Ok(false));
    assert_eq!(move_todo_up(&mut board, 99), Err(DbError::NotFound));
}

#[test]
fn move_down_swaps_with_nearest_below() {
    let mut board = fresh_board();
    add_todo_at(&mut board, "a", None, NOW).unwrap();
    add_todo_at(&mut board, "b", None, NOW).unwrap();
    assert_eq!(move_todo_down(&mut board, 1), Ok(true));
    assert_eq!(ids(&list_todos(&board, None)), vec![2, 1]);
    assert_eq!(move_todo_down(&mut board, 1), Ok(false));
    assert_eq!(move_todo_down(&mut board, 5), Err(DbError::NotFound));
}

#[test]
fn up_then_down_gives_back_the_board() {
    let mut board = Board::from_tables(
        vec![column(1, "a", 0)],
        vec![row(1, 1, 3), row(2, 1, 10), row(3, 1, 20)],
    )
    .unwrap();
    let before = board.rows_table();
    assert_eq!(move_todo_up(&mut board, 3), Ok(true));
    assert_ne!(board.rows_table(), before);
    assert_eq!(move_todo_down(&mut board, 3), Ok(true));
    assert_eq!(board.rows_table(), before);
}

#[test]
fn archived_cards_still_count_as_neighbours() {
    let mut board = fresh_board();
    add_todo_at(&mut board, "a", None, NOW).unwrap();
    add_todo_at(&mut board, "b", None, NOW).unwrap();
    assert!(delete_todo(&mut board, 1));
    assert_eq!(move_todo_up(&mut board, 2), Ok(true));
    assert_eq!(get_todo(&board, 2).unwrap().position, 0);
}

#[test]
fn delete_moves_to_recycle_bin_and_restore_brings_back() {
    let mut board = fresh_board();
    add_todo_at(&mut board, "a", None, NOW).unwrap();
    add_todo_at(&mut board, "b", None, NOW).unwrap();
    add_todo_at(&mut board, "c", None, NOW).unwrap();
    let before = board.rows_table();
    assert!(delete_todo(&mut board, 2));
    assert!(delete_todo(&mut board, 3));
    assert_eq!(ids(&list_todos(&board, None)), vec![1]);
    assert_eq!(ids(&list_archived_todos(&board)), vec![3, 2]);
    assert_eq!(list_archived_todos(&board)[0].column_name, "backlog");
    assert!(restore_todo(&mut board, 3));
    assert!(restore_todo(&mut board, 2));
    assert_eq!(board.rows_table(), before);
    assert!(list_archived_todos(&board).is_empty());
    assert!(!delete_todo(&mut board, 9));
    assert!(!restore_todo(&mut board, 9));
}

#[test]
fn delete_permanently_removes_the_row() {
    let mut board = fresh_board();
    add_todo_at(&mut board, "a", None, NOW).unwrap();
    assert!(delete_todo_permanently(&mut board, 1));
    assert_eq!(get_todo(&board, 1), Err(DbError::NotFound));
    assert!(!delete_todo_permanently(&mut board, 1));
}

#[test]
fn updates_change_one_field() {
    let mut board = fresh_board();
    add_todo_at(&mut board, "a", None, NOW).unwrap();
    let t = update_todo(&mut board, 1, "renamed").unwrap();
    assert_eq!(t.title, "renamed");
    let t = update_todo_description(&mut board, 1, "line one\nline two").unwrap();
    assert_eq!(t.description, "line one\nline two");
    assert_eq!(t.title, "renamed");
    let t = update_todo_priority(&mut board, 1, "High").unwrap();
    assert_eq!(t.priority, "High");
    let t = update_todo_due_date(&mut board, 1, "2024-12-24").unwrap();
    assert_eq!(t.due_date, "2024-12-24");
    assert_eq!(t.position, 0);
    assert_eq!(update_todo(&mut board, 2, "x"), None);
    assert_eq!(update_todo_description(&mut board, 2, "x"), None);
    assert_eq!(update_todo_priority(&mut board, 2, "x"), None);
    assert_eq!(update_todo_due_date(&mut board, 2, "x"), None);
}

#[test]
fn tables_round_trip() {
    let mut board = fresh_board();
    add_todo_at(&mut board, "a", Some("done"), NOW).unwrap();
    let again = Board::from_tables(board.columns_table(), board.rows_table()).unwrap();
    assert_eq!(again.rows_table(), board.rows_table());
    assert_eq!(again.columns_table(), board.columns_table());
}

#[test]
fn from_tables_checks_constraints() {
    assert!(Board::from_tables(vec![column(1, "a", 0), column(1, "b", 1)], vec![]).is_none());
    assert!(Board::from_tables(vec![column(1, "a", 0), column(2, "a", 1)], vec![]).is_none());
    assert!(Board::from_tables(vec![column(1, "a", 0)], vec![row(1, 2, 0)]).is_none());
    assert!(Board::from_tables(vec![column(1, "a", 0)], vec![row(1, 1, 0), row(1, 1, 1)]).is_none());
    assert!(Board::from_tables(vec![column(1, "a", 0), column(2, "b", 1)], vec![row(1, 1, 0), row(2, 2, 0)])
        .is_some());
}

#[test]
fn tied_positions_are_read_and_ordered_by_id() {
    // Two todos at one position (as two concurrent adds leave them) and two
    // columns at one position.
    let cols = vec![column(2, "b", 0), column(1, "a", 0)];
    let rows = vec![row(7, 1, 3), row(5, 1, 3), row(6, 1, 1), row(9, 2, 0)];
    let mut board = Board::from_tables(cols, rows).unwrap();
    let names: Vec<String> = list_columns(&board).into_iter().map(|c| c.name).collect();
    assert_eq!(names, vec!["a".to_string(), "b".to_string()]);
    assert_eq!(ids(&list_todos(&board, None)), vec![6, 5, 7, 9]);
    // With no name given, a new todo goes to the first column, after the tie.
    let t = add_todo_at(&mut board, "new", None, NOW).unwrap();
    assert_eq!((t.id, t.column_id, t.position), (10, 1, 4));
    // The nearest todo above 10 is the one with the greater id at position 3.
    assert_eq!(move_todo_up(&mut board, 10), Ok(true));
    assert_eq!(get_todo(&board, 7).unwrap().position, 4);
    assert_eq!(get_todo(&board, 10).unwrap().position, 3);
    // The nearest todo below 6 is the one with the lesser id at position 3.
    assert_eq!(move_todo_down(&mut board, 6), Ok(true));
    assert_eq!(get_todo(&board, 5).unwrap().position, 1);
    assert_eq!(get_todo(&board, 6).unwrap().position, 3);
}
