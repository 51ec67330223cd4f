use kanban::app::{Status, TuiApp};
use kanban::db::{add_todo_at, init_db, list_columns, list_todos, Board};
use kanban::display::{
    ansi_color, column_heading, description_body, due_date_label, group_by_column, header_counts, priority_tag,
    status_text,
};
use kanban::text::int_text;
use kanban::layout::{centered_rect, Area};
use kanban::paths::{data_dir, db_path};

const NOW: &str = "2024-05-01 09:30:00";

#[test]
fn header_counts_per_default_column() {
    let mut board = Board::new();
    init_db(&mut board);
    add_todo_at(&mut board, "a", None, NOW).unwrap();
    add_todo_at(&mut board, "b", None, NOW).unwrap();
    add_todo_at(&mut board, "c", Some("done"), NOW).unwrap();
    let app = TuiApp::load(&board);
    let h = header_counts(&app);
    assert_eq!((h.total, h.backlog, h.todo, h.in_progress, h.done), (3, 2, 0, 0, 1));
}

#[test]
fn headings_tags_and_labels() {
    assert_eq!(column_heading(&"in-progress".to_string()), "⚡ IN PROGRESS");
    assert_eq!(column_heading(&"backlog".to_string()), "📋 BACKLOG");
    assert_eq!(column_heading(&"someday".to_string()), "someday");
    assert_eq!(priority_tag(&"High".to_string()), " [H]");
    assert_eq!(priority_tag(&"Low".to_string()), " [L]");
    assert_eq!(priority_tag(&"Urgent".to_string()), "");
    assert_eq!(due_date_label(&String::new()), "Not set");
    assert_eq!(due_date_label(&"2024-01-01".to_string()), "2024-01-01");
    assert_eq!(description_body(&String::new()), "\n  No description. Press [c] to add one.");
    assert_eq!(description_body(&"notes".to_string()), "notes");
    assert_eq!(ansi_color(&"todo".to_string()), "\x1b[94m");
    assert_eq!(ansi_color(&"misc".to_string()), "\x1b[0m");
}

#[test]
fn listing_groups_by_column_and_skips_empty_ones() {
    let mut board = Board::new();
    init_db(&mut board);
    add_todo_at(&mut board, "a", Some("done"), NOW).unwrap();
    add_todo_at(&mut board, "b", None, NOW).unwrap();
    add_todo_at(&mut board, "c", Some("done"), NOW).unwrap();
    let groups = group_by_column(&list_columns(&board), &list_todos(&board, None));
    let shape: Vec<(String, Vec<i64>)> =
        groups.iter().map(|g| (g.name.clone(), g.todos.iter().map(|t| t.id).collect())).collect();
    assert_eq!(shape, vec![("backlog".to_string(), vec![2]), ("done".to_string(), vec![1, 3])]);
}

#[test]
fn popups_are_centred() {
    let whole = Area { x: 0, y: 0, width: 100, height: 30 };
    let popup = centered_rect(whole, 50, 5);
    assert_ne!(popup, whole);
    assert_eq!(popup.height, 5);
    assert_eq!(popup.width, 50);
    assert_eq!(popup.x, 25);
    assert!(popup.y == 12 || popup.y == 13);
}

#[test]
fn data_directory_choice() {
    assert_eq!(data_dir(Some("/data".to_string()), Some("/l".to_string()), None), "/data");
    assert_eq!(data_dir(None, Some("C:\\Users\\me".to_string()), Some("/h".to_string())), "C:\\Users\\me\\kanban");
    assert_eq!(data_dir(None, None, Some("/home/me".to_string())), "/home/me\\kanban");
    assert_eq!(data_dir(None, None, None), ".\\kanban");
    assert_eq!(db_path("/data"), "/data\\kanban.db");
}

#[test]
fn integers_in_decimal() {
    assert_eq!(int_text(0), "0");
    assert_eq!(int_text(7), "7");
    assert_eq!(int_text(1230), "1230");
    assert_eq!(int_text(-45), "-45");
    assert_eq!(int_text(i64::MAX), "9223372036854775807");
    assert_eq!(int_text(i64::MIN), "-9223372036854775808");
}

#[test]
fn footer_messages() {
    assert_eq!(
        status_text(&Status::Hint),
        "💡 [/] Search | [Shift+Arrows] Move/Sort | [c] Description | [r] Recycle Bin"
    );
    assert_eq!(status_text(&Status::Empty), "");
    assert_eq!(status_text(&Status::MovedUp(12)), " Moved #12 UP");
    assert_eq!(status_text(&Status::MovedDown(3)), " Moved #3 DOWN");
    assert_eq!(status_text(&Status::MovedTo(4, "done".to_string())), " Moved #4 to done");
    assert_eq!(status_text(&Status::PrioritySet(5, "High".to_string())), " Priority of #5 set to High");
    assert_eq!(status_text(&Status::Deleted(6)), " Deleted #6");
    assert_eq!(
        status_text(&Status::DueDateSet("2024-04-15".to_string(), 7)),
        " Due date set to '2024-04-15' for #7"
    );
    assert_eq!(status_text(&Status::Restored(8)), " Restored #8 to board");
    assert_eq!(status_text(&Status::PermanentlyDeleted(9)), " Permanently deleted #9");
    assert_eq!(status_text(&Status::DescriptionUpdated(10)), " Description updated for #10");
    assert_eq!(status_text(&Status::Added(11, "todo".to_string())), " Added #11 to todo");
    assert_eq!(status_text(&Status::TitleUpdated(13)), " Title updated for #13");
    assert_eq!(status_text(&Status::SearchCleared), " Search cleared");
    assert_eq!(status_text(&Status::Filtering("milk".to_string())), " Filtering: 'milk'");
}
