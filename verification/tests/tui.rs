use kanban::app::{
    check_key_fits, editor_content, handle_key, handle_key_at, normal_action, EditorKind, EditorRequest,
    InputMode, Key, KeyCode, NormalAction, Status, TuiApp,
};
use kanban::calendar::{Date, MIN_YEAR};
use kanban::db::{add_todo_at, get_todo, init_db, list_archived_todos, update_todo_description, update_todo_due_date, Board};

const NOW: &str = "2024-05-01 09:30:00";
const TODAY: Date = Date { year: 2024, month: 5, day: 15 };

fn key(c: char) -> Key {
    Key { code: KeyCode::Char(c), shift: false, ctrl: false }
}

fn code(code: KeyCode) -> Key {
    Key { code, shift: false, ctrl: false }
}

fn shifted(code: KeyCode) -> Key {
    Key { code, shift: true, ctrl: false }
}

fn no_lines() -> Vec<String> {
    Vec::new()
}

fn lines(v: &[&str]) -> Vec<String> {
    v.iter().map(|s| s.to_string()).collect()
}

fn press(app: &mut TuiApp, board: &mut Board, k: Key) -> EditorRequest {
    handle_key_at(app, board, k, &no_lines(), TODAY, NOW).unwrap()
}

fn submit(app: &mut TuiApp, board: &mut Board, text: &[&str]) -> EditorRequest {
    handle_key_at(app, board, code(KeyCode::Enter), &lines(text), TODAY, NOW).unwrap()
}

fn board_with_cards() -> Board {
    let mut board = Board::new();
    init_db(&mut board);
    add_todo_at(&mut board, "first", None, NOW).unwrap();
    add_todo_at(&mut board, "second", None, NOW).unwrap();
    add_todo_at(&mut board, "third", Some("todo"), NOW).unwrap();
    board
}

fn column_ids(app: &TuiApp, col: usize) -> Vec<i64> {
    app.columns[col].todos.iter().map(|t| t.id).collect()
}

#[test]
fn load_builds_one_state_per_column() {
    let board = board_with_cards();
    let app = TuiApp::load(&board);
    let names: Vec<&str> = app.columns.iter().map(|c| c.name.as_str()).collect();
    assert_eq!(names, vec!["backlog", "todo", "in-progress", "done"]);
    assert_eq!(column_ids(&app, 0), vec![1, 2]);
    assert_eq!(column_ids(&app, 1), vec![3]);
    assert_eq!(app.focused_col, 0);
    assert_eq!(app.input_mode, InputMode::Normal);
    assert_eq!(app.status, Status::Hint);
    assert!(!app.should_quit);
}

#[test]
fn keys_map_to_actions() {
    assert_eq!(normal_action(key('q')), NormalAction::Quit);
    assert_eq!(normal_action(shifted(KeyCode::Up)), NormalAction::SortUp);
    assert_eq!(normal_action(key('K')), NormalAction::SortUp);
    assert_eq!(normal_action(code(KeyCode::Right)), NormalAction::FocusNext);
    assert_eq!(normal_action(shifted(KeyCode::Right)), NormalAction::MoveRight);
    assert_eq!(normal_action(key('m')), NormalAction::MoveRight);
    assert_eq!(normal_action(code(KeyCode::BackTab)), NormalAction::FocusPrev);
    assert_eq!(normal_action(key('z')), NormalAction::Nothing);
}

#[test]
fn focus_wraps_around_columns() {
    let mut board = board_with_cards();
    let mut app = TuiApp::load(&board);
    press(&mut app, &mut board, code(KeyCode::Left));
    assert_eq!(app.focused_col, 3);
    assert_eq!(app.status, Status::Empty);
    press(&mut app, &mut board, code(KeyCode::Tab));
    assert_eq!(app.focused_col, 0);
}

#[test]
fn selection_wraps_around_cards() {
    let mut board = board_with_cards();
    let mut app = TuiApp::load(&board);
    press(&mut app, &mut board, key('k'));
    assert_eq!(app.columns[0].selected, 1);
    press(&mut app, &mut board, key('j'));
    assert_eq!(app.columns[0].selected, 0);
    press(&mut app, &mut board, key('l'));
    press(&mut app, &mut board, key('l'));
    press(&mut app, &mut board, key('j'));
    assert_eq!(app.columns[2].selected, 0);
}

#[test]
fn quit_key_sets_the_flag() {
    let mut board = board_with_cards();
    let mut app = TuiApp::load(&board);
    press(&mut app, &mut board, key('q'));
    assert!(app.should_quit);
}

#[test]
fn adding_through_the_editor() {
    let mut board = board_with_cards();
    let mut app = TuiApp::load(&board);
    press(&mut app, &mut board, key('l'));
    let req = press(&mut app, &mut board, key('a'));
    assert_eq!(req, EditorRequest::Open(EditorKind::AddTodo, lines(&[""])));
    assert_eq!(app.input_mode, InputMode::Adding);
    let req = press(&mut app, &mut board, key('x'));
    assert_eq!(req, EditorRequest::Forward);
    submit(&mut app, &mut board, &["  buy milk  "]);
    assert_eq!(app.input_mode, InputMode::Normal);
    assert_eq!(app.status, Status::Added(4, "todo".to_string()));
    assert_eq!(column_ids(&app, 1), vec![3, 4]);
    let t = get_todo(&board, 4).unwrap();
    assert_eq!(t.title, "buy milk");
    assert_eq!(t.created_at, NOW);
}

#[test]
fn adding_blank_text_adds_nothing() {
    let mut board = board_with_cards();
    let mut app = TuiApp::load(&board);
    press(&mut app, &mut board, key('a'));
    submit(&mut app, &mut board, &["   ", ""]);
    assert_eq!(app.input_mode, InputMode::Normal);
    assert!(get_todo(&board, 4).is_err());
}

#[test]
fn escape_leaves_an_editor() {
    let mut board = board_with_cards();
    let mut app = TuiApp::load(&board);
    press(&mut app, &mut board, key('e'));
    assert_eq!(app.input_mode, InputMode::EditingTitle);
    press(&mut app, &mut board, code(KeyCode::Esc));
    assert_eq!(app.input_mode, InputMode::Normal);
    assert_eq!(app.edit_todo_id, None);
    assert_eq!(get_todo(&board, 1).unwrap().title, "first");
}

#[test]
fn editing_a_title() {
    let mut board = board_with_cards();
    let mut app = TuiApp::load(&board);
    let req = press(&mut app, &mut board, key('e'));
    assert_eq!(req, EditorRequest::Open(EditorKind::EditTitle, lines(&["first"])));
    assert_eq!(app.edit_todo_id, Some(1));
    submit(&mut app, &mut board, &["renamed"]);
    assert_eq!(app.status, Status::TitleUpdated(1));
    assert_eq!(app.columns[0].todos[0].title, "renamed");
}

#[test]
fn editing_a_description_keeps_line_breaks() {
    let mut board = board_with_cards();
    update_todo_description(&mut board, 1, "one\ntwo");
    let mut app = TuiApp::load(&board);
    let req = press(&mut app, &mut board, key('c'));
    assert_eq!(req, EditorRequest::Open(EditorKind::EditDescription, lines(&["one", "two"])));
    let req = submit(&mut app, &mut board, &["one", "two"]);
    assert_eq!(req, EditorRequest::Forward);
    assert_eq!(app.input_mode, InputMode::EditingDescription);
    let save = Key { code: KeyCode::Char('s'), shift: false, ctrl: true };
    handle_key_at(&mut app, &mut board, save, &lines(&["one", "two", "three ", ""]), TODAY, NOW).unwrap();
    assert_eq!(app.status, Status::DescriptionUpdated(1));
    assert_eq!(app.input_mode, InputMode::Normal);
    assert_eq!(get_todo(&board, 1).unwrap().description, "one\ntwo\nthree");
}

#[test]
fn searching_filters_the_columns() {
    let mut board = board_with_cards();
    update_todo_description(&mut board, 3, "mentions SECOND too");
    let mut app = TuiApp::load(&board);
    let req = press(&mut app, &mut board, key('/'));
    assert_eq!(req, EditorRequest::Open(EditorKind::Search, lines(&[""])));
    submit(&mut app, &mut board, &["Second"]);
    assert_eq!(app.search_query, "Second");
    assert_eq!(app.status, Status::Filtering("Second".to_string()));
    assert_eq!(column_ids(&app, 0), vec![2]);
    assert_eq!(column_ids(&app, 1), vec![3]);
    press(&mut app, &mut board, key('/'));
    submit(&mut app, &mut board, &[""]);
    assert_eq!(app.status, Status::SearchCleared);
    assert_eq!(column_ids(&app, 0), vec![1, 2]);
}

#[test]
fn cycling_priority() {
    let mut board = board_with_cards();
    let mut app = TuiApp::load(&board);
    press(&mut app, &mut board, key('p'));
    assert_eq!(get_todo(&board, 1).unwrap().priority, "High");
    assert_eq!(app.status, Status::PrioritySet(1, "High".to_string()));
    press(&mut app, &mut board, key('p'));
    assert_eq!(get_todo(&board, 1).unwrap().priority, "Low");
    press(&mut app, &mut board, key('p'));
    assert_eq!(get_todo(&board, 1).unwrap().priority, "Medium");
}

#[test]
fn sorting_keeps_the_card_selected() {
    let mut board = board_with_cards();
    let mut app = TuiApp::load(&board);
    press(&mut app, &mut board, key('j'));
    press(&mut app, &mut board, shifted(KeyCode::Up));
    assert_eq!(column_ids(&app, 0), vec![2, 1]);
    assert_eq!(app.columns[0].selected, 0);
    assert_eq!(app.status, Status::MovedUp(2));
    press(&mut app, &mut board, key('J'));
    assert_eq!(column_ids(&app, 0), vec![1, 2]);
    assert_eq!(app.columns[0].selected, 1);
    assert_eq!(app.status, Status::MovedDown(2));
}

#[test]
fn moving_across_follows_the_card() {
    let mut board = board_with_cards();
    let mut app = TuiApp::load(&board);
    press(&mut app, &mut board, key('j'));
    press(&mut app, &mut board, key('m'));
    assert_eq!(app.focused_col, 1);
    assert_eq!(column_ids(&app, 1), vec![3, 2]);
    assert_eq!(app.columns[1].selected, 1);
    assert_eq!(app.status, Status::MovedTo(2, "todo".to_string()));
    press(&mut app, &mut board, key('H'));
    assert_eq!(app.focused_col, 0);
    assert_eq!(column_ids(&app, 0), vec![1, 2]);
    press(&mut app, &mut board, shifted(KeyCode::Left));
    assert_eq!(app.focused_col, 3);
    assert_eq!(column_ids(&app, 3), vec![2]);
}

#[test]
fn deleting_and_restoring_through_the_recycle_bin() {
    let mut board = board_with_cards();
    let mut app = TuiApp::load(&board);
    press(&mut app, &mut board, key('d'));
    assert_eq!(app.status, Status::Deleted(1));
    assert_eq!(column_ids(&app, 0), vec![2]);
    press(&mut app, &mut board, key('d'));
    press(&mut app, &mut board, key('r'));
    assert_eq!(app.input_mode, InputMode::RecycleBin);
    let bin: Vec<i64> = app.recycle_bin_todos.iter().map(|t| t.id).collect();
    assert_eq!(bin, vec![2, 1]);
    press(&mut app, &mut board, key('k'));
    assert_eq!(app.recycle_bin_selected, 1);
    press(&mut app, &mut board, code(KeyCode::Enter));
    assert_eq!(app.status, Status::Restored(1));
    assert_eq!(column_ids(&app, 0), vec![1]);
    assert_eq!(app.recycle_bin_selected, 0);
    press(&mut app, &mut board, key('d'));
    assert_eq!(app.status, Status::PermanentlyDeleted(2));
    assert_eq!(app.input_mode, InputMode::Normal);
    assert!(list_archived_todos(&board).is_empty());
    assert!(get_todo(&board, 2).is_err());
}

#[test]
fn closing_the_recycle_bin() {
    let mut board = board_with_cards();
    let mut app = TuiApp::load(&board);
    press(&mut app, &mut board, key('d'));
    press(&mut app, &mut board, key('r'));
    press(&mut app, &mut board, code(KeyCode::Esc));
    assert_eq!(app.input_mode, InputMode::Normal);
    assert!(app.recycle_bin_todos.is_empty());
}

#[test]
fn picking_a_due_date() {
    let mut board = board_with_cards();
    let mut app = TuiApp::load(&board);
    press(&mut app, &mut board, key('t'));
    assert_eq!(app.input_mode, InputMode::EditingDueDate);
    assert_eq!(app.due_date_picker, Some(TODAY));
    press(&mut app, &mut board, key('l'));
    press(&mut app, &mut board, code(KeyCode::Down));
    assert_eq!(app.due_date_picker, Some(Date { year: 2024, month: 5, day: 23 }));
    press(&mut app, &mut board, key(']'));
    assert_eq!(app.due_date_picker, Some(Date { year: 2024, month: 6, day: 23 }));
    press(&mut app, &mut board, code(KeyCode::PageUp));
    press(&mut app, &mut board, key('['));
    assert_eq!(app.due_date_picker, Some(Date { year: 2024, month: 4, day: 23 }));
    press(&mut app, &mut board, key('k'));
    press(&mut app, &mut board, key('h'));
    assert_eq!(app.due_date_picker, Some(Date { year: 2024, month: 4, day: 15 }));
    press(&mut app, &mut board, code(KeyCode::Enter));
    assert_eq!(app.input_mode, InputMode::Normal);
    assert_eq!(app.due_date_picker, None);
    assert_eq!(app.status, Status::DueDateSet("2024-04-15".to_string(), 1));
    assert_eq!(get_todo(&board, 1).unwrap().due_date, "2024-04-15");
}

#[test]
fn picker_starts_on_the_stored_date_and_today_key() {
    let mut board = board_with_cards();
    update_todo_due_date(&mut board, 1, "2030-01-02");
    let mut app = TuiApp::load(&board);
    press(&mut app, &mut board, key('t'));
    assert_eq!(app.due_date_picker, Some(Date { year: 2030, month: 1, day: 2 }));
    press(&mut app, &mut board, key('T'));
    assert_eq!(app.due_date_picker, Some(TODAY));
    press(&mut app, &mut board, code(KeyCode::Esc));
    assert_eq!(app.input_mode, InputMode::Normal);
    assert_eq!(get_todo(&board, 1).unwrap().due_date, "2030-01-02");
}

#[test]
fn picker_keys_at_the_first_date_do_not_fit() {
    let board = board_with_cards();
    let mut app = TuiApp::load(&board);
    app.input_mode = InputMode::EditingDueDate;
    app.due_date_picker = Some(Date { year: MIN_YEAR, month: 1, day: 1 });
    assert!(!check_key_fits(&app, key('h')));
    assert!(!check_key_fits(&app, key('k')));
    assert!(!check_key_fits(&app, key('[')));
    assert!(check_key_fits(&app, key('l')));
    assert!(check_key_fits(&app, key(']')));
}

#[test]
fn keys_on_an_empty_column_do_nothing_to_the_board() {
    let mut board = board_with_cards();
    let mut app = TuiApp::load(&board);
    press(&mut app, &mut board, key('l'));
    press(&mut app, &mut board, key('l'));
    let before = board.rows_table();
    for c in ['d', 'p', 'e', 'c', 't', 'K', 'J', 'm', 'H'] {
        assert_eq!(press(&mut app, &mut board, key(c)), EditorRequest::Keep);
    }
    assert_eq!(board.rows_table(), before);
    assert_eq!(app.input_mode, InputMode::Normal);
}

#[test]
fn handle_key_with_the_clock_adds_todos() {
    let mut board = board_with_cards();
    let mut app = TuiApp::load(&board);
    handle_key(&mut app, &mut board, key('a'), &no_lines()).unwrap();
    handle_key(&mut app, &mut board, code(KeyCode::Enter), &lines(&["clocked"])).unwrap();
    assert_eq!(get_todo(&board, 4).unwrap().created_at.len(), 19);
    app.handle_key(&mut board, key('q'), &no_lines()).unwrap();
    assert!(app.should_quit);
}

#[test]
fn editor_content_is_joined_and_trimmed() {
    assert_eq!(editor_content(&lines(&["  a", "b  ", ""])), "a\nb");
    assert_eq!(editor_content(&lines(&[""])), "");
}

fn pick_and_save(date: Date) -> String {
    let mut board = board_with_cards();
    let mut app = TuiApp::load(&board);
    press(&mut app, &mut board, key('t'));
    app.due_date_picker = Some(date);
    press(&mut app, &mut board, code(KeyCode::Enter));
    get_todo(&board, 1).unwrap().due_date
}

#[test]
fn saved_due_dates_use_year_month_day() {
    assert_eq!(pick_and_save(Date { year: 2024, month: 3, day: 5 }), "2024-03-05");
    assert_eq!(pick_and_save(Date { year: 987, month: 11, day: 20 }), "0987-11-20");
    assert_eq!(pick_and_save(Date { year: -1, month: 1, day: 1 }), "-0001-01-01");
    assert_eq!(pick_and_save(Date { year: 12345, month: 6, day: 7 }), "+12345-06-07");
}

#[test]
fn picker_falls_back_to_today_on_unreadable_dates() {
    for stored in ["2023-02-29", "soon", "2024-3-5x"] {
        let mut board = board_with_cards();
        update_todo_due_date(&mut board, 1, stored);
        let mut app = TuiApp::load(&board);
        press(&mut app, &mut board, key('t'));
        assert_eq!(app.due_date_picker, Some(TODAY));
    }
    let mut board = board_with_cards();
    update_todo_due_date(&mut board, 1, "2024-03-05");
    let mut app = TuiApp::load(&board);
    press(&mut app, &mut board, key('t'));
    assert_eq!(app.due_date_picker, Some(Date { year: 2024, month: 3, day: 5 }));
}

#[test]
fn search_ignores_case_beyond_ascii() {
    let mut board = Board::new();
    init_db(&mut board);
    add_todo_at(&mut board, "MiXeD Ünï", None, NOW).unwrap();
    add_todo_at(&mut board, "hello", None, NOW).unwrap();
    let mut app = TuiApp::load(&board);
    press(&mut app, &mut board, key('/'));
    submit(&mut app, &mut board, &["mixed ÜNÏ"]);
    assert_eq!(column_ids(&app, 0), vec![1]);
    press(&mut app, &mut board, key('/'));
    submit(&mut app, &mut board, &["hello!"]);
    assert_eq!(column_ids(&app, 0), Vec::<i64>::new());
    press(&mut app, &mut board, key('/'));
    submit(&mut app, &mut board, &["LL"]);
    assert_eq!(column_ids(&app, 0), vec![2]);
}

#[test]
fn handle_key_opens_the_picker_on_today() {
    let mut board = board_with_cards();
    let mut app = TuiApp::load(&board);
    handle_key(&mut app, &mut board, key('t'), &no_lines()).unwrap();
    let t = app.due_date_picker.unwrap();
    assert!((1..=12).contains(&t.month));
    assert!(t.day >= 1 && t.day <= kanban::calendar::days_in_month(t.year, t.month));
}

#[test]
fn focus_and_selection_there_and_back() {
    let mut board = board_with_cards();
    let mut app = TuiApp::load(&board);
    press(&mut app, &mut board, key('j'));
    let before = board.rows_table();
    for (there, back) in [(KeyCode::Tab, KeyCode::BackTab), (KeyCode::Down, KeyCode::Up)] {
        let focused = app.focused_col;
        let selected = app.columns[focused].selected;
        press(&mut app, &mut board, code(there));
        press(&mut app, &mut board, code(back));
        assert_eq!(app.focused_col, focused);
        assert_eq!(app.columns[focused].selected, selected);
        assert_eq!(app.status, Status::Empty);
    }
    press(&mut app, &mut board, code(KeyCode::Left));
    press(&mut app, &mut board, code(KeyCode::Tab));
    assert_eq!(app.focused_col, 0);
    assert_eq!(board.rows_table(), before);
}

#[test]
fn picker_moves_there_and_back() {
    let mut board = board_with_cards();
    let mut app = TuiApp::load(&board);
    press(&mut app, &mut board, key('t'));
    let start = app.due_date_picker;
    for (there, back) in [
        (KeyCode::Left, KeyCode::Right),
        (KeyCode::Right, KeyCode::Left),
        (KeyCode::Up, KeyCode::Down),
        (KeyCode::Down, KeyCode::Up),
        (KeyCode::Char(']'), KeyCode::Char('[')),
    ] {
        press(&mut app, &mut board, code(there));
        press(&mut app, &mut board, code(back));
        assert_eq!(app.due_date_picker, start);
    }
}

#[test]
fn focus_left_wraps_to_the_last_column() {
    let mut board = board_with_cards();
    let mut app = TuiApp::load(&board);
    for (k, want) in [(code(KeyCode::BackTab), 3), (key('h'), 2), (code(KeyCode::Left), 1), (key('h'), 0)] {
        press(&mut app, &mut board, k);
        assert_eq!(app.focused_col, want);
        assert_eq!(app.status, Status::Empty);
    }
}
