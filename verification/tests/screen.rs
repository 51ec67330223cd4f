use kanban::app::{InputMode, Status, TuiApp};
use kanban::calendar::Date;
use kanban::db::{add_todo_at, init_db, list_todos, Board};
use kanban::screen::{
    bin_entry, card_lines, column_frame, column_title, footer, header_date, highlighted_card, id_label, list_entry,
    list_heading, picker_days, picker_heading, popup, priority_label, search_label, Border, DayMark, Footer, Popup,
    PopupKind,
};

const NOW: &str = "2024-05-01 09:30:00";

fn d(year: i32, month: u32, day: u32) -> Date {
    Date { year, month, day }
}

fn app_with_a_card() -> (Board, TuiApp) {
    let mut board = Board::new();
    init_db(&mut board);
    add_todo_at(&mut board, "milk", None, NOW).unwrap();
    let app = TuiApp::load(&board);
    (board, app)
}

#[test]
fn ids_and_titles() {
    assert_eq!(id_label(42), "#42 ");
    assert_eq!(id_label(-3), "#-3 ");
    assert_eq!(column_title(&"in-progress".to_string(), 3), " ⚡ IN PROGRESS (3) ");
    assert_eq!(column_title(&"later".to_string(), 0), " later (0) ");
}

#[test]
fn card_lines_lead_with_the_id_then_spaces() {
    let lines = card_lines(12, "hello world foo", 11);
    let pairs: Vec<(String, String)> = lines.into_iter().map(|l| (l.lead, l.text)).collect();
    assert_eq!(
        pairs,
        vec![("#12 ".to_string(), "hello world".to_string()), ("    ".to_string(), "foo".to_string())]
    );
    assert!(card_lines(1, "", 10).is_empty());
}

#[test]
fn footer_choice() {
    let (_board, mut app) = app_with_a_card();
    assert_eq!(
        footer(&app),
        Footer::Status("💡 [/] Search | [Shift+Arrows] Move/Sort | [c] Description | [r] Recycle Bin".to_string())
    );
    app.status = Status::Empty;
    assert_eq!(footer(&app), Footer::KeyHints);
    app.input_mode = InputMode::Adding;
    assert_eq!(footer(&app), Footer::EditorKeys);
}

#[test]
fn search_label_shows_while_searching_or_filtering() {
    let (_board, mut app) = app_with_a_card();
    assert_eq!(search_label(&app), "");
    app.input_mode = InputMode::Searching;
    assert_eq!(search_label(&app), "🔍 Search:  ");
    app.input_mode = InputMode::Normal;
    app.search_query = "milk".to_string();
    assert_eq!(search_label(&app), "🔍 Search: milk ");
}

#[test]
fn dates_in_the_header_and_picker() {
    assert_eq!(header_date(d(2024, 5, 1)), "Wednesday, 2024-05-01");
    assert_eq!(header_date(d(2024, 5, 12)), "Sunday, 2024-05-12");
    assert_eq!(picker_heading(d(2024, 5, 1)), "◄  May 2024  ►");
    assert_eq!(picker_heading(d(-5, 12, 1)), "◄  December -5  ►");
}

#[test]
fn picker_days_mark_selected_and_today() {
    let cells = picker_days(d(2024, 5, 1), d(2024, 4, 30));
    let labels: Vec<&str> = cells.iter().map(|c| c.label.as_str()).collect();
    assert_eq!(labels, vec![" 28 ", " 29 ", " 30 ", "  1 ", "  2 ", "  3 ", "  4 "]);
    let marks: Vec<DayMark> = cells.iter().map(|c| c.mark).collect();
    assert_eq!(
        marks,
        vec![
            DayMark::Plain,
            DayMark::Plain,
            DayMark::Today,
            DayMark::Selected,
            DayMark::Plain,
            DayMark::Plain,
            DayMark::Plain
        ]
    );
}

#[test]
fn labels_for_details_bin_and_listing() {
    let (board, _app) = app_with_a_card();
    let t = &list_todos(&board, None)[0];
    assert_eq!(priority_label(&"Medium".to_string()), "[MEDIUM]");
    assert_eq!(bin_entry(t), "#1 milk (original: backlog)");
    assert_eq!(list_heading(&"in-progress".to_string()), "\x1b[93mIN-PROGRESS\x1b[0m");
    assert_eq!(list_entry(&"backlog".to_string(), t), "  \x1b[90m#1   \x1b[0m milk");
    assert_eq!(list_heading(&"other".to_string()), "\x1b[0mOTHER\x1b[0m");
}

#[test]
fn popups_by_mode() {
    assert_eq!(popup(InputMode::Normal), None);
    assert_eq!(popup(InputMode::EditingDueDate), Some(Popup { kind: PopupKind::DatePicker, width_pct: 60, height: 6 }));
    assert_eq!(popup(InputMode::RecycleBin), Some(Popup { kind: PopupKind::RecycleBin, width_pct: 60, height: 12 }));
    assert_eq!(
        popup(InputMode::EditingDescription),
        Some(Popup { kind: PopupKind::TextEditor, width_pct: 70, height: 10 })
    );
    for mode in [InputMode::Adding, InputMode::EditingTitle, InputMode::Searching] {
        assert_eq!(popup(mode), Some(Popup { kind: PopupKind::TextEditor, width_pct: 50, height: 5 }));
    }
}

#[test]
fn highlight_and_frame_of_columns() {
    let (_board, app) = app_with_a_card();
    assert_eq!(highlighted_card(&app.columns[0]), Some(0));
    assert_eq!(highlighted_card(&app.columns[1]), None);
    assert_eq!(column_frame(true).border, Border::Thick);
    assert!(column_frame(true).bold);
    assert_eq!(column_frame(false).border, Border::Plain);
    assert!(!column_frame(false).bold);
}
