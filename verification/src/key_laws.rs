use vstd::prelude::*;

use crate::app::{
    app_ok, key_fits, key_step, reload_with, row_of, selected_todo, bin_selected, with_status, AppView,
    EditorKind, EditorRequestView, InputMode, Key, KeyCode, StatusView,
};
use crate::calendar::{days_after, days_before, month_earlier, month_later, next_day, prev_day, ymd_text, Date};
use crate::db::{
    edited, has_peer_above, has_peer_below, has_row, move_outcome, peer_above, peer_below, row_index, swapped,
    BoardView, DbError,
};
use crate::models::{ColumnView, RowView, TodoView};
use crate::text::{has_substring, lowercase};

verus! {

// ------------------------------------------------------------------------
// Searching
// ------------------------------------------------------------------------

/// After a reload, a column shows exactly the listed todos of that column
/// whose lowercased title or lowercased description contains the lowercased
/// search query (every todo of the column when the query is empty). No other
/// field of a todo takes part in the match.
pub proof fn lemma_reload_matches_title_or_description(a: AppView, all: Seq<TodoView>, i: int, t: TodoView)
    requires
        0 <= i < a.columns.len(),
    ensures
        reload_with(a, all).columns[i].todos.contains(t) <==> {
            &&& all.contains(t)
            &&& t.column_id == a.columns[i].id
            &&& {
                let q = lowercase(a.search_query);
                ||| q.len() == 0
                ||| has_substring(lowercase(t.title), q)
                ||| has_substring(lowercase(t.description), q)
            }
        },
{
    let q = lowercase(a.search_query);
    let c = a.columns[i];
    let pred = |x: TodoView| x.column_id == c.id && crate::app::matches_query(x, q);
    let shown = all.filter(pred);
    assert(reload_with(a, all).columns[i].todos == shown);
    if shown.contains(t) {
        all.lemma_filter_contains_rev(pred, t);
        all.filter_lemma(pred);
        let k = choose|k: int| 0 <= k < shown.len() && shown[k] == t;
        assert(pred(shown[k]));
    }
    if all.contains(t) && pred(t) {
        let k = choose|k: int| 0 <= k < all.len() && all[k] == t;
        all.lemma_filter_contains(pred, k);
    }
}

/// Two todos that differ only in fields other than title and description are
/// both shown or both hidden after a reload, provided both belong to the column.
pub proof fn lemma_reload_ignores_other_fields(a: AppView, all: Seq<TodoView>, i: int, t1: TodoView, t2: TodoView)
    requires
        0 <= i < a.columns.len(),
        all.contains(t1),
        all.contains(t2),
        t1.column_id == t2.column_id,
        t1.title == t2.title,
        t1.description == t2.description,
    ensures
        reload_with(a, all).columns[i].todos.contains(t1) <==> reload_with(a, all).columns[i].todos.contains(t2),
{
    lemma_reload_matches_title_or_description(a, all, i, t1);
    lemma_reload_matches_title_or_description(a, all, i, t2);
}

/// After a reload, each column keeps its selection when it still falls on a
/// card, moves it to the last card when the list got shorter, and leaves it
/// alone when the list is empty.
pub proof fn lemma_reload_keeps_selection(a: AppView, all: Seq<TodoView>, i: int)
    requires
        0 <= i < a.columns.len(),
    ensures
        ({
            let c = reload_with(a, all).columns[i];
            let s = a.columns[i].selected;
            &&& c.todos.len() == 0 || s < c.todos.len() ==> c.selected == s
            &&& c.todos.len() > 0 && s >= c.todos.len() ==> c.selected == c.todos.len() - 1
            &&& c.id == a.columns[i].id
            &&& c.name == a.columns[i].name
        }),
{
}

/// Opening the interface on a board: one column per column of the board, in
/// listing order, each showing every listed todo of that column in listing
/// order with the first one selected; the first column has the focus, nothing
/// is searched, nothing is open, and the footer shows the key hints.
pub proof fn lemma_opening_state(cols: Seq<ColumnView>, all: Seq<TodoView>, i: int, t: TodoView)
    requires
        0 <= i < cols.len(),
    ensures
        ({
            let a = crate::app::initial_app(cols, all);
            &&& a.columns.len() == cols.len()
            &&& a.columns[i].id == cols[i].id
            &&& a.columns[i].name == cols[i].name
            &&& a.columns[i].selected == 0
            &&& (a.columns[i].todos.contains(t) <==> all.contains(t) && t.column_id == cols[i].id)
            &&& a.focused_col == 0
            &&& a.input_mode == InputMode::Normal
            &&& a.search_query.len() == 0
            &&& a.due_date_picker is None
            &&& a.edit_todo_id is None
            &&& !a.should_quit
            &&& a.status == StatusView::Hint
        }),
{
    let a = crate::app::initial_app(cols, all);
    let pred = |x: TodoView| x.column_id == cols[i].id && crate::app::matches_query(x, Seq::empty());
    let shown = all.filter(pred);
    assert(a.columns[i].todos == shown);
    if shown.contains(t) {
        all.lemma_filter_contains_rev(pred, t);
        all.filter_lemma(pred);
        let k = choose|k: int| 0 <= k < shown.len() && shown[k] == t;
        assert(pred(shown[k]));
    }
    if all.contains(t) && t.column_id == cols[i].id {
        let k = choose|k: int| 0 <= k < all.len() && all[k] == t;
        all.lemma_filter_contains(pred, k);
    }
}

/// The level of a priority: Low, Medium, High.
pub open spec fn priority_level(p: Seq<char>) -> int {
    if p == "Low"@ {
        0
    } else if p == "Medium"@ {
        1
    } else if p == "High"@ {
        2
    } else {
        -1
    }
}

/// Cycling a priority raises it one level, from High back to Low; an unknown
/// priority becomes Low.
pub proof fn lemma_priority_steps_up(p: Seq<char>)
    ensures
        priority_level(p) >= 0 ==> priority_level(crate::app::next_priority(p)) == (priority_level(p) + 1) % 3,
        priority_level(p) < 0 ==> priority_level(crate::app::next_priority(p)) == 0,
{
    reveal_strlit("Low");
    reveal_strlit("Medium");
    reveal_strlit("High");
    assert("Low"@[0] != "Medium"@[0]);
    assert("Low"@[0] != "High"@[0]);
    assert("Medium"@[0] != "High"@[0]);
}

// ------------------------------------------------------------------------
// Keys on the board
// ------------------------------------------------------------------------

/// Shift+Down or `J` swaps the selected todo with its nearest peer below in
/// the board (and nothing when it has none); the footer then says it moved down.
pub proof fn lemma_sort_down_keys(
    pre: AppView,
    b: BoardView,
    key: Key,
    lines: Seq<Seq<char>>,
    today: Date,
    now: Seq<char>,
    post: AppView,
    nb: BoardView,
    r: Result<EditorRequestView, DbError>,
    t: TodoView,
)
    requires
        app_ok(pre),
        pre.input_mode == InputMode::Normal,
        (key.shift && key.code == KeyCode::Down) || key.code == KeyCode::Char('J'),
        selected_todo(pre) == Some(t),
        has_row(b, t.id),
        key_step(pre, b, key, lines, today, now, post, nb, r),
    ensures
        has_peer_below(b, row_index(b, t.id)) ==> nb == swapped(b, row_index(b, t.id), peer_below(b, row_index(b, t.id)))
            && post.status == StatusView::MovedDown(t.id),
        !has_peer_below(b, row_index(b, t.id)) ==> nb == b && post == pre,
{
    let k = row_index(b, t.id);
    if has_peer_below(b, k) {
        let mid = with_status(pre, StatusView::MovedDown(t.id));
        let all = choose|all: Seq<TodoView>|
            crate::db::is_todo_listing(nb, None, all) && post == crate::app::selection_down(reload_with(mid, all));
        assert(post == crate::app::selection_down(reload_with(mid, all)));
    }
}

/// Shift+Up or `K` swaps the selected todo with its nearest peer above in the
/// board (and nothing when it has none); the footer then says it moved up.
pub proof fn lemma_sort_up_keys(
    pre: AppView,
    b: BoardView,
    key: Key,
    lines: Seq<Seq<char>>,
    today: Date,
    now: Seq<char>,
    post: AppView,
    nb: BoardView,
    r: Result<EditorRequestView, DbError>,
    t: TodoView,
)
    requires
        app_ok(pre),
        pre.input_mode == InputMode::Normal,
        (key.shift && key.code == KeyCode::Up) || key.code == KeyCode::Char('K'),
        selected_todo(pre) == Some(t),
        has_row(b, t.id),
        key_step(pre, b, key, lines, today, now, post, nb, r),
    ensures
        has_peer_above(b, row_index(b, t.id)) ==> nb == swapped(b, row_index(b, t.id), peer_above(b, row_index(b, t.id)))
            && post.status == StatusView::MovedUp(t.id),
        !has_peer_above(b, row_index(b, t.id)) ==> nb == b && post == pre,
{
    let k = row_index(b, t.id);
    if has_peer_above(b, k) {
        let mid = with_status(pre, StatusView::MovedUp(t.id));
        let all = choose|all: Seq<TodoView>|
            crate::db::is_todo_listing(nb, None, all) && post == crate::app::selection_up(reload_with(mid, all));
        assert(post == crate::app::selection_up(reload_with(mid, all)));
    }
}

/// Shift+Right, `L` or `m` moves the selected todo to the next column
/// (wrapping from the last to the first), which then gets the focus; the
/// footer names that column.
pub proof fn lemma_move_right_keys(
    pre: AppView,
    b: BoardView,
    key: Key,
    lines: Seq<Seq<char>>,
    today: Date,
    now: Seq<char>,
    post: AppView,
    nb: BoardView,
    r: Result<EditorRequestView, DbError>,
    t: TodoView,
)
    requires
        app_ok(pre),
        pre.columns.len() <= usize::MAX,
        pre.input_mode == InputMode::Normal,
        (key.shift && key.code == KeyCode::Right) || key.code == KeyCode::Char('L') || key.code == KeyCode::Char('m'),
        selected_todo(pre) == Some(t),
        key_step(pre, b, key, lines, today, now, post, nb, r),
    ensures
        ({
            let next = (pre.focused_col + 1) % (pre.columns.len() as int);
            let name = pre.columns[next].name;
            match move_outcome(b, t.id, name) {
                Err(e) => r == Err::<EditorRequestView, DbError>(e) && nb == b && post == pre,
                Ok(o) => {
                    &&& nb == (match o {
                        None => b,
                        Some((moved, _)) => moved,
                    })
                    &&& post.focused_col == next
                    &&& post.status == StatusView::MovedTo(t.id, name)
                },
            }
        }),
{
    lemma_move_across_result(pre, b, crate::app::next_column(pre), post, nb, r, t);
}

/// Shift+Left or `H` moves the selected todo to the previous column
/// (wrapping from the first to the last), which then gets the focus; the
/// footer names that column.
pub proof fn lemma_move_left_keys(
    pre: AppView,
    b: BoardView,
    key: Key,
    lines: Seq<Seq<char>>,
    today: Date,
    now: Seq<char>,
    post: AppView,
    nb: BoardView,
    r: Result<EditorRequestView, DbError>,
    t: TodoView,
)
    requires
        app_ok(pre),
        pre.columns.len() <= usize::MAX,
        pre.input_mode == InputMode::Normal,
        (key.shift && key.code == KeyCode::Left) || key.code == KeyCode::Char('H'),
        selected_todo(pre) == Some(t),
        key_step(pre, b, key, lines, today, now, post, nb, r),
    ensures
        ({
            let next = (pre.focused_col + pre.columns.len() - 1) % (pre.columns.len() as int);
            let name = pre.columns[next].name;
            match move_outcome(b, t.id, name) {
                Err(e) => r == Err::<EditorRequestView, DbError>(e) && nb == b && post == pre,
                Ok(o) => {
                    &&& nb == (match o {
                        None => b,
                        Some((moved, _)) => moved,
                    })
                    &&& post.focused_col == next
                    &&& post.status == StatusView::MovedTo(t.id, name)
                },
            }
        }),
{
    let n = pre.columns.len() as int;
    let f = pre.focused_col as int;
    if f == 0 {
        vstd::arithmetic::div_mod::lemma_small_mod((n - 1) as nat, n as nat);
    } else {
        vstd::arithmetic::div_mod::lemma_mod_add_multiples_vanish(f - 1, n);
        vstd::arithmetic::div_mod::lemma_small_mod((f - 1) as nat, n as nat);
        assert(f + n - 1 == n + (f - 1));
    }
    lemma_move_across_result(pre, b, crate::app::prev_column(pre), post, nb, r, t);
}

proof fn lemma_move_across_result(
    pre: AppView,
    b: BoardView,
    next: usize,
    post: AppView,
    nb: BoardView,
    r: Result<EditorRequestView, DbError>,
    t: TodoView,
)
    requires
        app_ok(pre),
        next < pre.columns.len(),
        selected_todo(pre) == Some(t),
        crate::app::move_across_step(pre, b, next, post, nb, r),
    ensures
        ({
            let name = pre.columns[next as int].name;
            match move_outcome(b, t.id, name) {
                Err(e) => r == Err::<EditorRequestView, DbError>(e) && nb == b && post == pre,
                Ok(o) => {
                    &&& nb == (match o {
                        None => b,
                        Some((moved, _)) => moved,
                    })
                    &&& post.focused_col == next
                    &&& post.status == StatusView::MovedTo(t.id, name)
                },
            }
        }),
{
    let name = pre.columns[next as int].name;
    if move_outcome(b, t.id, name) is Ok {
        let mid = with_status(pre, StatusView::MovedTo(t.id, name));
        let all = choose|all: Seq<TodoView>|
            crate::db::is_todo_listing(nb, None, all) && post == crate::app::follow_moved(
                reload_with(mid, all),
                next,
                t.id,
            );
        assert(post == crate::app::follow_moved(reload_with(mid, all), next, t.id));
    }
}

/// Tab, Right (without Shift) or `l` moves the focus one column to the right,
/// from the last column to the first; only the footer message is cleared.
pub proof fn lemma_focus_right_keys(
    pre: AppView,
    b: BoardView,
    key: Key,
    lines: Seq<Seq<char>>,
    today: Date,
    now: Seq<char>,
    post: AppView,
    nb: BoardView,
    r: Result<EditorRequestView, DbError>,
)
    requires
        app_ok(pre),
        pre.columns.len() <= usize::MAX,
        pre.input_mode == InputMode::Normal,
        key.code == KeyCode::Tab || (!key.shift && key.code == KeyCode::Right) || key.code == KeyCode::Char('l'),
        key_step(pre, b, key, lines, today, now, post, nb, r),
    ensures
        post.focused_col as int == (pre.focused_col + 1) % (pre.columns.len() as int),
        post == (AppView { focused_col: post.focused_col, ..with_status(pre, StatusView::Empty) }),
        nb == b,
{
}

/// Down (without Shift) or `j` selects the next card of the focused column,
/// from the last card to the first; Up (without Shift) or `k` the previous
/// one, from the first card to the last.
pub proof fn lemma_select_keys(
    pre: AppView,
    b: BoardView,
    key: Key,
    lines: Seq<Seq<char>>,
    today: Date,
    now: Seq<char>,
    post: AppView,
    nb: BoardView,
    r: Result<EditorRequestView, DbError>,
)
    requires
        app_ok(pre),
        pre.input_mode == InputMode::Normal,
        pre.columns[pre.focused_col as int].todos.len() > 0,
        pre.columns[pre.focused_col as int].todos.len() <= usize::MAX,
        (!key.shift && (key.code == KeyCode::Down || key.code == KeyCode::Up)) || key.code == KeyCode::Char('j')
            || key.code == KeyCode::Char('k'),
        key_step(pre, b, key, lines, today, now, post, nb, r),
    ensures
        ({
            let f = pre.focused_col as int;
            let s = pre.columns[f].selected as int;
            let len = pre.columns[f].todos.len() as int;
            &&& key.code == KeyCode::Down || key.code == KeyCode::Char('j') ==> post.columns[f].selected == (s + 1) % len
            &&& key.code == KeyCode::Up || key.code == KeyCode::Char('k') ==> post.columns[f].selected == (if s == 0 {
                len - 1
            } else {
                s - 1
            })
        }),
        post.focused_col == pre.focused_col,
        post.status == StatusView::Empty,
        nb == b,
{
    let f = pre.focused_col as int;
    let s = pre.columns[f].selected as int;
    let len = pre.columns[f].todos.len() as int;
    if s + 1 < len {
        vstd::arithmetic::div_mod::lemma_small_mod((s + 1) as nat, len as nat);
    } else {
        vstd::arithmetic::div_mod::lemma_mod_self_0(len);
    }
}

/// `q` quits; `a` opens an empty editor to add a todo; `/` opens the search
/// editor on the current query; `r` opens the recycle bin at its first entry.
/// None of them changes the board.
pub proof fn lemma_board_mode_keys(
    pre: AppView,
    b: BoardView,
    key: Key,
    lines: Seq<Seq<char>>,
    today: Date,
    now: Seq<char>,
    post: AppView,
    nb: BoardView,
    r: Result<EditorRequestView, DbError>,
)
    requires
        app_ok(pre),
        pre.input_mode == InputMode::Normal,
        key_step(pre, b, key, lines, today, now, post, nb, r),
    ensures
        key.code == KeyCode::Char('q') ==> post.should_quit && nb == b,
        key.code == KeyCode::Char('a') ==> post.input_mode == InputMode::Adding && nb == b && r == Ok::<
            EditorRequestView,
            DbError,
        >(EditorRequestView::Open(EditorKind::AddTodo, seq![Seq::<char>::empty()])),
        key.code == KeyCode::Char('/') ==> post.input_mode == InputMode::Searching && nb == b && r == Ok::<
            EditorRequestView,
            DbError,
        >(EditorRequestView::Open(EditorKind::Search, seq![pre.search_query])),
        key.code == KeyCode::Char('r') ==> post.input_mode == InputMode::RecycleBin && post.recycle_bin_selected
            == 0 && nb == b,
{
}

/// On the selected todo: `e` opens its title in the editor, `c` its
/// description (one line per line), `t` the date picker; `d` archives it and
/// `p` gives it the next priority.
pub proof fn lemma_card_keys(
    pre: AppView,
    b: BoardView,
    key: Key,
    lines: Seq<Seq<char>>,
    today: Date,
    now: Seq<char>,
    post: AppView,
    nb: BoardView,
    r: Result<EditorRequestView, DbError>,
    t: TodoView,
)
    requires
        app_ok(pre),
        pre.input_mode == InputMode::Normal,
        !(key.shift && (key.code == KeyCode::Up || key.code == KeyCode::Down || key.code == KeyCode::Left
            || key.code == KeyCode::Right)),
        selected_todo(pre) == Some(t),
        key_step(pre, b, key, lines, today, now, post, nb, r),
    ensures
        key.code == KeyCode::Char('e') ==> post.input_mode == InputMode::EditingTitle && post.edit_todo_id == Some(
            t.id,
        ) && nb == b && r == Ok::<EditorRequestView, DbError>(
            EditorRequestView::Open(EditorKind::EditTitle, seq![t.title]),
        ),
        key.code == KeyCode::Char('c') ==> post.input_mode == InputMode::EditingDescription && post.edit_todo_id
            == Some(t.id) && nb == b,
        key.code == KeyCode::Char('t') ==> post.input_mode == InputMode::EditingDueDate && post.edit_todo_id == Some(
            t.id,
        ) && nb == b,
        key.code == KeyCode::Char('d') ==> nb == edited(b, t.id, RowView { archived: true, ..row_of(b, t.id) })
            && post.status == StatusView::Deleted(t.id),
        key.code == KeyCode::Char('p') ==> nb == edited(
            b,
            t.id,
            RowView { priority: crate::app::next_priority(t.priority), ..row_of(b, t.id) },
        ),
{
    if key.code == KeyCode::Char('d') {
        let mid = with_status(pre, StatusView::Deleted(t.id));
        let all = choose|all: Seq<TodoView>| crate::db::is_todo_listing(nb, None, all) && post == reload_with(mid, all);
        assert(post == reload_with(mid, all));
    }
}

// ------------------------------------------------------------------------
// Keys in the date picker
// ------------------------------------------------------------------------

/// In the date picker: Left or `h` picks the day before, Right or `l` the day
/// after, Up or `k` the day a week before, Down or `j` the day a week after,
/// `[` or PageUp the same day a month earlier, `]` or PageDown a month later,
/// and `t` or `T` today. Only the picked date changes.
pub proof fn lemma_picker_keys(
    pre: AppView,
    b: BoardView,
    key: Key,
    lines: Seq<Seq<char>>,
    today: Date,
    now: Seq<char>,
    post: AppView,
    nb: BoardView,
    r: Result<EditorRequestView, DbError>,
    d: Date,
)
    requires
        app_ok(pre),
        pre.input_mode == InputMode::EditingDueDate,
        pre.due_date_picker == Some(d),
        key_fits(pre, key),
        key_step(pre, b, key, lines, today, now, post, nb, r),
    ensures
        key.code == KeyCode::Left || key.code == KeyCode::Char('h') ==> post == (AppView {
            due_date_picker: prev_day(d),
            ..pre
        }) && nb == b,
        key.code == KeyCode::Right || key.code == KeyCode::Char('l') ==> post == (AppView {
            due_date_picker: next_day(d),
            ..pre
        }) && nb == b,
        key.code == KeyCode::Up || key.code == KeyCode::Char('k') ==> post == (AppView {
            due_date_picker: days_before(d, 7),
            ..pre
        }) && nb == b,
        key.code == KeyCode::Down || key.code == KeyCode::Char('j') ==> post == (AppView {
            due_date_picker: days_after(d, 7),
            ..pre
        }) && nb == b,
        key.code == KeyCode::Char('[') || key.code == KeyCode::PageUp ==> post == (AppView {
            due_date_picker: Some(month_earlier(d)),
            ..pre
        }) && nb == b,
        key.code == KeyCode::Char(']') || key.code == KeyCode::PageDown ==> post == (AppView {
            due_date_picker: Some(month_later(d)),
            ..pre
        }) && nb == b,
        key.code == KeyCode::Char('t') || key.code == KeyCode::Char('T') ==> post == (AppView {
            due_date_picker: Some(today),
            ..pre
        }) && nb == b,
{
}

/// In the date picker: Esc closes it and leaves the board alone; Enter saves
/// the picked date, as `%Y-%m-%d`, as the due date of the todo being edited,
/// and closes it.
pub proof fn lemma_picker_close_keys(
    pre: AppView,
    b: BoardView,
    key: Key,
    lines: Seq<Seq<char>>,
    today: Date,
    now: Seq<char>,
    post: AppView,
    nb: BoardView,
    r: Result<EditorRequestView, DbError>,
    d: Date,
)
    requires
        app_ok(pre),
        pre.input_mode == InputMode::EditingDueDate,
        pre.due_date_picker == Some(d),
        key.code == KeyCode::Esc || key.code == KeyCode::Enter,
        key_step(pre, b, key, lines, today, now, post, nb, r),
    ensures
        post.input_mode == InputMode::Normal,
        post.due_date_picker is None,
        post.edit_todo_id is None,
        key.code == KeyCode::Esc ==> nb == b,
        key.code == KeyCode::Enter ==> nb == (match pre.edit_todo_id {
            Some(id) => edited(b, id, RowView { due_date: ymd_text(d), ..row_of(b, id) }),
            None => b,
        }),
{
    if key.code == KeyCode::Enter {
        let mid = match pre.edit_todo_id {
            Some(id) => with_status(pre, StatusView::DueDateSet(ymd_text(d), id)),
            None => pre,
        };
        let all = choose|all: Seq<TodoView>|
            crate::db::is_todo_listing(nb, None, all) && post == crate::app::close_picker(reload_with(mid, all));
        assert(post == crate::app::close_picker(reload_with(mid, all)));
    }
}

// ------------------------------------------------------------------------
// Keys in the recycle bin
// ------------------------------------------------------------------------

/// In a recycle bin with entries: Down or `j` selects the next entry, from the
/// last to the first; Up or `k` the previous one, from the first to the last.
/// The board stays as it is.
pub proof fn lemma_bin_select_keys(
    pre: AppView,
    b: BoardView,
    key: Key,
    lines: Seq<Seq<char>>,
    today: Date,
    now: Seq<char>,
    post: AppView,
    nb: BoardView,
    r: Result<EditorRequestView, DbError>,
)
    requires
        app_ok(pre),
        pre.input_mode == InputMode::RecycleBin,
        pre.recycle_bin_todos.len() > 0,
        key_step(pre, b, key, lines, today, now, post, nb, r),
    ensures
        ({
            let s = pre.recycle_bin_selected as int;
            let len = pre.recycle_bin_todos.len() as int;
            &&& key.code == KeyCode::Down || key.code == KeyCode::Char('j') ==> nb == b && post == (AppView {
                recycle_bin_selected: ((s + 1) % len) as usize,
                ..pre
            })
            &&& key.code == KeyCode::Up || key.code == KeyCode::Char('k') ==> nb == b && post == (AppView {
                recycle_bin_selected: (if s == 0 {
                    len - 1
                } else {
                    s - 1
                }) as usize,
                ..pre
            })
        }),
{
}

/// In the recycle bin: Esc closes it and empties its list; `r` or Enter
/// restores the selected entry to the board; `d` deletes it for good.
pub proof fn lemma_bin_action_keys(
    pre: AppView,
    b: BoardView,
    key: Key,
    lines: Seq<Seq<char>>,
    today: Date,
    now: Seq<char>,
    post: AppView,
    nb: BoardView,
    r: Result<EditorRequestView, DbError>,
    t: TodoView,
)
    requires
        app_ok(pre),
        pre.input_mode == InputMode::RecycleBin,
        bin_selected(pre) == Some(t),
        key_step(pre, b, key, lines, today, now, post, nb, r),
    ensures
        key.code == KeyCode::Esc ==> nb == b && post.input_mode == InputMode::Normal && post.recycle_bin_todos.len()
            == 0,
        key.code == KeyCode::Char('r') || key.code == KeyCode::Enter ==> nb == edited(
            b,
            t.id,
            RowView { archived: false, ..row_of(b, t.id) },
        ),
        key.code == KeyCode::Char('d') ==> nb == (if has_row(b, t.id) {
            BoardView { columns: b.columns, rows: b.rows.remove(row_index(b, t.id)) }
        } else {
            b
        }),
{
}

// ------------------------------------------------------------------------
// Keys in a text editor
// ------------------------------------------------------------------------

/// In a text editor: Esc leaves it (saving a description); Enter submits a
/// title or a search (a line break in a description); other keys, Ctrl+S in
/// a description aside, go to the editor and change nothing else.
pub proof fn lemma_editor_keys(
    pre: AppView,
    b: BoardView,
    key: Key,
    lines: Seq<Seq<char>>,
    today: Date,
    now: Seq<char>,
    post: AppView,
    nb: BoardView,
    r: Result<EditorRequestView, DbError>,
)
    requires
        app_ok(pre),
        pre.input_mode == InputMode::Adding || pre.input_mode == InputMode::EditingTitle || pre.input_mode
            == InputMode::EditingDescription || pre.input_mode == InputMode::Searching,
        key_step(pre, b, key, lines, today, now, post, nb, r),
    ensures
        key.code == KeyCode::Esc ==> post.input_mode == InputMode::Normal,
        key.code == KeyCode::Esc && pre.input_mode != InputMode::EditingDescription ==> nb == b,
        key.code == KeyCode::Enter && pre.input_mode == InputMode::Searching ==> post.search_query
            == crate::app::editor_text(lines) && post.input_mode == InputMode::Normal && nb == b,
        key.code == KeyCode::Enter && pre.input_mode == InputMode::EditingDescription ==> post == pre && nb == b
            && r == Ok::<EditorRequestView, DbError>(EditorRequestView::Forward),
        key.code != KeyCode::Esc && key.code != KeyCode::Enter && !(key.code == KeyCode::Char('s') && key.ctrl)
            ==> post == pre && nb == b && r == Ok::<EditorRequestView, DbError>(EditorRequestView::Forward),
        key.code == KeyCode::Enter && pre.input_mode == InputMode::Searching ==> post.status == (if crate::app::editor_text(
            lines,
        ).len() == 0 {
            StatusView::SearchCleared
        } else {
            StatusView::Filtering(crate::app::editor_text(lines))
        }),
        key.code == KeyCode::Enter && pre.input_mode == InputMode::Adding && crate::app::editor_text(lines).len()
            > 0 ==> match crate::db::add_outcome(
            b,
            crate::app::editor_text(lines),
            Some(pre.columns[pre.focused_col as int].name),
            now,
        ) {
            Ok((added, row)) => nb == added && post.input_mode == InputMode::Normal && post.status
                == StatusView::Added(row.id, pre.columns[pre.focused_col as int].name),
            Err(e) => nb == b && r == Err::<EditorRequestView, DbError>(e),
        },
        key.code == KeyCode::Enter && pre.input_mode == InputMode::EditingTitle && crate::app::editor_text(lines).len()
            > 0 && pre.edit_todo_id is Some ==> nb == edited(
            b,
            pre.edit_todo_id->0,
            RowView { title: crate::app::editor_text(lines), ..row_of(b, pre.edit_todo_id->0) },
        ) && post.input_mode == InputMode::Normal,
        key.code == KeyCode::Char('s') && key.ctrl && pre.input_mode == InputMode::EditingDescription
            && pre.edit_todo_id is Some ==> nb == edited(
            b,
            pre.edit_todo_id->0,
            RowView { description: crate::app::editor_text(lines), ..row_of(b, pre.edit_todo_id->0) },
        ) && post.input_mode == InputMode::Normal,
{
    let content = crate::app::editor_text(lines);
    if key.code == KeyCode::Esc && pre.input_mode == InputMode::EditingDescription {
        match pre.edit_todo_id {
            Some(id) => {
                let mid = with_status(pre, StatusView::DescriptionUpdated(id));
                let all = choose|all: Seq<TodoView>|
                    crate::db::is_todo_listing(nb, None, all) && post == crate::app::finish_editing(reload_with(mid, all));
                assert(post == crate::app::finish_editing(reload_with(mid, all)));
            },
            None => {
                let all = choose|all: Seq<TodoView>|
                    crate::db::is_todo_listing(b, None, all) && post == crate::app::finish_editing(reload_with(pre, all));
                assert(post == crate::app::finish_editing(reload_with(pre, all)));
            },
        }
    }
    if (key.code == KeyCode::Esc || (key.code == KeyCode::Char('s') && key.ctrl)) && pre.input_mode
        == InputMode::EditingDescription {
        if let Some(id) = pre.edit_todo_id {
            let mid = with_status(pre, StatusView::DescriptionUpdated(id));
            let all = choose|all: Seq<TodoView>|
                crate::db::is_todo_listing(nb, None, all) && post == crate::app::finish_editing(reload_with(mid, all));
            assert(post == crate::app::finish_editing(reload_with(mid, all)));
        }
    }
    if key.code == KeyCode::Enter && pre.input_mode == InputMode::Adding && content.len() > 0 {
        let name = pre.columns[pre.focused_col as int].name;
        if let Ok((added, row)) = crate::db::add_outcome(b, content, Some(name), now) {
            let mid = with_status(pre, StatusView::Added(row.id, name));
            let all = choose|all: Seq<TodoView>|
                crate::db::is_todo_listing(nb, None, all) && post == crate::app::finish_editing(reload_with(mid, all));
            assert(post == crate::app::finish_editing(reload_with(mid, all)));
        }
    }
    if key.code == KeyCode::Enter && pre.input_mode == InputMode::EditingTitle && content.len() > 0
        && pre.edit_todo_id is Some {
        let id = pre.edit_todo_id->0;
        let mid = with_status(pre, StatusView::TitleUpdated(id));
        let all = choose|all: Seq<TodoView>|
            crate::db::is_todo_listing(nb, None, all) && post == crate::app::finish_editing(reload_with(mid, all));
        assert(post == crate::app::finish_editing(reload_with(mid, all)));
    }
    if key.code == KeyCode::Enter && pre.input_mode == InputMode::Searching {
        let mid = AppView {
            search_query: content,
            status: if content.len() == 0 {
                StatusView::SearchCleared
            } else {
                StatusView::Filtering(content)
            },
            ..pre
        };
        let all = choose|all: Seq<TodoView>|
            crate::db::is_todo_listing(b, None, all) && post == crate::app::finish_editing(reload_with(mid, all));
        assert(post == crate::app::finish_editing(reload_with(mid, all)));
    }
}

} // verus!
