use vstd::prelude::*;

use crate::db::{
    BoardView, add_outcome, column_index_named, has_peer_above, has_peer_below, has_row, is_archive_listing,
    is_peer_above, is_peer_below, is_todo_listing, key_before, lemma_add_keeps_well_formed,
    lemma_max_id_bounds, lemma_max_position_bounds, lemma_replace_row_keeps_well_formed, lemma_row_index,
    lemma_swap_keeps_well_formed, lemma_target_column_in_range, listed_row, listed_todo, move_outcome,
    peer_above, peer_below, row_index, swapped, target_column_index, todo_key, todo_of, well_formed,
    with_row, has_column, archived_todo, is_column_listing, edited, column_key, tie_key, lemma_tie_key_order,
};
use crate::app::{
    app_ok, key_fits, key_step, next_priority, with_status, AppView, EditorRequestView, InputMode, Key, KeyCode,
    StatusView, reload_with, reloaded, reloaded_then, bin_refreshed, refill_bin, finish_editing, close_picker,
    follow_moved, selection_up, selection_down, with_selection, normal_step, picker_step, bin_step, input_step,
    sort_step, move_across_step,
};
use crate::calendar::{
    days_after, days_before, lemma_days_after_first_step, lemma_days_after_valid, lemma_days_before_first_step,
    lemma_days_before_valid, month_earlier, month_later, month_length, next_day, prev_day, Date, MAX_YEAR, MIN_YEAR,
};
use crate::db::DbError;
use crate::models::{ColumnView, RowView, TodoView};
use crate::text::{byte_len, is_white, joined, words, words_state, wrap_state, wrapped};

verus! {

/// Two sequences that are strictly ordered by the same key and hold the same
/// elements are equal.
pub proof fn lemma_sorted_same_elements<A>(s1: Seq<A>, s2: Seq<A>, key: spec_fn(A) -> (i128, i128))
    requires
        forall|i: int, j: int| 0 <= i < j < s1.len() ==> key_before(key(s1[i]), key(s1[j])),
        forall|i: int, j: int| 0 <= i < j < s2.len() ==> key_before(key(s2[i]), key(s2[j])),
        forall|i: int| 0 <= i < s1.len() ==> s2.contains(#[trigger] s1[i]),
        forall|i: int| 0 <= i < s2.len() ==> s1.contains(#[trigger] s2[i]),
    ensures
        s1 == s2,
    decreases s1.len() + s2.len(),
{
    if s1.len() == 0 {
        if s2.len() > 0 {
            assert(s1.contains(s2[0]));
        }
        assert(s1 =~= s2);
    } else if s2.len() == 0 {
        assert(s2.contains(s1[0]));
    } else {
        assert(s2.contains(s1[0]));
        let j = choose|j: int| 0 <= j < s2.len() && s2[j] == s1[0];
        assert(s1.contains(s2[0]));
        let i = choose|i: int| 0 <= i < s1.len() && s1[i] == s2[0];
        if i > 0 {
            assert(key_before(key(s1[0]), key(s1[i])));
            if j > 0 {
                assert(key_before(key(s2[0]), key(s2[j])));
            }
        }
        if j > 0 {
            assert(key_before(key(s2[0]), key(s2[j])));
        }
        assert(i == 0 && j == 0);
        let t1 = s1.drop_first();
        let t2 = s2.drop_first();
        assert forall|x: int| 0 <= x < t1.len() implies t2.contains(#[trigger] t1[x]) by {
            assert(t1[x] == s1[x + 1]);
            assert(s2.contains(s1[x + 1]));
            let y = choose|y: int| 0 <= y < s2.len() && s2[y] == s1[x + 1];
            if y == 0 {
                assert(key_before(key(s1[0]), key(s1[x + 1])));
            }
            assert(t2[y - 1] == s2[y]);
        }
        assert forall|x: int| 0 <= x < t2.len() implies t1.contains(#[trigger] t2[x]) by {
            assert(t2[x] == s2[x + 1]);
            assert(s1.contains(s2[x + 1]));
            let y = choose|y: int| 0 <= y < s1.len() && s1[y] == s2[x + 1];
            if y == 0 {
                assert(key_before(key(s2[0]), key(s2[x + 1])));
            }
            assert(t1[y - 1] == s1[y]);
        }
        assert forall|a: int, c: int| 0 <= a < c < t1.len() implies key_before(key(t1[a]), key(t1[c])) by {
            assert(t1[a] == s1[a + 1] && t1[c] == s1[c + 1]);
        }
        assert forall|a: int, c: int| 0 <= a < c < t2.len() implies key_before(key(t2[a]), key(t2[c])) by {
            assert(t2[a] == s2[a + 1] && t2[c] == s2[c + 1]);
        }
        lemma_sorted_same_elements(t1, t2, key);
        assert(s1 =~= s2) by {
            assert forall|x: int| 0 <= x < s1.len() implies s1[x] == s2[x] by {
                if x > 0 {
                    assert(s1[x] == t1[x - 1] && s2[x] == t2[x - 1]);
                }
            }
        }
    }
}

/// The board lists its todos in one order only: two listings with the same
/// filter are equal.
pub proof fn lemma_listing_unique(b: BoardView, filter: Option<Seq<char>>, out1: Seq<TodoView>, out2: Seq<TodoView>)
    requires
        well_formed(b),
        is_todo_listing(b, filter, out1),
        is_todo_listing(b, filter, out2),
    ensures
        out1 == out2,
{
    let key = |t: TodoView| todo_key(b, t);
    assert forall|i: int| 0 <= i < out1.len() implies out2.contains(#[trigger] out1[i]) by {
        assert(listed_todo(b, filter, out1[i]));
        let k = choose|k: int| 0 <= k < b.rows.len() && listed_row(b, b.rows[k], filter) && out1[i] == todo_of(b, #[trigger] b.rows[k]);
        assert(listed_row(b, b.rows[k], filter));
    }
    assert forall|i: int| 0 <= i < out2.len() implies out1.contains(#[trigger] out2[i]) by {
        assert(listed_todo(b, filter, out2[i]));
        let k = choose|k: int| 0 <= k < b.rows.len() && listed_row(b, b.rows[k], filter) && out2[i] == todo_of(b, #[trigger] b.rows[k]);
        assert(listed_row(b, b.rows[k], filter));
    }
    assert forall|i: int, j: int| 0 <= i < j < out1.len() implies key_before(key(out1[i]), key(out1[j])) by {
        assert(key_before(todo_key(b, out1[i]), todo_key(b, out1[j])));
    }
    assert forall|i: int, j: int| 0 <= i < j < out2.len() implies key_before(key(out2[i]), key(out2[j])) by {
        assert(key_before(todo_key(b, out2[i]), todo_key(b, out2[j])));
    }
    lemma_sorted_same_elements(out1, out2, key);
}



/// The columns are listed in one order only: two column listings are equal.
pub proof fn lemma_column_listing_unique(b: BoardView, out1: Seq<ColumnView>, out2: Seq<ColumnView>)
    requires
        well_formed(b),
        is_column_listing(b, out1),
        is_column_listing(b, out2),
    ensures
        out1 == out2,
{
    let key = |c: ColumnView| (column_key(c), 0i128);
    assert forall|i: int| 0 <= i < out1.len() implies out2.contains(#[trigger] out1[i]) by {
        assert(b.columns.contains(out1[i]));
        let k = choose|k: int| 0 <= k < b.columns.len() && b.columns[k] == out1[i];
        assert(out2.contains(b.columns[k]));
    }
    assert forall|i: int| 0 <= i < out2.len() implies out1.contains(#[trigger] out2[i]) by {
        assert(b.columns.contains(out2[i]));
        let k = choose|k: int| 0 <= k < b.columns.len() && b.columns[k] == out2[i];
        assert(out1.contains(b.columns[k]));
    }
    lemma_sorted_same_elements(out1, out2, key);
}

/// The recycle bin is listed in one order only: two listings of it are equal.
pub proof fn lemma_archive_listing_unique(b: BoardView, out1: Seq<TodoView>, out2: Seq<TodoView>)
    requires
        well_formed(b),
        is_archive_listing(b, out1),
        is_archive_listing(b, out2),
    ensures
        out1 == out2,
{
    let key = |t: TodoView| ((0i128 - t.id as i128) as i128, 0i128);
    assert forall|i: int| 0 <= i < out1.len() implies out2.contains(#[trigger] out1[i]) by {
        assert(archived_todo(b, out1[i]));
        let k = choose|k: int| 0 <= k < b.rows.len() && b.rows[k].archived && out1[i] == todo_of(b, #[trigger] b.rows[k]);
        assert(b.rows[k].archived);
    }
    assert forall|i: int| 0 <= i < out2.len() implies out1.contains(#[trigger] out2[i]) by {
        assert(archived_todo(b, out2[i]));
        let k = choose|k: int| 0 <= k < b.rows.len() && b.rows[k].archived && out2[i] == todo_of(b, #[trigger] b.rows[k]);
        assert(b.rows[k].archived);
    }
    lemma_sorted_same_elements(out1, out2, key);
}

/// Reading a todo after one of its fields was edited in place (its title,
/// description, priority, due date or archived flag) gives the edited row.
pub proof fn lemma_edit_then_read(b: BoardView, id: i64, r: RowView)
    requires
        well_formed(b),
        has_row(b, id),
        r.id == id,
        r.column_id == b.rows[row_index(b, id)].column_id,
        r.position == b.rows[row_index(b, id)].position,
    ensures
        well_formed(edited(b, id, r)),
        has_row(edited(b, id, r), id),
        edited(b, id, r).rows[row_index(edited(b, id, r), id)] == r,
{
    let k = row_index(b, id);
    lemma_row_index(b, k);
    let nb = edited(b, id, r);
    assert(has_column(b, b.rows[k].column_id));
    lemma_replace_row_keeps_well_formed(b, k, r);
    assert(nb.rows[k] == r);
    lemma_row_index(nb, k);
}

/// A todo deleted for good can no longer be read.
pub proof fn lemma_purged_is_gone(b: BoardView, id: i64)
    requires
        well_formed(b),
        has_row(b, id),
    ensures
        !has_row(BoardView { columns: b.columns, rows: b.rows.remove(row_index(b, id)) }, id),
{
    let k = row_index(b, id);
    let nb = BoardView { columns: b.columns, rows: b.rows.remove(k) };
    if has_row(nb, id) {
        let j = choose|j: int| 0 <= j < nb.rows.len() && #[trigger] nb.rows[j].id == id;
        let jj = if j < k { j } else { j + 1 };
        assert(nb.rows[j] == b.rows[jj]);
        assert(b.rows[jj] == b.rows[jj] && b.rows[k] == b.rows[k]);
        assert(false);
    }
}

/// No other row of row `k`'s column is at row `k`'s position.
pub open spec fn alone_at_position(b: BoardView, k: int) -> bool {
    forall|q: int|
        0 <= q < b.rows.len() && q != k && (#[trigger] b.rows[q]).column_id == b.rows[k].column_id
            ==> b.rows[q].position != b.rows[k].position
}

/// Moving a todo up and then down again gives back the board: the second
/// move finds the same neighbour and swaps the positions back. This needs the
/// todo to be alone at its position in its column; otherwise the way back may
/// pick another todo at that position.
pub proof fn lemma_up_then_down(b: BoardView, id: i64)
    requires
        well_formed(b),
        has_row(b, id),
        has_peer_above(b, row_index(b, id)),
        alone_at_position(b, row_index(b, id)),
    ensures
        ({
            let k = row_index(b, id);
            let p = peer_above(b, k);
            let b1 = swapped(b, k, p);
            &&& well_formed(b1)
            &&& has_row(b1, id)
            &&& row_index(b1, id) == k
            &&& has_peer_below(b1, k)
            &&& peer_below(b1, k) == p
            &&& swapped(b1, k, p) == b
        }),
{
    let k = row_index(b, id);
    assert(b.rows[k].id == id);
    let p = peer_above(b, k);
    assert(is_peer_above(b, k, p));
    assert(p != k);
    let b1 = swapped(b, k, p);
    lemma_swap_keeps_well_formed(b, k, p);
    assert(b1.rows[k].id == id);
    lemma_row_index(b1, k);
    assert forall|q: int|
        0 <= q < b1.rows.len() && (#[trigger] b1.rows[q]).column_id == b1.rows[k].column_id
            && b1.rows[q].position > b1.rows[k].position implies tie_key(b1.rows[p].position, b1.rows[p].id)
        <= tie_key(b1.rows[q].position, b1.rows[q].id) by {
        if q != k && q != p {
            assert(b1.rows[q] == b.rows[q]);
            assert(b.rows[q].column_id == b.rows[k].column_id);
            if b.rows[q].position < b.rows[k].position {
                assert(tie_key(b.rows[q].position, b.rows[q].id) <= tie_key(b.rows[p].position, b.rows[p].id));
                lemma_tie_key_order(b.rows[q].position, b.rows[q].id, b.rows[p].position, b.rows[p].id);
                lemma_tie_key_order(b.rows[p].position, b.rows[p].id, b.rows[q].position, b.rows[q].id);
            }
            assert(b.rows[q].position != b.rows[k].position);
            lemma_tie_key_order(b1.rows[p].position, b1.rows[p].id, b1.rows[q].position, b1.rows[q].id);
        }
    }
    assert(is_peer_below(b1, k, p));
    let c = peer_below(b1, k);
    assert(is_peer_below(b1, k, c));
    lemma_tie_key_order(b1.rows[c].position, b1.rows[c].id, b1.rows[p].position, b1.rows[p].id);
    if c != p {
        assert(b1.rows[c] == b1.rows[c] && b1.rows[p] == b1.rows[p]);
    }
    assert(swapped(b1, k, p).rows =~= b.rows);
}

/// Moving a todo down and then up again gives back the board, when the todo
/// is alone at its position in its column.
pub proof fn lemma_down_then_up(b: BoardView, id: i64)
    requires
        well_formed(b),
        has_row(b, id),
        has_peer_below(b, row_index(b, id)),
        alone_at_position(b, row_index(b, id)),
    ensures
        ({
            let k = row_index(b, id);
            let p = peer_below(b, k);
            let b1 = swapped(b, k, p);
            &&& well_formed(b1)
            &&& has_row(b1, id)
            &&& row_index(b1, id) == k
            &&& has_peer_above(b1, k)
            &&& peer_above(b1, k) == p
            &&& swapped(b1, k, p) == b
        }),
{
    let k = row_index(b, id);
    assert(b.rows[k].id == id);
    let p = peer_below(b, k);
    assert(is_peer_below(b, k, p));
    assert(p != k);
    let b1 = swapped(b, k, p);
    lemma_swap_keeps_well_formed(b, k, p);
    assert(b1.rows[k].id == id);
    lemma_row_index(b1, k);
    assert forall|q: int|
        0 <= q < b1.rows.len() && (#[trigger] b1.rows[q]).column_id == b1.rows[k].column_id
            && b1.rows[q].position < b1.rows[k].position implies tie_key(b1.rows[q].position, b1.rows[q].id)
        <= tie_key(b1.rows[p].position, b1.rows[p].id) by {
        if q != k && q != p {
            assert(b1.rows[q] == b.rows[q]);
            assert(b.rows[q].column_id == b.rows[k].column_id);
            if b.rows[q].position > b.rows[k].position {
                assert(tie_key(b.rows[p].position, b.rows[p].id) <= tie_key(b.rows[q].position, b.rows[q].id));
                lemma_tie_key_order(b.rows[q].position, b.rows[q].id, b.rows[p].position, b.rows[p].id);
                lemma_tie_key_order(b.rows[p].position, b.rows[p].id, b.rows[q].position, b.rows[q].id);
            }
            assert(b.rows[q].position != b.rows[k].position);
            lemma_tie_key_order(b1.rows[q].position, b1.rows[q].id, b1.rows[p].position, b1.rows[p].id);
        }
    }
    assert(is_peer_above(b1, k, p));
    let c = peer_above(b1, k);
    assert(is_peer_above(b1, k, c));
    lemma_tie_key_order(b1.rows[c].position, b1.rows[c].id, b1.rows[p].position, b1.rows[p].id);
    if c != p {
        assert(b1.rows[c] == b1.rows[c] && b1.rows[p] == b1.rows[p]);
    }
    assert(swapped(b1, k, p).rows =~= b.rows);
}

/// Deleting a todo that is on the board and then restoring it gives back the board.
pub proof fn lemma_delete_then_restore(b: BoardView, id: i64)
    requires
        well_formed(b),
        has_row(b, id),
        !b.rows[row_index(b, id)].archived,
    ensures
        ({
            let k = row_index(b, id);
            let b1 = with_row(b, k, RowView { archived: true, ..b.rows[k] });
            &&& well_formed(b1)
            &&& has_row(b1, id)
            &&& row_index(b1, id) == k
            &&& with_row(b1, k, RowView { archived: false, ..b1.rows[k] }) == b
        }),
{
    let k = row_index(b, id);
    assert(b.rows[k].id == id);
    let r = RowView { archived: true, ..b.rows[k] };
    assert(has_column(b, b.rows[k].column_id));
    lemma_replace_row_keeps_well_formed(b, k, r);
    let b1 = with_row(b, k, r);
    assert(b1.rows[k].id == id);
    lemma_row_index(b1, k);
    assert(with_row(b1, k, RowView { archived: false, ..b1.rows[k] }).rows =~= b.rows);
}

/// A deleted todo leaves the board's listing and shows in the recycle bin.
pub proof fn lemma_deleted_goes_to_bin(b: BoardView, id: i64, listed: Seq<TodoView>, bin: Seq<TodoView>)
    requires
        well_formed(b),
        has_row(b, id),
        ({
            let k = row_index(b, id);
            let b1 = with_row(b, k, RowView { archived: true, ..b.rows[k] });
            is_todo_listing(b1, None, listed) && is_archive_listing(b1, bin)
        }),
    ensures
        forall|i: int| 0 <= i < listed.len() ==> (#[trigger] listed[i]).id != id,
        exists|i: int| 0 <= i < bin.len() && (#[trigger] bin[i]).id == id,
{
    let k = row_index(b, id);
    assert(b.rows[k].id == id);
    let r = RowView { archived: true, ..b.rows[k] };
    assert(has_column(b, b.rows[k].column_id));
    lemma_replace_row_keeps_well_formed(b, k, r);
    let b1 = with_row(b, k, r);
    assert forall|i: int| 0 <= i < listed.len() implies (#[trigger] listed[i]).id != id by {
        assert(listed_todo(b1, None, listed[i]));
        let j = choose|j: int|
            0 <= j < b1.rows.len() && listed_row(b1, b1.rows[j], None) && listed[i] == todo_of(b1, #[trigger] b1.rows[j]);
        if j != k {
            assert(b1.rows[j] == b.rows[j]);
            assert(b.rows[j] == b.rows[j] && b.rows[k] == b.rows[k]);
        }
    }
    assert(b1.rows[k].archived);
    assert(bin.contains(todo_of(b1, b1.rows[k])));
    let i = choose|i: int| 0 <= i < bin.len() && bin[i] == todo_of(b1, b1.rows[k]);
    assert(bin[i].id == id);
}

/// A restored todo is back in the board's listing.
pub proof fn lemma_restored_is_listed(b: BoardView, id: i64, listed: Seq<TodoView>)
    requires
        well_formed(b),
        has_row(b, id),
        ({
            let k = row_index(b, id);
            let b1 = with_row(b, k, RowView { archived: false, ..b.rows[k] });
            is_todo_listing(b1, None, listed)
        }),
    ensures
        exists|i: int| 0 <= i < listed.len() && (#[trigger] listed[i]).id == id,
{
    let k = row_index(b, id);
    assert(b.rows[k].id == id);
    let b1 = with_row(b, k, RowView { archived: false, ..b.rows[k] });
    assert(listed_row(b1, b1.rows[k], None));
    assert(listed.contains(todo_of(b1, b1.rows[k])));
    let i = choose|i: int| 0 <= i < listed.len() && listed[i] == todo_of(b1, b1.rows[k]);
    assert(listed[i].id == id);
}

/// A moved todo lands at the end of its new column: below every other todo there.
pub proof fn lemma_moved_to_end(b: BoardView, id: i64, column: Seq<char>)
    requires
        well_formed(b),
        move_outcome(b, id, column) matches Ok(Some(_)),
    ensures
        ({
            let (nb, k) = move_outcome(b, id, column)->Ok_0->0;
            &&& nb.rows[k].id == id
            &&& nb.columns[column_index_named(b, column)].id == nb.rows[k].column_id
            &&& forall|j: int|
                0 <= j < nb.rows.len() && j != k && (#[trigger] nb.rows[j]).column_id
                    == nb.rows[k].column_id ==> nb.rows[j].position < nb.rows[k].position
        }),
{
    let col = b.columns[column_index_named(b, column)].id;
    lemma_max_position_bounds(b.rows, col);
    let k = row_index(b, id);
    assert(b.rows[k].id == id);
    let (nb, k2) = move_outcome(b, id, column)->Ok_0->0;
    assert(k2 == k);
    assert forall|j: int|
        0 <= j < nb.rows.len() && j != k && (#[trigger] nb.rows[j]).column_id == nb.rows[k].column_id
            implies nb.rows[j].position < nb.rows[k].position by {
        assert(nb.rows[j] == b.rows[j]);
    }
}

/// An added todo can be read back: its row is on the board, listed, and
/// below every other todo of its column.
pub proof fn lemma_add_then_read(b: BoardView, title: Seq<char>, column: Option<Seq<char>>, now: Seq<char>, listed: Seq<TodoView>)
    requires
        well_formed(b),
        add_outcome(b, title, column, now) is Ok,
        is_todo_listing(add_outcome(b, title, column, now)->Ok_0.0, None, listed),
    ensures
        ({
            let (nb, row) = add_outcome(b, title, column, now)->Ok_0;
            &&& has_row(nb, row.id)
            &&& nb.rows[row_index(nb, row.id)] == row
            &&& listed.contains(todo_of(nb, row))
            &&& forall|j: int|
                0 <= j < nb.rows.len() && j != row_index(nb, row.id) && (#[trigger] nb.rows[j]).column_id
                    == row.column_id ==> nb.rows[j].position < row.position
        }),
{
    let (nb, row) = add_outcome(b, title, column, now)->Ok_0;
    lemma_target_column_in_range(b, column);
    let ci = target_column_index(b, column)->0;
    let col = b.columns[ci].id;
    lemma_max_position_bounds(b.rows, col);
    lemma_max_id_bounds(b.rows);
    lemma_add_keeps_well_formed(b, title, column, now);
    let k = b.rows.len() as int;
    assert(nb.rows[k] == row);
    lemma_row_index(nb, k);
    assert(listed_row(nb, nb.rows[k], None));
    assert forall|j: int|
        0 <= j < nb.rows.len() && j != row_index(nb, row.id) && (#[trigger] nb.rows[j]).column_id
            == row.column_id implies nb.rows[j].position < row.position by {
        assert(nb.rows[j] == b.rows[j]);
    }
}



/// The UTF-8 length of a concatenation is the sum of the lengths.
pub proof fn lemma_byte_len_concat(a: Seq<char>, b: Seq<char>)
    ensures
        byte_len(a + b) == byte_len(a) + byte_len(b),
    decreases a.len(),
{
    if a.len() == 0 {
        assert(a + b =~= b);
    } else {
        lemma_byte_len_concat(a.drop_first(), b);
        assert((a + b).drop_first() =~= a.drop_first() + b);
        assert((a + b)[0] == a[0]);
    }
}

/// Splitting into words yields no empty word.
pub proof fn lemma_words_nonempty(s: Seq<char>)
    ensures
        forall|i: int| 0 <= i < words(s).len() ==> (#[trigger] words(s)[i]).len() > 0,
        forall|i: int| 0 <= i < words_state(s).0.len() ==> (#[trigger] words_state(s).0[i]).len() > 0,
    decreases s.len(),
{
    if s.len() > 0 {
        lemma_words_nonempty(s.drop_last());
        let (done, cur) = words_state(s.drop_last());
        assert forall|i: int| 0 <= i < words_state(s).0.len() implies (#[trigger] words_state(s).0[i]).len() > 0 by {
            if i < done.len() {
                assert(words_state(s).0[i] == done[i]);
            }
        }
    }
}

proof fn lemma_joined_push(x: Seq<Seq<char>>, y: Seq<char>, sep: Seq<char>)
    requires
        x.len() > 0,
    ensures
        joined(x.push(y), sep) == joined(x, sep) + sep + y,
{
    assert(x.push(y).drop_last() =~= x);
}

/// The lines in progress of the greedy filling: joined by spaces they give
/// back the words; every line fits or is a single word.
proof fn lemma_wrap_state(ws: Seq<Seq<char>>, max_width: int, n: int)
    requires
        0 < n <= ws.len(),
        forall|i: int| 0 <= i < ws.len() ==> (#[trigger] ws[i]).len() > 0,
    ensures
        ({
            let (lines, cur) = wrap_state(ws.take(n), max_width);
            &&& cur.len() > 0
            &&& joined(lines.push(cur), seq![' ']) == joined(ws.take(n), seq![' '])
            &&& forall|i: int|
                0 <= i < lines.push(cur).len() ==> byte_len(#[trigger] lines.push(cur)[i]) <= max_width
                    || ws.contains(lines.push(cur)[i])
        }),
    decreases n,
{
    let t = ws.take(n);
    assert(t.drop_last() =~= ws.take(n - 1));
    assert(t.last() == ws[n - 1]);
    let w = ws[n - 1];
    if n == 1 {
        assert(ws.take(0) =~= Seq::<Seq<char>>::empty());
        let (lines, cur) = wrap_state(t, max_width);
        assert(lines =~= Seq::<Seq<char>>::empty());
        assert(cur == w);
        assert(lines.push(cur) =~= t);
        assert(lines.push(cur)[0] == ws[0]);
    } else {
        lemma_wrap_state(ws, max_width, n - 1);
        let (l0, c0) = wrap_state(ws.take(n - 1), max_width);
        let (lines, cur) = wrap_state(t, max_width);
        let prev = ws.take(n - 1);
        lemma_joined_push(prev, w, seq![' ']);
        assert(prev.push(w) =~= t);
        if byte_len(c0) + 1 + byte_len(w) <= max_width {
            assert(lines == l0 && cur == c0 + seq![' '] + w);
            if l0.len() > 0 {
                lemma_joined_push(l0, c0, seq![' ']);
                lemma_joined_push(l0, cur, seq![' ']);
            } else {
                assert(l0.push(c0) =~= seq![c0]);
                assert(l0.push(cur) =~= seq![cur]);
            }
            assert(joined(lines.push(cur), seq![' ']) =~= joined(l0.push(c0), seq![' ']) + seq![' '] + w);
            lemma_byte_len_concat(c0, seq![' ']);
            lemma_byte_len_concat(c0 + seq![' '], w);
            assert(byte_len(seq![' ']) == 1) by {
                assert(seq![' '].drop_first() =~= Seq::<char>::empty());
                assert((' ' as u32) == 32u32);
                assert(vstd::utf8::has_width_1_encoding(' ' as u32));
                assert(vstd::utf8::encode_utf8(seq![' ']) =~= vstd::utf8::encode_scalar(' ' as u32) + vstd::utf8::encode_utf8(Seq::<char>::empty()));
            }
            assert forall|i: int| 0 <= i < lines.push(cur).len() implies byte_len(#[trigger] lines.push(cur)[i])
                <= max_width || ws.contains(lines.push(cur)[i]) by {
                if i < l0.len() {
                    assert(lines.push(cur)[i] == l0.push(c0)[i]);
                }
            }
        } else {
            assert(lines == l0.push(c0) && cur == w);
            lemma_joined_push(l0.push(c0), w, seq![' ']);
            assert forall|i: int| 0 <= i < lines.push(cur).len() implies byte_len(#[trigger] lines.push(cur)[i])
                <= max_width || ws.contains(lines.push(cur)[i]) by {
                if i < lines.len() {
                    assert(lines.push(cur)[i] == l0.push(c0)[i]);
                } else {
                    assert(lines.push(cur)[i] == ws[n - 1]);
                }
            }
        }
    }
}

/// Wrapping keeps every word of the text, in order: the lines joined by
/// single spaces are the words joined by single spaces. And every line fits
/// in the width, unless it is a single word.
pub proof fn lemma_wrap_keeps_words(text: Seq<char>, max_width: int)
    requires
        words(text).len() > 0,
    ensures
        joined(wrapped(text, max_width), seq![' ']) == joined(words(text), seq![' ']),
        forall|i: int|
            0 <= i < wrapped(text, max_width).len() ==> byte_len(#[trigger] wrapped(text, max_width)[i])
                <= max_width || words(text).contains(wrapped(text, max_width)[i]),
{
    let ws = words(text);
    lemma_words_nonempty(text);
    lemma_wrap_state(ws, max_width, ws.len() as int);
    assert(ws.take(ws.len() as int) =~= ws);
}

// ------------------------------------------------------------------------
// The calendar
// ------------------------------------------------------------------------

/// The day after a date, and the day before that, is the date again.
pub proof fn lemma_next_then_prev(d: Date)
    requires
        d.valid(),
        next_day(d) is Some,
    ensures
        prev_day(next_day(d)->0) == Some(d),
{
}

/// The day before a date, and the day after that, is the date again.
pub proof fn lemma_prev_then_next(d: Date)
    requires
        d.valid(),
        prev_day(d) is Some,
    ensures
        next_day(prev_day(d)->0) == Some(d),
{
}

/// Going `n` days forward and then `n` days back returns to the date.
pub proof fn lemma_forward_then_back(d: Date, n: nat)
    requires
        d.valid(),
        days_after(d, n) is Some,
    ensures
        days_before(days_after(d, n)->0, n) == Some(d),
    decreases n,
{
    if n > 0 {
        let m = (n - 1) as nat;
        assert(days_after(d, m) is Some);
        let e1 = days_after(d, m)->0;
        lemma_forward_then_back(d, m);
        lemma_days_after_valid(d, m);
        lemma_next_then_prev(e1);
        lemma_days_before_first_step(next_day(e1)->0, m);
    }
}

/// Going `n` days back and then `n` days forward returns to the date.
pub proof fn lemma_back_then_forward(d: Date, n: nat)
    requires
        d.valid(),
        days_before(d, n) is Some,
    ensures
        days_after(days_before(d, n)->0, n) == Some(d),
    decreases n,
{
    if n > 0 {
        let m = (n - 1) as nat;
        assert(days_before(d, m) is Some);
        let e1 = days_before(d, m)->0;
        lemma_back_then_forward(d, m);
        lemma_days_before_valid(d, m);
        lemma_prev_then_next(e1);
        lemma_days_after_first_step(prev_day(e1)->0, m);
    }
}

/// One month later and then one month earlier is the date again, when its
/// day exists in the next month.
pub proof fn lemma_month_later_then_earlier(d: Date)
    requires
        d.valid(),
        !(d.year == MAX_YEAR && d.month == 12),
        d.day <= month_length(
            if d.month == 12 { d.year + 1 } else { d.year as int },
            if d.month == 12 { 1 } else { d.month + 1 },
        ),
    ensures
        month_earlier(month_later(d)) == d,
{
}

/// One month earlier and then one month later is the date again, when its
/// day exists in the previous month.
pub proof fn lemma_month_earlier_then_later(d: Date)
    requires
        d.valid(),
        !(d.year == MIN_YEAR && d.month == 1),
        d.day <= month_length(
            if d.month == 1 { d.year - 1 } else { d.year as int },
            if d.month == 1 { 12 } else { d.month - 1 },
        ),
    ensures
        month_later(month_earlier(d)) == d,
{
}

// ------------------------------------------------------------------------
// The interface
// ------------------------------------------------------------------------

/// A key with no modifier.
pub open spec fn plain(code: KeyCode) -> Key {
    Key { code, shift: false, ctrl: false }
}

/// Tab and then BackTab on the board give focus back to the same column;
/// the board is untouched and only the footer message is cleared.
pub proof fn lemma_focus_there_and_back(
    pre: AppView,
    b: BoardView,
    lines: Seq<Seq<char>>,
    today: Date,
    now: Seq<char>,
    mid: AppView,
    b1: BoardView,
    r1: Result<EditorRequestView, DbError>,
    post: AppView,
    b2: BoardView,
    r2: Result<EditorRequestView, DbError>,
)
    requires
        app_ok(pre),
        pre.columns.len() <= usize::MAX,
        pre.input_mode == InputMode::Normal,
        key_step(pre, b, plain(KeyCode::Tab), lines, today, now, mid, b1, r1),
        key_step(mid, b1, plain(KeyCode::BackTab), lines, today, now, post, b2, r2),
    ensures
        b2 == b,
        post == with_status(pre, StatusView::Empty),
{
    let n = pre.columns.len() as int;
    let f = pre.focused_col as int;
    if f + 1 < n {
        vstd::arithmetic::div_mod::lemma_small_mod((f + 1) as nat, n as nat);
    } else {
        vstd::arithmetic::div_mod::lemma_mod_self_0(n);
    }
}

/// Down and then Up in a column with cards select the same card again; the
/// board is untouched and only the footer message is cleared.
pub proof fn lemma_selection_there_and_back(
    pre: AppView,
    b: BoardView,
    lines: Seq<Seq<char>>,
    today: Date,
    now: Seq<char>,
    mid: AppView,
    b1: BoardView,
    r1: Result<EditorRequestView, DbError>,
    post: AppView,
    b2: BoardView,
    r2: Result<EditorRequestView, DbError>,
)
    requires
        app_ok(pre),
        pre.input_mode == InputMode::Normal,
        key_step(pre, b, plain(KeyCode::Down), lines, today, now, mid, b1, r1),
        key_step(mid, b1, plain(KeyCode::Up), lines, today, now, post, b2, r2),
    ensures
        b2 == b,
        post == with_status(pre, StatusView::Empty),
{
    let f = pre.focused_col as int;
    let c = pre.columns[f];
    let n = c.todos.len() as int;
    if n > 0 {
        assert(c.selected < n);
        if c.selected + 1 < n {
            vstd::arithmetic::div_mod::lemma_small_mod((c.selected + 1) as nat, n as nat);
        } else {
            vstd::arithmetic::div_mod::lemma_mod_self_0(n);
        }
        assert(post.columns =~= pre.columns);
    } else {
        assert(post.columns =~= pre.columns);
    }
}

/// Cycling the priority three times gives back each of the three priorities.
pub proof fn lemma_priority_cycle(p: Seq<char>)
    requires
        p == "Low"@ || p == "Medium"@ || p == "High"@,
    ensures
        next_priority(next_priority(next_priority(p))) == p,
{
    reveal_strlit("Low");
    reveal_strlit("Medium");
    reveal_strlit("High");
    assert("Low"@[0] != "Medium"@[0]);
    assert("Low"@[0] != "High"@[0]);
    assert("Medium"@[0] != "High"@[0]);
}

/// Two picker keys that undo each other: a day back and forth, a week back and forth.
pub open spec fn opposite_steps(k1: KeyCode, k2: KeyCode) -> bool {
    ||| k1 == KeyCode::Left && k2 == KeyCode::Right
    ||| k1 == KeyCode::Right && k2 == KeyCode::Left
    ||| k1 == KeyCode::Up && k2 == KeyCode::Down
    ||| k1 == KeyCode::Down && k2 == KeyCode::Up
}

/// In the date picker, a day or a week one way and then the other way gives
/// back the interface and the board, when the first step stays among the
/// dates that exist.
pub proof fn lemma_picker_there_and_back(
    pre: AppView,
    b: BoardView,
    k1: KeyCode,
    k2: KeyCode,
    lines: Seq<Seq<char>>,
    today: Date,
    now: Seq<char>,
    mid: AppView,
    b1: BoardView,
    r1: Result<EditorRequestView, DbError>,
    post: AppView,
    b2: BoardView,
    r2: Result<EditorRequestView, DbError>,
)
    requires
        app_ok(pre),
        pre.input_mode == InputMode::EditingDueDate,
        pre.due_date_picker is Some,
        opposite_steps(k1, k2),
        key_fits(pre, plain(k1)),
        key_step(pre, b, plain(k1), lines, today, now, mid, b1, r1),
        key_step(mid, b1, plain(k2), lines, today, now, post, b2, r2),
    ensures
        b2 == b,
        post == pre,
{
    let d = pre.due_date_picker->0;
    if k1 == KeyCode::Left {
        lemma_prev_then_next(d);
    } else if k1 == KeyCode::Right {
        lemma_next_then_prev(d);
    } else if k1 == KeyCode::Up {
        lemma_back_then_forward(d, 7);
    } else {
        lemma_forward_then_back(d, 7);
    }
}

/// In the date picker, a month forward and then back gives back the
/// interface and the board, when the day exists in the next month.
pub proof fn lemma_picker_month_there_and_back(
    pre: AppView,
    b: BoardView,
    lines: Seq<Seq<char>>,
    today: Date,
    now: Seq<char>,
    mid: AppView,
    b1: BoardView,
    r1: Result<EditorRequestView, DbError>,
    post: AppView,
    b2: BoardView,
    r2: Result<EditorRequestView, DbError>,
)
    requires
        app_ok(pre),
        pre.input_mode == InputMode::EditingDueDate,
        pre.due_date_picker matches Some(d) && d.day <= month_length(
            if d.month == 12 { d.year + 1 } else { d.year as int },
            if d.month == 12 { 1 } else { d.month + 1 },
        ),
        key_fits(pre, plain(KeyCode::Char(']'))),
        key_step(pre, b, plain(KeyCode::Char(']')), lines, today, now, mid, b1, r1),
        key_step(mid, b1, plain(KeyCode::Char('[')), lines, today, now, post, b2, r2),
    ensures
        b2 == b,
        post == pre,
{
    let d = pre.due_date_picker->0;
    lemma_month_later_then_earlier(d);
}

/// Wrapping depends on the words alone: two texts with the same words (at
/// least one) are wrapped into the same lines.
pub proof fn lemma_wrap_same_words(t1: Seq<char>, t2: Seq<char>, max_width: int)
    requires
        words(t1) == words(t2),
        words(t1).len() > 0,
    ensures
        wrapped(t1, max_width) == wrapped(t2, max_width),
{
    let ws = words(t1);
    lemma_words_nonempty(t1);
    lemma_wrap_state(ws, max_width, ws.len() as int);
    assert(ws.take(ws.len() as int) =~= ws);
}

/// Appending a run of non-whitespace characters extends the word in progress.
proof fn lemma_words_state_append_word(s: Seq<char>, u: Seq<char>)
    requires
        forall|i: int| 0 <= i < u.len() ==> !is_white(#[trigger] u[i]),
    ensures
        words_state(s + u) == (words_state(s).0, words_state(s).1 + u),
    decreases u.len(),
{
    if u.len() == 0 {
        assert(s + u =~= s);
        assert(words_state(s).1 + u =~= words_state(s).1);
    } else {
        let u1 = u.drop_last();
        lemma_words_state_append_word(s, u1);
        assert((s + u).drop_last() =~= s + u1);
        assert((s + u).last() == u.last());
        assert(words_state(s).1 + u1 + seq![u.last()] =~= words_state(s).1 + u);
        assert(words_state(s).1 + u =~= (words_state(s).1 + u1).push(u.last()));
    }
}

/// The words of texts joined by single spaces are the texts, when each is a
/// non-empty run of non-whitespace characters.
pub proof fn lemma_words_of_joined(ws: Seq<Seq<char>>)
    requires
        ws.len() > 0,
        forall|i: int| 0 <= i < ws.len() ==> (#[trigger] ws[i]).len() > 0,
        forall|i: int, j: int| 0 <= i < ws.len() && 0 <= j < ws[i].len() ==> !is_white(#[trigger] ws[i][j]),
    ensures
        words_state(joined(ws, seq![' '])) == (ws.drop_last(), ws.last()),
        words(joined(ws, seq![' '])) == ws,
    decreases ws.len(),
{
    if ws.len() == 1 {
        let u = ws[0];
        assert forall|j: int| 0 <= j < u.len() implies !is_white(#[trigger] u[j]) by {
            assert(!is_white(ws[0][j]));
        }
        lemma_words_state_append_word(Seq::empty(), u);
        assert(Seq::<char>::empty() + u =~= u);
        assert(Seq::<char>::empty() + u =~= u);
        assert(ws.drop_last() =~= Seq::<Seq<char>>::empty());
    } else {
        let w1 = ws.drop_last();
        let u = ws.last();
        assert forall|i: int| 0 <= i < w1.len() implies (#[trigger] w1[i]).len() > 0 by {
            assert(w1[i] == ws[i]);
        }
        assert forall|i: int, j: int| 0 <= i < w1.len() && 0 <= j < w1[i].len() implies !is_white(
            #[trigger] w1[i][j],
        ) by {
            assert(w1[i] == ws[i]);
        }
        lemma_words_of_joined(w1);
        let j1 = joined(w1, seq![' ']);
        let js = j1 + seq![' '];
        assert(js.drop_last() =~= j1);
        assert(js.last() == ' ');
        assert(is_white(' '));
        assert(w1.last().len() > 0);
        assert(words_state(js) == (w1.drop_last().push(w1.last()), Seq::<char>::empty()));
        assert(w1.drop_last().push(w1.last()) =~= w1);
        assert forall|j: int| 0 <= j < u.len() implies !is_white(#[trigger] u[j]) by {
            assert(!is_white(ws[ws.len() - 1][j]));
        }
        lemma_words_state_append_word(js, u);
        assert(Seq::<char>::empty() + u =~= u);
        assert(joined(ws, seq![' ']) == js + u);
        assert(ws.drop_last().push(u) =~= ws);
    }
}

/// Wrapping the lines of a wrapped text, joined by spaces, again gives the
/// same lines.
pub proof fn lemma_rewrap(text: Seq<char>, max_width: int)
    requires
        words(text).len() > 0,
    ensures
        wrapped(joined(wrapped(text, max_width), seq![' ']), max_width) == wrapped(text, max_width),
{
    let ws = words(text);
    lemma_wrap_keeps_words(text, max_width);
    lemma_words_nonempty(text);
    lemma_words_no_white(text);
    lemma_words_of_joined(ws);
    let again = joined(wrapped(text, max_width), seq![' ']);
    assert(again == joined(ws, seq![' ']));
    lemma_wrap_same_words(again, text, max_width);
}

/// No word holds a whitespace character.
pub proof fn lemma_words_no_white(s: Seq<char>)
    ensures
        forall|i: int, j: int|
            0 <= i < words(s).len() && 0 <= j < words(s)[i].len() ==> !is_white(#[trigger] words(s)[i][j]),
        forall|i: int, j: int|
            0 <= i < words_state(s).0.len() && 0 <= j < words_state(s).0[i].len() ==> !is_white(
                #[trigger] words_state(s).0[i][j],
            ),
        forall|j: int| 0 <= j < words_state(s).1.len() ==> !is_white(#[trigger] words_state(s).1[j]),
    decreases s.len(),
{
    if s.len() > 0 {
        lemma_words_no_white(s.drop_last());
        let (done, cur) = words_state(s.drop_last());
        let (d2, c2) = words_state(s);
        assert forall|i: int, j: int| 0 <= i < d2.len() && 0 <= j < d2[i].len() implies !is_white(
            #[trigger] d2[i][j],
        ) by {
            if i < done.len() {
                assert(d2[i] == done[i]);
            } else {
                assert(d2[i] == cur);
            }
        }
        assert forall|j: int| 0 <= j < c2.len() implies !is_white(#[trigger] c2[j]) by {
            if j < cur.len() {
                assert(c2[j] == cur[j]);
            }
        }
    }
    let (d2, c2) = words_state(s);
    assert forall|i: int, j: int| 0 <= i < words(s).len() && 0 <= j < words(s)[i].len() implies !is_white(
        #[trigger] words(s)[i][j],
    ) by {
        if i < d2.len() {
            assert(words(s)[i] == d2[i]);
        } else {
            assert(words(s)[i] == c2);
        }
    }
}

/// Two states of the interface show the same columns (ids and names, in order).
pub open spec fn same_columns(a: AppView, b: AppView) -> bool {
    &&& a.columns.len() == b.columns.len()
    &&& forall|i: int|
        0 <= i < a.columns.len() ==> (#[trigger] a.columns[i]).id == b.columns[i].id && a.columns[i].name
            == b.columns[i].name
}

proof fn lemma_reload_keeps_columns(a: AppView, all: Seq<TodoView>)
    ensures
        same_columns(a, reload_with(a, all)),
{
}

proof fn lemma_reloaded_then_keeps_columns(
    mid: AppView,
    b: BoardView,
    post: AppView,
    step: spec_fn(AppView) -> AppView,
)
    requires
        reloaded_then(mid, b, post, step),
        mid.focused_col < mid.columns.len(),
        forall|a: AppView|
            a.focused_col < a.columns.len() && a.columns.len() == mid.columns.len() ==> #[trigger] same_columns(
                a,
                step(a),
            ),
    ensures
        same_columns(mid, post),
{
    let all = choose|all: Seq<TodoView>| is_todo_listing(b, None, all) && post == step(reload_with(mid, all));
    let r = reload_with(mid, all);
    lemma_reload_keeps_columns(mid, all);
    assert(same_columns(r, step(r)));
}

proof fn lemma_steps_keep_columns(n: nat, next: usize, id: i64)
    requires
        next < n,
    ensures
        forall|a: AppView| #[trigger] same_columns(a, finish_editing(a)),
        forall|a: AppView| #[trigger] same_columns(a, close_picker(a)),
        forall|a: AppView|
            a.focused_col < a.columns.len() ==> #[trigger] same_columns(a, selection_up(a)),
        forall|a: AppView|
            a.focused_col < a.columns.len() ==> #[trigger] same_columns(a, selection_down(a)),
        forall|a: AppView|
            a.columns.len() == n ==> #[trigger] same_columns(a, follow_moved(a, next, id)),
{
    assert forall|a: AppView| a.focused_col < a.columns.len() implies #[trigger] same_columns(a, selection_up(a)) by {
        let f = a.focused_col as int;
        if a.columns[f].selected > 0 {
            assert(same_columns(a, with_selection(a, f, (a.columns[f].selected - 1) as usize)));
        }
    }
    assert forall|a: AppView| a.focused_col < a.columns.len() implies #[trigger] same_columns(a, selection_down(a)) by {
        let f = a.focused_col as int;
        if a.columns[f].selected + 1 < a.columns[f].todos.len() {
            assert(same_columns(a, with_selection(a, f, (a.columns[f].selected + 1) as usize)));
        }
    }
}

proof fn lemma_bin_refreshed_keeps_columns(mid: AppView, b: BoardView, post: AppView)
    requires
        bin_refreshed(mid, b, post),
    ensures
        same_columns(mid, post),
{
    let (all, arch) = choose|all: Seq<TodoView>, arch: Seq<TodoView>|
        is_todo_listing(b, None, all) && is_archive_listing(b, arch) && post == refill_bin(reload_with(mid, all), arch);
    lemma_reload_keeps_columns(mid, all);
}

/// Whatever key is pressed, the interface keeps its columns: their number,
/// order, ids and names.
pub proof fn lemma_keys_keep_columns(
    pre: AppView,
    b: BoardView,
    key: Key,
    lines: Seq<Seq<char>>,
    today: Date,
    now: Seq<char>,
    post: AppView,
    nb: BoardView,
    r: Result<EditorRequestView, DbError>,
)
    requires
        app_ok(pre),
        key_step(pre, b, key, lines, today, now, post, nb, r),
    ensures
        same_columns(pre, post),
{
    match pre.input_mode {
        InputMode::Normal => {
            lemma_steps_keep_columns(pre.columns.len(), 0, 0);
            lemma_normal_keeps_columns(pre, b, key, today, post, nb, r);
        },
        InputMode::EditingDueDate => {
            lemma_steps_keep_columns(pre.columns.len(), 0, 0);
            if pre.due_date_picker is Some && crate::app::picker_action_of(key)
                == crate::app::PickerAction::Confirm {
                match pre.edit_todo_id {
                    Some(id) => {
                        let text = crate::calendar::ymd_text(pre.due_date_picker->0);
                        lemma_reloaded_then_keeps_columns(
                            with_status(pre, StatusView::DueDateSet(text, id)),
                            nb,
                            post,
                            |a: AppView| close_picker(a),
                        );
                    },
                    None => {
                        lemma_reloaded_then_keeps_columns(pre, b, post, |a: AppView| close_picker(a));
                    },
                }
            }
        },
        InputMode::RecycleBin => {
            let a = crate::app::bin_action_of(key);
            if a == crate::app::BinAction::Restore || a == crate::app::BinAction::Purge {
                match crate::app::bin_selected(pre) {
                    Some(t) => {
                        let st = if a == crate::app::BinAction::Restore {
                            StatusView::Restored(t.id)
                        } else {
                            StatusView::PermanentlyDeleted(t.id)
                        };
                        lemma_bin_refreshed_keeps_columns(with_status(pre, st), nb, post);
                    },
                    None => {
                        lemma_bin_refreshed_keeps_columns(pre, b, post);
                    },
                }
            }
        },
        _ => {
            lemma_steps_keep_columns(pre.columns.len(), 0, 0);
            lemma_input_keeps_columns(pre, b, key, lines, now, post, nb, r);
        },
    }
}

proof fn lemma_input_keeps_columns(
    pre: AppView,
    b: BoardView,
    key: Key,
    lines: Seq<Seq<char>>,
    now: Seq<char>,
    post: AppView,
    nb: BoardView,
    r: Result<EditorRequestView, DbError>,
)
    requires
        input_step(pre, b, key, lines, now, post, nb, r),
        app_ok(pre),
        forall|a: AppView| #[trigger] same_columns(a, finish_editing(a)),
    ensures
        same_columns(pre, post),
{
    let content = crate::app::editor_text(lines);
    let f = |a: AppView| finish_editing(a);
    match crate::app::input_action_of(key, pre.input_mode) {
        crate::app::InputAction::Forward => {},
        crate::app::InputAction::Finish => {
            if pre.input_mode == InputMode::EditingDescription {
                match pre.edit_todo_id {
                    Some(id) => lemma_reloaded_then_keeps_columns(
                        with_status(pre, StatusView::DescriptionUpdated(id)),
                        nb,
                        post,
                        f,
                    ),
                    None => lemma_reloaded_then_keeps_columns(pre, b, post, f),
                }
            }
        },
        crate::app::InputAction::Submit => {
            match pre.input_mode {
                InputMode::Adding => {
                    if content.len() == 0 {
                        lemma_reloaded_then_keeps_columns(pre, b, post, f);
                    } else {
                        let name = pre.columns[pre.focused_col as int].name;
                        match crate::db::add_outcome(b, content, Some(name), now) {
                            Err(e) => {},
                            Ok((added, row)) => lemma_reloaded_then_keeps_columns(
                                with_status(pre, StatusView::Added(row.id, name)),
                                nb,
                                post,
                                f,
                            ),
                        }
                    }
                },
                InputMode::EditingTitle => {
                    if content.len() > 0 && pre.edit_todo_id is Some {
                        let id = pre.edit_todo_id->0;
                        lemma_reloaded_then_keeps_columns(with_status(pre, StatusView::TitleUpdated(id)), nb, post, f);
                    } else {
                        lemma_reloaded_then_keeps_columns(pre, b, post, f);
                    }
                },
                InputMode::Searching => {
                    let mid = AppView {
                        search_query: content,
                        status: if content.len() == 0 {
                            StatusView::SearchCleared
                        } else {
                            StatusView::Filtering(content)
                        },
                        ..pre
                    };
                    lemma_reloaded_then_keeps_columns(mid, b, post, f);
                },
                _ => lemma_reloaded_then_keeps_columns(pre, b, post, f),
            }
        },
    }
}

proof fn lemma_normal_keeps_columns(
    pre: AppView,
    b: BoardView,
    key: Key,
    today: Date,
    post: AppView,
    nb: BoardView,
    r: Result<EditorRequestView, DbError>,
)
    requires
        app_ok(pre),
        normal_step(pre, b, key, today, post, nb, r),
    ensures
        same_columns(pre, post),
{
    let act = crate::app::normal_action_of(key);
    let sel = crate::app::selected_todo(pre);
    match act {
        crate::app::NormalAction::SortUp | crate::app::NormalAction::SortDown => {
            lemma_steps_keep_columns(pre.columns.len(), 0, 0);
            if let Some(t) = sel {
                if crate::db::has_row(b, t.id) {
                    let k = crate::db::row_index(b, t.id);
                    if act == crate::app::NormalAction::SortUp && crate::db::has_peer_above(b, k) {
                        lemma_reloaded_then_keeps_columns(
                            with_status(pre, StatusView::MovedUp(t.id)),
                            nb,
                            post,
                            |a: AppView| selection_up(a),
                        );
                    } else if act == crate::app::NormalAction::SortDown && crate::db::has_peer_below(b, k) {
                        lemma_reloaded_then_keeps_columns(
                            with_status(pre, StatusView::MovedDown(t.id)),
                            nb,
                            post,
                            |a: AppView| selection_down(a),
                        );
                    }
                }
            }
        },
        crate::app::NormalAction::MoveLeft | crate::app::NormalAction::MoveRight => {
            let next = if act == crate::app::NormalAction::MoveLeft {
                crate::app::prev_column(pre)
            } else {
                crate::app::next_column(pre)
            };
            if let Some(t) = sel {
                lemma_steps_keep_columns(pre.columns.len(), next, t.id);
                let name = pre.columns[next as int].name;
                if crate::db::move_outcome(b, t.id, name) is Ok {
                    lemma_reloaded_then_keeps_columns(
                        with_status(pre, StatusView::MovedTo(t.id, name)),
                        nb,
                        post,
                        |a: AppView| follow_moved(a, next, t.id),
                    );
                }
            }
        },
        crate::app::NormalAction::CyclePriority | crate::app::NormalAction::Delete => {
            if let Some(t) = sel {
                let st = if act == crate::app::NormalAction::Delete {
                    StatusView::Deleted(t.id)
                } else {
                    StatusView::PrioritySet(t.id, next_priority(t.priority))
                };
                let mid = with_status(pre, st);
                let all = choose|all: Seq<TodoView>| is_todo_listing(nb, None, all) && post == reload_with(mid, all);
                lemma_reload_keeps_columns(mid, all);
            }
        },
        crate::app::NormalAction::SelectNext | crate::app::NormalAction::SelectPrev => {},
        _ => {},
    }
}

/// The index of the first word of the line in progress of `wrap_state`.
pub open spec fn wrap_start(ws: Seq<Seq<char>>, max_width: int) -> int
    decreases ws.len(),
{
    if ws.len() == 0 {
        0
    } else {
        let (lines, cur) = wrap_state(ws.drop_last(), max_width);
        if cur.len() > 0 && byte_len(cur) + 1 + byte_len(ws.last()) <= max_width {
            wrap_start(ws.drop_last(), max_width)
        } else {
            ws.len() - 1
        }
    }
}

/// The line in progress holds the words from `wrap_start` on.
proof fn lemma_wrap_start(ws: Seq<Seq<char>>, max_width: int, n: int)
    requires
        0 < n <= ws.len(),
        forall|i: int| 0 <= i < ws.len() ==> (#[trigger] ws[i]).len() > 0,
    ensures
        0 <= wrap_start(ws.take(n), max_width) < n,
        wrap_state(ws.take(n), max_width).1 == joined(
            ws.subrange(wrap_start(ws.take(n), max_width), n),
            seq![' '],
        ),
    decreases n,
{
    let t = ws.take(n);
    assert(t.drop_last() =~= ws.take(n - 1));
    assert(t.last() == ws[n - 1]);
    if n == 1 {
        assert(ws.take(0) =~= Seq::<Seq<char>>::empty());
        assert(ws.subrange(0, 1) =~= seq![ws[0]]);
    } else {
        lemma_wrap_start(ws, max_width, n - 1);
        lemma_wrap_state(ws, max_width, n - 1);
        let st = wrap_start(ws.take(n - 1), max_width);
        let (l0, c0) = wrap_state(ws.take(n - 1), max_width);
        if byte_len(c0) + 1 + byte_len(ws[n - 1]) <= max_width {
            assert(ws.subrange(st, n - 1).push(ws[n - 1]) =~= ws.subrange(st, n));
            lemma_joined_push(ws.subrange(st, n - 1), ws[n - 1], seq![' ']);
        } else {
            assert(ws.subrange(n - 1, n) =~= seq![ws[n - 1]]);
        }
    }
}

/// A text joined from a later start is no longer.
proof fn lemma_joined_suffix_shorter(ws: Seq<Seq<char>>, s1: int, s2: int, n: int)
    requires
        0 <= s1 <= s2 < n <= ws.len(),
    ensures
        byte_len(joined(ws.subrange(s2, n), seq![' '])) <= byte_len(joined(ws.subrange(s1, n), seq![' '])),
    decreases s2 - s1,
{
    if s1 < s2 {
        lemma_joined_suffix_shorter(ws, s1 + 1, s2, n);
        lemma_joined_front(ws.subrange(s1, n), seq![' ']);
        assert(ws.subrange(s1, n).drop_first() =~= ws.subrange(s1 + 1, n));
        let a = ws.subrange(s1, n)[0] + seq![' '];
        lemma_byte_len_concat(a, joined(ws.subrange(s1 + 1, n), seq![' ']));
    }
}

/// Joining peels off the first part as well as the last.
proof fn lemma_joined_front(parts: Seq<Seq<char>>, sep: Seq<char>)
    requires
        parts.len() >= 2,
    ensures
        joined(parts, sep) == parts[0] + sep + joined(parts.drop_first(), sep),
    decreases parts.len(),
{
    let d = parts.drop_last();
    if parts.len() == 2 {
        assert(d =~= seq![parts[0]]);
        assert(parts.drop_first() =~= seq![parts[1]]);
        assert(joined(d, sep) == parts[0]);
        assert(joined(parts.drop_first(), sep) == parts[1]);
        assert(joined(parts, sep) == joined(d, sep) + sep + parts.last());
    } else {
        lemma_joined_front(d, sep);
        assert(d.drop_first() =~= parts.drop_first().drop_last());
        assert(parts.drop_first().last() == parts.last());
        assert(joined(parts.drop_first(), sep) == joined(d.drop_first(), sep) + sep + parts.last());
        assert(joined(parts, sep) =~= parts[0] + sep + joined(parts.drop_first(), sep));
    }
}

/// With a width at least as large, greedy filling has at most as many
/// finished lines, and at an equal count its line in progress started no
/// earlier.
proof fn lemma_wrap_wider(ws: Seq<Seq<char>>, w1: int, w2: int, n: int)
    requires
        0 < n <= ws.len(),
        w1 <= w2,
        forall|i: int| 0 <= i < ws.len() ==> (#[trigger] ws[i]).len() > 0,
    ensures
        ({
            let l1 = wrap_state(ws.take(n), w1).0.len();
            let l2 = wrap_state(ws.take(n), w2).0.len();
            l2 < l1 || (l2 == l1 && wrap_start(ws.take(n), w1) <= wrap_start(ws.take(n), w2))
        }),
    decreases n,
{
    let t = ws.take(n);
    assert(t.drop_last() =~= ws.take(n - 1));
    assert(t.last() == ws[n - 1]);
    if n == 1 {
        assert(ws.take(0) =~= Seq::<Seq<char>>::empty());
    } else {
        lemma_wrap_wider(ws, w1, w2, n - 1);
        lemma_wrap_state(ws, w1, n - 1);
        lemma_wrap_state(ws, w2, n - 1);
        lemma_wrap_start(ws, w1, n - 1);
        lemma_wrap_start(ws, w2, n - 1);
        lemma_wrap_start(ws, w1, n);
        lemma_wrap_start(ws, w2, n);
        let p = ws.take(n - 1);
        let s1 = wrap_start(p, w1);
        let s2 = wrap_start(p, w2);
        if wrap_state(p, w1).0.len() == wrap_state(p, w2).0.len() && s1 <= s2 {
            lemma_joined_suffix_shorter(ws, s1, s2, n - 1);
        }
    }
}

/// A wider limit never gives more lines.
pub proof fn lemma_wrap_wider_fewer_lines(text: Seq<char>, w1: int, w2: int)
    requires
        w1 <= w2,
    ensures
        wrapped(text, w2).len() <= wrapped(text, w1).len(),
{
    let ws = words(text);
    if ws.len() > 0 {
        lemma_words_nonempty(text);
        lemma_wrap_state(ws, w1, ws.len() as int);
        lemma_wrap_state(ws, w2, ws.len() as int);
        lemma_wrap_wider(ws, w1, w2, ws.len() as int);
        assert(ws.take(ws.len() as int) =~= ws);
    }
}

/// On the board, BackTab, `h` or Left (without Shift) moves the focus one
/// column to the left, from the first column to the last; the footer message
/// is cleared and nothing else changes.
pub proof fn lemma_focus_left(
    pre: AppView,
    b: BoardView,
    code: KeyCode,
    lines: Seq<Seq<char>>,
    today: Date,
    now: Seq<char>,
    post: AppView,
    nb: BoardView,
    r: Result<EditorRequestView, DbError>,
)
    requires
        app_ok(pre),
        pre.columns.len() <= usize::MAX,
        pre.input_mode == InputMode::Normal,
        code == KeyCode::BackTab || code == KeyCode::Char('h') || code == KeyCode::Left,
        key_step(pre, b, plain(code), lines, today, now, post, nb, r),
    ensures
        post.focused_col as int == (pre.focused_col + pre.columns.len() - 1) % (pre.columns.len() as int),
        post == (AppView { focused_col: post.focused_col, ..with_status(pre, StatusView::Empty) }),
        nb == b,
{
    let n = pre.columns.len() as int;
    let f = pre.focused_col as int;
    if f == 0 {
        vstd::arithmetic::div_mod::lemma_small_mod((n - 1) as nat, n as nat);
    } else {
        vstd::arithmetic::div_mod::lemma_mod_add_multiples_vanish(f - 1, n);
        vstd::arithmetic::div_mod::lemma_small_mod((f - 1) as nat, n as nat);
        assert(f + n - 1 == n + (f - 1));
    }
}

} // verus!
