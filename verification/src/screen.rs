use vstd::prelude::*;

use crate::app::{ColumnState, InputMode, TuiApp};
use crate::calendar::{self, days_after, month_name_of, week_fits, week_start, weekday_from_sunday, ymd_text, Date};
use crate::display::{ansi_color_of, heading_of, status_message};
use crate::models::Todo;
use crate::text::{decimal, signed_decimal, strings_view, uppercase, wrapped};

verus! {

/// `#`, the id and a space: how a card and the details panel name a todo.
pub open spec fn id_tag(id: i64) -> Seq<char> {
    "#"@ + signed_decimal(id as int) + " "@
}

/// A todo's id as a card and the details panel show it.
pub fn id_label(id: i64) -> (s: String)
    ensures
        s@ == id_tag(id),
{
    let mut s = String::from_str("#");
    let n = crate::text::int_text(id);
    s.append(n.as_str());
    s.append(" ");
    s
}

/// `n` spaces.
pub open spec fn spaces(n: nat) -> Seq<char> {
    Seq::new(n, |i: int| ' ')
}

fn spaces_text(n: usize) -> (s: String)
    ensures
        s@ == spaces(n as nat),
{
    let mut s = String::new();
    let mut i: usize = 0;
    while i < n
        invariant
            i <= n,
            s@ == spaces(i as nat),
        decreases n - i,
    {
        s.append(" ");
        proof {
            reveal_strlit(" ");
        }
        i = i + 1;
        assert(s@ =~= spaces(i as nat));
    }
    s
}

/// The title of a column's box: its heading and how many todos it shows.
pub open spec fn column_title_of(name: Seq<char>, count: nat) -> Seq<char> {
    " "@ + heading_of(name) + " ("@ + decimal(count) + ") "@
}

/// The title of a column's box.
pub fn column_title(name: &String, count: usize) -> (t: String)
    ensures
        t@ == column_title_of(name@, count as nat),
{
    let mut t = String::from_str(" ");
    let h = crate::display::column_heading(name);
    t.append(h.as_str());
    t.append(" (");
    let n = crate::text::natural_text(count as u64);
    t.append(n.as_str());
    t.append(") ");
    t
}

/// One line of a card: what leads it (the id tag, or spaces as wide) and
/// a line of the wrapped title.
pub struct CardLine {
    pub lead: String,
    pub text: String,
}

/// The lines of a card: its title wrapped to `width`, the first line led by
/// the id tag and the others by as many spaces.
pub open spec fn card_lines_of(id: i64, title: Seq<char>, width: int) -> Seq<(Seq<char>, Seq<char>)> {
    let lines = wrapped(title, width);
    Seq::new(
        lines.len(),
        |i: int|
            (
                if i == 0 {
                    id_tag(id)
                } else {
                    spaces(id_tag(id).len())
                },
                lines[i],
            ),
    )
}

pub open spec fn card_lines_view(lines: Seq<CardLine>) -> Seq<(Seq<char>, Seq<char>)> {
    lines.map_values(|l: CardLine| (l.lead@, l.text@))
}

/// The lines of a card with the given id and title, `max_width` bytes wide.
pub fn card_lines(id: i64, title: &str, max_width: usize) -> (lines: Vec<CardLine>)
    ensures
        card_lines_view(lines@) == card_lines_of(id, title@, max_width as int),
{
    let wrapped_lines = crate::text::wrap_text(title, max_width);
    let ghost w = wrapped(title@, max_width as int);
    let tag = id_label(id);
    let pad = spaces_text(tag.unicode_len());
    let mut lines: Vec<CardLine> = Vec::new();
    let mut i: usize = 0;
    while i < wrapped_lines.len()
        invariant
            w == strings_view(wrapped_lines@),
            w == wrapped(title@, max_width as int),
            tag@ == id_tag(id),
            pad@ == spaces(id_tag(id).len()),
            i <= wrapped_lines@.len(),
            card_lines_view(lines@) == card_lines_of(id, title@, max_width as int).take(i as int),
        decreases wrapped_lines@.len() - i,
    {
        let lead = if i == 0 {
            tag.clone()
        } else {
            pad.clone()
        };
        let line = CardLine { lead, text: wrapped_lines[i].clone() };
        let ghost want = card_lines_of(id, title@, max_width as int);
        assert(line.text@ == w[i as int]);
        assert((line.lead@, line.text@) == want[i as int]);
        let ghost before = lines@;
        lines.push(line);
        assert(lines@ == before.push(line));
        assert(card_lines_view(lines@) =~= card_lines_view(before).push((line.lead@, line.text@)));
        i = i + 1;
        assert(card_lines_view(lines@) =~= want.take(i as int));
    }
    assert(card_lines_of(id, title@, max_width as int).take(i as int) =~= card_lines_of(
        id,
        title@,
        max_width as int,
    ));
    lines
}

/// What the footer shows.
#[derive(Debug, Clone, PartialEq, Eq)]
pub enum Footer {
    /// How to confirm or cancel, while a popup is open.
    EditorKeys,
    /// The status message.
    Status(String),
    /// The key hints, when there is no message.
    KeyHints,
}

/// What the footer shows: the editor keys while a popup is open, and
/// otherwise the status message, or the key hints when it is empty.
pub fn footer(app: &TuiApp) -> (f: Footer)
    ensures
        match f {
            Footer::EditorKeys => app@.input_mode != InputMode::Normal,
            Footer::Status(t) => app@.input_mode == InputMode::Normal && t@ == status_message(app@.status)
                && t@.len() > 0,
            Footer::KeyHints => app@.input_mode == InputMode::Normal && status_message(app@.status).len() == 0,
        },
{
    if app.input_mode != InputMode::Normal {
        return Footer::EditorKeys;
    }
    let t = crate::display::status_text(&app.status);
    if t.unicode_len() == 0 {
        Footer::KeyHints
    } else {
        Footer::Status(t)
    }
}

/// The header's search text: shown while searching or filtering.
pub open spec fn search_label_of(query: Seq<char>, searching: bool) -> Seq<char> {
    if query.len() > 0 || searching {
        "🔍 Search: "@ + query + " "@
    } else {
        Seq::empty()
    }
}

/// The header's search text.
pub fn search_label(app: &TuiApp) -> (s: String)
    ensures
        s@ == search_label_of(app@.search_query, app@.input_mode == InputMode::Searching),
{
    if app.search_query.unicode_len() > 0 || app.input_mode == InputMode::Searching {
        let mut s = String::from_str("🔍 Search: ");
        s.append(app.search_query.as_str());
        s.append(" ");
        s
    } else {
        String::new()
    }
}

/// The name of a day of the week, counted from Sunday.
pub open spec fn weekday_name_of(n: int) -> Seq<char> {
    if n == 0 {
        "Sunday"@
    } else if n == 1 {
        "Monday"@
    } else if n == 2 {
        "Tuesday"@
    } else if n == 3 {
        "Wednesday"@
    } else if n == 4 {
        "Thursday"@
    } else if n == 5 {
        "Friday"@
    } else {
        "Saturday"@
    }
}

/// The date in the header, as `%A, %Y-%m-%d` writes it.
pub open spec fn header_date_of(d: Date) -> Seq<char> {
    weekday_name_of(weekday_from_sunday(d)) + ", "@ + ymd_text(d)
}

/// The date in the header.
pub fn header_date(d: Date) -> (s: String)
    requires
        d.valid(),
    ensures
        s@ == header_date_of(d),
{
    let n = calendar::weekday(d);
    let mut s = String::from_str(
        if n == 0 {
            "Sunday"
        } else if n == 1 {
            "Monday"
        } else if n == 2 {
            "Tuesday"
        } else if n == 3 {
            "Wednesday"
        } else if n == 4 {
            "Thursday"
        } else if n == 5 {
            "Friday"
        } else {
            "Saturday"
        },
    );
    s.append(", ");
    let ymd = calendar::format_ymd(d);
    s.append(ymd.as_str());
    s
}

/// Today's date in the header, read from the clock.
pub fn header_date_now() -> (s: String)
    ensures
        exists|today: Date| today.valid() && s@ == header_date_of(today),
{
    header_date(calendar::today())
}

/// The heading of the date picker: the month's name and the year between arrows.
pub open spec fn picker_heading_of(d: Date) -> Seq<char> {
    "◄  "@ + month_name_of(d.month as int) + " "@ + signed_decimal(d.year as int) + "  ►"@
}

/// The heading of the date picker.
pub fn picker_heading(d: Date) -> (s: String)
    ensures
        s@ == picker_heading_of(d),
{
    let mut s = String::from_str("◄  ");
    s.append(calendar::month_name(d.month));
    s.append(" ");
    let y = crate::text::int_text(d.year as i64);
    s.append(y.as_str());
    s.append("  ►");
    s
}

/// How a day of the picker's week stands out.
#[derive(Debug, Clone, Copy, PartialEq, Eq, Structural)]
pub enum DayMark {
    Selected,
    Today,
    Plain,
}

/// A day of the picker's week: its label and how it stands out.
#[derive(Debug, Clone, PartialEq, Eq)]
pub struct DayCell {
    pub label: String,
    pub mark: DayMark,
}

/// A day of the month as the picker labels it: right-aligned in two places,
/// with a space on each side.
pub open spec fn day_label_of(day: nat) -> Seq<char> {
    let digits = decimal(day);
    " "@ + (if digits.len() < 2 {
        spaces((2 - digits.len()) as nat) + digits
    } else {
        digits
    }) + " "@
}

/// The selected date stands out most, then today.
pub open spec fn day_mark_of(d: Date, selected: Date, today: Date) -> DayMark {
    if d == selected {
        DayMark::Selected
    } else if d == today {
        DayMark::Today
    } else {
        DayMark::Plain
    }
}

/// The `i`-th day of the week shown for `selected`, from its Sunday.
pub open spec fn week_day(selected: Date, i: int) -> Date {
    days_after(week_start(selected)->0, i as nat)->0
}

fn day_label(day: u32) -> (s: String)
    requires
        day < 100,
    ensures
        s@ == day_label_of(day as nat),
{
    let digits = crate::text::natural_text(day as u64);
    let mut s = String::from_str(" ");
    if day < 10 {
        s.append(" ");
        proof {
            assert(decimal(day as nat).len() == 1);
            reveal_strlit(" ");
            assert(spaces(1) =~= " "@);
        }
    } else {
        proof {
            assert(decimal((day / 10) as nat).len() == 1);
            assert(decimal(day as nat).len() == 2);
        }
    }
    s.append(digits.as_str());
    s.append(" ");
    proof {
        reveal_strlit(" ");
        assert(s@ =~= day_label_of(day as nat));
    }
    s
}

/// The seven days of the picker's week for `selected`, from its Sunday, with
/// `today` marked.
pub fn picker_days(selected: Date, today: Date) -> (cells: Vec<DayCell>)
    requires
        selected.valid(),
        week_fits(selected),
    ensures
        cells@.len() == 7,
        forall|i: int|
            0 <= i < 7 ==> (#[trigger] cells@[i]).label@ == day_label_of(week_day(selected, i).day as nat)
                && cells@[i].mark == day_mark_of(week_day(selected, i), selected, today),
{
    let week = calendar::week_of(selected);
    let mut cells: Vec<DayCell> = Vec::new();
    let mut i: usize = 0;
    while i < 7
        invariant
            selected.valid(),
            week_fits(selected),
            week@.len() == 7,
            forall|j: int| 0 <= j < 7 ==> Some(#[trigger] week@[j]) == days_after(week_start(selected)->0, j as nat),
            i <= 7,
            cells@.len() == i,
            forall|j: int|
                0 <= j < i ==> (#[trigger] cells@[j]).label@ == day_label_of(week_day(selected, j).day as nat)
                    && cells@[j].mark == day_mark_of(week_day(selected, j), selected, today),
        decreases 7 - i,
    {
        let d = week[i];
        assert(Some(week@[i as int]) == days_after(week_start(selected)->0, i as nat));
        assert(d == week_day(selected, i as int));
        assert(d.day <= 31) by {
            calendar::lemma_days_before_valid(selected, weekday_from_sunday(selected) as nat);
            calendar::lemma_days_after_valid(week_start(selected)->0, i as nat);
            calendar::lemma_month_length_bounds(d.year as int, d.month as int);
        }
        let mark = if d == selected {
            DayMark::Selected
        } else if d == today {
            DayMark::Today
        } else {
            DayMark::Plain
        };
        cells.push(DayCell { label: day_label(d.day), mark });
        i = i + 1;
    }
    cells
}

/// The seven days of the picker's week, with today read from the clock.
pub fn picker_days_now(selected: Date) -> (cells: Vec<DayCell>)
    requires
        selected.valid(),
        week_fits(selected),
    ensures
        exists|today: Date|
            today.valid() && cells@.len() == 7 && forall|i: int|
                0 <= i < 7 ==> (#[trigger] cells@[i]).label@ == day_label_of(week_day(selected, i).day as nat)
                    && cells@[i].mark == day_mark_of(week_day(selected, i), selected, today),
{
    let today = calendar::today();
    picker_days(selected, today)
}

/// A todo as the recycle bin lists it, with the column it came from.
pub open spec fn bin_entry_of(id: i64, title: Seq<char>, column_name: Seq<char>) -> Seq<char> {
    id_tag(id) + title + " (original: "@ + column_name + ")"@
}

/// A todo as the recycle bin lists it.
pub fn bin_entry(t: &Todo) -> (s: String)
    ensures
        s@ == bin_entry_of(t.id, t.title@, t.column_name@),
{
    let mut s = id_label(t.id);
    s.append(t.title.as_str());
    s.append(" (original: ");
    s.append(t.column_name.as_str());
    s.append(")");
    s
}

/// A priority as the details panel shows it: in capitals, in brackets.
pub open spec fn priority_label_of(p: Seq<char>) -> Seq<char> {
    "["@ + uppercase(p) + "]"@
}

/// A priority as the details panel shows it.
pub fn priority_label(p: &String) -> (s: String)
    ensures
        s@ == priority_label_of(p@),
{
    let mut s = String::from_str("[");
    let u = crate::text::to_uppercase(p.as_str());
    s.append(u.as_str());
    s.append("]");
    s
}

/// The terminal code that ends a color.
pub open spec fn color_reset() -> Seq<char> {
    "\x1b[0m"@
}

/// A column's heading in the command-line listing: its name in capitals, in its color.
pub open spec fn list_heading_of(name: Seq<char>) -> Seq<char> {
    ansi_color_of(name) + uppercase(name) + color_reset()
}

/// A column's heading in the command-line listing.
pub fn list_heading(name: &String) -> (s: String)
    ensures
        s@ == list_heading_of(name@),
{
    let mut s = String::from_str(crate::display::ansi_color(name));
    let u = crate::text::to_uppercase(name.as_str());
    s.append(u.as_str());
    s.append("\x1b[0m");
    s
}

/// `s` followed by spaces up to `width` characters.
pub open spec fn left_aligned(s: Seq<char>, width: nat) -> Seq<char> {
    if s.len() >= width {
        s
    } else {
        s + spaces((width - s.len()) as nat)
    }
}

/// A todo in the command-line listing: indented, its id (left-aligned in
/// four places after `#`) in its column's color, then its title.
pub open spec fn list_entry_of(column_name: Seq<char>, id: i64, title: Seq<char>) -> Seq<char> {
    "  "@ + ansi_color_of(column_name) + "#"@ + left_aligned(signed_decimal(id as int), 4) + color_reset() + " "@
        + title
}

/// A todo in the command-line listing, in the color of the named column.
pub fn list_entry(column_name: &String, t: &Todo) -> (s: String)
    ensures
        s@ == list_entry_of(column_name@, t.id, t.title@),
{
    let mut s = String::from_str("  ");
    s.append(crate::display::ansi_color(column_name));
    s.append("#");
    let n = crate::text::int_text(t.id);
    s.append(n.as_str());
    let len = n.unicode_len();
    if len < 4 {
        let pad = spaces_text(4 - len);
        s.append(pad.as_str());
    }
    s.append("\x1b[0m");
    s.append(" ");
    s.append(t.title.as_str());
    proof {
        assert(s@ =~= list_entry_of(column_name@, t.id, t.title@));
    }
    s
}

/// What a popup holds.
#[derive(Debug, Clone, Copy, PartialEq, Eq, Structural)]
pub enum PopupKind {
    TextEditor,
    DatePicker,
    RecycleBin,
}

/// A popup: what it holds, its width in percent of the screen and its height in rows.
#[derive(Debug, Clone, Copy, PartialEq, Eq, Structural)]
pub struct Popup {
    pub kind: PopupKind,
    pub width_pct: u16,
    pub height: u16,
}

/// The popup of each mode: none on the board, the date picker and the
/// recycle bin in their own sizes, a larger editor for descriptions.
pub open spec fn popup_of(mode: InputMode) -> Option<Popup> {
    match mode {
        InputMode::Normal => None,
        InputMode::EditingDueDate => Some(Popup { kind: PopupKind::DatePicker, width_pct: 60, height: 6 }),
        InputMode::RecycleBin => Some(Popup { kind: PopupKind::RecycleBin, width_pct: 60, height: 12 }),
        InputMode::EditingDescription => Some(Popup { kind: PopupKind::TextEditor, width_pct: 70, height: 10 }),
        _ => Some(Popup { kind: PopupKind::TextEditor, width_pct: 50, height: 5 }),
    }
}

/// The popup shown in a mode, if any.
pub fn popup(mode: InputMode) -> (p: Option<Popup>)
    ensures
        p == popup_of(mode),
{
    match mode {
        InputMode::Normal => None,
        InputMode::EditingDueDate => Some(Popup { kind: PopupKind::DatePicker, width_pct: 60, height: 6 }),
        InputMode::RecycleBin => Some(Popup { kind: PopupKind::RecycleBin, width_pct: 60, height: 12 }),
        InputMode::EditingDescription => Some(Popup { kind: PopupKind::TextEditor, width_pct: 70, height: 10 }),
        _ => Some(Popup { kind: PopupKind::TextEditor, width_pct: 50, height: 5 }),
    }
}

/// The card a column's list highlights: its selection, when it has cards.
pub fn highlighted_card(col: &ColumnState) -> (h: Option<usize>)
    ensures
        h == (if col.todos@.len() > 0 {
            Some(col.selected)
        } else {
            None::<usize>
        }),
{
    if col.todos.len() > 0 {
        Some(col.selected)
    } else {
        None
    }
}

/// The line around a column's box.
#[derive(Debug, Clone, Copy, PartialEq, Eq, Structural)]
pub enum Border {
    Thick,
    Plain,
}

/// How a column's box is drawn: a thick, bold line around the focused one.
#[derive(Debug, Clone, Copy, PartialEq, Eq, Structural)]
pub struct ColumnFrame {
    pub border: Border,
    pub bold: bool,
}

/// How a column's box is drawn, by whether it has the focus.
pub fn column_frame(focused: bool) -> (f: ColumnFrame)
    ensures
        f.bold == focused,
        f.border == (if focused {
            Border::Thick
        } else {
            Border::Plain
        }),
{
    if focused {
        ColumnFrame { border: Border::Thick, bold: true }
    } else {
        ColumnFrame { border: Border::Plain, bold: false }
    }
}

} // verus!
