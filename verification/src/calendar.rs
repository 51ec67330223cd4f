use vstd::prelude::*;

use chrono::{Datelike, Timelike};

use crate::text::{decimal, natural_text};

verus! {

/// The first year that dates can have.
pub const MIN_YEAR: i32 = -262143;

/// The last year that dates can have.
pub const MAX_YEAR: i32 = 262142;

/// A day of the proleptic Gregorian calendar.
#[derive(Debug, Clone, Copy, PartialEq, Eq, Structural)]
pub struct Date {
    pub year: i32,
    pub month: u32,
    pub day: u32,
}

/// Leap years of the proleptic Gregorian calendar.
pub open spec fn is_leap_year(year: int) -> bool {
    (year % 4 == 0 && year % 100 != 0) || year % 400 == 0
}

/// The number of days of `month` in `year`; months outside `1..=12` count 30 days.
pub open spec fn month_length(year: int, month: int) -> int {
    if month == 1 || month == 3 || month == 5 || month == 7 || month == 8 || month == 10 || month
        == 12 {
        31
    } else if month == 4 || month == 6 || month == 9 || month == 11 {
        30
    } else if month == 2 {
        if is_leap_year(year) {
            29
        } else {
            28
        }
    } else {
        30
    }
}

impl Date {
    /// A day that exists, in the years that dates can have.
    pub open spec fn valid(self) -> bool {
        &&& MIN_YEAR <= self.year <= MAX_YEAR
        &&& 1 <= self.month <= 12
        &&& 1 <= self.day <= month_length(self.year as int, self.month as int)
    }
}

/// The day after `d`; `None` after the last day that dates can have.
pub open spec fn next_day(d: Date) -> Option<Date> {
    if d.day < month_length(d.year as int, d.month as int) {
        Some(Date { year: d.year, month: d.month, day: (d.day + 1) as u32 })
    } else if d.month < 12 {
        Some(Date { year: d.year, month: (d.month + 1) as u32, day: 1 })
    } else if d.year < MAX_YEAR {
        Some(Date { year: (d.year + 1) as i32, month: 1, day: 1 })
    } else {
        None
    }
}

/// The day before `d`; `None` before the first day that dates can have.
pub open spec fn prev_day(d: Date) -> Option<Date> {
    if d.day > 1 {
        Some(Date { year: d.year, month: d.month, day: (d.day - 1) as u32 })
    } else if d.month > 1 {
        Some(
            Date {
                year: d.year,
                month: (d.month - 1) as u32,
                day: month_length(d.year as int, d.month - 1) as u32,
            },
        )
    } else if d.year > MIN_YEAR {
        Some(Date { year: (d.year - 1) as i32, month: 12, day: 31 })
    } else {
        None
    }
}

/// The date `n` days after `d`, if it exists.
pub open spec fn days_after(d: Date, n: nat) -> Option<Date>
    decreases n,
{
    if n == 0 {
        Some(d)
    } else {
        match days_after(d, (n - 1) as nat) {
            Some(e) => next_day(e),
            None => None,
        }
    }
}

/// The date `n` days before `d`, if it exists.
pub open spec fn days_before(d: Date, n: nat) -> Option<Date>
    decreases n,
{
    if n == 0 {
        Some(d)
    } else {
        match days_before(d, (n - 1) as nat) {
            Some(e) => prev_day(e),
            None => None,
        }
    }
}

/// Days from 1970-01-01 to `d`.
pub open spec fn days_from_epoch(d: Date) -> int {
    let y = if d.month <= 2 { d.year - 1 } else { d.year as int };
    let era = y / 400;
    let yoe = y % 400;
    let mp = (d.month + 9) % 12;
    let doy = (153 * mp + 2) / 5 + d.day - 1;
    let doe = yoe * 365 + yoe / 4 - yoe / 100 + doy;
    era * 146097 + doe - 719468
}

/// Days since the last Sunday: 0 for Sunday up to 6 for Saturday.
pub open spec fn weekday_from_sunday(d: Date) -> int {
    (days_from_epoch(d) + 4) % 7
}

/// `s` preceded by zeros up to `width` characters.
pub open spec fn zero_padded(s: Seq<char>, width: nat) -> Seq<char> {
    if s.len() >= width {
        s
    } else {
        Seq::new((width - s.len()) as nat, |i: int| '0') + s
    }
}

/// A year as `%Y` writes it: four digits at least, with a sign outside `0..=9999`.
pub open spec fn year_text(year: int) -> Seq<char> {
    if 0 <= year <= 9999 {
        zero_padded(decimal(year as nat), 4)
    } else if year < 0 {
        seq!['-'] + zero_padded(decimal((-year) as nat), 4)
    } else {
        seq!['+'] + zero_padded(decimal(year as nat), 4)
    }
}

/// A date as `%Y-%m-%d` writes it.
pub open spec fn ymd_text(d: Date) -> Seq<char> {
    year_text(d.year as int) + seq!['-'] + zero_padded(decimal(d.month as nat), 2) + seq!['-']
        + zero_padded(decimal(d.day as nat), 2)
}

/// What chrono's `NaiveDate::parse_from_str(s, "%Y-%m-%d")` accepts and reads.
pub uninterp spec fn parsed_ymd(s: Seq<char>) -> Option<Date>;

/// Number of days in the given month of the given year.
pub fn days_in_month(year: i32, month: u32) -> (days: u32)
    ensures
        days == month_length(year as int, month as int),
{
    match month {
        1 | 3 | 5 | 7 | 8 | 10 | 12 => 31,
        4 | 6 | 9 | 11 => 30,
        2 => {
            if (year % 4 == 0 && year % 100 != 0) || year % 400 == 0 {
                29
            } else {
                28
            }
        },
        _ => 30,
    }
}

/// chrono's `NaiveDate::from_ymd_opt`: the date when it exists in chrono's
/// range of years, `None` otherwise.
#[verifier::external_body]
fn from_ymd(year: i32, month: u32, day: u32) -> (r: Option<Date>)
    ensures
        r == (if (Date { year, month, day }).valid() {
            Some(Date { year, month, day })
        } else {
            None
        }),
{
    match chrono::NaiveDate::from_ymd_opt(year, month, day) {
        Some(n) => Some(Date { year: n.year(), month: n.month(), day: n.day() }),
        None => None,
    }
}

/// chrono's `NaiveDate::succ_opt` on a valid date: the next day, `None` at the last one.
#[verifier::external_body]
pub(crate) fn succ(d: Date) -> (r: Option<Date>)
    requires
        d.valid(),
    ensures
        r == next_day(d),
{
    match chrono::NaiveDate::from_ymd_opt(d.year, d.month, d.day).unwrap().succ_opt() {
        Some(n) => Some(Date { year: n.year(), month: n.month(), day: n.day() }),
        None => None,
    }
}

/// chrono's `NaiveDate::pred_opt` on a valid date: the previous day, `None` at the first one.
#[verifier::external_body]
pub(crate) fn pred(d: Date) -> (r: Option<Date>)
    requires
        d.valid(),
    ensures
        r == prev_day(d),
{
    match chrono::NaiveDate::from_ymd_opt(d.year, d.month, d.day).unwrap().pred_opt() {
        Some(n) => Some(Date { year: n.year(), month: n.month(), day: n.day() }),
        None => None,
    }
}

/// chrono's `Weekday::num_days_from_sunday` of a valid date.
#[verifier::external_body]
pub(crate) fn weekday(d: Date) -> (r: u32)
    requires
        d.valid(),
    ensures
        r as int == weekday_from_sunday(d),
{
    chrono::NaiveDate::from_ymd_opt(d.year, d.month, d.day).unwrap().weekday().num_days_from_sunday()
}

/// chrono's `NaiveDate::parse_from_str(s, "%Y-%m-%d")`, as a date.
#[verifier::external_body]
pub(crate) fn parse_ymd(s: &str) -> (r: Option<Date>)
    ensures
        r == parsed_ymd(s@),
        r matches Some(d) ==> d.valid(),
{
    match chrono::NaiveDate::parse_from_str(s, "%Y-%m-%d") {
        Ok(n) => Some(Date { year: n.year(), month: n.month(), day: n.day() }),
        Err(_) => None,
    }
}

/// chrono's `format("%Y-%m-%d")` of a valid date.
#[verifier::external_body]
pub(crate) fn format_ymd(d: Date) -> (r: String)
    requires
        d.valid(),
    ensures
        r@ == ymd_text(d),
{
    chrono::NaiveDate::from_ymd_opt(d.year, d.month, d.day).unwrap().format("%Y-%m-%d").to_string()
}

/// Today's date in the local time zone (chrono's `Local::now().date_naive()`).
#[verifier::external_body]
pub(crate) fn today() -> (r: Date)
    ensures
        r.valid(),
{
    let n = chrono::Local::now().date_naive();
    Date { year: n.year(), month: n.month(), day: n.day() }
}

/// A time of day on a date as `%Y-%m-%d %H:%M:%S` writes it.
pub open spec fn timestamp_text(d: Date, hour: nat, minute: nat, second: nat) -> Seq<char> {
    ymd_text(d) + seq![' '] + zero_padded(decimal(hour), 2) + seq![':'] + zero_padded(decimal(minute), 2)
        + seq![':'] + zero_padded(decimal(second), 2)
}

/// Text that `%Y-%m-%d %H:%M:%S` writes for some moment (a leap second shows as 60).
pub open spec fn is_timestamp(s: Seq<char>) -> bool {
    exists|d: Date, hour: nat, minute: nat, second: nat|
        d.valid() && hour < 24 && minute < 60 && second <= 60 && s == #[trigger] timestamp_text(
            d,
            hour,
            minute,
            second,
        )
}

/// The local time as `%Y-%m-%d %H:%M:%S` (chrono's `Local::now().format(..)`).
/// Which moment it is, is left open.
#[verifier::external_body]
pub(crate) fn now_timestamp() -> (r: String)
    ensures
        is_timestamp(r@),
{
    chrono::Local::now().format("%Y-%m-%d %H:%M:%S").to_string()
}

/// What chrono reads from a text as a date and time of day (`NaiveDateTime`'s
/// `FromStr`): the date, hour, minute and second.
pub uninterp spec fn parsed_datetime(s: Seq<char>) -> Option<(Date, nat, nat, nat)>;

/// chrono's `str::parse::<NaiveDateTime>()`: the date and time of day it reads.
#[verifier::external_body]
pub(crate) fn parse_datetime(s: &str) -> (r: Option<(Date, u32, u32, u32)>)
    ensures
        r is Some == parsed_datetime(s@) is Some,
        r matches Some((d, h, m, x)) ==> parsed_datetime(s@) == Some((d, h as nat, m as nat, x as nat))
            && d.valid() && h < 24 && m < 60,
{
    match s.parse::<chrono::NaiveDateTime>() {
        Ok(n) => Some((Date { year: n.year(), month: n.month(), day: n.day() }, n.hour(), n.minute(), n.second())),
        Err(_) => None,
    }
}

/// A number below 100 in two digits.
pub open spec fn two_digit(n: nat) -> Seq<char> {
    zero_padded(decimal(n), 2)
}

fn two_digits(n: u32) -> (s: String)
    requires
        n < 100,
    ensures
        s@ == two_digit(n as nat),
{
    let t = natural_text(n as u64);
    if n < 10 {
        let mut s = String::from_str("0");
        s.append(t.as_str());
        proof {
            reveal_strlit("0");
            assert(decimal(n as nat).len() == 1);
            assert(s@ =~= two_digit(n as nat));
        }
        s
    } else {
        proof {
            assert(decimal((n / 10) as nat).len() == 1);
            assert(decimal(n as nat).len() == 2);
        }
        t
    }
}

/// A timestamp ends in `:` and two digits of seconds.
proof fn lemma_timestamp_len(s: Seq<char>)
    requires
        is_timestamp(s),
    ensures
        s.len() >= 3,
{
    let (d, h, m, x) = choose|d: Date, hour: nat, minute: nat, second: nat|
        d.valid() && hour < 24 && minute < 60 && second <= 60 && s == #[trigger] timestamp_text(d, hour, minute, second);
    assert(zero_padded(decimal(x), 2).len() >= 2);
}

/// The creation time as the details panel shows it: `%Y-%m-%d %H:%M` of the
/// stored time when chrono reads one from the text, and otherwise of the
/// moment `now` (a `%Y-%m-%d %H:%M:%S` timestamp without its seconds).
pub open spec fn created_label_of(created_at: Seq<char>, now: Seq<char>) -> Seq<char> {
    match parsed_datetime(created_at) {
        Some((d, h, m, _)) => ymd_text(d) + seq![' '] + two_digit(h) + seq![':'] + two_digit(m),
        None => now.take(now.len() - 3),
    }
}

/// The creation time as the details panel shows it, with `now` standing in
/// for a stored time that cannot be read.
pub fn created_label(created_at: &str, now: &str) -> (label: String)
    requires
        is_timestamp(now@),
    ensures
        label@ == created_label_of(created_at@, now@),
{
    match parse_datetime(created_at) {
        Some((d, h, m, _)) => {
            let mut s = format_ymd(d);
            s.append(" ");
            let hh = two_digits(h);
            s.append(hh.as_str());
            s.append(":");
            let mm = two_digits(m);
            s.append(mm.as_str());
            proof {
                reveal_strlit(" ");
                reveal_strlit(":");
            }
            s
        },
        None => {
            proof {
                lemma_timestamp_len(now@);
            }
            let n = now.unicode_len();
            String::from_str(now.substring_char(0, n - 3))
        },
    }
}

/// The creation time as the details panel shows it, reading the clock for a
/// stored time that cannot be read.
pub fn created_label_now(created_at: &str) -> (label: String)
    ensures
        exists|now: Seq<char>| is_timestamp(now) && label@ == created_label_of(created_at@, now),
{
    let now = now_timestamp();
    created_label(created_at, now.as_str())
}

/// The same day one month later, clamped to the length of that month.
pub open spec fn month_later(d: Date) -> Date {
    let (y, m) = if d.month + 1 > 12 { (d.year + 1, 1) } else { (d.year as int, d.month + 1) };
    let len = month_length(y, m);
    Date { year: y as i32, month: m as u32, day: (if d.day <= len { d.day as int } else { len }) as u32 }
}

/// The same day one month earlier, clamped to the length of that month.
pub open spec fn month_earlier(d: Date) -> Date {
    let (y, m) = if d.month - 1 < 1 { (d.year - 1, 12) } else { (d.year as int, d.month - 1) };
    let len = month_length(y, m);
    Date { year: y as i32, month: m as u32, day: (if d.day <= len { d.day as int } else { len }) as u32 }
}

/// One month later, keeping the day where that month has it and otherwise
/// taking its last day. The date must not be in December of the last year.
pub fn add_one_month(date: Date) -> (r: Date)
    requires
        date.valid(),
        !(date.year == MAX_YEAR && date.month == 12),
    ensures
        r == month_later(date),
        r.valid(),
{
    let mut year = date.year;
    let mut month = date.month + 1;
    if month > 12 {
        month = 1;
        year = year + 1;
    }
    let dim = days_in_month(year, month);
    let day = if date.day < dim { date.day } else { dim };
    from_ymd(year, month, day).unwrap()
}

/// One month earlier, keeping the day where that month has it and otherwise
/// taking its last day. The date must not be in January of the first year.
pub fn subtract_one_month(date: Date) -> (r: Date)
    requires
        date.valid(),
        !(date.year == MIN_YEAR && date.month == 1),
    ensures
        r == month_earlier(date),
        r.valid(),
{
    let mut year = date.year;
    let mut month: i32 = date.month as i32 - 1;
    if month < 1 {
        month = 12;
        year = year - 1;
    }
    let month = month as u32;
    let dim = days_in_month(year, month);
    let day = if date.day < dim { date.day } else { dim };
    from_ymd(year, month, day).unwrap()
}

pub proof fn lemma_month_length_bounds(year: int, month: int)
    ensures
        28 <= month_length(year, month) <= 31,
{
}

pub proof fn lemma_next_day_valid(d: Date)
    requires
        d.valid(),
    ensures
        next_day(d) matches Some(e) ==> e.valid(),
{
    lemma_month_length_bounds(d.year as int, d.month as int);
    lemma_month_length_bounds(d.year as int, d.month + 1);
}

pub proof fn lemma_prev_day_valid(d: Date)
    requires
        d.valid(),
    ensures
        prev_day(d) matches Some(e) ==> e.valid(),
{
    lemma_month_length_bounds(d.year as int, d.month - 1);
}

/// Every date reached by stepping forward from a real date is real.
pub proof fn lemma_days_after_valid(d: Date, n: nat)
    requires
        d.valid(),
    ensures
        days_after(d, n) matches Some(e) ==> e.valid(),
    decreases n,
{
    if n > 0 {
        lemma_days_after_valid(d, (n - 1) as nat);
        if let Some(e) = days_after(d, (n - 1) as nat) {
            lemma_next_day_valid(e);
        }
    }
}

/// Every date reached by stepping back from a real date is real.
pub proof fn lemma_days_before_valid(d: Date, n: nat)
    requires
        d.valid(),
    ensures
        days_before(d, n) matches Some(e) ==> e.valid(),
    decreases n,
{
    if n > 0 {
        lemma_days_before_valid(d, (n - 1) as nat);
        if let Some(e) = days_before(d, (n - 1) as nat) {
            lemma_prev_day_valid(e);
        }
    }
}

/// Stepping `n + 1` days forward is one day forward and then `n` more.
pub proof fn lemma_days_after_first_step(d: Date, n: nat)
    requires
        next_day(d) is Some,
    ensures
        days_after(d, n + 1) == days_after(next_day(d)->0, n),
    decreases n,
{
    let e = next_day(d)->0;
    if n > 0 {
        lemma_days_after_first_step(d, (n - 1) as nat);
        assert(days_after(d, n + 1) == match days_after(d, n) {
            Some(x) => next_day(x),
            None => None,
        });
        assert(days_after(e, n) == match days_after(e, (n - 1) as nat) {
            Some(x) => next_day(x),
            None => None,
        });
    } else {
        reveal_with_fuel(days_after, 2);
    }
}

/// Stepping `n + 1` days back is one day back and then `n` more.
pub proof fn lemma_days_before_first_step(d: Date, n: nat)
    requires
        prev_day(d) is Some,
    ensures
        days_before(d, n + 1) == days_before(prev_day(d)->0, n),
    decreases n,
{
    let e = prev_day(d)->0;
    if n > 0 {
        lemma_days_before_first_step(d, (n - 1) as nat);
        assert(days_before(d, n + 1) == match days_before(d, n) {
            Some(x) => prev_day(x),
            None => None,
        });
        assert(days_before(e, n) == match days_before(e, (n - 1) as nat) {
            Some(x) => prev_day(x),
            None => None,
        });
    } else {
        reveal_with_fuel(days_before, 2);
    }
}

/// A date with `n + 1` days after it implies one with `n` days after it.
pub proof fn lemma_days_after_prefix(d: Date, n: nat, m: nat)
    requires
        m <= n,
        days_after(d, n) is Some,
    ensures
        days_after(d, m) is Some,
    decreases n,
{
    if m < n {
        lemma_days_after_prefix(d, (n - 1) as nat, m);
    }
}

pub proof fn lemma_days_before_prefix(d: Date, n: nat, m: nat)
    requires
        m <= n,
        days_before(d, n) is Some,
    ensures
        days_before(d, m) is Some,
    decreases n,
{
    if m < n {
        lemma_days_before_prefix(d, (n - 1) as nat, m);
    }
}

/// The Sunday that starts the week of `d`, if it exists.
pub open spec fn week_start(d: Date) -> Option<Date> {
    days_before(d, weekday_from_sunday(d) as nat)
}

/// The week view can be drawn: its Sunday exists and so do the seven days after it.
pub open spec fn week_fits(d: Date) -> bool {
    &&& week_start(d) is Some
    &&& days_after(week_start(d)->0, 7) is Some
}

/// Steps `n` days back; all of them must exist.
pub fn back_days(d: Date, n: u32) -> (r: Date)
    requires
        d.valid(),
        days_before(d, n as nat) is Some,
    ensures
        Some(r) == days_before(d, n as nat),
        r.valid(),
{
    let mut cur = d;
    let mut i: u32 = 0;
    while i < n
        invariant
            d.valid(),
            i <= n,
            days_before(d, n as nat) is Some,
            Some(cur) == days_before(d, i as nat),
            cur.valid(),
        decreases n - i,
    {
        proof {
            lemma_days_before_prefix(d, n as nat, (i + 1) as nat);
            lemma_prev_day_valid(cur);
        }
        cur = pred(cur).unwrap();
        i = i + 1;
    }
    cur
}

/// Steps `n` days forward; all of them must exist.
pub fn forward_days(d: Date, n: u32) -> (r: Date)
    requires
        d.valid(),
        days_after(d, n as nat) is Some,
    ensures
        Some(r) == days_after(d, n as nat),
        r.valid(),
{
    let mut cur = d;
    let mut i: u32 = 0;
    while i < n
        invariant
            d.valid(),
            i <= n,
            days_after(d, n as nat) is Some,
            Some(cur) == days_after(d, i as nat),
            cur.valid(),
        decreases n - i,
    {
        proof {
            lemma_days_after_prefix(d, n as nat, (i + 1) as nat);
            lemma_next_day_valid(cur);
        }
        cur = succ(cur).unwrap();
        i = i + 1;
    }
    cur
}

/// Whether the week view of `d` can be drawn.
pub fn check_week_fits(d: Date) -> (ok: bool)
    requires
        d.valid(),
    ensures
        ok == week_fits(d),
{
    let wd = weekday(d);
    let mut cur = d;
    let mut i: u32 = 0;
    while i < wd
        invariant
            d.valid(),
            i <= wd,
            wd as int == weekday_from_sunday(d),
            Some(cur) == days_before(d, i as nat),
            cur.valid(),
        decreases wd - i,
    {
        proof {
            lemma_prev_day_valid(cur);
        }
        match pred(cur) {
            Some(p) => {
                cur = p;
            },
            None => {
                proof {
                    assert forall|m: nat| m > i implies days_before(d, m) is None by {
                        lemma_none_stays_before(d, (i + 1) as nat, m);
                    }
                }
                return false;
            },
        }
        i = i + 1;
    }
    let start = cur;
    let mut j: u32 = 0;
    while j < 7
        invariant
            start.valid(),
            Some(start) == week_start(d),
            j <= 7,
            Some(cur) == days_after(start, j as nat),
            cur.valid(),
        decreases 7 - j,
    {
        proof {
            lemma_next_day_valid(cur);
        }
        match succ(cur) {
            Some(n) => {
                cur = n;
            },
            None => {
                proof {
                    lemma_none_stays_after(start, (j + 1) as nat, 7);
                }
                return false;
            },
        }
        j = j + 1;
    }
    true
}

proof fn lemma_none_stays_before(d: Date, n: nat, m: nat)
    requires
        n <= m,
        days_before(d, n) is None,
    ensures
        days_before(d, m) is None,
    decreases m,
{
    if n < m {
        lemma_none_stays_before(d, n, (m - 1) as nat);
    }
}

proof fn lemma_none_stays_after(d: Date, n: nat, m: nat)
    requires
        n <= m,
        days_after(d, n) is None,
    ensures
        days_after(d, m) is None,
    decreases m,
{
    if n < m {
        lemma_none_stays_after(d, n, (m - 1) as nat);
    }
}

/// The seven days of the week (Sunday first) that contains `selected`.
pub fn week_of(selected: Date) -> (week: Vec<Date>)
    requires
        selected.valid(),
        week_fits(selected),
    ensures
        week@.len() == 7,
        forall|i: int| 0 <= i < 7 ==> Some(#[trigger] week@[i]) == days_after(week_start(selected)->0, i as nat),
{
    let wd = weekday(selected);
    let start = back_days(selected, wd);
    let mut week: Vec<Date> = Vec::new();
    let mut cur = start;
    let mut j: u32 = 0;
    while j < 7
        invariant
            start.valid(),
            Some(start) == week_start(selected),
            days_after(start, 7) is Some,
            j <= 7,
            week@.len() == j,
            Some(cur) == days_after(start, j as nat),
            cur.valid(),
            forall|i: int| 0 <= i < j ==> Some(#[trigger] week@[i]) == days_after(start, i as nat),
        decreases 7 - j,
    {
        week.push(cur);
        proof {
            lemma_days_after_prefix(start, 7, (j + 1) as nat);
            lemma_next_day_valid(cur);
        }
        cur = succ(cur).unwrap();
        j = j + 1;
    }
    week
}

/// The English name of a month; empty outside `1..=12`.
pub fn month_name(month: u32) -> (name: &'static str)
    ensures
        name@ == month_name_of(month as int),
{
    match month {
        1 => "January",
        2 => "February",
        3 => "March",
        4 => "April",
        5 => "May",
        6 => "June",
        7 => "July",
        8 => "August",
        9 => "September",
        10 => "October",
        11 => "November",
        12 => "December",
        _ => "",
    }
}

pub open spec fn month_name_of(month: int) -> Seq<char> {
    if month == 1 {
        "January"@
    } else if month == 2 {
        "February"@
    } else if month == 3 {
        "March"@
    } else if month == 4 {
        "April"@
    } else if month == 5 {
        "May"@
    } else if month == 6 {
        "June"@
    } else if month == 7 {
        "July"@
    } else if month == 8 {
        "August"@
    } else if month == 9 {
        "September"@
    } else if month == 10 {
        "October"@
    } else if month == 11 {
        "November"@
    } else if month == 12 {
        "December"@
    } else {
        ""@
    }
}

} // verus!
