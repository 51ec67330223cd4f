use kanban::calendar::{
    created_label, created_label_now,
    add_one_month, back_days, check_week_fits, days_in_month, forward_days, month_name, subtract_one_month,
    week_of, Date, MAX_YEAR, MIN_YEAR,
};

fn d(year: i32, month: u32, day: u32) -> Date {
    Date { year, month, day }
}

#[test]
fn month_lengths() {
    assert_eq!(days_in_month(2023, 1), 31);
    assert_eq!(days_in_month(2023, 4), 30);
    assert_eq!(days_in_month(2023, 2), 28);
    assert_eq!(days_in_month(2024, 2), 29);
    assert_eq!(days_in_month(1900, 2), 28);
    assert_eq!(days_in_month(2000, 2), 29);
    assert_eq!(days_in_month(-4, 2), 29);
    assert_eq!(days_in_month(2023, 13), 30);
    assert_eq!(days_in_month(2023, 0), 30);
}

#[test]
fn adding_a_month_clamps_the_day() {
    assert_eq!(add_one_month(d(2024, 1, 31)), d(2024, 2, 29));
    assert_eq!(add_one_month(d(2023, 1, 31)), d(2023, 2, 28));
    assert_eq!(add_one_month(d(2023, 12, 15)), d(2024, 1, 15));
    assert_eq!(add_one_month(d(2023, 3, 31)), d(2023, 4, 30));
}

#[test]
fn subtracting_a_month_clamps_the_day() {
    assert_eq!(subtract_one_month(d(2024, 3, 31)), d(2024, 2, 29));
    assert_eq!(subtract_one_month(d(2024, 1, 10)), d(2023, 12, 10));
    assert_eq!(subtract_one_month(d(2023, 5, 31)), d(2023, 4, 30));
}

#[test]
fn next_and_previous_days() {
    assert_eq!(forward_days(d(2023, 12, 31), 1), d(2024, 1, 1));
    assert_eq!(forward_days(d(2024, 2, 28), 1), d(2024, 2, 29));
    assert_eq!(back_days(d(2024, 3, 1), 1), d(2024, 2, 29));
    assert_eq!(back_days(d(2024, 1, 1), 1), d(2023, 12, 31));
    assert_eq!(forward_days(d(MAX_YEAR, 12, 30), 1), d(MAX_YEAR, 12, 31));
    assert_eq!(back_days(d(MIN_YEAR, 1, 2), 1), d(MIN_YEAR, 1, 1));
    assert_eq!(forward_days(d(2024, 5, 5), 0), d(2024, 5, 5));
}

#[test]
fn stepping_a_week() {
    assert_eq!(forward_days(d(2024, 2, 26), 7), d(2024, 3, 4));
    assert_eq!(back_days(d(2024, 3, 4), 7), d(2024, 2, 26));
}

#[test]
fn weeks_start_on_the_sunday_before() {
    assert_eq!(week_of(d(1970, 1, 1))[0], d(1969, 12, 28));
    assert_eq!(week_of(d(2024, 5, 12))[0], d(2024, 5, 12));
    assert_eq!(week_of(d(2024, 5, 18))[0], d(2024, 5, 12));
    assert_eq!(week_of(d(2000, 2, 29))[0], d(2000, 2, 27));
    assert_eq!(week_of(d(1, 1, 1))[0], d(0, 12, 31));
    assert_eq!(week_of(d(-1, 12, 31))[0], d(-1, 12, 26));
}

#[test]
fn week_starts_on_sunday() {
    assert!(check_week_fits(d(2024, 5, 15)));
    let week = week_of(d(2024, 5, 15));
    let days: Vec<u32> = week.iter().map(|x| x.day).collect();
    assert_eq!(days, vec![12, 13, 14, 15, 16, 17, 18]);
    let week = week_of(d(2024, 3, 2));
    assert_eq!(week[0], d(2024, 2, 25));
    assert_eq!(week[6], d(2024, 3, 2));
}

#[test]
fn week_does_not_fit_at_the_edges() {
    assert!(!check_week_fits(d(MIN_YEAR, 1, 1)));
    assert!(!check_week_fits(d(MAX_YEAR, 12, 31)));
}

#[test]
fn month_names() {
    assert_eq!(month_name(1), "January");
    assert_eq!(month_name(9), "September");
    assert_eq!(month_name(12), "December");
    assert_eq!(month_name(13), "");
}

#[test]
fn forward_then_back_returns_the_date() {
    for (start, n) in [(d(2024, 2, 27), 3), (d(2023, 12, 30), 40), (d(1999, 1, 1), 366)] {
        let there = forward_days(start, n);
        assert_eq!(back_days(there, n), start);
        assert_eq!(forward_days(back_days(start, n), n), start);
    }
}

#[test]
fn month_there_and_back() {
    assert_eq!(subtract_one_month(add_one_month(d(2024, 1, 15))), d(2024, 1, 15));
    assert_eq!(add_one_month(subtract_one_month(d(2024, 3, 29))), d(2024, 3, 29));
    // A day missing from the next month is clamped, so the way back lands elsewhere.
    assert_eq!(subtract_one_month(add_one_month(d(2024, 1, 31))), d(2024, 1, 29));
}

#[test]
fn creation_labels() {
    let now = "2025-01-02 03:04:05";
    // chrono reads a date and time only with `T` between them.
    assert_eq!(created_label("2024-05-01T09:30:00", now), "2024-05-01 09:30");
    assert_eq!(created_label("0987-11-20T23:05:59.25", now), "0987-11-20 23:05");
    // Anything else falls back on the given moment, without its seconds.
    assert_eq!(created_label("2024-05-01 09:30:00", now), "2025-01-02 03:04");
    assert_eq!(created_label("garbage", now), "2025-01-02 03:04");
    assert_eq!(created_label_now("2024-05-01T09:30:00"), "2024-05-01 09:30");
    assert_eq!(created_label_now("").len(), 16);
}
