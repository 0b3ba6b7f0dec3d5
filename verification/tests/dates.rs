use timetracker::dates::{
    monday_of, ru_date_label, ru_month_gen, ru_weekday_short, week_days, CalDate,
};

fn d(y: i32, m: u32, day: u32) -> CalDate {
    CalDate::from_ymd_opt(y, m, day).unwrap()
}

#[test]
fn from_ymd_opt_validates() {
    assert!(CalDate::from_ymd_opt(2015, 3, 14).is_some());
    assert!(CalDate::from_ymd_opt(2015, 0, 14).is_none());
    assert!(CalDate::from_ymd_opt(2015, 2, 29).is_none());
    assert!(CalDate::from_ymd_opt(-4, 2, 29).is_some());
    assert!(CalDate::from_ymd_opt(1900, 2, 29).is_none());
    assert!(CalDate::from_ymd_opt(2000, 2, 29).is_some());
    assert!(CalDate::from_ymd_opt(400000, 1, 1).is_none());
    assert!(CalDate::from_ymd_opt(-400000, 1, 1).is_none());
}

#[test]
fn week_helpers_start_on_monday() {
    // 2026-06-24 is a Wednesday.
    assert_eq!(ru_weekday_short(d(2026, 6, 24)), "Ср");
    assert_eq!(monday_of(d(2026, 6, 24)), d(2026, 6, 22));
    assert_eq!(monday_of(d(2026, 6, 22)), d(2026, 6, 22));
    assert_eq!(monday_of(d(2026, 3, 1)), d(2026, 2, 23));
    let w = week_days(d(2026, 12, 31));
    assert_eq!(w[0], d(2026, 12, 28));
    assert_eq!(w[6], d(2027, 1, 3));
    for (i, day) in w.iter().enumerate() {
        assert_eq!(ru_weekday_short(*day), ["Пн", "Вт", "Ср", "Чт", "Пт", "Сб", "Вс"][i]);
    }
}

#[test]
fn russian_labels() {
    assert_eq!(ru_date_label(d(2026, 7, 6)), "Пн, 6 июля");
    assert_eq!(ru_month_gen(6), "июня");
    assert_eq!(ru_month_gen(0), "");
    assert_eq!(ru_month_gen(13), "");
}
