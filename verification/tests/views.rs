use timetracker::dates::CalDate;
use timetracker::models::ExportRow;
use timetracker::views::{
    display_date, export_blocker, export_summary, field_i64, listed_entries, shown_project, heartbeat_due, invoice_limit_minutes, iso_date, minutes_from_parts,
    parse_minutes, parse_time_range, payment_fields, period_range, rows_of_project, ru_month,
    split_minutes, start_or_stop, tab_from_name, week_label, zap, BillingForms, NoteEditors, Period, Tab,
    TimerAction, TrackerNotes,
};

fn d(y: i32, m: u32, day: u32) -> CalDate {
    CalDate::from_ymd_opt(y, m, day).unwrap()
}

#[test]
fn tab_names() {
    assert_eq!(tab_from_name(Some("calendar")), Tab::Calendar);
    assert_eq!(tab_from_name(Some("projects")), Tab::Projects);
    assert_eq!(tab_from_name(Some("export")), Tab::Export);
    assert_eq!(tab_from_name(Some("Export")), Tab::Tracker);
    assert_eq!(tab_from_name(None), Tab::Tracker);
}

#[test]
fn export_periods() {
    let today = d(2026, 6, 24);
    assert_eq!(period_range(Period::ThisWeek, today), (d(2026, 6, 22), d(2026, 6, 28)));
    assert_eq!(period_range(Period::LastWeek, today), (d(2026, 6, 15), d(2026, 6, 21)));
    assert_eq!(period_range(Period::ThisMonth, today), (d(2026, 6, 1), d(2026, 6, 30)));
    assert_eq!(period_range(Period::ThisMonth, d(2024, 2, 10)), (d(2024, 2, 1), d(2024, 2, 29)));
    assert_eq!(period_range(Period::ThisMonth, d(2026, 12, 5)), (d(2026, 12, 1), d(2026, 12, 31)));
    // No month follows the last one chrono knows: the range ends the day before.
    assert_eq!(period_range(Period::ThisMonth, d(262142, 12, 1)), (d(262142, 12, 1), d(262142, 11, 30)));
}

#[test]
fn record_count_wording() {
    assert_eq!(zap(1), "запись");
    assert_eq!(zap(21), "запись");
    assert_eq!(zap(11), "записей");
    assert_eq!(zap(3), "записи");
    assert_eq!(zap(13), "записей");
    assert_eq!(zap(0), "записей");
    assert_eq!(zap(105), "записей");
    assert_eq!(ru_month(12), "декабря");
}

#[test]
fn invoice_selector_fields() {
    assert_eq!(field_i64(" 12 "), 12);
    assert_eq!(field_i64("x"), 0);
    assert_eq!(field_i64("-3"), -3);
    assert_eq!(invoice_limit_minutes("2", "15"), 135);
    assert_eq!(invoice_limit_minutes("-2", "abc"), 0);
    assert_eq!(split_minutes(135), (2, 15));
    assert_eq!(split_minutes(-5), (0, 0));
    let (h, m) = split_minutes(601);
    assert_eq!(minutes_from_parts(h, m), 601);
}

#[test]
fn payment_form_fields() {
    assert_eq!(payment_fields("1", "30", "24.06.2026"), Some((90, d(2026, 6, 24))));
    assert_eq!(payment_fields("0", "0", "24.06.2026"), None);
    assert_eq!(payment_fields("1", "0", "31.06.2026"), None);
    assert_eq!(iso_date(d(2026, 6, 4)), "2026-06-04");
    assert_eq!(iso_date(d(12026, 6, 4)), "+12026-06-04");
}

#[test]
fn time_edits_and_timer() {
    assert_eq!(parse_minutes("10:30"), Some(630));
    assert_eq!(parse_minutes("25:00"), None);
    assert_eq!(parse_time_range("09:00", "10:30"), Some(((9, 0), (10, 30))));
    assert_eq!(parse_time_range("09:00", "x"), None);
    assert_eq!(start_or_stop(true, Some(3), Some(1)), TimerAction::Stop);
    assert_eq!(start_or_stop(false, Some(3), Some(1)), TimerAction::Start(3));
    assert_eq!(start_or_stop(false, None, Some(1)), TimerAction::Start(1));
    assert_eq!(start_or_stop(false, None, None), TimerAction::Nothing);
    assert!(heartbeat_due(15) && heartbeat_due(30) && !heartbeat_due(14));
}

#[test]
fn project_note_editors_are_exclusive() {
    let mut e = NoteEditors::closed();
    e.toggle_card(4);
    assert_eq!(e, NoteEditors { card_note: Some(4), entry_note: None });
    e.toggle_entry(9);
    assert_eq!(e, NoteEditors { card_note: None, entry_note: Some(9) });
    e.toggle_entry(9);
    assert_eq!(e, NoteEditors { card_note: None, entry_note: None });
    e.toggle_entry(2);
    e.begin_rename();
    assert_eq!(e, NoteEditors { card_note: None, entry_note: None });
    e.toggle_card(4);
    e.toggle_card(4);
    assert_eq!(e, NoteEditors::closed());
}

#[test]
fn tracker_note_editors_are_exclusive() {
    let mut t = TrackerNotes { entry_note: None, run_note: false };
    t.toggle_run();
    assert_eq!(t, TrackerNotes { entry_note: None, run_note: true });
    t.toggle_entry(5);
    assert_eq!(t, TrackerNotes { entry_note: Some(5), run_note: false });
    t.toggle_run();
    assert_eq!(t, TrackerNotes { entry_note: None, run_note: true });
    t.toggle_run();
    assert_eq!(t, TrackerNotes { entry_note: None, run_note: false });
}

#[test]
fn billing_forms_open_one_at_a_time() {
    let mut f = BillingForms::reset();
    f.toggle_rate_edit();
    assert!(f.rate_edit_open && !f.pay_form_open);
    f.toggle_pay_form();
    assert!(!f.rate_edit_open && f.pay_form_open);
    f.toggle_pay_form();
    assert!(!f.rate_edit_open && !f.pay_form_open);
    f.toggle_rate_edit();
    f.open_invoice(7);
    assert_eq!(f, BillingForms { rate_edit_open: false, pay_form_open: false, invoice_project: Some(7) });
    f.toggle_pay_form();
    f.close_invoice();
    assert_eq!(f, BillingForms { rate_edit_open: false, pay_form_open: true, invoice_project: None });
    assert_eq!(BillingForms::reset(), BillingForms { rate_edit_open: false, pay_form_open: false, invoice_project: None });
}

fn row(project: &str, secs: i64) -> ExportRow {
    ExportRow {
        date: "2026-06-24".into(),
        project: project.into(),
        description: String::new(),
        start: "09:00".into(),
        end: "10:00".into(),
        duration_secs: secs,
        duration_hms: String::new(),
    }
}

#[test]
fn export_filter_and_blockers() {
    let rows = vec![row("Alpha", 1), row("Beta", 2), row("Alpha", 3), row("alpha", 4)];
    let kept = rows_of_project(rows, "Alpha");
    assert_eq!(kept.iter().map(|r| r.duration_secs).collect::<Vec<_>>(), vec![1, 3]);
    assert!(rows_of_project(vec![row("Beta", 2)], "Alpha").is_empty());
    assert_eq!(export_blocker(0, true, true, true), Some("Нет записей за выбранный период"));
    assert_eq!(export_blocker(3, false, false, false), Some("Выберите хотя бы один формат"));
    assert_eq!(export_blocker(3, false, true, false), None);
}

#[test]
fn payment_dates_display_in_russian_form() {
    assert_eq!(display_date("2026-06-04"), "04.06.2026");
    assert_eq!(display_date("2026-02-30"), "2026-02-30");
    assert_eq!(display_date("junk"), "junk");
}

#[test]
fn calendar_week_heading() {
    let week = timetracker::dates::week_days(d(2026, 12, 31));
    assert_eq!(week_label(&week), "28 – 3 января 2027");
    let week = timetracker::dates::week_days(d(2026, 6, 24));
    assert_eq!(week_label(&week), "22 – 28 июня 2026");
}

#[test]
fn tracker_and_export_small_decisions() {
    assert_eq!(export_summary(3, 5400), "3 записи · 1ч 30м");
    assert_eq!(export_summary(21, 60), "21 запись · 1м");
    assert_eq!(export_summary(0, 0), "0 записей · 0м");
    assert_eq!(listed_entries(&vec![7, 8, 9], Some(8)), vec![0, 2]);
    assert_eq!(listed_entries(&vec![7, 8], None), vec![0, 1]);
    assert_eq!(shown_project(Some(4), Some(1)), Some(4));
    assert_eq!(shown_project(None, Some(1)), Some(1));
    assert_eq!(shown_project(None, None), None);
    let week = timetracker::dates::week_days(d(2026, 6, 24)).to_vec();
    assert_eq!(timetracker::store::find_day(&week, d(2026, 6, 26)), Some(4));
    assert_eq!(timetracker::store::find_day(&week, d(2026, 6, 29)), None);
}
