use timetracker::dates::CalDate;
use timetracker::models::TimeEntry;
use timetracker::palette::{nth_palette, pal_for_hex};
use timetracker::store::{
    add_manual_entry_op, billable_entries, delete_entry_op, entry_description, export_row,
    hm_label, new_project_color, normalize_note, pending_migrations, project_figures,
    project_history, set_entry_note_op, start_entry_ops, stop_running_op, stored_color,
    update_entry_op, ymd_label, ClockTime, DatedEntry, EntryOp, SpanEntry, WeekEntry,
};

fn d(y: i32, m: u32, day: u32) -> CalDate {
    CalDate::from_ymd_opt(y, m, day).unwrap()
}

fn entry(id: i64, description: Option<&str>, note: Option<&str>) -> TimeEntry {
    TimeEntry {
        id,
        project_id: 1,
        description: description.map(String::from),
        note: note.map(String::from),
        start_ts: "2026-07-07T09:00:00Z".into(),
        end_ts: None,
        created_at: "2026-07-07T09:00:00Z".into(),
    }
}

#[test]
fn project_note_roundtrips_and_blanks_to_null() {
    assert_eq!(normalize_note(None), None);
    assert_eq!(normalize_note(Some("  https://x.io  ")).as_deref(), Some("https://x.io"));
    assert_eq!(normalize_note(Some("   ")), None);
    assert_eq!(entry_description("  desc "), Some("desc".to_string()));
    assert_eq!(entry_description(""), None);
}

#[test]
fn migrations_run_from_the_stored_version() {
    assert_eq!(pending_migrations(0, 3), Some(0));
    assert_eq!(pending_migrations(2, 3), Some(2));
    assert_eq!(pending_migrations(3, 3), None);
    assert_eq!(pending_migrations(5, 3), None);
    assert_eq!(pending_migrations(-1, 3), None);
}

#[test]
fn new_projects_take_palette_colors_in_turn() {
    assert_eq!(new_project_color(0), "#4f46e5");
    assert_eq!(new_project_color(1), "#0d9488");
    assert_eq!(new_project_color(7), "#4f46e5");
    assert_eq!(stored_color(None), "#4f46e5");
    assert_eq!(stored_color(Some("#d97706".into())), "#d97706");
}

fn dated(id: i64, date: CalDate, desc: Option<&str>, secs: i64, end: Option<&str>) -> DatedEntry {
    DatedEntry {
        entry: entry(id, desc, None),
        date,
        start_hm: "09:00".into(),
        end_hm: end.map(String::from),
        secs,
    }
}

#[test]
fn history_groups_consecutive_days() {
    let es = vec![
        dated(3, d(2026, 7, 7), Some("c"), 600, None),
        dated(2, d(2026, 7, 7), Some(" "), 3000, Some("10:00")),
        dated(1, d(2026, 7, 6), Some("a"), 7200, Some("11:00")),
    ];
    let h = project_history(&es, &"#0d9488".to_string());
    assert_eq!(h.len(), 2);
    assert_eq!(h[0].date_label, "Вт, 7 июля");
    assert_eq!(h[0].total_label, "1ч 00м");
    assert_eq!(h[0].items.len(), 2);
    assert_eq!(h[0].items[0].range, "09:00 – …");
    assert_eq!(h[0].items[1].desc, "Без названия");
    assert_eq!(h[0].items[1].dur_label, "50м");
    assert_eq!(h[1].date_label, "Пн, 6 июля");
    assert_eq!(h[1].total_label, "2ч 00м");
    assert_eq!(h[1].items[0].range, "09:00 – 11:00");
    assert_eq!(h[1].items[0].color, "#0d9488");
    assert!(project_history(&vec![], &String::new()).is_empty());
}

#[test]
fn project_figures_sum_week_and_all_time() {
    let days: Vec<CalDate> = (0..7).map(|i| d(2026, 7, 6 + i)).collect();
    let week = vec![
        WeekEntry { project_id: 1, date: d(2026, 7, 6), secs: 100 },
        WeekEntry { project_id: 2, date: d(2026, 7, 6), secs: 999 },
        WeekEntry { project_id: 1, date: d(2026, 7, 8), secs: 50 },
        WeekEntry { project_id: 1, date: d(2026, 7, 6), secs: 25 },
    ];
    let all = vec![
        SpanEntry { project_id: 1, secs: 5000 },
        SpanEntry { project_id: 2, secs: 1 },
        SpanEntry { project_id: 1, secs: 175 },
    ];
    let f = project_figures(1, &week, &days, &all);
    assert_eq!(f.week_secs, 175);
    assert_eq!(f.entry_count, 3);
    assert_eq!(f.per_day_secs, vec![125, 0, 50, 0, 0, 0, 0]);
    assert_eq!(f.per_day_secs.iter().sum::<i64>(), f.week_secs);
    assert_eq!(f.total_secs, 5175);
    assert_eq!(f.total_entries, 2);
    let none = project_figures(9, &week, &days, &all);
    assert_eq!((none.week_secs, none.entry_count, none.total_secs, none.total_entries), (0, 0, 0, 0));
}

#[test]
fn export_rows_flatten_an_entry() {
    let e = entry(1, Some(" Docs "), None);
    let r = export_row(
        &"Acme".to_string(),
        &e,
        d(2026, 6, 24),
        ClockTime { hour: 9, minute: 5 },
        None,
        3725,
    );
    assert_eq!(r.date, "2026-06-24");
    assert_eq!(r.project, "Acme");
    assert_eq!(r.description, "Docs");
    assert_eq!(r.start, "09:05");
    assert_eq!(r.end, "");
    assert_eq!(r.duration_hms, "01:02:05");
    assert_eq!(ymd_label(d(33, 1, 2)), "0033-01-02");
    assert_eq!(hm_label(23, 59), "23:59");
}

#[test]
fn starting_a_timer_stops_the_open_one_first() {
    let now = String::from("2026-07-07T09:00:00+00:00");
    let ops = start_entry_ops(4, "  fix login  ", &now);
    assert_eq!(ops.len(), 2);
    match &ops[0] {
        EntryOp::StopRunning { at } => assert_eq!(at, &now),
        other => panic!("unexpected {:?}", other),
    }
    match &ops[1] {
        EntryOp::Insert { project_id, description, start, end, created_at } => {
            assert_eq!(*project_id, 4);
            assert_eq!(description.as_deref(), Some("fix login"));
            assert_eq!(start, &now);
            assert_eq!(end, &None);
            assert_eq!(created_at, &now);
        }
        other => panic!("unexpected {:?}", other),
    }
    match &start_entry_ops(4, "   ", &now)[1] {
        EntryOp::Insert { description, .. } => assert_eq!(description, &None),
        other => panic!("unexpected {:?}", other),
    }
}

#[test]
fn entry_writes_carry_their_fields() {
    let now = String::from("2026-07-07T10:00:00+00:00");
    match stop_running_op(&now) {
        EntryOp::StopRunning { at } => assert_eq!(at, now),
        other => panic!("unexpected {:?}", other),
    }
    match set_entry_note_op(9, Some("  see https://x.io ")) {
        EntryOp::SetNote { id, note } => {
            assert_eq!(id, 9);
            assert_eq!(note.as_deref(), Some("see https://x.io"));
        }
        other => panic!("unexpected {:?}", other),
    }
    match set_entry_note_op(9, Some("  ")) {
        EntryOp::SetNote { note, .. } => assert_eq!(note, None),
        other => panic!("unexpected {:?}", other),
    }
    let start = String::from("2026-07-07T08:00:00+00:00");
    let end = Some(String::from("2026-07-07T09:30:00+00:00"));
    match update_entry_op(3, 2, &start, &end, &Some("review".into())) {
        EntryOp::Update { id, project_id, start: s, end: e, description } => {
            assert_eq!((id, project_id), (3, 2));
            assert_eq!(s, start);
            assert_eq!(e, end);
            assert_eq!(description.as_deref(), Some("review"));
        }
        other => panic!("unexpected {:?}", other),
    }
    let fin = String::from("2026-07-07T09:30:00+00:00");
    match add_manual_entry_op(2, &start, &fin, &None, &now) {
        EntryOp::Insert { project_id, description, start: s, end: e, created_at } => {
            assert_eq!(project_id, 2);
            assert_eq!(description, None);
            assert_eq!(s, start);
            assert_eq!(e, Some(fin.clone()));
            assert_eq!(created_at, now);
        }
        other => panic!("unexpected {:?}", other),
    }
    match delete_entry_op(11) {
        EntryOp::Delete { id } => assert_eq!(id, 11),
        other => panic!("unexpected {:?}", other),
    }
}

#[test]
fn normalizing_a_stored_note_again_changes_nothing() {
    for raw in [None, Some(""), Some("  "), Some(" a b "), Some("x")] {
        let once = normalize_note(raw);
        assert_eq!(normalize_note(once.as_deref()), once);
    }
}

#[test]
fn a_new_projects_color_reads_back_as_its_palette_entry() {
    for k in 0..10i64 {
        let color = new_project_color(k);
        assert_eq!(pal_for_hex(&color), nth_palette(k as usize));
    }
}

#[test]
fn billable_entries_label_minutes_dates_and_ranges() {
    let es = vec![
        dated(1, d(2026, 6, 24), Some("  API docs "), 5430, Some("10:30")),
        dated(2, d(2026, 6, 25), None, 59, None),
    ];
    let b = billable_entries(&es);
    assert_eq!(b.len(), 2);
    assert_eq!((b[0].id, b[0].minutes), (1, 90));
    assert_eq!(b[0].date_label, "24.06.2026");
    assert_eq!(b[0].range_label, "09:00 – 10:30");
    assert_eq!(b[0].desc, "API docs");
    assert_eq!((b[1].id, b[1].minutes), (2, 0));
    assert_eq!(b[1].range_label, "09:00 – …");
    assert_eq!(b[1].desc, "Без названия");
}

#[test]
fn history_lists_every_entry_once_under_its_day() {
    let es = vec![
        dated(5, d(2026, 7, 8), None, 60, None),
        dated(4, d(2026, 7, 7), None, 60, Some("10:00")),
        dated(3, d(2026, 7, 7), None, 60, Some("10:00")),
        dated(2, d(2026, 7, 6), None, 60, Some("10:00")),
        dated(1, d(2026, 7, 7), None, 3600, Some("10:00")),
    ];
    let h = project_history(&es, &"#4f46e5".to_string());
    let ids: Vec<i64> = h.iter().flat_map(|g| g.items.iter().map(|it| it.id)).collect();
    assert_eq!(ids, vec![5, 4, 3, 2, 1]);
    let labels: Vec<&str> = h.iter().map(|g| g.date_label.as_str()).collect();
    assert_eq!(labels, vec!["Ср, 8 июля", "Вт, 7 июля", "Пн, 6 июля", "Вт, 7 июля"]);
    let totals: Vec<&str> = h.iter().map(|g| g.total_label.as_str()).collect();
    assert_eq!(totals, vec!["1м", "2м", "1м", "1ч 00м"]);
}

#[test]
fn hm_labels_read_back() {
    for h in 0..24u32 {
        for m in 0..60u32 {
            assert_eq!(timetracker::models::parse_hm(&hm_label(h, m)), Some((h, m)));
        }
    }
}

#[test]
fn migration_reaches_v3() {
    // A fresh database (version 0) runs every migration, then stands at 3.
    assert_eq!(pending_migrations(0, 3), Some(0));
    assert_eq!(pending_migrations(3, 3), None);
}

/// Performs the planned writes on rows held in memory, as the database does.
fn apply(rows: &mut Vec<TimeEntry>, op: EntryOp) -> i64 {
    match op {
        EntryOp::StopRunning { at } => {
            for r in rows.iter_mut().filter(|r| r.end_ts.is_none()) {
                r.end_ts = Some(at.clone());
            }
            0
        }
        EntryOp::Insert { project_id, description, start, end, created_at } => {
            let id = rows.len() as i64 + 1;
            rows.push(TimeEntry { id, project_id, description, note: None, start_ts: start, end_ts: end, created_at });
            id
        }
        EntryOp::Update { id, project_id, start, end, description } => {
            for r in rows.iter_mut().filter(|r| r.id == id) {
                r.project_id = project_id;
                r.start_ts = start.clone();
                r.end_ts = end.clone();
                r.description = description.clone();
            }
            0
        }
        EntryOp::SetNote { id, note } => {
            for r in rows.iter_mut().filter(|r| r.id == id) {
                r.note = note.clone();
            }
            0
        }
        EntryOp::Delete { id } => {
            rows.retain(|r| r.id != id);
            0
        }
    }
}

#[test]
fn entry_note_survives_running_stop_and_time_edit() {
    let mut rows: Vec<TimeEntry> = Vec::new();
    let now = String::from("2026-07-07T09:00:00Z");
    let mut eid = 0;
    for op in start_entry_ops(1, "desc", &now) {
        eid = apply(&mut rows, op);
    }
    apply(&mut rows, set_entry_note_op(eid, Some("what I did")));
    let running: Vec<&TimeEntry> = rows.iter().filter(|r| r.end_ts.is_none()).collect();
    assert_eq!(running.len(), 1);
    assert_eq!(running[0].note.as_deref(), Some("what I did"));

    apply(&mut rows, stop_running_op(&String::from("2026-07-07T09:30:00Z")));
    // Editing time/description must not clobber the note.
    let start = String::from("2026-07-07T09:00:00Z");
    let end = Some(String::from("2026-07-07T09:05:00Z"));
    apply(&mut rows, update_entry_op(eid, 1, &start, &end, &Some("newdesc".into())));

    let e = rows.iter().find(|r| r.id == eid).unwrap();
    assert_eq!(e.note.as_deref(), Some("what I did"));
    assert_eq!(e.description.as_deref(), Some("newdesc"));
}
