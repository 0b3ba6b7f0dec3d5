use timetracker::dates::CalDate;
use timetracker::instants::{
    elapsed_secs, is_locally_representable, is_representable, local_day_bounds_utc, local_hm,
    local_hm_to_utc, local_minutes, local_ymd, minutes_of_day, now, now_rfc3339, parse_ts, to_rfc3339, Instant,
    FIRST_SECOND, PAST_LAST_SECOND,
};
use timetracker::models::TimeEntry;
use timetracker::store::{
    dated_entries, entry_op_for_times, span_entry, timed_entry_op, ClockTime, EntryOp,
};

fn at(secs: i64) -> Instant {
    Instant { secs, nanos: 0 }
}

fn entry(start: &str, end: Option<&str>) -> TimeEntry {
    TimeEntry {
        id: 1,
        project_id: 2,
        description: Some("work".into()),
        note: None,
        start_ts: start.into(),
        end_ts: end.map(String::from),
        created_at: start.into(),
    }
}

#[test]
fn stored_timestamps_parse_and_print() {
    assert_eq!(parse_ts("2026-06-24T09:00:00Z"), at(1782291600));
    assert_eq!(parse_ts("2026-06-24T12:00:00+03:00"), at(1782291600));
    assert_eq!(parse_ts("2026-06-24T09:00:00.5Z"), Instant { secs: 1782291600, nanos: 500_000_000 });
    assert_eq!(parse_ts("not a time"), at(0));
    assert_eq!(to_rfc3339(at(1782291600)), "2026-06-24T09:00:00Z");
    assert_eq!(to_rfc3339(at(0)), "1970-01-01T00:00:00Z");
    let half = Instant { secs: 1782291600, nanos: 500_000_000 };
    assert_eq!(parse_ts(&to_rfc3339(half)), at(1782291600));
    let s = now_rfc3339();
    assert!(s.ends_with('Z'));
    assert!(parse_ts(&s).secs > 1_700_000_000);
}

#[test]
fn durations_measure_to_the_end_or_now() {
    let done = entry("2026-06-24T09:00:00Z", Some("2026-06-24T10:30:00Z"));
    assert_eq!(done.start(), at(1782291600));
    assert_eq!(done.end(), Some(at(1782297000)));
    assert_eq!(done.duration_secs(at(0)), 5400);
    let running = entry("2026-06-24T09:00:00Z", None);
    assert_eq!(running.duration_secs(at(1782291600 + 61)), 61);
    assert_eq!(running.duration_secs(at(1782291600 - 100)), 0);
    assert_eq!(elapsed_secs(at(10), at(3)), 0);
    assert_eq!(elapsed_secs(Instant { secs: 10, nanos: 900_000_000 }, at(12)), 1);
    let s = span_entry(2, "2026-06-24T09:00:00Z", Some("2026-06-24T10:30:00Z"), now());
    assert_eq!((s.project_id, s.secs), (2, 5400));
}

#[test]
fn representable_instants() {
    assert!(is_representable(at(0)));
    assert!(is_representable(at(FIRST_SECOND)));
    assert!(!is_representable(at(FIRST_SECOND - 1)));
    assert!(is_representable(at(PAST_LAST_SECOND - 1)));
    assert!(!is_representable(at(PAST_LAST_SECOND)));
    assert!(is_representable(Instant { secs: 59, nanos: 1_500_000_000 }));
    assert!(!is_representable(Instant { secs: 58, nanos: 1_500_000_000 }));
    assert!(is_representable(Instant { secs: -1, nanos: 1_000_000_000 }));
    assert!(!is_representable(Instant { secs: 59, nanos: 2_000_000_000 }));
    assert!(!is_locally_representable(at(FIRST_SECOND)));
    assert!(is_locally_representable(at(FIRST_SECOND + 86400)));
    assert!(!is_locally_representable(at(PAST_LAST_SECOND - 86400)));
}

#[test]
fn local_readings_are_well_formed() {
    let t = at(1782291600);
    let hm = local_hm(t);
    assert_eq!(hm.len(), 5);
    assert_eq!(&hm[2..3], ":");
    let m = local_minutes(t);
    assert!((0..1440).contains(&m));
    assert_eq!(format!("{:02}:{:02}", m / 60, m % 60), hm);
    let ymd = local_ymd(t);
    assert!(["2026-06-23", "2026-06-24", "2026-06-25"].contains(&ymd.as_str()));
}

#[test]
fn local_day_bounds_span_about_a_day() {
    let day = CalDate::from_ymd_opt(2026, 6, 24).unwrap();
    let (lo, hi) = local_day_bounds_utc(day);
    let span = parse_ts(&hi).secs - parse_ts(&lo).secs;
    assert!((23 * 3600..=25 * 3600).contains(&span));
    let start = local_hm_to_utc(day, 0, 0).unwrap();
    assert_eq!(to_rfc3339(start), lo);
    assert_eq!(local_hm(start), "00:00");
    assert_eq!(local_hm_to_utc(day, 24, 0), None);
    assert_eq!(local_hm_to_utc(day, 9, 60), None);
}

#[test]
fn entries_read_in_the_local_zone() {
    let es = vec![
        entry("2026-06-24T09:00:00Z", Some("2026-06-24T10:30:00Z")),
        entry("2026-06-24T11:00:00Z", None),
    ];
    let dated = dated_entries(es, at(1782291600 + 3 * 3600));
    assert_eq!(dated.len(), 2);
    assert_eq!(dated[0].secs, 5400);
    assert_eq!(dated[1].secs, 3600);
    assert!(dated[0].end_hm.is_some() && dated[1].end_hm.is_none());
    assert_eq!(dated[0].start_hm.len(), 5);
    assert_eq!(dated[0].date, dated[0].entry.local_date());
}

#[test]
fn saving_a_timed_entry_form() {
    let day = CalDate::from_ymd_opt(2026, 6, 24).unwrap();
    match timed_entry_op(Some(3), 2, day, " 09:00 ", "10:30", "  review ") {
        Some(EntryOp::Update { id, project_id, start, end, description }) => {
            assert_eq!((id, project_id), (3, 2));
            assert_eq!(local_hm(parse_ts(&start)), "09:00");
            let end = end.unwrap();
            assert_eq!(local_hm(parse_ts(&end)), "10:30");
            assert_eq!(parse_ts(&end).secs - parse_ts(&start).secs, 5400);
            assert_eq!(description.as_deref(), Some("review"));
        }
        other => panic!("unexpected {:?}", other),
    }
    match timed_entry_op(None, 2, day, "09:00", "10:30", "") {
        Some(EntryOp::Insert { project_id, description, start, end, created_at }) => {
            assert_eq!(project_id, 2);
            assert_eq!(description, None);
            assert_eq!(to_rfc3339(parse_ts(&start)), start);
            assert!(end.is_some());
            assert!(parse_ts(&created_at).secs > 1_700_000_000);
        }
        other => panic!("unexpected {:?}", other),
    }
    assert!(timed_entry_op(Some(3), 2, day, "9", "10:30", "x").is_none());
    assert!(timed_entry_op(None, 2, day, "09:00", "24:00", "x").is_none());
}

#[test]
fn entry_ops_from_read_instants() {
    let created = String::from("2026-06-24T12:00:00Z");
    match entry_op_for_times(Some(4), 2, Some(at(1782291600)), Some(at(1782297000)), " fix ", &created) {
        Some(EntryOp::Update { id, project_id, start, end, description }) => {
            assert_eq!((id, project_id), (4, 2));
            assert_eq!(start, "2026-06-24T09:00:00Z");
            assert_eq!(end.as_deref(), Some("2026-06-24T10:30:00Z"));
            assert_eq!(description.as_deref(), Some("fix"));
        }
        other => panic!("unexpected {:?}", other),
    }
    match entry_op_for_times(None, 2, Some(at(1782291600)), Some(at(1782297000)), "", &created) {
        Some(EntryOp::Insert { created_at, description, .. }) => {
            assert_eq!(created_at, created);
            assert_eq!(description, None);
        }
        other => panic!("unexpected {:?}", other),
    }
    assert!(entry_op_for_times(None, 2, None, Some(at(0)), "x", &created).is_none());
    assert!(entry_op_for_times(Some(1), 2, Some(at(0)), None, "x", &created).is_none());
}

#[test]
fn minutes_of_a_clock_time() {
    assert_eq!(minutes_of_day(ClockTime { hour: 9, minute: 30 }), 570);
    assert_eq!(minutes_of_day(ClockTime { hour: 23, minute: 59 }), 1439);
}
