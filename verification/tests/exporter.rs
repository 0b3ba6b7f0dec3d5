use timetracker::exporter::{csv_records, formats_count, markdown_report, total_entries, Totals};
use timetracker::models::ExportRow;

fn row(date: &str, project: &str, desc: &str, secs: i64, hms: &str) -> ExportRow {
    ExportRow {
        date: date.into(),
        project: project.into(),
        description: desc.into(),
        start: "09:00".into(),
        end: "10:00".into(),
        duration_secs: secs,
        duration_hms: hms.into(),
    }
}

fn sample() -> Vec<ExportRow> {
    vec![
        row("2026-06-23", "Beta", "a|b", 600, "00:10:00"),
        row("2026-06-22", "Alpha", "x", 3600, "01:00:00"),
        row("2026-06-23", "Alpha", "y", 60, "00:01:00"),
    ]
}

#[test]
fn totals_group_sort_and_sum() {
    let t = Totals::from_rows(&sample());
    assert_eq!(t.by_project, vec![("Alpha".to_string(), 3660), ("Beta".to_string(), 600)]);
    assert_eq!(
        t.by_day,
        vec![("2026-06-22".to_string(), 3600), ("2026-06-23".to_string(), 660)]
    );
    assert_eq!(t.grand, 4260);
    let empty = Totals::from_rows(&[]);
    assert!(empty.by_project.is_empty() && empty.by_day.is_empty());
    assert_eq!(empty.grand, 0);
}

#[test]
fn totals_order_keys_by_code_point() {
    let rows = vec![
        row("d", "b", "", 1, ""),
        row("d", "Я", "", 1, ""),
        row("d", "B", "", 1, ""),
        row("d", "", "", 1, ""),
        row("d", "ab", "", 1, ""),
        row("d", "a", "", 1, ""),
    ];
    let t = Totals::from_rows(&rows);
    let keys: Vec<&str> = t.by_project.iter().map(|(k, _)| k.as_str()).collect();
    assert_eq!(keys, vec!["", "B", "a", "ab", "b", "Я"]);
}

#[test]
fn csv_records_list_rows_then_totals() {
    let rows = sample();
    let t = Totals::from_rows(&rows);
    let recs = csv_records(&rows, &t);
    assert_eq!(recs.len(), 1 + 3 + 2 + 2 + 1);
    assert_eq!(recs[0][0], "date");
    assert_eq!(recs[1], vec!["2026-06-23", "Beta", "a|b", "09:00", "10:00", "600", "00:10:00"]);
    assert_eq!(recs[4], vec!["TOTAL project", "Alpha", "", "", "", "3660", "01:01:00"]);
    assert_eq!(recs[7], vec!["TOTAL day", "2026-06-23", "", "", "", "660", "00:11:00"]);
    assert_eq!(recs[8], vec!["TOTAL all", "", "", "", "", "4260", "01:11:00"]);
}

#[test]
fn markdown_report_escapes_pipes() {
    let rows = sample();
    let t = Totals::from_rows(&rows);
    let md = markdown_report(&rows, &t);
    let expected = "# Time report\n\n\
| Date | Project | Description | Start | End | Duration |\n\
|---|---|---|---|---|---|\n\
| 2026-06-23 | Beta | a\\|b | 09:00 | 10:00 | 00:10:00 |\n\
| 2026-06-22 | Alpha | x | 09:00 | 10:00 | 01:00:00 |\n\
| 2026-06-23 | Alpha | y | 09:00 | 10:00 | 00:01:00 |\n\
\n## Totals by project\n\n- Alpha: 01:01:00\n- Beta: 00:10:00\n\
\n## Totals by day\n\n- 2026-06-22: 01:00:00\n- 2026-06-23: 00:11:00\n\
\n**Total: 01:11:00**\n";
    assert_eq!(md, expected);
}

#[test]
fn json_totals_and_format_count() {
    let t = Totals::from_rows(&sample());
    let e = total_entries(&t.by_day);
    assert_eq!(e.len(), 2);
    assert_eq!(e[1].key, "2026-06-23");
    assert_eq!(e[1].seconds, 660);
    assert_eq!(e[1].hms, "00:11:00");
    assert_eq!(formats_count(true, false, true), 2);
    assert_eq!(formats_count(false, false, false), 0);
}

#[test]
fn project_and_day_totals_add_up_to_the_grand_total() {
    let t = Totals::from_rows(&sample());
    let by_project: i64 = t.by_project.iter().map(|(_, s)| *s).sum();
    let by_day: i64 = t.by_day.iter().map(|(_, s)| *s).sum();
    assert_eq!(by_project, t.grand);
    assert_eq!(by_day, t.grand);
}
