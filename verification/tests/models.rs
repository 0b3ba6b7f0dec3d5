use timetracker::dates::{format_date_ru, parse_date_ru, CalDate};
use timetracker::models::{
    format_dur_ru, format_hms, format_hours_ru, format_money_units, link_segments, parse_hm,
    Currency, Segment, TimeEntry,
};

fn link(href: &str, text: &str) -> Segment {
    Segment::Link { href: href.into(), text: text.into() }
}

#[test]
fn link_segments_splits_urls() {
    assert_eq!(
        link_segments("see https://github.com/acme/x next"),
        vec![
            Segment::Text("see ".into()),
            link("https://github.com/acme/x", "github.com/acme/x"),
            Segment::Text(" next".into()),
        ]
    );
}

#[test]
fn link_segments_peels_trailing_punctuation() {
    assert_eq!(
        link_segments("repo (https://a.io/p), done."),
        vec![
            Segment::Text("repo (".into()),
            link("https://a.io/p", "a.io/p"),
            Segment::Text("), done.".into()),
        ]
    );
}

#[test]
fn link_segments_plain_text_is_one_segment() {
    assert_eq!(link_segments("just text"), vec![Segment::Text("just text".into())]);
    assert_eq!(link_segments(""), vec![]);
}

#[test]
fn link_segments_http_and_adjacent_urls() {
    assert_eq!(
        link_segments("http://a.b;https://c.d"),
        vec![link("http://a.b;https://c.d", "a.b;https://c.d")]
    );
    assert_eq!(
        link_segments("x http://a.b\thttps://c.d."),
        vec![
            Segment::Text("x ".into()),
            link("http://a.b", "a.b"),
            Segment::Text("\t".into()),
            link("https://c.d", "c.d"),
            Segment::Text(".".into()),
        ]
    );
    // Non-ASCII text around a link stays whole.
    assert_eq!(
        link_segments("см. https://пример.рф/путь)"),
        vec![
            Segment::Text("см. ".into()),
            link("https://пример.рф/путь", "пример.рф/путь"),
            Segment::Text(")".into()),
        ]
    );
}

#[test]
fn link_segments_cover_the_whole_text() {
    let text = "a https://x.y/z, b http://q.r. c";
    let joined: String = link_segments(text)
        .into_iter()
        .map(|s| match s {
            Segment::Text(t) => t,
            Segment::Link { href, .. } => href,
        })
        .collect();
    assert_eq!(joined, text);
}

#[test]
fn currency_code_roundtrips_and_unknown_falls_back_to_rub() {
    assert_eq!(Currency::from_code("USD"), Currency::Usd);
    assert_eq!(Currency::from_code("eur"), Currency::Rub); // case-sensitive; unknown -> Rub
    assert_eq!(Currency::from_code(""), Currency::Rub);
    for c in Currency::ALL {
        assert_eq!(Currency::from_code(c.code()), c);
    }
}

#[test]
fn currency_labels_and_symbols() {
    assert_eq!(Currency::Byn.label(), "Br BYN");
    assert_eq!(Currency::Eur.symbol(), "€");
    assert_eq!(Currency::Rub.label(), "₽ RUB");
    assert_eq!(Currency::default(), Currency::Rub);
}

#[test]
fn format_hours_ru_uses_comma() {
    assert_eq!(format_hours_ru(105), "1,75 ч");
    assert_eq!(format_hours_ru(30), "0,50 ч");
}

#[test]
fn format_hours_ru_rounds_and_signs() {
    assert_eq!(format_hours_ru(0), "0,00 ч");
    assert_eq!(format_hours_ru(1), "0,02 ч");
    assert_eq!(format_hours_ru(20), "0,33 ч");
    assert_eq!(format_hours_ru(-30), "-0,50 ч");
    assert_eq!(format_hours_ru(6000), "100,00 ч");
}

#[test]
fn date_ru_roundtrips() {
    let d = CalDate::from_ymd_opt(2026, 6, 24).unwrap();
    assert_eq!(format_date_ru(d), "24.06.2026");
    assert_eq!(parse_date_ru("24.06.2026"), Some(d));
    assert_eq!(parse_date_ru(" 3.7.2026 "), CalDate::from_ymd_opt(2026, 7, 3));
    assert_eq!(parse_date_ru("not a date"), None);
}

#[test]
fn parse_date_ru_rejects_impossible_dates() {
    assert_eq!(parse_date_ru("29.02.2025"), None);
    assert_eq!(parse_date_ru("29.02.2024"), CalDate::from_ymd_opt(2024, 2, 29));
    assert_eq!(parse_date_ru("1.13.2024"), None);
    assert_eq!(parse_date_ru("1.1"), None);
    assert_eq!(parse_date_ru("1.1.2024.5"), None);
    assert_eq!(parse_date_ru("+1. 02 .-5"), CalDate::from_ymd_opt(-5, 2, 1));
    assert_eq!(format_date_ru(CalDate::from_ymd_opt(-5, 2, 1).unwrap()), "01.02.-005");
}

#[test]
fn parse_hm_validates_ranges() {
    assert_eq!(parse_hm("09:30"), Some((9, 30)));
    assert_eq!(parse_hm(" 7 : 05 "), Some((7, 5)));
    assert_eq!(parse_hm("24:00"), None);
    assert_eq!(parse_hm("10:60"), None);
    assert_eq!(parse_hm("1030"), None);
    assert_eq!(parse_hm("-1:00"), None);
    assert_eq!(parse_hm("+1:00"), Some((1, 0)));
}

#[test]
fn durations_format() {
    assert_eq!(format_hms(3725), "01:02:05");
    assert_eq!(format_hms(-4), "00:00:00");
    assert_eq!(format_hms(360000), "100:00:00");
    assert_eq!(format_dur_ru(6300), "1ч 45м");
    assert_eq!(format_dur_ru(2700), "45м");
    assert_eq!(format_dur_ru(3600), "1ч 00м");
    assert_eq!(format_dur_ru(-10), "0м");
}

#[test]
fn money_groups_thousands() {
    assert_eq!(format_money_units(12500, Currency::Rub), "12\u{2009}500 ₽");
    assert_eq!(format_money_units(1235, Currency::Rub), "1\u{2009}235 ₽");
    assert_eq!(format_money_units(900, Currency::Usd), "900 $");
    assert_eq!(format_money_units(0, Currency::Rub), "0 ₽");
    assert_eq!(format_money_units(1000000, Currency::Eur), "1\u{2009}000\u{2009}000 €");
}

fn entry(description: Option<&str>, note: Option<&str>, end: Option<&str>) -> TimeEntry {
    TimeEntry {
        id: 1,
        project_id: 2,
        description: description.map(String::from),
        note: note.map(String::from),
        start_ts: "2026-06-24T09:00:00Z".into(),
        end_ts: end.map(String::from),
        created_at: "2026-06-24T09:00:00Z".into(),
    }
}

#[test]
fn entry_description_note_and_running() {
    assert_eq!(entry(Some("  Docs  "), None, None).desc_or("Без названия"), "Docs");
    assert_eq!(entry(Some("   "), None, None).desc_or("Без названия"), "Без названия");
    assert_eq!(entry(None, None, None).desc_or(""), "");
    assert_eq!(entry(None, Some("  see x \n"), None).note_text(), Some("see x"));
    assert_eq!(entry(None, Some(" \t "), None).note_text(), None);
    assert!(entry(None, None, None).is_running());
    assert!(!entry(None, None, Some("2026-06-24T10:00:00Z")).is_running());
}

#[test]
fn formatted_dates_read_back() {
    for (y, m, d) in [(2026, 6, 24), (5, 1, 9), (-44, 3, 15), (12026, 12, 31), (0, 2, 29)] {
        let date = CalDate::from_ymd_opt(y, m, d).unwrap();
        assert_eq!(parse_date_ru(&format_date_ru(date)), Some(date));
    }
}
