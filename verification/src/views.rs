//! The decisions the views make, apart from drawing: which tab opens first,
//! export periods and their summary wording, the invoice and payment form
//! fields, time-range edits, the Start/Stop button, and the timer heartbeat.

use vstd::prelude::*;

use chrono::Datelike;

use crate::billing::chrono_year_seq;
use crate::dates::{
    add_days, checked_add_days, date_ru_parse, date_ru_seq, format_date_ru, max_day_number,
    min_day_number, monday_of, month_gen_seq, parse_date_ru, ru_month_gen, valid_ymd, CalDate,
};
use crate::models::{dur_ru_seq, format_dur_ru, hm_parse, parse_hm, ExportRow, Id};
use crate::text::{
    chars_of, dec_seq, int_seq, parse_signed, parse_signed_exec, push_char, push_dec,
    push_dec_padded, push_int, push_str, trim_bounds, trim_seq, zero_pad,
};

verus! {

// --- tabs -------------------------------------------------------------------

#[derive(Debug, Clone, Copy, PartialEq, Eq, Structural)]
pub enum Tab {
    Tracker,
    Calendar,
    Projects,
    Export,
}

pub open spec fn tab_for_name(name: Option<Seq<char>>) -> Tab {
    match name {
        Some(n) => if n == "calendar"@ {
            Tab::Calendar
        } else if n == "projects"@ {
            Tab::Projects
        } else if n == "export"@ {
            Tab::Export
        } else {
            Tab::Tracker
        },
        None => Tab::Tracker,
    }
}

/// The tab to open first, by name (`calendar`, `projects`, `export`; anything
/// else, or nothing, opens the Tracker).
pub fn tab_from_name(name: Option<&str>) -> (t: Tab)
    ensures
        t == tab_for_name(
            match name {
                Some(n) => Some(n@),
                None => None::<Seq<char>>,
            },
        ),
{
    match name {
        Some(n) => {
            if crate::models::str_eq(n, "calendar") {
                Tab::Calendar
            } else if crate::models::str_eq(n, "projects") {
                Tab::Projects
            } else if crate::models::str_eq(n, "export") {
                Tab::Export
            } else {
                Tab::Tracker
            }
        },
        None => Tab::Tracker,
    }
}

// --- export periods ---------------------------------------------------------

#[derive(Debug, Clone, Copy, PartialEq, Eq, Structural)]
pub enum Period {
    ThisWeek,
    LastWeek,
    ThisMonth,
}

/// Day number of the first day of the month after `d`'s, if that is a date.
pub open spec fn next_month_start(d: CalDate) -> Option<CalDate> {
    let (y, m) = if d.month == 12 {
        (d.year + 1, 1int)
    } else {
        (d.year as int, d.month + 1)
    };
    if valid_ymd(y, m, 1) {
        Some(CalDate { year: y as i32, month: m as u32, day: 1 })
    } else {
        None
    }
}

/// Dates stay far enough from the ends of the calendar for every period of
/// `today` to exist.
pub open spec fn period_in_range(today: CalDate) -> bool {
    &&& today.wf()
    &&& today.num() - today.weekday() - 7 >= min_day_number()
    &&& today.num() - today.weekday() + 6 <= max_day_number()
}

/// The inclusive date range a period covers, relative to `today`: this week
/// and last week run Monday to Sunday; this month runs from its 1st to its
/// last day. At the very end of the calendar, where no next month exists,
/// the month's range ends the day before `today` (as chrono's
/// `next.pred_opt()` does with `next` falling back to `today`).
pub open spec fn period_range_ok(p: Period, today: CalDate, r: (CalDate, CalDate)) -> bool {
    let mon = today.num() - today.weekday();
    &&& r.0.wf()
    &&& r.1.wf()
    &&& match p {
        Period::ThisWeek => r.0.num() == mon && r.1.num() == mon + 6,
        Period::LastWeek => r.0.num() == mon - 7 && r.1.num() == mon - 1,
        Period::ThisMonth => {
            &&& r.0 == (CalDate { year: today.year, month: today.month, day: 1 })
            &&& match next_month_start(today) {
                Some(n) => r.1.num() == n.num() - 1,
                None => r.1.num() == today.num() - 1,
            }
        },
    }
}

pub fn period_range(p: Period, today: CalDate) -> (r: (CalDate, CalDate))
    requires
        period_in_range(today),
    ensures
        period_range_ok(p, today, r),
{
    let monday = monday_of(today);
    match p {
        Period::ThisWeek => (monday, add_days(monday, 6)),
        Period::LastWeek => (add_days(monday, -7), add_days(monday, -1)),
        Period::ThisMonth => {
            let first = CalDate { year: today.year, month: today.month, day: 1 };
            let next = if today.month == 12 {
                if today.year < 262142 {
                    CalDate::from_ymd_opt(today.year + 1, 1, 1)
                } else {
                    None
                }
            } else {
                CalDate::from_ymd_opt(today.year, today.month + 1, 1)
            };
            let next = match next {
                Some(n) => n,
                None => today,
            };
            proof {
                assert(next.num() - 1 >= min_day_number()) by {
                    assert(next.num() > today.num() - today.weekday() - 7);
                }
            }
            let last = match checked_add_days(next, -1) {
                Some(x) => x,
                None => today,
            };
            (first, last)
        },
    }
}

/// The calendar's week heading: `{first day} – {last day} {month} {year}`,
/// the month and year being those of the week's Sunday.
pub open spec fn week_label_seq(first: CalDate, last: CalDate) -> Seq<char> {
    dec_seq(first.day as nat) + " – "@ + dec_seq(last.day as nat) + " "@ + month_gen_seq(last.month as int)
        + " "@ + int_seq(last.year as int)
}

pub fn week_label(week: &[CalDate; 7]) -> (s: String)
    ensures
        s@ == week_label_seq(week[0], week[6]),
{
    let mut s = String::new();
    push_dec(&mut s, week[0].day as u64);
    push_str(&mut s, " – ");
    push_dec(&mut s, week[6].day as u64);
    push_str(&mut s, " ");
    push_str(&mut s, ru_month_gen(week[6].month));
    push_str(&mut s, " ");
    push_int(&mut s, week[6].year as i64);
    s
}

/// Russian plural of "запись" for a count: 1 запись, 2–4 записи, 5 записей
/// (and 11–14 записей).
pub open spec fn zap_seq(n: int) -> Seq<char> {
    let a = n % 10;
    let b = n % 100;
    if a == 1 && b != 11 {
        "запись"@
    } else if 2 <= a <= 4 && !(12 <= b <= 14) {
        "записи"@
    } else {
        "записей"@
    }
}

/// The record-count word depends only on the count's last two digits:
/// `n` and `n % 100` take the same word, so 11 to 14 (and 111, 212, …) take
/// `записей` while 1, 21, 101 take `запись` and 2 to 4, 22, 103 take `записи`.
pub proof fn law_zap_follows_last_two_digits(n: int)
    requires
        n >= 0,
    ensures
        zap_seq(n) == zap_seq(n % 100),
        zap_word(n) == zap_word(n % 100),
        11 <= n % 100 <= 14 ==> zap_seq(n) == "записей"@,
{
    vstd::arithmetic::div_mod::lemma_mod_mod(n, 10, 10);
    vstd::arithmetic::div_mod::lemma_mod_twice(n, 100);
    let r = n % 100;
    assert(0 <= r < 100);
    assert((n % 100) % 10 == n % 10);
    if 11 <= r <= 14 {
        assert(r % 10 == r - 10);
    }
}

/// `n % d` as Rust computes it (the sign follows `n`).
pub open spec fn rust_rem(n: int, d: int) -> int {
    if n >= 0 {
        n % d
    } else {
        -((-n) % d)
    }
}

/// The plural wording used with a non-negative count.
pub fn zap(n: i64) -> (r: &'static str)
    ensures
        r@ == (if n >= 0 {
            zap_seq(n as int)
        } else {
            let a = rust_rem(n as int, 10);
            let b = rust_rem(n as int, 100);
            if a == 1 && b != 11 {
                "запись"@
            } else if 2 <= a <= 4 && !(12 <= b <= 14) {
                "записи"@
            } else {
                "записей"@
            }
        }),
{
    let a = n % 10;
    let b = n % 100;
    if a == 1 && b != 11 {
        "запись"
    } else if 2 <= a && a <= 4 && !(12 <= b && b <= 14) {
        "записи"
    } else {
        "записей"
    }
}

/// The word `zap` picks for a count, as Rust's `%` sees it.
pub open spec fn zap_word(n: int) -> Seq<char> {
    let a = rust_rem(n, 10);
    let b = rust_rem(n, 100);
    if a == 1 && b != 11 {
        "запись"@
    } else if 2 <= a <= 4 && !(12 <= b <= 14) {
        "записи"@
    } else {
        "записей"@
    }
}

/// The export screen's summary of the period: `{count} {записи} · {duration}`.
pub fn export_summary(count: i64, total_secs: i64) -> (s: String)
    ensures
        s@ == int_seq(count as int) + " "@ + zap_word(count as int) + " · "@ + dur_ru_seq(total_secs as int),
{
    let mut s = String::new();
    push_int(&mut s, count);
    push_str(&mut s, " ");
    push_str(&mut s, zap(count));
    push_str(&mut s, " · ");
    let d = format_dur_ru(total_secs);
    push_str(&mut s, d.as_str());
    s
}

/// Positions of today's entries the Tracker lists below the running one:
/// every entry but the running entry, in order.
pub open spec fn listed_positions(ids: Seq<Id>, running: Option<Id>) -> Seq<int>
    decreases ids.len(),
{
    if ids.len() == 0 {
        seq![]
    } else if Some(ids.last()) == running {
        listed_positions(ids.drop_last(), running)
    } else {
        listed_positions(ids.drop_last(), running).push(ids.len() - 1)
    }
}

pub fn listed_entries(ids: &Vec<Id>, running: Option<Id>) -> (r: Vec<usize>)
    ensures
        r@.map_values(|i: usize| i as int) == listed_positions(ids@, running),
{
    let mut out: Vec<usize> = Vec::new();
    let mut i: usize = 0;
    while i < ids.len()
        invariant
            i <= ids.len(),
            out@.map_values(|k: usize| k as int) == listed_positions(ids@.take(i as int), running),
        decreases ids.len() - i,
    {
        assert(ids@.take(i + 1).drop_last() =~= ids@.take(i as int));
        let listed = match running {
            Some(r) => ids[i] != r,
            None => true,
        };
        if listed {
            out.push(i);
            assert(out@.map_values(|k: usize| k as int) =~= listed_positions(ids@.take(i as int), running).push(
                i as int,
            ));
        }
        i = i + 1;
    }
    assert(ids@.take(i as int) =~= ids@);
    out
}

/// The project the Tracker's picker shows: the one picked, else the first.
pub fn shown_project(picked: Option<Id>, first_project: Option<Id>) -> (r: Option<Id>)
    ensures
        r == (match picked {
            Some(p) => Some(p),
            None => first_project,
        }),
{
    match picked {
        Some(p) => Some(p),
        None => first_project,
    }
}

/// Russian month name in the genitive for the calendar header.
pub fn ru_month(m: u32) -> (r: &'static str)
    ensures
        r@ == month_gen_seq(m as int),
{
    ru_month_gen(m)
}

// --- exporting --------------------------------------------------------------

/// The rows of one project, in order.
pub open spec fn rows_of(rows: Seq<ExportRow>, name: Seq<char>) -> Seq<ExportRow>
    decreases rows.len(),
{
    if rows.len() == 0 {
        seq![]
    } else if rows.last().project@ == name {
        rows_of(rows.drop_last(), name).push(rows.last())
    } else {
        rows_of(rows.drop_last(), name)
    }
}

/// Keep only the rows of the project named `name` (the export's project filter).
pub fn rows_of_project(rows: Vec<ExportRow>, name: &str) -> (r: Vec<ExportRow>)
    ensures
        r@ == rows_of(rows@, name@),
{
    let mut out: Vec<ExportRow> = Vec::new();
    let n = rows.len();
    let ghost all = rows@;
    let mut rest = rows;
    let mut i: usize = 0;
    while i < n
        invariant
            n == all.len(),
            i <= n,
            rest@ == all.subrange(i as int, n as int),
            out@ == rows_of(all.take(i as int), name@),
        decreases n - i,
    {
        let row = rest.remove(0);
        assert(row == all[i as int]);
        assert(rest@ =~= all.subrange(i + 1, n as int));
        assert(all.take(i + 1).drop_last() =~= all.take(i as int));
        if crate::models::str_eq(row.project.as_str(), name) {
            out.push(row);
        }
        i = i + 1;
    }
    assert(all.take(n as int) =~= all);
    out
}

/// Why an export cannot start, as the status line says it: no rows in the
/// period, or no format chosen.
pub fn export_blocker(rows: usize, csv: bool, json: bool, md: bool) -> (r: Option<&'static str>)
    ensures
        rows == 0 ==> (r matches Some(m) && m@ == "Нет записей за выбранный период"@),
        rows > 0 && !(csv || json || md) ==> (r matches Some(m) && m@ == "Выберите хотя бы один формат"@),
        rows > 0 && (csv || json || md) ==> r is None,
{
    if rows == 0 {
        Some("Нет записей за выбранный период")
    } else if !(csv || json || md) {
        Some("Выберите хотя бы один формат")
    } else {
        None
    }
}

// --- invoice and payment fields ---------------------------------------------

/// The number a text field holds: `text.trim().parse::<i64>()`, or 0.
pub open spec fn field_value(text: Seq<char>) -> int {
    match parse_signed(trim_seq(text), i64::MIN as int, i64::MAX as int) {
        Some(x) => x,
        None => 0,
    }
}

pub fn field_i64(text: &str) -> (r: i64)
    ensures
        r == field_value(text@),
{
    let v = chars_of(text);
    let (lo, hi) = trim_bounds(&v);
    let piece = crate::text::vec_slice(&v, lo, hi);
    assert(piece@.subrange(0, piece.len() as int) =~= piece@);
    match parse_signed_exec(&piece, 0, piece.len(), i64::MIN, i64::MAX) {
        Some(x) => x,
        None => 0,
    }
}

pub open spec fn clamp0(x: int) -> int {
    if x < 0 {
        0
    } else {
        x
    }
}

/// Minutes given as hours + minutes, each counted only when positive.
pub open spec fn hm_minutes(h: int, m: int) -> int {
    clamp0(h) * 60 + clamp0(m)
}

pub fn minutes_from_parts(h: i64, m: i64) -> (r: i64)
    requires
        hm_minutes(h as int, m as int) <= i64::MAX,
    ensures
        r == hm_minutes(h as int, m as int),
{
    let hh: i64 = if h < 0 {
        0
    } else {
        h
    };
    let mm: i64 = if m < 0 {
        0
    } else {
        m
    };
    hh * 60 + mm
}

/// The invoice's hour/minute selectors read as a number of minutes.
pub fn invoice_limit_minutes(hours_text: &str, minutes_text: &str) -> (r: i64)
    requires
        hm_minutes(field_value(hours_text@), field_value(minutes_text@)) <= i64::MAX,
    ensures
        r == hm_minutes(field_value(hours_text@), field_value(minutes_text@)),
{
    minutes_from_parts(field_i64(hours_text), field_i64(minutes_text))
}

/// How the selectors are prefilled for `minutes`: whole hours and the rest
/// (a negative amount prefills as zero).
pub fn split_minutes(minutes: i64) -> (r: (i64, i64))
    ensures
        r.0 == clamp0(minutes as int) / 60,
        r.1 == clamp0(minutes as int) % 60,
{
    let m: i64 = if minutes < 0 {
        0
    } else {
        minutes
    };
    (m / 60, m % 60)
}

/// Prefilling the selectors with an amount and reading them back gives that
/// amount (or zero for a negative one).
pub proof fn law_invoice_minutes_roundtrip(minutes: int)
    ensures
        hm_minutes(clamp0(minutes) / 60, clamp0(minutes) % 60) == clamp0(minutes),
{
    let m = clamp0(minutes);
    assert(m == (m / 60) * 60 + m % 60) by {
        vstd::arithmetic::div_mod::lemma_fundamental_div_mod(m, 60);
    }
}

/// What a payment form records: its minutes and date, when the date parses
/// and the minutes are positive (the rate is checked by the caller).
pub open spec fn payment_fields_spec(h: Seq<char>, m: Seq<char>, date: Seq<char>) -> Option<(int, CalDate)> {
    let minutes = hm_minutes(field_value(h), field_value(m));
    match date_ru_parse(date) {
        Some(d) => if minutes > 0 {
            Some((minutes, d))
        } else {
            None
        },
        None => None,
    }
}

pub fn payment_fields(hours_text: &str, minutes_text: &str, date_text: &str) -> (r: Option<(i64, CalDate)>)
    requires
        hm_minutes(field_value(hours_text@), field_value(minutes_text@)) <= i64::MAX,
    ensures
        match r {
            Some((mins, d)) => payment_fields_spec(hours_text@, minutes_text@, date_text@) == Some((mins as int, d)),
            None => payment_fields_spec(hours_text@, minutes_text@, date_text@) is None,
        },
{
    let minutes = minutes_from_parts(field_i64(hours_text), field_i64(minutes_text));
    match parse_date_ru(date_text) {
        Some(d) => if minutes > 0 {
            Some((minutes, d))
        } else {
            None
        },
        None => None,
    }
}

/// `YYYY-MM-DD` as chrono's `%Y-%m-%d` writes it — how a payment date is stored.
pub open spec fn iso_date_seq(d: CalDate) -> Seq<char> {
    chrono_year_seq(d.year as int) + "-"@ + zero_pad(dec_seq(d.month as nat), 2) + "-"@ + zero_pad(
        dec_seq(d.day as nat),
        2,
    )
}

pub fn iso_date(d: CalDate) -> (s: String)
    ensures
        s@ == iso_date_seq(d),
{
    let mut s = String::new();
    if 0 <= d.year && d.year < 10000 {
        push_dec_padded(&mut s, d.year as u64, 4);
    } else if d.year >= 10000 {
        push_char(&mut s, '+');
        push_dec_padded(&mut s, d.year as u64, 4);
    } else {
        push_char(&mut s, '-');
        let a: u64 = if d.year == i32::MIN {
            2147483648u64
        } else {
            (-d.year) as u64
        };
        push_dec_padded(&mut s, a, 4);
    }
    assert(s@ =~= chrono_year_seq(d.year as int));
    push_str(&mut s, "-");
    push_dec_padded(&mut s, d.month as u64, 2);
    push_str(&mut s, "-");
    push_dec_padded(&mut s, d.day as u64, 2);
    s
}

/// What `NaiveDate::parse_from_str(text, "%Y-%m-%d")` reads from a text, as
/// (year, month, day).
pub uninterp spec fn iso_date_parts(text: Seq<char>) -> Option<(i32, u32, u32)>;

/// `NaiveDate::parse_from_str(text, "%Y-%m-%d")`; chrono only returns real dates.
#[verifier::external_body]
fn parse_iso_date(text: &str) -> (r: Option<CalDate>)
    ensures
        r == (match iso_date_parts(text@) {
            Some(p) => Some(CalDate { year: p.0, month: p.1, day: p.2 }),
            None => None::<CalDate>,
        }),
        r matches Some(d) ==> d.wf(),
{
    chrono::NaiveDate::parse_from_str(text, "%Y-%m-%d").ok().map(
        |d| CalDate { year: d.year(), month: d.month(), day: d.day() },
    )
}

/// A stored payment date (`YYYY-MM-DD`) shown as `ДД.ММ.ГГГГ`; text that does
/// not read as a date is shown as it is.
pub fn display_date(iso: &str) -> (s: String)
    ensures
        s@ == (match iso_date_parts(iso@) {
            Some(p) => date_ru_seq(CalDate { year: p.0, month: p.1, day: p.2 }),
            None => iso@,
        }),
{
    match parse_iso_date(iso) {
        Some(d) => format_date_ru(d),
        None => String::from_str(iso),
    }
}

// --- time edits -------------------------------------------------------------

/// An `HH:MM` text as minutes since midnight.
pub fn parse_minutes(hm: &str) -> (r: Option<i64>)
    ensures
        r == (match hm_parse(hm@) {
            Some((h, m)) => Some((h * 60 + m) as i64),
            None => None::<i64>,
        }),
{
    match parse_hm(hm) {
        Some((h, m)) => Some(h as i64 * 60 + m as i64),
        None => None,
    }
}

/// Start and end of an edited entry, when both fields read as `HH:MM`.
pub fn parse_time_range(start: &str, end: &str) -> (r: Option<((u32, u32), (u32, u32))>)
    ensures
        r == (match (hm_parse(start@), hm_parse(end@)) {
            (Some(a), Some(b)) => Some((a, b)),
            _ => None::<((u32, u32), (u32, u32))>,
        }),
{
    match (parse_hm(start), parse_hm(end)) {
        (Some(a), Some(b)) => Some((a, b)),
        _ => None,
    }
}

// --- the Start/Stop button --------------------------------------------------

#[derive(Debug, Clone, Copy, PartialEq, Eq, Structural)]
pub enum TimerAction {
    /// Stop the running entry and clear the description field.
    Stop,
    /// Start tracking the project.
    Start(Id),
    /// Nothing to start: there is no project.
    Nothing,
}

/// What the Start/Stop button does: stop a running timer; otherwise start
/// the picked project, or else the first project.
pub fn start_or_stop(running: bool, picked: Option<Id>, first_project: Option<Id>) -> (a: TimerAction)
    ensures
        a == (if running {
            TimerAction::Stop
        } else {
            match picked {
                Some(p) => TimerAction::Start(p),
                None => match first_project {
                    Some(p) => TimerAction::Start(p),
                    None => TimerAction::Nothing,
                },
            }
        }),
{
    if running {
        TimerAction::Stop
    } else {
        match picked {
            Some(p) => TimerAction::Start(p),
            None => match first_project {
                Some(p) => TimerAction::Start(p),
                None => TimerAction::Nothing,
            },
        }
    }
}

/// The running timer persists a heartbeat every fifteenth tick.
pub fn heartbeat_due(ticks: u32) -> (b: bool)
    ensures
        b == (ticks % 15 == 0),
{
    ticks % 15 == 0
}

// --- inline editors ---------------------------------------------------------

/// Which inline note editor of the Projects tab is open: a project card's note
/// or a history entry's note — never both.
#[derive(Debug, Clone, Copy, PartialEq, Eq, Structural)]
pub struct NoteEditors {
    pub card_note: Option<Id>,
    pub entry_note: Option<Id>,
}

impl NoteEditors {
    pub open spec fn wf(self) -> bool {
        !(self.card_note is Some && self.entry_note is Some)
    }

    pub fn closed() -> (r: NoteEditors)
        ensures
            r.wf(),
            r.card_note is None,
            r.entry_note is None,
    {
        NoteEditors { card_note: None, entry_note: None }
    }

    /// Open the note editor of project `id`, or close it if it is open for `id`.
    pub fn toggle_card(&mut self, id: Id)
        requires
            old(self).wf(),
        ensures
            final(self).wf(),
            old(self).card_note == Some(id) ==> *final(self) == (NoteEditors { card_note: None, ..*old(self) }),
            old(self).card_note != Some(id) ==> *final(self) == (NoteEditors { card_note: Some(id), entry_note: None }),
    {
        if self.card_note == Some(id) {
            self.card_note = None;
        } else {
            self.card_note = Some(id);
            self.entry_note = None;
        }
    }

    /// Open the note editor of history entry `id`, or close it if it is open for `id`.
    pub fn toggle_entry(&mut self, id: Id)
        requires
            old(self).wf(),
        ensures
            final(self).wf(),
            old(self).entry_note == Some(id) ==> *final(self) == (NoteEditors { entry_note: None, ..*old(self) }),
            old(self).entry_note != Some(id) ==> *final(self) == (NoteEditors { card_note: None, entry_note: Some(id) }),
    {
        if self.entry_note == Some(id) {
            self.entry_note = None;
        } else {
            self.entry_note = Some(id);
            self.card_note = None;
        }
    }

    /// Renaming an entry closes its note editor.
    pub fn begin_rename(&mut self)
        requires
            old(self).wf(),
        ensures
            final(self).wf(),
            *final(self) == (NoteEditors { entry_note: None, ..*old(self) }),
    {
        self.entry_note = None;
    }
}

/// Which inline note editor of the Tracker is open: a finished entry's note
/// or the running entry's note — never both.
#[derive(Debug, Clone, Copy, PartialEq, Eq, Structural)]
pub struct TrackerNotes {
    pub entry_note: Option<Id>,
    pub run_note: bool,
}

impl TrackerNotes {
    pub open spec fn wf(self) -> bool {
        !(self.entry_note is Some && self.run_note)
    }

    pub fn toggle_entry(&mut self, id: Id)
        requires
            old(self).wf(),
        ensures
            final(self).wf(),
            old(self).entry_note == Some(id) ==> *final(self) == (TrackerNotes { entry_note: None, ..*old(self) }),
            old(self).entry_note != Some(id) ==> *final(self) == (TrackerNotes { entry_note: Some(id), run_note: false }),
    {
        if self.entry_note == Some(id) {
            self.entry_note = None;
        } else {
            self.entry_note = Some(id);
            self.run_note = false;
        }
    }

    pub fn toggle_run(&mut self)
        requires
            old(self).wf(),
        ensures
            final(self).wf(),
            old(self).run_note ==> *final(self) == (TrackerNotes { run_note: false, ..*old(self) }),
            !old(self).run_note ==> *final(self) == (TrackerNotes { entry_note: None, run_note: true }),
    {
        if self.run_note {
            self.run_note = false;
        } else {
            self.run_note = true;
            self.entry_note = None;
        }
    }
}

/// The billing forms of an open project: the rate editor, the payment form
/// (at most one of the two) and the invoice screen.
#[derive(Debug, Clone, Copy, PartialEq, Eq, Structural)]
pub struct BillingForms {
    pub rate_edit_open: bool,
    pub pay_form_open: bool,
    pub invoice_project: Option<Id>,
}

impl BillingForms {
    pub open spec fn wf(self) -> bool {
        !(self.rate_edit_open && self.pay_form_open)
    }

    /// Every form closed — also what changing the open project leaves.
    pub fn reset() -> (r: BillingForms)
        ensures
            r.wf(),
            !r.rate_edit_open && !r.pay_form_open && r.invoice_project is None,
    {
        BillingForms { rate_edit_open: false, pay_form_open: false, invoice_project: None }
    }

    pub fn toggle_rate_edit(&mut self)
        requires
            old(self).wf(),
        ensures
            final(self).wf(),
            final(self).rate_edit_open == !old(self).rate_edit_open,
            final(self).pay_form_open == (old(self).pay_form_open && old(self).rate_edit_open),
            final(self).invoice_project == old(self).invoice_project,
    {
        if self.rate_edit_open {
            self.rate_edit_open = false;
        } else {
            self.rate_edit_open = true;
            self.pay_form_open = false;
        }
    }

    pub fn toggle_pay_form(&mut self)
        requires
            old(self).wf(),
        ensures
            final(self).wf(),
            final(self).pay_form_open == !old(self).pay_form_open,
            final(self).rate_edit_open == (old(self).rate_edit_open && old(self).pay_form_open),
            final(self).invoice_project == old(self).invoice_project,
    {
        if self.pay_form_open {
            self.pay_form_open = false;
        } else {
            self.pay_form_open = true;
            self.rate_edit_open = false;
        }
    }

    /// Show the invoice screen of `pid`, closing both forms.
    pub fn open_invoice(&mut self, pid: Id)
        requires
            old(self).wf(),
        ensures
            final(self).wf(),
            *final(self) == (BillingForms { rate_edit_open: false, pay_form_open: false, invoice_project: Some(pid) }),
    {
        self.invoice_project = Some(pid);
        self.rate_edit_open = false;
        self.pay_form_open = false;
    }

    pub fn close_invoice(&mut self)
        requires
            old(self).wf(),
        ensures
            final(self).wf(),
            *final(self) == (BillingForms { invoice_project: None, ..*old(self) }),
    {
        self.invoice_project = None;
    }
}

} // verus!
