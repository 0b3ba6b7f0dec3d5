//! Calendar dates (proleptic Gregorian, as `chrono::NaiveDate` holds them):
//! validation, weekday, day arithmetic, the Russian `ДД.ММ.ГГГГ` form and
//! day labels, and the Monday-based week helpers.

use vstd::prelude::*;

use chrono::Datelike;

use crate::text::{
    all_digits, chars_of, dec_seq, is_ws, lemma_digit_not_ws, lemma_trim_keeps,
    lemma_zero_pad_reads_back, parse_signed, parse_signed_exec, parse_unsigned,
    parse_unsigned_exec, push_char, push_dec, push_dec_padded, push_str, trim_bounds, trim_seq,
    vec_slice, zero_pad,
};

verus! {

/// Earliest and latest years a `chrono::NaiveDate` can hold.
pub open spec fn min_year() -> int {
    -262143
}

pub open spec fn max_year() -> int {
    262142
}

pub open spec fn is_leap(y: int) -> bool {
    y % 4 == 0 && (y % 100 != 0 || y % 400 == 0)
}

pub open spec fn days_in_month(y: int, m: int) -> int {
    if m == 2 {
        if is_leap(y) {
            29
        } else {
            28
        }
    } else if m == 4 || m == 6 || m == 9 || m == 11 {
        30
    } else {
        31
    }
}

/// A calendar date that `NaiveDate::from_ymd_opt` accepts.
pub open spec fn valid_ymd(y: int, m: int, d: int) -> bool {
    &&& min_year() <= y <= max_year()
    &&& 1 <= m <= 12
    &&& 1 <= d <= days_in_month(y, m)
}

pub open spec fn days_before_year(y: int) -> int {
    365 * (y - 1) + (y - 1) / 4 - (y - 1) / 100 + (y - 1) / 400
}

pub open spec fn days_before_month(y: int, m: int) -> int {
    let base: int = if m == 1 {
        0
    } else if m == 2 {
        31
    } else if m == 3 {
        59
    } else if m == 4 {
        90
    } else if m == 5 {
        120
    } else if m == 6 {
        151
    } else if m == 7 {
        181
    } else if m == 8 {
        212
    } else if m == 9 {
        243
    } else if m == 10 {
        273
    } else if m == 11 {
        304
    } else {
        334
    };
    if m > 2 && is_leap(y) {
        base + 1
    } else {
        base
    }
}

/// Day number counted from 0001-01-01 (= 1), as `Datelike::num_days_from_ce`.
pub open spec fn day_number(y: int, m: int, d: int) -> int {
    days_before_year(y) + days_before_month(y, m) + d
}

/// 0001-01-01 was a Monday; 0 = Monday .. 6 = Sunday.
pub open spec fn weekday_of(y: int, m: int, d: int) -> int {
    (day_number(y, m, d) - 1) % 7
}

pub open spec fn min_day_number() -> int {
    day_number(min_year(), 1, 1)
}

pub open spec fn max_day_number() -> int {
    day_number(max_year(), 12, 31)
}

/// A date; `wf` holds for every value the library hands out.
#[derive(Debug, Clone, Copy, PartialEq, Eq, Structural)]
pub struct CalDate {
    pub year: i32,
    pub month: u32,
    pub day: u32,
}

impl CalDate {
    pub open spec fn wf(self) -> bool {
        valid_ymd(self.year as int, self.month as int, self.day as int)
    }

    pub open spec fn num(self) -> int {
        day_number(self.year as int, self.month as int, self.day as int)
    }

    pub open spec fn weekday(self) -> int {
        weekday_of(self.year as int, self.month as int, self.day as int)
    }

    /// `NaiveDate::from_ymd_opt`.
    pub fn from_ymd_opt(year: i32, month: u32, day: u32) -> (r: Option<CalDate>)
        ensures
            r is Some <==> valid_ymd(year as int, month as int, day as int),
            r matches Some(c) ==> c == (CalDate { year, month, day }),
    {
        if year < -262143 || year > 262142 || month < 1 || month > 12 || day < 1 {
            return None;
        }
        let leap = year % 4 == 0 && (year % 100 != 0 || year % 400 == 0);
        proof {
            assert(leap == is_leap(year as int));
        }
        let dim: u32 = if month == 2 {
            if leap {
                29
            } else {
                28
            }
        } else if month == 4 || month == 6 || month == 9 || month == 11 {
            30
        } else {
            31
        };
        if day > dim {
            None
        } else {
            Some(CalDate { year, month, day })
        }
    }
}

/// `NaiveDate::weekday().num_days_from_monday()`.
#[verifier::external_body]
pub(crate) fn weekday_from_monday(d: CalDate) -> (r: u32)
    requires
        d.wf(),
    ensures
        r as int == d.weekday(),
{
    chrono::NaiveDate::from_ymd_opt(d.year, d.month, d.day).unwrap().weekday().num_days_from_monday()
}

/// `NaiveDate::checked_add_signed(TimeDelta::days(n))`: the date `n` days
/// later (earlier for negative `n`), if it is within `NaiveDate`'s range.
#[verifier::external_body]
pub(crate) fn checked_add_days(d: CalDate, n: i32) -> (r: Option<CalDate>)
    requires
        d.wf(),
    ensures
        r is Some <==> min_day_number() <= d.num() + n <= max_day_number(),
        r matches Some(c) ==> c.wf() && c.num() == d.num() + n,
{
    chrono::NaiveDate::from_ymd_opt(d.year, d.month, d.day)
        .unwrap()
        .checked_add_signed(chrono::TimeDelta::days(n as i64))
        .map(|x| CalDate { year: x.year(), month: x.month(), day: x.day() })
}

pub fn add_days(d: CalDate, n: i32) -> (r: CalDate)
    requires
        d.wf(),
        min_day_number() <= d.num() + n <= max_day_number(),
    ensures
        r.wf(),
        r.num() == d.num() + n,
{
    checked_add_days(d, n).unwrap()
}

/// Monday of the week containing `d`.
pub fn monday_of(d: CalDate) -> (r: CalDate)
    requires
        d.wf(),
        d.num() - d.weekday() >= min_day_number(),
    ensures
        r.wf(),
        r.num() == d.num() - d.weekday(),
        r.weekday() == 0,
{
    let w = weekday_from_monday(d);
    let r = add_days(d, -(w as i32));
    assert(r.weekday() == 0) by {
        assert((d.num() - 1) % 7 == d.weekday());
        assert((r.num() - 1) % 7 == 0) by (nonlinear_arith)
            requires
                r.num() == d.num() - d.weekday(),
                (d.num() - 1) % 7 == d.weekday(),
        ;
    }
    r
}

/// The seven dates Mon..Sun of the week containing `anchor`.
pub fn week_days(anchor: CalDate) -> (r: [CalDate; 7])
    requires
        anchor.wf(),
        anchor.num() - anchor.weekday() >= min_day_number(),
        anchor.num() - anchor.weekday() + 6 <= max_day_number(),
    ensures
        forall|i: int|
            0 <= i < 7 ==> #[trigger] r[i].wf() && r[i].num() == anchor.num() - anchor.weekday()
                + i && r[i].weekday() == i,
{
    let mon = monday_of(anchor);
    let r = [
        mon,
        add_days(mon, 1),
        add_days(mon, 2),
        add_days(mon, 3),
        add_days(mon, 4),
        add_days(mon, 5),
        add_days(mon, 6),
    ];
    assert forall|i: int| 0 <= i < 7 implies #[trigger] r[i].wf() && r[i].num() == anchor.num()
        - anchor.weekday() + i && r[i].weekday() == i by {
        assert((r[i].num() - 1) % 7 == i) by (nonlinear_arith)
            requires
                r[i].num() == mon.num() + i,
                (mon.num() - 1) % 7 == 0,
                0 <= i < 7,
        ;
    }
    r
}

// --- Russian date text ------------------------------------------------------

/// What `{:04}` prints for a year (the sign counts toward the width).
pub open spec fn year4_seq(y: int) -> Seq<char> {
    if y < 0 {
        seq!['-'] + zero_pad(dec_seq((-y) as nat), 3)
    } else {
        zero_pad(dec_seq(y as nat), 4)
    }
}

/// `ДД.ММ.ГГГГ`.
pub open spec fn date_ru_seq(d: CalDate) -> Seq<char> {
    zero_pad(dec_seq(d.day as nat), 2) + seq!['.'] + zero_pad(dec_seq(d.month as nat), 2) + seq![
        '.',
    ] + year4_seq(d.year as int)
}

pub fn push_year4(out: &mut String, y: i32)
    ensures
        final(out)@ == old(out)@ + year4_seq(y as int),
{
    if y < 0 {
        push_char(out, '-');
        let a: u64 = if y == i32::MIN {
            2147483648u64
        } else {
            (-y) as u64
        };
        push_dec_padded(out, a, 3);
        assert(out@ =~= old(out)@ + year4_seq(y as int));
    } else {
        push_dec_padded(out, y as u64, 4);
    }
}

/// Format a date as `ДД.ММ.ГГГГ` for the payment-form input's round-trip.
pub fn format_date_ru(d: CalDate) -> (s: String)
    ensures
        s@ == date_ru_seq(d),
{
    let mut s = String::new();
    push_dec_padded(&mut s, d.day as u64, 2);
    push_char(&mut s, '.');
    push_dec_padded(&mut s, d.month as u64, 2);
    push_char(&mut s, '.');
    push_year4(&mut s, d.year);
    assert(s@ =~= date_ru_seq(d));
    s
}

/// Index of the first `c` in `s`.
pub open spec fn find_char(s: Seq<char>, c: char) -> Option<int>
    decreases s.len(),
{
    if s.len() == 0 {
        None
    } else if s[0] == c {
        Some(0)
    } else {
        match find_char(s.drop_first(), c) {
            Some(i) => Some(i + 1),
            None => None,
        }
    }
}

pub proof fn lemma_find_char(s: Seq<char>, c: char)
    ensures
        find_char(s, c) matches Some(i) ==> 0 <= i < s.len() && s[i] == c && forall|j: int|
            0 <= j < i ==> s[j] != c,
        find_char(s, c) is None ==> forall|j: int| 0 <= j < s.len() ==> s[j] != c,
    decreases s.len(),
{
    if s.len() > 0 {
        lemma_find_char(s.drop_first(), c);
        if s[0] != c {
            assert forall|j: int| 1 <= j < s.len() implies s[j] == s.drop_first()[j - 1] by {}
        }
    }
}

/// First `c` in `v[lo..hi]`, as an index into `v`.
pub fn find_char_in(v: &Vec<char>, lo: usize, hi: usize, c: char) -> (r: Option<usize>)
    requires
        lo <= hi <= v.len(),
    ensures
        r == (match find_char(v@.subrange(lo as int, hi as int), c) {
            Some(i) => Some((i + lo) as usize),
            None => None::<usize>,
        }),
        r matches Some(i) ==> lo <= i < hi,
{
    let ghost s = v@.subrange(lo as int, hi as int);
    proof {
        lemma_find_char(s, c);
    }
    let mut i = lo;
    while i < hi
        invariant
            lo <= i <= hi <= v.len(),
            s == v@.subrange(lo as int, hi as int),
            forall|j: int| lo <= j < i ==> v@[j] != c,
        decreases hi - i,
    {
        if v[i] == c {
            proof {
                lemma_find_char(s, c);
                match find_char(s, c) {
                    Some(k) => {
                        assert(s[i - lo] == c);
                        if k < i - lo {
                            assert(v@[k + lo] != c);
                        }
                        assert(k == i - lo);
                    },
                    None => {
                        assert(s[i - lo] == c);
                    },
                }
            }
            return Some(i);
        }
        i = i + 1;
    }
    proof {
        match find_char(s, c) {
            Some(k) => {
                assert(v@[k + lo] == c);
            },
            None => {},
        }
    }
    None
}

/// The three `.`-separated pieces of `s.trim().splitn(3, '.')`, if there are three.
pub open spec fn split3_dot(t: Seq<char>) -> Option<(Seq<char>, Seq<char>, Seq<char>)> {
    match find_char(t, '.') {
        None => None,
        Some(i) => {
            let rest = t.subrange(i + 1, t.len() as int);
            match find_char(rest, '.') {
                None => None,
                Some(j) => Some(
                    (
                        t.subrange(0, i),
                        rest.subrange(0, j),
                        rest.subrange(j + 1, rest.len() as int),
                    ),
                ),
            }
        },
    }
}

/// What `parse_date_ru` reads from `s`.
pub open spec fn date_ru_parse(s: Seq<char>) -> Option<CalDate> {
    match split3_dot(trim_seq(s)) {
        None => None,
        Some((a, b, c)) => match (
            parse_unsigned(trim_seq(a), 10, u32::MAX as nat),
            parse_unsigned(trim_seq(b), 10, u32::MAX as nat),
            parse_signed(trim_seq(c), i32::MIN as int, i32::MAX as int),
        ) {
            (Some(d), Some(m), Some(y)) => if valid_ymd(y, m as int, d as int) {
                Some(CalDate { year: y as i32, month: m as u32, day: d as u32 })
            } else {
                None
            },
            _ => None,
        },
    }
}

/// In `a + [c] + rest` with no `c` in `a`, the first `c` follows `a`.
pub proof fn lemma_find_after(a: Seq<char>, c: char, rest: Seq<char>)
    requires
        forall|i: int| 0 <= i < a.len() ==> a[i] != c,
    ensures
        find_char(a + seq![c] + rest, c) == Some(a.len() as int),
    decreases a.len(),
{
    let t = a + seq![c] + rest;
    if a.len() > 0 {
        assert(t[0] == a[0]);
        assert(t.drop_first() =~= a.drop_first() + seq![c] + rest);
        lemma_find_after(a.drop_first(), c, rest);
    } else {
        assert(t[0] == c);
    }
}

pub proof fn lemma_digits_no_dot(s: Seq<char>)
    requires
        all_digits(s),
    ensures
        forall|i: int| 0 <= i < s.len() ==> s[i] != '.',
{
    assert forall|i: int| 0 <= i < s.len() implies s[i] != '.' by {
        assert(48 <= s[i] as u32 <= 57);
    }
}

/// How a year reads back from its `{:04}` form.
proof fn lemma_year4_reads_back(y: int)
    requires
        i32::MIN < y <= i32::MAX,
    ensures
        parse_signed(trim_seq(year4_seq(y)), i32::MIN as int, i32::MAX as int) == Some(y),
        forall|i: int| 0 <= i < year4_seq(y).len() ==> year4_seq(y)[i] != '.',
        year4_seq(y).len() >= 1,
        48 <= year4_seq(y).last() as u32 <= 57,
{
    if y < 0 {
        let p = zero_pad(dec_seq((-y) as nat), 3);
        lemma_zero_pad_reads_back((-y) as nat, 3);
        let s = seq!['-'] + p;
        assert(s.drop_first() =~= p);
        assert(s.last() == p.last());
        assert(48 <= p[p.len() - 1] as u32 <= 57);
        assert(!is_ws('-'));
        lemma_digit_not_ws(p.last());
        lemma_trim_keeps(s);
        lemma_digits_no_dot(p);
        assert forall|i: int| 0 <= i < s.len() implies s[i] != '.' by {
            if i > 0 {
                assert(s[i] == p[i - 1]);
            }
        }
    } else {
        let p = zero_pad(dec_seq(y as nat), 4);
        lemma_zero_pad_reads_back(y as nat, 4);
        assert(48 <= p[0] as u32 <= 57);
        assert(48 <= p[p.len() - 1] as u32 <= 57);
        lemma_digit_not_ws(p[0]);
        lemma_digit_not_ws(p.last());
        lemma_trim_keeps(p);
        lemma_digits_no_dot(p);
    }
}

/// A date written as `ДД.ММ.ГГГГ` reads back as that date.
pub proof fn law_date_ru_roundtrip(d: CalDate)
    requires
        d.wf(),
    ensures
        date_ru_parse(date_ru_seq(d)) == Some(d),
{
    let dd = zero_pad(dec_seq(d.day as nat), 2);
    let mm = zero_pad(dec_seq(d.month as nat), 2);
    let yy = year4_seq(d.year as int);
    lemma_zero_pad_reads_back(d.day as nat, 2);
    lemma_zero_pad_reads_back(d.month as nat, 2);
    lemma_year4_reads_back(d.year as int);
    lemma_digits_no_dot(dd);
    lemma_digits_no_dot(mm);
    let t = date_ru_seq(d);
    assert(t == dd + seq!['.'] + mm + seq!['.'] + yy);
    // the text is its own trim
    assert(48 <= dd[0] as u32 <= 57);
    lemma_digit_not_ws(dd[0]);
    lemma_digit_not_ws(yy.last());
    assert(t[0] == dd[0]);
    assert(t.last() == yy.last());
    lemma_trim_keeps(t);
    // the pieces
    let rest = mm + seq!['.'] + yy;
    assert(t =~= dd + seq!['.'] + rest);
    lemma_find_after(dd, '.', rest);
    assert(t.subrange(dd.len() as int + 1, t.len() as int) =~= rest);
    lemma_find_after(mm, '.', yy);
    assert(t.subrange(0, dd.len() as int) =~= dd);
    assert(rest.subrange(0, mm.len() as int) =~= mm);
    assert(rest.subrange(mm.len() as int + 1, rest.len() as int) =~= yy);
    assert(split3_dot(t) == Some((dd, mm, yy)));
    // each piece reads back
    assert(48 <= dd[dd.len() - 1] as u32 <= 57);
    assert(48 <= mm[0] as u32 <= 57 && 48 <= mm[mm.len() - 1] as u32 <= 57);
    lemma_digit_not_ws(dd.last());
    lemma_digit_not_ws(mm[0]);
    lemma_digit_not_ws(mm.last());
    lemma_trim_keeps(dd);
    lemma_trim_keeps(mm);
    assert(dd[0] != '+' && mm[0] != '+');
}

/// `piece.trim().parse::<u32>()` for `piece == v[lo..hi]`.
pub fn parse_u32_trimmed(v: &Vec<char>, lo: usize, hi: usize) -> (r: Option<u32>)
    requires
        lo <= hi <= v.len(),
    ensures
        r == (match parse_unsigned(trim_seq(v@.subrange(lo as int, hi as int)), 10, u32::MAX as nat) {
            Some(x) => Some(x as u32),
            None => None::<u32>,
        }),
{
    let piece = vec_slice(v, lo, hi);
    let (a, b) = trim_bounds(&piece);
    match parse_unsigned_exec(&piece, a, b, 10, u32::MAX as u64) {
        Some(x) => Some(x as u32),
        None => None,
    }
}

/// `piece.trim().parse::<i32>()` for `piece == v[lo..hi]`.
pub fn parse_i32_trimmed(v: &Vec<char>, lo: usize, hi: usize) -> (r: Option<i32>)
    requires
        lo <= hi <= v.len(),
    ensures
        r == (match parse_signed(trim_seq(v@.subrange(lo as int, hi as int)), i32::MIN as int, i32::MAX as int) {
            Some(x) => Some(x as i32),
            None => None::<i32>,
        }),
{
    let piece = vec_slice(v, lo, hi);
    let (a, b) = trim_bounds(&piece);
    match parse_signed_exec(&piece, a, b, i32::MIN as i64, i32::MAX as i64) {
        Some(x) => Some(x as i32),
        None => None,
    }
}

/// Parse a `ДД.ММ.ГГГГ` string into a calendar date (permissive on leading
/// zeros and on spaces around each part).
pub fn parse_date_ru(s: &str) -> (r: Option<CalDate>)
    ensures
        r == date_ru_parse(s@),
{
    let raw = chars_of(s);
    let (lo, hi) = trim_bounds(&raw);
    let t = vec_slice(&raw, lo, hi);
    let ghost ts = t@;
    let n = t.len();
    assert(ts == trim_seq(s@));
    assert(t@.subrange(0, n as int) =~= t@);
    let i = match find_char_in(&t, 0, n, '.') {
        Some(i) => i,
        None => {
            return None;
        },
    };
    proof {
        lemma_find_char(ts, '.');
    }
    assert(find_char(ts, '.') == Some(i as int));
    let ghost rest = ts.subrange(i + 1, n as int);
    let j = match find_char_in(&t, i + 1, n, '.') {
        Some(j) => j,
        None => {
            assert(find_char(rest, '.') is None);
            return None;
        },
    };
    proof {
        lemma_find_char(rest, '.');
    }
    assert(find_char(rest, '.') == Some(j - i - 1));
    assert(rest.subrange(0, j - i - 1) =~= ts.subrange(i + 1, j as int));
    assert(rest.subrange(j - i, rest.len() as int) =~= ts.subrange(j + 1, n as int));
    assert(split3_dot(ts) == Some(
        (ts.subrange(0, i as int), ts.subrange(i + 1, j as int), ts.subrange(j + 1, n as int)),
    ));
    let d = parse_u32_trimmed(&t, 0, i);
    let m = parse_u32_trimmed(&t, i + 1, j);
    let y = parse_i32_trimmed(&t, j + 1, n);
    match (d, m, y) {
        (Some(d), Some(m), Some(y)) => CalDate::from_ymd_opt(y, m, d),
        _ => None,
    }
}

// --- Russian labels ---------------------------------------------------------

pub open spec fn weekday_short_seq(w: int) -> Seq<char> {
    if w == 0 {
        "Пн"@
    } else if w == 1 {
        "Вт"@
    } else if w == 2 {
        "Ср"@
    } else if w == 3 {
        "Чт"@
    } else if w == 4 {
        "Пт"@
    } else if w == 5 {
        "Сб"@
    } else if w == 6 {
        "Вс"@
    } else {
        ""@
    }
}

/// Russian short weekday for a Monday-based index, Пн..Вс (`""` past Sunday).
pub fn weekday_short(w: u32) -> (r: &'static str)
    ensures
        r@ == weekday_short_seq(w as int),
{
    if w == 0 {
        "Пн"
    } else if w == 1 {
        "Вт"
    } else if w == 2 {
        "Ср"
    } else if w == 3 {
        "Чт"
    } else if w == 4 {
        "Пт"
    } else if w == 5 {
        "Сб"
    } else if w == 6 {
        "Вс"
    } else {
        ""
    }
}

/// Russian short weekday, Пн..Вс.
pub fn ru_weekday_short(d: CalDate) -> (r: &'static str)
    requires
        d.wf(),
    ensures
        r@ == weekday_short_seq(d.weekday()),
{
    weekday_short(weekday_from_monday(d))
}

pub open spec fn month_gen_seq(m: int) -> Seq<char> {
    if m == 1 {
        "января"@
    } else if m == 2 {
        "февраля"@
    } else if m == 3 {
        "марта"@
    } else if m == 4 {
        "апреля"@
    } else if m == 5 {
        "мая"@
    } else if m == 6 {
        "июня"@
    } else if m == 7 {
        "июля"@
    } else if m == 8 {
        "августа"@
    } else if m == 9 {
        "сентября"@
    } else if m == 10 {
        "октября"@
    } else if m == 11 {
        "ноября"@
    } else if m == 12 {
        "декабря"@
    } else {
        ""@
    }
}

/// Russian month name in the genitive (as used in dates: "20 июня"), for a
/// month numbered 1..=12; `""` for any other number.
pub fn ru_month_gen(m: u32) -> (r: &'static str)
    ensures
        r@ == month_gen_seq(m as int),
{
    if m == 1 {
        "января"
    } else if m == 2 {
        "февраля"
    } else if m == 3 {
        "марта"
    } else if m == 4 {
        "апреля"
    } else if m == 5 {
        "мая"
    } else if m == 6 {
        "июня"
    } else if m == 7 {
        "июля"
    } else if m == 8 {
        "августа"
    } else if m == 9 {
        "сентября"
    } else if m == 10 {
        "октября"
    } else if m == 11 {
        "ноября"
    } else if m == 12 {
        "декабря"
    } else {
        ""
    }
}

/// A day-group header label like "Пн, 7 июля".
pub fn ru_date_label(d: CalDate) -> (s: String)
    requires
        d.wf(),
    ensures
        s@ == weekday_short_seq(d.weekday()) + ", "@ + dec_seq(d.day as nat) + " "@
            + month_gen_seq(d.month as int),
{
    let mut s = String::new();
    push_str(&mut s, ru_weekday_short(d));
    push_str(&mut s, ", ");
    push_dec(&mut s, d.day as u64);
    push_str(&mut s, " ");
    push_str(&mut s, ru_month_gen(d.month));
    s
}

} // verus!
