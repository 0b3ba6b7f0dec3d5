//! The decisions and roll-ups behind the stored data: how notes and
//! descriptions are normalized before they are stored, which schema
//! migrations run, the color of a new project, entries read in the local time
//! zone, a project's history grouped by day, the per-project figures of the
//! Projects tab, the flattened export rows, and the writes to the entries
//! table. The queries themselves are the caller's part; this module gets
//! their rows as plain values and hands back the writes to perform.

use vstd::prelude::*;

use crate::billing::BillableEntry;
use crate::dates::{date_ru_seq, format_date_ru, ru_date_label, CalDate};
use crate::models::{
    dur_ru_seq, format_dur_ru, format_hms, hm_parse, hms_seq, nonblank, parse_hm, trim_ref,
    ExportRow, Id, TimeEntry,
};
use crate::instants::{
    elapsed, elapsed_secs, is_stored_instant, local_clock, local_date_ok, local_hm_to_utc,
    now_rfc3339, wall_outcome, parse_ts, representable, rfc3339_text, to_rfc3339, ts_instant, Instant,
};
use crate::models::entry_secs;
use crate::palette::{hex_seq, hex_value, law_hex_roundtrip, nth_palette, pal_for_value, palette_seq, u32_to_hex};
use crate::text::{
    dec_seq, lemma_digit_not_ws, lemma_trim_keeps, lemma_zero_pad_reads_back, push_dec_padded,
    push_str, trim_seq, zero_pad,
};
use crate::dates::lemma_find_after;

verus! {

// --- normalization ----------------------------------------------------------

pub open spec fn opt_view(o: Option<String>) -> Option<Seq<char>> {
    match o {
        Some(s) => Some(s@),
        None => None,
    }
}

pub open spec fn opt_str_view(o: Option<&str>) -> Option<Seq<char>> {
    match o {
        Some(s) => Some(s@),
        None => None,
    }
}

/// What a note is stored as: trimmed, and `NULL` (None) when blank.
pub open spec fn stored_note(note: Option<Seq<char>>) -> Option<Seq<char>> {
    match note {
        Some(n) => nonblank(n),
        None => None,
    }
}

/// Set (or clear) a note: blank/whitespace stores NULL, anything else is
/// stored trimmed, so "has a note" is a plain `note IS NOT NULL` check.
pub fn normalize_note(note: Option<&str>) -> (r: Option<String>)
    ensures
        opt_view(r) == stored_note(opt_str_view(note)),
{
    match note {
        Some(n) => {
            let t = trim_ref(n);
            if t.unicode_len() > 0 {
                Some(String::from_str(t))
            } else {
                None
            }
        },
        None => None,
    }
}

/// The description a new or edited entry stores: trimmed, `NULL` when blank.
pub fn entry_description(description: &str) -> (r: Option<String>)
    ensures
        opt_view(r) == nonblank(description@),
{
    normalize_note(Some(description))
}

/// Normalizing a stored note again changes nothing.
pub proof fn law_note_normalization_idempotent(note: Option<Seq<char>>)
    ensures
        stored_note(stored_note(note)) == stored_note(note),
{
    match note {
        Some(n) => {
            if trim_seq(n).len() > 0 {
                lemma_trim_idempotent(n);
            }
        },
        None => {},
    }
}

proof fn lemma_trim_start_no_ws(s: Seq<char>)
    ensures
        trim_start_seq_head_ok(crate::text::trim_start_seq(s)),
    decreases s.len(),
{
    if s.len() > 0 && crate::text::is_ws(s[0]) {
        lemma_trim_start_no_ws(s.drop_first());
    }
}

spec fn trim_start_seq_head_ok(t: Seq<char>) -> bool {
    t.len() > 0 ==> !crate::text::is_ws(t[0])
}

proof fn lemma_trim_end_keeps_head(s: Seq<char>)
    requires
        s.len() > 0 ==> !crate::text::is_ws(s[0]),
    ensures
        crate::text::trim_end_seq(s).len() > 0 ==> crate::text::trim_end_seq(s)[0] == s[0],
        crate::text::trim_end_seq(s).len() > 0 ==> !crate::text::is_ws(crate::text::trim_end_seq(s).last()),
        crate::text::trim_end_seq(s).len() <= s.len(),
    decreases s.len(),
{
    if s.len() > 0 && crate::text::is_ws(s.last()) {
        lemma_trim_end_keeps_head(s.drop_last());
    }
}

proof fn lemma_trim_idempotent(n: Seq<char>)
    ensures
        trim_seq(trim_seq(n)) == trim_seq(n),
{
    let a = crate::text::trim_start_seq(n);
    lemma_trim_start_no_ws(n);
    lemma_trim_end_keeps_head(a);
    let t = crate::text::trim_end_seq(a);
    if t.len() > 0 {
        assert(crate::text::trim_start_seq(t) == t);
        assert(crate::text::trim_end_seq(t) == t);
    } else {
        assert(crate::text::trim_start_seq(t) == t);
        assert(crate::text::trim_end_seq(t) == t);
    }
}

// --- migrations -------------------------------------------------------------

/// The first schema migration to apply to a database at `current`
/// (`PRAGMA user_version`) when there are `count` migrations; `None` when
/// it is up to date (or claims a version this build does not know).
pub open spec fn first_pending(current: int, count: int) -> Option<int> {
    if 0 <= current < count {
        Some(current)
    } else {
        None
    }
}

/// Which migrations run: `migrations[first..count]`, after which the stored
/// version is set to `count`.
pub fn pending_migrations(current: i64, count: usize) -> (r: Option<usize>)
    ensures
        match r {
            Some(f) => first_pending(current as int, count as int) == Some(f as int),
            None => first_pending(current as int, count as int) is None,
        },
{
    if current < 0 {
        None
    } else if (current as u64) < (count as u64) {
        Some(current as usize)
    } else {
        None
    }
}

// --- projects ---------------------------------------------------------------

/// Color of a new project: the next palette entry's main color, round-robin
/// by the number of active projects.
pub fn new_project_color(active_projects: i64) -> (c: String)
    requires
        0 <= active_projects <= usize::MAX,
    ensures
        c@ == hex_seq(palette_seq()[(active_projects % 7) as int].main),
{
    u32_to_hex(nth_palette(active_projects as usize).main)
}

/// A new project's color reads back as the palette entry it was taken from.
pub proof fn law_new_project_color_roundtrip(k: int)
    requires
        k >= 0,
    ensures
        pal_for_value(hex_value(hex_seq(palette_seq()[k % 7].main))) == palette_seq()[k % 7],
{
    law_hex_roundtrip(palette_seq()[k % 7].main);
}

/// A stored color, or indigo when none is stored.
pub fn stored_color(color: Option<String>) -> (c: String)
    ensures
        c@ == (match color {
            Some(s) => s@,
            None => "#4f46e5"@,
        }),
{
    match color {
        Some(s) => s,
        None => String::from_str("#4f46e5"),
    }
}

// --- entries joined with their project --------------------------------------

/// A time entry joined with its project name + color — for list/detail views.
#[derive(Debug, Clone)]
pub struct EntryDetail {
    pub entry: TimeEntry,
    pub project_id: Id,
    pub project: String,
    pub color: String,
}

/// A stored entry with its local date, local clock times and duration, as the
/// roll-ups read it.
#[derive(Debug, Clone)]
pub struct DatedEntry {
    pub entry: TimeEntry,
    pub date: CalDate,
    pub start_hm: String,
    pub end_hm: Option<String>,
    pub secs: i64,
}

// --- project history --------------------------------------------------------

/// One entry line inside a project's history detail.
#[derive(Debug, Clone)]
pub struct HistItem {
    pub id: Id,
    pub desc: String,
    pub range: String,
    pub dur_label: String,
    pub color: String,
    pub note: Option<String>,
}

/// A day-group in a project's history: date header + day total + its entries.
#[derive(Debug, Clone)]
pub struct DayGroup {
    pub date_label: String,
    pub total_label: String,
    pub items: Vec<HistItem>,
}

/// Days and member positions of the history groups of `es`: consecutive
/// entries on the same day form one group.
pub open spec fn day_groups(es: Seq<DatedEntry>) -> Seq<(CalDate, Seq<int>)>
    decreases es.len(),
{
    if es.len() == 0 {
        seq![]
    } else {
        let g = day_groups(es.drop_last());
        let i = es.len() - 1;
        if g.len() > 0 && g.last().0 == es.last().date {
            g.update(g.len() - 1, (g.last().0, g.last().1.push(i)))
        } else {
            g.push((es.last().date, seq![i]))
        }
    }
}

/// The member positions of groups, group after group.
pub open spec fn members_in_order(g: Seq<(CalDate, Seq<int>)>) -> Seq<int>
    decreases g.len(),
{
    if g.len() == 0 {
        seq![]
    } else {
        members_in_order(g.drop_last()) + g.last().1
    }
}

/// A project's history lists every entry exactly once, in order, under the
/// day it started on; each day group is non-empty, and neighbouring groups
/// are different days.
pub proof fn law_history_groups_by_day(es: Seq<DatedEntry>)
    ensures
        ({
            let g = day_groups(es);
            &&& members_in_order(g) == Seq::new(es.len(), |i: int| i)
            &&& forall|k: int| 0 <= k < g.len() ==> (#[trigger] g[k]).1.len() > 0
            &&& forall|k: int, j: int|
                0 <= k < g.len() && 0 <= j < g[k].1.len() ==> es[#[trigger] g[k].1[j]].date == g[k].0
            &&& forall|k: int| 0 <= k < g.len() - 1 ==> (#[trigger] g[k]).0 != g[k + 1].0
        }),
    decreases es.len(),
{
    let g = day_groups(es);
    if es.len() == 0 {
        assert(members_in_order(g) =~= Seq::new(0, |i: int| i));
    } else {
        let prev = es.drop_last();
        law_history_groups_by_day(prev);
        let gp = day_groups(prev);
        let i = es.len() - 1;
        assert forall|x: int| 0 <= x < prev.len() implies prev[x] == es[x] by {}
        if gp.len() > 0 && gp.last().0 == es.last().date {
            let m = gp.last().1;
            assert(g == gp.update(gp.len() - 1, (gp.last().0, m.push(i))));
            assert(g.drop_last() =~= gp.drop_last());
            assert(members_in_order(gp) == members_in_order(gp.drop_last()) + m);
            assert(members_in_order(g) == members_in_order(g.drop_last()) + m.push(i));
            let a = members_in_order(gp.drop_last());
            assert(a + m.push(i) =~= (a + m).push(i));
            assert(Seq::new((es.len() - 1) as nat, |x: int| x).push(i) =~= Seq::new(es.len(), |x: int| x));
            assert forall|k: int, j: int|
                0 <= k < g.len() && 0 <= j < g[k].1.len() implies es[#[trigger] g[k].1[j]].date == g[k].0 by {
                if k < g.len() - 1 {
                    assert(g[k] == gp[k]);
                    lemma_member_in_range(prev, gp, k, j);
                    assert(prev[gp[k].1[j]] == es[gp[k].1[j]]);
                } else if j < m.len() {
                    assert(g[k].1[j] == m[j]);
                    lemma_member_in_range(prev, gp, k, j);
                    assert(prev[gp[k].1[j]] == es[gp[k].1[j]]);
                } else {
                    assert(g[k].1[j] == i);
                }
            }
        } else {
            assert(g == gp.push((es.last().date, seq![i])));
            assert(g.drop_last() =~= gp);
            assert(members_in_order(g) =~= Seq::new(es.len(), |x: int| x));
            assert forall|k: int, j: int|
                0 <= k < g.len() && 0 <= j < g[k].1.len() implies es[#[trigger] g[k].1[j]].date == g[k].0 by {
                if k < g.len() - 1 {
                    assert(g[k] == gp[k]);
                    lemma_member_in_range(prev, gp, k, j);
                    assert(prev[gp[k].1[j]] == es[gp[k].1[j]]);
                } else {
                    assert(g[k].1[j] == i);
                }
            }
        }
    }
}

/// Seconds of all entries of `es`.
pub open spec fn all_secs(es: Seq<DatedEntry>) -> int
    decreases es.len(),
{
    if es.len() == 0 {
        0
    } else {
        all_secs(es.drop_last()) + es.last().secs
    }
}

/// The day totals of groups `g`, added up.
pub open spec fn groups_total(es: Seq<DatedEntry>, g: Seq<(CalDate, Seq<int>)>) -> int
    decreases g.len(),
{
    if g.len() == 0 {
        0
    } else {
        groups_total(es, g.drop_last()) + group_secs(es, g.last().1)
    }
}

proof fn lemma_group_secs_append(es: Seq<DatedEntry>, a: Seq<int>, b: Seq<int>)
    ensures
        group_secs(es, a + b) == group_secs(es, a) + group_secs(es, b),
    decreases b.len(),
{
    if b.len() == 0 {
        assert(a + b =~= a);
    } else {
        lemma_group_secs_append(es, a, b.drop_last());
        assert((a + b).drop_last() =~= a + b.drop_last());
    }
}

proof fn lemma_groups_total_members(es: Seq<DatedEntry>, g: Seq<(CalDate, Seq<int>)>)
    ensures
        groups_total(es, g) == group_secs(es, members_in_order(g)),
    decreases g.len(),
{
    if g.len() > 0 {
        lemma_groups_total_members(es, g.drop_last());
        lemma_group_secs_append(es, members_in_order(g.drop_last()), g.last().1);
    }
}

proof fn lemma_group_secs_prefix(es: Seq<DatedEntry>, n: int)
    requires
        0 <= n <= es.len(),
    ensures
        group_secs(es, Seq::new(n as nat, |i: int| i)) == all_secs(es.take(n)),
    decreases n,
{
    if n > 0 {
        lemma_group_secs_prefix(es, n - 1);
        assert(Seq::new(n as nat, |i: int| i).drop_last() =~= Seq::new((n - 1) as nat, |i: int| i));
        assert(es.take(n).drop_last() =~= es.take(n - 1));
    }
}

/// The day totals of a project's history add up to the seconds of all its entries.
pub proof fn law_history_totals_add_up(es: Seq<DatedEntry>)
    ensures
        groups_total(es, day_groups(es)) == all_secs(es),
{
    law_history_groups_by_day(es);
    lemma_groups_total_members(es, day_groups(es));
    lemma_group_secs_prefix(es, es.len() as int);
    assert(es.take(es.len() as int) =~= es);
}

/// A member of a group of `day_groups(es)` is a position of `es`.
proof fn lemma_member_in_range(es: Seq<DatedEntry>, g: Seq<(CalDate, Seq<int>)>, k: int, j: int)
    requires
        g == day_groups(es),
        members_in_order(g) == Seq::new(es.len(), |i: int| i),
        0 <= k < g.len(),
        0 <= j < g[k].1.len(),
    ensures
        0 <= g[k].1[j] < es.len(),
{
    lemma_members_contain(g, k, j);
}

/// Every member of group `k` occurs in the groups' members in order.
proof fn lemma_members_contain(g: Seq<(CalDate, Seq<int>)>, k: int, j: int)
    requires
        0 <= k < g.len(),
        0 <= j < g[k].1.len(),
    ensures
        members_in_order(g).contains(g[k].1[j]),
    decreases g.len(),
{
    let prefix = members_in_order(g.drop_last());
    if k == g.len() - 1 {
        assert(members_in_order(g)[prefix.len() + j] == g[k].1[j]);
    } else {
        assert(g.drop_last()[k] == g[k]);
        lemma_members_contain(g.drop_last(), k, j);
        let w = choose|w: int| 0 <= w < prefix.len() && prefix[w] == g[k].1[j];
        assert(members_in_order(g)[w] == g[k].1[j]);
    }
}

pub open spec fn group_secs(es: Seq<DatedEntry>, members: Seq<int>) -> int
    decreases members.len(),
{
    if members.len() == 0 {
        0
    } else {
        group_secs(es, members.drop_last()) + es[members.last()].secs
    }
}

/// `HH:MM – HH:MM`, or `HH:MM – …` while running.
pub open spec fn range_seq(start_hm: Seq<char>, end_hm: Option<Seq<char>>) -> Seq<char> {
    start_hm + " – "@ + match end_hm {
        Some(e) => e,
        None => "…"@,
    }
}

pub open spec fn hist_item_ok(it: HistItem, e: DatedEntry, color: Seq<char>) -> bool {
    &&& it.id == e.entry.id
    &&& it.desc@ == (match e.entry.description {
        Some(d) => match nonblank(d@) {
            Some(t) => t,
            None => "Без названия"@,
        },
        None => "Без названия"@,
    })
    &&& it.range@ == range_seq(e.start_hm@, opt_view(e.end_hm))
    &&& it.dur_label@ == dur_ru_seq(e.secs as int)
    &&& it.color@ == color
    &&& opt_view(it.note) == opt_view(e.entry.note)
}

/// The labels of history group `g` of `es`.
pub open spec fn group_labels_ok(grp: DayGroup, es: Seq<DatedEntry>, g: (CalDate, Seq<int>)) -> bool {
    &&& grp.date_label@ == crate::dates::weekday_short_seq(g.0.weekday()) + ", "@ + dec_seq(
        g.0.day as nat,
    ) + " "@ + crate::dates::month_gen_seq(g.0.month as int)
    &&& grp.total_label@ == dur_ru_seq(group_secs(es, g.1))
}

pub open spec fn group_items_ok(grp: DayGroup, es: Seq<DatedEntry>, g: (CalDate, Seq<int>), color: Seq<char>) -> bool {
    &&& grp.items@.len() == g.1.len()
    &&& forall|j: int|
        #![trigger grp.items@[j]]
        0 <= j < g.1.len() ==> hist_item_ok(grp.items@[j], es[g.1[j]], color)
}

/// The history holds one group per day-run of `es` (most recent first when
/// `es` is), each labelled with its day and its total, listing its entries in order.
pub open spec fn history_ok(h: Seq<DayGroup>, es: Seq<DatedEntry>, color: Seq<char>) -> bool {
    let g = day_groups(es);
    &&& h.len() == g.len()
    &&& forall|k: int|
        0 <= k < h.len() ==> group_labels_ok(#[trigger] h[k], es, g[k]) && group_items_ok(
            h[k],
            es,
            g[k],
            color,
        )
}

/// Every running day total fits in an `i64`, and every date is a real date.
pub open spec fn history_input_ok(es: Seq<DatedEntry>) -> bool {
    &&& forall|i: int| 0 <= i < es.len() ==> (#[trigger] es[i]).date.wf()
    &&& forall|n: int, k: int|
        0 <= n <= es.len() && 0 <= k < day_groups(es.take(n)).len() ==> i64::MIN <= #[trigger] group_secs(
            es,
            day_groups(es.take(n))[k].1,
        ) <= i64::MAX
}

fn range_label(start_hm: &String, end_hm: &Option<String>) -> (r: String)
    ensures
        r@ == range_seq(start_hm@, opt_view(*end_hm)),
{
    let mut s = start_hm.clone();
    push_str(&mut s, " – ");
    match end_hm {
        Some(e) => push_str(&mut s, e.as_str()),
        None => push_str(&mut s, "…"),
    }
    s
}

fn hist_item(e: &DatedEntry, color: &String) -> (it: HistItem)
    ensures
        hist_item_ok(it, *e, color@),
{
    HistItem {
        id: e.entry.id,
        desc: e.entry.desc_or("Без названия"),
        range: range_label(&e.start_hm, &e.end_hm),
        dur_label: format_dur_ru(e.secs),
        color: color.clone(),
        note: e.entry.note.clone(),
    }
}

pub proof fn lemma_day_groups_members(es: Seq<DatedEntry>)
    ensures
        forall|k: int, j: int|
            0 <= k < day_groups(es).len() && 0 <= j < day_groups(es)[k].1.len() ==> 0
                <= #[trigger] day_groups(es)[k].1[j] < es.len() && es[day_groups(es)[k].1[j]].date
                == day_groups(es)[k].0,
        forall|k: int| 0 <= k < day_groups(es).len() ==> (#[trigger] day_groups(es)[k]).1.len() > 0,
    decreases es.len(),
{
    if es.len() > 0 {
        lemma_day_groups_members(es.drop_last());
    }
}

/// Groups built so far: the first `acc.len()` groups of `g`, with their days and totals.
#[verifier::opaque]
pub open spec fn acc_ok(
    acc: Seq<DayGroup>,
    dates: Seq<CalDate>,
    totals: Seq<i64>,
    es: Seq<DatedEntry>,
    g: Seq<(CalDate, Seq<int>)>,
    color: Seq<char>,
) -> bool {
    &&& acc.len() == dates.len() == totals.len() == g.len()
    &&& forall|k: int|
        0 <= k < acc.len() ==> #[trigger] dates[k] == g[k].0 && totals[k] == group_secs(es, g[k].1)
            && group_labels_ok(acc[k], es, g[k]) && group_items_ok(acc[k], es, g[k], color)
}

proof fn lemma_acc_extend(
    acc: Seq<DayGroup>,
    dates: Seq<CalDate>,
    totals: Seq<i64>,
    es: Seq<DatedEntry>,
    g0: Seq<(CalDate, Seq<int>)>,
    color: Seq<char>,
    i: int,
    item: HistItem,
    grp: DayGroup,
    t: i64,
)
    requires
        acc_ok(acc, dates, totals, es, g0, color),
        acc.len() > 0,
        0 <= i < es.len(),
        hist_item_ok(item, es[i], color),
        grp.items@ == acc.last().items@.push(item),
        grp.date_label == acc.last().date_label,
        grp.total_label@ == dur_ru_seq(t as int),
        t == totals.last() + es[i].secs,
    ensures
        acc_ok(
            acc.update(acc.len() - 1, grp),
            dates,
            totals.update(totals.len() - 1, t),
            es,
            g0.update(g0.len() - 1, (g0.last().0, g0.last().1.push(i))),
            color,
        ),
{
    reveal(acc_ok);
    let n = acc.len() - 1;
    assert(dates[n] == g0[n].0);
    let g1 = g0.update(g0.len() - 1, (g0.last().0, g0.last().1.push(i)));
    assert(g1[n].1.drop_last() =~= g0[n].1);
    assert(group_secs(es, g1[n].1) == group_secs(es, g0[n].1) + es[i].secs);
    let acc1 = acc.update(n, grp);
    assert forall|j: int| 0 <= j < g1[n].1.len() implies hist_item_ok(
        #[trigger] grp.items@[j],
        es[g1[n].1[j]],
        color,
    ) by {
        if j < g1[n].1.len() - 1 {
            assert(g1[n].1[j] == g0[n].1[j]);
            assert(grp.items@[j] == acc[n].items@[j]);
        }
    }
    assert(group_items_ok(acc1[n], es, g1[n], color));
    assert forall|k: int| 0 <= k < acc1.len() implies #[trigger] dates[k] == g1[k].0
        && totals.update(n, t)[k] == group_secs(es, g1[k].1) && group_labels_ok(acc1[k], es, g1[k])
        && group_items_ok(acc1[k], es, g1[k], color) by {
        assert(dates[k] == g0[k].0);
        if k < n {
            assert(g1[k] == g0[k]);
        }
    }
}

proof fn lemma_acc_new(
    acc: Seq<DayGroup>,
    dates: Seq<CalDate>,
    totals: Seq<i64>,
    es: Seq<DatedEntry>,
    g0: Seq<(CalDate, Seq<int>)>,
    color: Seq<char>,
    i: int,
    grp: DayGroup,
)
    requires
        acc_ok(acc, dates, totals, es, g0, color),
        0 <= i < es.len(),
        grp.items@.len() == 1,
        hist_item_ok(grp.items@[0], es[i], color),
        group_labels_ok(grp, es, (es[i].date, seq![i])),
    ensures
        acc_ok(
            acc.push(grp),
            dates.push(es[i].date),
            totals.push(es[i].secs),
            es,
            g0.push((es[i].date, seq![i])),
            color,
        ),
{
    reveal(acc_ok);
    let g1 = g0.push((es[i].date, seq![i]));
    assert(group_items_ok(grp, es, g1[g0.len() as int], color));
    assert(group_secs(es, seq![i]) == es[i].secs) by {
        assert(seq![i].drop_last() =~= Seq::<int>::empty());
        assert(group_secs(es, Seq::<int>::empty()) == 0);
        assert(seq![i].last() == i);
    }
    assert forall|k: int| 0 <= k < acc.len() + 1 implies #[trigger] dates.push(es[i].date)[k]
        == g1[k].0 && totals.push(es[i].secs)[k] == group_secs(es, g1[k].1) && group_labels_ok(
        acc.push(grp)[k],
        es,
        g1[k],
    ) && group_items_ok(acc.push(grp)[k], es, g1[k], color) by {
        if k < acc.len() {
            assert(dates[k] == g0[k].0);
            assert(g1[k] == g0[k]);
        }
    }
}

proof fn lemma_acc_facts(
    acc: Seq<DayGroup>,
    dates: Seq<CalDate>,
    totals: Seq<i64>,
    es: Seq<DatedEntry>,
    g: Seq<(CalDate, Seq<int>)>,
    color: Seq<char>,
)
    requires
        acc_ok(acc, dates, totals, es, g, color),
    ensures
        acc.len() == dates.len() == totals.len() == g.len(),
        acc.len() > 0 ==> dates.last() == g.last().0 && totals.last() == group_secs(es, g.last().1)
            && acc.last().date_label@ == crate::dates::weekday_short_seq(g.last().0.weekday())
            + ", "@ + dec_seq(g.last().0.day as nat) + " "@ + crate::dates::month_gen_seq(
            g.last().0.month as int,
        ),
        g.len() == acc.len() ==> (forall|k: int|
            0 <= k < acc.len() ==> group_labels_ok(#[trigger] acc[k], es, g[k]) && group_items_ok(
                acc[k],
                es,
                g[k],
                color,
            )),
{
    reveal(acc_ok);
    if acc.len() > 0 {
        assert(dates[acc.len() - 1] == g[acc.len() - 1].0);
    }
    assert forall|k: int| 0 <= k < acc.len() implies group_labels_ok(#[trigger] acc[k], es, g[k])
        && group_items_ok(acc[k], es, g[k], color) by {
        assert(dates[k] == g[k].0);
    }
}

/// Full entry history of a project (`entries` most recent first), grouped by local day.
pub fn project_history(entries: &Vec<DatedEntry>, color: &String) -> (h: Vec<DayGroup>)
    requires
        history_input_ok(entries@),
    ensures
        history_ok(h@, entries@, color@),
{
    let mut acc: Vec<DayGroup> = Vec::new();
    let mut dates: Vec<CalDate> = Vec::new();
    let mut totals: Vec<i64> = Vec::new();
    let mut i: usize = 0;
    proof {
        reveal(acc_ok);
        assert(day_groups(entries@.take(0)) =~= Seq::<(CalDate, Seq<int>)>::empty()) by {
            assert(entries@.take(0).len() == 0);
        }
    }
    while i < entries.len()
        invariant
            i <= entries.len(),
            history_input_ok(entries@),
            acc_ok(acc@, dates@, totals@, entries@, day_groups(entries@.take(i as int)), color@),
        decreases entries.len() - i,
    {
        let ghost g0 = day_groups(entries@.take(i as int));
        let ghost es1 = entries@.take(i + 1);
        proof {
            assert(es1.drop_last() =~= entries@.take(i as int));
            assert(es1.last() == entries@[i as int]);
            lemma_acc_facts(acc@, dates@, totals@, entries@, g0, color@);
        }
        let e = &entries[i];
        let item = hist_item(e, color);
        let n = acc.len();
        if n > 0 && dates[n - 1] == e.date {
            proof {
                assert(day_groups(es1) == g0.update(
                    g0.len() - 1,
                    (g0.last().0, g0.last().1.push(i as int)),
                ));
                let g1 = day_groups(es1);
                assert(g1[n - 1].1.drop_last() =~= g0[n - 1].1);
                assert(0 <= i + 1 <= entries@.len());
                assert(i64::MIN <= group_secs(entries@, day_groups(entries@.take(i + 1))[n - 1].1)
                    <= i64::MAX);
            }
            let t = totals[n - 1] + e.secs;
            let ghost acc0 = acc@;
            let mut last = acc.pop().unwrap();
            assert(last == acc0.last());
            last.items.push(item);
            last.total_label = format_dur_ru(t);
            acc.push(last);
            proof {
                assert(acc@ =~= acc0.update(n - 1, last));
                lemma_acc_extend(acc0, dates@, totals@, entries@, g0, color@, i as int, item, last, t);
            }
            totals.set(n - 1, t);
        } else {
            proof {
                assert(day_groups(es1) == g0.push((entries@[i as int].date, seq![i as int])));
                assert(seq![i as int].drop_last() =~= Seq::<int>::empty());
                assert(0 <= i + 1 <= entries@.len());
                assert(i64::MIN <= group_secs(entries@, day_groups(entries@.take(i + 1))[n as int].1)
                    <= i64::MAX);
                assert(entries@[i as int].date.wf());
            }
            let label = ru_date_label(e.date);
            let total = format_dur_ru(e.secs);
            let grp = DayGroup { date_label: label, total_label: total, items: vec![item] };
            proof {
                assert(group_secs(entries@, seq![i as int]) == e.secs) by {
                    assert(seq![i as int].drop_last() =~= Seq::<int>::empty());
                    assert(group_secs(entries@, Seq::<int>::empty()) == 0);
                    assert(seq![i as int].last() == i);
                }
                assert(grp.items@ =~= seq![item]);
                lemma_acc_new(acc@, dates@, totals@, entries@, g0, color@, i as int, grp);
            }
            dates.push(e.date);
            totals.push(e.secs);
            acc.push(grp);
        }
        i = i + 1;
    }
    assert(entries@.take(i as int) =~= entries@);
    proof {
        lemma_acc_facts(acc@, dates@, totals@, entries@, day_groups(entries@), color@);
    }
    acc
}

// --- export rows ------------------------------------------------------------

/// `YYYY-MM-DD` (the year as `{:04}` writes it).
pub open spec fn ymd_seq(d: CalDate) -> Seq<char> {
    crate::dates::year4_seq(d.year as int) + "-"@ + zero_pad(dec_seq(d.month as nat), 2) + "-"@
        + zero_pad(dec_seq(d.day as nat), 2)
}

pub fn ymd_label(d: CalDate) -> (s: String)
    ensures
        s@ == ymd_seq(d),
{
    let mut s = String::new();
    crate::dates::push_year4(&mut s, d.year);
    push_str(&mut s, "-");
    push_dec_padded(&mut s, d.month as u64, 2);
    push_str(&mut s, "-");
    push_dec_padded(&mut s, d.day as u64, 2);
    s
}

/// `HH:MM`.
pub open spec fn hm_seq(hour: int, minute: int) -> Seq<char> {
    zero_pad(dec_seq(hour as nat), 2) + ":"@ + zero_pad(dec_seq(minute as nat), 2)
}

/// An `HH:MM` label reads back as the same hour and minute — what an edit
/// form shows is what saving it stores.
pub proof fn law_hm_label_roundtrip(h: int, m: int)
    requires
        0 <= h < 24,
        0 <= m < 60,
    ensures
        hm_parse(hm_seq(h, m)) == Some((h as u32, m as u32)),
{
    let hh = zero_pad(dec_seq(h as nat), 2);
    let mm = zero_pad(dec_seq(m as nat), 2);
    lemma_zero_pad_reads_back(h as nat, 2);
    lemma_zero_pad_reads_back(m as nat, 2);
    let t = hm_seq(h, m);
    reveal_strlit(":");
    assert(t =~= hh + seq![':'] + mm);
    assert(48 <= hh[0] as u32 <= 57 && 48 <= hh[hh.len() - 1] as u32 <= 57);
    assert(48 <= mm[0] as u32 <= 57 && 48 <= mm[mm.len() - 1] as u32 <= 57);
    lemma_digit_not_ws(hh[0]);
    lemma_digit_not_ws(hh.last());
    lemma_digit_not_ws(mm[0]);
    lemma_digit_not_ws(mm.last());
    assert(t[0] == hh[0] && t.last() == mm.last());
    lemma_trim_keeps(t);
    lemma_trim_keeps(hh);
    lemma_trim_keeps(mm);
    assert forall|i: int| 0 <= i < hh.len() implies hh[i] != ':' by {
        assert(48 <= hh[i] as u32 <= 57);
    }
    lemma_find_after(hh, ':', mm);
    assert(t.subrange(0, hh.len() as int) =~= hh);
    assert(t.subrange(hh.len() as int + 1, t.len() as int) =~= mm);
    assert(hh[0] != '+' && mm[0] != '+');
}

pub fn hm_label(hour: u32, minute: u32) -> (s: String)
    ensures
        s@ == hm_seq(hour as int, minute as int),
{
    let mut s = String::new();
    push_dec_padded(&mut s, hour as u64, 2);
    push_str(&mut s, ":");
    push_dec_padded(&mut s, minute as u64, 2);
    s
}

/// A local wall-clock time of day.
#[derive(Debug, Clone, Copy, PartialEq, Eq, Structural)]
pub struct ClockTime {
    pub hour: u32,
    pub minute: u32,
}

/// The export row of an entry of `project`, started on local `date` at
/// `start`, ended at `end` (None while running), lasting `secs`.
pub fn export_row(
    project: &String,
    entry: &TimeEntry,
    date: CalDate,
    start: ClockTime,
    end: Option<ClockTime>,
    secs: i64,
) -> (r: ExportRow)
    ensures
        r.date@ == ymd_seq(date),
        r.project@ == project@,
        r.description@ == (match entry.description {
            Some(d) => match nonblank(d@) {
                Some(t) => t,
                None => ""@,
            },
            None => ""@,
        }),
        r.start@ == hm_seq(start.hour as int, start.minute as int),
        r.end@ == (match end {
            Some(e) => hm_seq(e.hour as int, e.minute as int),
            None => Seq::<char>::empty(),
        }),
        r.duration_secs == secs,
        r.duration_hms@ == hms_seq(secs as int),
{
    let end_label = match end {
        Some(e) => hm_label(e.hour, e.minute),
        None => String::new(),
    };
    ExportRow {
        date: ymd_label(date),
        project: project.clone(),
        description: entry.desc_or(""),
        start: hm_label(start.hour, start.minute),
        end: end_label,
        duration_secs: secs,
        duration_hms: format_hms(secs),
    }
}

// --- entries read in the local time zone -------------------------------------

/// What holds of an `HH:MM` label read off the local clock, whatever the zone.
pub open spec fn is_hm_label(s: Seq<char>) -> bool {
    exists|h: int, m: int| 0 <= h < 24 && 0 <= m < 60 && s == hm_seq(h, m)
}

proof fn lemma_hm_label(c: ClockTime)
    requires
        c.hour < 24,
        c.minute < 60,
    ensures
        is_hm_label(hm_seq(c.hour as int, c.minute as int)),
{
    assert(0 <= c.hour < 24 && 0 <= c.minute < 60 && hm_seq(c.hour as int, c.minute as int) == hm_seq(
        c.hour as int,
        c.minute as int,
    ));
}

/// What holds of an entry read in the local time zone, whatever the zone:
/// its start date is within a day of the UTC one, its times are `HH:MM`
/// labels (the end only when it has ended), and it lasts `entry_secs`.
pub open spec fn dated_ok(d: DatedEntry, e: TimeEntry, now: Instant) -> bool {
    &&& d.entry == e
    &&& local_date_ok(ts_instant(e.start_ts@), d.date)
    &&& is_hm_label(d.start_hm@)
    &&& (d.end_hm is Some <==> e.end_ts is Some)
    &&& (d.end_hm matches Some(x) ==> is_hm_label(x@))
    &&& d.secs == entry_secs(e, now)
}

/// An entry read in the local time zone: its start date, start and end
/// times, and its duration up to `now`.
fn dated_entry(entry: TimeEntry, now: Instant) -> (d: DatedEntry)
    requires
        representable(now),
    ensures
        dated_ok(d, entry, now),
{
    let start = entry.start();
    let date = entry.local_date();
    let sc = local_clock(start);
    proof {
        lemma_hm_label(sc);
    }
    let start_hm = hm_label(sc.hour, sc.minute);
    let end_hm = match entry.end() {
        Some(t) => {
            let ec = local_clock(t);
            proof {
                lemma_hm_label(ec);
            }
            Some(hm_label(ec.hour, ec.minute))
        },
        None => None,
    };
    let secs = entry.duration_secs(now);
    DatedEntry { entry, date, start_hm, end_hm, secs }
}

/// Entries read in the local time zone, in order.
pub fn dated_entries(entries: Vec<TimeEntry>, now: Instant) -> (r: Vec<DatedEntry>)
    requires
        representable(now),
    ensures
        r@.len() == entries@.len(),
        forall|i: int| 0 <= i < r@.len() ==> dated_ok(#[trigger] r@[i], entries@[i], now),
{
    let mut out: Vec<DatedEntry> = Vec::new();
    let mut i: usize = 0;
    let n = entries.len();
    let ghost all = entries@;
    let mut rest = entries;
    while i < n
        invariant
            all == entries@,
            n == all.len(),
            i <= n,
            rest@ == all.subrange(i as int, n as int),
            representable(now),
            out@.len() == i,
            forall|k: int| 0 <= k < i ==> dated_ok(#[trigger] out@[k], all[k], now),
        decreases n - i,
    {
        let e = rest.remove(0);
        assert(e == all[i as int]);
        assert(rest@ =~= all.subrange(i + 1, n as int));
        out.push(dated_entry(e, now));
        i = i + 1;
    }
    out
}

/// An entry as billing lists it: its whole minutes, its start date as
/// `ДД.ММ.ГГГГ`, its `HH:MM – HH:MM` range and its description (or
/// `Без названия`).
pub open spec fn billable_ok(b: BillableEntry, d: DatedEntry) -> bool {
    &&& b.id == d.entry.id
    &&& b.minutes == (if d.secs >= 0 {
        d.secs / 60
    } else {
        -((-d.secs) / 60)
    })
    &&& b.date_label@ == date_ru_seq(d.date)
    &&& b.range_label@ == range_seq(d.start_hm@, opt_view(d.end_hm))
    &&& b.desc@ == (match d.entry.description {
        Some(x) => match nonblank(x@) {
            Some(t) => t,
            None => "Без названия"@,
        },
        None => "Без названия"@,
    })
}

/// A project's entries (oldest first) as billing lists them.
pub fn billable_entries(dated: &Vec<DatedEntry>) -> (r: Vec<BillableEntry>)
    ensures
        r@.len() == dated@.len(),
        forall|i: int| 0 <= i < r@.len() ==> billable_ok(#[trigger] r@[i], dated@[i]),
{
    let mut out: Vec<BillableEntry> = Vec::new();
    let mut i: usize = 0;
    while i < dated.len()
        invariant
            i <= dated.len(),
            out@.len() == i,
            forall|k: int| 0 <= k < i ==> billable_ok(#[trigger] out@[k], dated@[k]),
        decreases dated.len() - i,
    {
        let d = &dated[i];
        out.push(BillableEntry {
            id: d.entry.id,
            minutes: d.secs / 60,
            date_label: format_date_ru(d.date),
            range_label: range_label(&d.start_hm, &d.end_hm),
            desc: d.entry.desc_or("Без названия"),
        });
        i = i + 1;
    }
    out
}

/// What holds of the export row of an entry of `project`, read in the local
/// time zone, whatever the zone.
pub open spec fn export_row_ok(r: ExportRow, project: Seq<char>, e: TimeEntry, now: Instant) -> bool {
    &&& exists|d: CalDate| local_date_ok(ts_instant(e.start_ts@), d) && r.date@ == ymd_seq(d)
    &&& r.project@ == project
    &&& r.description@ == (match e.description {
        Some(x) => match nonblank(x@) {
            Some(t) => t,
            None => ""@,
        },
        None => ""@,
    })
    &&& is_hm_label(r.start@)
    &&& (e.end_ts is Some ==> is_hm_label(r.end@))
    &&& (e.end_ts is None ==> r.end@ == Seq::<char>::empty())
    &&& r.duration_secs == entry_secs(e, now)
    &&& r.duration_hms@ == hms_seq(entry_secs(e, now))
}

fn entry_export_row(project: &String, entry: &TimeEntry, now: Instant) -> (r: ExportRow)
    requires
        representable(now),
    ensures
        export_row_ok(r, project@, *entry, now),
{
    let start = entry.start();
    let date = entry.local_date();
    let sc = local_clock(start);
    let ec = match entry.end() {
        Some(t) => Some(local_clock(t)),
        None => None,
    };
    proof {
        lemma_hm_label(sc);
        if let Some(c) = ec {
            lemma_hm_label(c);
        }
    }
    export_row(project, entry, date, sc, ec, entry.duration_secs(now))
}

/// Export rows of entries joined with their project, read in the local time zone.
pub fn export_rows(details: &Vec<EntryDetail>, now: Instant) -> (r: Vec<ExportRow>)
    requires
        representable(now),
    ensures
        r@.len() == details@.len(),
        forall|i: int|
            0 <= i < r@.len() ==> export_row_ok(#[trigger] r@[i], details@[i].project@, details@[i].entry, now),
{
    let mut out: Vec<ExportRow> = Vec::new();
    let mut i: usize = 0;
    while i < details.len()
        invariant
            i <= details.len(),
            representable(now),
            out@.len() == i,
            forall|k: int|
                0 <= k < i ==> export_row_ok(#[trigger] out@[k], details@[k].project@, details@[k].entry, now),
        decreases details.len() - i,
    {
        let d = &details[i];
        out.push(entry_export_row(&d.project, &d.entry, now));
        i = i + 1;
    }
    out
}

/// The week's entries as the Projects tab reads them: project, local start
/// date and duration up to `now`.
pub fn week_entries(details: &Vec<EntryDetail>, now: Instant) -> (r: Vec<WeekEntry>)
    requires
        representable(now),
    ensures
        r@.len() == details@.len(),
        forall|i: int|
            0 <= i < r@.len() ==> (#[trigger] r@[i]).project_id == details@[i].project_id && local_date_ok(
                ts_instant(details@[i].entry.start_ts@),
                r@[i].date,
            ) && r@[i].secs == entry_secs(details@[i].entry, now),
{
    let mut out: Vec<WeekEntry> = Vec::new();
    let mut i: usize = 0;
    while i < details.len()
        invariant
            i <= details.len(),
            representable(now),
            out@.len() == i,
            forall|k: int|
                0 <= k < i ==> (#[trigger] out@[k]).project_id == details@[k].project_id && local_date_ok(
                    ts_instant(details@[k].entry.start_ts@),
                    out@[k].date,
                ) && out@[k].secs == entry_secs(details@[k].entry, now),
        decreases details.len() - i,
    {
        let d = &details[i];
        out.push(WeekEntry { project_id: d.project_id, date: d.entry.local_date(), secs: d.entry.duration_secs(now) });
        i = i + 1;
    }
    out
}

/// An entry's project and duration up to `now`, from its stored start and end.
pub fn span_entry(project_id: Id, start_ts: &str, end_ts: Option<&str>, now: Instant) -> (s: SpanEntry)
    requires
        representable(now),
    ensures
        s.project_id == project_id,
        s.secs == elapsed(
            ts_instant(start_ts@),
            match end_ts {
                Some(x) => ts_instant(x@),
                None => now,
            },
        ),
{
    let start = parse_ts(start_ts);
    let end = match end_ts {
        Some(x) => parse_ts(x),
        None => now,
    };
    SpanEntry { project_id, secs: elapsed_secs(start, end) }
}

// --- project figures --------------------------------------------------------

/// One of the week's entries, as the Projects tab reads it.
#[derive(Debug, Clone, Copy, PartialEq, Eq, Structural)]
pub struct WeekEntry {
    pub project_id: Id,
    pub date: CalDate,
    pub secs: i64,
}

/// One stored entry's project and duration, for all-time totals.
#[derive(Debug, Clone, Copy, PartialEq, Eq, Structural)]
pub struct SpanEntry {
    pub project_id: Id,
    pub secs: i64,
}

/// A project card's figures: this week's seconds, entry count and per-weekday
/// seconds (Mon..Sun), and the all-time seconds and entry count.
#[derive(Debug, Clone)]
pub struct StatFigures {
    pub week_secs: i64,
    pub entry_count: i64,
    pub total_secs: i64,
    pub total_entries: i64,
    pub per_day_secs: Vec<i64>,
}

/// Seconds of `pid`'s entries in `w` (on day `d` of `days` only, when `d` is given).
pub open spec fn week_sum(w: Seq<WeekEntry>, pid: Id, days: Seq<CalDate>, d: Option<int>) -> int
    decreases w.len(),
{
    if w.len() == 0 {
        0
    } else {
        week_sum(w.drop_last(), pid, days, d) + if w.last().project_id == pid && match d {
            Some(k) => first_day(days, w.last().date) == Some(k),
            None => true,
        } {
            w.last().secs as int
        } else {
            0
        }
    }
}

pub open spec fn week_count(w: Seq<WeekEntry>, pid: Id) -> int
    decreases w.len(),
{
    if w.len() == 0 {
        0
    } else {
        week_count(w.drop_last(), pid) + if w.last().project_id == pid {
            1int
        } else {
            0
        }
    }
}

pub open spec fn span_sum(a: Seq<SpanEntry>, pid: Id) -> int
    decreases a.len(),
{
    if a.len() == 0 {
        0
    } else {
        span_sum(a.drop_last(), pid) + if a.last().project_id == pid {
            a.last().secs as int
        } else {
            0
        }
    }
}

pub open spec fn span_count(a: Seq<SpanEntry>, pid: Id) -> int
    decreases a.len(),
{
    if a.len() == 0 {
        0
    } else {
        span_count(a.drop_last(), pid) + if a.last().project_id == pid {
            1int
        } else {
            0
        }
    }
}

/// Position of the first of `days` that is `date`.
pub open spec fn first_day(days: Seq<CalDate>, date: CalDate) -> Option<int>
    decreases days.len(),
{
    if days.len() == 0 {
        None
    } else {
        match first_day(days.drop_last(), date) {
            Some(k) => Some(k),
            None => if days.last() == date {
                Some(days.len() - 1)
            } else {
                None
            },
        }
    }
}

/// All running sums these figures add up fit in an `i64`.
pub open spec fn figures_fit(w: Seq<WeekEntry>, a: Seq<SpanEntry>, pid: Id, days: Seq<CalDate>) -> bool {
    &&& forall|n: int, d: Option<int>|
        0 <= n <= w.len() ==> i64::MIN <= #[trigger] week_sum(w.take(n), pid, days, d) <= i64::MAX
    &&& forall|n: int| 0 <= n <= a.len() ==> i64::MIN <= #[trigger] span_sum(a.take(n), pid) <= i64::MAX
}

proof fn lemma_first_day_bound(days: Seq<CalDate>, date: CalDate)
    ensures
        first_day(days, date) matches Some(k) ==> 0 <= k < days.len() && days[k] == date,
    decreases days.len(),
{
    if days.len() > 0 {
        lemma_first_day_bound(days.drop_last(), date);
    }
}

/// Which of `days` a date is (the first match): the weekday column of the
/// Projects tab's sparkline and of a calendar block.
pub fn find_day(days: &Vec<CalDate>, date: CalDate) -> (r: Option<usize>)
    ensures
        match r {
            Some(k) => first_day(days@, date) == Some(k as int),
            None => first_day(days@, date) is None,
        },
{
    let mut k: usize = 0;
    while k < days.len()
        invariant
            k <= days.len(),
            first_day(days@.take(k as int), date) is None,
        decreases days.len() - k,
    {
        assert(days@.take(k + 1).drop_last() =~= days@.take(k as int));
        if days[k] == date {
            proof {
                lemma_first_day_prefix(days@, (k + 1) as int, date);
            }
            return Some(k);
        }
        k = k + 1;
    }
    assert(days@.take(k as int) =~= days@);
    None
}

proof fn lemma_first_day_prefix(days: Seq<CalDate>, n: int, date: CalDate)
    requires
        0 <= n <= days.len(),
        first_day(days.take(n), date) is Some,
    ensures
        first_day(days, date) == first_day(days.take(n), date),
    decreases days.len() - n,
{
    if n < days.len() {
        assert(days.take(n + 1).drop_last() =~= days.take(n));
        lemma_first_day_prefix(days, n + 1, date);
    } else {
        assert(days.take(n) =~= days);
    }
}

/// A project card's figures for project `pid`, from this week's entries
/// (with `days` the week's Mon..Sun) and every stored entry.
pub fn project_figures(pid: Id, week: &[WeekEntry], days: &Vec<CalDate>, all: &[SpanEntry]) -> (f: StatFigures)
    requires
        days.len() == 7,
        week.len() < i64::MAX,
        all.len() < i64::MAX,
        figures_fit(week@, all@, pid, days@),
    ensures
        f.week_secs == week_sum(week@, pid, days@, None),
        f.entry_count == week_count(week@, pid),
        f.per_day_secs@.len() == 7,
        forall|d: int| 0 <= d < 7 ==> #[trigger] f.per_day_secs@[d] == week_sum(week@, pid, days@, Some(d)),
        f.total_secs == span_sum(all@, pid),
        f.total_entries == span_count(all@, pid),
{
    let mut week_secs: i64 = 0;
    let mut entry_count: i64 = 0;
    let mut per_day: Vec<i64> = vec![0, 0, 0, 0, 0, 0, 0];
    let mut i: usize = 0;
    while i < week.len()
        invariant
            i <= week.len(),
            days.len() == 7,
            figures_fit(week@, all@, pid, days@),
            week_secs == week_sum(week@.take(i as int), pid, days@, None),
            entry_count == week_count(week@.take(i as int), pid),
            entry_count <= i,
            week.len() < i64::MAX,
            per_day@.len() == 7,
            forall|d: int| 0 <= d < 7 ==> #[trigger] per_day@[d] == week_sum(week@.take(i as int), pid, days@, Some(d)),
        decreases week.len() - i,
    {
        let ghost w1 = week@.take(i + 1);
        assert(w1.drop_last() =~= week@.take(i as int));
        assert(w1.last() == week@[i as int]);
        let e = week[i];
        if e.project_id == pid {
            assert(i64::MIN <= week_sum(week@.take(i + 1), pid, days@, None) <= i64::MAX);
            week_secs = week_secs + e.secs;
            entry_count = entry_count + 1;
            match find_day(days, e.date) {
                Some(k) => {
                    proof {
                        lemma_first_day_bound(days@, e.date);
                    }
                    assert(i64::MIN <= week_sum(week@.take(i + 1), pid, days@, Some(k as int)) <= i64::MAX);
                    let v = per_day[k] + e.secs;
                    per_day.set(k, v);
                },
                None => {},
            }
        }
        i = i + 1;
    }
    assert(week@.take(i as int) =~= week@);
    let mut total_secs: i64 = 0;
    let mut total_entries: i64 = 0;
    let mut j: usize = 0;
    while j < all.len()
        invariant
            j <= all.len(),
            figures_fit(week@, all@, pid, days@),
            total_secs == span_sum(all@.take(j as int), pid),
            total_entries == span_count(all@.take(j as int), pid),
            total_entries <= j,
            all.len() < i64::MAX,
        decreases all.len() - j,
    {
        let ghost a1 = all@.take(j + 1);
        assert(a1.drop_last() =~= all@.take(j as int));
        assert(a1.last() == all@[j as int]);
        if all[j].project_id == pid {
            assert(i64::MIN <= span_sum(all@.take(j + 1), pid) <= i64::MAX);
            total_secs = total_secs + all[j].secs;
            total_entries = total_entries + 1;
        }
        j = j + 1;
    }
    assert(all@.take(j as int) =~= all@);
    StatFigures { week_secs, entry_count, total_secs, total_entries, per_day_secs: per_day }
}

proof fn lemma_per_day_total(w: Seq<WeekEntry>, pid: Id, days: Seq<CalDate>)
    requires
        forall|i: int| 0 <= i < w.len() ==> first_day(days, (#[trigger] w[i]).date) is Some,
        days.len() == 7,
    ensures
        week_sum(w, pid, days, None) == week_sum(w, pid, days, Some(0)) + week_sum(w, pid, days, Some(1))
            + week_sum(w, pid, days, Some(2)) + week_sum(w, pid, days, Some(3)) + week_sum(w, pid, days, Some(4))
            + week_sum(w, pid, days, Some(5)) + week_sum(w, pid, days, Some(6)),
    decreases w.len(),
{
    if w.len() > 0 {
        assert forall|i: int| 0 <= i < w.drop_last().len() implies first_day(days, (#[trigger] w.drop_last()[i]).date) is Some by {
            assert(w.drop_last()[i] == w[i]);
        }
        lemma_per_day_total(w.drop_last(), pid, days);
        lemma_first_day_bound(days, w.last().date);
        assert(first_day(days, w[w.len() - 1].date) is Some);
    }
}

/// When every entry of the week falls on one of its seven days, a project's
/// per-weekday seconds add up to its week total.
pub proof fn law_per_day_adds_up(w: Seq<WeekEntry>, pid: Id, days: Seq<CalDate>)
    requires
        days.len() == 7,
        forall|i: int| 0 <= i < w.len() ==> exists|k: int| 0 <= k < 7 && days[k] == (#[trigger] w[i]).date,
    ensures
        week_sum(w, pid, days, None) == week_sum(w, pid, days, Some(0)) + week_sum(w, pid, days, Some(1))
            + week_sum(w, pid, days, Some(2)) + week_sum(w, pid, days, Some(3)) + week_sum(w, pid, days, Some(4))
            + week_sum(w, pid, days, Some(5)) + week_sum(w, pid, days, Some(6)),
{
    assert forall|i: int| 0 <= i < w.len() implies first_day(days, (#[trigger] w[i]).date) is Some by {
        let k = choose|k: int| 0 <= k < 7 && days[k] == w[i].date;
        lemma_first_day_found(days, w[i].date, k);
    }
    lemma_per_day_total(w, pid, days);
}

proof fn lemma_first_day_found(days: Seq<CalDate>, date: CalDate, k: int)
    requires
        0 <= k < days.len(),
        days[k] == date,
    ensures
        first_day(days, date) is Some,
    decreases days.len(),
{
    if k < days.len() - 1 {
        assert(days.drop_last()[k] == date);
        lemma_first_day_found(days.drop_last(), date, k);
    }
}

// --- writes to the entries table --------------------------------------------

/// A write the tracker makes to its entries table. The database layer
/// performs each as one SQL statement.
#[derive(Debug, Clone)]
pub enum EntryOp {
    /// `UPDATE time_entries SET end_ts = at WHERE end_ts IS NULL`.
    StopRunning { at: String },
    /// `INSERT INTO time_entries (project_id, description, start_ts, end_ts, created_at)`.
    Insert { project_id: Id, description: Option<String>, start: String, end: Option<String>, created_at: String },
    /// `UPDATE time_entries SET project_id, start_ts, end_ts, description WHERE id`.
    Update { id: Id, project_id: Id, start: String, end: Option<String>, description: Option<String> },
    /// `UPDATE time_entries SET note WHERE id`.
    SetNote { id: Id, note: Option<String> },
    /// `DELETE FROM time_entries WHERE id`.
    Delete { id: Id },
}

pub enum OpView {
    StopRunning { at: Seq<char> },
    Insert {
        project_id: Id,
        description: Option<Seq<char>>,
        start: Seq<char>,
        end: Option<Seq<char>>,
    },
    Update {
        id: Id,
        project_id: Id,
        start: Seq<char>,
        end: Option<Seq<char>>,
        description: Option<Seq<char>>,
    },
    SetNote { id: Id, note: Option<Seq<char>> },
    Delete { id: Id },
}

impl View for EntryOp {
    type V = OpView;

    open spec fn view(&self) -> OpView {
        match self {
            EntryOp::StopRunning { at } => OpView::StopRunning { at: at@ },
            EntryOp::Insert { project_id, description, start, end, .. } => OpView::Insert {
                project_id: *project_id,
                description: opt_view(*description),
                start: start@,
                end: opt_view(*end),
            },
            EntryOp::Update { id, project_id, start, end, description } => OpView::Update {
                id: *id,
                project_id: *project_id,
                start: start@,
                end: opt_view(*end),
                description: opt_view(*description),
            },
            EntryOp::SetNote { id, note } => OpView::SetNote { id: *id, note: opt_view(*note) },
            EntryOp::Delete { id } => OpView::Delete { id: *id },
        }
    }
}

/// A row of the entries table, as the writes see it.
pub struct RowModel {
    pub id: Id,
    pub project_id: Id,
    pub description: Option<Seq<char>>,
    pub note: Option<Seq<char>>,
    pub start: Seq<char>,
    pub end: Option<Seq<char>>,
}

/// The table after one write; an insert gets row id `fresh`.
pub open spec fn apply_op(t: Seq<RowModel>, op: OpView, fresh: Id) -> Seq<RowModel> {
    match op {
        OpView::StopRunning { at } => t.map_values(
            |r: RowModel|
                if r.end is None {
                    RowModel { end: Some(at), ..r }
                } else {
                    r
                },
        ),
        OpView::Insert { project_id, description, start, end } => t.push(
            RowModel { id: fresh, project_id, description, note: None, start, end },
        ),
        OpView::Update { id, project_id, start, end, description } => t.map_values(
            |r: RowModel|
                if r.id == id {
                    RowModel { project_id, start, end, description, ..r }
                } else {
                    r
                },
        ),
        OpView::SetNote { id, note } => t.map_values(
            |r: RowModel|
                if r.id == id {
                    RowModel { note, ..r }
                } else {
                    r
                },
        ),
        OpView::Delete { id } => t.filter(|r: RowModel| r.id != id),
    }
}

/// The table after a run of writes, the `k`-th insert (from 0) getting id `fresh + k`.
pub open spec fn apply_ops(t: Seq<RowModel>, ops: Seq<OpView>, fresh: Id) -> Seq<RowModel>
    decreases ops.len(),
{
    if ops.len() == 0 {
        t
    } else {
        let next: Id = if ops[0] is Insert { (fresh + 1) as Id } else { fresh };
        apply_ops(apply_op(t, ops[0], fresh), ops.drop_first(), next)
    }
}

fn opt_clone(o: &Option<String>) -> (r: Option<String>)
    ensures
        opt_view(r) == opt_view(*o),
{
    match o {
        Some(s) => Some(s.clone()),
        None => None,
    }
}

/// Start a live timer on `project_id`: stop any open entry, then insert the
/// new one, running from `now`, with the description trimmed (NULL when blank).
pub fn start_entry_ops(project_id: Id, description: &str, now: &String) -> (ops: Vec<EntryOp>)
    ensures
        ops@.map_values(|o: EntryOp| o@) == seq![
            OpView::StopRunning { at: now@ },
            OpView::Insert { project_id, description: nonblank(description@), start: now@, end: None },
        ],
        ops@[1] matches EntryOp::Insert { created_at: c, .. } && c@ == now@,
{
    let ops = vec![
        EntryOp::StopRunning { at: now.clone() },
        EntryOp::Insert {
            project_id,
            description: entry_description(description),
            start: now.clone(),
            end: None,
            created_at: now.clone(),
        },
    ];
    assert(ops@.map_values(|o: EntryOp| o@) =~= seq![
        OpView::StopRunning { at: now@ },
        OpView::Insert { project_id, description: nonblank(description@), start: now@, end: None },
    ]);
    ops
}

/// Stop the running entry (if any) at `now`.
pub fn stop_running_op(now: &String) -> (op: EntryOp)
    ensures
        op@ == (OpView::StopRunning { at: now@ }),
{
    EntryOp::StopRunning { at: now.clone() }
}

/// Edit an entry's project, times and description; its note is left alone.
pub fn update_entry_op(
    id: Id,
    project_id: Id,
    start: &String,
    end: &Option<String>,
    description: &Option<String>,
) -> (op: EntryOp)
    ensures
        op@ == (OpView::Update {
            id,
            project_id,
            start: start@,
            end: opt_view(*end),
            description: opt_view(*description),
        }),
{
    EntryOp::Update {
        id,
        project_id,
        start: start.clone(),
        end: opt_clone(end),
        description: opt_clone(description),
    }
}

/// Set (or clear) an entry's note, normalized as notes are stored.
pub fn set_entry_note_op(id: Id, note: Option<&str>) -> (op: EntryOp)
    ensures
        op@ == (OpView::SetNote { id, note: stored_note(opt_str_view(note)) }),
{
    EntryOp::SetNote { id, note: normalize_note(note) }
}

/// A finished entry entered by hand (e.g. on the calendar).
pub fn add_manual_entry_op(
    project_id: Id,
    start: &String,
    end: &String,
    description: &Option<String>,
    now: &String,
) -> (op: EntryOp)
    ensures
        op@ == (OpView::Insert {
            project_id,
            description: opt_view(*description),
            start: start@,
            end: Some(end@),
        }),
        op matches EntryOp::Insert { created_at: c, .. } && c@ == now@,
{
    EntryOp::Insert {
        project_id,
        description: opt_clone(description),
        start: start.clone(),
        end: Some(end.clone()),
        created_at: now.clone(),
    }
}

pub fn delete_entry_op(id: Id) -> (op: EntryOp)
    ensures
        op@ == (OpView::Delete { id }),
{
    EntryOp::Delete { id }
}

/// The write a finished entry's form saves, once its start and end have been
/// read as instants: an update of entry `id` when editing it, else an insert.
pub open spec fn timed_op_view(
    editing: Option<Id>,
    project_id: Id,
    start: Instant,
    end: Instant,
    description: Seq<char>,
) -> OpView {
    let s = rfc3339_text(start.secs, start.nanos);
    let e = rfc3339_text(end.secs, end.nanos);
    match editing {
        Some(id) => OpView::Update { id, project_id, start: s, end: Some(e), description: nonblank(description) },
        None => OpView::Insert { project_id, description: nonblank(description), start: s, end: Some(e) },
    }
}

/// What the local zone can make of wall-clock time `hour:minute` on `day`,
/// whatever the zone.
pub open spec fn local_outcome(day: CalDate, hour: int, minute: int, o: Option<Instant>) -> bool {
    wall_outcome(day.num(), hour, minute, o)
}

/// The write a finished entry's form saves, given the instants its start and
/// end times name (none when the zone names no single one): nothing unless
/// both exist; a new entry carries `created_at`.
pub fn entry_op_for_times(
    editing: Option<Id>,
    project_id: Id,
    start: Option<Instant>,
    end: Option<Instant>,
    description: &str,
    created_at: &String,
) -> (r: Option<EntryOp>)
    requires
        start matches Some(t) ==> representable(t),
        end matches Some(t) ==> representable(t),
    ensures
        r is Some <==> start is Some && end is Some,
        r matches Some(op) ==> op@ == timed_op_view(editing, project_id, start->0, end->0, description@),
        r matches Some(EntryOp::Insert { created_at: c, .. }) ==> c@ == created_at@,
{
    match (start, end) {
        (Some(s), Some(e)) => {
            let start_text = to_rfc3339(s);
            let end_text = to_rfc3339(e);
            let desc = entry_description(description);
            match editing {
                Some(id) => Some(
                    EntryOp::Update { id, project_id, start: start_text, end: Some(end_text), description: desc },
                ),
                None => Some(
                    EntryOp::Insert {
                        project_id,
                        description: desc,
                        start: start_text,
                        end: Some(end_text),
                        created_at: created_at.clone(),
                    },
                ),
            }
        },
        _ => None,
    }
}

/// The write that saves a finished entry's form: the entry's day, its start
/// and end as local `HH:MM` texts, and its description. Editing entry `id`
/// updates it; otherwise a new entry is inserted, created now. Nothing is
/// written when a time does not read as `HH:MM`, or when the local zone names
/// no single instant for it that day.
pub fn timed_entry_op(
    editing: Option<Id>,
    project_id: Id,
    day: CalDate,
    start_text: &str,
    end_text: &str,
    description: &str,
) -> (r: Option<EntryOp>)
    requires
        day.wf(),
    ensures
        hm_parse(start_text@) is None || hm_parse(end_text@) is None ==> r is None,
        match (hm_parse(start_text@), hm_parse(end_text@)) {
            (Some(a), Some(b)) => exists|s: Option<Instant>, e: Option<Instant>|
                #![trigger local_outcome(day, a.0 as int, a.1 as int, s), local_outcome(day, b.0 as int, b.1 as int, e)]
                local_outcome(day, a.0 as int, a.1 as int, s) && local_outcome(day, b.0 as int, b.1 as int, e)
                    && (r is Some <==> s is Some && e is Some) && (r matches Some(op) ==> op@ == timed_op_view(
                    editing,
                    project_id,
                    s->0,
                    e->0,
                    description@,
                )),
            _ => r is None,
        },
        r matches Some(EntryOp::Insert { created_at: c, .. }) ==> is_stored_instant(c@),
{
    let (s, e) = match (parse_hm(start_text), parse_hm(end_text)) {
        (Some(s), Some(e)) => (s, e),
        _ => return None,
    };
    let start = local_hm_to_utc(day, s.0, s.1);
    let end = local_hm_to_utc(day, e.0, e.1);
    let created_at = match editing {
        Some(_) => String::new(),
        None => now_rfc3339(),
    };
    let r = entry_op_for_times(editing, project_id, start, end, description, &created_at);
    assert(local_outcome(day, s.0 as int, s.1 as int, start) && local_outcome(day, e.0 as int, e.1 as int, end));
    r
}

/// Only one timer runs at a time: whatever the table held before, starting
/// a timer leaves exactly one running entry — the new one.
pub proof fn law_start_leaves_one_running(
    t: Seq<RowModel>,
    project_id: Id,
    description: Seq<char>,
    now: Seq<char>,
    fresh: Id,
)
    requires
        fresh < i64::MAX,
    ensures
        ({
            let after = apply_ops(
                t,
                seq![
                    OpView::StopRunning { at: now },
                    OpView::Insert { project_id, description: nonblank(description), start: now, end: None },
                ],
                fresh,
            );
            &&& after.len() == t.len() + 1
            &&& after.last().end is None
            &&& after.last().id == fresh
            &&& after.last().project_id == project_id
            &&& forall|i: int| 0 <= i < after.len() - 1 ==> (#[trigger] after[i]).end is Some
        }),
{
    let ops = seq![
        OpView::StopRunning { at: now },
        OpView::Insert { project_id, description: nonblank(description), start: now, end: None },
    ];
    let t1 = apply_op(t, ops[0], fresh);
    let t2 = apply_op(t1, ops[1], fresh);
    assert(ops.drop_first()[0] == ops[1]);
    assert(ops.drop_first().drop_first() =~= Seq::<OpView>::empty());
    assert(apply_ops(t1, ops.drop_first(), fresh) == apply_ops(
        t2,
        ops.drop_first().drop_first(),
        (fresh + 1) as Id,
    ));
    assert(apply_ops(t, ops, fresh) == t2);
    assert forall|i: int| 0 <= i < t1.len() implies (#[trigger] t1[i]).end is Some by {}
}

/// Stopping leaves no entry running: open entries end at `now`, finished
/// entries are untouched, and nothing but an open entry's end changes.
pub proof fn law_stop_leaves_none_running(t: Seq<RowModel>, now: Seq<char>, fresh: Id)
    ensures
        ({
            let after = apply_op(t, OpView::StopRunning { at: now }, fresh);
            &&& after.len() == t.len()
            &&& forall|i: int| 0 <= i < after.len() ==> (#[trigger] after[i]).end is Some
            &&& forall|i: int| 0 <= i < t.len() && t[i].end is Some ==> #[trigger] after[i] == t[i]
            &&& forall|i: int|
                0 <= i < t.len() && t[i].end is None ==> #[trigger] after[i] == (RowModel {
                    end: Some(now),
                    ..t[i]
                })
        }),
{
}

/// Editing an entry's project, times or description never touches any note.
pub proof fn law_update_keeps_notes(
    t: Seq<RowModel>,
    id: Id,
    project_id: Id,
    start: Seq<char>,
    end: Option<Seq<char>>,
    description: Option<Seq<char>>,
    fresh: Id,
)
    ensures
        ({
            let after = apply_op(t, OpView::Update { id, project_id, start, end, description }, fresh);
            &&& after.len() == t.len()
            &&& forall|i: int| 0 <= i < t.len() ==> (#[trigger] after[i]).note == t[i].note && after[i].id == t[i].id
        }),
{
}

/// A note set on an entry reads back normalized (trimmed, NULL when blank),
/// and stopping the timer or editing the entry keeps it.
pub proof fn law_note_reads_back(t: Seq<RowModel>, id: Id, note: Option<Seq<char>>, i: int, fresh: Id)
    requires
        0 <= i < t.len(),
        t[i].id == id,
    ensures
        apply_op(t, OpView::SetNote { id, note: stored_note(note) }, fresh)[i].note == stored_note(note),
{
}


/// An entry's note survives the timer being stopped and the entry's times and
/// description being edited afterwards; the edit itself lands.
pub proof fn law_note_survives_stop_and_edit(
    t: Seq<RowModel>,
    i: int,
    id: Id,
    note: Option<Seq<char>>,
    now: Seq<char>,
    project_id: Id,
    start: Seq<char>,
    end: Option<Seq<char>>,
    description: Option<Seq<char>>,
    fresh: Id,
)
    requires
        0 <= i < t.len(),
        t[i].id == id,
    ensures
        ({
            let after = apply_ops(
                t,
                seq![
                    OpView::SetNote { id, note: stored_note(note) },
                    OpView::StopRunning { at: now },
                    OpView::Update { id, project_id, start, end, description },
                ],
                fresh,
            );
            &&& after.len() == t.len()
            &&& after[i].note == stored_note(note)
            &&& after[i].project_id == project_id
            &&& after[i].start == start
            &&& after[i].end == end
            &&& after[i].description == description
        }),
{
    let ops = seq![
        OpView::SetNote { id, note: stored_note(note) },
        OpView::StopRunning { at: now },
        OpView::Update { id, project_id, start, end, description },
    ];
    let t1 = apply_op(t, ops[0], fresh);
    let t2 = apply_op(t1, ops[1], fresh);
    let t3 = apply_op(t2, ops[2], fresh);
    let rest1 = ops.drop_first();
    let rest2 = rest1.drop_first();
    assert(rest1[0] == ops[1] && rest2[0] == ops[2]);
    assert(rest2.drop_first() =~= Seq::<OpView>::empty());
    assert(apply_ops(t2, rest2, fresh) == apply_ops(t3, rest2.drop_first(), fresh));
    assert(apply_ops(t1, rest1, fresh) == apply_ops(t2, rest2, fresh));
    assert(apply_ops(t, ops, fresh) == t3);
    assert(t1[i].note == stored_note(note));
    assert(t2[i].note == stored_note(note) && t2[i].id == id);
}

} // verus!
