//! Paid/unpaid time allocation and the integer side of invoices.
//!
//! Works in whole minutes; callers convert seconds <-> minutes at the
//! boundary. Payments are applied to a project's entries oldest-first (the
//! oldest tracked time is the oldest debt), via `allocate_fifo` — used for the
//! per-entry paid/partial/unpaid display status. Invoicing bills an explicit,
//! user-checked set of entries.

use vstd::prelude::*;

use crate::dates::{month_gen_seq, ru_month_gen};
use crate::models::{format_hours_ru, hours_ru_seq, money_seq, format_money_units, Currency, Id};
use crate::text::{dec_seq, int_seq, push_char, push_dec, push_dec_padded, push_int, push_str, zero_pad};

verus! {

/// Sum of a sequence of minute counts.
pub open spec fn sum_seq(s: Seq<i64>) -> int
    decreases s.len(),
{
    if s.len() == 0 {
        0
    } else {
        sum_seq(s.drop_last()) + s.last()
    }
}

/// Every running total of `s` fits in an `i64` (so adding them up never overflows).
pub open spec fn sums_fit(s: Seq<i64>) -> bool {
    forall|k: int| 0 <= k <= s.len() ==> i64::MIN <= #[trigger] sum_seq(s.take(k)) <= i64::MAX
}

pub open spec fn min_int(a: int, b: int) -> int {
    if a <= b {
        a
    } else {
        b
    }
}

pub open spec fn max_int(a: int, b: int) -> int {
    if a >= b {
        a
    } else {
        b
    }
}

/// Sum of paid minutes across a project's payments, capped at its total
/// tracked minutes (and never negative).
pub fn paid_minutes_for_project(payment_minutes: &[i64], project_minutes: i64) -> (r: i64)
    requires
        sums_fit(payment_minutes@),
    ensures
        r == max_int(min_int(sum_seq(payment_minutes@), project_minutes as int), 0),
{
    let mut total: i64 = 0;
    let mut i: usize = 0;
    while i < payment_minutes.len()
        invariant
            i <= payment_minutes.len(),
            sums_fit(payment_minutes@),
            total == sum_seq(payment_minutes@.take(i as int)),
        decreases payment_minutes.len() - i,
    {
        assert(payment_minutes@.take(i + 1).drop_last() =~= payment_minutes@.take(i as int));
        assert(i64::MIN <= sum_seq(payment_minutes@.take(i + 1)) <= i64::MAX);
        total = total + payment_minutes[i];
        i = i + 1;
    }
    assert(payment_minutes@.take(i as int) =~= payment_minutes@);
    let capped = if total < project_minutes {
        total
    } else {
        project_minutes
    };
    if capped < 0 {
        0
    } else {
        capped
    }
}

/// Minutes still to hand out before entry `k` when `paid` minutes are spread
/// oldest-first over `ms`.
pub open spec fn fifo_left(ms: Seq<i64>, paid: int, k: int) -> int
    decreases k,
{
    if k <= 0 {
        max_int(paid, 0)
    } else {
        fifo_left(ms, paid, k - 1) - min_int(fifo_left(ms, paid, k - 1), ms[k - 1] as int)
    }
}

/// Paid minutes of entry `k`.
pub open spec fn fifo_paid(ms: Seq<i64>, paid: int, k: int) -> int {
    min_int(fifo_left(ms, paid, k), ms[k] as int)
}

/// The running balance of the allocation stays within `i64`.
pub open spec fn fifo_fits(ms: Seq<i64>, paid: int) -> bool {
    forall|k: int| 0 <= k <= ms.len() ==> #[trigger] fifo_left(ms, paid, k) <= i64::MAX
}

/// Consume `paid_minutes` off the front of `entry_minutes` (already sorted
/// oldest-first by the caller). Returns, per entry, how many of its minutes
/// are paid.
pub fn allocate_fifo(entry_minutes: &[i64], paid_minutes: i64) -> (r: Vec<i64>)
    requires
        fifo_fits(entry_minutes@, paid_minutes as int),
    ensures
        r.len() == entry_minutes.len(),
        forall|k: int|
            0 <= k < r.len() ==> #[trigger] r[k] == fifo_paid(
                entry_minutes@,
                paid_minutes as int,
                k,
            ),
{
    let mut left: i64 = if paid_minutes < 0 {
        0
    } else {
        paid_minutes
    };
    let mut out: Vec<i64> = Vec::new();
    let mut i: usize = 0;
    while i < entry_minutes.len()
        invariant
            i <= entry_minutes.len(),
            fifo_fits(entry_minutes@, paid_minutes as int),
            left == fifo_left(entry_minutes@, paid_minutes as int, i as int),
            left >= 0,
            out.len() == i,
            forall|k: int|
                0 <= k < i ==> #[trigger] out[k] == fifo_paid(
                    entry_minutes@,
                    paid_minutes as int,
                    k,
                ),
        decreases entry_minutes.len() - i,
    {
        let m = entry_minutes[i];
        let p = if left < m {
            left
        } else {
            m
        };
        assert(fifo_left(entry_minutes@, paid_minutes as int, i + 1) <= i64::MAX);
        left = left - p;
        out.push(p);
        i = i + 1;
    }
    out
}

proof fn lemma_fifo_left_nonneg(ms: Seq<i64>, paid: int, k: int)
    ensures
        fifo_left(ms, paid, k) >= 0,
    decreases k,
{
    if k > 0 {
        lemma_fifo_left_nonneg(ms, paid, k - 1);
    }
}

/// With non-negative entries, the balance only shrinks: it is the payment
/// minus what the earlier entries took.
proof fn lemma_fifo_accounting(ms: Seq<i64>, paid: int, k: int)
    requires
        0 <= k <= ms.len(),
        forall|j: int| 0 <= j < ms.len() ==> ms[j] >= 0,
    ensures
        fifo_left(ms, paid, k) + sum_paid(ms, paid, k) == max_int(paid, 0),
        0 <= fifo_left(ms, paid, k) <= max_int(paid, 0),
        sum_paid(ms, paid, k) == min_int(max_int(paid, 0), sum_seq(ms.take(k))),
    decreases k,
{
    if k > 0 {
        lemma_fifo_accounting(ms, paid, k - 1);
        lemma_fifo_left_nonneg(ms, paid, k - 1);
        assert(ms.take(k).drop_last() =~= ms.take(k - 1));
        lemma_sum_nonneg(ms.take(k - 1));
    } else {
        assert(ms.take(0) =~= Seq::<i64>::empty());
    }
}

proof fn lemma_sum_nonneg(s: Seq<i64>)
    requires
        forall|j: int| 0 <= j < s.len() ==> s[j] >= 0,
    ensures
        sum_seq(s) >= 0,
    decreases s.len(),
{
    if s.len() > 0 {
        lemma_sum_nonneg(s.drop_last());
    }
}

/// Total paid over the first `k` entries.
pub open spec fn sum_paid(ms: Seq<i64>, paid: int, k: int) -> int
    decreases k,
{
    if k <= 0 {
        0
    } else {
        sum_paid(ms, paid, k - 1) + fifo_paid(ms, paid, k - 1)
    }
}

/// Oldest-first allocation of a payment over entries of non-negative length:
/// each entry gets between nothing and all of its minutes; together they get
/// the payment, capped at the total tracked (a negative payment counts as
/// none); and a later entry gets anything only once every earlier one is paid
/// in full.
pub proof fn law_fifo_allocation(ms: Seq<i64>, paid: int)
    requires
        forall|j: int| 0 <= j < ms.len() ==> ms[j] >= 0,
    ensures
        forall|k: int| 0 <= k < ms.len() ==> 0 <= #[trigger] fifo_paid(ms, paid, k) <= ms[k],
        sum_paid(ms, paid, ms.len() as int) == min_int(max_int(paid, 0), sum_seq(ms)),
        forall|i: int, j: int|
            0 <= i < j < ms.len() && fifo_paid(ms, paid, j) > 0 ==> #[trigger] fifo_paid(
                ms,
                paid,
                i,
            ) == ms[i] && #[trigger] fifo_paid(ms, paid, j) > 0,
{
    assert forall|k: int| 0 <= k < ms.len() implies 0 <= #[trigger] fifo_paid(ms, paid, k)
        <= ms[k] by {
        lemma_fifo_left_nonneg(ms, paid, k);
    }
    lemma_fifo_accounting(ms, paid, ms.len() as int);
    assert(ms.take(ms.len() as int) =~= ms);
    assert forall|i: int, j: int|
        0 <= i < j < ms.len() && fifo_paid(ms, paid, j) > 0 implies #[trigger] fifo_paid(
        ms,
        paid,
        i,
    ) == ms[i] && #[trigger] fifo_paid(ms, paid, j) > 0 by {
        if fifo_paid(ms, paid, i) < ms[i] {
            assert(fifo_left(ms, paid, i + 1) == 0);
            lemma_left_stays_zero(ms, paid, i + 1, j);
        }
    }
}

proof fn lemma_left_stays_zero(ms: Seq<i64>, paid: int, a: int, b: int)
    requires
        0 <= a <= b <= ms.len(),
        forall|j: int| 0 <= j < ms.len() ==> ms[j] >= 0,
        fifo_left(ms, paid, a) == 0,
    ensures
        fifo_left(ms, paid, b) == 0,
    decreases b - a,
{
    if a < b {
        assert(fifo_left(ms, paid, a + 1) == 0);
        lemma_left_stays_zero(ms, paid, a + 1, b);
    }
}

#[derive(Debug, Clone, Copy, PartialEq, Eq, Structural)]
pub enum PaidState {
    Paid,
    Partial { paid_minutes: i64 },
    Unpaid,
}

/// One project entry as billing needs it. Callers supply entries in
/// chronological ascending order (oldest first).
#[derive(Debug, Clone)]
pub struct BillableEntry {
    pub id: Id,
    pub minutes: i64,
    pub date_label: String,
    pub range_label: String,
    pub desc: String,
}

/// The status of an entry of `minutes` minutes of which `paid` are paid.
pub open spec fn state_for(minutes: int, paid: int) -> PaidState {
    if minutes > 0 && paid >= minutes {
        PaidState::Paid
    } else if paid > 0 {
        PaidState::Partial { paid_minutes: paid as i64 }
    } else {
        PaidState::Unpaid
    }
}

/// The minutes a status shows as paid on an entry of `minutes` minutes.
pub open spec fn shown_paid(st: PaidState, minutes: int) -> int {
    match st {
        PaidState::Paid => minutes,
        PaidState::Partial { paid_minutes } => paid_minutes as int,
        PaidState::Unpaid => 0,
    }
}

/// The paid minutes the statuses of the first `k` entries show, added up.
pub open spec fn shown_total(ms: Seq<i64>, paid: int, k: int) -> int
    decreases k,
{
    if k <= 0 {
        0
    } else {
        shown_total(ms, paid, k - 1) + shown_paid(
            state_for(ms[k - 1] as int, fifo_paid(ms, paid, k - 1)),
            ms[k - 1] as int,
        )
    }
}

proof fn lemma_shown_total(ms: Seq<i64>, paid: int, k: int)
    requires
        0 <= k <= ms.len(),
        forall|j: int| 0 <= j < ms.len() ==> 0 <= #[trigger] fifo_paid(ms, paid, j) <= ms[j],
    ensures
        shown_total(ms, paid, k) == sum_paid(ms, paid, k),
    decreases k,
{
    if k > 0 {
        lemma_shown_total(ms, paid, k - 1);
        assert(0 <= fifo_paid(ms, paid, k - 1) <= ms[k - 1]);
    }
}

/// The statuses account for the payment: the minutes they show as paid (all
/// of a paid entry, the stated part of a partial one, none of an unpaid one)
/// add up to the payment, capped at the total tracked; a partial entry shows
/// some but not all of its minutes, and a paid one is not empty.
pub proof fn law_paid_states_account_for_payment(ms: Seq<i64>, paid: int)
    requires
        forall|j: int| 0 <= j < ms.len() ==> ms[j] >= 0,
    ensures
        shown_total(ms, paid, ms.len() as int) == min_int(max_int(paid, 0), sum_seq(ms)),
        forall|k: int|
            0 <= k < ms.len() ==> match #[trigger] state_for(ms[k] as int, fifo_paid(ms, paid, k)) {
                PaidState::Partial { paid_minutes } => 0 < paid_minutes < ms[k],
                PaidState::Paid => ms[k] > 0,
                PaidState::Unpaid => true,
            },
{
    law_fifo_allocation(ms, paid);
    lemma_shown_total(ms, paid, ms.len() as int);
    assert forall|k: int| 0 <= k < ms.len() implies match #[trigger] state_for(ms[k] as int, fifo_paid(ms, paid, k)) {
        PaidState::Partial { paid_minutes } => 0 < paid_minutes < ms[k],
        PaidState::Paid => ms[k] > 0,
        PaidState::Unpaid => true,
    } by {
        assert(0 <= fifo_paid(ms, paid, k) <= ms[k]);
    }
}

pub open spec fn minutes_of(entries: Seq<BillableEntry>) -> Seq<i64> {
    entries.map_values(|e: BillableEntry| e.minutes)
}

/// Per-entry paid/partial/unpaid status, oldest debt paid off first.
pub fn paid_states(entries: &[BillableEntry], paid_minutes: i64) -> (r: Vec<(Id, PaidState)>)
    requires
        fifo_fits(minutes_of(entries@), paid_minutes as int),
    ensures
        r.len() == entries.len(),
        forall|k: int|
            0 <= k < r.len() ==> #[trigger] r[k] == (
                entries[k].id,
                state_for(
                    entries[k].minutes as int,
                    fifo_paid(minutes_of(entries@), paid_minutes as int, k),
                ),
            ),
{
    let mut mins: Vec<i64> = Vec::new();
    let mut i: usize = 0;
    while i < entries.len()
        invariant
            i <= entries.len(),
            mins@ == minutes_of(entries@).take(i as int),
        decreases entries.len() - i,
    {
        mins.push(entries[i].minutes);
        i = i + 1;
        assert(mins@ =~= minutes_of(entries@).take(i as int));
    }
    assert(mins@ =~= minutes_of(entries@));
    let paid = allocate_fifo(mins.as_slice(), paid_minutes);
    let mut out: Vec<(Id, PaidState)> = Vec::new();
    let mut j: usize = 0;
    while j < entries.len()
        invariant
            j <= entries.len() == paid.len(),
            mins@ == minutes_of(entries@),
            forall|k: int|
                0 <= k < paid.len() ==> #[trigger] paid[k] == fifo_paid(
                    mins@,
                    paid_minutes as int,
                    k,
                ),
            out.len() == j,
            forall|k: int|
                0 <= k < j ==> #[trigger] out[k] == (
                    entries[k].id,
                    state_for(
                        entries[k].minutes as int,
                        fifo_paid(minutes_of(entries@), paid_minutes as int, k),
                    ),
                ),
        decreases entries.len() - j,
    {
        let e = &entries[j];
        let p = paid[j];
        let state = if e.minutes > 0 && p >= e.minutes {
            PaidState::Paid
        } else if p > 0 {
            PaidState::Partial { paid_minutes: p }
        } else {
            PaidState::Unpaid
        };
        out.push((e.id, state));
        j = j + 1;
    }
    out
}

// --- invoices ---------------------------------------------------------------

/// An entry checked for a new invoice, already resolved to how many of its
/// minutes to bill.
#[derive(Debug, Clone)]
pub struct InvoiceSelection {
    pub entry: BillableEntry,
    pub minutes: i64,
}

/// Positions of the selections an invoice bills: those with a positive
/// number of minutes, in order.
pub open spec fn billed_positions(sel: Seq<InvoiceSelection>) -> Seq<int>
    decreases sel.len(),
{
    if sel.len() == 0 {
        seq![]
    } else if sel.last().minutes > 0 {
        billed_positions(sel.drop_last()).push(sel.len() - 1)
    } else {
        billed_positions(sel.drop_last())
    }
}

/// Minutes an invoice bills: the sum over the selections with positive minutes.
pub open spec fn billed_minutes(sel: Seq<InvoiceSelection>) -> int
    decreases sel.len(),
{
    if sel.len() == 0 {
        0
    } else if sel.last().minutes > 0 {
        billed_minutes(sel.drop_last()) + sel.last().minutes
    } else {
        billed_minutes(sel.drop_last())
    }
}

/// The billed minutes of every prefix fit in an `i64`.
pub open spec fn billed_fits(sel: Seq<InvoiceSelection>) -> bool {
    forall|k: int| 0 <= k <= sel.len() ==> #[trigger] billed_minutes(sel.take(k)) <= i64::MAX
}

/// Which selections an invoice bills (positive minutes only, in order) and
/// how many minutes it bills in all — each billed row bills exactly the
/// minutes it was given.
pub fn billed_selection(selection: &[InvoiceSelection]) -> (r: (Vec<usize>, i64))
    requires
        billed_fits(selection@),
    ensures
        r.0@.map_values(|i: usize| i as int) == billed_positions(selection@),
        r.1 == billed_minutes(selection@),
{
    let mut rows: Vec<usize> = Vec::new();
    let mut total: i64 = 0;
    let mut i: usize = 0;
    while i < selection.len()
        invariant
            i <= selection.len(),
            billed_fits(selection@),
            rows@.map_values(|i: usize| i as int) == billed_positions(selection@.take(i as int)),
            total == billed_minutes(selection@.take(i as int)),
            total >= 0,
        decreases selection.len() - i,
    {
        assert(selection@.take(i + 1).drop_last() =~= selection@.take(i as int));
        assert(billed_minutes(selection@.take(i + 1)) <= i64::MAX);
        if selection[i].minutes > 0 {
            total = total + selection[i].minutes;
            rows.push(i);
        }
        i = i + 1;
        assert(rows@.map_values(|i: usize| i as int) =~= billed_positions(
            selection@.take(i as int),
        ));
    }
    assert(selection@.take(i as int) =~= selection@);
    (rows, total)
}

/// Hours label of each billed row and of the total.
pub fn hours_label(minutes: i64) -> (r: String)
    ensures
        r@ == hours_ru_seq(minutes as int),
{
    format_hours_ru(minutes)
}

/// The year as chrono's `%Y` writes it: four digits, with a sign outside 0..=9999.
pub open spec fn chrono_year_seq(y: int) -> Seq<char> {
    if 0 <= y < 10000 {
        zero_pad(dec_seq(y as nat), 4)
    } else if y >= 10000 {
        seq!['+'] + zero_pad(dec_seq(y as nat), 4)
    } else {
        seq!['-'] + zero_pad(dec_seq((-y) as nat), 4)
    }
}

/// A local wall-clock moment, as an invoice stamps it.
#[derive(Debug, Clone, Copy, PartialEq, Eq, Structural)]
pub struct Stamp {
    pub year: i32,
    pub month: u32,
    pub day: u32,
    pub hour: u32,
    pub minute: u32,
}

/// `СЧ-{project_id}-{YYYYmmdd-HHMM}`.
pub open spec fn invoice_number_seq(project_id: int, now: Stamp) -> Seq<char> {
    "СЧ-"@ + int_seq(project_id) + "-"@ + chrono_year_seq(now.year as int) + zero_pad(
        dec_seq(now.month as nat),
        2,
    ) + zero_pad(dec_seq(now.day as nat), 2) + "-"@ + zero_pad(dec_seq(now.hour as nat), 2)
        + zero_pad(dec_seq(now.minute as nat), 2)
}

fn push_chrono_year(out: &mut String, y: i32)
    ensures
        final(out)@ == old(out)@ + chrono_year_seq(y as int),
{
    if 0 <= y && y < 10000 {
        push_dec_padded(out, y as u64, 4);
    } else if y >= 10000 {
        push_char(out, '+');
        push_dec_padded(out, y as u64, 4);
        assert(out@ =~= old(out)@ + chrono_year_seq(y as int));
    } else {
        push_char(out, '-');
        let a: u64 = if y == i32::MIN {
            2147483648u64
        } else {
            (-y) as u64
        };
        push_dec_padded(out, a, 4);
        assert(out@ =~= old(out)@ + chrono_year_seq(y as int));
    }
}

pub fn invoice_number(project_id: Id, now: Stamp) -> (r: String)
    ensures
        r@ == invoice_number_seq(project_id as int, now),
{
    let mut s = String::new();
    push_str(&mut s, "СЧ-");
    push_int(&mut s, project_id);
    push_str(&mut s, "-");
    push_chrono_year(&mut s, now.year);
    push_dec_padded(&mut s, now.month as u64, 2);
    push_dec_padded(&mut s, now.day as u64, 2);
    push_str(&mut s, "-");
    push_dec_padded(&mut s, now.hour as u64, 2);
    push_dec_padded(&mut s, now.minute as u64, 2);
    s
}

/// `{day} {month in the genitive} {year}`, e.g. `24 июня 2026`.
pub open spec fn invoice_date_seq(now: Stamp) -> Seq<char> {
    dec_seq(now.day as nat) + " "@ + month_gen_seq(now.month as int) + " "@ + int_seq(
        now.year as int,
    )
}

pub fn invoice_date_label(now: Stamp) -> (r: String)
    ensures
        r@ == invoice_date_seq(now),
{
    let mut s = String::new();
    push_dec(&mut s, now.day as u64);
    push_str(&mut s, " ");
    push_str(&mut s, ru_month_gen(now.month));
    push_str(&mut s, " ");
    push_int(&mut s, now.year as i64);
    s
}

/// `{money}/ч` — the invoice's rate label for a rate of `units` whole units.
pub fn rate_label(units: u64, currency: Currency) -> (r: String)
    ensures
        r@ == money_seq(units as nat, currency) + "/ч"@,
{
    let mut s = format_money_units(units, currency);
    push_str(&mut s, "/ч");
    s
}

} // verus!
