use timetracker::billing::{
    allocate_fifo, billed_selection, invoice_date_label, invoice_number, paid_minutes_for_project,
    paid_states, rate_label, BillableEntry, InvoiceSelection, PaidState, Stamp,
};
use timetracker::models::Currency;

fn entry(id: i64, minutes: i64, desc: &str) -> BillableEntry {
    BillableEntry {
        id,
        minutes,
        date_label: "20 июня".into(),
        range_label: "09:00 – 10:30".into(),
        desc: desc.into(),
    }
}

#[test]
fn paid_minutes_caps_at_project_total() {
    assert_eq!(paid_minutes_for_project(&[720, 480], 1000), 1000);
    assert_eq!(paid_minutes_for_project(&[100], 1000), 100);
    assert_eq!(paid_minutes_for_project(&[], 1000), 0);
}

#[test]
fn paid_minutes_never_negative() {
    assert_eq!(paid_minutes_for_project(&[-50], 1000), 0);
    assert_eq!(paid_minutes_for_project(&[100], -5), 0);
}

#[test]
fn paid_states_splits_a_partial_entry() {
    // Oldest first: 60m (paid), 60m (partial: 30 of 60 paid), 60m (unpaid).
    let entries = vec![entry(1, 60, "a"), entry(2, 60, "b"), entry(3, 60, "c")];
    let states = paid_states(&entries, 90);
    assert_eq!(states[0], (1, PaidState::Paid));
    assert_eq!(states[1], (2, PaidState::Partial { paid_minutes: 30 }));
    assert_eq!(states[2], (3, PaidState::Unpaid));
}

#[test]
fn paid_states_zero_minute_entry_is_unpaid() {
    let entries = vec![entry(1, 0, "empty"), entry(2, 30, "b")];
    let states = paid_states(&entries, 100);
    assert_eq!(states[0], (1, PaidState::Unpaid));
    assert_eq!(states[1], (2, PaidState::Paid));
}

#[test]
fn fifo_allocation_pays_oldest_first_and_adds_up() {
    let mins = [30, 45, 60, 10];
    let paid = allocate_fifo(&mins, 100);
    assert_eq!(paid, vec![30, 45, 25, 0]);
    assert_eq!(paid.iter().sum::<i64>(), 100);
    assert_eq!(allocate_fifo(&mins, 1000), vec![30, 45, 60, 10]);
    assert_eq!(allocate_fifo(&mins, -20), vec![0, 0, 0, 0]);
}

#[test]
fn invoice_bills_exactly_the_checked_minutes() {
    let selection = vec![
        InvoiceSelection { entry: entry(1, 60, "partial"), minutes: 30 },
        InvoiceSelection { entry: entry(2, 120, "fresh"), minutes: 120 },
    ];
    let (rows, total) = billed_selection(&selection);
    assert_eq!(rows, vec![0, 1]);
    assert_eq!(selection[rows[0]].entry.desc, "partial");
    assert_eq!(total, 150);
}

#[test]
fn invoice_skips_zero_minute_entries() {
    let selection = vec![
        InvoiceSelection { entry: entry(1, 60, "a"), minutes: 0 },
        InvoiceSelection { entry: entry(2, 60, "b"), minutes: 60 },
    ];
    let (rows, total) = billed_selection(&selection);
    assert_eq!(rows, vec![1]);
    assert_eq!(total, 60);
}

#[test]
fn invoice_labels() {
    let now = Stamp { year: 2026, month: 6, day: 24, hour: 15, minute: 4 };
    assert_eq!(invoice_number(42, now), "СЧ-42-20260624-1504");
    assert_eq!(invoice_date_label(now), "24 июня 2026");
    assert_eq!(rate_label(3500, Currency::Rub), "3\u{2009}500 ₽/ч");
    let far = Stamp { year: 12026, month: 1, day: 2, hour: 3, minute: 4 };
    assert_eq!(invoice_number(-1, far), "СЧ--1-+120260102-0304");
}
