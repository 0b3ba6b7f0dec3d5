use timetracker::icons::Lucide;
use timetracker::invoice::{build_invoice_html, esc, Invoice, InvoiceRow};

fn invoice(rows: Vec<InvoiceRow>, rest: Option<&str>) -> Invoice {
    Invoice {
        number: "СЧ-1-20260624-1500".into(),
        date_label: "24 июня 2026".into(),
        rows,
        total_minutes: 90,
        total_hours_label: "1,50 ч".into(),
        total_amount_label: "5\u{2009}250 ₽".into(),
        rate_label: "3\u{2009}500 ₽/ч".into(),
        paid_before_label: "0 ₽".into(),
        rest_after_label: rest.map(String::from),
    }
}

#[test]
fn esc_escapes_markup() {
    assert_eq!(esc("a & <b> \"c\""), "a &amp; &lt;b&gt; &quot;c&quot;");
    assert_eq!(esc("&amp;"), "&amp;amp;");
    assert_eq!(esc("plain"), "plain");
}

#[test]
fn invoice_html_has_rows_client_and_footnote() {
    let row = InvoiceRow {
        date_label: "24.06.2026".into(),
        desc: "Документация <API>".into(),
        range_label: "09:00 – 10:30".into(),
        hours_label: "1,50 ч".into(),
        amount_label: "5\u{2009}250 ₽".into(),
    };
    let html = build_invoice_html(&invoice(vec![row], Some("1 000 ₽")), "Сайт & Co", Some(" Acme Inc. "));
    assert!(html.starts_with("<html><head><style>\nbody { font-family: \"PT Sans\", sans-serif;"));
    assert!(html.contains("<div class=\"value\">Сайт &amp; Co</div>"));
    assert!(html.contains("<div class=\"value\">Acme Inc.</div>"));
    assert!(html.contains("<td>Документация &lt;API&gt;</td>"));
    assert!(html.contains("<tbody><tr><td class=\"nowrap\">24.06.2026</td>"));
    assert!(html.contains("Ранее оплачено по проекту: 0 ₽. Остаток к оплате после этого счёта: 1 000 ₽.</div>"));
    assert!(html.ends_with("</body></html>"));
}

#[test]
fn empty_invoice_says_there_is_nothing_to_bill() {
    let html = build_invoice_html(&invoice(vec![], None), "Project", None);
    assert!(html.contains("<p class=\"empty\">Нет задач для выставления"));
    assert!(!html.contains("<table>"));
    assert!(html.contains("<div class=\"value\">Без клиента</div>"));
    assert!(html.contains("Ранее оплачено по проекту: 0 ₽.</div>"));
}

#[test]
fn lucide_paths() {
    assert_eq!(Lucide::FileText.path(), "icons/file-text.svg");
    assert_eq!(Lucide::Clock.path(), "icons/clock.svg");
}
