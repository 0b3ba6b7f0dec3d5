//! The invoice document: its text labels and the HTML/CSS page that the PDF
//! renderer lays out (header with number/date + total, a Проект/Заказчик/Ставка
//! info row, the line-item table, a totals footer, and the footnote).

use vstd::prelude::*;

use crate::models::{nonblank, trim_ref};
use crate::text::{chars_of, push_char, push_str};

verus! {

/// The font family the page asks for; the renderer registers a font with
/// Cyrillic glyphs under this name.
pub const FONT_FAMILY: &'static str = "PT Sans";

/// One billed line of an invoice, as display text.
#[derive(Debug, Clone)]
pub struct InvoiceRow {
    pub date_label: String,
    pub desc: String,
    pub range_label: String,
    pub hours_label: String,
    pub amount_label: String,
}

/// An invoice as the document shows it.
#[derive(Debug, Clone)]
pub struct Invoice {
    pub number: String,
    pub date_label: String,
    pub rows: Vec<InvoiceRow>,
    pub total_minutes: i64,
    pub total_hours_label: String,
    pub total_amount_label: String,
    pub rate_label: String,
    pub paid_before_label: String,
    pub rest_after_label: Option<String>,
}

// --- HTML escaping ----------------------------------------------------------

pub open spec fn esc_char(c: char) -> Seq<char> {
    if c == '&' {
        "&amp;"@
    } else if c == '<' {
        "&lt;"@
    } else if c == '>' {
        "&gt;"@
    } else if c == '"' {
        "&quot;"@
    } else {
        seq![c]
    }
}

/// `s` with `&`, `<`, `>` and `"` written as entities.
pub open spec fn esc_seq(s: Seq<char>) -> Seq<char>
    decreases s.len(),
{
    if s.len() == 0 {
        seq![]
    } else {
        esc_seq(s.drop_last()) + esc_char(s.last())
    }
}

/// Escaped text holds no `<`, `>` or `"`: whatever a name or description
/// says, it stays text on the invoice page.
pub proof fn law_escaped_text_has_no_markup(s: Seq<char>)
    ensures
        forall|i: int|
            0 <= i < esc_seq(s).len() ==> #[trigger] esc_seq(s)[i] != '<' && esc_seq(s)[i] != '>'
                && esc_seq(s)[i] != '"',
    decreases s.len(),
{
    reveal_strlit("&amp;");
    reveal_strlit("&lt;");
    reveal_strlit("&gt;");
    reveal_strlit("&quot;");
    if s.len() > 0 {
        law_escaped_text_has_no_markup(s.drop_last());
        let a = esc_seq(s.drop_last());
        let b = esc_char(s.last());
        assert forall|i: int| 0 <= i < (a + b).len() implies #[trigger] (a + b)[i] != '<' && (a + b)[i]
            != '>' && (a + b)[i] != '"' by {
            if i >= a.len() {
                assert((a + b)[i] == b[i - a.len()]);
            } else {
                assert((a + b)[i] == a[i]);
            }
        }
    }
}

pub fn push_esc(out: &mut String, t: &str)
    ensures
        final(out)@ == old(out)@ + esc_seq(t@),
{
    let v = chars_of(t);
    let mut i: usize = 0;
    while i < v.len()
        invariant
            i <= v.len(),
            v@ == t@,
            out@ == old(out)@ + esc_seq(v@.take(i as int)),
        decreases v.len() - i,
    {
        assert(v@.take(i + 1).drop_last() =~= v@.take(i as int));
        let c = v[i];
        if c == '&' {
            push_str(out, "&amp;");
        } else if c == '<' {
            push_str(out, "&lt;");
        } else if c == '>' {
            push_str(out, "&gt;");
        } else if c == '"' {
            push_str(out, "&quot;");
        } else {
            push_char(out, c);
        }
        i = i + 1;
        assert(out@ =~= old(out)@ + esc_seq(v@.take(i as int)));
    }
    assert(v@.take(i as int) =~= v@);
}

/// Escape text for embedding in the invoice's HTML (project/client names and
/// task descriptions are free text and may contain `&`/`<`/`>`).
pub fn esc(s: &str) -> (r: String)
    ensures
        r@ == esc_seq(s@),
{
    let mut r = String::new();
    push_esc(&mut r, s);
    assert(r@ =~= esc_seq(s@));
    r
}

// --- the page ---------------------------------------------------------------

pub open spec fn row_html_seq(r: InvoiceRow) -> Seq<char> {
    "<tr><td class=\"nowrap\">"@ + esc_seq(r.date_label@) + "</td><td>"@ + esc_seq(r.desc@)
        + "</td><td class=\"nowrap\">"@ + esc_seq(r.range_label@)
        + "</td><td class=\"right nowrap\">"@ + esc_seq(r.hours_label@)
        + "</td><td class=\"right nowrap cell-amount\">"@ + esc_seq(r.amount_label@)
        + "</td></tr>"@
}

pub open spec fn rows_html_seq(rows: Seq<InvoiceRow>) -> Seq<char>
    decreases rows.len(),
{
    if rows.len() == 0 {
        seq![]
    } else {
        rows_html_seq(rows.drop_last()) + row_html_seq(rows.last())
    }
}

pub const EMPTY_NOTE: &'static str = "<p class=\"empty\">Нет задач для выставления: укажите количество часов в панели выше или запишите новое отработанное время.</p>";

pub const TABLE_HEAD: &'static str = "<table><thead><tr><th>Дата</th><th>Задача</th><th>Время выполнения</th><th class=\"right\">Часы</th><th class=\"right\">Сумма</th></tr></thead><tbody>";

/// The line-item table, or a note when nothing is billed.
pub open spec fn table_or_empty_seq(inv: Invoice) -> Seq<char> {
    if inv.rows@.len() == 0 {
        EMPTY_NOTE@
    } else {
        TABLE_HEAD@ + rows_html_seq(inv.rows@) + "</tbody></table>"@
    }
}

proof fn lemma_rows_html_step(rows: Seq<InvoiceRow>, k: int)
    requires
        0 <= k < rows.len(),
    ensures
        rows_html_seq(rows.take(k + 1)) == rows_html_seq(rows.take(k)) + row_html_seq(rows[k]),
{
    assert(rows.take(k + 1).drop_last() =~= rows.take(k));
    assert(rows.take(k + 1).last() == rows[k]);
}

/// The rows' html up to row `j` begins the html of all rows.
proof fn lemma_rows_html_prefix(rows: Seq<InvoiceRow>, j: int)
    requires
        0 <= j <= rows.len(),
    ensures
        rows_html_seq(rows.take(j)).len() <= rows_html_seq(rows).len(),
        rows_html_seq(rows).subrange(0, rows_html_seq(rows.take(j)).len() as int) == rows_html_seq(rows.take(j)),
    decreases rows.len() - j,
{
    if j == rows.len() {
        assert(rows.take(j) =~= rows);
        assert(rows_html_seq(rows).subrange(0, rows_html_seq(rows).len() as int) =~= rows_html_seq(rows));
    } else {
        lemma_rows_html_prefix(rows, j + 1);
        lemma_rows_html_step(rows, j);
        let a = rows_html_seq(rows.take(j));
        let b = rows_html_seq(rows.take(j + 1));
        assert(b.subrange(0, a.len() as int) =~= a);
        assert(rows_html_seq(rows).subrange(0, a.len() as int) =~= b.subrange(0, a.len() as int));
    }
}

/// `off` cuts the table text `t` into the table head, one row's html per row
/// of `rows` in order, and the closing tags.
pub open spec fn row_cuts(t: Seq<char>, rows: Seq<InvoiceRow>, off: Seq<int>) -> bool {
    let n = rows.len() as int;
    &&& off.len() == n + 1
    &&& 0 <= off[0]
    &&& off[n] <= t.len()
    &&& forall|k: int| 0 <= k < n ==> #[trigger] off[k] <= off[k + 1]
    &&& t.subrange(0, off[0]) == TABLE_HEAD@
    &&& forall|k: int| 0 <= k < n ==> t.subrange(off[k], off[k + 1]) == row_html_seq(#[trigger] rows[k])
    &&& t.subrange(off[n], t.len() as int) == "</tbody></table>"@
}

/// Between the html of the first `k` rows and that of the first `k + 1`
/// stands row `k`'s html, whatever comes before and after the rows.
proof fn lemma_row_cut_at(p: Seq<char>, q: Seq<char>, rows: Seq<InvoiceRow>, k: int)
    requires
        0 <= k < rows.len(),
    ensures
        rows_html_seq(rows.take(k)).len() <= rows_html_seq(rows.take(k + 1)).len(),
        rows_html_seq(rows.take(k + 1)).len() <= rows_html_seq(rows).len(),
        (p + rows_html_seq(rows) + q).subrange(
            (p.len() + rows_html_seq(rows.take(k)).len()) as int,
            (p.len() + rows_html_seq(rows.take(k + 1)).len()) as int,
        ) == row_html_seq(rows[k]),
{
    lemma_rows_html_step(rows, k);
    lemma_rows_html_prefix(rows, k + 1);
    let all = rows_html_seq(rows);
    let a = rows_html_seq(rows.take(k));
    let b = rows_html_seq(rows.take(k + 1));
    let t = p + all + q;
    assert(t.subrange((p.len() + a.len()) as int, (p.len() + b.len()) as int) =~= all.subrange(a.len() as int, b.len() as int));
    assert(all.subrange(a.len() as int, b.len() as int) =~= b.subrange(a.len() as int, b.len() as int));
    assert(b.subrange(a.len() as int, b.len() as int) =~= row_html_seq(rows[k]));
}

proof fn lemma_cut_ends(p: Seq<char>, m: Seq<char>, q: Seq<char>)
    ensures
        (p + m + q).subrange(0, p.len() as int) == p,
        (p + m + q).subrange((p.len() + m.len()) as int, (p + m + q).len() as int) == q,
{
    assert((p + m + q).subrange(0, p.len() as int) =~= p);
    assert((p + m + q).subrange((p.len() + m.len()) as int, (p + m + q).len() as int) =~= q);
}

/// The invoice's line items are all on the page: with no rows it says there
/// is nothing to bill; otherwise the table is its head, then exactly one
/// `<tr>` line per invoice row, in the invoice's order, then its closing tags.
pub proof fn law_invoice_table_lists_every_row(inv: Invoice)
    ensures
        inv.rows@.len() == 0 ==> table_or_empty_seq(inv) == EMPTY_NOTE@,
        inv.rows@.len() > 0 ==> exists|off: Seq<int>| #[trigger] row_cuts(table_or_empty_seq(inv), inv.rows@, off),
{
    let rows = inv.rows@;
    let n = rows.len() as int;
    if n > 0 {
        let t = table_or_empty_seq(inv);
        let p = TABLE_HEAD@;
        let q = "</tbody></table>"@;
        let all = rows_html_seq(rows);
        let off = Seq::new((n + 1) as nat, |k: int| (p.len() + rows_html_seq(rows.take(k)).len()) as int);
        assert(t == p + all + q);
        assert(rows.take(0) =~= Seq::<InvoiceRow>::empty());
        assert(rows.take(n) =~= rows);
        assert(off[0] == p.len());
        assert(off[n] == p.len() + all.len());
        lemma_cut_ends(p, all, q);
        assert forall|k: int| 0 <= k < n implies #[trigger] off[k] <= off[k + 1] by {
            lemma_row_cut_at(p, q, rows, k);
        }
        assert forall|k: int| 0 <= k < n implies t.subrange(off[k], off[k + 1]) == row_html_seq(
            #[trigger] rows[k],
        ) by {
            lemma_row_cut_at(p, q, rows, k);
        }
        assert(row_cuts(t, rows, off));
    }
}

/// The footnote's remainder sentence, when the invoice states one.
pub open spec fn rest_sentence_seq(inv: Invoice) -> Seq<char> {
    match inv.rest_after_label {
        Some(r) => " Остаток к оплате после этого счёта: "@ + esc_seq(r@) + "."@,
        None => ""@,
    }
}

/// The client as the page names it: trimmed, or `Без клиента` when missing or blank.
pub open spec fn client_label_seq(client: Option<Seq<char>>) -> Seq<char> {
    match client {
        Some(c) => match nonblank(c) {
            Some(t) => t,
            None => "Без клиента"@,
        },
        None => "Без клиента"@,
    }
}

fn push_row_html(s: &mut String, r: &InvoiceRow)
    ensures
        final(s)@ == old(s)@ + row_html_seq(*r),
{
    push_str(s, "<tr><td class=\"nowrap\">");
    push_esc(s, r.date_label.as_str());
    push_str(s, "</td><td>");
    push_esc(s, r.desc.as_str());
    push_str(s, "</td><td class=\"nowrap\">");
    push_esc(s, r.range_label.as_str());
    push_str(s, "</td><td class=\"right nowrap\">");
    push_esc(s, r.hours_label.as_str());
    push_str(s, "</td><td class=\"right nowrap cell-amount\">");
    push_esc(s, r.amount_label.as_str());
    push_str(s, "</td></tr>");
    assert(s@ =~= old(s)@ + row_html_seq(*r));
}

fn push_table_or_empty(s: &mut String, inv: &Invoice)
    ensures
        final(s)@ == old(s)@ + table_or_empty_seq(*inv),
{
    if inv.rows.len() == 0 {
        push_str(s, EMPTY_NOTE);
    } else {
        push_str(s, TABLE_HEAD);
        let ghost head = s@;
        let mut i: usize = 0;
        while i < inv.rows.len()
            invariant
                i <= inv.rows.len(),
                s@ == head + rows_html_seq(inv.rows@.take(i as int)),
            decreases inv.rows.len() - i,
        {
            assert(inv.rows@.take(i + 1).drop_last() =~= inv.rows@.take(i as int));
            push_row_html(s, &inv.rows[i]);
            i = i + 1;
            assert(s@ =~= head + rows_html_seq(inv.rows@.take(i as int)));
        }
        assert(inv.rows@.take(i as int) =~= inv.rows@);
        push_str(s, "</tbody></table>");
        assert(s@ =~= old(s)@ + table_or_empty_seq(*inv));
    }
}

fn push_rest_sentence(s: &mut String, inv: &Invoice)
    ensures
        final(s)@ == old(s)@ + rest_sentence_seq(*inv),
{
    match &inv.rest_after_label {
        Some(r) => {
            push_str(s, " Остаток к оплате после этого счёта: ");
            push_esc(s, r.as_str());
            push_str(s, ".");
            assert(s@ =~= old(s)@ + rest_sentence_seq(*inv));
        },
        None => {
            push_str(s, "");
        },
    }
}

fn client_label(client: Option<&str>) -> (r: String)
    ensures
        r@ == client_label_seq(
            match client {
                Some(c) => Some(c@),
                None => None::<Seq<char>>,
            },
        ),
{
    match client {
        Some(c) => {
            let t = trim_ref(c);
            if t.unicode_len() > 0 {
                String::from_str(t)
            } else {
                String::from_str("Без клиента")
            }
        },
        None => String::from_str("Без клиента"),
    }
}

pub const HTML_0: &'static str = "<html><head><style>\nbody { font-family: \"";
pub const HTML_1: &'static str = "\", sans-serif; color: #18181b; font-size: 10.5pt; }\n.head { display: flex; justify-content: space-between; align-items: flex-start;\n  padding-bottom: 14px; border-bottom: 2px solid #18181b; }\n.title { font-size: 19pt; font-weight: bold; }\n.muted { color: #71717a; font-size: 9.5pt; margin-top: 4px; }\n.head-right { text-align: right; white-space: nowrap; }\n.label { text-transform: uppercase; font-size: 8pt; color: #a1a1aa; letter-spacing: 0.5px; }\n.amount-lg { font-size: 19pt; font-weight: bold; margin-top: 3px; white-space: nowrap; }\n.info-row { display: flex; margin-top: 18px; }\n.info-cell { flex: 1; }\n.value { font-size: 11pt; font-weight: bold; margin-top: 4px; }\ntable { width: 100%; border-collapse: collapse; margin-top: 20px; font-size: 9.5pt; }\nth { text-align: left; font-size: 8pt; text-transform: uppercase; color: #71717a;\n  border-bottom: 1px solid #d4d4d8; padding: 7px 8px 7px 0; }\ntd { border-bottom: 1px solid #f1f1f3; padding: 8px 8px 8px 0; }\n.right { text-align: right; }\n.nowrap { white-space: nowrap; }\n.cell-amount { font-weight: 600; }\n.empty { color: #a1a1aa; font-size: 10pt; padding: 20px 0; }\n.totals { margin-top: 16px; margin-left: auto; width: 280px; }\n.totals-row { display: flex; justify-content: space-between; padding: 5px 0;\n  font-size: 10pt; color: #52525b; white-space: nowrap; }\n.totals-row.grand { font-size: 13pt; font-weight: bold; color: #18181b; border-top: 1px solid #e4e4e8;\n  margin-top: 4px; padding-top: 10px; }\n.footnote { margin-top: 22px; padding-top: 12px; border-top: 1px solid #ececef;\n  font-size: 8.5pt; color: #a1a1aa; }\n</style></head>\n<body>\n  <div class=\"head\">\n    <div>\n      <div class=\"title\">Счёт на оплату</div>\n      <div class=\"muted\">";
pub const HTML_2: &'static str = " от ";
pub const HTML_3: &'static str = "</div>\n    </div>\n    <div class=\"head-right\">\n      <div class=\"label\">К оплате</div>\n      <div class=\"amount-lg\">";
pub const HTML_4: &'static str = "</div>\n    </div>\n  </div>\n  <div class=\"info-row\">\n    <div class=\"info-cell\"><div class=\"label\">Проект</div><div class=\"value\">";
pub const HTML_5: &'static str = "</div></div>\n    <div class=\"info-cell\"><div class=\"label\">Заказчик</div><div class=\"value\">";
pub const HTML_6: &'static str = "</div></div>\n    <div class=\"info-cell\"><div class=\"label\">Ставка</div><div class=\"value\">";
pub const HTML_7: &'static str = "</div></div>\n  </div>\n  ";
pub const HTML_8: &'static str = "\n  <div class=\"totals\">\n    <div class=\"totals-row\"><span>Всего часов</span><span>";
pub const HTML_9: &'static str = "</span></div>\n    <div class=\"totals-row\"><span>Ставка</span><span>";
pub const HTML_10: &'static str = "</span></div>\n    <div class=\"totals-row grand\"><span>Итого к&nbsp;оплате</span><span>";
pub const HTML_11: &'static str = "</span></div>\n  </div>\n  <div class=\"footnote\">В счёт включены задачи, по которым оплата ещё не поступала. Ранее оплачено по проекту: ";
pub const HTML_12: &'static str = ".";
pub const HTML_13: &'static str = "</div>\n</body></html>";

/// The invoice page, given the project's name and (optional) client.
pub open spec fn invoice_html_seq(inv: Invoice, project: Seq<char>, client: Option<Seq<char>>) -> Seq<char> {
    HTML_0@ + FONT_FAMILY@ + HTML_1@ + esc_seq(inv.number@) + HTML_2@ + esc_seq(inv.date_label@) + HTML_3@ + esc_seq(inv.total_amount_label@) + HTML_4@ + esc_seq(project) + HTML_5@ + esc_seq(client_label_seq(client)) + HTML_6@ + esc_seq(inv.rate_label@) + HTML_7@ + table_or_empty_seq(inv) + HTML_8@ + esc_seq(inv.total_hours_label@) + HTML_9@ + esc_seq(inv.rate_label@) + HTML_10@ + esc_seq(inv.total_amount_label@) + HTML_11@ + esc_seq(inv.paid_before_label@) + HTML_12@ + rest_sentence_seq(inv) + HTML_13@
}

/// Build the invoice's HTML/CSS document: a header with the number, date and
/// amount due, a project/client/rate row, the line-item table (or a note when
/// nothing is billed), the totals and a footnote on earlier payments.
pub fn build_invoice_html(invoice: &Invoice, project_name: &str, client: Option<&str>) -> (s: String)
    ensures
        s@ == invoice_html_seq(
            *invoice,
            project_name@,
            match client {
                Some(c) => Some(c@),
                None => None::<Seq<char>>,
            },
        ),
{
    let ghost inv = *invoice;
    let ghost project = project_name@;
    let ghost client_v = match client {
        Some(c) => Some(c@),
        None => None::<Seq<char>>,
    };
    let client_label = client_label(client);
    let mut s = String::new();
    push_str(&mut s, HTML_0);
    push_str(&mut s, FONT_FAMILY);
    push_str(&mut s, HTML_1);
    push_esc(&mut s, invoice.number.as_str());
    assert(s@ =~= HTML_0@ + FONT_FAMILY@ + HTML_1@ + esc_seq(inv.number@));
    push_str(&mut s, HTML_2);
    push_esc(&mut s, invoice.date_label.as_str());
    push_str(&mut s, HTML_3);
    push_esc(&mut s, invoice.total_amount_label.as_str());
    assert(s@ =~= HTML_0@ + FONT_FAMILY@ + HTML_1@ + esc_seq(inv.number@) + HTML_2@ + esc_seq(inv.date_label@) + HTML_3@ + esc_seq(inv.total_amount_label@));
    push_str(&mut s, HTML_4);
    push_esc(&mut s, project_name);
    push_str(&mut s, HTML_5);
    push_esc(&mut s, client_label.as_str());
    assert(s@ =~= HTML_0@ + FONT_FAMILY@ + HTML_1@ + esc_seq(inv.number@) + HTML_2@ + esc_seq(inv.date_label@) + HTML_3@ + esc_seq(inv.total_amount_label@) + HTML_4@ + esc_seq(project) + HTML_5@ + esc_seq(client_label_seq(client_v)));
    push_str(&mut s, HTML_6);
    push_esc(&mut s, invoice.rate_label.as_str());
    push_str(&mut s, HTML_7);
    push_table_or_empty(&mut s, invoice);
    assert(s@ =~= HTML_0@ + FONT_FAMILY@ + HTML_1@ + esc_seq(inv.number@) + HTML_2@ + esc_seq(inv.date_label@) + HTML_3@ + esc_seq(inv.total_amount_label@) + HTML_4@ + esc_seq(project) + HTML_5@ + esc_seq(client_label_seq(client_v)) + HTML_6@ + esc_seq(inv.rate_label@) + HTML_7@ + table_or_empty_seq(inv));
    push_str(&mut s, HTML_8);
    push_esc(&mut s, invoice.total_hours_label.as_str());
    push_str(&mut s, HTML_9);
    push_esc(&mut s, invoice.rate_label.as_str());
    assert(s@ =~= HTML_0@ + FONT_FAMILY@ + HTML_1@ + esc_seq(inv.number@) + HTML_2@ + esc_seq(inv.date_label@) + HTML_3@ + esc_seq(inv.total_amount_label@) + HTML_4@ + esc_seq(project) + HTML_5@ + esc_seq(client_label_seq(client_v)) + HTML_6@ + esc_seq(inv.rate_label@) + HTML_7@ + table_or_empty_seq(inv) + HTML_8@ + esc_seq(inv.total_hours_label@) + HTML_9@ + esc_seq(inv.rate_label@));
    push_str(&mut s, HTML_10);
    push_esc(&mut s, invoice.total_amount_label.as_str());
    push_str(&mut s, HTML_11);
    push_esc(&mut s, invoice.paid_before_label.as_str());
    assert(s@ =~= HTML_0@ + FONT_FAMILY@ + HTML_1@ + esc_seq(inv.number@) + HTML_2@ + esc_seq(inv.date_label@) + HTML_3@ + esc_seq(inv.total_amount_label@) + HTML_4@ + esc_seq(project) + HTML_5@ + esc_seq(client_label_seq(client_v)) + HTML_6@ + esc_seq(inv.rate_label@) + HTML_7@ + table_or_empty_seq(inv) + HTML_8@ + esc_seq(inv.total_hours_label@) + HTML_9@ + esc_seq(inv.rate_label@) + HTML_10@ + esc_seq(inv.total_amount_label@) + HTML_11@ + esc_seq(inv.paid_before_label@));
    push_str(&mut s, HTML_12);
    push_rest_sentence(&mut s, invoice);
    push_str(&mut s, HTML_13);
    assert(s@ =~= HTML_0@ + FONT_FAMILY@ + HTML_1@ + esc_seq(inv.number@) + HTML_2@ + esc_seq(inv.date_label@) + HTML_3@ + esc_seq(inv.total_amount_label@) + HTML_4@ + esc_seq(project) + HTML_5@ + esc_seq(client_label_seq(client_v)) + HTML_6@ + esc_seq(inv.rate_label@) + HTML_7@ + table_or_empty_seq(inv) + HTML_8@ + esc_seq(inv.total_hours_label@) + HTML_9@ + esc_seq(inv.rate_label@) + HTML_10@ + esc_seq(inv.total_amount_label@) + HTML_11@ + esc_seq(inv.paid_before_label@) + HTML_12@ + rest_sentence_seq(inv) + HTML_13@);
    s
}

} // verus!
