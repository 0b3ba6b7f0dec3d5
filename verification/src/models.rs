//! Plain data types mirroring the stored rows, plus the pure text helpers the
//! views and reports use.
//!
//! Data model: a time entry belongs directly to a **project** and carries a
//! free-text **description**. Timestamps are stored as **UTC RFC3339**
//! (`...Z`) strings.

use vstd::prelude::*;
use vstd::string::*;

use crate::text::{
    chars_of, dec_seq, is_ascii_ws, parse_unsigned, parse_unsigned_exec, push_char,
    push_dec, push_dec_padded, push_str, string_of, trim_bounds, trim_seq, vec_slice, zero_pad,
};
use crate::dates::{find_char, find_char_in, lemma_find_char, CalDate};
use crate::instants::{
    elapsed, elapsed_secs, local_date, local_date_ok, locally_representable, parse_ts,
    representable, ts_instant, Instant,
};

verus! {

pub type Id = i64;

/// A project's billing currency. Stored as its ISO 4217 code; `Currency::Rub`
/// is the fallback for projects created before this field existed (and for
/// any unrecognized stored code).
#[derive(Debug, Clone, Copy, PartialEq, Eq, Structural)]
pub enum Currency {
    Rub,
    Byn,
    Usd,
    Eur,
}

pub open spec fn code_seq(c: Currency) -> Seq<char> {
    match c {
        Currency::Rub => "RUB"@,
        Currency::Byn => "BYN"@,
        Currency::Usd => "USD"@,
        Currency::Eur => "EUR"@,
    }
}

pub open spec fn label_seq(c: Currency) -> Seq<char> {
    match c {
        Currency::Rub => "₽ RUB"@,
        Currency::Byn => "Br BYN"@,
        Currency::Usd => "$ USD"@,
        Currency::Eur => "€ EUR"@,
    }
}

pub open spec fn symbol_seq(c: Currency) -> Seq<char> {
    match c {
        Currency::Rub => "₽"@,
        Currency::Byn => "Br"@,
        Currency::Usd => "$"@,
        Currency::Eur => "€"@,
    }
}

/// The currency whose code is exactly `code` (case-sensitive), else `Rub`.
pub open spec fn currency_for_code(code: Seq<char>) -> Currency {
    if code == "BYN"@ {
        Currency::Byn
    } else if code == "USD"@ {
        Currency::Usd
    } else if code == "EUR"@ {
        Currency::Eur
    } else {
        Currency::Rub
    }
}

pub fn seq_eq(a: &Vec<char>, b: &Vec<char>) -> (r: bool)
    ensures
        r == (a@ == b@),
{
    if a.len() != b.len() {
        return false;
    }
    let mut i: usize = 0;
    while i < a.len()
        invariant
            i <= a.len() == b.len(),
            forall|j: int| 0 <= j < i ==> a@[j] == b@[j],
        decreases a.len() - i,
    {
        if a[i] != b[i] {
            return false;
        }
        i = i + 1;
    }
    assert(a@ =~= b@);
    true
}

pub fn str_eq(a: &str, b: &str) -> (r: bool)
    ensures
        r == (a@ == b@),
{
    seq_eq(&chars_of(a), &chars_of(b))
}

impl Currency {
    pub const ALL: [Currency; 4] = [Currency::Rub, Currency::Byn, Currency::Usd, Currency::Eur];

    pub fn code(self) -> (r: &'static str)
        ensures
            r@ == code_seq(self),
    {
        match self {
            Currency::Rub => "RUB",
            Currency::Byn => "BYN",
            Currency::Usd => "USD",
            Currency::Eur => "EUR",
        }
    }

    /// Short label for currency pickers — RUB/BYN share the ₽/Br convention
    /// but need distinct text since both are "рубли" to a Russian speaker.
    pub fn label(self) -> (r: &'static str)
        ensures
            r@ == label_seq(self),
    {
        match self {
            Currency::Rub => "₽ RUB",
            Currency::Byn => "Br BYN",
            Currency::Usd => "$ USD",
            Currency::Eur => "€ EUR",
        }
    }

    pub fn symbol(self) -> (r: &'static str)
        ensures
            r@ == symbol_seq(self),
    {
        match self {
            Currency::Rub => "₽",
            Currency::Byn => "Br",
            Currency::Usd => "$",
            Currency::Eur => "€",
        }
    }

    pub fn from_code(code: &str) -> (r: Currency)
        ensures
            r == currency_for_code(code@),
    {
        if str_eq(code, "BYN") {
            Currency::Byn
        } else if str_eq(code, "USD") {
            Currency::Usd
        } else if str_eq(code, "EUR") {
            Currency::Eur
        } else {
            Currency::Rub
        }
    }
}

impl Default for Currency {
    fn default() -> (r: Self)
        ensures
            r == Currency::Rub,
    {
        Currency::Rub
    }
}

/// Every currency's code reads back as that currency.
pub proof fn law_currency_code_roundtrip(c: Currency)
    ensures
        currency_for_code(code_seq(c)) == c,
{
    reveal_strlit("RUB");
    reveal_strlit("BYN");
    reveal_strlit("USD");
    reveal_strlit("EUR");
    assert("RUB"@[0] == 'R' && "BYN"@[0] == 'B' && "USD"@[0] == 'U' && "EUR"@[0] == 'E');
}

/// A unit of tracked time: a project + description, with a start and an
/// optional end (`None` = running). A live timer and a manual calendar entry
/// are the same row.
#[derive(Debug, Clone)]
pub struct TimeEntry {
    pub id: Id,
    pub project_id: Id,
    pub description: Option<String>,
    pub note: Option<String>,
    pub start_ts: String,
    pub end_ts: Option<String>,
    pub created_at: String,
}

/// `text` trimmed, if that leaves anything.
pub open spec fn nonblank(text: Seq<char>) -> Option<Seq<char>> {
    if trim_seq(text).len() > 0 {
        Some(trim_seq(text))
    } else {
        None
    }
}

/// `s.trim()`, borrowed from `s`.
pub fn trim_ref(s: &str) -> (r: &str)
    ensures
        r@ == trim_seq(s@),
{
    let v = chars_of(s);
    let (lo, hi) = trim_bounds(&v);
    s.substring_char(lo, hi)
}

/// How long an entry lasts, in whole seconds (never negative); a running
/// entry measures to `now`.
pub open spec fn entry_secs(e: TimeEntry, now: Instant) -> int {
    elapsed(
        ts_instant(e.start_ts@),
        match e.end_ts {
            Some(x) => ts_instant(x@),
            None => now,
        },
    )
}

impl TimeEntry {
    pub fn start(&self) -> (t: Instant)
        ensures
            t == ts_instant(self.start_ts@),
            locally_representable(t),
    {
        parse_ts(self.start_ts.as_str())
    }

    pub fn end(&self) -> (t: Option<Instant>)
        ensures
            t == (match self.end_ts {
                Some(x) => Some(ts_instant(x@)),
                None => None::<Instant>,
            }),
            t matches Some(x) ==> locally_representable(x),
    {
        match &self.end_ts {
            Some(x) => Some(parse_ts(x.as_str())),
            None => None,
        }
    }

    /// Duration in seconds; running entries measure to `now`.
    pub fn duration_secs(&self, now: Instant) -> (r: i64)
        requires
            representable(now),
        ensures
            r == entry_secs(*self, now),
    {
        let end = match self.end() {
            Some(e) => e,
            None => now,
        };
        elapsed_secs(self.start(), end)
    }

    /// The local date the entry started on.
    pub fn local_date(&self) -> (d: CalDate)
        ensures
            local_date_ok(ts_instant(self.start_ts@), d),
    {
        local_date(self.start())
    }

    pub fn is_running(&self) -> (r: bool)
        ensures
            r == self.end_ts.is_none(),
    {
        self.end_ts.is_none()
    }

    /// The trimmed description, or `fallback` when it is missing or blank.
    pub fn desc_or(&self, fallback: &str) -> (r: String)
        ensures
            r@ == (match self.description {
                Some(d) => match nonblank(d@) {
                    Some(t) => t,
                    None => fallback@,
                },
                None => fallback@,
            }),
    {
        match &self.description {
            Some(d) => {
                let t = trim_ref(d.as_str());
                if t.unicode_len() > 0 {
                    String::from_str(t)
                } else {
                    String::from_str(fallback)
                }
            },
            None => String::from_str(fallback),
        }
    }

    /// The note, trimmed, only if non-empty.
    pub fn note_text(&self) -> (r: Option<&str>)
        ensures
            match r {
                Some(t) => self.note matches Some(n) && nonblank(n@) == Some(t@),
                None => self.note matches Some(n) ==> nonblank(n@) is None,
            },
    {
        match &self.note {
            Some(n) => {
                let t = trim_ref(n.as_str());
                if t.unicode_len() > 0 {
                    Some(t)
                } else {
                    None
                }
            },
            None => None,
        }
    }
}

/// One flattened, display-ready row for CSV / JSON / Markdown export.
#[derive(Debug, Clone)]
pub struct ExportRow {
    pub date: String,
    pub project: String,
    pub description: String,
    pub start: String,
    pub end: String,
    pub duration_secs: i64,
    pub duration_hms: String,
}

// --- note link segmentation -------------------------------------------------

/// A piece of a note: either plain text or a clickable URL.
#[derive(Debug, Clone, PartialEq)]
pub enum Segment {
    Text(String),
    Link { href: String, text: String },
}

pub enum SegmentView {
    Text(Seq<char>),
    Link { href: Seq<char>, text: Seq<char> },
}

impl View for Segment {
    type V = SegmentView;

    open spec fn view(&self) -> SegmentView {
        match self {
            Segment::Text(t) => SegmentView::Text(t@),
            Segment::Link { href, text } => SegmentView::Link { href: href@, text: text@ },
        }
    }
}

pub open spec fn has_prefix_at(t: Seq<char>, i: int, p: Seq<char>) -> bool {
    i + p.len() <= t.len() && t.subrange(i, i + p.len()) == p
}

pub open spec fn http_seq() -> Seq<char> {
    seq!['h', 't', 't', 'p', ':', '/', '/']
}

pub open spec fn https_seq() -> Seq<char> {
    seq!['h', 't', 't', 'p', 's', ':', '/', '/']
}

/// A URL starts at `i`.
pub open spec fn url_at(t: Seq<char>, i: int) -> bool {
    has_prefix_at(t, i, http_seq()) || has_prefix_at(t, i, https_seq())
}

/// First ASCII-whitespace index at or after `i` (or the end).
pub open spec fn ws_end(t: Seq<char>, i: int) -> int
    decreases t.len() - i,
{
    if i >= t.len() || is_ascii_ws(t[i]) {
        i
    } else {
        ws_end(t, i + 1)
    }
}

pub open spec fn is_trailing_punct(c: char) -> bool {
    c == ')' || c == ',' || c == '.' || c == ';'
}

/// `e` moved back over trailing `),.;`, but not to or before `i`.
pub open spec fn peel_end(t: Seq<char>, i: int, e: int) -> int
    decreases e - i,
{
    if e > i && is_trailing_punct(t[e - 1]) {
        peel_end(t, i, e - 1)
    } else {
        e
    }
}

/// Where the URL starting at `i` ends.
pub open spec fn url_end(t: Seq<char>, i: int) -> int {
    peel_end(t, i, ws_end(t, i))
}

/// The URL's display text: the URL without its `https://` / `http://`.
pub open spec fn strip_scheme(u: Seq<char>) -> Seq<char> {
    if u.len() >= 8 && u.subrange(0, 8) == https_seq() {
        u.subrange(8, u.len() as int)
    } else if u.len() >= 7 && u.subrange(0, 7) == http_seq() {
        u.subrange(7, u.len() as int)
    } else {
        u
    }
}

/// Segments of `t` from scan position `i`, with pending text starting at `start`.
pub open spec fn segments_from(t: Seq<char>, i: int, start: int) -> Seq<SegmentView>
    decreases t.len() - i,
{
    if i >= t.len() || i < 0 {
        if 0 <= start < t.len() {
            seq![SegmentView::Text(t.subrange(start, t.len() as int))]
        } else {
            seq![]
        }
    } else if url_at(t, i) && url_end(t, i) > i {
        let e = url_end(t, i);
        proof {
            lemma_ws_end_bounds(t, i);
            lemma_peel_end_bounds(t, i, ws_end(t, i));
        }
        let pre: Seq<SegmentView> = if i > start {
            seq![SegmentView::Text(t.subrange(start, i))]
        } else {
            seq![]
        };
        let u = t.subrange(i, e);
        pre + seq![SegmentView::Link { href: u, text: strip_scheme(u) }] + segments_from(t, e, e)
    } else {
        segments_from(t, i + 1, start)
    }
}

/// How free text splits into plain/link segments.
pub open spec fn segments(t: Seq<char>) -> Seq<SegmentView> {
    segments_from(t, 0, 0)
}

/// The text a segment covers in the original (a link covers its full URL).
pub open spec fn covered(s: SegmentView) -> Seq<char> {
    match s {
        SegmentView::Text(x) => x,
        SegmentView::Link { href, .. } => href,
    }
}

pub open spec fn flatten(segs: Seq<SegmentView>) -> Seq<char>
    decreases segs.len(),
{
    if segs.len() == 0 {
        seq![]
    } else {
        flatten(segs.drop_last()) + covered(segs.last())
    }
}

pub proof fn lemma_ws_end_bounds(t: Seq<char>, i: int)
    requires
        0 <= i <= t.len(),
    ensures
        i <= ws_end(t, i) <= t.len(),
    decreases t.len() - i,
{
    if !(i >= t.len() || is_ascii_ws(t[i])) {
        lemma_ws_end_bounds(t, i + 1);
    }
}

pub proof fn lemma_peel_end_bounds(t: Seq<char>, i: int, e: int)
    requires
        i <= e,
    ensures
        i <= peel_end(t, i, e) <= e,
    decreases e - i,
{
    if e > i && is_trailing_punct(t[e - 1]) {
        lemma_peel_end_bounds(t, i, e - 1);
    }
}

proof fn lemma_flatten_append(a: Seq<SegmentView>, b: Seq<SegmentView>)
    ensures
        flatten(a + b) == flatten(a) + flatten(b),
    decreases b.len(),
{
    if b.len() == 0 {
        assert(a + b =~= a);
        assert(flatten(a) + flatten(b) =~= flatten(a));
    } else {
        assert((a + b).drop_last() =~= a + b.drop_last());
        lemma_flatten_append(a, b.drop_last());
        assert(flatten(a + b) =~= flatten(a) + flatten(b));
    }
}

proof fn lemma_flatten_one(s: SegmentView)
    ensures
        flatten(seq![s]) == covered(s),
{
    assert(seq![s].drop_last() =~= Seq::<SegmentView>::empty());
    assert(flatten(Seq::<SegmentView>::empty()) == Seq::<char>::empty());
    assert(Seq::<char>::empty() + covered(s) =~= covered(s));
}

/// The segments, read back to back, are the text they came from from `start` on.
proof fn lemma_segments_cover(t: Seq<char>, i: int, start: int)
    requires
        0 <= start <= i <= t.len(),
    ensures
        flatten(segments_from(t, i, start)) == t.subrange(start, t.len() as int),
    decreases t.len() - i,
{
    if i >= t.len() {
        if start < t.len() {
            lemma_flatten_one(SegmentView::Text(t.subrange(start, t.len() as int)));
        } else {
            assert(t.subrange(start, t.len() as int) =~= Seq::<char>::empty());
        }
    } else if url_at(t, i) && url_end(t, i) > i {
        let e = url_end(t, i);
        lemma_ws_end_bounds(t, i);
        lemma_peel_end_bounds(t, i, ws_end(t, i));
        lemma_segments_cover(t, e, e);
        let pre: Seq<SegmentView> = if i > start {
            seq![SegmentView::Text(t.subrange(start, i))]
        } else {
            seq![]
        };
        let u = t.subrange(i, e);
        let link = SegmentView::Link { href: u, text: strip_scheme(u) };
        lemma_flatten_append(pre + seq![link], segments_from(t, e, e));
        lemma_flatten_append(pre, seq![link]);
        lemma_flatten_one(link);
        if i > start {
            lemma_flatten_one(SegmentView::Text(t.subrange(start, i)));
        } else {
            assert(flatten(pre) =~= Seq::<char>::empty());
        }
        assert(t.subrange(start, t.len() as int) =~= t.subrange(start, i) + u + t.subrange(
            e,
            t.len() as int,
        ));
    } else {
        lemma_segments_cover(t, i + 1, start);
    }
}

/// Splitting a note into segments loses and adds nothing: the text and link
/// targets, back to back, are the note.
pub proof fn law_segments_cover_text(t: Seq<char>)
    ensures
        flatten(segments(t)) == t,
{
    lemma_segments_cover(t, 0, 0);
    assert(t.subrange(0, t.len() as int) =~= t);
}

proof fn lemma_ws_end_skips_no_ws(t: Seq<char>, i: int, k: int)
    requires
        0 <= i <= k < ws_end(t, i),
    ensures
        !is_ascii_ws(t[k]),
    decreases t.len() - i,
{
    if i < k {
        lemma_ws_end_skips_no_ws(t, i + 1, k);
    }
}

proof fn lemma_ws_end_at_least(t: Seq<char>, i: int, k: int)
    requires
        0 <= i <= k <= t.len(),
        forall|j: int| i <= j < k ==> !is_ascii_ws(#[trigger] t[j]),
    ensures
        ws_end(t, i) >= k,
    decreases k - i,
{
    if i < k {
        assert(!is_ascii_ws(t[i]));
        lemma_ws_end_at_least(t, i + 1, k);
    } else {
        lemma_ws_end_bounds(t, i);
    }
}

proof fn lemma_peel_end_at_least(t: Seq<char>, i: int, e: int, k: int)
    requires
        i < k <= e,
        !is_trailing_punct(t[k - 1]),
    ensures
        peel_end(t, i, e) >= k,
    decreases e - i,
{
    if e > k && is_trailing_punct(t[e - 1]) {
        lemma_peel_end_at_least(t, i, e - 1, k);
    }
}

/// What a link segment is: a URL with its scheme, holding no ASCII whitespace.
pub open spec fn is_link_href(href: Seq<char>) -> bool {
    &&& (has_prefix_at(href, 0, http_seq()) || has_prefix_at(href, 0, https_seq()))
    &&& forall|j: int| 0 <= j < href.len() ==> !is_ascii_ws(#[trigger] href[j])
}

proof fn lemma_links_from(t: Seq<char>, i: int, start: int)
    requires
        0 <= start <= i <= t.len(),
    ensures
        forall|k: int|
            0 <= k < segments_from(t, i, start).len() ==> (#[trigger] segments_from(t, i, start)[k] matches SegmentView::Link {
                href,
                ..
            } ==> is_link_href(href)),
    decreases t.len() - i,
{
    let segs = segments_from(t, i, start);
    if i >= t.len() {
    } else if url_at(t, i) && url_end(t, i) > i {
        let e = url_end(t, i);
        lemma_ws_end_bounds(t, i);
        lemma_peel_end_bounds(t, i, ws_end(t, i));
        lemma_links_from(t, e, e);
        let pre: Seq<SegmentView> = if i > start {
            seq![SegmentView::Text(t.subrange(start, i))]
        } else {
            seq![]
        };
        let u = t.subrange(i, e);
        assert forall|j: int| 0 <= j < u.len() implies !is_ascii_ws(#[trigger] u[j]) by {
            lemma_ws_end_skips_no_ws(t, i, i + j);
        }
        let w = if has_prefix_at(t, i, http_seq()) {
            7int
        } else {
            8int
        };
        let p = if w == 7 {
            http_seq()
        } else {
            https_seq()
        };
        assert(t.subrange(i, i + w) == p);
        assert forall|j: int| i <= j < i + w implies !is_ascii_ws(#[trigger] t[j]) by {
            assert(t[j] == p[j - i]);
        }
        lemma_ws_end_at_least(t, i, i + w);
        assert(t[i + w - 1] == p[w - 1]);
        lemma_peel_end_at_least(t, i, ws_end(t, i), i + w);
        assert(u.subrange(0, w) =~= t.subrange(i, i + w));
        let rest = segments_from(t, e, e);
        let link = SegmentView::Link { href: u, text: strip_scheme(u) };
        assert(segs == pre + seq![link] + rest);
        assert forall|k: int| 0 <= k < segs.len() implies (#[trigger] segs[k] matches SegmentView::Link {
            href,
            ..
        } ==> is_link_href(href)) by {
            if k < pre.len() {
                assert(segs[k] == pre[k]);
            } else if k == pre.len() {
                assert(segs[k] == link);
            } else {
                assert(segs[k] == rest[k - pre.len() - 1]);
            }
        }
    } else {
        lemma_links_from(t, i + 1, start);
    }
}

/// A link found in a note is a URL with its scheme that runs no further than
/// the next ASCII whitespace: its target never holds a space, tab, newline,
/// form feed or carriage return.
pub proof fn law_links_stop_at_whitespace(t: Seq<char>)
    ensures
        forall|k: int|
            0 <= k < segments(t).len() ==> (#[trigger] segments(t)[k] matches SegmentView::Link { href, .. }
                ==> is_link_href(href)),
{
    lemma_links_from(t, 0, 0);
}

pub fn starts_with_at(v: &Vec<char>, i: usize, p: &Vec<char>) -> (r: bool)
    requires
        i <= v.len(),
    ensures
        r == has_prefix_at(v@, i as int, p@),
{
    if p.len() > v.len() - i {
        return false;
    }
    let mut k: usize = 0;
    while k < p.len()
        invariant
            k <= p.len(),
            i + p.len() <= v.len(),
            forall|j: int| 0 <= j < k ==> v@[i + j] == p@[j],
        decreases p.len() - k,
    {
        if v[i + k] != p[k] {
            assert(v@.subrange(i as int, i + p.len())[k as int] != p@[k as int]);
            return false;
        }
        k = k + 1;
    }
    assert(v@.subrange(i as int, i + p.len()) =~= p@);
    true
}

fn char_is_ascii_ws(c: char) -> (b: bool)
    ensures
        b == is_ascii_ws(c),
{
    c == ' ' || c == '\t' || c == '\n' || c == '\x0C' || c == '\r'
}

/// Split free text into plain/link segments on `http(s)://…` runs, stripping any
/// trailing `),.;` punctuation off a URL back into the following text. Link
/// display text drops the scheme.
pub fn link_segments(text: &str) -> (segs: Vec<Segment>)
    ensures
        segs@.map_values(|s: Segment| s@) == segments(text@),
{
    let t = chars_of(text);
    let n = t.len();
    let http: Vec<char> = vec!['h', 't', 't', 'p', ':', '/', '/'];
    let https: Vec<char> = vec!['h', 't', 't', 'p', 's', ':', '/', '/'];
    assert(http@ == http_seq());
    assert(https@ == https_seq());
    let mut segs: Vec<Segment> = Vec::new();
    let mut i: usize = 0;
    let mut text_start: usize = 0;
    while i < n
        invariant
            n == t.len(),
            t@ == text@,
            http@ == http_seq(),
            https@ == https_seq(),
            text_start <= i <= n,
            segs@.map_values(|s: Segment| s@) + segments_from(t@, i as int, text_start as int)
                == segments(text@),
        decreases n - i,
    {
        let ghost old_segs = segs@.map_values(|s: Segment| s@);
        if starts_with_at(&t, i, &http) || starts_with_at(&t, i, &https) {
            let mut end = i;
            while end < n && !char_is_ascii_ws(t[end])
                invariant
                    i <= end <= n == t.len(),
                    ws_end(t@, i as int) == ws_end(t@, end as int),
                decreases n - end,
            {
                end = end + 1;
            }
            let mut url_e = end;
            while url_e > i && (t[url_e - 1] == ')' || t[url_e - 1] == ',' || t[url_e - 1] == '.'
                || t[url_e - 1] == ';')
                invariant
                    i <= url_e <= end <= n == t.len(),
                    peel_end(t@, i as int, end as int) == peel_end(t@, i as int, url_e as int),
                decreases url_e,
            {
                url_e = url_e - 1;
            }
            assert(url_e as int == url_end(t@, i as int));
            if url_e > i {
                if i > text_start {
                    segs.push(Segment::Text(string_of(&t, text_start, i)));
                }
                let href = string_of(&t, i, url_e);
                let shown = if url_e - i >= 8 && starts_with_at(&t, i, &https) {
                    string_of(&t, i + 8, url_e)
                } else if url_e - i >= 7 && starts_with_at(&t, i, &http) {
                    string_of(&t, i + 7, url_e)
                } else {
                    string_of(&t, i, url_e)
                };
                proof {
                    let u = t@.subrange(i as int, url_e as int);
                    assert(u.subrange(0, 8) == t@.subrange(i as int, i + 8) || u.len() < 8);
                    assert(u.len() >= 7 ==> u.subrange(0, 7) == t@.subrange(i as int, i + 7));
                    if u.len() >= 8 {
                        assert(u.subrange(8, u.len() as int) =~= t@.subrange(i + 8, url_e as int));
                    }
                    if u.len() >= 7 {
                        assert(u.subrange(7, u.len() as int) =~= t@.subrange(i + 7, url_e as int));
                    }
                    assert(shown@ == strip_scheme(u));
                }
                segs.push(Segment::Link { href, text: shown });
                proof {
                    let pre: Seq<SegmentView> = if i > text_start {
                        seq![SegmentView::Text(t@.subrange(text_start as int, i as int))]
                    } else {
                        seq![]
                    };
                    assert(segs@.map_values(|s: Segment| s@) =~= old_segs + pre + seq![
                        SegmentView::Link {
                            href: t@.subrange(i as int, url_e as int),
                            text: strip_scheme(t@.subrange(i as int, url_e as int)),
                        },
                    ]);
                }
                i = url_e;
                text_start = url_e;
            } else {
                i = i + 1;
            }
        } else {
            i = i + 1;
        }
    }
    if text_start < n {
        segs.push(Segment::Text(string_of(&t, text_start, n)));
        assert(segs@.map_values(|s: Segment| s@) =~= segments(text@));
    } else {
        assert(segs@.map_values(|s: Segment| s@) =~= segments(text@));
    }
    segs
}

// --- time text --------------------------------------------------------------

/// What `parse_hm` reads: `HH:MM` (spaces allowed around each part), with
/// `HH < 24` and `MM < 60`.
pub open spec fn hm_parse(s: Seq<char>) -> Option<(u32, u32)> {
    let t = trim_seq(s);
    match find_char(t, ':') {
        None => None,
        Some(i) => match (
            parse_unsigned(trim_seq(t.subrange(0, i)), 10, u32::MAX as nat),
            parse_unsigned(trim_seq(t.subrange(i + 1, t.len() as int)), 10, u32::MAX as nat),
        ) {
            (Some(h), Some(m)) => if h < 24 && m < 60 {
                Some((h as u32, m as u32))
            } else {
                None
            },
            _ => None,
        },
    }
}

fn parse_u32_piece(v: &Vec<char>, lo: usize, hi: usize) -> (r: Option<u32>)
    requires
        lo <= hi <= v.len(),
    ensures
        r == (match parse_unsigned(trim_seq(v@.subrange(lo as int, hi as int)), 10, u32::MAX as nat) {
            Some(x) => Some(x as u32),
            None => None::<u32>,
        }),
{
    let piece = vec_slice(v, lo, hi);
    let (a, b) = trim_bounds(&piece);
    match parse_unsigned_exec(&piece, a, b, 10, u32::MAX as u64) {
        Some(x) => Some(x as u32),
        None => None,
    }
}

/// Parse an `HH:MM` string into (hour, minute), validating ranges.
pub fn parse_hm(s: &str) -> (r: Option<(u32, u32)>)
    ensures
        r == hm_parse(s@),
{
    let raw = chars_of(s);
    let (lo, hi) = trim_bounds(&raw);
    let t = vec_slice(&raw, lo, hi);
    let n = t.len();
    assert(t@.subrange(0, n as int) =~= t@);
    proof {
        lemma_find_char(t@, ':');
    }
    let i = match find_char_in(&t, 0, n, ':') {
        Some(i) => i,
        None => return None,
    };
    assert(find_char(t@, ':') == Some(i as int));
    let h = parse_u32_piece(&t, 0, i);
    let m = parse_u32_piece(&t, i + 1, n);
    match (h, m) {
        (Some(h), Some(m)) => if h < 24 && m < 60 {
            Some((h, m))
        } else {
            None
        },
        _ => None,
    }
}

pub open spec fn clamp0(x: int) -> int {
    if x < 0 {
        0
    } else {
        x
    }
}

/// `HH:MM:SS` of `max(secs, 0)` (hours may run past two digits).
pub open spec fn hms_seq(secs: int) -> Seq<char> {
    let s = clamp0(secs);
    zero_pad(dec_seq((s / 3600) as nat), 2) + ":"@ + zero_pad(dec_seq(((s % 3600) / 60) as nat), 2)
        + ":"@ + zero_pad(dec_seq((s % 60) as nat), 2)
}

/// `HH:MM:SS`, clamped at zero — for the live clock.
pub fn format_hms(secs: i64) -> (r: String)
    ensures
        r@ == hms_seq(secs as int),
{
    let s: u64 = if secs < 0 {
        0
    } else {
        secs as u64
    };
    let mut out = String::new();
    push_dec_padded(&mut out, s / 3600, 2);
    push_str(&mut out, ":");
    push_dec_padded(&mut out, (s % 3600) / 60, 2);
    push_str(&mut out, ":");
    push_dec_padded(&mut out, s % 60, 2);
    out
}

/// Russian short duration: `1ч 45м`, or `45м` under an hour.
pub open spec fn dur_ru_seq(secs: int) -> Seq<char> {
    let m = clamp0(secs) / 60;
    let h = m / 60;
    let mm = m % 60;
    if h > 0 {
        dec_seq(h as nat) + "ч "@ + zero_pad(dec_seq(mm as nat), 2) + "м"@
    } else {
        dec_seq(mm as nat) + "м"@
    }
}

/// A duration label counts whole hours without wrapping (a project's
/// all-time total of 30 hours reads `30ч 00м`): from an hour up it is the
/// whole hours in `secs`, `ч `, the minutes past the hour on two digits and
/// `м`; under an hour it is the whole minutes and `м`; a negative duration
/// reads as none.
pub proof fn law_dur_label_counts_whole_hours(secs: int)
    ensures
        secs >= 3600 ==> dur_ru_seq(secs) == dec_seq((secs / 3600) as nat) + "ч "@ + zero_pad(
            dec_seq(((secs / 60) % 60) as nat),
            2,
        ) + "м"@,
        0 <= secs < 3600 ==> dur_ru_seq(secs) == dec_seq((secs / 60) as nat) + "м"@,
        secs < 0 ==> dur_ru_seq(secs) == dur_ru_seq(0),
{
    if secs >= 0 {
        vstd::arithmetic::div_mod::lemma_div_denominator(secs, 60, 60);
        assert((secs / 60) / 60 == secs / 3600);
        if secs >= 3600 {
            assert(secs / 3600 >= 1) by {
                vstd::arithmetic::div_mod::lemma_div_is_ordered(3600, secs, 3600);
            }
        } else {
            assert(secs / 3600 == 0);
            assert((secs / 60) < 60) by {
                vstd::arithmetic::div_mod::lemma_div_is_ordered(secs, 3599, 60);
            }
            assert((secs / 60) % 60 == secs / 60);
        }
    }
}

pub fn format_dur_ru(secs: i64) -> (r: String)
    ensures
        r@ == dur_ru_seq(secs as int),
{
    let s: u64 = if secs < 0 {
        0
    } else {
        secs as u64
    };
    let m = s / 60;
    let h = m / 60;
    let mm = m % 60;
    let mut out = String::new();
    if h > 0 {
        push_dec(&mut out, h);
        push_str(&mut out, "ч ");
        push_dec_padded(&mut out, mm, 2);
        push_str(&mut out, "м");
    } else {
        push_dec(&mut out, mm);
        push_str(&mut out, "м");
    }
    out
}

/// Hundredths of an hour in `|minutes|` minutes, rounded to nearest (a tie
/// cannot occur: `100 * m / 60` never ends in exactly one half).
pub open spec fn hundredths_of_hours(minutes: int) -> int {
    let a = if minutes < 0 {
        -minutes
    } else {
        minutes
    };
    (10 * a + 3) / 6
}

/// Decimal hours with a Russian comma and two decimals, e.g. `1,75 ч`.
pub open spec fn hours_ru_seq(minutes: int) -> Seq<char> {
    let c = hundredths_of_hours(minutes);
    let sign: Seq<char> = if minutes < 0 {
        "-"@
    } else {
        ""@
    };
    sign + dec_seq((c / 100) as nat) + ","@ + zero_pad(dec_seq((c % 100) as nat), 2) + " ч"@
}

/// Decimal hours with a Russian comma, e.g. `1,75 ч` — the invoice table's
/// "Часы" column format (distinct from `format_dur_ru`'s "1ч 45м" style).
pub fn format_hours_ru(minutes: i64) -> (r: String)
    ensures
        r@ == hours_ru_seq(minutes as int),
{
    let a: u64 = if minutes < 0 {
        if minutes == i64::MIN {
            9223372036854775808u64
        } else {
            (-minutes) as u64
        }
    } else {
        minutes as u64
    };
    let a128 = a as u128;
    let c = (10 * a128 + 3) / 6;
    assert(c == hundredths_of_hours(minutes as int));
    let whole = (c / 100) as u64;
    let frac = (c % 100) as u64;
    let mut out = String::new();
    if minutes < 0 {
        push_str(&mut out, "-");
    } else {
        push_str(&mut out, "");
    }
    push_dec(&mut out, whole);
    push_str(&mut out, ",");
    push_dec_padded(&mut out, frac, 2);
    push_str(&mut out, " ч");
    out
}

/// `n` with thin-space-grouped thousands, e.g. `12 500`.
pub open spec fn grouped_seq(n: nat) -> Seq<char>
    decreases n,
{
    if n < 1000 {
        dec_seq(n)
    } else {
        grouped_seq(n / 1000) + seq!['\u{2009}'] + zero_pad(dec_seq(n % 1000), 3)
    }
}

pub fn push_grouped(out: &mut String, n: u64)
    ensures
        final(out)@ == old(out)@ + grouped_seq(n as nat),
    decreases n,
{
    if n < 1000 {
        push_dec(out, n);
    } else {
        push_grouped(out, n / 1000);
        push_char(out, '\u{2009}');
        push_dec_padded(out, n % 1000, 3);
        assert(out@ =~= old(out)@ + grouped_seq(n as nat));
    }
}

/// Whole currency units, grouped, then the currency sign: `12 500 ₽`.
pub open spec fn money_seq(units: nat, c: Currency) -> Seq<char> {
    grouped_seq(units) + " "@ + symbol_seq(c)
}

/// A whole, non-negative amount in the given currency, thin-space-grouped
/// thousands — the display form of money (minor units are never shown).
pub fn format_money_units(units: u64, currency: Currency) -> (r: String)
    ensures
        r@ == money_seq(units as nat, currency),
{
    let mut out = String::new();
    push_grouped(&mut out, units);
    push_str(&mut out, " ");
    push_str(&mut out, currency.symbol());
    out
}

} // verus!
