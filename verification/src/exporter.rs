//! Report content for CSV / JSON / Markdown export, each ending with
//! per-project and per-day totals. Writing the files is the caller's part.

use vstd::prelude::*;

use crate::models::{format_hms, hms_seq, ExportRow};
use crate::text::{chars_of, int_seq, push_char, push_int, push_str};

verus! {

// --- ordering of keys -------------------------------------------------------

/// `a` sorts before `b` (the order of `String`: char by char, by code point).
pub open spec fn lex_lt(a: Seq<char>, b: Seq<char>) -> bool
    decreases a.len(),
{
    if a.len() == 0 {
        b.len() > 0
    } else if b.len() == 0 {
        false
    } else if a[0] != b[0] {
        a[0] < b[0]
    } else {
        lex_lt(a.drop_first(), b.drop_first())
    }
}

pub proof fn lemma_lex_irreflexive(a: Seq<char>)
    ensures
        !lex_lt(a, a),
    decreases a.len(),
{
    if a.len() > 0 {
        lemma_lex_irreflexive(a.drop_first());
    }
}

pub proof fn lemma_lex_total(a: Seq<char>, b: Seq<char>)
    ensures
        a == b || lex_lt(a, b) || lex_lt(b, a),
        !(lex_lt(a, b) && lex_lt(b, a)),
    decreases a.len(),
{
    if a.len() > 0 && b.len() > 0 {
        if a[0] == b[0] {
            lemma_lex_total(a.drop_first(), b.drop_first());
            if a.drop_first() == b.drop_first() {
                assert(a =~= seq![a[0]] + a.drop_first());
                assert(b =~= seq![b[0]] + b.drop_first());
            }
        }
    } else if a.len() == 0 && b.len() == 0 {
        assert(a =~= b);
    }
}

pub proof fn lemma_lex_transitive(a: Seq<char>, b: Seq<char>, c: Seq<char>)
    requires
        lex_lt(a, b),
        lex_lt(b, c),
    ensures
        lex_lt(a, c),
    decreases a.len(),
{
    if a.len() > 0 && b.len() > 0 && c.len() > 0 {
        if a[0] == b[0] && b[0] == c[0] {
            lemma_lex_transitive(a.drop_first(), b.drop_first(), c.drop_first());
        }
    }
}

proof fn lemma_lex_skip(a: Seq<char>, b: Seq<char>, i: int)
    requires
        0 <= i <= a.len(),
        i <= b.len(),
        a.subrange(0, i) == b.subrange(0, i),
    ensures
        lex_lt(a, b) == lex_lt(a.subrange(i, a.len() as int), b.subrange(i, b.len() as int)),
    decreases i,
{
    if i > 0 {
        assert(a[0] == a.subrange(0, i)[0]);
        assert(b[0] == b.subrange(0, i)[0]);
        assert(a.drop_first().subrange(0, i - 1) =~= a.subrange(1, i));
        assert(b.drop_first().subrange(0, i - 1) =~= b.subrange(1, i));
        assert(a.subrange(1, i) =~= a.subrange(0, i).drop_first());
        assert(b.subrange(1, i) =~= b.subrange(0, i).drop_first());
        lemma_lex_skip(a.drop_first(), b.drop_first(), i - 1);
        assert(a.drop_first().subrange(i - 1, a.len() - 1) =~= a.subrange(i, a.len() as int));
        assert(b.drop_first().subrange(i - 1, b.len() - 1) =~= b.subrange(i, b.len() as int));
    } else {
        assert(a.subrange(0, a.len() as int) =~= a);
        assert(b.subrange(0, b.len() as int) =~= b);
    }
}

pub fn lex_before(a: &Vec<char>, b: &Vec<char>) -> (r: bool)
    ensures
        r == lex_lt(a@, b@),
{
    let mut i: usize = 0;
    while i < a.len() && i < b.len() && a[i] == b[i]
        invariant
            i <= a.len(),
            i <= b.len(),
            a@.subrange(0, i as int) == b@.subrange(0, i as int),
        decreases a.len() - i,
    {
        assert(a@.subrange(0, i + 1) =~= a@.subrange(0, i as int).push(a@[i as int]));
        assert(b@.subrange(0, i + 1) =~= b@.subrange(0, i as int).push(b@[i as int]));
        i = i + 1;
    }
    proof {
        lemma_lex_skip(a@, b@, i as int);
        let x = a@.subrange(i as int, a.len() as int);
        let y = b@.subrange(i as int, b.len() as int);
        if i < a.len() && i < b.len() {
            assert(x[0] == a@[i as int]);
            assert(y[0] == b@[i as int]);
        }
    }
    if i == a.len() {
        i < b.len()
    } else if i == b.len() {
        false
    } else {
        a[i] < b[i]
    }
}

// --- per-key totals ---------------------------------------------------------

pub open spec fn kv_view(p: Seq<(String, i64)>) -> Seq<(Seq<char>, i64)> {
    p.map_values(|x: (String, i64)| (x.0@, x.1))
}

/// Sum of the values of `p` whose key is `k`.
pub open spec fn key_sum(p: Seq<(Seq<char>, i64)>, k: Seq<char>) -> int
    decreases p.len(),
{
    if p.len() == 0 {
        0
    } else {
        key_sum(p.drop_last(), k) + if p.last().0 == k {
            p.last().1 as int
        } else {
            0
        }
    }
}

pub open spec fn has_key(p: Seq<(Seq<char>, i64)>, k: Seq<char>) -> bool {
    exists|i: int| 0 <= i < p.len() && (#[trigger] p[i]).0 == k
}

/// `g` holds, in key order and once per key, the total of every key of `p`.
pub open spec fn is_grouping(g: Seq<(Seq<char>, i64)>, p: Seq<(Seq<char>, i64)>) -> bool {
    &&& forall|i: int, j: int| 0 <= i < j < g.len() ==> lex_lt(#[trigger] g[i].0, #[trigger] g[j].0)
    &&& forall|i: int|
        0 <= i < g.len() ==> has_key(p, (#[trigger] g[i]).0) && g[i].1 == key_sum(p, g[i].0)
    &&& forall|j: int|
        0 <= j < p.len() ==> exists|i: int| 0 <= i < g.len() && (#[trigger] g[i]).0 == (
        #[trigger] p[j]).0
}

/// Every per-key running total of `p` fits in an `i64`.
pub open spec fn key_sums_fit(p: Seq<(Seq<char>, i64)>) -> bool {
    forall|n: int, k: Seq<char>|
        0 <= n <= p.len() ==> i64::MIN <= #[trigger] key_sum(p.take(n), k) <= i64::MAX
}

proof fn lemma_key_sum_absent(p: Seq<(Seq<char>, i64)>, k: Seq<char>)
    requires
        !has_key(p, k),
    ensures
        key_sum(p, k) == 0,
    decreases p.len(),
{
    if p.len() > 0 {
        assert(!has_key(p.drop_last(), k)) by {
            if has_key(p.drop_last(), k) {
                let i = choose|i: int| 0 <= i < p.drop_last().len() && (#[trigger] p.drop_last()[i]).0 == k;
                assert(p[i].0 == k);
            }
        }
        lemma_key_sum_absent(p.drop_last(), k);
        assert(p[p.len() - 1].0 != k);
    }
}

/// The keyed totals of `pairs`, sorted by key — per-project or per-day report
/// totals.
pub fn group_totals(pairs: &Vec<(String, i64)>) -> (g: Vec<(String, i64)>)
    requires
        key_sums_fit(kv_view(pairs@)),
    ensures
        is_grouping(kv_view(g@), kv_view(pairs@)),
{
    let ghost p = kv_view(pairs@);
    let mut acc: Vec<(String, i64)> = Vec::new();
    let mut j: usize = 0;
    while j < pairs.len()
        invariant
            j <= pairs.len(),
            p == kv_view(pairs@),
            key_sums_fit(p),
            is_grouping(kv_view(acc@), p.take(j as int)),
        decreases pairs.len() - j,
    {
        let ghost g = kv_view(acc@);
        let ghost pj = p.take(j as int);
        let ghost pn = p.take(j + 1);
        assert(pn.drop_last() =~= pj);
        assert(pn.last() == p[j as int]);
        let key = chars_of(pairs[j].0.as_str());
        let v = pairs[j].1;
        let mut pos: usize = 0;
        while pos < acc.len()
            invariant
                pos <= acc.len(),
                g == kv_view(acc@),
                forall|i: int| 0 <= i < pos ==> lex_lt(#[trigger] g[i].0, key@),
            ensures
                pos <= acc.len(),
                g == kv_view(acc@),
                forall|i: int| 0 <= i < pos ==> lex_lt(#[trigger] g[i].0, key@),
                pos == acc.len() || !lex_lt(g[pos as int].0, key@),
            decreases acc.len() - pos,
        {
            let cur = chars_of(acc[pos].0.as_str());
            if lex_before(&cur, &key) {
                pos = pos + 1;
            } else {
                break;
            }
        }
        let eq = pos < acc.len() && {
            let cur = chars_of(acc[pos].0.as_str());
            crate::models::seq_eq(&cur, &key)
        };
        assert(key@ == p[j as int].0);
        if eq {
            let old_total = acc[pos].1;
            proof {
                assert(g[pos as int].0 == key@);
                assert(g[pos as int].1 == key_sum(pj, key@));
                assert(key_sum(pn, key@) == key_sum(pj, key@) + v);
                assert(i64::MIN <= key_sum(p.take(j + 1), key@) <= i64::MAX);
            }
            let name = acc[pos].0.clone();
            acc.set(pos, (name, old_total + v));
            proof {
                let g2 = kv_view(acc@);
                assert(g2 =~= g.update(pos as int, (key@, (old_total + v) as i64)));
                assert forall|i: int| 0 <= i < g2.len() implies has_key(pn, (#[trigger] g2[i]).0)
                    && g2[i].1 == key_sum(pn, g2[i].0) by {
                    assert(has_key(pj, g[i].0));
                    let w = choose|w: int| 0 <= w < pj.len() && (#[trigger] pj[w]).0 == g[i].0;
                    assert(pn[w] == pj[w]);
                    if i != pos {
                        lemma_lex_total(g[i].0, key@);
                        if g[i].0 == key@ {
                            if i < pos {
                                lemma_lex_irreflexive(key@);
                            } else {
                                assert(lex_lt(g[pos as int].0, g[i].0));
                                lemma_lex_irreflexive(key@);
                            }
                        }
                    }
                }
                assert forall|w: int| 0 <= w < pn.len() implies exists|i: int|
                    0 <= i < g2.len() && (#[trigger] g2[i]).0 == (#[trigger] pn[w]).0 by {
                    if w < pj.len() {
                        assert(pn[w] == pj[w]);
                        let i = choose|i: int| 0 <= i < g.len() && (#[trigger] g[i]).0 == (pj[w]).0;
                        assert(g2[i].0 == g[i].0);
                    } else {
                        assert(g2[pos as int].0 == pn[w].0);
                    }
                }
                assert(is_grouping(g2, pn));
            }
        } else {
            proof {
                lemma_lex_irreflexive(key@);
                assert(!has_key(pj, key@)) by {
                    if has_key(pj, key@) {
                        let w = choose|w: int| 0 <= w < pj.len() && (#[trigger] pj[w]).0 == key@;
                        let i = choose|i: int| 0 <= i < g.len() && (#[trigger] g[i]).0 == (pj[w]).0;
                        if i < pos {
                            assert(lex_lt(g[i].0, key@));
                        } else {
                            if i > pos {
                                assert(lex_lt(g[pos as int].0, g[i].0));
                            }
                            lemma_lex_total(g[pos as int].0, key@);
                            if i > pos {
                                lemma_lex_total(g[i].0, key@);
                            }
                        }
                    }
                }
                lemma_key_sum_absent(pj, key@);
                assert(key_sum(pn, key@) == v);
                if pos < g.len() {
                    lemma_lex_total(g[pos as int].0, key@);
                    assert(lex_lt(key@, g[pos as int].0));
                }
            }
            let name = pairs[j].0.clone();
            acc.insert(pos, (name, v));
            proof {
                let g2 = kv_view(acc@);
                assert(g2 =~= g.insert(pos as int, (key@, v)));
                assert forall|a: int, b: int| 0 <= a < b < g2.len() implies lex_lt(
                    #[trigger] g2[a].0,
                    #[trigger] g2[b].0,
                ) by {
                    if a < pos && b == pos {
                    } else if a < pos && b < pos {
                        assert(g2[a] == g[a]);
                        assert(g2[b] == g[b]);
                    } else if a < pos && b > pos {
                        assert(g2[b] == g[b - 1]);
                    } else if a == pos {
                        assert(g2[b] == g[b - 1]);
                        if b - 1 > pos {
                            lemma_lex_transitive(key@, g[pos as int].0, g[b - 1].0);
                        }
                    } else {
                        assert(g2[a] == g[a - 1]);
                        assert(g2[b] == g[b - 1]);
                    }
                }
                assert forall|i: int| 0 <= i < g2.len() implies has_key(pn, (#[trigger] g2[i]).0)
                    && g2[i].1 == key_sum(pn, g2[i].0) by {
                    if i == pos {
                        assert(pn[j as int].0 == key@);
                    } else {
                        let gi = if i < pos {
                            i
                        } else {
                            i - 1
                        };
                        assert(g2[i] == g[gi]);
                        assert(has_key(pj, g[gi].0));
                        let w = choose|w: int| 0 <= w < pj.len() && (#[trigger] pj[w]).0 == g[gi].0;
                        assert(pn[w] == pj[w]);
                        assert(g[gi].0 != key@) by {
                            if g[gi].0 == key@ {
                                assert(has_key(pj, key@));
                            }
                        }
                    }
                }
                assert forall|w: int| 0 <= w < pn.len() implies exists|i: int|
                    0 <= i < g2.len() && (#[trigger] g2[i]).0 == (#[trigger] pn[w]).0 by {
                    if w < pj.len() {
                        assert(pn[w] == pj[w]);
                        let i = choose|i: int| 0 <= i < g.len() && (#[trigger] g[i]).0 == (pj[w]).0;
                        if i < pos {
                            assert(g2[i].0 == g[i].0);
                        } else {
                            assert(g2[i + 1].0 == g[i].0);
                        }
                    } else {
                        assert(g2[pos as int].0 == pn[w].0);
                    }
                }
                assert(is_grouping(g2, pn));
            }
        }
        j = j + 1;
    }
    assert(p.take(j as int) =~= p);
    acc
}

/// Totals of an export: per project and per day (each sorted by key), and all.
#[derive(Debug, Clone)]
pub struct Totals {
    pub by_project: Vec<(String, i64)>,
    pub by_day: Vec<(String, i64)>,
    pub grand: i64,
}

pub open spec fn project_pairs(rows: Seq<ExportRow>) -> Seq<(Seq<char>, i64)> {
    rows.map_values(|r: ExportRow| (r.project@, r.duration_secs))
}

pub open spec fn day_pairs(rows: Seq<ExportRow>) -> Seq<(Seq<char>, i64)> {
    rows.map_values(|r: ExportRow| (r.date@, r.duration_secs))
}

pub open spec fn secs_sum(rows: Seq<ExportRow>) -> int
    decreases rows.len(),
{
    if rows.len() == 0 {
        0
    } else {
        secs_sum(rows.drop_last()) + rows.last().duration_secs
    }
}

/// Summing the rows never leaves `i64`, per project, per day or in all.
pub open spec fn totals_fit(rows: Seq<ExportRow>) -> bool {
    &&& key_sums_fit(project_pairs(rows))
    &&& key_sums_fit(day_pairs(rows))
    &&& forall|n: int| 0 <= n <= rows.len() ==> i64::MIN <= #[trigger] secs_sum(rows.take(n)) <= i64::MAX
}

impl Totals {
    pub fn from_rows(rows: &[ExportRow]) -> (t: Totals)
        requires
            totals_fit(rows@),
        ensures
            is_grouping(kv_view(t.by_project@), project_pairs(rows@)),
            is_grouping(kv_view(t.by_day@), day_pairs(rows@)),
            t.grand == secs_sum(rows@),
            value_sum(kv_view(t.by_project@)) == t.grand,
            value_sum(kv_view(t.by_day@)) == t.grand,
    {
        let mut pp: Vec<(String, i64)> = Vec::new();
        let mut dp: Vec<(String, i64)> = Vec::new();
        let mut grand: i64 = 0;
        let mut i: usize = 0;
        while i < rows.len()
            invariant
                i <= rows.len(),
                pp.len() == i,
                dp.len() == i,
                totals_fit(rows@),
                kv_view(pp@) == project_pairs(rows@).take(i as int),
                kv_view(dp@) == day_pairs(rows@).take(i as int),
                grand == secs_sum(rows@.take(i as int)),
            decreases rows.len() - i,
        {
            assert(rows@.take(i + 1).drop_last() =~= rows@.take(i as int));
            assert(i64::MIN <= secs_sum(rows@.take(i + 1)) <= i64::MAX);
            let r = &rows[i];
            pp.push((r.project.clone(), r.duration_secs));
            dp.push((r.date.clone(), r.duration_secs));
            grand = grand + r.duration_secs;
            i = i + 1;
            assert(kv_view(pp@) =~= project_pairs(rows@).take(i as int));
            assert(kv_view(dp@) =~= day_pairs(rows@).take(i as int));
        }
        assert(rows@.take(i as int) =~= rows@);
        assert(kv_view(pp@) =~= project_pairs(rows@));
        assert(kv_view(dp@) =~= day_pairs(rows@));
        let by_project = group_totals(&pp);
        let by_day = group_totals(&dp);
        proof {
            law_grouping_keeps_total(kv_view(by_project@), project_pairs(rows@));
            law_grouping_keeps_total(kv_view(by_day@), day_pairs(rows@));
            lemma_secs_sum_pairs(rows@);
        }
        Totals { by_project, by_day, grand }
    }
}

// --- totals add up -----------------------------------------------------------

/// Sum of all values of `p`.
pub open spec fn value_sum(p: Seq<(Seq<char>, i64)>) -> int
    decreases p.len(),
{
    if p.len() == 0 {
        0
    } else {
        value_sum(p.drop_last()) + p.last().1 as int
    }
}

/// Sum, over the keys of `g`, of the per-key totals of `p`.
spec fn keyed_sum(p: Seq<(Seq<char>, i64)>, g: Seq<(Seq<char>, i64)>) -> int
    decreases g.len(),
{
    if g.len() == 0 {
        0
    } else {
        keyed_sum(p, g.drop_last()) + key_sum(p, g.last().0)
    }
}

/// What the pair `x` adds to the per-key totals over the keys of `g`.
spec fn share_of(g: Seq<(Seq<char>, i64)>, x: (Seq<char>, i64)) -> int
    decreases g.len(),
{
    if g.len() == 0 {
        0
    } else {
        share_of(g.drop_last(), x) + if g.last().0 == x.0 {
            x.1 as int
        } else {
            0
        }
    }
}

proof fn lemma_keyed_sum_empty(g: Seq<(Seq<char>, i64)>)
    ensures
        keyed_sum(Seq::empty(), g) == 0,
    decreases g.len(),
{
    if g.len() > 0 {
        lemma_keyed_sum_empty(g.drop_last());
    }
}

proof fn lemma_keyed_sum_push(q: Seq<(Seq<char>, i64)>, x: (Seq<char>, i64), g: Seq<(Seq<char>, i64)>)
    ensures
        keyed_sum(q.push(x), g) == keyed_sum(q, g) + share_of(g, x),
    decreases g.len(),
{
    if g.len() > 0 {
        lemma_keyed_sum_push(q, x, g.drop_last());
        assert(q.push(x).drop_last() =~= q);
    }
}

proof fn lemma_share_absent(g: Seq<(Seq<char>, i64)>, x: (Seq<char>, i64))
    requires
        forall|i: int| 0 <= i < g.len() ==> (#[trigger] g[i]).0 != x.0,
    ensures
        share_of(g, x) == 0,
    decreases g.len(),
{
    if g.len() > 0 {
        let h = g.drop_last();
        assert forall|i: int| 0 <= i < h.len() implies (#[trigger] h[i]).0 != x.0 by {
            assert(h[i] == g[i]);
        }
        lemma_share_absent(h, x);
        assert(g[g.len() - 1].0 != x.0);
    }
}

proof fn lemma_share_once(g: Seq<(Seq<char>, i64)>, x: (Seq<char>, i64), k: int)
    requires
        0 <= k < g.len(),
        g[k].0 == x.0,
        forall|i: int, j: int| 0 <= i < j < g.len() ==> (#[trigger] g[i]).0 != (#[trigger] g[j]).0,
    ensures
        share_of(g, x) == x.1,
    decreases g.len(),
{
    let h = g.drop_last();
    assert forall|i: int, j: int| 0 <= i < j < h.len() implies (#[trigger] h[i]).0 != (
    #[trigger] h[j]).0 by {
        assert(h[i] == g[i] && h[j] == g[j]);
    }
    if k == g.len() - 1 {
        assert forall|i: int| 0 <= i < h.len() implies (#[trigger] h[i]).0 != x.0 by {
            assert(h[i] == g[i]);
        }
        lemma_share_absent(h, x);
    } else {
        assert(h[k] == g[k]);
        lemma_share_once(h, x, k);
    }
}

proof fn lemma_keyed_sum_total(p: Seq<(Seq<char>, i64)>, g: Seq<(Seq<char>, i64)>)
    requires
        forall|i: int, j: int| 0 <= i < j < g.len() ==> (#[trigger] g[i]).0 != (#[trigger] g[j]).0,
        forall|j: int|
            0 <= j < p.len() ==> exists|i: int| 0 <= i < g.len() && (#[trigger] g[i]).0 == (
            #[trigger] p[j]).0,
    ensures
        keyed_sum(p, g) == value_sum(p),
    decreases p.len(),
{
    if p.len() == 0 {
        assert(p =~= Seq::<(Seq<char>, i64)>::empty());
        lemma_keyed_sum_empty(g);
    } else {
        let q = p.drop_last();
        let x = p.last();
        assert forall|j: int| 0 <= j < q.len() implies exists|i: int|
            0 <= i < g.len() && (#[trigger] g[i]).0 == (#[trigger] q[j]).0 by {
            assert(q[j] == p[j]);
        }
        lemma_keyed_sum_total(q, g);
        assert(q.push(x) =~= p);
        lemma_keyed_sum_push(q, x, g);
        assert(p[p.len() - 1] == x);
        let k = choose|i: int| 0 <= i < g.len() && (#[trigger] g[i]).0 == (p[p.len() - 1]).0;
        lemma_share_once(g, x, k);
    }
}

proof fn lemma_value_sum_keyed(p: Seq<(Seq<char>, i64)>, g: Seq<(Seq<char>, i64)>)
    requires
        forall|i: int| 0 <= i < g.len() ==> (#[trigger] g[i]).1 == key_sum(p, g[i].0),
    ensures
        value_sum(g) == keyed_sum(p, g),
    decreases g.len(),
{
    if g.len() > 0 {
        let h = g.drop_last();
        assert forall|i: int| 0 <= i < h.len() implies (#[trigger] h[i]).1 == key_sum(p, h[i].0) by {
            assert(h[i] == g[i]);
        }
        lemma_value_sum_keyed(p, h);
        assert(g[g.len() - 1].1 == key_sum(p, g[g.len() - 1].0));
    }
}

/// Grouping keeps the total: the per-key totals of a grouping add up to the
/// sum of all values grouped.
pub proof fn law_grouping_keeps_total(g: Seq<(Seq<char>, i64)>, p: Seq<(Seq<char>, i64)>)
    requires
        is_grouping(g, p),
    ensures
        value_sum(g) == value_sum(p),
{
    assert forall|i: int, j: int| 0 <= i < j < g.len() implies (#[trigger] g[i]).0 != (
    #[trigger] g[j]).0 by {
        lemma_lex_irreflexive(g[i].0);
    }
    lemma_value_sum_keyed(p, g);
    lemma_keyed_sum_total(p, g);
}

proof fn lemma_secs_sum_pairs(rows: Seq<ExportRow>)
    ensures
        value_sum(project_pairs(rows)) == secs_sum(rows),
        value_sum(day_pairs(rows)) == secs_sum(rows),
    decreases rows.len(),
{
    if rows.len() > 0 {
        lemma_secs_sum_pairs(rows.drop_last());
        assert(project_pairs(rows).drop_last() =~= project_pairs(rows.drop_last()));
        assert(day_pairs(rows).drop_last() =~= day_pairs(rows.drop_last()));
    }
}

// --- CSV records ------------------------------------------------------------

pub open spec fn strs_view(v: Seq<String>) -> Seq<Seq<char>> {
    v.map_values(|s: String| s@)
}

pub open spec fn csv_header() -> Seq<Seq<char>> {
    seq![
        "date"@,
        "project"@,
        "description"@,
        "start"@,
        "end"@,
        "duration_secs"@,
        "duration_hms"@,
    ]
}

pub open spec fn csv_row(r: ExportRow) -> Seq<Seq<char>> {
    seq![
        r.date@,
        r.project@,
        r.description@,
        r.start@,
        r.end@,
        int_seq(r.duration_secs as int),
        r.duration_hms@,
    ]
}

pub open spec fn csv_total(label: Seq<char>, key: Seq<char>, secs: int) -> Seq<Seq<char>> {
    seq![label, key, ""@, ""@, ""@, int_seq(secs), hms_seq(secs)]
}

pub open spec fn rows_csv(rows: Seq<ExportRow>) -> Seq<Seq<Seq<char>>> {
    rows.map_values(|r: ExportRow| csv_row(r))
}

pub open spec fn totals_csv(label: Seq<char>, t: Seq<(String, i64)>) -> Seq<Seq<Seq<char>>> {
    t.map_values(|x: (String, i64)| csv_total(label, x.0@, x.1 as int))
}

pub open spec fn recs_view(out: Seq<Vec<String>>) -> Seq<Seq<Seq<char>>> {
    out.map_values(|x: Vec<String>| strs_view(x@))
}

/// The records of `report.csv`: the header, one per row, a `TOTAL project`
/// record per project, a `TOTAL day` record per day, and `TOTAL all`.
pub open spec fn csv_records_seq(rows: Seq<ExportRow>, t: Totals) -> Seq<Seq<Seq<char>>> {
    seq![csv_header()] + rows_csv(rows) + totals_csv("TOTAL project"@, t.by_project@) + totals_csv(
        "TOTAL day"@,
        t.by_day@,
    ) + seq![csv_total("TOTAL all"@, ""@, t.grand as int)]
}

fn str_owned(s: &str) -> (r: String)
    ensures
        r@ == s@,
{
    String::from_str(s)
}

fn int_string(n: i64) -> (r: String)
    ensures
        r@ == int_seq(n as int),
{
    let mut s = String::new();
    push_int(&mut s, n);
    s
}

fn total_record(label: &str, key: &String, secs: i64) -> (r: Vec<String>)
    ensures
        strs_view(r@) == csv_total(label@, key@, secs as int),
{
    let r = vec![
        str_owned(label),
        key.clone(),
        str_owned(""),
        str_owned(""),
        str_owned(""),
        int_string(secs),
        format_hms(secs),
    ];
    assert(strs_view(r@) =~= csv_total(label@, key@, secs as int));
    r
}

fn push_totals(out: &mut Vec<Vec<String>>, label: &str, t: &Vec<(String, i64)>)
    ensures
        recs_view(final(out)@) == recs_view(old(out)@) + totals_csv(label@, t@),
{
    let mut k: usize = 0;
    while k < t.len()
        invariant
            k <= t.len(),
            recs_view(out@) == recs_view(old(out)@) + totals_csv(label@, t@.take(k as int)),
        decreases t.len() - k,
    {
        let ghost before = out@;
        let rec = total_record(label, &t[k].0, t[k].1);
        out.push(rec);
        assert(recs_view(out@) =~= recs_view(before).push(strs_view(rec@)));
        assert(totals_csv(label@, t@.take(k + 1)) =~= totals_csv(label@, t@.take(k as int)).push(
            csv_total(label@, t@[k as int].0@, t@[k as int].1 as int),
        ));
        k = k + 1;
        assert(recs_view(out@) =~= recs_view(old(out)@) + totals_csv(label@, t@.take(k as int)));
    }
    assert(t@.take(k as int) =~= t@);
}

pub fn csv_records(rows: &[ExportRow], totals: &Totals) -> (r: Vec<Vec<String>>)
    ensures
        recs_view(r@) == csv_records_seq(rows@, *totals),
{
    let mut out: Vec<Vec<String>> = Vec::new();
    let header = vec![
        str_owned("date"),
        str_owned("project"),
        str_owned("description"),
        str_owned("start"),
        str_owned("end"),
        str_owned("duration_secs"),
        str_owned("duration_hms"),
    ];
    assert(strs_view(header@) =~= csv_header());
    out.push(header);
    assert(recs_view(out@) =~= seq![csv_header()]);
    let mut i: usize = 0;
    while i < rows.len()
        invariant
            i <= rows.len(),
            recs_view(out@) == seq![csv_header()] + rows_csv(rows@.take(i as int)),
        decreases rows.len() - i,
    {
        let r = &rows[i];
        let rec = vec![
            r.date.clone(),
            r.project.clone(),
            r.description.clone(),
            r.start.clone(),
            r.end.clone(),
            int_string(r.duration_secs),
            r.duration_hms.clone(),
        ];
        assert(strs_view(rec@) =~= csv_row(rows@[i as int]));
        let ghost before = out@;
        out.push(rec);
        assert(recs_view(out@) =~= recs_view(before).push(strs_view(rec@)));
        assert(rows_csv(rows@.take(i + 1)) =~= rows_csv(rows@.take(i as int)).push(
            csv_row(rows@[i as int]),
        ));
        i = i + 1;
        assert(recs_view(out@) =~= seq![csv_header()] + rows_csv(rows@.take(i as int)));
    }
    assert(rows@.take(i as int) =~= rows@);
    push_totals(&mut out, "TOTAL project", &totals.by_project);
    push_totals(&mut out, "TOTAL day", &totals.by_day);
    let empty = String::new();
    proof {
        reveal_strlit("");
    }
    assert(empty@ =~= ""@);
    let last = total_record("TOTAL all", &empty, totals.grand);
    let ghost before = out@;
    out.push(last);
    assert(recs_view(out@) =~= recs_view(before).push(strs_view(last@)));
    assert(recs_view(out@) =~= csv_records_seq(rows@, *totals));
    out
}

// --- JSON totals ------------------------------------------------------------

/// One `{ key, seconds, hms }` total of `report.json`.
#[derive(Debug, Clone)]
pub struct TotalEntry {
    pub key: String,
    pub seconds: i64,
    pub hms: String,
}

pub fn total_entries(v: &Vec<(String, i64)>) -> (r: Vec<TotalEntry>)
    ensures
        r.len() == v.len(),
        forall|i: int|
            0 <= i < r.len() ==> (#[trigger] r[i]).key@ == v[i].0@ && r[i].seconds == v[i].1
                && r[i].hms@ == hms_seq(v[i].1 as int),
{
    let mut out: Vec<TotalEntry> = Vec::new();
    let mut i: usize = 0;
    while i < v.len()
        invariant
            i <= v.len(),
            out.len() == i,
            forall|j: int|
                0 <= j < i ==> (#[trigger] out[j]).key@ == v[j].0@ && out[j].seconds == v[j].1
                    && out[j].hms@ == hms_seq(v[j].1 as int),
        decreases v.len() - i,
    {
        out.push(TotalEntry { key: v[i].0.clone(), seconds: v[i].1, hms: format_hms(v[i].1) });
        i = i + 1;
    }
    out
}

// --- Markdown ---------------------------------------------------------------

/// `s` with every `|` written as `\|`.
pub open spec fn escape_pipes(s: Seq<char>) -> Seq<char>
    decreases s.len(),
{
    if s.len() == 0 {
        seq![]
    } else {
        escape_pipes(s.drop_last()) + if s.last() == '|' {
            seq!['\\', '|']
        } else {
            seq![s.last()]
        }
    }
}

pub fn push_escaped_pipes(out: &mut String, s: &str)
    ensures
        final(out)@ == old(out)@ + escape_pipes(s@),
{
    let v = chars_of(s);
    let mut i: usize = 0;
    while i < v.len()
        invariant
            i <= v.len(),
            v@ == s@,
            out@ == old(out)@ + escape_pipes(v@.take(i as int)),
        decreases v.len() - i,
    {
        assert(v@.take(i + 1).drop_last() =~= v@.take(i as int));
        if v[i] == '|' {
            push_char(out, '\\');
            push_char(out, '|');
        } else {
            push_char(out, v[i]);
        }
        i = i + 1;
        assert(out@ =~= old(out)@ + escape_pipes(v@.take(i as int)));
    }
    assert(v@.take(i as int) =~= v@);
}

pub open spec fn md_row(r: ExportRow) -> Seq<char> {
    "| "@ + r.date@ + " | "@ + r.project@ + " | "@ + escape_pipes(r.description@) + " | "@
        + r.start@ + " | "@ + r.end@ + " | "@ + r.duration_hms@ + " |\n"@
}

pub open spec fn md_rows(rows: Seq<ExportRow>) -> Seq<char>
    decreases rows.len(),
{
    if rows.len() == 0 {
        seq![]
    } else {
        md_rows(rows.drop_last()) + md_row(rows.last())
    }
}

pub open spec fn md_totals(t: Seq<(Seq<char>, i64)>) -> Seq<char>
    decreases t.len(),
{
    if t.len() == 0 {
        seq![]
    } else {
        md_totals(t.drop_last()) + "- "@ + t.last().0 + ": "@ + hms_seq(t.last().1 as int) + "\n"@
    }
}

/// The text of `report.md`.
pub open spec fn markdown_seq(rows: Seq<ExportRow>, t: Totals) -> Seq<char> {
    "# Time report\n\n"@ + "| Date | Project | Description | Start | End | Duration |\n"@
        + "|---|---|---|---|---|---|\n"@ + md_rows(rows) + "\n## Totals by project\n\n"@
        + md_totals(kv_view(t.by_project@)) + "\n## Totals by day\n\n"@ + md_totals(
        kv_view(t.by_day@),
    ) + "\n**Total: "@ + hms_seq(t.grand as int) + "**\n"@
}

fn push_md_totals(out: &mut String, v: &Vec<(String, i64)>)
    ensures
        final(out)@ == old(out)@ + md_totals(kv_view(v@)),
{
    let mut i: usize = 0;
    while i < v.len()
        invariant
            i <= v.len(),
            out@ == old(out)@ + md_totals(kv_view(v@.take(i as int))),
        decreases v.len() - i,
    {
        assert(kv_view(v@.take(i + 1)).drop_last() =~= kv_view(v@.take(i as int)));
        push_str(out, "- ");
        push_str(out, v[i].0.as_str());
        push_str(out, ": ");
        let h = format_hms(v[i].1);
        push_str(out, h.as_str());
        push_str(out, "\n");
        i = i + 1;
        assert(out@ =~= old(out)@ + md_totals(kv_view(v@.take(i as int))));
    }
    assert(v@.take(i as int) =~= v@);
}

fn push_md_row(s: &mut String, r: &ExportRow)
    ensures
        final(s)@ == old(s)@ + md_row(*r),
{
    push_str(s, "| ");
    push_str(s, r.date.as_str());
    push_str(s, " | ");
    push_str(s, r.project.as_str());
    push_str(s, " | ");
    push_escaped_pipes(s, r.description.as_str());
    push_str(s, " | ");
    push_str(s, r.start.as_str());
    push_str(s, " | ");
    push_str(s, r.end.as_str());
    push_str(s, " | ");
    push_str(s, r.duration_hms.as_str());
    push_str(s, " |\n");
    assert(s@ =~= old(s)@ + md_row(*r));
}

pub fn markdown_report(rows: &[ExportRow], totals: &Totals) -> (s: String)
    ensures
        s@ == markdown_seq(rows@, *totals),
{
    let mut s = String::new();
    push_str(&mut s, "# Time report\n\n");
    push_str(&mut s, "| Date | Project | Description | Start | End | Duration |\n");
    push_str(&mut s, "|---|---|---|---|---|---|\n");
    let ghost head = s@;
    let mut i: usize = 0;
    while i < rows.len()
        invariant
            i <= rows.len(),
            s@ == head + md_rows(rows@.take(i as int)),
        decreases rows.len() - i,
    {
        assert(rows@.take(i + 1).drop_last() =~= rows@.take(i as int));
        push_md_row(&mut s, &rows[i]);
        i = i + 1;
        assert(s@ =~= head + md_rows(rows@.take(i as int)));
    }
    assert(rows@.take(i as int) =~= rows@);
    push_str(&mut s, "\n## Totals by project\n\n");
    push_md_totals(&mut s, &totals.by_project);
    push_str(&mut s, "\n## Totals by day\n\n");
    push_md_totals(&mut s, &totals.by_day);
    push_str(&mut s, "\n**Total: ");
    let g = format_hms(totals.grand);
    push_str(&mut s, g.as_str());
    push_str(&mut s, "**\n");
    assert(s@ =~= markdown_seq(rows@, *totals));
    s
}

/// How many report files an export writes: one per chosen format.
pub fn formats_count(csv: bool, json: bool, md: bool) -> (n: usize)
    ensures
        n == (if csv {
            1int
        } else {
            0
        }) + (if json {
            1int
        } else {
            0
        }) + (if md {
            1int
        } else {
            0
        }),
{
    let mut n: usize = 0;
    if csv {
        n = n + 1;
    }
    if json {
        n = n + 1;
    }
    if md {
        n = n + 1;
    }
    n
}

} // verus!
