use vstd::prelude::*;

use base64::Engine;

use crate::models::{copy_opt, opt_view, ClipboardItem, NewClipboardItem, Settings};
use crate::text::{
    char_vec, concat_chars, join, join_pieces, lowercase, lowercase_chars, non_alphanumeric_sep,
    non_empty, non_empty_pieces, pieces_view, split_chars, split_on, string_of, trim, trim_chars,
    Separator,
};

verus! {

// ---------------------------------------------------------------------------
// Search queries.
// ---------------------------------------------------------------------------

/// The terms of a search query: its pieces between characters that are not
/// alphanumeric, trimmed, the empty ones left out.
pub open spec fn fts_terms(query: Seq<char>) -> Seq<Seq<char>> {
    non_empty(split_on(query, non_alphanumeric_sep()).map_values(|p: Seq<char>| trim(p)))
}

/// A full-text term that matches words beginning with `term`, lowercased.
pub open spec fn prefix_term(term: Seq<char>) -> Seq<char> {
    lowercase(term).push('*')
}

/// The full-text query for `query`: each term as a lowercase prefix term, all of
/// them required.
pub open spec fn fts_query(query: Seq<char>) -> Seq<char> {
    join(fts_terms(query).map_values(|t: Seq<char>| prefix_term(t)), " AND "@)
}

fn trim_pieces(ps: &Vec<Vec<char>>) -> (r: Vec<Vec<char>>)
    ensures
        pieces_view(r@) == pieces_view(ps@).map_values(|p: Seq<char>| trim(p)),
{
    let mut r: Vec<Vec<char>> = Vec::new();
    let n = ps.len();
    for i in 0..n
        invariant
            n == ps@.len(),
            r@.len() == i,
            forall|k: int| 0 <= k < i ==> (#[trigger] r@[k])@ == trim(ps@[k]@),
    {
        r.push(trim_chars(&ps[i]));
    }
    assert(pieces_view(r@) =~= pieces_view(ps@).map_values(|p: Seq<char>| trim(p)));
    r
}

fn prefix_terms(ps: &Vec<Vec<char>>) -> (r: Vec<Vec<char>>)
    ensures
        pieces_view(r@) == pieces_view(ps@).map_values(|t: Seq<char>| prefix_term(t)),
{
    let mut r: Vec<Vec<char>> = Vec::new();
    let n = ps.len();
    for i in 0..n
        invariant
            n == ps@.len(),
            r@.len() == i,
            forall|k: int| 0 <= k < i ==> (#[trigger] r@[k])@ == prefix_term(ps@[k]@),
    {
        let mut t = lowercase_chars(&ps[i]);
        t.push('*');
        r.push(t);
    }
    assert(pieces_view(r@) =~= pieces_view(ps@).map_values(|t: Seq<char>| prefix_term(t)));
    r
}

/// The full-text query for `query`: its alphanumeric terms, lowercased, each as a
/// prefix term, joined by ` AND `.
pub fn build_fts_query(query: &str) -> (r: String)
    ensures
        r@ == fts_query(query@),
{
    let cs = char_vec(query);
    let pieces = split_chars(&cs, Separator::NonAlphanumeric);
    let trimmed = trim_pieces(&pieces);
    let terms = non_empty_pieces(trimmed);
    let prefixed = prefix_terms(&terms);
    let sep = char_vec(" AND ");
    let joined = join_pieces(&prefixed, &sep);
    string_of(&joined)
}

/// How the history is searched.
pub enum SearchPlan {
    /// The newest entries, unfiltered.
    Recent,
    /// Entries whose content, address or domains contain the pattern.
    Pattern { like: String },
    /// Entries that match the full-text query, or whose content, address or
    /// domains contain the pattern.
    FullText { fts: String, like: String },
}

/// The pattern that matches text containing `query`, lowercased.
pub open spec fn like_pattern(query: Seq<char>) -> Seq<char> {
    "%"@ + lowercase(query) + "%"@
}

/// How to search the history for `query`: the newest entries for a blank query;
/// otherwise a substring pattern over the trimmed query, together with the
/// full-text query where the query has alphanumeric terms.
pub fn search_plan(query: &str) -> (r: SearchPlan)
    ensures
        trim(query@).len() == 0 <==> r is Recent,
        r matches SearchPlan::Pattern { like } ==> like@ == like_pattern(trim(query@)) && fts_query(
            trim(query@),
        ).len() == 0,
        r matches SearchPlan::FullText { fts, like } ==> like@ == like_pattern(trim(query@)) && fts@
            == fts_query(trim(query@)) && fts@.len() > 0,
        trim(query@).len() > 0 && fts_query(trim(query@)).len() == 0 ==> r is Pattern,
{
    let q = trim_chars(&char_vec(query));
    if q.len() == 0 {
        return SearchPlan::Recent;
    }
    let qs = string_of(&q);
    let fts = build_fts_query(qs.as_str());
    let lower = lowercase_chars(&q);
    let pct = char_vec("%");
    let like = string_of(&concat_chars(&concat_chars(&pct, &lower), &pct));
    if fts.as_str().is_empty() {
        SearchPlan::Pattern { like }
    } else {
        SearchPlan::FullText { fts, like }
    }
}


// ---------------------------------------------------------------------------
// Retention and the limit on the number of entries.
// ---------------------------------------------------------------------------

/// Seconds in a day.
pub const SECONDS_PER_DAY: i64 = 86_400;

/// The most retention days whose span in seconds fits in an `i64`.
pub const MAX_RETENTION_DAYS: i64 = 106_751_991_167_300;

/// The creation time before which entries expire, for a retention of `days`
/// (at least one) counted back from `now`, saturating at the smallest `i64`.
pub open spec fn retention_cutoff_value(now: i64, days: i64) -> int {
    let span = (if days < 1 {
        1
    } else {
        days
    }) * SECONDS_PER_DAY;
    if now - span < i64::MIN {
        i64::MIN as int
    } else {
        now - span
    }
}

/// The creation time before which entries expire, for a retention of `days`.
pub fn retention_cutoff(now: i64, days: i64) -> (r: i64)
    requires
        days <= MAX_RETENTION_DAYS,
    ensures
        r == retention_cutoff_value(now, days),
{
    let d: i64 = if days < 1 {
        1
    } else {
        days
    };
    let span: i64 = d * SECONDS_PER_DAY;
    if now < i64::MIN + span {
        i64::MIN
    } else {
        now - span
    }
}

/// A retention of `days` days keeps exactly what was created in the last `days`
/// days: the cutoff lies `days` times 86 400 seconds before `now` (one day where
/// fewer than one is asked for, and the smallest `i64` where the difference does
/// not fit), so an entry expires exactly when it was created before that moment.
pub proof fn lemma_retention_cutoff_counts_whole_days(now: i64, days: i64, e: StoredEntry)
    ensures
        1 <= days && now - days * 86_400 >= i64::MIN ==> retention_cutoff_value(now, days) == now
            - days * 86_400,
        1 <= days && now - days * 86_400 < i64::MIN ==> retention_cutoff_value(now, days)
            == i64::MIN,
        days < 1 && now - 86_400 >= i64::MIN ==> retention_cutoff_value(now, days) == now - 86_400,
        days < 1 && now - 86_400 < i64::MIN ==> retention_cutoff_value(now, days) == i64::MIN,
        1 <= days ==> (is_expired(e, Some(days), now) <==> e.created_at < now - days * 86_400),
        days < 1 ==> (is_expired(e, Some(days), now) <==> e.created_at < now - 86_400),
{
}

/// The identity and creation time of a stored entry.
#[derive(Clone, Copy, Debug)]
pub struct StoredEntry {
    pub id: i64,
    pub created_at: i64,
}

/// Whether `a` comes before `b` in the history: it was created later, or at the
/// same time with a larger id.
pub open spec fn newer(a: StoredEntry, b: StoredEntry) -> bool {
    a.created_at > b.created_at || (a.created_at == b.created_at && a.id > b.id)
}

/// The entries newer than `e`.
pub open spec fn newer_than(e: StoredEntry) -> spec_fn(StoredEntry) -> bool {
    |x: StoredEntry| newer(x, e)
}

/// Whether `e` has outlived a retention of `retention_days`, counted from `now`.
pub open spec fn is_expired(e: StoredEntry, retention_days: Option<i64>, now: i64) -> bool {
    match retention_days {
        Some(days) => e.created_at < retention_cutoff_value(now, days),
        None => false,
    }
}

/// The entries that have not expired.
pub open spec fn unexpired_pred(retention_days: Option<i64>, now: i64) -> spec_fn(StoredEntry) -> bool {
    |e: StoredEntry| !is_expired(e, retention_days, now)
}

/// The entries of `es` that have not expired.
pub open spec fn unexpired(es: Seq<StoredEntry>, retention_days: Option<i64>, now: i64) -> Seq<
    StoredEntry,
> {
    es.filter(unexpired_pred(retention_days, now))
}

/// The number of entries of `es` newer than `e`.
pub open spec fn rank(es: Seq<StoredEntry>, e: StoredEntry) -> nat {
    es.filter(newer_than(e)).len()
}

/// Whether cleanup keeps `e` of the history `es`: it has not expired and, where
/// the history is limited to `max_items` entries, fewer than `max_items`
/// unexpired entries are newer.
pub open spec fn is_kept(
    es: Seq<StoredEntry>,
    e: StoredEntry,
    retention_days: Option<i64>,
    max_items: i64,
    now: i64,
) -> bool {
    !is_expired(e, retention_days, now) && (max_items <= 0 || rank(
        unexpired(es, retention_days, now),
        e,
    ) < max_items)
}

/// The entries that cleanup keeps.
pub open spec fn kept_pred(
    es: Seq<StoredEntry>,
    retention_days: Option<i64>,
    max_items: i64,
    now: i64,
) -> spec_fn(StoredEntry) -> bool {
    |e: StoredEntry| is_kept(es, e, retention_days, max_items, now)
}

/// The entries that cleanup deletes.
pub open spec fn deleted_pred(
    es: Seq<StoredEntry>,
    retention_days: Option<i64>,
    max_items: i64,
    now: i64,
) -> spec_fn(StoredEntry) -> bool {
    |e: StoredEntry| !is_kept(es, e, retention_days, max_items, now)
}

/// The ids of the entries of `es` that cleanup deletes, in the order of `es`.
pub open spec fn ids_to_delete(
    es: Seq<StoredEntry>,
    retention_days: Option<i64>,
    max_items: i64,
    now: i64,
) -> Seq<i64> {
    es.filter(deleted_pred(es, retention_days, max_items, now)).map_values(|e: StoredEntry| e.id)
}

/// Whether no two entries of `es` share an id.
pub open spec fn distinct_ids(es: Seq<StoredEntry>) -> bool {
    forall|i: int, j: int| 0 <= i < es.len() && 0 <= j < es.len() && i != j ==> es[i].id != es[j].id
}

/// The ids of the entries of `history` that cleanup deletes at time `now` under
/// `settings`: those older than the retention period, then, where the number of
/// entries is limited, those beyond the newest `max_items` of the rest.
pub fn cleanup_ids(history: &Vec<StoredEntry>, settings: &Settings, now: i64) -> (r: Vec<i64>)
    requires
        settings.retention_days matches Some(d) ==> d <= MAX_RETENTION_DAYS,
    ensures
        r@ == ids_to_delete(history@, settings.retention_days, settings.max_items, now),
{
    let ghost es = history@;
    let ghost rd = settings.retention_days;
    let max_items = settings.max_items;
    let cutoff: Option<i64> = match settings.retention_days {
        Some(days) => Some(retention_cutoff(now, days)),
        None => None,
    };
    let n = history.len();
    let mut survivors: Vec<StoredEntry> = Vec::new();
    assert(es.take(0) =~= Seq::<StoredEntry>::empty());
    proof {
        reveal(Seq::filter);
    }
    for i in 0..n
        invariant
            n == es.len(),
            es == history@,
            rd == settings.retention_days,
            cutoff matches Some(c) ==> rd matches Some(d) && c == retention_cutoff_value(now, d),
            cutoff is None ==> rd is None,
            survivors@ == es.take(i as int).filter(unexpired_pred(rd, now)),
    {
        let e = history[i];
        proof {
            assert(es.take(i + 1) == es.take(i as int).push(e));
            es.take(i as int).lemma_filter_push(e, unexpired_pred(rd, now));
        }
        let expired = match cutoff {
            Some(c) => e.created_at < c,
            None => false,
        };
        if !expired {
            survivors.push(e);
        }
    }
    assert(es.take(n as int) == es);
    let ghost surv = survivors@;
    let mut ids: Vec<i64> = Vec::new();
    assert(es.take(0).filter(deleted_pred(es, rd, max_items, now)).map_values(|e: StoredEntry| e.id)
        =~= Seq::<i64>::empty());
    for i in 0..n
        invariant
            n == es.len(),
            es == history@,
            rd == settings.retention_days,
            max_items == settings.max_items,
            cutoff matches Some(c) ==> rd matches Some(d) && c == retention_cutoff_value(now, d),
            cutoff is None ==> rd is None,
            surv == survivors@,
            surv == unexpired(es, rd, now),
            ids@ == es.take(i as int).filter(deleted_pred(es, rd, max_items, now)).map_values(
                |e: StoredEntry| e.id,
            ),
    {
        let e = history[i];
        let expired = match cutoff {
            Some(c) => e.created_at < c,
            None => false,
        };
        let mut delete = expired;
        if !expired && max_items > 0 {
            let m = survivors.len();
            let mut count: usize = 0;
            assert(surv.take(0).filter(newer_than(e)) =~= Seq::<StoredEntry>::empty());
            for j in 0..m
                invariant
                    m == surv.len(),
                    surv == survivors@,
                    count == surv.take(j as int).filter(newer_than(e)).len(),
                    count <= j,
            {
                let x = survivors[j];
                proof {
                    assert(surv.take(j + 1) == surv.take(j as int).push(x));
                    surv.take(j as int).lemma_filter_push(x, newer_than(e));
                }
                if x.created_at > e.created_at || (x.created_at == e.created_at && x.id > e.id) {
                    count = count + 1;
                }
            }
            assert(surv.take(m as int) == surv);
            delete = (count as u64) >= (max_items as u64);
        }
        proof {
            assert(delete == deleted_pred(es, rd, max_items, now)(e));
            assert(es.take(i + 1) == es.take(i as int).push(e));
            es.take(i as int).lemma_filter_push(e, deleted_pred(es, rd, max_items, now));
            let f = es.take(i as int).filter(deleted_pred(es, rd, max_items, now));
            assert(f.push(e).map_values(|e: StoredEntry| e.id) =~= f.map_values(|e: StoredEntry| e.id).push(
                e.id,
            ));
        }
        if delete {
            ids.push(e.id);
        }
    }
    assert(es.take(n as int) == es);
    ids
}


// ---------------------------------------------------------------------------
// What cleanup guarantees.
// ---------------------------------------------------------------------------

proof fn lemma_newer_total(a: StoredEntry, b: StoredEntry)
    requires
        a != b,
    ensures
        newer(a, b) || newer(b, a),
{
}

proof fn lemma_filter_len_mono(s: Seq<StoredEntry>, p: spec_fn(StoredEntry) -> bool, q: spec_fn(StoredEntry) -> bool)
    requires
        forall|x: StoredEntry| #[trigger] p(x) ==> q(x),
    ensures
        s.filter(p).len() <= s.filter(q).len(),
    decreases s.len(),
{
    reveal(Seq::filter);
    if s.len() > 0 {
        lemma_filter_len_mono(s.drop_last(), p, q);
    }
}

proof fn lemma_filter_len_strict(
    s: Seq<StoredEntry>,
    p: spec_fn(StoredEntry) -> bool,
    q: spec_fn(StoredEntry) -> bool,
    w: StoredEntry,
)
    requires
        forall|x: StoredEntry| #[trigger] p(x) ==> q(x),
        s.contains(w),
        q(w),
        !p(w),
    ensures
        s.filter(p).len() < s.filter(q).len(),
    decreases s.len(),
{
    reveal(Seq::filter);
    let t = s.drop_last();
    if s.last() == w {
        lemma_filter_len_mono(t, p, q);
    } else {
        let k = choose|k: int| 0 <= k < s.len() && s[k] == w;
        assert(k < s.len() - 1);
        assert(t[k] == w);
        lemma_filter_len_strict(t, p, q, w);
    }
}

proof fn lemma_filter_twice_len(s: Seq<StoredEntry>, p: spec_fn(StoredEntry) -> bool, q: spec_fn(StoredEntry) -> bool)
    ensures
        s.filter(p).filter(q).len() <= s.filter(q).len(),
    decreases s.len(),
{
    reveal(Seq::filter);
    if s.len() > 0 {
        let t = s.drop_last();
        lemma_filter_twice_len(t, p, q);
        assert(s == t.push(s.last()));
        t.lemma_filter_push(s.last(), p);
        t.filter(p).lemma_filter_push(s.last(), q);
    }
}

proof fn lemma_filter_twice_eq(
    s: Seq<StoredEntry>,
    p: spec_fn(StoredEntry) -> bool,
    q: spec_fn(StoredEntry) -> bool,
    pq: spec_fn(StoredEntry) -> bool,
)
    requires
        forall|x: StoredEntry| #[trigger] pq(x) == (p(x) && q(x)),
    ensures
        s.filter(p).filter(q) == s.filter(pq),
    decreases s.len(),
{
    reveal(Seq::filter);
    if s.len() > 0 {
        let t = s.drop_last();
        lemma_filter_twice_eq(t, p, q, pq);
        assert(s == t.push(s.last()));
        t.lemma_filter_push(s.last(), p);
        t.filter(p).lemma_filter_push(s.last(), q);
        t.lemma_filter_push(s.last(), pq);
    }
}

proof fn lemma_filter_no_duplicates(s: Seq<StoredEntry>, p: spec_fn(StoredEntry) -> bool)
    requires
        s.no_duplicates(),
    ensures
        s.filter(p).no_duplicates(),
    decreases s.len(),
{
    reveal(Seq::filter);
    if s.len() > 0 {
        let t = s.drop_last();
        let l = s.last();
        assert(t.no_duplicates());
        lemma_filter_no_duplicates(t, p);
        if t.filter(p).contains(l) {
            t.lemma_filter_contains_rev(p, l);
            let k = choose|k: int| 0 <= k < t.len() && t[k] == l;
            assert(s[k] == s[s.len() - 1]);
        }
        assert(s == t.push(l));
        t.lemma_filter_push(l, p);
    }
}

/// The index of the oldest entry of `k`: every other entry is newer.
proof fn lemma_oldest(k: Seq<StoredEntry>) -> (j: int)
    requires
        k.len() > 0,
        k.no_duplicates(),
    ensures
        0 <= j < k.len(),
        forall|i: int| 0 <= i < k.len() && i != j ==> newer(#[trigger] k[i], k[j]),
    decreases k.len(),
{
    if k.len() == 1 {
        0
    } else {
        let t = k.drop_last();
        let x = k.last();
        assert(t.no_duplicates());
        let jt = lemma_oldest(t);
        assert(k[jt] == t[jt]);
        assert(x != t[jt]);
        lemma_newer_total(x, t[jt]);
        if newer(x, t[jt]) {
            assert forall|i: int| 0 <= i < k.len() && i != jt implies newer(#[trigger] k[i], k[jt]) by {
                if i < k.len() - 1 {
                    assert(k[i] == t[i]);
                }
            }
            jt
        } else {
            let j = k.len() - 1;
            assert forall|i: int| 0 <= i < k.len() && i != j implies newer(#[trigger] k[i], k[j]) by {
                assert(k[i] == t[i]);
                if i != jt {
                    assert(newer(t[i], t[jt]));
                }
            }
            j
        }
    }
}

proof fn lemma_filter_len_all_but_one(s: Seq<StoredEntry>, q: spec_fn(StoredEntry) -> bool, j: int)
    requires
        0 <= j < s.len(),
        forall|i: int| 0 <= i < s.len() && i != j ==> q(#[trigger] s[i]),
    ensures
        s.filter(q).len() >= s.len() - 1,
    decreases s.len(),
{
    reveal(Seq::filter);
    let t = s.drop_last();
    if j == s.len() - 1 {
        assert forall|i: int| 0 <= i < t.len() implies q(#[trigger] t[i]) by {
            assert(t[i] == s[i]);
        }
        lemma_filter_len_all(t, q);
    } else {
        assert forall|i: int| 0 <= i < t.len() && i != j implies q(#[trigger] t[i]) by {
            assert(t[i] == s[i]);
        }
        lemma_filter_len_all_but_one(t, q, j);
    }
}

proof fn lemma_filter_len_all(s: Seq<StoredEntry>, q: spec_fn(StoredEntry) -> bool)
    requires
        forall|i: int| 0 <= i < s.len() ==> q(#[trigger] s[i]),
    ensures
        s.filter(q).len() == s.len(),
    decreases s.len(),
{
    reveal(Seq::filter);
    if s.len() > 0 {
        let t = s.drop_last();
        assert forall|i: int| 0 <= i < t.len() implies q(#[trigger] t[i]) by {
            assert(t[i] == s[i]);
        }
        lemma_filter_len_all(t, q);
    }
}

/// The entries that cleanup keeps of the history `es`.
pub open spec fn kept_entries(
    es: Seq<StoredEntry>,
    retention_days: Option<i64>,
    max_items: i64,
    now: i64,
) -> Seq<StoredEntry> {
    es.filter(kept_pred(es, retention_days, max_items, now))
}

/// Cleanup never keeps more entries than the history is limited to: where
/// `max_items` is positive and the ids of the history are distinct, at most
/// `max_items` entries remain.
pub proof fn lemma_cleanup_respects_limit(
    es: Seq<StoredEntry>,
    retention_days: Option<i64>,
    max_items: i64,
    now: i64,
)
    requires
        max_items > 0,
        distinct_ids(es),
    ensures
        kept_entries(es, retention_days, max_items, now).len() <= max_items,
{
    let surv = unexpired(es, retention_days, now);
    let under = |e: StoredEntry| rank(surv, e) < max_items;
    let kept = kept_entries(es, retention_days, max_items, now);
    lemma_filter_twice_eq(es, unexpired_pred(retention_days, now), under, kept_pred(es, retention_days, max_items, now));
    assert(surv.filter(under) == kept);
    if kept.len() > max_items {
        assert(es.no_duplicates());
        lemma_filter_no_duplicates(es, unexpired_pred(retention_days, now));
        lemma_filter_no_duplicates(surv, under);
        let j = lemma_oldest(kept);
        let o = kept[j];
        surv.lemma_filter_pred(under, j);
        assert(rank(surv, o) < max_items);
        assert forall|i: int| 0 <= i < kept.len() && i != j implies newer_than(o)(#[trigger] kept[i]) by {}
        lemma_filter_len_all_but_one(kept, newer_than(o), j);
        lemma_filter_twice_len(surv, under, newer_than(o));
        assert(false);
    }
}

proof fn lemma_filter_keeps_all(s: Seq<StoredEntry>, p: spec_fn(StoredEntry) -> bool)
    requires
        forall|i: int| 0 <= i < s.len() ==> p(#[trigger] s[i]),
    ensures
        s.filter(p) == s,
    decreases s.len(),
{
    reveal(Seq::filter);
    if s.len() > 0 {
        let t = s.drop_last();
        assert forall|i: int| 0 <= i < t.len() implies p(#[trigger] t[i]) by {
            assert(t[i] == s[i]);
        }
        lemma_filter_keeps_all(t, p);
        assert(t.push(s.last()) == s);
    }
}

/// Cleanup is idempotent: cleaning up the entries that a cleanup kept, at the
/// same time and under the same settings, deletes nothing more.
pub proof fn lemma_cleanup_idempotent(
    es: Seq<StoredEntry>,
    retention_days: Option<i64>,
    max_items: i64,
    now: i64,
)
    ensures
        ids_to_delete(kept_entries(es, retention_days, max_items, now), retention_days, max_items, now).len()
            == 0,
{
    let surv = unexpired(es, retention_days, now);
    let unlimited_or_under = |e: StoredEntry| max_items <= 0 || rank(surv, e) < max_items;
    let kept = kept_entries(es, retention_days, max_items, now);
    lemma_filter_twice_eq(
        es,
        unexpired_pred(retention_days, now),
        unlimited_or_under,
        kept_pred(es, retention_days, max_items, now),
    );
    assert forall|i: int| 0 <= i < kept.len() implies unexpired_pred(retention_days, now)(
        #[trigger] kept[i],
    ) by {
        es.lemma_filter_pred(kept_pred(es, retention_days, max_items, now), i);
    }
    lemma_filter_keeps_all(kept, unexpired_pred(retention_days, now));
    assert forall|i: int| 0 <= i < kept.len() implies !deleted_pred(kept, retention_days, max_items, now)(
        #[trigger] kept[i],
    ) by {
        let x = kept[i];
        es.lemma_filter_pred(kept_pred(es, retention_days, max_items, now), i);
        lemma_filter_twice_len(surv, unlimited_or_under, newer_than(x));
    }
    let del = deleted_pred(kept, retention_days, max_items, now);
    assert(kept.all(|x: StoredEntry| !del(x)));
    kept.lemma_all_neg_filter_empty(del);
}

/// Cleanup keeps only entries within the retention period.
pub proof fn lemma_cleanup_drops_expired(
    es: Seq<StoredEntry>,
    e: StoredEntry,
    retention_days: Option<i64>,
    max_items: i64,
    now: i64,
)
    requires
        is_kept(es, e, retention_days, max_items, now),
    ensures
        retention_days matches Some(days) ==> e.created_at >= retention_cutoff_value(now, days),
{
}

/// Cleanup keeps the newest entries: an entry that is kept is newer than every
/// unexpired entry of the history that is deleted.
pub proof fn lemma_cleanup_keeps_newest(
    es: Seq<StoredEntry>,
    kept: StoredEntry,
    dropped: StoredEntry,
    retention_days: Option<i64>,
    max_items: i64,
    now: i64,
)
    requires
        es.contains(dropped),
        is_kept(es, kept, retention_days, max_items, now),
        !is_expired(dropped, retention_days, now),
        !is_kept(es, dropped, retention_days, max_items, now),
    ensures
        newer(kept, dropped),
{
    let surv = unexpired(es, retention_days, now);
    let k = choose|k: int| 0 <= k < es.len() && es[k] == dropped;
    es.lemma_filter_contains(unexpired_pred(retention_days, now), k);
    if !newer(kept, dropped) {
        if kept == dropped {
            assert(false);
        } else {
            lemma_newer_total(kept, dropped);
            assert forall|x: StoredEntry| #[trigger] newer_than(dropped)(x) implies newer_than(kept)(x) by {}
            lemma_filter_len_strict(surv, newer_than(dropped), newer_than(kept), dropped);
            assert(false);
        }
    }
}


// ---------------------------------------------------------------------------
// Saving entries.
// ---------------------------------------------------------------------------

/// The columns of a history entry that saving sets.
pub struct ItemRecord {
    pub kind: String,
    pub content: String,
    pub url: Option<String>,
    pub domain: Option<String>,
    pub title: Option<String>,
    pub source_app: Option<String>,
    pub source_url: Option<String>,
    pub source_title: Option<String>,
    pub source_domain: Option<String>,
    pub hash: String,
    pub blob: Option<Vec<u8>>,
    pub thumb: Option<Vec<u8>>,
}

/// What saving a new clipboard entry does to the history.
pub enum SavePlan {
    /// The entry repeats the newest one: only its last copy time is updated.
    Touch { hash: String },
    /// The entry is inserted, or replaces the entry with the same hash, as the
    /// newest entry.
    Upsert(ItemRecord),
}

/// `a`, or `b` where `a` is `None`.
pub open spec fn first_of(a: Option<String>, b: Option<String>) -> Option<String> {
    match a {
        Some(x) => Some(x),
        None => b,
    }
}

/// How to save `item`, given the hash of the newest entry of the history
/// (`latest_hash`, `None` where the history is empty).  The source title is the
/// page title, or the window title where there is none.
pub fn plan_save(latest_hash: Option<String>, item: NewClipboardItem) -> (r: SavePlan)
    ensures
        opt_view(latest_hash) == Some(item.hash@) <==> r is Touch,
        r matches SavePlan::Touch { hash } ==> hash@ == item.hash@,
        r matches SavePlan::Upsert(rec) ==> {
            &&& rec.kind == item.kind
            &&& rec.content == item.content
            &&& rec.url == item.url
            &&& rec.domain == item.domain
            &&& rec.title == item.title
            &&& rec.source_app == item.source.app_name
            &&& rec.source_url == item.source.page_url
            &&& rec.source_title == first_of(item.source.page_title, item.source.window_title)
            &&& rec.source_domain == item.source.domain
            &&& rec.hash == item.hash
            &&& rec.blob == item.blob
            &&& rec.thumb == item.thumb
        },
{
    let repeat = match &latest_hash {
        Some(h) => crate::text::str_eq(h.as_str(), item.hash.as_str()),
        None => false,
    };
    if repeat {
        return SavePlan::Touch { hash: item.hash };
    }
    let source = item.source;
    let source_title = match source.page_title {
        Some(t) => Some(t),
        None => source.window_title,
    };
    SavePlan::Upsert(
        ItemRecord {
            kind: item.kind,
            content: item.content,
            url: item.url,
            domain: item.domain,
            title: item.title,
            source_app: source.app_name,
            source_url: source.page_url,
            source_title,
            source_domain: source.domain,
            hash: item.hash,
            blob: item.blob,
            thumb: item.thumb,
        },
    )
}

/// The columns of a stored entry that its search text is made of.
pub struct SearchColumns {
    pub content: String,
    pub url: Option<String>,
    pub domain: Option<String>,
    pub title: Option<String>,
    pub source_url: Option<String>,
    pub source_title: Option<String>,
    pub source_domain: Option<String>,
}

/// The characters of an optional column, empty where it is missing.
pub open spec fn or_empty(o: Option<String>) -> Seq<char> {
    match o {
        Some(s) => s@,
        None => Seq::<char>::empty(),
    }
}

/// The text that the full-text index holds for an entry: its content, address,
/// domain, title, source address, source title and source domain, separated by
/// spaces, missing ones empty.
pub open spec fn search_text_of(c: &SearchColumns) -> Seq<char> {
    join(
        seq![
            c.content@,
            or_empty(c.url),
            or_empty(c.domain),
            or_empty(c.title),
            or_empty(c.source_url),
            or_empty(c.source_title),
            or_empty(c.source_domain),
        ],
        seq![' '],
    )
}

fn push_column(out: &mut Vec<char>, o: &Option<String>)
    ensures
        final(out)@ == old(out)@.push(' ') + or_empty(*o),
{
    out.push(' ');
    match o {
        Some(s) => {
            let joined = concat_chars(out, &char_vec(s.as_str()));
            *out = joined;
        },
        None => {
            assert(out@ + Seq::<char>::empty() == out@);
        },
    }
}

/// The text that the full-text index holds for an entry with `columns`.
pub fn search_text(columns: &SearchColumns) -> (r: String)
    ensures
        r@ == search_text_of(columns),
{
    let mut out = char_vec(columns.content.as_str());
    push_column(&mut out, &columns.url);
    push_column(&mut out, &columns.domain);
    push_column(&mut out, &columns.title);
    push_column(&mut out, &columns.source_url);
    push_column(&mut out, &columns.source_title);
    push_column(&mut out, &columns.source_domain);
    proof {
        let parts = seq![
            columns.content@,
            or_empty(columns.url),
            or_empty(columns.domain),
            or_empty(columns.title),
            or_empty(columns.source_url),
            or_empty(columns.source_title),
            or_empty(columns.source_domain),
        ];
        assert(parts.take(1) =~= seq![columns.content@]);
        reveal_with_fuel(join, 8);
        assert(parts.drop_last() =~= parts.take(6));
        assert(parts.take(6).drop_last() =~= parts.take(5));
        assert(parts.take(5).drop_last() =~= parts.take(4));
        assert(parts.take(4).drop_last() =~= parts.take(3));
        assert(parts.take(3).drop_last() =~= parts.take(2));
        assert(parts.take(2).drop_last() =~= parts.take(1));
    }
    string_of(&out)
}

// ---------------------------------------------------------------------------
// Reading entries.
// ---------------------------------------------------------------------------

/// The character of the standard base64 alphabet for the six-bit value `v`:
/// `A`-`Z`, `a`-`z`, `0`-`9`, `+`, `/`.
pub open spec fn base64_digit(v: int) -> char {
    if v < 26 {
        (65 + v) as char
    } else if v < 52 {
        (97 + v - 26) as char
    } else if v < 62 {
        (48 + v - 52) as char
    } else if v == 62 {
        '+'
    } else {
        '/'
    }
}

/// The standard base64 encoding of `b` (RFC 4648): each three bytes become four
/// characters of six bits each, and a last group of one or two bytes is padded
/// with `=`.
pub open spec fn base64_standard(b: Seq<u8>) -> Seq<char>
    decreases b.len(),
{
    if b.len() == 0 {
        Seq::<char>::empty()
    } else {
        let x = b[0] as int;
        let y = if b.len() > 1 {
            b[1] as int
        } else {
            0
        };
        let z = if b.len() > 2 {
            b[2] as int
        } else {
            0
        };
        let first = base64_digit(x / 4);
        let second = base64_digit((x % 4) * 16 + y / 16);
        let third = if b.len() > 1 {
            base64_digit((y % 16) * 4 + z / 64)
        } else {
            '='
        };
        let fourth = if b.len() > 2 {
            base64_digit(z % 64)
        } else {
            '='
        };
        seq![first, second, third, fourth] + if b.len() > 3 {
            base64_standard(b.skip(3))
        } else {
            Seq::<char>::empty()
        }
    }
}

/// `base64::engine::general_purpose::STANDARD.encode`: the base64 encoding of
/// `bytes` in the standard alphabet with padding, as `base64_standard` states it.
#[verifier::external_body]
fn base64_encode(bytes: &[u8]) -> (r: String)
    ensures
        r@ == base64_standard(bytes@),
{
    base64::engine::general_purpose::STANDARD.encode(bytes)
}

/// The data URL under which a PNG thumbnail is shown.
pub open spec fn png_data_url(png: Seq<u8>) -> Seq<char> {
    "data:image/png;base64,"@ + base64_standard(png)
}

/// The data URL of a stored thumbnail, where there is one.
pub fn thumb_data_url(thumb: &Option<Vec<u8>>) -> (r: Option<String>)
    ensures
        opt_view(r) == match thumb {
            Some(png) => Some(png_data_url(png@)),
            None => None,
        },
{
    match thumb {
        Some(png) => {
            let mut url = String::from_str("data:image/png;base64,");
            url.append(base64_encode(png.as_slice()).as_str());
            Some(url)
        },
        None => None,
    }
}

/// A stored entry as read from the history.
pub struct StoredRow {
    pub id: i64,
    pub kind: String,
    pub content: String,
    pub url: Option<String>,
    pub domain: Option<String>,
    pub title: Option<String>,
    pub source_app: Option<String>,
    pub source_url: Option<String>,
    pub source_title: Option<String>,
    pub source_domain: Option<String>,
    pub created_at: i64,
    pub thumb: Option<Vec<u8>>,
}

/// The entry that the history window shows for `row`: its columns, with the
/// thumbnail as a data URL.
pub fn clipboard_item(row: StoredRow) -> (r: ClipboardItem)
    ensures
        r.id == row.id,
        r.kind == row.kind,
        r.content == row.content,
        r.url == row.url,
        r.domain == row.domain,
        r.title == row.title,
        r.source_app == row.source_app,
        r.source_url == row.source_url,
        r.source_title == row.source_title,
        r.source_domain == row.source_domain,
        r.created_at == row.created_at,
        opt_view(r.thumb_data_url) == match row.thumb {
            Some(png) => Some(png_data_url(png@)),
            None => None,
        },
{
    let thumb_data_url = thumb_data_url(&row.thumb);
    ClipboardItem {
        id: row.id,
        kind: row.kind,
        content: row.content,
        url: row.url,
        domain: row.domain,
        title: row.title,
        source_app: row.source_app,
        source_url: row.source_url,
        source_title: row.source_title,
        source_domain: row.source_domain,
        created_at: row.created_at,
        thumb_data_url,
    }
}

/// The message given for an entry without a source address.
pub open spec fn no_source_url_message() -> Seq<char> {
    "Ten wpis nie ma zapisanego linku źródłowego"@
}

/// The source address of an entry, given what the history holds for it
/// (`None` where the entry could not be read; `Some(None)` where it has no
/// source address).  A blank address counts as none.
pub fn source_url_result(stored: Option<Option<String>>) -> (r: Result<String, String>)
    ensures
        r is Ok <==> (stored matches Some(Some(s)) && s@.len() > 0),
        r matches Ok(u) ==> stored == Some(Some(u)),
        r is Err ==> (r matches Err(m) && m@ == no_source_url_message()),
{
    match stored {
        Some(Some(url)) => {
            if url.as_str().is_empty() {
                Err(String::from_str("Ten wpis nie ma zapisanego linku źródłowego"))
            } else {
                Ok(url)
            }
        },
        _ => Err(String::from_str("Ten wpis nie ma zapisanego linku źródłowego")),
    }
}

// ---------------------------------------------------------------------------
// The clock.
// ---------------------------------------------------------------------------

/// `SystemTime::elapsed` of `UNIX_EPOCH`: the whole seconds since the Unix epoch,
/// or `None` where the system clock is set before it.  Nothing is stated of the
/// value, which is the time.
#[verifier::external_body]
fn seconds_since_epoch() -> (r: Option<u64>) {
    std::time::UNIX_EPOCH.elapsed().ok().map(|elapsed| elapsed.as_secs())
}

/// The Unix time, given the seconds elapsed since the epoch (`None` where the
/// clock is set before it): the seconds as an `i64` (wrapping, as a cast does),
/// or zero.
pub fn unix_time(elapsed: Option<u64>) -> (r: i64)
    ensures
        r == match elapsed {
            Some(secs) => secs as i64,
            None => 0i64,
        },
{
    match elapsed {
        Some(secs) => #[verifier::truncate] (secs as i64),
        None => 0,
    }
}

/// The current Unix time in seconds, or zero where the clock is set before the
/// epoch.
pub fn unix_now() -> (r: i64) {
    unix_time(seconds_since_epoch())
}

} // verus!
