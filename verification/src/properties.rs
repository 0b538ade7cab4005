use vstd::prelude::*;

use crate::models::{ContentType, RecordView};
use crate::clock::timestamp_of;
use crate::text::{contains_ci, trim};
use crate::transfer::transfer_items;
use crate::store::{
    after_add, at_least_zero, dedup_keeper, favorite_pin_map, import_key_map, import_run,
    import_start, import_step, without_image, favorite_matches, ImportKey, ImportState, ids_ordered_within, insert_listed, is_dedup_target,
    keep_where, keeper, newer_count, is_over_limit, lemma_keep_where_ordered, lemma_keep_where_subset, lemma_keeper_valid,
    lemma_keep_where_keeps, lemma_retain_ordered, listed_before, merge_duplicates, retention_keeps_favorites, outside_filter, listing, listing_order, merge_map, merged_keeper,
    new_record, not_expired, not_other_copy, page, ranks_above, retain, same_entry,
    search_listing, select_matching, select_records, store_invariant, text_lt, within_limit,
    StoreView,
};

verus! {

broadcast use vstd::seq_lib::group_seq_properties;

// ---------------------------------------------------------------------------
// The listing order is a strict order
// ---------------------------------------------------------------------------

proof fn lemma_text_lt_irreflexive(a: Seq<char>)
    ensures
        !text_lt(a, a),
    decreases a.len(),
{
    if a.len() > 0 {
        lemma_text_lt_irreflexive(a.drop_first());
    }
}

proof fn lemma_text_lt_transitive(a: Seq<char>, b: Seq<char>, c: Seq<char>)
    requires
        text_lt(a, b),
        text_lt(b, c),
    ensures
        text_lt(a, c),
    decreases a.len(),
{
    if a.len() > 0 && b.len() > 0 && c.len() > 0 && a[0] == b[0] && b[0] == c[0] {
        lemma_text_lt_transitive(a.drop_first(), b.drop_first(), c.drop_first());
    }
}

proof fn lemma_listed_before_irreflexive(a: RecordView)
    ensures
        !listed_before(a, a),
{
    lemma_text_lt_irreflexive(a.created_at);
}

proof fn lemma_listed_before_transitive(a: RecordView, b: RecordView, c: RecordView)
    requires
        listed_before(a, b),
        listed_before(b, c),
    ensures
        listed_before(a, c),
{
    if a.is_pinned == b.is_pinned && b.is_pinned == c.is_pinned {
        assert(ranks_above(a, b) && ranks_above(b, c));
        if text_lt(b.created_at, a.created_at) && text_lt(c.created_at, b.created_at) {
            lemma_text_lt_transitive(c.created_at, b.created_at, a.created_at);
        }
    }
}

/// No record of `s` is listed before one that precedes it.
pub open spec fn in_listing_order(s: Seq<RecordView>) -> bool {
    forall|i: int, j: int| 0 <= i < j < s.len() ==> !listed_before(#[trigger] s[j], #[trigger] s[i])
}

proof fn lemma_insert_listed_elements(s: Seq<RecordView>, x: RecordView)
    ensures
        insert_listed(s, x).len() == s.len() + 1,
        forall|k: int| 0 <= k < insert_listed(s, x).len() ==> #[trigger] insert_listed(s, x)[k] == x || s.contains(insert_listed(s, x)[k]),
    decreases s.len(),
{
    if s.len() > 0 && !listed_before(x, s[0]) {
        let t = s.drop_first();
        lemma_insert_listed_elements(t, x);
        let r = insert_listed(s, x);
        assert forall|k: int| 0 <= k < r.len() implies #[trigger] r[k] == x || s.contains(r[k]) by {
            if k == 0 {
                assert(r[0] == s[0]);
            } else {
                assert(r[k] == insert_listed(t, x)[k - 1]);
                if insert_listed(t, x)[k - 1] != x {
                    let j = choose|j: int| 0 <= j < t.len() && t[j] == insert_listed(t, x)[k - 1];
                    assert(s[j + 1] == t[j]);
                }
            }
        }
    }
}

proof fn lemma_insert_listed_ordered(s: Seq<RecordView>, x: RecordView)
    requires
        in_listing_order(s),
    ensures
        in_listing_order(insert_listed(s, x)),
    decreases s.len(),
{
    let r = insert_listed(s, x);
    if s.len() == 0 {
    } else if listed_before(x, s[0]) {
        assert(r == seq![x] + s);
        assert forall|i: int, j: int| 0 <= i < j < r.len() implies !listed_before(#[trigger] r[j], #[trigger] r[i]) by {
            if i == 0 {
                assert(r[j] == s[j - 1]);
                if listed_before(s[j - 1], x) {
                    lemma_listed_before_transitive(s[j - 1], x, s[0]);
                    if j - 1 == 0 {
                        lemma_listed_before_irreflexive(s[0]);
                    }
                }
            } else {
                assert(r[i] == s[i - 1] && r[j] == s[j - 1]);
            }
        }
    } else {
        let t = s.drop_first();
        assert(in_listing_order(t)) by {
            assert forall|i: int, j: int| 0 <= i < j < t.len() implies !listed_before(#[trigger] t[j], #[trigger] t[i]) by {
                assert(t[i] == s[i + 1] && t[j] == s[j + 1]);
            }
        }
        lemma_insert_listed_ordered(t, x);
        lemma_insert_listed_elements(t, x);
        let u = insert_listed(t, x);
        assert(r == seq![s[0]] + u);
        assert forall|i: int, j: int| 0 <= i < j < r.len() implies !listed_before(#[trigger] r[j], #[trigger] r[i]) by {
            if i == 0 {
                assert(r[j] == u[j - 1]);
                if u[j - 1] != x {
                    let k = choose|k: int| 0 <= k < t.len() && t[k] == u[j - 1];
                    assert(s[k + 1] == t[k]);
                }
            } else {
                assert(r[i] == u[i - 1] && r[j] == u[j - 1]);
            }
        }
    }
}

proof fn lemma_listing_order_ordered(s: Seq<RecordView>)
    ensures
        in_listing_order(listing_order(s)),
    decreases s.len(),
{
    if s.len() > 0 {
        lemma_listing_order_ordered(s.drop_last());
        lemma_insert_listed_ordered(listing_order(s.drop_last()), s.last());
    }
}

proof fn lemma_page_ordered(s: Seq<RecordView>, limit: Option<int>, offset: int)
    requires
        in_listing_order(s),
        0 <= offset,
        limit matches Some(l) ==> l >= 0,
    ensures
        in_listing_order(page(s, limit, offset)),
{
    match limit {
        None => {},
        Some(l) => {
            let lo = if offset < s.len() { offset } else { s.len() as int };
            let hi = if offset + l < s.len() { offset + l } else { s.len() as int };
            let p = s.subrange(lo, hi);
            assert forall|i: int, j: int| 0 <= i < j < p.len() implies !listed_before(#[trigger] p[j], #[trigger] p[i]) by {
                assert(p[i] == s[lo + i] && p[j] == s[lo + j]);
            }
        },
    }
}

/// Every listing of the history puts pinned records first, then newer
/// `created_at` before older, then the larger id before the smaller one:
/// no record of a listing comes after a record it should precede.
pub proof fn listing_is_ordered(records: Seq<RecordView>, favorite: Option<bool>, limit: Option<i32>, offset: Option<i32>)
    ensures
        in_listing_order(listing(records, favorite, limit, offset)),
        forall|i: int, j: int|
            0 <= i < j < listing(records, favorite, limit, offset).len() && (#[trigger] listing(records, favorite, limit, offset)[j]).is_pinned
                ==> (#[trigger] listing(records, favorite, limit, offset)[i]).is_pinned,
{
    let sorted = listing_order(select_records(records, favorite));
    lemma_listing_order_ordered(select_records(records, favorite));
    let off: int = match offset {
        Some(o) => if o < 0 { 0 } else { o as int },
        None => 0,
    };
    match limit {
        Some(l) => {
            let b: int = if l < 0 { 0 } else if l > 500 { 500 } else { l as int };
            lemma_page_ordered(sorted, Some(b), off);
        },
        None => {},
    }
    let out = listing(records, favorite, limit, offset);
    assert forall|i: int, j: int| 0 <= i < j < out.len() && (#[trigger] out[j]).is_pinned implies (#[trigger] out[i]).is_pinned by {
        assert(!listed_before(out[j], out[i]));
    }
}

/// Search results follow the same order as listings.
pub proof fn search_is_ordered(records: Seq<RecordView>, keyword: Seq<char>, favorite: Option<bool>, limit: i32)
    ensures
        in_listing_order(search_listing(records, keyword, favorite, limit)),
{
    let s = select_matching(records, keyword, favorite);
    lemma_listing_order_ordered(s);
    let b: int = if limit < 0 { 0 } else if limit > 500 { 500 } else { limit as int };
    lemma_page_ordered(listing_order(s), Some(b), 0);
}

/// Paging is stable: two consecutive pages of `limit` records together
/// are the page of `2·limit` records from the same offset, so nothing is
/// skipped or shown twice.
pub proof fn pages_are_contiguous(records: Seq<RecordView>, favorite: Option<bool>, limit: i32, offset: i32)
    requires
        0 <= limit <= 250,
        0 <= offset,
        offset + limit <= i32::MAX,
    ensures
        listing(records, favorite, Some(limit), Some(offset)) + listing(records, favorite, Some(limit), Some((offset + limit) as i32))
            == listing(records, favorite, Some((2 * limit) as i32), Some(offset)),
{
    let s = listing_order(select_records(records, favorite));
    let n = s.len() as int;
    let a = if offset < n { offset as int } else { n };
    let m = if offset + limit < n { offset + limit } else { n };
    let z = if offset + 2 * limit < n { offset + 2 * limit } else { n };
    assert(listing(records, favorite, Some(limit), Some(offset)) == s.subrange(a, m));
    assert(listing(records, favorite, Some(limit), Some((offset + limit) as i32)) == s.subrange(m, z));
    assert(listing(records, favorite, Some((2 * limit) as i32), Some(offset)) == s.subrange(a, z));
    assert(s.subrange(a, m) + s.subrange(m, z) =~= s.subrange(a, z));
}

// ---------------------------------------------------------------------------
// Adding a record that is already stored
// ---------------------------------------------------------------------------

proof fn lemma_no_keeper(s: Seq<RecordView>, x: RecordView)
    requires
        keeper(s, x) is None,
    ensures
        forall|i: int| 0 <= i < s.len() ==> !same_entry(#[trigger] s[i], x),
    decreases s.len(),
{
    if s.len() > 0 {
        lemma_no_keeper(s.drop_last(), x);
        assert forall|i: int| 0 <= i < s.len() implies !same_entry(#[trigger] s[i], x) by {
            if i < s.len() - 1 {
                assert(s[i] == s.drop_last()[i]);
            }
        }
    }
}

proof fn lemma_retain_subset(s: Seq<RecordView>, settings: crate::models::SettingsView, now: int, i: int)
    requires
        0 <= i < retain(s, settings, now).len(),
    ensures
        s.contains(retain(s, settings, now)[i]),
{
    let p = not_expired(at_least_zero(settings.keep_days), now);
    let aged = keep_where(s, p);
    let q = within_limit(aged, at_least_zero(settings.max_records));
    lemma_keep_where_subset(aged, q, i);
    let j = choose|j: int| 0 <= j < aged.len() && aged[j] == retain(s, settings, now)[i];
    lemma_keep_where_subset(s, p, j);
}

/// Adding a text, HTML or link record whose content is already stored
/// leaves at most one record with that content type and content, and the
/// one that stays (retention may still drop it) is the copy that was kept,
/// with the new timestamp and favourite or pinned when either the kept copy
/// or the new record was; when nothing was stored yet it is the new record.
pub proof fn add_keeps_single_copy(v: StoreView, x: RecordView, now: int)
    requires
        store_invariant(v),
        is_dedup_target(x),
    ensures
        ({
            let out = after_add(v, x, now);
            let r = out.1.records;
            &&& forall|i: int, j: int| 0 <= i < j < r.len() && same_entry(#[trigger] r[i], x) ==> !same_entry(#[trigger] r[j], x)
            &&& forall|i: int| 0 <= i < r.len() && same_entry(#[trigger] r[i], x) ==> r[i] == match dedup_keeper(v.records, x) {
                Some(k) => merged_keeper(v.records[k], x),
                None => new_record(x, out.0->Ok_0),
            }
        }),
{
    let out = after_add(v, x, now);
    let r = out.1.records;
    lemma_keeper_valid(v.records, x);
    match dedup_keeper(v.records, x) {
        Some(k) => {
            let keep_id = v.records[k].id;
            let m0 = v.records.map_values(merge_map(keep_id, x));
            let m = keep_where(m0, not_other_copy(keep_id, x));
            assert(r == retain(m, v.settings, now));
            assert(ids_ordered_within(m0, 1, v.last_id as int));
            lemma_keep_where_ordered(m0, not_other_copy(keep_id, x), 1, v.last_id as int);
            lemma_retain_ordered(m, v.settings, now, 1, v.last_id as int);
            assert forall|i: int| 0 <= i < r.len() && same_entry(#[trigger] r[i], x) implies r[i] == merged_keeper(v.records[k], x) && r[i].id == keep_id by {
                lemma_retain_subset(m, v.settings, now, i);
                let a = choose|a: int| 0 <= a < m.len() && m[a] == r[i];
                lemma_keep_where_subset(m0, not_other_copy(keep_id, x), a);
                let b = choose|b: int| 0 <= b < m0.len() && m0[b] == m[a];
                assert(m0[b] == merge_map(keep_id, x)(v.records[b]));
                assert(v.records[b].id == keep_id);
                if b < k {
                    assert(v.records[b].id < v.records[k].id);
                } else if b > k {
                    assert(v.records[k].id < v.records[b].id);
                }
            }
            assert forall|i: int, j: int| 0 <= i < j < r.len() && same_entry(#[trigger] r[i], x) implies !same_entry(#[trigger] r[j], x) by {
                if same_entry(r[j], x) {
                    assert(r[i].id < r[j].id);
                }
            }
        },
        None => {
            assert(keeper(v.records, x) is None);
            lemma_no_keeper(v.records, x);
            if v.last_id != i64::MAX {
                let id = (v.last_id + 1) as i64;
                let grown = v.records.push(new_record(x, id));
                assert(r == retain(grown, v.settings, now));
                assert(ids_ordered_within(grown, 1, id as int));
                lemma_retain_ordered(grown, v.settings, now, 1, id as int);
                assert forall|i: int| 0 <= i < r.len() && same_entry(#[trigger] r[i], x) implies r[i] == new_record(x, id) by {
                    lemma_retain_subset(grown, v.settings, now, i);
                    let a = choose|a: int| 0 <= a < grown.len() && grown[a] == r[i];
                    if a < v.records.len() {
                        assert(grown[a] == v.records[a]);
                    }
                }
                assert forall|i: int, j: int| 0 <= i < j < r.len() && same_entry(#[trigger] r[i], x) implies !same_entry(#[trigger] r[j], x) by {
                    if same_entry(r[j], x) {
                        assert(r[i].id < r[j].id);
                    }
                }
            }
        },
    }
}

// ---------------------------------------------------------------------------
// Importing favourites
// ---------------------------------------------------------------------------

/// The key under which import matches a record.
pub open spec fn import_key_of(r: RecordView) -> ImportKey {
    (r.content_type, trim(r.content))
}

/// An item that import stores or marks: neither blank nor an image.
pub open spec fn importable(item: (ContentType, Seq<char>, bool)) -> bool {
    item.0 != ContentType::Image && trim(item.1).len() > 0
}

/// Every key an import remembers names a record it holds: one with the
/// remembered id, that key, and the remembered flags; ids increase.
pub open spec fn import_consistent(st: ImportState) -> bool {
    &&& st.last_id >= 0
    &&& ids_ordered_within(st.records, 1, st.last_id as int)
    &&& forall|k: ImportKey| #[trigger] st.keys.contains_key(k) ==> exists|i: int|
        0 <= i < st.records.len() && (#[trigger] st.records[i]).id == st.keys[k].0 && import_key_of(st.records[i]) == k
            && st.records[i].is_favorite == st.keys[k].1 && st.records[i].is_pinned == st.keys[k].2
}

proof fn lemma_select_records_from(s: Seq<RecordView>, favorite: Option<bool>, i: int)
    requires
        0 <= i < select_records(s, favorite).len(),
    ensures
        exists|j: int| 0 <= j < s.len() && select_records(s, favorite)[i] == without_image(#[trigger] s[j]),
    decreases s.len(),
{
    let d = s.drop_last();
    let rest = select_records(d, favorite);
    if i < rest.len() {
        lemma_select_records_from(d, favorite, i);
        let j = choose|j: int| 0 <= j < d.len() && rest[i] == without_image(#[trigger] d[j]);
        assert(s[j] == d[j]);
    } else {
        assert(select_records(s, favorite)[i] == without_image(s[s.len() - 1]));
    }
}

proof fn lemma_listing_order_from(s: Seq<RecordView>, i: int)
    requires
        0 <= i < listing_order(s).len(),
    ensures
        s.contains(listing_order(s)[i]),
        listing_order(s).len() == s.len(),
    decreases s.len(),
{
    let d = s.drop_last();
    lemma_listing_order_len(d);
    lemma_insert_listed_elements(listing_order(d), s.last());
    let r = listing_order(s);
    if r[i] != s.last() {
        let k = choose|k: int| 0 <= k < listing_order(d).len() && listing_order(d)[k] == r[i];
        lemma_listing_order_from(d, k);
        let j = choose|j: int| 0 <= j < d.len() && d[j] == r[i];
        assert(s[j] == d[j]);
    } else {
        assert(s[s.len() - 1] == r[i]);
    }
}

proof fn lemma_listing_order_len(s: Seq<RecordView>)
    ensures
        listing_order(s).len() == s.len(),
    decreases s.len(),
{
    if s.len() > 0 {
        lemma_listing_order_len(s.drop_last());
        lemma_insert_listed_elements(listing_order(s.drop_last()), s.last());
    }
}

proof fn lemma_key_map_from(t: Seq<RecordView>)
    ensures
        forall|k: ImportKey| #[trigger] import_key_map(t).contains_key(k) ==> exists|e: int|
            0 <= e < t.len() && import_key_of(#[trigger] t[e]) == k && import_key_map(t)[k] == (t[e].id, t[e].is_favorite, t[e].is_pinned),
    decreases t.len(),
{
    if t.len() > 0 {
        let d = t.drop_last();
        lemma_key_map_from(d);
        assert forall|k: ImportKey| #[trigger] import_key_map(t).contains_key(k) implies exists|e: int|
            0 <= e < t.len() && import_key_of(#[trigger] t[e]) == k && import_key_map(t)[k] == (t[e].id, t[e].is_favorite, t[e].is_pinned) by {
            let last = t.last();
            if last.content_type != ContentType::Image && k == import_key_of(last) {
                assert(import_key_of(t[t.len() - 1]) == k);
            } else {
                assert(import_key_map(d).contains_key(k));
                let e = choose|e: int| 0 <= e < d.len() && import_key_of(#[trigger] d[e]) == k
                    && import_key_map(d)[k] == (d[e].id, d[e].is_favorite, d[e].is_pinned);
                assert(t[e] == d[e]);
            }
        }
    }
}

proof fn lemma_start_consistent(v: StoreView)
    requires
        store_invariant(v),
    ensures
        import_consistent(import_start(v)),
{
    let st = import_start(v);
    let sel = select_records(v.records, None);
    let t = listing_order(sel);
    lemma_key_map_from(t);
    assert(ids_ordered_within(st.records, 1, st.last_id as int));
    assert forall|k: ImportKey| #[trigger] st.keys.contains_key(k) implies exists|i: int|
        0 <= i < st.records.len() && (#[trigger] st.records[i]).id == st.keys[k].0 && import_key_of(st.records[i]) == k
            && st.records[i].is_favorite == st.keys[k].1 && st.records[i].is_pinned == st.keys[k].2 by {
        let e = choose|e: int| 0 <= e < t.len() && import_key_of(#[trigger] t[e]) == k
            && import_key_map(t)[k] == (t[e].id, t[e].is_favorite, t[e].is_pinned);
        lemma_listing_order_from(sel, e);
        let a = choose|a: int| 0 <= a < sel.len() && sel[a] == t[e];
        lemma_select_records_from(v.records, None, a);
        let j = choose|j: int| 0 <= j < v.records.len() && sel[a] == without_image(#[trigger] v.records[j]);
        assert(st.records[j] == v.records[j]);
    }
}

proof fn lemma_step_consistent(st: ImportState, item: (ContentType, Seq<char>, bool), created_at: Seq<char>)
    requires
        import_consistent(st),
    ensures
        import_consistent(import_step(st, item, created_at)),
        !import_step(st, item, created_at).failed && importable(item) ==> ({
            let key = (item.0, trim(item.1));
            &&& import_step(st, item, created_at).keys.contains_key(key)
            &&& import_step(st, item, created_at).keys[key].1
        }),
        forall|k: ImportKey| #[trigger] st.keys.contains_key(k) && st.keys[k].1 && !import_step(st, item, created_at).failed ==> {
            &&& import_step(st, item, created_at).keys.contains_key(k)
            &&& import_step(st, item, created_at).keys[k].1
        },
{
    let nx = import_step(st, item, created_at);
    let content = trim(item.1);
    if st.failed || content.len() == 0 || item.0 == ContentType::Image {
    } else {
        let key = (item.0, content);
        if st.keys.contains_key(key) {
            let (id, fav, pin) = st.keys[key];
            let merged = pin || item.2;
            let j = choose|i: int| 0 <= i < st.records.len() && (#[trigger] st.records[i]).id == st.keys[key].0 && import_key_of(st.records[i]) == key
                && st.records[i].is_favorite == st.keys[key].1 && st.records[i].is_pinned == st.keys[key].2;
            let f = favorite_pin_map(id, merged);
            let changed = !fav || merged != pin;
            assert forall|i: int| 0 <= i < nx.records.len() implies (#[trigger] nx.records[i]).id == st.records[i].id
                && import_key_of(nx.records[i]) == import_key_of(st.records[i])
                && (st.records[i].id != id ==> nx.records[i] == st.records[i]) by {
                if changed {
                    assert(nx.records[i] == f(st.records[i]));
                }
            }
            assert(ids_ordered_within(nx.records, 1, nx.last_id as int)) by {
                assert forall|a: int, b: int| 0 <= a < b < nx.records.len() implies #[trigger] nx.records[a].id < #[trigger] nx.records[b].id by {
                    assert(nx.records[a].id == st.records[a].id && nx.records[b].id == st.records[b].id);
                }
            }
            assert forall|k: ImportKey| #[trigger] nx.keys.contains_key(k) implies exists|i: int|
                0 <= i < nx.records.len() && (#[trigger] nx.records[i]).id == nx.keys[k].0 && import_key_of(nx.records[i]) == k
                    && nx.records[i].is_favorite == nx.keys[k].1 && nx.records[i].is_pinned == nx.keys[k].2 by {
                if k == key {
                    assert(nx.records[j].id == id);
                    if changed {
                        assert(nx.records[j] == f(st.records[j]));
                    }
                } else {
                    let i = choose|i: int| 0 <= i < st.records.len() && (#[trigger] st.records[i]).id == st.keys[k].0 && import_key_of(st.records[i]) == k
                        && st.records[i].is_favorite == st.keys[k].1 && st.records[i].is_pinned == st.keys[k].2;
                    if st.records[i].id == id {
                        if i < j {
                            assert(st.records[i].id < st.records[j].id);
                        } else if i > j {
                            assert(st.records[j].id < st.records[i].id);
                        }
                    }
                    assert(nx.records[i] == st.records[i]);
                }
            }
        } else if st.last_id == i64::MAX {
        } else {
            let id = (st.last_id + 1) as i64;
            let n = st.records.len();
            assert forall|i: int| 0 <= i < n implies #[trigger] nx.records[i] == st.records[i] by {}
            assert(ids_ordered_within(nx.records, 1, nx.last_id as int)) by {
                assert forall|a: int, b: int| 0 <= a < b < nx.records.len() implies #[trigger] nx.records[a].id < #[trigger] nx.records[b].id by {
                    if b == n {
                        assert(nx.records[a] == st.records[a]);
                    }
                }
                assert forall|a: int| 0 <= a < nx.records.len() implies 1 <= #[trigger] nx.records[a].id <= nx.last_id by {
                    if a < n {
                        assert(nx.records[a] == st.records[a]);
                    }
                }
            }
            assert forall|k: ImportKey| #[trigger] nx.keys.contains_key(k) implies exists|i: int|
                0 <= i < nx.records.len() && (#[trigger] nx.records[i]).id == nx.keys[k].0 && import_key_of(nx.records[i]) == k
                    && nx.records[i].is_favorite == nx.keys[k].1 && nx.records[i].is_pinned == nx.keys[k].2 by {
                if k == key {
                    assert(import_key_of(nx.records[n as int]) == k) by {
                        crate::text::lemma_trim_idempotent(item.1);
                    }
                } else {
                    let i = choose|i: int| 0 <= i < st.records.len() && (#[trigger] st.records[i]).id == st.keys[k].0 && import_key_of(st.records[i]) == k
                        && st.records[i].is_favorite == st.keys[k].1 && st.records[i].is_pinned == st.keys[k].2;
                    assert(nx.records[i] == st.records[i]);
                }
            }
        }
    }
}

proof fn lemma_run_consistent(start: ImportState, items: Seq<(ContentType, Seq<char>, bool)>, created_at: Seq<char>)
    requires
        import_consistent(start),
        !start.failed,
    ensures
        import_consistent(import_run(start, items, created_at)),
        !import_run(start, items, created_at).failed ==> forall|i: int| 0 <= i < items.len() && importable(#[trigger] items[i]) ==> {
            &&& import_run(start, items, created_at).keys.contains_key((items[i].0, trim(items[i].1)))
            &&& import_run(start, items, created_at).keys[(items[i].0, trim(items[i].1))].1
        },
    decreases items.len(),
{
    if items.len() > 0 {
        let d = items.drop_last();
        lemma_run_consistent(start, d, created_at);
        let prev = import_run(start, d, created_at);
        lemma_step_consistent(prev, items.last(), created_at);
        let end = import_run(start, items, created_at);
        if !end.failed {
            assert(!prev.failed);
            assert forall|i: int| 0 <= i < items.len() && importable(#[trigger] items[i]) implies {
                &&& end.keys.contains_key((items[i].0, trim(items[i].1)))
                &&& end.keys[(items[i].0, trim(items[i].1))].1
            } by {
                if i < items.len() - 1 {
                    assert(d[i] == items[i]);
                    let k = (items[i].0, trim(items[i].1));
                    assert(prev.keys.contains_key(k) && prev.keys[k].1);
                }
            }
        }
    }
}

/// A favourites import that succeeds leaves every imported item that is
/// neither blank nor an image held by a favourite record with the item's
/// content type and trimmed content, whether it matched a stored record or
/// was added.
pub proof fn import_makes_items_favorites(v: StoreView, items: Seq<(ContentType, Seq<char>, bool)>, created_at: Seq<char>)
    requires
        store_invariant(v),
    ensures
        ({
            let end = import_run(import_start(v), items, created_at);
            !end.failed ==> forall|i: int| 0 <= i < items.len() && importable(#[trigger] items[i]) ==> exists|j: int|
                0 <= j < end.records.len() && (#[trigger] end.records[j]).is_favorite && end.records[j].content_type == items[i].0
                    && trim(end.records[j].content) == trim(items[i].1)
        }),
{
    lemma_start_consistent(v);
    lemma_run_consistent(import_start(v), items, created_at);
    let end = import_run(import_start(v), items, created_at);
    if !end.failed {
        assert forall|i: int| 0 <= i < items.len() && importable(#[trigger] items[i]) implies exists|j: int|
            0 <= j < end.records.len() && (#[trigger] end.records[j]).is_favorite && end.records[j].content_type == items[i].0
                && trim(end.records[j].content) == trim(items[i].1) by {
            let k = (items[i].0, trim(items[i].1));
            assert(end.keys.contains_key(k));
            let j = choose|j: int| 0 <= j < end.records.len() && (#[trigger] end.records[j]).id == end.keys[k].0 && import_key_of(end.records[j]) == k
                && end.records[j].is_favorite == end.keys[k].1 && end.records[j].is_pinned == end.keys[k].2;
        }
    }
}

// ---------------------------------------------------------------------------
// Clearing
// ---------------------------------------------------------------------------

/// Clearing the history removes exactly the records that are not
/// favourites; clearing the favourites removes exactly the favourites.
pub proof fn clearing_splits_by_favorite(records: Seq<RecordView>, favorites: bool)
    ensures
        ({
            let kept = keep_where(records, outside_filter(Some(favorites)));
            &&& forall|i: int| 0 <= i < kept.len() ==> (#[trigger] kept[i]).is_favorite != favorites && records.contains(kept[i])
            &&& forall|i: int| 0 <= i < records.len() && (#[trigger] records[i]).is_favorite != favorites ==> kept.contains(records[i])
        }),
{
    let p = outside_filter(Some(favorites));
    let kept = keep_where(records, p);
    assert forall|i: int| 0 <= i < kept.len() implies (#[trigger] kept[i]).is_favorite != favorites && records.contains(kept[i]) by {
        lemma_keep_where_subset(records, p, i);
    }
    assert forall|i: int| 0 <= i < records.len() && (#[trigger] records[i]).is_favorite != favorites implies kept.contains(records[i]) by {
        lemma_keep_where_keeps(records, p, i);
    }
}

// ---------------------------------------------------------------------------
// The record limit
// ---------------------------------------------------------------------------

/// Keeps the records that are not favourites.
pub open spec fn non_favorite() -> spec_fn(RecordView) -> bool {
    |r: RecordView| !r.is_favorite
}

proof fn lemma_text_lt_total(a: Seq<char>, b: Seq<char>)
    requires
        a != b,
    ensures
        text_lt(a, b) || text_lt(b, a),
    decreases a.len(),
{
    if a.len() > 0 && b.len() > 0 && a[0] == b[0] {
        if a.drop_first() == b.drop_first() {
            assert(a =~= seq![a[0]] + a.drop_first());
            assert(b =~= seq![b[0]] + b.drop_first());
        }
        lemma_text_lt_total(a.drop_first(), b.drop_first());
    } else if a.len() == 0 && b.len() == 0 {
        assert(a =~= b);
    }
}

proof fn lemma_ranks_above_transitive(a: RecordView, b: RecordView, c: RecordView)
    requires
        ranks_above(a, b),
        ranks_above(b, c),
    ensures
        ranks_above(a, c),
{
    if text_lt(b.created_at, a.created_at) && text_lt(c.created_at, b.created_at) {
        lemma_text_lt_transitive(c.created_at, b.created_at, a.created_at);
    }
}

proof fn lemma_newer_count_grows(s: Seq<RecordView>, x: RecordView, y: RecordView)
    requires
        !x.is_favorite,
        ranks_above(x, y),
    ensures
        newer_count(s, y) >= newer_count(s, x) + if s.contains(x) { 1int } else { 0int },
    decreases s.len(),
{
    if s.len() > 0 {
        let d = s.drop_last();
        let l = s.last();
        lemma_newer_count_grows(d, x, y);
        if !l.is_favorite && ranks_above(l, x) {
            lemma_ranks_above_transitive(l, x, y);
        }
        if l == x {
            lemma_text_lt_irreflexive(x.created_at);
            assert(s[s.len() - 1] == x);
        } else {
            if s.contains(x) {
                let i = choose|i: int| 0 <= i < s.len() && s[i] == x;
                assert(i != s.len() - 1);
                assert(d[i] == x);
            }
        }
    }
}

/// With a record limit set, the retention policy leaves at most that many
/// records that are not favourites (in a store whose ids increase).
pub proof fn retention_respects_record_limit(s: Seq<RecordView>, settings: crate::models::SettingsView, now: int)
    requires
        forall|i: int, j: int| 0 <= i < j < s.len() ==> #[trigger] s[i].id < #[trigger] s[j].id,
        settings.max_records > 0,
    ensures
        keep_where(retain(s, settings, now), non_favorite()).len() <= settings.max_records,
{
    let m = at_least_zero(settings.max_records);
    let p = not_expired(at_least_zero(settings.keep_days), now);
    let a = keep_where(s, p);
    let q = within_limit(a, m);
    let r = keep_where(a, q);
    let f = keep_where(r, non_favorite());
    assert(ids_ordered_within(s, i64::MIN as int, i64::MAX as int));
    lemma_keep_where_ordered(s, p, i64::MIN as int, i64::MAX as int);
    lemma_keep_where_ordered(a, q, i64::MIN as int, i64::MAX as int);
    lemma_keep_where_ordered(r, non_favorite(), i64::MIN as int, i64::MAX as int);
    // Every listed record is a kept non-favourite of `a`, newer than the limit.
    assert forall|j: int| 0 <= j < f.len() implies a.contains(#[trigger] f[j]) && !f[j].is_favorite && newer_count(a, f[j]) < m by {
        lemma_keep_where_subset(r, non_favorite(), j);
        let k = choose|k: int| 0 <= k < r.len() && r[k] == f[j];
        lemma_keep_where_subset(a, q, k);
    }
    let xs = vstd::set_lib::set_int_range(0, f.len() as int);
    let g = |j: int| newer_count(a, f[j]) as int;
    vstd::set_lib::lemma_int_range(0, f.len() as int);
    vstd::set_lib::lemma_int_range(0, m);
    assert(vstd::relations::injective_on(g, xs)) by {
        assert forall|j1: int, j2: int| xs.contains(j1) && xs.contains(j2) && #[trigger] g(j1) == #[trigger] g(j2) implies j1 == j2 by {
            if j1 != j2 {
                let (lo, hi) = if j1 < j2 { (j1, j2) } else { (j2, j1) };
                let x = f[lo];
                let y = f[hi];
                assert(x.id < y.id);
                if x.created_at == y.created_at {
                    assert(ranks_above(y, x));
                    lemma_newer_count_grows(a, y, x);
                } else {
                    lemma_text_lt_total(x.created_at, y.created_at);
                    if text_lt(x.created_at, y.created_at) {
                        assert(ranks_above(y, x));
                        lemma_newer_count_grows(a, y, x);
                    } else {
                        assert(ranks_above(x, y));
                        lemma_newer_count_grows(a, x, y);
                    }
                }
            }
        }
    }
    let img = xs.map(g);
    vstd::set_lib::lemma_map_size(xs, img, g);
    assert(img.subset_of(vstd::set_lib::set_int_range(0, m))) by {
        assert forall|v: int| img.contains(v) implies vstd::set_lib::set_int_range(0, m).contains(v) by {
            let j = choose|j: int| xs.contains(j) && g(j) == v;
            assert(a.contains(f[j]));
        }
    }
    vstd::set_lib::lemma_len_subset(img, vstd::set_lib::set_int_range(0, m));
}

// ---------------------------------------------------------------------------
// Adding a record, all at once
// ---------------------------------------------------------------------------

/// `s` holds a favourite with the content type and content of `r`.
pub open spec fn has_favorite_copy(s: Seq<RecordView>, r: RecordView) -> bool {
    exists|i: int| 0 <= i < s.len() && same_entry(#[trigger] s[i], r) && s[i].is_favorite
}

proof fn lemma_keeper_favorite(s: Seq<RecordView>, x: RecordView)
    ensures
        keeper(s, x) matches Some(k) ==> (s[k].is_favorite <==> has_favorite_copy(s, x)),
        keeper(s, x) is None ==> !has_favorite_copy(s, x),
    decreases s.len(),
{
    if s.len() > 0 {
        let d = s.drop_last();
        let l = s.last();
        lemma_keeper_favorite(d, x);
        lemma_keeper_valid(d, x);
        assert(has_favorite_copy(s, x) <==> (has_favorite_copy(d, x) || (same_entry(l, x) && l.is_favorite))) by {
            if has_favorite_copy(s, x) {
                let i = choose|i: int| 0 <= i < s.len() && same_entry(#[trigger] s[i], x) && s[i].is_favorite;
                if i < s.len() - 1 {
                    assert(d[i] == s[i]);
                }
            }
            if has_favorite_copy(d, x) {
                let i = choose|i: int| 0 <= i < d.len() && same_entry(#[trigger] d[i], x) && d[i].is_favorite;
                assert(s[i] == d[i]);
            }
            if same_entry(l, x) && l.is_favorite {
                assert(s[s.len() - 1] == l);
            }
        }
        match keeper(d, x) {
            Some(b) => {
                assert(d[b] == s[b]);
            },
            None => {},
        }
    }
}

/// Every favourite of `v` keeps a favourite copy when `x` is merged into
/// its kept copy at `k` and the other copies go.
proof fn lemma_merge_keeps_favorites(v: StoreView, x: RecordView, k: int, j: int)
    requires
        store_invariant(v),
        keeper(v.records, x) == Some(k),
        0 <= j < v.records.len(),
        v.records[j].is_favorite,
    ensures
        has_favorite_copy(merge_duplicates(v.records, v.records[k].id, x), v.records[j]),
{
    lemma_keeper_valid(v.records, x);
    lemma_keeper_favorite(v.records, x);
    let keep_id = v.records[k].id;
    let m0 = v.records.map_values(merge_map(keep_id, x));
    let f = not_other_copy(keep_id, x);
    let m = keep_where(m0, f);
    let rj = v.records[j];
    if f(m0[j]) {
        lemma_keep_where_keeps(m0, f, j);
        let i = choose|i: int| 0 <= i < m.len() && m[i] == m0[j];
        assert(same_entry(m[i], rj) && m[i].is_favorite);
    } else {
        assert(same_entry(rj, x));
        assert(has_favorite_copy(v.records, x));
        assert(f(m0[k]));
        lemma_keep_where_keeps(m0, f, k);
        let i = choose|i: int| 0 <= i < m.len() && m[i] == m0[k];
        assert(same_entry(m[i], rj) && m[i].is_favorite);
    }
}

/// Adding a text, HTML or link record `x` at `now`, when it succeeds:
/// at most one record has `x`'s content type and content; that record
/// carries the id returned, is a favourite exactly when `x` or an earlier
/// copy was, and is pinned when `x` was; every content that had a
/// favourite record still has one; and with a record limit set, at most
/// that many records that are not favourites remain.
pub proof fn add_record_law(v: StoreView, x: RecordView, now: int)
    requires
        store_invariant(v),
        is_dedup_target(x),
    ensures
        ({
            let out = after_add(v, x, now);
            let r = out.1.records;
            out.0 is Ok ==> {
                &&& forall|i: int, j: int| 0 <= i < j < r.len() && same_entry(#[trigger] r[i], x) ==> !same_entry(#[trigger] r[j], x)
                &&& forall|i: int| 0 <= i < r.len() && same_entry(#[trigger] r[i], x) ==> {
                    &&& r[i].id == out.0->Ok_0
                    &&& r[i].is_favorite == (x.is_favorite || has_favorite_copy(v.records, x))
                    &&& x.is_pinned ==> r[i].is_pinned
                }
                &&& forall|j: int| 0 <= j < v.records.len() && (#[trigger] v.records[j]).is_favorite ==> has_favorite_copy(r, v.records[j])
                &&& v.settings.max_records > 0 ==> keep_where(r, non_favorite()).len() <= v.settings.max_records
            }
        }),
{
    let out = after_add(v, x, now);
    let r = out.1.records;
    add_keeps_single_copy(v, x, now);
    lemma_keeper_valid(v.records, x);
    lemma_keeper_favorite(v.records, x);
    match dedup_keeper(v.records, x) {
        Some(k) => {
            let keep_id = v.records[k].id;
            let m0 = v.records.map_values(merge_map(keep_id, x));
            let m = merge_duplicates(v.records, keep_id, x);
            assert(r == retain(m, v.settings, now));
            assert(ids_ordered_within(m0, 1, v.last_id as int));
            lemma_keep_where_ordered(m0, not_other_copy(keep_id, x), 1, v.last_id as int);
            assert forall|j: int| 0 <= j < v.records.len() && (#[trigger] v.records[j]).is_favorite implies has_favorite_copy(r, v.records[j]) by {
                lemma_merge_keeps_favorites(v, x, k, j);
                let i = choose|i: int| 0 <= i < m.len() && same_entry(#[trigger] m[i], v.records[j]) && m[i].is_favorite;
                retention_keeps_favorites(m, v.settings, now, i);
                let a = choose|a: int| 0 <= a < r.len() && r[a] == m[i];
                assert(same_entry(r[a], v.records[j]) && r[a].is_favorite);
            }
            if v.settings.max_records > 0 {
                retention_respects_record_limit(m, v.settings, now);
            }
        },
        None => {
            if v.last_id != i64::MAX {
                let id = (v.last_id + 1) as i64;
                let grown = v.records.push(new_record(x, id));
                assert(r == retain(grown, v.settings, now));
                assert(ids_ordered_within(grown, 1, id as int));
                assert forall|j: int| 0 <= j < v.records.len() && (#[trigger] v.records[j]).is_favorite implies has_favorite_copy(r, v.records[j]) by {
                    assert(grown[j] == v.records[j]);
                    retention_keeps_favorites(grown, v.settings, now, j);
                    let a = choose|a: int| 0 <= a < r.len() && r[a] == grown[j];
                    assert(same_entry(r[a], v.records[j]) && r[a].is_favorite);
                }
                if v.settings.max_records > 0 {
                    retention_respects_record_limit(grown, v.settings, now);
                }
            }
        },
    }
}

/// When a text, HTML or link record `x` is added and a stored record keeps
/// its content, the record left carries that stored record's id, type and
/// content, `x`'s timestamp, and is a favourite (pinned) exactly when the
/// stored record or `x` was: adding a copy never drops a flag.
pub proof fn merge_keeps_stored_flags(v: StoreView, x: RecordView, now: int)
    requires
        store_invariant(v),
        is_dedup_target(x),
    ensures
        ({
            let r = after_add(v, x, now).1.records;
            forall|i: int, j: int|
                0 <= i < r.len() && 0 <= j < v.records.len() && same_entry(#[trigger] r[i], x)
                    && #[trigger] v.records[j].id == r[i].id ==> {
                    &&& r[i].is_pinned == (v.records[j].is_pinned || x.is_pinned)
                    &&& r[i].is_favorite == (v.records[j].is_favorite || x.is_favorite)
                    &&& r[i].content_type == v.records[j].content_type
                    &&& r[i].content == v.records[j].content
                    &&& r[i].created_at == x.created_at
                }
        }),
{
    let out = after_add(v, x, now);
    let r = out.1.records;
    add_keeps_single_copy(v, x, now);
    lemma_keeper_valid(v.records, x);
    assert forall|i: int, j: int|
        0 <= i < r.len() && 0 <= j < v.records.len() && same_entry(#[trigger] r[i], x)
            && #[trigger] v.records[j].id == r[i].id implies {
            &&& r[i].is_pinned == (v.records[j].is_pinned || x.is_pinned)
            &&& r[i].is_favorite == (v.records[j].is_favorite || x.is_favorite)
            &&& r[i].content_type == v.records[j].content_type
            &&& r[i].content == v.records[j].content
            &&& r[i].created_at == x.created_at
        } by {
        match dedup_keeper(v.records, x) {
            Some(k) => {
                assert(r[i] == merged_keeper(v.records[k], x));
                if j < k {
                    assert(v.records[j].id < v.records[k].id);
                } else if j > k {
                    assert(v.records[k].id < v.records[j].id);
                }
            },
            None => {
                assert(v.records[j].id <= v.last_id);
            },
        }
    }
}

// ---------------------------------------------------------------------------
// Listings lose nothing
// ---------------------------------------------------------------------------

proof fn lemma_insert_listed_multiset(s: Seq<RecordView>, x: RecordView)
    ensures
        insert_listed(s, x).to_multiset() =~= s.to_multiset().insert(x),
    decreases s.len(),
{
    broadcast use vstd::seq_lib::to_multiset_insert, vstd::seq_lib::to_multiset_build;

    if s.len() == 0 {
        assert(seq![x] =~= s.push(x));
    } else if listed_before(x, s[0]) {
        assert(seq![x] + s =~= s.insert(0, x));
    } else {
        let t = s.drop_first();
        lemma_insert_listed_multiset(t, x);
        let u = insert_listed(t, x);
        assert(seq![s[0]] + u =~= u.insert(0, s[0]));
        assert(s =~= t.insert(0, s[0]));
    }
}

proof fn lemma_listing_order_multiset(s: Seq<RecordView>)
    ensures
        listing_order(s).to_multiset() =~= s.to_multiset(),
    decreases s.len(),
{
    broadcast use vstd::seq_lib::to_multiset_build;

    if s.len() > 0 {
        let d = s.drop_last();
        lemma_listing_order_multiset(d);
        lemma_insert_listed_multiset(listing_order(d), s.last());
        assert(d.push(s.last()) =~= s);
    }
}

/// A listing without a page limit holds every record that passes the
/// filter (without its image bytes), each as often as it is stored: the
/// listing only reorders.
pub proof fn listing_holds_every_record(records: Seq<RecordView>, favorite: Option<bool>)
    ensures
        listing(records, favorite, None, None).to_multiset() == select_records(records, favorite).to_multiset(),
{
    lemma_listing_order_multiset(select_records(records, favorite));
}

// ---------------------------------------------------------------------------
// Exporting favourites
// ---------------------------------------------------------------------------

/// What a record is exported as: its type, content and pinned flag.
pub open spec fn export_entry(r: RecordView) -> (ContentType, Seq<char>, bool) {
    (r.content_type, r.content, r.is_pinned)
}

/// `e` is what some favourite record of `records` that is not an image is
/// exported as.
pub open spec fn is_exported_favourite(records: Seq<RecordView>, e: (ContentType, Seq<char>, bool)) -> bool {
    exists|i: int| 0 <= i < records.len() && (#[trigger] records[i]).is_favorite
        && records[i].content_type != ContentType::Image && export_entry(records[i]) == e
}

proof fn lemma_transfer_items_keep(s: Seq<RecordView>, i: int)
    requires
        0 <= i < s.len(),
        s[i].content_type != ContentType::Image,
    ensures
        transfer_items(s).contains(export_entry(s[i])),
    decreases s.len(),
{
    let d = s.drop_last();
    if i < s.len() - 1 {
        lemma_transfer_items_keep(d, i);
        assert(d[i] == s[i]);
        let t = transfer_items(d);
        let k = choose|k: int| 0 <= k < t.len() && t[k] == export_entry(s[i]);
        if s.last().content_type != ContentType::Image {
            assert(transfer_items(s)[k] == t[k]);
        } else {
            assert(transfer_items(s) == t);
        }
    } else {
        let t = transfer_items(s);
        assert(t[t.len() - 1] == export_entry(s[i]));
    }
}

proof fn lemma_transfer_items_from(s: Seq<RecordView>, k: int)
    requires
        0 <= k < transfer_items(s).len(),
    ensures
        exists|i: int| 0 <= i < s.len() && (#[trigger] s[i]).content_type != ContentType::Image
            && transfer_items(s)[k] == export_entry(s[i]),
    decreases s.len(),
{
    let d = s.drop_last();
    let t = transfer_items(d);
    if k < t.len() {
        lemma_transfer_items_from(d, k);
        let i = choose|i: int| 0 <= i < d.len() && (#[trigger] d[i]).content_type != ContentType::Image
            && t[k] == export_entry(d[i]);
        assert(s[i] == d[i]);
    } else {
        assert(s[s.len() - 1].content_type != ContentType::Image);
    }
}

proof fn lemma_select_records_keep(s: Seq<RecordView>, favorite: Option<bool>, i: int)
    requires
        0 <= i < s.len(),
        favorite_matches(s[i], favorite),
    ensures
        select_records(s, favorite).contains(without_image(s[i])),
    decreases s.len(),
{
    let d = s.drop_last();
    let t = select_records(d, favorite);
    if i < s.len() - 1 {
        lemma_select_records_keep(d, favorite, i);
        assert(d[i] == s[i]);
        let k = choose|k: int| 0 <= k < t.len() && t[k] == without_image(s[i]);
        if favorite_matches(s.last(), favorite) {
            assert(select_records(s, favorite)[k] == t[k]);
        }
    } else {
        let u = select_records(s, favorite);
        assert(u[u.len() - 1] == without_image(s[i]));
    }
}

/// The exported favourites are exactly the favourite records that are not
/// images: each such record is exported with its type, content and pinned
/// flag (text, HTML and link records alike), and every exported item is
/// such a record.
pub proof fn export_holds_every_non_image_favourite(records: Seq<RecordView>)
    ensures
        ({
            let items = transfer_items(listing(records, Some(true), None, None));
            &&& forall|i: int| 0 <= i < records.len() && (#[trigger] records[i]).is_favorite
                && records[i].content_type != ContentType::Image ==> items.contains(export_entry(records[i]))
            &&& forall|k: int| 0 <= k < items.len() ==> is_exported_favourite(records, #[trigger] items[k])
        }),
{
    let sel = select_records(records, Some(true));
    let lst = listing(records, Some(true), None, None);
    assert(lst == listing_order(sel));
    lemma_listing_order_multiset(sel);
    assert forall|i: int| 0 <= i < records.len() && (#[trigger] records[i]).is_favorite
        && records[i].content_type != ContentType::Image implies transfer_items(lst).contains(export_entry(records[i])) by {
        lemma_select_records_keep(records, Some(true), i);
        let w = without_image(records[i]);
        assert(sel.to_multiset().count(w) > 0);
        assert(lst.to_multiset().count(w) > 0);
        assert(lst.contains(w));
        let m = choose|m: int| 0 <= m < lst.len() && lst[m] == w;
        lemma_transfer_items_keep(lst, m);
    }
    assert forall|k: int| 0 <= k < transfer_items(lst).len() implies is_exported_favourite(records, #[trigger] transfer_items(lst)[k]) by {
        lemma_transfer_items_from(lst, k);
        let m = choose|m: int| 0 <= m < lst.len() && (#[trigger] lst[m]).content_type != ContentType::Image
            && transfer_items(lst)[k] == export_entry(lst[m]);
        lemma_listing_order_from(sel, m);
        let a = choose|a: int| 0 <= a < sel.len() && sel[a] == lst[m];
        lemma_select_records_from(records, Some(true), a);
        let i = choose|i: int| 0 <= i < records.len() && sel[a] == without_image(#[trigger] records[i]);
        lemma_select_records_fav(records, Some(true), a);
        assert(records[i].is_favorite);
        assert(transfer_items(lst)[k] == export_entry(records[i]));
    }
}

proof fn lemma_select_records_fav(s: Seq<RecordView>, favorite: Option<bool>, i: int)
    requires
        0 <= i < select_records(s, favorite).len(),
    ensures
        favorite_matches(select_records(s, favorite)[i], favorite),
    decreases s.len(),
{
    let d = s.drop_last();
    if i < select_records(d, favorite).len() {
        lemma_select_records_fav(d, favorite, i);
    }
}

// ---------------------------------------------------------------------------
// Search finds every match
// ---------------------------------------------------------------------------

/// A record a search for `keyword` with the favourite filter `favorite`
/// should find: its content holds the keyword, ASCII case ignored, and it
/// passes the filter. Its other flags play no part.
pub open spec fn search_hit(r: RecordView, keyword: Seq<char>, favorite: Option<bool>) -> bool {
    &&& (favorite matches Some(f) ==> r.is_favorite == f)
    &&& contains_ci(r.content, keyword)
}

/// `e` is a stored record of `records` (without its image) that a search
/// should find.
pub open spec fn is_stored_hit(records: Seq<RecordView>, keyword: Seq<char>, favorite: Option<bool>, e: RecordView) -> bool {
    exists|i: int| 0 <= i < records.len() && search_hit(#[trigger] records[i], keyword, favorite)
        && e == without_image(records[i])
}

proof fn lemma_select_matching_count(s: Seq<RecordView>, keyword: Seq<char>, favorite: Option<bool>)
    ensures
        select_matching(s, keyword, favorite).len() == s.filter(|r: RecordView| search_hit(r, keyword, favorite)).len(),
    decreases s.len(),
{
    reveal(Seq::filter);
    if s.len() > 0 {
        lemma_select_matching_count(s.drop_last(), keyword, favorite);
    }
}

proof fn lemma_select_matching_keep(s: Seq<RecordView>, keyword: Seq<char>, favorite: Option<bool>, i: int)
    requires
        0 <= i < s.len(),
        search_hit(s[i], keyword, favorite),
    ensures
        select_matching(s, keyword, favorite).contains(without_image(s[i])),
    decreases s.len(),
{
    let d = s.drop_last();
    let t = select_matching(d, keyword, favorite);
    if i < s.len() - 1 {
        lemma_select_matching_keep(d, keyword, favorite, i);
        assert(d[i] == s[i]);
        let k = choose|k: int| 0 <= k < t.len() && t[k] == without_image(s[i]);
        if favorite_matches(s.last(), favorite) && contains_ci(s.last().content, keyword) {
            assert(select_matching(s, keyword, favorite)[k] == t[k]);
        }
    } else {
        let u = select_matching(s, keyword, favorite);
        assert(u[u.len() - 1] == without_image(s[i]));
    }
}

proof fn lemma_select_matching_from(s: Seq<RecordView>, keyword: Seq<char>, favorite: Option<bool>, k: int)
    requires
        0 <= k < select_matching(s, keyword, favorite).len(),
    ensures
        is_stored_hit(s, keyword, favorite, select_matching(s, keyword, favorite)[k]),
    decreases s.len(),
{
    let d = s.drop_last();
    let t = select_matching(d, keyword, favorite);
    if k < t.len() {
        lemma_select_matching_from(d, keyword, favorite, k);
        let i = choose|i: int| 0 <= i < d.len() && search_hit(#[trigger] d[i], keyword, favorite)
            && t[k] == without_image(d[i]);
        assert(s[i] == d[i]);
    } else {
        assert(search_hit(s[s.len() - 1], keyword, favorite));
    }
}

/// A search returns only stored records it should find (without their
/// images), and when no more than `limit` records should be found (with
/// `limit` at most the page cap) it returns every one of them, whatever
/// their pinned flag or other fields.
pub proof fn search_finds_every_match(records: Seq<RecordView>, keyword: Seq<char>, favorite: Option<bool>, limit: i32)
    ensures
        forall|k: int| 0 <= k < search_listing(records, keyword, favorite, limit).len()
            ==> is_stored_hit(records, keyword, favorite, #[trigger] search_listing(records, keyword, favorite, limit)[k]),
        records.filter(|r: RecordView| search_hit(r, keyword, favorite)).len() <= limit <= 500 ==>
            forall|i: int| 0 <= i < records.len() && search_hit(#[trigger] records[i], keyword, favorite)
                ==> search_listing(records, keyword, favorite, limit).contains(without_image(records[i])),
{
    let sel = select_matching(records, keyword, favorite);
    let sorted = listing_order(sel);
    let res = search_listing(records, keyword, favorite, limit);
    lemma_listing_order_len(sel);
    lemma_listing_order_multiset(sel);
    assert forall|k: int| 0 <= k < res.len() implies is_stored_hit(records, keyword, favorite, #[trigger] res[k]) by {
        let lo = if 0 < sorted.len() { 0int } else { sorted.len() as int };
        assert(res[k] == sorted[lo + k]);
        lemma_listing_order_from(sel, lo + k);
        let a = choose|a: int| 0 <= a < sel.len() && sel[a] == sorted[lo + k];
        lemma_select_matching_from(records, keyword, favorite, a);
    }
    if records.filter(|r: RecordView| search_hit(r, keyword, favorite)).len() <= limit <= 500 {
        lemma_select_matching_count(records, keyword, favorite);
        assert(res =~= sorted);
        assert forall|i: int| 0 <= i < records.len() && search_hit(#[trigger] records[i], keyword, favorite)
            implies res.contains(without_image(records[i])) by {
            lemma_select_matching_keep(records, keyword, favorite, i);
            let w = without_image(records[i]);
            assert(sel.to_multiset().count(w) > 0);
            assert(sorted.to_multiset().count(w) > 0);
        }
    }
}

// ---------------------------------------------------------------------------
// Saving settings applies the age limit
// ---------------------------------------------------------------------------

/// After settings with an age limit of `keep_days` days are applied at time
/// `now` (milliseconds), no record is left that is not a favourite and whose
/// timestamp lies more than `keep_days` days before `now`; favourites all
/// stay.
pub proof fn saved_settings_expire_old_records(records: Seq<RecordView>, settings: crate::models::SettingsView, now: int)
    ensures
        forall|i: int| 0 <= i < retain(records, settings, now).len() && settings.keep_days > 0
            && !(#[trigger] retain(records, settings, now)[i]).is_favorite ==>
            !(timestamp_of(retain(records, settings, now)[i].created_at) matches Some(t)
                && t < now - settings.keep_days * 86_400_000),
        forall|j: int| 0 <= j < records.len() && (#[trigger] records[j]).is_favorite
            ==> retain(records, settings, now).contains(records[j]),
{
    let p = not_expired(at_least_zero(settings.keep_days), now);
    let aged = keep_where(records, p);
    let q = within_limit(aged, at_least_zero(settings.max_records));
    assert forall|i: int| 0 <= i < retain(records, settings, now).len() && settings.keep_days > 0
        && !(#[trigger] retain(records, settings, now)[i]).is_favorite implies
        !(timestamp_of(retain(records, settings, now)[i].created_at) matches Some(t)
            && t < now - settings.keep_days * 86_400_000) by {
        lemma_keep_where_subset(aged, q, i);
        let a = choose|a: int| 0 <= a < aged.len() && aged[a] == retain(records, settings, now)[i];
        lemma_keep_where_subset(records, p, a);
    }
    assert forall|j: int| 0 <= j < records.len() && (#[trigger] records[j]).is_favorite
        implies retain(records, settings, now).contains(records[j]) by {
        retention_keeps_favorites(records, settings, now, j);
    }
}

} // verus!
