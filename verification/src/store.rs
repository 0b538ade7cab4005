use vstd::prelude::*;

use crate::clock::{parse_timestamp_millis, timestamp_of};
use crate::models::{
    copy_image_data, default_settings, image_view, ClipboardRecord, ContentType,
    FavoriteTransferItem, RecordView, Settings, SettingsView,
};
use crate::text::{
    chars_of, contains_ci, contains_ignore_ascii_case, string_from_chars, trim, trim_bounds,
    trim_str,
};

verus! {

broadcast use vstd::seq_lib::group_seq_properties;

/// Largest page a listing or search hands out.
pub const MAX_PAGE_SIZE: i32 = 500;

/// Milliseconds in one day.
pub const DAY_MILLIS: i64 = 86_400_000;

// ---------------------------------------------------------------------------
// Ordering of the history listing
// ---------------------------------------------------------------------------

/// Lexicographic order of texts by code point (SQLite's `BINARY` collation,
/// which compares the UTF-8 bytes and so orders code points the same way).
pub open spec fn text_lt(a: Seq<char>, b: Seq<char>) -> bool
    decreases a.len(),
{
    if a.len() == 0 {
        b.len() > 0
    } else if b.len() == 0 {
        false
    } else if a[0] != b[0] {
        a[0] < b[0]
    } else {
        text_lt(a.drop_first(), b.drop_first())
    }
}

proof fn lemma_text_lt_step(a: Seq<char>, b: Seq<char>, i: int)
    requires
        0 <= i < a.len(),
        i < b.len(),
        a[i] == b[i],
    ensures
        text_lt(a.skip(i), b.skip(i)) == text_lt(a.skip(i + 1), b.skip(i + 1)),
{
    assert(a.skip(i).drop_first() =~= a.skip(i + 1));
    assert(b.skip(i).drop_first() =~= b.skip(i + 1));
}

/// `a < b` in code-point lexicographic order.
pub fn text_less(a: &Vec<char>, b: &Vec<char>) -> (r: bool)
    ensures
        r == text_lt(a@, b@),
{
    let mut i: usize = 0;
    assert(a@.skip(0) =~= a@);
    assert(b@.skip(0) =~= b@);
    while i < a.len() && i < b.len()
        invariant
            i <= a.len(),
            i <= b.len(),
            text_lt(a@, b@) == text_lt(a@.skip(i as int), b@.skip(i as int)),
        decreases a.len() - i,
    {
        if a[i] != b[i] {
            assert(a@.skip(i as int)[0] == a@[i as int]);
            assert(b@.skip(i as int)[0] == b@[i as int]);
            return a[i] < b[i];
        }
        proof {
            lemma_text_lt_step(a@, b@, i as int);
        }
        i = i + 1;
    }
    i < b.len()
}

/// `a` is listed above `b` by the history ordering (created_at descending,
/// then id descending) that the count limit of the retention policy uses.
pub open spec fn ranks_above(a: RecordView, b: RecordView) -> bool {
    ||| text_lt(b.created_at, a.created_at)
    ||| (a.created_at == b.created_at && a.id > b.id)
}

/// `a` comes before `b` in a listing: pinned records first, then newer
/// `created_at` first, then larger id first.
pub open spec fn listed_before(a: RecordView, b: RecordView) -> bool {
    if a.is_pinned != b.is_pinned {
        a.is_pinned
    } else {
        ranks_above(a, b)
    }
}

/// `s` with `x` inserted in front of the first element it is listed before.
pub open spec fn insert_listed(s: Seq<RecordView>, x: RecordView) -> Seq<RecordView>
    decreases s.len(),
{
    if s.len() == 0 {
        seq![x]
    } else if listed_before(x, s[0]) {
        seq![x] + s
    } else {
        seq![s[0]] + insert_listed(s.drop_first(), x)
    }
}

/// The records of `s` in listing order (insertion sort, records taken in
/// storage order).
pub open spec fn listing_order(s: Seq<RecordView>) -> Seq<RecordView>
    decreases s.len(),
{
    if s.len() == 0 {
        s
    } else {
        insert_listed(listing_order(s.drop_last()), s.last())
    }
}

proof fn lemma_insert_listed_at(s: Seq<RecordView>, x: RecordView, i: int)
    requires
        0 <= i <= s.len(),
        forall|j: int| 0 <= j < i ==> !listed_before(x, #[trigger] s[j]),
        i < s.len() ==> listed_before(x, s[i]),
    ensures
        insert_listed(s, x) == s.take(i) + seq![x] + s.skip(i),
    decreases s.len(),
{
    if s.len() == 0 {
        assert(s.take(i) + seq![x] + s.skip(i) =~= seq![x]);
    } else if i == 0 {
        assert(s.take(0) + seq![x] + s.skip(0) =~= seq![x] + s);
    } else {
        let t = s.drop_first();
        assert forall|j: int| 0 <= j < i - 1 implies !listed_before(x, #[trigger] t[j]) by {
            assert(t[j] == s[j + 1]);
        }
        lemma_insert_listed_at(t, x, i - 1);
        assert(seq![s[0]] + (t.take(i - 1) + seq![x] + t.skip(i - 1)) =~= s.take(i) + seq![x]
            + s.skip(i));
    }
}

/// The value of each record of a vector.
pub open spec fn views(s: Seq<ClipboardRecord>) -> Seq<RecordView> {
    s.map_values(|r: ClipboardRecord| r@)
}

/// `a` comes before `b` in a listing.
pub fn record_listed_before(a: &ClipboardRecord, b: &ClipboardRecord) -> (r: bool)
    ensures
        r == listed_before(a@, b@),
{
    if a.is_pinned != b.is_pinned {
        return a.is_pinned;
    }
    record_ranks_above(a, b)
}

/// `a` ranks above `b` by creation time, then id.
pub fn record_ranks_above(a: &ClipboardRecord, b: &ClipboardRecord) -> (r: bool)
    ensures
        r == ranks_above(a@, b@),
{
    let ac = chars_of(a.created_at.as_str());
    let bc = chars_of(b.created_at.as_str());
    if text_less(&bc, &ac) {
        return true;
    }
    if a.created_at == b.created_at {
        a.id > b.id
    } else {
        false
    }
}

/// Sorts records into listing order.
pub fn sort_for_listing(v: Vec<ClipboardRecord>) -> (r: Vec<ClipboardRecord>)
    ensures
        views(r@) == listing_order(views(v@)),
{
    let mut out: Vec<ClipboardRecord> = Vec::new();
    let mut k: usize = 0;
    assert(views(v@).take(0) =~= Seq::<RecordView>::empty());
    while k < v.len()
        invariant
            k <= v.len(),
            views(out@) == listing_order(views(v@).take(k as int)),
        decreases v.len() - k,
    {
        let x = v[k].duplicate();
        let mut i: usize = 0;
        while i < out.len() && !record_listed_before(&x, &out[i])
            invariant
                i <= out.len(),
                forall|j: int| 0 <= j < i ==> !listed_before(x@, #[trigger] views(out@)[j]),
            decreases out.len() - i,
        {
            i = i + 1;
        }
        proof {
            lemma_insert_listed_at(views(out@), x@, i as int);
            let t = views(v@).take(k + 1);
            assert(t.drop_last() =~= views(v@).take(k as int));
            assert(t.last() == x@);
        }
        let ghost before = views(out@);
        out.insert(i, x);
        assert(views(out@) =~= before.take(i as int) + seq![x@] + before.skip(i as int));
        k = k + 1;
    }
    assert(views(v@).take(v.len() as int) =~= views(v@));
    out
}

// ---------------------------------------------------------------------------
// Selection and paging
// ---------------------------------------------------------------------------

/// The record as listings hand it out: without its image bytes.
pub open spec fn without_image(r: RecordView) -> RecordView {
    RecordView { image_data: None, ..r }
}

/// The record passes the optional favourite filter.
pub open spec fn favorite_matches(r: RecordView, favorite: Option<bool>) -> bool {
    match favorite {
        Some(f) => r.is_favorite == f,
        None => true,
    }
}

/// The records of `s` that pass the favourite filter, in storage order and
/// without image bytes.
pub open spec fn select_records(s: Seq<RecordView>, favorite: Option<bool>) -> Seq<RecordView>
    decreases s.len(),
{
    if s.len() == 0 {
        s
    } else {
        let rest = select_records(s.drop_last(), favorite);
        if favorite_matches(s.last(), favorite) {
            rest.push(without_image(s.last()))
        } else {
            rest
        }
    }
}

/// The records of `s` whose content holds `keyword` (ASCII case ignored)
/// and that pass the favourite filter, in storage order, without images.
pub open spec fn select_matching(s: Seq<RecordView>, keyword: Seq<char>, favorite: Option<bool>) -> Seq<RecordView>
    decreases s.len(),
{
    if s.len() == 0 {
        s
    } else {
        let rest = select_matching(s.drop_last(), keyword, favorite);
        if favorite_matches(s.last(), favorite) && contains_ci(s.last().content, keyword) {
            rest.push(without_image(s.last()))
        } else {
            rest
        }
    }
}

/// `limit` bounded to `0..=MAX_PAGE_SIZE`.
pub open spec fn bounded_limit(limit: i32) -> i32 {
    if limit < 0 {
        0
    } else if limit > MAX_PAGE_SIZE {
        MAX_PAGE_SIZE
    } else {
        limit
    }
}

/// `offset`, negative values read as zero.
pub open spec fn bounded_offset(offset: i32) -> i32 {
    if offset < 0 {
        0
    } else {
        offset
    }
}

/// Bounds a page size to `0..=500`.
pub fn normalize_limit(limit: i32) -> (r: i32)
    ensures
        r == bounded_limit(limit),
{
    if limit < 0 {
        0
    } else if limit > MAX_PAGE_SIZE {
        MAX_PAGE_SIZE
    } else {
        limit
    }
}

/// Reads a negative offset as zero.
pub fn normalize_offset(offset: i32) -> (r: i32)
    ensures
        r == bounded_offset(offset),
{
    if offset < 0 {
        0
    } else {
        offset
    }
}

/// The window `[offset, offset + limit)` of `s`, cut to its length; all of
/// `s` when there is no limit.
pub open spec fn page(s: Seq<RecordView>, limit: Option<int>, offset: int) -> Seq<RecordView> {
    match limit {
        None => s,
        Some(l) => {
            let lo = if offset < s.len() { offset } else { s.len() as int };
            let hi = if offset + l < s.len() { offset + l } else { s.len() as int };
            s.subrange(lo, hi)
        },
    }
}

/// What a listing call returns for the given stored records.
pub open spec fn listing(
    records: Seq<RecordView>,
    favorite: Option<bool>,
    limit: Option<i32>,
    offset: Option<i32>,
) -> Seq<RecordView> {
    let sorted = listing_order(select_records(records, favorite));
    let off = match offset {
        Some(o) => bounded_offset(o) as int,
        None => 0,
    };
    match limit {
        Some(l) => page(sorted, Some(bounded_limit(l) as int), off),
        None => sorted,
    }
}

/// What a search call returns for the given stored records.
pub open spec fn search_listing(
    records: Seq<RecordView>,
    keyword: Seq<char>,
    favorite: Option<bool>,
    limit: i32,
) -> Seq<RecordView> {
    page(listing_order(select_matching(records, keyword, favorite)), Some(bounded_limit(limit) as int), 0)
}

/// A copy of the record without its image bytes.
fn strip_image(r: &ClipboardRecord) -> (c: ClipboardRecord)
    ensures
        c@ == without_image(r@),
{
    ClipboardRecord {
        id: r.id,
        content_type: r.content_type,
        content: r.content.clone(),
        image_data: None,
        created_at: r.created_at.clone(),
        is_favorite: r.is_favorite,
        is_pinned: r.is_pinned,
    }
}

fn favorite_passes(r: &ClipboardRecord, favorite: Option<bool>) -> (b: bool)
    ensures
        b == favorite_matches(r@, favorite),
{
    match favorite {
        Some(f) => r.is_favorite == f,
        None => true,
    }
}

/// Copies `v[lo..hi]`.
fn copy_range(v: &Vec<ClipboardRecord>, lo: usize, hi: usize) -> (r: Vec<ClipboardRecord>)
    requires
        lo <= hi <= v.len(),
    ensures
        views(r@) == views(v@).subrange(lo as int, hi as int),
{
    let mut out: Vec<ClipboardRecord> = Vec::new();
    let mut k = lo;
    while k < hi
        invariant
            lo <= k <= hi <= v.len(),
            views(out@) == views(v@).subrange(lo as int, k as int),
        decreases hi - k,
    {
        let c = v[k].duplicate();
        let ghost before = views(out@);
        out.push(c);
        assert(views(out@) =~= before.push(c@));
        assert(views(v@)[k as int] == c@);
        assert(views(out@) =~= views(v@).subrange(lo as int, k + 1));
        k = k + 1;
    }
    out
}

/// The page `[offset, offset + limit)` of `v`.
fn take_page(v: Vec<ClipboardRecord>, limit: i32, offset: i32) -> (r: Vec<ClipboardRecord>)
    requires
        0 <= limit,
        0 <= offset,
    ensures
        views(r@) == page(views(v@), Some(limit as int), offset as int),
{
    let n = v.len();
    let lo: usize = if (offset as usize) < n { offset as usize } else { n };
    let hi: usize = if (offset as usize) < n && (limit as usize) < n - (offset as usize) {
        offset as usize + limit as usize
    } else {
        n
    };
    copy_range(&v, lo, hi)
}

// ---------------------------------------------------------------------------
// The store
// ---------------------------------------------------------------------------

/// Saved size of a window, by label.
#[derive(Clone, Debug)]
pub struct WindowState {
    pub label: String,
    pub width: u32,
    pub height: u32,
}

/// Errors of the history store.
#[derive(Clone, Copy, Debug, PartialEq, Eq, Structural)]
pub enum DbError {
    /// Every record id up to `i64::MAX` has been handed out, so no record
    /// can be added (SQLite answers `SQLITE_FULL` for an `AUTOINCREMENT`
    /// key in that state).
    IdSpaceExhausted,
}

impl DbError {
    /// The message shown for the error.
    pub fn message(&self) -> (s: String)
        ensures
            s@ == "数据库已满：记录编号已用尽"@,
    {
        String::from_str("数据库已满：记录编号已用尽")
    }
}

/// The clipboard history: records in storage (id) order, the largest id
/// ever handed out, the settings, and saved window sizes.
pub struct HistoryStore {
    records: Vec<ClipboardRecord>,
    last_id: i64,
    settings: Settings,
    window_states: Vec<WindowState>,
    clock_reads: Ghost<Seq<i64>>,
}

/// The mathematical value of the store.
pub struct StoreView {
    pub records: Seq<RecordView>,
    pub last_id: i64,
    pub settings: SettingsView,
    pub windows: Seq<(Seq<char>, u32, u32)>,
}

/// The value of each saved window size.
pub open spec fn window_views(s: Seq<WindowState>) -> Seq<(Seq<char>, u32, u32)> {
    s.map_values(|w: WindowState| (w.label@, w.width, w.height))
}

impl View for HistoryStore {
    type V = StoreView;

    closed spec fn view(&self) -> StoreView {
        StoreView {
            records: views(self.records@),
            last_id: self.last_id,
            settings: self.settings@,
            windows: window_views(self.window_states@),
        }
    }
}

/// Ids are positive, at most the last id handed out, and strictly
/// increasing in storage order; window labels are distinct.
pub open spec fn store_invariant(v: StoreView) -> bool {
    &&& 0 <= v.last_id
    &&& forall|i: int| 0 <= i < v.records.len() ==> 1 <= #[trigger] v.records[i].id <= v.last_id
    &&& forall|i: int, j: int|
        0 <= i < j < v.records.len() ==> #[trigger] v.records[i].id < #[trigger] v.records[j].id
    &&& forall|i: int, j: int|
        0 <= i < j < v.windows.len() ==> #[trigger] v.windows[i].0 != #[trigger] v.windows[j].0
}

impl HistoryStore {
    /// The store is well formed.
    pub open spec fn wf(&self) -> bool {
        store_invariant(self@)
    }

    /// The times read from the system clock for this store's operations, in
    /// order.
    pub closed spec fn clock_reads(&self) -> Seq<i64> {
        self.clock_reads@
    }

    /// Reads the system clock (milliseconds since the epoch) for an operation
    /// on this store and notes the time read.
    pub fn read_clock(&mut self) -> (t: i64)
        ensures
            final(self)@ == old(self)@,
            final(self).clock_reads() == old(self).clock_reads().push(t),
    {
        let t = crate::clock::current_time_millis();
        self.clock_reads = Ghost(self.clock_reads@.push(t));
        t
    }

    /// An empty history with the default settings.
    pub fn new() -> (s: HistoryStore)
        ensures
            s.wf(),
            s@.records.len() == 0,
            s@.last_id == 0,
            s@.settings == default_settings(),
            s@.windows.len() == 0,
    {
        let s = HistoryStore {
            records: Vec::new(),
            last_id: 0,
            settings: Settings::default(),
            window_states: Vec::new(),
            clock_reads: Ghost(Seq::empty()),
        };
        assert(views(s.records@) =~= Seq::<RecordView>::empty());
        assert(window_views(s.window_states@) =~= Seq::<(Seq<char>, u32, u32)>::empty());
        s
    }

    /// The stored records in storage order, with their image bytes.
    pub fn records(&self) -> (r: &Vec<ClipboardRecord>)
        ensures
            views(r@) == self@.records,
    {
        &self.records
    }

    /// The largest id handed out so far.
    pub fn last_id(&self) -> (r: i64)
        ensures
            r == self@.last_id,
    {
        self.last_id
    }

    /// The saved window sizes.
    pub fn window_states(&self) -> (r: &Vec<WindowState>)
        ensures
            window_views(r@) == self@.windows,
    {
        &self.window_states
    }

    /// The current settings.
    pub fn get_settings(&self) -> (r: Settings)
        ensures
            r@ == self@.settings,
    {
        self.settings.duplicate()
    }

    /// Listing of records: the optional favourite filter, pinned records
    /// first, then newest `created_at`, then newest id; the page
    /// `[offset, offset + limit)` when a limit is given (limit bounded to
    /// `0..=500`, negative offset read as 0); images left out.
    pub fn get_records(&self, is_favorite: Option<bool>, limit: Option<i32>, offset: Option<i32>) -> (r: Vec<ClipboardRecord>)
        ensures
            views(r@) == listing(self@.records, is_favorite, limit, offset),
    {
        let mut selected: Vec<ClipboardRecord> = Vec::new();
        let mut k: usize = 0;
        assert(views(self.records@).take(0) =~= Seq::<RecordView>::empty());
        while k < self.records.len()
            invariant
                k <= self.records.len(),
                views(selected@) == select_records(views(self.records@).take(k as int), is_favorite),
            decreases self.records.len() - k,
        {
            proof {
                let t = views(self.records@).take(k + 1);
                assert(t.drop_last() =~= views(self.records@).take(k as int));
            }
            if favorite_passes(&self.records[k], is_favorite) {
                selected.push(strip_image(&self.records[k]));
            }
            k = k + 1;
        }
        assert(views(self.records@).take(self.records.len() as int) =~= views(self.records@));
        let sorted = sort_for_listing(selected);
        match limit {
            Some(l) => {
                let lim = normalize_limit(l);
                let off = match offset {
                    Some(o) => normalize_offset(o),
                    None => 0,
                };
                take_page(sorted, lim, off)
            },
            None => sorted,
        }
    }

    /// Search: records whose content holds `keyword` with ASCII case
    /// ignored and every character taken literally (`%`, `_` and `\`
    /// included), optional favourite filter, listing order, at most
    /// `limit` (bounded to `0..=500`) records, images left out.
    pub fn search_records(&self, keyword: &str, is_favorite: Option<bool>, limit: i32) -> (r: Vec<ClipboardRecord>)
        ensures
            views(r@) == search_listing(self@.records, keyword@, is_favorite, limit),
    {
        let kw = chars_of(keyword);
        let mut selected: Vec<ClipboardRecord> = Vec::new();
        let mut k: usize = 0;
        assert(views(self.records@).take(0) =~= Seq::<RecordView>::empty());
        while k < self.records.len()
            invariant
                k <= self.records.len(),
                kw@ == keyword@,
                views(selected@) == select_matching(views(self.records@).take(k as int), keyword@, is_favorite),
            decreases self.records.len() - k,
        {
            proof {
                let t = views(self.records@).take(k + 1);
                assert(t.drop_last() =~= views(self.records@).take(k as int));
            }
            let content = chars_of(self.records[k].content.as_str());
            if favorite_passes(&self.records[k], is_favorite) && contains_ignore_ascii_case(&content, &kw) {
                selected.push(strip_image(&self.records[k]));
            }
            k = k + 1;
        }
        assert(views(self.records@).take(self.records.len() as int) =~= views(self.records@));
        let sorted = sort_for_listing(selected);
        take_page(sorted, normalize_limit(limit), 0)
    }

    /// The record with the given id, image bytes included.
    pub fn get_record_by_id(&self, id: i64) -> (r: Option<ClipboardRecord>)
        requires
            self.wf(),
        ensures
            match r {
                Some(rec) => exists|i: int| 0 <= i < self@.records.len() && #[trigger] self@.records[i] == rec@ && rec@.id == id,
                None => forall|i: int| 0 <= i < self@.records.len() ==> #[trigger] self@.records[i].id != id,
            },
    {
        let mut k: usize = 0;
        while k < self.records.len()
            invariant
                k <= self.records.len(),
                forall|i: int| 0 <= i < k ==> #[trigger] views(self.records@)[i].id != id,
            decreases self.records.len() - k,
        {
            if self.records[k].id == id {
                let rec = self.records[k].duplicate();
                assert(views(self.records@)[k as int] == rec@);
                return Some(rec);
            }
            k = k + 1;
        }
        None
    }
}

// ---------------------------------------------------------------------------
// Record filters and their invariants
// ---------------------------------------------------------------------------

/// The records of `s` that satisfy `p`, in order.
pub open spec fn keep_where(s: Seq<RecordView>, p: spec_fn(RecordView) -> bool) -> Seq<RecordView>
    decreases s.len(),
{
    if s.len() == 0 {
        s
    } else {
        let rest = keep_where(s.drop_last(), p);
        if p(s.last()) {
            rest.push(s.last())
        } else {
            rest
        }
    }
}

/// Ids strictly increase along `s` and lie in `[lo, hi]`.
pub open spec fn ids_ordered_within(s: Seq<RecordView>, lo: int, hi: int) -> bool {
    &&& forall|i: int| 0 <= i < s.len() ==> lo <= #[trigger] s[i].id <= hi
    &&& forall|i: int, j: int| 0 <= i < j < s.len() ==> #[trigger] s[i].id < #[trigger] s[j].id
}

pub(crate) proof fn lemma_keep_where_ordered(s: Seq<RecordView>, p: spec_fn(RecordView) -> bool, lo: int, hi: int)
    requires
        ids_ordered_within(s, lo, hi),
    ensures
        ids_ordered_within(keep_where(s, p), lo, hi),
    decreases s.len(),
{
    if s.len() > 0 {
        let d = s.drop_last();
        assert(ids_ordered_within(d, lo, s.last().id - 1)) by {
            assert forall|i: int| 0 <= i < d.len() implies lo <= #[trigger] d[i].id <= s.last().id - 1 by {
                assert(d[i] == s[i]);
                assert(s[i].id < s[s.len() - 1].id);
            }
        }
        lemma_keep_where_ordered(d, p, lo, s.last().id - 1);
    }
}

pub(crate) proof fn lemma_keep_where_keeps(s: Seq<RecordView>, p: spec_fn(RecordView) -> bool, i: int)
    requires
        0 <= i < s.len(),
        p(s[i]),
    ensures
        keep_where(s, p).contains(s[i]),
    decreases s.len(),
{
    if i == s.len() - 1 {
        assert(keep_where(s, p).last() == s[i]);
    } else {
        lemma_keep_where_keeps(s.drop_last(), p, i);
        let k = keep_where(s.drop_last(), p);
        let j = choose|j: int| 0 <= j < k.len() && k[j] == s[i];
        if p(s.last()) {
            assert(k.push(s.last())[j] == s[i]);
        }
    }
}

pub(crate) proof fn lemma_keep_where_subset(s: Seq<RecordView>, p: spec_fn(RecordView) -> bool, i: int)
    requires
        0 <= i < keep_where(s, p).len(),
    ensures
        s.contains(keep_where(s, p)[i]),
        p(keep_where(s, p)[i]),
    decreases s.len(),
{
    let d = s.drop_last();
    let k = keep_where(d, p);
    if i < k.len() {
        lemma_keep_where_subset(d, p, i);
        let j = choose|j: int| 0 <= j < d.len() && d[j] == k[i];
        assert(s[j] == d[j]);
    } else {
        assert(keep_where(s, p)[i] == s.last());
    }
}

// ---------------------------------------------------------------------------
// Retention policy
// ---------------------------------------------------------------------------

/// A non-favourite whose timestamp lies more than `keep_days` days before
/// `now` (no age limit when `keep_days` is 0; unreadable timestamps never
/// expire).
pub open spec fn is_expired(r: RecordView, keep_days: int, now: int) -> bool {
    &&& !r.is_favorite
    &&& keep_days > 0
    &&& match timestamp_of(r.created_at) {
        Some(t) => t < now - keep_days * DAY_MILLIS,
        None => false,
    }
}

pub open spec fn not_expired(keep_days: int, now: int) -> spec_fn(RecordView) -> bool {
    |r: RecordView| !is_expired(r, keep_days, now)
}

/// How many non-favourites of `s` rank above `r`.
pub open spec fn newer_count(s: Seq<RecordView>, r: RecordView) -> nat
    decreases s.len(),
{
    if s.len() == 0 {
        0
    } else {
        newer_count(s.drop_last(), r) + if !s.last().is_favorite && ranks_above(s.last(), r) {
            1nat
        } else {
            0nat
        }
    }
}

/// A non-favourite outside the newest `max_records` non-favourites of `s`
/// (no count limit when `max_records` is 0).
pub open spec fn is_over_limit(s: Seq<RecordView>, r: RecordView, max_records: int) -> bool {
    &&& !r.is_favorite
    &&& max_records > 0
    &&& newer_count(s, r) >= max_records
}

pub open spec fn within_limit(s: Seq<RecordView>, max_records: int) -> spec_fn(RecordView) -> bool {
    |r: RecordView| !is_over_limit(s, r, max_records)
}

/// `v` clamped below at 0.
pub open spec fn at_least_zero(v: i32) -> int {
    if v < 0 {
        0
    } else {
        v as int
    }
}

/// The records that the retention policy keeps: first the expired
/// non-favourites go, then the non-favourites beyond the newest
/// `max_records`. Favourites always stay.
pub open spec fn retain(s: Seq<RecordView>, settings: SettingsView, now: int) -> Seq<RecordView> {
    let aged = keep_where(s, not_expired(at_least_zero(settings.keep_days), now));
    keep_where(aged, within_limit(aged, at_least_zero(settings.max_records)))
}

fn record_expired(r: &ClipboardRecord, keep_days: i32, now: i64) -> (b: bool)
    requires
        keep_days >= 0,
    ensures
        b == is_expired(r@, keep_days as int, now as int),
{
    if r.is_favorite || keep_days <= 0 {
        return false;
    }
    match parse_timestamp_millis(r.created_at.as_str()) {
        Some(t) => (t as i128) < (now as i128) - (keep_days as i128) * (DAY_MILLIS as i128),
        None => false,
    }
}

fn count_newer(s: &Vec<ClipboardRecord>, r: &ClipboardRecord) -> (c: usize)
    ensures
        c == newer_count(views(s@), r@),
{
    let mut c: usize = 0;
    let mut k: usize = 0;
    assert(views(s@).take(0) =~= Seq::<RecordView>::empty());
    while k < s.len()
        invariant
            k <= s.len(),
            c == newer_count(views(s@).take(k as int), r@),
            c <= k,
        decreases s.len() - k,
    {
        proof {
            let t = views(s@).take(k + 1);
            assert(t.drop_last() =~= views(s@).take(k as int));
        }
        if !s[k].is_favorite && record_ranks_above(&s[k], r) {
            c = c + 1;
        }
        k = k + 1;
    }
    assert(views(s@).take(s.len() as int) =~= views(s@));
    c
}

/// Applies the retention policy of `settings` at time `now`.
fn retained(records: &Vec<ClipboardRecord>, settings: &Settings, now: i64) -> (r: Vec<ClipboardRecord>)
    ensures
        views(r@) == retain(views(records@), settings@, now as int),
{
    let keep_days: i32 = if settings.keep_days < 0 { 0 } else { settings.keep_days };
    let max_records: i32 = if settings.max_records < 0 { 0 } else { settings.max_records };
    let ghost p = not_expired(keep_days as int, now as int);
    let mut aged: Vec<ClipboardRecord> = Vec::new();
    let mut k: usize = 0;
    assert(views(records@).take(0) =~= Seq::<RecordView>::empty());
    while k < records.len()
        invariant
            k <= records.len(),
            keep_days >= 0,
            p == not_expired(keep_days as int, now as int),
            views(aged@) == keep_where(views(records@).take(k as int), p),
        decreases records.len() - k,
    {
        proof {
            let t = views(records@).take(k + 1);
            assert(t.drop_last() =~= views(records@).take(k as int));
        }
        if !record_expired(&records[k], keep_days, now) {
            let c = records[k].duplicate();
            let ghost before = views(aged@);
            aged.push(c);
            assert(views(aged@) =~= before.push(c@));
        }
        k = k + 1;
    }
    assert(views(records@).take(records.len() as int) =~= views(records@));
    let ghost a = views(aged@);
    let ghost q = within_limit(a, max_records as int);
    let mut out: Vec<ClipboardRecord> = Vec::new();
    let mut k: usize = 0;
    assert(a.take(0) =~= Seq::<RecordView>::empty());
    while k < aged.len()
        invariant
            k <= aged.len(),
            a == views(aged@),
            max_records >= 0,
            q == within_limit(a, max_records as int),
            views(out@) == keep_where(a.take(k as int), q),
        decreases aged.len() - k,
    {
        proof {
            let t = a.take(k + 1);
            assert(t.drop_last() =~= a.take(k as int));
        }
        let over = !aged[k].is_favorite && max_records > 0 && count_newer(&aged, &aged[k]) >= max_records as usize;
        if !over {
            let c = aged[k].duplicate();
            let ghost before = views(out@);
            out.push(c);
            assert(views(out@) =~= before.push(c@));
        }
        k = k + 1;
    }
    assert(a.take(aged.len() as int) =~= a);
    out
}

/// The retention policy never removes a favourite: every favourite of `s`
/// is still there after the policy of any settings runs at any time.
pub proof fn retention_keeps_favorites(s: Seq<RecordView>, settings: SettingsView, now: int, i: int)
    requires
        0 <= i < s.len(),
        s[i].is_favorite,
    ensures
        retain(s, settings, now).contains(s[i]),
{
    let p = not_expired(at_least_zero(settings.keep_days), now);
    lemma_keep_where_keeps(s, p, i);
    let aged = keep_where(s, p);
    let j = choose|j: int| 0 <= j < aged.len() && aged[j] == s[i];
    lemma_keep_where_keeps(aged, within_limit(aged, at_least_zero(settings.max_records)), j);
}

pub(crate) proof fn lemma_retain_ordered(s: Seq<RecordView>, settings: SettingsView, now: int, lo: int, hi: int)
    requires
        ids_ordered_within(s, lo, hi),
    ensures
        ids_ordered_within(retain(s, settings, now), lo, hi),
{
    let p = not_expired(at_least_zero(settings.keep_days), now);
    lemma_keep_where_ordered(s, p, lo, hi);
    let aged = keep_where(s, p);
    lemma_keep_where_ordered(aged, within_limit(aged, at_least_zero(settings.max_records)), lo, hi);
}

// ---------------------------------------------------------------------------
// Adding records
// ---------------------------------------------------------------------------

/// Records that are merged with an earlier copy instead of stored twice:
/// everything but images, once the content is not blank.
pub open spec fn is_dedup_target(r: RecordView) -> bool {
    r.content_type != ContentType::Image && trim(r.content).len() > 0
}

/// Same content type and identical content.
pub open spec fn same_entry(a: RecordView, x: RecordView) -> bool {
    a.content_type == x.content_type && a.content == x.content
}

/// `a` is preferred to `b` as the copy to keep: favourite first, then
/// pinned, then the newer `created_at`.
pub open spec fn preferred_keeper(a: RecordView, b: RecordView) -> bool {
    if a.is_favorite != b.is_favorite {
        a.is_favorite
    } else if a.is_pinned != b.is_pinned {
        a.is_pinned
    } else {
        text_lt(b.created_at, a.created_at)
    }
}

/// Position of the copy of `x` that is kept: the most preferred copy in
/// `s`, the earliest one among equally preferred copies.
pub open spec fn keeper(s: Seq<RecordView>, x: RecordView) -> Option<int>
    decreases s.len(),
{
    if s.len() == 0 {
        None
    } else {
        let b = keeper(s.drop_last(), x);
        if same_entry(s.last(), x) && (b is None || preferred_keeper(s.last(), s[b->0])) {
            Some(s.len() - 1)
        } else {
            b
        }
    }
}

pub(crate) proof fn lemma_keeper_valid(s: Seq<RecordView>, x: RecordView)
    ensures
        keeper(s, x) matches Some(k) ==> 0 <= k < s.len() && same_entry(s[k], x),
    decreases s.len(),
{
    if s.len() > 0 {
        lemma_keeper_valid(s.drop_last(), x);
    }
}

/// The copy kept when `x` is added to `s`, if any.
pub open spec fn dedup_keeper(s: Seq<RecordView>, x: RecordView) -> Option<int> {
    if is_dedup_target(x) {
        keeper(s, x)
    } else {
        None
    }
}

/// The kept copy after `x` was added again: `x`'s timestamp, and favourite
/// and pinned when either copy was.
pub open spec fn merged_keeper(old: RecordView, x: RecordView) -> RecordView {
    RecordView {
        created_at: x.created_at,
        is_favorite: old.is_favorite || x.is_favorite,
        is_pinned: old.is_pinned || x.is_pinned,
        ..old
    }
}

pub open spec fn merge_map(keep_id: i64, x: RecordView) -> spec_fn(RecordView) -> RecordView {
    |r: RecordView| if r.id == keep_id { merged_keeper(r, x) } else { r }
}

pub open spec fn not_other_copy(keep_id: i64, x: RecordView) -> spec_fn(RecordView) -> bool {
    |r: RecordView| r.id == keep_id || !same_entry(r, x)
}

/// `s` with the copy `keep_id` merged with `x` and every other copy of `x`
/// removed.
pub open spec fn merge_duplicates(s: Seq<RecordView>, keep_id: i64, x: RecordView) -> Seq<RecordView> {
    keep_where(s.map_values(merge_map(keep_id, x)), not_other_copy(keep_id, x))
}

/// `x` stored under the id `id`.
pub open spec fn new_record(x: RecordView, id: i64) -> RecordView {
    RecordView { id, ..x }
}

/// The id returned and the store left by adding `x` at time `now`.
pub open spec fn after_add(v: StoreView, x: RecordView, now: int) -> (Result<i64, DbError>, StoreView) {
    match dedup_keeper(v.records, x) {
        Some(k) => {
            let id = v.records[k].id;
            (Ok(id), StoreView { records: retain(merge_duplicates(v.records, id, x), v.settings, now), ..v })
        },
        None => if v.last_id == i64::MAX {
            (Err(DbError::IdSpaceExhausted), v)
        } else {
            let id = (v.last_id + 1) as i64;
            (
                Ok(id),
                StoreView {
                    records: retain(v.records.push(new_record(x, id)), v.settings, now),
                    last_id: id,
                    ..v
                },
            )
        },
    }
}

fn is_same_entry(a: &ClipboardRecord, x: &ClipboardRecord) -> (b: bool)
    ensures
        b == same_entry(a@, x@),
{
    a.content_type == x.content_type && a.content == x.content
}

fn record_preferred(a: &ClipboardRecord, b: &ClipboardRecord) -> (r: bool)
    ensures
        r == preferred_keeper(a@, b@),
{
    if a.is_favorite != b.is_favorite {
        a.is_favorite
    } else if a.is_pinned != b.is_pinned {
        a.is_pinned
    } else {
        let ac = chars_of(a.created_at.as_str());
        let bc = chars_of(b.created_at.as_str());
        text_less(&bc, &ac)
    }
}

fn find_keeper(s: &Vec<ClipboardRecord>, x: &ClipboardRecord) -> (r: Option<usize>)
    ensures
        match r {
            Some(k) => keeper(views(s@), x@) == Some(k as int),
            None => keeper(views(s@), x@) is None,
        },
{
    let mut best: Option<usize> = None;
    let mut k: usize = 0;
    assert(views(s@).take(0) =~= Seq::<RecordView>::empty());
    while k < s.len()
        invariant
            k <= s.len(),
            match best {
                Some(b) => b < k && keeper(views(s@).take(k as int), x@) == Some(b as int),
                None => keeper(views(s@).take(k as int), x@) is None,
            },
        decreases s.len() - k,
    {
        proof {
            let t = views(s@).take(k + 1);
            assert(t.drop_last() =~= views(s@).take(k as int));
            if let Some(b) = best {
                assert(t[b as int] == views(s@)[b as int]);
            }
        }
        if is_same_entry(&s[k], x) {
            match best {
                None => {
                    best = Some(k);
                },
                Some(b) => {
                    if record_preferred(&s[k], &s[b]) {
                        best = Some(k);
                    }
                },
            }
        }
        k = k + 1;
    }
    assert(views(s@).take(s.len() as int) =~= views(s@));
    best
}

fn merge_into(s: &Vec<ClipboardRecord>, keep_id: i64, x: &ClipboardRecord) -> (r: Vec<ClipboardRecord>)
    ensures
        views(r@) == merge_duplicates(views(s@), keep_id, x@),
{
    let ghost m = views(s@).map_values(merge_map(keep_id, x@));
    let ghost p = not_other_copy(keep_id, x@);
    let mut out: Vec<ClipboardRecord> = Vec::new();
    let mut k: usize = 0;
    assert(m.take(0) =~= Seq::<RecordView>::empty());
    while k < s.len()
        invariant
            k <= s.len(),
            m == views(s@).map_values(merge_map(keep_id, x@)),
            p == not_other_copy(keep_id, x@),
            views(out@) == keep_where(m.take(k as int), p),
        decreases s.len() - k,
    {
        proof {
            let t = m.take(k + 1);
            assert(t.drop_last() =~= m.take(k as int));
            assert(t.last() == m[k as int]);
        }
        let r = &s[k];
        if r.id == keep_id {
            let c = ClipboardRecord {
                id: r.id,
                content_type: r.content_type,
                content: r.content.clone(),
                image_data: copy_image_data(&r.image_data),
                created_at: x.created_at.clone(),
                is_favorite: r.is_favorite || x.is_favorite,
                is_pinned: r.is_pinned || x.is_pinned,
            };
            let ghost before = views(out@);
            out.push(c);
            assert(views(out@) =~= before.push(c@));
        } else if !is_same_entry(r, x) {
            let c = r.duplicate();
            let ghost before = views(out@);
            out.push(c);
            assert(views(out@) =~= before.push(c@));
        }
        k = k + 1;
    }
    assert(m.take(s.len() as int) =~= m);
    out
}

fn is_blank(text: &String) -> (b: bool)
    ensures
        b == (trim(text@).len() == 0),
{
    let v = chars_of(text.as_str());
    let (a, z) = trim_bounds(&v);
    a == z
}

impl HistoryStore {
    /// Adds a record at time `now`. A text, HTML or link record whose
    /// content is not blank is merged with the stored copy of the same type
    /// and content that is most preferred (favourite, pinned, newest): that
    /// copy takes the new timestamp and the union of the flags, all other
    /// copies are removed, and its id is returned. Otherwise the record is
    /// stored under the next id. Either way the retention policy of the
    /// current settings runs afterwards. Fails, changing nothing, when a new
    /// id is needed and none is left.
    pub fn add_record(&mut self, record: ClipboardRecord, now: i64) -> (r: Result<i64, DbError>)
        requires
            old(self).wf(),
        ensures
            final(self).wf(),
            (r, final(self)@) == after_add(old(self)@, record@, now as int),
            final(self).clock_reads() == old(self).clock_reads(),
    {
        let ghost v = self@;
        let target = record.content_type != ContentType::Image && !is_blank(&record.content);
        let found = if target {
            find_keeper(&self.records, &record)
        } else {
            None
        };
        proof {
            lemma_keeper_valid(v.records, record@);
        }
        match found {
            Some(k) => {
                let keep_id = self.records[k].id;
                let merged = merge_into(&self.records, keep_id, &record);
                proof {
                    let m = v.records.map_values(merge_map(keep_id, record@));
                    assert(ids_ordered_within(m, 1, v.last_id as int));
                    lemma_keep_where_ordered(m, not_other_copy(keep_id, record@), 1, v.last_id as int);
                    lemma_retain_ordered(views(merged@), v.settings, now as int, 1, v.last_id as int);
                }
                self.records = retained(&merged, &self.settings, now);
                Ok(keep_id)
            },
            None => {
                if self.last_id == i64::MAX {
                    return Err(DbError::IdSpaceExhausted);
                }
                let id = self.last_id + 1;
                let stored = ClipboardRecord {
                    id,
                    content_type: record.content_type,
                    content: record.content,
                    image_data: record.image_data,
                    created_at: record.created_at,
                    is_favorite: record.is_favorite,
                    is_pinned: record.is_pinned,
                };
                let mut grown: Vec<ClipboardRecord> = Vec::new();
                let mut k: usize = 0;
                while k < self.records.len()
                    invariant
                        k <= self.records.len(),
                        views(grown@) == views(self.records@).take(k as int),
                    decreases self.records.len() - k,
                {
                    let c = self.records[k].duplicate();
                    let ghost before = views(grown@);
                    grown.push(c);
                    assert(views(grown@) =~= before.push(c@));
                    assert(views(grown@) =~= views(self.records@).take(k + 1));
                    k = k + 1;
                }
                assert(views(self.records@).take(self.records.len() as int) =~= views(self.records@));
                let ghost before = views(grown@);
                grown.push(stored);
                assert(views(grown@) =~= v.records.push(new_record(record@, id)));
                proof {
                    assert(ids_ordered_within(views(grown@), 1, id as int));
                    lemma_retain_ordered(views(grown@), v.settings, now as int, 1, id as int);
                }
                self.records = retained(&grown, &self.settings, now);
                self.last_id = id;
                Ok(id)
            },
        }
    }
}

// ---------------------------------------------------------------------------
// Other changes to the store
// ---------------------------------------------------------------------------

pub open spec fn id_differs(id: i64) -> spec_fn(RecordView) -> bool {
    |r: RecordView| r.id != id
}

pub open spec fn outside_filter(favorite: Option<bool>) -> spec_fn(RecordView) -> bool {
    |r: RecordView| !favorite_matches(r, favorite)
}

/// The record after its flags are set to the given values (flags given as
/// `None` are left alone).
pub open spec fn with_status(r: RecordView, is_favorite: Option<bool>, is_pinned: Option<bool>) -> RecordView {
    RecordView {
        is_favorite: match is_favorite {
            Some(f) => f,
            None => r.is_favorite,
        },
        is_pinned: match is_pinned {
            Some(p) => p,
            None => r.is_pinned,
        },
        ..r
    }
}

pub open spec fn status_map(id: i64, is_favorite: Option<bool>, is_pinned: Option<bool>) -> spec_fn(RecordView) -> RecordView {
    |r: RecordView| if r.id == id { with_status(r, is_favorite, is_pinned) } else { r }
}

/// The saved size of the window `label`, if any.
pub open spec fn window_lookup(w: Seq<(Seq<char>, u32, u32)>, label: Seq<char>) -> Option<(u32, u32)> {
    if exists|i: int| 0 <= i < w.len() && (#[trigger] w[i]).0 == label {
        let i = choose|i: int| 0 <= i < w.len() && (#[trigger] w[i]).0 == label;
        Some((w[i].1, w[i].2))
    } else {
        None
    }
}

/// Keeps the records for which `keep` holds; the vector filter behind the
/// deleting operations.
fn filter_records(s: &Vec<ClipboardRecord>, id: Option<i64>, favorite: Option<bool>) -> (r: Vec<ClipboardRecord>)
    ensures
        views(r@) == match id {
            Some(d) => keep_where(views(s@), id_differs(d)),
            None => keep_where(views(s@), outside_filter(favorite)),
        },
{
    let ghost p = match id {
        Some(d) => id_differs(d),
        None => outside_filter(favorite),
    };
    let mut out: Vec<ClipboardRecord> = Vec::new();
    let mut k: usize = 0;
    assert(views(s@).take(0) =~= Seq::<RecordView>::empty());
    while k < s.len()
        invariant
            k <= s.len(),
            p == match id {
                Some(d) => id_differs(d),
                None => outside_filter(favorite),
            },
            views(out@) == keep_where(views(s@).take(k as int), p),
        decreases s.len() - k,
    {
        proof {
            let t = views(s@).take(k + 1);
            assert(t.drop_last() =~= views(s@).take(k as int));
        }
        let keep = match id {
            Some(d) => s[k].id != d,
            None => !favorite_passes(&s[k], favorite),
        };
        if keep {
            let c = s[k].duplicate();
            let ghost before = views(out@);
            out.push(c);
            assert(views(out@) =~= before.push(c@));
        }
        k = k + 1;
    }
    assert(views(s@).take(s.len() as int) =~= views(s@));
    out
}

proof fn lemma_keep_where_len(s: Seq<RecordView>, p: spec_fn(RecordView) -> bool)
    ensures
        keep_where(s, p).len() <= s.len(),
    decreases s.len(),
{
    if s.len() > 0 {
        lemma_keep_where_len(s.drop_last(), p);
    }
}

impl HistoryStore {
    /// Replaces the settings and runs the retention policy of the new
    /// settings at time `now`.
    pub fn save_settings(&mut self, settings: &Settings, now: i64)
        requires
            old(self).wf(),
        ensures
            final(self).wf(),
            final(self)@ == (StoreView {
                settings: settings@,
                records: retain(old(self)@.records, settings@, now as int),
                ..old(self)@
            }),
            final(self).clock_reads() == old(self).clock_reads(),
    {
        proof {
            lemma_retain_ordered(self@.records, settings@, now as int, 1, self@.last_id as int);
        }
        self.records = retained(&self.records, settings, now);
        self.settings = settings.duplicate();
    }

    /// Deletes the record with the given id; returns how many were deleted.
    pub fn delete_record(&mut self, id: i64) -> (n: usize)
        requires
            old(self).wf(),
        ensures
            final(self).wf(),
            final(self)@ == (StoreView { records: keep_where(old(self)@.records, id_differs(id)), ..old(self)@ }),
            n == old(self)@.records.len() - final(self)@.records.len(),
    {
        proof {
            lemma_keep_where_ordered(self@.records, id_differs(id), 1, self@.last_id as int);
            lemma_keep_where_len(self@.records, id_differs(id));
        }
        let before = self.records.len();
        self.records = filter_records(&self.records, Some(id), None);
        before - self.records.len()
    }

    /// Deletes the favourites (`Some(true)`), the non-favourites
    /// (`Some(false)`) or every record (`None`); returns how many went.
    pub fn clear_records(&mut self, is_favorite: Option<bool>) -> (n: usize)
        requires
            old(self).wf(),
        ensures
            final(self).wf(),
            final(self)@ == (StoreView { records: keep_where(old(self)@.records, outside_filter(is_favorite)), ..old(self)@ }),
            n == old(self)@.records.len() - final(self)@.records.len(),
    {
        proof {
            lemma_keep_where_ordered(self@.records, outside_filter(is_favorite), 1, self@.last_id as int);
            lemma_keep_where_len(self@.records, outside_filter(is_favorite));
        }
        let before = self.records.len();
        self.records = filter_records(&self.records, None, is_favorite);
        before - self.records.len()
    }

    /// Sets the favourite and/or pinned flag of the record with the given id
    /// (no change when no record has that id).
    pub fn update_record_status(&mut self, id: i64, is_favorite: Option<bool>, is_pinned: Option<bool>)
        requires
            old(self).wf(),
        ensures
            final(self).wf(),
            final(self)@ == (StoreView {
                records: old(self)@.records.map_values(status_map(id, is_favorite, is_pinned)),
                ..old(self)@
            }),
    {
        let ghost m = self@.records.map_values(status_map(id, is_favorite, is_pinned));
        let mut out: Vec<ClipboardRecord> = Vec::new();
        let mut k: usize = 0;
        while k < self.records.len()
            invariant
                k <= self.records.len(),
                m == views(self.records@).map_values(status_map(id, is_favorite, is_pinned)),
                views(out@) == m.take(k as int),
            decreases self.records.len() - k,
        {
            let r = &self.records[k];
            let c = if r.id == id {
                ClipboardRecord {
                    id: r.id,
                    content_type: r.content_type,
                    content: r.content.clone(),
                    image_data: copy_image_data(&r.image_data),
                    created_at: r.created_at.clone(),
                    is_favorite: match is_favorite {
                        Some(f) => f,
                        None => r.is_favorite,
                    },
                    is_pinned: match is_pinned {
                        Some(p) => p,
                        None => r.is_pinned,
                    },
                }
            } else {
                r.duplicate()
            };
            let ghost before = views(out@);
            out.push(c);
            assert(views(out@) =~= before.push(c@));
            assert(views(out@) =~= m.take(k + 1));
            k = k + 1;
        }
        assert(m.take(self.records.len() as int) =~= m);
        self.records = out;
    }

    /// The saved size of the window `label`.
    pub fn get_window_state(&self, label: &str) -> (r: Option<(u32, u32)>)
        requires
            self.wf(),
        ensures
            r == window_lookup(self@.windows, label@),
    {
        let want = String::from_str(label);
        let mut k: usize = 0;
        while k < self.window_states.len()
            invariant
                k <= self.window_states.len(),
                want@ == label@,
                self.wf(),
                forall|i: int| 0 <= i < k ==> (#[trigger] window_views(self.window_states@)[i]).0 != label@,
            decreases self.window_states.len() - k,
        {
            if self.window_states[k].label == want {
                proof {
                    let w = self@.windows;
                    assert(w[k as int].0 == label@);
                    let i = choose|i: int| 0 <= i < w.len() && (#[trigger] w[i]).0 == label@;
                    if i != k as int {
                        if i < k {
                        } else {
                            assert(w[k as int].0 != w[i].0);
                        }
                    }
                }
                return Some((self.window_states[k].width, self.window_states[k].height));
            }
            k = k + 1;
        }
        None
    }

    /// Saves the size of the window `label`, replacing any earlier one.
    pub fn save_window_state(&mut self, label: &str, width: u32, height: u32)
        requires
            old(self).wf(),
        ensures
            final(self).wf(),
            final(self)@.records == old(self)@.records,
            final(self)@.last_id == old(self)@.last_id,
            final(self)@.settings == old(self)@.settings,
            window_lookup(final(self)@.windows, label@) == Some((width, height)),
            forall|other: Seq<char>| other != label@ ==> window_lookup(final(self)@.windows, other) == window_lookup(old(self)@.windows, other),
    {
        let ghost w0 = self@.windows;
        let want = String::from_str(label);
        let mut k: usize = 0;
        while k < self.window_states.len() && !(self.window_states[k].label == want)
            invariant
                k <= self.window_states.len(),
                want@ == label@,
                w0 == window_views(self.window_states@),
                forall|i: int, j: int| 0 <= i < j < w0.len() ==> #[trigger] w0[i].0 != #[trigger] w0[j].0,
                forall|i: int| 0 <= i < k ==> (#[trigger] w0[i]).0 != label@,
            decreases self.window_states.len() - k,
        {
            k = k + 1;
        }
        assert(k < w0.len() ==> w0[k as int].0 == label@);
        let entry = WindowState { label: want, width, height };
        if k < self.window_states.len() {
            self.window_states.set(k, entry);
        } else {
            self.window_states.push(entry);
        }
        proof {
            let w1 = self@.windows;
            if k < w0.len() {
                assert(w1 =~= w0.update(k as int, (label@, width, height)));
            } else {
                assert(w1 =~= w0.push((label@, width, height)));
            }
            assert forall|i: int, j: int| 0 <= i < j < w1.len() implies #[trigger] w1[i].0 != #[trigger] w1[j].0 by {
                if i == k as int {
                    assert(w1[j] == w0[j]);
                    assert(w0[k as int].0 != w0[j].0);
                } else if j == k as int {
                    assert(w1[i] == w0[i]);
                } else {
                    assert(w1[i] == w0[i] && w1[j] == w0[j]);
                }
            }
            assert(w1[k as int].0 == label@);
            assert(window_lookup(w1, label@) == Some((width, height))) by {
                let i = choose|i: int| 0 <= i < w1.len() && (#[trigger] w1[i]).0 == label@;
                if i != k as int {
                    if i < k as int {
                        assert(w1[i] == w0[i]);
                    } else {
                        assert(w1[k as int].0 != w1[i].0);
                    }
                }
            }
            assert forall|other: Seq<char>| other != label@ implies window_lookup(w1, other) == window_lookup(w0, other) by {
                if exists|i: int| 0 <= i < w0.len() && (#[trigger] w0[i]).0 == other {
                    let i0 = choose|i: int| 0 <= i < w0.len() && (#[trigger] w0[i]).0 == other;
                    assert(i0 != k as int);
                    assert(w1[i0] == w0[i0]);
                    assert(w1[i0].0 == other);
                    let i1 = choose|i: int| 0 <= i < w1.len() && (#[trigger] w1[i]).0 == other;
                    assert(i1 != k as int);
                    assert(w1[i1] == w0[i1]);
                    if i1 != i0 {
                        if i1 < i0 {
                            assert(w1[i1].0 != w1[i0].0);
                        } else {
                            assert(w1[i0].0 != w1[i1].0);
                        }
                    }
                } else {
                    assert forall|i: int| 0 <= i < w1.len() implies (#[trigger] w1[i]).0 != other by {
                        if i != k as int {
                            assert(w1[i] == w0[i]);
                        }
                    }
                }
            }
        }
    }

    /// Rebuilds a store from persisted parts; `None` when they break the
    /// store's invariant (ids not positive, not increasing or above
    /// `last_id`; repeated window labels).
    pub fn from_parts(records: Vec<ClipboardRecord>, last_id: i64, settings: Settings, window_states: Vec<WindowState>) -> (r: Option<HistoryStore>)
        ensures
            match r {
                Some(s) => s@ == (StoreView {
                    records: views(records@),
                    last_id,
                    settings: settings@,
                    windows: window_views(window_states@),
                }) && s.wf(),
                None => !store_invariant(StoreView {
                    records: views(records@),
                    last_id,
                    settings: settings@,
                    windows: window_views(window_states@),
                }),
            },
    {
        let ghost rv = views(records@);
        let ghost wv = window_views(window_states@);
        if last_id < 0 {
            return None;
        }
        let mut k: usize = 0;
        while k < records.len()
            invariant
                k <= records.len(),
                rv == views(records@),
                forall|i: int| 0 <= i < k ==> 1 <= #[trigger] rv[i].id <= last_id,
                forall|i: int, j: int| 0 <= i < j < k ==> #[trigger] rv[i].id < #[trigger] rv[j].id,
            decreases records.len() - k,
        {
            assert(rv[k as int].id == records@[k as int].id);
            if records[k].id < 1 || records[k].id > last_id {
                return None;
            }
            if k > 0 && records[k - 1].id >= records[k].id {
                assert(rv[k - 1].id == records@[k - 1].id);
                return None;
            }
            proof {
                assert forall|i: int, j: int| 0 <= i < j < k + 1 implies #[trigger] rv[i].id < #[trigger] rv[j].id by {
                    if j == k as int && i < k - 1 {
                        assert(rv[i].id < rv[k - 1].id);
                    }
                }
            }
            k = k + 1;
        }
        let mut a: usize = 0;
        while a < window_states.len()
            invariant
                a <= window_states.len(),
                wv == window_views(window_states@),
                rv == views(records@),
                forall|i: int, j: int| 0 <= i < j < wv.len() && i < a ==> #[trigger] wv[i].0 != #[trigger] wv[j].0,
            decreases window_states.len() - a,
        {
            let mut b: usize = a + 1;
            while b < window_states.len()
                invariant
                    a < b <= window_states.len(),
                    wv == window_views(window_states@),
                    rv == views(records@),
                    forall|j: int| a < j < b ==> wv[a as int].0 != #[trigger] wv[j].0,
                decreases window_states.len() - b,
            {
                if window_states[a].label == window_states[b].label {
                    proof {
                        let sv = StoreView { records: rv, last_id, settings: settings@, windows: wv };
                        assert(sv.windows[a as int].0 == sv.windows[b as int].0);
                        assert(!store_invariant(sv));
                    }
                    return None;
                }
                b = b + 1;
            }
            a = a + 1;
        }
        Some(HistoryStore { records, last_id, settings, window_states, clock_reads: Ghost(Seq::empty()) })
    }
}

// ---------------------------------------------------------------------------
// LIKE patterns
// ---------------------------------------------------------------------------

/// One character of a `LIKE` operand with the escape character `\`: the
/// wildcards `%`, `_` and the escape itself get a `\` in front.
pub open spec fn like_escape_char(c: char) -> Seq<char> {
    if c == '\\' || c == '%' || c == '_' {
        seq!['\\', c]
    } else {
        seq![c]
    }
}

/// `s` with every `LIKE` wildcard and escape character escaped.
pub open spec fn like_escape(s: Seq<char>) -> Seq<char>
    decreases s.len(),
{
    if s.len() == 0 {
        s
    } else {
        like_escape_char(s[0]) + like_escape(s.drop_first())
    }
}

/// Reads an escaped `LIKE` operand back: `\c` stands for `c`.
pub open spec fn like_unescape(t: Seq<char>) -> Seq<char>
    decreases t.len(),
{
    if t.len() == 0 {
        t
    } else if t[0] == '\\' && t.len() >= 2 {
        seq![t[1]] + like_unescape(t.skip(2))
    } else {
        seq![t[0]] + like_unescape(t.drop_first())
    }
}

/// The `LIKE` pattern that finds `keyword` anywhere: `%`, the escaped
/// keyword, `%`.
pub open spec fn like_pattern(keyword: Seq<char>) -> Seq<char> {
    seq!['%'] + like_escape(keyword) + seq!['%']
}

/// Builds the `LIKE ... ESCAPE '\'` pattern that matches `keyword`
/// literally anywhere in a text.
pub fn escape_like_pattern(keyword: &str) -> (r: String)
    ensures
        r@ == like_pattern(keyword@),
{
    let kw = chars_of(keyword);
    let mut out: Vec<char> = Vec::new();
    out.push('%');
    let mut k: usize = kw.len();
    let mut tail: Vec<char> = Vec::new();
    // Built back to front so that each step prepends one escaped character.
    assert(kw@.skip(kw.len() as int) =~= Seq::<char>::empty());
    while k > 0
        invariant
            k <= kw.len(),
            tail@ == like_escape(kw@.skip(k as int)).reverse(),
        decreases k,
    {
        let c = kw[k - 1];
        proof {
            assert(kw@.skip(k - 1).drop_first() =~= kw@.skip(k as int));
            assert(kw@.skip(k - 1)[0] == c);
        }
        let ghost prev = tail@;
        tail.push(c);
        if c == '\\' || c == '%' || c == '_' {
            tail.push('\\');
            assert(tail@ =~= (seq!['\\', c] + like_escape(kw@.skip(k as int))).reverse());
        } else {
            assert(tail@ =~= (seq![c] + like_escape(kw@.skip(k as int))).reverse());
        }
        k = k - 1;
    }
    assert(kw@.skip(0) =~= kw@);
    let mut j: usize = tail.len();
    while j > 0
        invariant
            j <= tail.len(),
            tail@ == like_escape(kw@).reverse(),
            out@ == seq!['%'] + tail@.skip(j as int).reverse(),
        decreases j,
    {
        out.push(tail[j - 1]);
        assert(tail@.skip(j - 1).reverse() =~= tail@.skip(j as int).reverse().push(tail@[j - 1]));
        j = j - 1;
    }
    out.push('%');
    proof {
        assert(tail@.skip(0) =~= tail@);
        assert(like_escape(kw@).reverse().reverse() =~= like_escape(kw@));
        assert(out@ =~= like_pattern(keyword@));
    }
    string_from_chars(out.as_slice())
}

/// Escaping is undone by reading the operand back: the pattern's middle
/// part stands for exactly the keyword, wildcards and escapes included.
pub proof fn like_escape_round_trip(s: Seq<char>)
    ensures
        like_unescape(like_escape(s)) == s,
    decreases s.len(),
{
    if s.len() > 0 {
        let rest = s.drop_first();
        like_escape_round_trip(rest);
        let e = like_escape(s);
        let c = s[0];
        if c == '\\' || c == '%' || c == '_' {
            assert(e == seq!['\\', c] + like_escape(rest));
            assert(e.skip(2) =~= like_escape(rest));
            assert(like_unescape(e) =~= seq![c] + rest);
        } else {
            assert(e == seq![c] + like_escape(rest));
            assert(e.drop_first() =~= like_escape(rest));
            assert(like_unescape(e) =~= seq![c] + rest);
        }
        assert(s =~= seq![c] + rest);
    }
}

// ---------------------------------------------------------------------------
// Importing favourites
// ---------------------------------------------------------------------------

/// Key under which import matches an item with a stored record: content
/// type and trimmed content.
pub type ImportKey = (ContentType, Seq<char>);

/// Id and flags that import remembers for a key.
pub type ImportSlot = (i64, bool, bool);

/// The keys of the stored non-image records, read in listing order, a later
/// record replacing an earlier one with the same key.
pub open spec fn import_key_map(s: Seq<RecordView>) -> Map<ImportKey, ImportSlot>
    decreases s.len(),
{
    if s.len() == 0 {
        Map::empty()
    } else {
        let m = import_key_map(s.drop_last());
        let r = s.last();
        if r.content_type != ContentType::Image {
            m.insert((r.content_type, trim(r.content)), (r.id, r.is_favorite, r.is_pinned))
        } else {
            m
        }
    }
}

/// State of an import in progress.
pub struct ImportState {
    pub records: Seq<RecordView>,
    pub last_id: i64,
    pub keys: Map<ImportKey, ImportSlot>,
    pub count: int,
    pub failed: bool,
}

pub open spec fn favorite_pin_map(id: i64, pinned: bool) -> spec_fn(RecordView) -> RecordView {
    |r: RecordView| if r.id == id { RecordView { is_favorite: true, is_pinned: pinned, ..r } } else { r }
}

/// One imported item: blank or image items are skipped; an item whose key
/// is known makes that record a favourite (pinned if either was) and counts
/// when it was not a favourite yet; any other item is stored as a new
/// favourite and counts.
pub open spec fn import_step(st: ImportState, item: (ContentType, Seq<char>, bool), created_at: Seq<char>) -> ImportState {
    let content = trim(item.1);
    if st.failed || content.len() == 0 || item.0 == ContentType::Image {
        st
    } else {
        let key = (item.0, content);
        if st.keys.contains_key(key) {
            let (id, fav, pin) = st.keys[key];
            let merged = pin || item.2;
            ImportState {
                records: if !fav || merged != pin {
                    st.records.map_values(favorite_pin_map(id, merged))
                } else {
                    st.records
                },
                keys: st.keys.insert(key, (id, true, merged)),
                count: st.count + if !fav { 1int } else { 0int },
                ..st
            }
        } else if st.last_id == i64::MAX {
            ImportState { failed: true, ..st }
        } else {
            let id = (st.last_id + 1) as i64;
            ImportState {
                records: st.records.push(
                    RecordView {
                        id,
                        content_type: item.0,
                        content,
                        image_data: None,
                        created_at,
                        is_favorite: true,
                        is_pinned: item.2,
                    },
                ),
                last_id: id,
                keys: st.keys.insert(key, (id, true, item.2)),
                count: st.count + 1,
                failed: false,
            }
        }
    }
}

/// The import of `items`, one after the other.
pub open spec fn import_run(start: ImportState, items: Seq<(ContentType, Seq<char>, bool)>, created_at: Seq<char>) -> ImportState
    decreases items.len(),
{
    if items.len() == 0 {
        start
    } else {
        import_step(import_run(start, items.drop_last(), created_at), items.last(), created_at)
    }
}

/// The value of each transfer item.
pub open spec fn item_views(s: Seq<FavoriteTransferItem>) -> Seq<(ContentType, Seq<char>, bool)> {
    s.map_values(|i: FavoriteTransferItem| (i.content_type, i.content@, i.is_pinned))
}

/// The state an import of `items` into `v` starts from.
pub open spec fn import_start(v: StoreView) -> ImportState {
    ImportState {
        records: v.records,
        last_id: v.last_id,
        keys: import_key_map(listing_order(select_records(v.records, None))),
        count: 0,
        failed: false,
    }
}

/// Remembered keys of an import, held in a vector with distinct keys.
struct ImportEntry {
    content_type: ContentType,
    content: String,
    id: i64,
    is_favorite: bool,
    is_pinned: bool,
}

spec fn entry_key(e: ImportEntry) -> ImportKey {
    (e.content_type, e.content@)
}

spec fn entry_slot(e: ImportEntry) -> ImportSlot {
    (e.id, e.is_favorite, e.is_pinned)
}

spec fn entries_model(e: Seq<ImportEntry>, m: Map<ImportKey, ImportSlot>) -> bool {
    &&& forall|i: int, j: int| 0 <= i < j < e.len() ==> entry_key(#[trigger] e[i]) != entry_key(#[trigger] e[j])
    &&& forall|i: int| 0 <= i < e.len() ==> m.contains_key(entry_key(#[trigger] e[i])) && m[entry_key(e[i])] == entry_slot(e[i])
    &&& forall|k: ImportKey| #[trigger] m.contains_key(k) ==> exists|i: int| 0 <= i < e.len() && entry_key(#[trigger] e[i]) == k
}

fn find_entry(e: &Vec<ImportEntry>, content_type: ContentType, content: &String) -> (r: Option<usize>)
    ensures
        match r {
            Some(i) => i < e.len() && entry_key(e@[i as int]) == (content_type, content@),
            None => forall|i: int| 0 <= i < e.len() ==> entry_key(#[trigger] e@[i]) != (content_type, content@),
        },
{
    let mut k: usize = 0;
    while k < e.len()
        invariant
            k <= e.len(),
            forall|i: int| 0 <= i < k ==> entry_key(#[trigger] e@[i]) != (content_type, content@),
        decreases e.len() - k,
    {
        if e[k].content_type == content_type && e[k].content == *content {
            return Some(k);
        }
        k = k + 1;
    }
    None
}

/// Records `(key, slot)` in the entries: the slot replaces an existing one
/// for that key, or a new entry is added.
fn put_entry(e: &mut Vec<ImportEntry>, content_type: ContentType, content: String, slot: (i64, bool, bool), Ghost(m): Ghost<Map<ImportKey, ImportSlot>>)
    requires
        entries_model(old(e)@, m),
    ensures
        entries_model(final(e)@, m.insert((content_type, content@), slot)),
{
    let ghost key = (content_type, content@);
    let found = find_entry(e, content_type, &content);
    let entry = ImportEntry { content_type, content, id: slot.0, is_favorite: slot.1, is_pinned: slot.2 };
    let ghost e0 = e@;
    let ghost m1 = m.insert(key, slot);
    match found {
        Some(i) => {
            e.set(i, entry);
            proof {
                assert forall|a: int, b: int| 0 <= a < b < e@.len() implies entry_key(#[trigger] e@[a]) != entry_key(#[trigger] e@[b]) by {
                    if a != i && b != i {
                        assert(e@[a] == e0[a] && e@[b] == e0[b]);
                    } else if a == i {
                        assert(e@[b] == e0[b]);
                        assert(entry_key(e0[a]) != entry_key(e0[b]));
                    } else {
                        assert(e@[a] == e0[a]);
                        assert(entry_key(e0[a]) != entry_key(e0[b]));
                    }
                }
                assert forall|a: int| 0 <= a < e@.len() implies m1.contains_key(entry_key(#[trigger] e@[a])) && m1[entry_key(e@[a])] == entry_slot(e@[a]) by {
                    if a != i {
                        assert(e@[a] == e0[a]);
                        assert(entry_key(e0[a]) != entry_key(e0[i as int]));
                    }
                }
                assert forall|k: ImportKey| #[trigger] m1.contains_key(k) implies exists|a: int| 0 <= a < e@.len() && entry_key(#[trigger] e@[a]) == k by {
                    if k == key {
                        assert(entry_key(e@[i as int]) == k);
                    } else {
                        let a = choose|a: int| 0 <= a < e0.len() && entry_key(#[trigger] e0[a]) == k;
                        assert(a != i);
                        assert(e@[a] == e0[a]);
                    }
                }
            }
        },
        None => {
            e.push(entry);
            proof {
                assert forall|a: int, b: int| 0 <= a < b < e@.len() implies entry_key(#[trigger] e@[a]) != entry_key(#[trigger] e@[b]) by {
                    assert(e@[a] == e0[a]);
                    if b < e0.len() {
                        assert(e@[b] == e0[b]);
                    }
                }
                assert forall|a: int| 0 <= a < e@.len() implies m1.contains_key(entry_key(#[trigger] e@[a])) && m1[entry_key(e@[a])] == entry_slot(e@[a]) by {
                    if a < e0.len() {
                        assert(e@[a] == e0[a]);
                    }
                }
                assert forall|k: ImportKey| #[trigger] m1.contains_key(k) implies exists|a: int| 0 <= a < e@.len() && entry_key(#[trigger] e@[a]) == k by {
                    if k == key {
                        assert(entry_key(e@[e0.len() as int]) == k);
                    } else {
                        let a = choose|a: int| 0 <= a < e0.len() && entry_key(#[trigger] e0[a]) == k;
                        assert(e@[a] == e0[a]);
                    }
                }
            }
        },
    }
}

/// Sets favourite and pinned on the record with the given id.
fn mark_favorite(s: &mut Vec<ClipboardRecord>, id: i64, pinned: bool)
    ensures
        views(final(s)@) == views(old(s)@).map_values(favorite_pin_map(id, pinned)),
{
    let ghost target = views(s@).map_values(favorite_pin_map(id, pinned));
    let mut k: usize = 0;
    while k < s.len()
        invariant
            k <= s.len(),
            s.len() == target.len(),
            forall|i: int| 0 <= i < k ==> #[trigger] views(s@)[i] == target[i],
            forall|i: int| k <= i < s.len() ==> favorite_pin_map(id, pinned)(#[trigger] views(s@)[i]) == target[i],
        decreases s.len() - k,
    {
        if s[k].id == id {
            let r = &s[k];
            let c = ClipboardRecord {
                id: r.id,
                content_type: r.content_type,
                content: r.content.clone(),
                image_data: copy_image_data(&r.image_data),
                created_at: r.created_at.clone(),
                is_favorite: true,
                is_pinned: pinned,
            };
            let ghost before = views(s@);
            s.set(k, c);
            proof {
                assert(c@ == favorite_pin_map(id, pinned)(before[k as int]));
                assert forall|i: int| 0 <= i < s.len() && i != k implies #[trigger] views(s@)[i] == before[i] by {}
            }
        } else {
            assert(favorite_pin_map(id, pinned)(views(s@)[k as int]) == views(s@)[k as int]);
        }
        k = k + 1;
    }
    assert(views(s@) =~= target);
}

proof fn lemma_ordered_map(s: Seq<RecordView>, f: spec_fn(RecordView) -> RecordView, lo: int, hi: int)
    requires
        ids_ordered_within(s, lo, hi),
        forall|r: RecordView| #[trigger] f(r).id == r.id,
    ensures
        ids_ordered_within(s.map_values(f), lo, hi),
{
    let m = s.map_values(f);
    assert forall|i: int| 0 <= i < m.len() implies m[i].id == s[i].id by {
        assert(f(s[i]).id == s[i].id);
    }
}

proof fn lemma_import_failure_sticks(start: ImportState, items: Seq<(ContentType, Seq<char>, bool)>, created_at: Seq<char>, i: int, j: int)
    requires
        0 <= i <= j <= items.len(),
        import_run(start, items.take(i), created_at).failed,
    ensures
        import_run(start, items.take(j), created_at) == import_run(start, items.take(i), created_at),
    decreases j - i,
{
    if i < j {
        lemma_import_failure_sticks(start, items, created_at, i, j - 1);
        let t = items.take(j);
        assert(t.drop_last() =~= items.take(j - 1));
    }
}


/// The remembered keys of the listed records, as import starts with them.
fn import_entries(listing: &Vec<ClipboardRecord>) -> (e: Vec<ImportEntry>)
    ensures
        entries_model(e@, import_key_map(views(listing@))),
{
    let ghost lv = views(listing@);
    let mut entries: Vec<ImportEntry> = Vec::new();
    let mut k: usize = 0;
    assert(lv.take(0) =~= Seq::<RecordView>::empty());
    while k < listing.len()
        invariant
            k <= listing.len(),
            lv == views(listing@),
            entries_model(entries@, import_key_map(lv.take(k as int))),
        decreases listing.len() - k,
    {
        proof {
            let t = lv.take(k + 1);
            assert(t.drop_last() =~= lv.take(k as int));
        }
        let r = &listing[k];
        if r.content_type != ContentType::Image {
            let key_text = trim_str(r.content.as_str());
            put_entry(&mut entries, r.content_type, key_text, (r.id, r.is_favorite, r.is_pinned), Ghost(import_key_map(lv.take(k as int))));
        }
        k = k + 1;
    }
    assert(lv.take(listing.len() as int) =~= lv);
    entries
}

/// Applies one imported item; `false` when it needed a new id and none was
/// left.
fn import_item(
    records: &mut Vec<ClipboardRecord>,
    entries: &mut Vec<ImportEntry>,
    last_id: &mut i64,
    count: &mut i32,
    item: &FavoriteTransferItem,
    created_at: &str,
    Ghost(st): Ghost<ImportState>,
) -> (ok: bool)
    requires
        !st.failed,
        views(old(records)@) == st.records,
        *old(last_id) == st.last_id,
        entries_model(old(entries)@, st.keys),
        *old(count) == st.count,
        0 <= st.count < i32::MAX,
        0 <= st.last_id,
        ids_ordered_within(st.records, 1, st.last_id as int),
    ensures
        ({
            let nx = import_step(st, (item.content_type, item.content@, item.is_pinned), created_at@);
            &&& ok == !nx.failed
            &&& ok ==> {
                &&& views(final(records)@) == nx.records
                &&& *final(last_id) == nx.last_id
                &&& entries_model(final(entries)@, nx.keys)
                &&& *final(count) == nx.count
                &&& st.count <= nx.count <= st.count + 1
                &&& ids_ordered_within(nx.records, 1, nx.last_id as int)
                &&& st.last_id <= nx.last_id
            }
        }),
{
    let content = trim_str(item.content.as_str());
    let blank = content.as_str().is_empty();
    if blank || item.content_type == ContentType::Image {
        return true;
    }
    match find_entry(entries, item.content_type, &content) {
        Some(i) => {
            proof {
                assert(st.keys.contains_key(entry_key(entries@[i as int])));
            }
            let id = entries[i].id;
            let fav = entries[i].is_favorite;
            let pin = entries[i].is_pinned;
            let merged = pin || item.is_pinned;
            if !fav || merged != pin {
                proof {
                    lemma_ordered_map(views(records@), favorite_pin_map(id, merged), 1, *last_id as int);
                }
                mark_favorite(records, id, merged);
            }
            if !fav {
                *count = *count + 1;
            }
            put_entry(entries, item.content_type, content, (id, true, merged), Ghost(st.keys));
            proof {
                let nx = import_step(st, (item.content_type, item.content@, item.is_pinned), created_at@);
                assert(st.keys[(item.content_type, trim(item.content@))] == (id, fav, pin));
                assert(views(records@) == nx.records);
                assert(*count == nx.count);
                assert(ids_ordered_within(nx.records, 1, nx.last_id as int));
            }
            true
        },
        None => {
            proof {
                if st.keys.contains_key((item.content_type, content@)) {
                    let a = choose|a: int| 0 <= a < entries@.len() && entry_key(#[trigger] entries@[a]) == (item.content_type, content@);
                }
            }
            if *last_id == i64::MAX {
                return false;
            }
            let id = *last_id + 1;
            let stored = ClipboardRecord {
                id,
                content_type: item.content_type,
                content: content.clone(),
                image_data: None,
                created_at: String::from_str(created_at),
                is_favorite: true,
                is_pinned: item.is_pinned,
            };
            let ghost before = views(records@);
            records.push(stored);
            assert(views(records@) =~= before.push(stored@));
            *last_id = id;
            *count = *count + 1;
            put_entry(entries, item.content_type, content, (id, true, item.is_pinned), Ghost(st.keys));
            proof {
                let nx = import_step(st, (item.content_type, item.content@, item.is_pinned), created_at@);
                assert(!st.keys.contains_key((item.content_type, trim(item.content@))));
                assert(views(records@) == nx.records);
                let r = nx.records;
                assert forall|a: int, b: int| 0 <= a < b < r.len() implies #[trigger] r[a].id < #[trigger] r[b].id by {
                    if b == r.len() - 1 {
                        assert(r[a] == st.records[a]);
                    } else {
                        assert(r[a] == st.records[a] && r[b] == st.records[b]);
                    }
                }
                assert forall|a: int| 0 <= a < r.len() implies 1 <= #[trigger] r[a].id <= nx.last_id by {
                    if a < r.len() - 1 {
                        assert(r[a] == st.records[a]);
                    }
                }
                assert(ids_ordered_within(nx.records, 1, nx.last_id as int));
            }
            true
        },
    }
}

impl HistoryStore {
    /// Imports favourites in one transaction. Each item's content is
    /// trimmed; blank items and images are skipped. An item whose (type,
    /// trimmed content) matches a stored non-image record (the one read last
    /// in listing order when several match) makes that record a favourite,
    /// pinned if either was pinned, and counts when the record was not a
    /// favourite yet; any other item is stored as a new favourite with the
    /// given timestamp and counts. Returns the count. When the ids run out
    /// the import fails and nothing is changed.
    pub fn import_favorite_items(&mut self, items: &Vec<FavoriteTransferItem>, created_at: &str) -> (r: Result<i32, DbError>)
        requires
            old(self).wf(),
            items.len() <= i32::MAX,
        ensures
            final(self).wf(),
            ({
                let end = import_run(import_start(old(self)@), item_views(items@), created_at@);
                if end.failed {
                    r == Err::<i32, DbError>(DbError::IdSpaceExhausted) && final(self)@ == old(self)@
                } else {
                    r == Ok::<i32, DbError>(end.count as i32)
                        && final(self)@ == (StoreView { records: end.records, last_id: end.last_id, ..old(self)@ })
                }
            }),
            final(self).clock_reads() == old(self).clock_reads(),
    {
        let ghost v = self@;
        let listing_vec = self.get_records(None, None, None);
        let mut entries = import_entries(&listing_vec);
        let ghost iv = item_views(items@);
        let ghost start = import_start(v);
        let mut records = copy_range(&self.records, 0, self.records.len());
        assert(views(self.records@).subrange(0, self.records.len() as int) =~= views(self.records@));
        let mut last_id = self.last_id;
        let mut count: i32 = 0;
        let mut n: usize = 0;
        assert(iv.take(0) =~= Seq::<(ContentType, Seq<char>, bool)>::empty());
        while n < items.len()
            invariant
                n <= items.len() <= i32::MAX,
                iv == item_views(items@),
                self@ == v,
                store_invariant(v),
                start == import_start(v),
                ({
                    let st = import_run(start, iv.take(n as int), created_at@);
                    &&& !st.failed
                    &&& views(records@) == st.records
                    &&& last_id == st.last_id
                    &&& entries_model(entries@, st.keys)
                    &&& count == st.count
                    &&& 0 <= st.count <= n
                    &&& ids_ordered_within(st.records, 1, st.last_id as int)
                    &&& v.last_id <= st.last_id
                }),
            decreases items.len() - n,
        {
            let ghost st = import_run(start, iv.take(n as int), created_at@);
            proof {
                let t = iv.take(n + 1);
                assert(t.drop_last() =~= iv.take(n as int));
                assert(t.last() == iv[n as int]);
            }
            let ok = import_item(&mut records, &mut entries, &mut last_id, &mut count, &items[n], created_at, Ghost(st));
            if !ok {
                proof {
                    lemma_import_failure_sticks(start, iv, created_at@, n + 1, iv.len() as int);
                    assert(iv.take(iv.len() as int) =~= iv);
                }
                return Err(DbError::IdSpaceExhausted);
            }
            n = n + 1;
        }
        assert(iv.take(items.len() as int) =~= iv);
        self.records = records;
        self.last_id = last_id;
        Ok(count)
    }
}

} // verus!
