use vstd::prelude::*;

use crate::clock::{current_local_rfc3339, current_time_millis};
use crate::models::{ClipboardRecord, ContentType, RecordView, Settings};
use crate::store::{
    after_add, id_differs, keep_where, listing, outside_filter, retain, search_listing,
    status_map, views, DbError, HistoryStore, StoreView,
};
use crate::text::{trim, trim_str};

verus! {

/// The message of a store error.
pub open spec fn db_error_message(e: DbError) -> Seq<char> {
    "数据库已满：记录编号已用尽"@
}

/// A history page: `limit` records from `offset` in listing order.
pub fn get_history(store: &HistoryStore, limit: i32, offset: i32) -> (r: Result<Vec<ClipboardRecord>, String>)
    ensures
        r matches Ok(v) && views(v@) == listing(store@.records, None, Some(limit), Some(offset)),
{
    Ok(store.get_records(None, Some(limit), Some(offset)))
}

/// Search over the whole history, at most `limit` results.
pub fn search_history(store: &HistoryStore, keyword: &str, limit: i32) -> (r: Result<Vec<ClipboardRecord>, String>)
    ensures
        r matches Ok(v) && views(v@) == search_listing(store@.records, keyword@, None, limit),
{
    Ok(store.search_records(keyword, None, limit))
}

/// A page of favourites.
pub fn get_favorites(store: &HistoryStore, limit: i32, offset: i32) -> (r: Result<Vec<ClipboardRecord>, String>)
    ensures
        r matches Ok(v) && views(v@) == listing(store@.records, Some(true), Some(limit), Some(offset)),
{
    Ok(store.get_records(Some(true), Some(limit), Some(offset)))
}

/// Search over the favourites, at most `limit` results.
pub fn search_favorites(store: &HistoryStore, keyword: &str, limit: i32) -> (r: Result<Vec<ClipboardRecord>, String>)
    ensures
        r matches Ok(v) && views(v@) == search_listing(store@.records, keyword@, Some(true), limit),
{
    Ok(store.search_records(keyword, Some(true), limit))
}

/// Deletes one record; the number deleted (0 or 1).
pub fn delete_item(store: &mut HistoryStore, id: i64) -> (r: Result<usize, String>)
    requires
        old(store).wf(),
    ensures
        final(store).wf(),
        final(store)@ == (StoreView { records: keep_where(old(store)@.records, id_differs(id)), ..old(store)@ }),
        r matches Ok(n) && n == old(store)@.records.len() - final(store)@.records.len(),
{
    Ok(store.delete_record(id))
}

/// Deletes every record that is not a favourite.
pub fn clear_history_records(store: &mut HistoryStore) -> (r: Result<usize, String>)
    requires
        old(store).wf(),
    ensures
        final(store).wf(),
        final(store)@ == (StoreView { records: keep_where(old(store)@.records, outside_filter(Some(false))), ..old(store)@ }),
        r matches Ok(n) && n == old(store)@.records.len() - final(store)@.records.len(),
{
    Ok(store.clear_records(Some(false)))
}

/// Deletes every favourite.
pub fn clear_favorite_records(store: &mut HistoryStore) -> (r: Result<usize, String>)
    requires
        old(store).wf(),
    ensures
        final(store).wf(),
        final(store)@ == (StoreView { records: keep_where(old(store)@.records, outside_filter(Some(true))), ..old(store)@ }),
        r matches Ok(n) && n == old(store)@.records.len() - final(store)@.records.len(),
{
    Ok(store.clear_records(Some(true)))
}

/// Sets the favourite flag of one record.
pub fn toggle_favorite(store: &mut HistoryStore, id: i64, is_favorite: bool) -> (r: Result<(), String>)
    requires
        old(store).wf(),
    ensures
        final(store).wf(),
        final(store)@ == (StoreView {
            records: old(store)@.records.map_values(status_map(id, Some(is_favorite), None)),
            ..old(store)@
        }),
        r is Ok,
{
    store.update_record_status(id, Some(is_favorite), None);
    Ok(())
}

/// Sets the pinned flag of one record.
pub fn toggle_pinned(store: &mut HistoryStore, id: i64, is_pinned: bool) -> (r: Result<(), String>)
    requires
        old(store).wf(),
    ensures
        final(store).wf(),
        final(store)@ == (StoreView {
            records: old(store)@.records.map_values(status_map(id, None, Some(is_pinned))),
            ..old(store)@
        }),
        r is Ok,
{
    store.update_record_status(id, None, Some(is_pinned));
    Ok(())
}

/// Adds a record at time `now`, the store error turned into its message.
pub fn add_clipboard_record_at(store: &mut HistoryStore, record: ClipboardRecord, now: i64) -> (r: Result<i64, String>)
    requires
        old(store).wf(),
    ensures
        final(store).wf(),
        final(store)@ == after_add(old(store)@, record@, now as int).1,
        match after_add(old(store)@, record@, now as int).0 {
            Ok(id) => r == Ok::<i64, String>(id),
            Err(e) => r matches Err(m) && m@ == db_error_message(e),
        },
        final(store).clock_reads() == old(store).clock_reads(),
{
    match store.add_record(record, now) {
        Ok(id) => Ok(id),
        Err(e) => Err(e.message()),
    }
}

/// Adds a record at the current time (read from the system clock).
pub fn add_clipboard_record(store: &mut HistoryStore, record: ClipboardRecord) -> (r: Result<i64, String>)
    requires
        old(store).wf(),
    ensures
        final(store).wf(),
        exists|now: i64|
            final(store)@ == after_add(old(store)@, record@, now as int).1 && match after_add(old(store)@, record@, now as int).0 {
                Ok(id) => r == Ok::<i64, String>(id),
                Err(e) => r matches Err(m) && m@ == db_error_message(e),
            },
        final(store).clock_reads().len() == old(store).clock_reads().len() + 1,
        final(store).clock_reads().drop_last() == old(store).clock_reads(),
        final(store)@ == after_add(old(store)@, record@, final(store).clock_reads().last() as int).1,
        match after_add(old(store)@, record@, final(store).clock_reads().last() as int).0 {
            Ok(id) => r == Ok::<i64, String>(id),
            Err(e) => r matches Err(m) && m@ == db_error_message(e),
        },
{
    let now = store.read_clock();
    add_clipboard_record_at(store, record, now)
}

/// The record that adding a custom favourite stores: text, trimmed
/// content, favourite, not pinned.
pub open spec fn custom_favorite(content: Seq<char>, created_at: Seq<char>) -> RecordView {
    RecordView {
        id: 0,
        content_type: ContentType::Text,
        content: trim(content),
        image_data: None,
        created_at,
        is_favorite: true,
        is_pinned: false,
    }
}

/// Adds a hand-written favourite with the given timestamp at time `now`;
/// blank content is refused.
pub fn add_custom_favorite_record_at(store: &mut HistoryStore, content: String, created_at: String, now: i64) -> (r: Result<i64, String>)
    requires
        old(store).wf(),
    ensures
        final(store).wf(),
        trim(content@).len() == 0 ==> final(store)@ == old(store)@ && (r matches Err(m) && m@ == "content cannot be empty"@),
        trim(content@).len() > 0 ==> {
            let out = after_add(old(store)@, custom_favorite(content@, created_at@), now as int);
            &&& final(store)@ == out.1
            &&& match out.0 {
                Ok(id) => r == Ok::<i64, String>(id),
                Err(e) => r matches Err(m) && m@ == db_error_message(e),
            }
        },
        final(store).clock_reads() == old(store).clock_reads(),
{
    let text = trim_str(content.as_str());
    if text.as_str().is_empty() {
        return Err(String::from_str("content cannot be empty"));
    }
    let record = ClipboardRecord {
        id: 0,
        content_type: ContentType::Text,
        content: text,
        image_data: None,
        is_favorite: true,
        is_pinned: false,
        created_at,
    };
    add_clipboard_record_at(store, record, now)
}

/// Adds a hand-written favourite stamped with the current local time.
pub fn add_custom_favorite_record_logic(store: &mut HistoryStore, content: String) -> (r: Result<i64, String>)
    requires
        old(store).wf(),
    ensures
        final(store).wf(),
        trim(content@).len() == 0 ==> final(store)@ == old(store)@ && (r matches Err(m) && m@ == "content cannot be empty"@),
        trim(content@).len() > 0 ==> exists|created_at: Seq<char>, now: i64| #![trigger after_add(old(store)@, custom_favorite(content@, created_at), now as int)] {
            let out = after_add(old(store)@, custom_favorite(content@, created_at), now as int);
            &&& final(store)@ == out.1
            &&& match out.0 {
                Ok(id) => r == Ok::<i64, String>(id),
                Err(e) => r matches Err(m) && m@ == db_error_message(e),
            }
        },
        final(store).clock_reads().len() == old(store).clock_reads().len() + 1,
        final(store).clock_reads().drop_last() == old(store).clock_reads(),
        trim(content@).len() > 0 ==> exists|created_at: Seq<char>| #![trigger custom_favorite(content@, created_at)] {
            let out = after_add(old(store)@, custom_favorite(content@, created_at), final(store).clock_reads().last() as int);
            &&& final(store)@ == out.1
            &&& match out.0 {
                Ok(id) => r == Ok::<i64, String>(id),
                Err(e) => r matches Err(m) && m@ == db_error_message(e),
            }
        },
{
    let created_at = current_local_rfc3339();
    let now = store.read_clock();
    add_custom_favorite_record_at(store, content, created_at, now)
}

/// Saves the settings and applies their retention policy as of the time
/// read from the system clock in this call.
pub fn save_settings(store: &mut HistoryStore, settings: &Settings) -> (r: Result<(), String>)
    requires
        old(store).wf(),
    ensures
        final(store).wf(),
        r is Ok,
        exists|now: i64|
            final(store)@ == (StoreView {
                settings: settings@,
                records: #[trigger] retain(old(store)@.records, settings@, now as int),
                ..old(store)@
            }),
        final(store).clock_reads().len() == old(store).clock_reads().len() + 1,
        final(store).clock_reads().drop_last() == old(store).clock_reads(),
        final(store)@ == (StoreView {
            settings: settings@,
            records: retain(old(store)@.records, settings@, final(store).clock_reads().last() as int),
            ..old(store)@
        }),
{
    let now = store.read_clock();
    store.save_settings(settings, now);
    Ok(())
}

} // verus!
