use vstd::prelude::*;

use crate::clock::{current_local_rfc3339, current_time_millis};
use crate::models::{
    ContentType, FavoriteTransferItem, FavoriteTransferPackage, RecordView, Settings, SettingsView,
};
use crate::queries::db_error_message;
use crate::store::{
    import_run, import_start, item_views, listing, retain, views, DbError, HistoryStore,
    StoreView,
};
use crate::image::append_chars;
use crate::text::{chars_of, string_from_chars, trim};

verus! {

/// The settings as exported: the AI key left out.
pub open spec fn redacted(s: SettingsView) -> SettingsView {
    SettingsView { ai_api_key: Seq::empty(), ..s }
}

/// Clears the AI key before the settings leave the machine.
pub fn redact_settings_for_export(settings: Settings) -> (r: Settings)
    ensures
        r@ == redacted(settings@),
{
    let mut settings = settings;
    settings.ai_api_key = String::new();
    settings
}

/// Imported settings keep the local AI key when they carry none (blank).
pub open spec fn with_local_secrets(imported: SettingsView, local: SettingsView) -> SettingsView {
    if trim(imported.ai_api_key).len() == 0 {
        SettingsView { ai_api_key: local.ai_api_key, ..imported }
    } else {
        imported
    }
}

/// Keeps the local AI key when the imported settings leave it blank.
pub fn preserve_local_secrets(imported: Settings, local: &Settings) -> (r: Result<Settings, String>)
    ensures
        r matches Ok(s) && s@ == with_local_secrets(imported@, local@),
{
    let mut imported = imported;
    let key = crate::text::trim_str(imported.ai_api_key.as_str());
    if key.as_str().is_empty() {
        imported.ai_api_key = local.ai_api_key.clone();
    }
    Ok(imported)
}

/// The exported favourites: the non-image records of a favourites listing,
/// in order, as (type, content, pinned).
pub open spec fn transfer_items(s: Seq<RecordView>) -> Seq<(ContentType, Seq<char>, bool)>
    decreases s.len(),
{
    if s.len() == 0 {
        Seq::empty()
    } else {
        let rest = transfer_items(s.drop_last());
        let r = s.last();
        if r.content_type != ContentType::Image {
            rest.push((r.content_type, r.content, r.is_pinned))
        } else {
            rest
        }
    }
}

/// Packs the favourites (images left out, listing order) and the settings
/// without the AI key.
pub fn collect_favorites_package(store: &HistoryStore) -> (r: Result<FavoriteTransferPackage, String>)
    ensures
        r matches Ok(p) && item_views(p.favorites@) == transfer_items(listing(store@.records, Some(true), None, None))
            && p.settings@ == redacted(store@.settings),
{
    let records = store.get_records(Some(true), None, None);
    let ghost lv = views(records@);
    let mut favorites: Vec<FavoriteTransferItem> = Vec::new();
    let mut k: usize = 0;
    assert(lv.take(0) =~= Seq::<RecordView>::empty());
    while k < records.len()
        invariant
            k <= records.len(),
            lv == views(records@),
            item_views(favorites@) == transfer_items(lv.take(k as int)),
        decreases records.len() - k,
    {
        proof {
            let t = lv.take(k + 1);
            assert(t.drop_last() =~= lv.take(k as int));
        }
        let r = &records[k];
        if r.content_type != ContentType::Image {
            let item = FavoriteTransferItem {
                content_type: r.content_type,
                content: r.content.clone(),
                is_pinned: r.is_pinned,
            };
            let ghost before = item_views(favorites@);
            favorites.push(item);
            assert(item_views(favorites@) =~= before.push((item.content_type, item.content@, item.is_pinned)));
        }
        k = k + 1;
    }
    assert(lv.take(records.len() as int) =~= lv);
    let settings = redact_settings_for_export(store.get_settings());
    Ok(FavoriteTransferPackage { favorites, settings })
}

/// The settings an import saves, if any: those of the package (with the
/// local AI key kept when the package has none) when its hotkey is not empty.
pub open spec fn imported_settings(package: SettingsView, local: SettingsView) -> Option<SettingsView> {
    if package.hotkey.len() > 0 {
        Some(with_local_secrets(package, local))
    } else {
        None
    }
}

/// The outcome of importing a package with items `items` and settings
/// `settings` into `old`, stamped `created_at`, retention run at `now`:
/// `r` is what the call returns and `new` the store it leaves.
pub open spec fn package_import_outcome(
    old: StoreView,
    items: Seq<(ContentType, Seq<char>, bool)>,
    settings: SettingsView,
    created_at: Seq<char>,
    now: int,
    r: Result<(i32, bool), String>,
    new: StoreView,
) -> bool {
    let end = import_run(import_start(old), items, created_at);
    if end.failed {
        new == old && (r matches Err(m) && m@ == db_error_message(DbError::IdSpaceExhausted))
    } else {
        let after = StoreView { records: end.records, last_id: end.last_id, ..old };
        match imported_settings(settings, old.settings) {
            Some(s) => r == Ok::<(i32, bool), String>((end.count as i32, true))
                && new == (StoreView { settings: s, records: retain(after.records, s, now), ..after }),
            None => r == Ok::<(i32, bool), String>((end.count as i32, false)) && new == after,
        }
    }
}

/// Imports a parsed export package: first its favourites (stamped
/// `created_at`), then, when its hotkey is not empty, its settings with
/// their retention policy applied at `now`. Returns how many favourites
/// were added and whether settings were saved.
pub fn import_favorites_package_at(store: &mut HistoryStore, package: FavoriteTransferPackage, created_at: &str, now: i64) -> (r: Result<(i32, bool), String>)
    requires
        old(store).wf(),
        package.favorites.len() <= i32::MAX,
    ensures
        final(store).wf(),
        package_import_outcome(old(store)@, item_views(package.favorites@), package.settings@, created_at@, now as int, r, final(store)@),
        final(store).clock_reads() == old(store).clock_reads(),
{
    let local = store.get_settings();
    let count = match store.import_favorite_items(&package.favorites, created_at) {
        Ok(n) => n,
        Err(e) => return Err(e.message()),
    };
    if !package.settings.hotkey.as_str().is_empty() {
        let settings = match preserve_local_secrets(package.settings, &local) {
            Ok(s) => s,
            Err(e) => return Err(e),
        };
        store.save_settings(&settings, now);
        Ok((count, true))
    } else {
        Ok((count, false))
    }
}

/// Imports a parsed export package stamped with the current time.
pub fn import_favorites_package(store: &mut HistoryStore, package: FavoriteTransferPackage) -> (r: Result<(i32, bool), String>)
    requires
        old(store).wf(),
        package.favorites.len() <= i32::MAX,
    ensures
        final(store).wf(),
        exists|created_at: Seq<char>, now: i64|
            #[trigger] package_import_outcome(old(store)@, item_views(package.favorites@), package.settings@, created_at, now as int, r, final(store)@),
        final(store).clock_reads().len() == old(store).clock_reads().len() + 1,
        final(store).clock_reads().drop_last() == old(store).clock_reads(),
        exists|created_at: Seq<char>|
            #[trigger] package_import_outcome(old(store)@, item_views(package.favorites@), package.settings@, created_at,
                final(store).clock_reads().last() as int, r, final(store)@),
{
    let created_at = current_local_rfc3339();
    let now = store.read_clock();
    let ghost items = item_views(package.favorites@);
    let ghost ps = package.settings@;
    let r = import_favorites_package_at(store, package, created_at.as_str(), now);
    assert(store.clock_reads().last() == now);
    assert(package_import_outcome(old(store)@, items, ps, created_at@, store.clock_reads().last() as int, r, store@));
    r
}

/// Largest file (10 MiB) a favourites import reads.
pub const MAX_IMPORT_FILE_BYTES: u64 = 10 * 1024 * 1024;

/// Whether a file chosen for import may be read, given what the file
/// system said about it (`(is a regular file, length)`, or the error text):
/// the path must not be blank, its metadata readable, the file a regular
/// file of at most 10 MiB.
pub open spec fn import_path_check(path: Seq<char>, metadata: Result<(bool, u64), Seq<char>>) -> Result<(), Seq<char>> {
    if trim(path).len() == 0 {
        Err("导入路径不能为空"@)
    } else {
        match metadata {
            Err(e) => Err("无法访问文件 "@ + path + ": "@ + e),
            Ok((is_file, len)) => if !is_file {
                Err("导入路径不是文件: "@ + path)
            } else if len > MAX_IMPORT_FILE_BYTES {
                Err("导入文件过大（最大允许 10 MiB）"@)
            } else {
                Ok(())
            },
        }
    }
}

/// Checks a file chosen for import (see [`import_path_check`]).
pub fn validate_import_path(path: &str, metadata: Result<(bool, u64), String>) -> (r: Result<(), String>)
    ensures
        match import_path_check(path@, match metadata {
            Ok(m) => Ok(m),
            Err(e) => Err(e@),
        }) {
            Ok(()) => r is Ok,
            Err(m) => r matches Err(e) && e@ == m,
        },
{
    let trimmed = crate::text::trim_str(path);
    if trimmed.as_str().is_empty() {
        return Err(String::from_str("导入路径不能为空"));
    }
    match metadata {
        Err(e) => {
            let mut msg = chars_of("无法访问文件 ");
            append_chars(&mut msg, &chars_of(path));
            append_chars(&mut msg, &chars_of(": "));
            append_chars(&mut msg, &chars_of(e.as_str()));
            Err(string_from_chars(msg.as_slice()))
        },
        Ok((is_file, len)) => {
            if !is_file {
                let mut msg = chars_of("导入路径不是文件: ");
                append_chars(&mut msg, &chars_of(path));
                Err(string_from_chars(msg.as_slice()))
            } else if len > MAX_IMPORT_FILE_BYTES {
                Err(String::from_str("导入文件过大（最大允许 10 MiB）"))
            } else {
                Ok(())
            }
        },
    }
}

} // verus!
