use vstd::prelude::*;

use crate::image::{
    at_least_one, decode_png_rgba, downscale_rgba_nearest, downscaled, lemma_sources_in_bounds,
    png_decoding, round_div, rounded_quotient,
};
use crate::autostart::AutostartSync;
use crate::hotkeys::{
    failed_update, has_prefix, lemma_split_log, main_hotkey_target, refused_since, update_then_restore, HotkeyRuntime,
};
use crate::models::{ClipboardRecord, ContentType, RecordView, Settings, SettingsView};
use crate::settings::{
    content_label, content_type_label, display_content, display_text, parse_settings_draft,
    settings_draft, theme_name, theme_token,
};
use crate::queries::{
    clear_favorite_records, clear_history_records, get_favorites, get_history, search_favorites,
    search_history,
};
use crate::store::{keep_where, listing, outside_filter, retain, search_listing, views, HistoryStore, StoreView};
use crate::settings::str_equals;
use crate::text::{signed_decimal, signed_decimal_chars, string_from_chars, trim, trim_str};

verus! {

/// Number of records the list window shows at once.
pub const PAGE_SIZE: i32 = 200;

/// Largest thumbnail width.
pub const THUMBNAIL_WIDTH: usize = 120;

/// Largest thumbnail height.
pub const THUMBNAIL_HEIGHT: usize = 82;

/// Time after a show during which the window is never hidden for losing
/// the foreground.
pub const AUTO_HIDE_GRACE_MS: u64 = 500;

/// What the list window shows: the search text, whether only favourites
/// are listed, whether the window was opened by hotkey without taking the
/// focus from the target application, and when it was last shown.
pub struct ViewState {
    pub keyword: String,
    pub favorites_only: bool,
    pub preserve_target_focus: bool,
    pub shown_at_ms: u64,
}

impl Default for ViewState {
    fn default() -> (s: ViewState)
        ensures
            s.keyword@.len() == 0,
            !s.favorites_only,
            !s.preserve_target_focus,
            s.shown_at_ms == 0,
    {
        ViewState { keyword: String::new(), favorites_only: false, preserve_target_focus: false, shown_at_ms: 0 }
    }
}

/// The records the list shows: the first page of the history or of the
/// favourites, or the search results for the trimmed keyword.
pub open spec fn visible_records(records: Seq<RecordView>, keyword: Seq<char>, favorites_only: bool) -> Seq<RecordView> {
    let k = trim(keyword);
    let favorite = if favorites_only { Some(true) } else { None };
    if k.len() == 0 {
        listing(records, favorite, Some(PAGE_SIZE), Some(0))
    } else {
        search_listing(records, k, favorite, PAGE_SIZE)
    }
}

/// The records the list window shows for `state`.
pub fn query_records(store: &HistoryStore, state: &ViewState) -> (r: Result<Vec<ClipboardRecord>, String>)
    ensures
        r matches Ok(v) && views(v@) == visible_records(store@.records, state.keyword@, state.favorites_only),
{
    let keyword = trim_str(state.keyword.as_str());
    let blank = keyword.as_str().is_empty();
    if !state.favorites_only && blank {
        get_history(store, PAGE_SIZE, 0)
    } else if !state.favorites_only {
        search_history(store, keyword.as_str(), PAGE_SIZE)
    } else if blank {
        get_favorites(store, PAGE_SIZE, 0)
    } else {
        search_favorites(store, keyword.as_str(), PAGE_SIZE)
    }
}

impl ViewState {
    /// The list shows the records matching `keyword`.
    pub fn set_keyword(&mut self, keyword: String)
        ensures
            *final(self) == (ViewState { keyword, ..*old(self) }),
    {
        self.keyword = keyword;
    }

    /// The list switches between all records and the favourites.
    pub fn toggle_favorites_only(&mut self)
        ensures
            *final(self) == (ViewState { favorites_only: !old(self).favorites_only, ..*old(self) }),
    {
        self.favorites_only = !self.favorites_only;
    }

    /// The window is shown at `now` and takes the focus.
    pub fn mark_shown(&mut self, now: u64)
        ensures
            *final(self) == (ViewState { preserve_target_focus: false, shown_at_ms: now, ..*old(self) }),
    {
        self.preserve_target_focus = false;
        self.shown_at_ms = now;
    }

    /// The window is shown at `now` by the hotkey; it leaves the focus with
    /// the target application when the no-activate mode could be set.
    pub fn mark_shown_from_hotkey(&mut self, no_activate_ready: bool, now: u64)
        ensures
            *final(self) == (ViewState { preserve_target_focus: no_activate_ready, shown_at_ms: now, ..*old(self) }),
    {
        self.preserve_target_focus = no_activate_ready;
        self.shown_at_ms = now;
    }

    /// Whether the visible window hides itself at `now`: not on the
    /// settings or about panel, not while it keeps the target's focus, not
    /// in the first 500 ms after a show, and only when another window has
    /// the foreground.
    pub fn should_auto_hide(&self, visible: bool, panel: &str, now: u64, foreground_is_other: bool) -> (r: bool)
        ensures
            r == (visible && panel@ != "settings"@ && panel@ != "about"@ && !self.preserve_target_focus
                && now >= self.shown_at_ms + AUTO_HIDE_GRACE_MS && foreground_is_other),
    {
        proof {
            reveal_strlit("settings");
            reveal_strlit("about");
        }
        if !visible {
            return false;
        }
        if str_equals(panel, "settings") || str_equals(panel, "about") {
            return false;
        }
        if self.preserve_target_focus {
            return false;
        }
        let elapsed = if now >= self.shown_at_ms { now - self.shown_at_ms } else { 0 };
        if elapsed < AUTO_HIDE_GRACE_MS {
            return false;
        }
        foreground_is_other
    }
}

/// What a press of the global hotkey does.
#[derive(Clone, Copy, Debug, PartialEq, Eq, Structural)]
pub enum HotkeyPress {
    Ignore,
    Hide,
    ShowFromHotkey,
}

/// The answer to a hotkey event: ignored unless it is a press of the
/// active hotkey (id 0 meaning none is active); else the window is hidden
/// when visible and shown otherwise.
pub fn hotkey_press_action(active_id: u32, event_id: u32, pressed: bool, visible: bool) -> (r: HotkeyPress)
    ensures
        (active_id == 0 || event_id != active_id || !pressed) ==> r == HotkeyPress::Ignore,
        (active_id != 0 && event_id == active_id && pressed) ==> r == (if visible {
            HotkeyPress::Hide
        } else {
            HotkeyPress::ShowFromHotkey
        }),
{
    if active_id == 0 || event_id != active_id || !pressed {
        HotkeyPress::Ignore
    } else if visible {
        HotkeyPress::Hide
    } else {
        HotkeyPress::ShowFromHotkey
    }
}

/// What follows copying an activated record to the clipboard.
#[derive(Clone, Debug)]
pub enum Activation {
    PasteIntoTarget,
    Copied,
    Failed(String),
}

/// A copied record is pasted into the target application when the window
/// kept its focus, else reported as copied; a failed copy is reported.
pub fn activation_outcome(copied: Result<(), String>, preserve_target_focus: bool) -> (r: Activation)
    ensures
        match copied {
            Ok(_) => if preserve_target_focus { r is PasteIntoTarget } else { r is Copied },
            Err(e) => r matches Activation::Failed(m) && m@ == e@,
        },
{
    match copied {
        Ok(_) => if preserve_target_focus {
            Activation::PasteIntoTarget
        } else {
            Activation::Copied
        },
        Err(e) => Activation::Failed(e),
    }
}

/// Clears the records the list shows: the favourites in favourites mode,
/// else the history (favourites kept); the number removed.
pub fn clear_visible_records(store: &mut HistoryStore, state: &ViewState) -> (r: Result<usize, String>)
    requires
        old(store).wf(),
    ensures
        final(store).wf(),
        final(store)@ == (StoreView {
            records: keep_where(old(store)@.records, outside_filter(Some(state.favorites_only))),
            ..old(store)@
        }),
        r matches Ok(n) && n == old(store)@.records.len() - final(store)@.records.len(),
{
    if state.favorites_only {
        clear_favorite_records(store)
    } else {
        clear_history_records(store)
    }
}

// ---------------------------------------------------------------------------
// Thumbnails
// ---------------------------------------------------------------------------

/// The thumbnail size of a `w` x `h` image: the image divided by the
/// largest of `w / 120`, `h / 82` and 1, each side rounded to the nearest
/// integer and kept at least 1.
pub open spec fn thumbnail_size(w: int, h: int) -> (int, int) {
    if w <= 120 && h <= 82 {
        (w, h)
    } else if w * 82 >= h * 120 {
        (120, at_least_one(round_div(120 * h, w)))
    } else {
        (at_least_one(round_div(82 * w, h)), 82)
    }
}

/// The thumbnail pixels: the image itself when it already fits, else its
/// nearest-neighbour scaling to [`thumbnail_size`].
pub open spec fn thumbnail_pixels(w: int, h: int, rgba: Seq<u8>) -> Seq<u8> {
    if w <= 120 && h <= 82 {
        rgba
    } else {
        downscaled(w, h, rgba, thumbnail_size(w, h).0, thumbnail_size(w, h).1)
    }
}

/// The size of the thumbnail of a `width` x `height` image.
pub fn thumbnail_dimensions(width: usize, height: usize) -> (r: (usize, usize))
    requires
        width > 0,
        height > 0,
    ensures
        (r.0 as int, r.1 as int) == thumbnail_size(width as int, height as int),
        1 <= r.0 <= 120,
        1 <= r.1 <= 82,
        r.0 <= width,
        r.1 <= height,
{
    if width <= THUMBNAIL_WIDTH && height <= THUMBNAIL_HEIGHT {
        return (width, height);
    }
    let w = width as u128;
    let h = height as u128;
    if w * 82 >= h * 120 {
        let t = rounded_quotient(120 * h, w);
        proof {
            assert(t <= 82) by (nonlinear_arith)
                requires
                    t == (2 * (120 * h) + w) / (2 * w),
                    w * 82 >= h * 120,
                    w > 0;
            assert(t <= h) by (nonlinear_arith)
                requires
                    t == (2 * (120 * h) + w) / (2 * w),
                    w > 120,
                    h > 0;
        }
        let th: usize = if t < 1 { 1 } else { t as usize };
        (THUMBNAIL_WIDTH, th)
    } else {
        let t = rounded_quotient(82 * w, h);
        proof {
            assert(h > 82);
            assert(t <= 120) by (nonlinear_arith)
                requires
                    t == (2 * (82 * w) + h) / (2 * h),
                    w * 82 < h * 120,
                    h > 0;
            assert(t <= w) by (nonlinear_arith)
                requires
                    t == (2 * (82 * w) + h) / (2 * h),
                    h > 82,
                    w > 0;
        }
        let tw: usize = if t < 1 { 1 } else { t as usize };
        (tw, THUMBNAIL_HEIGHT)
    }
}

/// The thumbnail of a decoded RGBA image; an empty image has none.
pub fn thumbnail_from_rgba(width: usize, height: usize, rgba: &[u8]) -> (r: Result<(usize, usize, Vec<u8>), String>)
    requires
        rgba@.len() == width * height * 4,
        width * 120 <= usize::MAX,
        height * 82 <= usize::MAX,
    ensures
        (width == 0 || height == 0) ==> (r matches Err(m) && m@ == "图片尺寸无效"@),
        (width > 0 && height > 0) ==> (r matches Ok((tw, th, px)) && (tw as int, th as int) == thumbnail_size(width as int, height as int)
            && px@ == thumbnail_pixels(width as int, height as int, rgba@)),
{
    if width == 0 || height == 0 {
        return Err(String::from_str("图片尺寸无效"));
    }
    let (tw, th) = thumbnail_dimensions(width, height);
    if width <= THUMBNAIL_WIDTH && height <= THUMBNAIL_HEIGHT {
        return Ok((tw, th, vstd::slice::slice_to_vec(rgba)));
    }
    proof {
        lemma_sources_in_bounds(width as int, height as int, rgba@.len() as int, tw as int, th as int);
        assert(th * height <= usize::MAX) by (nonlinear_arith)
            requires th <= 82, height * 82 <= usize::MAX, height >= 0;
        assert(tw * width <= usize::MAX) by (nonlinear_arith)
            requires tw <= 120, width * 120 <= usize::MAX, width >= 0;
        assert(tw * th * 4 <= 120 * 82 * 4) by (nonlinear_arith)
            requires tw <= 120, th <= 82, tw >= 0, th >= 0;
    }
    let px = downscale_rgba_nearest(width, height, rgba, tw, th);
    Ok((tw, th, px))
}

/// The thumbnail the stored record `id` has, if any: its PNG decoded and
/// scaled, or none when the record is missing, has no image bytes, does
/// not decode, is empty, or is too large for the scaling arithmetic.
pub open spec fn thumbnail_view(s: Seq<RecordView>, id: i64) -> Option<(int, int, Seq<u8>)> {
    if exists|i: int| 0 <= i < s.len() && (#[trigger] s[i]).id == id {
        let i = choose|i: int| 0 <= i < s.len() && (#[trigger] s[i]).id == id;
        match s[i].image_data {
            None => None,
            Some(png) => match png_decoding(png) {
                None => None,
                Some((w, h, px)) => if w == 0 || h == 0 || !thumbnail_fits_machine(w as int, h as int) {
                    None
                } else {
                    Some((thumbnail_size(w as int, h as int).0, thumbnail_size(w as int, h as int).1, thumbnail_pixels(w as int, h as int, px)))
                },
            },
        }
    } else {
        None
    }
}

/// Whether the scaling arithmetic for a `w` x `h` thumbnail fits in a
/// machine word.
pub open spec fn thumbnail_fits_machine(w: int, h: int) -> bool {
    w * 120 <= usize::MAX && h * 82 <= usize::MAX
}

/// The thumbnail of the image record `record_id`: its PNG decoded and
/// scaled to fit 120 x 82. Refused for a missing record, a record without
/// image bytes, bytes that do not decode, an empty image, and an image too
/// wide or tall for the scaling arithmetic to fit in a machine word.
pub fn image_thumbnail(store: &HistoryStore, record_id: i64) -> (r: Result<(usize, usize, Vec<u8>), String>)
    requires
        store.wf(),
    ensures
        (forall|i: int| 0 <= i < store@.records.len() ==> #[trigger] store@.records[i].id != record_id)
            ==> (r matches Err(m) && m@ == "图片记录不存在"@),
        forall|i: int| 0 <= i < store@.records.len() && #[trigger] store@.records[i].id == record_id ==> match store@.records[i].image_data {
            None => r matches Err(m) && m@ == "图片记录缺少数据"@,
            Some(png) => match png_decoding(png) {
                None => r is Err,
                Some((w, h, px)) => if w == 0 || h == 0 || !thumbnail_fits_machine(w as int, h as int) {
                    r matches Err(m) && m@ == "图片尺寸无效"@
                } else {
                    r matches Ok((tw, th, out)) && (tw as int, th as int) == thumbnail_size(w as int, h as int)
                        && out@ == thumbnail_pixels(w as int, h as int, px)
                },
            },
        },
        match r {
            Ok((tw, th, out)) => thumbnail_view(store@.records, record_id) == Some((tw as int, th as int, out@)),
            Err(_) => thumbnail_view(store@.records, record_id) is None,
        },
{
    let record = match store.get_record_by_id(record_id) {
        Some(rec) => rec,
        None => {
            return Err(String::from_str("图片记录不存在"));
        },
    };
    proof {
        assert forall|i: int| 0 <= i < store@.records.len() && #[trigger] store@.records[i].id == record_id implies store@.records[i] == record@ by {
            let j = choose|j: int| 0 <= j < store@.records.len() && #[trigger] store@.records[j] == record@ && record@.id == record_id;
            if i < j {
                assert(store@.records[i].id < store@.records[j].id);
            } else if i > j {
                assert(store@.records[j].id < store@.records[i].id);
            }
        }
    }
    let png = match record.image_data {
        Some(bytes) => bytes,
        None => {
            return Err(String::from_str("图片记录缺少数据"));
        },
    };
    let (width, height, rgba) = match decode_png_rgba(png.as_slice()) {
        Ok(d) => d,
        Err(e) => {
            return Err(e);
        },
    };
    if width == 0 || height == 0 || width > usize::MAX / 120 || height > usize::MAX / 82 {
        proof {
            if width > 0 && height > 0 && width <= usize::MAX / 120 && height <= usize::MAX / 82 {
                assert(false);
            }
            if width > usize::MAX / 120 {
                assert(width * 120 > usize::MAX) by (nonlinear_arith)
                    requires width > usize::MAX / 120;
            }
            if height > usize::MAX / 82 {
                assert(height * 82 > usize::MAX) by (nonlinear_arith)
                    requires height > usize::MAX / 82;
            }
        }
        return Err(String::from_str("图片尺寸无效"));
    }
    proof {
        assert(width * 120 <= usize::MAX) by (nonlinear_arith)
            requires width <= usize::MAX / 120;
        assert(height * 82 <= usize::MAX) by (nonlinear_arith)
            requires height <= usize::MAX / 82;
    }
    thumbnail_from_rgba(width, height, rgba.as_slice())
}

// ---------------------------------------------------------------------------
// Clipboard payloads
// ---------------------------------------------------------------------------

/// What is written to the clipboard for a record: its text, or its image
/// decoded to RGBA8.
#[derive(Clone, Debug)]
pub enum ClipboardPayload {
    Text(String),
    Image(usize, usize, Vec<u8>),
}

/// The payload of the stored record with id `id` in `s`, with `not_found`
/// and `missing` as the messages for a missing record and for an image
/// record without bytes; a decoding failure is an error too.
pub open spec fn payload_matches(
    s: Seq<RecordView>,
    id: i64,
    r: Result<ClipboardPayload, String>,
    not_found: Seq<char>,
    missing: Seq<char>,
) -> bool {
    &&& (forall|i: int| 0 <= i < s.len() ==> #[trigger] s[i].id != id) ==> (r matches Err(m) && m@ == not_found)
    &&& forall|i: int| 0 <= i < s.len() && #[trigger] s[i].id == id ==> {
        if s[i].content_type == ContentType::Image {
            match s[i].image_data {
                None => r matches Err(m) && m@ == missing,
                Some(png) => match png_decoding(png) {
                    None => r is Err,
                    Some((w, h, px)) => r matches Ok(ClipboardPayload::Image(pw, ph, pp)) && pw == w && ph == h && pp@ == px,
                },
            }
        } else {
            r matches Ok(ClipboardPayload::Text(t)) && t@ == s[i].content
        }
    }
}

fn record_payload(store: &HistoryStore, id: i64, not_found: &str, missing: &str) -> (r: Result<ClipboardPayload, String>)
    requires
        store.wf(),
    ensures
        payload_matches(store@.records, id, r, not_found@, missing@),
{
    let record = match store.get_record_by_id(id) {
        Some(rec) => rec,
        None => {
            return Err(String::from_str(not_found));
        },
    };
    proof {
        assert forall|i: int| 0 <= i < store@.records.len() && #[trigger] store@.records[i].id == id implies store@.records[i] == record@ by {
            let j = choose|j: int| 0 <= j < store@.records.len() && #[trigger] store@.records[j] == record@ && record@.id == id;
            if i < j {
                assert(store@.records[i].id < store@.records[j].id);
            } else if i > j {
                assert(store@.records[j].id < store@.records[i].id);
            }
        }
    }
    match record.content_type {
        ContentType::Image => {
            match record.image_data {
                Some(bytes) => {
                    match decode_png_rgba(bytes.as_slice()) {
                        Ok((w, h, rgba)) => Ok(ClipboardPayload::Image(w, h, rgba)),
                        Err(e) => Err(e),
                    }
                },
                None => Err(String::from_str(missing)),
            }
        },
        _ => Ok(ClipboardPayload::Text(record.content)),
    }
}

/// What the list window writes to the clipboard when record `id` is
/// activated.
pub fn copy_record_payload(store: &HistoryStore, id: i64) -> (r: Result<ClipboardPayload, String>)
    requires
        store.wf(),
    ensures
        payload_matches(store@.records, id, r, "记录不存在或已被删除"@, "图片记录缺少数据"@),
{
    record_payload(store, id, "记录不存在或已被删除", "图片记录缺少数据")
}

/// What is written to the clipboard before record `id` is pasted.
pub fn paste_record_payload(store: &HistoryStore, id: i64) -> (r: Result<ClipboardPayload, String>)
    requires
        store.wf(),
    ensures
        payload_matches(store@.records, id, r, "Record not found"@, "Image data missing"@),
{
    record_payload(store, id, "Record not found", "Image data missing")
}

// ---------------------------------------------------------------------------
// Applying settings
// ---------------------------------------------------------------------------

/// The store after saving `settings` at `now`: the settings replaced and
/// their retention policy applied.
pub open spec fn saved_with(old: StoreView, settings: SettingsView, now: int) -> StoreView {
    StoreView { settings, records: retain(old.records, settings, now), ..old }
}

/// What the main hotkey is after a failed settings change from a runtime
/// whose hotkey was `before`, that asked for `id`, and that was to go back
/// to `previous`: the new hotkey never took over; or the previous one was
/// put back; or the new one stays because the previous setting is not a
/// hotkey or the system refused a request since `from` in `calls`.
pub open spec fn rolled_back(
    after: Option<u32>,
    before: Option<u32>,
    id: u32,
    previous: Seq<char>,
    calls: Seq<crate::hotkeys::HotkeyCall>,
    from: int,
) -> bool {
    ||| after == before
    ||| (main_hotkey_target(previous) matches Ok(p) && after == Some(p))
    ||| (after == Some(id) && (main_hotkey_target(previous) is Err || refused_since(calls, from)))
}

/// Applies edited settings in order: the main hotkey, start at login
/// (through the host's step in `autostart`, which brings it to the value
/// it is given and is asked only when the hotkey change succeeded),
/// then the stored settings. When a step fails the earlier ones are undone
/// (the previous hotkey put back) and its message returned; the store
/// changes only on success.
pub fn apply_settings_transaction<F: Fn(bool) -> Result<(), String>>(
    runtime: &mut HotkeyRuntime,
    store: &mut HistoryStore,
    previous: &Settings,
    updated: &Settings,
    now: i64,
    autostart: &mut AutostartSync<F>,
) -> (r: Result<(), String>)
    requires
        old(store).wf(),
        forall|b: bool| old(autostart).step().requires((b,)),
    ensures
        final(store).wf(),
        crate::hotkeys::extends(final(runtime).calls(), old(runtime).calls()),
        final(autostart).step() == old(autostart).step(),
        match main_hotkey_target(updated.hotkey@) {
            Err(m) => (r matches Err(e) && e@ == m) && final(store)@ == old(store)@ && final(runtime).active() == old(runtime).active()
                && final(runtime).calls() == old(runtime).calls() && final(autostart).requests() == old(autostart).requests(),
            Ok(id) => {
                &&& r is Ok ==> final(store)@ == saved_with(old(store)@, updated@, now as int) && final(runtime).active() == Some(id)
                    && old(autostart).step().ensures((updated.auto_start,), Ok::<(), String>(()))
                    && final(autostart).requests() == old(autostart).requests().push(updated.auto_start)
                &&& r is Err ==> final(store)@ == old(store)@ && rolled_back(
                    final(runtime).active(),
                    old(runtime).active(),
                    id,
                    previous.hotkey@,
                    final(runtime).calls(),
                    old(runtime).calls().len() as int,
                )
                &&& r matches Err(e) ==> old(autostart).step().ensures((updated.auto_start,), Err::<(), String>(e))
                    || has_prefix(e@, "无法注销旧快捷键："@)
                    || has_prefix(e@, "注册快捷键 "@ + trim(updated.hotkey@) + " 失败："@)
                &&& r matches Err(e) ==> ({
                    let added = final(runtime).calls().skip(old(runtime).calls().len() as int);
                    ||| (final(runtime).active() == old(runtime).active()
                        && failed_update(old(runtime).active(), updated.hotkey@, added, added.len() as int, e@)
                        && final(autostart).requests() == old(autostart).requests())
                    ||| ((exists|j: int| #[trigger] update_then_restore(
                        old(runtime).active(),
                        final(runtime).active(),
                        updated.hotkey@,
                        previous.hotkey@,
                        added,
                        j,
                    )) && old(autostart).step().ensures((updated.auto_start,), Err::<(), String>(e))
                        && final(autostart).requests() == old(autostart).requests().push(updated.auto_start))
                })
                &&& old(runtime).active() == Some(id) ==> match r {
                    Ok(_) => final(runtime).calls() == old(runtime).calls(),
                    Err(e) => old(autostart).step().ensures((updated.auto_start,), Err::<(), String>(e)),
                }
            },
        },
{
    let ghost start = runtime.calls();
    match runtime.update(updated.hotkey.as_str()) {
        Ok(()) => {},
        Err(e) => {
            proof {
                let added = runtime.calls().skip(start.len() as int);
                assert(added.take(added.len() as int) =~= added);
            }
            return Err(e);
        },
    }
    let ghost mid = runtime.calls();
    let synced = autostart.sync(updated.auto_start);
    match synced {
        Ok(u) => {
            assert(synced == Ok::<(), String>(u));
            assert(u == ());
        },
        Err(e) => {
            let _ = runtime.update(previous.hotkey.as_str());
            proof {
                assert(runtime.calls().take(old(runtime).calls().len() as int) =~= old(runtime).calls()) by {
                    assert(mid.take(old(runtime).calls().len() as int) =~= old(runtime).calls());
                    assert(runtime.calls().take(mid.len() as int) =~= mid);
                    assert(runtime.calls().take(old(runtime).calls().len() as int) =~= mid.take(old(runtime).calls().len() as int));
                }
                if refused_since(runtime.calls(), mid.len() as int) {
                    let k = choose|k: int| mid.len() <= k < runtime.calls().len() && crate::hotkeys::call_refused(#[trigger] runtime.calls()[k]);
                    assert(crate::hotkeys::call_refused(runtime.calls()[k]));
                }
                lemma_split_log(runtime.calls(), start, mid);
                assert(update_then_restore(
                    old(runtime).active(),
                    runtime.active(),
                    updated.hotkey@,
                    previous.hotkey@,
                    runtime.calls().skip(start.len() as int),
                    mid.len() - start.len(),
                ));
            }
            return Err(e);
        },
    }
    store.save_settings(updated, now);
    Ok(())
}

/// The settings an imported package is applied with: checked again as the
/// settings form would check them (hotkey trimmed, limits in range, AI
/// switched off).
pub open spec fn imported_settings_check(imported: SettingsView) -> Result<SettingsView, Seq<char>> {
    settings_draft(
        imported,
        imported.hotkey,
        theme_name(imported.theme),
        signed_decimal(imported.keep_days as int),
        signed_decimal(imported.max_records as int),
        imported.auto_start,
    )
}

/// Applies the settings that an import stored: they are checked again and
/// applied like edited settings. When that fails the settings from before
/// the import are saved back at `now`, their hotkey and start-at-login
/// state restored, and the message returned.
pub fn apply_imported_settings<F: Fn(bool) -> Result<(), String>>(
    runtime: &mut HotkeyRuntime,
    store: &mut HistoryStore,
    previous: &Settings,
    now: i64,
    autostart: &mut AutostartSync<F>,
) -> (r: Result<(), String>)
    requires
        old(store).wf(),
        forall|b: bool| old(autostart).step().requires((b,)),
    ensures
        final(store).wf(),
        crate::hotkeys::extends(final(runtime).calls(), old(runtime).calls()),
        r is Err ==> final(store)@.settings == previous@,
        r is Ok ==> final(store)@ == saved_with(old(store)@, imported_settings_check(old(store)@.settings)->Ok_0, now as int),
        imported_settings_check(old(store)@.settings) matches Err(m) ==> (r matches Err(e) && e@ == m)
            && final(store)@ == saved_with(old(store)@, previous@, now as int),
        r is Err ==> (main_hotkey_target(previous.hotkey@) matches Ok(p) && final(runtime).active() == Some(p))
            || refused_since(final(runtime).calls(), old(runtime).calls().len() as int)
            || main_hotkey_target(previous.hotkey@) is Err,
        r is Ok ==> old(autostart).step().ensures((old(store)@.settings.auto_start,), Ok::<(), String>(()))
            && final(autostart).requests() == old(autostart).requests().push(old(store)@.settings.auto_start),
        final(autostart).step() == old(autostart).step(),
        imported_settings_check(old(store)@.settings) is Err ==> final(autostart).requests() == old(autostart).requests().push(previous.auto_start),
        r is Err ==> final(autostart).requests() == old(autostart).requests().push(previous.auto_start)
            || final(autostart).requests() == old(autostart).requests().push(old(store)@.settings.auto_start).push(previous.auto_start),
        r matches Err(e) ==> ({
            let added = final(runtime).calls().skip(old(runtime).calls().len() as int);
            let check = imported_settings_check(old(store)@.settings);
            ||| (check matches Err(m) && e@ == m)
            ||| old(autostart).step().ensures((old(store)@.settings.auto_start,), Err::<(), String>(e))
            ||| (check is Ok && exists|j: int| #[trigger] failed_update(old(runtime).active(), check->Ok_0.hotkey, added, j, e@))
        }),
{
    let ghost start = runtime.calls();
    proof {
        assert(start.take(start.len() as int) =~= start);
    }
    let imported = store.get_settings();
    let keep_days = string_from_chars(signed_decimal_chars(imported.keep_days as i64).as_slice());
    let max_records = string_from_chars(signed_decimal_chars(imported.max_records as i64).as_slice());
    let result = match parse_settings_draft(
        &imported,
        imported.hotkey.as_str(),
        theme_token(&imported.theme),
        keep_days.as_str(),
        max_records.as_str(),
        imported.auto_start,
    ) {
        Ok(validated) => {
            proof {
                assert(validated@.auto_start == imported@.auto_start);
            }
            let t = apply_settings_transaction(runtime, store, previous, &validated, now, autostart);
            proof {
                if t is Err && main_hotkey_target(validated.hotkey@) is Err {
                    assert(runtime.calls().skip(start.len() as int) =~= Seq::<crate::hotkeys::HotkeyCall>::empty());
                    assert(runtime.calls().skip(start.len() as int).take(0) =~= Seq::<crate::hotkeys::HotkeyCall>::empty());
                }
            }
            t
        },
        Err(e) => Err(e),
    };
    match result {
        Ok(()) => Ok(()),
        Err(e) => {
            store.save_settings(previous, now);
            let ghost mid = runtime.calls();
            let _ = runtime.update(previous.hotkey.as_str());
            let _ = autostart.sync(previous.auto_start);
            proof {
                assert(runtime.calls().take(old(runtime).calls().len() as int) =~= old(runtime).calls()) by {
                    assert(mid.take(old(runtime).calls().len() as int) =~= old(runtime).calls());
                    assert(runtime.calls().take(mid.len() as int) =~= mid);
                    assert(runtime.calls().take(old(runtime).calls().len() as int) =~= mid.take(old(runtime).calls().len() as int));
                }
                if refused_since(runtime.calls(), mid.len() as int) {
                    let k = choose|k: int| mid.len() <= k < runtime.calls().len() && crate::hotkeys::call_refused(#[trigger] runtime.calls()[k]);
                    assert(crate::hotkeys::call_refused(runtime.calls()[k]));
                }
                lemma_split_log(runtime.calls(), start, mid);
                let added_t = mid.skip(start.len() as int);
                let added = runtime.calls().skip(start.len() as int);
                let j = added_t.len() as int;
                assert(added.take(j) == added_t);
                assert(added_t.take(j) =~= added_t);
                if imported_settings_check(old(store)@.settings) is Ok
                    && failed_update(old(runtime).active(), imported_settings_check(old(store)@.settings)->Ok_0.hotkey, added_t, j, e@) {
                    assert(failed_update(old(runtime).active(), imported_settings_check(old(store)@.settings)->Ok_0.hotkey, added, j, e@));
                }
            }
            Err(e)
        },
    }
}

// ---------------------------------------------------------------------------
// List entries
// ---------------------------------------------------------------------------

/// One entry of the record list as the window draws it.
#[derive(Clone, Debug)]
pub struct UiRecord {
    pub id: String,
    pub content: String,
    pub type_label: String,
    pub created_at: String,
    pub favorite: bool,
    pub pinned: bool,
    pub has_image: bool,
    pub thumbnail: Option<(usize, usize, Vec<u8>)>,
}

/// The list entry for a record: its id in decimal, the shortened content,
/// the type label, timestamp and flags, and for an image record its
/// thumbnail when one can be made.
pub fn to_ui_record(store: &HistoryStore, record: ClipboardRecord) -> (u: UiRecord)
    requires
        store.wf(),
    ensures
        u.id@ == signed_decimal(record.id as int),
        u.content@ == display_text(record.content@),
        u.type_label@ == content_label(record.content_type),
        u.created_at@ == record.created_at@,
        u.favorite == record.is_favorite,
        u.pinned == record.is_pinned,
        u.has_image == (record.content_type == ContentType::Image),
        match u.thumbnail {
            Some((w, h, px)) => u.has_image && thumbnail_view(store@.records, record.id) == Some((w as int, h as int, px@)),
            None => !u.has_image || thumbnail_view(store@.records, record.id) is None,
        },
{
    let has_image = record.content_type == ContentType::Image;
    let thumbnail = if has_image {
        match image_thumbnail(store, record.id) {
            Ok(t) => Some(t),
            Err(_) => None,
        }
    } else {
        None
    };
    let content = display_content(&record);
    UiRecord {
        id: string_from_chars(signed_decimal_chars(record.id).as_slice()),
        content,
        type_label: String::from_str(content_type_label(&record.content_type)),
        created_at: record.created_at,
        favorite: record.is_favorite,
        pinned: record.is_pinned,
        has_image,
        thumbnail,
    }
}

/// The list entries for `state`, in list order.
pub fn refresh_records(store: &HistoryStore, state: &ViewState) -> (r: Result<Vec<UiRecord>, String>)
    requires
        store.wf(),
    ensures
        r matches Ok(v) && v.len() == visible_records(store@.records, state.keyword@, state.favorites_only).len()
            && forall|i: int| 0 <= i < v.len() ==> {
                let rec = #[trigger] visible_records(store@.records, state.keyword@, state.favorites_only)[i];
                &&& v[i].id@ == signed_decimal(rec.id as int)
                &&& v[i].content@ == display_text(rec.content)
                &&& v[i].type_label@ == content_label(rec.content_type)
                &&& v[i].created_at@ == rec.created_at
                &&& v[i].favorite == rec.is_favorite
                &&& v[i].pinned == rec.is_pinned
                &&& v[i].has_image == (rec.content_type == ContentType::Image)
                &&& match v[i].thumbnail {
                    Some((w, h, px)) => v[i].has_image && thumbnail_view(store@.records, rec.id) == Some((w as int, h as int, px@)),
                    None => !v[i].has_image || thumbnail_view(store@.records, rec.id) is None,
                }
            },
{
    let records = match query_records(store, state) {
        Ok(v) => v,
        Err(e) => {
            return Err(e);
        },
    };
    let ghost listed = views(records@);
    let mut out: Vec<UiRecord> = Vec::new();
    let mut k: usize = 0;
    while k < records.len()
        invariant
            store.wf(),
            k <= records.len(),
            listed == views(records@),
            out.len() == k,
            forall|i: int| 0 <= i < k ==> {
                let rec = #[trigger] listed[i];
                &&& out[i].id@ == signed_decimal(rec.id as int)
                &&& out[i].content@ == display_text(rec.content)
                &&& out[i].type_label@ == content_label(rec.content_type)
                &&& out[i].created_at@ == rec.created_at
                &&& out[i].favorite == rec.is_favorite
                &&& out[i].pinned == rec.is_pinned
                &&& out[i].has_image == (rec.content_type == ContentType::Image)
                &&& match out[i].thumbnail {
                    Some((w, h, px)) => out[i].has_image && thumbnail_view(store@.records, rec.id) == Some((w as int, h as int, px@)),
                    None => !out[i].has_image || thumbnail_view(store@.records, rec.id) is None,
                }
            },
        decreases records.len() - k,
    {
        let rec = records[k].duplicate();
        assert(listed[k as int] == rec@);
        let u = to_ui_record(store, rec);
        out.push(u);
        k = k + 1;
    }
    Ok(out)
}

} // verus!
