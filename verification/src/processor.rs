use vstd::prelude::*;

use std::hash::{Hash, Hasher};

use crate::clock::current_local_rfc3339;
use crate::image::{
    append_chars, downscaled, encode_rgba_to_png, image_signature, image_signature_text,
    needs_downscale, normalize_image_for_storage, png_encoding, scaled_size, MAX_ENCODED_IMAGE_BYTES,
    MAX_IMAGE_BYTES,
};
use crate::models::{ClipboardRecord, ContentType, RecordView};
use crate::queries::add_clipboard_record;
use crate::monitor::{MonitorController, IGNORE_WINDOW_MS};
use crate::store::{after_add, HistoryStore, StoreView};
use crate::text::{
    chars_of, decimal, decimal_chars, starts_with_ci, starts_with_ignore_ascii_case,
    string_from_chars, trim, trim_bounds,
};
use crate::url::{http_prefix, https_prefix, www_prefix};

verus! {

/// Whether clipboard images are recorded at all (this version records text
/// only).
pub const ENABLE_IMAGE_RECORDING: bool = false;

/// Least time between two recorded images, in milliseconds.
pub const MIN_IMAGE_RECORD_INTERVAL_MS: u64 = 1200;

/// The kind a copied text is stored as: a link when, trimmed, it starts with
/// `http://`, `https://` or `www.` (ASCII case ignored), else text.
/// Lower-casing the whole text with Unicode rules first would give the
/// same answer for these prefixes: no other character lower-cases to one of
/// their letters.
pub open spec fn text_kind(text: Seq<char>) -> ContentType {
    let t = trim(text);
    if t.len() > 0 && (starts_with_ci(t, http_prefix()) || starts_with_ci(t, https_prefix())
        || starts_with_ci(t, www_prefix())) {
        ContentType::Link
    } else {
        ContentType::Text
    }
}

/// A copied text is classified as a link exactly when, once trimmed, it
/// begins with `http://`, `https://` or `www.` in any ASCII case; every
/// other text (the blank one included) is plain text.
pub proof fn link_classification(text: Seq<char>)
    ensures
        starts_with_ci(trim(text), seq!['h', 't', 't', 'p', ':', '/', '/']) ==> text_kind(text) == ContentType::Link,
        starts_with_ci(trim(text), seq!['h', 't', 't', 'p', 's', ':', '/', '/']) ==> text_kind(text) == ContentType::Link,
        starts_with_ci(trim(text), seq!['w', 'w', 'w', '.']) ==> text_kind(text) == ContentType::Link,
        !starts_with_ci(trim(text), seq!['h', 't', 't', 'p', ':', '/', '/'])
            && !starts_with_ci(trim(text), seq!['h', 't', 't', 'p', 's', ':', '/', '/'])
            && !starts_with_ci(trim(text), seq!['w', 'w', 'w', '.']) ==> text_kind(text) == ContentType::Text,
{
    assert(http_prefix() =~= seq!['h', 't', 't', 'p', ':', '/', '/']);
    assert(https_prefix() =~= seq!['h', 't', 't', 'p', 's', ':', '/', '/']);
    assert(www_prefix() =~= seq!['w', 'w', 'w', '.']);
}

/// Decides whether copied text is a link or plain text.
pub fn identify_text_type(text: &str) -> (r: ContentType)
    ensures
        r == text_kind(text@),
{
    let v = chars_of(text);
    let (a, b) = trim_bounds(&v);
    if a == b {
        return ContentType::Text;
    }
    let mut t: Vec<char> = Vec::new();
    let mut k = a;
    while k < b
        invariant
            a <= k <= b <= v.len(),
            t@ == v@.subrange(a as int, k as int),
        decreases b - k,
    {
        t.push(v[k]);
        assert(t@ =~= v@.subrange(a as int, k + 1));
        k = k + 1;
    }
    let http: Vec<char> = vec!['h', 't', 't', 'p', ':', '/', '/'];
    let https: Vec<char> = vec!['h', 't', 't', 'p', 's', ':', '/', '/'];
    let www: Vec<char> = vec!['w', 'w', 'w', '.'];
    assert(http@ =~= http_prefix());
    assert(https@ =~= https_prefix());
    assert(www@ =~= www_prefix());
    if starts_with_ignore_ascii_case(&t, &http) || starts_with_ignore_ascii_case(&t, &https)
        || starts_with_ignore_ascii_case(&t, &www) {
        ContentType::Link
    } else {
        ContentType::Text
    }
}

/// The std `DefaultHasher` value of a string (`str::hash`, then `finish`).
pub uninterp spec fn text_hash(text: Seq<char>) -> u64;

/// Hashes a text with `std::collections::hash_map::DefaultHasher`, whose
/// keys are fixed, so equal texts hash equally. The value is only named.
#[verifier::external_body]
pub fn compute_text_hash(text: &str) -> (r: u64)
    ensures
        r == text_hash(text@),
{
    let mut hasher = std::collections::hash_map::DefaultHasher::new();
    text.hash(&mut hasher);
    hasher.finish()
}

/// The fingerprint of the last clipboard content seen.
#[derive(Clone, Debug)]
pub enum ClipboardSignature {
    Empty,
    Text(u64),
    Image(String),
}

/// Dedup and throttling state of the clipboard watcher: the last content
/// fingerprint and when an image was last recorded.
pub struct ClipboardTracker {
    pub last_signature: ClipboardSignature,
    pub last_image_record_ms: u64,
}

/// `now - last`, stopping at zero.
pub open spec fn saturating_diff(now: u64, last: u64) -> int {
    if now >= last {
        now - last
    } else {
        0
    }
}

/// A copied text is recorded: it is not blank and does not hash like the
/// last text seen.
pub open spec fn text_change_accepted(last: ClipboardSignature, text: Seq<char>) -> bool {
    trim(text).len() > 0 && !(last == ClipboardSignature::Text(text_hash(text)))
}

/// The last signature after a text change was looked at.
pub open spec fn signature_after_text(last: ClipboardSignature, text: Seq<char>) -> ClipboardSignature {
    if text_change_accepted(last, text) {
        ClipboardSignature::Text(text_hash(text))
    } else {
        last
    }
}

impl ClipboardTracker {
    /// Nothing seen yet.
    pub fn new() -> (t: ClipboardTracker)
        ensures
            t.last_signature == ClipboardSignature::Empty,
            t.last_image_record_ms == 0,
    {
        ClipboardTracker { last_signature: ClipboardSignature::Empty, last_image_record_ms: 0 }
    }

    /// Takes the clipboard content present at start-up as already seen: its
    /// text when there is one, else (when images are recorded) its image.
    pub fn init_startup_signature(&mut self, text: Option<&str>, image: Option<(usize, usize, &[u8])>)
        ensures
            match text {
                Some(t) => final(self).last_signature == ClipboardSignature::Text(text_hash(t@)),
                None => match image {
                    Some((w, h, rgba)) if ENABLE_IMAGE_RECORDING => final(self).last_signature matches ClipboardSignature::Image(s) && s@ == image_signature_text(w, h, rgba@),
                    _ => final(self).last_signature == old(self).last_signature,
                },
            },
            final(self).last_image_record_ms == old(self).last_image_record_ms,
    {
        match text {
            Some(t) => {
                self.last_signature = ClipboardSignature::Text(compute_text_hash(t));
            },
            None => {
                if ENABLE_IMAGE_RECORDING {
                    if let Some((w, h, rgba)) = image {
                        self.last_signature = ClipboardSignature::Image(image_signature(w, h, rgba));
                    }
                }
            },
        }
    }

    /// A text change is recorded unless it is blank or hashes the same as
    /// the last text seen; when it is, its hash becomes the last signature.
    pub fn accept_text_change(&mut self, text: &str) -> (accepted: bool)
        ensures
            accepted == text_change_accepted(old(self).last_signature, text@),
            final(self).last_signature == signature_after_text(old(self).last_signature, text@),
            final(self).last_image_record_ms == old(self).last_image_record_ms,
    {
        let v = chars_of(text);
        let (a, b) = trim_bounds(&v);
        if a == b {
            return false;
        }
        let signature = compute_text_hash(text);
        match &self.last_signature {
            ClipboardSignature::Text(last) => {
                if *last == signature {
                    return false;
                }
            },
            _ => {},
        }
        self.last_signature = ClipboardSignature::Text(signature);
        true
    }

    /// An image change at time `now` is recorded unless the buffer is over
    /// 48 MiB, its signature equals the last image's, or the last image was
    /// recorded less than 1200 ms ago. Every image under the size limit with
    /// a new signature becomes the last signature; recording also moves the
    /// last-recorded time to `now`.
    pub fn accept_image_change(&mut self, width: usize, height: usize, raw: &[u8], now: u64) -> (accepted: bool)
        ensures
            ({
                let sig = image_signature_text(width, height, raw@);
                let too_big = raw@.len() > MAX_IMAGE_BYTES;
                let repeated = old(self).last_signature matches ClipboardSignature::Image(s) && s@ == sig;
                let throttled = saturating_diff(now, old(self).last_image_record_ms) < MIN_IMAGE_RECORD_INTERVAL_MS;
                &&& accepted == (!too_big && !repeated && !throttled)
                &&& (too_big || repeated) ==> final(self).last_signature == old(self).last_signature
                &&& !(too_big || repeated) ==> (final(self).last_signature matches ClipboardSignature::Image(s) && s@ == sig)
                &&& final(self).last_image_record_ms == if accepted { now } else { old(self).last_image_record_ms }
            }),
    {
        if raw.len() > MAX_IMAGE_BYTES {
            return false;
        }
        let signature = image_signature(width, height, raw);
        match &self.last_signature {
            ClipboardSignature::Image(last) => {
                if *last == signature {
                    return false;
                }
            },
            _ => {},
        }
        self.last_signature = ClipboardSignature::Image(signature);
        let elapsed: u64 = if now >= self.last_image_record_ms {
            now - self.last_image_record_ms
        } else {
            0
        };
        if elapsed < MIN_IMAGE_RECORD_INTERVAL_MS {
            return false;
        }
        self.last_image_record_ms = now;
        true
    }
}

/// The watcher records a text once: when the same text is seen again
/// right after it was recorded, it is not recorded a second time.
pub proof fn text_recorded_once(last: ClipboardSignature, text: Seq<char>)
    requires
        text_change_accepted(last, text),
    ensures
        !text_change_accepted(signature_after_text(last, text), text),
{
}

/// The record built for copied text.
pub open spec fn text_record(text: Seq<char>, created_at: Seq<char>) -> RecordView {
    RecordView {
        id: 0,
        content_type: text_kind(text),
        content: text,
        image_data: None,
        created_at,
        is_favorite: false,
        is_pinned: false,
    }
}

/// Builds the history record for copied text with the given timestamp.
pub fn build_record_from_text_at(text: String, created_at: String) -> (r: ClipboardRecord)
    ensures
        r@ == text_record(text@, created_at@),
{
    let content_type = identify_text_type(text.as_str());
    ClipboardRecord {
        id: 0,
        content_type,
        content: text,
        image_data: None,
        is_favorite: false,
        is_pinned: false,
        created_at,
    }
}

/// Builds the history record for copied text, stamped with the local time.
pub fn build_record_from_text(text: String) -> (r: ClipboardRecord)
    ensures
        exists|created_at: Seq<char>| r@ == text_record(text@, created_at),
{
    build_record_from_text_at(text, current_local_rfc3339())
}

/// Description of a stored image: `图片 WxH`, with ` (缩放自 WxH)` and the
/// original size when it was scaled down.
pub open spec fn image_description(w: usize, h: usize, nw: usize, nh: usize, scaled: bool) -> Seq<char> {
    if scaled {
        "图片 "@ + decimal(nw as nat) + "x"@ + decimal(nh as nat) + " (缩放自 "@ + decimal(w as nat) + "x"@
            + decimal(h as nat) + ")"@
    } else {
        "图片 "@ + decimal(w as nat) + "x"@ + decimal(h as nat)
    }
}

/// The stored size of an image and its pixels after normalisation.
pub open spec fn stored_image(w: usize, h: usize, rgba: Seq<u8>) -> (usize, usize, Seq<u8>, bool) {
    if needs_downscale(w as int, h as int) {
        let (tw, th) = scaled_size(w as int, h as int);
        (tw as usize, th as usize, downscaled(w as int, h as int, rgba, tw, th), true)
    } else {
        (w, h, rgba, false)
    }
}

/// What building an image record gives: the PNG of the normalised image
/// unless encoding fails or the file exceeds 6 MiB.
pub open spec fn image_record_result(w: usize, h: usize, rgba: Seq<u8>, created_at: Seq<char>) -> Option<RecordView> {
    let (nw, nh, pixels, scaled) = stored_image(w, h, rgba);
    match png_encoding(nw, nh, pixels) {
        Some(png) => if png.len() > MAX_ENCODED_IMAGE_BYTES {
            None
        } else {
            Some(
                RecordView {
                    id: 0,
                    content_type: ContentType::Image,
                    content: image_description(w, h, nw, nh, scaled),
                    image_data: Some(png),
                    created_at,
                    is_favorite: false,
                    is_pinned: false,
                },
            )
        },
        None => None,
    }
}

fn push_str_chars(v: &mut Vec<char>, s: &str)
    ensures
        final(v)@ == old(v)@ + s@,
{
    let c = chars_of(s);
    append_chars(v, &c);
}

/// Builds the history record for a copied RGBA image with the given
/// timestamp: normalised to the storage limits and PNG-encoded; errors when
/// encoding fails or the PNG exceeds 6 MiB.
pub fn build_image_record_at(width: usize, height: usize, rgba: &[u8], created_at: String) -> (r: Result<ClipboardRecord, String>)
    requires
        rgba@.len() == width * height * 4,
        width <= u32::MAX,
        height <= u32::MAX,
        needs_downscale(width as int, height as int) ==> width > 0 && height > 0 && width * 2200 <= usize::MAX
            && height * 2200 <= usize::MAX,
    ensures
        match image_record_result(width, height, rgba@, created_at@) {
            Some(rec) => r matches Ok(v) && v@ == rec,
            None => r is Err,
        },
{
    let (nw, nh, pixels, scaled) = normalize_image_for_storage(width, height, rgba);
    proof {
        if needs_downscale(width as int, height as int) {
            crate::image::scaled_size_within_limits(width as int, height as int);
        }
    }
    let png = match encode_rgba_to_png(nw, nh, pixels.as_slice()) {
        Ok(p) => p,
        Err(e) => return Err(e),
    };
    if png.len() > MAX_ENCODED_IMAGE_BYTES {
        let mut msg: Vec<char> = Vec::new();
        push_str_chars(&mut msg, "Image too large after encoding (");
        let digits = decimal_chars(png.len() as u64);
        append_chars(&mut msg, &digits);
        push_str_chars(&mut msg, " bytes)");
        return Err(string_from_chars(msg.as_slice()));
    }
    let mut text: Vec<char> = Vec::new();
    push_str_chars(&mut text, "图片 ");
    if scaled {
        append_chars(&mut text, &decimal_chars(nw as u64));
        push_str_chars(&mut text, "x");
        append_chars(&mut text, &decimal_chars(nh as u64));
        push_str_chars(&mut text, " (缩放自 ");
        append_chars(&mut text, &decimal_chars(width as u64));
        push_str_chars(&mut text, "x");
        append_chars(&mut text, &decimal_chars(height as u64));
        push_str_chars(&mut text, ")");
    } else {
        append_chars(&mut text, &decimal_chars(width as u64));
        push_str_chars(&mut text, "x");
        append_chars(&mut text, &decimal_chars(height as u64));
    }
    assert(text@ =~= image_description(width, height, nw, nh, scaled));
    Ok(ClipboardRecord {
        id: 0,
        content_type: ContentType::Image,
        content: string_from_chars(text.as_slice()),
        image_data: Some(png),
        is_favorite: false,
        is_pinned: false,
        created_at,
    })
}

/// Builds the history record for a copied image, stamped with the local time.
pub fn build_image_record(width: usize, height: usize, rgba: &[u8]) -> (r: Result<ClipboardRecord, String>)
    requires
        rgba@.len() == width * height * 4,
        width <= u32::MAX,
        height <= u32::MAX,
        needs_downscale(width as int, height as int) ==> width > 0 && height > 0 && width * 2200 <= usize::MAX
            && height * 2200 <= usize::MAX,
    ensures
        exists|created_at: Seq<char>| match #[trigger] image_record_result(width, height, rgba@, created_at) {
            Some(rec) => r matches Ok(v) && v@ == rec,
            None => r is Err,
        },
{
    build_image_record_at(width, height, rgba, current_local_rfc3339())
}

/// Stores a built record at the current time; whether it was stored.
pub fn persist_record(store: &mut HistoryStore, record: ClipboardRecord) -> (stored: bool)
    requires
        old(store).wf(),
    ensures
        final(store).wf(),
        exists|now: i64| #![trigger after_add(old(store)@, record@, now as int)]
            final(store)@ == after_add(old(store)@, record@, now as int).1
                && stored == after_add(old(store)@, record@, now as int).0 is Ok,
{
    add_clipboard_record(store, record).is_ok()
}

/// What handling a clipboard change holding `text` does, from tracker `t0`
/// and store `s0` to `t1` and `s1`, reporting `changed`: text that is not
/// blank becomes the last text seen and, unless it repeats it, is added to
/// the store at some time (the change reported when that succeeds);
/// otherwise nothing changes.
pub open spec fn change_processed(
    t0: ClipboardTracker,
    t1: ClipboardTracker,
    s0: StoreView,
    s1: StoreView,
    text: Option<String>,
    changed: bool,
) -> bool {
    match text {
        Some(t) if trim(t@).len() > 0 => {
            &&& t1.last_signature == signature_after_text(t0.last_signature, t@)
            &&& t1.last_image_record_ms == t0.last_image_record_ms
            &&& text_change_accepted(t0.last_signature, t@) ==> exists|created_at: Seq<char>, now: i64|
                #![trigger after_add(s0, text_record(t@, created_at), now as int)]
                s1 == after_add(s0, text_record(t@, created_at), now as int).1
                    && changed == after_add(s0, text_record(t@, created_at), now as int).0 is Ok
            &&& !text_change_accepted(t0.last_signature, t@) ==> s1 == s0 && !changed
        },
        _ => t1 == t0 && s1 == s0 && !changed,
    }
}

/// Handles one clipboard change. Text that is not blank is recorded unless
/// it repeats the last text seen; when there is no such text and image
/// recording is on, an image is recorded under the image rules. Returns
/// whether the history changed. `now_ms` is the time of the change.
pub fn process_clipboard_change(
    tracker: &mut ClipboardTracker,
    store: &mut HistoryStore,
    text: Option<String>,
    image: Option<(usize, usize, Vec<u8>)>,
    now_ms: u64,
) -> (changed: bool)
    requires
        old(store).wf(),
    ensures
        final(store).wf(),
        change_processed(*old(tracker), *final(tracker), old(store)@, final(store)@, text, changed),
{
    match text {
        Some(t) => {
            let v = chars_of(t.as_str());
            let (a, b) = trim_bounds(&v);
            if a != b {
                if tracker.accept_text_change(t.as_str()) {
                    let record = build_record_from_text(t);
                    return persist_record(store, record);
                }
                return false;
            }
        },
        None => {},
    }
    if ENABLE_IMAGE_RECORDING {
        match image {
            Some((width, height, raw)) => {
                if tracker.accept_image_change(width, height, raw.as_slice(), now_ms) {
                    match build_image_record(width, height, raw.as_slice()) {
                        Ok(record) => {
                            return persist_record(store, record);
                        },
                        Err(_) => {
                            return false;
                        },
                    }
                }
            },
            None => {},
        }
    }
    false
}

/// Handles a clipboard change seen at `now_ms` by the watcher `controller`:
/// skipped (nothing recorded, no change reported) while changes are being
/// ignored or a paste is running, else handled as
/// [`process_clipboard_change`] does. Returns whether the history changed.
pub fn handle_clipboard_event(
    controller: &MonitorController,
    tracker: &mut ClipboardTracker,
    store: &mut HistoryStore,
    text: Option<String>,
    image: Option<(usize, usize, Vec<u8>)>,
    now_ms: u64,
) -> (changed: bool)
    requires
        old(store).wf(),
    ensures
        final(store).wf(),
        if now_ms < controller.ignore_until_ms || controller.paste_in_progress {
            !changed && *final(tracker) == *old(tracker) && final(store)@ == old(store)@
        } else {
            change_processed(*old(tracker), *final(tracker), old(store)@, final(store)@, text, changed)
        },
{
    if !controller.should_process_event(now_ms) {
        return false;
    }
    process_clipboard_change(tracker, store, text, image, now_ms)
}

/// Once changes are marked to be ignored at `t`, a change seen at any
/// moment before `t + 400` ms is skipped by [`handle_clipboard_event`].
pub proof fn marked_changes_are_skipped(c: MonitorController, t: u64, seen: u64)
    requires
        t <= u64::MAX - IGNORE_WINDOW_MS,
        seen < t + IGNORE_WINDOW_MS,
    ensures
        seen < (MonitorController { ignore_until_ms: (t + IGNORE_WINDOW_MS) as u64, ..c }).ignore_until_ms,
{
}

} // verus!
