use vstd::prelude::*;

use crate::models::Theme;
use crate::text::{chars_of, trim, trim_str};

verus! {

/// Whether the desktop asks for a dark theme, from the value of its
/// "apps use light theme" setting (`None` when it could not be read):
/// dark exactly when that value is 0.
pub fn system_uses_dark_theme(apps_use_light_theme: Option<u32>) -> (r: bool)
    ensures
        r == (apps_use_light_theme == Some(0u32)),
{
    match apps_use_light_theme {
        Some(v) => v == 0,
        None => false,
    }
}

/// Whether the interface is drawn dark for `theme`: always for `Dark`,
/// never for `Light`, as the desktop asks for `System` (from its "apps use
/// light theme" value).
pub fn theme_is_dark(theme: Theme, apps_use_light_theme: Option<u32>) -> (r: bool)
    ensures
        r == match theme {
            Theme::Dark => true,
            Theme::Light => false,
            Theme::System => apps_use_light_theme == Some(0u32),
        },
{
    match theme {
        Theme::Dark => true,
        Theme::Light => false,
        Theme::System => system_uses_dark_theme(apps_use_light_theme),
    }
}

/// The text a source gave, if it gave one.
pub open spec fn text_of(source: Option<String>) -> Option<Seq<char>> {
    match source {
        Some(t) => Some(t@),
        None => None,
    }
}

/// A source's answer as a selection: its text trimmed, when it gave one
/// and that is not empty.
pub open spec fn usable_selection(source: Option<Seq<char>>) -> Option<Seq<char>> {
    match source {
        Some(t) => if trim(t).len() > 0 {
            Some(trim(t))
        } else {
            None
        },
        None => None,
    }
}

/// The selected text, from what the accessibility interface read of the
/// focused control (`automation`) and, failing that, what a simulated copy
/// put on the clipboard (`copied`): the first of the two that is not empty
/// once trimmed, else the empty text.
pub open spec fn selection_from(automation: Option<Seq<char>>, copied: Option<Seq<char>>) -> Seq<char> {
    match usable_selection(automation) {
        Some(t) => t,
        None => match usable_selection(copied) {
            Some(t) => t,
            None => Seq::empty(),
        },
    }
}

fn usable(source: &Option<String>) -> (r: Option<String>)
    ensures
        match (r, usable_selection(text_of(*source))) {
            (Some(a), Some(b)) => a@ == b,
            (None, None) => true,
            _ => false,
        },
{
    match source {
        Some(t) => {
            let v = trim_str(t.as_str());
            if v.as_str().is_empty() {
                None
            } else {
                Some(v)
            }
        },
        None => None,
    }
}

/// Whether a simulated copy is still needed to find the selection: the
/// accessibility interface gave nothing that is not blank.
pub fn needs_copy_fallback(automation: &Option<String>) -> (r: bool)
    ensures
        r == (usable_selection(text_of(*automation)) is None),
{
    usable(automation).is_none()
}

/// The selected text in the foreground application, from the two ways of
/// reading it: see `selection_from`.
pub fn get_selected_text(automation: Option<String>, copied: Option<String>) -> (r: String)
    ensures
        r@ == selection_from(text_of(automation), text_of(copied)),
{
    match usable(&automation) {
        Some(t) => t,
        None => match usable(&copied) {
            Some(t) => t,
            None => String::new(),
        },
    }
}

/// The UTF-16 code units of one character: itself below U+10000, else a
/// surrogate pair.
pub open spec fn utf16_units(c: char) -> Seq<u16> {
    let v = c as u32;
    if v < 0x10000 {
        seq![v as u16]
    } else {
        let u = v - 0x10000;
        seq![(0xD800 + u / 1024) as u16, (0xDC00 + u % 1024) as u16]
    }
}

/// The UTF-16 encoding of a string.
pub open spec fn utf16(s: Seq<char>) -> Seq<u16>
    decreases s.len(),
{
    if s.len() == 0 {
        Seq::empty()
    } else {
        utf16(s.drop_last()) + utf16_units(s.last())
    }
}

/// `value` as a NUL-terminated UTF-16 string, the form Windows APIs take.
pub fn wide(value: &str) -> (r: Vec<u16>)
    ensures
        r@ == utf16(value@).push(0u16),
{
    let v = chars_of(value);
    let mut out: Vec<u16> = Vec::new();
    let mut k: usize = 0;
    while k < v.len()
        invariant
            k <= v.len(),
            out@ == utf16(v@.take(k as int)),
        decreases v.len() - k,
    {
        let c = v[k];
        let code = c as u32;
        proof {
            vstd::utf8::char_is_scalar(c);
            assert(v@.take(k + 1).drop_last() =~= v@.take(k as int));
        }
        if code < 0x10000 {
            out.push(code as u16);
        } else {
            let u = code - 0x10000;
            out.push((0xD800 + u / 1024) as u16);
            out.push((0xDC00 + u % 1024) as u16);
        }
        assert(out@ =~= utf16(v@.take(k + 1)));
        k = k + 1;
    }
    assert(v@.take(v.len() as int) =~= v@);
    out.push(0);
    out
}

} // verus!
