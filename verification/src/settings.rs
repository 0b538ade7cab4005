use vstd::prelude::*;

use crate::hotkeys::hotkey_parse;
use crate::shortcut::parse_hotkey;
use crate::image::append_chars;
use crate::models::{ClipboardRecord, ContentType, Settings, SettingsView, Theme};
use crate::text::{
    ascii_lower, char_ascii_lower, chars_of, parse_i32, parse_i64, parsed_i32, parsed_i64,
    string_from_chars, trim, trim_str,
};

verus! {

/// The token the settings form uses for a theme.
pub open spec fn theme_name(theme: Theme) -> Seq<char> {
    match theme {
        Theme::System => "system"@,
        Theme::Light => "light"@,
        Theme::Dark => "dark"@,
    }
}

/// The token the settings form uses for a theme.
pub fn theme_token(theme: &Theme) -> (r: &'static str)
    ensures
        r@ == theme_name(*theme),
{
    match theme {
        Theme::System => "system",
        Theme::Light => "light",
        Theme::Dark => "dark",
    }
}

/// The label shown for a content type.
pub open spec fn content_label(t: ContentType) -> Seq<char> {
    match t {
        ContentType::Text => "文本"@,
        ContentType::Image => "图片"@,
        ContentType::Html => "HTML"@,
        ContentType::Link => "链接"@,
    }
}

/// The label shown for a content type.
pub fn content_type_label(content_type: &ContentType) -> (r: &'static str)
    ensures
        r@ == content_label(*content_type),
{
    match content_type {
        ContentType::Text => "文本",
        ContentType::Image => "图片",
        ContentType::Html => "HTML",
        ContentType::Link => "链接",
    }
}

/// Line breaks shown as spaces.
pub open spec fn flatten_lines(s: Seq<char>) -> Seq<char> {
    s.map_values(|c: char| if c == '\r' || c == '\n' { ' ' } else { c })
}

/// Most characters a list entry shows.
pub const MAX_DISPLAY_CHARS: usize = 180;

/// The text a list entry shows: line breaks as spaces, cut to 180
/// characters with `…` appended when longer.
pub open spec fn display_text(content: Seq<char>) -> Seq<char> {
    let flat = flatten_lines(content);
    if flat.len() > 180 {
        flat.take(180).push('…')
    } else {
        flat
    }
}

/// The text a list entry shows for a record.
pub fn display_content(record: &ClipboardRecord) -> (r: String)
    ensures
        r@ == display_text(record.content@),
{
    let v = chars_of(record.content.as_str());
    let ghost flat = flatten_lines(v@);
    let mut out: Vec<char> = Vec::new();
    let n: usize = if v.len() > MAX_DISPLAY_CHARS { MAX_DISPLAY_CHARS } else { v.len() };
    let mut k: usize = 0;
    while k < n
        invariant
            k <= n <= v.len(),
            flat == flatten_lines(v@),
            out@ == flat.take(k as int),
        decreases n - k,
    {
        let c = v[k];
        out.push(if c == '\r' || c == '\n' { ' ' } else { c });
        assert(out@ =~= flat.take(k + 1));
        k = k + 1;
    }
    if v.len() > MAX_DISPLAY_CHARS {
        out.push('…');
    } else {
        assert(flat.take(n as int) =~= flat);
    }
    string_from_chars(out.as_slice())
}

/// Reads a record id from the text the list hands back.
pub fn parse_id(id: &str) -> (r: Result<i64, String>)
    ensures
        match parsed_i64(id@) {
            Some(v) => r == Ok::<i64, String>(v),
            None => r matches Err(m) && m@ == "无效的记录编号："@ + id@,
        },
{
    let v = chars_of(id);
    match parse_i64(&v) {
        Some(n) => Ok(n),
        None => {
            let mut msg = chars_of("无效的记录编号：");
            append_chars(&mut msg, &v);
            Err(string_from_chars(msg.as_slice()))
        },
    }
}

/// The settings that the settings form produces from `previous` and the
/// typed fields, or the message that refuses them: the hotkey trimmed and
/// not empty and accepted by the hotkey parser; both limits integers
/// (surrounding whitespace ignored), keep days within 0..=3650 and maximum
/// records within 0..=100000; the theme one of `system`, `light`, `dark`.
/// The AI feature is switched off; every other field is kept.
pub open spec fn settings_draft(
    previous: SettingsView,
    hotkey: Seq<char>,
    theme: Seq<char>,
    keep_days: Seq<char>,
    max_records: Seq<char>,
    auto_start: bool,
) -> Result<SettingsView, Seq<char>> {
    let hk = trim(hotkey);
    if hk.len() == 0 {
        Err("主快捷键不能为空"@)
    } else if hotkey_parse(hk) is Err {
        Err("无效快捷键 "@ + hk + "："@ + hotkey_parse(hk)->Err_0)
    } else if parsed_i32(trim(keep_days)) is None {
        Err("记录保留天数必须是整数"@)
    } else if parsed_i32(trim(max_records)) is None {
        Err("最大记录数必须是整数"@)
    } else {
        let kd = parsed_i32(trim(keep_days))->Some_0;
        let mr = parsed_i32(trim(max_records))->Some_0;
        if !(0 <= kd <= 3650) {
            Err("记录保留天数必须在 0 到 3650 之间"@)
        } else if !(0 <= mr <= 100_000) {
            Err("最大记录数必须在 0 到 100000 之间"@)
        } else if theme != "system"@ && theme != "light"@ && theme != "dark"@ {
            Err("未知的主题设置"@)
        } else {
            Ok(SettingsView {
                hotkey: hk,
                theme: if theme == "system"@ {
                    Theme::System
                } else if theme == "light"@ {
                    Theme::Light
                } else {
                    Theme::Dark
                },
                keep_days: kd,
                max_records: mr,
                auto_start,
                ai_enabled: false,
                ..previous
            })
        }
    }
}

pub(crate) fn str_equals(a: &str, b: &str) -> (r: bool)
    ensures
        r == (a@ == b@),
{
    let x = String::from_str(a);
    let y = String::from_str(b);
    x == y
}

/// Checks the settings form and builds the settings it describes.
pub fn parse_settings_draft(
    previous: &Settings,
    hotkey: &str,
    theme: &str,
    keep_days: &str,
    max_records: &str,
    auto_start: bool,
) -> (r: Result<Settings, String>)
    ensures
        match settings_draft(previous@, hotkey@, theme@, keep_days@, max_records@, auto_start) {
            Ok(s) => r matches Ok(v) && v@ == s,
            Err(m) => r matches Err(e) && e@ == m,
        },
{
    let hk = trim_str(hotkey);
    if hk.as_str().is_empty() {
        return Err(String::from_str("主快捷键不能为空"));
    }
    match parse_hotkey(hk.as_str()) {
        Err(error) => {
            let mut msg = chars_of("无效快捷键 ");
            append_chars(&mut msg, &chars_of(hk.as_str()));
            append_chars(&mut msg, &chars_of("："));
            append_chars(&mut msg, &chars_of(error.as_str()));
            return Err(string_from_chars(msg.as_slice()));
        },
        Ok(_) => {},
    }
    let kd_text = chars_of(trim_str(keep_days).as_str());
    let kd = match parse_i32(&kd_text) {
        Some(v) => v,
        None => return Err(String::from_str("记录保留天数必须是整数")),
    };
    let mr_text = chars_of(trim_str(max_records).as_str());
    let mr = match parse_i32(&mr_text) {
        Some(v) => v,
        None => return Err(String::from_str("最大记录数必须是整数")),
    };
    if !(0 <= kd && kd <= 3650) {
        return Err(String::from_str("记录保留天数必须在 0 到 3650 之间"));
    }
    if !(0 <= mr && mr <= 100_000) {
        return Err(String::from_str("最大记录数必须在 0 到 100000 之间"));
    }
    let parsed_theme = if str_equals(theme, "system") {
        Theme::System
    } else if str_equals(theme, "light") {
        Theme::Light
    } else if str_equals(theme, "dark") {
        Theme::Dark
    } else {
        return Err(String::from_str("未知的主题设置"));
    };
    let mut updated = previous.duplicate();
    updated.hotkey = hk;
    updated.theme = parsed_theme;
    updated.keep_days = kd;
    updated.max_records = mr;
    updated.auto_start = auto_start;
    updated.ai_enabled = false;
    Ok(updated)
}

/// `a` and `b` are equal when ASCII case is ignored.
pub open spec fn eq_ignore_ascii_case(a: Seq<char>, b: Seq<char>) -> bool {
    a.len() == b.len() && forall|i: int| 0 <= i < a.len() ==> ascii_lower(#[trigger] a[i]) == ascii_lower(b[i])
}

fn equal_ignoring_ascii_case(a: &Vec<char>, b: &Vec<char>) -> (r: bool)
    ensures
        r == eq_ignore_ascii_case(a@, b@),
{
    if a.len() != b.len() {
        return false;
    }
    let mut i: usize = 0;
    while i < a.len()
        invariant
            i <= a.len() == b.len(),
            forall|k: int| 0 <= k < i ==> ascii_lower(#[trigger] a@[k]) == ascii_lower(b@[k]),
        decreases a.len() - i,
    {
        if char_ascii_lower(a[i]) != char_ascii_lower(b[i]) {
            return false;
        }
        i = i + 1;
    }
    true
}

/// `v` clamped to `lo..=hi`.
pub open spec fn clamp(v: i32, lo: i32, hi: i32) -> i32 {
    if v < lo {
        lo
    } else if v > hi {
        hi
    } else {
        v
    }
}

/// The settings that saving from the main settings page stores, or the
/// message that refuses them: hotkey trimmed and not empty, keep days
/// clamped to 0..=3650, maximum records to 0..=100000, the AI switch kept
/// only when the AI feature is built in, and the AI hotkey (trimmed) not the
/// main hotkey with ASCII case ignored while AI is on.
pub open spec fn app_settings_update(settings: SettingsView, ai_feature_enabled: bool) -> Result<SettingsView, Seq<char>> {
    let updated = SettingsView {
        hotkey: trim(settings.hotkey),
        keep_days: clamp(settings.keep_days, 0, 3650),
        max_records: clamp(settings.max_records, 0, 100_000),
        ai_enabled: ai_feature_enabled && settings.ai_enabled,
        ..settings
    };
    if updated.hotkey.len() == 0 {
        Err("主快捷键不能为空"@)
    } else if updated.ai_enabled && eq_ignore_ascii_case(updated.hotkey, trim(updated.ai_hotkey)) {
        Err("主快捷键和 AI 快捷键不能相同"@)
    } else {
        Ok(updated)
    }
}

/// Normalises and checks settings before they are applied and saved.
pub fn validate_app_settings(settings: Settings, ai_feature_enabled: bool) -> (r: Result<Settings, String>)
    ensures
        match app_settings_update(settings@, ai_feature_enabled) {
            Ok(s) => r matches Ok(v) && v@ == s,
            Err(m) => r matches Err(e) && e@ == m,
        },
{
    let mut updated = settings;
    updated.hotkey = trim_str(updated.hotkey.as_str());
    updated.keep_days = if updated.keep_days < 0 {
        0
    } else if updated.keep_days > 3650 {
        3650
    } else {
        updated.keep_days
    };
    updated.max_records = if updated.max_records < 0 {
        0
    } else if updated.max_records > 100_000 {
        100_000
    } else {
        updated.max_records
    };
    updated.ai_enabled = ai_feature_enabled && updated.ai_enabled;
    if updated.hotkey.as_str().is_empty() {
        return Err(String::from_str("主快捷键不能为空"));
    }
    if updated.ai_enabled {
        let main = chars_of(updated.hotkey.as_str());
        let ai = chars_of(trim_str(updated.ai_hotkey.as_str()).as_str());
        if equal_ignoring_ascii_case(&main, &ai) {
            return Err(String::from_str("主快捷键和 AI 快捷键不能相同"));
        }
    }
    Ok(updated)
}

} // verus!
