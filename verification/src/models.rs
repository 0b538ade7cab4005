use vstd::prelude::*;

verus! {

/// Kind of content a clipboard record holds.
#[derive(Clone, Copy, Debug, PartialEq, Eq, Structural)]
pub enum ContentType {
    Text,
    Image,
    Html,
    Link,
}

/// One clipboard history record.
#[derive(Clone, Debug)]
pub struct ClipboardRecord {
    pub id: i64,
    pub content_type: ContentType,
    pub content: String,
    pub image_data: Option<Vec<u8>>,
    pub created_at: String,
    pub is_favorite: bool,
    pub is_pinned: bool,
}

/// The mathematical value of a record.
pub struct RecordView {
    pub id: i64,
    pub content_type: ContentType,
    pub content: Seq<char>,
    pub image_data: Option<Seq<u8>>,
    pub created_at: Seq<char>,
    pub is_favorite: bool,
    pub is_pinned: bool,
}

pub open spec fn image_view(d: Option<Vec<u8>>) -> Option<Seq<u8>> {
    match d {
        Some(v) => Some(v@),
        None => None,
    }
}

impl View for ClipboardRecord {
    type V = RecordView;

    open spec fn view(&self) -> RecordView {
        RecordView {
            id: self.id,
            content_type: self.content_type,
            content: self.content@,
            image_data: image_view(self.image_data),
            created_at: self.created_at@,
            is_favorite: self.is_favorite,
            is_pinned: self.is_pinned,
        }
    }
}

/// A copy of an optional byte buffer.
pub fn copy_image_data(d: &Option<Vec<u8>>) -> (r: Option<Vec<u8>>)
    ensures
        image_view(r) == image_view(*d),
{
    match d {
        Some(v) => {
            let c = v.clone();
            Some(c)
        },
        None => None,
    }
}

impl ClipboardRecord {
    /// A field-by-field copy of the record.
    pub fn duplicate(&self) -> (r: ClipboardRecord)
        ensures
            r@ == self@,
    {
        ClipboardRecord {
            id: self.id,
            content_type: self.content_type,
            content: self.content.clone(),
            image_data: copy_image_data(&self.image_data),
            created_at: self.created_at.clone(),
            is_favorite: self.is_favorite,
            is_pinned: self.is_pinned,
        }
    }
}

/// Colour theme of the interface.
#[derive(Clone, Copy, Debug, PartialEq, Eq, Structural)]
pub enum Theme {
    Light,
    Dark,
    System,
}

/// Bit pattern of the `f32` value 0.3, the default AI sampling temperature.
pub const DEFAULT_AI_TEMPERATURE_BITS: u32 = 0x3e99_999au32;

/// Application settings. The AI sampling temperature, an `f32` for the
/// HTTP request, is kept here as its IEEE-754 bit pattern.
#[derive(Clone, Debug)]
pub struct Settings {
    pub hotkey: String,
    pub theme: Theme,
    pub keep_days: i32,
    pub max_records: i32,
    pub auto_start: bool,
    pub ai_enabled: bool,
    pub ai_hotkey: String,
    pub ai_api_url: String,
    pub ai_api_key: String,
    pub ai_model: String,
    pub ai_prompt: String,
    pub ai_temperature_bits: u32,
}

/// The mathematical value of the settings.
pub struct SettingsView {
    pub hotkey: Seq<char>,
    pub theme: Theme,
    pub keep_days: i32,
    pub max_records: i32,
    pub auto_start: bool,
    pub ai_enabled: bool,
    pub ai_hotkey: Seq<char>,
    pub ai_api_url: Seq<char>,
    pub ai_api_key: Seq<char>,
    pub ai_model: Seq<char>,
    pub ai_prompt: Seq<char>,
    pub ai_temperature_bits: u32,
}

impl View for Settings {
    type V = SettingsView;

    open spec fn view(&self) -> SettingsView {
        SettingsView {
            hotkey: self.hotkey@,
            theme: self.theme,
            keep_days: self.keep_days,
            max_records: self.max_records,
            auto_start: self.auto_start,
            ai_enabled: self.ai_enabled,
            ai_hotkey: self.ai_hotkey@,
            ai_api_url: self.ai_api_url@,
            ai_api_key: self.ai_api_key@,
            ai_model: self.ai_model@,
            ai_prompt: self.ai_prompt@,
            ai_temperature_bits: self.ai_temperature_bits,
        }
    }
}

/// The settings a fresh installation starts with.
pub open spec fn default_settings() -> SettingsView {
    SettingsView {
        hotkey: "Alt+Z"@,
        theme: Theme::System,
        keep_days: 1,
        max_records: 500,
        auto_start: false,
        ai_enabled: true,
        ai_hotkey: "Alt+X"@,
        ai_api_url: ""@,
        ai_api_key: ""@,
        ai_model: ""@,
        ai_prompt: "你是拼音纠错专家。修正输入中的同音/简拼错误，禁止润色，严禁解释，直接输出修正后全文。"@,
        ai_temperature_bits: DEFAULT_AI_TEMPERATURE_BITS,
    }
}

impl Default for Settings {
    fn default() -> (s: Settings)
        ensures
            s@ == default_settings(),
    {
        Settings {
            hotkey: String::from_str("Alt+Z"),
            theme: Theme::System,
            keep_days: 1,
            max_records: 500,
            auto_start: false,
            ai_enabled: true,
            ai_hotkey: String::from_str("Alt+X"),
            ai_api_url: String::from_str(""),
            ai_api_key: String::from_str(""),
            ai_model: String::from_str(""),
            ai_prompt: String::from_str(
                "你是拼音纠错专家。修正输入中的同音/简拼错误，禁止润色，严禁解释，直接输出修正后全文。",
            ),
            ai_temperature_bits: DEFAULT_AI_TEMPERATURE_BITS,
        }
    }
}

impl Settings {
    /// A field-by-field copy of the settings.
    pub fn duplicate(&self) -> (r: Settings)
        ensures
            r@ == self@,
    {
        Settings {
            hotkey: self.hotkey.clone(),
            theme: self.theme,
            keep_days: self.keep_days,
            max_records: self.max_records,
            auto_start: self.auto_start,
            ai_enabled: self.ai_enabled,
            ai_hotkey: self.ai_hotkey.clone(),
            ai_api_url: self.ai_api_url.clone(),
            ai_api_key: self.ai_api_key.clone(),
            ai_model: self.ai_model.clone(),
            ai_prompt: self.ai_prompt.clone(),
            ai_temperature_bits: self.ai_temperature_bits,
        }
    }
}

/// One favourite in an export file.
#[derive(Clone, Debug)]
pub struct FavoriteTransferItem {
    pub content_type: ContentType,
    pub content: String,
    pub is_pinned: bool,
}

/// The content of an export file: favourites and settings.
#[derive(Clone, Debug)]
pub struct FavoriteTransferPackage {
    pub favorites: Vec<FavoriteTransferItem>,
    pub settings: Settings,
}

/// What an export reports back.
#[derive(Clone, Debug)]
pub struct FavoriteExportResult {
    pub count: i32,
    pub path: String,
}

/// Kind of popup shown to the user.
#[derive(Clone, Copy, Debug, PartialEq, Eq, Structural)]
pub enum DialogType {
    Info,
    Error,
}

} // verus!
