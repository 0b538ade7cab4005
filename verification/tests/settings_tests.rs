use snappaste::models::{ClipboardRecord, ContentType, Settings, Theme};
use snappaste::settings::{
    content_type_label, display_content, parse_id, parse_settings_draft, theme_token,
    validate_app_settings,
};

#[test]
fn settings_draft_updates_visible_fields_and_keeps_hidden_ai_values() {
    let previous = Settings {
        ai_enabled: true,
        ai_api_key: "keep-this-key".to_string(),
        ..Settings::default()
    };

    let updated = parse_settings_draft(&previous, "Ctrl+Shift+V", "dark", "0", "1000", true)
        .expect("valid settings should parse");

    assert_eq!(updated.hotkey, "Ctrl+Shift+V");
    assert_eq!(updated.theme, Theme::Dark);
    assert_eq!(updated.keep_days, 0);
    assert_eq!(updated.max_records, 1000);
    assert!(updated.auto_start);
    assert!(!updated.ai_enabled);
    assert_eq!(updated.ai_api_key, "keep-this-key");
}

#[test]
fn settings_draft_rejects_invalid_limits() {
    let previous = Settings::default();

    assert!(parse_settings_draft(&previous, "Alt+Z", "system", "-1", "100", false)
        .unwrap_err()
        .contains("记录保留天数"));
    assert!(parse_settings_draft(&previous, "Alt+Z", "system", "1", "100001", false)
        .unwrap_err()
        .contains("最大记录数"));
}

#[test]
fn settings_draft_rejects_invalid_hotkey_and_theme() {
    let previous = Settings::default();

    assert!(parse_settings_draft(&previous, "", "system", "1", "100", false).is_err());
    assert!(parse_settings_draft(&previous, "Alt+Z", "sepia", "1", "100", false).is_err());
}

#[test]
fn settings_draft_messages() {
    let previous = Settings::default();
    assert_eq!(
        parse_settings_draft(&previous, "   ", "system", "1", "1", false).unwrap_err(),
        "主快捷键不能为空"
    );
    let bad_key = parse_settings_draft(&previous, " Alt+Nope+Q ", "system", "1", "1", false).unwrap_err();
    assert!(bad_key.starts_with("无效快捷键 Alt+Nope+Q："));
    assert_eq!(
        parse_settings_draft(&previous, "Alt+Z", "system", "x", "1", false).unwrap_err(),
        "记录保留天数必须是整数"
    );
    assert_eq!(
        parse_settings_draft(&previous, "Alt+Z", "system", "1", "1.5", false).unwrap_err(),
        "最大记录数必须是整数"
    );
    assert_eq!(
        parse_settings_draft(&previous, "Alt+Z", "Dark", "1", "1", false).unwrap_err(),
        "未知的主题设置"
    );
    let ok = parse_settings_draft(&previous, " Alt+Z ", "light", " 3650 ", "+0", false).unwrap();
    assert_eq!(ok.hotkey, "Alt+Z");
    assert_eq!(ok.theme, Theme::Light);
    assert_eq!(ok.keep_days, 3650);
    assert_eq!(ok.max_records, 0);
}

#[test]
fn saving_settings_clamps_limits_and_checks_hotkeys() {
    let settings = Settings {
        hotkey: "  Alt+Z ".to_string(),
        keep_days: -5,
        max_records: 200_000,
        ..Settings::default()
    };
    let checked = validate_app_settings(settings, true).unwrap();
    assert_eq!(checked.hotkey, "Alt+Z");
    assert_eq!(checked.keep_days, 0);
    assert_eq!(checked.max_records, 100_000);
    assert!(checked.ai_enabled);

    let same = Settings { hotkey: "alt+x".to_string(), ai_hotkey: " ALT+X ".to_string(), ..Settings::default() };
    assert_eq!(validate_app_settings(same.clone(), true).unwrap_err(), "主快捷键和 AI 快捷键不能相同");
    // Without the AI feature the AI switch is off and the hotkeys may coincide.
    let off = validate_app_settings(same, false).unwrap();
    assert!(!off.ai_enabled);

    let blank = Settings { hotkey: " ".to_string(), ..Settings::default() };
    assert_eq!(validate_app_settings(blank, true).unwrap_err(), "主快捷键不能为空");
}

#[test]
fn labels_tokens_and_ids() {
    assert_eq!(theme_token(&Theme::System), "system");
    assert_eq!(theme_token(&Theme::Dark), "dark");
    assert_eq!(content_type_label(&ContentType::Link), "链接");
    assert_eq!(content_type_label(&ContentType::Image), "图片");
    assert_eq!(parse_id("42").unwrap(), 42);
    assert_eq!(parse_id("-7").unwrap(), -7);
    assert_eq!(parse_id("4x").unwrap_err(), "无效的记录编号：4x");
}

#[test]
fn display_content_flattens_lines_and_cuts_long_text() {
    let record = ClipboardRecord {
        id: 1,
        content_type: ContentType::Text,
        content: "a\r\nb\nc".to_string(),
        image_data: None,
        created_at: String::new(),
        is_favorite: false,
        is_pinned: false,
    };
    assert_eq!(display_content(&record), "a  b c");
    let long = ClipboardRecord { content: "字".repeat(200), ..record };
    let shown = display_content(&long);
    assert_eq!(shown.chars().count(), 181);
    assert!(shown.ends_with('…'));
}

#[test]
fn default_settings_values() {
    let s = Settings::default();
    assert_eq!(s.hotkey, "Alt+Z");
    assert_eq!(s.theme, Theme::System);
    assert_eq!(s.keep_days, 1);
    assert_eq!(s.max_records, 500);
    assert_eq!(f32::from_bits(s.ai_temperature_bits), 0.3f32);
}
