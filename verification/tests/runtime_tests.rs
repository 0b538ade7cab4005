use snappaste::ai::{
    ai_shortcut_next, AiShortcutAction, AiShortcutEvent, build_chat_request, chat_completions_url, finish_ai_response, prepare_ai_text_request, AiConfig,
};
use snappaste::autostart::{self, RunKeyRead, RunKeyWrite};
use snappaste::clock::parse_timestamp_millis;
use snappaste::hotkeys::HotkeyManager;
use snappaste::models::{ContentType, DialogType, Settings, Theme};
use snappaste::monitor::{
    mark_ignore_next_change, next_retry_delay, poll_action, with_paste_in_progress,
    MonitorController, PollAction,
};
use snappaste::processor::{
    build_image_record_at, build_record_from_text_at, compute_text_hash, identify_text_type,
    handle_clipboard_event, process_clipboard_change, ClipboardSignature, ClipboardTracker,
};
use snappaste::rows::{content_type_token, map_record_row, parse_content_type, parse_theme};
use snappaste::shell::{get_selected_text, needs_copy_fallback, system_uses_dark_theme, theme_is_dark, wide};
use snappaste::store::HistoryStore;

#[test]
fn text_kinds() {
    assert_eq!(identify_text_type("  HTTPS://example.com "), ContentType::Link);
    assert_eq!(identify_text_type("www.rust-lang.org"), ContentType::Link);
    assert_eq!(identify_text_type("see http://x"), ContentType::Text);
    assert_eq!(identify_text_type("   "), ContentType::Text);
}

#[test]
fn text_hash_is_stable_and_tells_texts_apart() {
    assert_eq!(compute_text_hash("abc"), compute_text_hash("abc"));
    assert_ne!(compute_text_hash("abc"), compute_text_hash("abd"));
}

#[test]
fn the_tracker_records_a_text_once() {
    let mut t = ClipboardTracker::new();
    assert!(t.accept_text_change("hello"));
    assert!(!t.accept_text_change("hello"));
    assert!(!t.accept_text_change("   "));
    assert!(t.accept_text_change("other"));
    assert!(t.accept_text_change("hello"));
    let mut startup = ClipboardTracker::new();
    startup.init_startup_signature(Some("seen"), None);
    assert!(!startup.accept_text_change("seen"));
    assert!(matches!(startup.last_signature, ClipboardSignature::Text(_)));
}

#[test]
fn images_are_throttled_and_deduplicated() {
    let mut t = ClipboardTracker::new();
    let a = vec![1u8; 16];
    let b = vec![2u8; 16];
    assert!(t.accept_image_change(2, 2, &a, 5_000));
    assert!(!t.accept_image_change(2, 2, &a, 9_000));
    assert!(!t.accept_image_change(2, 2, &b, 5_500));
    assert!(!t.accept_image_change(2, 2, &b, 9_000));
}

#[test]
fn clipboard_changes_reach_the_history_once() {
    let mut tracker = ClipboardTracker::new();
    let mut store = HistoryStore::new();
    assert!(process_clipboard_change(&mut tracker, &mut store, Some("copied".to_string()), None, 1));
    assert!(!process_clipboard_change(&mut tracker, &mut store, Some("copied".to_string()), None, 2));
    assert!(!process_clipboard_change(&mut tracker, &mut store, Some(" ".to_string()), Some((1, 1, vec![0; 4])), 3));
    assert!(!process_clipboard_change(&mut tracker, &mut store, None, None, 4));
    assert_eq!(store.records().len(), 1);
    assert_eq!(store.records()[0].content, "copied");
}

#[test]
fn records_built_from_copies() {
    let r = build_record_from_text_at("https://a.b".to_string(), "2026-01-01T00:00:00Z".to_string());
    assert_eq!(r.content_type, ContentType::Link);
    assert!(!r.is_favorite && !r.is_pinned);
    let img = build_image_record_at(2, 1, &[1, 2, 3, 255, 4, 5, 6, 255], "t".to_string()).unwrap();
    assert_eq!(img.content, "图片 2x1");
    assert_eq!(img.content_type, ContentType::Image);
    assert!(img.image_data.is_some());
    let big = vec![0u8; 2400 * 10 * 4];
    let scaled = build_image_record_at(2400, 10, &big, "t".to_string()).unwrap();
    assert_eq!(scaled.content, "图片 2200x9 (缩放自 2400x10)");
}

#[test]
fn monitor_sessions_and_guards() {
    let mut c = MonitorController::new();
    assert!(!c.check_and_mark_running());
    assert!(c.check_and_mark_running());
    let first = c.next_session_id();
    assert!(c.is_session_active(first));
    let second = c.next_session_id();
    assert!(!c.is_session_active(first));
    assert!(c.is_session_active(second));
    assert_eq!(poll_action(&c, first), PollAction::Stop);
    assert_eq!(poll_action(&c, second), PollAction::WaitAndCheck);
    let r: Result<u8, ()> = with_paste_in_progress(&mut c, |marked: &MonitorController| {
        assert!(marked.is_paste_in_progress());
        assert_eq!(poll_action(marked, second), PollAction::PauseForPaste);
        Ok(3)
    });
    assert_eq!(r, Ok(3));
    assert!(!c.is_paste_in_progress());
    c.set_paste_in_progress(true);
    assert_eq!(poll_action(&c, second), PollAction::PauseForPaste);
    assert!(!c.should_process_event(0));
    c.set_paste_in_progress(false);
    mark_ignore_next_change(&mut c, 1_000);
    assert!(c.should_ignore(1_399));
    assert!(!c.should_ignore(1_400));
    assert!(c.should_process_event(1_400));
    assert_eq!(next_retry_delay(300), 600);
    assert_eq!(next_retry_delay(2_000), 3_000);
    assert_eq!(next_retry_delay(u64::MAX), 3_000);
}

#[test]
fn shortcut_registry_binds_routes_and_releases() {
    let mut m = HotkeyManager::new();
    let hotkey = m.prepare_register("main", " Alt+Z ").unwrap().expect("a new shortcut");
    let id = hotkey.id();
    assert!(m.commit_register("main", hotkey).is_none());
    assert!(m.prepare_register("main", "alt+z").unwrap().is_none());
    assert_eq!(m.route(id), Some("main".to_string()));
    let other = m.prepare_register("main", "Alt+Y").unwrap().unwrap();
    let other_id = other.id();
    assert_ne!(other_id, id);
    assert_eq!(m.commit_register("main", other).map(|replaced| replaced.id()), Some(id));
    assert_eq!(m.route(id), None);
    assert!(m.prepare_register("ai", "Alt+Nope").unwrap_err().starts_with("无效快捷键格式: "));
    assert_eq!(m.remove("main").map(|removed| removed.id()), Some(other_id));
    assert!(m.remove("main").is_none());
    assert_eq!(m.route(other_id), None);
}

#[test]
fn chat_requests() {
    assert_eq!(chat_completions_url("https://api.x/v1//"), "https://api.x/v1/chat/completions");
    assert_eq!(chat_completions_url("https://api.x/v1/chat/completions"), "https://api.x/v1/chat/completions");
    let config = AiConfig {
        api_url: "https://api.x/v1".to_string(),
        api_key: "k".to_string(),
        model: "m".to_string(),
        prompt: "Fix".to_string(),
        temperature_bits: 0.5f32.to_bits(),
    };
    let req = build_chat_request(&config, "nihao");
    assert_eq!(req.content, "Fix\n\nnihao");
    assert_eq!(req.url, "https://api.x/v1/chat/completions");
    let long = "a".repeat(10_001);
    let req = build_chat_request(&config, &long);
    assert_eq!(req.content, format!("Fix\n\n{}...\n[内容过长已截断]", "a".repeat(10_000)));
    let exact = "b".repeat(10_000);
    assert_eq!(build_chat_request(&config, &exact).content, format!("Fix\n\n{exact}"));
}

#[test]
fn ai_requests_need_text_and_settings() {
    let settings = Settings::default();
    assert_eq!(prepare_ai_text_request(&settings, "  ").unwrap_err(), "selected text is empty");
    assert_eq!(prepare_ai_text_request(&settings, "x").unwrap_err(), "AI 设置未配置");
    let off = Settings { ai_enabled: false, ..Settings::default() };
    assert_eq!(prepare_ai_text_request(&off, "x").unwrap_err(), "AI 功能未启用");
    let ready = Settings { ai_api_url: "u".to_string(), ai_api_key: "k".to_string(), ..Settings::default() };
    let req = prepare_ai_text_request(&ready, "x").unwrap();
    assert_eq!(req.api_key, "k");
    assert_eq!(req.url, "u/chat/completions");
    assert_eq!(finish_ai_response(Some("  fixed \n".to_string())).unwrap(), "fixed");
    assert_eq!(finish_ai_response(None).unwrap_err(), "AI 返回了空结果");
}

#[test]
fn map_record_row_rejects_invalid_content_type() {
    let result = map_record_row(1, "unknown", "content".to_string(), None, 0, 0, "2026-01-01".to_string());
    assert!(result.is_err());
}

#[test]
fn map_record_row_maps_valid_record() {
    let record = map_record_row(7, "link", "https://example.com".to_string(), None, 1, 0, "2026-01-01".to_string())
        .expect("map record");
    assert_eq!(record.id, 7);
    assert_eq!(record.content_type, ContentType::Link);
    assert!(record.is_favorite);
    assert!(!record.is_pinned);
}

#[test]
fn stored_words_round_trip() {
    for t in [ContentType::Text, ContentType::Image, ContentType::Html, ContentType::Link] {
        assert_eq!(parse_content_type(content_type_token(t)).unwrap(), t);
    }
    assert_eq!(parse_theme("dark").unwrap(), Theme::Dark);
    assert_eq!(parse_theme("sepia").unwrap_err(), "invalid value for settings::Theme: sepia");
}

#[test]
fn platform_answers() {
    assert!(theme_is_dark(Theme::Dark, Some(1)));
    assert!(!theme_is_dark(Theme::Light, Some(0)));
    assert!(theme_is_dark(Theme::System, Some(0)));
    assert!(!theme_is_dark(Theme::System, Some(1)));
    assert!(!theme_is_dark(Theme::System, None));
    assert!(system_uses_dark_theme(Some(0)));
    assert!(!system_uses_dark_theme(Some(2)));
    assert!(!system_uses_dark_theme(None));
    assert_eq!(wide("a😀"), vec![0x61, 0xD83D, 0xDE00, 0]);
    assert_eq!(wide("a😀"), "a😀".encode_utf16().chain(std::iter::once(0)).collect::<Vec<u16>>());
}

#[test]
fn selection_prefers_the_accessibility_text() {
    assert_eq!(get_selected_text(Some("  picked \n".to_string()), Some("copied".to_string())), "picked");
    assert_eq!(get_selected_text(Some(" \t ".to_string()), Some("  copied ".to_string())), "copied");
    assert_eq!(get_selected_text(None, Some("copied".to_string())), "copied");
    assert_eq!(get_selected_text(None, Some("   ".to_string())), "");
    assert_eq!(get_selected_text(None, None), "");
    assert!(!needs_copy_fallback(&Some(" x ".to_string())));
    assert!(needs_copy_fallback(&Some("  ".to_string())));
    assert!(needs_copy_fallback(&None));
}

/// Start at login on a platform without a start-up list, built from the
/// library's steps.
fn unsupported_platform_sync(enabled: bool) -> Result<(), String> {
    match autostart::sync(autostart::is_enabled(RunKeyRead::Unsupported), enabled)? {
        None => Ok(()),
        Some(v) => autostart::set_enabled(v, RunKeyWrite::Unsupported),
    }
}

#[test]
fn start_at_login_steps() {
    assert_eq!(autostart::is_enabled(RunKeyRead::Unsupported), Ok(false));
    assert_eq!(autostart::is_enabled(RunKeyRead::KeyMissing), Ok(false));
    assert_eq!(autostart::is_enabled(RunKeyRead::Read(true)), Ok(true));
    assert_eq!(autostart::is_enabled(RunKeyRead::Read(false)), Ok(false));
    assert_eq!(autostart::is_enabled(RunKeyRead::Failed("denied".to_string())), Err("无法读取开机启动配置：denied".to_string()));
    assert_eq!(autostart::set_enabled(true, RunKeyWrite::Done), Ok(()));
    assert_eq!(autostart::set_enabled(false, RunKeyWrite::EntryMissing), Ok(()));
    assert_eq!(autostart::set_enabled(true, RunKeyWrite::Unsupported), Err("当前平台暂不支持开机启动设置".to_string()));
    assert_eq!(autostart::set_enabled(true, RunKeyWrite::OpenFailed("x".to_string())), Err("无法打开开机启动配置：x".to_string()));
    assert_eq!(autostart::set_enabled(true, RunKeyWrite::PathFailed("p".to_string())), Err("无法获取程序路径：p".to_string()));
    assert_eq!(autostart::set_enabled(true, RunKeyWrite::Failed("w".to_string())), Err("无法启用开机启动：w".to_string()));
    assert_eq!(autostart::set_enabled(false, RunKeyWrite::Failed("d".to_string())), Err("无法禁用开机启动：d".to_string()));
    assert_eq!(autostart::sync(Ok(true), true), Ok(None));
    assert_eq!(autostart::sync(Ok(false), true), Ok(Some(true)));
    assert_eq!(autostart::sync(Ok(true), false), Ok(Some(false)));
    assert_eq!(autostart::sync(Err("e".to_string()), true), Err("e".to_string()));
    assert_eq!(autostart::autostart_command("C:\\Apps\\snappaste.exe"), "\"C:\\Apps\\snappaste.exe\" --autostart");
    assert!(unsupported_platform_sync(false).is_ok());
    assert_eq!(unsupported_platform_sync(true).unwrap_err(), "当前平台暂不支持开机启动设置");
}

#[test]
fn timestamps_in_both_stored_forms() {
    assert_eq!(parse_timestamp_millis("2026-01-05T00:00:00Z"), Some(1_767_571_200_000));
    assert_eq!(parse_timestamp_millis("2026-01-05T08:00:00+08:00"), Some(1_767_571_200_000));
    assert_eq!(parse_timestamp_millis("2026-01-05 00:00:00"), Some(1_767_571_200_000));
    assert_eq!(parse_timestamp_millis("yesterday"), None);
    assert_eq!(parse_timestamp_millis("2026-01-05 00:00:00.250"), Some(1_767_571_200_250));
    assert_eq!(parse_timestamp_millis("2026-01-05T00:00:00"), Some(1_767_571_200_000));
    assert_eq!(parse_timestamp_millis("2026-01-05 01:30"), Some(1_767_576_600_000));
    assert_eq!(parse_timestamp_millis("2026-01-05T01:30"), Some(1_767_576_600_000));
    assert_eq!(parse_timestamp_millis("2026-01-05"), Some(1_767_571_200_000));
}

#[test]
fn ai_shortcut_steps() {
    let settings = Settings { ai_api_url: "https://api.x".to_string(), ai_api_key: "k".to_string(), ..Settings::default() };
    match ai_shortcut_next(&settings, AiShortcutEvent::TextSelected("  ".to_string())) {
        AiShortcutAction::ShowPopup(DialogType::Info, title, message) => {
            assert_eq!(title, "提示");
            assert_eq!(message, "未检测到文本，或选中的不是有效内容");
        }
        _ => panic!("blank selections get a notice"),
    }
    match ai_shortcut_next(&settings, AiShortcutEvent::TextSelected("nihao".to_string())) {
        AiShortcutAction::SendRequest(q) => assert_eq!(q.url, "https://api.x/chat/completions"),
        _ => panic!("a selection is sent"),
    }
    match ai_shortcut_next(&settings, AiShortcutEvent::Answered(Ok(Some(" 你好 ".to_string())))) {
        AiShortcutAction::WriteClipboard(t) => assert_eq!(t, "你好"),
        _ => panic!("the answer is written"),
    }
    match ai_shortcut_next(&settings, AiShortcutEvent::Answered(Err("网络连接失败: x".to_string()))) {
        AiShortcutAction::ShowPopup(DialogType::Error, title, message) => {
            assert_eq!(title, "AI 处理失败");
            assert_eq!(message, "网络连接失败: x");
        }
        _ => panic!("a failed request is reported"),
    }
    assert!(matches!(ai_shortcut_next(&settings, AiShortcutEvent::Written(Ok(()))), AiShortcutAction::Paste));
    assert!(matches!(ai_shortcut_next(&settings, AiShortcutEvent::Pasted(Ok(()))), AiShortcutAction::Finish));
    match ai_shortcut_next(&settings, AiShortcutEvent::Pasted(Err("no".to_string()))) {
        AiShortcutAction::ShowPopup(DialogType::Error, title, _) => assert_eq!(title, "粘贴失败"),
        _ => panic!("a failed paste is reported"),
    }
}

#[test]
fn changes_are_skipped_while_marked() {
    let mut controller = MonitorController::new();
    mark_ignore_next_change(&mut controller, 1_000);
    let mut tracker = ClipboardTracker::new();
    let mut store = HistoryStore::new();
    assert!(!handle_clipboard_event(&controller, &mut tracker, &mut store, Some("copied".to_string()), None, 1_399));
    assert!(store.records().is_empty());
    assert!(handle_clipboard_event(&controller, &mut tracker, &mut store, Some("copied".to_string()), None, 1_400));
    assert_eq!(store.records().len(), 1);
}
