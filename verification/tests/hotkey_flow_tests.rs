use snappaste::autostart::{self, AutostartSync, RunKeyRead, RunKeyWrite};
use snappaste::hotkeys::{HotkeyManager, HotkeyRuntime, SystemHotkeys};
use snappaste::models::Settings;
use snappaste::services::{apply_hotkey_settings, save_app_settings_logic};
use snappaste::store::HistoryStore;
use snappaste::ui::{apply_imported_settings, apply_settings_transaction};

const NOW: i64 = 1_767_571_200_000;

/// Start at login where the platform keeps no start-up list: already off,
/// and switching it on is refused.
fn unsupported_platform_sync(enabled: bool) -> Result<(), String> {
    match autostart::sync(autostart::is_enabled(RunKeyRead::Unsupported), enabled)? {
        None => Ok(()),
        Some(v) => autostart::set_enabled(v, RunKeyWrite::Unsupported),
    }
}

#[test]
fn main_hotkey_updates_are_checked_first() {
    let mut runtime = HotkeyRuntime::new().expect("hotkey service");
    assert_eq!(runtime.active_id(), 0);
    assert_eq!(runtime.update("  ").unwrap_err(), "主快捷键不能为空");
    assert!(runtime.update("Alt+Nope").unwrap_err().starts_with("无效快捷键 Alt+Nope："));
    assert_eq!(runtime.active_id(), 0);
}

#[test]
fn settings_transaction_applies_or_leaves_the_store_alone() {
    let mut runtime = HotkeyRuntime::new().expect("hotkey service");
    let mut store = HistoryStore::new();
    let previous = store.get_settings();

    let bad = Settings { hotkey: "Alt+Nope".to_string(), ..previous.clone() };
    let err = apply_settings_transaction(&mut runtime, &mut store, &previous, &bad, NOW, &mut AutostartSync::new(unsupported_platform_sync)).unwrap_err();
    assert!(err.starts_with("无效快捷键 Alt+Nope："));
    assert_eq!(store.get_settings().hotkey, "Alt+Z");

    let auto = Settings { auto_start: true, hotkey: "Alt+Q".to_string(), ..previous.clone() };
    if let Err(err) = apply_settings_transaction(&mut runtime, &mut store, &previous, &auto, NOW, &mut AutostartSync::new(unsupported_platform_sync)) {
        assert!(!store.get_settings().auto_start);
        assert!(!err.is_empty());
        assert!(err == "当前平台暂不支持开机启动设置" || err.starts_with("注册快捷键 Alt+Q 失败："));
    } else {
        panic!("start at login cannot be switched on here");
    }
    let accepting = |_enabled: bool| -> Result<(), String> { Ok(()) };
    let on = Settings { auto_start: true, hotkey: "Alt+Q".to_string(), keep_days: 0, ..previous.clone() };
    if apply_settings_transaction(&mut runtime, &mut store, &previous, &on, NOW, &mut AutostartSync::new(accepting)).is_ok() {
        assert!(store.get_settings().auto_start);
    }

    let good = Settings { hotkey: "Alt+Q".to_string(), keep_days: 0, ..previous.clone() };
    if apply_settings_transaction(&mut runtime, &mut store, &previous, &good, NOW, &mut AutostartSync::new(unsupported_platform_sync)).is_ok() {
        assert_eq!(store.get_settings().hotkey, "Alt+Q");
        assert_eq!(store.get_settings().keep_days, 0);
        assert_ne!(runtime.active_id(), 0);
    }
}

#[test]
fn imported_settings_that_fail_the_check_are_rolled_back() {
    let mut runtime = HotkeyRuntime::new().expect("hotkey service");
    let previous = Settings::default();
    let imported = Settings { keep_days: 99_999, hotkey: "Alt+W".to_string(), ..Settings::default() };
    let mut store = HistoryStore::from_parts(Vec::new(), 0, imported, Vec::new()).unwrap();
    let err = apply_imported_settings(&mut runtime, &mut store, &previous, NOW, &mut AutostartSync::new(unsupported_platform_sync)).unwrap_err();
    assert_eq!(err, "记录保留天数必须在 0 到 3650 之间");
    assert_eq!(store.get_settings().hotkey, "Alt+Z");
    assert_eq!(store.get_settings().keep_days, 1);
}

#[test]
fn saving_from_the_settings_page() {
    let system = SystemHotkeys::new().expect("hotkey service");
    let mut manager = HotkeyManager::new();
    let mut store = HistoryStore::new();
    let same = Settings { hotkey: "Alt+X".to_string(), ..Settings::default() };
    assert_eq!(
        save_app_settings_logic(&mut manager, &system, &mut store, same, true, NOW, &mut AutostartSync::new(unsupported_platform_sync)).unwrap_err(),
        "主快捷键和 AI 快捷键不能相同"
    );
    let bad = Settings { hotkey: "Alt+Nope".to_string(), ..Settings::default() };
    assert!(apply_hotkey_settings(&mut manager, &system, &bad, true).unwrap_err().starts_with("无效快捷键格式: "));
    let ok = Settings { hotkey: "Alt+Q".to_string(), keep_days: 7, ..Settings::default() };
    if save_app_settings_logic(&mut manager, &system, &mut store, ok, false, NOW, &mut AutostartSync::new(unsupported_platform_sync)).is_ok() {
        assert_eq!(store.get_settings().keep_days, 7);
        assert!(!store.get_settings().ai_enabled);
    }
}

#[test]
fn applying_shortcuts_leaves_other_bindings_alone() {
    let system = SystemHotkeys::new().expect("hotkey service");
    let mut manager = HotkeyManager::new();
    let custom = manager.prepare_register("custom", "Alt+K").unwrap().expect("a new shortcut");
    let custom_id = custom.id();
    assert!(manager.commit_register("custom", custom).is_none());
    let bad = Settings { hotkey: "Alt+Nope".to_string(), ..Settings::default() };
    assert!(apply_hotkey_settings(&mut manager, &system, &bad, false).is_err());
    let ok = Settings { hotkey: "Alt+J".to_string(), ai_enabled: false, ..Settings::default() };
    let _ = apply_hotkey_settings(&mut manager, &system, &ok, true);
    assert_eq!(manager.route(custom_id), Some("custom".to_string()));
}

#[test]
fn start_at_login_is_left_alone_when_settings_are_refused() {
    let system = SystemHotkeys::new().expect("hotkey service");
    let mut manager = HotkeyManager::new();
    let mut store = HistoryStore::new();
    let asked = std::cell::RefCell::new(Vec::new());
    let recording = |enabled: bool| -> Result<(), String> {
        asked.borrow_mut().push(enabled);
        Ok(())
    };
    let blank = Settings { hotkey: "   ".to_string(), auto_start: true, ..Settings::default() };
    let err = save_app_settings_logic(&mut manager, &system, &mut store, blank, false, NOW, &mut AutostartSync::new(&recording))
        .unwrap_err();
    assert_eq!(err, "主快捷键不能为空");
    assert!(asked.borrow().is_empty());
    assert!(!store.get_settings().auto_start);

    let mut runtime = HotkeyRuntime::new().expect("hotkey service");
    let previous = store.get_settings();
    let bad = Settings { hotkey: "Alt+Nope".to_string(), auto_start: true, ..previous.clone() };
    assert!(apply_settings_transaction(&mut runtime, &mut store, &previous, &bad, NOW, &mut AutostartSync::new(&recording)).is_err());
    assert!(asked.borrow().is_empty());
}
