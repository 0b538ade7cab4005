use snappaste::image::{decode_png_rgba, encode_rgba_to_png};
use snappaste::models::{ClipboardRecord, ContentType, Settings};
use snappaste::store::HistoryStore;
use snappaste::ui::{
    activation_outcome, clear_visible_records, copy_record_payload, hotkey_press_action,
    image_thumbnail, paste_record_payload, query_records, thumbnail_dimensions,
    thumbnail_from_rgba, Activation, ClipboardPayload, HotkeyPress, ViewState,
};

fn record(id: i64, content_type: ContentType, content: &str, fav: bool, at: &str, image: Option<Vec<u8>>) -> ClipboardRecord {
    ClipboardRecord {
        id,
        content_type,
        content: content.to_string(),
        image_data: image,
        created_at: at.to_string(),
        is_favorite: fav,
        is_pinned: false,
    }
}

fn sample_store() -> HistoryStore {
    let png = encode_rgba_to_png(2, 1, &[1, 2, 3, 255, 4, 5, 6, 255]).unwrap();
    HistoryStore::from_parts(
        vec![
            record(1, ContentType::Text, "alpha", true, "2026-01-01T00:00:00Z", None),
            record(2, ContentType::Link, "https://beta.example", false, "2026-01-02T00:00:00Z", None),
            record(3, ContentType::Image, "图片 2x1", false, "2026-01-03T00:00:00Z", Some(png)),
            record(4, ContentType::Image, "图片 0x0", false, "2026-01-04T00:00:00Z", None),
        ],
        4,
        Settings::default(),
        Vec::new(),
    )
    .unwrap()
}

fn contents(v: &[ClipboardRecord]) -> Vec<String> {
    v.iter().map(|r| r.content.clone()).collect()
}

#[test]
fn the_list_follows_search_text_and_favorites_mode() {
    let store = sample_store();
    let mut state = ViewState::default();
    assert_eq!(query_records(&store, &state).unwrap().len(), 4);
    state.set_keyword("  BETA ".to_string());
    assert_eq!(contents(&query_records(&store, &state).unwrap()), ["https://beta.example"]);
    state.toggle_favorites_only();
    assert!(query_records(&store, &state).unwrap().is_empty());
    state.set_keyword(String::new());
    assert_eq!(contents(&query_records(&store, &state).unwrap()), ["alpha"]);
}

#[test]
fn auto_hide_only_after_the_grace_time_and_not_while_keeping_focus() {
    let mut state = ViewState::default();
    state.mark_shown(1_000);
    assert!(!state.should_auto_hide(true, "main", 1_400, true));
    assert!(state.should_auto_hide(true, "main", 1_500, true));
    assert!(!state.should_auto_hide(true, "settings", 2_000, true));
    assert!(!state.should_auto_hide(true, "about", 2_000, true));
    assert!(!state.should_auto_hide(false, "main", 2_000, true));
    assert!(!state.should_auto_hide(true, "main", 2_000, false));
    state.mark_shown_from_hotkey(true, 1_000);
    assert!(!state.should_auto_hide(true, "main", 9_000, true));
    state.mark_shown_from_hotkey(false, 1_000);
    assert!(state.should_auto_hide(true, "main", 9_000, true));
}

#[test]
fn hotkey_presses_toggle_the_window() {
    assert_eq!(hotkey_press_action(0, 0, true, false), HotkeyPress::Ignore);
    assert_eq!(hotkey_press_action(7, 8, true, false), HotkeyPress::Ignore);
    assert_eq!(hotkey_press_action(7, 7, false, false), HotkeyPress::Ignore);
    assert_eq!(hotkey_press_action(7, 7, true, true), HotkeyPress::Hide);
    assert_eq!(hotkey_press_action(7, 7, true, false), HotkeyPress::ShowFromHotkey);
}

#[test]
fn activation_pastes_only_when_focus_was_kept() {
    assert!(matches!(activation_outcome(Ok(()), true), Activation::PasteIntoTarget));
    assert!(matches!(activation_outcome(Ok(()), false), Activation::Copied));
    match activation_outcome(Err("boom".to_string()), true) {
        Activation::Failed(m) => assert_eq!(m, "boom"),
        _ => panic!("a failed copy is reported"),
    }
}

#[test]
fn clearing_follows_the_favorites_mode() {
    let mut store = sample_store();
    let mut state = ViewState::default();
    assert_eq!(clear_visible_records(&mut store, &state).unwrap(), 3);
    assert_eq!(contents(store.records()), ["alpha"]);
    state.toggle_favorites_only();
    assert_eq!(clear_visible_records(&mut store, &state).unwrap(), 1);
    assert!(store.records().is_empty());
}

#[test]
fn thumbnail_sizes() {
    assert_eq!(thumbnail_dimensions(100, 50), (100, 50));
    assert_eq!(thumbnail_dimensions(240, 82), (120, 41));
    assert_eq!(thumbnail_dimensions(100, 164), (50, 82));
    assert_eq!(thumbnail_dimensions(10_000, 1), (120, 1));
}

#[test]
fn thumbnails_of_decoded_images() {
    assert_eq!(thumbnail_from_rgba(0, 3, &[]).unwrap_err(), "图片尺寸无效");
    let small = vec![5u8; 2 * 2 * 4];
    assert_eq!(thumbnail_from_rgba(2, 2, &small).unwrap(), (2, 2, small.clone()));
    let wide: Vec<u8> = (0..240u32 * 4).map(|v| (v % 251) as u8).collect();
    let (w, h, px) = thumbnail_from_rgba(240, 1, &wide).unwrap();
    assert_eq!((w, h), (120, 1));
    // Every second pixel is kept.
    assert_eq!(&px[0..8], &wide[0..4].iter().chain(&wide[8..12]).copied().collect::<Vec<u8>>()[..]);
}

#[test]
fn thumbnail_of_a_stored_image_record() {
    let store = sample_store();
    assert_eq!(image_thumbnail(&store, 3).unwrap(), (2, 1, vec![1, 2, 3, 255, 4, 5, 6, 255]));
    assert_eq!(image_thumbnail(&store, 4).unwrap_err(), "图片记录缺少数据");
    assert_eq!(image_thumbnail(&store, 99).unwrap_err(), "图片记录不存在");
}

#[test]
fn clipboard_payloads_of_records() {
    let store = sample_store();
    match copy_record_payload(&store, 1).unwrap() {
        ClipboardPayload::Text(t) => assert_eq!(t, "alpha"),
        _ => panic!("a text record gives text"),
    }
    match paste_record_payload(&store, 3).unwrap() {
        ClipboardPayload::Image(w, h, px) => {
            assert_eq!((w, h), (2, 1));
            assert_eq!(px, decode_png_rgba(&store.get_record_by_id(3).unwrap().image_data.unwrap()).unwrap().2);
        }
        _ => panic!("an image record gives an image"),
    }
    assert_eq!(copy_record_payload(&store, 99).unwrap_err(), "记录不存在或已被删除");
    assert_eq!(paste_record_payload(&store, 99).unwrap_err(), "Record not found");
    assert_eq!(copy_record_payload(&store, 4).unwrap_err(), "图片记录缺少数据");
    assert_eq!(paste_record_payload(&store, 4).unwrap_err(), "Image data missing");
}

#[test]
fn list_entries_show_ids_labels_and_thumbnails() {
    let store = sample_store();
    let entries = snappaste::ui::refresh_records(&store, &ViewState::default()).unwrap();
    assert_eq!(entries.len(), 4);
    let image = entries.iter().find(|e| e.id == "3").expect("image entry");
    assert!(image.has_image);
    assert_eq!(image.type_label, "图片");
    assert_eq!(image.thumbnail, Some((2, 1, vec![1, 2, 3, 255, 4, 5, 6, 255])));
    let broken = entries.iter().find(|e| e.id == "4").expect("image without bytes");
    assert!(broken.has_image);
    assert_eq!(broken.thumbnail, None);
    let link = entries.iter().find(|e| e.id == "2").expect("link entry");
    assert_eq!(link.type_label, "链接");
    assert!(!link.has_image);
    assert_eq!(link.content, "https://beta.example");
    let text = snappaste::ui::to_ui_record(&store, store.get_record_by_id(1).unwrap());
    assert!(text.favorite && !text.pinned);
    assert_eq!(text.created_at, "2026-01-01T00:00:00Z");
}
