use snappaste::models::{
    ClipboardRecord, ContentType, FavoriteTransferItem, FavoriteTransferPackage, Settings,
};
use snappaste::store::{DbError, HistoryStore};
use snappaste::transfer::{
    collect_favorites_package, import_favorites_package_at, preserve_local_secrets,
    redact_settings_for_export, validate_import_path,
};

const NOW: i64 = 1_767_571_200_000;

fn stored(id: i64, content: &str, is_favorite: bool, is_pinned: bool, at: &str) -> ClipboardRecord {
    ClipboardRecord {
        id,
        content_type: ContentType::Text,
        content: content.to_string(),
        image_data: None,
        created_at: at.to_string(),
        is_favorite,
        is_pinned,
    }
}

fn item(content_type: ContentType, content: &str, is_pinned: bool) -> FavoriteTransferItem {
    FavoriteTransferItem { content_type, content: content.to_string(), is_pinned }
}

#[test]
fn exported_settings_do_not_include_api_key() {
    let settings = Settings { ai_api_key: "secret-key".to_string(), ..Settings::default() };

    assert!(redact_settings_for_export(settings).ai_api_key.is_empty());
}

#[test]
fn favorite_import_is_atomic_when_an_insert_fails() {
    // Only one more id is left, so the second new favourite cannot be stored.
    let mut store =
        HistoryStore::from_parts(Vec::new(), i64::MAX - 1, Settings::default(), Vec::new()).unwrap();

    let result = store.import_favorite_items(
        &vec![item(ContentType::Text, "valid", false), item(ContentType::Text, "broken", false)],
        "2026-01-03T00:00:00Z",
    );

    assert_eq!(result, Err(DbError::IdSpaceExhausted));
    let records = store.get_records(Some(true), None, None);
    assert!(records.is_empty());
    assert_eq!(store.last_id(), i64::MAX - 1);
}

#[test]
fn favorite_import_merges_existing_records_and_ignores_invalid_duplicates() {
    let mut store = HistoryStore::from_parts(
        vec![
            stored(1, "existing", true, false, "2026-01-01T00:00:00Z"),
            stored(2, "promote-me", false, false, "2026-01-02T00:00:00Z"),
        ],
        2,
        Settings::default(),
        Vec::new(),
    )
    .expect("insert existing records");

    let imported = store
        .import_favorite_items(
            &vec![
                item(ContentType::Text, "existing", false),
                item(ContentType::Text, " new ", true),
                item(ContentType::Text, "promote-me", true),
                item(ContentType::Text, "new", false),
                item(ContentType::Text, "   ", false),
                item(ContentType::Image, "ignored-image", false),
            ],
            "2026-01-03T00:00:00Z",
        )
        .expect("import favorites");

    let records = store.get_records(Some(true), None, None);
    assert_eq!(imported, 2);
    assert_eq!(records.len(), 3);
    let new_record = records.iter().find(|record| record.content == "new").expect("find imported favorite");
    assert!(new_record.is_pinned);
    let promoted = records
        .iter()
        .find(|record| record.content == "promote-me")
        .expect("find promoted favorite");
    assert!(promoted.is_favorite);
    assert!(promoted.is_pinned);
}

#[test]
fn export_packs_favorites_without_images_and_key() {
    let mut image = stored(3, "图片 1x1", true, false, "2026-01-03T00:00:00Z");
    image.content_type = ContentType::Image;
    image.image_data = Some(vec![1]);
    let settings = Settings { ai_api_key: "k".to_string(), ..Settings::default() };
    let store = HistoryStore::from_parts(
        vec![
            stored(1, "fav", true, true, "2026-01-01T00:00:00Z"),
            stored(2, "plain", false, false, "2026-01-02T00:00:00Z"),
            image,
        ],
        3,
        settings,
        Vec::new(),
    )
    .unwrap();
    let package = collect_favorites_package(&store).unwrap();
    assert_eq!(package.favorites.len(), 1);
    assert_eq!(package.favorites[0].content, "fav");
    assert!(package.favorites[0].is_pinned);
    assert!(package.settings.ai_api_key.is_empty());
}

#[test]
fn importing_a_package_saves_its_settings_and_keeps_the_local_key() {
    let local = Settings { ai_api_key: "local".to_string(), ..Settings::default() };
    let mut store = HistoryStore::from_parts(Vec::new(), 0, local, Vec::new()).unwrap();
    let package = FavoriteTransferPackage {
        favorites: vec![item(ContentType::Link, "https://a.b", false)],
        settings: Settings { hotkey: "Alt+Q".to_string(), ai_api_key: " ".to_string(), ..Settings::default() },
    };
    let (count, settings_imported) = import_favorites_package_at(&mut store, package, "2026-01-03T00:00:00Z", NOW).unwrap();
    assert_eq!(count, 1);
    assert!(settings_imported);
    let saved = store.get_settings();
    assert_eq!(saved.hotkey, "Alt+Q");
    assert_eq!(saved.ai_api_key, "local");

    let no_settings = FavoriteTransferPackage {
        favorites: Vec::new(),
        settings: Settings { hotkey: String::new(), ..Settings::default() },
    };
    assert_eq!(import_favorites_package_at(&mut store, no_settings, "t", NOW).unwrap(), (0, false));
    assert_eq!(store.get_settings().hotkey, "Alt+Q");
}

#[test]
fn local_key_is_kept_only_when_the_import_has_none() {
    let local = Settings { ai_api_key: "mine".to_string(), ..Settings::default() };
    let with_key = Settings { ai_api_key: "theirs".to_string(), ..Settings::default() };
    assert_eq!(preserve_local_secrets(with_key, &local).unwrap().ai_api_key, "theirs");
    let without = Settings { ai_api_key: String::new(), ..Settings::default() };
    assert_eq!(preserve_local_secrets(without, &local).unwrap().ai_api_key, "mine");
}

#[test]
fn import_file_checks() {
    assert_eq!(validate_import_path("  ", Ok((true, 1))).unwrap_err(), "导入路径不能为空");
    assert_eq!(
        validate_import_path("a.json", Err("denied".to_string())).unwrap_err(),
        "无法访问文件 a.json: denied"
    );
    assert_eq!(validate_import_path("dir", Ok((false, 0))).unwrap_err(), "导入路径不是文件: dir");
    assert_eq!(
        validate_import_path("big.json", Ok((true, 10 * 1024 * 1024 + 1))).unwrap_err(),
        "导入文件过大（最大允许 10 MiB）"
    );
    assert!(validate_import_path("ok.json", Ok((true, 10 * 1024 * 1024))).is_ok());
}
