use snappaste::models::{ClipboardRecord, ContentType, Settings};
use snappaste::store::{
    escape_like_pattern, normalize_limit, normalize_offset, DbError, HistoryStore,
};

const NOW: i64 = 1_767_571_200_000; // 2026-01-05T00:00:00Z

fn text_record(content: &str, created_at: &str, is_favorite: bool, is_pinned: bool) -> ClipboardRecord {
    ClipboardRecord {
        id: 0,
        content_type: ContentType::Text,
        content: content.to_string(),
        image_data: None,
        is_favorite,
        is_pinned,
        created_at: created_at.to_string(),
    }
}

fn store_without_age_limit() -> HistoryStore {
    let mut store = HistoryStore::new();
    let settings = Settings { keep_days: 0, ..Settings::default() };
    store.save_settings(&settings, NOW);
    store
}

fn contents(records: &[ClipboardRecord]) -> Vec<String> {
    records.iter().map(|r| r.content.clone()).collect()
}

#[test]
fn escape_like_pattern_escapes_all_special_characters() {
    assert_eq!(escape_like_pattern(r"50%_off\today"), r"%50\%\_off\\today%");
}

#[test]
fn pagination_values_are_bounded() {
    assert_eq!(normalize_limit(-1), 0);
    assert_eq!(normalize_limit(100), 100);
    assert_eq!(normalize_limit(10_000), 500);
    assert_eq!(normalize_offset(-1), 0);
    assert_eq!(normalize_offset(25), 25);
}

#[test]
fn duplicate_record_keeps_one_row_and_merges_flags() {
    let mut store = HistoryStore::new();
    let first_id = store
        .add_record(text_record("same", "2026-01-01T00:00:00Z", true, false), NOW)
        .expect("insert first record");
    let second_id = store
        .add_record(text_record("same", "2026-01-02T00:00:00Z", false, true), NOW)
        .expect("merge duplicate record");

    let records = store.get_records(None, None, None);
    assert_eq!(first_id, second_id);
    assert_eq!(records.len(), 1);
    assert!(records[0].is_favorite);
    assert!(records[0].is_pinned);
    assert_eq!(records[0].created_at, "2026-01-02T00:00:00Z");
}

#[test]
fn max_record_retention_never_removes_favorites() {
    let mut store = HistoryStore::new();
    let settings = Settings { keep_days: 0, max_records: 2, ..Settings::default() };
    store.save_settings(&settings, NOW);

    store
        .add_record(text_record("favorite", "2026-01-01T00:00:00Z", true, false), NOW)
        .expect("insert favorite");
    for day in 2..=4 {
        store
            .add_record(
                text_record(
                    &format!("normal-{day}"),
                    &format!("2026-01-0{day}T00:00:00Z"),
                    false,
                    false,
                ),
                NOW,
            )
            .expect("insert normal record");
    }

    let records = store.get_records(None, None, None);
    let contents = contents(&records);
    assert_eq!(records.len(), 3);
    assert!(contents.contains(&"favorite".to_string()));
    assert!(contents.contains(&"normal-4".to_string()));
    assert!(contents.contains(&"normal-3".to_string()));
    assert!(!contents.contains(&"normal-2".to_string()));
}

#[test]
fn age_retention_removes_only_expired_non_favorites() {
    // `now` is 2026-03-01; 40 days earlier is 2026-01-20, 2 days earlier 2026-02-27.
    let now: i64 = 1_772_323_200_000;
    let mut seeded = Vec::new();
    let mut id = 0;
    for (content, fav, at) in [
        ("expired", false, "2026-01-20 00:00:00"),
        ("expired-favorite", true, "2026-01-20 00:00:00"),
        ("recent", false, "2026-02-27 00:00:00"),
    ] {
        id += 1;
        let mut r = text_record(content, at, fav, false);
        r.id = id;
        seeded.push(r);
    }
    let mut store =
        HistoryStore::from_parts(seeded, id, Settings::default(), Vec::new()).expect("seed retention records");

    let settings = Settings { keep_days: 30, max_records: 0, ..Settings::default() };
    store.save_settings(&settings, now);

    let records = store.get_records(None, None, None);
    let contents = contents(&records);
    assert_eq!(records.len(), 2);
    assert!(contents.contains(&"expired-favorite".to_string()));
    assert!(contents.contains(&"recent".to_string()));
    assert!(!contents.contains(&"expired".to_string()));
}

#[test]
fn pagination_is_stable_and_pinned_records_come_first() {
    let mut store = store_without_age_limit();
    store
        .add_record(text_record("newest", "2026-01-03T00:00:00Z", false, false), NOW)
        .expect("insert newest");
    store
        .add_record(text_record("old-pinned", "2026-01-01T00:00:00Z", false, true), NOW)
        .expect("insert pinned");
    store
        .add_record(text_record("middle", "2026-01-02T00:00:00Z", false, false), NOW)
        .expect("insert middle");

    let first_page = store.get_records(None, Some(2), Some(0));
    let second_page = store.get_records(None, Some(2), Some(2));

    assert_eq!(first_page[0].content, "old-pinned");
    assert_eq!(first_page[1].content, "newest");
    assert_eq!(second_page.len(), 1);
    assert_eq!(second_page[0].content, "middle");
}

#[test]
fn equal_timestamps_use_newest_id_as_stable_tiebreaker() {
    let mut store = store_without_age_limit();
    for content in ["first", "second", "third"] {
        store
            .add_record(text_record(content, "2026-01-01T00:00:00Z", false, false), NOW)
            .expect("insert record");
    }

    let records = store.get_records(None, None, None);
    assert_eq!(contents(&records), ["third", "second", "first"]);
}

#[test]
fn search_treats_sql_wildcards_as_literal_text() {
    let mut store = store_without_age_limit();
    for content in ["save 50%", "save 500", "name_value", "nameXvalue"] {
        store
            .add_record(text_record(content, "2026-01-01T00:00:00Z", false, false), NOW)
            .expect("insert searchable record");
    }

    let percent = store.search_records("50%", None, 50);
    let underscore = store.search_records("name_", None, 50);
    assert_eq!(percent.len(), 1);
    assert_eq!(percent[0].content, "save 50%");
    assert_eq!(underscore.len(), 1);
    assert_eq!(underscore[0].content, "name_value");
}

#[test]
fn search_ignores_ascii_case_and_filters_favorites() {
    let mut store = store_without_age_limit();
    store.add_record(text_record("Hello World", "2026-01-01T00:00:00Z", true, false), NOW).unwrap();
    store.add_record(text_record("hello there", "2026-01-02T00:00:00Z", false, false), NOW).unwrap();
    assert_eq!(contents(&store.search_records("HELLO", None, 10)), ["hello there", "Hello World"]);
    assert_eq!(contents(&store.search_records("hello", Some(true), 10)), ["Hello World"]);
    assert_eq!(store.search_records("hello", None, 1).len(), 1);
}

#[test]
fn consecutive_pages_cover_the_listing_once() {
    let mut store = store_without_age_limit();
    for i in 0..7 {
        store
            .add_record(text_record(&format!("r{i}"), "2026-01-01T00:00:00Z", false, i % 3 == 0), NOW)
            .unwrap();
    }
    let all = contents(&store.get_records(None, None, None));
    let mut paged = contents(&store.get_records(None, Some(3), Some(0)));
    paged.extend(contents(&store.get_records(None, Some(3), Some(3))));
    paged.extend(contents(&store.get_records(None, Some(3), Some(6))));
    assert_eq!(paged, all);
    assert_eq!(all[..3], ["r6", "r3", "r0"]);
}

#[test]
fn listings_leave_out_image_bytes_but_lookup_keeps_them() {
    let mut store = store_without_age_limit();
    let image = ClipboardRecord {
        id: 0,
        content_type: ContentType::Image,
        content: "图片 1x1".to_string(),
        image_data: Some(vec![1, 2, 3]),
        is_favorite: false,
        is_pinned: false,
        created_at: "2026-01-01T00:00:00Z".to_string(),
    };
    let id = store.add_record(image, NOW).unwrap();
    assert!(store.get_records(None, None, None)[0].image_data.is_none());
    assert_eq!(store.get_record_by_id(id).unwrap().image_data, Some(vec![1, 2, 3]));
    assert!(store.get_record_by_id(id + 1).is_none());
}

#[test]
fn images_and_blank_texts_are_never_merged() {
    let mut store = store_without_age_limit();
    let a = store.add_record(text_record("  ", "2026-01-01T00:00:00Z", false, false), NOW).unwrap();
    let b = store.add_record(text_record("  ", "2026-01-01T00:00:00Z", false, false), NOW).unwrap();
    assert_ne!(a, b);
    assert_eq!(store.records().len(), 2);
}

#[test]
fn adding_fails_without_change_when_ids_run_out() {
    let mut store = HistoryStore::from_parts(Vec::new(), i64::MAX, Settings::default(), Vec::new()).unwrap();
    let result = store.add_record(text_record("x", "2026-01-01T00:00:00Z", false, false), NOW);
    assert_eq!(result, Err(DbError::IdSpaceExhausted));
    assert!(store.records().is_empty());
    assert_eq!(DbError::IdSpaceExhausted.message(), "数据库已满：记录编号已用尽");
}

#[test]
fn status_updates_delete_and_clear() {
    let mut store = store_without_age_limit();
    let a = store.add_record(text_record("a", "2026-01-01T00:00:00Z", false, false), NOW).unwrap();
    let b = store.add_record(text_record("b", "2026-01-02T00:00:00Z", false, false), NOW).unwrap();
    let c = store.add_record(text_record("c", "2026-01-03T00:00:00Z", false, false), NOW).unwrap();
    store.update_record_status(a, Some(true), None);
    store.update_record_status(b, None, Some(true));
    assert!(store.get_record_by_id(a).unwrap().is_favorite);
    assert!(store.get_record_by_id(b).unwrap().is_pinned);
    assert_eq!(store.delete_record(c), 1);
    assert_eq!(store.delete_record(c), 0);
    assert_eq!(store.clear_records(Some(false)), 1);
    assert_eq!(contents(&store.get_records(None, None, None)), ["a"]);
    assert_eq!(store.clear_records(Some(true)), 1);
    assert!(store.records().is_empty());
}

#[test]
fn window_sizes_are_saved_by_label() {
    let mut store = HistoryStore::new();
    assert_eq!(store.get_window_state("main"), None);
    store.save_window_state("main", 400, 600);
    store.save_window_state("main", 420, 640);
    store.save_window_state("other", 1, 2);
    assert_eq!(store.get_window_state("main"), Some((420, 640)));
    assert_eq!(store.get_window_state("other"), Some((1, 2)));
    assert_eq!(store.window_states().len(), 2);
}

#[test]
fn from_parts_refuses_unordered_ids() {
    let mut a = text_record("a", "t", false, false);
    a.id = 2;
    let mut b = text_record("b", "t", false, false);
    b.id = 1;
    assert!(HistoryStore::from_parts(vec![a, b], 5, Settings::default(), Vec::new()).is_none());
}

#[test]
fn adding_keeps_one_copy_the_favourites_and_the_limit() {
    let mut store = HistoryStore::new();
    let settings = Settings { keep_days: 0, max_records: 2, ..Settings::default() };
    store.save_settings(&settings, NOW);
    let fav = store.add_record(text_record("kept", "2026-01-01T00:00:00Z", true, false), NOW).expect("favourite");
    store.add_record(text_record("a", "2026-01-02T00:00:00Z", false, false), NOW).expect("a");
    store.add_record(text_record("b", "2026-01-03T00:00:00Z", false, false), NOW).expect("b");
    store.add_record(text_record("c", "2026-01-04T00:00:00Z", false, false), NOW).expect("c");
    let again = store.add_record(text_record("kept", "2026-01-05T00:00:00Z", false, true), NOW).expect("again");
    assert_eq!(again, fav);
    let records = store.get_records(None, None, None);
    let kept: Vec<&ClipboardRecord> = records.iter().filter(|r| r.content == "kept").collect();
    assert_eq!(kept.len(), 1);
    assert_eq!(kept[0].id, fav);
    assert!(kept[0].is_favorite && kept[0].is_pinned);
    assert_eq!(records.iter().filter(|r| !r.is_favorite).count(), 2);
    assert!(records.iter().all(|r| r.content != "a"));
}
