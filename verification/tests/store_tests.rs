use clipvault::models::{
    normalize_settings, upgrade_settings, NewClipboardItem, Settings, SourceMetadata,
};
use clipvault::store::{
    build_fts_query, cleanup_ids, clipboard_item, plan_save, retention_cutoff, search_plan,
    search_text, source_url_result, thumb_data_url, unix_now, unix_time, SavePlan, SearchColumns,
    SearchPlan, StoredEntry, StoredRow,
};

fn settings(retention_days: Option<i64>, max_items: i64) -> Settings {
    Settings { retention_days, max_items, ..Settings::default() }
}

fn entry(id: i64, created_at: i64) -> StoredEntry {
    StoredEntry { id, created_at }
}

#[test]
fn default_settings() {
    let s = Settings::default();
    assert_eq!(s.retention_days, Some(7));
    assert_eq!(s.max_items, 500);
    assert_eq!(s.shortcut, "CommandOrControl+Shift+S");
    assert!(!s.paused);
    assert!(s.hide_after_copy);
}

#[test]
fn settings_are_normalized() {
    let s = normalize_settings(Settings { max_items: 3, shortcut: "  ".to_string(), ..Settings::default() });
    assert_eq!(s.max_items, 25);
    assert_eq!(s.shortcut, "CommandOrControl+Shift+S");
    let s = normalize_settings(Settings { max_items: 100, shortcut: " Alt+K \n".to_string(), ..Settings::default() });
    assert_eq!(s.max_items, 100);
    assert_eq!(s.shortcut, "Alt+K");
    let again = normalize_settings(Settings { shortcut: s.shortcut.clone(), ..s });
    assert_eq!(again.shortcut, "Alt+K");
    assert_eq!(again.max_items, 100);
}

#[test]
fn legacy_shortcut_is_upgraded() {
    let (s, changed) = upgrade_settings(Settings { shortcut: "CommandOrControl+Shift+V".to_string(), ..Settings::default() });
    assert!(changed);
    assert_eq!(s.shortcut, "CommandOrControl+Shift+S");
    let (s, changed) = upgrade_settings(Settings { shortcut: "Alt+V".to_string(), ..Settings::default() });
    assert!(!changed);
    assert_eq!(s.shortcut, "Alt+V");
}

#[test]
fn fts_queries_use_prefix_terms() {
    assert_eq!(build_fts_query("Hello, World! foo"), "hello* AND world* AND foo*");
    assert_eq!(build_fts_query("rust"), "rust*");
    assert_eq!(build_fts_query("...  --"), "");
    assert_eq!(build_fts_query("Zażółć gęślą"), "zażółć* AND gęślą*");
}

#[test]
fn search_plans() {
    assert!(matches!(search_plan("   "), SearchPlan::Recent));
    match search_plan("  Foo Bar ") {
        SearchPlan::FullText { fts, like } => {
            assert_eq!(fts, "foo* AND bar*");
            assert_eq!(like, "%foo bar%");
        }
        _ => panic!("expected full-text search"),
    }
    match search_plan("://") {
        SearchPlan::Pattern { like } => assert_eq!(like, "%://%"),
        _ => panic!("expected pattern search"),
    }
}

#[test]
fn retention_cutoffs() {
    assert_eq!(retention_cutoff(1_000_000, 7), 1_000_000 - 7 * 86_400);
    assert_eq!(retention_cutoff(1_000_000, 0), 1_000_000 - 86_400);
    assert_eq!(retention_cutoff(1_000_000, -5), 1_000_000 - 86_400);
    assert_eq!(retention_cutoff(i64::MIN + 10, 1), i64::MIN);
}

#[test]
fn cleanup_limits_number_of_entries() {
    let history = vec![entry(1, 100), entry(2, 300), entry(3, 200), entry(4, 300), entry(5, 50)];
    let mut ids = cleanup_ids(&history, &settings(None, 2), 1_000);
    ids.sort();
    assert_eq!(ids, vec![1, 3, 5]);
    assert_eq!(cleanup_ids(&history, &settings(None, 0), 1_000), Vec::<i64>::new());
    assert_eq!(cleanup_ids(&history, &settings(None, 10), 1_000), Vec::<i64>::new());
}

#[test]
fn cleanup_drops_expired_entries() {
    let day = 86_400;
    let now = 100 * day;
    let history = vec![entry(1, now - 8 * day), entry(2, now - day), entry(3, now - 7 * day), entry(4, now)];
    assert_eq!(cleanup_ids(&history, &settings(Some(7), 0), now), vec![1]);
    assert_eq!(cleanup_ids(&history, &settings(Some(1), 0), now), vec![1, 3]);
    assert_eq!(cleanup_ids(&history, &settings(Some(7), 2), now), vec![1, 3]);
}

#[test]
fn cleanup_keeps_at_most_max_items() {
    let history: Vec<StoredEntry> = (0..60).map(|i| entry(i, (i * 7919) % 13)).collect();
    for max in 1..70 {
        let deleted = cleanup_ids(&history, &settings(None, max), 0);
        let kept: Vec<&StoredEntry> = history.iter().filter(|e| !deleted.contains(&e.id)).collect();
        assert_eq!(kept.len() as i64, max.min(60));
        for k in &kept {
            for d in history.iter().filter(|e| deleted.contains(&e.id)) {
                assert!(k.created_at > d.created_at || (k.created_at == d.created_at && k.id > d.id));
            }
        }
    }
}

fn new_item(hash: &str) -> NewClipboardItem {
    NewClipboardItem {
        kind: "text".to_string(),
        content: "hello".to_string(),
        url: None,
        domain: Some("d.com".to_string()),
        title: Some("T".to_string()),
        source: SourceMetadata {
            app_name: Some("App".to_string()),
            window_title: Some("Window".to_string()),
            page_url: Some("https://d.com".to_string()),
            page_title: None,
            domain: Some("d.com".to_string()),
        },
        hash: hash.to_string(),
        blob: None,
        thumb: None,
    }
}

#[test]
fn saving_repeated_content_only_touches() {
    match plan_save(Some("abc".to_string()), new_item("abc")) {
        SavePlan::Touch { hash } => assert_eq!(hash, "abc"),
        _ => panic!("expected touch"),
    }
    match plan_save(Some("old".to_string()), new_item("abc")) {
        SavePlan::Upsert(rec) => {
            assert_eq!(rec.hash, "abc");
            assert_eq!(rec.source_app.as_deref(), Some("App"));
            assert_eq!(rec.source_title.as_deref(), Some("Window"));
            assert_eq!(rec.source_url.as_deref(), Some("https://d.com"));
            assert_eq!(rec.source_domain.as_deref(), Some("d.com"));
        }
        _ => panic!("expected upsert"),
    }
    assert!(matches!(plan_save(None, new_item("abc")), SavePlan::Upsert(_)));
}

#[test]
fn search_text_joins_columns() {
    let cols = SearchColumns {
        content: "hello".to_string(),
        url: None,
        domain: Some("d.com".to_string()),
        title: Some("Title".to_string()),
        source_url: None,
        source_title: Some("Src".to_string()),
        source_domain: None,
    };
    assert_eq!(search_text(&cols), "hello  d.com Title  Src ");
}

#[test]
fn stored_rows_become_items() {
    assert_eq!(thumb_data_url(&Some(vec![1, 2, 3, 250])).as_deref(), Some("data:image/png;base64,AQID+g=="));
    assert_eq!(thumb_data_url(&None), None);
    let item = clipboard_item(StoredRow {
        id: 7,
        kind: "image".to_string(),
        content: "Image 1 x 1".to_string(),
        url: None,
        domain: None,
        title: None,
        source_app: Some("Preview".to_string()),
        source_url: None,
        source_title: None,
        source_domain: None,
        created_at: 42,
        thumb: Some(vec![1, 2, 3]),
    });
    assert_eq!(item.id, 7);
    assert_eq!(item.created_at, 42);
    assert_eq!(item.thumb_data_url.as_deref(), Some("data:image/png;base64,AQID"));
}

#[test]
fn source_urls_must_be_present() {
    assert_eq!(source_url_result(Some(Some("https://a.b".to_string()))), Ok("https://a.b".to_string()));
    let missing = Err("Ten wpis nie ma zapisanego linku źródłowego".to_string());
    assert_eq!(source_url_result(Some(Some(String::new()))), missing);
    assert_eq!(source_url_result(Some(None)), missing);
    assert_eq!(source_url_result(None), missing);
}

#[test]
fn unix_times() {
    assert_eq!(unix_time(None), 0);
    assert_eq!(unix_time(Some(1_700_000_000)), 1_700_000_000);
    assert_eq!(unix_time(Some(u64::MAX)), -1);
    assert!(unix_now() > 1_600_000_000);
}

#[test]
fn cleanup_twice_deletes_nothing_more() {
    let day = 86_400;
    let now = 50 * day;
    let history: Vec<StoredEntry> = (0..40).map(|i| entry(i, now - (i % 11) * day)).collect();
    let s = settings(Some(7), 25);
    let deleted = cleanup_ids(&history, &s, now);
    let kept: Vec<StoredEntry> = history.iter().copied().filter(|e| !deleted.contains(&e.id)).collect();
    assert!(kept.len() <= 25);
    assert!(kept.iter().all(|e| e.created_at >= now - 7 * day));
    assert_eq!(cleanup_ids(&kept, &s, now), Vec::<i64>::new());
}
