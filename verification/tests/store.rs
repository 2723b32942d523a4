use wisp::clip::{ClipFilter, ClipKind};
use wisp::store::{ClipRow, ClipStore, StoreError, MAX_PATTERN_BYTES, MAX_ROWS, RETENTION_MS};

const NOW: i64 = 1_700_000_000_000;

fn memory_store() -> ClipStore {
    ClipStore::new()
}

fn contents(store: &ClipStore, filter: ClipFilter, keyword: &str) -> Vec<String> {
    store
        .query(filter, keyword, 10)
        .unwrap()
        .into_iter()
        .map(|clip| clip.content)
        .collect()
}

fn row(id: i64, content: &str, pinned: bool, created_at: i64) -> ClipRow {
    ClipRow {
        id,
        kind: ClipKind::Text,
        content: content.to_string(),
        preview: content.to_string(),
        hash: 0,
        thumb: None,
        pinned,
        rank: 0,
        created_at,
    }
}

#[test]
fn duplicate_content_moves_to_top_instead_of_duplicating() {
    let mut store = memory_store();
    store.insert_text("第一条", NOW).unwrap();
    store.insert_text("第二条", NOW + 1).unwrap();
    store.insert_text("第一条", NOW + 2).unwrap();

    let clips = store.query(ClipFilter::All, "", 10).unwrap();
    assert_eq!(clips.len(), 2);
    assert_eq!(clips[0].content, "第一条");
}

#[test]
fn like_wildcards_are_treated_literally() {
    let mut store = memory_store();
    store.insert_text("进度 100%", NOW).unwrap();
    store.insert_text("进度未知", NOW).unwrap();

    let clips = store.query(ClipFilter::All, "100%", 10).unwrap();
    assert_eq!(clips.len(), 1);
    assert_eq!(clips[0].content, "进度 100%");
}

#[test]
fn pinned_clips_stay_on_top() {
    let mut store = memory_store();
    store.insert_text("普通", NOW).unwrap();
    store.insert_text("置顶", NOW + 1).unwrap();
    store.insert_text("最新", NOW + 2).unwrap();

    let pinned_id = store.query(ClipFilter::All, "置顶", 1).unwrap()[0].id;
    store.toggle_pin(pinned_id);

    let clips = store.query(ClipFilter::All, "", 10).unwrap();
    assert_eq!(clips[0].content, "置顶");
}

#[test]
fn filter_by_pinned_and_kind() {
    let mut store = memory_store();
    store.insert_text("普通文本", NOW).unwrap();
    store.insert_text("收藏文本", NOW).unwrap();

    let pinned_id = store.query(ClipFilter::All, "收藏", 1).unwrap()[0].id;
    store.toggle_pin(pinned_id);

    let pinned = store.query(ClipFilter::Pinned, "", 10).unwrap();
    assert_eq!(pinned.len(), 1);
    assert_eq!(pinned[0].content, "收藏文本");

    let hit = store.query(ClipFilter::Pinned, "收藏", 10).unwrap();
    assert_eq!(hit.len(), 1);
    assert!(store.query(ClipFilter::Pinned, "普通", 10).unwrap().is_empty());

    assert_eq!(store.query(ClipFilter::Text, "", 10).unwrap().len(), 2);
    assert!(store.query(ClipFilter::Image, "", 10).unwrap().is_empty());
}

#[test]
fn prune_removes_stale_unpinned_but_keeps_pinned() {
    let mut store = memory_store();
    store.insert_text("过期的普通", NOW).unwrap();
    store.insert_text("过期的置顶", NOW).unwrap();
    let pinned_id = store.query(ClipFilter::All, "置顶", 1).unwrap()[0].id;
    store.toggle_pin(pinned_id);

    let removed = store.prune_before(NOW + 1000);
    assert_eq!(removed, 1);

    let clips = store.query(ClipFilter::All, "", 10).unwrap();
    assert_eq!(clips.len(), 1);
    assert_eq!(clips[0].content, "过期的置顶");
}

#[test]
fn enforce_cap_keeps_newest_unpinned_and_all_pinned() {
    let mut store = memory_store();
    store.insert_text("第一条", NOW).unwrap();
    store.insert_text("第二条", NOW).unwrap();
    store.insert_text("第三条", NOW).unwrap();
    let pinned_id = store.query(ClipFilter::All, "第一条", 1).unwrap()[0].id;
    store.toggle_pin(pinned_id);
    store.insert_text("第四条", NOW).unwrap();

    let removed = store.enforce_cap(2);
    assert_eq!(removed, 1);

    let clips = store.query(ClipFilter::All, "", 10).unwrap();
    let mut kept: Vec<&str> = clips.iter().map(|clip| clip.content.as_str()).collect();
    kept.sort_unstable();
    assert_eq!(kept, vec!["第一条", "第三条", "第四条"]);
}

#[test]
fn recorded_text_has_id_preview_and_length() {
    let mut store = memory_store();
    store.insert_text("  第一行\n第二行", NOW).unwrap();
    let clips = store.query(ClipFilter::All, "", 10).unwrap();
    assert_eq!(clips[0].id, 1);
    assert_eq!(clips[0].kind, ClipKind::Text);
    assert_eq!(clips[0].preview, "第一行…");
    assert_eq!(clips[0].char_count, 9);
    assert_eq!(clips[0].created_at, NOW);
    assert!(!clips[0].pinned);
    assert!(clips[0].thumb.is_none());
}

#[test]
fn newer_entries_are_listed_before_older_ones() {
    let mut store = memory_store();
    store.insert_text("旧", NOW).unwrap();
    store.insert_text("新", NOW + 10).unwrap();
    store.insert_text("中", NOW + 5).unwrap();
    assert_eq!(contents(&store, ClipFilter::All, ""), ["新", "中", "旧"]);
}

#[test]
fn query_stops_at_the_limit() {
    let mut store = memory_store();
    for i in 0..5 {
        store.insert_text(&format!("第 {i} 条"), NOW + i).unwrap();
    }
    let clips = store.query(ClipFilter::All, "", 2).unwrap();
    assert_eq!(clips.len(), 2);
    assert_eq!(clips[0].content, "第 4 条");
    assert!(store.query(ClipFilter::All, "", 0).unwrap().is_empty());
}

#[test]
fn keyword_is_trimmed_and_ascii_case_is_ignored() {
    let mut store = memory_store();
    store.insert_text("Hello World", NOW).unwrap();
    assert_eq!(contents(&store, ClipFilter::All, "  hello "), ["Hello World"]);
    assert_eq!(contents(&store, ClipFilter::All, "   "), ["Hello World"]);
    assert!(contents(&store, ClipFilter::All, "hello_world").is_empty());
}

#[test]
fn too_long_keyword_is_refused() {
    let mut store = memory_store();
    let keyword = "a".repeat(MAX_PATTERN_BYTES);
    assert!(store.query(ClipFilter::All, &keyword, 10).unwrap().is_empty());
    store.insert_text("一段文本", NOW).unwrap();
    assert_eq!(
        store.query(ClipFilter::All, &keyword, 10).unwrap_err(),
        StoreError::PatternTooLong
    );
    assert!(store.query(ClipFilter::All, &keyword, 0).unwrap().is_empty());
    assert!(store.query(ClipFilter::Image, &keyword, 10).unwrap().is_empty());
    let keyword = "a".repeat(MAX_PATTERN_BYTES - 2);
    assert!(store.query(ClipFilter::All, &keyword, 10).is_ok());
}

#[test]
fn too_large_limit_is_refused() {
    let store = memory_store();
    assert_eq!(
        store.query(ClipFilter::All, "", usize::MAX).unwrap_err(),
        StoreError::LimitTooLarge
    );
}

#[test]
fn missing_entry_has_no_content() {
    let mut store = memory_store();
    store.insert_text("有", NOW).unwrap();
    assert_eq!(store.content_of(1).unwrap(), "有");
    assert_eq!(store.content_of(2).unwrap_err(), StoreError::NotFound);
    assert_eq!(
        store.kind_and_content(1).unwrap(),
        (ClipKind::Text, "有".to_string())
    );
    assert_eq!(store.kind_and_content(7).unwrap_err(), StoreError::NotFound);
}

#[test]
fn rows_with_equal_ids_are_refused() {
    let rows = vec![row(1, "甲", false, NOW), row(1, "乙", false, NOW)];
    assert_eq!(ClipStore::open(rows).unwrap_err(), StoreError::Corrupt);
}

#[test]
fn last_id_leaves_no_room() {
    let mut store = ClipStore::open(vec![row(i64::MAX, "甲", false, NOW)]).unwrap();
    assert_eq!(store.insert_text("乙", NOW).unwrap_err(), StoreError::Full);
    assert_eq!(store.rows().len(), 1);
}

#[test]
fn pin_toggles_back() {
    let mut store = memory_store();
    store.insert_text("甲", NOW).unwrap();
    store.toggle_pin(1);
    assert!(store.rows()[0].pinned);
    store.toggle_pin(1);
    assert!(!store.rows()[0].pinned);
    store.toggle_pin(99);
    assert!(!store.rows()[0].pinned);
}

#[test]
fn delete_removes_only_that_entry() {
    let mut store = memory_store();
    store.insert_text("甲", NOW).unwrap();
    store.insert_text("乙", NOW + 1).unwrap();
    store.delete(1);
    assert_eq!(contents(&store, ClipFilter::All, ""), ["乙"]);
    store.delete(1);
    assert_eq!(store.rows().len(), 1);
}

#[test]
fn touch_moves_an_entry_to_the_top() {
    let mut store = memory_store();
    store.insert_text("甲", NOW).unwrap();
    store.insert_text("乙", NOW + 1).unwrap();
    store.touch(1, NOW + 2);
    assert_eq!(contents(&store, ClipFilter::All, ""), ["甲", "乙"]);
}

#[test]
fn arranged_pins_return_to_the_top_when_used() {
    let mut store = memory_store();
    for (i, text) in ["甲", "乙", "丙"].into_iter().enumerate() {
        store.insert_text(text, NOW + i as i64).unwrap();
        store.toggle_pin(i as i64 + 1);
    }
    store.reorder_pinned(1, Some(3)).unwrap();
    assert_eq!(contents(&store, ClipFilter::All, ""), ["甲", "丙", "乙"]);
    store.touch(2, NOW + 9);
    assert_eq!(contents(&store, ClipFilter::All, ""), ["乙", "甲", "丙"]);
    store.insert_text("丙", NOW + 10).unwrap();
    assert_eq!(contents(&store, ClipFilter::All, ""), ["丙", "乙", "甲"]);
    store.insert_text("丁", NOW + 11).unwrap();
    assert_eq!(contents(&store, ClipFilter::All, ""), ["丙", "乙", "甲", "丁"]);
}

#[test]
fn cleaning_applies_age_and_cap() {
    let mut store = memory_store();
    store.insert_text("过期", NOW - RETENTION_MS - 1).unwrap();
    store.insert_text("刚好", NOW - RETENTION_MS).unwrap();
    store.prune(NOW);
    assert_eq!(contents(&store, ClipFilter::All, ""), ["刚好"]);

    let mut rows = Vec::new();
    for i in 0..(MAX_ROWS as i64 + 3) {
        rows.push(row(i + 1, "条", false, NOW + i));
    }
    let mut full = ClipStore::open(rows).unwrap();
    full.prune(NOW + 10_000);
    assert_eq!(full.rows().len(), MAX_ROWS);
    assert_eq!(full.rows()[0].id, 4);
    assert_eq!(full.unpinned_count(), MAX_ROWS);
}

#[test]
fn clearing_keeps_pinned_and_names_pictures() {
    let mut store = memory_store();
    store.insert_text("收藏", NOW).unwrap();
    store.toggle_pin(1);
    store.insert_text("普通", NOW).unwrap();
    store
        .insert_image(7, r"C:\d\images\0.png", "1×1 · 4 B".to_string(), vec![1, 2], NOW)
        .unwrap();
    assert_eq!(store.unpinned_count(), 2);
    assert_eq!(store.image_paths(), [r"C:\d\images\0.png"]);
    let cleared = store.clear_unpinned();
    assert_eq!(cleared.count, 2);
    assert_eq!(cleared.image_paths, [r"C:\d\images\0.png"]);
    assert_eq!(contents(&store, ClipFilter::All, ""), ["收藏"]);
    assert!(store.image_paths().is_empty());
}

#[test]
fn pictures_and_files_have_their_own_category() {
    let mut store = memory_store();
    store
        .insert_image(7, "p.png", "1×1 · 4 B".to_string(), vec![1, 2], NOW)
        .unwrap();
    store
        .insert_files(8, "C:\\a.txt\nC:\\b.txt", "a.txt 等 2 个文件".to_string(), NOW)
        .unwrap();
    let images = store.query(ClipFilter::Image, "", 10).unwrap();
    assert_eq!(images.len(), 1);
    assert_eq!(images[0].thumb, Some(vec![1, 2]));
    assert_eq!(images[0].kind, ClipKind::Image);
    let files = store.query(ClipFilter::Files, "", 10).unwrap();
    assert_eq!(files.len(), 1);
    assert_eq!(files[0].preview, "a.txt 等 2 个文件");
}

#[test]
fn dragged_pin_goes_in_front_of_its_target() {
    let mut store = memory_store();
    for (i, text) in ["甲", "乙", "丙"].into_iter().enumerate() {
        store.insert_text(text, NOW + i as i64).unwrap();
        store.toggle_pin(i as i64 + 1);
    }
    assert_eq!(contents(&store, ClipFilter::Pinned, ""), ["丙", "乙", "甲"]);
    store.reorder_pinned(1, Some(3)).unwrap();
    assert_eq!(contents(&store, ClipFilter::Pinned, ""), ["甲", "丙", "乙"]);
    store.reorder_pinned(1, None).unwrap();
    assert_eq!(contents(&store, ClipFilter::Pinned, ""), ["丙", "乙", "甲"]);
}
