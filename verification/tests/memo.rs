use wisp::memo::{parse_tags, MemoDraft, TagFilter};
use wisp::memo_service::MemoService;
use wisp::memo_store::{MemoRow, MemoStore};
use wisp::memo_view::{draft_from, footnote, preview_footnote, MemoKey, MemoView};
use wisp::service::SuppressWindow;
use wisp::store::StoreError;

const NOW: i64 = 1_700_000_000_000;

fn draft(content: &str, tags: &[&str]) -> MemoDraft {
    MemoDraft {
        id: None,
        content: content.into(),
        note: String::new(),
        tags: tags.iter().map(|t| t.to_string()).collect(),
    }
}

fn service(memos: &[(&str, &[&str])]) -> MemoService {
    let mut service = MemoService::open(Vec::new(), Vec::new()).unwrap();
    for (i, (content, tags)) in memos.iter().enumerate() {
        service.save(&draft(content, tags), NOW + i as i64).unwrap();
    }
    service
}

#[test]
fn tags_are_split_deduped_and_ordered() {
    assert_eq!(
        parse_tags(" 工作，工作、私活  笔记 ,, "),
        vec!["工作", "私活", "笔记"]
    );
    assert!(parse_tags("   ").is_empty());
}

#[test]
fn any_whitespace_parts_tags() {
    assert_eq!(parse_tags("甲\u{3000}乙"), ["甲", "乙"]);
    assert_eq!(parse_tags("甲\r\n乙\u{a0}丙\t丁"), ["甲", "乙", "丙", "丁"]);
}

#[test]
fn filters_by_tag_and_untagged() {
    let mut store = MemoStore::new();
    store.save(&draft("带标签的", &["工作"]), NOW).unwrap();
    store.save(&draft("没标签的", &[]), NOW).unwrap();

    let tagged = store.list(&TagFilter::Named("工作".into()), "").unwrap();
    assert_eq!(tagged.len(), 1);
    assert_eq!(tagged[0].tags, vec!["工作"]);

    let untagged = store.list(&TagFilter::Untagged, "").unwrap();
    assert_eq!(untagged.len(), 1);
    assert_eq!(untagged[0].content, "没标签的");
}

#[test]
fn keyword_matches_content_and_note() {
    let mut store = MemoStore::new();
    let mut with_note = draft("普通内容", &[]);
    with_note.note = "cloudflare 密钥".into();
    store.save(&with_note, NOW).unwrap();
    store.save(&draft("另一条", &[]), NOW).unwrap();

    assert_eq!(store.list(&TagFilter::All, "cloudflare").unwrap().len(), 1);
    assert_eq!(store.list(&TagFilter::All, "普通").unwrap().len(), 1);
}

#[test]
fn orphan_tags_are_cleaned_after_retag() {
    let mut store = MemoStore::new();
    let id = store.save(&draft("内容", &["旧标签"]), NOW).unwrap();

    let mut updated = draft("内容", &["新标签"]);
    updated.id = Some(id);
    store.save(&updated, NOW).unwrap();

    let (_, _, tags) = store.tag_summaries();
    assert_eq!(tags.len(), 1);
    assert_eq!(tags[0].name, "新标签");
}

#[test]
fn saved_memo_is_read_back_with_its_preview() {
    let mut store = MemoStore::new();
    let mut d = draft("第一行\n第二行", &["乙", "甲"]);
    d.note = "说明".into();
    let id = store.save(&d, NOW).unwrap();
    assert_eq!(id, 1);
    assert_eq!(store.content_of(id).unwrap(), "第一行\n第二行");
    assert_eq!(store.content_of(2).unwrap_err(), StoreError::NotFound);
    let memos = store.list(&TagFilter::All, "").unwrap();
    assert_eq!(memos[0].preview, "第一行…");
    assert_eq!(memos[0].note, "说明");
    assert_eq!(memos[0].tags, ["乙", "甲"]);
    assert_eq!(memos[0].updated_at, NOW);
}

#[test]
fn rewriting_keeps_the_day_of_birth() {
    let mut store = MemoStore::new();
    let id = store.save(&draft("旧", &[]), NOW).unwrap();
    store.save(&draft("另", &[]), NOW + 1).unwrap();
    let mut d = draft("新", &[]);
    d.id = Some(id);
    assert_eq!(store.save(&d, NOW + 5).unwrap(), id);
    assert_eq!(store.rows()[0].created_at, NOW);
    assert_eq!(store.rows()[0].updated_at, NOW + 5);
    let memos = store.list(&TagFilter::All, "").unwrap();
    assert_eq!(memos[0].content, "新");
    assert_eq!(memos[1].content, "另");
}

#[test]
fn memo_wildcards_are_literal() {
    let mut store = MemoStore::new();
    store.save(&draft("折扣 50%", &[]), NOW).unwrap();
    store.save(&draft("折扣 500", &[]), NOW).unwrap();
    assert_eq!(store.list(&TagFilter::All, "50%").unwrap().len(), 1);
    assert_eq!(store.list(&TagFilter::All, "5_").unwrap().len(), 0);
}

#[test]
fn too_long_memo_keyword_is_refused() {
    let mut store = MemoStore::new();
    let keyword = "a".repeat(60_000);
    assert!(store.list(&TagFilter::All, &keyword).unwrap().is_empty());
    store.save(&draft("折扣 500", &[]), NOW).unwrap();
    assert_eq!(
        store.list(&TagFilter::All, &keyword).unwrap_err(),
        StoreError::PatternTooLong
    );
    let tagged = TagFilter::Named("工作".to_string());
    assert!(store.list(&tagged, &keyword).unwrap().is_empty());
}

#[test]
fn damaged_memos_are_refused() {
    let row = MemoRow {
        id: 1,
        content: "甲".into(),
        note: String::new(),
        preview: "甲".into(),
        created_at: NOW,
        updated_at: NOW,
        tags: vec!["没有".into()],
    };
    assert_eq!(
        MemoStore::open(vec![row.clone()], Vec::new()).unwrap_err(),
        StoreError::Corrupt
    );
    assert!(MemoStore::open(vec![row], vec!["没有".into()]).is_ok());
}

#[test]
fn deleting_a_memo_drops_its_tags() {
    let mut service = service(&[("甲", &["一", "二"]), ("乙", &["二"])]);
    let (total, untagged, tags) = service.tag_summaries();
    assert_eq!((total, untagged, tags.len()), (2, 0, 2));
    service.delete(1);
    let (total, untagged, tags) = service.tag_summaries();
    assert_eq!((total, untagged), (1, 0));
    assert_eq!(tags.len(), 1);
    assert_eq!(tags[0].name, "二");
    assert_eq!(tags[0].count, 1);
}

#[test]
fn delivering_a_memo_opens_and_closes_the_window() {
    let service = service(&[("甲", &[])]);
    let mut window = SuppressWindow::new();
    let text = service.begin_delivery(&mut window, 1, NOW).unwrap();
    assert_eq!(text, "甲");
    assert!(window.covers(NOW));
    assert!(!window.covers(NOW + 500));
    assert_eq!(MemoService::finish_delivery(&mut window, true, Some(7)), Some(7));
    assert!(window.covers(NOW));
    assert_eq!(MemoService::finish_delivery(&mut window, false, Some(7)), None);
    assert!(!window.covers(NOW));
    assert_eq!(
        service.begin_delivery(&mut window, 9, NOW).unwrap_err(),
        StoreError::NotFound
    );
}

#[test]
fn memo_page_follows_tag_and_keyword() {
    let service = service(&[("甲", &["一"]), ("乙", &[]), ("丙", &["一"])]);
    let mut view = MemoView::new(&service);
    assert_eq!(view.total, 3);
    assert_eq!(view.untagged, 1);
    assert_eq!(view.items[0].content, "丙");
    view.move_selection(5);
    assert_eq!(view.selected, 2);
    view.set_keyword("乙".into(), &service);
    assert_eq!(view.items.len(), 1);
    assert_eq!(view.selected, 0);
    view.set_keyword(String::new(), &service);
    view.set_filter(TagFilter::Named("一".into()), &service);
    assert_eq!(view.items.len(), 2);
    let bar = view.sidebar();
    assert_eq!(bar.len(), 3);
    assert_eq!((bar[0].name.as_str(), bar[0].count, bar[0].active), ("全部", 3, false));
    assert_eq!((bar[1].name.as_str(), bar[1].count, bar[1].active), ("无标签", 1, false));
    assert_eq!((bar[2].name.as_str(), bar[2].count, bar[2].active), ("一", 2, true));
    assert_eq!(bar[2].filter, TagFilter::Named("一".into()));
    assert_eq!(bar[0].filter, TagFilter::default());
}

#[test]
fn memo_page_hands_over_the_memo_under_the_cursor() {
    let service = service(&[("甲", &[]), ("乙", &[])]);
    let mut view = MemoView::new(&service);
    assert_eq!(view.deliver_selected(true, Some(9)), Some((2, Some(9))));
    assert_eq!(view.deliver_selected(false, Some(9)), Some((2, None)));
    assert!(!view.click_row(1, 1));
    assert_eq!(view.selected_id(), Some(1));
    assert!(view.click_row(0, 2));
    assert_eq!(view.selected_id(), Some(2));
    assert!(!view.click_row(5, 2));
    let empty = MemoView::new(&MemoService::open(Vec::new(), Vec::new()).unwrap());
    assert_eq!(empty.deliver_selected(true, Some(9)), None);
}

#[test]
fn editor_starts_with_the_shown_tag_or_the_memo() {
    let service = service(&[("甲", &["一", "二"])]);
    let mut view = MemoView::new(&service);
    view.new_memo();
    assert_eq!(view.editor.as_ref().unwrap().tags, "");
    view.set_filter(TagFilter::Named("二".into()), &service);
    view.new_memo();
    assert_eq!(view.editor.as_ref().unwrap().tags, "二");
    assert_eq!(view.editor.as_ref().unwrap().id, None);
    view.edit_selected();
    let editor = view.editor.as_ref().unwrap();
    assert_eq!(editor.id, Some(1));
    assert_eq!(editor.content, "甲");
    assert_eq!(editor.tags, "一，二");
    assert_eq!(parse_tags(&editor.tags), ["一", "二"]);
}

#[test]
fn editor_stores_and_closes() {
    let mut service = service(&[]);
    let mut view = MemoView::new(&service);
    assert!(!view.save_editor(&mut service, "甲", "", "", NOW));
    view.new_memo();
    assert!(view.is_editing());
    assert!(!view.save_editor(&mut service, "   ", "", "", NOW));
    assert!(view.is_editing());
    assert!(view.save_editor(&mut service, " 甲 ", " 注 ", "一，二", NOW));
    assert!(!view.is_editing());
    assert_eq!(view.items[0].content, "甲");
    assert_eq!(view.items[0].note, "注");
    assert_eq!(view.items[0].tags, ["一", "二"]);
    view.delete_selected(&mut service);
    assert!(view.items.is_empty());
    assert!(service.rows().is_empty());
    assert!(service.names().is_empty());
}

#[test]
fn cursor_stays_in_place_after_editing_and_deleting() {
    let mut service = service(&[("甲", &[]), ("乙", &[]), ("丙", &[])]);
    let mut view = MemoView::new(&service);
    view.move_selection(2);
    view.new_memo();
    view.close_editor(&service);
    assert_eq!(view.selected, 2);
    view.new_memo();
    assert!(view.save_editor(&mut service, "丁", "", "", NOW));
    assert_eq!(view.selected, 2);
    view.move_selection(1);
    view.delete_selected(&mut service);
    assert_eq!(view.items.len(), 3);
    assert_eq!(view.selected, 2);
}

#[test]
fn drafts_need_content() {
    assert!(draft_from(None, " \n ", "注", "一").is_none());
    let d = draft_from(Some(3), " 甲 ", " 注 ", "一 一").unwrap();
    assert_eq!(d.id, Some(3));
    assert_eq!(d.content, "甲");
    assert_eq!(d.note, "注");
    assert_eq!(d.tags, ["一"]);
}

#[test]
fn memo_keys_depend_on_the_editor() {
    let service = service(&[("甲", &[])]);
    let mut view = MemoView::new(&service);
    assert_eq!(view.key_action("escape", false), MemoKey::Nothing);
    assert_eq!(view.key_action("up", false), MemoKey::Up);
    assert_eq!(view.key_action("down", false), MemoKey::Down);
    assert_eq!(view.key_action("n", true), MemoKey::NewMemo);
    assert_eq!(view.key_action("n", false), MemoKey::Nothing);
    assert_eq!(view.key_action("e", true), MemoKey::EditSelected);
    assert_eq!(view.key_action("s", true), MemoKey::Nothing);
    view.new_memo();
    assert_eq!(view.key_action("escape", false), MemoKey::CloseEditor);
    assert_eq!(view.key_action("s", true), MemoKey::SaveEditor);
    assert_eq!(view.key_action("s", false), MemoKey::Nothing);
    assert_eq!(view.key_action("up", false), MemoKey::Nothing);
    view.close_editor(&service);
    assert!(!view.is_editing());
}

#[test]
fn memo_footnotes_join_note_and_tags() {
    let mut service = service(&[]);
    let mut d = draft("内容", &[]);
    service.save(&d, NOW).unwrap();
    d.tags = vec!["一".into(), "二".into()];
    service.save(&d, NOW + 1).unwrap();
    d.note = "注".into();
    service.save(&d, NOW + 2).unwrap();
    d.tags = Vec::new();
    service.save(&d, NOW + 3).unwrap();
    let memos = service.list(&TagFilter::All, "");
    assert_eq!(footnote(&memos[0]), "注");
    assert_eq!(footnote(&memos[1]), "注 — 一 · 二");
    assert_eq!(footnote(&memos[2]), "一 · 二");
    assert_eq!(footnote(&memos[3]), "");
    assert_eq!(preview_footnote(&memos[0]), "注 · 共 2 字符");
    assert_eq!(preview_footnote(&memos[3]), "共 2 字符");
}
