use wisp::clip::{ClipFilter, ClipKind};
use wisp::clipboard_view::{
    file_names, files_footnote, preview_cache_full, relative_time, tooltip_lines, tooltip_preview,
    ClipKey, ClipboardView,
};
use wisp::picture::{picture_file, thumbnail};
use wisp::service::{
    shown_file_name, ClipboardService, CopyJob, Probe, SuppressWindow, MAX_FILE_COUNT,
    MAX_TEXT_BYTES, SUPPRESS_WINDOW_MS,
};
use wisp::store::{StoreError, RETENTION_MS};

const NOW: i64 = 1_700_000_000_000;
const DIR: &str = r"C:\Wisp\data\images";

fn service(texts: &[&str]) -> ClipboardService {
    let mut service = ClipboardService::start(Vec::new(), DIR.to_string(), NOW).unwrap();
    for (i, text) in texts.iter().enumerate() {
        assert!(service.receive_text(text, NOW + i as i64));
    }
    service
}

fn shown(view: &ClipboardView) -> Vec<&str> {
    view.items.iter().map(|clip| clip.content.as_str()).collect()
}

#[test]
fn blank_and_overlong_texts_are_not_kept() {
    let mut service = service(&[]);
    assert!(!service.receive_text(" \n\t", NOW));
    assert!(!service.receive_text(&"x".repeat(MAX_TEXT_BYTES + 1), NOW));
    assert!(service.receive_text(&"x".repeat(MAX_TEXT_BYTES), NOW));
    assert!(service.receive_text("甲", NOW));
    assert_eq!(service.rows().len(), 2);
}

#[test]
fn start_cleans_once_and_refuses_damaged_rows() {
    let mut rows = service(&["旧"]).rows().clone();
    rows[0].created_at = NOW - RETENTION_MS - 1;
    let again = ClipboardService::start(rows.clone(), DIR.to_string(), NOW).unwrap();
    assert!(again.rows().is_empty());
    rows.push(rows[0].clone());
    assert_eq!(
        ClipboardService::start(rows, DIR.to_string(), NOW).unwrap_err(),
        StoreError::Corrupt
    );
}

#[test]
fn pictures_are_kept_with_their_thumbnail() {
    let mut service = service(&[]);
    let rgba = vec![1, 2, 3, 255];
    let file = picture_file(DIR, 1, 1, &rgba).unwrap();
    let path = file.path.clone();
    let thumb = thumbnail(1, 1, &rgba).unwrap();
    assert!(service.receive_image(file, thumb.clone(), NOW));
    let clips = service.query(ClipFilter::Image, "", 10);
    assert_eq!(clips[0].content, path);
    assert_eq!(clips[0].thumb, Some(thumb));
    assert_eq!(service.image_file_names().len(), 1);
    assert!(path.ends_with(&service.image_file_names()[0]));
    let (count, files) = service.clear_unpinned();
    assert_eq!(count, 1);
    assert_eq!(files, [path]);
}

#[test]
fn file_lists_are_kept_with_a_summary() {
    let mut service = service(&[]);
    assert!(!service.receive_files(&Vec::new(), NOW));
    let many: Vec<String> = (0..=MAX_FILE_COUNT).map(|i| format!("C:\\{i}")).collect();
    assert!(!service.receive_files(&many, NOW));
    assert!(service.receive_files(&many[..MAX_FILE_COUNT].to_vec(), NOW));
    assert!(service.receive_files(&vec![r"C:\a\b.txt".to_string()], NOW + 1));
    assert!(service.receive_files(
        &vec![r"C:\a\b.txt".to_string(), r"C:\c.txt".to_string()],
        NOW + 2
    ));
    assert!(service.receive_files(&vec![r"C:\".to_string()], NOW + 3));
    let clips = service.query(ClipFilter::Files, "", 10);
    assert_eq!(clips[0].preview, r"C:\");
    assert_eq!(clips[1].preview, "b.txt 等 2 个文件");
    assert_eq!(clips[1].content, "C:\\a\\b.txt\nC:\\c.txt");
    assert_eq!(clips[2].preview, "b.txt");
    assert_eq!(clips[3].preview, "0 等 100 个文件");
    assert_eq!(shown_file_name(r"C:\x\y"), "y");
}

#[test]
fn formats_are_looked_for_in_order() {
    assert_eq!(Probe::Text.next(), Some(Probe::Image));
    assert_eq!(Probe::Image.next(), Some(Probe::Files));
    assert_eq!(Probe::Files.next(), None);
}

#[test]
fn copying_hides_our_own_write_and_moves_the_entry_up() {
    let mut service = service(&["甲", "乙"]);
    let mut window = SuppressWindow::new();
    let at = NOW + 100;
    match service.begin_copy(&mut window, 1, at).unwrap() {
        CopyJob::Text(text) => assert_eq!(text, "甲"),
        _ => panic!("expected a text"),
    }
    assert!(window.covers(at + SUPPRESS_WINDOW_MS - 1));
    assert!(!window.covers(at + SUPPRESS_WINDOW_MS));
    service.finish_copy(&mut window, 1, true, at);
    assert_eq!(service.query(ClipFilter::All, "", 10)[0].content, "甲");
    assert!(window.covers(at));
}

#[test]
fn failed_copies_close_the_window() {
    let mut service = service(&["甲", "乙"]);
    let mut window = SuppressWindow::new();
    service.begin_copy(&mut window, 1, NOW + 100).unwrap();
    service.finish_copy(&mut window, 1, false, NOW + 100);
    assert!(!window.covers(NOW + 100));
    assert_eq!(service.query(ClipFilter::All, "", 10)[0].content, "乙");
    assert_eq!(
        service.begin_copy(&mut window, 9, NOW).unwrap_err(),
        StoreError::NotFound
    );
    assert!(!window.covers(NOW));
}

#[test]
fn copied_files_are_the_ones_received() {
    let mut service = service(&[]);
    let paths = vec![r"C:\a.txt".to_string(), r"C:\b.txt".to_string()];
    service.receive_files(&paths, NOW);
    let mut window = SuppressWindow::new();
    match service.begin_copy(&mut window, 1, NOW).unwrap() {
        CopyJob::Files(files) => assert_eq!(files, paths),
        _ => panic!("expected files"),
    }
}

#[test]
fn page_lists_filters_and_searches() {
    let mut service = service(&["甲", "乙", "丙"]);
    service.toggle_pin(1);
    let mut view = ClipboardView::new(&service);
    assert_eq!(shown(&view), ["甲", "丙", "乙"]);
    assert_eq!(view.unpinned_count, 2);
    view.set_filter(ClipFilter::Pinned, &service);
    assert_eq!(shown(&view), ["甲"]);
    view.set_filter(ClipFilter::All, &service);
    view.set_keyword("乙".to_string(), &service);
    assert_eq!(shown(&view), ["乙"]);
    assert_eq!(view.selected_id(), Some(2));
    assert_eq!(view.deliver_selected(true, Some(5)), Some((2, Some(5))));
    assert_eq!(view.deliver_selected(false, Some(5)), Some((2, None)));
    view.set_keyword("没有".to_string(), &service);
    assert_eq!(view.deliver_selected(true, Some(5)), None);
}

#[test]
fn clicks_choose_and_double_clicks_hand_over() {
    let mut service = service(&["甲", "乙", "丙"]);
    let mut view = ClipboardView::new(&service);
    assert_eq!(view.click_row(2, 1), None);
    assert_eq!(view.selected, 2);
    assert_eq!(view.selection, [1]);
    assert!(!view.is_batch());
    assert_eq!(view.click_row(0, 1), None);
    assert_eq!(view.selection, [1, 3]);
    assert!(view.is_batch());
    assert_eq!(view.click_row(2, 1), None);
    assert_eq!(view.selection, [3]);
    assert_eq!(view.click_row(1, 2), Some(2));
    assert_eq!(view.click_row(9, 2), None);
    assert_eq!(view.key_action("escape", false, false), ClipKey::ClearSelection);
    view.clear_selection();
    assert_eq!(view.key_action("escape", false, false), ClipKey::Nothing);
    view.click_select(0);
    view.click_select(1);
    view.delete_selected_batch(&mut service);
    assert_eq!(shown(&view), ["甲"]);
    assert!(view.selection.is_empty());
}

#[test]
fn page_keys_ask_for_their_actions() {
    let service = service(&["甲"]);
    let view = ClipboardView::new(&service);
    assert_eq!(view.key_action("up", false, false), ClipKey::Up);
    assert_eq!(view.key_action("down", false, false), ClipKey::Down);
    assert_eq!(view.key_action("p", true, false), ClipKey::TogglePin);
    assert_eq!(view.key_action("p", false, false), ClipKey::Nothing);
    assert_eq!(view.key_action("1", false, true), ClipKey::Filter(ClipFilter::All));
    assert_eq!(view.key_action("5", false, true), ClipKey::Filter(ClipFilter::Pinned));
    assert_eq!(view.key_action("6", false, true), ClipKey::Nothing);
    assert_eq!(view.key_action("0", false, true), ClipKey::Nothing);
    assert_eq!(view.key_action("5", false, false), ClipKey::Nothing);
}

#[test]
fn pinning_from_the_page_keeps_the_cursor_in_place() {
    let mut service = service(&["甲", "乙", "丙"]);
    let mut view = ClipboardView::new(&service);
    view.move_selection(1);
    view.open_menu(2);
    view.toggle_pin_selected(&mut service);
    assert_eq!(shown(&view), ["乙", "丙", "甲"]);
    assert_eq!(view.selected, 1);
    assert_eq!(view.unpinned_count, 2);
    assert_eq!(view.context_menu_row, None);
    view.toggle_pin(2, &mut service);
    assert_eq!(shown(&view), ["丙", "乙", "甲"]);
    assert_eq!(view.selected, 0);
    view.delete(3, &mut service);
    assert_eq!(shown(&view), ["乙", "甲"]);
    view.move_selection(-4);
    assert_eq!(view.selected, 0);
    view.move_selection(9);
    assert_eq!(view.selected, 1);
}

#[test]
fn dropped_pins_go_in_front() {
    let mut service = service(&["甲", "乙"]);
    service.toggle_pin(1);
    service.toggle_pin(2);
    let mut view = ClipboardView::new(&service);
    assert_eq!(shown(&view), ["乙", "甲"]);
    view.drop_pinned(1, 2, &mut service);
    assert_eq!(shown(&view), ["甲", "乙"]);
    view.drop_pinned(1, 1, &mut service);
    assert_eq!(shown(&view), ["甲", "乙"]);
}

#[test]
fn clearing_asks_first() {
    let mut service = service(&["甲", "乙"]);
    service.toggle_pin(1);
    assert_eq!(
        ClipboardView::clear_prompt(&service).unwrap(),
        "将删除 1 条未收藏记录，收藏内容会保留。此操作无法撤销。"
    );
    let mut view = ClipboardView::new(&service);
    assert!(view.clear_history(&mut service).is_empty());
    assert_eq!(shown(&view), ["甲"]);
    assert!(ClipboardView::clear_prompt(&service).is_none());
}

#[test]
fn menus_hide_the_preview_of_their_row() {
    let service = service(&["甲"]);
    let mut view = ClipboardView::new(&service);
    view.open_menu(1);
    assert_eq!(view.context_menu_row, Some(1));
    assert!(!view.leave_row(2));
    assert!(view.leave_row(1));
    assert_eq!(view.context_menu_row, None);
}

#[test]
fn previews_are_cut_and_kept_line_by_line() {
    assert_eq!(tooltip_preview("甲\n\n乙", 4), "甲\n\n乙");
    assert_eq!(tooltip_lines("甲\n\n乙"), ["甲", " ", "乙"]);
    let long = "x".repeat(501);
    assert_eq!(tooltip_preview(&long, 501), format!("{}…", "x".repeat(500)));
    assert_eq!(tooltip_preview(&long[..500], 500), long[..500]);
    assert_eq!(file_names("C:\\a\\b.txt\nC:\\"), ["b.txt", "C:\\"]);
    assert_eq!(files_footnote(12), "12 个文件");
    assert_eq!(files_footnote(13), "共 13 个文件");
    assert!(!preview_cache_full(11));
    assert!(preview_cache_full(12));
}

#[test]
fn ages_are_told_in_minutes_hours_and_days() {
    let minute = 60_000;
    assert_eq!(relative_time(NOW, NOW + 5 * minute), "刚刚");
    assert_eq!(relative_time(NOW, NOW - minute + 1), "刚刚");
    assert_eq!(relative_time(NOW, NOW - minute), "1 分钟前");
    assert_eq!(relative_time(NOW, NOW - 59 * minute), "59 分钟前");
    assert_eq!(relative_time(NOW, NOW - 60 * minute), "1 小时前");
    assert_eq!(relative_time(NOW, NOW - 1439 * minute), "23 小时前");
    assert_eq!(relative_time(NOW, NOW - 1440 * minute), "1 天前");
    assert_eq!(service(&["甲"]).query(ClipFilter::All, "", 1)[0].kind, ClipKind::Text);
}
