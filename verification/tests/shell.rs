use wisp::assets::{list_assets, WispIcon};
use wisp::config::Config;
use wisp::data_dir::{
    contains_wisp_data, images_to_import, staging_name, DataDirectory, DistributionMode,
    MANAGED_FILES, PORTABLE_MARKER,
};
use wisp::home_view::{
    features_found, key_action, open_among, Feature, HomeKey, HomeView, OpenFeature,
};
use wisp::hotkey::{
    from_keystroke, label_keystroke, main_key_token, parse, registry_text, Keystroke, Rejection,
    DEFAULT_CANDIDATES, RESERVED,
};
use wisp::ico::{write_ico, IcoFrame, DETAILED_SIZES, SIMPLE_SIZES};
use wisp::paste::{
    capture_foreground, ctrl_v_strokes, modifier_keys, release_stuck_modifiers, KeyStroke,
    VK_CONTROL, VK_LWIN, VK_MENU, VK_SHIFT, VK_V,
};
use wisp::path::{extension, file_name, join_name, lies_in, path_parts, PathPart, PrefixKind};
use wisp::picture::{is_managed_image_path, picture_file};
use wisp::retry::{
    files_failure_message, image_failure_message, text_failure_message, Attempts, RETRY_PAUSE_MS,
};
use wisp::selection::{keep_cursor, move_cursor};
use wisp::settings_view::{tray_hidden, tray_setting, DefaultSearch, HotkeyAction, SettingsView};
use wisp::shell::{
    fallback_tray_pixels, handle_event, hotkey_event, menu_event, toggle_item_text, tray_event,
    tray_pixels, tray_tooltip, ShellAction, ShellEvent,
};
use wisp::theme::ThemePreference;
use wisp::watcher::{watcher_action, WatcherAction, WM_CLIPBOARDUPDATE, WM_DESTROY};
use wisp::wisp_view::{ActivationAction, Page, WindowAction, WispView};

fn stroke(mods: (bool, bool, bool, bool), key: &str) -> Keystroke {
    Keystroke {
        control: mods.0,
        alt: mods.1,
        shift: mods.2,
        platform: mods.3,
        key: key.into(),
    }
}

#[test]
fn keys_round_trip_and_unknown_falls_back() {
    let cases = [
        (ThemePreference::System, "system"),
        (ThemePreference::Light, "light"),
        (ThemePreference::Dark, "dark"),
    ];

    for (preference, key) in cases {
        assert_eq!(preference.key(), key);
        assert_eq!(ThemePreference::from_key(key), Some(preference));
    }

    for unknown in ["", "auto", "Dark", "系统"] {
        assert_eq!(ThemePreference::from_key(unknown), None);
    }
    assert_eq!(ThemePreference::default(), ThemePreference::System);
}

#[test]
fn cycling_visits_every_mode_and_returns() {
    let start = ThemePreference::System;
    let visited = [start, start.next(), start.next().next()];

    assert_eq!(
        visited,
        [
            ThemePreference::System,
            ThemePreference::Light,
            ThemePreference::Dark
        ]
    );
    assert_eq!(start.next().next().next(), start);
}

#[test]
fn stored_theme_is_taken_or_the_system_followed() {
    assert_eq!(ThemePreference::current(Some("dark")), ThemePreference::Dark);
    assert_eq!(ThemePreference::current(Some("auto")), ThemePreference::System);
    assert_eq!(ThemePreference::current(None), ThemePreference::System);
    assert!(WispView::follows_appearance(ThemePreference::System));
    assert!(!WispView::follows_appearance(ThemePreference::Light));
}

#[test]
fn default_candidates_all_parse() {
    for label in DEFAULT_CANDIDATES {
        assert!(parse(label).is_some(), "候选键 {label} 应可解析");
    }
}

#[test]
fn recorded_labels_round_trip() {
    let cases = [
        ((true, false, false, false), "a", "Ctrl+A"),
        ((false, true, false, false), "space", "Alt+Space"),
        ((true, true, false, false), "space", "Ctrl+Alt+Space"),
        ((false, true, false, false), "`", "Alt+`"),
        ((true, false, true, false), "q", "Ctrl+Shift+Q"),
        ((false, false, false, true), "v", "Win+V"),
        ((false, true, false, false), "f1", "Alt+F1"),
        ((true, false, false, false), "up", "Ctrl+Up"),
    ];

    for (mods, key, expected) in cases {
        let label = from_keystroke(&stroke(mods, key)).expect("应接受该组合");
        assert_eq!(label, expected);
        assert!(parse(&label).is_some(), "{label} 应可解析回 HotKey");
    }
}

#[test]
fn modifier_order_is_canonical() {
    let label = from_keystroke(&stroke((true, true, true, true), "k")).expect("应接受");
    assert_eq!(label, "Ctrl+Alt+Shift+Win+K");
}

#[test]
fn rejects_illegal_combinations() {
    let cases = [
        (
            ((false, false, false, false), "a"),
            Rejection::NeedsModifier,
        ),
        (((false, false, true, false), "a"), Rejection::NeedsModifier),
        (
            ((true, false, false, false), "control"),
            Rejection::ModifierOnly,
        ),
        (
            ((false, true, false, false), "alt"),
            Rejection::ModifierOnly,
        ),
        (((true, false, false, false), "1"), Rejection::Reserved),
        (((false, true, false, false), "5"), Rejection::Reserved),
        (((true, false, false, false), "s"), Rejection::Reserved),
    ];

    for ((mods, key), expected) in cases {
        assert_eq!(
            from_keystroke(&stroke(mods, key)),
            Err(expected),
            "键 {key}"
        );
    }
}

#[test]
fn reserved_entries_are_wellformed() {
    for label in RESERVED {
        assert!(parse(label).is_some(), "保留键 {label} 应可解析");
    }
}

#[test]
fn hotkeys_stand_for_their_keys() {
    let hotkey = parse("Ctrl+Alt+A").unwrap();
    assert_eq!(hotkey.key, "KeyA");
    assert_eq!(hotkey.modifiers, 0x8 | 0x1);
    let win = parse("Win+V").unwrap();
    assert_eq!(win.key, "KeyV");
    assert_eq!(win.modifiers, 0x2000);
    assert_eq!(registry_text("Ctrl+Win+V"), "Ctrl+Super+V");
    assert!(parse("Ctrl+").is_none());
    assert!(parse("A+Ctrl").is_none());
}

#[test]
fn unknown_keys_are_unsupported() {
    let odd = stroke((true, false, false, false), "ü");
    assert_eq!(label_keystroke(&odd), Ok("Ctrl+Ü".to_string()));
    assert_eq!(from_keystroke(&odd), Err(Rejection::Unsupported));
    assert_eq!(main_key_token("pageup"), "Pageup");
    assert_eq!(main_key_token(""), "");
    assert_eq!(Rejection::Unsupported.message(), "不支持该按键");
    assert_eq!(Rejection::Reserved.message(), "该组合已被页内快捷键占用");
}

#[test]
fn values_round_trip_through_config_file() {
    let mut config = Config::load("");
    config.set("theme", "dark");
    let text = config.set("last_page", "clipboard");

    let reloaded = Config::load(&text);
    assert_eq!(reloaded.get("theme"), Some("dark"));
    assert_eq!(reloaded.get("last_page"), Some("clipboard"));
    assert_eq!(reloaded.get("absent"), None);
}

#[test]
fn settings_are_written_sorted_and_read_leniently() {
    let mut config = Config::new();
    config.set("theme", "dark");
    assert_eq!(config.set("hotkey", "Alt+Space"), "hotkey=Alt+Space\ntheme=dark\n");
    assert_eq!(config.set("theme", "light"), "hotkey=Alt+Space\ntheme=light\n");
    let read = Config::load("# no setting\r\n a = 1 = 2 \r\na=3\n=x\n");
    assert_eq!(read.get("a"), Some("3"));
    assert_eq!(read.get(""), Some("x"));
    assert_eq!(Config::load("k = v=w").get("k"), Some("v=w"));
}

#[test]
fn marker_selects_portable_data_beside_the_executable() {
    let data = DataDirectory::from_paths(Some(r"C:\bin"), r"C:\local", true).unwrap();

    assert_eq!(data.mode(), DistributionMode::Portable);
    assert_eq!(data.database_path(), r"C:\bin\data\wisp.db");
    assert_eq!(data.root(), r"C:\bin\data");
    assert_eq!(data.mode().name(), "便携版");
    assert_eq!(PORTABLE_MARKER, "portable.flag");
}

#[test]
fn missing_marker_keeps_installed_data_in_local_app_data() {
    let data = DataDirectory::from_paths(Some(r"C:\bin"), r"C:\local", false).unwrap();

    assert_eq!(data.mode(), DistributionMode::Installed);
    assert_eq!(data.database_path(), r"C:\local\Wisp\wisp.db");
    assert_eq!(data.installed_root(), r"C:\local\Wisp");
    assert_eq!(data.mode().name(), "安装版");
    assert_eq!(
        DataDirectory::from_paths(None, r"C:\local", false).unwrap_err(),
        "Wisp 程序路径缺少父目录"
    );
}

#[test]
fn portable_import_copies_only_managed_data_and_png_images() {
    let data = DataDirectory::from_paths(Some(r"C:\bin"), r"C:\local", true).unwrap();
    let present = vec![true, false, true];
    assert!(contains_wisp_data(&present, 2));
    assert!(data.should_offer_installed_data_import(false, true));
    assert!(!data.should_offer_installed_data_import(true, true));
    assert!(!data.should_offer_installed_data_import(false, false));
    assert_eq!(MANAGED_FILES, ["wisp.db", "wisp.db-wal", "wisp.cfg"]);
    let names: Vec<String> = ["clip.png", "ignore.txt", "A.PNG"].map(String::from).to_vec();
    assert_eq!(images_to_import(&names), ["clip.png", "A.PNG"]);
    assert!(!contains_wisp_data(&vec![false, false, false], 0));
    assert!(contains_wisp_data(&vec![false, false, false], 1));
    assert_eq!(staging_name(7, 42), ".data.importing-7-42");
}

#[test]
fn paths_have_parts_names_and_parents() {
    assert_eq!(file_name(r"C:\a\b.txt").unwrap(), "b.txt");
    assert_eq!(file_name(r"C:\a\").unwrap(), "a");
    assert!(file_name(r"C:\").is_none());
    assert!(file_name(r"C:\a\..").is_none());
    assert_eq!(extension("a.tar.GZ").unwrap(), "GZ");
    assert!(extension(".png").is_none());
    assert!(extension("a").is_none());
    assert_eq!(join_name(r"C:\a", "b"), r"C:\a\b");
    assert_eq!(join_name(r"C:\a\", "b"), r"C:\a\b");
    assert!(lies_in(r"C:\a", r"C:\a\b"));
    assert!(lies_in(r"C:\a", r"c:/a/./b"));
    assert!(!lies_in(r"C:\a", r"C:\a\b\c"));
    let parts = path_parts(r"\\server\share\x");
    assert!(matches!(&parts[0], PathPart::Prefix(PrefixKind::Unc, a, b) if a == "server" && b == "share"));
    assert!(matches!(&parts[1], PathPart::Root));
    assert!(matches!(&parts[2], PathPart::Name(n) if n == "x"));
}

#[test]
fn names_are_put_behind_every_sort_of_directory() {
    assert_eq!(join_name("", "b"), "b");
    assert_eq!(join_name("C:", "b"), "C:b");
    assert_eq!(join_name(r"\\server\share", "b"), r"\\server\share\b");
    assert_eq!(join_name(r"\\?\C:\x/", "Wisp"), r"\\?\C:\x/\Wisp");
    assert_eq!(join_name(r"\\?\C:\x\\y\", "Wisp"), r"\\?\C:\x\y\Wisp");
    assert_eq!(join_name(r"\\?\C:\x\.\..", "Wisp"), r"\\?\C:\x\.\..\Wisp");
    assert_eq!(join_name(r"\\?\C:", "Wisp"), r"\\?\C:\Wisp");
    assert_eq!(join_name(r"\\?\UNC\s\h\", "Wisp"), r"\\?\UNC\s\h\Wisp");
    for dir in [
        "",
        "C:",
        r"C:\a",
        r"a\b\",
        ".",
        r"\a",
        r"\\server\share",
        r"\\server\share\a",
        r"\\.\COM1",
        r"\\?\C:\",
        r"\\?\C:/a",
        r"\\?\C:\a/b",
        r"\\?\UNC\server\share\a",
        r"\\?\name\a",
    ] {
        let file = join_name(dir, "00ff.png");
        assert!(lies_in(dir, &file), "{file}");
        assert_eq!(file_name(&file).unwrap(), "00ff.png");
        assert!(is_managed_image_path(dir, &file));
    }
    assert!(!lies_in(r"\\server", &join_name(r"\\server", "a")));
    assert_eq!(file_name(r"\\?\C:/x").unwrap(), "x");
}

#[test]
fn attempts_pause_before_repeating() {
    let mut attempts = Attempts::new(3);
    assert_eq!(attempts.begin(), Some(0));
    assert_eq!(attempts.begin(), Some(RETRY_PAUSE_MS));
    assert_eq!(attempts.begin(), Some(RETRY_PAUSE_MS));
    assert_eq!(attempts.begin(), None);
    assert_eq!(
        text_failure_message(5, Some("占用")),
        "写入系统剪贴板失败（已重试 5 次）: 占用"
    );
    assert_eq!(
        text_failure_message(0, None),
        "写入系统剪贴板失败（已重试 0 次）: 未知错误"
    );
    assert_eq!(
        files_failure_message(Some(1418)),
        "写入文件列表到剪贴板失败（已重试 5 次，最后错误码 1418）"
    );
    assert_eq!(
        image_failure_message(None),
        "写入图像到剪贴板失败（已重试 5 次，最后错误码 0）"
    );
}

#[test]
fn paste_goes_to_the_window_in_front() {
    assert_eq!(capture_foreground(7, Some(8)), Some(7));
    assert_eq!(capture_foreground(7, None), Some(7));
    assert_eq!(capture_foreground(7, Some(7)), None);
    assert_eq!(capture_foreground(0, Some(7)), None);
}

#[test]
fn held_modifiers_are_released_before_the_paste() {
    assert_eq!(modifier_keys()[..3], [VK_MENU, VK_SHIFT, VK_LWIN]);
    let up = release_stuck_modifiers(&vec![-1, 0, i16::MIN, 1]);
    assert_eq!(
        up,
        [
            KeyStroke { key: VK_MENU, up: true },
            KeyStroke { key: VK_LWIN, up: true }
        ]
    );
    let (down, release) = ctrl_v_strokes();
    assert_eq!(
        down,
        [
            KeyStroke { key: VK_CONTROL, up: false },
            KeyStroke { key: VK_V, up: false }
        ]
    );
    assert_eq!(
        release,
        [
            KeyStroke { key: VK_V, up: true },
            KeyStroke { key: VK_CONTROL, up: true }
        ]
    );
}

#[test]
fn listening_window_reacts_to_its_messages() {
    assert_eq!(watcher_action(WM_CLIPBOARDUPDATE), WatcherAction::Notify);
    assert_eq!(watcher_action(WM_DESTROY), WatcherAction::Quit);
    assert_eq!(watcher_action(0x000f), WatcherAction::PassOn);
}

#[test]
fn events_show_and_hide_the_window() {
    assert_eq!(menu_event("toggle"), Some(ShellEvent::Toggle));
    assert_eq!(menu_event("quit"), Some(ShellEvent::Quit));
    assert_eq!(menu_event("x"), None);
    assert_eq!(hotkey_event(true), Some(ShellEvent::Toggle));
    assert_eq!(hotkey_event(false), None);
    assert_eq!(tray_event(true), Some(ShellEvent::Show));
    assert_eq!(tray_event(false), None);
    assert_eq!(handle_event(ShellEvent::Toggle, true), ShellAction::Hide);
    assert_eq!(handle_event(ShellEvent::Toggle, false), ShellAction::Show);
    assert_eq!(handle_event(ShellEvent::Show, true), ShellAction::Show);
    assert_eq!(handle_event(ShellEvent::ClipsChanged, true), ShellAction::Reload);
    assert_eq!(handle_event(ShellEvent::Quit, false), ShellAction::Quit);
    assert_eq!(toggle_item_text("Alt+Space"), "显示 / 隐藏（Alt+Space）");
    assert_eq!(tray_tooltip("Alt+Space"), "Wisp — Alt+Space 唤起");
}

#[test]
fn tray_picture_is_a_disc() {
    let pixels = fallback_tray_pixels();
    assert_eq!(pixels.len(), 4096);
    assert_eq!(pixels[..4], [0, 0, 0, 0]);
    let middle = (16 * 32 + 16) * 4;
    assert_eq!(pixels[middle..middle + 4], [0x6c, 0x5c, 0xe7, 0xff]);
}

#[test]
fn tray_icon_is_read_from_its_file() {
    let rgba = vec![1, 2, 3, 255, 4, 5, 6, 0];
    let file = picture_file(r"C:\i", 1, 2, &rgba).unwrap();
    assert_eq!(tray_pixels(&file.png), Some((1, 2, rgba)));
    assert_eq!(tray_pixels(b"no picture"), None);
}

#[test]
fn features_are_found_by_their_whole_name() {
    let mut home = HomeView::new();
    for feature in Feature::ALL {
        home.set_keyword(feature.name().to_string());
        assert_eq!(home.filtered(), [feature]);
    }
    home.set_keyword("ip 工".to_string());
    assert_eq!(home.filtered(), [Feature::Ip]);
    assert_eq!(features_found("ip 工具"), [Feature::Ip]);
}

#[test]
fn arrows_move_the_cursor_at_home() {
    assert_eq!(key_action("up"), HomeKey::Up);
    assert_eq!(key_action("down"), HomeKey::Down);
    assert_eq!(key_action("enter"), HomeKey::Nothing);
}

#[test]
fn pages_are_remembered_but_the_settings_are_not() {
    for page in [Page::Home, Page::Clipboard, Page::Memo, Page::Ip] {
        assert_eq!(Page::from_key(page.key()), Some(page));
        assert_eq!(WispView::new(Some(page.key())).page, page);
    }
    assert_eq!(Page::from_key("settings"), None);
    assert_eq!(WispView::new(Some("settings")).page, Page::Home);
    assert_eq!(WispView::new(None).page, Page::Home);
    let mut view = WispView::new(None);
    assert_eq!(view.open_page(Page::Memo).remember, Some("memo"));
    let change = view.open_page(Page::Settings);
    assert_eq!(change.remember, None);
    assert!(!change.cancel_recording);
    assert!(!view.page_reloads());
    assert!(view.open_page(Page::Clipboard).cancel_recording);
    assert!(view.shows_clips());
    assert_eq!(Page::Memo.title(), "备忘快贴");
    assert_eq!(Page::of_feature(OpenFeature::Ip), Page::Ip);
}

#[test]
fn window_keys_open_pages_and_lead_out() {
    let mut view = WispView::new(Some("memo"));
    assert_eq!(view.key_action(true, "1"), WindowAction::Open(Page::Clipboard));
    assert_eq!(view.key_action(true, "2"), WindowAction::Open(Page::Memo));
    assert_eq!(view.key_action(true, "3"), WindowAction::Open(Page::Ip));
    assert_eq!(view.key_action(true, ","), WindowAction::Open(Page::Settings));
    assert_eq!(view.key_action(true, "escape"), WindowAction::Nothing);
    assert_eq!(view.key_action(false, "escape"), WindowAction::Open(Page::Home));
    view.open_page(Page::Home);
    assert_eq!(view.key_action(false, "escape"), WindowAction::Hide);
    assert_eq!(view.activation_changed(true), ActivationAction::Refresh);
    assert_eq!(view.activation_changed(false), ActivationAction::Hide);
    view.toggle_auto_hide();
    assert_eq!(view.activation_changed(false), ActivationAction::Nothing);
}

#[test]
fn features_are_found_by_name_and_alias() {
    let mut home = HomeView::new();
    assert_eq!(home.filtered(), Feature::ALL);
    home.set_keyword(" CLIP ".to_string());
    assert_eq!(home.filtered(), [Feature::Clipboard]);
    assert_eq!(home.open_selected(), Some(OpenFeature::Clipboard));
    home.set_keyword("备忘".to_string());
    assert_eq!(home.open_selected(), Some(OpenFeature::Memo));
    home.set_keyword("wl".to_string());
    assert_eq!(home.filtered(), [Feature::Ip]);
    assert_eq!(home.open_selected(), None);
    home.set_keyword("nothing".to_string());
    assert_eq!(home.open_selected(), None);
    home.set_keyword(String::new());
    home.move_selection(1);
    assert_eq!(home.open_selected(), Some(OpenFeature::Memo));
    home.move_selection(9);
    assert_eq!(home.selected, 2);
    home.reload();
    assert_eq!(home.selected, 0);
    assert_eq!(features_found("jt"), [Feature::Clipboard]);
    assert_eq!(
        open_among(&vec![Feature::Memo], 5),
        Some(OpenFeature::Memo)
    );
    assert_eq!(Feature::Ip.shortcut(), "规划中");
    assert_eq!(Feature::Memo.tint(), 0x7f77dd);
}

#[test]
fn cursors_stay_within_their_list() {
    assert_eq!(move_cursor(3, -1, 10), 2);
    assert_eq!(move_cursor(0, -1, 10), 0);
    assert_eq!(move_cursor(9, 1, 10), 9);
    assert_eq!(move_cursor(4, 1, 0), 4);
    assert_eq!(keep_cursor(5, 3), 2);
    assert_eq!(keep_cursor(5, 0), 0);
}

#[test]
fn recording_suspends_and_restores_the_hotkey() {
    let mut settings = SettingsView::new();
    assert!(matches!(settings.cancel_recording(), HotkeyAction::Nothing));
    assert!(matches!(settings.start_recording(), HotkeyAction::Suspend));
    assert!(matches!(settings.start_recording(), HotkeyAction::Nothing));
    let bare = stroke((false, false, false, false), "a");
    assert!(matches!(settings.capture_keystroke(&bare), HotkeyAction::Nothing));
    assert_eq!(settings.error.as_deref(), Some("需带 Ctrl / Alt / Win 修饰键"));
    let modifier = stroke((true, false, false, false), "control");
    assert!(matches!(settings.capture_keystroke(&modifier), HotkeyAction::Nothing));
    let good = stroke((true, false, false, false), "k");
    match settings.capture_keystroke(&good) {
        HotkeyAction::Rebind(label) => assert_eq!(label, "Ctrl+K"),
        _ => panic!("expected a new hotkey"),
    }
    assert!(!settings.recording);
    settings.rebound(Some("占用".to_string()));
    assert_eq!(settings.error.as_deref(), Some("占用"));
    settings.start_recording();
    let escape = stroke((false, false, false, false), "escape");
    assert!(matches!(settings.capture_keystroke(&escape), HotkeyAction::Resume));
}

#[test]
fn defaults_are_tried_one_after_the_other() {
    let mut search = DefaultSearch::new();
    for label in DEFAULT_CANDIDATES {
        assert_eq!(search.label(), Some(label));
        search.fail(format!("{label} 占用"));
    }
    assert_eq!(search.label(), None);
    assert_eq!(search.last_error.as_deref(), Some("Alt+` 占用"));
    let mut search = DefaultSearch::new();
    search.fail("占用".to_string());
    assert_eq!(search.label(), Some("Ctrl+Alt+Space"));
    search.succeed();
    assert_eq!(search.label(), None);
    assert_eq!(search.last_error, None);
    assert!(tray_hidden(Some(tray_setting(true))));
    assert!(!tray_hidden(Some(tray_setting(false))));
    assert!(!tray_hidden(None));
}

#[test]
fn own_icons_are_listed_below_their_prefix() {
    for icon in WispIcon::ALL {
        assert_eq!(WispIcon::at(icon.path()), Some(icon));
    }
    assert_eq!(WispIcon::at("icons/none.svg"), None);
    let listed = list_assets(vec!["icons/base.svg".to_string()], "icons/pin");
    assert_eq!(listed, ["icons/base.svg", "icons/pin.svg", "icons/pin-off.svg"]);
}

#[test]
fn icon_files_hold_their_pictures() {
    assert_eq!(DETAILED_SIZES, [256, 128, 64, 48]);
    assert_eq!(SIMPLE_SIZES, [32, 24, 16]);
    let frames = vec![
        IcoFrame { size: 256, png: vec![1, 2, 3] },
        IcoFrame { size: 16, png: vec![4] },
    ];
    let bytes = write_ico(&frames);
    assert_eq!(bytes[..6], [0, 0, 1, 0, 2, 0]);
    assert_eq!(bytes[6..22], [0, 0, 0, 0, 1, 0, 32, 0, 3, 0, 0, 0, 38, 0, 0, 0]);
    assert_eq!(bytes[22..38], [16, 16, 0, 0, 1, 0, 32, 0, 1, 0, 0, 0, 41, 0, 0, 0]);
    assert_eq!(bytes[38..], [1, 2, 3, 4]);
}
