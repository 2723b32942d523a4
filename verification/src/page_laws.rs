//! What the pages show and what their keys do.

use crate::clip::ClipFilter;
use crate::clipboard_view::{
    age_text, clip_key, file_names_shown, key_number, minutes_since, preview_lines, preview_text,
    ClipKey, ClipboardView,
};
use crate::history_laws::{
    belongs, limits_cut_at_the_end, no_keyword_shows_the_category, search_looks_through_the_content,
    shows_id,
};
use crate::home_view::{
    chosen, chosen_target, feature_matches, feature_name, features_for, home_key, lowercased,
    searched_name, Feature, HomeKey, HomeView, OpenFeature,
};
use crate::ip_addr::{all_digits, digit_value, number_of};
use crate::memo_view::{memo_key, MemoKey};
use crate::order::{lemma_survivors, survivors};
use crate::path::file_name_of;
use crate::selection::{kept_within, moved};
use crate::shell::{shell_action, tray_byte, ShellAction, ShellEvent};
use crate::store::{clip_models, pattern_too_long, well_formed, RowModel};
use crate::text::{decimal, lines};
use crate::text_laws::{
    all_blank, as_many_are_kept_as_fit, how_many, lemma_how_many_same, solid, stands_in,
    texts_hold_what_is_written_in_them, trimming_removes_the_blanks_around, written_in,
};
use crate::theme::{theme_after, theme_key, theme_name, theme_of_key, ThemePreference};
use crate::watcher::{action_for, WatcherAction};
use crate::wisp_view::{page_key, page_of_key, page_title, window_action, Page, WindowAction};
use vstd::prelude::*;

verus! {

// ---------------------------------------------------------------- the history

/// The page shows the history: with a keyword exactly the entries of the chosen
/// category whose content holds it, without one the whole category, up to 500 of
/// them; and it counts the entries that are not pinned.
pub proof fn the_page_shows_the_history(view: ClipboardView, rows: Seq<RowModel>, k: int)
    requires
        view.shows(rows),
        well_formed(rows),
        solid(view.keyword@) || all_blank(view.keyword@),
        !pattern_too_long(view.keyword@),
        0 <= k < rows.len(),
    ensures
        view.items@.len() <= 500,
        rows.len() <= 500 && solid(view.keyword@) ==> (shows_id(
            clip_models(view.items@),
            rows[k].id,
        ) <==> belongs(view.filter, rows[k]) && stands_in(rows[k].content, view.keyword@)),
        rows.len() <= 500 && all_blank(view.keyword@) ==> (shows_id(
            clip_models(view.items@),
            rows[k].id,
        ) <==> belongs(view.filter, rows[k])),
        view.unpinned_count == how_many(rows.len(), |i: int| !rows[i].pinned),
        view.selected == 0,
        view.selection@.len() == 0,
        view.context_menu_row is None,
{
    let none = Seq::<char>::empty();
    limits_cut_at_the_end(rows, view.filter, view.keyword@, 500, 500);
    assert(clip_models(view.items@).len() == view.items@.len());
    if rows.len() <= 500 {
        if solid(view.keyword@) {
            search_looks_through_the_content(rows, view.filter, none, view.keyword@, none, 500, k);
            assert(none + view.keyword@ + none =~= view.keyword@);
        }
        if all_blank(view.keyword@) {
            no_keyword_shows_the_category(rows, view.filter, view.keyword@, 500, k);
        }
    }
    let f = |r: RowModel| !r.pinned;
    as_many_are_kept_as_fit(rows, f);
    lemma_how_many_same(rows.len(), |i: int| f(rows[i]), |i: int| !rows[i].pinned);
}

/// The large preview of a text is the text itself up to 500 characters, and the
/// first 500 with an ellipsis where there are more.
pub proof fn previews_hold_the_beginning(content: Seq<char>)
    requires
        content.len() <= i64::MAX,
    ensures
        content.len() <= 500 ==> preview_text(content, content.len() as i64) == content,
        content.len() > 500 ==> preview_text(content, content.len() as i64) == content.take(
            500,
        ).push('…'),
{
}

/// A preview is shown line by line, with a blank in an empty one, and a list of
/// files as the last names of its paths.
pub proof fn previews_are_shown_line_by_line(text: Seq<char>, i: int)
    requires
        0 <= i < lines(text).len(),
    ensures
        preview_lines(text).len() == lines(text).len(),
        lines(text)[i].len() > 0 ==> preview_lines(text)[i] == lines(text)[i],
        lines(text)[i].len() == 0 ==> preview_lines(text)[i] == seq![' '],
        file_names_shown(text).len() == lines(text).len(),
        file_name_of(lines(text)[i]) is Some ==> file_names_shown(text)[i] == file_name_of(
            lines(text)[i],
        )->0,
        file_name_of(lines(text)[i]) is None ==> file_names_shown(text)[i] == lines(text)[i],
{
}

/// Ages count whole minutes; what is still to come is no age.
pub proof fn ages_count_whole_minutes(now: i64, then: i64)
    ensures
        now >= then ==> 60_000 * minutes_since(now, then) <= now - then < 60_000 * (minutes_since(
            now,
            then,
        ) + 1),
        now <= then ==> minutes_since(now, then) == 0,
{
}

/// An age is told in minutes below an hour, in hours below a day, and in days
/// from then on, what is left over being dropped; below a minute it is just now.
pub proof fn ages_are_told_in_the_largest_unit(days: nat, hours: nat, minutes: nat)
    requires
        hours < 24,
        minutes < 60,
    ensures
        age_text(0) == "刚刚"@,
        minutes > 0 ==> age_text(minutes) == decimal(minutes) + " 分钟前"@,
        hours > 0 ==> age_text(60 * hours + minutes) == decimal(hours) + " 小时前"@,
        days > 0 ==> age_text(1440 * days + 60 * hours + minutes) == decimal(days) + " 天前"@,
{
    reveal_strlit("");
    assert(""@ =~= Seq::<char>::empty());
    assert(""@ + decimal(minutes) =~= decimal(minutes));
    assert(""@ + decimal(hours) =~= decimal(hours));
    assert(""@ + decimal(days) =~= decimal(days));
    assert((60 * hours + minutes) / 60 == hours);
    assert((1440 * days + 60 * hours + minutes) / 1440 == days);
}

/// On the history's page the arrows move the cursor, Control-P turns a pin over,
/// Escape drops a selection, and nothing else without Alt does anything.
pub proof fn history_keys(key: Seq<char>, control: bool, alt: bool, any_selected: bool)
    ensures
        key == "up"@ ==> clip_key(key, control, alt, any_selected) == ClipKey::Up,
        key == "down"@ ==> clip_key(key, control, alt, any_selected) == ClipKey::Down,
        key == "p"@ && control ==> clip_key(key, control, alt, any_selected) == ClipKey::TogglePin,
        key == "escape"@ && any_selected ==> clip_key(key, control, alt, any_selected)
            == ClipKey::ClearSelection,
        key == "escape"@ && !any_selected ==> clip_key(key, control, alt, any_selected)
            == ClipKey::Nothing,
        key != "up"@ && key != "down"@ && key != "escape"@ && !(key == "p"@ && control) && !alt
            ==> clip_key(key, control, alt, any_selected) == ClipKey::Nothing,
{
    reveal_strlit("up");
    reveal_strlit("down");
    reveal_strlit("p");
    reveal_strlit("escape");
    assert("up"@.len() == 2 && "down"@.len() == 4 && "p"@.len() == 1 && "escape"@.len() == 6);
}

/// Alt and a digit from one to five choose the category of that place: all,
/// texts, pictures, files, pins. Other keys of one letter choose none.
pub proof fn digits_choose_categories(c: char, any_selected: bool)
    ensures
        ({
            let asked = clip_key(seq![c], false, true, any_selected);
            &&& asked == ClipKey::Filter(ClipFilter::All) <==> c == '1'
            &&& asked == ClipKey::Filter(ClipFilter::Text) <==> c == '2'
            &&& asked == ClipKey::Filter(ClipFilter::Image) <==> c == '3'
            &&& asked == ClipKey::Filter(ClipFilter::Files) <==> c == '4'
            &&& asked == ClipKey::Filter(ClipFilter::Pinned) <==> c == '5'
            &&& asked is Filter || asked is Nothing
        }),
{
    reveal_strlit("up");
    reveal_strlit("down");
    reveal_strlit("escape");
    let key = seq![c];
    assert(key.len() == 1 && key[0] == c && key.last() == c);
    reveal_with_fuel(number_of, 2);
    assert(key.drop_last() =~= Seq::<char>::empty());
    assert(key.skip(1) =~= Seq::<char>::empty());
    if key_number(key) is Some {
        assert(digit_value(key[0]) < 10);
        assert(key_number(key) == Some((c as int - 48) as nat));
    } else if '0' <= c && c <= '9' {
        assert(all_digits(key, 10));
    }
}

proof fn lemma_decimal_counts(n: nat)
    ensures
        all_digits(decimal(n), 10),
        number_of(decimal(n), 10) == n,
        decimal(n).len() > 0,
        decimal(n)[0] != '+',
    decreases n,
{
    let s = decimal(n);
    reveal_with_fuel(number_of, 2);
    if n < 10 {
        assert(s.drop_last() =~= Seq::<char>::empty());
    } else {
        let head = decimal(n / 10);
        lemma_decimal_counts(n / 10);
        assert(s.drop_last() =~= head);
        assert(s[0] == head[0]);
        assert forall|i: int| 0 <= i < s.len() implies digit_value(#[trigger] s[i]) < 10 by {
            if i < head.len() {
                assert(s[i] == head[i]);
                assert(digit_value(head[i]) < 10);
            }
        }
    }
}

/// A key counts as the number that its digits say, with a plus in front or
/// without; with anything else in it, it counts as none.
pub proof fn keys_count_as_their_number(n: nat, key: Seq<char>, i: int)
    ensures
        key_number(decimal(n)) == Some(n),
        key_number(seq!['+'] + decimal(n)) == Some(n),
        key.len() == 0 ==> key_number(key) is None,
        0 < i < key.len() && !('0' <= key[i] && key[i] <= '9') ==> key_number(key) is None,
{
    lemma_decimal_counts(n);
    let plus = seq!['+'] + decimal(n);
    assert(plus[0] == '+');
    assert(plus.skip(1) =~= decimal(n));
    if 0 < i < key.len() && !('0' <= key[i] && key[i] <= '9') {
        let digits = if key[0] == '+' {
            key.skip(1)
        } else {
            key
        };
        let at = if key[0] == '+' {
            i - 1
        } else {
            i
        };
        assert(digits[at] == key[i]);
        if all_digits(digits, 10) {
            assert(digit_value(digits[at]) < 10);
        }
    }
}

// ---------------------------------------------------------------- memos

/// On the memos' page the arrows move the cursor, Control-N starts a memo and
/// Control-E opens one; while a memo is edited only Escape, which closes it, and
/// Control-S, which stores it, do anything.
pub proof fn memo_keys(key: Seq<char>, control: bool)
    ensures
        memo_key(key, control, false) == MemoKey::Up <==> key == "up"@,
        memo_key(key, control, false) == MemoKey::Down <==> key == "down"@,
        memo_key(key, control, false) == MemoKey::NewMemo <==> key == "n"@ && control,
        memo_key(key, control, false) == MemoKey::EditSelected <==> key == "e"@ && control,
        memo_key(key, control, true) == MemoKey::CloseEditor <==> key == "escape"@,
        memo_key(key, control, true) == MemoKey::SaveEditor <==> key == "s"@ && control,
        memo_key(key, control, false) != MemoKey::CloseEditor,
        memo_key(key, control, false) != MemoKey::SaveEditor,
        memo_key(key, control, true) is CloseEditor || memo_key(key, control, true) is SaveEditor
            || memo_key(key, control, true) is Nothing,
{
    reveal_strlit("up");
    reveal_strlit("down");
    reveal_strlit("n");
    reveal_strlit("e");
    reveal_strlit("s");
    reveal_strlit("escape");
    assert("up"@.len() == 2 && "down"@.len() == 4 && "n"@.len() == 1 && "e"@.len() == 1);
    assert("n"@[0] != "e"@[0]);
    assert("s"@.len() == 1 && "escape"@.len() == 6);
}

// ---------------------------------------------------------------- cursors

pub open spec fn distance(a: int, b: int) -> int {
    if a < b {
        b - a
    } else {
        a - b
    }
}

/// A cursor goes as near to where it is moved as the list allows: no place of
/// the list is nearer.
pub proof fn cursors_go_as_far_as_the_list(selected: int, delta: int, len: int, place: int)
    requires
        0 <= place < len,
    ensures
        0 <= moved(selected, delta, len) < len,
        distance(moved(selected, delta, len), selected + delta) <= distance(place, selected + delta),
        selected >= 0 ==> 0 <= kept_within(selected, len) < len,
        selected >= 0 ==> distance(kept_within(selected, len), selected) <= distance(
            place,
            selected,
        ),
{
}

// ---------------------------------------------------------------- home

/// Another word by which a feature is found.
pub open spec fn is_word_for(f: Feature, word: Seq<char>) -> bool {
    match f {
        Feature::Clipboard => word == "clipboard"@ || word == "clip"@ || word == "jt"@,
        Feature::Memo => word == "memo"@ || word == "note"@ || word == "bw"@,
        Feature::Ip => word == "ip"@ || word == "wl"@,
    }
}

/// A feature is found exactly by what stands in its name or in another word for
/// it, and without a keyword all are.
pub proof fn features_are_found_by_their_words(f: Feature, keyword: Seq<char>)
    ensures
        features_for(keyword).contains(f) <==> keyword.len() == 0 || written_in(
            searched_name(f),
            keyword,
        ) || exists|word: Seq<char>| #[trigger] is_word_for(f, word) && written_in(word, keyword),
        features_for(Seq::<char>::empty()) == seq![Feature::Clipboard, Feature::Memo, Feature::Ip],
{
    let g = |x: Feature| feature_matches(x, keyword);
    lemma_survivors(Feature::ALL@, g);
    assert(Feature::ALL@.contains(f)) by {
        assert(Feature::ALL@[0] == Feature::Clipboard);
        assert(Feature::ALL@[1] == Feature::Memo);
        assert(Feature::ALL@[2] == Feature::Ip);
    }
    let i = choose|i: int| 0 <= i < Feature::ALL@.len() && Feature::ALL@[i] == f;
    let found = features_for(keyword);
    if found.contains(f) {
        let j = choose|j: int| 0 <= j < found.len() && found[j] == f;
        assert(g(found[j]));
    }
    if g(Feature::ALL@[i]) {
        assert(found.contains(Feature::ALL@[i]));
    }
    texts_hold_what_is_written_in_them(searched_name(f), keyword);
    texts_hold_what_is_written_in_them("clipboard"@, keyword);
    texts_hold_what_is_written_in_them("clip"@, keyword);
    texts_hold_what_is_written_in_them("jt"@, keyword);
    texts_hold_what_is_written_in_them("memo"@, keyword);
    texts_hold_what_is_written_in_them("note"@, keyword);
    texts_hold_what_is_written_in_them("bw"@, keyword);
    texts_hold_what_is_written_in_them("ip"@, keyword);
    texts_hold_what_is_written_in_them("wl"@, keyword);
    match f {
        Feature::Clipboard => {
            assert(is_word_for(f, "clipboard"@) && is_word_for(f, "clip"@) && is_word_for(f, "jt"@));
        },
        Feature::Memo => {
            assert(is_word_for(f, "memo"@) && is_word_for(f, "note"@) && is_word_for(f, "bw"@));
        },
        Feature::Ip => {
            assert(is_word_for(f, "ip"@) && is_word_for(f, "wl"@));
        },
    }
    let all = |x: Feature| feature_matches(x, Seq::<char>::empty());
    let s = Feature::ALL@;
    assert(s.drop_last().drop_last().drop_last() =~= Seq::<Feature>::empty());
    reveal_with_fuel(survivors, 4);
    assert(survivors(s, all) =~= seq![Feature::Clipboard, Feature::Memo, Feature::Ip]);
}

/// The home page searches for what is typed without the blanks around it.
pub proof fn home_searches_for_what_is_typed(
    view: HomeView,
    left: Seq<char>,
    core: Seq<char>,
    right: Seq<char>,
)
    requires
        view.keyword@ == left + core + right,
        all_blank(left),
        core.len() > 0 ==> solid(core),
        all_blank(right),
    ensures
        view.sought() == lowercased(core),
{
    trimming_removes_the_blanks_around(left, core, right);
}

/// The feature under the cursor is opened on its page; the address tool is still
/// planned, and a cursor past the end counts as on the first.
pub proof fn the_feature_under_the_cursor_opens(found: Seq<Feature>, at: int)
    requires
        0 <= at < found.len(),
    ensures
        chosen(found, at) == Some(found[at]),
        chosen(found, found.len() as int) == Some(found[0]),
        chosen_target(found, at) == Some(OpenFeature::Clipboard) <==> found[at]
            == Feature::Clipboard,
        chosen_target(found, at) == Some(OpenFeature::Memo) <==> found[at] == Feature::Memo,
        chosen_target(found, at) is None <==> found[at] == Feature::Ip,
        chosen_target(Seq::<Feature>::empty(), at) is None,
{
}

/// At home the arrows move the cursor and no other key does anything.
pub proof fn home_keys(key: Seq<char>)
    ensures
        home_key(key) == HomeKey::Up <==> key == "up"@,
        home_key(key) == HomeKey::Down <==> key == "down"@,
{
    reveal_strlit("up");
    reveal_strlit("down");
    assert("up"@.len() == 2 && "down"@.len() == 4);
}

// ---------------------------------------------------------------- the window

/// On every page Control with 1, 2, 3 and the comma opens the history, the
/// memos, the address tool and the settings.
pub proof fn control_opens_pages(page: Page, key: Seq<char>)
    ensures
        window_action(page, true, key) == WindowAction::Open(Page::Clipboard) <==> key == "1"@,
        window_action(page, true, key) == WindowAction::Open(Page::Memo) <==> key == "2"@,
        window_action(page, true, key) == WindowAction::Open(Page::Ip) <==> key == "3"@,
        window_action(page, true, key) == WindowAction::Open(Page::Settings) <==> key == ","@,
        window_action(page, true, key) != WindowAction::Open(Page::Home),
        window_action(page, true, key) != WindowAction::Hide,
        key != "escape"@ ==> window_action(page, false, key) == WindowAction::Nothing,
{
    reveal_strlit("1");
    reveal_strlit("2");
    reveal_strlit("3");
    reveal_strlit(",");
    assert("1"@[0] == '1' && "2"@[0] == '2' && "3"@[0] == '3' && ","@[0] == ',');
}

/// The page of a feature has its name for a title.
pub proof fn pages_are_titled_like_their_features()
    ensures
        page_title(Page::Clipboard) == feature_name(Feature::Clipboard),
        page_title(Page::Memo) == feature_name(Feature::Memo),
        page_title(Page::Ip) == feature_name(Feature::Ip),
{
}

/// A page is remembered under a word of its own.
pub proof fn pages_are_remembered_by_a_word(page: Page)
    ensures
        page_key(page) == match page {
            Page::Home => seq!['h', 'o', 'm', 'e'],
            Page::Clipboard => seq!['c', 'l', 'i', 'p', 'b', 'o', 'a', 'r', 'd'],
            Page::Memo => seq!['m', 'e', 'm', 'o'],
            Page::Ip => seq!['i', 'p'],
            Page::Settings => seq!['s', 'e', 't', 't', 'i', 'n', 'g', 's'],
        },
{
    reveal_strlit("home");
    reveal_strlit("clipboard");
    reveal_strlit("memo");
    reveal_strlit("ip");
    reveal_strlit("settings");
    assert("home"@ =~= seq!['h', 'o', 'm', 'e']);
    assert("clipboard"@ =~= seq!['c', 'l', 'i', 'p', 'b', 'o', 'a', 'r', 'd']);
    assert("memo"@ =~= seq!['m', 'e', 'm', 'o']);
    assert("ip"@ =~= seq!['i', 'p']);
    assert("settings"@ =~= seq!['s', 'e', 't', 't', 'i', 'n', 'g', 's']);
}

/// A word brings back exactly the page that is remembered under it, and never the
/// settings.
pub proof fn only_remembered_words_bring_a_page_back(key: Seq<char>, page: Page)
    ensures
        page_of_key(key) == Some(page) <==> key == page_key(page) && page != Page::Settings,
{
    pages_are_remembered_by_a_word(Page::Home);
    pages_are_remembered_by_a_word(Page::Clipboard);
    pages_are_remembered_by_a_word(Page::Memo);
    pages_are_remembered_by_a_word(Page::Ip);
    pages_are_remembered_by_a_word(page);
    assert(page_key(Page::Home)[0] == 'h' && page_key(Page::Memo)[0] == 'm');
}

/// Only a toggle hides the window, and only while it is visible; a toggle or a
/// call while it is hidden shows it.
pub proof fn only_toggles_hide(event: ShellEvent, visible: bool)
    ensures
        shell_action(event, visible) == ShellAction::Hide <==> event == ShellEvent::Toggle
            && visible,
        shell_action(event, visible) == ShellAction::Show <==> event == ShellEvent::Show || (event
            == ShellEvent::Toggle && !visible),
        shell_action(event, visible) == ShellAction::Reload <==> event == ShellEvent::ClipsChanged,
        shell_action(event, visible) == ShellAction::Quit <==> event == ShellEvent::Quit,
{
}

/// The picture in the tray is a disc of one colour in the middle of nothing: a
/// pixel has the colour exactly where it is at most 14 from the middle.
pub proof fn the_tray_shows_a_disc(x: int, y: int)
    requires
        0 <= x < 32,
        0 <= y < 32,
    ensures
        ({
            let at = 4 * (32 * y + x);
            let inside = (x - 16) * (x - 16) + (y - 16) * (y - 16) <= 14 * 14;
            &&& inside ==> tray_byte(at) == 0x6c && tray_byte(at + 1) == 0x5c && tray_byte(at + 2)
                == 0xe7 && tray_byte(at + 3) == 0xff
            &&& !inside ==> tray_byte(at) == 0 && tray_byte(at + 1) == 0 && tray_byte(at + 2) == 0
                && tray_byte(at + 3) == 0
        }),
{
    let pixel = 32 * y + x;
    assert(pixel % 32 == x && pixel / 32 == y);
    assert((4 * pixel) / 4 == pixel && (4 * pixel + 1) / 4 == pixel);
    assert((4 * pixel + 2) / 4 == pixel && (4 * pixel + 3) / 4 == pixel);
}

/// The themes come round in the order system, light, dark.
pub proof fn themes_come_round()
    ensures
        theme_after(ThemePreference::System) == ThemePreference::Light,
        theme_after(ThemePreference::Light) == ThemePreference::Dark,
        theme_after(ThemePreference::Dark) == ThemePreference::System,
{
}

/// The themes are called by their names.
pub proof fn themes_have_names()
    ensures
        theme_name(ThemePreference::System) == "跟随系统"@,
        theme_name(ThemePreference::Light) == "浅色模式"@,
        theme_name(ThemePreference::Dark) == "深色模式"@,
{
}

/// A word stands for a preference exactly where the preference is stored under
/// it.
pub proof fn only_stored_words_are_preferences(key: Seq<char>, theme: ThemePreference)
    ensures
        theme_of_key(key) == Some(theme) <==> key == theme_key(theme),
        theme_key(theme) == match theme {
            ThemePreference::System => seq!['s', 'y', 's', 't', 'e', 'm'],
            ThemePreference::Light => seq!['l', 'i', 'g', 'h', 't'],
            ThemePreference::Dark => seq!['d', 'a', 'r', 'k'],
        },
{
    reveal_strlit("system");
    reveal_strlit("light");
    reveal_strlit("dark");
    assert("system"@ =~= seq!['s', 'y', 's', 't', 'e', 'm']);
    assert("light"@ =~= seq!['l', 'i', 'g', 'h', 't']);
    assert("dark"@ =~= seq!['d', 'a', 'r', 'k']);
}

/// The watcher reports the system's message of a changed clipboard, ends with
/// its window, and leaves every other message alone.
pub proof fn changes_of_the_clipboard_are_reported(msg: u32)
    ensures
        action_for(msg) == WatcherAction::Notify <==> msg == 0x031d,
        action_for(msg) == WatcherAction::Quit <==> msg == 2,
        action_for(msg) == WatcherAction::PassOn <==> msg != 0x031d && msg != 2,
{
}

} // verus!
