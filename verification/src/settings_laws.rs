//! What the settings file, the hotkeys and the paste command do.

use crate::config::{
    config_text, entries_of_lines, entry_of_line, first_at, settings_in, EntryModel,
};
use crate::hotkey::{
    is_modifier_key, is_reserved, key_token, label_of, rejection_message, rejection_of, super_form,
    uppercased, Keystroke, Rejection, DEFAULT_CANDIDATES, RESERVED,
};
use crate::paste::{
    paste_releases, paste_target, presses, releases, KeyStroke, FOCUS_SETTLE_MS, KEYSTROKE_GAP_MS,
};
use crate::retry::{data_failure, text_failure, READ_ATTEMPTS, RETRY_PAUSE_MS, WRITE_ATTEMPTS};
use crate::settings_view::{captured, hides_tray, tray_value, Captured};
use crate::text::{decimal, lines, occurs_at};
use crate::text_laws::{
    all_blank, at_line_start, blank, lines_follow_each_other, solid,
    trimming_removes_the_blanks_around,
};
use vstd::prelude::*;

verus! {

// ---------------------------------------------------------------- the file

/// Something, or nothing at all, that neither starts nor ends with a blank.
pub open spec fn tidy(s: Seq<char>) -> bool {
    s.len() > 0 ==> solid(s)
}

proof fn lemma_first(s: Seq<char>, c: char, p: int)
    requires
        0 <= p <= s.len(),
        p < s.len() ==> s[p] == c,
        forall|i: int| 0 <= i < p ==> s[i] != c,
    ensures
        first_at(s, c) == p,
    decreases s.len(),
{
    if s.len() > 0 {
        let init = s.drop_last();
        if p < s.len() {
            if p < init.len() {
                lemma_first(init, c, p);
            } else {
                lemma_first(init, c, p);
            }
        } else {
            lemma_first(init, c, init.len() as int);
        }
    }
}

/// A line holds the setting whose name stands before its first equals sign and
/// whose value stands behind it, blanks around either left out; a line without
/// an equals sign holds none.
pub proof fn lines_hold_a_name_and_a_value(
    a: Seq<char>,
    key: Seq<char>,
    b: Seq<char>,
    c: Seq<char>,
    value: Seq<char>,
    d: Seq<char>,
)
    requires
        all_blank(a),
        all_blank(b),
        all_blank(c),
        all_blank(d),
        tidy(key),
        tidy(value),
        !key.contains('='),
    ensures
        entry_of_line((a + key + b).push('=') + (c + value + d)) == Some(EntryModel { key, value }),
        entry_of_line(a + key + b) is None,
{
    let left = a + key + b;
    let right = c + value + d;
    let line = left.push('=') + right;
    let p = left.len() as int;
    assert forall|i: int| 0 <= i < left.len() implies left[i] != '=' by {
        if i < a.len() {
            assert(blank(a[i]));
        } else if i < a.len() + key.len() {
            assert(left[i] == key[i - a.len()]);
        } else {
            assert(blank(b[i - a.len() - key.len()]));
        }
    }
    assert forall|i: int| 0 <= i < p implies line[i] != '=' by {
        assert(line[i] == left[i]);
    }
    assert(line[p] == '=');
    lemma_first(line, '=', p);
    lemma_first(left, '=', p);
    assert(line.take(p) =~= left);
    assert(line.skip(p + 1) =~= right);
    trimming_removes_the_blanks_around(a, key, b);
    trimming_removes_the_blanks_around(c, value, d);
}

/// The file is read line by line, a later setting replacing an earlier one of
/// the same name.
pub proof fn later_lines_replace_earlier_ones(
    text: Seq<char>,
    key: Seq<char>,
    value: Seq<char>,
    other: Seq<char>,
)
    requires
        at_line_start(text),
        tidy(key),
        tidy(value),
        !key.contains('='),
        !key.contains('\n'),
        !value.contains('\n'),
        other != key,
    ensures
        settings_in(Seq::<char>::empty()) == Map::<Seq<char>, Seq<char>>::empty(),
        ({
            let before = settings_in(text);
            let after = settings_in((text + key).push('=') + value);
            &&& after.contains_key(key)
            &&& after[key] == value
            &&& after.contains_key(other) <==> before.contains_key(other)
            &&& before.contains_key(other) ==> after[other] == before[other]
        }),
{
    let none = Seq::<char>::empty();
    let line = key.push('=') + value;
    lines_hold_a_name_and_a_value(none, key, none, none, value, none);
    assert(none + key + none =~= key);
    assert(none + value + none =~= value);
    assert(!line.contains('\n')) by {
        if line.contains('\n') {
            let i = choose|i: int| 0 <= i < line.len() && line[i] == '\n';
            if i < key.len() {
                assert(key[i] == '\n');
            } else if i > key.len() {
                assert(value[i - key.len() - 1] == '\n');
            }
        }
    }
    lines_follow_each_other(text, line);
    assert((text + key).push('=') + value =~= text + line);
    assert(lines(text).push(line).drop_last() =~= lines(text));
    let head = entries_of_lines(lines(text));
    let e = EntryModel { key, value };
    assert(entries_of_lines(lines(text).push(line)) == head.push(e));
    assert(head.push(e).drop_last() =~= head);
    assert(entries_of_lines(Seq::<Seq<char>>::empty()) =~= Seq::<EntryModel>::empty());
}

/// Settings are written one behind the other, each on a line of its own: name,
/// equals sign, value.
pub proof fn settings_are_written_line_by_line(entries: Seq<EntryModel>, more: EntryModel)
    ensures
        config_text(Seq::<EntryModel>::empty()) == Seq::<char>::empty(),
        config_text(entries.push(more)) == config_text(entries) + more.key.push('=')
            + more.value.push('\n'),
{
    assert(entries.push(more).drop_last() =~= entries);
    assert(config_text(entries.push(more)) =~= config_text(entries) + more.key.push('=')
        + more.value.push('\n'));
}

/// The tray icon is hidden exactly where a one is stored for it; a zero is stored
/// to show it again.
pub proof fn only_a_one_hides_the_tray(stored: Seq<char>)
    ensures
        hides_tray(Some(stored)) <==> stored == seq!['1'],
        !hides_tray(None),
        tray_value(true) == seq!['1'],
        tray_value(false) == seq!['0'],
{
    reveal_strlit("1");
    reveal_strlit("0");
    assert("1"@ =~= seq!['1']);
    assert("0"@ =~= seq!['0']);
}

// ---------------------------------------------------------------- labels

/// `Win` stands in `s` at `i`.
pub open spec fn win_at(s: Seq<char>, i: int) -> bool {
    0 <= i && i + 3 <= s.len() && s[i] == 'W' && s[i + 1] == 'i' && s[i + 2] == 'n'
}

proof fn lemma_win_at(s: Seq<char>, i: int)
    ensures
        occurs_at(s, seq!['W', 'i', 'n'], i) <==> win_at(s, i),
{
    let win = seq!['W', 'i', 'n'];
    if win_at(s, i) {
        assert(s.subrange(i, i + 3) =~= win);
    }
    if occurs_at(s, win, i) {
        assert(s.subrange(i, i + 3)[0] == s[i]);
        assert(s.subrange(i, i + 3)[1] == s[i + 1]);
        assert(s.subrange(i, i + 3)[2] == s[i + 2]);
    }
}

proof fn lemma_super_behind(a: Seq<char>, s: Seq<char>, from: int)
    requires
        0 <= from,
    ensures
        super_form(a + s, a.len() + from) == super_form(s, from),
    decreases s.len() - from,
{
    let win = seq!['W', 'i', 'n'];
    let all = a + s;
    if from < s.len() {
        if a.len() + from + 3 <= all.len() {
            assert(all.subrange(a.len() + from, a.len() + from + 3) =~= s.subrange(from, from + 3));
        }
        assert(occurs_at(all, win, a.len() + from) <==> occurs_at(s, win, from));
        assert(all[a.len() + from] == s[from]);
        if occurs_at(s, win, from) {
            lemma_super_behind(a, s, from + 3);
        } else {
            lemma_super_behind(a, s, from + 1);
        }
    }
}

proof fn lemma_super_skips(s: Seq<char>, from: int, to: int)
    requires
        0 <= from <= to <= s.len(),
        forall|i: int| from <= i < to ==> !#[trigger] win_at(s, i),
    ensures
        super_form(s, from) == s.subrange(from, to) + super_form(s, to),
    decreases to - from,
{
    if from < to {
        assert(!win_at(s, from));
        lemma_win_at(s, from);
        lemma_super_skips(s, from + 1, to);
        assert(s.subrange(from, to) =~= seq![s[from]] + s.subrange(from + 1, to));
        assert(seq![s[from]] + (s.subrange(from + 1, to) + super_form(s, to)) =~= s.subrange(
            from,
            to,
        ) + super_form(s, to));
    } else {
        assert(s.subrange(from, to) + super_form(s, to) =~= super_form(s, to));
    }
}

/// For registering, every `Win` in a label is written `Super`, one after the
/// other, and nothing else changes.
pub proof fn win_is_registered_as_super(before: Seq<char>, after: Seq<char>)
    requires
        ({
            let label = before + seq!['W', 'i', 'n'] + after;
            forall|i: int|
                0 <= i < before.len() ==> !#[trigger] win_at(label, i)
        }),
    ensures
        super_form(before + seq!['W', 'i', 'n'] + after, 0) == before + seq![
            'S',
            'u',
            'p',
            'e',
            'r',
        ] + super_form(after, 0),
{
    let win = seq!['W', 'i', 'n'];
    let label = before + win + after;
    let n = before.len() as int;
    lemma_super_skips(label, 0, n);
    assert(label.subrange(0, n) =~= before);
    lemma_win_at(label, n);
    assert(win_at(label, n));
    lemma_super_behind(before + win, after, 0);
    assert(before + (seq!['S', 'u', 'p', 'e', 'r'] + super_form(after, 0)) =~= before + seq![
        'S',
        'u',
        'p',
        'e',
        'r',
    ] + super_form(after, 0));
}

/// A label without `Win` is registered as it stands.
pub proof fn other_labels_are_registered_as_they_stand(label: Seq<char>)
    requires
        forall|i: int|
            0 <= i < label.len() ==> !#[trigger] win_at(label, i),
    ensures
        super_form(label, 0) == label,
{
    let n = label.len() as int;
    lemma_super_skips(label, 0, n);
    assert(label.subrange(0, n) + super_form(label, n) =~= label);
}

/// A label names the modifiers that are held, always in the order Ctrl, Alt,
/// Shift, Win, and then the key, whose first letter is a capital: a combination
/// with one modifier more has that modifier's name in front of what follows.
pub proof fn labels_name_what_is_held(k: Keystroke, less: Keystroke)
    requires
        k.key@ == less.key@,
    ensures
        !k.control && !k.alt && !k.shift && !k.platform && k.key@.len() > 0 ==> label_of(k)
            == uppercased(k.key@.take(1)) + k.key@.skip(1),
        k.control && !less.control && k.alt == less.alt && k.shift == less.shift && k.platform
            == less.platform ==> label_of(k) == "Ctrl+"@ + label_of(less),
        !k.control && k.alt && !less.control && !less.alt && k.shift == less.shift && k.platform
            == less.platform ==> label_of(k) == "Alt+"@ + label_of(less),
        !k.control && !k.alt && k.shift && !less.control && !less.alt && !less.shift && k.platform
            == less.platform ==> label_of(k) == "Shift+"@ + label_of(less),
        !k.control && !k.alt && !k.shift && k.platform && !less.control && !less.alt && !less.shift
            && !less.platform ==> label_of(k) == "Win+"@ + label_of(less),
{
    let e = Seq::<char>::empty();
    let t = key_token(k.key@);
    let s = if k.shift {
        "Shift+"@
    } else {
        e
    };
    let w = if k.platform {
        "Win+"@
    } else {
        e
    };
    let a = if k.alt {
        "Alt+"@
    } else {
        e
    };
    let c = if k.control {
        "Ctrl+"@
    } else {
        e
    };
    assert(c + a + s + w + t =~= c + (a + (s + (w + t))));
    assert(e + a + s + w + t =~= a + (s + (w + t)));
    assert(e + e + s + w + t =~= s + (w + t));
    assert(e + e + e + w + t =~= w + t);
    assert(e + e + e + e + t =~= t);
}

/// Labels that the pages use for themselves.
pub open spec fn used_by_pages(label: Seq<char>) -> bool {
    ||| label == "Ctrl+1"@
    ||| label == "Ctrl+2"@
    ||| label == "Ctrl+P"@
    ||| label == "Ctrl+N"@
    ||| label == "Ctrl+E"@
    ||| label == "Ctrl+S"@
    ||| label == "Ctrl+Enter"@
    ||| label == "Ctrl+,"@
    ||| label == "Alt+1"@
    ||| label == "Alt+2"@
    ||| label == "Alt+3"@
    ||| label == "Alt+4"@
    ||| label == "Alt+5"@
}

/// A combination is refused in this order: where it is only a modifier, where it
/// is held with none of Ctrl, Alt and Win, where a page uses it, and where it
/// cannot be registered. Any other one is taken.
pub proof fn combinations_are_refused_for_a_reason(k: Keystroke, understood: bool)
    ensures
        is_reserved(label_of(k)) <==> used_by_pages(label_of(k)),
        rejection_of(k, understood) == Some(Rejection::ModifierOnly) <==> is_modifier_key(k.key@),
        rejection_of(k, understood) == Some(Rejection::NeedsModifier) <==> !is_modifier_key(k.key@)
            && !k.control && !k.alt && !k.platform,
        rejection_of(k, understood) == Some(Rejection::Reserved) <==> !is_modifier_key(k.key@) && (
        k.control || k.alt || k.platform) && used_by_pages(label_of(k)),
        rejection_of(k, understood) is None <==> understood && !is_modifier_key(k.key@) && (k.control
            || k.alt || k.platform) && !used_by_pages(label_of(k)),
{
    let label = label_of(k);
    if used_by_pages(label) {
        assert(RESERVED@[0]@ == "Ctrl+1"@ && RESERVED@[1]@ == "Ctrl+2"@);
        assert(RESERVED@[2]@ == "Ctrl+P"@ && RESERVED@[3]@ == "Ctrl+N"@);
        assert(RESERVED@[4]@ == "Ctrl+E"@ && RESERVED@[5]@ == "Ctrl+S"@);
        assert(RESERVED@[6]@ == "Ctrl+Enter"@ && RESERVED@[7]@ == "Ctrl+,"@);
        assert(RESERVED@[8]@ == "Alt+1"@ && RESERVED@[9]@ == "Alt+2"@);
        assert(RESERVED@[10]@ == "Alt+3"@ && RESERVED@[11]@ == "Alt+4"@);
        assert(RESERVED@[12]@ == "Alt+5"@);
    }
}

/// The keys that count as modifiers themselves.
pub proof fn modifiers_are_no_main_keys(key: Seq<char>)
    ensures
        is_modifier_key(key) <==> key == "control"@ || key == "ctrl"@ || key == "alt"@ || key
            == "shift"@ || key == "platform"@ || key == "cmd"@ || key == "win"@ || key == "super"@
            || key == "function"@,
{
}

/// Where no hotkey is set, Alt-Space is tried, then Ctrl-Alt-Space, then Alt and
/// the backquote.
pub proof fn default_hotkeys_are_tried_in_order()
    ensures
        DEFAULT_CANDIDATES@.len() == 3,
        DEFAULT_CANDIDATES@[0]@ == "Alt+Space"@,
        DEFAULT_CANDIDATES@[1]@ == "Ctrl+Alt+Space"@,
        DEFAULT_CANDIDATES@[2]@ == "Alt+`"@,
{
}

/// A refusal says what is wrong.
pub proof fn refusals_say_what_is_wrong()
    ensures
        rejection_message(Rejection::ModifierOnly) == "请再按一个主键"@,
        rejection_message(Rejection::NeedsModifier) == "需带 Ctrl / Alt / Win 修饰键"@,
        rejection_message(Rejection::Reserved) == "该组合已被页内快捷键占用"@,
        rejection_message(Rejection::Unsupported) == "不支持该按键"@,
{
}

/// While a hotkey is recorded, Escape gives up whatever is held with it, a
/// modifier alone waits for more, an allowed combination is taken with its label,
/// and any other is refused with the reason.
pub proof fn recording_takes_what_is_allowed(k: Keystroke, understood: bool)
    ensures
        captured(k, understood) == Captured::Cancel <==> k.key@ == "escape"@,
        k.key@ != "escape"@ && is_modifier_key(k.key@) ==> captured(k, understood)
            == Captured::Wait,
        k.key@ != "escape"@ && rejection_of(k, understood) is None ==> captured(k, understood)
            == Captured::Accept(label_of(k)),
        k.key@ != "escape"@ && !is_modifier_key(k.key@) && rejection_of(k, understood) is Some
            ==> captured(k, understood) == Captured::Refuse(rejection_of(k, understood)->0),
{
}

// ---------------------------------------------------------------- pasting

/// Contents go back to the window that was in front, unless there was none or
/// it was our own.
pub proof fn contents_go_back_to_the_front(front: isize, own: isize)
    ensures
        paste_target(front, None) == Some(front) <==> front != 0,
        paste_target(front, Some(own)) == Some(front) <==> front != 0 && front != own,
        paste_target(front, None) is None || paste_target(front, None) == Some(front),
        paste_target(front, Some(own)) is None || paste_target(front, Some(own)) == Some(front),
{
}

/// The code of the modifier that stands in this place: Alt, Shift, and the left
/// and the right Windows key.
pub open spec fn modifier_code(i: int) -> u16 {
    if i == 0 {
        0x12
    } else if i == 1 {
        0x10
    } else if i == 2 {
        0x5b
    } else {
        0x5c
    }
}

/// Exactly the modifiers that are down are let go, in their order; a key is down
/// where its state is negative.
pub proof fn held_modifiers_are_let_go(states: Seq<i16>, more: i16)
    requires
        states.len() < 4,
    ensures
        releases(Seq::<i16>::empty()) == Seq::<KeyStroke>::empty(),
        releases(states.push(more)) == if more < 0 {
            releases(states).push(
                KeyStroke { key: modifier_code(states.len() as int), up: true },
            )
        } else {
            releases(states)
        },
{
    assert(states.push(more).drop_last() =~= states);
}

/// The paste command is Control and V: pressed in this order, let go in the
/// other.
pub proof fn pasting_is_control_and_v()
    ensures
        presses() == seq![
            KeyStroke { key: 0x11, up: false },
            KeyStroke { key: 0x56, up: false },
        ],
        paste_releases() == seq![
            KeyStroke { key: 0x56, up: true },
            KeyStroke { key: 0x11, up: true },
        ],
{
}

/// The clipboard is tried five times for writing and three times for reading,
/// with 30 milliseconds between; a paste waits 80 milliseconds for the window and
/// 20 between its strokes.
pub proof fn busy_clipboards_are_tried_again()
    ensures
        WRITE_ATTEMPTS == 5,
        READ_ATTEMPTS == 3,
        RETRY_PAUSE_MS == 30,
        FOCUS_SETTLE_MS == 80,
        KEYSTROKE_GAP_MS == 20,
{
}

/// What is reported of a failure names how often it was tried and why it failed.
pub proof fn failures_are_reported_in_full(
    attempts: nat,
    detail: Seq<char>,
    what: Seq<char>,
    code: u32,
)
    ensures
        text_failure(attempts, Some(detail)) == "写入系统剪贴板失败（已重试 "@ + decimal(attempts)
            + " 次）: "@ + detail,
        text_failure(attempts, None) == "写入系统剪贴板失败（已重试 "@ + decimal(attempts)
            + " 次）: "@ + "未知错误"@,
        data_failure(what, code) == "写入"@ + what + "到剪贴板失败（已重试 5 次，最后错误码 "@
            + decimal(code as nat) + "）"@,
{
}

} // verus!
