//! The hotkey that calls the window up: how it is written, and which
//! combinations are allowed.

use crate::text::{
    ascii_lower_all, chars_of, contains_text, occurs_at, push_chars, same_text, slice_of,
    stands_at, string_of,
};
use vstd::prelude::*;

verus! {

/// The hotkeys tried in this order where the user chose none.
pub const DEFAULT_CANDIDATES: [&'static str; 3] = ["Alt+Space", "Ctrl+Alt+Space", "Alt+`"];

/// The combinations that the pages use themselves. A hotkey works everywhere,
/// so it would act twice on a page.
pub const RESERVED: [&'static str; 13] = [
    "Ctrl+1",
    "Ctrl+2",
    "Ctrl+P",
    "Ctrl+N",
    "Ctrl+E",
    "Ctrl+S",
    "Ctrl+Enter",
    "Ctrl+,",
    "Alt+1",
    "Alt+2",
    "Alt+3",
    "Alt+4",
    "Alt+5",
];

/// Why a combination is not allowed.
#[derive(Debug, Clone, Copy, PartialEq, Eq, Structural)]
pub enum Rejection {
    /// Only a modifier was pressed so far.
    ModifierOnly,
    /// Without Ctrl, Alt or Win it would swallow ordinary typing.
    NeedsModifier,
    /// A page uses it.
    Reserved,
    /// The key cannot be registered.
    Unsupported,
}

pub open spec fn rejection_message(r: Rejection) -> Seq<char> {
    match r {
        Rejection::ModifierOnly => "请再按一个主键"@,
        Rejection::NeedsModifier => "需带 Ctrl / Alt / Win 修饰键"@,
        Rejection::Reserved => "该组合已被页内快捷键占用"@,
        Rejection::Unsupported => "不支持该按键"@,
    }
}

impl Rejection {
    pub fn message(self) -> (r: &'static str)
        ensures
            r@ == rejection_message(self),
    {
        match self {
            Rejection::ModifierOnly => "请再按一个主键",
            Rejection::NeedsModifier => "需带 Ctrl / Alt / Win 修饰键",
            Rejection::Reserved => "该组合已被页内快捷键占用",
            Rejection::Unsupported => "不支持该按键",
        }
    }
}

/// A key press with the modifiers that were held.
#[derive(Debug, Clone)]
pub struct Keystroke {
    pub control: bool,
    pub alt: bool,
    pub shift: bool,
    pub platform: bool,
    /// The name of the key, in small letters.
    pub key: String,
}

// ---------------------------------------------------------------- registering

/// A combination that can be registered: the bits of its modifiers and the name
/// of its key.
#[derive(Debug, Clone, PartialEq, Eq)]
pub struct Hotkey {
    pub modifiers: u32,
    pub key: String,
}

pub open spec fn hotkey_view(r: Option<Hotkey>) -> Option<(u32, Seq<char>)> {
    match r {
        Some(h) => Some((h.modifiers, h.key@)),
        None => None,
    }
}

/// What the description of a hotkey stands for: the bits of its modifiers and
/// the name of its key; nothing where it is not understood.
pub uninterp spec fn hotkey_meaning(text: Seq<char>) -> Option<(u32, Seq<char>)>;

/// Whether a description may hold the word for "Command on one system, Control
/// on the others", in one of its four spellings.
pub open spec fn system_decides(text: Seq<char>) -> bool {
    contains_text(ascii_lower_all(text), seq!['o', 'r', 'c'])
}

/// Calls `HotKey::from_str` of the `global-hotkey` crate and takes the modifiers
/// and the key out of its result. The contract claims that whether a
/// description is understood depends on its text alone, and so does the
/// combination it stands for, except where a word may be in it whose meaning
/// differs between systems; of that it leaves the combination unsaid. It does
/// not say which descriptions are understood.
#[verifier::external_body]
fn understand(text: &str) -> (r: Option<Hotkey>)
    ensures
        r is Some <==> hotkey_meaning(text@) is Some,
        !system_decides(text@) ==> hotkey_view(r) == hotkey_meaning(text@),
{
    let parsed = text.parse::<global_hotkey::hotkey::HotKey>();
    parsed.ok().map(|h| Hotkey { modifiers: h.mods.bits(), key: h.key.to_string() })
}

/// `s` from `from` on with every `Win` written as `Super`.
pub open spec fn super_form(s: Seq<char>, from: int) -> Seq<char>
    decreases s.len() - from,
{
    if from >= s.len() {
        Seq::empty()
    } else if occurs_at(s, seq!['W', 'i', 'n'], from) {
        seq!['S', 'u', 'p', 'e', 'r'] + super_form(s, from + 3)
    } else {
        seq![s[from]] + super_form(s, from + 1)
    }
}

/// A label in the words of the registry, which knows the Windows key as
/// `Super`.
pub fn registry_text(label: &str) -> (r: String)
    ensures
        r@ == super_form(label@, 0),
{
    let v = chars_of(label);
    let n: usize = v.len();
    let win: Vec<char> = vec!['W', 'i', 'n'];
    let sup: Vec<char> = vec!['S', 'u', 'p', 'e', 'r'];
    assert(win@ == seq!['W', 'i', 'n']);
    assert(sup@ == seq!['S', 'u', 'p', 'e', 'r']);
    let mut out = String::new();
    let mut k: usize = 0;
    assert(out@ + super_form(label@, 0) == super_form(label@, 0));
    while k < n
        invariant
            v@ == label@,
            n == v@.len(),
            k <= n,
            win@ == seq!['W', 'i', 'n'],
            sup@ == seq!['S', 'u', 'p', 'e', 'r'],
            out@ + super_form(label@, k as int) == super_form(label@, 0),
        decreases n - k,
    {
        let ghost before = out@;
        if stands_at(&v, &win, k) {
            push_chars(&mut out, &sup);
            assert(before + (sup@ + super_form(label@, k + 3)) == out@ + super_form(label@, k + 3));
            k = k + 3;
        } else {
            out.push(v[k]);
            assert(before + (seq![v@[k as int]] + super_form(label@, k + 1)) == out@ + super_form(
                label@,
                k + 1,
            ));
            k = k + 1;
        }
    }
    assert(out@ + super_form(label@, n as int) == out@);
    out
}

/// Whether a label can be registered.
pub open spec fn label_understood(label: Seq<char>) -> bool {
    hotkey_meaning(super_form(label, 0)) is Some
}

/// Turns a label into a hotkey that can be registered.
pub fn parse(label: &str) -> (r: Option<Hotkey>)
    ensures
        r is Some <==> label_understood(label@),
        !system_decides(super_form(label@, 0)) ==> hotkey_view(r) == hotkey_meaning(
            super_form(label@, 0),
        ),
{
    let text = registry_text(label);
    understand(text.as_str())
}

// ---------------------------------------------------------------- recording

/// A text in capitals.
pub uninterp spec fn uppercased(s: Seq<char>) -> Seq<char>;

pub open spec fn ascii_upper(c: char) -> char {
    if 'a' as int <= c as int && c as int <= 'z' as int {
        (c as int - 32) as char
    } else {
        c
    }
}

/// Calls `str::to_uppercase` of the standard library. The contract claims that
/// the result depends on the text alone, and that a single ASCII character
/// becomes its ASCII capital; it does not say what becomes of other texts.
#[verifier::external_body]
fn to_capitals(s: &str) -> (r: String)
    ensures
        r@ == uppercased(s@),
        s@.len() == 1 && (s@[0] as int) < 128 ==> r@ == seq![ascii_upper(s@[0])],
{
    s.to_uppercase()
}

/// How the main key is shown: its first letter as a capital.
pub open spec fn key_token(key: Seq<char>) -> Seq<char> {
    if key.len() == 0 {
        Seq::empty()
    } else {
        uppercased(key.take(1)) + key.skip(1)
    }
}

/// The modifiers in their fixed order, each with a plus behind it.
pub open spec fn modifier_text(control: bool, alt: bool, shift: bool, platform: bool) -> Seq<char> {
    (if control {
        "Ctrl+"@
    } else {
        Seq::empty()
    }) + (if alt {
        "Alt+"@
    } else {
        Seq::empty()
    }) + (if shift {
        "Shift+"@
    } else {
        Seq::empty()
    }) + (if platform {
        "Win+"@
    } else {
        Seq::empty()
    })
}

/// The label of a combination.
pub open spec fn label_of(k: Keystroke) -> Seq<char> {
    modifier_text(k.control, k.alt, k.shift, k.platform) + key_token(k.key@)
}

/// Whether the key is a modifier itself.
pub open spec fn is_modifier_key(key: Seq<char>) -> bool {
    ||| key == "control"@
    ||| key == "alt"@
    ||| key == "shift"@
    ||| key == "platform"@
    ||| key == "function"@
    ||| key == "ctrl"@
    ||| key == "cmd"@
    ||| key == "win"@
    ||| key == "super"@
}

pub open spec fn is_reserved(label: Seq<char>) -> bool {
    exists|i: int| 0 <= i < 13 && label == (#[trigger] RESERVED@[i])@
}

/// Why a combination is not allowed, if it is not; `understood` says whether
/// its label can be registered.
pub open spec fn rejection_of(k: Keystroke, understood: bool) -> Option<Rejection> {
    if is_modifier_key(k.key@) {
        Some(Rejection::ModifierOnly)
    } else if !(k.control || k.alt || k.platform) {
        Some(Rejection::NeedsModifier)
    } else if is_reserved(label_of(k)) {
        Some(Rejection::Reserved)
    } else if !understood {
        Some(Rejection::Unsupported)
    } else {
        None
    }
}

/// How the main key is shown: its first letter as a capital.
pub fn main_key_token(key: &str) -> (r: String)
    ensures
        r@ == key_token(key@),
        key@.len() > 0 && (key@[0] as int) < 128 ==> r@ == seq![ascii_upper(key@[0])] + key@.skip(1),
{
    let v = chars_of(key);
    let n: usize = v.len();
    if n == 0 {
        return String::new();
    }
    let head = slice_of(&v, 0, 1);
    let tail = slice_of(&v, 1, n);
    assert(head@ == key@.take(1));
    assert(tail@ == key@.skip(1));
    let first = string_of(&head);
    let mut out = to_capitals(first.as_str());
    push_chars(&mut out, &tail);
    out
}

fn reserved_label(label: &str) -> (r: bool)
    ensures
        r == is_reserved(label@),
{
    for i in 0..13usize
        invariant
            forall|j: int| 0 <= j < i ==> label@ != (#[trigger] RESERVED@[j])@,
    {
        if same_text(label, RESERVED[i]) {
            assert(label@ == RESERVED@[i as int]@);
            return true;
        }
    }
    false
}

fn modifier_key(key: &str) -> (r: bool)
    ensures
        r == is_modifier_key(key@),
{
    same_text(key, "control") || same_text(key, "alt") || same_text(key, "shift") || same_text(
        key,
        "platform",
    ) || same_text(key, "function") || same_text(key, "ctrl") || same_text(key, "cmd")
        || same_text(key, "win") || same_text(key, "super")
}

/// The label of a combination, or why it has none yet: the tests that come
/// before the registry is asked.
pub fn label_keystroke(keystroke: &Keystroke) -> (r: Result<String, Rejection>)
    ensures
        r is Ok <==> rejection_of(*keystroke, true) is None,
        r matches Ok(label) ==> label@ == label_of(*keystroke),
        r matches Err(e) ==> rejection_of(*keystroke, true) == Some(e),
{
    if modifier_key(keystroke.key.as_str()) {
        return Err(Rejection::ModifierOnly);
    }
    if !(keystroke.control || keystroke.alt || keystroke.platform) {
        return Err(Rejection::NeedsModifier);
    }
    let mut label = String::new();
    if keystroke.control {
        label.push_str("Ctrl+");
    }
    if keystroke.alt {
        label.push_str("Alt+");
    }
    if keystroke.shift {
        label.push_str("Shift+");
    }
    if keystroke.platform {
        label.push_str("Win+");
    }
    assert(label@ == modifier_text(
        keystroke.control,
        keystroke.alt,
        keystroke.shift,
        keystroke.platform,
    ));
    let token = main_key_token(keystroke.key.as_str());
    label.push_str(token.as_str());
    if reserved_label(label.as_str()) {
        return Err(Rejection::Reserved);
    }
    Ok(label)
}

/// The label of a combination, or why it is not allowed. The modifiers stand
/// in a fixed order, so that one combination has one label.
pub fn from_keystroke(keystroke: &Keystroke) -> (r: Result<String, Rejection>)
    ensures
        ({
            let why = rejection_of(*keystroke, label_understood(label_of(*keystroke)));
            &&& r is Ok <==> why is None
            &&& r matches Ok(label) ==> label@ == label_of(*keystroke)
            &&& r matches Err(e) ==> why == Some(e)
        }),
{
    match label_keystroke(keystroke) {
        Ok(label) => {
            if parse(label.as_str()).is_some() {
                Ok(label)
            } else {
                Err(Rejection::Unsupported)
            }
        },
        Err(e) => Err(e),
    }
}

// ---------------------------------------------------------------- laws

/// What was recorded can always be registered: an accepted label is
/// understood, and no page uses it.
pub proof fn recorded_labels_can_be_registered(k: Keystroke)
    requires
        rejection_of(k, label_understood(label_of(k))) is None,
    ensures
        label_understood(label_of(k)),
        !is_reserved(label_of(k)),
{
}

} // verus!
