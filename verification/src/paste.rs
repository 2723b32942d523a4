//! Handing contents back to the window that the user came from.

use vstd::prelude::*;

verus! {

/// How long the target window gets to take the focus.
pub const FOCUS_SETTLE_MS: u64 = 80;

/// The pause between groups of key strokes.
pub const KEYSTROKE_GAP_MS: u64 = 20;

pub const VK_SHIFT: u16 = 0x10;

pub const VK_CONTROL: u16 = 0x11;

pub const VK_MENU: u16 = 0x12;

pub const VK_V: u16 = 0x56;

pub const VK_LWIN: u16 = 0x5b;

pub const VK_RWIN: u16 = 0x5c;

/// A key going down or up.
#[derive(Debug, Clone, Copy, PartialEq, Eq, Structural)]
pub struct KeyStroke {
    pub key: u16,
    pub up: bool,
}

/// The window that contents are handed back to: the one in front, unless
/// there is none or it is our own.
pub open spec fn paste_target(foreground: isize, own: Option<isize>) -> Option<isize> {
    if foreground == 0 || own == Some(foreground) {
        None
    } else {
        Some(foreground)
    }
}

/// Picks the window to hand contents back to. `foreground` is the handle of the
/// window in front, zero for none; it must be asked for before our own window
/// is shown.
pub fn capture_foreground(foreground: isize, self_hwnd: Option<isize>) -> (r: Option<isize>)
    ensures
        r == paste_target(foreground, self_hwnd),
{
    if foreground == 0 {
        return None;
    }
    match self_hwnd {
        Some(own) => if own == foreground {
            None
        } else {
            Some(foreground)
        },
        None => Some(foreground),
    }
}

/// The modifiers that may still be held from the hotkey. Control is not among
/// them: the paste needs it.
pub open spec fn modifiers() -> Seq<u16> {
    seq![VK_MENU, VK_SHIFT, VK_LWIN, VK_RWIN]
}

/// The modifiers that may still be held from the hotkey.
pub fn modifier_keys() -> (r: Vec<u16>)
    ensures
        r@ == modifiers(),
{
    let keys: Vec<u16> = vec![VK_MENU, VK_SHIFT, VK_LWIN, VK_RWIN];
    assert(keys@ == modifiers());
    keys
}

/// The high bit of a key's state says that it is down.
pub open spec fn is_down(state: i16) -> bool {
    state < 0
}

/// The strokes that release the modifiers that are down; `states` holds the
/// state of each modifier.
pub open spec fn releases(states: Seq<i16>) -> Seq<KeyStroke>
    decreases states.len(),
{
    if states.len() == 0 {
        Seq::empty()
    } else {
        let head = releases(states.drop_last());
        if is_down(states.last()) {
            head.push(KeyStroke { key: modifiers()[states.len() - 1], up: true })
        } else {
            head
        }
    }
}

/// The strokes that release the modifiers that are still down; `states` holds
/// the state of each of [`modifier_keys`].
pub fn release_stuck_modifiers(states: &Vec<i16>) -> (r: Vec<KeyStroke>)
    requires
        states@.len() == 4,
    ensures
        r@ == releases(states@),
{
    let keys = modifier_keys();
    let mut out: Vec<KeyStroke> = Vec::new();
    assert(states@.take(0) == Seq::<i16>::empty());
    for i in 0..states.len()
        invariant
            states@.len() == 4,
            keys@ == modifiers(),
            out@ == releases(states@.take(i as int)),
    {
        assert(states@.take(i + 1).drop_last() == states@.take(i as int));
        if states[i] < 0 {
            out.push(KeyStroke { key: keys[i], up: true });
        }
    }
    assert(states@.take(4) == states@);
    out
}

/// The strokes of the paste command that press its keys.
pub open spec fn presses() -> Seq<KeyStroke> {
    seq![KeyStroke { key: VK_CONTROL, up: false }, KeyStroke { key: VK_V, up: false }]
}

/// The strokes of the paste command that release its keys.
pub open spec fn paste_releases() -> Seq<KeyStroke> {
    seq![KeyStroke { key: VK_V, up: true }, KeyStroke { key: VK_CONTROL, up: true }]
}

/// The strokes of the paste command: first those that press its keys, then,
/// after a pause, those that release them.
pub fn ctrl_v_strokes() -> (r: (Vec<KeyStroke>, Vec<KeyStroke>))
    ensures
        r.0@ == presses(),
        r.1@ == paste_releases(),
{
    let down: Vec<KeyStroke> = vec![
        KeyStroke { key: VK_CONTROL, up: false },
        KeyStroke { key: VK_V, up: false },
    ];
    let up: Vec<KeyStroke> = vec![
        KeyStroke { key: VK_V, up: true },
        KeyStroke { key: VK_CONTROL, up: true },
    ];
    assert(down@ == presses());
    assert(up@ == paste_releases());
    (down, up)
}

/// Every key that the paste command presses it also releases, the last pressed
/// first.
pub proof fn paste_releases_what_it_presses(i: int)
    requires
        0 <= i < presses().len(),
    ensures
        presses().len() == paste_releases().len(),
        !presses()[i].up,
        paste_releases()[presses().len() - 1 - i] == (KeyStroke { key: presses()[i].key, up: true }),
{
}

} // verus!
