//! The shell around the window: tray, menu and hotkey events.

use crate::clip_write::{decode_picture, decoded};
use crate::text::same_text;
use vstd::prelude::*;

verus! {

/// What the tray, the menu, the hotkey and the history ask for.
#[derive(Debug, Clone, Copy, PartialEq, Eq, Structural)]
pub enum ShellEvent {
    /// Show or hide the window.
    Toggle,
    /// Show the window.
    Show,
    /// The history has a new entry.
    ClipsChanged,
    Quit,
}

/// What the menu item with the given id asks for.
pub fn menu_event(id: &str) -> (r: Option<ShellEvent>)
    ensures
        r == if id@ == "toggle"@ {
            Some(ShellEvent::Toggle)
        } else if id@ == "quit"@ {
            Some(ShellEvent::Quit)
        } else {
            None
        },
{
    if same_text(id, "toggle") {
        Some(ShellEvent::Toggle)
    } else if same_text(id, "quit") {
        Some(ShellEvent::Quit)
    } else {
        None
    }
}

/// What the hotkey asks for: it acts when pressed, not when released.
pub fn hotkey_event(pressed: bool) -> (r: Option<ShellEvent>)
    ensures
        r == if pressed {
            Some(ShellEvent::Toggle)
        } else {
            None
        },
{
    if pressed {
        Some(ShellEvent::Toggle)
    } else {
        None
    }
}

/// What the tray icon asks for.
pub fn tray_event(double_click: bool) -> (r: Option<ShellEvent>)
    ensures
        r == if double_click {
            Some(ShellEvent::Show)
        } else {
            None
        },
{
    if double_click {
        Some(ShellEvent::Show)
    } else {
        None
    }
}

/// What an event does.
#[derive(Debug, Clone, Copy, PartialEq, Eq, Structural)]
pub enum ShellAction {
    Hide,
    /// Remember the window in front, then show ours.
    Show,
    Reload,
    Quit,
}

/// What an event does, given whether the window is visible: only a toggle hides
/// it.
pub open spec fn shell_action(event: ShellEvent, visible: bool) -> ShellAction {
    match event {
        ShellEvent::Toggle => if visible {
            ShellAction::Hide
        } else {
            ShellAction::Show
        },
        ShellEvent::Show => ShellAction::Show,
        ShellEvent::ClipsChanged => ShellAction::Reload,
        ShellEvent::Quit => ShellAction::Quit,
    }
}

pub fn handle_event(event: ShellEvent, visible: bool) -> (r: ShellAction)
    ensures
        r == shell_action(event, visible),
{
    match event {
        ShellEvent::Toggle => toggle_visibility(true, visible),
        ShellEvent::Show => toggle_visibility(false, visible),
        ShellEvent::ClipsChanged => ShellAction::Reload,
        ShellEvent::Quit => ShellAction::Quit,
    }
}

/// Hides a visible window where `toggle` asks for it, else shows it.
pub fn toggle_visibility(toggle: bool, visible: bool) -> (r: ShellAction)
    ensures
        r == (if toggle && visible {
            ShellAction::Hide
        } else {
            ShellAction::Show
        }),
{
    if toggle && visible {
        ShellAction::Hide
    } else {
        ShellAction::Show
    }
}

/// The text of the menu item that shows or hides the window.
pub fn toggle_item_text(label: &str) -> (r: String)
    ensures
        r@ == "显示 / 隐藏（"@ + label@ + "）"@,
{
    let mut s = "显示 / 隐藏（".to_owned();
    s.push_str(label);
    s.push_str("）");
    s
}

/// The text shown over the tray icon.
pub fn tray_tooltip(label: &str) -> (r: String)
    ensures
        r@ == "Wisp — "@ + label@ + " 唤起"@,
{
    let mut s = "Wisp — ".to_owned();
    s.push_str(label);
    s.push_str(" 唤起");
    s
}

// ---------------------------------------------------------------- tray picture

/// The edge of the tray picture.
pub const TRAY_SIZE: u32 = 32;

/// Whether a pixel lies in the disc in the middle of the tray picture.
pub open spec fn in_disc(x: int, y: int) -> bool {
    (x - 16) * (x - 16) + (y - 16) * (y - 16) <= 196
}

/// A byte of the tray picture: a purple disc on nothing.
pub open spec fn tray_byte(i: int) -> u8 {
    let pixel = i / 4;
    let channel = i % 4;
    if in_disc(pixel % 32, pixel / 32) {
        if channel == 0 {
            0x6c
        } else if channel == 1 {
            0x5c
        } else if channel == 2 {
            0xe7
        } else {
            0xff
        }
    } else {
        0
    }
}

/// The size and the pixels of the tray's icon, read from its file; none where
/// the file cannot be read as a picture.
pub fn tray_pixels(file: &[u8]) -> (r: Option<(u32, u32, Vec<u8>)>)
    ensures
        r is Some <==> decoded(file@) is Ok,
        r matches Some((width, height, rgba)) ==> (width, height, rgba@) == decoded(file@)->Ok_0,
{
    match decode_picture(file) {
        Ok(picture) => Some(picture),
        Err(_) => None,
    }
}

/// The picture shown in the tray where the icon cannot be read: a purple disc.
pub fn fallback_tray_pixels() -> (r: Vec<u8>)
    ensures
        r@ == Seq::new(4096, |i: int| tray_byte(i)),
{
    let mut out: Vec<u8> = Vec::new();
    for pixel in 0..1024usize
        invariant
            out@.len() == 4 * pixel,
            forall|i: int| 0 <= i < out@.len() ==> out@[i] == tray_byte(i),
    {
        let x: i32 = (pixel % 32) as i32 - 16;
        let y: i32 = (pixel / 32) as i32 - 16;
        assert(x * x <= 256 && y * y <= 256) by (nonlinear_arith)
            requires
                -16 <= x <= 16,
                -16 <= y <= 16,
        ;
        assert(x * x >= 0 && y * y >= 0) by (nonlinear_arith);
        let inside = x * x + y * y <= 196;
        assert(inside == in_disc((pixel % 32) as int, (pixel / 32) as int));
        let ghost before = out@;
        if inside {
            out.push(0x6c);
            out.push(0x5c);
            out.push(0xe7);
            out.push(0xff);
        } else {
            out.push(0);
            out.push(0);
            out.push(0);
            out.push(0);
        }
        assert forall|i: int| 0 <= i < out@.len() implies out@[i] == tray_byte(i) by {
            if i < before.len() {
                assert(out@[i] == before[i]);
            } else {
                assert(i / 4 == pixel);
            }
        }
    }
    assert(out@ == Seq::new(4096, |i: int| tray_byte(i)));
    out
}

/// Whether the window is visible after an action.
pub open spec fn visible_after(action: ShellAction, visible: bool) -> bool {
    match action {
        ShellAction::Hide => false,
        ShellAction::Show => true,
        _ => visible,
    }
}

/// Toggling once changes whether the window is visible; toggling twice returns
/// to the state before.
pub proof fn toggling_twice_returns(visible: bool)
    ensures
        ({
            let once = visible_after(shell_action(ShellEvent::Toggle, visible), visible);
            &&& once != visible
            &&& visible_after(shell_action(ShellEvent::Toggle, once), once) == visible
        }),
{
}

} // verus!
