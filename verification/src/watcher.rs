//! What the hidden window that listens for clipboard changes does.

use vstd::prelude::*;

verus! {

pub const WM_DESTROY: u32 = 0x0002;

pub const WM_CLIPBOARDUPDATE: u32 = 0x031d;

/// What a message to the listening window asks for.
#[derive(Debug, Clone, Copy, PartialEq, Eq, Structural)]
pub enum WatcherAction {
    /// Tell the worker that the clipboard changed.
    Notify,
    /// Stop listening and leave the message loop.
    Quit,
    /// Leave the message to the system.
    PassOn,
}

pub open spec fn action_for(msg: u32) -> WatcherAction {
    if msg == WM_CLIPBOARDUPDATE {
        WatcherAction::Notify
    } else if msg == WM_DESTROY {
        WatcherAction::Quit
    } else {
        WatcherAction::PassOn
    }
}

/// What a message to the listening window asks for.
pub fn watcher_action(msg: u32) -> (r: WatcherAction)
    ensures
        r == action_for(msg),
{
    if msg == WM_CLIPBOARDUPDATE {
        WatcherAction::Notify
    } else if msg == WM_DESTROY {
        WatcherAction::Quit
    } else {
        WatcherAction::PassOn
    }
}

} // verus!
