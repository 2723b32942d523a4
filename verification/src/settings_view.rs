//! The settings page: recording a new hotkey.
//!
//! While a hotkey is recorded the current one is suspended, for pressing it
//! would hide the window. Every way out of recording must restore it.

use crate::hotkey::{
    from_keystroke, label_of, label_understood, rejection_message, rejection_of, Keystroke,
    Rejection, DEFAULT_CANDIDATES,
};
use crate::text::{opt_view, same_text};
use vstd::prelude::*;

verus! {

/// What is to be done about the registered hotkey.
#[derive(Debug)]
pub enum HotkeyAction {
    Nothing,
    /// Unregister the current hotkey while a new one is recorded.
    Suspend,
    /// Register the current hotkey again.
    Resume,
    /// Register the hotkey with this label in place of the current one.
    Rebind(String),
}

/// What a key press asks for while a hotkey is recorded; `understood` says
/// whether its label can be registered.
pub enum Captured {
    /// Give up.
    Cancel,
    /// Take this label.
    Accept(Seq<char>),
    /// Wait for the main key.
    Wait,
    /// Say why the combination is not allowed.
    Refuse(Rejection),
}

pub open spec fn captured(k: Keystroke, understood: bool) -> Captured {
    if k.key@ == "escape"@ {
        Captured::Cancel
    } else {
        match rejection_of(k, understood) {
            None => Captured::Accept(label_of(k)),
            Some(Rejection::ModifierOnly) => Captured::Wait,
            Some(r) => Captured::Refuse(r),
        }
    }
}

/// The settings page.
#[derive(Debug)]
pub struct SettingsView {
    /// A hotkey is being recorded, and the current one is suspended.
    pub recording: bool,
    /// Why the last attempt failed.
    pub error: Option<String>,
}

impl SettingsView {
    pub fn new() -> (r: Self)
        ensures
            !r.recording,
            r.error is None,
    {
        SettingsView { recording: false, error: None }
    }

    /// Gives up recording, if it is going on, and restores the hotkey. Also
    /// called when the window loses the focus and when another page opens.
    pub fn cancel_recording(&mut self) -> (r: HotkeyAction)
        ensures
            !final(self).recording,
            old(self).recording ==> r is Resume && final(self).error is None,
            !old(self).recording ==> r is Nothing && final(self).error == old(self).error,
    {
        if self.recording {
            self.recording = false;
            self.error = None;
            HotkeyAction::Resume
        } else {
            HotkeyAction::Nothing
        }
    }

    /// Starts recording, unless it is going on.
    pub fn start_recording(&mut self) -> (r: HotkeyAction)
        ensures
            final(self).recording,
            !old(self).recording ==> r is Suspend && final(self).error is None,
            old(self).recording ==> r is Nothing && final(self).error == old(self).error,
    {
        if self.recording {
            HotkeyAction::Nothing
        } else {
            self.recording = true;
            self.error = None;
            HotkeyAction::Suspend
        }
    }

    /// Takes a key press while recording. An allowed combination is to be
    /// registered, Escape gives up, and anything else is refused with a
    /// reason, except that a modifier alone is waited on.
    pub fn capture_keystroke(&mut self, keystroke: &Keystroke) -> (r: HotkeyAction)
        requires
            old(self).recording,
        ensures
            match captured(*keystroke, label_understood(label_of(*keystroke))) {
                Captured::Cancel => r is Resume && !final(self).recording
                    && final(self).error is None,
                Captured::Accept(label) => r matches HotkeyAction::Rebind(s) && s@ == label
                    && !final(self).recording && final(self).error == old(self).error,
                Captured::Wait => r is Nothing && final(self).recording && final(self).error
                    == old(self).error,
                Captured::Refuse(why) => r is Nothing && final(self).recording && opt_view(
                    final(self).error,
                ) == Some(rejection_message(why)),
            },
    {
        if same_text(keystroke.key.as_str(), "escape") {
            return self.cancel_recording();
        }
        match from_keystroke(keystroke) {
            Ok(label) => {
                self.recording = false;
                HotkeyAction::Rebind(label)
            },
            Err(Rejection::ModifierOnly) => HotkeyAction::Nothing,
            Err(rejection) => {
                self.error = Some(rejection.message().to_owned());
                HotkeyAction::Nothing
            },
        }
    }

    /// What became of registering a hotkey.
    pub fn rebound(&mut self, error: Option<String>)
        ensures
            final(self).recording == old(self).recording,
            final(self).error == error,
    {
        self.error = error;
    }
}

/// How far the search for a default hotkey is.
pub struct DefaultModel {
    /// How many labels could not be registered.
    pub tried: nat,
    /// A label was registered, and the search is over.
    pub registered: bool,
    /// Why the last label could not be registered.
    pub last_error: Option<Seq<char>>,
}

impl DefaultModel {
    /// There is a label to try.
    pub open spec fn due(self) -> bool {
        !self.registered && self.tried < DEFAULT_CANDIDATES@.len()
    }

    /// The search after the label tried now was registered, or failed with an
    /// error. A label that was registered makes earlier failures void.
    pub open spec fn attempted(self, error: Option<Seq<char>>) -> DefaultModel {
        match error {
            None => DefaultModel { registered: true, last_error: None, ..self },
            Some(_) => DefaultModel { tried: self.tried + 1, last_error: error, ..self },
        }
    }
}

/// The default hotkeys tried one after the other until one is registered.
#[derive(Debug)]
pub struct DefaultSearch {
    pub tried: usize,
    pub registered: bool,
    pub last_error: Option<String>,
}

impl View for DefaultSearch {
    type V = DefaultModel;

    open spec fn view(&self) -> DefaultModel {
        DefaultModel {
            tried: self.tried as nat,
            registered: self.registered,
            last_error: opt_view(self.last_error),
        }
    }
}

/// A search that has not tried any label yet.
pub open spec fn defaults_begun() -> DefaultModel {
    DefaultModel { tried: 0, registered: false, last_error: None }
}

impl DefaultSearch {
    pub fn new() -> (r: Self)
        ensures
            r@ == defaults_begun(),
    {
        DefaultSearch { tried: 0, registered: false, last_error: None }
    }

    /// The label to try now; none once one was registered or all of them failed.
    pub fn label(&self) -> (r: Option<&'static str>)
        ensures
            r is Some <==> self@.due(),
            r matches Some(s) ==> s@ == DEFAULT_CANDIDATES@[self.tried as int]@,
    {
        if !self.registered && self.tried < 3 {
            Some(DEFAULT_CANDIDATES[self.tried])
        } else {
            None
        }
    }

    /// The label tried now could not be registered.
    pub fn fail(&mut self, error: String)
        requires
            old(self)@.due(),
        ensures
            final(self)@ == old(self)@.attempted(Some(error@)),
    {
        self.tried = self.tried + 1;
        self.last_error = Some(error);
    }

    /// The label tried now was registered: the search is over, and earlier
    /// failures do not count.
    pub fn succeed(&mut self)
        requires
            old(self)@.due(),
        ensures
            final(self)@ == old(self)@.attempted(None),
    {
        self.registered = true;
        self.last_error = None;
    }
}

/// The search for a default hotkey after `n` steps, where `errors` tells for
/// each label why it cannot be registered, if it cannot. Once the search is over
/// nothing changes any more.
pub open spec fn defaults_after(errors: spec_fn(int) -> Option<Seq<char>>, n: nat) -> DefaultModel
    decreases n,
{
    if n == 0 {
        defaults_begun()
    } else {
        let before = defaults_after(errors, (n - 1) as nat);
        if before.due() {
            before.attempted(errors(n - 1))
        } else {
            before
        }
    }
}

/// The default hotkeys are tried in order up to and including the first that
/// can be registered, and no further. An error is left only where all of them
/// failed: that of the last. The first `k` labels are those that fail.
pub proof fn defaults_stop_at_first_success(
    errors: spec_fn(int) -> Option<Seq<char>>,
    k: nat,
    n: nat,
)
    requires
        k <= DEFAULT_CANDIDATES@.len(),
        forall|i: int| 0 <= i < k ==> (#[trigger] errors(i)) is Some,
        k < DEFAULT_CANDIDATES@.len() ==> errors(k as int) is None,
    ensures
        n <= k ==> defaults_after(errors, n) == (DefaultModel {
            tried: n,
            registered: false,
            last_error: if n == 0 {
                None
            } else {
                errors(n - 1)
            },
        }),
        n > k && k < DEFAULT_CANDIDATES@.len() ==> defaults_after(errors, n) == (DefaultModel {
            tried: k,
            registered: true,
            last_error: None,
        }),
        n >= k && k == DEFAULT_CANDIDATES@.len() ==> defaults_after(errors, n) == (DefaultModel {
            tried: k,
            registered: false,
            last_error: errors(k - 1),
        }),
    decreases n,
{
    if n > 0 {
        defaults_stop_at_first_success(errors, k, (n - 1) as nat);
        if n <= k {
            assert(errors(n - 1) is Some);
        }
    }
}

/// Whether a stored value hides the tray icon.
pub open spec fn hides_tray(stored: Option<Seq<char>>) -> bool {
    stored == Some("1"@)
}

/// The value stored for hiding the tray icon.
pub open spec fn tray_value(hidden: bool) -> Seq<char> {
    if hidden {
        "1"@
    } else {
        "0"@
    }
}

/// Whether the stored setting hides the tray icon.
pub fn tray_hidden(stored: Option<&str>) -> (r: bool)
    ensures
        r == hides_tray(
            match stored {
                Some(s) => Some(s@),
                None => None,
            },
        ),
{
    match stored {
        Some(s) => same_text(s, "1"),
        None => false,
    }
}

/// The value stored for hiding the tray icon.
pub fn tray_setting(hidden: bool) -> (r: &'static str)
    ensures
        r@ == tray_value(hidden),
{
    if hidden {
        "1"
    } else {
        "0"
    }
}

/// The stored setting of the tray icon reads back.
pub proof fn tray_setting_reads_back(hidden: bool)
    ensures
        hides_tray(Some(tray_value(hidden))) == hidden,
{
    reveal_strlit("0");
    reveal_strlit("1");
    assert("0"@[0] == '0' && "1"@[0] == '1');
}

} // verus!
