//! The main window: which page is shown, and what its keys do.

use crate::home_view::OpenFeature;
use crate::text::same_text;
use crate::theme::ThemePreference;
use vstd::prelude::*;

verus! {

/// The pages of the main window.
#[derive(Debug, Clone, Copy, PartialEq, Eq, Structural)]
pub enum Page {
    Home,
    Clipboard,
    Memo,
    Ip,
    Settings,
}

pub open spec fn page_title(page: Page) -> Seq<char> {
    match page {
        Page::Home => "Wisp"@,
        Page::Clipboard => "剪贴板"@,
        Page::Memo => "备忘快贴"@,
        Page::Ip => "IP 工具"@,
        Page::Settings => "设置"@,
    }
}

/// The word under which a page is remembered.
pub open spec fn page_key(page: Page) -> Seq<char> {
    match page {
        Page::Home => "home"@,
        Page::Clipboard => "clipboard"@,
        Page::Memo => "memo"@,
        Page::Ip => "ip"@,
        Page::Settings => "settings"@,
    }
}

/// The page remembered under a word. The settings are never shown again at the
/// next start.
pub open spec fn page_of_key(key: Seq<char>) -> Option<Page> {
    if key == "home"@ {
        Some(Page::Home)
    } else if key == "clipboard"@ {
        Some(Page::Clipboard)
    } else if key == "memo"@ {
        Some(Page::Memo)
    } else if key == "ip"@ {
        Some(Page::Ip)
    } else {
        None
    }
}

impl Page {
    pub fn title(self) -> (r: &'static str)
        ensures
            r@ == page_title(self),
    {
        match self {
            Page::Home => "Wisp",
            Page::Clipboard => "剪贴板",
            Page::Memo => "备忘快贴",
            Page::Ip => "IP 工具",
            Page::Settings => "设置",
        }
    }

    /// The word under which the page is remembered.
    pub fn key(self) -> (r: &'static str)
        ensures
            r@ == page_key(self),
    {
        match self {
            Page::Home => "home",
            Page::Clipboard => "clipboard",
            Page::Memo => "memo",
            Page::Ip => "ip",
            Page::Settings => "settings",
        }
    }

    /// The page remembered under a word.
    pub fn from_key(key: &str) -> (r: Option<Self>)
        ensures
            r == page_of_key(key@),
    {
        if same_text(key, "home") {
            Some(Page::Home)
        } else if same_text(key, "clipboard") {
            Some(Page::Clipboard)
        } else if same_text(key, "memo") {
            Some(Page::Memo)
        } else if same_text(key, "ip") {
            Some(Page::Ip)
        } else {
            None
        }
    }

    /// The page of a feature.
    pub fn of_feature(feature: OpenFeature) -> (r: Self)
        ensures
            r == match feature {
                OpenFeature::Clipboard => Page::Clipboard,
                OpenFeature::Memo => Page::Memo,
                OpenFeature::Ip => Page::Ip,
            },
    {
        match feature {
            OpenFeature::Clipboard => Page::Clipboard,
            OpenFeature::Memo => Page::Memo,
            OpenFeature::Ip => Page::Ip,
        }
    }
}

/// What a key asks of the main window.
#[derive(Debug, Clone, Copy, PartialEq, Eq, Structural)]
pub enum WindowAction {
    Nothing,
    Open(Page),
    Hide,
}

/// What happens when the window becomes active or stops being so.
#[derive(Debug, Clone, Copy, PartialEq, Eq, Structural)]
pub enum ActivationAction {
    Nothing,
    /// Focus the page and show it anew.
    Refresh,
    Hide,
}

/// What follows from opening a page.
#[derive(Debug, Clone, Copy)]
pub struct PageChange {
    /// A hotkey that is being recorded must be given up and the old one
    /// restored.
    pub cancel_recording: bool,
    /// The word to remember, if the page is to be remembered.
    pub remember: Option<&'static str>,
}

/// What a key does on a page: Control and a digit or a comma open a page, and
/// Escape leads back home, then hides the window.
pub open spec fn window_action(page: Page, control: bool, key: Seq<char>) -> WindowAction {
    if control {
        if key == "1"@ {
            WindowAction::Open(Page::Clipboard)
        } else if key == "2"@ {
            WindowAction::Open(Page::Memo)
        } else if key == "3"@ {
            WindowAction::Open(Page::Ip)
        } else if key == ","@ {
            WindowAction::Open(Page::Settings)
        } else {
            WindowAction::Nothing
        }
    } else if key == "escape"@ {
        if page == Page::Home {
            WindowAction::Hide
        } else {
            WindowAction::Open(Page::Home)
        }
    } else {
        WindowAction::Nothing
    }
}

/// The main window.
#[derive(Debug, Clone, Copy, PartialEq, Eq, Structural)]
pub struct WispView {
    pub page: Page,
    /// Hide when the window loses the focus.
    pub auto_hide: bool,
}

impl WispView {
    /// Starts on the remembered page, else at home.
    pub fn new(last_page: Option<&str>) -> (r: Self)
        ensures
            r.auto_hide,
            r.page == match last_page {
                Some(key) => match page_of_key(key@) {
                    Some(page) => page,
                    None => Page::Home,
                },
                None => Page::Home,
            },
    {
        let page = match last_page {
            Some(key) => match Page::from_key(key) {
                Some(page) => page,
                None => Page::Home,
            },
            None => Page::Home,
        };
        WispView { page, auto_hide: true }
    }

    /// Opens a page.
    pub fn open_page(&mut self, page: Page) -> (r: PageChange)
        ensures
            *final(self) == (WispView { page, ..*old(self) }),
            r.cancel_recording == (old(self).page == Page::Settings && page != Page::Settings),
            r.remember is Some <==> page != Page::Settings,
            r.remember matches Some(key) ==> key@ == page_key(page),
    {
        let cancel_recording = self.page == Page::Settings && page != Page::Settings;
        self.page = page;
        let remember = if page != Page::Settings {
            Some(page.key())
        } else {
            None
        };
        PageChange { cancel_recording, remember }
    }

    /// What a key does.
    pub fn key_action(&self, control: bool, key: &str) -> (r: WindowAction)
        ensures
            r == window_action(self.page, control, key@),
    {
        if control {
            if same_text(key, "1") {
                WindowAction::Open(Page::Clipboard)
            } else if same_text(key, "2") {
                WindowAction::Open(Page::Memo)
            } else if same_text(key, "3") {
                WindowAction::Open(Page::Ip)
            } else if same_text(key, ",") {
                WindowAction::Open(Page::Settings)
            } else {
                WindowAction::Nothing
            }
        } else if same_text(key, "escape") {
            if self.page == Page::Home {
                WindowAction::Hide
            } else {
                WindowAction::Open(Page::Home)
            }
        } else {
            WindowAction::Nothing
        }
    }

    /// What follows when the window becomes active or stops being so.
    pub fn activation_changed(&self, active: bool) -> (r: ActivationAction)
        ensures
            r == (if active {
                ActivationAction::Refresh
            } else if self.auto_hide {
                ActivationAction::Hide
            } else {
                ActivationAction::Nothing
            }),
    {
        if active {
            ActivationAction::Refresh
        } else if self.auto_hide {
            ActivationAction::Hide
        } else {
            ActivationAction::Nothing
        }
    }

    /// Whether a change of the system's appearance concerns the window: only
    /// where the theme follows the system.
    pub fn follows_appearance(theme: ThemePreference) -> (r: bool)
        ensures
            r == (theme == ThemePreference::System),
    {
        theme == ThemePreference::System
    }

    /// Whether new entries of the history are to be shown at once.
    pub fn shows_clips(&self) -> (r: bool)
        ensures
            r == (self.page == Page::Clipboard),
    {
        self.page == Page::Clipboard
    }

    /// Whether the page has contents to show anew.
    pub fn page_reloads(&self) -> (r: bool)
        ensures
            r == (self.page != Page::Settings),
    {
        self.page != Page::Settings
    }

    /// Keeps the window when it loses the focus, or stops doing so.
    pub fn toggle_auto_hide(&mut self)
        ensures
            *final(self) == (WispView { auto_hide: !old(self).auto_hide, ..*old(self) }),
    {
        self.auto_hide = !self.auto_hide;
    }
}

// ---------------------------------------------------------------- laws

/// A remembered page is shown again; the settings are not among them.
pub proof fn remembered_pages_are_restored(page: Page)
    ensures
        page_of_key(page_key(page)) == if page == Page::Settings {
            None
        } else {
            Some(page)
        },
{
    reveal_strlit("home");
    reveal_strlit("clipboard");
    reveal_strlit("memo");
    reveal_strlit("ip");
    reveal_strlit("settings");
    assert("home"@[0] == 'h' && "memo"@[0] == 'm');
    assert("home"@.len() == 4 && "memo"@.len() == 4);
    assert("clipboard"@.len() == 9 && "ip"@.len() == 2 && "settings"@.len() == 8);
}

/// From every page, Escape hides the window after at most two presses.
pub proof fn escape_leads_out(page: Page)
    ensures
        window_action(page, false, "escape"@) == if page == Page::Home {
            WindowAction::Hide
        } else {
            WindowAction::Open(Page::Home)
        },
        window_action(Page::Home, false, "escape"@) == WindowAction::Hide,
{
}

} // verus!
