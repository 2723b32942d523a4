//! The theme that the user prefers.

use crate::text::same_text;
use vstd::prelude::*;

verus! {

/// The theme that the user prefers.
#[derive(Debug, Clone, Copy, PartialEq, Eq, Structural)]
pub enum ThemePreference {
    /// Follow the system.
    System,
    Light,
    Dark,
}

impl Default for ThemePreference {
    fn default() -> (r: Self)
        ensures
            r == ThemePreference::System,
    {
        ThemePreference::System
    }
}

/// The word under which a preference is stored.
pub open spec fn theme_key(theme: ThemePreference) -> Seq<char> {
    match theme {
        ThemePreference::System => "system"@,
        ThemePreference::Light => "light"@,
        ThemePreference::Dark => "dark"@,
    }
}

pub open spec fn theme_name(theme: ThemePreference) -> Seq<char> {
    match theme {
        ThemePreference::System => "跟随系统"@,
        ThemePreference::Light => "浅色模式"@,
        ThemePreference::Dark => "深色模式"@,
    }
}

/// The preference stored under a word.
pub open spec fn theme_of_key(key: Seq<char>) -> Option<ThemePreference> {
    if key == "system"@ {
        Some(ThemePreference::System)
    } else if key == "light"@ {
        Some(ThemePreference::Light)
    } else if key == "dark"@ {
        Some(ThemePreference::Dark)
    } else {
        None
    }
}

pub open spec fn theme_after(theme: ThemePreference) -> ThemePreference {
    match theme {
        ThemePreference::System => ThemePreference::Light,
        ThemePreference::Light => ThemePreference::Dark,
        ThemePreference::Dark => ThemePreference::System,
    }
}

impl ThemePreference {
    /// In the order in which the settings offer them.
    pub const ALL: [ThemePreference; 3] = [
        ThemePreference::System,
        ThemePreference::Light,
        ThemePreference::Dark,
    ];

    /// The preference in force, given what is stored: an unknown or missing
    /// word means to follow the system.
    pub fn current(stored: Option<&str>) -> (r: Self)
        ensures
            r == match stored {
                Some(key) => match theme_of_key(key@) {
                    Some(theme) => theme,
                    None => ThemePreference::System,
                },
                None => ThemePreference::System,
            },
    {
        match stored {
            Some(key) => match ThemePreference::from_key(key) {
                Some(theme) => theme,
                None => ThemePreference::System,
            },
            None => ThemePreference::System,
        }
    }

    /// The next preference of the button that goes round all of them.
    pub fn next(self) -> (r: Self)
        ensures
            r == theme_after(self),
    {
        match self {
            ThemePreference::System => ThemePreference::Light,
            ThemePreference::Light => ThemePreference::Dark,
            ThemePreference::Dark => ThemePreference::System,
        }
    }

    /// The word under which the preference is stored.
    pub fn key(self) -> (r: &'static str)
        ensures
            r@ == theme_key(self),
    {
        match self {
            ThemePreference::System => "system",
            ThemePreference::Light => "light",
            ThemePreference::Dark => "dark",
        }
    }

    /// The preference stored under a word.
    pub fn from_key(key: &str) -> (r: Option<Self>)
        ensures
            r == theme_of_key(key@),
    {
        if same_text(key, "system") {
            Some(ThemePreference::System)
        } else if same_text(key, "light") {
            Some(ThemePreference::Light)
        } else if same_text(key, "dark") {
            Some(ThemePreference::Dark)
        } else {
            None
        }
    }

    /// The name shown for the preference.
    pub fn name(self) -> (r: &'static str)
        ensures
            r@ == theme_name(self),
    {
        match self {
            ThemePreference::System => "跟随系统",
            ThemePreference::Light => "浅色模式",
            ThemePreference::Dark => "深色模式",
        }
    }
}

/// A stored preference is read back.
pub proof fn theme_keys_read_back(theme: ThemePreference)
    ensures
        theme_of_key(theme_key(theme)) == Some(theme),
{
    reveal_strlit("system");
    reveal_strlit("light");
    reveal_strlit("dark");
    assert("system"@.len() == 6 && "light"@.len() == 5 && "dark"@.len() == 4);
}

/// Three steps go through every preference and back to the first.
pub proof fn cycling_returns(theme: ThemePreference, other: ThemePreference)
    ensures
        theme_after(theme_after(theme_after(theme))) == theme,
        other == theme || other == theme_after(theme) || other == theme_after(theme_after(theme)),
{
}

} // verus!
