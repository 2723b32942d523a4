//! The icons that come with the application.

use crate::order::survivors;
use crate::text::{chars_of, occurs_at, same_text, stands_at, views};
use vstd::prelude::*;

verus! {

/// An icon of our own.
#[derive(Debug, Clone, Copy, PartialEq, Eq, Structural)]
pub enum WispIcon {
    /// The window stays when it loses the focus.
    Pin,
    /// The window hides when it loses the focus.
    PinOff,
    Logo,
    /// The theme follows the system.
    ThemeSystem,
    /// Clear the history.
    Trash,
}

pub open spec fn icon_path(icon: WispIcon) -> Seq<char> {
    match icon {
        WispIcon::Pin => "icons/pin.svg"@,
        WispIcon::PinOff => "icons/pin-off.svg"@,
        WispIcon::Logo => "icons/logo.svg"@,
        WispIcon::ThemeSystem => "icons/theme-system.svg"@,
        WispIcon::Trash => "icons/trash.svg"@,
    }
}

/// The icon at a path.
pub open spec fn is_icon_at(icon: Option<WispIcon>, path: Seq<char>) -> bool {
    match icon {
        Some(i) => icon_path(i) == path,
        None => forall|i: WispIcon| icon_path(i) != path,
    }
}

impl WispIcon {
    pub const ALL: [WispIcon; 5] = [
        WispIcon::Pin,
        WispIcon::PinOff,
        WispIcon::Logo,
        WispIcon::ThemeSystem,
        WispIcon::Trash,
    ];

    pub fn path(self) -> (r: &'static str)
        ensures
            r@ == icon_path(self),
    {
        match self {
            WispIcon::Pin => "icons/pin.svg",
            WispIcon::PinOff => "icons/pin-off.svg",
            WispIcon::Logo => "icons/logo.svg",
            WispIcon::ThemeSystem => "icons/theme-system.svg",
            WispIcon::Trash => "icons/trash.svg",
        }
    }

    /// The icon at a path; none where the path is not one of ours.
    pub fn at(path: &str) -> (r: Option<WispIcon>)
        ensures
            is_icon_at(r, path@),
    {
        for i in 0..5usize
            invariant
                forall|j: int| 0 <= j < i ==> icon_path(#[trigger] WispIcon::ALL@[j]) != path@,
        {
            let icon = WispIcon::ALL[i];
            if same_text(path, icon.path()) {
                return Some(icon);
            }
        }
        proof {
            assert forall|i: WispIcon| icon_path(i) != path@ by {
                assert(icon_path(WispIcon::ALL@[icon_index(i)]) != path@);
            }
        }
        None
    }
}

pub open spec fn icon_index(icon: WispIcon) -> int {
    match icon {
        WispIcon::Pin => 0,
        WispIcon::PinOff => 1,
        WispIcon::Logo => 2,
        WispIcon::ThemeSystem => 3,
        WispIcon::Trash => 4,
    }
}

pub open spec fn icon_paths() -> Seq<Seq<char>> {
    Seq::new(5, |i: int| icon_path(WispIcon::ALL@[i]))
}

/// Adds the paths of our own icons below `prefix` to the paths of others.
pub fn list_assets(base: Vec<String>, prefix: &str) -> (r: Vec<String>)
    ensures
        views(r@) == views(base@) + survivors(
            icon_paths(),
            |p: Seq<char>| occurs_at(p, prefix@, 0),
        ),
{
    let ghost f = |p: Seq<char>| occurs_at(p, prefix@, 0);
    let ghost start = views(base@);
    let ghost all = icon_paths();
    let want = chars_of(prefix);
    let mut out = base;
    proof {
        assert(all.take(0) == Seq::<Seq<char>>::empty());
        assert(start + Seq::<Seq<char>>::empty() == start);
    }
    for i in 0..5usize
        invariant
            f == |p: Seq<char>| occurs_at(p, prefix@, 0),
            all == icon_paths(),
            want@ == prefix@,
            views(out@) == start + survivors(all.take(i as int), f),
    {
        let path = WispIcon::ALL[i].path();
        let v = chars_of(path);
        proof {
            assert(all[i as int] == path@);
            assert(all.take(i + 1).drop_last() == all.take(i as int));
        }
        if stands_at(&v, &want, 0) {
            let ghost before = views(out@);
            out.push(path.to_owned());
            proof {
                assert(views(out@) == before.push(path@));
                let head = survivors(all.take(i as int), f);
                assert(start + head.push(path@) == (start + head).push(path@));
            }
        }
    }
    assert(all.take(5) == all);
    out
}

} // verus!
