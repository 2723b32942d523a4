//! The page of the clipboard history: list, cursor, selection and texts.

use crate::clip::{Clip, ClipFilter, ClipKind, ClipModel};
use crate::ip_addr::{all_digits, digit_value, number_of};
use crate::order::{lemma_all_survive, survivors};
use crate::picture::is_managed;
use crate::selection::{keep_cursor, kept_within, move_cursor, moved};
use crate::service::{shown_file_name, shown_name, ClipboardService};
use crate::store::{
    clip_models, contents, pattern_too_long, pin_toggled, query_result, reordered, without_id,
    RowModel,
};
use crate::text::{
    char_views, chars_of, decimal, lines, lines_of, number_text, same_text, slice_of, string_of,
    views,
};
use vstd::prelude::*;

verus! {

/// How many entries the list holds.
pub const QUERY_LIMIT: usize = 500;

/// How much of a text the preview shows.
pub const TOOLTIP_PREVIEW_CHARS: usize = 500;

/// How long the pointer must rest before the preview is shown.
pub const TOOLTIP_DELAY_MS: u64 = 300;

/// How many large previews are kept; they are dropped together.
pub const PREVIEW_CACHE_MAX: usize = 12;

/// How many file names the preview lists.
pub const MAX_PREVIEW_FILES: usize = 12;

/// The entries that a list shows.
pub open spec fn shown_entries(
    rows: Seq<RowModel>,
    filter: ClipFilter,
    keyword: Seq<char>,
) -> Seq<ClipModel> {
    if pattern_too_long(keyword) {
        Seq::empty()
    } else {
        query_result(rows, filter, keyword, QUERY_LIMIT as nat)
    }
}

/// Ids in rising order.
pub open spec fn ids_rise(ids: Seq<i64>) -> bool {
    forall|i: int, j: int| 0 <= i < j < ids.len() ==> ids[i] < ids[j]
}

/// The page of the clipboard history.
#[derive(Debug, Clone)]
pub struct ClipboardView {
    pub keyword: String,
    pub filter: ClipFilter,
    pub items: Vec<Clip>,
    /// How many entries of the whole history are not pinned.
    pub unpinned_count: usize,
    /// The entry that the cursor is on.
    pub selected: usize,
    /// The entries chosen with the mouse, in the order of their ids.
    pub selection: Vec<i64>,
    /// The entry whose menu is open; its preview is not shown.
    pub context_menu_row: Option<i64>,
}

/// What a key asks for.
#[derive(Debug, Clone, Copy, PartialEq, Eq, Structural)]
pub enum ClipKey {
    Nothing,
    /// Drop the selection, and do not pass the key on.
    ClearSelection,
    Up,
    Down,
    TogglePin,
    Filter(ClipFilter),
}

/// The number that a key stands for: digits, perhaps behind a plus.
pub open spec fn key_number(key: Seq<char>) -> Option<nat> {
    let digits = if key.len() > 0 && key[0] == '+' {
        key.skip(1)
    } else {
        key
    };
    if digits.len() > 0 && all_digits(digits, 10) {
        Some(number_of(digits, 10))
    } else {
        None
    }
}

/// What a key asks for on this page.
pub open spec fn clip_key(
    key: Seq<char>,
    control: bool,
    alt: bool,
    any_selected: bool,
) -> ClipKey {
    if key == "escape"@ {
        if any_selected {
            ClipKey::ClearSelection
        } else {
            ClipKey::Nothing
        }
    } else if key == "up"@ {
        ClipKey::Up
    } else if key == "down"@ {
        ClipKey::Down
    } else if key == "p"@ && control {
        ClipKey::TogglePin
    } else if alt {
        match key_number(key) {
            Some(n) => if 1 <= n <= 5 {
                ClipKey::Filter(ClipFilter::ALL@[n - 1])
            } else {
                ClipKey::Nothing
            },
            None => ClipKey::Nothing,
        }
    } else {
        ClipKey::Nothing
    }
}

/// The number from one to five that a key stands for.
fn small_number(key: &str) -> (r: Option<usize>)
    ensures
        r is Some <==> (key_number(key@) matches Some(n) && 1 <= n <= 5),
        r matches Some(n) ==> key_number(key@) == Some(n as nat) && 1 <= n <= 5,
{
    let v = chars_of(key);
    let from: usize = if v.len() > 0 && v[0] == '+' {
        1
    } else {
        0
    };
    let digits = slice_of(&v, from, v.len());
    assert(digits@ == if from == 1 {
        key@.skip(1)
    } else {
        key@
    });
    let n: usize = digits.len();
    if n == 0 {
        return None;
    }
    let mut value: usize = 0;
    assert(digits@.take(0) == Seq::<char>::empty());
    for i in 0..n
        invariant
            n == digits@.len(),
            value <= 6,
            value <= 5 ==> value == number_of(digits@.take(i as int), 10),
            value == 6 ==> number_of(digits@.take(i as int), 10) > 5,
            forall|j: int| 0 <= j < i ==> digit_value(#[trigger] digits@[j]) < 10,
            digits@ == if key@.len() > 0 && key@[0] == '+' {
                key@.skip(1)
            } else {
                key@
            },
    {
        let c: char = digits[i];
        proof {
            let t = digits@.take(i + 1);
            assert(t.drop_last() == digits@.take(i as int));
            assert(t.last() == digits@[i as int]);
        }
        if !('0' <= c && c <= '9') {
            assert(!(digit_value(digits@[i as int]) < 10));
            return None;
        }
        let d: usize = digit_of(c);
        value = if value * 10 + d > 5 {
            6
        } else {
            value * 10 + d
        };
    }
    assert(digits@.take(n as int) == digits@);
    if 1 <= value && value <= 5 {
        Some(value)
    } else {
        None
    }
}

fn digit_of(c: char) -> (r: usize)
    requires
        '0' <= c && c <= '9',
    ensures
        r == digit_value(c),
        r <= 9,
{
    let n: u32 = c as u32;
    (n - 48) as usize
}

/// Rows after the entries with the given ids were removed one by one.
pub open spec fn without_ids(rows: Seq<RowModel>, ids: Seq<i64>) -> Seq<RowModel>
    decreases ids.len(),
{
    if ids.len() == 0 {
        rows
    } else {
        without_id(without_ids(rows, ids.drop_last()), ids.last())
    }
}

impl ClipboardView {
    /// The list shows what the history holds for keyword and category, nothing
    /// is chosen, and the cursor is on the first entry.
    pub open spec fn shows(&self, rows: Seq<RowModel>) -> bool {
        &&& clip_models(self.items@) == shown_entries(rows, self.filter, self.keyword@)
        &&& self.unpinned_count == survivors(rows, |r: RowModel| !r.pinned).len()
        &&& self.selected == 0
        &&& self.selection@.len() == 0
        &&& self.context_menu_row is None
    }

    pub open spec fn wf(&self) -> bool {
        ids_rise(self.selection@)
    }

    /// The page on the whole history.
    pub fn new(service: &ClipboardService) -> (r: Self)
        requires
            service.wf(),
        ensures
            r.wf(),
            r.filter == ClipFilter::All,
            r.keyword@.len() == 0,
            r.shows(service@),
    {
        let mut view = ClipboardView {
            keyword: String::new(),
            filter: ClipFilter::All,
            items: Vec::new(),
            unpinned_count: 0,
            selected: 0,
            selection: Vec::new(),
            context_menu_row: None,
        };
        view.reload(service);
        view
    }

    /// Shows the list anew. New entries are at the top, so the cursor goes
    /// there; the selection no longer fits and is dropped.
    pub fn reload(&mut self, service: &ClipboardService)
        requires
            service.wf(),
        ensures
            final(self).wf(),
            final(self).keyword == old(self).keyword,
            final(self).filter == old(self).filter,
            final(self).shows(service@),
    {
        self.items = service.query(self.filter, self.keyword.as_str(), QUERY_LIMIT);
        self.unpinned_count = service.unpinned_count();
        self.selected = 0;
        self.selection = Vec::new();
        self.context_menu_row = None;
    }

    /// The user typed a keyword.
    pub fn set_keyword(&mut self, keyword: String, service: &ClipboardService)
        requires
            service.wf(),
        ensures
            final(self).wf(),
            final(self).keyword == keyword,
            final(self).filter == old(self).filter,
            final(self).shows(service@),
    {
        self.keyword = keyword;
        self.reload(service);
    }

    /// The user chose a category.
    pub fn set_filter(&mut self, filter: ClipFilter, service: &ClipboardService)
        requires
            service.wf(),
        ensures
            final(self).wf(),
            final(self).keyword == old(self).keyword,
            final(self).filter == filter,
            final(self).shows(service@),
    {
        self.filter = filter;
        self.reload(service);
    }

    /// The entry that the cursor is on.
    pub fn selected_id(&self) -> (r: Option<i64>)
        ensures
            r == if self.selected < self.items@.len() {
                Some(self.items@[self.selected as int].id)
            } else {
                None
            },
    {
        if self.selected < self.items.len() {
            Some(self.items[self.selected].id)
        } else {
            None
        }
    }

    /// Moves the cursor.
    pub fn move_selection(&mut self, delta: i64)
        ensures
            *final(self) == (ClipboardView { selected: final(self).selected, ..*old(self) }),
            final(self).selected == moved(
                old(self).selected as int,
                delta as int,
                old(self).items@.len() as int,
            ),
    {
        self.selected = move_cursor(self.selected, delta, self.items.len());
    }

    /// A click on an entry: the cursor goes there, and the entry joins or
    /// leaves the selection.
    pub fn click_select(&mut self, ix: usize)
        requires
            old(self).wf(),
        ensures
            final(self).wf(),
            ix >= old(self).items@.len() ==> *final(self) == *old(self),
            ix < old(self).items@.len() ==> {
                let id = old(self).items@[ix as int].id;
                &&& final(self).selected == ix
                &&& forall|x: i64| #[trigger]
                    final(self).selection@.contains(x) <==> (if x == id {
                        !old(self).selection@.contains(x)
                    } else {
                        old(self).selection@.contains(x)
                    })
                &&& *final(self) == (ClipboardView {
                    selected: final(self).selected,
                    selection: final(self).selection,
                    ..*old(self)
                })
            },
    {
        if ix >= self.items.len() {
            return ;
        }
        let id: i64 = self.items[ix].id;
        self.selected = ix;
        let ghost before = self.selection@;
        let n: usize = self.selection.len();
        let mut k: usize = 0;
        while k < n && self.selection[k] < id
            invariant
                n == self.selection@.len(),
                self.selection@ == before,
                *self == (ClipboardView { selected: ix, ..*old(self) }),
                k <= n,
                forall|j: int| 0 <= j < k ==> before[j] < id,
            decreases n - k,
        {
            k = k + 1;
        }
        if k < n && self.selection[k] == id {
            self.selection.remove(k);
            proof {
                lemma_remove_id(before, k as int);
            }
        } else {
            self.selection.insert(k, id);
            proof {
                lemma_insert_id(before, k as int, id);
            }
        }
    }

    /// A click on an entry. A double click returns the entry to hand over; any
    /// other one chooses it.
    pub fn click_row(&mut self, ix: usize, clicks: usize) -> (r: Option<i64>)
        requires
            old(self).wf(),
        ensures
            final(self).wf(),
            r == if clicks >= 2 && ix < old(self).items@.len() {
                Some(old(self).items@[ix as int].id)
            } else {
                None
            },
            clicks >= 2 || ix >= old(self).items@.len() ==> *final(self) == *old(self),
            clicks < 2 && ix < old(self).items@.len() ==> {
                let id = old(self).items@[ix as int].id;
                &&& final(self).selected == ix
                &&& forall|x: i64| #[trigger]
                    final(self).selection@.contains(x) <==> (if x == id {
                        !old(self).selection@.contains(x)
                    } else {
                        old(self).selection@.contains(x)
                    })
                &&& *final(self) == (ClipboardView {
                    selected: final(self).selected,
                    selection: final(self).selection,
                    ..*old(self)
                })
            },
    {
        if clicks >= 2 {
            if ix < self.items.len() {
                Some(self.items[ix].id)
            } else {
                None
            }
        } else {
            self.click_select(ix);
            None
        }
    }

    /// The entry to hand over and the window to paste into. Where only copying
    /// is asked for, nothing is pasted.
    pub fn deliver_selected(&self, paste: bool, target: Option<isize>) -> (r: Option<
        (i64, Option<isize>),
    >)
        ensures
            r == if self.selected < self.items@.len() {
                Some(
                    (
                        self.items@[self.selected as int].id,
                        if paste {
                            target
                        } else {
                            None
                        },
                    ),
                )
            } else {
                None
            },
    {
        match self.selected_id() {
            Some(id) => {
                let into = if paste {
                    target
                } else {
                    None
                };
                Some((id, into))
            },
            None => None,
        }
    }

    /// Drops the selection.
    pub fn clear_selection(&mut self)
        ensures
            final(self).wf(),
            final(self).selection@.len() == 0,
            *final(self) == (ClipboardView { selection: final(self).selection, ..*old(self) }),
    {
        self.selection = Vec::new();
    }

    /// Whether the bar for several entries is shown.
    pub fn is_batch(&self) -> (r: bool)
        ensures
            r == (self.selection@.len() >= 2),
    {
        self.selection.len() >= 2
    }

    /// Removes the chosen entries.
    pub fn delete_selected_batch(&mut self, service: &mut ClipboardService)
        requires
            old(service).wf(),
        ensures
            final(service).wf(),
            final(service).dir() == old(service).dir(),
            final(service)@ == without_ids(old(service)@, old(self).selection@),
            final(self).wf(),
            final(self).keyword == old(self).keyword,
            final(self).filter == old(self).filter,
            final(self).shows(final(service)@),
    {
        let ghost ids = self.selection@;
        let ghost start = service@;
        let n: usize = self.selection.len();
        for i in 0..n
            invariant
                n == self.selection@.len(),
                *self == *old(self),
                self.selection@ == ids,
                service.wf(),
                service.dir() == old(service).dir(),
                service@ == without_ids(start, ids.take(i as int)),
        {
            service.delete(self.selection[i]);
            assert(ids.take(i + 1).drop_last() == ids.take(i as int));
        }
        assert(ids.take(n as int) == ids);
        self.reload(service);
    }

    /// Turns the pin of the entry that the cursor is on; the cursor stays in
    /// its place.
    pub fn toggle_pin_selected(&mut self, service: &mut ClipboardService)
        requires
            old(service).wf(),
            old(self).wf(),
        ensures
            final(service).wf(),
            final(service).dir() == old(service).dir(),
            final(self).wf(),
            old(self).selected >= old(self).items@.len() ==> *final(self) == *old(self)
                && final(service)@ == old(service)@,
            old(self).selected < old(self).items@.len() ==> {
                &&& final(service)@ == pin_toggled(
                    old(service)@,
                    old(self).items@[old(self).selected as int].id,
                )
                &&& final(self).keyword == old(self).keyword
                &&& final(self).filter == old(self).filter
                &&& clip_models(final(self).items@) == shown_entries(
                    final(service)@,
                    old(self).filter,
                    old(self).keyword@,
                )
                &&& final(self).selected == kept_within(
                    old(self).selected as int,
                    final(self).items@.len() as int,
                )
                &&& final(self).selection@.len() == 0
                &&& final(self).unpinned_count == survivors(
                    final(service)@,
                    |r: RowModel| !r.pinned,
                ).len()
                &&& final(self).context_menu_row is None
            },
    {
        if self.selected < self.items.len() {
            let id: i64 = self.items[self.selected].id;
            let keep: usize = self.selected;
            service.toggle_pin(id);
            self.reload(service);
            self.selected = keep_cursor(keep, self.items.len());
        }
    }

    /// Turns the pin of an entry from its menu.
    pub fn toggle_pin(&mut self, id: i64, service: &mut ClipboardService)
        requires
            old(service).wf(),
        ensures
            final(service).wf(),
            final(service).dir() == old(service).dir(),
            final(service)@ == pin_toggled(old(service)@, id),
            final(self).wf(),
            final(self).keyword == old(self).keyword,
            final(self).filter == old(self).filter,
            final(self).shows(final(service)@),
    {
        service.toggle_pin(id);
        self.reload(service);
    }

    /// Removes an entry from its menu.
    pub fn delete(&mut self, id: i64, service: &mut ClipboardService)
        requires
            old(service).wf(),
        ensures
            final(service).wf(),
            final(service).dir() == old(service).dir(),
            final(service)@ == without_id(old(service)@, id),
            final(self).wf(),
            final(self).keyword == old(self).keyword,
            final(self).filter == old(self).filter,
            final(self).shows(final(service)@),
    {
        service.delete(id);
        self.reload(service);
    }

    /// A pinned entry was dropped on another: it goes in front of it. Dropped on
    /// itself nothing happens.
    pub fn drop_pinned(&mut self, dragged: i64, id: i64, service: &mut ClipboardService)
        requires
            old(service).wf(),
            old(self).wf(),
        ensures
            final(service).wf(),
            final(service).dir() == old(service).dir(),
            final(self).wf(),
            dragged == id ==> *final(self) == *old(self) && final(service)@ == old(service)@,
            dragged != id ==> {
                &&& final(service)@ == if old(service)@.len() < i64::MAX {
                    reordered(old(service)@, dragged, Some(id))
                } else {
                    old(service)@
                }
                &&& final(self).keyword == old(self).keyword
                &&& final(self).filter == old(self).filter
                &&& final(self).shows(final(service)@)
            },
    {
        if dragged != id {
            let _ = service.reorder_pinned(dragged, Some(id));
            self.reload(service);
        }
    }

    /// What to ask before the history is cleared; nothing where there is
    /// nothing to clear.
    pub fn clear_prompt(service: &ClipboardService) -> (r: Option<String>)
        requires
            service.wf(),
        ensures
            ({
                let n = survivors(service@, |r: RowModel| !r.pinned).len();
                &&& r is Some <==> n > 0
                &&& r matches Some(s) ==> s@ == "将删除 "@ + decimal(n)
                    + " 条未收藏记录，收藏内容会保留。此操作无法撤销。"@
            }),
    {
        let count: usize = service.unpinned_count();
        if count == 0 {
            return None;
        }
        Some(
            number_text(
                "将删除 ",
                count as u128,
                " 条未收藏记录，收藏内容会保留。此操作无法撤销。",
            ),
        )
    }

    /// Clears the history and returns the picture files to remove.
    pub fn clear_history(&mut self, service: &mut ClipboardService) -> (files: Vec<String>)
        requires
            old(service).wf(),
        ensures
            final(service).wf(),
            final(service).dir() == old(service).dir(),
            final(service)@ == survivors(old(service)@, |r: RowModel| r.pinned),
            views(files@) == survivors(
                contents(
                    survivors(
                        old(service)@,
                        |r: RowModel| !r.pinned && r.kind == ClipKind::Image,
                    ),
                ),
                |p: Seq<char>| is_managed(old(service).dir(), p),
            ),
            final(self).wf(),
            final(self).keyword == old(self).keyword,
            final(self).filter == old(self).filter,
            final(self).shows(final(service)@),
    {
        let (_, files) = service.clear_unpinned();
        self.reload(service);
        files
    }

    /// The menu of an entry was opened.
    pub fn open_menu(&mut self, id: i64)
        ensures
            *final(self) == (ClipboardView { context_menu_row: Some(id), ..*old(self) }),
    {
        self.context_menu_row = Some(id);
    }

    /// The pointer left an entry: its preview may be shown again.
    pub fn leave_row(&mut self, id: i64) -> (changed: bool)
        ensures
            changed == (old(self).context_menu_row == Some(id)),
            *final(self) == (ClipboardView {
                context_menu_row: if changed {
                    None
                } else {
                    old(self).context_menu_row
                },
                ..*old(self)
            }),
    {
        let open = match self.context_menu_row {
            Some(row) => row == id,
            None => false,
        };
        if open {
            self.context_menu_row = None;
        }
        open
    }

    /// What a key asks for.
    pub fn key_action(&self, key: &str, control: bool, alt: bool) -> (r: ClipKey)
        ensures
            r == clip_key(key@, control, alt, self.selection@.len() > 0),
    {
        if same_text(key, "escape") {
            return if self.selection.len() > 0 {
                ClipKey::ClearSelection
            } else {
                ClipKey::Nothing
            };
        }
        if same_text(key, "up") {
            return ClipKey::Up;
        }
        if same_text(key, "down") {
            return ClipKey::Down;
        }
        if same_text(key, "p") && control {
            return ClipKey::TogglePin;
        }
        if alt {
            match small_number(key) {
                Some(n) => {
                    return ClipKey::Filter(ClipFilter::ALL[n - 1]);
                },
                None => {},
            }
        }
        ClipKey::Nothing
    }
}

proof fn lemma_remove_id(ids: Seq<i64>, k: int)
    requires
        ids_rise(ids),
        0 <= k < ids.len(),
    ensures
        ids_rise(ids.remove(k)),
        ids.contains(ids[k]),
        !ids.remove(k).contains(ids[k]),
        forall|x: i64|
            x != ids[k] ==> (#[trigger] ids.remove(k).contains(x) <==> ids.contains(x)),
{
    let after = ids.remove(k);
    assert forall|i: int, j: int| 0 <= i < j < after.len() implies after[i] < after[j] by {
        let a = if i < k {
            i
        } else {
            i + 1
        };
        let b = if j < k {
            j
        } else {
            j + 1
        };
        assert(after[i] == ids[a] && after[j] == ids[b]);
    }
    if after.contains(ids[k]) {
        let i = choose|i: int| 0 <= i < after.len() && after[i] == ids[k];
        let a = if i < k {
            i
        } else {
            i + 1
        };
        assert(after[i] == ids[a]);
    }
    assert forall|x: i64| x != ids[k] implies (#[trigger] after.contains(x) <==> ids.contains(
        x,
    )) by {
        if after.contains(x) {
            let i = choose|i: int| 0 <= i < after.len() && after[i] == x;
            let a = if i < k {
                i
            } else {
                i + 1
            };
            assert(ids[a] == x);
        }
        if ids.contains(x) {
            let a = choose|a: int| 0 <= a < ids.len() && ids[a] == x;
            let i = if a < k {
                a
            } else {
                a - 1
            };
            assert(after[i] == x);
        }
    }
}

proof fn lemma_insert_id(ids: Seq<i64>, k: int, id: i64)
    requires
        ids_rise(ids),
        0 <= k <= ids.len(),
        forall|j: int| 0 <= j < k ==> ids[j] < id,
        k < ids.len() ==> ids[k] > id,
    ensures
        ids_rise(ids.insert(k, id)),
        !ids.contains(id),
        ids.insert(k, id).contains(id),
        forall|x: i64| x != id ==> (#[trigger] ids.insert(k, id).contains(x) <==> ids.contains(x)),
{
    let after = ids.insert(k, id);
    assert(after[k] == id);
    assert forall|i: int, j: int| 0 <= i < j < after.len() implies after[i] < after[j] by {
        if j < k {
            assert(after[i] == ids[i] && after[j] == ids[j]);
        } else if j == k {
            assert(after[i] == ids[i]);
        } else if i == k {
            assert(after[j] == ids[j - 1]);
            if j - 1 > k {
                assert(ids[k] < ids[j - 1]);
            }
        } else if i < k {
            assert(after[i] == ids[i] && after[j] == ids[j - 1]);
        } else {
            assert(after[i] == ids[i - 1] && after[j] == ids[j - 1]);
        }
    }
    if ids.contains(id) {
        let i = choose|i: int| 0 <= i < ids.len() && ids[i] == id;
        if i > k {
            assert(ids[k] < ids[i]);
        }
    }
    assert forall|x: i64| x != id implies (#[trigger] after.contains(x) <==> ids.contains(x)) by {
        if after.contains(x) {
            let i = choose|i: int| 0 <= i < after.len() && after[i] == x;
            if i < k {
                assert(ids[i] == x);
            } else {
                assert(ids[i - 1] == x);
            }
        }
        if ids.contains(x) {
            let i = choose|i: int| 0 <= i < ids.len() && ids[i] == x;
            if i < k {
                assert(after[i] == x);
            } else {
                assert(after[i + 1] == x);
            }
        }
    }
}

// ---------------------------------------------------------------- texts

/// The beginning of a text, with an ellipsis where it goes on.
pub open spec fn preview_text(content: Seq<char>, char_count: i64) -> Seq<char> {
    let head = if content.len() > TOOLTIP_PREVIEW_CHARS {
        content.take(TOOLTIP_PREVIEW_CHARS as int)
    } else {
        content
    };
    if char_count < 0 || char_count > TOOLTIP_PREVIEW_CHARS {
        head.push('…')
    } else {
        head
    }
}

/// The beginning of a text for its preview; `char_count` is the length of the
/// whole.
pub fn tooltip_preview(content: &str, char_count: i64) -> (r: String)
    ensures
        r@ == preview_text(content@, char_count),
{
    let v = chars_of(content);
    let n: usize = if v.len() > TOOLTIP_PREVIEW_CHARS {
        TOOLTIP_PREVIEW_CHARS
    } else {
        v.len()
    };
    let head = slice_of(&v, 0, n);
    assert(head@ == if content@.len() > TOOLTIP_PREVIEW_CHARS {
        content@.take(TOOLTIP_PREVIEW_CHARS as int)
    } else {
        content@
    });
    let mut s = string_of(&head);
    if char_count < 0 || char_count > TOOLTIP_PREVIEW_CHARS as i64 {
        s.push('…');
    }
    s
}

/// The lines of a preview; an empty line is shown as a blank.
pub open spec fn preview_lines(preview: Seq<char>) -> Seq<Seq<char>> {
    let all = lines(preview);
    Seq::new(
        all.len(),
        |i: int|
            if all[i].len() == 0 {
                seq![' ']
            } else {
                all[i]
            },
    )
}

/// The lines of a preview; an empty line is shown as a blank.
pub fn tooltip_lines(preview: &str) -> (r: Vec<String>)
    ensures
        views(r@) == preview_lines(preview@),
{
    let v = chars_of(preview);
    let parts = lines_of(&v);
    let ghost all = char_views(parts@);
    let mut out: Vec<String> = Vec::new();
    for i in 0..parts.len()
        invariant
            all == char_views(parts@),
            all == lines(preview@),
            views(out@) == preview_lines(preview@).take(i as int),
    {
        let ghost before = views(out@);
        assert(all[i as int] == parts@[i as int]@);
        let line = if parts[i].len() == 0 {
            let mut blank = String::new();
            blank.push(' ');
            assert(blank@ == seq![' ']);
            blank
        } else {
            string_of(&parts[i])
        };
        let ghost text = line@;
        out.push(line);
        proof {
            assert(views(out@) == before.push(text));
            assert(preview_lines(preview@).take(i + 1) == preview_lines(preview@).take(
                i as int,
            ).push(text));
        }
    }
    assert(preview_lines(preview@).take(parts@.len() as int) == preview_lines(preview@));
    out
}

/// The names shown for a list of files.
pub open spec fn file_names_shown(content: Seq<char>) -> Seq<Seq<char>> {
    let all = lines(content);
    Seq::new(all.len(), |i: int| shown_name(all[i]))
}

/// The names shown for a list of files, one for each.
pub fn file_names(content: &str) -> (r: Vec<String>)
    ensures
        views(r@) == file_names_shown(content@),
{
    let v = chars_of(content);
    let parts = lines_of(&v);
    let ghost all = char_views(parts@);
    let mut out: Vec<String> = Vec::new();
    for i in 0..parts.len()
        invariant
            all == char_views(parts@),
            all == lines(content@),
            views(out@) == file_names_shown(content@).take(i as int),
    {
        let ghost before = views(out@);
        assert(all[i as int] == parts@[i as int]@);
        let path = string_of(&parts[i]);
        let name = shown_file_name(path.as_str());
        let ghost text = name@;
        out.push(name);
        proof {
            assert(views(out@) == before.push(text));
            assert(file_names_shown(content@).take(i + 1) == file_names_shown(content@).take(
                i as int,
            ).push(text));
        }
    }
    assert(file_names_shown(content@).take(parts@.len() as int) == file_names_shown(content@));
    out
}

/// The line below the names of files: how many there are, also where not all
/// of them are shown.
pub fn files_footnote(count: usize) -> (r: String)
    ensures
        r@ == (if count > MAX_PREVIEW_FILES {
            "共 "@
        } else {
            ""@
        }) + decimal(count as nat) + " 个文件"@,
{
    if count > MAX_PREVIEW_FILES {
        number_text("共 ", count as u128, " 个文件")
    } else {
        number_text("", count as u128, " 个文件")
    }
}

/// Whether the kept previews are to be dropped before another is kept.
pub fn preview_cache_full(count: usize) -> (r: bool)
    ensures
        r == (count >= PREVIEW_CACHE_MAX),
{
    count >= PREVIEW_CACHE_MAX
}

/// The whole minutes since a time, none where it is still to come.
pub open spec fn minutes_since(now: i64, then: i64) -> nat {
    if now > then {
        ((now - then) / 60_000) as nat
    } else {
        0
    }
}

/// How long ago something was.
pub open spec fn age_text(minutes: nat) -> Seq<char> {
    if minutes == 0 {
        "刚刚"@
    } else if minutes < 60 {
        ""@ + decimal(minutes) + " 分钟前"@
    } else if minutes < 1440 {
        ""@ + decimal(minutes / 60) + " 小时前"@
    } else {
        ""@ + decimal(minutes / 1440) + " 天前"@
    }
}

/// How long ago an entry was made, seen from `now_ms`.
pub fn relative_time(now_ms: i64, created_at_ms: i64) -> (r: String)
    ensures
        r@ == age_text(minutes_since(now_ms, created_at_ms)),
{
    let gap: i128 = now_ms as i128 - created_at_ms as i128;
    let minutes: u128 = if gap > 0 {
        (gap as u128) / 60_000
    } else {
        0
    };
    if minutes == 0 {
        "刚刚".to_owned()
    } else if minutes < 60 {
        number_text("", minutes, " 分钟前")
    } else if minutes < 1440 {
        number_text("", minutes / 60, " 小时前")
    } else {
        number_text("", minutes / 1440, " 天前")
    }
}

// ---------------------------------------------------------------- laws

/// Removing chosen entries removes exactly those.
pub proof fn batch_removes_exactly_the_chosen(rows: Seq<RowModel>, ids: Seq<i64>)
    ensures
        without_ids(rows, ids) == survivors(rows, |r: RowModel| !ids.contains(r.id)),
    decreases ids.len(),
{
    let g = |r: RowModel| !ids.contains(r.id);
    if ids.len() == 0 {
        assert forall|i: int| 0 <= i < rows.len() implies g(#[trigger] rows[i]) by {}
        lemma_all_survive(rows, g);
    } else {
        let init = ids.drop_last();
        let id = ids.last();
        let f = |r: RowModel| !init.contains(r.id);
        batch_removes_exactly_the_chosen(rows, init);
        assert forall|r: RowModel| #[trigger] g(r) == (f(r) && r.id != id) by {
            if ids.contains(r.id) {
                let k = choose|k: int| 0 <= k < ids.len() && ids[k] == r.id;
                if k < init.len() {
                    assert(init[k] == r.id);
                }
            }
            if init.contains(r.id) {
                let k = choose|k: int| 0 <= k < init.len() && init[k] == r.id;
                assert(ids[k] == r.id);
            }
            if r.id == id {
                assert(ids[ids.len() - 1] == id);
            }
        }
        lemma_survivors_twice(rows, f, id, g);
    }
}

proof fn lemma_survivors_twice(
    rows: Seq<RowModel>,
    f: spec_fn(RowModel) -> bool,
    id: i64,
    g: spec_fn(RowModel) -> bool,
)
    requires
        forall|r: RowModel| #[trigger] g(r) == (f(r) && r.id != id),
    ensures
        without_id(survivors(rows, f), id) == survivors(rows, g),
    decreases rows.len(),
{
    let h = |r: RowModel| r.id != id;
    if rows.len() > 0 {
        let init = rows.drop_last();
        let last = rows.last();
        lemma_survivors_twice(init, f, id, g);
        let head = survivors(init, f);
        assert(g(last) == (f(last) && last.id != id));
        if f(last) {
            assert(head.push(last).drop_last() == head);
            assert(survivors(head.push(last), h) == if h(last) {
                survivors(head, h).push(last)
            } else {
                survivors(head, h)
            });
        }
    } else {
        assert(survivors(rows, f) == Seq::<RowModel>::empty());
        assert(survivors(Seq::<RowModel>::empty(), h) == Seq::<RowModel>::empty());
    }
}

} // verus!
