//! The page of the memos: list, tag list and editor.

use crate::memo::{
    distinct, is_tag_separator, parse_tags, tag_pieces, tags_in, Memo, MemoDraft, MemoModel,
    TagFilter, TagSummary,
};
use crate::memo_service::MemoService;
use crate::memo_store::{
    memo_entries, memo_matches, memo_views, names_in_use, save_error, saved, tagged_count,
    untagged_count, without_memo, MemoTables,
};
use crate::order::{lemma_all_survive, survivors};
use crate::selection::{keep_cursor, kept_within, move_cursor, moved};
use crate::store::pattern_too_long;
use crate::text::{
    chars_of, decimal, join, join_strings, number_text, same_text, split,
    split_undoes_join_where, trim_text, trimmed, views,
};
use vstd::prelude::*;

verus! {

/// The memo being edited: its id, unless it is new, and the texts that the
/// editor starts with.
#[derive(Debug, Clone)]
pub struct MemoEditor {
    pub id: Option<i64>,
    pub content: String,
    pub note: String,
    pub tags: String,
}

/// The page of the memos.
#[derive(Debug, Clone)]
pub struct MemoView {
    pub keyword: String,
    pub filter: TagFilter,
    pub total: i64,
    pub untagged: i64,
    pub tags: Vec<TagSummary>,
    pub items: Vec<Memo>,
    pub selected: usize,
    pub editor: Option<MemoEditor>,
}

/// What a key asks for.
#[derive(Debug, Clone, Copy, PartialEq, Eq, Structural)]
pub enum MemoKey {
    Nothing,
    /// Leave the editor, and do not pass the key on.
    CloseEditor,
    SaveEditor,
    Up,
    Down,
    NewMemo,
    EditSelected,
}

/// What a key asks for: while a memo is edited only Escape and Control-S act,
/// the rest belongs to the text.
pub open spec fn memo_key(key: Seq<char>, control: bool, editing: bool) -> MemoKey {
    if editing {
        if key == "escape"@ {
            MemoKey::CloseEditor
        } else if key == "s"@ && control {
            MemoKey::SaveEditor
        } else {
            MemoKey::Nothing
        }
    } else if key == "up"@ {
        MemoKey::Up
    } else if key == "down"@ {
        MemoKey::Down
    } else if key == "n"@ && control {
        MemoKey::NewMemo
    } else if key == "e"@ && control {
        MemoKey::EditSelected
    } else {
        MemoKey::Nothing
    }
}

/// The memos that a list shows.
pub open spec fn shown_memos(t: MemoTables, filter: TagFilter, keyword: Seq<char>) -> Seq<
    MemoModel,
> {
    if pattern_too_long(keyword) {
        Seq::empty()
    } else {
        memo_entries(memo_matches(t.rows, filter, keyword))
    }
}

/// The line below a memo: its note and its tags, as far as it has them.
pub open spec fn footnote_of(note: Seq<char>, tags: Seq<Seq<char>>) -> Seq<char> {
    if tags.len() == 0 {
        note
    } else if note.len() == 0 {
        join(tags, " · "@)
    } else {
        note + " — "@ + join(tags, " · "@)
    }
}

/// The line below a memo.
pub fn footnote(memo: &Memo) -> (r: String)
    ensures
        r@ == footnote_of(memo.note@, views(memo.tags@)),
{
    if memo.tags.len() == 0 {
        return memo.note.clone();
    }
    let tags = join_strings(&memo.tags, " · ");
    if memo.note.as_str().is_empty() {
        return tags;
    }
    let mut s = memo.note.clone();
    s.push_str(" — ");
    s.push_str(tags.as_str());
    s
}

/// The line below the preview of a memo: its note and tags, and its length.
pub fn preview_footnote(memo: &Memo) -> (r: String)
    ensures
        r@ == ({
            let rest = footnote_of(memo.note@, views(memo.tags@));
            let length = "共 "@ + decimal(memo.content@.len()) + " 字符"@;
            if rest.len() == 0 {
                length
            } else {
                rest + " · "@ + length
            }
        }),
{
    let chars = chars_of(memo.content.as_str());
    let length = number_text("共 ", chars.len() as u128, " 字符");
    let mut s = footnote(memo);
    if s.as_str().is_empty() {
        return length;
    }
    s.push_str(" · ");
    s.push_str(length.as_str());
    s
}

/// An entry of the tag list.
#[derive(Debug, Clone)]
pub struct SidebarEntry {
    pub name: String,
    pub count: i64,
    /// What a click on it shows.
    pub filter: TagFilter,
    /// Whether it is what the list shows now.
    pub active: bool,
}

/// The entry of a tag.
pub open spec fn is_tag_entry(entry: SidebarEntry, tag: TagSummary, shown: TagFilter) -> bool {
    &&& entry.name@ == tag.name@
    &&& entry.count == tag.count
    &&& (entry.filter matches TagFilter::Named(name) && name@ == tag.name@)
    &&& entry.active == (shown matches TagFilter::Named(name) && name@ == tag.name@)
}

/// Whether the texts of an editor make a draft.
pub open spec fn draft_ready(content: Seq<char>) -> bool {
    trimmed(content).len() > 0
}

/// The draft that the texts of an editor make: content and note without
/// surrounding blanks, and the tags as typed. Without content there is none.
pub fn draft_from(id: Option<i64>, content: &str, note: &str, tags: &str) -> (r: Option<MemoDraft>)
    ensures
        r is Some <==> draft_ready(content@),
        r matches Some(d) ==> {
            &&& d.id == id
            &&& d.content@ == trimmed(content@)
            &&& d.note@ == trimmed(note@)
            &&& views(d.tags@) == tags_in(tags@)
        },
{
    let content = trim_text(content);
    if content.as_str().is_empty() {
        return None;
    }
    Some(MemoDraft { id, content, note: trim_text(note), tags: parse_tags(tags) })
}

impl MemoView {
    /// The lists show what the memos hold for tag and keyword.
    pub open spec fn shows(&self, t: MemoTables) -> bool {
        &&& self.total == t.rows.len() as i64
        &&& self.untagged == untagged_count(t.rows) as i64
        &&& self.tags@.len() == t.names.len()
        &&& forall|i: int|
            0 <= i < self.tags@.len() ==> {
                &&& (#[trigger] self.tags@[i]).name@ == t.names[i]
                &&& self.tags@[i].count == tagged_count(t.rows, t.names[i]) as i64
            }
        &&& memo_views(self.items@) == shown_memos(t, self.filter, self.keyword@)
    }

    /// The page on all memos.
    pub fn new(service: &MemoService) -> (r: Self)
        ensures
            r.keyword@.len() == 0,
            r.filter is All,
            r.selected == 0,
            r.editor is None,
            r.shows(service@),
    {
        let mut view = MemoView {
            keyword: String::new(),
            filter: TagFilter::All,
            total: 0,
            untagged: 0,
            tags: Vec::new(),
            items: Vec::new(),
            selected: 0,
            editor: None,
        };
        view.reload(service);
        view
    }

    pub fn is_editing(&self) -> (r: bool)
        ensures
            r == self.editor is Some,
    {
        self.editor.is_some()
    }

    /// Shows the lists anew; the cursor stays within the list.
    pub fn reload(&mut self, service: &MemoService)
        ensures
            final(self).keyword == old(self).keyword,
            final(self).filter == old(self).filter,
            final(self).editor == old(self).editor,
            final(self).selected == kept_within(
                old(self).selected as int,
                final(self).items@.len() as int,
            ),
            final(self).shows(service@),
    {
        let (total, untagged, tags) = service.tag_summaries();
        self.total = total;
        self.untagged = untagged;
        self.tags = tags;
        self.items = service.list(&self.filter, self.keyword.as_str());
        self.selected = keep_cursor(self.selected, self.items.len());
    }

    /// The user typed a keyword.
    pub fn set_keyword(&mut self, keyword: String, service: &MemoService)
        ensures
            final(self).keyword == keyword,
            final(self).filter == old(self).filter,
            final(self).editor == old(self).editor,
            final(self).selected == kept_within(
                old(self).selected as int,
                final(self).items@.len() as int,
            ),
            final(self).shows(service@),
    {
        self.keyword = keyword;
        self.reload(service);
    }

    /// The user chose a tag: the list starts over.
    pub fn set_filter(&mut self, filter: TagFilter, service: &MemoService)
        ensures
            final(self).keyword == old(self).keyword,
            final(self).filter == filter,
            final(self).editor == old(self).editor,
            final(self).selected == 0,
            final(self).shows(service@),
    {
        self.filter = filter;
        self.selected = 0;
        self.reload(service);
    }

    /// Moves the cursor.
    pub fn move_selection(&mut self, delta: i64)
        ensures
            *final(self) == (MemoView { selected: final(self).selected, ..*old(self) }),
            final(self).selected == moved(
                old(self).selected as int,
                delta as int,
                old(self).items@.len() as int,
            ),
    {
        self.selected = move_cursor(self.selected, delta, self.items.len());
    }

    /// The memo that the cursor is on.
    pub fn selected_id(&self) -> (r: Option<i64>)
        ensures
            r == if self.selected < self.items@.len() {
                Some(self.items@[self.selected as int].id)
            } else {
                None
            },
    {
        if self.selected < self.items.len() {
            Some(self.items[self.selected].id)
        } else {
            None
        }
    }

    /// The memo to hand over and the window to paste into. Where only copying
    /// is asked for, nothing is pasted.
    pub fn deliver_selected(&self, paste: bool, target: Option<isize>) -> (r: Option<
        (i64, Option<isize>),
    >)
        ensures
            r == if self.selected < self.items@.len() {
                Some(
                    (
                        self.items@[self.selected as int].id,
                        if paste {
                            target
                        } else {
                            None
                        },
                    ),
                )
            } else {
                None
            },
    {
        match self.selected_id() {
            Some(id) => {
                let into = if paste {
                    target
                } else {
                    None
                };
                Some((id, into))
            },
            None => None,
        }
    }

    /// A click on a memo: the cursor goes there. A double click asks to hand
    /// the memo over.
    pub fn click_row(&mut self, ix: usize, clicks: usize) -> (deliver: bool)
        ensures
            deliver == (clicks >= 2 && ix < old(self).items@.len()),
            *final(self) == (MemoView {
                selected: if ix < old(self).items@.len() {
                    ix
                } else {
                    old(self).selected
                },
                ..*old(self)
            }),
    {
        if ix < self.items.len() {
            self.selected = ix;
            clicks >= 2
        } else {
            false
        }
    }

    /// The entries of the tag list: all memos, those without a tag, and each
    /// tag.
    pub fn sidebar(&self) -> (r: Vec<SidebarEntry>)
        ensures
            r@.len() == self.tags@.len() + 2,
            r@[0].name@ == "全部"@ && r@[0].count == self.total && r@[0].filter is All,
            r@[0].active == (self.filter is All),
            r@[1].name@ == "无标签"@ && r@[1].count == self.untagged && r@[1].filter is Untagged,
            r@[1].active == (self.filter is Untagged),
            forall|i: int|
                0 <= i < self.tags@.len() ==> is_tag_entry(
                    #[trigger] r@[i + 2],
                    self.tags@[i],
                    self.filter,
                ),
    {
        let mut out: Vec<SidebarEntry> = Vec::new();
        out.push(
            SidebarEntry {
                name: "全部".to_owned(),
                count: self.total,
                filter: TagFilter::All,
                active: matches!(self.filter, TagFilter::All),
            },
        );
        out.push(
            SidebarEntry {
                name: "无标签".to_owned(),
                count: self.untagged,
                filter: TagFilter::Untagged,
                active: matches!(self.filter, TagFilter::Untagged),
            },
        );
        let n: usize = self.tags.len();
        for k in 0..n
            invariant
                n == self.tags@.len(),
                out@.len() == k + 2,
                out@[0].name@ == "全部"@ && out@[0].count == self.total && out@[0].filter is All,
                out@[0].active == (self.filter is All),
                out@[1].name@ == "无标签"@ && out@[1].count == self.untagged
                    && out@[1].filter is Untagged,
                out@[1].active == (self.filter is Untagged),
                forall|i: int|
                    0 <= i < k ==> is_tag_entry(#[trigger] out@[i + 2], self.tags@[i], self.filter),
        {
            let name = self.tags[k].name.as_str();
            let active = match &self.filter {
                TagFilter::Named(shown) => same_text(shown.as_str(), name),
                _ => false,
            };
            let ghost before = out@;
            out.push(
                SidebarEntry {
                    name: name.to_owned(),
                    count: self.tags[k].count,
                    filter: TagFilter::Named(name.to_owned()),
                    active,
                },
            );
            assert forall|i: int| 0 <= i < k + 1 implies is_tag_entry(
                #[trigger] out@[i + 2],
                self.tags@[i],
                self.filter,
            ) by {
                if i < k {
                    assert(out@[i + 2] == before[i + 2]);
                }
            }
        }
        out
    }

    /// Opens the editor for a new memo; it starts with the tag that is shown.
    pub fn new_memo(&mut self)
        ensures
            *final(self) == (MemoView { editor: final(self).editor, ..*old(self) }),
            final(self).editor is Some,
            final(self).editor->0.id is None,
            final(self).editor->0.content@.len() == 0,
            final(self).editor->0.note@.len() == 0,
            final(self).editor->0.tags@ == match old(self).filter {
                TagFilter::Named(name) => name@,
                _ => Seq::empty(),
            },
    {
        let tags = match &self.filter {
            TagFilter::Named(name) => name.clone(),
            _ => String::new(),
        };
        self.editor = Some(
            MemoEditor { id: None, content: String::new(), note: String::new(), tags },
        );
    }

    /// Opens the editor for the memo that the cursor is on.
    pub fn edit_selected(&mut self)
        ensures
            *final(self) == (MemoView { editor: final(self).editor, ..*old(self) }),
            old(self).selected >= old(self).items@.len() ==> final(self).editor == old(
                self,
            ).editor,
            old(self).selected < old(self).items@.len() ==> {
                let memo = old(self).items@[old(self).selected as int];
                &&& final(self).editor is Some
                &&& final(self).editor->0.id == Some(memo.id)
                &&& final(self).editor->0.content@ == memo.content@
                &&& final(self).editor->0.note@ == memo.note@
                &&& final(self).editor->0.tags@ == join(views(memo.tags@), "，"@)
            },
    {
        if self.selected < self.items.len() {
            let memo = &self.items[self.selected];
            let editor = MemoEditor {
                id: Some(memo.id),
                content: memo.content.clone(),
                note: memo.note.clone(),
                tags: join_strings(&memo.tags, "，"),
            };
            self.editor = Some(editor);
        }
    }

    /// Leaves the editor and shows the lists anew.
    pub fn close_editor(&mut self, service: &MemoService)
        ensures
            final(self).keyword == old(self).keyword,
            final(self).filter == old(self).filter,
            final(self).editor is None,
            final(self).selected == kept_within(
                old(self).selected as int,
                final(self).items@.len() as int,
            ),
            final(self).shows(service@),
    {
        self.editor = None;
        self.reload(service);
    }

    /// Stores what the editor's texts say. Without content nothing is stored,
    /// and where it was not stored the editor stays open.
    pub fn save_editor(
        &mut self,
        service: &mut MemoService,
        content: &str,
        note: &str,
        tags: &str,
        now: i64,
    ) -> (closed: bool)
        requires
            old(service).wf(),
        ensures
            final(service).wf(),
            closed == (old(self).editor is Some && draft_ready(content@) && save_error(
                old(service)@.rows,
                old(self).editor->0.id,
                tags_in(tags@),
            ) is None),
            !closed ==> *final(self) == *old(self) && final(service)@ == old(service)@,
            closed ==> {
                &&& final(service)@.rows == saved(
                    old(service)@.rows,
                    old(self).editor->0.id,
                    trimmed(content@),
                    trimmed(note@),
                    tags_in(tags@),
                    now,
                )
                &&& names_in_use(final(service)@)
                &&& final(self).editor is None
                &&& final(self).keyword == old(self).keyword
                &&& final(self).filter == old(self).filter
                &&& final(self).selected == kept_within(
                    old(self).selected as int,
                    final(self).items@.len() as int,
                )
                &&& final(self).shows(final(service)@)
            },
    {
        let id = match &self.editor {
            Some(editor) => editor.id,
            None => {
                return false;
            },
        };
        match draft_from(id, content, note, tags) {
            Some(draft) => {
                match service.save(&draft, now) {
                    Ok(_) => {
                        self.close_editor(service);
                        true
                    },
                    Err(_) => false,
                }
            },
            None => false,
        }
    }

    /// Removes the memo that the cursor is on.
    pub fn delete_selected(&mut self, service: &mut MemoService)
        requires
            old(service).wf(),
        ensures
            final(service).wf(),
            old(self).selected >= old(self).items@.len() ==> *final(self) == *old(self)
                && final(service)@ == old(service)@,
            old(self).selected < old(self).items@.len() ==> {
                &&& final(service)@.rows == without_memo(
                    old(service)@.rows,
                    old(self).items@[old(self).selected as int].id,
                )
                &&& names_in_use(final(service)@)
                &&& final(self).editor == old(self).editor
                &&& final(self).keyword == old(self).keyword
                &&& final(self).filter == old(self).filter
                &&& final(self).selected == kept_within(
                    old(self).selected as int,
                    final(self).items@.len() as int,
                )
                &&& final(self).shows(final(service)@)
            },
    {
        if self.selected < self.items.len() {
            let id: i64 = self.items[self.selected].id;
            service.delete(id);
            self.reload(service);
        }
    }

    /// What a key asks for.
    pub fn key_action(&self, key: &str, control: bool) -> (r: MemoKey)
        ensures
            r == memo_key(key@, control, self.editor is Some),
    {
        if self.editor.is_some() {
            if same_text(key, "escape") {
                MemoKey::CloseEditor
            } else if same_text(key, "s") && control {
                MemoKey::SaveEditor
            } else {
                MemoKey::Nothing
            }
        } else if same_text(key, "up") {
            MemoKey::Up
        } else if same_text(key, "down") {
            MemoKey::Down
        } else if same_text(key, "n") && control {
            MemoKey::NewMemo
        } else if same_text(key, "e") && control {
            MemoKey::EditSelected
        } else {
            MemoKey::Nothing
        }
    }
}

// ---------------------------------------------------------------- laws

/// A tag that typing can make: not empty, and without a separator.
pub open spec fn is_typed_tag(tag: Seq<char>) -> bool {
    &&& tag.len() > 0
    &&& forall|i: int| 0 <= i < tag.len() ==> !is_tag_separator(#[trigger] tag[i])
}

proof fn lemma_distinct_keeps(items: Seq<Seq<char>>)
    requires
        items.no_duplicates(),
    ensures
        distinct(items) == items,
    decreases items.len(),
{
    if items.len() > 0 {
        let init = items.drop_last();
        lemma_distinct_keeps(init);
        if init.contains(items.last()) {
            let k = choose|k: int| 0 <= k < init.len() && init[k] == items.last();
            assert(items[k] == items[items.len() - 1]);
        }
        assert(init.push(items.last()) == items);
    } else {
        assert(distinct(items) == items);
    }
}

/// A memo that is opened in the editor and stored unchanged keeps its tags.
pub proof fn editing_keeps_tags(tags: Seq<Seq<char>>)
    requires
        tags.no_duplicates(),
        forall|i: int| 0 <= i < tags.len() ==> is_typed_tag(#[trigger] tags[i]),
    ensures
        tags_in(join(tags, "，"@)) == tags,
{
    reveal_strlit("，");
    assert("，"@ == seq!['，']);
    let sep = |c: char| is_tag_separator(c);
    let f = |t: Seq<char>| t.len() > 0;
    let raw = join(tags, "，"@);
    let pieces = tag_pieces(raw);
    if tags.len() == 0 {
        let none = Seq::<char>::empty();
        assert(raw == none);
        assert(split(none, sep) == seq![none]);
        assert(trimmed(none) == none);
        assert(pieces == seq![none]);
        assert(pieces.drop_last() == Seq::<Seq<char>>::empty());
        assert(survivors(pieces.drop_last(), f) == Seq::<Seq<char>>::empty());
        assert(survivors(pieces, f) == Seq::<Seq<char>>::empty());
        assert(tags == Seq::<Seq<char>>::empty());
    } else {
        assert forall|i: int, j: int| 0 <= i < tags.len() && 0 <= j < tags[i].len() implies !sep(
            #[trigger] tags[i][j],
        ) by {
            assert(is_typed_tag(tags[i]));
        }
        split_undoes_join_where(tags, '，', sep);
        assert forall|i: int| 0 <= i < tags.len() implies pieces[i] == tags[i] by {
            assert(is_typed_tag(tags[i]));
            assert(!is_tag_separator(tags[i][0]) && !is_tag_separator(tags[i].last()));
        }
        assert(pieces == tags);
        assert forall|i: int| 0 <= i < pieces.len() implies f(#[trigger] pieces[i]) by {
            assert(is_typed_tag(tags[i]));
        }
        lemma_all_survive(pieces, f);
        lemma_distinct_keeps(tags);
    }
}

} // verus!
