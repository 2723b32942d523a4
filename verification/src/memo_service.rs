//! The memo service: search, changes, and handing a memo to the clipboard.

use crate::memo::{Memo, MemoDraft, MemoModel, TagFilter, TagSummary};
use crate::memo_store::{
    has_memo, lemma_unnoticed_search_finds_nothing, memo_entries, memo_matches, memo_models,
    memo_views, memo_with, memos_well_formed, names_in_use, rows_fit, save_error, saved, saved_id,
    tagged_count, untagged_count, without_memo, MemoRow, MemoStore, MemoTables,
};
use crate::service::{SuppressWindow, SUPPRESS_WINDOW_MS};
use crate::store::{pattern_too_long, StoreError};
use crate::text::views;
use vstd::prelude::*;

verus! {

/// The memos as the shell uses them.
#[derive(Debug, Clone)]
pub struct MemoService {
    store: MemoStore,
}

impl View for MemoService {
    type V = MemoTables;

    closed spec fn view(&self) -> MemoTables {
        self.store@
    }
}

impl MemoService {
    pub open spec fn wf(&self) -> bool {
        memos_well_formed(self@)
    }

    /// Opens the memos on disk.
    pub fn open(rows: Vec<MemoRow>, names: Vec<String>) -> (r: Result<Self, StoreError>)
        ensures
            r is Ok <==> rows_fit(memo_models(rows@), views(names@)),
            r matches Ok(service) ==> {
                &&& service.wf()
                &&& service@.rows == memo_models(rows@)
                &&& forall|x: Seq<char>| #[trigger]
                    service@.names.contains(x) <==> views(names@).contains(x)
            },
            r matches Err(e) ==> e == StoreError::Corrupt,
    {
        match MemoStore::open(rows, names) {
            Ok(store) => Ok(MemoService { store }),
            Err(e) => Err(e),
        }
    }

    /// The stored rows, for writing them back to disk.
    pub fn rows(&self) -> (r: &Vec<MemoRow>)
        ensures
            memo_models(r@) == self@.rows,
    {
        self.store.rows()
    }

    /// The known tags, for writing them back to disk.
    pub fn names(&self) -> (r: &Vec<String>)
        ensures
            views(r@) == self@.names,
    {
        self.store.names()
    }

    /// The memos found by tag and keyword; nothing where the search fails.
    pub fn list(&self, filter: &TagFilter, keyword: &str) -> (r: Vec<Memo>)
        ensures
            memo_views(r@) == if pattern_too_long(keyword@) {
                Seq::<MemoModel>::empty()
            } else {
                memo_entries(memo_matches(self@.rows, *filter, keyword@))
            },
    {
        match self.store.list(filter, keyword) {
            Ok(memos) => {
                proof {
                    if pattern_too_long(keyword@) {
                        lemma_unnoticed_search_finds_nothing(self@.rows, *filter, keyword@);
                    }
                }
                memos
            },
            Err(_) => {
                let none: Vec<Memo> = Vec::new();
                assert(memo_views(none@) == Seq::<MemoModel>::empty());
                none
            },
        }
    }

    /// What the tag list shows: the number of memos, of those without a tag,
    /// and each tag with the number of its memos.
    pub fn tag_summaries(&self) -> (r: (i64, i64, Vec<TagSummary>))
        ensures
            r.0 == self@.rows.len() as i64,
            r.1 == untagged_count(self@.rows) as i64,
            r.2@.len() == self@.names.len(),
            forall|i: int|
                0 <= i < r.2@.len() ==> {
                    &&& (#[trigger] r.2@[i]).name@ == self@.names[i]
                    &&& r.2@[i].count == tagged_count(self@.rows, self@.names[i]) as i64
                },
    {
        self.store.tag_summaries()
    }

    /// Stores a draft at `now` and returns its id.
    pub fn save(&mut self, draft: &MemoDraft, now: i64) -> (r: Result<i64, StoreError>)
        requires
            old(self).wf(),
        ensures
            final(self).wf(),
            r is Ok <==> save_error(old(self)@.rows, draft.id, views(draft.tags@)) is None,
            r matches Err(e) ==> Some(e) == save_error(
                old(self)@.rows,
                draft.id,
                views(draft.tags@),
            ) && final(self)@ == old(self)@,
            r matches Ok(id) ==> {
                &&& id == saved_id(old(self)@.rows, draft.id)
                &&& final(self)@.rows == saved(
                    old(self)@.rows,
                    draft.id,
                    draft.content@,
                    draft.note@,
                    views(draft.tags@),
                    now,
                )
                &&& names_in_use(final(self)@)
            },
    {
        self.store.save(draft, now)
    }

    /// Removes a memo.
    pub fn delete(&mut self, id: i64)
        requires
            old(self).wf(),
        ensures
            final(self).wf(),
            final(self)@.rows == without_memo(old(self)@.rows, id),
            names_in_use(final(self)@),
    {
        self.store.delete(id)
    }

    /// Begins to hand a memo to the clipboard: opens the window in which
    /// changes are ignored and returns the text to write.
    pub fn begin_delivery(&self, window: &mut SuppressWindow, id: i64, now: i64) -> (r: Result<
        String,
        StoreError,
    >)
        requires
            self.wf(),
            now + SUPPRESS_WINDOW_MS <= i64::MAX,
        ensures
            r is Ok <==> has_memo(self@.rows, id),
            r matches Ok(text) ==> text@ == memo_with(self@.rows, id).content
                && final(window).until == now + SUPPRESS_WINDOW_MS,
            r matches Err(e) ==> e == StoreError::NotFound && *final(window) == *old(window),
    {
        match self.store.content_of(id) {
            Ok(content) => {
                window.open(now);
                Ok(content)
            },
            Err(e) => Err(e),
        }
    }

    /// Ends handing a memo over and says which window to paste into. Where
    /// nothing was written, the window in which changes are ignored is closed
    /// at once and nothing is pasted.
    pub fn finish_delivery(
        window: &mut SuppressWindow,
        written: bool,
        target: Option<isize>,
    ) -> (paste: Option<isize>)
        ensures
            written ==> paste == target && *final(window) == *old(window),
            !written ==> paste is None && final(window).until == 0,
    {
        if written {
            target
        } else {
            window.close();
            None
        }
    }
}

} // verus!
