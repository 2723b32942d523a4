//! The stored memos and their tags: search, counts and replacement of tags.

use crate::clip::{make_preview, preview_of};
use crate::like::{mentions, mentions_keyword};
use crate::memo::{distinct, lemma_distinct, Memo, MemoDraft, MemoModel, TagFilter, TagSummary};
use crate::order::{
    lemma_all_survive, lemma_ordered_contains, lemma_ordered_len, lemma_placed_at, lemma_survivors,
    ordered, ordering_sorts, picked, survivors,
};
use crate::store::{pattern_too_long, trimmed_too_long, StoreError};
use crate::text::{
    char_views, chars_of, join, join_strings, lemma_text_order_total, lemma_text_order_transitive,
    list_contains, same_text, split, split_at_char, split_undoes_join, string_of, text_before,
    text_precedes, trim_text, trimmed, views,
};
use vstd::prelude::*;

verus! {

/// Parts the tags of one memo while they are read as one text.
pub const TAG_MARK: char = '\u{1}';

/// One stored memo.
#[derive(Debug, Clone)]
pub struct MemoRow {
    pub id: i64,
    pub content: String,
    pub note: String,
    pub preview: String,
    /// Unix milliseconds.
    pub created_at: i64,
    /// Unix milliseconds.
    pub updated_at: i64,
    pub tags: Vec<String>,
}

/// The plain contents of a [`MemoRow`].
pub struct MemoRowModel {
    pub id: i64,
    pub content: Seq<char>,
    pub note: Seq<char>,
    pub preview: Seq<char>,
    pub created_at: i64,
    pub updated_at: i64,
    pub tags: Seq<Seq<char>>,
}

impl View for MemoRow {
    type V = MemoRowModel;

    open spec fn view(&self) -> MemoRowModel {
        MemoRowModel {
            id: self.id,
            content: self.content@,
            note: self.note@,
            preview: self.preview@,
            created_at: self.created_at,
            updated_at: self.updated_at,
            tags: views(self.tags@),
        }
    }
}

/// The stored memos by id, and every known tag by name.
pub struct MemoTables {
    pub rows: Seq<MemoRowModel>,
    pub names: Seq<Seq<char>>,
}

pub open spec fn memo_models(rows: Seq<MemoRow>) -> Seq<MemoRowModel> {
    Seq::new(rows.len(), |i: int| rows[i]@)
}

/// Ids grow, no memo has a tag twice, and every tag is known.
pub open spec fn rows_fit(rows: Seq<MemoRowModel>, names: Seq<Seq<char>>) -> bool {
    &&& forall|i: int, j: int| 0 <= i < j < rows.len() ==> rows[i].id < rows[j].id
    &&& forall|i: int| 0 <= i < rows.len() ==> (#[trigger] rows[i]).tags.no_duplicates()
    &&& forall|i: int, x: Seq<char>|
        0 <= i < rows.len() && #[trigger] rows[i].tags.contains(x) ==> names.contains(x)
}

/// Every name comes before the next.
pub open spec fn names_sorted(names: Seq<Seq<char>>) -> bool {
    forall|i: int, j: int| 0 <= i < j < names.len() ==> text_before(names[i], names[j])
}

/// The tables' rules.
pub open spec fn memos_well_formed(t: MemoTables) -> bool {
    rows_fit(t.rows, t.names) && names_sorted(t.names)
}

// ---------------------------------------------------------------- reading

/// Newest change first.
pub open spec fn memo_order() -> spec_fn(MemoRowModel, MemoRowModel) -> bool {
    |a: MemoRowModel, b: MemoRowModel| a.updated_at > b.updated_at
}

/// Whether a memo is found by tag and keyword; the keyword may stand in the
/// content or in the note.
pub open spec fn memo_found(row: MemoRowModel, filter: TagFilter, keyword: Seq<char>) -> bool {
    &&& filter.admits(row.tags)
    &&& keyword.len() > 0 ==> mentions(row.content, keyword) || mentions(row.note, keyword)
}

/// The tags as they are listed: read from one text, blank ones left out.
pub open spec fn shown_tags(tags: Seq<Seq<char>>) -> Seq<Seq<char>> {
    survivors(
        split(join(tags, seq![TAG_MARK]), |c: char| c == TAG_MARK),
        |t: Seq<char>| t.len() > 0,
    )
}

/// The list entry of a memo.
pub open spec fn memo_of(row: MemoRowModel) -> MemoModel {
    MemoModel {
        id: row.id,
        content: row.content,
        note: row.note,
        tags: shown_tags(row.tags),
        preview: row.preview,
        updated_at: row.updated_at,
    }
}

/// All memos found by tag and keyword, as listed.
pub open spec fn memo_matches(
    rows: Seq<MemoRowModel>,
    filter: TagFilter,
    keyword: Seq<char>,
) -> Seq<MemoRowModel> {
    ordered(
        survivors(rows, |r: MemoRowModel| memo_found(r, filter, trimmed(keyword))),
        memo_order(),
    )
}

/// Whether a search fails on its pattern. The pattern is measured when it is
/// first compared with a memo, so where no memo has the tag, the length does
/// not matter.
pub open spec fn search_too_long(
    rows: Seq<MemoRowModel>,
    filter: TagFilter,
    keyword: Seq<char>,
) -> bool {
    &&& pattern_too_long(keyword)
    &&& exists|i: int| 0 <= i < rows.len() && filter.admits((#[trigger] rows[i]).tags)
}

/// Where a pattern over the limit goes unnoticed, there was nothing to find.
pub proof fn lemma_unnoticed_search_finds_nothing(
    rows: Seq<MemoRowModel>,
    filter: TagFilter,
    keyword: Seq<char>,
)
    requires
        pattern_too_long(keyword),
        !search_too_long(rows, filter, keyword),
    ensures
        memo_entries(memo_matches(rows, filter, keyword)) == Seq::<MemoModel>::empty(),
{
    let f = |r: MemoRowModel| memo_found(r, filter, trimmed(keyword));
    let hits = survivors(rows, f);
    lemma_survivors(rows, f);
    if hits.len() > 0 {
        assert(f(hits[0]) && rows.contains(hits[0]));
        let k = choose|k: int| 0 <= k < rows.len() && rows[k] == hits[0];
        assert(filter.admits(rows[k].tags));
    }
    lemma_ordered_len(hits, memo_order());
}

/// The entries of a list of memos.
pub open spec fn memo_entries(rows: Seq<MemoRowModel>) -> Seq<MemoModel> {
    Seq::new(rows.len(), |i: int| memo_of(rows[i]))
}

pub open spec fn memo_views(memos: Seq<Memo>) -> Seq<MemoModel> {
    Seq::new(memos.len(), |i: int| memos[i]@)
}

/// How many memos have the tag.
pub open spec fn tagged_count(rows: Seq<MemoRowModel>, name: Seq<char>) -> nat {
    survivors(rows, |r: MemoRowModel| r.tags.contains(name)).len()
}

/// How many memos have no tag.
pub open spec fn untagged_count(rows: Seq<MemoRowModel>) -> nat {
    survivors(rows, |r: MemoRowModel| r.tags.len() == 0).len()
}

pub open spec fn has_memo(rows: Seq<MemoRowModel>, id: i64) -> bool {
    exists|i: int| 0 <= i < rows.len() && (#[trigger] rows[i]).id == id
}

/// The memo with the given id.
pub open spec fn memo_with(rows: Seq<MemoRowModel>, id: i64) -> MemoRowModel {
    rows[choose|i: int| 0 <= i < rows.len() && (#[trigger] rows[i]).id == id]
}

// ---------------------------------------------------------------- writing

/// Whether some memo has the tag.
pub open spec fn tag_used(rows: Seq<MemoRowModel>, name: Seq<char>) -> bool {
    exists|i: int| 0 <= i < rows.len() && (#[trigger] rows[i]).tags.contains(name)
}

pub open spec fn next_memo_id(rows: Seq<MemoRowModel>) -> int {
    if rows.len() == 0 {
        1
    } else {
        rows.last().id + 1
    }
}

/// The id under which a draft is stored.
pub open spec fn saved_id(rows: Seq<MemoRowModel>, id: Option<i64>) -> i64 {
    match id {
        Some(k) => k,
        None => next_memo_id(rows) as i64,
    }
}

/// The memos after a draft was stored at `now`.
pub open spec fn saved(
    rows: Seq<MemoRowModel>,
    id: Option<i64>,
    content: Seq<char>,
    note: Seq<char>,
    tags: Seq<Seq<char>>,
    now: i64,
) -> Seq<MemoRowModel> {
    match id {
        Some(k) => Seq::new(
            rows.len(),
            |i: int|
                if rows[i].id == k {
                    MemoRowModel {
                        content,
                        note,
                        preview: preview_of(content),
                        updated_at: now,
                        tags: distinct(tags),
                        ..rows[i]
                    }
                } else {
                    rows[i]
                },
        ),
        None => rows.push(
            MemoRowModel {
                id: next_memo_id(rows) as i64,
                content,
                note,
                preview: preview_of(content),
                created_at: now,
                updated_at: now,
                tags: distinct(tags),
            },
        ),
    }
}

/// Why a draft cannot be stored: there is no such memo to give tags to, or
/// no id is left for a new one.
pub open spec fn save_error(
    rows: Seq<MemoRowModel>,
    id: Option<i64>,
    tags: Seq<Seq<char>>,
) -> Option<StoreError> {
    match id {
        Some(k) => if tags.len() > 0 && !has_memo(rows, k) {
            Some(StoreError::NotFound)
        } else {
            None
        },
        None => if next_memo_id(rows) > i64::MAX {
            Some(StoreError::Full)
        } else {
            None
        },
    }
}

/// The memos without the one with the given id.
pub open spec fn without_memo(rows: Seq<MemoRowModel>, id: i64) -> Seq<MemoRowModel> {
    survivors(rows, |r: MemoRowModel| r.id != id)
}

/// The known tags are exactly those that some memo has.
pub open spec fn names_in_use(t: MemoTables) -> bool {
    forall|x: Seq<char>| #[trigger] t.names.contains(x) <==> tag_used(t.rows, x)
}

// ---------------------------------------------------------------- lists of names

fn distinct_strings(items: &Vec<String>) -> (r: Vec<String>)
    ensures
        views(r@) == distinct(views(items@)),
{
    let ghost all = views(items@);
    let mut out: Vec<String> = Vec::new();
    assert(all.take(0) == Seq::<Seq<char>>::empty());
    for i in 0..items.len()
        invariant
            all == views(items@),
            views(out@) == distinct(all.take(i as int)),
    {
        proof {
            assert(all.take(i + 1).drop_last() == all.take(i as int));
            assert(all.take(i + 1).last() == items@[i as int]@);
        }
        if !list_contains(&out, items[i].as_str()) {
            let ghost before = views(out@);
            out.push(items[i].clone());
            assert(views(out@) == before.push(items@[i as int]@));
        }
    }
    assert(all.take(all.len() as int) == all);
    out
}

fn all_distinct(items: &Vec<String>) -> (r: bool)
    ensures
        r == views(items@).no_duplicates(),
{
    let ghost all = views(items@);
    for i in 0..items.len()
        invariant
            all == views(items@),
            forall|a: int, b: int| 0 <= a < i && 0 <= b < i && a != b ==> all[a] != all[b],
    {
        for j in 0..i
            invariant
                all == views(items@),
                i < items@.len(),
                forall|a: int| 0 <= a < j ==> all[a] != all[i as int],
        {
            if same_text(items[j].as_str(), items[i].as_str()) {
                assert(all[j as int] == all[i as int]);
                return false;
            }
        }
    }
    true
}

/// Puts a name into a sorted list of names, once.
fn add_name(names: &mut Vec<String>, name: &str)
    requires
        names_sorted(views(old(names)@)),
    ensures
        names_sorted(views(final(names)@)),
        forall|x: Seq<char>| #[trigger]
            views(final(names)@).contains(x) <==> views(old(names)@).contains(x) || x == name@,
{
    let ghost before = views(names@);
    let mut k: usize = 0;
    while k < names.len() && text_precedes(names[k].as_str(), name)
        invariant
            before == views(names@),
            k <= names@.len(),
            forall|j: int| 0 <= j < k ==> text_before(#[trigger] before[j], name@),
        decreases names@.len() - k,
    {
        assert(before[k as int] == names@[k as int]@);
        k = k + 1;
    }
    if k < names.len() && same_text(names[k].as_str(), name) {
        proof {
            assert(before[k as int] == names@[k as int]@);
            assert(before.contains(name@));
        }
        return ;
    }
    proof {
        if k < names@.len() {
            assert(before[k as int] == names@[k as int]@);
            lemma_text_order_total(before[k as int], name@);
        }
    }
    names.insert(k, name.to_owned());
    proof {
        let after = views(names@);
        assert(after == before.insert(k as int, name@));
        assert forall|i: int, j: int| 0 <= i < j < after.len() implies text_before(
            after[i],
            after[j],
        ) by {
            if j < k {
                assert(after[i] == before[i] && after[j] == before[j]);
            } else if j == k {
                assert(after[i] == before[i]);
            } else if i == k {
                assert(after[j] == before[j - 1]);
                if j - 1 > k {
                    lemma_text_order_transitive(name@, before[k as int], before[j - 1]);
                }
            } else if i < k {
                assert(after[i] == before[i] && after[j] == before[j - 1]);
            } else {
                assert(after[i] == before[i - 1] && after[j] == before[j - 1]);
            }
        }
        assert forall|x: Seq<char>| #[trigger] after.contains(x) <==> before.contains(x) || x
            == name@ by {
            if after.contains(x) {
                let i = choose|i: int| 0 <= i < after.len() && after[i] == x;
                if i < k {
                    assert(before[i] == x);
                } else if i > k {
                    assert(before[i - 1] == x);
                }
            }
            if before.contains(x) {
                let i = choose|i: int| 0 <= i < before.len() && before[i] == x;
                if i < k {
                    assert(after[i] == x);
                } else {
                    assert(after[i + 1] == x);
                }
            }
            if x == name@ {
                assert(after[k as int] == x);
            }
        }
    }
}

/// The tags that some memo has, sorted.
fn used_names(rows: &Vec<MemoRow>) -> (names: Vec<String>)
    ensures
        names_sorted(views(names@)),
        forall|x: Seq<char>| #[trigger]
            views(names@).contains(x) <==> tag_used(memo_models(rows@), x),
{
    let ghost all = memo_models(rows@);
    let mut names: Vec<String> = Vec::new();
    for i in 0..rows.len()
        invariant
            all == memo_models(rows@),
            names_sorted(views(names@)),
            forall|x: Seq<char>| #[trigger]
                views(names@).contains(x) <==> tag_used(all.take(i as int), x),
    {
        let tags = &rows[i].tags;
        let ghost start = views(names@);
        for j in 0..tags.len()
            invariant
                names_sorted(views(names@)),
                forall|x: Seq<char>| #[trigger]
                    views(names@).contains(x) <==> start.contains(x) || views(tags@).take(
                        j as int,
                    ).contains(x),
        {
            let ghost before = views(names@);
            add_name(&mut names, tags[j].as_str());
            proof {
                let t = views(tags@);
                let name = tags@[j as int]@;
                assert(t.take(j + 1) == t.take(j as int).push(name));
                assert forall|x: Seq<char>| #[trigger] views(names@).contains(x) <==> start.contains(
                    x,
                ) || t.take(j + 1).contains(x) by {
                    assert(views(names@).contains(x) <==> before.contains(x) || x == name);
                    lemma_contains_push(t.take(j as int), name, x);
                }
            }
        }
        proof {
            let t = views(tags@);
            assert(t.take(tags@.len() as int) == t);
            assert(all[i as int].tags == t);
            assert(all.take(i + 1) == all.take(i as int).push(all[i as int]));
            assert forall|x: Seq<char>| #[trigger] views(names@).contains(x) <==> tag_used(
                all.take(i + 1),
                x,
            ) by {
                lemma_tag_used_push(all.take(i as int), all[i as int], x);
                assert(start.contains(x) <==> tag_used(all.take(i as int), x));
            }
        }
    }
    assert(all.take(all.len() as int) == all);
    names
}

proof fn lemma_contains_push(s: Seq<Seq<char>>, y: Seq<char>, x: Seq<char>)
    ensures
        s.push(y).contains(x) <==> s.contains(x) || x == y,
{
    if s.push(y).contains(x) {
        let i = choose|i: int| 0 <= i < s.push(y).len() && s.push(y)[i] == x;
        if i < s.len() {
            assert(s[i] == x);
        }
    }
    if s.contains(x) {
        let i = choose|i: int| 0 <= i < s.len() && s[i] == x;
        assert(s.push(y)[i] == x);
    }
    if x == y {
        assert(s.push(y)[s.len() as int] == x);
    }
}

proof fn lemma_tag_used_push(rows: Seq<MemoRowModel>, row: MemoRowModel, x: Seq<char>)
    ensures
        tag_used(rows.push(row), x) <==> tag_used(rows, x) || row.tags.contains(x),
{
    let after = rows.push(row);
    if tag_used(after, x) {
        let i = choose|i: int| 0 <= i < after.len() && (#[trigger] after[i]).tags.contains(x);
        if i < rows.len() {
            assert(rows[i].tags.contains(x));
        }
    }
    if tag_used(rows, x) {
        let i = choose|i: int| 0 <= i < rows.len() && (#[trigger] rows[i]).tags.contains(x);
        assert(after[i].tags.contains(x));
    }
    if row.tags.contains(x) {
        assert(after[rows.len() as int].tags.contains(x));
    }
}

// ---------------------------------------------------------------- the store

/// The stored memos.
#[derive(Debug, Clone)]
pub struct MemoStore {
    rows: Vec<MemoRow>,
    names: Vec<String>,
}

impl View for MemoStore {
    type V = MemoTables;

    closed spec fn view(&self) -> MemoTables {
        MemoTables { rows: memo_models(self.rows@), names: views(self.names@) }
    }
}

/// The text of shown tags, parted again.
fn listed_tags(tags: &Vec<String>) -> (r: Vec<String>)
    ensures
        views(r@) == shown_tags(views(tags@)),
{
    let mut mark = String::new();
    mark.push(TAG_MARK);
    assert(mark@ == seq![TAG_MARK]);
    let joined = join_strings(tags, mark.as_str());
    let v = chars_of(joined.as_str());
    let parts = split_at_char(&v, TAG_MARK);
    let ghost f = |t: Seq<char>| t.len() > 0;
    let ghost all = char_views(parts@);
    let mut out: Vec<String> = Vec::new();
    assert(all.take(0) == Seq::<Seq<char>>::empty());
    for i in 0..parts.len()
        invariant
            f == |t: Seq<char>| t.len() > 0,
            all == char_views(parts@),
            views(out@) == survivors(all.take(i as int), f),
    {
        proof {
            assert(all[i as int] == parts@[i as int]@);
            assert(all.take(i + 1).drop_last() == all.take(i as int));
        }
        if parts[i].len() > 0 {
            let ghost before = views(out@);
            out.push(string_of(&parts[i]));
            assert(views(out@) == before.push(parts@[i as int]@));
        }
    }
    assert(all.take(all.len() as int) == all);
    out
}

fn memo_from_row(row: &MemoRow) -> (r: Memo)
    ensures
        r@ == memo_of(row@),
{
    Memo {
        id: row.id,
        content: row.content.clone(),
        note: row.note.clone(),
        tags: listed_tags(&row.tags),
        preview: row.preview.clone(),
        updated_at: row.updated_at,
    }
}

impl MemoStore {
    pub open spec fn wf(&self) -> bool {
        memos_well_formed(self@)
    }

    /// A store without memos.
    pub fn new() -> (r: Self)
        ensures
            r.wf(),
            r@.rows.len() == 0,
            r@.names.len() == 0,
    {
        MemoStore { rows: Vec::new(), names: Vec::new() }
    }

    /// A store with rows and tags read from disk.
    pub fn open(rows: Vec<MemoRow>, names: Vec<String>) -> (r: Result<Self, StoreError>)
        ensures
            r is Ok <==> rows_fit(memo_models(rows@), views(names@)),
            r matches Ok(store) ==> {
                &&& store.wf()
                &&& store@.rows == memo_models(rows@)
                &&& forall|x: Seq<char>| #[trigger]
                    store@.names.contains(x) <==> views(names@).contains(x)
            },
            r matches Err(e) ==> e == StoreError::Corrupt,
    {
        let ghost given = views(names@);
        let mut sorted: Vec<String> = Vec::new();
        for i in 0..names.len()
            invariant
                given == views(names@),
                names_sorted(views(sorted@)),
                forall|x: Seq<char>| #[trigger]
                    views(sorted@).contains(x) <==> given.take(i as int).contains(x),
        {
            let ghost before = views(sorted@);
            add_name(&mut sorted, names[i].as_str());
            proof {
                let name = names@[i as int]@;
                assert(given.take(i + 1) == given.take(i as int).push(name));
                assert forall|x: Seq<char>| #[trigger]
                    views(sorted@).contains(x) <==> given.take(i + 1).contains(x) by {
                    lemma_contains_push(given.take(i as int), name, x);
                    assert(before.contains(x) <==> given.take(i as int).contains(x));
                }
            }
        }
        assert(given.take(given.len() as int) == given);
        let ghost all = memo_models(rows@);
        for i in 0..rows.len()
            invariant
                all == memo_models(rows@),
                given == views(names@),
                forall|x: Seq<char>| #[trigger]
                    views(sorted@).contains(x) <==> given.contains(x),
                forall|a: int, b: int| 0 <= a < b < i ==> all[a].id < all[b].id,
                forall|a: int| 0 <= a < i ==> (#[trigger] all[a]).tags.no_duplicates(),
                forall|a: int, x: Seq<char>|
                    0 <= a < i && #[trigger] all[a].tags.contains(x) ==> given.contains(x),
        {
            assert(all[i as int] == rows@[i as int]@);
            if i > 0 && rows[i - 1].id >= rows[i].id {
                assert(all[i - 1].id >= all[i as int].id);
                return Err(StoreError::Corrupt);
            }
            let tags = &rows[i].tags;
            if !all_distinct(tags) {
                return Err(StoreError::Corrupt);
            }
            for j in 0..tags.len()
                invariant
                    all == memo_models(rows@),
                    given == views(names@),
                    i < rows@.len(),
                    *tags == rows@[i as int].tags,
                    forall|x: Seq<char>| #[trigger]
                        views(sorted@).contains(x) <==> given.contains(x),
                    forall|b: int|
                        0 <= b < j ==> given.contains(#[trigger] views(tags@)[b]),
            {
                if !list_contains(&sorted, tags[j].as_str()) {
                    proof {
                        assert(views(tags@)[j as int] == tags@[j as int]@);
                        assert(all[i as int].tags.contains(tags@[j as int]@));
                        assert(!given.contains(tags@[j as int]@));
                    }
                    return Err(StoreError::Corrupt);
                }
                assert(given.contains(views(tags@)[j as int]));
            }
            proof {
                assert(all[i as int].tags == views(tags@));
                assert forall|a: int, b: int| 0 <= a < b < i + 1 implies all[a].id < all[b].id by {
                    if b == i {
                        assert(all[i - 1].id < all[i as int].id);
                        if a < i - 1 {
                            assert(all[a].id < all[i - 1].id);
                        }
                    }
                }
            }
        }
        let store = MemoStore { rows, names: sorted };
        assert(rows_fit(store@.rows, store@.names));
        Ok(store)
    }

    /// The stored rows, for writing them back to disk.
    pub fn rows(&self) -> (r: &Vec<MemoRow>)
        ensures
            memo_models(r@) == self@.rows,
    {
        &self.rows
    }

    /// The known tags, for writing them back to disk.
    pub fn names(&self) -> (r: &Vec<String>)
        ensures
            views(r@) == self@.names,
    {
        &self.names
    }

    fn find(&self, id: i64) -> (r: Option<usize>)
        requires
            self.wf(),
        ensures
            r is Some <==> has_memo(self@.rows, id),
            r matches Some(i) ==> i < self@.rows.len() && self@.rows[i as int].id == id
                && memo_with(self@.rows, id) == self@.rows[i as int],
    {
        let ghost all = self@.rows;
        for i in 0..self.rows.len()
            invariant
                all == memo_models(self.rows@),
                rows_fit(all, self@.names),
                self@.rows == all,
                forall|j: int| 0 <= j < i ==> (#[trigger] all[j]).id != id,
        {
            assert(all[i as int] == self.rows@[i as int]@);
            if self.rows[i].id == id {
                proof {
                    let k = choose|k: int| 0 <= k < all.len() && (#[trigger] all[k]).id == id;
                    assert(all[k].id == id);
                    if k < i {
                        assert(all[k].id < all[i as int].id);
                    }
                    if i < k {
                        assert(all[i as int].id < all[k].id);
                    }
                }
                return Some(i);
            }
        }
        None
    }

    /// The places of the memos found by tag and keyword, as listed.
    fn listed_places(&self, filter: &TagFilter, keyword: &str) -> (r: Vec<usize>)
        ensures
            forall|i: int| 0 <= i < r@.len() ==> (#[trigger] r@[i]) < self@.rows.len(),
            picked(self@.rows, r@) == ordered(
                survivors(self@.rows, |r: MemoRowModel| memo_found(r, *filter, keyword@)),
                memo_order(),
            ),
    {
        let ghost f = |r: MemoRowModel| memo_found(r, *filter, keyword@);
        let ghost all = self@.rows;
        let mut order: Vec<usize> = Vec::new();
        let n: usize = self.rows.len();
        let any = keyword.is_empty();
        assert(all.take(0) == Seq::<MemoRowModel>::empty());
        for i in 0..n
            invariant
                n == self.rows@.len(),
                all == memo_models(self.rows@),
                any == (keyword@.len() == 0),
                f == |r: MemoRowModel| memo_found(r, *filter, keyword@),
                forall|j: int| 0 <= j < order@.len() ==> (#[trigger] order@[j]) < i,
                picked(all, order@) == ordered(survivors(all.take(i as int), f), memo_order()),
        {
            let row = &self.rows[i];
            proof {
                assert(all[i as int] == row@);
                assert(all.take(i + 1).drop_last() == all.take(i as int));
                assert(all.take(i + 1).last() == row@);
            }
            let hit = filter.accepts(&row.tags) && (any || mentions_keyword(
                row.content.as_str(),
                keyword,
            ) || mentions_keyword(row.note.as_str(), keyword));
            assert(hit == f(row@));
            if hit {
                let ghost head = survivors(all.take(i as int), f);
                let ghost l = picked(all, order@);
                let mut k: usize = order.len();
                while k > 0 && row.updated_at > self.rows[order[k - 1]].updated_at
                    invariant
                        k <= order@.len(),
                        i < n,
                        n == self.rows@.len(),
                        all == memo_models(self.rows@),
                        *row == self.rows@[i as int],
                        l == picked(all, order@),
                        forall|j: int| 0 <= j < order@.len() ==> (#[trigger] order@[j]) < i,
                        forall|j: int| k <= j < l.len() ==> memo_order()(row@, #[trigger] l[j]),
                    decreases k,
                {
                    proof {
                        assert(l[k - 1] == all[order@[k - 1] as int]);
                        assert(all[order@[k - 1] as int] == self.rows@[order@[k - 1] as int]@);
                    }
                    k = k - 1;
                }
                proof {
                    if k > 0 {
                        assert(l[k - 1] == all[order@[k - 1] as int]);
                        assert(all[order@[k - 1] as int] == self.rows@[order@[k - 1] as int]@);
                    }
                    lemma_placed_at(l, row@, memo_order(), k as int);
                    assert(survivors(all.take(i + 1), f) == head.push(row@));
                    assert(head.push(row@).drop_last() == head);
                }
                let ghost before = order@;
                order.insert(k, i);
                assert(picked(all, order@) == l.insert(k as int, row@));
                assert forall|j: int| 0 <= j < order@.len() implies (#[trigger] order@[j]) < i
                    + 1 by {
                    if j < k {
                        assert(order@[j] == before[j]);
                    } else if j > k {
                        assert(order@[j] == before[j - 1]);
                    }
                }
            } else {
                assert(survivors(all.take(i + 1), f) == survivors(all.take(i as int), f));
            }
        }
        assert(all.take(n as int) == all);
        order
    }

    fn any_admitted(&self, filter: &TagFilter) -> (r: bool)
        ensures
            r <==> exists|i: int|
                0 <= i < self@.rows.len() && filter.admits((#[trigger] self@.rows[i]).tags),
    {
        for i in 0..self.rows.len()
            invariant
                forall|j: int| 0 <= j < i ==> !filter.admits((#[trigger] self@.rows[j]).tags),
        {
            assert(self@.rows[i as int] == self.rows@[i as int]@);
            if filter.accepts(&self.rows[i].tags) {
                return true;
            }
        }
        false
    }

    /// The memos found by tag and keyword, the last changed first. The keyword
    /// is looked for in content and note; a blank one finds everything.
    pub fn list(&self, filter: &TagFilter, keyword: &str) -> (r: Result<Vec<Memo>, StoreError>)
        ensures
            r is Ok <==> !search_too_long(self@.rows, *filter, keyword@),
            r matches Ok(memos) ==> memo_views(memos@) == memo_entries(
                memo_matches(self@.rows, *filter, keyword@),
            ),
            r matches Err(e) ==> e == StoreError::PatternTooLong,
    {
        let keyword = trim_text(keyword);
        if trimmed_too_long(keyword.as_str()) && self.any_admitted(filter) {
            return Err(StoreError::PatternTooLong);
        }
        let order = self.listed_places(filter, keyword.as_str());
        let ghost all = picked(self@.rows, order@);
        let mut out: Vec<Memo> = Vec::new();
        for i in 0..order.len()
            invariant
                all == picked(self@.rows, order@),
                forall|i: int| 0 <= i < order@.len() ==> (#[trigger] order@[i]) < self@.rows.len(),
                memo_views(out@) == memo_entries(all).take(i as int),
        {
            assert(order@[i as int] < self@.rows.len());
            let ghost before = memo_views(out@);
            out.push(memo_from_row(&self.rows[order[i]]));
            proof {
                assert(all[i as int] == self.rows@[order@[i as int] as int]@);
                assert(memo_views(out@) == before.push(memo_of(all[i as int])));
                assert(memo_entries(all).take(i + 1) == memo_entries(all).take(i as int).push(
                    memo_of(all[i as int]),
                ));
            }
        }
        assert(memo_entries(all).take(order@.len() as int) == memo_entries(all));
        Ok(out)
    }

    fn count_tagged(&self, name: &str) -> (r: usize)
        ensures
            r == tagged_count(self@.rows, name@),
    {
        let ghost f = |r: MemoRowModel| r.tags.contains(name@);
        let ghost all = self@.rows;
        let mut n: usize = 0;
        assert(all.take(0) == Seq::<MemoRowModel>::empty());
        for i in 0..self.rows.len()
            invariant
                f == |r: MemoRowModel| r.tags.contains(name@),
                all == memo_models(self.rows@),
                n <= i,
                n == survivors(all.take(i as int), f).len(),
        {
            proof {
                assert(all[i as int] == self.rows@[i as int]@);
                assert(all.take(i + 1).drop_last() == all.take(i as int));
            }
            if list_contains(&self.rows[i].tags, name) {
                n = n + 1;
            }
        }
        assert(all.take(all.len() as int) == all);
        n
    }

    fn count_untagged(&self) -> (r: usize)
        ensures
            r == untagged_count(self@.rows),
    {
        let ghost f = |r: MemoRowModel| r.tags.len() == 0;
        let ghost all = self@.rows;
        let mut n: usize = 0;
        assert(all.take(0) == Seq::<MemoRowModel>::empty());
        for i in 0..self.rows.len()
            invariant
                f == |r: MemoRowModel| r.tags.len() == 0,
                all == memo_models(self.rows@),
                n <= i,
                n == survivors(all.take(i as int), f).len(),
        {
            proof {
                assert(all[i as int] == self.rows@[i as int]@);
                assert(all.take(i + 1).drop_last() == all.take(i as int));
            }
            if self.rows[i].tags.len() == 0 {
                n = n + 1;
            }
        }
        assert(all.take(all.len() as int) == all);
        n
    }

    /// What the tag list shows: the number of memos, the number of those
    /// without a tag, and each tag by name with the number of its memos.
    pub fn tag_summaries(&self) -> (r: (i64, i64, Vec<TagSummary>))
        ensures
            r.0 == self@.rows.len() as i64,
            r.1 == untagged_count(self@.rows) as i64,
            r.2@.len() == self@.names.len(),
            forall|i: int|
                0 <= i < r.2@.len() ==> {
                    &&& (#[trigger] r.2@[i]).name@ == self@.names[i]
                    &&& r.2@[i].count == tagged_count(self@.rows, self@.names[i]) as i64
                },
    {
        let total: usize = self.rows.len();
        let untagged: usize = self.count_untagged();
        let mut tags: Vec<TagSummary> = Vec::new();
        for i in 0..self.names.len()
            invariant
                self@.names == views(self.names@),
                tags@.len() == i,
                forall|j: int|
                    0 <= j < i ==> {
                        &&& (#[trigger] tags@[j]).name@ == self@.names[j]
                        &&& tags@[j].count == tagged_count(self@.rows, self@.names[j]) as i64
                    },
        {
            assert(self@.names[i as int] == self.names@[i as int]@);
            let count: usize = self.count_tagged(self.names[i].as_str());
            tags.push(TagSummary { name: self.names[i].clone(), count: count as i64 });
        }
        (total as i64, untagged as i64, tags)
    }

    /// Stores a draft at `now` and returns its id. The tags are replaced as a
    /// whole, and tags without a memo are forgotten.
    pub fn save(&mut self, draft: &MemoDraft, now: i64) -> (r: Result<i64, StoreError>)
        requires
            old(self).wf(),
        ensures
            final(self).wf(),
            r is Ok <==> save_error(old(self)@.rows, draft.id, views(draft.tags@)) is None,
            r matches Err(e) ==> Some(e) == save_error(
                old(self)@.rows,
                draft.id,
                views(draft.tags@),
            ) && final(self)@ == old(self)@,
            r matches Ok(id) ==> {
                &&& id == saved_id(old(self)@.rows, draft.id)
                &&& final(self)@.rows == saved(
                    old(self)@.rows,
                    draft.id,
                    draft.content@,
                    draft.note@,
                    views(draft.tags@),
                    now,
                )
                &&& names_in_use(final(self)@)
            },
    {
        let ghost orig = self@;
        let tags = distinct_strings(&draft.tags);
        proof {
            lemma_distinct(views(draft.tags@));
        }
        let preview = make_preview(draft.content.as_str());
        let id: i64 = match draft.id {
            Some(id) => {
                match self.find(id) {
                    Some(i) => {
                        self.rows[i].content = draft.content.clone();
                        self.rows[i].note = draft.note.clone();
                        self.rows[i].preview = preview;
                        self.rows[i].updated_at = now;
                        self.rows[i].tags = tags;
                        proof {
                            let all = memo_models(self.rows@);
                            let row = self.rows@[i as int]@;
                            assert(all == orig.rows.update(i as int, row));
                            assert forall|j: int| 0 <= j < all.len() && j != i implies (
                            #[trigger] orig.rows[j]).id != id by {
                                if j < i {
                                    assert(orig.rows[j].id < orig.rows[i as int].id);
                                } else {
                                    assert(orig.rows[i as int].id < orig.rows[j].id);
                                }
                            }
                            assert(all == saved(
                                orig.rows,
                                draft.id,
                                draft.content@,
                                draft.note@,
                                views(draft.tags@),
                                now,
                            ));
                        }
                    },
                    None => {
                        if draft.tags.len() > 0 {
                            return Err(StoreError::NotFound);
                        }
                        assert(memo_models(self.rows@) == saved(
                            orig.rows,
                            draft.id,
                            draft.content@,
                            draft.note@,
                            views(draft.tags@),
                            now,
                        ));
                    },
                }
                id
            },
            None => {
                let n: usize = self.rows.len();
                let id: i64 = if n == 0 {
                    1
                } else {
                    assert(orig.rows.last() == self.rows@[n - 1]@);
                    let last: i64 = self.rows[n - 1].id;
                    if last == i64::MAX {
                        return Err(StoreError::Full);
                    }
                    last + 1
                };
                let row = MemoRow {
                    id,
                    content: draft.content.clone(),
                    note: draft.note.clone(),
                    preview,
                    created_at: now,
                    updated_at: now,
                    tags,
                };
                let ghost model = row@;
                self.rows.push(row);
                assert(memo_models(self.rows@) == orig.rows.push(model));
                id
            },
        };
        self.names = used_names(&self.rows);
        proof {
            let all = self@.rows;
            assert forall|i: int, j: int| 0 <= i < j < all.len() implies all[i].id < all[j].id by {
                if j < orig.rows.len() {
                    assert(all[i].id == orig.rows[i].id && all[j].id == orig.rows[j].id);
                } else {
                    assert(all[i].id == orig.rows[i].id);
                    if i < orig.rows.len() - 1 {
                        assert(orig.rows[i].id < orig.rows[orig.rows.len() - 1].id);
                    }
                }
            }
            assert forall|i: int| 0 <= i < all.len() implies (
            #[trigger] all[i]).tags.no_duplicates() by {
                if i < orig.rows.len() {
                    assert(orig.rows[i].tags.no_duplicates());
                }
            }
            assert forall|i: int, x: Seq<char>|
                0 <= i < all.len() && #[trigger] all[i].tags.contains(
                    x,
                ) implies self@.names.contains(x) by {
                assert(tag_used(all, x));
            }
        }
        Ok(id)
    }

    /// Removes a memo, and forgets tags without a memo.
    pub fn delete(&mut self, id: i64)
        requires
            old(self).wf(),
        ensures
            final(self).wf(),
            final(self)@.rows == without_memo(old(self)@.rows, id),
            names_in_use(final(self)@),
    {
        let ghost orig = self@;
        let ghost f = |r: MemoRowModel| r.id != id;
        match self.find(id) {
            Some(i) => {
                self.rows.remove(i);
                proof {
                    assert(memo_models(self.rows@) == orig.rows.remove(i as int));
                    lemma_without_one(orig.rows, i as int, id);
                }
            },
            None => {
                proof {
                    assert forall|j: int| 0 <= j < orig.rows.len() implies f(
                        #[trigger] orig.rows[j],
                    ) by {}
                    lemma_all_survive(orig.rows, f);
                }
            },
        }
        self.names = used_names(&self.rows);
        proof {
            let all = self@.rows;
            assert(all == without_memo(orig.rows, id));
            lemma_kept_rows_fit(orig.rows, f, orig.names);
            assert forall|i: int, x: Seq<char>|
                0 <= i < all.len() && #[trigger] all[i].tags.contains(
                    x,
                ) implies self@.names.contains(x) by {
                assert(tag_used(all, x));
            }
        }
    }

    /// The full text of a memo.
    pub fn content_of(&self, id: i64) -> (r: Result<String, StoreError>)
        requires
            self.wf(),
        ensures
            r is Ok <==> has_memo(self@.rows, id),
            r matches Ok(s) ==> s@ == memo_with(self@.rows, id).content,
            r matches Err(e) ==> e == StoreError::NotFound,
    {
        match self.find(id) {
            Some(i) => {
                assert(self@.rows[i as int] == self.rows@[i as int]@);
                Ok(self.rows[i].content.clone())
            },
            None => Err(StoreError::NotFound),
        }
    }
}

proof fn lemma_without_one(rows: Seq<MemoRowModel>, i: int, id: i64)
    requires
        0 <= i < rows.len(),
        rows[i].id == id,
        forall|a: int, b: int| 0 <= a < b < rows.len() ==> rows[a].id < rows[b].id,
    ensures
        rows.remove(i) == without_memo(rows, id),
    decreases rows.len(),
{
    let f = |r: MemoRowModel| r.id != id;
    let init = rows.drop_last();
    if i == init.len() {
        assert forall|j: int| 0 <= j < init.len() implies f(#[trigger] init[j]) by {
            assert(rows[j].id < rows[i].id);
        }
        lemma_all_survive(init, f);
        assert(rows.remove(i) == init);
    } else {
        assert forall|a: int, b: int| 0 <= a < b < init.len() implies init[a].id < init[b].id by {
            assert(rows[a].id < rows[b].id);
        }
        lemma_without_one(init, i, id);
        assert(rows[i].id < rows[rows.len() - 1].id);
        assert(rows.remove(i) == init.remove(i).push(rows.last()));
    }
}

proof fn lemma_kept_rows_fit(
    rows: Seq<MemoRowModel>,
    f: spec_fn(MemoRowModel) -> bool,
    names: Seq<Seq<char>>,
)
    requires
        rows_fit(rows, names),
    ensures
        rows_fit(survivors(rows, f), names),
    decreases rows.len(),
{
    if rows.len() > 0 {
        let init = rows.drop_last();
        assert(rows_fit(init, names)) by {
            assert forall|i: int| 0 <= i < init.len() implies (
            #[trigger] init[i]).tags.no_duplicates() by {
                assert(init[i] == rows[i]);
            }
            assert forall|i: int, x: Seq<char>|
                0 <= i < init.len() && #[trigger] init[i].tags.contains(
                    x,
                ) implies names.contains(x) by {
                assert(rows[i].tags.contains(x));
            }
        }
        lemma_kept_rows_fit(init, f, names);
        lemma_survivors(init, f);
        let s = survivors(init, f);
        let t = survivors(rows, f);
        if f(rows.last()) {
            assert forall|i: int, j: int| 0 <= i < j < t.len() implies t[i].id < t[j].id by {
                if j == s.len() {
                    assert(init.contains(s[i]));
                    let k = choose|k: int| 0 <= k < init.len() && init[k] == s[i];
                    assert(rows[k].id < rows[rows.len() - 1].id);
                }
            }
            assert forall|i: int| 0 <= i < t.len() implies (
            #[trigger] t[i]).tags.no_duplicates() by {
                if i < s.len() {
                    assert(t[i] == s[i]);
                } else {
                    assert(t[i] == rows[rows.len() - 1]);
                }
            }
            assert forall|i: int, x: Seq<char>|
                0 <= i < t.len() && #[trigger] t[i].tags.contains(x) implies names.contains(x) by {
                if i < s.len() {
                    assert(s[i].tags.contains(x));
                } else {
                    assert(rows[rows.len() - 1].tags.contains(x));
                }
            }
        }
    }
}

// ---------------------------------------------------------------- laws

/// Tags that are not blank and hold no mark are listed as they were entered.
pub proof fn tags_are_listed_as_entered(tags: Seq<Seq<char>>)
    requires
        forall|i: int|
            0 <= i < tags.len() ==> (#[trigger] tags[i]).len() > 0 && !tags[i].contains(TAG_MARK),
    ensures
        shown_tags(tags) == tags,
{
    let f = |t: Seq<char>| t.len() > 0;
    if tags.len() > 0 {
        split_undoes_join(tags, TAG_MARK);
        lemma_all_survive(tags, f);
    } else {
        let none = Seq::<char>::empty();
        let parts = split(none, |c: char| c == TAG_MARK);
        assert(join(tags, seq![TAG_MARK]) == none);
        assert(parts == seq![none]);
        assert(parts.drop_last() == Seq::<Seq<char>>::empty());
        assert(survivors(parts.drop_last(), f) == Seq::<Seq<char>>::empty());
        assert(survivors(parts, f) == tags);
    }
}

/// A stored draft is read back: its memo holds the draft's text, note and
/// tags, and counts as changed at that time.
pub proof fn saved_memo_is_read_back(
    rows: Seq<MemoRowModel>,
    names: Seq<Seq<char>>,
    id: Option<i64>,
    content: Seq<char>,
    note: Seq<char>,
    tags: Seq<Seq<char>>,
    now: i64,
)
    requires
        rows_fit(rows, names),
        save_error(rows, id, tags) is None,
        id is Some ==> has_memo(rows, id->0),
    ensures
        ({
            let after = saved(rows, id, content, note, tags, now);
            let k = saved_id(rows, id);
            &&& has_memo(after, k)
            &&& memo_with(after, k).content == content
            &&& memo_with(after, k).note == note
            &&& memo_with(after, k).tags == distinct(tags)
            &&& memo_with(after, k).updated_at == now
            &&& memo_with(after, k).preview == preview_of(content)
        }),
{
    let after = saved(rows, id, content, note, tags, now);
    let k = saved_id(rows, id);
    let i = match id {
        Some(k) => choose|i: int| 0 <= i < rows.len() && (#[trigger] rows[i]).id == k,
        None => rows.len() as int,
    };
    assert(after[i].id == k);
    assert(has_memo(after, k));
    let j = choose|j: int| 0 <= j < after.len() && (#[trigger] after[j]).id == k;
    if id is None && j < rows.len() {
        assert(rows[j].id <= rows[rows.len() - 1].id) by {
            if j < rows.len() - 1 {
                assert(rows[j].id < rows[rows.len() - 1].id);
            }
        }
    }
}

/// Storing a draft leaves every other memo as it was.
pub proof fn saving_spares_other_memos(
    rows: Seq<MemoRowModel>,
    id: Option<i64>,
    content: Seq<char>,
    note: Seq<char>,
    tags: Seq<Seq<char>>,
    now: i64,
    i: int,
)
    requires
        0 <= i < rows.len(),
        id != Some(rows[i].id),
    ensures
        saved(rows, id, content, note, tags, now)[i] == rows[i],
{
}

/// No tag is known without a memo: its count is never zero after a change.
pub proof fn known_tags_have_memos(t: MemoTables, name: Seq<char>)
    requires
        names_in_use(t),
    ensures
        t.names.contains(name) <==> tagged_count(t.rows, name) > 0,
{
    let f = |r: MemoRowModel| r.tags.contains(name);
    lemma_survivors(t.rows, f);
    let s = survivors(t.rows, f);
    if tag_used(t.rows, name) {
        let i = choose|i: int|
            0 <= i < t.rows.len() && (#[trigger] t.rows[i]).tags.contains(name);
        assert(f(t.rows[i]));
        assert(s.contains(t.rows[i]));
    }
    if s.len() > 0 {
        assert(f(s[0]) && t.rows.contains(s[0]));
        let i = choose|i: int| 0 <= i < t.rows.len() && t.rows[i] == s[0];
        assert(t.rows[i].tags.contains(name));
    }
}

/// A removed memo is gone, and every other memo stays.
pub proof fn deleting_removes_only_that_memo(rows: Seq<MemoRowModel>, id: i64, k: int)
    requires
        0 <= k < rows.len(),
    ensures
        !has_memo(without_memo(rows, id), id),
        rows[k].id != id ==> without_memo(rows, id).contains(rows[k]),
{
    let f = |r: MemoRowModel| r.id != id;
    lemma_survivors(rows, f);
    assert(rows[k].id != id ==> f(rows[k]));
}

/// A list holds exactly the memos that are found, and the last changed comes
/// first.
pub proof fn memo_list_is_sorted_matches(
    rows: Seq<MemoRowModel>,
    filter: TagFilter,
    keyword: Seq<char>,
)
    ensures
        forall|i: int, j: int|
            0 <= i < j < memo_matches(rows, filter, keyword).len() ==> (#[trigger] memo_matches(
                rows,
                filter,
                keyword,
            )[i]).updated_at >= (#[trigger] memo_matches(rows, filter, keyword)[j]).updated_at,
        forall|r: MemoRowModel| #[trigger]
            memo_matches(rows, filter, keyword).contains(r) <==> rows.contains(r) && memo_found(
                r,
                filter,
                trimmed(keyword),
            ),
{
    let f = |r: MemoRowModel| memo_found(r, filter, trimmed(keyword));
    let kept = survivors(rows, f);
    let l = memo_matches(rows, filter, keyword);
    ordering_sorts(kept, memo_order());
    lemma_survivors(rows, f);
    assert forall|i: int, j: int| 0 <= i < j < l.len() implies (#[trigger] l[i]).updated_at >= (
    #[trigger] l[j]).updated_at by {
        assert(!memo_order()(l[j], l[i]));
    }
    assert forall|r: MemoRowModel| #[trigger] l.contains(r) <==> rows.contains(r) && memo_found(
        r,
        filter,
        trimmed(keyword),
    ) by {
        lemma_ordered_contains(kept, memo_order(), r);
        if kept.contains(r) {
            let m = choose|m: int| 0 <= m < kept.len() && kept[m] == r;
            assert(f(kept[m]) && rows.contains(kept[m]));
        }
        if rows.contains(r) && f(r) {
            let m = choose|m: int| 0 <= m < rows.len() && rows[m] == r;
            assert(f(rows[m]));
            assert(kept.contains(rows[m]));
        }
    }
}

} // verus!
