//! What the memos do for their user: typing tags, finding, storing and counting.

use crate::clip::preview_of;
use crate::memo::{
    distinct, is_tag_separator, lemma_distinct, tag_pieces, tags_in, MemoModel, TagFilter,
    TagSummary,
};
use crate::memo_store::{
    has_memo, memo_entries, memo_found, memo_list_is_sorted_matches, memo_matches, memo_of,
    memo_order, memo_views, memo_with, names_in_use, names_sorted, save_error, saved, saved_id,
    search_too_long, tag_used, tagged_count, tags_are_listed_as_entered, untagged_count,
    without_memo, MemoRowModel, MemoTables,
};
use crate::memo_view::{draft_ready, footnote_of, is_tag_entry, MemoView, SidebarEntry};
use crate::order::{lemma_ordered_contains, lemma_survivors, ordering_sorts, survivors};
use crate::store::{pattern_too_long, StoreError};
use crate::text::{join, lemma_split_append, lemma_split_nonempty, split, text_before, trimmed};
use crate::text_laws::{
    all_blank, as_many_are_kept_as_fit, blank, case_does_not_matter, first_difference_decides,
    how_many, lemma_how_many_same, only_blanks_are_trimmed_to_nothing, solid, stands_in,
    trimming_removes_the_blanks_around, whitespace_is_blank,
};
use vstd::prelude::*;

verus! {

// ---------------------------------------------------------------- tags as typed

/// What parts tags: commas of either kind, the enumeration comma, and blanks.
pub open spec fn parts_tags(c: char) -> bool {
    c == ',' || c == '，' || c == '、' || blank(c)
}

/// A tag as it can be typed: something without anything that parts tags.
pub open spec fn one_tag(t: Seq<char>) -> bool {
    t.len() > 0 && forall|i: int| 0 <= i < t.len() ==> !parts_tags(#[trigger] t[i])
}

proof fn lemma_separators(c: char)
    ensures
        is_tag_separator(c) <==> parts_tags(c),
{
    whitespace_is_blank(c);
}

proof fn lemma_one_tag_is_solid(t: Seq<char>)
    requires
        one_tag(t),
    ensures
        trimmed(t) == t,
{
    let none = Seq::<char>::empty();
    assert(!parts_tags(t[0]) && !parts_tags(t[t.len() - 1]));
    trimming_removes_the_blanks_around(none, t, none);
    assert(none + t + none =~= t);
}

/// Tags are read one after the other: what parts them adds none, a tag that was
/// not typed before comes behind those that were, and one that was typed before
/// does not count again.
pub proof fn tags_are_read_one_by_one(raw: Seq<char>, c: char, tag: Seq<char>)
    requires
        parts_tags(c),
        one_tag(tag),
    ensures
        tags_in(Seq::<char>::empty()) == Seq::<Seq<char>>::empty(),
        tags_in(tag) == seq![tag],
        tags_in(raw.push(c)) == tags_in(raw),
        tags_in(raw.push(c) + tag) == if tags_in(raw).contains(tag) {
            tags_in(raw)
        } else {
            tags_in(raw).push(tag)
        },
{
    let sep = |x: char| is_tag_separator(x);
    let f = |t: Seq<char>| t.len() > 0;
    let none = Seq::<char>::empty();
    let empty = Seq::<Seq<char>>::empty();
    lemma_separators(c);
    assert forall|i: int| 0 <= i < tag.len() implies !sep(#[trigger] tag[i]) by {
        assert(!parts_tags(tag[i]));
        lemma_separators(tag[i]);
    }
    lemma_one_tag_is_solid(tag);
    trimming_removes_the_blanks_around(none, none, none);
    assert(none + none + none =~= none);
    assert(split(none, sep) =~= seq![none]);
    let p0 = tag_pieces(none);
    assert(p0 =~= seq![none]);
    assert(p0.drop_last() =~= empty);
    assert(survivors(p0.drop_last(), f) =~= empty);
    assert(survivors(p0, f) =~= empty);
    assert(tags_in(none) =~= empty);
    // one tag alone
    lemma_split_append(none, tag, sep);
    assert(none + tag =~= tag);
    let p1 = tag_pieces(tag);
    assert(split(tag, sep) =~= seq![tag]);
    assert(p1 =~= seq![tag]);
    assert(p1.drop_last() =~= empty);
    assert(survivors(p1.drop_last(), f) =~= empty);
    assert(survivors(p1, f) =~= seq![tag]);
    assert(seq![tag].drop_last() =~= empty);
    assert(distinct(seq![tag].drop_last()) =~= empty);
    assert(tags_in(tag) =~= seq![tag]);
    // a separator more
    let parted = raw.push(c);
    assert(parted.drop_last() =~= raw);
    lemma_split_nonempty(raw, sep);
    assert(split(parted, sep) == split(raw, sep).push(none));
    let p2 = tag_pieces(parted);
    assert(p2 =~= tag_pieces(raw).push(none));
    assert(p2.drop_last() =~= tag_pieces(raw));
    assert(survivors(p2, f) == survivors(tag_pieces(raw), f));
    // and a tag behind it
    lemma_split_append(parted, tag, sep);
    let p3 = tag_pieces(parted + tag);
    assert(none + tag =~= tag);
    assert(split(parted, sep).drop_last() =~= split(raw, sep));
    assert(split(parted + tag, sep) =~= split(raw, sep).push(tag));
    assert(p3 =~= tag_pieces(raw).push(tag));
    assert(p3.drop_last() =~= tag_pieces(raw));
    let kept = survivors(tag_pieces(raw), f);
    assert(survivors(p3, f) == kept.push(tag));
    assert(kept.push(tag).drop_last() =~= kept);
}

/// Repetitions are dropped one by one: what came first stays where it was.
pub proof fn first_mentions_stay(items: Seq<Seq<char>>, more: Seq<char>)
    ensures
        distinct(Seq::<Seq<char>>::empty()) == Seq::<Seq<char>>::empty(),
        distinct(items.push(more)) == if items.contains(more) {
            distinct(items)
        } else {
            distinct(items).push(more)
        },
{
    assert(items.push(more).drop_last() =~= items);
    lemma_distinct(items);
    assert(distinct(items).contains(more) <==> items.contains(more));
}

// ---------------------------------------------------------------- finding

/// Whether a memo with these tags is shown for what was chosen in the tag list.
pub open spec fn is_chosen(filter: TagFilter, tags: Seq<Seq<char>>) -> bool {
    match filter {
        TagFilter::All => true,
        TagFilter::Untagged => tags.len() == 0,
        TagFilter::Named(name) => exists|i: int| 0 <= i < tags.len() && #[trigger] tags[i] == name@,
    }
}

/// A list shows the memo with this id.
pub open spec fn lists_id(shown: Seq<MemoModel>, id: i64) -> bool {
    exists|i: int| 0 <= i < shown.len() && (#[trigger] shown[i]).id == id
}

proof fn lemma_listed_where_found(
    rows: Seq<MemoRowModel>,
    filter: TagFilter,
    keyword: Seq<char>,
    k: int,
)
    requires
        forall|i: int, j: int| 0 <= i < j < rows.len() ==> rows[i].id < rows[j].id,
        0 <= k < rows.len(),
    ensures
        lists_id(memo_entries(memo_matches(rows, filter, keyword)), rows[k].id) <==> memo_found(
            rows[k],
            filter,
            trimmed(keyword),
        ),
{
    let f = |r: MemoRowModel| memo_found(r, filter, trimmed(keyword));
    let kept = survivors(rows, f);
    let all = memo_matches(rows, filter, keyword);
    let shown = memo_entries(all);
    lemma_survivors(rows, f);
    ordering_sorts(kept, memo_order());
    if f(rows[k]) {
        assert(kept.contains(rows[k]));
        lemma_ordered_contains(kept, memo_order(), rows[k]);
        let i = choose|i: int| 0 <= i < all.len() && all[i] == rows[k];
        assert(shown[i].id == rows[k].id);
    }
    if lists_id(shown, rows[k].id) {
        let i = choose|i: int| 0 <= i < shown.len() && (#[trigger] shown[i]).id == rows[k].id;
        lemma_ordered_contains(kept, memo_order(), all[i]);
        assert(all.contains(all[i]));
        let m = choose|m: int| 0 <= m < kept.len() && kept[m] == all[i];
        assert(f(kept[m]) && rows.contains(kept[m]));
        let j = choose|j: int| 0 <= j < rows.len() && rows[j] == kept[m];
        if j < k {
            assert(rows[j].id < rows[k].id);
        } else if k < j {
            assert(rows[k].id < rows[j].id);
        }
    }
}

/// A search shows exactly the chosen memos whose content or note holds the
/// keyword, blanks around the keyword and ASCII case left out of account.
pub proof fn search_looks_through_content_and_note(
    rows: Seq<MemoRowModel>,
    filter: TagFilter,
    left: Seq<char>,
    keyword: Seq<char>,
    right: Seq<char>,
    k: int,
)
    requires
        forall|i: int, j: int| 0 <= i < j < rows.len() ==> rows[i].id < rows[j].id,
        all_blank(left),
        solid(keyword),
        all_blank(right),
        0 <= k < rows.len(),
    ensures
        lists_id(memo_entries(memo_matches(rows, filter, left + keyword + right)), rows[k].id)
            <==> is_chosen(filter, rows[k].tags) && (stands_in(rows[k].content, keyword)
            || stands_in(rows[k].note, keyword)),
{
    trimming_removes_the_blanks_around(left, keyword, right);
    lemma_listed_where_found(rows, filter, left + keyword + right, k);
    case_does_not_matter(rows[k].content, keyword);
    case_does_not_matter(rows[k].note, keyword);
    lemma_chosen(filter, rows[k].tags);
}

proof fn lemma_chosen(filter: TagFilter, tags: Seq<Seq<char>>)
    ensures
        filter.admits(tags) <==> is_chosen(filter, tags),
{
    if let TagFilter::Named(name) = filter {
        if tags.contains(name@) {
            let i = choose|i: int| 0 <= i < tags.len() && tags[i] == name@;
            assert(tags[i] == name@);
        }
    }
}

/// Without a keyword every chosen memo is shown.
pub proof fn no_keyword_shows_all_chosen(
    rows: Seq<MemoRowModel>,
    filter: TagFilter,
    blanks: Seq<char>,
    k: int,
)
    requires
        forall|i: int, j: int| 0 <= i < j < rows.len() ==> rows[i].id < rows[j].id,
        all_blank(blanks),
        0 <= k < rows.len(),
    ensures
        lists_id(memo_entries(memo_matches(rows, filter, blanks)), rows[k].id) <==> is_chosen(
            filter,
            rows[k].tags,
        ),
{
    let none = Seq::<char>::empty();
    trimming_removes_the_blanks_around(blanks, none, none);
    assert(blanks + none + none =~= blanks);
    lemma_listed_where_found(rows, filter, blanks, k);
    lemma_chosen(filter, rows[k].tags);
}

/// A search fails exactly where its keyword is too long and some memo would have
/// to be compared with it.
pub proof fn memo_searches_fail_on_the_first_memo(
    rows: Seq<MemoRowModel>,
    filter: TagFilter,
    keyword: Seq<char>,
)
    ensures
        search_too_long(rows, filter, keyword) <==> pattern_too_long(keyword) && exists|k: int|
            0 <= k < rows.len() && is_chosen(filter, (#[trigger] rows[k]).tags),
{
    if search_too_long(rows, filter, keyword) {
        let i = choose|i: int| 0 <= i < rows.len() && filter.admits((#[trigger] rows[i]).tags);
        lemma_chosen(filter, rows[i].tags);
    }
    if exists|k: int| 0 <= k < rows.len() && is_chosen(filter, (#[trigger] rows[k]).tags) {
        let k = choose|k: int| 0 <= k < rows.len() && is_chosen(filter, (#[trigger] rows[k]).tags);
        lemma_chosen(filter, rows[k].tags);
    }
}

/// Memos are shown as they are stored, the last changed first.
pub proof fn memos_are_shown_as_stored(
    rows: Seq<MemoRowModel>,
    filter: TagFilter,
    keyword: Seq<char>,
    i: int,
    j: int,
)
    requires
        0 <= i < j < memo_entries(memo_matches(rows, filter, keyword)).len(),
    ensures
        ({
            let shown = memo_entries(memo_matches(rows, filter, keyword));
            &&& shown[i].updated_at >= shown[j].updated_at
            &&& shows_row(rows, shown[i])
            &&& shows_row(rows, shown[j])
        }),
{
    memo_list_is_sorted_matches(rows, filter, keyword);
    let all = memo_matches(rows, filter, keyword);
    lemma_shows_row(rows, filter, keyword, i);
    lemma_shows_row(rows, filter, keyword, j);
    assert(all[i].updated_at >= all[j].updated_at);
}

/// A list entry shows some stored memo as it is: its text, note and preview, and
/// its tags where none of them is blank or holds the mark between tags.
pub open spec fn shows_row(rows: Seq<MemoRowModel>, memo: MemoModel) -> bool {
    exists|k: int|
        0 <= k < rows.len() && {
            let row = #[trigger] rows[k];
            &&& memo.id == row.id
            &&& memo.content == row.content
            &&& memo.note == row.note
            &&& memo.preview == row.preview
            &&& memo.updated_at == row.updated_at
            &&& (forall|i: int|
                0 <= i < row.tags.len() ==> (#[trigger] row.tags[i]).len() > 0
                    && !row.tags[i].contains('\u{1}')) ==> memo.tags == row.tags
        }
}

proof fn lemma_shows_row(
    rows: Seq<MemoRowModel>,
    filter: TagFilter,
    keyword: Seq<char>,
    i: int,
)
    requires
        0 <= i < memo_matches(rows, filter, keyword).len(),
    ensures
        shows_row(rows, memo_entries(memo_matches(rows, filter, keyword))[i]),
{
    let all = memo_matches(rows, filter, keyword);
    memo_list_is_sorted_matches(rows, filter, keyword);
    assert(all.contains(all[i]));
    assert(rows.contains(all[i]));
    let k = choose|k: int| 0 <= k < rows.len() && rows[k] == all[i];
    let row = rows[k];
    if forall|m: int|
        0 <= m < row.tags.len() ==> (#[trigger] row.tags[m]).len() > 0 && !row.tags[m].contains(
            '\u{1}',
        ) {
        tags_are_listed_as_entered(row.tags);
    }
    assert(memo_entries(all)[i] == memo_of(rows[k]));
}

// ---------------------------------------------------------------- counting

/// The numbers in the tag list count the memos: those with the tag, and those
/// without any.
pub proof fn tag_numbers_count_memos(rows: Seq<MemoRowModel>, name: Seq<char>)
    ensures
        tagged_count(rows, name) == how_many(
            rows.len(),
            |i: int| exists|j: int| 0 <= j < rows[i].tags.len() && #[trigger] rows[i].tags[j] == name,
        ),
        untagged_count(rows) == how_many(rows.len(), |i: int| rows[i].tags.len() == 0),
{
    let f = |r: MemoRowModel| r.tags.contains(name);
    as_many_are_kept_as_fit(rows, f);
    let a = |i: int| f(rows[i]);
    let b = |i: int|
        exists|j: int| 0 <= j < rows[i].tags.len() && #[trigger] rows[i].tags[j] == name;
    assert forall|i: int| 0 <= i < rows.len() implies (#[trigger] a(i) <==> b(i)) by {
        if rows[i].tags.contains(name) {
            let j = choose|j: int| 0 <= j < rows[i].tags.len() && rows[i].tags[j] == name;
            assert(rows[i].tags[j] == name);
        }
    }
    lemma_how_many_same(rows.len(), a, b);
    let g = |r: MemoRowModel| r.tags.len() == 0;
    as_many_are_kept_as_fit(rows, g);
    lemma_how_many_same(rows.len(), |i: int| g(rows[i]), |i: int| rows[i].tags.len() == 0);
}

/// The known tags are those that some memo has.
pub proof fn known_tags_are_those_of_memos(t: MemoTables, name: Seq<char>)
    requires
        names_in_use(t),
    ensures
        t.names.contains(name) <==> exists|i: int, j: int|
            0 <= i < t.rows.len() && 0 <= j < t.rows[i].tags.len() && #[trigger] t.rows[i].tags[j]
                == name,
{
    if tag_used(t.rows, name) {
        let i = choose|i: int|
            0 <= i < t.rows.len() && (#[trigger] t.rows[i]).tags.contains(name);
        let j = choose|j: int| 0 <= j < t.rows[i].tags.len() && t.rows[i].tags[j] == name;
        assert(t.rows[i].tags[j] == name);
    }
    if exists|i: int, j: int|
        0 <= i < t.rows.len() && 0 <= j < t.rows[i].tags.len() && #[trigger] t.rows[i].tags[j]
            == name {
        let (i, j) = choose|i: int, j: int|
            0 <= i < t.rows.len() && 0 <= j < t.rows[i].tags.len() && #[trigger] t.rows[i].tags[j]
                == name;
        assert(t.rows[i].tags.contains(name));
    }
}

/// Tags are listed in the order of their characters, each once.
pub proof fn tags_are_listed_in_order(
    names: Seq<Seq<char>>,
    i: int,
    j: int,
    common: Seq<char>,
    a: Seq<char>,
    b: Seq<char>,
)
    requires
        names_sorted(names),
        0 <= i < j < names.len(),
        names[i] == common + a,
        names[j] == common + b,
        a.len() > 0 && b.len() > 0 ==> a[0] != b[0],
    ensures
        b.len() > 0,
        a.len() > 0 ==> (a[0] as int) < (b[0] as int),
{
    assert(text_before(names[i], names[j]));
    first_difference_decides(common, a, b);
}

// ---------------------------------------------------------------- storing

/// A new draft becomes one more memo with what it says, under an id that no memo
/// had, made and changed now; nothing else changes.
pub proof fn new_drafts_become_memos(
    rows: Seq<MemoRowModel>,
    content: Seq<char>,
    note: Seq<char>,
    tags: Seq<Seq<char>>,
    now: i64,
)
    requires
        forall|i: int, j: int| 0 <= i < j < rows.len() ==> rows[i].id < rows[j].id,
        rows.len() > 0 ==> rows.last().id < i64::MAX,
    ensures
        save_error(rows, None, tags) is None,
        ({
            let after = saved(rows, None, content, note, tags, now);
            let new = after.last();
            &&& after.len() == rows.len() + 1
            &&& after.drop_last() == rows
            &&& new.id == saved_id(rows, None)
            &&& new.content == content
            &&& new.note == note
            &&& new.preview == preview_of(content)
            &&& new.created_at == now
            &&& new.updated_at == now
            &&& new.tags.no_duplicates()
            &&& forall|x: Seq<char>| #[trigger] new.tags.contains(x) <==> tags.contains(x)
            &&& tags.no_duplicates() ==> new.tags == tags
            &&& forall|k: int| 0 <= k < rows.len() ==> (#[trigger] rows[k]).id < new.id
        }),
{
    let after = saved(rows, None, content, note, tags, now);
    assert(after.drop_last() =~= rows);
    lemma_distinct(tags);
    if tags.no_duplicates() {
        lemma_distinct_stays(tags);
    }
    assert forall|k: int| 0 <= k < rows.len() implies (#[trigger] rows[k]).id < after.last().id by {
        if k < rows.len() - 1 {
            assert(rows[k].id < rows[rows.len() - 1].id);
        }
    }
}

proof fn lemma_distinct_stays(items: Seq<Seq<char>>)
    requires
        items.no_duplicates(),
    ensures
        distinct(items) == items,
    decreases items.len(),
{
    if items.len() == 0 {
        assert(distinct(items) =~= items);
    } else {
        let init = items.drop_last();
        lemma_distinct_stays(init);
        if init.contains(items.last()) {
            let k = choose|k: int| 0 <= k < init.len() && init[k] == items.last();
            assert(items[k] == items[items.len() - 1]);
        }
        assert(init.push(items.last()) =~= items);
    }
}

/// A changed draft replaces text, note and tags of its memo, which counts as
/// changed now and keeps its id and the time at which it was made; every other
/// memo stays.
pub proof fn changed_drafts_replace_their_memo(
    rows: Seq<MemoRowModel>,
    id: i64,
    content: Seq<char>,
    note: Seq<char>,
    tags: Seq<Seq<char>>,
    now: i64,
    own: int,
    k: int,
)
    requires
        0 <= own < rows.len(),
        rows[own].id == id,
        0 <= k < rows.len(),
    ensures
        save_error(rows, Some(id), tags) is None,
        saved_id(rows, Some(id)) == id,
        ({
            let after = saved(rows, Some(id), content, note, tags, now);
            &&& after.len() == rows.len()
            &&& rows[k].id != id ==> after[k] == rows[k]
            &&& rows[k].id == id ==> {
                &&& after[k].id == id
                &&& after[k].content == content
                &&& after[k].note == note
                &&& after[k].preview == preview_of(content)
                &&& after[k].created_at == rows[k].created_at
                &&& after[k].updated_at == now
                &&& after[k].tags.no_duplicates()
                &&& forall|x: Seq<char>| #[trigger] after[k].tags.contains(x) <==> tags.contains(x)
                &&& tags.no_duplicates() ==> after[k].tags == tags
            }
        }),
{
    assert(has_memo(rows, id)) by {
        assert(rows[own].id == id);
    }
    lemma_distinct(tags);
    if tags.no_duplicates() {
        lemma_distinct_stays(tags);
    }
}

/// Tags cannot be given to a memo that is not there, and a draft without tags for
/// such a memo changes nothing.
pub proof fn missing_memos_take_no_tags(
    rows: Seq<MemoRowModel>,
    id: i64,
    content: Seq<char>,
    note: Seq<char>,
    tags: Seq<Seq<char>>,
    now: i64,
)
    requires
        forall|k: int| 0 <= k < rows.len() ==> (#[trigger] rows[k]).id != id,
    ensures
        tags.len() > 0 ==> save_error(rows, Some(id), tags) == Some(StoreError::NotFound),
        tags.len() == 0 ==> save_error(rows, Some(id), tags) is None,
        saved(rows, Some(id), content, note, tags, now) == rows,
{
    assert(saved(rows, Some(id), content, note, tags, now) =~= rows);
}

/// What is left of the memos after a removal is every other memo.
pub proof fn removal_leaves_every_other_memo(
    rows: Seq<MemoRowModel>,
    id: i64,
    row: MemoRowModel,
)
    ensures
        without_memo(rows, id).contains(row) <==> rows.contains(row) && row.id != id,
{
    let f = |r: MemoRowModel| r.id != id;
    lemma_survivors(rows, f);
    let kept = without_memo(rows, id);
    if kept.contains(row) {
        let i = choose|i: int| 0 <= i < kept.len() && kept[i] == row;
        assert(f(kept[i]) && rows.contains(kept[i]));
    }
    if rows.contains(row) && row.id != id {
        let i = choose|i: int| 0 <= i < rows.len() && rows[i] == row;
        assert(f(rows[i]));
        assert(kept.contains(rows[i]));
    }
}

/// An id names the memo that has it.
pub proof fn ids_name_their_memo(rows: Seq<MemoRowModel>, k: int)
    requires
        forall|i: int, j: int| 0 <= i < j < rows.len() ==> rows[i].id < rows[j].id,
        0 <= k < rows.len(),
    ensures
        has_memo(rows, rows[k].id),
        memo_with(rows, rows[k].id) == rows[k],
{
    let id = rows[k].id;
    assert(has_memo(rows, id));
    let i = choose|i: int| 0 <= i < rows.len() && (#[trigger] rows[i]).id == id;
    if i < k {
        assert(rows[i].id < rows[k].id);
    } else if k < i {
        assert(rows[k].id < rows[i].id);
    }
}

// ---------------------------------------------------------------- the page

/// The page shows the memos: how many there are, how many have no tag, every
/// known tag with the number of its memos, and the chosen ones that the keyword
/// finds.
pub proof fn the_page_shows_the_memos(view: MemoView, t: MemoTables, k: int, n: int)
    requires
        view.shows(t),
        forall|i: int, j: int| 0 <= i < j < t.rows.len() ==> t.rows[i].id < t.rows[j].id,
        t.rows.len() <= i64::MAX,
        solid(view.keyword@),
        !pattern_too_long(view.keyword@),
        0 <= k < t.rows.len(),
        0 <= n < t.names.len(),
    ensures
        view.total == t.rows.len(),
        view.untagged == how_many(t.rows.len(), |i: int| t.rows[i].tags.len() == 0),
        view.tags@.len() == t.names.len(),
        view.tags@[n].name@ == t.names[n],
        view.tags@[n].count == tagged_count(t.rows, t.names[n]),
        lists_id(memo_views(view.items@), t.rows[k].id) <==> is_chosen(
            view.filter,
            t.rows[k].tags,
        ) && (stands_in(t.rows[k].content, view.keyword@) || stands_in(
            t.rows[k].note,
            view.keyword@,
        )),
{
    let none = Seq::<char>::empty();
    tag_numbers_count_memos(t.rows, t.names[n]);
    lemma_survivors(t.rows, |r: MemoRowModel| r.tags.contains(t.names[n]));
    lemma_survivors(t.rows, |r: MemoRowModel| r.tags.len() == 0);
    search_looks_through_content_and_note(t.rows, view.filter, none, view.keyword@, none, k);
    assert(none + view.keyword@ + none =~= view.keyword@);
}

/// A draft is stored exactly where its content is not blank.
pub proof fn drafts_need_something_in_them(content: Seq<char>)
    ensures
        draft_ready(content) <==> exists|i: int|
            0 <= i < content.len() && !blank(#[trigger] content[i]),
{
    only_blanks_are_trimmed_to_nothing(content);
}

/// The line below a memo holds its note, then its tags, each as far as it has
/// them.
pub proof fn footnotes_hold_note_and_tags(note: Seq<char>, tags: Seq<Seq<char>>)
    ensures
        footnote_of(note, Seq::empty()) == note,
        tags.len() > 0 ==> footnote_of(Seq::empty(), tags) == join(tags, " · "@),
        tags.len() > 0 && note.len() > 0 ==> footnote_of(note, tags) == note + " — "@ + join(
            tags,
            " · "@,
        ),
{
}

/// An entry of the tag list carries the tag's name and number, shows its memos
/// when it is clicked, and is marked exactly where they are shown.
pub proof fn tag_entries_lead_to_their_memos(
    entry: SidebarEntry,
    tag: TagSummary,
    shown: TagFilter,
    tags: Seq<Seq<char>>,
)
    requires
        is_tag_entry(entry, tag, shown),
    ensures
        entry.name@ == tag.name@,
        entry.count == tag.count,
        is_chosen(entry.filter, tags) <==> tags.contains(tag.name@),
        entry.active <==> (shown matches TagFilter::Named(name) && name@ == tag.name@),
{
    lemma_chosen(entry.filter, tags);
}

} // verus!
