//! What the clipboard history does for its user: finding, recording, pinning,
//! arranging and cleaning.

use crate::clip::{ClipFilter, ClipKind, ClipModel};
use crate::like::{escaped, escaped_char, keyword_pattern};
use crate::order::{lemma_same_survivors, lemma_survivors, survivors};
use crate::store::{
    arranged, capped, clip_of, contents, duplicates, found, fresh, has_duplicate, has_id, ids_of,
    lemma_place_of, lemma_survivors_wf, listing_order, matches_of, newer, newer_count, no_room,
    pattern_too_long, pin_ids, pin_toggled, place_of, pruned, query_result, query_too_long,
    recorded, reordered, row_of, touched, well_formed, without_id, RowModel, MAX_ROWS, RETENTION_MS,
};
use crate::store_laws::{
    lemma_listed_contains, lemma_listed_ids, listing_sorts, reordering_lists_pins_as_arranged,
};
use crate::text::trimmed;
use crate::text_laws::{
    all_blank, case_does_not_matter, how_many, lemma_how_many_more, lemma_how_many_same, solid,
    stands_in, trimming_removes_the_blanks_around,
};
use vstd::prelude::*;
use vstd::utf8::{encode_scalar, encode_utf8};

verus! {

// ---------------------------------------------------------------- finding

/// Whether an entry is one of the category's.
pub open spec fn belongs(filter: ClipFilter, row: RowModel) -> bool {
    match filter {
        ClipFilter::All => true,
        ClipFilter::Text => row.kind is Text,
        ClipFilter::Image => row.kind is Image,
        ClipFilter::Files => row.kind is Files,
        ClipFilter::Pinned => row.pinned,
    }
}

/// A list shows the entry with this id.
pub open spec fn shows_id(shown: Seq<ClipModel>, id: i64) -> bool {
    exists|i: int| 0 <= i < shown.len() && (#[trigger] shown[i]).id == id
}

proof fn lemma_shown_where_found(
    rows: Seq<RowModel>,
    filter: ClipFilter,
    keyword: Seq<char>,
    limit: nat,
    k: int,
)
    requires
        well_formed(rows),
        limit >= rows.len(),
        0 <= k < rows.len(),
    ensures
        shows_id(query_result(rows, filter, keyword, limit), rows[k].id) <==> found(
            rows[k],
            filter,
            trimmed(keyword),
        ),
{
    let f = |r: RowModel| found(r, filter, trimmed(keyword));
    let kept = survivors(rows, f);
    let all = matches_of(rows, filter, keyword);
    let shown = query_result(rows, filter, keyword, limit);
    lemma_survivors(rows, f);
    listing_sorts(kept);
    if f(rows[k]) {
        assert(kept.contains(rows[k]));
        lemma_listed_contains(kept, rows[k]);
        let i = choose|i: int| 0 <= i < all.len() && all[i] == rows[k];
        assert(shown[i].id == rows[k].id);
    }
    if shows_id(shown, rows[k].id) {
        let i = choose|i: int| 0 <= i < shown.len() && (#[trigger] shown[i]).id == rows[k].id;
        lemma_listed_contains(kept, all[i]);
        assert(all.contains(all[i]));
        let m = choose|m: int| 0 <= m < kept.len() && kept[m] == all[i];
        assert(f(kept[m]) && rows.contains(kept[m]));
        let j = choose|j: int| 0 <= j < rows.len() && rows[j] == kept[m];
        if j < k {
            assert(rows[j].id < rows[k].id);
        } else if k < j {
            assert(rows[k].id < rows[j].id);
        }
    }
}

/// A search with room for everything shows exactly the entries of the category
/// whose full content holds the keyword, blanks around the keyword and ASCII
/// case left out of account.
pub proof fn search_looks_through_the_content(
    rows: Seq<RowModel>,
    filter: ClipFilter,
    left: Seq<char>,
    keyword: Seq<char>,
    right: Seq<char>,
    limit: nat,
    k: int,
)
    requires
        well_formed(rows),
        all_blank(left),
        solid(keyword),
        all_blank(right),
        limit >= rows.len(),
        0 <= k < rows.len(),
    ensures
        shows_id(query_result(rows, filter, left + keyword + right, limit), rows[k].id) <==> belongs(
            filter,
            rows[k],
        ) && stands_in(rows[k].content, keyword),
{
    trimming_removes_the_blanks_around(left, keyword, right);
    lemma_shown_where_found(rows, filter, left + keyword + right, limit, k);
    case_does_not_matter(rows[k].content, keyword);
}

/// Without a keyword every entry of the category is shown.
pub proof fn no_keyword_shows_the_category(
    rows: Seq<RowModel>,
    filter: ClipFilter,
    blanks: Seq<char>,
    limit: nat,
    k: int,
)
    requires
        well_formed(rows),
        all_blank(blanks),
        limit >= rows.len(),
        0 <= k < rows.len(),
    ensures
        shows_id(query_result(rows, filter, blanks, limit), rows[k].id) <==> belongs(
            filter,
            rows[k],
        ),
{
    let none = Seq::<char>::empty();
    trimming_removes_the_blanks_around(blanks, none, none);
    assert(blanks + none + none =~= blanks);
    lemma_shown_where_found(rows, filter, blanks, limit, k);
}

/// Entries are shown as they are stored, each once, with the number of their
/// characters.
pub proof fn entries_are_shown_as_stored(
    rows: Seq<RowModel>,
    filter: ClipFilter,
    keyword: Seq<char>,
    limit: nat,
    i: int,
    j: int,
)
    requires
        well_formed(rows),
        0 <= i < query_result(rows, filter, keyword, limit).len(),
        0 <= j < query_result(rows, filter, keyword, limit).len(),
    ensures
        exists|k: int|
            0 <= k < rows.len() && {
                let row = #[trigger] rows[k];
                let clip = query_result(rows, filter, keyword, limit)[i];
                &&& clip.id == row.id
                &&& clip.kind == row.kind
                &&& clip.content == row.content
                &&& clip.preview == row.preview
                &&& clip.thumb == row.thumb
                &&& clip.pinned == row.pinned
                &&& clip.created_at == row.created_at
                &&& clip.char_count == row.content.len() as i64
            },
        i != j ==> query_result(rows, filter, keyword, limit)[i].id != query_result(
            rows,
            filter,
            keyword,
            limit,
        )[j].id,
{
    let f = |r: RowModel| found(r, filter, trimmed(keyword));
    let kept = survivors(rows, f);
    let all = matches_of(rows, filter, keyword);
    lemma_survivors(rows, f);
    lemma_survivors_wf(rows, f);
    listing_sorts(kept);
    lemma_listed_ids(kept);
    assert(ids_of(all)[i] == all[i].id && ids_of(all)[j] == all[j].id);
    lemma_listed_contains(kept, all[i]);
    assert(all.contains(all[i]));
    let m = choose|m: int| 0 <= m < kept.len() && kept[m] == all[i];
    assert(rows.contains(kept[m]));
    let k = choose|k: int| 0 <= k < rows.len() && rows[k] == kept[m];
    assert(query_result(rows, filter, keyword, limit)[i] == clip_of(rows[k]));
}

/// A limit cuts the list off at its end and changes nothing before.
pub proof fn limits_cut_at_the_end(
    rows: Seq<RowModel>,
    filter: ClipFilter,
    keyword: Seq<char>,
    limit: nat,
    room: nat,
)
    requires
        limit <= room,
    ensures
        ({
            let few = query_result(rows, filter, keyword, limit);
            let many = query_result(rows, filter, keyword, room);
            &&& few == many.take(few.len() as int)
            &&& few.len() == limit || few.len() == many.len()
            &&& few.len() <= limit
        }),
{
    let few = query_result(rows, filter, keyword, limit);
    let many = query_result(rows, filter, keyword, room);
    assert(few =~= many.take(few.len() as int));
}

/// Pins that nobody arranged by hand are listed by time, the newest first.
pub proof fn unarranged_pins_come_by_time(
    rows: Seq<RowModel>,
    filter: ClipFilter,
    keyword: Seq<char>,
    limit: nat,
    i: int,
    j: int,
)
    requires
        forall|k: int| 0 <= k < rows.len() ==> (#[trigger] rows[k]).rank == 0,
        0 <= i < j < query_result(rows, filter, keyword, limit).len(),
        query_result(rows, filter, keyword, limit)[j].pinned,
    ensures
        query_result(rows, filter, keyword, limit)[i].created_at >= query_result(
            rows,
            filter,
            keyword,
            limit,
        )[j].created_at,
{
    let f = |r: RowModel| found(r, filter, trimmed(keyword));
    let kept = survivors(rows, f);
    let all = matches_of(rows, filter, keyword);
    listing_sorts(kept);
    lemma_survivors(rows, f);
    assert(!listing_order()(all[j], all[i]));
    assert forall|k: int| 0 <= k < all.len() implies rows.contains(#[trigger] all[k]) by {
        lemma_listed_contains(kept, all[k]);
        assert(all.contains(all[k]));
        let m = choose|m: int| 0 <= m < kept.len() && kept[m] == all[k];
        assert(rows.contains(kept[m]));
    }
    assert(rows.contains(all[i]));
    assert(rows.contains(all[j]));
}

// ---------------------------------------------------------------- keywords that are too long

proof fn lemma_utf8_concat(a: Seq<char>, b: Seq<char>)
    ensures
        encode_utf8(a + b) == encode_utf8(a) + encode_utf8(b),
    decreases a.len(),
{
    if a.len() == 0 {
        assert(a + b =~= b);
        assert(encode_utf8(a) =~= Seq::<u8>::empty());
        assert(encode_utf8(a) + encode_utf8(b) =~= encode_utf8(b));
    } else {
        let t = a + b;
        assert(t.drop_first() =~= a.drop_first() + b);
        lemma_utf8_concat(a.drop_first(), b);
        let head = encode_scalar(a[0] as u32);
        assert(head + (encode_utf8(a.drop_first()) + encode_utf8(b)) =~= (head + encode_utf8(
            a.drop_first(),
        )) + encode_utf8(b));
    }
}

proof fn lemma_utf8_one(c: char)
    ensures
        encode_utf8(seq![c]) == encode_scalar(c as u32),
        1 <= encode_utf8(seq![c]).len() <= 4,
{
    let s = seq![c];
    assert(s.drop_first() =~= Seq::<char>::empty());
    assert(encode_utf8(s.drop_first()) =~= Seq::<u8>::empty());
    assert(encode_scalar(c as u32) + Seq::<u8>::empty() =~= encode_scalar(c as u32));
}

/// A character that has a meaning of its own in patterns.
pub open spec fn is_wild(c: char) -> bool {
    c == '%' || c == '_' || c == '\\'
}

/// A keyword is put between two percent signs, letter by letter, with a backslash
/// in front of each character that means something in a pattern.
pub proof fn keywords_are_escaped_letter_by_letter(keyword: Seq<char>, c: char)
    ensures
        escaped(Seq::<char>::empty()) == Seq::<char>::empty(),
        is_wild(c) ==> escaped(keyword.push(c)) == escaped(keyword).push('\\').push(c),
        !is_wild(c) ==> escaped(keyword.push(c)) == escaped(keyword).push(c),
        keyword_pattern(keyword) == seq!['%'] + escaped(keyword).push('%'),
{
    assert(keyword.push(c).drop_last() =~= keyword);
    if is_wild(c) {
        assert(escaped(keyword) + escaped_char(c) =~= escaped(keyword).push('\\').push(c));
    } else {
        assert(escaped(keyword) + escaped_char(c) =~= escaped(keyword).push(c));
    }
    assert(keyword_pattern(keyword) =~= seq!['%'] + escaped(keyword).push('%'));
}

proof fn lemma_escaped_bytes(keyword: Seq<char>)
    ensures
        encode_utf8(escaped(keyword)).len() == encode_utf8(keyword).len() + how_many(
            keyword.len(),
            |i: int| is_wild(keyword[i]),
        ),
    decreases keyword.len(),
{
    if keyword.len() == 0 {
        assert(escaped(keyword) =~= keyword);
    } else {
        let init = keyword.drop_last();
        let c = keyword.last();
        lemma_escaped_bytes(init);
        lemma_how_many_same(
            init.len(),
            |i: int| is_wild(init[i]),
            |i: int| is_wild(keyword[i]),
        );
        assert(keyword =~= init + seq![c]);
        lemma_utf8_concat(init, seq![c]);
        lemma_utf8_concat(escaped(init), escaped_char(c));
        lemma_utf8_one(c);
        lemma_utf8_one('\\');
        if escaped_char(c).len() == 2 {
            assert(escaped_char(c) =~= seq!['\\'] + seq![c]);
            lemma_utf8_concat(seq!['\\'], seq![c]);
            assert(encode_utf8(seq!['\\']).len() == 1) by {
                assert('\\' as u32 == 92);
            }
        }
    }
}

/// A keyword is too long to be searched for exactly where its bytes, one more for
/// each of its characters that means something in a pattern, and two around them
/// are more than 50,000.
pub proof fn only_huge_keywords_fail(left: Seq<char>, keyword: Seq<char>, right: Seq<char>)
    requires
        all_blank(left),
        solid(keyword),
        all_blank(right),
    ensures
        pattern_too_long(left + keyword + right) <==> encode_utf8(keyword).len() + how_many(
            keyword.len(),
            |i: int| is_wild(keyword[i]),
        ) + 2 > 50_000,
{
    trimming_removes_the_blanks_around(left, keyword, right);
    lemma_escaped_bytes(keyword);
    let p = seq!['%'];
    lemma_utf8_concat(p, escaped(keyword));
    lemma_utf8_concat(p + escaped(keyword), p);
    lemma_utf8_one('%');
    assert('%' as u32 == 37);
}

/// A search fails exactly where its keyword is too long and some entry would have
/// to be compared with it.
pub proof fn searches_fail_on_the_first_entry(
    rows: Seq<RowModel>,
    filter: ClipFilter,
    keyword: Seq<char>,
    limit: nat,
)
    ensures
        query_too_long(rows, filter, keyword, limit) <==> pattern_too_long(keyword) && limit > 0
            && exists|k: int| 0 <= k < rows.len() && belongs(filter, #[trigger] rows[k]),
{
    if exists|k: int| 0 <= k < rows.len() && belongs(filter, #[trigger] rows[k]) {
        let k = choose|k: int| 0 <= k < rows.len() && belongs(filter, #[trigger] rows[k]);
        assert(filter.admits(rows[k].kind, rows[k].pinned));
    }
}

/// A search without a keyword never fails.
pub proof fn blank_keywords_never_fail(blanks: Seq<char>)
    requires
        all_blank(blanks),
    ensures
        !pattern_too_long(blanks),
{
    let none = Seq::<char>::empty();
    trimming_removes_the_blanks_around(blanks, none, none);
    assert(blanks + none + none =~= blanks);
}

// ---------------------------------------------------------------- recording

/// The entry already holds this content.
pub open spec fn already_holds(row: RowModel, hash: i64, content: Seq<char>) -> bool {
    row.content == content && row.hash == hash
}

/// New content becomes one more entry, with everything that was handed over, not
/// pinned and under an id that no entry had; nothing else changes.
pub proof fn new_content_becomes_an_entry(
    rows: Seq<RowModel>,
    kind: ClipKind,
    content: Seq<char>,
    preview: Seq<char>,
    hash: i64,
    thumb: Option<Seq<u8>>,
    now: i64,
)
    requires
        well_formed(rows),
        forall|k: int| 0 <= k < rows.len() ==> !already_holds(#[trigger] rows[k], hash, content),
        rows.len() > 0 ==> rows.last().id < i64::MAX,
    ensures
        ({
            let after = recorded(rows, kind, content, preview, hash, thumb, now);
            let new = after.last();
            &&& after.drop_last() == rows
            &&& after.len() == rows.len() + 1
            &&& new.kind == kind
            &&& new.content == content
            &&& new.preview == preview
            &&& new.hash == hash
            &&& new.thumb == thumb
            &&& new.created_at == now
            &&& !new.pinned
            &&& forall|k: int| 0 <= k < rows.len() ==> (#[trigger] rows[k]).id < new.id
        }),
        !no_room(rows, hash, content),
{
    let after = recorded(rows, kind, content, preview, hash, thumb, now);
    assert(!has_duplicate(rows, hash, content)) by {
        if has_duplicate(rows, hash, content) {
            let k = choose|k: int| 0 <= k < rows.len() && duplicates(#[trigger] rows[k], hash, content);
            assert(already_holds(rows[k], hash, content));
        }
    }
    assert(after.drop_last() =~= rows);
    assert forall|k: int| 0 <= k < rows.len() implies (#[trigger] rows[k]).id < after.last().id by {
        if k < rows.len() - 1 {
            assert(rows[k].id < rows[rows.len() - 1].id);
        }
    }
}

/// Content that an entry already holds makes no new entry: that entry counts as
/// copied now and keeps all else, its pin too, and every other entry stays.
pub proof fn known_content_is_only_copied_again(
    rows: Seq<RowModel>,
    kind: ClipKind,
    content: Seq<char>,
    preview: Seq<char>,
    hash: i64,
    thumb: Option<Seq<u8>>,
    now: i64,
    known: int,
    k: int,
)
    requires
        0 <= known < rows.len(),
        already_holds(rows[known], hash, content),
        0 <= k < rows.len(),
    ensures
        ({
            let after = recorded(rows, kind, content, preview, hash, thumb, now);
            let was = rows[k];
            &&& after.len() == rows.len()
            &&& !already_holds(was, hash, content) ==> after[k] == was
            &&& already_holds(was, hash, content) ==> {
                &&& after[k].created_at == now
                &&& after[k].id == was.id
                &&& after[k].kind == was.kind
                &&& after[k].content == was.content
                &&& after[k].preview == was.preview
                &&& after[k].hash == was.hash
                &&& after[k].thumb == was.thumb
                &&& after[k].pinned == was.pinned
            }
        }),
        !no_room(rows, hash, content),
{
    assert(duplicates(rows[known], hash, content));
}

// ---------------------------------------------------------------- single entries

/// Turning a pin over changes the pin of that entry and nothing else that is
/// shown, copying an entry again only its time.
pub proof fn single_entries_are_changed_alone(rows: Seq<RowModel>, id: i64, now: i64, k: int)
    requires
        0 <= k < rows.len(),
    ensures
        pin_toggled(rows, id).len() == rows.len(),
        touched(rows, id, now).len() == rows.len(),
        rows[k].id != id ==> pin_toggled(rows, id)[k] == rows[k] && touched(rows, id, now)[k]
            == rows[k],
        rows[k].id == id ==> {
            let turned = pin_toggled(rows, id)[k];
            let again = touched(rows, id, now)[k];
            &&& turned.pinned == !rows[k].pinned
            &&& turned.created_at == rows[k].created_at
            &&& again.pinned == rows[k].pinned
            &&& again.created_at == now
            &&& forall|r: RowModel| #![trigger r.id]
                r == turned || r == again ==> {
                    &&& r.id == id
                    &&& r.kind == rows[k].kind
                    &&& r.content == rows[k].content
                    &&& r.preview == rows[k].preview
                    &&& r.hash == rows[k].hash
                    &&& r.thumb == rows[k].thumb
                }
        },
{
}

/// An id names the entry that has it.
pub proof fn ids_name_their_entry(rows: Seq<RowModel>, k: int)
    requires
        well_formed(rows),
        0 <= k < rows.len(),
    ensures
        has_id(rows, rows[k].id),
        row_of(rows, rows[k].id) == rows[k],
        contents(rows)[k] == rows[k].content,
{
    let id = rows[k].id;
    assert(has_id(rows, id));
    let i = choose|i: int| 0 <= i < rows.len() && (#[trigger] rows[i]).id == id;
    if i < k {
        assert(rows[i].id < rows[k].id);
    } else if k < i {
        assert(rows[k].id < rows[i].id);
    }
}

/// What is left of the history after a removal is every other entry.
pub proof fn removal_leaves_every_other_entry(rows: Seq<RowModel>, id: i64, row: RowModel)
    ensures
        without_id(rows, id).contains(row) <==> rows.contains(row) && row.id != id,
{
    let f = |r: RowModel| r.id != id;
    lemma_survivors(rows, f);
    let kept = without_id(rows, id);
    if kept.contains(row) {
        let i = choose|i: int| 0 <= i < kept.len() && kept[i] == row;
        assert(f(kept[i]) && rows.contains(kept[i]));
    }
    if rows.contains(row) && row.id != id {
        let i = choose|i: int| 0 <= i < rows.len() && rows[i] == row;
        assert(f(rows[i]));
        assert(kept.contains(rows[i]));
    }
}

// ---------------------------------------------------------------- arranging by hand

/// The ids of the pinned entries, as the list of pins shows them.
pub open spec fn shown_pins(rows: Seq<RowModel>) -> Seq<i64> {
    let shown = query_result(rows, ClipFilter::Pinned, Seq::empty(), rows.len());
    Seq::new(shown.len(), |i: int| shown[i].id)
}

/// Some entry with this id is pinned.
pub open spec fn is_pin(rows: Seq<RowModel>, id: i64) -> bool {
    exists|k: int| 0 <= k < rows.len() && (#[trigger] rows[k]).id == id && rows[k].pinned
}

proof fn lemma_shown_pins(rows: Seq<RowModel>)
    requires
        well_formed(rows),
    ensures
        shown_pins(rows) == pin_ids(rows),
        shown_pins(rows).no_duplicates(),
        forall|id: i64| #[trigger] shown_pins(rows).contains(id) <==> is_pin(rows, id),
{
    let none = Seq::<char>::empty();
    trimming_removes_the_blanks_around(none, none, none);
    assert(none + none + none =~= none);
    let f = |r: RowModel| found(r, ClipFilter::Pinned, trimmed(none));
    let g = |r: RowModel| r.pinned;
    lemma_same_survivors(rows, f, g);
    lemma_survivors(rows, g);
    lemma_survivors_wf(rows, g);
    let pins = survivors(rows, g);
    listing_sorts(pins);
    lemma_listed_ids(pins);
    assert(shown_pins(rows) =~= pin_ids(rows));
    assert forall|id: i64| #[trigger] shown_pins(rows).contains(id) <==> is_pin(rows, id) by {
        assert(shown_pins(rows).contains(id) <==> has_id(pins, id));
        if has_id(pins, id) {
            let i = choose|i: int| 0 <= i < pins.len() && (#[trigger] pins[i]).id == id;
            assert(g(pins[i]) && rows.contains(pins[i]));
            let k = choose|k: int| 0 <= k < rows.len() && rows[k] == pins[i];
            assert(rows[k].id == id);
        }
        if is_pin(rows, id) {
            let k = choose|k: int| 0 <= k < rows.len() && (#[trigger] rows[k]).id == id && rows[k].pinned;
            assert(g(rows[k]));
            assert(pins.contains(rows[k]));
            let i = choose|i: int| 0 <= i < pins.len() && pins[i] == rows[k];
            assert(pins[i].id == id);
        }
    }
}

proof fn lemma_reordered_wf(rows: Seq<RowModel>, moved: i64, before: Option<i64>)
    requires
        well_formed(rows),
        rows.len() < i64::MAX,
    ensures
        well_formed(reordered(rows, moved, before)),
        reordered(rows, moved, before).len() == rows.len(),
{
    let after = reordered(rows, moved, before);
    let ids = pin_ids(rows);
    let g = |r: RowModel| r.pinned;
    lemma_survivors(rows, g);
    listing_sorts(survivors(rows, g));
    assert forall|i: int, j: int| 0 <= i < j < after.len() implies after[i].id < after[j].id by {
        assert(rows[i].id < rows[j].id);
    }
    assert forall|i: int| 0 <= i < after.len() implies {
        &&& (#[trigger] after[i]).rank >= 0
        &&& !after[i].pinned ==> after[i].rank == 0
    } by {
        assert(rows[i].rank >= 0);
        let order = arranged(ids, moved, before);
        lemma_place_of(order, rows[i].id);
        lemma_place_of(ids, moved);
        if ids.contains(moved) && before != Some(moved) {
            let rest = ids.remove(place_of(ids, moved));
            if before is Some {
                lemma_place_of(rest, before->0);
            }
            assert(order.len() == ids.len());
        }
    }
}

/// A pinned entry that is dragged onto another stands directly in front of it;
/// all others stay in the order in which they were.
pub proof fn dragged_pin_stands_in_front_of_its_target(
    rows: Seq<RowModel>,
    moved: i64,
    before: i64,
) -> (r: (int, int))
    requires
        well_formed(rows),
        rows.len() < i64::MAX,
        is_pin(rows, moved),
        is_pin(rows, before),
        moved != before,
    ensures
        ({
            let (from, to) = r;
            let was = shown_pins(rows);
            let now = shown_pins(reordered(rows, moved, Some(before)));
            &&& was.len() == now.len()
            &&& 0 <= from < was.len()
            &&& was[from] == moved
            &&& 0 <= to < now.len() - 1
            &&& now[to] == moved
            &&& now[to + 1] == before
            &&& now.remove(to) == was.remove(from)
        }),
{
    let ids = pin_ids(rows);
    lemma_shown_pins(rows);
    assert(shown_pins(rows).contains(moved) && shown_pins(rows).contains(before));
    lemma_reordered_wf(rows, moved, Some(before));
    lemma_shown_pins(reordered(rows, moved, Some(before)));
    reordering_lists_pins_as_arranged(rows, moved, Some(before));
    lemma_place_of(ids, moved);
    let from = place_of(ids, moved);
    let rest = ids.remove(from);
    lemma_place_of(rest, before);
    let i = choose|i: int| 0 <= i < ids.len() && ids[i] == before;
    let j = if i < from {
        i
    } else {
        i - 1
    };
    assert(rest[j] == before);
    assert(rest.contains(before));
    let to = place_of(rest, before);
    let now = rest.insert(to, moved);
    assert(now.remove(to) =~= rest);
    (from, to)
}

/// A pinned entry that is dragged onto none, or onto what is no pin, goes to the
/// end of the pins; all others stay in the order in which they were.
pub proof fn dragged_pin_goes_to_the_end(
    rows: Seq<RowModel>,
    moved: i64,
    before: Option<i64>,
) -> (from: int)
    requires
        well_formed(rows),
        rows.len() < i64::MAX,
        is_pin(rows, moved),
        before matches Some(b) ==> !is_pin(rows, b),
    ensures
        ({
            let was = shown_pins(rows);
            let now = shown_pins(reordered(rows, moved, before));
            &&& 0 <= from < was.len()
            &&& was[from] == moved
            &&& now == was.remove(from).push(moved)
        }),
{
    let ids = pin_ids(rows);
    lemma_shown_pins(rows);
    assert(shown_pins(rows).contains(moved));
    lemma_reordered_wf(rows, moved, before);
    lemma_shown_pins(reordered(rows, moved, before));
    reordering_lists_pins_as_arranged(rows, moved, before);
    lemma_place_of(ids, moved);
    let from = place_of(ids, moved);
    let rest = ids.remove(from);
    if let Some(b) = before {
        lemma_place_of(rest, b);
        if rest.contains(b) {
            let i = choose|i: int| 0 <= i < rest.len() && rest[i] == b;
            assert(ids[if i < from {
                i
            } else {
                i + 1
            }] == b);
            assert(shown_pins(rows).contains(b));
        }
    }
    assert(rest.insert(rest.len() as int, moved) =~= rest.push(moved));
    from
}

/// Arranging moves pins about and changes nothing of any entry; what is not
/// pinned, or dropped on itself, does not move.
pub proof fn arranging_changes_no_entry(
    rows: Seq<RowModel>,
    moved: i64,
    before: Option<i64>,
    k: int,
)
    requires
        well_formed(rows),
        0 <= k < rows.len(),
    ensures
        ({
            let after = reordered(rows, moved, before);
            &&& after.len() == rows.len()
            &&& after[k].id == rows[k].id
            &&& after[k].kind == rows[k].kind
            &&& after[k].content == rows[k].content
            &&& after[k].preview == rows[k].preview
            &&& after[k].hash == rows[k].hash
            &&& after[k].thumb == rows[k].thumb
            &&& after[k].pinned == rows[k].pinned
            &&& after[k].created_at == rows[k].created_at
            &&& !rows[k].pinned ==> after[k] == rows[k]
            &&& !is_pin(rows, moved) || before == Some(moved) ==> after == rows
        }),
{
    lemma_shown_pins(rows);
    assert(shown_pins(rows).contains(moved) <==> is_pin(rows, moved));
}

// ---------------------------------------------------------------- cleaning

/// Entry `j` is not pinned and newer than entry `k`: copied later, or at the same
/// time and stored behind it.
pub open spec fn outranks(rows: Seq<RowModel>, j: int, k: int) -> bool {
    &&& !rows[j].pinned
    &&& rows[j].created_at > rows[k].created_at || (rows[j].created_at == rows[k].created_at && j
        > k)
}

/// How many entries that are not pinned are newer than entry `k`.
pub open spec fn outranked_by(rows: Seq<RowModel>, k: int) -> nat {
    how_many(rows.len(), |j: int| outranks(rows, j, k))
}

proof fn lemma_newer_is_counted(rows: Seq<RowModel>, row: RowModel)
    ensures
        newer_count(rows, row) == how_many(
            rows.len(),
            |j: int| !rows[j].pinned && newer(rows[j], row),
        ),
    decreases rows.len(),
{
    if rows.len() > 0 {
        let init = rows.drop_last();
        lemma_newer_is_counted(init, row);
        lemma_how_many_same(
            init.len(),
            |j: int| !init[j].pinned && newer(init[j], row),
            |j: int| !rows[j].pinned && newer(rows[j], row),
        );
    }
}

proof fn lemma_outranked(rows: Seq<RowModel>, k: int)
    requires
        well_formed(rows),
        0 <= k < rows.len(),
    ensures
        newer_count(rows, rows[k]) == outranked_by(rows, k),
{
    lemma_newer_is_counted(rows, rows[k]);
    let f = |j: int| !rows[j].pinned && newer(rows[j], rows[k]);
    let g = |j: int| outranks(rows, j, k);
    assert forall|j: int| 0 <= j < rows.len() implies (#[trigger] f(j) <==> g(j)) by {
        if j < k {
            assert(rows[j].id < rows[k].id);
        } else if k < j {
            assert(rows[k].id < rows[j].id);
        }
    }
    lemma_how_many_same(rows.len(), f, g);
}

/// Expiry removes exactly the entries, of whatever kind, that are not pinned and
/// older than the given time.
pub proof fn expiry_goes_by_age_alone(rows: Seq<RowModel>, cutoff: i64, row: RowModel)
    ensures
        survivors(rows, |r: RowModel| fresh(r, cutoff)).contains(row) <==> rows.contains(row) && (
        row.pinned || row.created_at >= cutoff),
{
    let f = |r: RowModel| fresh(r, cutoff);
    lemma_survivors(rows, f);
    let kept = survivors(rows, f);
    if kept.contains(row) {
        let i = choose|i: int| 0 <= i < kept.len() && kept[i] == row;
        assert(f(kept[i]) && rows.contains(kept[i]));
    }
    if rows.contains(row) && (row.pinned || row.created_at >= cutoff) {
        let i = choose|i: int| 0 <= i < rows.len() && rows[i] == row;
        assert(f(rows[i]));
        assert(kept.contains(rows[i]));
    }
}

/// The cap keeps exactly the pins and those entries that fewer than `keep`
/// others outrank.
pub proof fn cap_keeps_pins_and_the_newest(rows: Seq<RowModel>, keep: int, k: int)
    requires
        well_formed(rows),
        0 <= k < rows.len(),
    ensures
        capped(rows, keep).contains(rows[k]) <==> rows[k].pinned || outranked_by(rows, k) < keep,
{
    let f = |r: RowModel| r.pinned || newer_count(rows, r) < keep;
    lemma_survivors(rows, f);
    lemma_outranked(rows, k);
    let kept = capped(rows, keep);
    if kept.contains(rows[k]) {
        let i = choose|i: int| 0 <= i < kept.len() && kept[i] == rows[k];
        assert(f(kept[i]));
    }
    if f(rows[k]) {
        assert(kept.contains(rows[k]));
    }
}

/// Entries newer than a young one are young themselves, so that expiry does not
/// change how many there are.
proof fn lemma_newer_survive(rows: Seq<RowModel>, cutoff: i64, row: RowModel)
    requires
        row.created_at >= cutoff,
    ensures
        newer_count(survivors(rows, |r: RowModel| fresh(r, cutoff)), row) == newer_count(rows, row),
    decreases rows.len(),
{
    if rows.len() > 0 {
        let f = |r: RowModel| fresh(r, cutoff);
        let init = rows.drop_last();
        let last = rows.last();
        lemma_newer_survive(init, cutoff, row);
        let head = survivors(init, f);
        if f(last) {
            assert(head.push(last).drop_last() =~= head);
        }
    }
}

/// Routine cleaning keeps exactly the pins, and of the other entries, of whatever
/// kind, those that are at most 90 days old and that fewer than 2000 others
/// outrank. What it keeps it leaves as it was, in the same order.
pub proof fn cleaning_keeps_pins_and_the_young(rows: Seq<RowModel>, now: i64, k: int)
    requires
        well_formed(rows),
        now - 90 * 86_400_000 >= i64::MIN,
        0 <= k < rows.len(),
    ensures
        pruned(rows, now).contains(rows[k]) <==> rows[k].pinned || (rows[k].created_at >= now - 90
            * 86_400_000 && outranked_by(rows, k) < 2000),
        well_formed(pruned(rows, now)),
        forall|i: int| 0 <= i < pruned(rows, now).len() ==> rows.contains(
            #[trigger] pruned(rows, now)[i],
        ),
{
    let cutoff = (now - RETENTION_MS) as i64;
    let f = |r: RowModel| fresh(r, cutoff);
    let young = survivors(rows, f);
    let g = |r: RowModel| r.pinned || newer_count(young, r) < MAX_ROWS as int;
    let out = pruned(rows, now);
    lemma_survivors(rows, f);
    lemma_survivors(young, g);
    lemma_survivors_wf(rows, f);
    lemma_survivors_wf(young, g);
    expiry_goes_by_age_alone(rows, cutoff, rows[k]);
    lemma_outranked(rows, k);
    if rows[k].created_at >= cutoff {
        lemma_newer_survive(rows, cutoff, rows[k]);
    }
    if out.contains(rows[k]) {
        let i = choose|i: int| 0 <= i < out.len() && out[i] == rows[k];
        assert(g(out[i]) && young.contains(out[i]));
    }
    if young.contains(rows[k]) {
        let i = choose|i: int| 0 <= i < young.len() && young[i] == rows[k];
        if g(rows[k]) {
            assert(g(young[i]));
            assert(out.contains(young[i]));
        }
    }
    assert forall|i: int| 0 <= i < out.len() implies rows.contains(#[trigger] out[i]) by {
        assert(young.contains(out[i]));
        let m = choose|m: int| 0 <= m < young.len() && young[m] == out[i];
        assert(rows.contains(young[m]));
    }
}

proof fn lemma_count_without(n: nat, k: int, f: spec_fn(int) -> bool, g: spec_fn(int) -> bool)
    requires
        0 <= k < n,
        f(k),
        !g(k),
        forall|i: int| 0 <= i < n && #[trigger] g(i) ==> f(i),
    ensures
        how_many(n, g) < how_many(n, f),
    decreases n,
{
    if k == n - 1 {
        lemma_how_many_more((n - 1) as nat, g, f);
    } else {
        lemma_count_without((n - 1) as nat, k, f, g);
    }
}

/// Where at most 2000 entries that are not pinned are young, routine cleaning
/// keeps every young entry.
pub proof fn young_entries_stay_in_a_small_history(rows: Seq<RowModel>, now: i64, k: int)
    requires
        well_formed(rows),
        now - 90 * 86_400_000 >= i64::MIN,
        how_many(
            rows.len(),
            |j: int| !rows[j].pinned && rows[j].created_at >= now - 90 * 86_400_000,
        ) <= 2000,
        0 <= k < rows.len(),
        rows[k].created_at >= now - 90 * 86_400_000,
    ensures
        pruned(rows, now).contains(rows[k]),
{
    cleaning_keeps_pins_and_the_young(rows, now, k);
    let f = |j: int| !rows[j].pinned && rows[j].created_at >= now - 90 * 86_400_000;
    let g = |j: int| outranks(rows, j, k);
    if !rows[k].pinned {
        lemma_count_without(rows.len(), k, f, g);
    }
}

} // verus!
