//! What always holds of the clipboard history.

use crate::clip::{ClipFilter, ClipKind, ClipModel};
use crate::order::{
    in_order, lemma_all_survive, lemma_ordered_contains, lemma_survivors, ordering_sorts, survivors,
};
use crate::store::{
    arranged, at_time, capped, clip_of, duplicates, found, fresh, has_duplicate, has_id, ids_of,
    lemma_place_of, lemma_survivors_wf, listed, listing_order, map_rows, matches_of, newer,
    newer_count, pin_ids, pin_toggled, place_of, precedes, pruned, query_result, ranked, recorded,
    reordered, touched, well_formed, without_id, RowModel, MAX_ROWS, RETENTION_MS,
};
use crate::text::{trim_end, trim_start, trimmed};
use vstd::prelude::*;
use vstd::seq_lib::group_to_multiset_ensures;

verus! {

/// Listing puts the same rows into order: it loses and invents none.
pub proof fn listing_sorts(rows: Seq<RowModel>)
    ensures
        in_order(listed(rows), listing_order()),
        listed(rows).to_multiset() == rows.to_multiset(),
        listed(rows).len() == rows.len(),
{
    ordering_sorts(rows, listing_order());
}

pub proof fn lemma_listed_contains(rows: Seq<RowModel>, row: RowModel)
    ensures
        listed(rows).contains(row) <==> rows.contains(row),
{
    lemma_ordered_contains(rows, listing_order(), row);
}

/// Pinned entries come before all others in every list.
pub proof fn pinned_entries_come_first(
    rows: Seq<RowModel>,
    filter: ClipFilter,
    keyword: Seq<char>,
    limit: nat,
    i: int,
    j: int,
)
    requires
        0 <= i < j < query_result(rows, filter, keyword, limit).len(),
        query_result(rows, filter, keyword, limit)[j].pinned,
    ensures
        query_result(rows, filter, keyword, limit)[i].pinned,
{
    let f = |r: RowModel| found(r, filter, trimmed(keyword));
    listing_sorts(survivors(rows, f));
    let all = matches_of(rows, filter, keyword);
    assert(!listing_order()(all[j], all[i]));
}

/// Among entries that are not pinned, the newer comes first.
pub proof fn newer_entries_come_first(
    rows: Seq<RowModel>,
    filter: ClipFilter,
    keyword: Seq<char>,
    limit: nat,
    i: int,
    j: int,
)
    requires
        well_formed(rows),
        0 <= i < j < query_result(rows, filter, keyword, limit).len(),
        !query_result(rows, filter, keyword, limit)[i].pinned,
    ensures
        query_result(rows, filter, keyword, limit)[i].created_at >= query_result(
            rows,
            filter,
            keyword,
            limit,
        )[j].created_at,
{
    let f = |r: RowModel| found(r, filter, trimmed(keyword));
    let kept = survivors(rows, f);
    let all = matches_of(rows, filter, keyword);
    listing_sorts(kept);
    lemma_survivors(rows, f);
    assert(!listing_order()(all[j], all[i]));
    assert forall|k: int| 0 <= k < all.len() implies rows.contains(#[trigger] all[k]) by {
        lemma_listed_contains(kept, all[k]);
        assert(all.contains(all[k]));
        let m = choose|m: int| 0 <= m < kept.len() && kept[m] == all[k];
        assert(rows.contains(kept[m]));
    }
    assert(rows.contains(all[i]));
    assert(rows.contains(all[j]));
}

/// A query returns entries of the history that are in the category and hold
/// the keyword, and nothing else.
pub proof fn query_returns_only_matches(
    rows: Seq<RowModel>,
    filter: ClipFilter,
    keyword: Seq<char>,
    limit: nat,
    i: int,
)
    requires
        0 <= i < query_result(rows, filter, keyword, limit).len(),
    ensures
        exists|k: int|
            0 <= k < rows.len() && found(#[trigger] rows[k], filter, trimmed(keyword))
                && query_result(rows, filter, keyword, limit)[i] == clip_of(rows[k]),
{
    let f = |r: RowModel| found(r, filter, trimmed(keyword));
    let kept = survivors(rows, f);
    let all = matches_of(rows, filter, keyword);
    lemma_survivors(rows, f);
    lemma_listed_contains(kept, all[i]);
    assert(all.contains(all[i]));
    let m = choose|m: int| 0 <= m < kept.len() && kept[m] == all[i];
    assert(f(kept[m]) && rows.contains(kept[m]));
    let k = choose|k: int| 0 <= k < rows.len() && rows[k] == kept[m];
    assert(found(rows[k], filter, trimmed(keyword)));
}

/// A query with room for everything returns every match.
pub proof fn query_misses_no_match(
    rows: Seq<RowModel>,
    filter: ClipFilter,
    keyword: Seq<char>,
    limit: nat,
    k: int,
)
    requires
        0 <= k < rows.len(),
        found(rows[k], filter, trimmed(keyword)),
        limit >= rows.len(),
    ensures
        query_result(rows, filter, keyword, limit).contains(clip_of(rows[k])),
{
    let f = |r: RowModel| found(r, filter, trimmed(keyword));
    let kept = survivors(rows, f);
    let all = matches_of(rows, filter, keyword);
    lemma_survivors(rows, f);
    listing_sorts(kept);
    assert(f(rows[k]));
    assert(kept.contains(rows[k]));
    lemma_listed_contains(kept, rows[k]);
    let i = choose|i: int| 0 <= i < all.len() && all[i] == rows[k];
    assert(query_result(rows, filter, keyword, limit)[i] == clip_of(rows[k]));
}

/// A query never returns more than asked for.
pub proof fn query_respects_limit(
    rows: Seq<RowModel>,
    filter: ClipFilter,
    keyword: Seq<char>,
    limit: nat,
)
    ensures
        query_result(rows, filter, keyword, limit).len() <= limit,
{
}

// ---------------------------------------------------------------- duplicates

/// No two rows hold the same content under the same fingerprint.
pub open spec fn no_duplicates(rows: Seq<RowModel>) -> bool {
    forall|i: int, j: int|
        0 <= i < j < rows.len() ==> !duplicates(rows[i], rows[j].hash, rows[j].content)
}

/// Recording never stores the same content twice.
pub proof fn recording_adds_no_duplicate(
    rows: Seq<RowModel>,
    kind: ClipKind,
    content: Seq<char>,
    preview: Seq<char>,
    hash: i64,
    thumb: Option<Seq<u8>>,
    now: i64,
)
    requires
        no_duplicates(rows),
    ensures
        no_duplicates(recorded(rows, kind, content, preview, hash, thumb, now)),
        has_duplicate(recorded(rows, kind, content, preview, hash, thumb, now), hash, content),
        has_duplicate(rows, hash, content) ==> recorded(
            rows,
            kind,
            content,
            preview,
            hash,
            thumb,
            now,
        ).len() == rows.len(),
        !has_duplicate(rows, hash, content) ==> recorded(
            rows,
            kind,
            content,
            preview,
            hash,
            thumb,
            now,
        ).len() == rows.len() + 1,
{
    let after = recorded(rows, kind, content, preview, hash, thumb, now);
    if has_duplicate(rows, hash, content) {
        let k = choose|k: int| 0 <= k < rows.len() && duplicates(#[trigger] rows[k], hash, content);
        assert(duplicates(after[k], hash, content));
        assert forall|i: int, j: int| 0 <= i < j < after.len() implies !duplicates(
            after[i],
            after[j].hash,
            after[j].content,
        ) by {
            assert(!duplicates(rows[i], rows[j].hash, rows[j].content));
        }
    } else {
        assert(duplicates(after[after.len() - 1], hash, content));
        assert forall|i: int, j: int| 0 <= i < j < after.len() implies !duplicates(
            after[i],
            after[j].hash,
            after[j].content,
        ) by {
            if j == rows.len() {
                assert(!duplicates(rows[i], hash, content));
            } else {
                assert(!duplicates(rows[i], rows[j].hash, rows[j].content));
            }
        }
    }
}

proof fn lemma_survivors_no_duplicates(rows: Seq<RowModel>, f: spec_fn(RowModel) -> bool)
    requires
        no_duplicates(rows),
    ensures
        no_duplicates(survivors(rows, f)),
    decreases rows.len(),
{
    if rows.len() > 0 {
        let init = rows.drop_last();
        let last = rows.last();
        assert forall|i: int, j: int| 0 <= i < j < init.len() implies !duplicates(
            init[i],
            init[j].hash,
            init[j].content,
        ) by {
            assert(!duplicates(rows[i], rows[j].hash, rows[j].content));
        }
        lemma_survivors_no_duplicates(init, f);
        lemma_survivors(init, f);
        let head = survivors(init, f);
        if f(last) {
            let all = head.push(last);
            assert forall|i: int, j: int| 0 <= i < j < all.len() implies !duplicates(
                all[i],
                all[j].hash,
                all[j].content,
            ) by {
                if j == head.len() {
                    assert(init.contains(head[i]));
                    let k = choose|k: int| 0 <= k < init.len() && init[k] == head[i];
                    assert(!duplicates(rows[k], rows[rows.len() - 1].hash, rows[
                        rows.len() - 1
                    ].content));
                } else {
                    assert(!duplicates(head[i], head[j].hash, head[j].content));
                }
            }
        }
    }
}

proof fn lemma_same_contents_no_duplicates(rows: Seq<RowModel>, after: Seq<RowModel>)
    requires
        no_duplicates(rows),
        after.len() == rows.len(),
        forall|i: int|
            0 <= i < rows.len() ==> (#[trigger] after[i]).hash == rows[i].hash && after[i].content
                == rows[i].content,
    ensures
        no_duplicates(after),
{
    assert forall|i: int, j: int| 0 <= i < j < after.len() implies !duplicates(
        after[i],
        after[j].hash,
        after[j].content,
    ) by {
        assert(!duplicates(rows[i], rows[j].hash, rows[j].content));
    }
}

/// No other change of the history brings the same content in twice either.
pub proof fn changes_add_no_duplicate(
    rows: Seq<RowModel>,
    id: i64,
    before: Option<i64>,
    now: i64,
)
    requires
        no_duplicates(rows),
    ensures
        no_duplicates(pin_toggled(rows, id)),
        no_duplicates(touched(rows, id, now)),
        no_duplicates(reordered(rows, id, before)),
        no_duplicates(without_id(rows, id)),
        no_duplicates(pruned(rows, now)),
        no_duplicates(survivors(rows, |r: RowModel| r.pinned)),
{
    lemma_same_contents_no_duplicates(rows, pin_toggled(rows, id));
    lemma_same_contents_no_duplicates(rows, touched(rows, id, now));
    lemma_same_contents_no_duplicates(rows, reordered(rows, id, before));
    lemma_survivors_no_duplicates(rows, |r: RowModel| r.id != id);
    lemma_survivors_no_duplicates(rows, |r: RowModel| r.pinned);
    let cutoff = (now - RETENTION_MS) as i64;
    let fresh_rows = survivors(rows, |r: RowModel| fresh(r, cutoff));
    lemma_survivors_no_duplicates(rows, |r: RowModel| fresh(r, cutoff));
    let keep = MAX_ROWS as int;
    lemma_survivors_no_duplicates(
        fresh_rows,
        |r: RowModel| r.pinned || newer_count(fresh_rows, r) < keep,
    );
}

proof fn lemma_first_index(l: Seq<RowModel>, row: RowModel) -> (p: int)
    requires
        l.contains(row),
    ensures
        0 <= p < l.len(),
        l[p] == row,
        forall|j: int| 0 <= j < p ==> l[j] != row,
    decreases l.len(),
{
    let init = l.drop_last();
    if init.contains(row) {
        let p = lemma_first_index(init, row);
        assert forall|j: int| 0 <= j < p implies l[j] != row by {
            assert(init[j] == l[j]);
        }
        p
    } else {
        let k = choose|k: int| 0 <= k < l.len() && l[k] == row;
        assert forall|j: int| 0 <= j < l.len() - 1 implies l[j] != row by {
            assert(init[j] == l[j]);
        }
        assert(k == l.len() - 1);
        k
    }
}

/// Whether a row comes before every other one of its kind: a pinned one before
/// all others, another before all that are not pinned.
spec fn leads(rows: Seq<RowModel>, k: int) -> bool {
    forall|j: int|
        0 <= j < rows.len() && j != k && (rows[k].pinned || !(#[trigger] rows[j]).pinned)
            ==> precedes(rows[k], rows[j])
}

/// A row that leads has only pinned rows before it, and none where it is pinned
/// itself.
proof fn lemma_only_pins_before(rows: Seq<RowModel>, k: int) -> (p: int)
    requires
        0 <= k < rows.len(),
        leads(rows, k),
    ensures
        0 <= p < listed(rows).len(),
        listed(rows)[p] == rows[k],
        forall|i: int| 0 <= i < p ==> (#[trigger] listed(rows)[i]).pinned,
        rows[k].pinned ==> p == 0,
{
    let l = listed(rows);
    listing_sorts(rows);
    lemma_listed_contains(rows, rows[k]);
    let p = lemma_first_index(l, rows[k]);
    assert forall|i: int| 0 <= i < p implies (#[trigger] l[i]).pinned by {
        assert(!listing_order()(l[p], l[i]));
        lemma_listed_contains(rows, l[i]);
        assert(l.contains(l[i]));
        let m = choose|m: int| 0 <= m < rows.len() && rows[m] == l[i];
        assert(m != k);
    }
    if rows[k].pinned && p > 0 {
        assert(!listing_order()(l[p], l[0]));
        lemma_listed_contains(rows, l[0]);
        assert(l.contains(l[0]));
        let m = choose|m: int| 0 <= m < rows.len() && rows[m] == l[0];
        assert(m != k);
    }
    p
}

/// An entry is shown at the top: a pinned one first of all, another with
/// nothing but pinned entries before it.
pub open spec fn tops(shown: Seq<ClipModel>, p: int) -> bool {
    &&& 0 <= p < shown.len()
    &&& shown[p].pinned ==> p == 0
    &&& forall|i: int| 0 <= i < p ==> (#[trigger] shown[i]).pinned
}

proof fn lemma_shown_on_top(rows: Seq<RowModel>, k: int, limit: nat) -> (p: int)
    requires
        0 <= k < rows.len(),
        leads(rows, k),
        limit >= rows.len(),
    ensures
        tops(query_result(rows, ClipFilter::All, Seq::empty(), limit), p),
        query_result(rows, ClipFilter::All, Seq::empty(), limit)[p] == clip_of(rows[k]),
{
    let f = |r: RowModel| found(r, ClipFilter::All, trimmed(Seq::<char>::empty()));
    let e = Seq::<char>::empty();
    assert(trimmed(e).len() == 0) by {
        assert(trim_start(e) == e);
        assert(trim_end(e) == e);
    }
    lemma_all_survive(rows, f);
    let p = lemma_only_pins_before(rows, k);
    listing_sorts(rows);
    assert(matches_of(rows, ClipFilter::All, e) == listed(rows));
    let shown = query_result(rows, ClipFilter::All, e, limit);
    assert forall|i: int| 0 <= i < p implies (#[trigger] shown[i]).pinned by {
        assert(listed(rows)[i].pinned);
    }
    p
}

/// What was copied last is at the top of the list: recording at a later time
/// than that of every entry lists the content, whether or not it was there
/// before, with nothing but pinned entries before it, and first of all where it
/// is pinned itself.
pub proof fn recorded_content_moves_to_top(
    rows: Seq<RowModel>,
    kind: ClipKind,
    content: Seq<char>,
    preview: Seq<char>,
    hash: i64,
    thumb: Option<Seq<u8>>,
    now: i64,
    limit: nat,
)
    requires
        well_formed(rows),
        no_duplicates(rows),
        forall|i: int| 0 <= i < rows.len() ==> (#[trigger] rows[i]).created_at < now,
        limit > rows.len(),
    ensures
        ({
            let after = recorded(rows, kind, content, preview, hash, thumb, now);
            let shown = query_result(after, ClipFilter::All, Seq::empty(), limit);
            exists|p: int| #[trigger]
                tops(shown, p) && shown[p].content == content && shown[p].created_at == now
        }),
{
    let after = recorded(rows, kind, content, preview, hash, thumb, now);
    let k = if has_duplicate(rows, hash, content) {
        choose|k: int| 0 <= k < rows.len() && duplicates(#[trigger] rows[k], hash, content)
    } else {
        rows.len() as int
    };
    assert(after[k].content == content && after[k].created_at == now);
    assert forall|j: int|
        0 <= j < after.len() && j != k && (after[k].pinned || !(
        #[trigger] after[j]).pinned) implies precedes(after[k], after[j]) by {
        if has_duplicate(rows, hash, content) {
            if k < j {
                assert(!duplicates(rows[k], rows[j].hash, rows[j].content));
            } else {
                assert(!duplicates(rows[j], rows[k].hash, rows[k].content));
            }
        }
        assert(after[j] == rows[j]);
        assert(rows[j].rank >= 0);
    }
    let p = lemma_shown_on_top(after, k, limit);
}

/// An entry that is handed back to the clipboard at a later time than that of
/// every entry is then at the top of the list: first of all where it is pinned,
/// else with nothing but pinned entries before it. Every other entry stays as it
/// was, also in the order made by hand.
pub proof fn handed_back_entry_moves_to_top(
    rows: Seq<RowModel>,
    id: i64,
    now: i64,
    k: int,
    limit: nat,
)
    requires
        well_formed(rows),
        forall|i: int| 0 <= i < rows.len() ==> (#[trigger] rows[i]).created_at < now,
        0 <= k < rows.len(),
        rows[k].id == id,
        limit >= rows.len(),
    ensures
        touched(rows, id, now) == rows.update(k, at_time(rows[k], now)),
        ({
            let shown = query_result(touched(rows, id, now), ClipFilter::All, Seq::empty(), limit);
            exists|p: int| #[trigger]
                tops(shown, p) && shown[p] == clip_of(at_time(rows[k], now))
        }),
{
    let after = touched(rows, id, now);
    assert forall|j: int| 0 <= j < rows.len() && j != k implies rows[j].id != id by {
        if j < k {
            assert(rows[j].id < rows[k].id);
        } else {
            assert(rows[k].id < rows[j].id);
        }
    }
    assert(after == rows.update(k, at_time(rows[k], now)));
    assert forall|j: int|
        0 <= j < after.len() && j != k && (after[k].pinned || !(
        #[trigger] after[j]).pinned) implies precedes(after[k], after[j]) by {
        assert(after[j] == rows[j]);
        assert(rows[j].rank >= 0);
    }
    let p = lemma_shown_on_top(after, k, limit);
}

// ---------------------------------------------------------------- pins and removal

/// Turning a pin over twice leaves every entry as it was, but for a place
/// given by hand to that entry.
pub proof fn toggling_pin_twice_restores(rows: Seq<RowModel>, id: i64)
    ensures
        pin_toggled(pin_toggled(rows, id), id) == map_rows(
            rows,
            |r: RowModel|
                if r.id == id {
                    RowModel { rank: 0, ..r }
                } else {
                    r
                },
        ),
{
}

/// A removed entry is gone, and every other entry stays.
pub proof fn deleting_removes_only_that_entry(rows: Seq<RowModel>, id: i64, k: int)
    requires
        0 <= k < rows.len(),
    ensures
        !has_id(without_id(rows, id), id),
        rows[k].id != id ==> without_id(rows, id).contains(rows[k]),
{
    let f = |r: RowModel| r.id != id;
    lemma_survivors(rows, f);
    assert(rows[k].id != id ==> f(rows[k]));
}

// ---------------------------------------------------------------- retention

proof fn lemma_newer_count_bound(rows: Seq<RowModel>, row: RowModel)
    ensures
        newer_count(rows, row) <= survivors(rows, |r: RowModel| !r.pinned).len(),
    decreases rows.len(),
{
    if rows.len() > 0 {
        lemma_newer_count_bound(rows.drop_last(), row);
    }
}

proof fn lemma_newer_count_grows(rows: Seq<RowModel>, a: RowModel, b: RowModel)
    requires
        newer(a, b),
    ensures
        newer_count(rows, a) <= newer_count(rows, b),
        (exists|k: int| 0 <= k < rows.len() && rows[k] == a) && !a.pinned ==> newer_count(rows, a)
            < newer_count(rows, b),
    decreases rows.len(),
{
    if rows.len() > 0 {
        let init = rows.drop_last();
        lemma_newer_count_grows(init, a, b);
        let last = rows.last();
        if newer(last, a) {
            assert(newer(last, b));
        }
        if (exists|k: int| 0 <= k < rows.len() && rows[k] == a) && !a.pinned {
            let k = choose|k: int| 0 <= k < rows.len() && rows[k] == a;
            if k < init.len() {
                assert(init[k] == a);
            } else {
                assert(last == a);
                assert(!newer(last, a));
            }
        }
    }
}

/// Routine cleaning never removes a pinned entry.
pub proof fn cleaning_keeps_pinned_entries(rows: Seq<RowModel>, now: i64, k: int)
    requires
        0 <= k < rows.len(),
        rows[k].pinned,
    ensures
        pruned(rows, now).contains(rows[k]),
{
    let cutoff = (now - RETENTION_MS) as i64;
    let f = |r: RowModel| fresh(r, cutoff);
    let kept = survivors(rows, f);
    let g = |r: RowModel| r.pinned || newer_count(kept, r) < MAX_ROWS;
    lemma_survivors(rows, f);
    assert(f(rows[k]));
    assert(kept.contains(rows[k]));
    let m = choose|m: int| 0 <= m < kept.len() && kept[m] == rows[k];
    lemma_survivors(kept, g);
    assert(g(kept[m]));
    assert(capped(kept, MAX_ROWS as int) == survivors(kept, g));
}

/// Routine cleaning leaves no entry behind that is neither pinned nor young
/// enough.
pub proof fn cleaning_removes_stale_entries(rows: Seq<RowModel>, now: i64, k: int)
    requires
        now - RETENTION_MS >= i64::MIN,
        0 <= k < pruned(rows, now).len(),
    ensures
        pruned(rows, now)[k].pinned || pruned(rows, now)[k].created_at >= now - RETENTION_MS,
{
    let cutoff = (now - RETENTION_MS) as i64;
    let f = |r: RowModel| fresh(r, cutoff);
    let kept = survivors(rows, f);
    let g = |r: RowModel| r.pinned || newer_count(kept, r) < MAX_ROWS;
    lemma_survivors(rows, f);
    lemma_survivors(kept, g);
    assert(capped(kept, MAX_ROWS as int) == survivors(kept, g));
    let out = pruned(rows, now);
    assert(kept.contains(out[k]));
    let m = choose|m: int| 0 <= m < kept.len() && kept[m] == out[k];
    assert(f(kept[m]));
}

/// The cap removes nothing while there are no more than `keep` entries that
/// are not pinned.
pub proof fn cap_spares_a_small_history(rows: Seq<RowModel>, keep: int)
    requires
        survivors(rows, |r: RowModel| !r.pinned).len() <= keep,
    ensures
        capped(rows, keep) == rows,
{
    let f = |r: RowModel| r.pinned || newer_count(rows, r) < keep;
    assert forall|i: int| 0 <= i < rows.len() implies f(#[trigger] rows[i]) by {
        if !rows[i].pinned {
            lemma_newer_count_strict(rows, i);
        }
    }
    lemma_all_survive(rows, f);
}

proof fn lemma_newer_count_strict(rows: Seq<RowModel>, i: int)
    requires
        0 <= i < rows.len(),
        !rows[i].pinned,
    ensures
        newer_count(rows, rows[i]) < survivors(rows, |r: RowModel| !r.pinned).len(),
    decreases rows.len(),
{
    let init = rows.drop_last();
    let last = rows.last();
    if i < init.len() {
        assert(init[i] == rows[i]);
        lemma_newer_count_strict(init, i);
    } else {
        assert(!newer(last, rows[i]));
        lemma_newer_count_bound(init, rows[i]);
    }
}

/// What the cap removes is older than everything that it keeps and that is
/// not pinned.
pub proof fn cap_keeps_the_newest(rows: Seq<RowModel>, keep: int, a: int, b: int)
    requires
        well_formed(rows),
        0 <= a < rows.len(),
        0 <= b < rows.len(),
        !rows[a].pinned,
        !rows[b].pinned,
        capped(rows, keep).contains(rows[a]),
        !capped(rows, keep).contains(rows[b]),
    ensures
        newer(rows[a], rows[b]),
{
    let f = |r: RowModel| r.pinned || newer_count(rows, r) < keep;
    assert(capped(rows, keep) == survivors(rows, f));
    lemma_survivors(rows, f);
    let m = choose|m: int| 0 <= m < survivors(rows, f).len() && survivors(rows, f)[m] == rows[a];
    assert(f(survivors(rows, f)[m]));
    assert(!f(rows[b]));
    if newer(rows[b], rows[a]) {
        lemma_newer_count_grows(rows, rows[b], rows[a]);
    }
    if a < b {
        assert(rows[a].id < rows[b].id);
    } else if b < a {
        assert(rows[b].id < rows[a].id);
    }
}

/// The number of rows that are not pinned.
pub open spec fn loose_count(rows: Seq<RowModel>) -> nat {
    survivors(rows, |r: RowModel| !r.pinned).len()
}

proof fn lemma_oldest(rows: Seq<RowModel>) -> (k: int)
    requires
        well_formed(rows),
        loose_count(rows) > 0,
    ensures
        0 <= k < rows.len(),
        !rows[k].pinned,
        forall|j: int|
            0 <= j < rows.len() && j != k && !rows[j].pinned ==> newer(#[trigger] rows[j], rows[k]),
    decreases rows.len(),
{
    let init = rows.drop_last();
    let last = rows.last();
    assert(well_formed(init)) by {
        assert forall|i: int| 0 <= i < init.len() implies {
            &&& (#[trigger] init[i]).rank >= 0
            &&& !init[i].pinned ==> init[i].rank == 0
        } by {
            assert(init[i] == rows[i]);
        }
    }
    if loose_count(init) == 0 {
        assert forall|j: int| 0 <= j < init.len() implies (#[trigger] rows[j]).pinned by {
            lemma_survivors(init, |r: RowModel| !r.pinned);
            assert(init[j] == rows[j]);
            if !rows[j].pinned {
                assert(survivors(init, |r: RowModel| !r.pinned).contains(init[j]));
            }
        }
        rows.len() - 1
    } else {
        let k = lemma_oldest(init);
        assert(init[k] == rows[k]);
        assert forall|j: int| 0 <= j < init.len() && j != k && !rows[j].pinned implies newer(
            #[trigger] rows[j],
            rows[k],
        ) by {
            assert(init[j] == rows[j]);
        }
        if last.pinned || newer(last, rows[k]) {
            k
        } else {
            assert(rows[k].id < last.id);
            rows.len() - 1
        }
    }
}

proof fn lemma_newer_count_all(rows: Seq<RowModel>, row: RowModel)
    requires
        forall|j: int| 0 <= j < rows.len() && !rows[j].pinned ==> newer(#[trigger] rows[j], row),
    ensures
        newer_count(rows, row) == loose_count(rows),
    decreases rows.len(),
{
    if rows.len() > 0 {
        let init = rows.drop_last();
        assert forall|j: int| 0 <= j < init.len() && !init[j].pinned implies newer(
            #[trigger] init[j],
            row,
        ) by {
            assert(init[j] == rows[j]);
        }
        lemma_newer_count_all(init, row);
        if !rows.last().pinned {
            assert(newer(rows[rows.len() - 1], row));
        }
    }
}

proof fn lemma_newer_count_of_oldest(rows: Seq<RowModel>, k: int)
    requires
        0 <= k < rows.len(),
        !rows[k].pinned,
        forall|j: int|
            0 <= j < rows.len() && j != k && !rows[j].pinned ==> newer(#[trigger] rows[j], rows[k]),
    ensures
        newer_count(rows, rows[k]) + 1 == loose_count(rows),
    decreases rows.len(),
{
    let init = rows.drop_last();
    if k == init.len() {
        assert forall|j: int| 0 <= j < init.len() && !init[j].pinned implies newer(
            #[trigger] init[j],
            rows[k],
        ) by {
            assert(init[j] == rows[j]);
        }
        lemma_newer_count_all(init, rows[k]);
        assert(!newer(rows[k], rows[k]));
    } else {
        assert forall|j: int| 0 <= j < init.len() && j != k && !init[j].pinned implies newer(
            #[trigger] init[j],
            init[k],
        ) by {
            assert(init[j] == rows[j]);
        }
        lemma_newer_count_of_oldest(init, k);
        if !rows.last().pinned {
            assert(newer(rows[rows.len() - 1], rows[k]));
        }
    }
}

pub proof fn lemma_newer_count_survivors(
    rows: Seq<RowModel>,
    f: spec_fn(RowModel) -> bool,
    row: RowModel,
)
    ensures
        newer_count(survivors(rows, f), row) <= newer_count(rows, row),
    decreases rows.len(),
{
    if rows.len() > 0 {
        let init = rows.drop_last();
        lemma_newer_count_survivors(init, f, row);
        if f(rows.last()) {
            assert(survivors(init, f).push(rows.last()).drop_last() == survivors(init, f));
        }
    }
}

/// The cap leaves at most `keep` entries that are not pinned.
pub proof fn cap_limits_the_history(rows: Seq<RowModel>, keep: nat)
    requires
        well_formed(rows),
    ensures
        loose_count(capped(rows, keep as int)) <= keep,
{
    let f = |r: RowModel| r.pinned || newer_count(rows, r) < keep as int;
    let kept = survivors(rows, f);
    assert(capped(rows, keep as int) == kept);
    if loose_count(kept) > 0 {
        lemma_survivors_wf(rows, f);
        let k = lemma_oldest(kept);
        lemma_newer_count_of_oldest(kept, k);
        lemma_newer_count_survivors(rows, f, kept[k]);
        lemma_survivors(rows, f);
        assert(f(kept[k]));
    }
}

// ---------------------------------------------------------------- arrangement by hand

proof fn lemma_arranged_contains(ids: Seq<i64>, moved: i64, before: Option<i64>)
    requires
        ids.no_duplicates(),
    ensures
        arranged(ids, moved, before).no_duplicates(),
        arranged(ids, moved, before).len() == ids.len(),
        forall|x: i64| ids.contains(x) <==> #[trigger] arranged(ids, moved, before).contains(x),
{
    lemma_place_of(ids, moved);
    if ids.contains(moved) && before != Some(moved) {
        let p = place_of(ids, moved);
        let rest = ids.remove(p);
        let at = match before {
            Some(b) => place_of(rest, b),
            None => rest.len() as int,
        };
        if before is Some {
            lemma_place_of(rest, before->0);
        }
        let out = rest.insert(at, moved);
        assert(out == arranged(ids, moved, before));
        assert forall|j: int| 0 <= j < rest.len() implies rest[j] != moved && ids.contains(
            #[trigger] rest[j],
        ) by {
            let i = if j < p {
                j
            } else {
                j + 1
            };
            assert(rest[j] == ids[i]);
        }
        assert(rest.no_duplicates()) by {
            assert forall|i: int, j: int| 0 <= i < rest.len() && 0 <= j < rest.len() && i
                != j implies rest[i] != rest[j] by {
                let a = if i < p {
                    i
                } else {
                    i + 1
                };
                let b = if j < p {
                    j
                } else {
                    j + 1
                };
                assert(rest[i] == ids[a] && rest[j] == ids[b]);
            }
        }
        assert forall|x: i64| ids.contains(x) <==> #[trigger] out.contains(x) by {
            if ids.contains(x) {
                let i = choose|i: int| 0 <= i < ids.len() && ids[i] == x;
                if i == p {
                    assert(out[at] == x);
                } else {
                    let j = if i < p {
                        i
                    } else {
                        i - 1
                    };
                    assert(rest[j] == x);
                    let k = if j < at {
                        j
                    } else {
                        j + 1
                    };
                    assert(out[k] == x);
                }
            }
            if out.contains(x) {
                let k = choose|k: int| 0 <= k < out.len() && out[k] == x;
                if k < at {
                    assert(rest[k] == x);
                } else if k > at {
                    assert(rest[k - 1] == x);
                } else {
                    assert(ids[p] == x);
                }
            }
        }
        assert forall|i: int, j: int| 0 <= i < out.len() && 0 <= j < out.len() && i
            != j implies out[i] != out[j] by {
            let a = if i < at {
                i
            } else {
                i - 1
            };
            let b = if j < at {
                j
            } else {
                j - 1
            };
            if i == at {
                assert(out[j] == rest[b]);
            } else if j == at {
                assert(out[i] == rest[a]);
            } else {
                assert(out[i] == rest[a] && out[j] == rest[b]);
            }
        }
    }
}

pub proof fn lemma_listed_ids(rows: Seq<RowModel>)
    requires
        well_formed(rows),
    ensures
        ids_of(listed(rows)).no_duplicates(),
        forall|x: i64| #[trigger] ids_of(listed(rows)).contains(x) <==> has_id(rows, x),
{
    broadcast use group_to_multiset_ensures;

    let l = listed(rows);
    listing_sorts(rows);
    assert(rows.no_duplicates());
    rows.lemma_multiset_has_no_duplicates();
    l.lemma_multiset_has_no_duplicates_conv();
    assert forall|i: int, j: int| 0 <= i < l.len() && 0 <= j < l.len() && i != j implies ids_of(
        l,
    )[i] != ids_of(l)[j] by {
        assert(l[i] != l[j]);
        lemma_listed_contains(rows, l[i]);
        lemma_listed_contains(rows, l[j]);
        assert(l.contains(l[i]) && l.contains(l[j]));
        let a = choose|a: int| 0 <= a < rows.len() && rows[a] == l[i];
        let b = choose|b: int| 0 <= b < rows.len() && rows[b] == l[j];
        if a < b {
            assert(rows[a].id < rows[b].id);
        } else if b < a {
            assert(rows[b].id < rows[a].id);
        }
    }
    assert forall|x: i64| #[trigger] ids_of(l).contains(x) <==> has_id(rows, x) by {
        if ids_of(l).contains(x) {
            let i = choose|i: int| 0 <= i < l.len() && ids_of(l)[i] == x;
            lemma_listed_contains(rows, l[i]);
            assert(l.contains(l[i]));
            let a = choose|a: int| 0 <= a < rows.len() && rows[a] == l[i];
            assert(rows[a].id == x);
        }
        if has_id(rows, x) {
            let a = choose|a: int| 0 <= a < rows.len() && (#[trigger] rows[a]).id == x;
            lemma_listed_contains(rows, rows[a]);
            let i = choose|i: int| 0 <= i < l.len() && l[i] == rows[a];
            assert(ids_of(l)[i] == x);
        }
    }
}

proof fn lemma_rising_ranks(l: Seq<RowModel>)
    requires
        forall|i: int, j: int| 0 <= i < j < l.len() ==> l[i].rank < l[j].rank,
        forall|i: int| 0 <= i < l.len() ==> 1 <= (#[trigger] l[i]).rank <= l.len(),
    ensures
        forall|i: int| 0 <= i < l.len() ==> (#[trigger] l[i]).rank == i + 1,
{
    assert forall|i: int| 0 <= i < l.len() implies (#[trigger] l[i]).rank == i + 1 by {
        lemma_rank_low(l, i);
        lemma_rank_high(l, i);
    }
}

proof fn lemma_rank_low(l: Seq<RowModel>, i: int)
    requires
        forall|i: int, j: int| 0 <= i < j < l.len() ==> l[i].rank < l[j].rank,
        forall|i: int| 0 <= i < l.len() ==> 1 <= (#[trigger] l[i]).rank <= l.len(),
        0 <= i < l.len(),
    ensures
        l[i].rank >= i + 1,
    decreases i,
{
    if i > 0 {
        lemma_rank_low(l, i - 1);
        assert(l[i - 1].rank < l[i].rank);
    }
}

proof fn lemma_rank_high(l: Seq<RowModel>, i: int)
    requires
        forall|i: int, j: int| 0 <= i < j < l.len() ==> l[i].rank < l[j].rank,
        forall|i: int| 0 <= i < l.len() ==> 1 <= (#[trigger] l[i]).rank <= l.len(),
        0 <= i < l.len(),
    ensures
        l[i].rank <= i + 1,
    decreases l.len() - i,
{
    if i + 1 < l.len() {
        lemma_rank_high(l, i + 1);
        assert(l[i].rank < l[i + 1].rank);
    }
}

proof fn lemma_ranked_pins(rows: Seq<RowModel>, ids: Seq<i64>)
    ensures
        survivors(ranked(rows, ids), |r: RowModel| r.pinned) == ranked(
            survivors(rows, |r: RowModel| r.pinned),
            ids,
        ),
    decreases rows.len(),
{
    let f = |r: RowModel| r.pinned;
    if rows.len() > 0 {
        let init = rows.drop_last();
        lemma_ranked_pins(init, ids);
        assert(ranked(rows, ids).drop_last() == ranked(init, ids));
        assert(survivors(ranked(rows, ids), f) == ranked(survivors(rows, f), ids));
    } else {
        assert(ranked(rows, ids) == rows);
        assert(survivors(rows, f) == Seq::<RowModel>::empty());
        assert(ranked(survivors(rows, f), ids) == survivors(rows, f));
    }
}

/// After a move by hand the pinned entries are listed in exactly the order
/// that the move asked for.
pub proof fn reordering_lists_pins_as_arranged(
    rows: Seq<RowModel>,
    moved: i64,
    before: Option<i64>,
)
    requires
        well_formed(rows),
        rows.len() < i64::MAX,
    ensures
        pin_ids(reordered(rows, moved, before)) == arranged(pin_ids(rows), moved, before),
{
    let f = |r: RowModel| r.pinned;
    let pins = survivors(rows, f);
    let ids = pin_ids(rows);
    lemma_survivors_wf(rows, f);
    lemma_survivors(rows, f);
    lemma_listed_ids(pins);
    listing_sorts(pins);
    if ids.contains(moved) && before != Some(moved) {
        let order = arranged(ids, moved, before);
        lemma_arranged_contains(ids, moved, before);
        lemma_ranked_pins(rows, order);
        let marked = ranked(pins, order);
        let l = listed(marked);
        listing_sorts(marked);
        assert(pin_ids(reordered(rows, moved, before)) == ids_of(l));
        assert forall|i: int| 0 <= i < pins.len() implies {
            &&& (#[trigger] marked[i]).pinned
            &&& 1 <= marked[i].rank <= order.len()
            &&& marked[i].rank == place_of(order, marked[i].id) + 1
            &&& order[marked[i].rank - 1] == marked[i].id
        } by {
            assert(f(pins[i]));
            assert(pins[i].id == pins[i].id);
            assert(has_id(pins, pins[i].id));
            assert(ids.contains(pins[i].id));
            assert(order.contains(pins[i].id));
            lemma_place_of(order, pins[i].id);
        }
        assert(well_formed(marked)) by {
            assert forall|i: int, j: int| 0 <= i < j < marked.len() implies marked[i].id
                < marked[j].id by {
                assert(pins[i].id < pins[j].id);
            }
            assert forall|i: int| 0 <= i < marked.len() implies {
                &&& (#[trigger] marked[i]).rank >= 0
                &&& !marked[i].pinned ==> marked[i].rank == 0
            } by {
                assert(marked[i].pinned);
            }
        }
        lemma_listed_ids(marked);
        assert forall|i: int| 0 <= i < l.len() implies {
            &&& (#[trigger] l[i]).pinned
            &&& 1 <= l[i].rank <= order.len()
            &&& order[l[i].rank - 1] == l[i].id
        } by {
            lemma_listed_contains(marked, l[i]);
            assert(l.contains(l[i]));
            let a = choose|a: int| 0 <= a < marked.len() && marked[a] == l[i];
            assert(marked[a].pinned);
        }
        assert forall|i: int, j: int| 0 <= i < j < l.len() implies l[i].rank < l[j].rank by {
            assert(!listing_order()(l[j], l[i]));
            assert(l[i].pinned && l[j].pinned);
            assert(ids_of(l)[i] != ids_of(l)[j]);
            assert(order[l[i].rank - 1] == l[i].id);
            assert(order[l[j].rank - 1] == l[j].id);
        }
        lemma_rising_ranks(l);
        assert forall|i: int| 0 <= i < l.len() implies ids_of(l)[i] == order[i] by {
            assert(l[i].rank == i + 1);
            assert(order[l[i].rank - 1] == l[i].id);
        }
        assert(ids_of(l) == order);
    }
}

} // verus!
