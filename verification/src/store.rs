//! The clipboard history: deduplication, pinning, search and retention.

use crate::clip::{
    bytes_view, fingerprint, make_preview, preview_of, text_fingerprint, Clip, ClipFilter,
    ClipKind, ClipModel,
};
use crate::like::{keyword_pattern, like_pattern, mentions, mentions_keyword};
use crate::order::{
    lemma_masked_is_survivors, lemma_ordered_len, lemma_placed_at, lemma_survivors, masked, ordered,
    picked, survivors,
};
use crate::text::{same_text, trim_text, trimmed, views};
use vstd::prelude::*;
use vstd::utf8::encode_utf8;

verus! {

/// How long an entry that is not pinned is kept.
pub const RETENTION_MS: i64 = 7_776_000_000;

/// How many entries that are not pinned are kept.
pub const MAX_ROWS: usize = 2000;

/// The longest search pattern, in bytes.
pub const MAX_PATTERN_BYTES: usize = 50_000;

/// Why an operation on the history failed.
#[derive(Debug, Clone, Copy, PartialEq, Eq, Structural)]
pub enum StoreError {
    /// No entry has the given id.
    NotFound,
    /// Every id is taken.
    Full,
    /// The search pattern is too long.
    PatternTooLong,
    /// The limit does not fit a signed number.
    LimitTooLarge,
    /// Stored rows break the table's rules.
    Corrupt,
}

/// One stored entry.
#[derive(Debug, Clone)]
pub struct ClipRow {
    pub id: i64,
    pub kind: ClipKind,
    pub content: String,
    pub preview: String,
    pub hash: i64,
    pub thumb: Option<Vec<u8>>,
    pub pinned: bool,
    /// Place among the pinned entries; zero until they are arranged by hand.
    pub rank: i64,
    /// Unix milliseconds.
    pub created_at: i64,
}

/// The plain contents of a [`ClipRow`].
pub struct RowModel {
    pub id: i64,
    pub kind: ClipKind,
    pub content: Seq<char>,
    pub preview: Seq<char>,
    pub hash: i64,
    pub thumb: Option<Seq<u8>>,
    pub pinned: bool,
    pub rank: i64,
    pub created_at: i64,
}

impl View for ClipRow {
    type V = RowModel;

    open spec fn view(&self) -> RowModel {
        RowModel {
            id: self.id,
            kind: self.kind,
            content: self.content@,
            preview: self.preview@,
            hash: self.hash,
            thumb: bytes_view(self.thumb),
            pinned: self.pinned,
            rank: self.rank,
            created_at: self.created_at,
        }
    }
}

pub open spec fn row_models(rows: Seq<ClipRow>) -> Seq<RowModel> {
    Seq::new(rows.len(), |i: int| rows[i]@)
}

/// The table's rules: ids grow, and only pinned entries are arranged by hand.
pub open spec fn well_formed(rows: Seq<RowModel>) -> bool {
    &&& forall|i: int, j: int| 0 <= i < j < rows.len() ==> rows[i].id < rows[j].id
    &&& forall|i: int|
        0 <= i < rows.len() ==> {
            &&& (#[trigger] rows[i]).rank >= 0
            &&& !rows[i].pinned ==> rows[i].rank == 0
        }
}

// ---------------------------------------------------------------- updates

/// Every row changed by `f`.
pub open spec fn map_rows(rows: Seq<RowModel>, f: spec_fn(RowModel) -> RowModel) -> Seq<RowModel> {
    Seq::new(rows.len(), |i: int| f(rows[i]))
}

pub open spec fn has_id(rows: Seq<RowModel>, id: i64) -> bool {
    exists|i: int| 0 <= i < rows.len() && (#[trigger] rows[i]).id == id
}

/// The row with the given id.
pub open spec fn row_of(rows: Seq<RowModel>, id: i64) -> RowModel {
    rows[choose|i: int| 0 <= i < rows.len() && (#[trigger] rows[i]).id == id]
}

/// Whether the row already holds this content.
pub open spec fn duplicates(row: RowModel, hash: i64, content: Seq<char>) -> bool {
    row.hash == hash && row.content == content
}

pub open spec fn has_duplicate(rows: Seq<RowModel>, hash: i64, content: Seq<char>) -> bool {
    exists|i: int| 0 <= i < rows.len() && duplicates(#[trigger] rows[i], hash, content)
}

/// `row` moved to the time `now`, so that it returns to the top: a place given
/// to it by hand is given up.
pub open spec fn at_time(row: RowModel, now: i64) -> RowModel {
    RowModel { created_at: now, rank: 0, ..row }
}

/// The id that the next new row gets.
pub open spec fn next_id(rows: Seq<RowModel>) -> int {
    if rows.len() == 0 {
        1
    } else {
        rows.last().id + 1
    }
}

/// The history after `content` was recorded at `now`: rows that already hold
/// it move to `now`; otherwise a new row is added.
pub open spec fn recorded(
    rows: Seq<RowModel>,
    kind: ClipKind,
    content: Seq<char>,
    preview: Seq<char>,
    hash: i64,
    thumb: Option<Seq<u8>>,
    now: i64,
) -> Seq<RowModel> {
    if has_duplicate(rows, hash, content) {
        map_rows(
            rows,
            |r: RowModel|
                if duplicates(r, hash, content) {
                    at_time(r, now)
                } else {
                    r
                },
        )
    } else {
        rows.push(
            RowModel {
                id: next_id(rows) as i64,
                kind,
                content,
                preview,
                hash,
                thumb,
                pinned: false,
                rank: 0,
                created_at: now,
            },
        )
    }
}

/// Whether there is neither a duplicate to move nor an id for a new row.
pub open spec fn no_room(rows: Seq<RowModel>, hash: i64, content: Seq<char>) -> bool {
    !has_duplicate(rows, hash, content) && next_id(rows) > i64::MAX
}

// ---------------------------------------------------------------- order

/// Whether `a` is listed strictly before `b`: pinned first, then as arranged
/// by hand, then the newer.
pub open spec fn precedes(a: RowModel, b: RowModel) -> bool {
    if a.pinned != b.pinned {
        a.pinned
    } else if a.rank != b.rank {
        a.rank < b.rank
    } else {
        a.created_at > b.created_at
    }
}

pub open spec fn listing_order() -> spec_fn(RowModel, RowModel) -> bool {
    |a: RowModel, b: RowModel| precedes(a, b)
}

/// The rows in the order in which they are listed; equals keep their id order.
pub open spec fn listed(rows: Seq<RowModel>) -> Seq<RowModel> {
    ordered(rows, listing_order())
}

/// Whether a row is found by category and keyword.
pub open spec fn found(row: RowModel, filter: ClipFilter, keyword: Seq<char>) -> bool {
    &&& filter.admits(row.kind, row.pinned)
    &&& keyword.len() > 0 ==> mentions(row.content, keyword)
}

/// The list entry of a row.
pub open spec fn clip_of(row: RowModel) -> ClipModel {
    ClipModel {
        id: row.id,
        kind: row.kind,
        content: row.content,
        preview: row.preview,
        thumb: row.thumb,
        pinned: row.pinned,
        created_at: row.created_at,
        char_count: row.content.len() as i64,
    }
}

/// All rows found by category and keyword, as listed.
pub open spec fn matches_of(
    rows: Seq<RowModel>,
    filter: ClipFilter,
    keyword: Seq<char>,
) -> Seq<RowModel> {
    listed(survivors(rows, |r: RowModel| found(r, filter, trimmed(keyword))))
}

/// What a query returns: the first `limit` of the matches.
pub open spec fn query_result(
    rows: Seq<RowModel>,
    filter: ClipFilter,
    keyword: Seq<char>,
    limit: nat,
) -> Seq<ClipModel> {
    let all = matches_of(rows, filter, keyword);
    let n = if limit < all.len() {
        limit
    } else {
        all.len()
    };
    Seq::new(n, |i: int| clip_of(all[i]))
}

pub open spec fn clip_models(clips: Seq<Clip>) -> Seq<ClipModel> {
    Seq::new(clips.len(), |i: int| clips[i]@)
}

/// The pattern of the keyword is over the limit.
pub open spec fn pattern_too_long(keyword: Seq<char>) -> bool {
    let k = trimmed(keyword);
    k.len() > 0 && encode_utf8(keyword_pattern(k)).len() > MAX_PATTERN_BYTES
}

/// Whether a query fails on its pattern. The pattern is measured when it is
/// first compared with an entry, so where the category holds none, or none is
/// asked for, the length does not matter.
pub open spec fn query_too_long(
    rows: Seq<RowModel>,
    filter: ClipFilter,
    keyword: Seq<char>,
    limit: nat,
) -> bool {
    &&& pattern_too_long(keyword)
    &&& limit > 0
    &&& exists|i: int|
        0 <= i < rows.len() && filter.admits((#[trigger] rows[i]).kind, rows[i].pinned)
}

/// Where a pattern over the limit goes unnoticed, there was nothing to find.
pub proof fn lemma_unnoticed_pattern_finds_nothing(
    rows: Seq<RowModel>,
    filter: ClipFilter,
    keyword: Seq<char>,
    limit: nat,
)
    requires
        pattern_too_long(keyword),
        !query_too_long(rows, filter, keyword, limit),
    ensures
        query_result(rows, filter, keyword, limit) == Seq::<ClipModel>::empty(),
{
    if limit > 0 {
        let f = |r: RowModel| found(r, filter, trimmed(keyword));
        let hits = survivors(rows, f);
        lemma_survivors(rows, f);
        if hits.len() > 0 {
            assert(f(hits[0]) && rows.contains(hits[0]));
            let k = choose|k: int| 0 <= k < rows.len() && rows[k] == hits[0];
            assert(filter.admits(rows[k].kind, rows[k].pinned));
        }
        lemma_ordered_len(hits, listing_order());
    }
}

// ---------------------------------------------------------------- retention

/// Whether retention up to `cutoff` keeps the row.
pub open spec fn fresh(row: RowModel, cutoff: i64) -> bool {
    row.pinned || row.created_at >= cutoff
}

/// Whether `a` is newer than `b`, the larger id counting among equals.
pub open spec fn newer(a: RowModel, b: RowModel) -> bool {
    a.created_at > b.created_at || (a.created_at == b.created_at && a.id > b.id)
}

/// How many rows that are not pinned are newer than `row`.
pub open spec fn newer_count(rows: Seq<RowModel>, row: RowModel) -> nat
    decreases rows.len(),
{
    if rows.len() == 0 {
        0
    } else {
        newer_count(rows.drop_last(), row) + (if !rows.last().pinned && newer(rows.last(), row) {
            1nat
        } else {
            0nat
        })
    }
}

/// The history with at most `keep` rows that are not pinned, the newest.
pub open spec fn capped(rows: Seq<RowModel>, keep: int) -> Seq<RowModel> {
    survivors(rows, |r: RowModel| r.pinned || newer_count(rows, r) < keep)
}

/// The history after routine cleaning at `now`.
pub open spec fn pruned(rows: Seq<RowModel>, now: i64) -> Seq<RowModel> {
    let cutoff = (now - RETENTION_MS) as i64;
    capped(survivors(rows, |r: RowModel| fresh(r, cutoff)), MAX_ROWS as int)
}

/// The clipboard history.
#[derive(Debug, Clone)]
pub struct ClipStore {
    rows: Vec<ClipRow>,
}

impl View for ClipStore {
    type V = Seq<RowModel>;

    closed spec fn view(&self) -> Seq<RowModel> {
        row_models(self.rows@)
    }
}

impl ClipStore {
    pub open spec fn wf(&self) -> bool {
        well_formed(self@)
    }

    /// An empty history.
    pub fn new() -> (r: Self)
        ensures
            r.wf(),
            r@ == Seq::<RowModel>::empty(),
    {
        let r = ClipStore { rows: Vec::new() };
        assert(r@ == Seq::<RowModel>::empty());
        r
    }

    /// The history held by stored rows, in the order of their ids.
    pub fn open(rows: Vec<ClipRow>) -> (r: Result<Self, StoreError>)
        ensures
            r is Ok <==> well_formed(row_models(rows@)),
            r matches Ok(store) ==> store.wf() && store@ == row_models(rows@),
            r matches Err(e) ==> e == StoreError::Corrupt,
    {
        for i in 0..rows.len()
            invariant
                forall|a: int, b: int| 0 <= a < b < i ==> rows@[a].id < rows@[b].id,
                forall|a: int|
                    0 <= a < i ==> {
                        &&& (#[trigger] rows@[a]).rank >= 0
                        &&& !rows@[a].pinned ==> rows@[a].rank == 0
                    },
        {
            if rows[i].rank < 0 || (!rows[i].pinned && rows[i].rank != 0) {
                proof {
                    assert(row_models(rows@)[i as int] == rows@[i as int]@);
                }
                return Err(StoreError::Corrupt);
            }
            if i > 0 && rows[i - 1].id >= rows[i].id {
                proof {
                    assert(row_models(rows@)[i as int] == rows@[i as int]@);
                    assert(row_models(rows@)[i - 1] == rows@[i - 1]@);
                }
                return Err(StoreError::Corrupt);
            }
        }
        Ok(ClipStore { rows })
    }

    /// The stored rows, in the order of their ids.
    pub fn rows(&self) -> (r: &Vec<ClipRow>)
        ensures
            row_models(r@) == self@,
    {
        &self.rows
    }
}

// ---------------------------------------------------------------- lemmas

pub proof fn lemma_survivors_wf(rows: Seq<RowModel>, f: spec_fn(RowModel) -> bool)
    requires
        well_formed(rows),
    ensures
        well_formed(survivors(rows, f)),
    decreases rows.len(),
{
    if rows.len() > 0 {
        let head = rows.drop_last();
        assert(well_formed(head)) by {
            assert forall|i: int| 0 <= i < head.len() implies {
                &&& (#[trigger] head[i]).rank >= 0
                &&& !head[i].pinned ==> head[i].rank == 0
            } by {
                assert(head[i] == rows[i]);
            }
        }
        lemma_survivors_wf(head, f);
        lemma_survivors(head, f);
        let s = survivors(head, f);
        let t = survivors(rows, f);
        if f(rows.last()) {
            assert forall|i: int, j: int| 0 <= i < j < t.len() implies t[i].id < t[j].id by {
                if j == s.len() {
                    assert(head.contains(s[i]));
                    let k = choose|k: int| 0 <= k < head.len() && head[k] == s[i];
                    assert(rows[k].id < rows[rows.len() - 1].id);
                }
            }
            assert forall|i: int| 0 <= i < t.len() implies {
                &&& (#[trigger] t[i]).rank >= 0
                &&& !t[i].pinned ==> t[i].rank == 0
            } by {
                if i < s.len() {
                    assert(t[i] == s[i]);
                } else {
                    assert(t[i] == rows[rows.len() - 1]);
                }
            }
        }
    }
}

/// In a well-formed table an id names one row.
pub proof fn lemma_row_of(rows: Seq<RowModel>, i: int)
    requires
        well_formed(rows),
        0 <= i < rows.len(),
    ensures
        has_id(rows, rows[i].id),
        row_of(rows, rows[i].id) == rows[i],
{
    let id = rows[i].id;
    let k = choose|k: int| 0 <= k < rows.len() && (#[trigger] rows[k]).id == id;
    assert(0 <= k < rows.len() && rows[k].id == id);
    if k < i {
        assert(rows[k].id < rows[i].id);
    }
    if i < k {
        assert(rows[i].id < rows[k].id);
    }
}

// ---------------------------------------------------------------- operations

impl ClipStore {
    fn find(&self, id: i64) -> (r: Option<usize>)
        requires
            self.wf(),
        ensures
            match r {
                Some(i) => i < self@.len() && self@[i as int].id == id && has_id(self@, id)
                    && row_of(self@, id) == self@[i as int],
                None => !has_id(self@, id),
            },
    {
        for i in 0..self.rows.len()
            invariant
                self.wf(),
                forall|j: int| 0 <= j < i ==> (#[trigger] self@[j]).id != id,
        {
            assert(self@[i as int] == self.rows@[i as int]@);
            if self.rows[i].id == id {
                proof {
                    lemma_row_of(self@, i as int);
                }
                return Some(i);
            }
        }
        None
    }

    /// Keeps the rows marked in `keep` and returns how many were removed.
    fn retain(&mut self, keep: &Vec<bool>) -> (removed: usize)
        requires
            keep@.len() == old(self)@.len(),
        ensures
            final(self)@ == masked(old(self)@, keep@),
            removed == old(self)@.len() - final(self)@.len(),
    {
        let ghost orig = self@;
        let mut i: usize = 0;
        let mut removed: usize = 0;
        for k in 0..keep.len()
            invariant
                keep@.len() == orig.len(),
                i + removed == k,
                i <= self.rows@.len(),
                self.rows@.len() == orig.len() - removed,
                i == masked(orig.take(k as int), keep@).len(),
                self@ == masked(orig.take(k as int), keep@) + orig.skip(k as int),
        {
            let ghost before = self@;
            let ghost done = masked(orig.take(k as int), keep@);
            proof {
                assert(orig.take(k + 1).drop_last() == orig.take(k as int));
                assert(orig.take(k + 1).last() == orig[k as int]);
                assert(before[i as int] == orig[k as int]);
            }
            if keep[k] {
                i = i + 1;
                assert(self@ == done.push(orig[k as int]) + orig.skip(k + 1));
            } else {
                let _ = self.rows.remove(i);
                removed = removed + 1;
                assert(self@ == before.remove(i as int));
                assert(self@ == done + orig.skip(k + 1));
            }
        }
        assert(orig.take(orig.len() as int) == orig);
        assert(self@ == masked(orig, keep@));
        removed
    }

    /// Records content at `now`. Content that is already there is not stored
    /// again: it moves to the top by its time.
    fn record(
        &mut self,
        kind: ClipKind,
        content: &str,
        preview: String,
        hash: i64,
        thumb: Option<Vec<u8>>,
        now: i64,
    ) -> (r: Result<(), StoreError>)
        requires
            old(self).wf(),
        ensures
            final(self).wf(),
            r is Err <==> no_room(old(self)@, hash, content@),
            r matches Err(e) ==> e == StoreError::Full && final(self)@ == old(self)@,
            r is Ok ==> final(self)@ == recorded(
                old(self)@,
                kind,
                content@,
                preview@,
                hash,
                bytes_view(thumb),
                now,
            ),
    {
        let ghost orig = self@;
        let ghost f = |r: RowModel|
            if duplicates(r, hash, content@) {
                at_time(r, now)
            } else {
                r
            };
        let mut touched = false;
        let n: usize = self.rows.len();
        for i in 0..n
            invariant
                n == self.rows@.len(),
                n == orig.len(),
                f == |r: RowModel|
                    if duplicates(r, hash, content@) {
                        at_time(r, now)
                    } else {
                        r
                    },
                forall|j: int| 0 <= j < i ==> self@[j] == f(#[trigger] orig[j]),
                forall|j: int| i <= j < n ==> self@[j] == #[trigger] orig[j],
                touched == exists|j: int|
                    0 <= j < i && duplicates(#[trigger] orig[j], hash, content@),
        {
            assert(self@[i as int] == orig[i as int]);
            assert(self@[i as int] == self.rows@[i as int]@);
            let ghost before = self@;
            let hit = self.rows[i].hash == hash && same_text(self.rows[i].content.as_str(), content);
            if hit {
                self.rows[i].created_at = now;
                self.rows[i].rank = 0;
                touched = true;
                assert(duplicates(orig[i as int], hash, content@));
                assert(self@ == before.update(i as int, at_time(orig[i as int], now)));
            }
        }
        if touched {
            assert(self@ == map_rows(orig, f));
            proof {
                assert(forall|j: int| 0 <= j < n ==> (#[trigger] self@[j]).id == orig[j].id);
            }
            return Ok(());
        }
        assert(self@ == orig);
        let id: i64 = if n == 0 {
            1
        } else {
            let last: i64 = self.rows[n - 1].id;
            assert(orig.last() == self.rows@[n - 1]@);
            if last == i64::MAX {
                return Err(StoreError::Full);
            }
            last + 1
        };
        let row = ClipRow {
            id,
            kind,
            content: content.to_owned(),
            preview,
            hash,
            thumb,
            pinned: false,
            rank: 0,
            created_at: now,
        };
        let ghost model = row@;
        self.rows.push(row);
        assert(self@ == orig.push(model));
        Ok(())
    }

    /// Records a copied text.
    pub fn insert_text(&mut self, content: &str, now: i64) -> (r: Result<(), StoreError>)
        requires
            old(self).wf(),
        ensures
            final(self).wf(),
            r is Err <==> no_room(old(self)@, text_fingerprint(content@), content@),
            r matches Err(e) ==> e == StoreError::Full && final(self)@ == old(self)@,
            r is Ok ==> final(self)@ == recorded(
                old(self)@,
                ClipKind::Text,
                content@,
                preview_of(content@),
                text_fingerprint(content@),
                None,
                now,
            ),
    {
        let hash = fingerprint(content);
        let preview = make_preview(content);
        self.record(ClipKind::Text, content, preview, hash, None, now)
    }

    /// Records a copied image by the path of its file.
    pub fn insert_image(
        &mut self,
        hash: i64,
        path: &str,
        preview: String,
        thumb: Vec<u8>,
        now: i64,
    ) -> (r: Result<(), StoreError>)
        requires
            old(self).wf(),
        ensures
            final(self).wf(),
            r is Err <==> no_room(old(self)@, hash, path@),
            r matches Err(e) ==> e == StoreError::Full && final(self)@ == old(self)@,
            r is Ok ==> final(self)@ == recorded(
                old(self)@,
                ClipKind::Image,
                path@,
                preview@,
                hash,
                Some(thumb@),
                now,
            ),
    {
        self.record(ClipKind::Image, path, preview, hash, Some(thumb), now)
    }

    /// Records a copied list of files.
    pub fn insert_files(&mut self, hash: i64, content: &str, preview: String, now: i64) -> (r:
        Result<(), StoreError>)
        requires
            old(self).wf(),
        ensures
            final(self).wf(),
            r is Err <==> no_room(old(self)@, hash, content@),
            r matches Err(e) ==> e == StoreError::Full && final(self)@ == old(self)@,
            r is Ok ==> final(self)@ == recorded(
                old(self)@,
                ClipKind::Files,
                content@,
                preview@,
                hash,
                None,
                now,
            ),
    {
        self.record(ClipKind::Files, content, preview, hash, None, now)
    }
}

/// Whether the pattern of a trimmed keyword is over the limit.
pub(crate) fn trimmed_too_long(keyword: &str) -> (r: bool)
    ensures
        r == (keyword@.len() > 0 && encode_utf8(keyword_pattern(keyword@)).len()
            > MAX_PATTERN_BYTES),
{
    if keyword.is_empty() {
        return false;
    }
    let pattern = like_pattern(keyword);
    pattern.as_str().as_bytes().len() > MAX_PATTERN_BYTES
}

fn comes_before(a: &ClipRow, b: &ClipRow) -> (r: bool)
    ensures
        r == precedes(a@, b@),
{
    if a.pinned != b.pinned {
        a.pinned
    } else if a.rank != b.rank {
        a.rank < b.rank
    } else {
        a.created_at > b.created_at
    }
}

fn copy_bytes(v: &Vec<u8>) -> (r: Vec<u8>)
    ensures
        r@ == v@,
{
    let mut out: Vec<u8> = Vec::new();
    for i in 0..v.len()
        invariant
            out@ == v@.take(i as int),
    {
        out.push(v[i]);
        assert(v@.take(i + 1) == v@.take(i as int).push(v@[i as int]));
    }
    assert(v@.take(v@.len() as int) == v@);
    out
}

fn copy_thumb(o: &Option<Vec<u8>>) -> (r: Option<Vec<u8>>)
    ensures
        bytes_view(r) == bytes_view(*o),
{
    match o {
        Some(v) => Some(copy_bytes(v)),
        None => None,
    }
}

/// The list entry of a stored row.
fn clip_from_row(row: &ClipRow) -> (r: Clip)
    ensures
        r@ == clip_of(row@),
{
    Clip {
        id: row.id,
        kind: row.kind,
        content: row.content.clone(),
        preview: row.preview.clone(),
        thumb: copy_thumb(&row.thumb),
        pinned: row.pinned,
        created_at: row.created_at,
        char_count: row.content.as_str().unicode_len() as i64,
    }
}

impl ClipStore {
    /// The indices of the rows found by category and keyword, as listed.
    fn listed_indices(&self, filter: ClipFilter, keyword: &str) -> (r: Vec<usize>)
        ensures
            forall|i: int| 0 <= i < r@.len() ==> (#[trigger] r@[i]) < self@.len(),
            picked(self@, r@) == listed(
                survivors(self@, |r: RowModel| found(r, filter, keyword@)),
            ),
    {
        let ghost f = |r: RowModel| found(r, filter, keyword@);
        let mut order: Vec<usize> = Vec::new();
        let n: usize = self.rows.len();
        let any = keyword.is_empty();
        for i in 0..n
            invariant
                n == self.rows@.len(),
                any == (keyword@.len() == 0),
                f == |r: RowModel| found(r, filter, keyword@),
                order@.len() <= i,
                forall|j: int| 0 <= j < order@.len() ==> (#[trigger] order@[j]) < i,
                picked(self@, order@) == listed(survivors(self@.take(i as int), f)),
        {
            let ghost all = self@;
            let row = &self.rows[i];
            proof {
                assert(all[i as int] == row@);
                assert(all.take(i + 1).drop_last() == all.take(i as int));
                assert(all.take(i + 1).last() == row@);
            }
            let hit = filter.accepts(row.kind, row.pinned) && (any || mentions_keyword(
                row.content.as_str(),
                keyword,
            ));
            assert(hit == f(row@));
            if hit {
                let ghost head = survivors(all.take(i as int), f);
                let ghost l = picked(all, order@);
                let mut k: usize = order.len();
                while k > 0 && comes_before(row, &self.rows[order[k - 1]])
                    invariant
                        k <= order@.len(),
                        i < n,
                        n == self.rows@.len(),
                        all == self@,
                        *row == self.rows@[i as int],
                        l == picked(all, order@),
                        forall|j: int| 0 <= j < order@.len() ==> (#[trigger] order@[j]) < i,
                        forall|j: int| k <= j < l.len() ==> precedes(row@, #[trigger] l[j]),
                    decreases k,
                {
                    proof {
                        assert(l[k - 1] == all[order@[k - 1] as int]);
                        assert(all[order@[k - 1] as int] == self.rows@[order@[k - 1] as int]@);
                    }
                    k = k - 1;
                }
                proof {
                    if k > 0 {
                        assert(l[k - 1] == all[order@[k - 1] as int]);
                        assert(all[order@[k - 1] as int] == self.rows@[order@[k - 1] as int]@);
                    }
                    lemma_placed_at(l, row@, listing_order(), k as int);
                    assert(survivors(all.take(i + 1), f) == head.push(row@));
                    assert(head.push(row@).drop_last() == head);
                }
                let ghost before = order@;
                order.insert(k, i);
                assert(picked(all, order@) == l.insert(k as int, row@));
                assert forall|j: int| 0 <= j < order@.len() implies (#[trigger] order@[j]) < i
                    + 1 by {
                    if j < k {
                        assert(order@[j] == before[j]);
                    } else if j > k {
                        assert(order@[j] == before[j - 1]);
                    }
                }
            } else {
                assert(survivors(all.take(i + 1), f) == survivors(all.take(i as int), f));
            }
        }
        assert(self@.take(n as int) == self@);
        order
    }

    fn any_admitted(&self, filter: ClipFilter) -> (r: bool)
        ensures
            r <==> exists|i: int|
                0 <= i < self@.len() && filter.admits((#[trigger] self@[i]).kind, self@[i].pinned),
    {
        for i in 0..self.rows.len()
            invariant
                forall|j: int|
                    0 <= j < i ==> !filter.admits((#[trigger] self@[j]).kind, self@[j].pinned),
        {
            assert(self@[i as int] == self.rows@[i as int]@);
            if filter.accepts(self.rows[i].kind, self.rows[i].pinned) {
                return true;
            }
        }
        false
    }

    /// The entries found by category and keyword, pinned ones first, then the
    /// newest; at most `limit` of them. A blank keyword finds everything.
    pub fn query(&self, filter: ClipFilter, keyword: &str, limit: usize) -> (r: Result<
        Vec<Clip>,
        StoreError,
    >)
        ensures
            r is Ok <==> limit <= i64::MAX && !query_too_long(
                self@,
                filter,
                keyword@,
                limit as nat,
            ),
            r matches Ok(clips) ==> clip_models(clips@) == query_result(
                self@,
                filter,
                keyword@,
                limit as nat,
            ),
            r matches Err(e) ==> e == (if limit > i64::MAX {
                StoreError::LimitTooLarge
            } else {
                StoreError::PatternTooLong
            }),
    {
        if limit as u128 > i64::MAX as u128 {
            return Err(StoreError::LimitTooLarge);
        }
        let keyword = trim_text(keyword);
        if limit > 0 && trimmed_too_long(keyword.as_str()) && self.any_admitted(filter) {
            return Err(StoreError::PatternTooLong);
        }
        let order = self.listed_indices(filter, keyword.as_str());
        let ghost all = picked(self@, order@);
        let n: usize = if limit < order.len() {
            limit
        } else {
            order.len()
        };
        let mut clips: Vec<Clip> = Vec::new();
        for i in 0..n
            invariant
                n <= order@.len(),
                all == picked(self@, order@),
                forall|i: int| 0 <= i < order@.len() ==> (#[trigger] order@[i]) < self@.len(),
                clips@.len() == i,
                forall|j: int| 0 <= j < i ==> (#[trigger] clips@[j])@ == clip_of(all[j]),
        {
            let ix: usize = order[i];
            assert(ix < self@.len());
            assert(all[i as int] == self.rows@[ix as int]@);
            clips.push(clip_from_row(&self.rows[ix]));
        }
        Ok(clips)
    }

    /// The content of an entry.
    pub fn content_of(&self, id: i64) -> (r: Result<String, StoreError>)
        requires
            self.wf(),
        ensures
            r is Ok <==> has_id(self@, id),
            r matches Ok(content) ==> content@ == row_of(self@, id).content,
            r matches Err(e) ==> e == StoreError::NotFound,
    {
        match self.find(id) {
            Some(i) => Ok(self.rows[i].content.clone()),
            None => Err(StoreError::NotFound),
        }
    }

    /// What an entry holds and its content.
    pub fn kind_and_content(&self, id: i64) -> (r: Result<(ClipKind, String), StoreError>)
        requires
            self.wf(),
        ensures
            r is Ok <==> has_id(self@, id),
            r matches Ok(pair) ==> pair.0 == row_of(self@, id).kind && pair.1@ == row_of(
                self@,
                id,
            ).content,
            r matches Err(e) ==> e == StoreError::NotFound,
    {
        match self.find(id) {
            Some(i) => Ok((self.rows[i].kind, self.rows[i].content.clone())),
            None => Err(StoreError::NotFound),
        }
    }
}

// ---------------------------------------------------------------- changes by id

/// The row with `id` has its pin state turned over and loses its place.
pub open spec fn pin_toggled(rows: Seq<RowModel>, id: i64) -> Seq<RowModel> {
    map_rows(
        rows,
        |r: RowModel|
            if r.id == id {
                RowModel { pinned: !r.pinned, rank: 0, ..r }
            } else {
                r
            },
    )
}

/// The history after the row with `id` was moved to the time `now`.
pub open spec fn touched(rows: Seq<RowModel>, id: i64, now: i64) -> Seq<RowModel> {
    map_rows(
        rows,
        |r: RowModel|
            if r.id == id {
                at_time(r, now)
            } else {
                r
            },
    )
}

/// The history without the row with `id`.
pub open spec fn without_id(rows: Seq<RowModel>, id: i64) -> Seq<RowModel> {
    survivors(rows, |r: RowModel| r.id != id)
}

/// Contents of the rows, in order.
pub open spec fn contents(rows: Seq<RowModel>) -> Seq<Seq<char>> {
    Seq::new(rows.len(), |i: int| rows[i].content)
}

/// What clearing the history removed.
#[derive(Debug)]
pub struct Cleared {
    pub count: usize,
    pub image_paths: Vec<String>,
}

impl ClipStore {
    /// Pins an entry, or takes its pin away.
    pub fn toggle_pin(&mut self, id: i64)
        requires
            old(self).wf(),
        ensures
            final(self).wf(),
            final(self)@ == pin_toggled(old(self)@, id),
    {
        let ghost orig = self@;
        match self.find(id) {
            Some(i) => {
                self.rows[i].pinned = !self.rows[i].pinned;
                self.rows[i].rank = 0;
                proof {
                    let row = RowModel { pinned: !orig[i as int].pinned, rank: 0, ..orig[i as int] };
                    assert(self@ == orig.update(i as int, row));
                    assert(self@ == pin_toggled(orig, id));
                    assert forall|j: int| 0 <= j < self@.len() implies {
                        &&& (#[trigger] self@[j]).rank >= 0
                        &&& !self@[j].pinned ==> self@[j].rank == 0
                    } by {
                        if j != i {
                            assert(self@[j] == orig[j]);
                        }
                    }
                }
            },
            None => {
                assert(self@ == pin_toggled(orig, id));
            },
        }
    }

    /// Moves an entry to the time `now`, back to the top.
    pub fn touch(&mut self, id: i64, now: i64)
        requires
            old(self).wf(),
        ensures
            final(self).wf(),
            final(self)@ == touched(old(self)@, id, now),
    {
        let ghost orig = self@;
        match self.find(id) {
            Some(i) => {
                self.rows[i].created_at = now;
                self.rows[i].rank = 0;
                proof {
                    assert(self@ == orig.update(i as int, at_time(orig[i as int], now)));
                    assert(self@ == touched(orig, id, now));
                    assert forall|j: int| 0 <= j < self@.len() implies {
                        &&& (#[trigger] self@[j]).rank >= 0
                        &&& !self@[j].pinned ==> self@[j].rank == 0
                    } by {
                        assert(orig[j].rank >= 0);
                    }
                }
            },
            None => {
                assert(self@ == touched(orig, id, now));
            },
        }
    }

    /// Removes an entry.
    pub fn delete(&mut self, id: i64)
        requires
            old(self).wf(),
        ensures
            final(self).wf(),
            final(self)@ == without_id(old(self)@, id),
    {
        let ghost f = |r: RowModel| r.id != id;
        let mut keep: Vec<bool> = Vec::new();
        for i in 0..self.rows.len()
            invariant
                f == |r: RowModel| r.id != id,
                keep@.len() == i,
                forall|j: int| 0 <= j < i ==> keep@[j] == f(#[trigger] self@[j]),
        {
            keep.push(self.rows[i].id != id);
        }
        proof {
            lemma_masked_is_survivors(self@, keep@, f);
            lemma_survivors_wf(self@, f);
        }
        let _ = self.retain(&keep);
    }

    /// Removes entries that are not pinned and older than `cutoff_ms`;
    /// returns how many.
    pub fn prune_before(&mut self, cutoff_ms: i64) -> (removed: usize)
        requires
            old(self).wf(),
        ensures
            final(self).wf(),
            final(self)@ == survivors(old(self)@, |r: RowModel| fresh(r, cutoff_ms)),
            removed == old(self)@.len() - final(self)@.len(),
    {
        let ghost f = |r: RowModel| fresh(r, cutoff_ms);
        let mut keep: Vec<bool> = Vec::new();
        for i in 0..self.rows.len()
            invariant
                f == |r: RowModel| fresh(r, cutoff_ms),
                keep@.len() == i,
                forall|j: int| 0 <= j < i ==> keep@[j] == f(#[trigger] self@[j]),
        {
            let row = &self.rows[i];
            keep.push(row.pinned || row.created_at >= cutoff_ms);
        }
        proof {
            lemma_masked_is_survivors(self@, keep@, f);
            lemma_survivors_wf(self@, f);
        }
        self.retain(&keep)
    }

    /// How many entries that are not pinned are newer than the one at `ix`.
    fn count_newer(&self, ix: usize) -> (r: usize)
        requires
            ix < self@.len(),
        ensures
            r == newer_count(self@, self@[ix as int]),
    {
        let ghost all = self@;
        let created_at: i64 = self.rows[ix].created_at;
        let id: i64 = self.rows[ix].id;
        let mut n: usize = 0;
        for i in 0..self.rows.len()
            invariant
                all == self@,
                ix < all.len(),
                created_at == all[ix as int].created_at,
                id == all[ix as int].id,
                n <= i,
                n == newer_count(all.take(i as int), all[ix as int]),
        {
            proof {
                assert(all.take(i + 1).drop_last() == all.take(i as int));
                assert(all.take(i + 1).last() == self.rows@[i as int]@);
            }
            let row = &self.rows[i];
            if !row.pinned && (row.created_at > created_at || (row.created_at == created_at
                && row.id > id)) {
                n = n + 1;
            }
        }
        assert(all.take(all.len() as int) == all);
        n
    }

    /// Cuts the entries that are not pinned down to the `keep` newest;
    /// returns how many were removed.
    pub fn enforce_cap(&mut self, keep: usize) -> (removed: usize)
        requires
            old(self).wf(),
        ensures
            final(self).wf(),
            final(self)@ == capped(old(self)@, keep as int),
            removed == old(self)@.len() - final(self)@.len(),
    {
        let ghost all = self@;
        let ghost f = |r: RowModel| r.pinned || newer_count(all, r) < keep;
        let mut marks: Vec<bool> = Vec::new();
        for i in 0..self.rows.len()
            invariant
                all == self@,
                f == |r: RowModel| r.pinned || newer_count(all, r) < keep,
                marks@.len() == i,
                forall|j: int| 0 <= j < i ==> marks@[j] == f(#[trigger] all[j]),
        {
            assert(all[i as int] == self.rows@[i as int]@);
            let kept = self.rows[i].pinned || self.count_newer(i) < keep;
            marks.push(kept);
        }
        proof {
            lemma_masked_is_survivors(all, marks@, f);
            lemma_survivors_wf(all, f);
            assert(capped(all, keep as int) == survivors(all, f));
        }
        self.retain(&marks)
    }

    /// Routine cleaning: what is not pinned is removed once it is too old,
    /// then down to the largest number of entries.
    pub fn prune(&mut self, now: i64)
        requires
            old(self).wf(),
            now - RETENTION_MS >= i64::MIN,
        ensures
            final(self).wf(),
            final(self)@ == pruned(old(self)@, now),
    {
        let _ = self.prune_before(now - RETENTION_MS);
        let _ = self.enforce_cap(MAX_ROWS);
    }

    /// How many entries are not pinned.
    pub fn unpinned_count(&self) -> (r: usize)
        ensures
            r == survivors(self@, |r: RowModel| !r.pinned).len(),
    {
        let ghost all = self@;
        let ghost f = |r: RowModel| !r.pinned;
        let mut n: usize = 0;
        for i in 0..self.rows.len()
            invariant
                all == self@,
                f == |r: RowModel| !r.pinned,
                n <= i,
                n == survivors(all.take(i as int), f).len(),
        {
            proof {
                assert(all.take(i + 1).drop_last() == all.take(i as int));
                assert(all.take(i + 1).last() == self.rows@[i as int]@);
            }
            if !self.rows[i].pinned {
                n = n + 1;
            }
        }
        assert(all.take(all.len() as int) == all);
        n
    }

    /// Removes every entry that is not pinned, and names the image files that
    /// the removed entries referred to.
    pub fn clear_unpinned(&mut self) -> (r: Cleared)
        requires
            old(self).wf(),
        ensures
            final(self).wf(),
            final(self)@ == survivors(old(self)@, |r: RowModel| r.pinned),
            r.count == old(self)@.len() - final(self)@.len(),
            views(r.image_paths@) == contents(
                survivors(
                    old(self)@,
                    |r: RowModel| !r.pinned && r.kind == ClipKind::Image,
                ),
            ),
    {
        let ghost all = self@;
        let ghost f = |r: RowModel| r.pinned;
        let ghost g = |r: RowModel| !r.pinned && r.kind == ClipKind::Image;
        let mut keep: Vec<bool> = Vec::new();
        let mut image_paths: Vec<String> = Vec::new();
        for i in 0..self.rows.len()
            invariant
                all == self@,
                f == |r: RowModel| r.pinned,
                g == |r: RowModel| !r.pinned && r.kind == ClipKind::Image,
                keep@.len() == i,
                forall|j: int| 0 <= j < i ==> keep@[j] == f(#[trigger] all[j]),
                views(image_paths@) == contents(survivors(all.take(i as int), g)),
        {
            proof {
                assert(all.take(i + 1).drop_last() == all.take(i as int));
                assert(all.take(i + 1).last() == self.rows@[i as int]@);
            }
            let ghost before = image_paths@;
            let ghost head = survivors(all.take(i as int), g);
            let row = &self.rows[i];
            keep.push(row.pinned);
            if !row.pinned && row.kind == ClipKind::Image {
                image_paths.push(row.content.clone());
                assert(views(image_paths@) == views(before).push(
                    row.content@,
                ));
                assert(contents(head.push(row@)) == contents(head).push(row.content@));
            }
        }
        proof {
            assert(all.take(all.len() as int) == all);
            lemma_masked_is_survivors(all, keep@, f);
            lemma_survivors_wf(all, f);
        }
        let count = self.retain(&keep);
        Cleared { count, image_paths }
    }

    /// The file paths of the image entries.
    pub fn image_paths(&self) -> (r: Vec<String>)
        ensures
            views(r@) == contents(
                survivors(self@, |r: RowModel| r.kind == ClipKind::Image),
            ),
    {
        let ghost all = self@;
        let ghost g = |r: RowModel| r.kind == ClipKind::Image;
        let mut paths: Vec<String> = Vec::new();
        for i in 0..self.rows.len()
            invariant
                all == self@,
                g == |r: RowModel| r.kind == ClipKind::Image,
                views(paths@) == contents(survivors(all.take(i as int), g)),
        {
            proof {
                assert(all.take(i + 1).drop_last() == all.take(i as int));
                assert(all.take(i + 1).last() == self.rows@[i as int]@);
            }
            let ghost before = paths@;
            let ghost head = survivors(all.take(i as int), g);
            let row = &self.rows[i];
            if row.kind == ClipKind::Image {
                paths.push(row.content.clone());
                assert(views(paths@) == views(before).push(row.content@));
                assert(contents(head.push(row@)) == contents(head).push(row.content@));
            }
        }
        assert(all.take(all.len() as int) == all);
        paths
    }
}

// ---------------------------------------------------------------- arrangement by hand

/// The ids of rows, in order.
pub open spec fn ids_of(rows: Seq<RowModel>) -> Seq<i64> {
    Seq::new(rows.len(), |i: int| rows[i].id)
}

/// The ids of the pinned entries, as listed.
pub open spec fn pin_ids(rows: Seq<RowModel>) -> Seq<i64> {
    ids_of(listed(survivors(rows, |r: RowModel| r.pinned)))
}

/// Where `id` stands first in `ids`, or their length.
pub open spec fn place_of(ids: Seq<i64>, id: i64) -> int
    decreases ids.len(),
{
    if ids.len() == 0 {
        0
    } else {
        let p = place_of(ids.drop_last(), id);
        if p < ids.len() - 1 {
            p
        } else if ids.last() == id {
            ids.len() - 1
        } else {
            ids.len() as int
        }
    }
}

/// `ids` with `moved` put in front of `before`; at the end without it.
pub open spec fn arranged(ids: Seq<i64>, moved: i64, before: Option<i64>) -> Seq<i64> {
    if !ids.contains(moved) || before == Some(moved) {
        ids
    } else {
        let rest = ids.remove(place_of(ids, moved));
        let at = match before {
            Some(b) => place_of(rest, b),
            None => rest.len() as int,
        };
        rest.insert(at, moved)
    }
}

/// The history with its pinned entries numbered by their place in `ids`.
pub open spec fn ranked(rows: Seq<RowModel>, ids: Seq<i64>) -> Seq<RowModel> {
    map_rows(
        rows,
        |r: RowModel|
            if r.pinned {
                RowModel { rank: (place_of(ids, r.id) + 1) as i64, ..r }
            } else {
                r
            },
    )
}

/// The history after the pinned entry `moved` was dropped in front of
/// `before`. Nothing changes where `moved` is not pinned or is dropped on
/// itself.
pub open spec fn reordered(rows: Seq<RowModel>, moved: i64, before: Option<i64>) -> Seq<RowModel> {
    let ids = pin_ids(rows);
    if !ids.contains(moved) || before == Some(moved) {
        rows
    } else {
        ranked(rows, arranged(ids, moved, before))
    }
}

pub proof fn lemma_place_of(ids: Seq<i64>, id: i64)
    ensures
        0 <= place_of(ids, id) <= ids.len(),
        place_of(ids, id) < ids.len() ==> ids[place_of(ids, id)] == id,
        place_of(ids, id) < ids.len() <==> ids.contains(id),
        forall|j: int| 0 <= j < place_of(ids, id) ==> ids[j] != id,
    decreases ids.len(),
{
    if ids.len() > 0 {
        let init = ids.drop_last();
        lemma_place_of(init, id);
        let p = place_of(ids, id);
        if p < ids.len() {
            assert(ids[p] == id);
        }
        assert forall|j: int| 0 <= j < p implies ids[j] != id by {
            if j < init.len() {
                assert(init[j] == ids[j]);
            }
        }
    }
}

/// The first place of `id` in `ids`, or their length.
fn find_place(ids: &Vec<i64>, id: i64) -> (r: usize)
    ensures
        r == place_of(ids@, id),
{
    let n: usize = ids.len();
    let mut k: usize = 0;
    while k < n && ids[k] != id
        invariant
            n == ids@.len(),
            k <= n,
            forall|j: int| 0 <= j < k ==> ids@[j] != id,
        decreases n - k,
    {
        k = k + 1;
    }
    proof {
        lemma_place_of(ids@, id);
    }
    k
}

impl ClipStore {
    /// The ids of the pinned entries, as listed.
    fn pinned_ids(&self) -> (r: Vec<i64>)
        ensures
            r@ == pin_ids(self@),
            r@.len() <= self@.len(),
    {
        let order = self.listed_indices(ClipFilter::Pinned, "");
        proof {
            reveal_strlit("");
            let f = |r: RowModel| found(r, ClipFilter::Pinned, ""@);
            let g = |r: RowModel| r.pinned;
            assert(f =~= g);
            lemma_ordered_len(survivors(self@, g), listing_order());
            lemma_survivors(self@, g);
        }
        let mut ids: Vec<i64> = Vec::new();
        let n: usize = order.len();
        for i in 0..n
            invariant
                n == order@.len(),
                forall|i: int| 0 <= i < order@.len() ==> (#[trigger] order@[i]) < self@.len(),
                ids@ == ids_of(picked(self@, order@)).take(i as int),
        {
            assert(order@[i as int] < self@.len());
            ids.push(self.rows[order[i]].id);
            assert(ids@ == ids_of(picked(self@, order@)).take(i + 1));
        }
        assert(ids@ == ids_of(picked(self@, order@)));
        ids
    }

    /// Moves the pinned entry `moved_id` in front of the pinned entry
    /// `before_id`, or behind all of them.
    pub fn reorder_pinned(&mut self, moved_id: i64, before_id: Option<i64>) -> (r: Result<
        (),
        StoreError,
    >)
        requires
            old(self).wf(),
        ensures
            final(self).wf(),
            r is Ok <==> old(self)@.len() < i64::MAX,
            r is Err ==> r == Err::<(), StoreError>(StoreError::Full) && final(self)@ == old(self)@,
            r is Ok ==> final(self)@ == reordered(old(self)@, moved_id, before_id),
    {
        let n: usize = self.rows.len();
        if n as u128 >= i64::MAX as u128 {
            return Err(StoreError::Full);
        }
        let ghost orig = self@;
        let mut ids = self.pinned_ids();
        let ghost all = ids@;
        let from = find_place(&ids, moved_id);
        proof {
            lemma_place_of(all, moved_id);
        }
        if from == ids.len() {
            return Ok(());
        }
        let before = match before_id {
            Some(b) => {
                if b == moved_id {
                    return Ok(());
                }
                Some(b)
            },
            None => None,
        };
        ids.remove(from);
        let ghost rest = ids@;
        let at: usize = match before {
            Some(b) => find_place(&ids, b),
            None => ids.len(),
        };
        proof {
            if before_id is Some {
                lemma_place_of(rest, before_id->0);
            }
        }
        ids.insert(at, moved_id);
        assert(ids@ == arranged(all, moved_id, before_id));
        let ghost order = ids@;
        for i in 0..n
            invariant
                n == self.rows@.len(),
                n == orig.len(),
                n < i64::MAX,
                ids@ == order,
                order.len() <= n,
                well_formed(orig),
                forall|j: int| i <= j < n ==> #[trigger] self@[j] == orig[j],
                forall|j: int| 0 <= j < i ==> #[trigger] self@[j] == ranked(orig, order)[j],
        {
            let ghost prev = self@;
            assert(prev[i as int] == orig[i as int]);
            assert(prev[i as int] == self.rows@[i as int]@);
            if self.rows[i].pinned {
                let at: usize = find_place(&ids, self.rows[i].id);
                proof {
                    lemma_place_of(order, orig[i as int].id);
                }
                self.rows[i].rank = at as i64 + 1;
                proof {
                    let row = RowModel { rank: (at + 1) as i64, ..orig[i as int] };
                    assert(self@ == prev.update(i as int, row));
                }
            }
        }
        proof {
            assert(self@ == ranked(orig, order));
            assert forall|j: int| 0 <= j < self@.len() implies {
                &&& (#[trigger] self@[j]).rank >= 0
                &&& !self@[j].pinned ==> self@[j].rank == 0
            } by {
                lemma_place_of(order, orig[j].id);
                assert(orig[j].rank >= 0);
            }
        }
        Ok(())
    }
}

} // verus!
