//! Memo snippets and their tags.

use crate::order::{lemma_survivors, survivors};
use crate::text::{
    char_views, chars_of, is_whitespace, lemma_trim_is_idempotent, list_contains, split, string_of,
    trim_chars, trimmed, views, whitespace,
};
use vstd::prelude::*;

verus! {

/// One memo snippet as it is listed. The tags stand in the order in which
/// they were entered.
#[derive(Debug, Clone)]
pub struct Memo {
    pub id: i64,
    pub content: String,
    /// Shown in small print below the content: what the snippet is for.
    pub note: String,
    pub tags: Vec<String>,
    pub preview: String,
    /// Unix milliseconds.
    pub updated_at: i64,
}

/// The plain contents of a [`Memo`].
pub struct MemoModel {
    pub id: i64,
    pub content: Seq<char>,
    pub note: Seq<char>,
    pub tags: Seq<Seq<char>>,
    pub preview: Seq<char>,
    pub updated_at: i64,
}

impl View for Memo {
    type V = MemoModel;

    open spec fn view(&self) -> MemoModel {
        MemoModel {
            id: self.id,
            content: self.content@,
            note: self.note@,
            tags: views(self.tags@),
            preview: self.preview@,
            updated_at: self.updated_at,
        }
    }
}

/// A memo to be stored; without an id it is a new one.
#[derive(Debug, Clone)]
pub struct MemoDraft {
    pub id: Option<i64>,
    pub content: String,
    pub note: String,
    pub tags: Vec<String>,
}

impl Default for MemoDraft {
    fn default() -> (r: Self)
        ensures
            r.id is None,
            r.content@.len() == 0,
            r.note@.len() == 0,
            r.tags@.len() == 0,
    {
        MemoDraft { id: None, content: String::new(), note: String::new(), tags: Vec::new() }
    }
}

/// Which memos the tag list shows.
#[derive(Debug, Clone, PartialEq, Eq)]
pub enum TagFilter {
    All,
    Untagged,
    Named(String),
}

impl Default for TagFilter {
    fn default() -> (r: Self)
        ensures
            r is All,
    {
        TagFilter::All
    }
}

impl TagFilter {
    /// Whether memos with these tags are shown.
    pub open spec fn admits(self, tags: Seq<Seq<char>>) -> bool {
        match self {
            TagFilter::All => true,
            TagFilter::Untagged => tags.len() == 0,
            TagFilter::Named(name) => tags.contains(name@),
        }
    }

    pub fn accepts(&self, tags: &Vec<String>) -> (r: bool)
        ensures
            r == self.admits(views(tags@)),
    {
        match self {
            TagFilter::All => true,
            TagFilter::Untagged => tags.len() == 0,
            TagFilter::Named(name) => list_contains(tags, name.as_str()),
        }
    }
}

/// An entry of the tag list: a tag and the number of its memos.
#[derive(Debug, Clone)]
pub struct TagSummary {
    pub name: String,
    pub count: i64,
}

// ---------------------------------------------------------------- tags as typed

/// Commas, also the ideographic ones, and whitespace part tags.
pub open spec fn is_tag_separator(c: char) -> bool {
    c == ',' || c == '，' || c == '、' || is_whitespace(c)
}

/// `items` without those that occurred before.
pub open spec fn distinct(items: Seq<Seq<char>>) -> Seq<Seq<char>>
    decreases items.len(),
{
    if items.len() == 0 {
        Seq::empty()
    } else {
        let head = distinct(items.drop_last());
        if head.contains(items.last()) {
            head
        } else {
            head.push(items.last())
        }
    }
}

/// The pieces of `raw` between separators, each trimmed.
pub open spec fn tag_pieces(raw: Seq<char>) -> Seq<Seq<char>> {
    let parts = split(raw, |c: char| is_tag_separator(c));
    Seq::new(parts.len(), |i: int| trimmed(parts[i]))
}

/// The tags typed as `raw`: no blanks, no repetitions, in the order typed.
pub open spec fn tags_in(raw: Seq<char>) -> Seq<Seq<char>> {
    distinct(survivors(tag_pieces(raw), |t: Seq<char>| t.len() > 0))
}

fn tag_separator(c: char) -> (r: bool)
    ensures
        r == is_tag_separator(c),
{
    c == ',' || c == '，' || c == '、' || whitespace(c)
}

fn split_tags(v: &[char]) -> (r: Vec<Vec<char>>)
    ensures
        char_views(r@) == split(v@, |c: char| is_tag_separator(c)),
{
    let ghost f = |c: char| is_tag_separator(c);
    let mut done: Vec<Vec<char>> = Vec::new();
    let mut cur: Vec<char> = Vec::new();
    for i in 0..v.len()
        invariant
            f == |c: char| is_tag_separator(c),
            char_views(done@).push(cur@) == split(v@.take(i as int), f),
    {
        let ghost before = char_views(done@).push(cur@);
        let c = v[i];
        proof {
            assert(v@.take(i + 1).drop_last() == v@.take(i as int));
            assert(before.last() == cur@);
            assert(before.drop_last() == char_views(done@));
        }
        if tag_separator(c) {
            let ghost all = char_views(done@);
            let ghost piece = cur@;
            done.push(cur);
            cur = Vec::new();
            assert(char_views(done@) == all.push(piece));
            assert(char_views(done@).push(cur@) == before.push(Seq::<char>::empty()));
        } else {
            cur.push(c);
        }
    }
    assert(v@.take(v@.len() as int) == v@);
    let ghost all = char_views(done@);
    let ghost piece = cur@;
    done.push(cur);
    assert(char_views(done@) == all.push(piece));
    done
}

/// Reads tags as a user types them: separated by commas of either kind or by
/// whitespace, each kept once, in the order typed.
pub fn parse_tags(raw: &str) -> (tags: Vec<String>)
    ensures
        views(tags@) == tags_in(raw@),
{
    let v = chars_of(raw);
    let parts = split_tags(&v);
    let ghost f = |t: Seq<char>| t.len() > 0;
    let ghost pieces = tag_pieces(raw@);
    let mut tags: Vec<String> = Vec::new();
    assert(pieces.take(0) == Seq::<Seq<char>>::empty());
    for i in 0..parts.len()
        invariant
            f == |t: Seq<char>| t.len() > 0,
            char_views(parts@) == split(raw@, |c: char| is_tag_separator(c)),
            pieces == tag_pieces(raw@),
            pieces.len() == parts@.len(),
            views(tags@) == distinct(survivors(pieces.take(i as int), f)),
    {
        let piece = trim_chars(&parts[i]);
        proof {
            assert(char_views(parts@)[i as int] == parts@[i as int]@);
            assert(pieces[i as int] == piece@);
            assert(pieces.take(i + 1).drop_last() == pieces.take(i as int));
        }
        let ghost kept = survivors(pieces.take(i as int), f);
        if piece.len() > 0 {
            let tag = string_of(&piece);
            proof {
                assert(survivors(pieces.take(i + 1), f) == kept.push(tag@));
                assert(kept.push(tag@).drop_last() == kept);
            }
            if !list_contains(&tags, tag.as_str()) {
                let ghost before = views(tags@);
                let ghost t = tag@;
                tags.push(tag);
                assert(views(tags@) == before.push(t));
            }
        }
    }
    assert(pieces.take(pieces.len() as int) == pieces);
    tags
}

pub proof fn lemma_distinct(items: Seq<Seq<char>>)
    ensures
        distinct(items).no_duplicates(),
        forall|x: Seq<char>| #[trigger] distinct(items).contains(x) <==> items.contains(x),
    decreases items.len(),
{
    if items.len() > 0 {
        let init = items.drop_last();
        let head = distinct(init);
        lemma_distinct(init);
        let out = distinct(items);
        assert forall|x: Seq<char>| #[trigger] out.contains(x) <==> items.contains(x) by {
            if out.contains(x) {
                let k = choose|k: int| 0 <= k < out.len() && out[k] == x;
                if k < head.len() {
                    assert(head[k] == x);
                    assert(head.contains(x));
                    let j = choose|j: int| 0 <= j < init.len() && init[j] == x;
                    assert(items[j] == x);
                } else {
                    assert(items[items.len() - 1] == x);
                }
            }
            if items.contains(x) {
                let j = choose|j: int| 0 <= j < items.len() && items[j] == x;
                if j < init.len() {
                    assert(init[j] == x);
                    assert(head.contains(x));
                    let k = choose|k: int| 0 <= k < head.len() && head[k] == x;
                    assert(out[k] == x);
                } else if !head.contains(x) {
                    assert(out[out.len() - 1] == x);
                } else {
                    let k = choose|k: int| 0 <= k < head.len() && head[k] == x;
                    assert(out[k] == x);
                }
            }
        }
        if !head.contains(items.last()) {
            assert forall|i: int, j: int| 0 <= i < out.len() && 0 <= j < out.len() && i
                != j implies out[i] != out[j] by {
                if i == head.len() {
                    assert(head.contains(out[j]));
                } else if j == head.len() {
                    assert(head.contains(out[i]));
                }
            }
        }
    }
}

/// No tag is read twice, and none is blank.
pub proof fn parsed_tags_are_distinct(raw: Seq<char>)
    ensures
        tags_in(raw).no_duplicates(),
        forall|i: int| 0 <= i < tags_in(raw).len() ==> (#[trigger] tags_in(raw)[i]).len() > 0,
        forall|i: int|
            0 <= i < tags_in(raw).len() ==> trimmed(#[trigger] tags_in(raw)[i]) == tags_in(raw)[i],
{
    let f = |t: Seq<char>| t.len() > 0;
    let pieces = tag_pieces(raw);
    let kept = survivors(pieces, f);
    lemma_distinct(kept);
    lemma_survivors(pieces, f);
    let tags = tags_in(raw);
    assert forall|i: int| 0 <= i < tags.len() implies (#[trigger] tags[i]).len() > 0 && trimmed(
        tags[i],
    ) == tags[i] by {
        assert(distinct(kept).contains(tags[i]));
        let k = choose|k: int| 0 <= k < kept.len() && kept[k] == tags[i];
        assert(f(kept[k]) && pieces.contains(kept[k]));
        let p = choose|p: int| 0 <= p < pieces.len() && pieces[p] == kept[k];
        lemma_trim_is_idempotent(split(raw, |c: char| is_tag_separator(c))[p]);
    }
}

} // verus!
