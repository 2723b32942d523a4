//! Clipboard entries: kinds, categories, fingerprints and list previews.

use crate::text::{char_views, chars_of, lines, lines_of, slice_of, string_of, trim_chars, trimmed};
use vstd::prelude::*;

verus! {

/// What an entry holds.
#[derive(Debug, Clone, Copy, PartialEq, Eq, Structural)]
pub enum ClipKind {
    Text,
    Image,
    Files,
}

impl ClipKind {
    /// The number under which the kind is stored.
    pub open spec fn spec_code(self) -> i64 {
        match self {
            ClipKind::Text => 0,
            ClipKind::Image => 1,
            ClipKind::Files => 2,
        }
    }

    pub fn code(self) -> (r: i64)
        ensures
            r == self.spec_code(),
    {
        match self {
            ClipKind::Text => 0,
            ClipKind::Image => 1,
            ClipKind::Files => 2,
        }
    }

    /// The kind stored under `value`; an unknown number reads as text.
    pub open spec fn spec_from_i64(value: i64) -> ClipKind {
        if value == 1 {
            ClipKind::Image
        } else if value == 2 {
            ClipKind::Files
        } else {
            ClipKind::Text
        }
    }

    pub fn from_i64(value: i64) -> (r: Self)
        ensures
            r == Self::spec_from_i64(value),
    {
        match value {
            1 => ClipKind::Image,
            2 => ClipKind::Files,
            _ => ClipKind::Text,
        }
    }

    /// The kind's name in the list.
    pub fn label(self) -> (r: &'static str)
        ensures
            r@ == (match self {
                ClipKind::Text => "文本"@,
                ClipKind::Image => "图像"@,
                ClipKind::Files => "文件"@,
            }),
    {
        match self {
            ClipKind::Text => "文本",
            ClipKind::Image => "图像",
            ClipKind::Files => "文件",
        }
    }
}

/// A stored kind reads back as itself.
pub proof fn kind_code_round_trips(kind: ClipKind)
    ensures
        ClipKind::spec_from_i64(kind.spec_code()) == kind,
{
}

/// The categories by which the history can be narrowed.
#[derive(Debug, Clone, Copy, PartialEq, Eq, Structural)]
pub enum ClipFilter {
    All,
    Text,
    Image,
    Files,
    Pinned,
}

impl ClipFilter {
    /// The categories in the order in which they are shown.
    pub const ALL: [ClipFilter; 5] = [
        ClipFilter::All,
        ClipFilter::Text,
        ClipFilter::Image,
        ClipFilter::Files,
        ClipFilter::Pinned,
    ];

    /// Whether an entry of this kind and pin state belongs to the category.
    pub open spec fn admits(self, kind: ClipKind, pinned: bool) -> bool {
        match self {
            ClipFilter::All => true,
            ClipFilter::Text => kind == ClipKind::Text,
            ClipFilter::Image => kind == ClipKind::Image,
            ClipFilter::Files => kind == ClipKind::Files,
            ClipFilter::Pinned => pinned,
        }
    }

    pub fn accepts(self, kind: ClipKind, pinned: bool) -> (r: bool)
        ensures
            r == self.admits(kind, pinned),
    {
        match self {
            ClipFilter::All => true,
            ClipFilter::Text => kind == ClipKind::Text,
            ClipFilter::Image => kind == ClipKind::Image,
            ClipFilter::Files => kind == ClipKind::Files,
            ClipFilter::Pinned => pinned,
        }
    }

    /// The category's name on its button.
    pub fn label(self) -> (r: &'static str)
        ensures
            r@ == (match self {
                ClipFilter::All => "全部"@,
                ClipFilter::Text => "文本"@,
                ClipFilter::Image => "图像"@,
                ClipFilter::Files => "文件"@,
                ClipFilter::Pinned => "收藏"@,
            }),
    {
        match self {
            ClipFilter::All => "全部",
            ClipFilter::Text => "文本",
            ClipFilter::Image => "图像",
            ClipFilter::Files => "文件",
            ClipFilter::Pinned => "收藏",
        }
    }
}

/// One entry of the history as the list shows it.
#[derive(Debug, Clone)]
pub struct Clip {
    pub id: i64,
    pub kind: ClipKind,
    pub content: String,
    /// One-line summary for the list.
    pub preview: String,
    /// Small picture of an image entry.
    pub thumb: Option<Vec<u8>>,
    pub pinned: bool,
    /// Unix milliseconds.
    pub created_at: i64,
    pub char_count: i64,
}

/// The plain contents of a [`Clip`].
pub struct ClipModel {
    pub id: i64,
    pub kind: ClipKind,
    pub content: Seq<char>,
    pub preview: Seq<char>,
    pub thumb: Option<Seq<u8>>,
    pub pinned: bool,
    pub created_at: i64,
    pub char_count: i64,
}

pub open spec fn bytes_view(o: Option<Vec<u8>>) -> Option<Seq<u8>> {
    match o {
        Some(v) => Some(v@),
        None => None,
    }
}

impl View for Clip {
    type V = ClipModel;

    open spec fn view(&self) -> ClipModel {
        ClipModel {
            id: self.id,
            kind: self.kind,
            content: self.content@,
            preview: self.preview@,
            thumb: bytes_view(self.thumb),
            pinned: self.pinned,
            created_at: self.created_at,
            char_count: self.char_count,
        }
    }
}

// ---------------------------------------------------------------- fingerprint

pub const FNV_OFFSET: u64 = 0xcbf2_9ce4_8422_2325;

pub const FNV_PRIME: u64 = 0x0000_0100_0000_01b3;

/// FNV-1a over 64 bits.
pub open spec fn fnv1a(bytes: Seq<u8>) -> u64
    decreases bytes.len(),
{
    if bytes.len() == 0 {
        FNV_OFFSET
    } else {
        (((fnv1a(bytes.drop_last()) ^ (bytes.last() as u64)) * FNV_PRIME) % 0x1_0000_0000_0000_0000)
            as u64
    }
}

/// The signed number with the same 64 bits.
pub open spec fn signed_bits(h: u64) -> int {
    if h < 0x8000_0000_0000_0000 {
        h as int
    } else {
        h - 0x1_0000_0000_0000_0000
    }
}

/// Fingerprint of raw bytes, used to find equal contents quickly.
pub fn fingerprint_bytes(bytes: &[u8]) -> (r: i64)
    ensures
        r == signed_bits(fnv1a(bytes@)),
{
    let mut hash: u64 = FNV_OFFSET;
    for i in 0..bytes.len()
        invariant
            hash == fnv1a(bytes@.take(i as int)),
    {
        proof {
            assert(bytes@.take(i + 1).drop_last() == bytes@.take(i as int));
            assert(bytes@.take(i + 1).last() == bytes@[i as int]);
        }
        hash = (hash ^ (bytes[i] as u64)).wrapping_mul(FNV_PRIME);
    }
    assert(bytes@.take(bytes@.len() as int) == bytes@);
    assert((hash as i64) == (if hash < 0x8000_0000_0000_0000 {
        hash as int
    } else {
        hash - 0x1_0000_0000_0000_0000
    })) by (bit_vector);
    hash as i64
}

/// Fingerprint of a text: that of its UTF-8 bytes.
pub open spec fn text_fingerprint(content: Seq<char>) -> i64 {
    signed_bits(fnv1a(vstd::utf8::encode_utf8(content))) as i64
}

pub fn fingerprint(content: &str) -> (r: i64)
    ensures
        r == text_fingerprint(content@),
        r == signed_bits(fnv1a(vstd::utf8::encode_utf8(content@))),
{
    fingerprint_bytes(content.as_bytes())
}

// ---------------------------------------------------------------- preview

pub const PREVIEW_CHARS: usize = 120;

/// The first line that is not blank, trimmed; empty where all are blank.
pub open spec fn first_meaningful_line(ls: Seq<Seq<char>>) -> Seq<char>
    decreases ls.len(),
{
    if ls.len() == 0 {
        Seq::empty()
    } else if trimmed(ls[0]).len() > 0 {
        trimmed(ls[0])
    } else {
        first_meaningful_line(ls.drop_first())
    }
}

/// `s` cut to at most `n` characters.
pub open spec fn cut(s: Seq<char>, n: int) -> Seq<char> {
    if s.len() > n {
        s.take(n)
    } else {
        s
    }
}

/// The list summary of `content`: its first meaningful line, cut, with an
/// ellipsis where something is left out.
pub open spec fn preview_of(content: Seq<char>) -> Seq<char> {
    let line = first_meaningful_line(lines(content));
    let shown = cut(line, PREVIEW_CHARS as int);
    if line.len() > PREVIEW_CHARS || lines(content).len() > 1 {
        shown.push('…')
    } else {
        shown
    }
}

pub fn make_preview(content: &str) -> (r: String)
    ensures
        r@ == preview_of(content@),
{
    let v = chars_of(content);
    let ls = lines_of(&v);
    let ghost all = lines(content@);
    let mut line: Vec<char> = Vec::new();
    let mut i: usize = 0;
    proof {
        assert(all.skip(0) == all);
    }
    while i < ls.len() && line.len() == 0
        invariant
            all == char_views(ls@),
            i <= ls@.len(),
            line@.len() == 0 ==> first_meaningful_line(all) == first_meaningful_line(
                all.skip(i as int),
            ),
            line@.len() > 0 ==> first_meaningful_line(all) == line@,
        decreases ls@.len() - i,
    {
        proof {
            let rest = all.skip(i as int);
            assert(rest[0] == ls@[i as int]@);
            assert(rest.drop_first() == all.skip(i + 1));
        }
        line = trim_chars(&ls[i]);
        i = i + 1;
    }
    proof {
        if line@.len() == 0 {
            assert(all.skip(i as int).len() == 0);
            assert(line@ == Seq::<char>::empty());
        }
    }
    let long = line.len() > PREVIEW_CHARS;
    let shown = if long {
        slice_of(&line, 0, PREVIEW_CHARS)
    } else {
        slice_of(&line, 0, line.len())
    };
    assert(shown@ == cut(line@, PREVIEW_CHARS as int));
    let mut s = string_of(&shown);
    if long || ls.len() > 1 {
        s.push('…');
    }
    s
}

/// A preview never holds more than the cut line and one ellipsis.
pub proof fn preview_is_short(content: Seq<char>)
    ensures
        preview_of(content).len() <= PREVIEW_CHARS + 1,
{
}

} // verus!
