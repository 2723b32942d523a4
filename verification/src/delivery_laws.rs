//! What the clipboard receives when an entry is handed back to it.

use crate::clip_write::{
    dib_bytes, dib_header, drop_bytes, drop_header, ended_paths, flipped, le16, le16_all, le32,
    swapped, units_of, utf16, CF_DIBV5, CF_HDROP,
};
use vstd::prelude::*;

verus! {

// ---------------------------------------------------------------- numbers in bytes

/// The number in the two bytes at `at`, the low one first.
pub open spec fn read16(bytes: Seq<u8>, at: int) -> int {
    bytes[at] + 256 * bytes[at + 1]
}

/// The number in the four bytes at `at`, the low one first.
pub open spec fn read32(bytes: Seq<u8>, at: int) -> int {
    bytes[at] + 256 * bytes[at + 1] + 65_536 * bytes[at + 2] + 16_777_216 * bytes[at + 3]
}

/// Numbers are read back from their bytes.
pub proof fn numbers_are_read_back(n: u16, m: u32)
    ensures
        le16(n).len() == 2,
        read16(le16(n), 0) == n,
        le32(m).len() == 4,
        read32(le32(m), 0) == m,
{
    assert((m % 256) as u8 == m % 256);
    assert((m / 256 % 256) as u8 == m / 256 % 256);
    assert((m / 65536 % 256) as u8 == m / 65536 % 256);
    assert(m / 16777216 < 256);
    assert(m == m % 256 + 256 * (m / 256 % 256) + 65536 * (m / 65536 % 256) + 16777216 * (m
        / 16777216)) by (nonlinear_arith);
}


// ---------------------------------------------------------------- pictures

/// Turned over for the clipboard, the pixel of every column and line has the
/// colours that it had, written blue, green, red and alpha; the columns stay from
/// left to right, and the lowest line comes first.
pub proof fn turned_pixels_keep_their_column(
    width: u32,
    height: u32,
    rgba: Seq<u8>,
    x: int,
    y: int,
)
    requires
        rgba.len() == 4 * width * height,
        0 <= x < width,
        0 <= y < height,
    ensures
        ({
            let turned = flipped(width as nat, height as nat, rgba);
            let at = ((height - 1 - y) * width + x) * 4;
            let from = (y * width + x) * 4;
            &&& turned.len() == rgba.len()
            &&& 0 <= at && at + 4 <= turned.len()
            &&& turned[at] == rgba[from + 2]
            &&& turned[at + 1] == rgba[from + 1]
            &&& turned[at + 2] == rgba[from]
            &&& turned[at + 3] == rgba[from + 3]
        }),
{
    let row = 4 * width as nat;
    let pixels = flipped(width as nat, height as nat, rgba);
    assert(row * height == 4 * width * height) by (nonlinear_arith)
        requires
            row == 4 * width,
    ;
    let up = height - 1 - y;
    let base = (up * width + x) * 4;
    let from = (y * width + x) * 4;
    assert(base == up * row + 4 * x && from == y * row + 4 * x) by (nonlinear_arith)
        requires
            base == (up * width + x) * 4,
            from == (y * width + x) * 4,
            row == 4 * width,
    ;
    assert(0 <= base && base + 4 <= row * height) by (nonlinear_arith)
        requires
            base == up * row + 4 * x,
            0 <= up < height,
            0 <= x < width,
            row == 4 * width,
    ;
    assert forall|c: int| 0 <= c < 4 implies pixels[base + c] == rgba[from + swapped(c)] by {
        let i = base + c;
        let off = 4 * x + c;
        assert(i / row as int == up && i % row as int == off) by (nonlinear_arith)
            requires
                i == up * row + off,
                0 <= off < row,
        ;
        assert(swapped(off) == 4 * x + swapped(c));
        assert((height - 1 - up) * row == y * row) by (nonlinear_arith)
            requires
                up == height - 1 - y,
        ;
    }
    assert(pixels[base] == pixels[base + 0]);
    assert(swapped(0) == 2 && swapped(1) == 1 && swapped(2) == 0 && swapped(3) == 3);
}

/// The bitmap shows the picture as it is: the pixel in every column and line has
/// the colours that it had, written blue, green, red and alpha, the lowest line
/// first.
pub proof fn bitmaps_show_the_picture(width: u32, height: u32, rgba: Seq<u8>, x: int, y: int)
    requires
        rgba.len() == 4 * width * height,
        0 <= x < width,
        0 <= y < height,
    ensures
        ({
            let bitmap = dib_bytes(width, height, rgba);
            let at = 124 + ((height - 1 - y) * width + x) * 4;
            let from = (y * width + x) * 4;
            &&& bitmap.len() == 124 + rgba.len()
            &&& 124 <= at && at + 4 <= bitmap.len()
            &&& bitmap[at] == rgba[from + 2]
            &&& bitmap[at + 1] == rgba[from + 1]
            &&& bitmap[at + 2] == rgba[from]
            &&& bitmap[at + 3] == rgba[from + 3]
        }),
{
    let pixels = flipped(width as nat, height as nat, rgba);
    let head = dib_header(width, height, pixels.len() as u32);
    let bitmap = dib_bytes(width, height, rgba);
    turned_pixels_keep_their_column(width, height, rgba, x, y);
    let base = ((height - 1 - y) * width + x) * 4;
    assert(head.len() == 124);
    assert(bitmap =~= head + pixels);
    assert(bitmap[124 + base] == pixels[base]);
    assert(bitmap[124 + base + 1] == pixels[base + 1]);
    assert(bitmap[124 + base + 2] == pixels[base + 2]);
    assert(bitmap[124 + base + 3] == pixels[base + 3]);
}

/// The bitmap says what it holds: its own length of 124 bytes, the picture's
/// size, one plane of 32 bits per pixel with a mask for each colour, and the
/// standard colours.
pub proof fn bitmaps_say_what_they_hold(width: u32, height: u32, rgba: Seq<u8>)
    requires
        rgba.len() == 4 * width * height,
        rgba.len() <= u32::MAX,
    ensures
        ({
            let bitmap = dib_bytes(width, height, rgba);
            &&& bitmap.len() == 124 + rgba.len()
            &&& read32(bitmap, 0) == 124
            &&& read32(bitmap, 4) == width
            &&& read32(bitmap, 8) == height
            &&& read16(bitmap, 12) == 1
            &&& read16(bitmap, 14) == 32
            &&& read32(bitmap, 16) == 3
            &&& read32(bitmap, 20) == rgba.len()
            &&& read32(bitmap, 40) == 0x00ff_0000
            &&& read32(bitmap, 44) == 0x0000_ff00
            &&& read32(bitmap, 48) == 0x0000_00ff
            &&& read32(bitmap, 52) == 0xff00_0000
            &&& read32(bitmap, 56) == 0x7352_4742
            &&& forall|i: int| 24 <= i < 40 || 60 <= i < 124 ==> (#[trigger] bitmap[i]) == 0
        }),
{
    let pixels = flipped(width as nat, height as nat, rgba);
    let size = pixels.len() as u32;
    assert(4 * width * height == (4 * width) * height) by (nonlinear_arith);
    assert(pixels.len() == rgba.len());
    numbers_are_read_back(1, 124);
    numbers_are_read_back(32, width);
    numbers_are_read_back(32, height);
    numbers_are_read_back(32, 3);
    numbers_are_read_back(32, size);
    numbers_are_read_back(32, 0x00ff_0000);
    numbers_are_read_back(32, 0x0000_ff00);
    numbers_are_read_back(32, 0x0000_00ff);
    numbers_are_read_back(32, 0xff00_0000);
    numbers_are_read_back(32, 0x7352_4742);
    let head = dib_header(width, height, size);
    let bitmap = dib_bytes(width, height, rgba);
    assert(head.len() == 124);
    assert forall|i: int| 0 <= i < 124 implies bitmap[i] == head[i] by {}
    assert(bitmap.subrange(0, 4) =~= le32(124));
    assert(bitmap.subrange(4, 8) =~= le32(width));
    assert(bitmap.subrange(8, 12) =~= le32(height));
    assert(bitmap.subrange(12, 14) =~= le16(1));
    assert(bitmap.subrange(14, 16) =~= le16(32));
    assert(bitmap.subrange(16, 20) =~= le32(3));
    assert(bitmap.subrange(20, 24) =~= le32(size));
    assert(bitmap.subrange(40, 44) =~= le32(0x00ff_0000));
    assert(bitmap.subrange(44, 48) =~= le32(0x0000_ff00));
    assert(bitmap.subrange(48, 52) =~= le32(0x0000_00ff));
    assert(bitmap.subrange(52, 56) =~= le32(0xff00_0000));
    assert(bitmap.subrange(56, 60) =~= le32(0x7352_4742));
    lemma_read_part(bitmap, le32(124), 0);
    lemma_read_part(bitmap, le32(width), 4);
    lemma_read_part(bitmap, le32(height), 8);
    lemma_read_part(bitmap, le32(3), 16);
    lemma_read_part(bitmap, le32(size), 20);
    lemma_read_part(bitmap, le32(0x00ff_0000), 40);
    lemma_read_part(bitmap, le32(0x0000_ff00), 44);
    lemma_read_part(bitmap, le32(0x0000_00ff), 48);
    lemma_read_part(bitmap, le32(0xff00_0000), 52);
    lemma_read_part(bitmap, le32(0x7352_4742), 56);
    assert(bitmap.subrange(12, 14)[0] == bitmap[12] && bitmap.subrange(12, 14)[1] == bitmap[13]);
    assert(bitmap.subrange(14, 16)[0] == bitmap[14] && bitmap.subrange(14, 16)[1] == bitmap[15]);
}

proof fn lemma_read_part(bytes: Seq<u8>, part: Seq<u8>, at: int)
    requires
        0 <= at,
        at + 4 <= bytes.len(),
        part.len() == 4,
        bytes.subrange(at, at + 4) == part,
    ensures
        read32(bytes, at) == read32(part, 0),
{
    let s = bytes.subrange(at, at + 4);
    assert(s[0] == bytes[at] && s[1] == bytes[at + 1] && s[2] == bytes[at + 2] && s[3] == bytes[at
        + 3]);
}

// ---------------------------------------------------------------- wide texts

/// The characters that units of sixteen bits stand for: one unit each, or two
/// for those beyond sixteen bits.
pub open spec fn read_wide(units: Seq<u16>) -> Seq<int>
    decreases units.len(),
{
    if units.len() == 0 {
        Seq::empty()
    } else if 0xdc00 <= units.last() < 0xe000 && units.len() >= 2 {
        read_wide(units.take(units.len() - 2)).push(
            0x10000 + 1024 * (units[units.len() - 2] - 0xd800) + (units.last() - 0xdc00),
        )
    } else {
        read_wide(units.drop_last()).push(units.last() as int)
    }
}

proof fn lemma_char_range(c: char)
    ensures
        0 <= c as int <= 0x10_ffff,
        !(0xd800 <= c as int <= 0xdfff),
{
}

/// A text is read back from its wide form.
pub proof fn wide_texts_are_read_back(s: Seq<char>)
    ensures
        read_wide(utf16(s)) == Seq::new(s.len(), |i: int| s[i] as int),
    decreases s.len(),
{
    let all = Seq::new(s.len(), |i: int| s[i] as int);
    if s.len() == 0 {
        assert(read_wide(utf16(s)) =~= all);
    } else {
        let init = s.drop_last();
        let c = s.last();
        let n = c as int;
        lemma_char_range(c);
        let head = utf16(init);
        let u = utf16(s);
        wide_texts_are_read_back(init);
        let known = Seq::new(init.len(), |i: int| init[i] as int);
        assert(u == head + units_of(c));
        if n < 0x10000 {
            assert(u.drop_last() =~= head);
            assert(u.last() == n);
            assert(!(0xdc00 <= n < 0xe000));
        } else {
            assert(u.take(u.len() - 2) =~= head);
            assert((n - 0x10000) / 1024 <= 0x3ff);
            assert(u.last() == 0xdc00 + (n - 0x10000) % 1024);
            assert(u[u.len() - 2] == 0xd800 + (n - 0x10000) / 1024);
        }
        assert(read_wide(u) == known.push(n));
        assert(known.push(n) =~= all);
    }
}

/// The bytes of wide units, the low one of each first.
pub open spec fn wide_bytes(units: Seq<u16>) -> Seq<u8> {
    Seq::new(
        2 * units.len(),
        |i: int|
            if i % 2 == 0 {
                (units[i / 2] % 256) as u8
            } else {
                (units[i / 2] / 256) as u8
            },
    )
}

proof fn lemma_wide_bytes(units: Seq<u16>)
    ensures
        le16_all(units) == wide_bytes(units),
    decreases units.len(),
{
    if units.len() == 0 {
        assert(le16_all(units) =~= wide_bytes(units));
    } else {
        let init = units.drop_last();
        lemma_wide_bytes(init);
        let head = wide_bytes(init);
        let all = head + le16(units.last());
        let want = wide_bytes(units);
        assert(all.len() == want.len());
        assert forall|i: int| 0 <= i < all.len() implies all[i] == want[i] by {
            if i < head.len() {
                assert(init[i / 2] == units[i / 2]);
            } else {
                assert(i / 2 == init.len());
            }
        }
        assert(all =~= want);
    }
}

// ---------------------------------------------------------------- files

/// A list of files starts with twenty bytes that say where the paths begin and
/// that they are wide; each path follows with a zero behind it, and one more zero
/// ends the list.
pub proof fn file_lists_hold_their_paths(paths: Seq<Seq<char>>, more: Seq<char>)
    ensures
        ({
            let none = drop_bytes(Seq::empty());
            let list = drop_bytes(paths);
            let longer = drop_bytes(paths.push(more));
            &&& none.len() == 22
            &&& read32(none, 0) == 20
            &&& read32(none, 4) == 0
            &&& read32(none, 8) == 0
            &&& read32(none, 12) == 0
            &&& read32(none, 16) == 1
            &&& read16(none, 20) == 0
            &&& longer == list.take(list.len() - 2) + wide_bytes(utf16(more)) + seq![
                0u8,
                0u8,
                0u8,
                0u8,
            ]
        }),
{
    let header = drop_header();
    let none = drop_bytes(Seq::empty());
    numbers_are_read_back(0, 20);
    numbers_are_read_back(0, 0);
    numbers_are_read_back(0, 1);
    assert(ended_paths(Seq::<Seq<char>>::empty()) =~= Seq::<u16>::empty());
    lemma_wide_bytes(Seq::<u16>::empty().push(0));
    assert(none.subrange(0, 4) =~= le32(20));
    assert(none.subrange(4, 8) =~= le32(0));
    assert(none.subrange(8, 12) =~= le32(0));
    assert(none.subrange(12, 16) =~= le32(0));
    assert(none.subrange(16, 20) =~= le32(1));
    lemma_read_part(none, le32(20), 0);
    lemma_read_part(none, le32(0), 4);
    lemma_read_part(none, le32(0), 8);
    lemma_read_part(none, le32(0), 12);
    lemma_read_part(none, le32(1), 16);
    let list = drop_bytes(paths);
    let longer = drop_bytes(paths.push(more));
    let before = ended_paths(paths);
    let behind = ended_paths(paths.push(more));
    assert(paths.push(more).drop_last() =~= paths);
    assert(behind == before + utf16(more).push(0));
    lemma_wide_bytes(before.push(0));
    lemma_wide_bytes(behind.push(0));
    let n = before.len();
    let m = utf16(more).len();
    let want = list.take(list.len() - 2) + wide_bytes(utf16(more)) + seq![0u8, 0u8, 0u8, 0u8];
    assert(longer.len() == want.len());
    assert forall|i: int| 0 <= i < longer.len() implies longer[i] == want[i] by {
        let j = i - 20;
        if i >= 20 {
            assert(longer[i] == wide_bytes(behind.push(0))[j]);
            if j < 2 * n {
                assert(list[i] == wide_bytes(before.push(0))[j]);
                assert(before.push(0)[j / 2] == behind.push(0)[j / 2]);
            } else if j < 2 * n + 2 * m {
                let k = j - 2 * n;
                assert(want[i] == wide_bytes(utf16(more))[k]);
                assert(k / 2 == j / 2 - n);
                assert(k % 2 == j % 2);
                assert(behind.push(0)[j / 2] == utf16(more)[k / 2]);
            } else {
                assert(behind.push(0)[j / 2] == 0);
            }
        }
    }
    assert(longer =~= want);
}

/// Files and bitmaps are handed over under the system's numbers for them.
pub proof fn formats_have_their_numbers()
    ensures
        CF_HDROP == 15,
        CF_DIBV5 == 17,
{
}

} // verus!
