//! Bytes for the system clipboard: lists of files and pictures.

use crate::text::{chars_of, views};
use vstd::prelude::*;

verus! {

/// The system's number of the format for files.
pub const CF_HDROP: u32 = 15;

/// The system's number of the format for pictures.
pub const CF_DIBV5: u32 = 17;

/// The length of the header in front of a list of files.
pub const DROP_HEADER: u32 = 20;

/// The length of the header in front of the pixels of a picture.
pub const DIB_HEADER: u32 = 124;

// ---------------------------------------------------------------- numbers as bytes

/// The two bytes of `n`, the low one first.
pub open spec fn le16(n: u16) -> Seq<u8> {
    seq![(n % 256) as u8, (n / 256) as u8]
}

/// The four bytes of `n`, the low one first.
pub open spec fn le32(n: u32) -> Seq<u8> {
    seq![
        (n % 256) as u8,
        (n / 256 % 256) as u8,
        (n / 65536 % 256) as u8,
        (n / 16777216) as u8,
    ]
}

/// The bytes of several numbers.
pub open spec fn le16_all(units: Seq<u16>) -> Seq<u8>
    decreases units.len(),
{
    if units.len() == 0 {
        Seq::empty()
    } else {
        le16_all(units.drop_last()) + le16(units.last())
    }
}

pub fn push16(out: &mut Vec<u8>, n: u16)
    ensures
        final(out)@ == old(out)@ + le16(n),
{
    out.push((n % 256) as u8);
    out.push((n / 256) as u8);
    assert(out@ == old(out)@ + le16(n));
}

pub fn push32(out: &mut Vec<u8>, n: u32)
    ensures
        final(out)@ == old(out)@ + le32(n),
{
    out.push((n % 256) as u8);
    out.push((n / 256 % 256) as u8);
    out.push((n / 65536 % 256) as u8);
    out.push((n / 16777216) as u8);
    assert(out@ == old(out)@ + le32(n));
}

pub fn push_bytes(out: &mut Vec<u8>, bytes: &[u8])
    ensures
        final(out)@ == old(out)@ + bytes@,
{
    let ghost start = out@;
    for i in 0..bytes.len()
        invariant
            out@ == start + bytes@.take(i as int),
    {
        out.push(bytes[i]);
        assert(bytes@.take(i + 1) == bytes@.take(i as int).push(bytes@[i as int]));
    }
    assert(bytes@.take(bytes@.len() as int) == bytes@);
}

// ---------------------------------------------------------------- UTF-16

/// The UTF-16 units of one character.
pub open spec fn units_of(c: char) -> Seq<u16> {
    let n = c as int;
    if n < 0x10000 {
        seq![n as u16]
    } else {
        seq![(0xd800 + (n - 0x10000) / 1024) as u16, (0xdc00 + (n - 0x10000) % 1024) as u16]
    }
}

/// The UTF-16 units of a text.
pub open spec fn utf16(s: Seq<char>) -> Seq<u16>
    decreases s.len(),
{
    if s.len() == 0 {
        Seq::empty()
    } else {
        utf16(s.drop_last()) + units_of(s.last())
    }
}

fn push_units(out: &mut Vec<u16>, c: char)
    ensures
        final(out)@ == old(out)@ + units_of(c),
{
    let n: u32 = c as u32;
    if n < 0x10000 {
        out.push(n as u16);
    } else {
        let m: u32 = n - 0x10000;
        assert(m / 1024 <= 0x3ff);
        out.push((0xd800 + m / 1024) as u16);
        out.push((0xdc00 + m % 1024) as u16);
    }
    assert(out@ == old(out)@ + units_of(c));
}

fn push_utf16(out: &mut Vec<u16>, s: &str)
    ensures
        final(out)@ == old(out)@ + utf16(s@),
{
    let ghost start = out@;
    let v = chars_of(s);
    for i in 0..v.len()
        invariant
            v@ == s@,
            out@ == start + utf16(s@.take(i as int)),
    {
        let ghost before = out@;
        push_units(out, v[i]);
        proof {
            assert(out@ == before + units_of(v@[i as int]));
            assert(s@.take(i + 1).drop_last() == s@.take(i as int));
            assert(out@ == start + (utf16(s@.take(i as int)) + units_of(v@[i as int])));
        }
    }
    assert(s@.take(s@.len() as int) == s@);
}

/// A text as the system takes it: its units with a zero behind them.
pub fn null_terminated_utf16(value: &str) -> (r: Vec<u16>)
    ensures
        r@ == utf16(value@).push(0),
{
    let mut out: Vec<u16> = Vec::new();
    push_utf16(&mut out, value);
    assert(out@ == utf16(value@));
    out.push(0);
    out
}

// ---------------------------------------------------------------- files

/// Paths as units, each with a zero behind it.
pub open spec fn ended_paths(paths: Seq<Seq<char>>) -> Seq<u16>
    decreases paths.len(),
{
    if paths.len() == 0 {
        Seq::empty()
    } else {
        ended_paths(paths.drop_last()) + utf16(paths.last()).push(0)
    }
}

/// The header: where the paths start, no point, and that they are UTF-16.
pub open spec fn drop_header() -> Seq<u8> {
    le32(DROP_HEADER) + le32(0) + le32(0) + le32(0) + le32(1)
}

/// The bytes of a list of files: header, paths, and a zero behind all of them.
pub open spec fn drop_bytes(paths: Seq<Seq<char>>) -> Seq<u8> {
    drop_header() + le16_all(ended_paths(paths).push(0))
}

/// The bytes of a list of files for the clipboard; none for an empty list.
pub fn drop_files(paths: &Vec<String>) -> (r: Option<Vec<u8>>)
    ensures
        r is Some <==> paths@.len() > 0,
        r matches Some(bytes) ==> bytes@ == drop_bytes(views(paths@)),
{
    if paths.len() == 0 {
        return None;
    }
    let ghost all = views(paths@);
    let mut wide: Vec<u16> = Vec::new();
    assert(all.take(0) == Seq::<Seq<char>>::empty());
    for i in 0..paths.len()
        invariant
            all == views(paths@),
            wide@ == ended_paths(all.take(i as int)),
    {
        let ghost before = wide@;
        push_utf16(&mut wide, paths[i].as_str());
        wide.push(0);
        proof {
            assert(all[i as int] == paths@[i as int]@);
            assert(all.take(i + 1).drop_last() == all.take(i as int));
            assert(wide@ == before + utf16(all[i as int]).push(0));
        }
    }
    assert(all.take(all.len() as int) == all);
    wide.push(0);
    let mut out: Vec<u8> = Vec::new();
    push32(&mut out, DROP_HEADER);
    push32(&mut out, 0);
    push32(&mut out, 0);
    push32(&mut out, 0);
    push32(&mut out, 1);
    assert(out@ == drop_header());
    assert(wide@.take(0) == Seq::<u16>::empty());
    for i in 0..wide.len()
        invariant
            out@ == drop_header() + le16_all(wide@.take(i as int)),
    {
        push16(&mut out, wide[i]);
        proof {
            assert(wide@.take(i + 1).drop_last() == wide@.take(i as int));
            assert(out@ == drop_header() + (le16_all(wide@.take(i as int)) + le16(
                wide@[i as int],
            )));
        }
    }
    assert(wide@.take(wide@.len() as int) == wide@);
    Some(out)
}

// ---------------------------------------------------------------- pictures

/// The pixels of a picture with four bytes each, as the decoder reads them; a
/// message where it cannot.
pub uninterp spec fn decoded(file: Seq<u8>) -> Result<(u32, u32, Seq<u8>), Seq<char>>;

pub open spec fn decoded_view(r: Result<(u32, u32, Vec<u8>), String>) -> Result<
    (u32, u32, Seq<u8>),
    Seq<char>,
> {
    match r {
        Ok((w, h, v)) => Ok((w, h, v@)),
        Err(s) => Err(s@),
    }
}

/// Calls `load_from_memory` of the `image` crate and turns the picture into
/// eight bits each of red, green, blue and alpha with `DynamicImage::to_rgba8`.
/// The contract claims that the outcome depends on the bytes alone, as it does
/// where nobody registers decoding hooks with that crate, and that a picture has
/// four bytes for each pixel; it does not say which pixels a file stands for, or
/// which files cannot be read.
#[verifier::external_body]
pub(crate) fn decode_picture(file: &[u8]) -> (r: Result<(u32, u32, Vec<u8>), String>)
    ensures
        decoded_view(r) == decoded(file@),
        r is Ok ==> r->Ok_0.2@.len() == r->Ok_0.0 * r->Ok_0.1 * 4,
{
    match image::load_from_memory(file) {
        Ok(picture) => {
            let rgba = picture.to_rgba8();
            Ok((rgba.width(), rgba.height(), rgba.into_raw()))
        },
        Err(err) => Err(err.to_string()),
    }
}

/// Red and blue change places within each pixel.
pub open spec fn swapped(off: int) -> int {
    if off % 4 == 0 {
        off + 2
    } else if off % 4 == 2 {
        off - 2
    } else {
        off
    }
}

/// Pixels from top to bottom in red, green, blue, alpha, as pixels from bottom
/// to top in blue, green, red, alpha.
pub open spec fn flipped(width: nat, height: nat, rgba: Seq<u8>) -> Seq<u8> {
    let row = 4 * width;
    Seq::new(
        row * height,
        |i: int| rgba[(height - 1 - i / row as int) * row + swapped(i % row as int)],
    )
}

/// Turns pixels over for the clipboard, which wants the bottom row first and
/// blue first within each pixel.
pub fn to_bgra_bottom_up(width: u32, height: u32, rgba: &Vec<u8>) -> (r: Vec<u8>)
    requires
        rgba@.len() == width * height * 4,
    ensures
        r@ == flipped(width as nat, height as nat, rgba@),
{
    let n: usize = rgba.len();
    let mut out: Vec<u8> = Vec::new();
    if n == 0 {
        assert(4 * width * height == 0) by (nonlinear_arith)
            requires
                width * height * 4 == 0,
        ;
        assert(out@ == flipped(width as nat, height as nat, rgba@));
        return out;
    }
    let ghost whole = flipped(width as nat, height as nat, rgba@);
    proof {
        assert(width > 0 && height > 0 && 4 * width <= n && height <= n && (4 * width) * height
            == n) by (nonlinear_arith)
            requires
                width * height * 4 == n,
                n > 0,
                width >= 0,
                height >= 0,
        ;
    }
    let row: usize = 4 * width as usize;
    let mut top: usize = height as usize;
    while top > 0
        invariant
            n == rgba@.len(),
            row == 4 * width,
            row > 0,
            top <= height,
            row * height == n,
            whole == flipped(width as nat, height as nat, rgba@),
            whole.len() == n,
            out@ == whole.take(row * (height - top)),
        decreases top,
    {
        top = top - 1;
        let ghost done: int = row * (height - top - 1);
        assert(row * top + row <= n && done + row <= n && done >= 0) by (nonlinear_arith)
            requires
                row * height == n,
                0 <= top < height,
                done == row * (height - top - 1),
        ;
        let from: usize = row * top;
        for off in 0..row
            invariant
                n == rgba@.len(),
                row == 4 * width,
                row > 0,
                top < height,
                from == row * top,
                from + row <= n,
                done + row <= n,
                done >= 0,
                done == row * (height - top - 1),
                whole == flipped(width as nat, height as nat, rgba@),
                whole.len() == n,
                out@ == whole.take(done + off),
        {
            let at: usize = if off % 4 == 0 {
                off + 2
            } else if off % 4 == 2 {
                off - 2
            } else {
                off
            };
            assert(at == swapped(off as int));
            assert(at < row);
            proof {
                let i = done + off;
                let k = height - top - 1;
                assert(i / row as int == k && i % row as int == off as int) by (nonlinear_arith)
                    requires
                        i == row * k + off,
                        0 <= off < row,
                ;
                assert((height - 1 - k) * row == row * top) by (nonlinear_arith)
                    requires
                        k == height - top - 1,
                ;
                assert(whole[i] == rgba@[from + at]);
                assert(whole.take(i + 1) == whole.take(i).push(whole[i]));
            }
            out.push(rgba[from + at]);
        }
        assert(done + row == row * (height - top)) by (nonlinear_arith)
            requires
                done == row * (height - top - 1),
        ;
    }
    assert(whole.take(n as int) == whole);
    out
}

/// The header of a picture: its size, 32 bits per pixel with masks for the
/// colours, and the standard colour space.
pub open spec fn dib_header(width: u32, height: u32, size: u32) -> Seq<u8> {
    le32(DIB_HEADER) + le32(width) + le32(height) + le16(1) + le16(32) + le32(3) + le32(size)
        + zeros(16) + le32(0x00ff_0000) + le32(0x0000_ff00) + le32(0x0000_00ff) + le32(0xff00_0000)
        + le32(0x7352_4742) + zeros(64)
}

pub open spec fn zeros(n: nat) -> Seq<u8> {
    Seq::new(n, |i: int| 0u8)
}

/// The bytes of a picture for the clipboard.
pub open spec fn dib_bytes(width: u32, height: u32, rgba: Seq<u8>) -> Seq<u8> {
    let pixels = flipped(width as nat, height as nat, rgba);
    dib_header(width, height, pixels.len() as u32) + pixels
}

fn push_zeros(out: &mut Vec<u8>, n: u8)
    ensures
        final(out)@ == old(out)@ + zeros(n as nat),
{
    let ghost start = out@;
    for i in 0..n
        invariant
            out@ == start + zeros(i as nat),
    {
        out.push(0);
        assert(zeros((i + 1) as nat) == zeros(i as nat).push(0));
    }
}

/// The bytes of a picture for the clipboard.
pub fn dib_of(width: u32, height: u32, rgba: &Vec<u8>) -> (r: Vec<u8>)
    requires
        rgba@.len() == width * height * 4,
    ensures
        r@ == dib_bytes(width, height, rgba@),
{
    let pixels = to_bgra_bottom_up(width, height, rgba);
    let mut out: Vec<u8> = Vec::new();
    push32(&mut out, DIB_HEADER);
    push32(&mut out, width);
    push32(&mut out, height);
    push16(&mut out, 1);
    push16(&mut out, 32);
    push32(&mut out, 3);
    let size: usize = pixels.len();
    push32(
        &mut out,
        #[verifier::truncate]
        (size as u32),
    );
    push_zeros(&mut out, 16);
    push32(&mut out, 0x00ff_0000);
    push32(&mut out, 0x0000_ff00);
    push32(&mut out, 0x0000_00ff);
    push32(&mut out, 0xff00_0000);
    push32(&mut out, 0x7352_4742);
    push_zeros(&mut out, 64);
    assert(out@ == dib_header(width, height, pixels@.len() as u32));
    push_bytes(&mut out, &pixels);
    out
}

/// Turns a picture file into the bytes of the clipboard's own picture format.
/// The file itself goes to the clipboard as it is, in front of them.
pub fn dib_of_file(file: &[u8]) -> (r: Result<Vec<u8>, String>)
    ensures
        r is Ok <==> decoded(file@) is Ok,
        r matches Ok(bytes) ==> bytes@ == dib_bytes(
            decoded(file@)->Ok_0.0,
            decoded(file@)->Ok_0.1,
            decoded(file@)->Ok_0.2,
        ),
        r matches Err(text) ==> text@ == "解码图像失败: "@ + decoded(file@)->Err_0,
{
    match decode_picture(file) {
        Ok((width, height, rgba)) => Ok(dib_of(width, height, &rgba)),
        Err(detail) => {
            let mut text = "解码图像失败: ".to_owned();
            text.push_str(detail.as_str());
            Err(text)
        },
    }
}

// ---------------------------------------------------------------- laws

/// Each header has the length that it states in its first number.
pub proof fn headers_have_their_stated_length(width: u32, height: u32, size: u32)
    ensures
        drop_header().len() == DROP_HEADER,
        drop_header().take(4) == le32(DROP_HEADER),
        dib_header(width, height, size).len() == DIB_HEADER,
        dib_header(width, height, size).take(4) == le32(DIB_HEADER),
{
    assert(drop_header().take(4) == le32(DROP_HEADER));
    assert(dib_header(width, height, size).take(4) == le32(DIB_HEADER));
}

/// Turning pixels over twice gives back the pixels.
pub proof fn flipping_twice_restores(width: nat, height: nat, rgba: Seq<u8>)
    requires
        rgba.len() == 4 * width * height,
    ensures
        flipped(width, height, flipped(width, height, rgba)) == rgba,
{
    let row = 4 * width;
    let once = flipped(width, height, rgba);
    let twice = flipped(width, height, once);
    assert(row * height == 4 * width * height) by (nonlinear_arith)
        requires
            row == 4 * width,
    ;
    assert forall|i: int| 0 <= i < rgba.len() implies #[trigger] twice[i] == rgba[i] by {
        assert(row > 0) by (nonlinear_arith)
            requires
                0 <= i < row * height,
                row >= 0,
        ;
        let k = i / row as int;
        let off = i % row as int;
        assert(i == row * k + off && 0 <= off < row && 0 <= k < height) by (nonlinear_arith)
            requires
                k == i / row as int,
                off == i % row as int,
                row > 0,
                0 <= i < row * height,
        ;
        let at = swapped(off);
        assert(0 <= at < row);
        assert(swapped(at) == off);
        let j = (height - 1 - k) * row + at;
        assert(0 <= j < row * height && j / row as int == height - 1 - k && j % row as int == at)
            by (nonlinear_arith)
            requires
                j == (height - 1 - k) * row + at,
                0 <= at < row,
                0 <= k < height,
        ;
        assert(twice[i] == once[j]);
        assert((height - 1 - (height - 1 - k)) * row == row * k) by (nonlinear_arith);
        assert(once[j] == rgba[row * k + swapped(at)]);
    }
}

} // verus!
