//! Pictures from the clipboard: which are kept, their files and thumbnails.

use crate::clip::{fingerprint_bytes, fnv1a, signed_bits};
use crate::clip_write::{decode_picture, decoded, swapped};
use crate::order::{lemma_survivors, survivors};
use crate::path::{
    drive_at, extension, extension_of, is_separator, join_name, joined, last_dot, lies_in, parent_of,
    parts_of,
};
use crate::path_laws::{is_plain_name, joined_name_lies_in_directory, keeps_names};
use crate::rounding::{
    as_double, lemma_double_is_close, lemma_nearest_at_most, lemma_nearest_is_close, nearest,
    round_nearest, to_double, EXACT,
};
use crate::text::{
    ascii_lower_all, chars_of, decimal, hex_digit, list_contains, lower_chars, occurs_at,
    push_decimal, same_chars, stands_at, views,
};
use vstd::arithmetic::power2::{
    lemma2_to64, lemma2_to64_rest, lemma_pow2_adds, lemma_pow2_pos, lemma_pow2_unfold, pow2,
};
use vstd::prelude::*;

verus! {

/// Larger pictures are not kept.
pub const MAX_IMAGE_PIXELS: u64 = 16_777_216;

/// The longest edge of a thumbnail.
pub const THUMB_MAX_EDGE: u32 = 128;

// ---------------------------------------------------------------- sizes as text

/// A number of tenths with one digit after the point.
pub open spec fn tenths_text(t: nat) -> Seq<char> {
    decimal(t / 10) + seq!['.'] + decimal(t % 10)
}

/// A size in bytes as people read it.
pub open spec fn size_text(bytes: nat) -> Seq<char> {
    if bytes < 1024 {
        decimal(bytes) + " B"@
    } else if bytes < 1_048_576 {
        tenths_text(nearest(10 * bytes, 1024)) + " KB"@
    } else {
        tenths_text(nearest(10 * as_double(bytes), 1_048_576)) + " MB"@
    }
}

fn push_tenths(s: &mut String, t: u128)
    ensures
        final(s)@ == old(s)@ + tenths_text(t as nat),
{
    push_decimal(s, t / 10);
    s.push('.');
    push_decimal(s, t % 10);
    assert(s@ == old(s)@ + tenths_text(t as nat));
}

/// A size in bytes as people read it: bytes, kilobytes or megabytes, the
/// latter two with one digit after the point.
pub fn human_size(bytes: usize) -> (r: String)
    ensures
        r@ == size_text(bytes as nat),
{
    let mut s = String::new();
    let n: u128 = bytes as u128;
    if n < 1024 {
        push_decimal(&mut s, n);
        s.push_str(" B");
    } else if n < 1_048_576 {
        push_tenths(&mut s, round_nearest(10 * n, 1024));
        s.push_str(" KB");
    } else {
        push_tenths(&mut s, round_nearest(10 * to_double(n), 1_048_576));
        s.push_str(" MB");
    }
    assert(s@ == size_text(bytes as nat));
    s
}

// ---------------------------------------------------------------- file names

/// The last `count` hexadecimal digits of `n`.
pub open spec fn hex_digits(n: nat, count: nat) -> Seq<char>
    decreases count,
{
    if count == 0 {
        Seq::empty()
    } else {
        hex_digits(n / 16, (count - 1) as nat).push(hex_digit(n % 16))
    }
}

/// The bits of a signed number, read as an unsigned one.
pub open spec fn unsigned_bits(h: i64) -> nat {
    if h < 0 {
        (h + 0x1_0000_0000_0000_0000) as nat
    } else {
        h as nat
    }
}

/// The file name of the picture with the given fingerprint.
pub open spec fn picture_name(hash: i64) -> Seq<char> {
    hex_digits(unsigned_bits(hash), 16) + ".png"@
}

fn push_hex(s: &mut String, n: u64, count: u8)
    ensures
        final(s)@ == old(s)@ + hex_digits(n as nat, count as nat),
    decreases count,
{
    if count > 0 {
        push_hex(s, n / 16, count - 1);
        let d: u8 = (n % 16) as u8;
        s.push(
            if d < 10 {
                (48 + d) as char
            } else {
                (87 + d) as char
            },
        );
    }
    assert(s@ == old(s)@ + hex_digits(n as nat, count as nat));
}

/// The file name of the picture with the given fingerprint.
pub fn picture_file_name(hash: i64) -> (r: String)
    ensures
        r@ == picture_name(hash),
{
    let bits: u64 = if hash < 0 {
        (hash as i128 + 0x1_0000_0000_0000_0000) as u64
    } else {
        hash as u64
    };
    let mut s = String::new();
    push_hex(&mut s, bits, 16);
    s.push_str(".png");
    assert(s@ == picture_name(hash));
    s
}

/// Whether `path` names a picture file of the pictures directory `dir`.
pub open spec fn is_managed(dir: Seq<char>, path: Seq<char>) -> bool {
    &&& parent_of(path) == Some(parts_of(dir))
    &&& extension_of(path) is Some
    &&& ascii_lower_all(extension_of(path)->0) == seq!['p', 'n', 'g']
}

/// Whether `image_path` names a picture file of the pictures directory, so
/// that it may be removed: nothing outside is ever touched.
pub fn is_managed_image_path(images_dir: &str, image_path: &str) -> (r: bool)
    ensures
        r == is_managed(images_dir@, image_path@),
{
    if !lies_in(images_dir, image_path) {
        return false;
    }
    match extension(image_path) {
        Some(ext) => {
            let v = chars_of(ext.as_str());
            let small = lower_chars(&v);
            let want: Vec<char> = vec!['p', 'n', 'g'];
            assert(want@ == seq!['p', 'n', 'g']);
            same_chars(&small, &want)
        },
        None => false,
    }
}

/// Whether a file in the pictures directory belongs to no entry.
pub open spec fn is_orphan(keep: Seq<Seq<char>>, name: Seq<char>) -> bool {
    occurs_at(name, ".png"@, name.len() - 4) && !keep.contains(name)
}

/// The files among `names` in the pictures directory that belong to no entry:
/// those that end in `.png` and are not in `keep`.
pub fn orphan_images(keep: &Vec<String>, names: &Vec<String>) -> (r: Vec<String>)
    ensures
        views(r@) == survivors(
            views(names@),
            |n: Seq<char>| is_orphan(views(keep@), n),
        ),
{
    let ghost f = |n: Seq<char>| is_orphan(views(keep@), n);
    let ghost all = views(names@);
    let mut out: Vec<String> = Vec::new();
    let end = chars_of(".png");
    proof {
        reveal_strlit(".png");
        assert(all.take(0) == Seq::<Seq<char>>::empty());
    }
    for i in 0..names.len()
        invariant
            f == |n: Seq<char>| is_orphan(views(keep@), n),
            all == views(names@),
            end@ == ".png"@,
            end@.len() == 4,
            views(out@) == survivors(all.take(i as int), f),
    {
        let v = chars_of(names[i].as_str());
        proof {
            assert(all[i as int] == names@[i as int]@);
            assert(all.take(i + 1).drop_last() == all.take(i as int));
        }
        if v.len() >= 4 && stands_at(&v, &end, v.len() - 4) && !list_contains(
            keep,
            names[i].as_str(),
        ) {
            let ghost before = views(out@);
            out.push(names[i].clone());
            assert(views(out@) == before.push(names@[i as int]@));
        }
    }
    assert(all.take(all.len() as int) == all);
    out
}

// ---------------------------------------------------------------- encoding

/// The PNG file that the encoder makes of a picture of four bytes per pixel.
pub uninterp spec fn encoded_png(width: u32, height: u32, rgba: Seq<u8>) -> Option<Seq<u8>>;

/// The pixels of a picture resampled to another size with a triangle filter.
pub uninterp spec fn resized(
    width: u32,
    height: u32,
    rgba: Seq<u8>,
    to_width: u32,
    to_height: u32,
) -> Seq<u8>;

pub open spec fn bytes_of(o: Option<Vec<u8>>) -> Option<Seq<u8>> {
    match o {
        Some(v) => Some(v@),
        None => None,
    }
}

/// The decoder reads a picture of this size and these pixels from the file.
pub open spec fn reads_as(file: Seq<u8>, width: u32, height: u32, rgba: Seq<u8>) -> bool {
    decoded(file) matches Ok(picture) && picture == (width, height, rgba)
}

/// Calls `ImageBuffer::write_to` of the `image` crate for PNG, on a buffer made
/// by `ImageBuffer::from_raw`. The contract claims that the file depends on
/// size and pixels alone, and that the format loses nothing: the decoder reads
/// the same size and pixels from the file. That is claimed up to 64 MiB of
/// pixels, well within what the decoder allows itself to allocate. The contract
/// does not say which bytes the file holds, or for which pictures encoding
/// fails.
#[verifier::external_body]
fn encode_png(width: u32, height: u32, rgba: &Vec<u8>) -> (r: Option<Vec<u8>>)
    requires
        rgba@.len() == width * height * 4,
    ensures
        bytes_of(r) == encoded_png(width, height, rgba@),
        r is Some && rgba@.len() <= 0x400_0000 ==> reads_as(r->0@, width, height, rgba@),
{
    let buffer = image::RgbaImage::from_raw(width, height, rgba.clone())?;
    let mut png = Vec::new();
    buffer.write_to(&mut std::io::Cursor::new(&mut png), image::ImageFormat::Png).ok()?;
    Some(png)
}

/// Calls `imageops::resize` of the `image` crate with the triangle filter, on a
/// buffer made by `ImageBuffer::from_raw`. The contract claims that the result
/// depends on the arguments alone and has the size asked for; it does not say
/// which colours the pixels get. Resampling weighs pixels in single precision,
/// where sizes beyond some millions run together and no pixel may get any
/// weight; the bound on the edges asked for keeps well away from that. The other
/// bounds are what the buffers in between take.
#[verifier::external_body]
fn resize_rgba(width: u32, height: u32, rgba: &Vec<u8>, to_width: u32, to_height: u32) -> (r:
    Option<Vec<u8>>)
    requires
        width > 0,
        height > 0,
        rgba@.len() == width * height * 4,
        to_width <= 1024,
        to_height <= 1024,
        width * height * 16 <= isize::MAX,
        width * to_height * 16 <= isize::MAX,
    ensures
        bytes_of(r) == Some(resized(width, height, rgba@, to_width, to_height)),
        r->0@.len() == to_width * to_height * 4,
{
    let buffer = image::RgbaImage::from_raw(width, height, rgba.clone())?;
    let filter = image::imageops::FilterType::Triangle;
    Some(image::imageops::resize(&buffer, to_width, to_height, filter).into_raw())
}

// ---------------------------------------------------------------- fitting

/// How often the longest edge must be halved to be within the limit.
pub open spec fn halvings(limit: nat, longest: nat) -> nat
    decreases longest,
{
    if longest <= limit || longest <= 1 {
        0
    } else {
        1 + halvings(limit, (longest + 1) / 2)
    }
}

/// The 53 binary digits of the scale `limit / longest` in double precision; the
/// point stands `52 + halvings(limit, longest)` digits from the right.
pub open spec fn scale_digits(limit: nat, longest: nat) -> nat {
    nearest(limit * pow2(52 + halvings(limit, longest)), longest)
}

/// The length of an edge after a picture with the given longest edge is fitted
/// to the limit: scaled in double precision and rounded, ties away from zero.
/// Small pictures keep their size.
pub open spec fn fitted_edge(limit: nat, edge: nat, longest: nat) -> nat {
    if longest <= limit {
        edge
    } else {
        let e = halvings(limit, longest);
        (as_double(edge * scale_digits(limit, longest)) + pow2(51 + e)) / pow2(52 + e)
    }
}

/// The length of an edge after a picture is fitted to the limit.
pub fn fit_edge(limit: u32, edge: u32, longest: u32) -> (r: u32)
    requires
        128 <= limit <= 1024,
        0 < edge <= longest,
    ensures
        r == fitted_edge(limit as nat, edge as nat, longest as nat),
        r <= edge,
        longest > limit ==> r <= limit,
{
    if longest <= limit {
        return edge;
    }
    let mut m: u32 = longest;
    let mut unit: u128 = 0x10_0000_0000_0000;
    let ghost mut e: nat = 0;
    let ghost mut room: nat = pow2(32);
    proof {
        lemma2_to64();
        lemma2_to64_rest();
    }
    while m > limit
        invariant
            128 <= limit <= 1024,
            m >= 1,
            e <= 25,
            halvings(limit as nat, longest as nat) == e + halvings(limit as nat, m as nat),
            unit == pow2(52 + e),
            unit >= 0x10_0000_0000_0000,
            room == pow2((32 - e) as nat),
            m <= room,
            unit * room == 0x10_0000_0000_0000_0000_0000u128,
        decreases m,
    {
        proof {
            lemma2_to64();
            assert(e < 25);
            lemma_pow2_unfold(53 + e);
            lemma_pow2_unfold((32 - e) as nat);
            lemma_pow2_pos((31 - e) as nat);
            let half = pow2((31 - e) as nat);
            assert((2 * unit) * half == unit * room && unit <= unit * room) by (nonlinear_arith)
                requires
                    room == 2 * half,
                    half > 0,
                    unit > 0,
            ;
            e = e + 1;
            room = half;
        }
        m = (m - 1) / 2 + 1;
        unit = 2 * unit;
    }
    proof {
        lemma2_to64();
        lemma_pow2_unfold(52 + e);
        lemma_pow2_pos(51 + e);
        lemma_pow2_pos((32 - e) as nat);
        assert(unit <= unit * room) by (nonlinear_arith)
            requires
                room > 0,
                unit > 0,
        ;
        assert(limit * unit <= 1024 * unit) by (nonlinear_arith)
            requires
                limit <= 1024,
                unit > 0,
        ;
    }
    let scaled: u128 = limit as u128 * unit;
    assert(scaled == limit as nat * pow2(52 + halvings(limit as nat, longest as nat)));
    let digits = round_nearest(scaled, longest as u128);
    proof {
        let q = (scaled / longest as u128) as int;
        assert(q * longest <= scaled) by (nonlinear_arith)
            requires
                q == scaled as int / longest as int,
                longest > 0,
        ;
        assert(edge * digits <= scaled + edge) by (nonlinear_arith)
            requires
                digits <= q + 1,
                q * longest <= scaled,
                edge <= longest,
                q >= 0,
                digits >= 0,
        ;
    }
    let product: u128 = edge as u128 * digits;
    let value = to_double(product);
    assert(unit / 2 == pow2(51 + e));
    let sum: u128 = value + unit / 2;
    let out: u128 = sum / unit;
    proof {
        let k = unit as nat;
        assert(limit as nat * k <= longest as nat * k) by (nonlinear_arith)
            requires
                limit <= longest,
        ;
        lemma_nearest_at_most(scaled as nat, longest as nat, k);
        lemma_double_is_close(product as nat);
        assert(product <= edge * unit) by (nonlinear_arith)
            requires
                product == edge * digits,
                digits <= unit,
        ;
        assert(2 * value < 2 * edge * unit + unit) by (nonlinear_arith)
            requires
                value * EXACT <= product * EXACT + product,
                product <= edge * unit,
                2 * edge < EXACT,
                unit > 0,
        ;
        assert(out <= edge) by (nonlinear_arith)
            requires
                out == sum as int / unit as int,
                2 * sum <= 2 * value + unit,
                2 * value < 2 * edge * unit + unit,
                unit > 0,
        ;
        lemma_fitted_within(limit as nat, edge, longest);
    }
    out as u32
}

// ---------------------------------------------------------------- keeping a picture

/// Whether a picture is kept: it has pixels, four bytes for each, and not too
/// many.
pub open spec fn picture_accepted(width: u32, height: u32, len: nat) -> bool {
    &&& width > 0
    &&& height > 0
    &&& len == width * height * 4
    &&& width * height <= MAX_IMAGE_PIXELS
}

/// The summary line of a picture.
pub open spec fn picture_preview(width: u32, height: u32, png_len: nat) -> Seq<char> {
    decimal(width as nat) + "×"@ + decimal(height as nat) + " · "@ + size_text(png_len)
}

/// The file of a picture and what the history keeps of it.
#[derive(Debug, Clone)]
pub struct PictureFile {
    pub hash: i64,
    pub path: String,
    pub preview: String,
    pub png: Vec<u8>,
}

impl PictureFile {
    /// This is the file in `dir` of a picture whose encoded form is `png`.
    pub open spec fn describes(
        &self,
        dir: Seq<char>,
        width: u32,
        height: u32,
        rgba: Seq<u8>,
        png: Seq<u8>,
    ) -> bool {
        &&& self.hash == signed_bits(fnv1a(rgba))
        &&& self.path@ == joined(dir, picture_name(self.hash))
        &&& self.preview@ == picture_preview(width, height, png.len())
        &&& self.png@ == png
    }
}

/// Whether a picture of this size, with pixels of this length, is kept.
pub fn accepts_picture(width: u32, height: u32, len: usize) -> (r: bool)
    ensures
        r == picture_accepted(width, height, len as nat),
{
    assert(width * height <= 0xffff_ffff * 0xffff_ffff) by (nonlinear_arith)
        requires
            width <= 0xffff_ffff,
            height <= 0xffff_ffff,
    ;
    let pixels: u64 = width as u64 * height as u64;
    width > 0 && height > 0 && len as u128 == pixels as u128 * 4 && pixels <= MAX_IMAGE_PIXELS
}

/// The file in `dir` of a picture, given its encoded form.
pub fn picture_file_from(dir: &str, width: u32, height: u32, rgba: &Vec<u8>, png: Vec<u8>) -> (r:
    PictureFile)
    ensures
        r.describes(dir@, width, height, rgba@, png@),
{
    let hash = fingerprint_bytes(rgba);
    let name = picture_file_name(hash);
    let path = join_name(dir, name.as_str());
    let mut preview = String::new();
    push_decimal(&mut preview, width as u128);
    preview.push_str("×");
    push_decimal(&mut preview, height as u128);
    preview.push_str(" · ");
    let size = human_size(png.len());
    preview.push_str(size.as_str());
    assert(preview@ == picture_preview(width, height, png@.len()));
    PictureFile { hash, path, preview, png }
}

/// The file in `dir` of a picture from the clipboard; none where the picture
/// is not kept or cannot be encoded. Sizes count modulo two to the power 32.
/// The picture can be read back from the file without loss.
pub fn picture_file(dir: &str, width: usize, height: usize, rgba: &Vec<u8>) -> (r: Option<
    PictureFile,
>)
    ensures
        r is Some <==> picture_accepted(width as u32, height as u32, rgba@.len()) && encoded_png(
            width as u32,
            height as u32,
            rgba@,
        ) is Some,
        r matches Some(file) ==> file.describes(
            dir@,
            width as u32,
            height as u32,
            rgba@,
            encoded_png(width as u32, height as u32, rgba@)->0,
        ),
        r matches Some(file) ==> reads_as(file.png@, width as u32, height as u32, rgba@),
{
    let width: u32 = #[verifier::truncate]
    (width as u32);
    let height: u32 = #[verifier::truncate]
    (height as u32);
    if !accepts_picture(width, height, rgba.len()) {
        return None;
    }
    match encode_png(width, height, rgba) {
        Some(png) => Some(picture_file_from(dir, width, height, rgba, png)),
        None => None,
    }
}

pub open spec fn longer(width: u32, height: u32) -> u32 {
    if width > height {
        width
    } else {
        height
    }
}

/// The size of a picture fitted to the limit.
pub open spec fn fitted_size(limit: u32, width: u32, height: u32) -> (u32, u32) {
    let longest = longer(width, height) as nat;
    (
        fitted_edge(limit as nat, width as nat, longest) as u32,
        fitted_edge(limit as nat, height as nat, longest) as u32,
    )
}

/// The size of a picture fitted to the limit.
pub fn fit_size(limit: u32, width: u32, height: u32) -> (r: (u32, u32))
    requires
        128 <= limit <= 1024,
        width > 0,
        height > 0,
    ensures
        r == fitted_size(limit, width, height),
        r.0 <= width,
        r.1 <= height,
        longer(width, height) > limit ==> r.0 <= limit && r.1 <= limit,
{
    let longest: u32 = if width > height {
        width
    } else {
        height
    };
    (fit_edge(limit, width, longest), fit_edge(limit, height, longest))
}

/// The size and the pixels of a picture's thumbnail.
pub open spec fn thumb_pixels(width: u32, height: u32, rgba: Seq<u8>) -> (u32, u32, Seq<u8>) {
    if width <= THUMB_MAX_EDGE && height <= THUMB_MAX_EDGE {
        (width, height, rgba)
    } else {
        let (w, h) = fitted_size(THUMB_MAX_EDGE, width, height);
        (w, h, resized(width, height, rgba, w, h))
    }
}

/// The encoded thumbnail of a picture.
pub open spec fn thumb_png(width: u32, height: u32, rgba: Seq<u8>) -> Option<Seq<u8>> {
    let (w, h, pixels) = thumb_pixels(width, height, rgba);
    encoded_png(w, h, pixels)
}

/// The encoded thumbnail of a picture that is kept; none where it cannot be
/// encoded. The thumbnail can be read back from it without loss.
pub fn thumbnail(width: usize, height: usize, rgba: &Vec<u8>) -> (r: Option<Vec<u8>>)
    ensures
        bytes_of(r) == if picture_accepted(width as u32, height as u32, rgba@.len()) {
            thumb_png(width as u32, height as u32, rgba@)
        } else {
            None
        },
        r matches Some(png) ==> {
            let (w, h, pixels) = thumb_pixels(width as u32, height as u32, rgba@);
            reads_as(png@, w, h, pixels)
        },
{
    let width: u32 = #[verifier::truncate]
    (width as u32);
    let height: u32 = #[verifier::truncate]
    (height as u32);
    if !accepts_picture(width, height, rgba.len()) {
        return None;
    }
    if width <= THUMB_MAX_EDGE && height <= THUMB_MAX_EDGE {
        return encode_png(width, height, rgba);
    }
    let (w, h) = fit_size(THUMB_MAX_EDGE, width, height);
    assert(width * h <= width * height && w * h <= width * height) by (nonlinear_arith)
        requires
            w <= width,
            h <= height,
    ;
    match resize_rgba(width, height, rgba, w, h) {
        Some(small) => encode_png(w, h, &small),
        None => None,
    }
}

// ---------------------------------------------------------------- pictures to draw

/// The longest edge of a picture shown large.
pub const PREVIEW_MAX_EDGE: u32 = 640;

/// Pixels with red and blue exchanged, as they are drawn.
pub open spec fn drawn(rgba: Seq<u8>) -> Seq<u8> {
    Seq::new(rgba.len(), |i: int| rgba[swapped(i)])
}

/// Exchanges red and blue.
pub fn to_drawn(rgba: &Vec<u8>) -> (r: Vec<u8>)
    requires
        rgba@.len() % 4 == 0,
    ensures
        r@ == drawn(rgba@),
{
    let n: usize = rgba.len();
    let mut out: Vec<u8> = Vec::new();
    for i in 0..n
        invariant
            n == rgba@.len(),
            n % 4 == 0,
            out@ == drawn(rgba@).take(i as int),
    {
        let at: usize = if i % 4 == 0 {
            i + 2
        } else if i % 4 == 2 {
            i - 2
        } else {
            i
        };
        out.push(rgba[at]);
        assert(drawn(rgba@).take(i + 1) == drawn(rgba@).take(i as int).push(rgba@[at as int]));
    }
    assert(drawn(rgba@).take(n as int) == drawn(rgba@));
    out
}

/// A picture to draw: its size and pixels.
#[derive(Debug, Clone)]
pub struct DrawnPicture {
    pub width: u32,
    pub height: u32,
    pub pixels: Vec<u8>,
}

impl DrawnPicture {
    pub open spec fn is(&self, width: u32, height: u32, rgba: Seq<u8>) -> bool {
        self.width == width && self.height == height && self.pixels@ == drawn(rgba)
    }
}

/// A thumbnail to draw; none where it cannot be read.
pub fn thumb_picture(file: &[u8]) -> (r: Option<DrawnPicture>)
    ensures
        r is Some <==> decoded(file@) is Ok,
        r matches Some(p) ==> p.is(
            decoded(file@)->Ok_0.0,
            decoded(file@)->Ok_0.1,
            decoded(file@)->Ok_0.2,
        ),
{
    match decode_picture(file) {
        Ok((width, height, rgba)) => {
            assert(rgba@.len() % 4 == 0) by (nonlinear_arith)
                requires
                    rgba@.len() == width * height * 4,
            ;
            Some(DrawnPicture { width, height, pixels: to_drawn(&rgba) })
        },
        Err(_) => None,
    }
}

pub open spec fn at_least_one(n: u32) -> u32 {
    if n == 0 {
        1
    } else {
        n
    }
}

/// Whether a picture of this length is too long to be resampled on this
/// machine.
pub open spec fn too_long_to_fit(len: nat) -> bool {
    len * 4 > isize::MAX
}

/// Whether a decoded picture is shown as it is.
pub open spec fn shown_unscaled(width: u32, height: u32) -> bool {
    width == 0 || height == 0 || longer(width, height) <= PREVIEW_MAX_EDGE
}

/// This is a decoded picture shown large: fitted to the limit, each edge at
/// least one pixel.
pub open spec fn is_preview(p: DrawnPicture, width: u32, height: u32, rgba: Seq<u8>) -> bool {
    if shown_unscaled(width, height) {
        p.is(width, height, rgba)
    } else {
        let (fw, fh) = fitted_size(PREVIEW_MAX_EDGE, width, height);
        let w = at_least_one(fw);
        let h = at_least_one(fh);
        p.is(w, h, resized(width, height, rgba, w, h))
    }
}

/// A decoded picture shown large; none where it is too long for the machine.
pub fn preview_from(width: u32, height: u32, rgba: &Vec<u8>) -> (r: Option<DrawnPicture>)
    requires
        rgba@.len() == width * height * 4,
    ensures
        r is Some <==> shown_unscaled(width, height) || !too_long_to_fit(rgba@.len()),
        r matches Some(p) ==> is_preview(p, width, height, rgba@),
{
    assert(rgba@.len() % 4 == 0) by (nonlinear_arith)
        requires
            rgba@.len() == width * height * 4,
    ;
    if width == 0 || height == 0 || (width <= PREVIEW_MAX_EDGE && height <= PREVIEW_MAX_EDGE) {
        return Some(DrawnPicture { width, height, pixels: to_drawn(rgba) });
    }
    let n: usize = rgba.len();
    if n as u128 * 4 > isize::MAX as u128 {
        return None;
    }
    let (fw, fh) = fit_size(PREVIEW_MAX_EDGE, width, height);
    let w: u32 = if fw == 0 {
        1
    } else {
        fw
    };
    let h: u32 = if fh == 0 {
        1
    } else {
        fh
    };
    assert(width * h <= width * height && w * h <= width * height) by (nonlinear_arith)
        requires
            w <= width,
            h <= height,
    ;
    match resize_rgba(width, height, rgba, w, h) {
        Some(small) => {
            assert(small@.len() % 4 == 0) by (nonlinear_arith)
                requires
                    small@.len() == w * h * 4,
            ;
            Some(DrawnPicture { width: w, height: h, pixels: to_drawn(&small) })
        },
        None => None,
    }
}

/// A picture file shown large; none where it cannot be read.
pub fn preview_picture(file: &[u8]) -> (r: Option<DrawnPicture>)
    ensures
        r is Some <==> decoded(file@) is Ok && (shown_unscaled(
            decoded(file@)->Ok_0.0,
            decoded(file@)->Ok_0.1,
        ) || !too_long_to_fit(decoded(file@)->Ok_0.2.len())),
        r matches Some(p) ==> is_preview(
            p,
            decoded(file@)->Ok_0.0,
            decoded(file@)->Ok_0.1,
            decoded(file@)->Ok_0.2,
        ),
{
    match decode_picture(file) {
        Ok((width, height, rgba)) => preview_from(width, height, &rgba),
        Err(_) => None,
    }
}

// ---------------------------------------------------------------- laws

proof fn lemma_hex_digits(n: nat, count: nat)
    ensures
        hex_digits(n, count).len() == count,
        forall|i: int|
            0 <= i < count ==> {
                let c = #[trigger] hex_digits(n, count)[i];
                ('0' <= c && c <= '9') || ('a' <= c && c <= 'f')
            },
    decreases count,
{
    if count > 0 {
        lemma_hex_digits(n / 16, (count - 1) as nat);
    }
}

/// How far the scaled longest edge of a picture that is too large lies from the
/// limit, in units of the scale.
pub proof fn lemma_scaled_longest(limit: nat, longest: u32)
    requires
        128 <= limit <= 1024,
        longest > limit,
    ensures
        ({
            let m = longest as nat;
            let u = pow2(52 + halvings(limit, m));
            let p = m * scale_digits(limit, m);
            &&& u >= 0x20_0000_0000_0000
            &&& u == 2 * pow2(51 + halvings(limit, m))
            &&& limit * u <= 1024 * u
            &&& 2 * p <= 2 * (limit * u) + m
            &&& 2 * p >= 2 * (limit * u) - m
        }),
{
    let m = longest as nat;
    let e = halvings(limit, m);
    let u = pow2(52 + e);
    let digits = scale_digits(limit, m);
    lemma2_to64();
    lemma2_to64_rest();
    lemma_pow2_unfold(52 + e);
    lemma_pow2_adds(53, (e - 1) as nat);
    lemma_pow2_pos((e - 1) as nat);
    assert(u >= 0x20_0000_0000_0000) by (nonlinear_arith)
        requires
            u == 0x20_0000_0000_0000 * pow2((e - 1) as nat),
            pow2((e - 1) as nat) > 0,
    ;
    lemma_nearest_is_close(limit * u, m);
    assert(digits * m == m * digits) by (nonlinear_arith);
    assert(limit * u <= 1024 * u) by (nonlinear_arith)
        requires
            limit <= 1024,
    ;
}

/// No edge of a picture that is too large is longer than the limit once fitted.
pub proof fn lemma_fitted_within(limit: nat, edge: u32, longest: u32)
    requires
        128 <= limit <= 1024,
        longest > limit,
        edge <= longest,
    ensures
        fitted_edge(limit, edge as nat, longest as nat) <= limit,
{
    let m = longest as nat;
    let e = halvings(limit, m);
    let u = pow2(52 + e);
    let half = pow2(51 + e);
    let digits = scale_digits(limit, m);
    let p = edge as nat * digits;
    let v = as_double(p);
    let goal = limit * u;
    lemma_scaled_longest(limit, longest);
    lemma_double_is_close(p);
    assert(p <= m * digits) by (nonlinear_arith)
        requires
            p == edge as nat * digits,
            edge <= m,
    ;
    assert(2 * v < 2 * goal + u) by (nonlinear_arith)
        requires
            v * EXACT <= p * EXACT + p,
            2 * p <= 2 * goal + m,
            goal <= 1024 * u,
            m <= 0xffff_ffff,
            u >= 0x20_0000_0000_0000,
    ;
    assert((v + half) / u <= limit) by (nonlinear_arith)
        requires
            u == 2 * half,
            2 * v < 2 * goal + u,
            goal == limit * u,
            u > 0,
    ;
}

/// The longest edge of a picture that is too large is fitted exactly to the
/// limit.
pub proof fn longest_edge_fits_exactly(limit: nat, longest: u32)
    requires
        128 <= limit <= 1024,
        longest > limit,
    ensures
        fitted_edge(limit, longest as nat, longest as nat) == limit,
{
    let m = longest as nat;
    let e = halvings(limit, m);
    let u = pow2(52 + e);
    let half = pow2(51 + e);
    let p = m * scale_digits(limit, m);
    let v = as_double(p);
    let goal = limit * u;
    lemma_scaled_longest(limit, longest);
    lemma_double_is_close(p);
    assert(2 * v < 2 * goal + u && 2 * v > 2 * goal - u) by (nonlinear_arith)
        requires
            v * EXACT <= p * EXACT + p,
            v * EXACT >= p * EXACT - p,
            2 * p <= 2 * goal + m,
            2 * p >= 2 * goal - m,
            goal <= 1024 * u,
            m <= 0xffff_ffff,
            u >= 0x20_0000_0000_0000,
    ;
    assert((v + half) / u == limit) by (nonlinear_arith)
        requires
            u == 2 * half,
            2 * v < 2 * goal + u,
            2 * v > 2 * goal - u,
            goal == limit * u,
            u > 0,
    ;
}

/// The file of a kept picture is recognised as a picture file of its
/// directory: it can always be cleaned up again.
pub proof fn kept_pictures_are_managed(dir: Seq<char>, hash: i64)
    requires
        keeps_names(dir),
    ensures
        is_managed(dir, joined(dir, picture_name(hash))),
{
    let name = picture_name(hash);
    let digits = hex_digits(unsigned_bits(hash), 16);
    reveal_strlit(".png");
    lemma_hex_digits(unsigned_bits(hash), 16);
    assert(name.len() == 20);
    assert(name[16] == '.' && name[17] == 'p' && name[18] == 'n' && name[19] == 'g');
    assert forall|i: int| 0 <= i < name.len() implies !is_separator(#[trigger] name[i], false) by {
        if i < 16 {
            assert(name[i] == digits[i]);
        }
    }
    assert(is_plain_name(name)) by {
        assert(name.len() != seq!['.'].len());
        assert(name.len() != seq!['.', '.'].len());
    }
    assert(!drive_at(name, 0)) by {
        assert(name[1] == digits[1]);
    }
    joined_name_lies_in_directory(dir, name);
    let a = name.drop_last();
    let b = a.drop_last();
    let c = b.drop_last();
    assert(name.last() == 'g');
    assert(a.last() == 'n');
    assert(b.last() == 'p');
    assert(c.last() == '.');
    assert(last_dot(c) == 16);
    assert(last_dot(b) == 16);
    assert(last_dot(a) == 16);
    assert(last_dot(name) == 16);
    assert(name.skip(17) == seq!['p', 'n', 'g']);
    assert(ascii_lower_all(seq!['p', 'n', 'g']) == seq!['p', 'n', 'g']);
}

/// Removing orphans never removes the file of an entry.
pub proof fn orphans_are_not_kept(keep: Seq<Seq<char>>, names: Seq<Seq<char>>, i: int)
    requires
        0 <= i < survivors(names, |n: Seq<char>| is_orphan(keep, n)).len(),
    ensures
        !keep.contains(survivors(names, |n: Seq<char>| is_orphan(keep, n))[i]),
{
    lemma_survivors(names, |n: Seq<char>| is_orphan(keep, n));
}

} // verus!
