//! What the library does with pictures, icons and the names of files.

use crate::assets::{icon_path, is_icon_at, WispIcon};
use crate::clip::fnv1a;
use crate::clip_write::{le16, le32};
use crate::data_dir::is_png_name;
use crate::delivery_laws::{numbers_are_read_back, read16, read32};
use crate::ico::{
    directory, frame_bytes, frame_entry, ico_bytes, lemma_directory_len, lemma_prefix_len,
    pictures_stand_where_listed, FrameModel,
};
use crate::ip_addr::read_hex;
use crate::path::{extension_of, file_name_of, joined, last_dot, parent_of, parts_of};
use crate::picture::{
    drawn, encoded_png, fitted_edge, halvings, hex_digits, is_managed, is_orphan, is_preview,
    lemma_fitted_within, lemma_scaled_longest, longest_edge_fits_exactly, picture_accepted,
    picture_name, picture_preview, resized, scale_digits, size_text, thumb_pixels, thumb_png,
    unsigned_bits, DrawnPicture, PictureFile,
};
use crate::rounding::{as_double, last_place, lemma_double_is_close, nearest, EXACT};
use crate::text::{ascii_lower_all, decimal};
use vstd::arithmetic::power2::pow2;
use vstd::prelude::*;

verus! {

// ---------------------------------------------------------------- pixels

/// A picture is drawn with red and blue exchanged and all else as it was.
pub proof fn pictures_are_drawn_in_their_colours(rgba: Seq<u8>, pixel: int)
    requires
        0 <= pixel,
        4 * pixel + 4 <= rgba.len(),
    ensures
        drawn(rgba).len() == rgba.len(),
        drawn(rgba)[4 * pixel] == rgba[4 * pixel + 2],
        drawn(rgba)[4 * pixel + 1] == rgba[4 * pixel + 1],
        drawn(rgba)[4 * pixel + 2] == rgba[4 * pixel],
        drawn(rgba)[4 * pixel + 3] == rgba[4 * pixel + 3],
{
    assert((4 * pixel) % 4 == 0 && (4 * pixel + 1) % 4 == 1);
    assert((4 * pixel + 2) % 4 == 2 && (4 * pixel + 3) % 4 == 3);
}

/// A picture is kept exactly where both edges have pixels, there are four bytes
/// for each pixel, and not more than 16,777,216 pixels in all.
pub proof fn whole_pictures_are_kept(width: u32, height: u32, len: nat)
    ensures
        picture_accepted(width, height, len) <==> width >= 1 && height >= 1 && len == 4 * (width
            * height) && width * height <= 16_777_216,
{
}

/// The summary of a picture names its width, its height and the size of its
/// file.
pub proof fn summaries_name_the_size(width: u32, height: u32, len: nat)
    ensures
        picture_preview(width, height, len) == decimal(width as nat) + "×"@ + decimal(height as nat)
            + " · "@ + size_text(len),
{
}

// ---------------------------------------------------------------- sizes

/// A size is told in bytes below 1024.
pub proof fn small_sizes_are_told_in_bytes(bytes: nat)
    requires
        bytes < 1024,
    ensures
        size_text(bytes) == decimal(bytes) + " B"@,
{
}

/// The tenths `t` are the nearest to `bytes` in units of `unit`, and of two that
/// are equally near the even one.
pub open spec fn nearest_tenths(bytes: nat, unit: nat, t: nat) -> bool {
    &&& 2 * (unit * t) <= 2 * (10 * bytes) + unit
    &&& 2 * (10 * bytes) <= 2 * (unit * t) + unit
    &&& 2 * (unit * t) == 2 * (10 * bytes) + unit || 2 * (10 * bytes) == 2 * (unit * t) + unit ==> t
        % 2 == 0
}

/// Larger sizes are told to a tenth in units of 1024 bytes, and from 1,048,576
/// bytes on in units of as many.
pub proof fn large_sizes_are_told_in_tenths(bytes: nat) -> (t: nat)
    requires
        1024 <= bytes < 9_007_199_254_740_992,
    ensures
        bytes < 1_048_576 ==> nearest_tenths(bytes, 1024, t) && size_text(bytes) == decimal(
            t / 10,
        ).push('.') + decimal(t % 10) + " KB"@,
        bytes >= 1_048_576 ==> nearest_tenths(bytes, 1_048_576, t) && size_text(bytes) == decimal(
            t / 10,
        ).push('.') + decimal(t % 10) + " MB"@,
{
    if bytes < 1_048_576 {
        let t = nearest(10 * bytes, 1024);
        lemma_nearest_tenths(bytes, 1024);
        assert(decimal(t / 10) + seq!['.'] =~= decimal(t / 10).push('.'));
        t
    } else {
        assert(last_place(bytes) == 1);
        assert(as_double(bytes) == bytes) by {
            assert(bytes / 1 == bytes && bytes % 1 == 0);
        }
        let t = nearest(10 * bytes, 1_048_576);
        lemma_nearest_tenths(bytes, 1_048_576);
        assert(decimal(t / 10) + seq!['.'] =~= decimal(t / 10).push('.'));
        t
    }
}

proof fn lemma_nearest_tenths(bytes: nat, unit: nat)
    requires
        unit > 0,
    ensures
        nearest_tenths(bytes, unit, nearest(10 * bytes, unit)),
{
    let n = 10 * bytes;
    let q = n / unit;
    let r = n % unit;
    assert(n == unit * q + r && 0 <= r < unit) by {
        vstd::arithmetic::div_mod::lemma_fundamental_div_mod(n as int, unit as int);
        vstd::arithmetic::div_mod::lemma_mod_bound(n as int, unit as int);
    }
    assert(unit * (q + 1) == unit * q + unit) by (nonlinear_arith);
}

/// The edges of a picture that is too large keep their proportion: each is the
/// exact value rounded to the nearest pixel, where one part in 65,536 of a pixel
/// is left to the precision of the computation.
pub proof fn fitted_edges_keep_their_proportion(limit: nat, edge: u32, longest: u32)
    requires
        128 <= limit <= 1024,
        longest > limit,
        edge <= longest,
    ensures
        in_proportion(
            limit as int,
            edge as int,
            longest as int,
            fitted_edge(limit, edge as nat, longest as nat) as int,
        ),
        fitted_edge(longest as nat, edge as nat, longest as nat) == edge,
{
    let m = longest as int;
    let en = edge as int;
    let l = limit as int;
    let e = halvings(limit, longest as nat);
    let u = pow2(52 + e) as int;
    let half = pow2(51 + e) as int;
    let digits = scale_digits(limit, longest as nat);
    let d = digits as int;
    let p = (edge as nat * digits) as int;
    let v = as_double(edge as nat * digits) as int;
    let x = EXACT as int;
    lemma_scaled_longest(limit, longest);
    lemma_double_is_close(edge as nat * digits);
    let f = (v + half) / u;
    assert(f == fitted_edge(limit, edge as nat, longest as nat));
    vstd::arithmetic::div_mod::lemma_fundamental_div_mod(v + half, u);
    vstd::arithmetic::div_mod::lemma_mod_bound(v + half, u);
    let rest = (v + half) % u;
    assert(v + half == u * f + rest && 0 <= rest < u);
    lemma_proportion(m, en, l, u, half, d, p, v, f);
}

proof fn lemma_proportion(
    m: int,
    e: int,
    l: int,
    u: int,
    half: int,
    d: int,
    p: int,
    v: int,
    f: int,
)
    requires
        129 <= m <= 0xffff_ffff,
        0 <= e <= m,
        128 <= l <= 1024,
        u >= 0x20_0000_0000_0000,
        u == 2 * half,
        d >= 0,
        p == e * d,
        2 * (m * d) <= 2 * (l * u) + m,
        2 * (m * d) >= 2 * (l * u) - m,
        v * 9_007_199_254_740_992 <= p * 9_007_199_254_740_992 + p,
        v * 9_007_199_254_740_992 >= p * 9_007_199_254_740_992 - p,
        u * f <= v + half,
        v + half < u * f + u,
        f >= 0,
        v >= 0,
    ensures
        65_536 * (2 * (f * m) - 2 * (e * l)) <= 65_537 * m,
        65_536 * (2 * (e * l) - 2 * (f * m)) <= 65_537 * m,
{
    let x: int = 9_007_199_254_740_992;
    let el = e * l;
    let elu = el * u;
    let em = e * m;
    let ux = u * x;
    // e times the bounds on the scale
    assert(2 * (p * m) <= 2 * elu + em) by (nonlinear_arith)
        requires
            p == e * d,
            2 * (m * d) <= 2 * (l * u) + m,
            e >= 0,
            elu == (e * l) * u,
            em == e * m,
    ;
    assert(2 * (p * m) >= 2 * elu - em) by (nonlinear_arith)
        requires
            p == e * d,
            2 * (m * d) >= 2 * (l * u) - m,
            e >= 0,
            elu == (e * l) * u,
            em == e * m,
    ;
    let pm = p * m;
    let vm = v * m;
    assert(vm * x <= pm * x + pm) by (nonlinear_arith)
        requires
            v * x <= p * x + p,
            m >= 0,
            pm == p * m,
            vm == v * m,
    ;
    assert(vm * x >= pm * x - pm) by (nonlinear_arith)
        requires
            v * x >= p * x - p,
            m >= 0,
            pm == p * m,
            vm == v * m,
    ;
    let fm = f * m;
    let ufm = fm * u;
    let um = u * m;
    assert(2 * ufm <= 2 * vm + um && 2 * vm <= 2 * ufm + um) by (nonlinear_arith)
        requires
            u == 2 * half,
            u * f <= v + half,
            v + half < u * f + u,
            m >= 0,
            vm == v * m,
            ufm == (f * m) * u,
            um == u * m,
    ;
    // sizes of the small terms
    assert(0 <= el <= 0xffff_ffff * 1024) by (nonlinear_arith)
        requires
            0 <= e <= 0xffff_ffff,
            0 <= l <= 1024,
            el == e * l,
    ;
    assert(0 <= em <= 0xffff_ffff * m) by (nonlinear_arith)
        requires
            0 <= e <= 0xffff_ffff,
            m >= 0,
            em == e * m,
    ;
    assert(elu <= 0x400_0000_0000 * u) by (nonlinear_arith)
        requires
            el <= 0xffff_ffff * 1024,
            u >= 0,
            elu == el * u,
    ;
    assert(elu >= 0) by (nonlinear_arith)
        requires
            el >= 0,
            u >= 0,
            elu == el * u,
    ;
    // the small terms together are below a part of the whole
    let small = 2 * elu + em * (x + 1);
    assert(pm >= 0) by (nonlinear_arith)
        requires
            p == e * d,
            e >= 0,
            d >= 0,
            m >= 0,
            pm == p * m,
    ;
    assert(65_536 * small <= 64 * ux + (ux * m) / 8 && small >= 0) by {
        assert(65_536 * (2 * elu) <= 64 * ux) by (nonlinear_arith)
            requires
                elu <= 0x400_0000_0000 * u,
                ux == u * x,
                x == 9_007_199_254_740_992,
                u >= 0,
        ;
        assert(em * (x + 1) <= (0xffff_ffff * m) * (2 * x)) by (nonlinear_arith)
            requires
                0 <= em <= 0xffff_ffff * m,
                x >= 1,
        ;
        assert(8 * (65_536 * ((0xffff_ffff * m) * (2 * x))) <= ux * m) by (nonlinear_arith)
            requires
                u >= 0x20_0000_0000_0000,
                ux == u * x,
                x == 9_007_199_254_740_992,
                m >= 0,
        ;
        assert(em * (x + 1) >= 0) by (nonlinear_arith)
            requires
                em >= 0,
                x >= 0,
        ;
    }
    assert(ux >= 1) by (nonlinear_arith)
        requires
            u >= 1,
            x >= 1,
            ux == u * x,
    ;
    let up = 2 * fm - 2 * el - m;
    let down = 2 * el - 2 * fm - m;
    assert(ux * up <= small) by {
        lemma_up(elu, em, pm, vm, ufm, um, x);
        assert(ux * up == (2 * ufm - 2 * elu - um) * x) by (nonlinear_arith)
            requires
                up == 2 * fm - 2 * el - m,
                ux == u * x,
                ufm == fm * u,
                elu == el * u,
                um == u * m,
        ;
    }
    assert(ux * down <= small) by {
        lemma_down(elu, em, pm, vm, ufm, um, x);
        assert(ux * down == (2 * elu - 2 * ufm - um) * x) by (nonlinear_arith)
            requires
                down == 2 * el - 2 * fm - m,
                ux == u * x,
                ufm == fm * u,
                elu == el * u,
                um == u * m,
        ;
    }
    lemma_part(ux, up, small, m);
    lemma_part(ux, down, small, m);
}

proof fn lemma_up(elu: int, em: int, pm: int, vm: int, ufm: int, um: int, x: int)
    requires
        2 * pm <= 2 * elu + em,
        vm * x <= pm * x + pm,
        2 * ufm <= 2 * vm + um,
        x >= 1,
    ensures
        (2 * ufm - 2 * elu - um) * x <= 2 * elu + em * (x + 1),
{
    assert((2 * ufm - 2 * elu - um) * x <= (2 * vm - 2 * elu) * x) by (nonlinear_arith)
        requires
            2 * ufm <= 2 * vm + um,
            x >= 1,
    ;
    assert((2 * vm - 2 * elu) * x == 2 * (vm * x) - 2 * (elu * x)) by (nonlinear_arith);
    assert(2 * (pm * x) <= 2 * (elu * x) + em * x) by (nonlinear_arith)
        requires
            2 * pm <= 2 * elu + em,
            x >= 1,
    ;
    assert(em * (x + 1) == em * x + em) by (nonlinear_arith);
}

proof fn lemma_down(elu: int, em: int, pm: int, vm: int, ufm: int, um: int, x: int)
    requires
        2 * pm >= 2 * elu - em,
        2 * pm <= 2 * elu + em,
        vm * x >= pm * x - pm,
        2 * vm <= 2 * ufm + um,
        x >= 1,
    ensures
        (2 * elu - 2 * ufm - um) * x <= 2 * elu + em * (x + 1),
{
    assert((2 * elu - 2 * ufm - um) * x <= (2 * elu - 2 * vm) * x) by (nonlinear_arith)
        requires
            2 * vm <= 2 * ufm + um,
            x >= 1,
    ;
    assert((2 * elu - 2 * vm) * x == 2 * (elu * x) - 2 * (vm * x)) by (nonlinear_arith);
    assert(2 * (pm * x) >= 2 * (elu * x) - em * x) by (nonlinear_arith)
        requires
            2 * pm >= 2 * elu - em,
            x >= 1,
    ;
    assert(em * (x + 1) == em * x + em) by (nonlinear_arith);
}

proof fn lemma_part(ux: int, t: int, small: int, m: int)
    requires
        ux >= 1,
        m >= 129,
        ux * t <= small,
        65_536 * small <= 64 * ux + (ux * m) / 8,
    ensures
        65_536 * t <= m,
{
    if 65_536 * t > m {
        assert(ux * (m + 1) <= 65_536 * (ux * t)) by (nonlinear_arith)
            requires
                65_536 * t >= m + 1,
                ux >= 1,
        ;
        assert(64 * ux + (ux * m) / 8 < ux * (m + 1)) by (nonlinear_arith)
            requires
                ux >= 1,
                m >= 129,
        ;
    }
}

/// An edge of `fitted` pixels has the same share of the limit as an edge of
/// `edge` pixels has of the longest, to the nearest pixel.
pub open spec fn in_proportion(limit: int, edge: int, longest: int, fitted: int) -> bool {
    &&& 65_536 * (2 * (fitted * longest) - 2 * (edge * limit)) <= 65_537 * longest
    &&& 65_536 * (2 * (edge * limit) - 2 * (fitted * longest)) <= 65_537 * longest
}

/// Small pictures are their own thumbnails; of larger ones a thumbnail is the
/// picture resampled so that the longer edge has 128 pixels.
pub proof fn thumbnails_have_at_most_128_pixels(width: u32, height: u32, rgba: Seq<u8>)
    ensures
        width <= 128 && height <= 128 ==> thumb_pixels(width, height, rgba) == (
            width,
            height,
            rgba,
        ),
        ({
            let (w, h, pixels) = thumb_pixels(width, height, rgba);
            thumb_png(width, height, rgba) == encoded_png(w, h, pixels)
        }),
        width > 128 || height > 128 ==> ({
            let (w, h, pixels) = thumb_pixels(width, height, rgba);
            &&& pixels == resized(width, height, rgba, w, h)
            &&& width >= height ==> w == 128 && in_proportion(
                128,
                height as int,
                width as int,
                h as int,
            )
            &&& height >= width ==> h == 128 && in_proportion(
                128,
                width as int,
                height as int,
                w as int,
            )
        }),
{
    if width > 128 && width >= height {
        longest_edge_fits_exactly(128, width);
        lemma_fitted_within(128, height, width);
        fitted_edges_keep_their_proportion(128, height, width);
    }
    if height > 128 && height >= width {
        longest_edge_fits_exactly(128, height);
        lemma_fitted_within(128, width, height);
        fitted_edges_keep_their_proportion(128, width, height);
    }
}

/// A picture of at most 640 pixels either way is previewed as it is; a larger
/// one is resampled so that its longer edge has 640.
pub proof fn previews_have_at_most_640_pixels(
    p: DrawnPicture,
    width: u32,
    height: u32,
    rgba: Seq<u8>,
)
    requires
        is_preview(p, width, height, rgba),
    ensures
        width <= 640 && height <= 640 ==> p.width == width && p.height == height && p.pixels@
            == drawn(rgba),
        width > 640 && width >= height && height > 0 ==> p.width == 640 && (p.height == 1
            || in_proportion(640, height as int, width as int, p.height as int)),
        height > 640 && height >= width && width > 0 ==> p.height == 640 && (p.width == 1
            || in_proportion(640, width as int, height as int, p.width as int)),
        (width > 640 || height > 640) && width > 0 && height > 0 ==> p.pixels@ == drawn(
            resized(width, height, rgba, p.width, p.height),
        ) && p.width > 0 && p.height > 0,
{
    if width > 640 && width >= height {
        longest_edge_fits_exactly(640, width);
        lemma_fitted_within(640, height, width);
        fitted_edges_keep_their_proportion(640, height, width);
    }
    if height > 640 && height >= width {
        longest_edge_fits_exactly(640, height);
        lemma_fitted_within(640, width, height);
        fitted_edges_keep_their_proportion(640, width, height);
    }
}

// ---------------------------------------------------------------- names

/// 16 to the power `n`.
pub open spec fn power_of_16(n: nat) -> nat
    decreases n,
{
    if n == 0 {
        1
    } else {
        16 * power_of_16((n - 1) as nat)
    }
}

proof fn lemma_hex_digits_read(n: nat, count: nat)
    requires
        n < power_of_16(count),
    ensures
        hex_digits(n, count).len() == count,
        read_hex(hex_digits(n, count)) == n,
        forall|i: int|
            0 <= i < count ==> 48 <= (#[trigger] hex_digits(n, count)[i]) as int <= 57 || 97
                <= hex_digits(n, count)[i] as int <= 102,
    decreases count,
{
    if count > 0 {
        let c = (count - 1) as nat;
        lemma_hex_digits_read(n / 16, c);
        let s = hex_digits(n, count);
        assert(s.drop_last() =~= hex_digits(n / 16, c));
        assert forall|i: int| 0 <= i < count implies 48 <= (#[trigger] s[i]) as int <= 57 || 97
            <= s[i] as int <= 102 by {
            if i < c {
                assert(s[i] == hex_digits(n / 16, c)[i]);
            }
        }
    }
}

/// The file of a picture is named by the 16 hexadecimal digits of its
/// fingerprint.
pub proof fn pictures_are_named_by_their_fingerprint(hash: i64) -> (digits: Seq<char>)
    ensures
        picture_name(hash) == digits + ".png"@,
        digits.len() == 16,
        (read_hex(digits) - hash) % 0x1_0000_0000_0000_0000 == 0,
        forall|i: int|
            0 <= i < 16 ==> 48 <= (#[trigger] digits[i]) as int <= 57 || 97 <= digits[i] as int
                <= 102,
{
    let n = unsigned_bits(hash);
    reveal_with_fuel(power_of_16, 17);
    assert(power_of_16(16) == 0x1_0000_0000_0000_0000);
    lemma_hex_digits_read(n, 16);
    hex_digits(n, 16)
}

/// A picture is kept under its fingerprint, in a file of the directory that is
/// named by it, with its size for a summary.
pub proof fn pictures_are_kept_under_their_fingerprint(
    file: PictureFile,
    dir: Seq<char>,
    width: u32,
    height: u32,
    rgba: Seq<u8>,
    png: Seq<u8>,
)
    requires
        file.describes(dir, width, height, rgba, png),
    ensures
        (file.hash - fnv1a(rgba)) % 0x1_0000_0000_0000_0000 == 0,
        file.path@ == joined(dir, picture_name(file.hash)),
        file.preview@ == picture_preview(width, height, png.len()),
        file.png@ == png,
{
}

/// A file may be removed exactly where it lies directly in the pictures'
/// directory and is a picture by its name.
pub proof fn only_own_pictures_are_removed(dir: Seq<char>, path: Seq<char>)
    ensures
        is_managed(dir, path) <==> parent_of(path) == Some(parts_of(dir)) && is_png_name(path),
{
}

/// A file of the pictures' directory belongs to no entry exactly where it is a
/// picture and no entry names it; other files are left alone.
pub proof fn orphans_are_pictures_of_no_entry(keep: Seq<Seq<char>>, stem: Seq<char>, name: Seq<char>)
    ensures
        is_orphan(keep, stem + seq!['.', 'p', 'n', 'g']) <==> !keep.contains(
            stem + seq!['.', 'p', 'n', 'g'],
        ),
        name.len() < 4 || name.skip(name.len() - 4) != seq!['.', 'p', 'n', 'g'] ==> !is_orphan(
            keep,
            name,
        ),
{
    reveal_strlit(".png");
    let tail = seq!['.', 'p', 'n', 'g'];
    assert(".png"@ =~= tail);
    let whole = stem + tail;
    assert(whole.subrange(whole.len() - 4, whole.len() as int) =~= tail);
    if name.len() >= 4 {
        assert(name.subrange(name.len() - 4, name.len() as int) =~= name.skip(name.len() - 4));
    }
}

proof fn lemma_last_dot(stem: Seq<char>, ext: Seq<char>)
    requires
        !ext.contains('.'),
    ensures
        last_dot(stem.push('.') + ext) == stem.len(),
    decreases ext.len(),
{
    let name = stem.push('.') + ext;
    if ext.len() > 0 {
        assert(ext[ext.len() - 1] != '.') by {
            assert(ext.contains(ext[ext.len() - 1]));
        }
        assert(name.drop_last() =~= stem.push('.') + ext.drop_last());
        assert(!ext.drop_last().contains('.')) by {
            if ext.drop_last().contains('.') {
                let i = choose|i: int|
                    0 <= i < ext.drop_last().len() && ext.drop_last()[i] == '.';
                assert(ext[i] == '.');
            }
        }
        lemma_last_dot(stem, ext.drop_last());
    } else {
        assert(name =~= stem.push('.'));
    }
}

proof fn lemma_no_dot(name: Seq<char>)
    requires
        !name.contains('.'),
    ensures
        last_dot(name) == -1,
    decreases name.len(),
{
    if name.len() > 0 {
        assert(name.contains(name[name.len() - 1]));
        assert(!name.drop_last().contains('.')) by {
            if name.drop_last().contains('.') {
                let i = choose|i: int|
                    0 <= i < name.drop_last().len() && name.drop_last()[i] == '.';
                assert(name[i] == '.');
            }
        }
        lemma_no_dot(name.drop_last());
    }
}

/// The extension of a file is what follows the last dot of its name; a name
/// without a dot, or with one only in front, has none. A file is a picture by its
/// name exactly where the extension is PNG, in letters of either case.
pub proof fn extensions_follow_the_last_dot(path: Seq<char>, stem: Seq<char>, ext: Seq<char>)
    requires
        !ext.contains('.'),
    ensures
        file_name_of(path) == Some(stem.push('.') + ext) && stem.len() > 0 ==> extension_of(path)
            == Some(ext) && (is_png_name(path) <==> ascii_lower_all(ext) == seq!['p', 'n', 'g']),
        file_name_of(path) == Some(ext) || file_name_of(path) == Some(
            Seq::<char>::empty().push('.') + ext,
        ) || file_name_of(path) is None ==> extension_of(path) is None && !is_png_name(path),
{
    let name = stem.push('.') + ext;
    lemma_last_dot(stem, ext);
    lemma_last_dot(Seq::<char>::empty(), ext);
    lemma_no_dot(ext);
    assert(name.skip(stem.len() as int + 1) =~= ext);
}

/// Below an ordinary directory a file's path is the directory, a backslash and
/// the name; a separator that is there already is not doubled.
pub proof fn paths_lead_into_the_directory(dir: Seq<char>, name: Seq<char>)
    requires
        dir.len() > 0,
        !(dir.len() >= 4 && dir.take(4) == seq!['\\', '\\', '?', '\\']),
        !(dir.len() == 2 && dir[1] == ':'),
    ensures
        dir.last() == '\\' || dir.last() == '/' ==> joined(dir, name) == dir + name,
        dir.last() != '\\' && dir.last() != '/' ==> joined(dir, name) == dir.push('\\') + name,
{
    if dir.len() >= 4 && dir[0] == '\\' && dir[1] == '\\' && dir[2] == '?' && dir[3] == '\\' {
        assert(dir.take(4) =~= seq!['\\', '\\', '?', '\\']);
    }
}

// ---------------------------------------------------------------- icons

/// The icons of our own lie at their paths, and at no other path is one.
pub proof fn icons_lie_at_their_paths(icon: WispIcon, path: Seq<char>)
    ensures
        icon_path(icon) == match icon {
            WispIcon::Pin => "icons/pin.svg"@,
            WispIcon::PinOff => "icons/pin-off.svg"@,
            WispIcon::Logo => "icons/logo.svg"@,
            WispIcon::ThemeSystem => "icons/theme-system.svg"@,
            WispIcon::Trash => "icons/trash.svg"@,
        },
        is_icon_at(Some(icon), path) <==> path == icon_path(icon),
        is_icon_at(None, path) ==> path != icon_path(icon),
{
}

proof fn lemma_directory_entry(frames: Seq<FrameModel>, start: nat, k: int)
    requires
        0 <= k < frames.len(),
    ensures
        directory(frames, start).len() == 16 * frames.len(),
        directory(frames, start).subrange(16 * k, 16 * k + 16) == frame_entry(
            frames[k],
            start + frame_bytes(frames.take(k)).len(),
        ),
    decreases frames.len(),
{
    let init = frames.drop_last();
    let entry = frame_entry(frames.last(), start + frame_bytes(init).len());
    lemma_directory_len(init, start);
    lemma_directory_len(frames, start);
    assert(entry.len() == 16);
    let all = directory(frames, start);
    assert(all == directory(init, start) + entry);
    if k == init.len() {
        assert(frames.take(k) =~= init);
        assert(all.subrange(16 * k, 16 * k + 16) =~= entry);
    } else {
        lemma_directory_entry(init, start, k);
        assert(init.take(k) =~= frames.take(k));
        assert(all.subrange(16 * k, 16 * k + 16) =~= directory(init, start).subrange(
            16 * k,
            16 * k + 16,
        ));
    }
}

/// An icon file says how many pictures it holds, and of each its edge, that it
/// has one plane of 32 bits, how long it is and where it stands; and there it
/// stands.
pub proof fn icons_say_where_their_pictures_stand(frames: Seq<FrameModel>, k: int)
    requires
        0 <= k < frames.len(),
        frames.len() <= 0xffff,
        ico_bytes(frames).len() <= 0xffff_ffff,
    ensures
        ({
            let file = ico_bytes(frames);
            let e = 6 + 16 * k;
            let at = read32(file, e + 12);
            let len = read32(file, e + 8);
            &&& e + 16 <= file.len()
            &&& read16(file, 0) == 0
            &&& read16(file, 2) == 1
            &&& read16(file, 4) == frames.len()
            &&& frames[k].size < 256 ==> file[e] == frames[k].size && file[e + 1] == frames[k].size
            &&& frames[k].size >= 256 ==> file[e] == 0 && file[e + 1] == 0
            &&& read16(file, e + 2) == 0
            &&& read16(file, e + 4) == 1
            &&& read16(file, e + 6) == 32
            &&& 0 <= at && at + len <= file.len()
            &&& file.subrange(at, at + len) == frames[k].png
        }),
{
    let file = ico_bytes(frames);
    let start = 6 + 16 * frames.len();
    let e = 6 + 16 * k;
    let offset = start + frame_bytes(frames.take(k)).len();
    let frame = frames[k];
    let entry = frame_entry(frame, offset);
    lemma_directory_entry(frames, start, k);
    lemma_prefix_len(frames, k);
    pictures_stand_where_listed(frames, k);
    numbers_are_read_back(0, 0);
    numbers_are_read_back(1, 0);
    numbers_are_read_back(32, 0);
    numbers_are_read_back(frames.len() as u16, frame.png.len() as u32);
    numbers_are_read_back(0, offset as u32);
    let list = directory(frames, start);
    let body = frame_bytes(frames);
    let head = le16(0) + le16(1) + le16(frames.len() as u16);
    assert(head.len() == 6);
    assert(file =~= head + list + body);
    assert(file.subrange(0, 2) =~= le16(0));
    assert(file.subrange(2, 4) =~= le16(1));
    assert(file.subrange(4, 6) =~= le16(frames.len() as u16));
    lemma_read_at(file, 0);
    lemma_read_at(file, 2);
    lemma_read_at(file, 4);
    assert(entry.len() == 16);
    assert(file.subrange(e, e + 16) =~= list.subrange(16 * k, 16 * k + 16));
    assert(entry.subrange(4, 6) =~= le16(1));
    assert(entry.subrange(6, 8) =~= le16(32));
    assert(entry.subrange(8, 12) =~= le32(frame.png.len() as u32));
    assert(entry.subrange(12, 16) =~= le32(offset as u32));
    assert forall|i: int| 0 <= i < 16 implies file[e + i] == #[trigger] entry[i] by {
        assert(file.subrange(e, e + 16)[i] == file[e + i]);
    }
    assert(file[e + 4] == entry[4] && file[e + 5] == entry[5]);
    assert(file[e + 6] == entry[6] && file[e + 7] == entry[7]);
    assert(file[e + 8] == entry[8] && file[e + 9] == entry[9] && file[e + 10] == entry[10]
        && file[e + 11] == entry[11]);
    assert(file[e + 12] == entry[12] && file[e + 13] == entry[13] && file[e + 14] == entry[14]
        && file[e + 15] == entry[15]);
    assert(file[e] == entry[0] && file[e + 1] == entry[1] && file[e + 2] == entry[2] && file[e + 3]
        == entry[3]);
    lemma_read_at(entry, 4);
    lemma_read_at(entry, 6);
    lemma_read_at(entry, 8);
    lemma_read_at(entry, 12);
    assert(read32(file, e + 12) == read32(entry, 12));
    assert(read32(file, e + 8) == read32(entry, 8));
}

proof fn lemma_read_at(bytes: Seq<u8>, at: int)
    requires
        0 <= at,
        at + 2 <= bytes.len(),
    ensures
        read16(bytes, at) == read16(bytes.subrange(at, at + 2), 0),
        at + 4 <= bytes.len() ==> read32(bytes, at) == read32(bytes.subrange(at, at + 4), 0),
{
}

} // verus!
