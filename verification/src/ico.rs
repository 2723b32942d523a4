//! The container of icon files: several PNG pictures in one.

use crate::clip_write::{le16, le32, push16, push32, push_bytes};
use vstd::prelude::*;

verus! {

/// One picture of an icon: its edge and its PNG file.
#[derive(Debug, Clone)]
pub struct IcoFrame {
    pub size: u32,
    pub png: Vec<u8>,
}

/// The plain contents of an [`IcoFrame`].
pub struct FrameModel {
    pub size: u32,
    pub png: Seq<u8>,
}

impl View for IcoFrame {
    type V = FrameModel;

    open spec fn view(&self) -> FrameModel {
        FrameModel { size: self.size, png: self.png@ }
    }
}

pub open spec fn frame_models(frames: Seq<IcoFrame>) -> Seq<FrameModel> {
    Seq::new(frames.len(), |i: int| frames[i]@)
}

/// The sizes drawn from the detailed picture.
pub const DETAILED_SIZES: [u32; 4] = [256, 128, 64, 48];

/// The sizes drawn from the simple picture.
pub const SIMPLE_SIZES: [u32; 3] = [32, 24, 16];

/// An edge as a single byte; 256 and more are written as zero.
pub open spec fn edge_byte(size: u32) -> u8 {
    if size >= 256 {
        0
    } else {
        size as u8
    }
}

/// The pictures' files one after the other.
pub open spec fn frame_bytes(frames: Seq<FrameModel>) -> Seq<u8>
    decreases frames.len(),
{
    if frames.len() == 0 {
        Seq::empty()
    } else {
        frame_bytes(frames.drop_last()) + frames.last().png
    }
}

/// The directory entry of a picture whose file starts at `offset`.
pub open spec fn frame_entry(frame: FrameModel, offset: nat) -> Seq<u8> {
    seq![edge_byte(frame.size), edge_byte(frame.size), 0u8, 0u8] + le16(1) + le16(32) + le32(
        frame.png.len() as u32,
    ) + le32(offset as u32)
}

/// The directory of the first pictures, the files starting at `start`.
pub open spec fn directory(frames: Seq<FrameModel>, start: nat) -> Seq<u8>
    decreases frames.len(),
{
    if frames.len() == 0 {
        Seq::empty()
    } else {
        let init = frames.drop_last();
        directory(init, start) + frame_entry(frames.last(), start + frame_bytes(init).len())
    }
}

/// An icon file: header, directory, pictures.
pub open spec fn ico_bytes(frames: Seq<FrameModel>) -> Seq<u8> {
    le16(0) + le16(1) + le16(frames.len() as u16) + directory(
        frames,
        6 + 16 * frames.len(),
    ) + frame_bytes(frames)
}

/// Puts pictures together into an icon file. Numbers that do not fit their
/// place in the file lose their high digits.
pub fn write_ico(frames: &Vec<IcoFrame>) -> (r: Vec<u8>)
    requires
        6 + 16 * frames@.len() + frame_bytes(frame_models(frames@)).len() <= usize::MAX,
    ensures
        r@ == ico_bytes(frame_models(frames@)),
{
    let ghost all = frame_models(frames@);
    let n: usize = frames.len();
    let mut out: Vec<u8> = Vec::new();
    push16(&mut out, 0);
    push16(&mut out, 1);
    push16(
        &mut out,
        #[verifier::truncate]
        (n as u16),
    );
    let ghost header = out@;
    let start: usize = 6 + 16 * n;
    let mut offset: usize = start;
    assert(all.take(0) == Seq::<FrameModel>::empty());
    assert(header == le16(0) + le16(1) + le16(n as u16));
    assert(header + Seq::<u8>::empty() == header);
    for i in 0..n
        invariant
            n == frames@.len(),
            all == frame_models(frames@),
            start == 6 + 16 * n,
            start + frame_bytes(all).len() <= usize::MAX,
            offset == start + frame_bytes(all.take(i as int)).len(),
            out@ == header + directory(all.take(i as int), start as nat),
    {
        let frame = &frames[i];
        let ghost before = out@;
        proof {
            assert(all[i as int] == frame@);
            assert(all.take(i + 1).drop_last() == all.take(i as int));
            lemma_prefix_len(all, i + 1);
        }
        let edge: u8 = if frame.size >= 256 {
            0
        } else {
            frame.size as u8
        };
        out.push(edge);
        out.push(edge);
        out.push(0);
        out.push(0);
        push16(&mut out, 1);
        push16(&mut out, 32);
        let len: usize = frame.png.len();
        push32(
            &mut out,
            #[verifier::truncate]
            (len as u32),
        );
        push32(
            &mut out,
            #[verifier::truncate]
            (offset as u32),
        );
        proof {
            assert(out@ == before + frame_entry(frame@, offset as nat));
            assert(out@ == header + (directory(all.take(i as int), start as nat) + frame_entry(
                frame@,
                offset as nat,
            )));
        }
        offset = offset + len;
    }
    assert(all.take(n as int) == all);
    let ghost head = out@;
    assert(head + Seq::<u8>::empty() == head);
    for i in 0..n
        invariant
            n == frames@.len(),
            all == frame_models(frames@),
            out@ == head + frame_bytes(all.take(i as int)),
    {
        push_bytes(&mut out, &frames[i].png);
        proof {
            assert(all[i as int] == frames@[i as int]@);
            assert(all.take(i + 1).drop_last() == all.take(i as int));
            assert(out@ == head + (frame_bytes(all.take(i as int)) + all[i as int].png));
        }
    }
    out
}

pub proof fn lemma_prefix_len(frames: Seq<FrameModel>, k: int)
    requires
        0 <= k <= frames.len(),
    ensures
        frame_bytes(frames.take(k)).len() <= frame_bytes(frames).len(),
    decreases frames.len() - k,
{
    if k < frames.len() {
        assert(frames.take(k + 1).drop_last() == frames.take(k));
        lemma_prefix_len(frames, k + 1);
    } else {
        assert(frames.take(k) == frames);
    }
}

// ---------------------------------------------------------------- laws

pub proof fn lemma_directory_len(frames: Seq<FrameModel>, start: nat)
    ensures
        directory(frames, start).len() == 16 * frames.len(),
    decreases frames.len(),
{
    if frames.len() > 0 {
        lemma_directory_len(frames.drop_last(), start);
    }
}

/// Every picture stands in the file where its directory entry says: at the
/// start of the pictures plus the length of those before it.
pub proof fn pictures_stand_where_listed(frames: Seq<FrameModel>, k: int)
    requires
        0 <= k < frames.len(),
    ensures
        ({
            let at = (6 + 16 * frames.len() + frame_bytes(frames.take(k)).len()) as int;
            let file = ico_bytes(frames);
            &&& at + frames[k].png.len() <= file.len()
            &&& file.subrange(at, at + frames[k].png.len()) == frames[k].png
        }),
    decreases frames.len(),
{
    let start = 6 + 16 * frames.len();
    lemma_directory_len(frames, start);
    let head = le16(0) + le16(1) + le16(frames.len() as u16) + directory(frames, start);
    let body = frame_bytes(frames);
    assert(head.len() == start);
    lemma_body_at(frames, k);
    let off = frame_bytes(frames.take(k)).len() as int;
    let n = frames[k].png.len() as int;
    assert((head + body).subrange(start + off, start + off + n) == body.subrange(off, off + n));
}

proof fn lemma_body_at(frames: Seq<FrameModel>, k: int)
    requires
        0 <= k < frames.len(),
    ensures
        ({
            let off = frame_bytes(frames.take(k)).len() as int;
            &&& off + frames[k].png.len() <= frame_bytes(frames).len()
            &&& frame_bytes(frames).subrange(off, off + frames[k].png.len()) == frames[k].png
        }),
    decreases frames.len(),
{
    let init = frames.drop_last();
    let body = frame_bytes(frames);
    let n = frames[k].png.len() as int;
    if k == init.len() {
        assert(frames.take(k) == init);
        let off = frame_bytes(init).len() as int;
        assert(body.subrange(off, off + n) == frames[k].png);
    } else {
        lemma_body_at(init, k);
        assert(init.take(k) == frames.take(k));
        assert(init[k] == frames[k]);
        let off = frame_bytes(frames.take(k)).len() as int;
        assert(body.subrange(off, off + n) == frame_bytes(init).subrange(off, off + n));
    }
}

} // verus!
