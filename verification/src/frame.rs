//! Raw BGRA pixel buffers and rectangle copies between them.
use vstd::prelude::*;
use vstd::arithmetic::div_mod::{
    lemma_fundamental_div_mod, lemma_fundamental_div_mod_converse, lemma_div_pos_is_pos,
    lemma_mod_bound, lemma_div_by_multiple_is_strongly_ordered,
};

verus! {

/// Bytes per pixel (blue, green, red, alpha).
pub const BYTES_PER_PIXEL: u32 = 4;

/// Raw BGRA pixel buffer, rows stored top to bottom, pixels left to right.
#[derive(Clone)]
pub struct Frame {
    pub data: Vec<u8>,
    pub width: u32,
    pub height: u32,
}

/// Offset of channel `c` of pixel (`px`, `py`) in a buffer whose rows hold `w` pixels.
pub open spec fn byte_index(w: int, px: int, py: int, c: int) -> int {
    (py * w + px) * 4 + c
}

/// Channel `c` of pixel (`px`, `py`) of a buffer whose rows hold `w` pixels.
pub open spec fn pixel_byte(data: Seq<u8>, w: int, px: int, py: int, c: int) -> u8 {
    data[byte_index(w, px, py, c)]
}

/// Whether a source of size `sw` x `sh` placed with its top-left corner at (`dx`, `dy`)
/// covers the destination pixel (`px`, `py`).
pub open spec fn covers(dx: int, dy: int, sw: int, sh: int, px: int, py: int) -> bool {
    dx <= px < dx + sw && dy <= py < dy + sh
}

/// The bytes of a destination buffer (a `dw` x `dh` frame, its bytes possibly followed by
/// more) after the source buffer (`sw` x `sh` pixels) is copied onto it at (`dx`, `dy`):
/// every destination pixel of the frame that the source covers takes the source pixel at the
/// same place, every other byte stays.
pub open spec fn blit_result(
    dst: Seq<u8>,
    dw: int,
    dh: int,
    src: Seq<u8>,
    sw: int,
    sh: int,
    dx: int,
    dy: int,
) -> Seq<u8> {
    Seq::new(
        dst.len(),
        |k: int|
            {
                let p = k / 4;
                let px = p % dw;
                let py = p / dw;
                if k < frame_len(dw, dh) && covers(dx, dy, sw, sh, px, py) {
                    src[byte_index(sw, px - dx, py - dy, k % 4)]
                } else {
                    dst[k]
                }
            },
    )
}

/// A size read as a signed 32-bit number, as the offset arithmetic of the frame painter
/// reads it: a size above `i32::MAX` reads as negative.
pub open spec fn signed_size(len: u32) -> int {
    if len <= i32::MAX {
        len as int
    } else {
        len as int - 0x1_0000_0000
    }
}

/// Adding a size, read as a signed 32-bit number, to an offset stays within the signed
/// 32-bit range.
pub open spec fn offset_fits(d: i32, len: u32) -> bool {
    i32::MIN <= d + signed_size(len) <= i32::MAX
}

/// The byte length of a frame of the given size.
pub open spec fn frame_len(width: int, height: int) -> int {
    width * height * 4
}

impl Frame {
    /// The buffer holds exactly four bytes for each pixel.
    pub open spec fn wf(&self) -> bool {
        self.data@.len() == frame_len(self.width as int, self.height as int)
    }

    /// A frame of the given size with every byte zero (opaque black has alpha zero here too).
    pub fn new_black(width: u32, height: u32) -> (f: Frame)
        requires
            frame_len(width as int, height as int) <= u32::MAX,
        ensures
            f.wf(),
            f.width == width,
            f.height == height,
            forall|k: int| 0 <= k < f.data@.len() ==> f.data@[k] == 0,
    {
        proof {
            assert(0 <= width as int * height as int) by (nonlinear_arith);
        }
        let n: u32 = width * height * 4;
        let data = vec![0u8; n as usize];
        Frame { data, width, height }
    }

    /// Bytes per row.
    pub fn stride(&self) -> (s: usize)
        requires
            self.width as int * 4 <= usize::MAX,
        ensures
            s == self.width as int * 4,
    {
        self.width as usize * 4
    }

    /// A copy of this frame.
    pub fn duplicate(&self) -> (f: Frame)
        ensures
            f.data@ == self.data@,
            f.width == self.width,
            f.height == self.height,
    {
        Frame { data: self.data.clone(), width: self.width, height: self.height }
    }

    /// Copies `src` onto this frame with the source's top-left corner at canvas position
    /// (`dst_x`, `dst_y`), clipping to the bounds of this frame.
    #[verifier::rlimit(40)]
    pub fn blit(&mut self, src: &Frame, dst_x: i32, dst_y: i32)
        requires
            old(self).data@.len() >= frame_len(old(self).width as int, old(self).height as int),
            src.data@.len() >= frame_len(src.width as int, src.height as int),
            offset_fits(dst_x, src.width),
            offset_fits(dst_y, src.height),
        ensures
            final(self).width == old(self).width,
            final(self).height == old(self).height,
            final(self).data@ == blit_result(
                old(self).data@,
                old(self).width as int,
                old(self).height as int,
                src.data@,
                src.width as int,
                src.height as int,
                dst_x as int,
                dst_y as int,
            ),
    {
        let ghost old_data = self.data@;
        let ghost dwi = self.width as int;
        let ghost dhi = self.height as int;
        let ghost swi = src.width as int;
        let ghost shi = src.height as int;
        let dst_w = self.width as i64;
        let dst_h = self.height as i64;
        let src_w = src.width as i64;
        let src_h = src.height as i64;
        let dx = dst_x as i64;
        let dy = dst_y as i64;

        // Overlapping rectangle in canvas coordinates.
        let x0: i64 = if dx > 0 { dx } else { 0 };
        let y0: i64 = if dy > 0 { dy } else { 0 };
        let x1: i64 = if dx + src_w < dst_w { dx + src_w } else { dst_w };
        let y1: i64 = if dy + src_h < dst_h { dy + src_h } else { dst_h };

        if x0 >= x1 || y0 >= y1 {
            proof {
                lemma_blit_result_pixels(old_data, dwi, dhi, src.data@, swi, shi, dst_x as int, dst_y as int);
                assert forall|k: int| 0 <= k < old_data.len() implies
                    blit_result(old_data, dwi, dhi, src.data@, swi, shi, dst_x as int, dst_y as int)[k] == old_data[k] by {
                    if k < frame_len(dwi, dhi) {
                        lemma_split_index(dwi, dhi, k);
                        let p = k / 4;
                        let px = p % dwi;
                        let py = p / dwi;
                        assert(!covers(dst_x as int, dst_y as int, swi, shi, px, py));
                    }
                }
                assert(blit_result(old_data, dwi, dhi, src.data@, swi, shi, dst_x as int, dst_y as int) =~= old_data);
            }
            return;
        }

        let dw = self.width as usize;
        let sw = src.width as usize;
        let mut py: i64 = y0;
        while py < y1
            invariant
                self.width == dwi,
                self.height == dhi,
                src.width == swi,
                src.height == shi,
                dw == dwi,
                sw == swi,
                self.data.len() == old_data.len(),
                old_data.len() >= frame_len(dwi, dhi),
                src.data.len() >= frame_len(swi, shi),
                forall|k: int| frame_len(dwi, dhi) <= k < old_data.len() ==> #[trigger] self.data@[k] == old_data[k],
                dx == dst_x,
                dy == dst_y,
                dx <= x0,
                dy <= y0,
                x1 <= dx + swi,
                y1 <= dy + shi,
                0 <= x0 < x1 <= dwi,
                0 <= y0 <= py <= y1 <= dhi,
                x0 == (if dx > 0 { dx as int } else { 0 }),
                y0 == (if dy > 0 { dy as int } else { 0 }),
                x1 == (if dx + swi < dwi { dx + swi } else { dwi }),
                y1 == (if dy + shi < dhi { dy + shi } else { dhi }),
                forall|qx: int, qy: int, c: int|
                    0 <= qx < dwi && 0 <= qy < dhi && 0 <= c < 4 ==>
                    #[trigger] pixel_byte(self.data@, dwi, qx, qy, c) ==
                    (if y0 <= qy < py && x0 <= qx < x1 {
                        pixel_byte(src.data@, swi, qx - dx, qy - dy, c)
                    } else {
                        pixel_byte(old_data, dwi, qx, qy, c)
                    }),
            decreases y1 - py,
        {
            let mut px: i64 = x0;
            while px < x1
                invariant
                    self.width == dwi,
                    self.height == dhi,
                    src.width == swi,
                    src.height == shi,
                    dw == dwi,
                    sw == swi,
                    self.data.len() == old_data.len(),
                    old_data.len() >= frame_len(dwi, dhi),
                    src.data.len() >= frame_len(swi, shi),
                    forall|k: int| frame_len(dwi, dhi) <= k < old_data.len() ==> #[trigger] self.data@[k] == old_data[k],
                    dx <= x0,
                    dy <= y0,
                    x1 <= dx + swi,
                    y1 <= dy + shi,
                    0 <= x0 <= px <= x1 <= dwi,
                    0 <= y0 <= py < y1 <= dhi,
                    forall|qx: int, qy: int, c: int|
                        0 <= qx < dwi && 0 <= qy < dhi && 0 <= c < 4 ==>
                        #[trigger] pixel_byte(self.data@, dwi, qx, qy, c) ==
                        (if (y0 <= qy < py && x0 <= qx < x1) || (qy == py && x0 <= qx < px) {
                            pixel_byte(src.data@, swi, qx - dx, qy - dy, c)
                        } else {
                            pixel_byte(old_data, dwi, qx, qy, c)
                        }),
                decreases x1 - px,
            {
                let sx: i64 = px - dx;
                let sy: i64 = py - dy;
                proof {
                    lemma_index_bounds(dwi, dhi, px as int, py as int);
                    lemma_index_bounds(swi, shi, sx as int, sy as int);
                }
                let dst_base: usize = ((py as usize) * dw + px as usize) * 4;
                let src_base: usize = ((sy as usize) * sw + sx as usize) * 4;
                let ghost before = self.data@;
                copy_pixel(&mut self.data, dst_base, &src.data, src_base);
                proof {
                    assert forall|qx: int, qy: int, c: int|
                        0 <= qx < dwi && 0 <= qy < dhi && 0 <= c < 4 implies
                        #[trigger] pixel_byte(self.data@, dwi, qx, qy, c) ==
                        (if (y0 <= qy < py && x0 <= qx < x1) || (qy == py && x0 <= qx < px + 1) {
                            pixel_byte(src.data@, swi, qx - dx, qy - dy, c)
                        } else {
                            pixel_byte(old_data, dwi, qx, qy, c)
                        }) by {
                        lemma_index_parts(dwi, qx, qy, c);
                        lemma_index_parts(dwi, px as int, py as int, 0);
                        lemma_index_bounds(dwi, dhi, qx, qy);
                        assert(pixel_byte(before, dwi, qx, qy, c) == before[byte_index(dwi, qx, qy, c)]);
                        if qx == px && qy == py {
                            assert(byte_index(dwi, qx, qy, c) == dst_base + c);
                            assert(byte_index(swi, qx - dx, qy - dy, c) == src_base + c);
                        } else {
                            let k = byte_index(dwi, qx, qy, c);
                            if dst_base <= k < dst_base + 4 {
                                lemma_fundamental_div_mod_converse(k, 4, py * dwi + px, k - dst_base);
                                assert(false);
                            }
                        }
                    }
                }
                px = px + 1;
            }
            py = py + 1;
        }
        proof {
            let res = blit_result(old_data, dwi, dhi, src.data@, swi, shi, dst_x as int, dst_y as int);
            assert forall|k: int| 0 <= k < old_data.len() implies #[trigger] self.data@[k] == res[k] by {
                if k < frame_len(dwi, dhi) {
                    lemma_split_index(dwi, dhi, k);
                    let p = k / 4;
                    let qx = p % dwi;
                    let qy = p / dwi;
                    let c = k % 4;
                    assert(pixel_byte(self.data@, dwi, qx, qy, c) == self.data@[k]);
                    assert(pixel_byte(old_data, dwi, qx, qy, c) == old_data[k]);
                }
            }
            assert(self.data@ =~= res);
        }
    }
}

/// Copies the four bytes of one pixel.
fn copy_pixel(dst: &mut Vec<u8>, dst_base: usize, src: &Vec<u8>, src_base: usize)
    requires
        dst_base + 4 <= old(dst).len(),
        src_base + 4 <= src.len(),
    ensures
        final(dst)@.len() == old(dst)@.len(),
        forall|k: int|
            0 <= k < old(dst)@.len() ==> #[trigger] final(dst)@[k] == (if dst_base <= k < dst_base + 4 {
                src@[src_base + (k - dst_base)]
            } else {
                old(dst)@[k]
            }),
{
    dst.set(dst_base, src[src_base]);
    dst.set(dst_base + 1, src[src_base + 1]);
    dst.set(dst_base + 2, src[src_base + 2]);
    dst.set(dst_base + 3, src[src_base + 3]);
}

/// A pixel's byte offset splits back into the pixel's coordinates and channel.
pub proof fn lemma_index_parts(w: int, px: int, py: int, c: int)
    requires
        0 <= px < w,
        0 <= py,
        0 <= c < 4,
    ensures
        byte_index(w, px, py, c) / 4 == py * w + px,
        byte_index(w, px, py, c) % 4 == c,
        (py * w + px) / w == py,
        (py * w + px) % w == px,
{
    lemma_fundamental_div_mod_converse(byte_index(w, px, py, c), 4, py * w + px, c);
    lemma_fundamental_div_mod_converse(py * w + px, w, py, px);
}

/// Every channel of a pixel inside a `w` x `h` frame lies inside its buffer.
pub proof fn lemma_index_bounds(w: int, h: int, px: int, py: int)
    requires
        0 <= px < w,
        0 <= py < h,
    ensures
        0 <= py * w,
        0 <= py * w + px < w * h,
        0 <= byte_index(w, px, py, 0),
        byte_index(w, px, py, 3) < frame_len(w, h),
{
    assert(0 <= py * w) by (nonlinear_arith)
        requires
            0 <= py,
            0 <= w,
    ;
    assert(py * w + px < w * h) by (nonlinear_arith)
        requires
            0 <= px < w,
            0 <= py < h,
    ;
}

/// Every byte offset inside a `w` x `h` frame belongs to exactly one pixel and channel.
pub proof fn lemma_split_index(w: int, h: int, k: int)
    requires
        0 < w,
        0 <= h,
        0 <= k < frame_len(w, h),
    ensures
        0 <= (k / 4) % w < w,
        0 <= (k / 4) / w < h,
        0 <= k % 4 < 4,
        k == byte_index(w, (k / 4) % w, (k / 4) / w, k % 4),
{
    let p = k / 4;
    lemma_fundamental_div_mod(k, 4);
    lemma_mod_bound(k, 4);
    lemma_div_pos_is_pos(k, 4);
    lemma_fundamental_div_mod(p, w);
    lemma_mod_bound(p, w);
    lemma_div_pos_is_pos(p, w);
    assert(frame_len(w, h) == (w * h) * 4) by (nonlinear_arith);
    lemma_div_by_multiple_is_strongly_ordered(k, frame_len(w, h), w * h, 4);
    assert(frame_len(w, h) / 4 == w * h) by {
        lemma_fundamental_div_mod_converse(frame_len(w, h), 4, w * h, 0);
    }
    assert(w * h == h * w) by (nonlinear_arith);
    lemma_div_by_multiple_is_strongly_ordered(p, w * h, h, w);
    assert((w * h) / w == h) by {
        lemma_fundamental_div_mod_converse(w * h, w, h, 0);
    }
    assert(k == ((p / w) * w + p % w) * 4 + k % 4) by (nonlinear_arith)
        requires
            k == 4 * p + k % 4,
            p == w * (p / w) + p % w,
    ;
}

/// Pixel-wise reading of [`blit_result`]: a covered destination pixel holds the source
/// pixel at the same place, any other pixel keeps its bytes, and the length is unchanged.
pub proof fn lemma_blit_result_pixels(
    dst: Seq<u8>,
    dw: int,
    dh: int,
    src: Seq<u8>,
    sw: int,
    sh: int,
    dx: int,
    dy: int,
)
    requires
        0 <= dw,
        0 <= dh,
        dst.len() >= frame_len(dw, dh),
    ensures
        blit_result(dst, dw, dh, src, sw, sh, dx, dy).len() == dst.len(),
        forall|px: int, py: int, c: int|
            0 <= px < dw && 0 <= py < dh && 0 <= c < 4 ==> #[trigger] pixel_byte(
                blit_result(dst, dw, dh, src, sw, sh, dx, dy),
                dw,
                px,
                py,
                c,
            ) == (if covers(dx, dy, sw, sh, px, py) {
                pixel_byte(src, sw, px - dx, py - dy, c)
            } else {
                pixel_byte(dst, dw, px, py, c)
            }),
{
    assert forall|px: int, py: int, c: int|
        0 <= px < dw && 0 <= py < dh && 0 <= c < 4 implies #[trigger] pixel_byte(
            blit_result(dst, dw, dh, src, sw, sh, dx, dy),
            dw,
            px,
            py,
            c,
        ) == (if covers(dx, dy, sw, sh, px, py) {
            pixel_byte(src, sw, px - dx, py - dy, c)
        } else {
            pixel_byte(dst, dw, px, py, c)
        }) by {
        lemma_index_parts(dw, px, py, c);
        lemma_index_bounds(dw, dh, px, py);
    }
}

/// Copying a source onto a destination of the same size at the origin gives the source.
pub proof fn lemma_blit_same_size_copies(dst: Seq<u8>, src: Seq<u8>, w: u32, h: u32)
    requires
        dst.len() == frame_len(w as int, h as int),
        src.len() == frame_len(w as int, h as int),
    ensures
        blit_result(dst, w as int, h as int, src, w as int, h as int, 0, 0) == src,
{
    let r = blit_result(dst, w as int, h as int, src, w as int, h as int, 0, 0);
    if w == 0 {
        assert(frame_len(w as int, h as int) == 0);
    } else {
        assert forall|k: int| 0 <= k < src.len() implies r[k] == src[k] by {
            lemma_split_index(w as int, h as int, k);
        }
    }
    assert(r =~= src);
}

/// A source placed entirely outside the destination leaves the destination unchanged.
pub proof fn lemma_blit_disjoint_keeps(
    dst: Seq<u8>,
    dw: u32,
    dh: u32,
    src: Seq<u8>,
    sw: u32,
    sh: u32,
    dx: i32,
    dy: i32,
)
    requires
        dst.len() == frame_len(dw as int, dh as int),
        dx + sw <= 0 || dx >= dw || dy + sh <= 0 || dy >= dh,
    ensures
        blit_result(dst, dw as int, dh as int, src, sw as int, sh as int, dx as int, dy as int) == dst,
{
    let r = blit_result(dst, dw as int, dh as int, src, sw as int, sh as int, dx as int, dy as int);
    if dw == 0 {
        assert(frame_len(dw as int, dh as int) == 0);
    } else {
        assert forall|k: int| 0 <= k < dst.len() implies r[k] == dst[k] by {
            lemma_split_index(dw as int, dh as int, k);
        }
    }
    assert(r =~= dst);
}

} // verus!
