//! Pixel-level access to frame buffers: checked lookup and copying one
//! pixel into another of a possibly wider format.
use vstd::prelude::*;

use crate::frame::{
    num_chunks, pixel_chunk, pixel_chunks, pixel_offset, FrameBuffer, FrameBufferMut, FrameSize,
};

verus! {

/// The bytes a pixel `dest` holds after `src` is copied into it: a gray
/// pixel into a gray+alpha one and an RGB pixel into an RGBA one gain an
/// opaque alpha byte; otherwise the bytes are copied as they are.
pub open spec fn copied_pixel(src: Seq<u8>, dest: Seq<u8>) -> Seq<u8> {
    if src.len() == 1 && dest.len() == 2 {
        seq![src[0], 255u8]
    } else if src.len() == 3 && dest.len() == 4 {
        seq![src[0], src[1], src[2], 255u8]
    } else {
        src
    }
}

/// `src` can be copied into a pixel of `dest_len` bytes: a gray pixel into
/// two bytes, an RGB pixel into four, or any pixel into one of its length.
pub open spec fn pixel_copy_fits(src_len: int, dest_len: int) -> bool {
    ||| src_len == 1 && dest_len == 2
    ||| src_len == 3 && dest_len == 4
    ||| src_len == dest_len
}

/// `bytes` with the `len` bytes from `start` on replaced by `src` copied
/// into them.
pub open spec fn with_pixel(bytes: Seq<u8>, start: int, len: int, src: Seq<u8>) -> Seq<u8> {
    bytes.subrange(0, start) + copied_pixel(src, bytes.subrange(start, start + len))
        + bytes.subrange(start + len, bytes.len() as int)
}

/// Copies `src` into the `len` bytes of `bytes` that start at `start`.
fn copy_pixel_at(src: &[u8], bytes: &mut [u8], start: usize, len: usize)
    requires
        start + len <= old(bytes)@.len(),
        pixel_copy_fits(src@.len() as int, len as int),
    ensures
        final(bytes)@ == with_pixel(old(bytes)@, start as int, len as int, src@),
{
    let ghost old_bytes = bytes@;
    if src.len() == 1 && len == 2 {
        bytes[start] = src[0];
        bytes[start + 1] = 255;
    } else if src.len() == 3 && len == 4 {
        bytes[start] = src[0];
        bytes[start + 1] = src[1];
        bytes[start + 2] = src[2];
        bytes[start + 3] = 255;
    } else {
        assert(bytes@.len() == bytes.len());
        let mut k: usize = 0;
        while k < len
            invariant
                k <= len,
                old_bytes.len() <= usize::MAX,
                len == src@.len(),
                start + len <= old_bytes.len(),
                bytes@.len() == old_bytes.len(),
                forall|j: int| 0 <= j < start ==> bytes@[j] == old_bytes[j],
                forall|j: int| start + len <= j < old_bytes.len() ==> bytes@[j] == old_bytes[j],
                forall|j: int| 0 <= j < k ==> bytes@[start + j] == src@[j],
            decreases len - k,
        {
            bytes[start + k] = src[k];
            k = k + 1;
        }
    }
    assert(bytes@ =~= with_pixel(old_bytes, start as int, len as int, src@));
}

/// Copies the pixel `src` into the pixel `dest`; see [`copied_pixel`].
/// Pixels of other unequal lengths cannot be copied, so they are excluded.
pub fn copy_pixel_into(src: &[u8], dest: &mut [u8])
    requires
        pixel_copy_fits(src@.len() as int, old(dest)@.len() as int),
    ensures
        final(dest)@ == copied_pixel(src@, old(dest)@),
{
    let ghost before = dest@;
    let len = dest.len();
    copy_pixel_at(src, dest, 0, len);
    assert(before.subrange(0, len as int) =~= before);
    assert(before.subrange(0, 0) + copied_pixel(src@, before) + before.subrange(
        len as int,
        len as int,
    ) =~= copied_pixel(src@, before));
}

/// Checked pixel lookup for frame buffers.
pub trait PixelBufferExt: FrameSize {
    /// The bytes the buffer dereferences to.
    spec fn spec_pixel_bytes(&self) -> Seq<u8>;

    /// The bytes the buffer dereferences to.
    fn pixel_bytes(&self) -> (b: &[u8])
        ensures
            b@ == self.spec_pixel_bytes(),
    ;

    /// The bytes of pixel (`x`, `y`), or `None` when `x` or `y` is outside
    /// the frame. A pixel inside the frame whose bytes lie beyond the
    /// buffer cannot be read, so that case is excluded.
    fn pixel_at(&self, x: usize, y: usize) -> (p: Option<&[u8]>)
        requires
            x < self.spec_width() && y < self.spec_height() ==> {
                &&& x + y * self.spec_height() <= usize::MAX
                &&& pixel_offset(x as int, y as int, self.spec_height() as int, self.spec_chans() as int)
                    + self.spec_chans() <= self.spec_pixel_bytes().len()
            },
        ensures
            !(x < self.spec_width() && y < self.spec_height()) ==> p is None,
            x < self.spec_width() && y < self.spec_height() ==> (p matches Some(b) && b@
                == self.spec_pixel_bytes().subrange(
                pixel_offset(x as int, y as int, self.spec_height() as int, self.spec_chans() as int),
                pixel_offset(x as int, y as int, self.spec_height() as int, self.spec_chans() as int)
                    + self.spec_chans(),
            )),
    {
        if x < self.width() && y < self.height() {
            let chans = self.chans();
            let h = self.height();
            let bytes = self.pixel_bytes();
            assert(bytes@.len() == bytes.len());
            proof {
                crate::frame::lemma_pixel_offset_fits(x as int, y as int, h as int, chans as int);
            }
            let start = (x + y * h) * chans;
            Some(&bytes[start..start + chans])
        } else {
            None
        }
    }

    /// The frame's pixels in order, `chans` bytes each.
    fn pixel_iter(&self) -> (ps: Vec<&[u8]>)
        requires
            self.spec_chans() > 0,
        ensures
            ps.len() == num_chunks(self.spec_pixel_bytes().len() as int, self.spec_chans() as int),
            forall|i: int|
                0 <= i < ps.len() ==> #[trigger] ps[i]@ == pixel_chunk(
                    self.spec_pixel_bytes(),
                    self.spec_chans() as int,
                    i,
                ),
    {
        let chans = self.chans();
        pixel_chunks(self.pixel_bytes(), chans)
    }
}

impl<T: FrameBuffer> PixelBufferExt for T {
    open spec fn spec_pixel_bytes(&self) -> Seq<u8> {
        self.spec_bytes()
    }

    fn pixel_bytes(&self) -> (b: &[u8]) {
        self.as_bytes()
    }
}

/// The first byte of pixel `i` and its length, when a buffer of `len` bytes
/// is cut into pixels of `chans` bytes.
pub open spec fn chunk_bounds(len: int, chans: int, i: int) -> (int, int) {
    let start = i * chans;
    let end = if (i + 1) * chans <= len {
        (i + 1) * chans
    } else {
        len
    };
    (start, end - start)
}

/// Writing single pixels of a frame buffer.
pub trait PixelBufferMutExt: FrameBufferMut {
    /// Copies `src` into the frame's `i`-th pixel (see [`copy_pixel_into`]),
    /// the pixels being cut as [`PixelBufferExt::pixel_iter`] cuts them.
    fn write_pixel(&mut self, i: usize, src: &[u8])
        requires
            old(self).spec_chans() > 0,
            i < num_chunks(old(self).spec_bytes().len() as int, old(self).spec_chans() as int),
            pixel_copy_fits(
                src@.len() as int,
                chunk_bounds(old(self).spec_bytes().len() as int, old(self).spec_chans() as int, i as int).1,
            ),
        ensures
            final(self).spec_bytes() == with_pixel(
                old(self).spec_bytes(),
                chunk_bounds(old(self).spec_bytes().len() as int, old(self).spec_chans() as int, i as int).0,
                chunk_bounds(old(self).spec_bytes().len() as int, old(self).spec_chans() as int, i as int).1,
                src@,
            ),
            final(self).spec_width() == old(self).spec_width(),
            final(self).spec_height() == old(self).spec_height(),
            final(self).spec_chans() == old(self).spec_chans(),
    {
        let chans = self.chans();
        let bytes = self.as_bytes_mut();
        let len = bytes.len();
        assert(bytes@.len() == bytes.len());
        proof {
            lemma_chunk_fits(len as int, chans as int, i as int);
            assert((i + 1) * chans == i * chans + chans) by (nonlinear_arith);
        }
        let start = i * chans;
        let end = if chans <= len - start {
            start + chans
        } else {
            len
        };
        copy_pixel_at(src, bytes, start, end - start);
    }
}

impl<T: FrameBufferMut> PixelBufferMutExt for T {}

/// Pixel `i` of a buffer starts inside it when `i` is below the pixel count.
proof fn lemma_chunk_fits(len: int, chans: int, i: int)
    requires
        chans > 0,
        0 <= i < num_chunks(len, chans),
        0 <= len,
    ensures
        0 <= i * chans < len,
{
    vstd::arithmetic::div_mod::lemma_fundamental_div_mod(len + chans - 1, chans);
    let q = (len + chans - 1) / chans;
    assert(q * chans == chans * q) by (nonlinear_arith);
    assert((i + 1) * chans <= q * chans) by (nonlinear_arith)
        requires
            i + 1 <= q,
            chans > 0,
    ;
    assert((i + 1) * chans == i * chans + chans) by (nonlinear_arith);
    assert(0 <= i * chans) by (nonlinear_arith)
        requires
            0 <= i,
            chans > 0,
    ;
}

/// A copied pixel has the length of the pixel it is copied into.
proof fn lemma_copied_len(src: Seq<u8>, dest: Seq<u8>)
    requires
        pixel_copy_fits(src.len() as int, dest.len() as int),
    ensures
        copied_pixel(src, dest).len() == dest.len(),
{
}

/// Writing pixel `i` (as [`PixelBufferMutExt::write_pixel`] does) and then
/// reading the frame's pixels (as [`PixelBufferExt::pixel_iter`] cuts them)
/// gives back the written pixel at `i`, copied into the old one's format,
/// and every other pixel as it was; the frame keeps its length.
pub proof fn lemma_write_pixel_then_read(bytes: Seq<u8>, chans: int, i: int, src: Seq<u8>, j: int)
    requires
        chans > 0,
        0 <= i < num_chunks(bytes.len() as int, chans),
        0 <= j < num_chunks(bytes.len() as int, chans),
        pixel_copy_fits(src.len() as int, chunk_bounds(bytes.len() as int, chans, i).1),
    ensures
        ({
            let b = chunk_bounds(bytes.len() as int, chans, i);
            let after = with_pixel(bytes, b.0, b.1, src);
            &&& after.len() == bytes.len()
            &&& j == i ==> pixel_chunk(after, chans, j) == copied_pixel(
                src,
                pixel_chunk(bytes, chans, i),
            )
            &&& j != i ==> pixel_chunk(after, chans, j) == pixel_chunk(bytes, chans, j)
        }),
{
    let len = bytes.len() as int;
    let b = chunk_bounds(len, chans, i);
    lemma_chunk_fits(len, chans, i);
    lemma_chunk_fits(len, chans, j);
    let start = b.0;
    let n = b.1;
    assert((i + 1) * chans == i * chans + chans) by (nonlinear_arith);
    assert((j + 1) * chans == j * chans + chans) by (nonlinear_arith);
    assert(0 < n && start + n <= len);
    let old_px = bytes.subrange(start, start + n);
    assert(old_px =~= pixel_chunk(bytes, chans, i));
    lemma_copied_len(src, old_px);
    let after = with_pixel(bytes, start, n, src);
    assert(after.len() == len);
    assert(forall|k: int| 0 <= k < start ==> after[k] == bytes[k]);
    assert(forall|k: int| start + n <= k < len ==> after[k] == bytes[k]);
    if j == i {
        assert(pixel_chunk(after, chans, j) =~= copied_pixel(src, old_px));
    } else if j < i {
        assert((j + 1) * chans <= i * chans) by (nonlinear_arith)
            requires
                j + 1 <= i,
                chans > 0,
        ;
        assert(pixel_chunk(after, chans, j) =~= pixel_chunk(bytes, chans, j));
    } else {
        assert((i + 1) * chans <= j * chans) by (nonlinear_arith)
            requires
                i + 1 <= j,
                chans > 0,
        ;
        assert(pixel_chunk(after, chans, j) =~= pixel_chunk(bytes, chans, j));
    }
}

} // verus!
