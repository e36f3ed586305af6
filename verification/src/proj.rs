//! Projection settings and the cpu projector's last step: writing the
//! source pixel chosen for each output pixel into the output frame.
use vstd::prelude::*;

use crate::frame::{min_int, num_chunks, FrameBufferMut};
use crate::loader;
use crate::pixel::{chunk_bounds, pixel_copy_fits, with_pixel, PixelBufferMutExt};

verus! {

/// What the projector does.
#[derive(Clone, Copy, Debug, PartialEq, Eq, Structural)]
pub enum ProjectionStyle {
    /// The normal stitching process.
    Normal,
}

impl Default for ProjectionStyle {
    fn default() -> (s: Self)
        ensures
            s == ProjectionStyle::Normal,
    {
        ProjectionStyle::Normal
    }
}

/// A camera loader's settings together with the path of its mask image.
#[derive(Clone, Debug)]
pub struct MaskLoaderConfig {
    pub loader: loader::Config,
    pub mask_path: Option<String>,
}

/// Size of a forward projection computed on the gpu.
#[derive(Clone, Copy, Debug, PartialEq, Eq, Structural)]
pub struct GpuForwProj {
    pub width: usize,
    pub height: usize,
}

/// A projector that works on the cpu, with the size of its forward
/// projection when one is known.
#[derive(Clone, Copy)]
pub struct CpuProjector(Option<(usize, usize)>);

impl CpuProjector {
    /// The projector's forward projection size, if any.
    pub closed spec fn size(&self) -> Option<(usize, usize)> {
        self.0
    }

    /// A projector with no forward projection size.
    pub fn none() -> (p: Self)
        ensures
            p.size() is None,
    {
        Self(None)
    }

    /// A projector whose forward projections are `width` x `height`.
    pub fn sized(width: usize, height: usize) -> (p: Self)
        ensures
            p.size() == Some((width, height)),
    {
        Self(Some((width, height)))
    }

    /// The size of the forward projection this projector creates; a
    /// projector made with [`CpuProjector::none`] has none to give, so that
    /// is excluded.
    pub fn forward_size(&self) -> (s: (usize, usize))
        requires
            self.size() is Some,
        ensures
            Some(s) == self.size(),
    {
        match self.0 {
            Some(s) => s,
            None => (0, 0),
        }
    }

    /// Writes into the output frame `buf` the source pixel chosen for each
    /// of its pixels: pixel `i` gets `picks[i]` copied in (see
    /// [`crate::pixel::copy_pixel_into`]) and stays as it is when no camera
    /// sees it (`None`). Pixels and picks are paired up to the shorter of
    /// the two.
    pub fn load_back<B: FrameBufferMut>(&self, picks: &[Option<&[u8]>], buf: &mut B)
        requires
            old(buf).spec_chans() > 0,
            forall|i: int|
                0 <= i < picks@.len() && i < num_chunks(
                    old(buf).spec_bytes().len() as int,
                    old(buf).spec_chans() as int,
                ) ==> (#[trigger] picks@[i] matches Some(p) ==> pixel_copy_fits(
                    p@.len() as int,
                    chunk_bounds(
                        old(buf).spec_bytes().len() as int,
                        old(buf).spec_chans() as int,
                        i,
                    ).1,
                )),
        ensures
            final(buf).spec_bytes() == loaded_back(
                old(buf).spec_bytes(),
                old(buf).spec_chans() as int,
                picks_view(picks@),
                min_int(
                    picks@.len() as int,
                    num_chunks(old(buf).spec_bytes().len() as int, old(buf).spec_chans() as int),
                ),
            ),
            final(buf).spec_width() == old(buf).spec_width(),
            final(buf).spec_height() == old(buf).spec_height(),
            final(buf).spec_chans() == old(buf).spec_chans(),
    {
        let chans = buf.chans();
        let len = buf.as_bytes().len();
        proof {
            lemma_num_chunks_value(len as int, chans as int);
        }
        let n_pixels = if len % chans == 0 {
            len / chans
        } else {
            len / chans + 1
        };
        proof {
            lemma_num_chunks_value(len as int, chans as int);
        }
        let n = if picks.len() < n_pixels {
            picks.len()
        } else {
            n_pixels
        };
        let ghost start = buf.spec_bytes();
        let mut i: usize = 0;
        while i < n
            invariant
                chans == buf.spec_chans(),
                chans > 0,
                len == buf.spec_bytes().len(),
                n_pixels == num_chunks(len as int, chans as int),
                n <= picks@.len(),
                n <= n_pixels,
                n == min_int(picks@.len() as int, n_pixels as int),
                i <= n,
                start.len() == len,
                buf.spec_bytes() == loaded_back(start, chans as int, picks_view(picks@), i as int),
                buf.spec_width() == old(buf).spec_width(),
                buf.spec_height() == old(buf).spec_height(),
                forall|j: int|
                    0 <= j < picks@.len() && j < n_pixels ==> (#[trigger] picks@[j] matches Some(p)
                        ==> pixel_copy_fits(
                        p@.len() as int,
                        chunk_bounds(len as int, chans as int, j).1,
                    )),
            decreases n - i,
        {
            match picks[i] {
                Some(p) => {
                    proof {
                        lemma_loaded_back_len(start, chans as int, picks_view(picks@), i as int);
                    }
                    buf.write_pixel(i, p);
                },
                None => {},
            }
            proof {
                lemma_loaded_back_len(start, chans as int, picks_view(picks@), i as int);
            }
            i = i + 1;
        }
    }
}

/// The bytes of each chosen pixel.
pub open spec fn picks_view(picks: Seq<Option<&[u8]>>) -> Seq<Option<Seq<u8>>> {
    picks.map_values(|p: Option<&[u8]>|
        match p {
            Some(s) => Some(s@),
            None => None,
        })
}

/// `bytes` after the first `n` picks have been written into its pixels.
pub open spec fn loaded_back(bytes: Seq<u8>, chans: int, picks: Seq<Option<Seq<u8>>>, n: int) -> Seq<
    u8,
>
    decreases n,
{
    if n <= 0 {
        bytes
    } else {
        let prev = loaded_back(bytes, chans, picks, n - 1);
        match picks[n - 1] {
            Some(p) => with_pixel(
                prev,
                chunk_bounds(bytes.len() as int, chans, n - 1).0,
                chunk_bounds(bytes.len() as int, chans, n - 1).1,
                p,
            ),
            None => prev,
        }
    }
}

/// Writing picks keeps the number of bytes.
proof fn lemma_loaded_back_len(bytes: Seq<u8>, chans: int, picks: Seq<Option<Seq<u8>>>, n: int)
    requires
        chans > 0,
        0 <= n <= num_chunks(bytes.len() as int, chans),
        n <= picks.len(),
        forall|j: int|
            0 <= j < n ==> (#[trigger] picks[j] matches Some(p) ==> pixel_copy_fits(
                p.len() as int,
                chunk_bounds(bytes.len() as int, chans, j).1,
            )),
    ensures
        loaded_back(bytes, chans, picks, n).len() == bytes.len(),
    decreases n,
{
    if n > 0 {
        lemma_loaded_back_len(bytes, chans, picks, n - 1);
    }
}

/// The pixel count of a buffer, computed the way the loop above does.
proof fn lemma_num_chunks_value(len: int, chans: int)
    requires
        chans > 0,
        len >= 0,
    ensures
        num_chunks(len, chans) == if len % chans == 0 {
            len / chans
        } else {
            len / chans + 1
        },
        len % chans != 0 ==> len / chans + 1 <= len,
{
    vstd::arithmetic::div_mod::lemma_fundamental_div_mod(len, chans);
    let q = len / chans;
    let r = len % chans;
    assert(q * chans == chans * q) by (nonlinear_arith);
    assert((q + 1) * chans == q * chans + chans) by (nonlinear_arith);
    assert(q >= 0) by (nonlinear_arith)
        requires
            len >= 0,
            chans > 0,
            q == len / chans,
    ;
    assert(chans * q >= q) by (nonlinear_arith)
        requires
            q >= 0,
            chans >= 1,
    ;
    if r == 0 {
        vstd::arithmetic::div_mod::lemma_fundamental_div_mod_converse(len + chans - 1, chans, q, chans - 1);
    } else {
        vstd::arithmetic::div_mod::lemma_fundamental_div_mod_converse(len + chans - 1, chans, q + 1, r - 1);
    }
}

} // verus!
