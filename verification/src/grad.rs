//! Edge gradients: the Sobel gradient of each pixel of an RGB image and,
//! for each 4x4 block, the pixel whose gradient is strongest.
use vstd::prelude::*;

verus! {

/// Side of the square blocks the image is cut into.
pub const BLOCK_SIZE: usize = 4usize;

/// An 8-bit RGB image, row after row, three bytes per pixel.
#[derive(Clone, Debug)]
pub struct RgbImage {
    pub width: u32,
    pub height: u32,
    pub data: Vec<u8>,
}

impl RgbImage {
    /// The bytes are exactly the image's pixels.
    pub open spec fn wf(&self) -> bool {
        self.data@.len() == self.width * self.height * 3
    }
}

/// Channel `c` of pixel (`x`, `y`).
pub open spec fn channel(img: RgbImage, x: int, y: int, c: int) -> int {
    img.data@[(y * img.width + x) * 3 + c] as int
}

/// `v - 1`, but not below zero.
pub open spec fn dec_sat(v: int) -> int {
    if v > 0 {
        v - 1
    } else {
        0
    }
}

/// `v + 1`, but not above `max`.
pub open spec fn inc_clamp(v: int, max: int) -> int {
    if v + 1 <= max {
        v + 1
    } else {
        max
    }
}

/// The horizontal Sobel gradient of channel `c` at (`x`, `y`), neighbours
/// past the edges replaced by the edge pixels: left column minus right
/// column, weighted 1, 2, 1 from top to bottom.
pub open spec fn sobel_x(img: RgbImage, x: int, y: int, c: int) -> int {
    let l = dec_sat(x);
    let r = inc_clamp(x, img.width - 1);
    let t = dec_sat(y);
    let b = inc_clamp(y, img.height - 1);
    channel(img, l, t, c) - channel(img, r, t, c) + 2 * channel(img, l, y, c) - 2 * channel(
        img,
        r,
        y,
        c,
    ) + channel(img, l, b, c) - channel(img, r, b, c)
}

/// The vertical Sobel gradient of channel `c` at (`x`, `y`): top row minus
/// bottom row, weighted 1, 2, 1 from left to right.
pub open spec fn sobel_y(img: RgbImage, x: int, y: int, c: int) -> int {
    let l = dec_sat(x);
    let r = inc_clamp(x, img.width - 1);
    let t = dec_sat(y);
    let b = inc_clamp(y, img.height - 1);
    channel(img, l, t, c) + 2 * channel(img, x, t, c) + channel(img, r, t, c) - channel(img, l, b, c)
        - 2 * channel(img, x, b, c) - channel(img, r, b, c)
}

/// Reads channel `c` of pixel (`x`, `y`).
fn read_channel(img: &RgbImage, x: usize, y: usize, c: usize) -> (v: i32)
    requires
        img.wf(),
        x < img.width,
        y < img.height,
        c < 3,
    ensures
        v == channel(*img, x as int, y as int, c as int),
{
    let w = img.width as usize;
    let n = img.data.len();
    proof {
        lemma_pixel_index(x as int, y as int, c as int, img.width as int, img.height as int);
    }
    assert((y * w + x) * 3 + c < n);
    img.data[(y * w + x) * 3 + c] as i32
}

/// Channel indices of pixels inside the image lie inside its bytes.
proof fn lemma_pixel_index(x: int, y: int, c: int, w: int, h: int)
    requires
        0 <= x < w,
        0 <= y < h,
        0 <= c < 3,
    ensures
        0 <= (y * w + x) * 3 + c < w * h * 3,
        0 <= y * w + x < w * h,
        y * w <= w * h,
{
    assert(y * w + x < w * h) by (nonlinear_arith)
        requires
            y + 1 <= h,
            x < w,
            0 <= x,
    ;
    assert(0 <= y * w) by (nonlinear_arith)
        requires
            y >= 0,
            w >= 0,
    ;
    assert((y * w + x) * 3 + c < w * h * 3) by (nonlinear_arith)
        requires
            y * w + x < w * h,
            c < 3,
    ;
}

/// The horizontal and vertical Sobel gradients of the three channels at
/// (`x`, `y`).
pub fn sobel(img: &RgbImage, x: usize, y: usize) -> (g: ([i32; 3], [i32; 3]))
    requires
        img.wf(),
        x < img.width,
        y < img.height,
    ensures
        forall|c: int| 0 <= c < 3 ==> #[trigger] g.0[c] == sobel_x(*img, x as int, y as int, c),
        forall|c: int| 0 <= c < 3 ==> #[trigger] g.1[c] == sobel_y(*img, x as int, y as int, c),
{
    let w = img.width as usize;
    let h = img.height as usize;
    let l = if x > 0 {
        x - 1
    } else {
        0
    };
    let r = if x + 1 <= w - 1 {
        x + 1
    } else {
        w - 1
    };
    let t = if y > 0 {
        y - 1
    } else {
        0
    };
    let b = if y + 1 <= h - 1 {
        y + 1
    } else {
        h - 1
    };
    let mut gx: [i32; 3] = [0, 0, 0];
    let mut gy: [i32; 3] = [0, 0, 0];
    let mut c: usize = 0;
    while c < 3
        invariant
            img.wf(),
            w == img.width,
            h == img.height,
            x < w,
            y < h,
            l == dec_sat(x as int),
            r == inc_clamp(x as int, w - 1),
            t == dec_sat(y as int),
            b == inc_clamp(y as int, h - 1),
            c <= 3,
            forall|k: int| 0 <= k < c ==> #[trigger] gx[k] == sobel_x(*img, x as int, y as int, k),
            forall|k: int| 0 <= k < c ==> #[trigger] gy[k] == sobel_y(*img, x as int, y as int, k),
        decreases 3 - c,
    {
        let lt = read_channel(img, l, t, c);
        let xt = read_channel(img, x, t, c);
        let rt = read_channel(img, r, t, c);
        let ly = read_channel(img, l, y, c);
        let ry = read_channel(img, r, y, c);
        let lb = read_channel(img, l, b, c);
        let xb = read_channel(img, x, b, c);
        let rb = read_channel(img, r, b, c);
        gx[c] = lt - rt + 2 * ly - 2 * ry + lb - rb;
        gy[c] = lt + 2 * xt + rt - lb - 2 * xb - rb;
        c = c + 1;
    }
    (gx, gy)
}

/// The strength by which blocks rank a pixel's gradient: the largest, over
/// the channels, of the squared gradient length.
pub open spec fn strength(img: RgbImage, x: int, y: int) -> int {
    let s0 = sobel_x(img, x, y, 0) * sobel_x(img, x, y, 0) + sobel_y(img, x, y, 0) * sobel_y(
        img,
        x,
        y,
        0,
    );
    let s1 = sobel_x(img, x, y, 1) * sobel_x(img, x, y, 1) + sobel_y(img, x, y, 1) * sobel_y(
        img,
        x,
        y,
        1,
    );
    let s2 = sobel_x(img, x, y, 2) * sobel_x(img, x, y, 2) + sobel_y(img, x, y, 2) * sobel_y(
        img,
        x,
        y,
        2,
    );
    let m = if s0 >= s1 {
        s0
    } else {
        s1
    };
    if m >= s2 {
        m
    } else {
        s2
    }
}

/// The pixel of a block at (`bx`, `by`) visited `k`-th: rows of the block
/// from top to bottom, each from left to right.
pub open spec fn block_pixel(bx: int, by: int, k: int) -> (int, int) {
    (bx + k % 4, by + k / 4)
}

/// The pixel chosen in the block at (`bx`, `by`): it has the greatest
/// strength, and no later pixel of the block is as strong.
pub open spec fn is_block_choice(img: RgbImage, bx: int, by: int, k: int) -> bool {
    &&& 0 <= k < 16
    &&& forall|j: int|
        0 <= j < 16 ==> #[trigger] strength(img, block_pixel(bx, by, j).0, block_pixel(bx, by, j).1)
            <= strength(img, block_pixel(bx, by, k).0, block_pixel(bx, by, k).1)
    &&& forall|j: int|
        k < j < 16 ==> #[trigger] strength(img, block_pixel(bx, by, j).0, block_pixel(bx, by, j).1)
            < strength(img, block_pixel(bx, by, k).0, block_pixel(bx, by, k).1)
}

/// Channel values and Sobel gradients stay small.
proof fn lemma_sobel_bounds(img: RgbImage, x: int, y: int, c: int)
    requires
        img.wf(),
        0 <= x < img.width,
        0 <= y < img.height,
        0 <= c < 3,
    ensures
        -1020 <= sobel_x(img, x, y, c) <= 1020,
        -1020 <= sobel_y(img, x, y, c) <= 1020,
{
    let l = dec_sat(x);
    let r = inc_clamp(x, img.width - 1);
    let t = dec_sat(y);
    let b = inc_clamp(y, img.height - 1);
    lemma_pixel_index(l, t, c, img.width as int, img.height as int);
    lemma_pixel_index(r, t, c, img.width as int, img.height as int);
    lemma_pixel_index(x, t, c, img.width as int, img.height as int);
    lemma_pixel_index(l, y, c, img.width as int, img.height as int);
    lemma_pixel_index(r, y, c, img.width as int, img.height as int);
    lemma_pixel_index(l, b, c, img.width as int, img.height as int);
    lemma_pixel_index(x, b, c, img.width as int, img.height as int);
    lemma_pixel_index(r, b, c, img.width as int, img.height as int);
}

/// Computes [`strength`] from the gradients of a pixel.
fn strength_of(g: &([i32; 3], [i32; 3]), Ghost(img): Ghost<RgbImage>, Ghost(x): Ghost<int>, Ghost(y): Ghost<int>) -> (s: u32)
    requires
        img.wf(),
        0 <= x < img.width,
        0 <= y < img.height,
        forall|c: int| 0 <= c < 3 ==> #[trigger] g.0[c] == sobel_x(img, x, y, c),
        forall|c: int| 0 <= c < 3 ==> #[trigger] g.1[c] == sobel_y(img, x, y, c),
    ensures
        s == strength(img, x, y),
{
    proof {
        lemma_sobel_bounds(img, x, y, 0);
        lemma_sobel_bounds(img, x, y, 1);
        lemma_sobel_bounds(img, x, y, 2);
        assert(g.0[0] * g.0[0] <= 1020 * 1020) by (nonlinear_arith)
            requires
                -1020 <= g.0[0] <= 1020,
        ;
        assert(g.1[0] * g.1[0] <= 1020 * 1020) by (nonlinear_arith)
            requires
                -1020 <= g.1[0] <= 1020,
        ;
        assert(g.0[1] * g.0[1] <= 1020 * 1020) by (nonlinear_arith)
            requires
                -1020 <= g.0[1] <= 1020,
        ;
        assert(g.1[1] * g.1[1] <= 1020 * 1020) by (nonlinear_arith)
            requires
                -1020 <= g.1[1] <= 1020,
        ;
        assert(g.0[2] * g.0[2] <= 1020 * 1020) by (nonlinear_arith)
            requires
                -1020 <= g.0[2] <= 1020,
        ;
        assert(g.1[2] * g.1[2] <= 1020 * 1020) by (nonlinear_arith)
            requires
                -1020 <= g.1[2] <= 1020,
        ;
        assert(0 <= g.0[0] * g.0[0]) by (nonlinear_arith);
        assert(0 <= g.1[0] * g.1[0]) by (nonlinear_arith);
        assert(0 <= g.0[1] * g.0[1]) by (nonlinear_arith);
        assert(0 <= g.1[1] * g.1[1]) by (nonlinear_arith);
        assert(0 <= g.0[2] * g.0[2]) by (nonlinear_arith);
        assert(0 <= g.1[2] * g.1[2]) by (nonlinear_arith);
    }
    let s0 = (g.0[0] * g.0[0] + g.1[0] * g.1[0]) as u32;
    let s1 = (g.0[1] * g.0[1] + g.1[1] * g.1[1]) as u32;
    let s2 = (g.0[2] * g.0[2] + g.1[2] * g.1[2]) as u32;
    let m = if s0 >= s1 {
        s0
    } else {
        s1
    };
    if m >= s2 {
        m
    } else {
        s2
    }
}

/// The strongest gradient of the 4x4 block whose top-left pixel is
/// (`bx`, `by`), as [`is_block_choice`] picks it.
pub fn block_gradient(img: &RgbImage, bx: usize, by: usize) -> (r: (usize, usize, [i32; 3], [i32; 3]))
    requires
        img.wf(),
        bx + 3 < img.width,
        by + 3 < img.height,
    ensures
        exists|k: int|
            #[trigger] is_block_choice(*img, bx as int, by as int, k) && r.0 == block_pixel(
                bx as int,
                by as int,
                k,
            ).0 && r.1 == block_pixel(bx as int, by as int, k).1,
        forall|c: int| 0 <= c < 3 ==> #[trigger] r.2[c] == sobel_x(*img, r.0 as int, r.1 as int, c),
        forall|c: int| 0 <= c < 3 ==> #[trigger] r.3[c] == sobel_y(*img, r.0 as int, r.1 as int, c),
{
    let mut best = sobel(img, bx, by);
    let mut best_s = strength_of(&best, Ghost(*img), Ghost(bx as int), Ghost(by as int));
    let mut best_x = bx;
    let mut best_y = by;
    let ghost mut best_k: int = 0;
    let mut k: usize = 1;
    while k < 16
        invariant
            img.wf(),
            bx + 3 < img.width,
            by + 3 < img.height,
            1 <= k <= 16,
            0 <= best_k < k,
            best_x == block_pixel(bx as int, by as int, best_k).0,
            best_y == block_pixel(bx as int, by as int, best_k).1,
            best_s == strength(*img, best_x as int, best_y as int),
            forall|c: int| 0 <= c < 3 ==> #[trigger] best.0[c] == sobel_x(*img, best_x as int, best_y as int, c),
            forall|c: int| 0 <= c < 3 ==> #[trigger] best.1[c] == sobel_y(*img, best_x as int, best_y as int, c),
            forall|j: int|
                0 <= j < k ==> #[trigger] strength(
                    *img,
                    block_pixel(bx as int, by as int, j).0,
                    block_pixel(bx as int, by as int, j).1,
                ) <= best_s,
            forall|j: int|
                best_k < j < k ==> #[trigger] strength(
                    *img,
                    block_pixel(bx as int, by as int, j).0,
                    block_pixel(bx as int, by as int, j).1,
                ) < best_s,
        decreases 16 - k,
    {
        let px = bx + k % 4;
        let py = by + k / 4;
        let g = sobel(img, px, py);
        let s = strength_of(&g, Ghost(*img), Ghost(px as int), Ghost(py as int));
        if s >= best_s {
            best = g;
            best_s = s;
            best_x = px;
            best_y = py;
            proof {
                best_k = k as int;
            }
        }
        k = k + 1;
    }
    assert(is_block_choice(*img, bx as int, by as int, best_k));
    (best_x, best_y, best.0, best.1)
}

/// The number of whole blocks the image is cut into: as many as fit across
/// times as many as fit down.
pub open spec fn block_count(w: int, h: int) -> int {
    (w / 4) * (h / 4)
}

/// The top-left pixel of the `off`-th block: blocks are laid out `4 * off`
/// pixels along the rows of an image `w` pixels wide, each block row four
/// pixel rows high.
pub open spec fn block_origin(off: int, w: int) -> (int, int) {
    ((off * 4) % w, ((off * 4) / w) * 4)
}

/// Every block lies inside the image, so no pixel of a block is read past
/// its right or bottom edge.
pub open spec fn blocks_fit(w: int, h: int) -> bool {
    forall|off: int|
        #![trigger block_origin(off, w)]
        0 <= off < block_count(w, h) ==> block_origin(off, w).0 + 3 < w && block_origin(off, w).1 + 3
            < h
}

/// The gradients `gx`, `gy` are those of the pixel that
/// [`is_block_choice`] picks in the block at (`bx`, `by`).
pub open spec fn is_block_gradient(
    img: RgbImage,
    bx: int,
    by: int,
    gx: [i32; 3],
    gy: [i32; 3],
) -> bool {
    exists|k: int|
        #[trigger] is_block_choice(img, bx, by, k) && forall|c: int|
            0 <= c < 3 ==> gx[c] == sobel_x(img, block_pixel(bx, by, k).0, block_pixel(bx, by, k).1, c)
                && gy[c] == sobel_y(img, block_pixel(bx, by, k).0, block_pixel(bx, by, k).1, c)
}

/// The bucket an edge line falls in: its distance from the image centre
/// and its angle, both rounded to whole buckets.
#[derive(Clone, Copy, Debug, PartialEq, Eq, Hash, Structural)]
pub struct EdgeBucket {
    pub r: i32,
    pub ang: i32,
}

/// The strongest gradient of one block of an image.
#[derive(Clone, Copy, Debug)]
pub struct BlockGradient {
    /// Left column of the block.
    pub x: usize,
    /// Top row of the block.
    pub y: usize,
    /// Horizontal gradient of each channel.
    pub gx: [i32; 3],
    /// Vertical gradient of each channel.
    pub gy: [i32; 3],
}

/// Whether every block of an image `width` by `height` lies inside it.
pub fn blocks_in_bounds(width: u32, height: u32) -> (b: bool)
    ensures
        b == blocks_fit(width as int, height as int),
{
    let w = width as u64;
    let h = height as u64;
    proof {
        lemma_block_count_bound(w as int, h as int);
        assert(w * h <= u32::MAX * u32::MAX) by (nonlinear_arith)
            requires
                w <= u32::MAX,
                h <= u32::MAX,
        ;
    }
    let count = (w / 4) * (h / 4);
    let mut off: u64 = 0;
    while off < count
        invariant
            w == width,
            h == height,
            count == block_count(w as int, h as int),
            count * 16 <= w * h,
            w * h <= u32::MAX * u32::MAX,
            off <= count,
            forall|o: int|
                #![trigger block_origin(o, w as int)]
                0 <= o < off ==> block_origin(o, w as int).0 + 3 < w && block_origin(o, w as int).1 + 3
                    < h,
        decreases count - off,
    {
        assert(w > 0) by (nonlinear_arith)
            requires
                off < count,
                count == (w / 4) * (h / 4),
        ;
        let x = (off * 4) % w;
        let y = ((off * 4) / w) * 4;
        assert(y <= off * 16) by (nonlinear_arith)
            requires
                y == ((off as int * 4) / (w as int)) * 4,
                w > 0,
                off >= 0,
        ;
        if x + 3 >= w || y + 3 >= h {
            assert(!(block_origin(off as int, width as int).0 + 3 < width && block_origin(
                off as int,
                width as int,
            ).1 + 3 < height));
            return false;
        }
        off = off + 1;
    }
    true
}

/// There are at most a sixteenth as many blocks as pixels.
proof fn lemma_block_count_bound(w: int, h: int)
    requires
        0 <= w,
        0 <= h,
    ensures
        block_count(w, h) * 16 <= w * h,
        block_count(w, h) >= 0,
{
    assert((w / 4) * (h / 4) * 16 <= w * h) by (nonlinear_arith)
        requires
            0 <= w,
            0 <= h,
    ;
    assert((w / 4) * (h / 4) >= 0) by (nonlinear_arith)
        requires
            0 <= w,
            0 <= h,
    ;
}

/// Images whose width is a multiple of four have all their blocks inside
/// them.
pub proof fn lemma_aligned_blocks_fit(w: int, h: int)
    requires
        0 < w,
        0 <= h,
        w % 4 == 0,
    ensures
        blocks_fit(w, h),
{
    assert forall|off: int| 0 <= off < block_count(w, h) implies #[trigger] block_origin(off, w).0 + 3
        < w && block_origin(off, w).1 + 3 < h by {
        let q = w / 4;
        assert(w == q * 4);
        assert((off * 4) % w == (off % q) * 4 && (off * 4) / w == off / q) by (nonlinear_arith)
            requires
                w == q * 4,
                q > 0,
                off >= 0,
        ;
        assert(off / q < h / 4) by (nonlinear_arith)
            requires
                0 <= off < q * (h / 4),
                q > 0,
        ;
    }
}

/// The strongest gradient of every block of an image, block by block in
/// the order of [`block_origin`]: the integer part of the edge-gradient
/// image, whose edge lines are then fitted and drawn from these in floating
/// point. A block reaching past the image would read pixels that are not
/// there, so every block is required to fit (see [`blocks_in_bounds`]).
pub fn gradients(img: &RgbImage) -> (v: Vec<BlockGradient>)
    requires
        img.wf(),
        blocks_fit(img.width as int, img.height as int),
    ensures
        v.len() == block_count(img.width as int, img.height as int),
        forall|i: int|
            0 <= i < v.len() ==> {
                &&& (#[trigger] v[i]).x == block_origin(i, img.width as int).0
                &&& v[i].y == block_origin(i, img.width as int).1
                &&& is_block_gradient(*img, v[i].x as int, v[i].y as int, v[i].gx, v[i].gy)
            },
{
    let w = img.width as usize;
    let h = img.height as usize;
    let n = img.data.len();
    proof {
        lemma_block_count_bound(w as int, h as int);
        assert(w * h <= n) by (nonlinear_arith)
            requires
                n == w * h * 3,
                w >= 0,
                h >= 0,
        ;
    }
    let count = (w / 4) * (h / 4);
    let mut v: Vec<BlockGradient> = Vec::new();
    let mut off: usize = 0;
    while off < count
        invariant
            img.wf(),
            blocks_fit(img.width as int, img.height as int),
            w == img.width,
            h == img.height,
            count == block_count(w as int, h as int),
            count * 16 <= w * h,
            w * h <= n,
            n == img.data.len(),
            off <= count,
            v.len() == off,
            forall|i: int|
                0 <= i < v.len() ==> {
                    &&& (#[trigger] v[i]).x == block_origin(i, w as int).0
                    &&& v[i].y == block_origin(i, w as int).1
                    &&& is_block_gradient(*img, v[i].x as int, v[i].y as int, v[i].gx, v[i].gy)
                },
        decreases count - off,
    {
        assert(w > 0) by (nonlinear_arith)
            requires
                off < count,
                count == (w / 4) * (h / 4),
        ;
        assert(block_origin(off as int, w as int).0 + 3 < w && block_origin(off as int, w as int).1
            + 3 < h);
        let x = (off * 4) % w;
        let y = ((off * 4) / w) * 4;
        let (px, py, gx, gy) = block_gradient(img, x, y);
        let ghost k = choose|k: int|
            #[trigger] is_block_choice(*img, x as int, y as int, k) && px == block_pixel(
                x as int,
                y as int,
                k,
            ).0 && py == block_pixel(x as int, y as int, k).1;
        assert(is_block_choice(*img, x as int, y as int, k));
        v.push(BlockGradient { x, y, gx, gy });
        off = off + 1;
    }
    v
}

/// The squared length of the Sobel gradient of channel `c` at (`x`, `y`).
pub open spec fn gradient_sq(img: RgbImage, x: int, y: int, c: int) -> int {
    sobel_x(img, x, y, c) * sobel_x(img, x, y, c) + sobel_y(img, x, y, c) * sobel_y(img, x, y, c)
}

/// A block ranks a pixel by the largest squared gradient length over the
/// three colour channels: no channel's is larger than the pixel's strength,
/// and one channel's equals it, so an edge in any single channel counts.
pub proof fn lemma_strength_is_largest_channel(img: RgbImage, x: int, y: int)
    ensures
        forall|c: int| 0 <= c < 3 ==> #[trigger] gradient_sq(img, x, y, c) <= strength(img, x, y),
        exists|c: int| 0 <= c < 3 && strength(img, x, y) == #[trigger] gradient_sq(img, x, y, c),
{
    assert(gradient_sq(img, x, y, 0) <= strength(img, x, y));
    assert(gradient_sq(img, x, y, 1) <= strength(img, x, y));
    assert(gradient_sq(img, x, y, 2) <= strength(img, x, y));
    assert forall|c: int| 0 <= c < 3 implies #[trigger] gradient_sq(img, x, y, c) <= strength(img, x, y) by {
        if c == 0 {
        } else if c == 1 {
        } else {
        }
    }
    if strength(img, x, y) == gradient_sq(img, x, y, 0) {
    } else if strength(img, x, y) == gradient_sq(img, x, y, 1) {
    } else {
        assert(strength(img, x, y) == gradient_sq(img, x, y, 2));
    }
}

/// Where channel `c` of the image is flat (one value everywhere), it has
/// no edge: both of its Sobel gradients are zero at every pixel.
pub proof fn lemma_flat_channel_has_no_gradient(img: RgbImage, c: int, v: int, x: int, y: int)
    requires
        0 <= x < img.width,
        0 <= y < img.height,
        forall|px: int, py: int|
            0 <= px < img.width && 0 <= py < img.height ==> #[trigger] channel(img, px, py, c) == v,
    ensures
        sobel_x(img, x, y, c) == 0,
        sobel_y(img, x, y, c) == 0,
{
    let l = dec_sat(x);
    let r = inc_clamp(x, img.width - 1);
    let t = dec_sat(y);
    let b = inc_clamp(y, img.height - 1);
    assert(channel(img, l, t, c) == v);
    assert(channel(img, x, t, c) == v);
    assert(channel(img, r, t, c) == v);
    assert(channel(img, l, y, c) == v);
    assert(channel(img, r, y, c) == v);
    assert(channel(img, l, b, c) == v);
    assert(channel(img, x, b, c) == v);
    assert(channel(img, r, b, c) == v);
}

/// Where channel `c` rises by `a` from each column to the next (and is
/// the same down each column), the horizontal gradient inside the image is
/// `-8 * a` (left column minus right column, weighted 1, 2, 1) and the
/// vertical one is zero.
pub proof fn lemma_ramp_channel_gradient(img: RgbImage, c: int, a: int, v: int, x: int, y: int)
    requires
        1 <= x < img.width - 1,
        0 <= y < img.height,
        forall|px: int, py: int|
            0 <= px < img.width && 0 <= py < img.height ==> #[trigger] channel(img, px, py, c) == v
                + a * px,
    ensures
        sobel_x(img, x, y, c) == -8 * a,
        sobel_y(img, x, y, c) == 0,
{
    let t = dec_sat(y);
    let b = inc_clamp(y, img.height - 1);
    assert(channel(img, x - 1, t, c) == v + a * (x - 1));
    assert(channel(img, x, t, c) == v + a * x);
    assert(channel(img, x + 1, t, c) == v + a * (x + 1));
    assert(channel(img, x - 1, y, c) == v + a * (x - 1));
    assert(channel(img, x + 1, y, c) == v + a * (x + 1));
    assert(channel(img, x - 1, b, c) == v + a * (x - 1));
    assert(channel(img, x, b, c) == v + a * x);
    assert(channel(img, x + 1, b, c) == v + a * (x + 1));
    assert(a * (x + 1) == a * x + a) by (nonlinear_arith);
    assert(a * (x - 1) == a * x - a) by (nonlinear_arith);
}

} // verus!
