//! The test-pattern loader: a chessboard of one color and black, drawn
//! row by row into a frame of RGBA pixels.
use vstd::prelude::*;

use crate::frame::min_int;
use crate::loader::{Config, Error, OwnedWriteBuffer};

verus! {

/// The opaque black of the "off" cells, as an RGBA pixel read
/// little-endian (bytes 0, 0, 0, 0xff).
pub const OFF_COLOR: u32 = 0xff00_0000u32;

/// Bytes per pixel of the frames the pattern loader fills.
pub const PATTERN_CHANS: u32 = 4u32;

/// The RGBA pixel of `color` with an opaque alpha, read little-endian.
pub open spec fn on_color(color: [u8; 3]) -> u32 {
    (color[0] as int + color[1] as int * 0x100 + color[2] as int * 0x1_0000 + 0xff00_0000) as u32
}

/// Computes [`on_color`].
pub fn on_color_pixel(color: [u8; 3]) -> (p: u32)
    ensures
        p == on_color(color),
{
    color[0] as u32 + color[1] as u32 * 0x100u32 + color[2] as u32 * 0x1_0000u32 + 0xff00_0000u32
}

/// Rows per full on/off band pair: `grid` dark rows then `grid` lit ones.
pub open spec fn band(grid: int) -> int {
    2 * grid
}

/// Rows drawn as whole band pairs.
pub open spec fn full_rows(height: int, grid: int) -> int {
    (height / band(grid)) * band(grid)
}

/// Rows left over after the whole band pairs.
pub open spec fn rest_rows(height: int, grid: int) -> int {
    height % band(grid)
}

/// Dark rows drawn after the whole band pairs.
pub open spec fn tail_dark_rows(height: int, grid: int) -> int {
    min_int(grid, rest_rows(height, grid))
}

/// Lit rows drawn last: as many as the rest exceeds `grid`, at most `grid`.
pub open spec fn tail_lit_rows(height: int, grid: int) -> int {
    let over = rest_rows(height, grid) - grid;
    min_int(grid, if over > 0 {
        over
    } else {
        0
    })
}

/// Number of rows the pattern draws for a frame `height` rows tall.
pub open spec fn pattern_rows(height: int, grid: int) -> int {
    full_rows(height, grid) + tail_dark_rows(height, grid) + tail_lit_rows(height, grid)
}

/// Whether row `r` of the pattern starts with a lit cell.
pub open spec fn row_starts_lit(r: int, height: int, grid: int) -> bool {
    if r < full_rows(height, grid) {
        r % band(grid) >= grid
    } else if r < full_rows(height, grid) + tail_dark_rows(height, grid) {
        false
    } else {
        true
    }
}

/// Whether column `col` of a row that starts lit (or not) is lit: cells of
/// `grid` pixels alternate along the row.
pub open spec fn cell_lit(starts_lit: bool, col: int, grid: int) -> bool {
    starts_lit != ((col / grid) % 2 == 1)
}

/// The pixel the pattern puts at row `r`, column `col`.
pub open spec fn pattern_pixel(r: int, col: int, height: int, grid: int, lit: u32) -> u32 {
    if cell_lit(row_starts_lit(r, height, grid), col, grid) {
        lit
    } else {
        OFF_COLOR
    }
}

/// The settings of one pattern loader: frame size and chessboard.
#[derive(Clone, Copy, Debug, PartialEq, Eq)]
pub struct PatternLoader {
    pub width: u32,
    pub height: u32,
    pub color: [u8; 3],
    pub grid_size: u32,
}

/// The pattern loader for `spec`'s resolution with the given `color` and
/// `grid_size`: refused with [`Error::InvalidGridSize`] when the width is
/// not a multiple of `grid_size`.
pub fn from_spec(spec: &Config, color: [u8; 3], grid_size: u32) -> (r: Result<PatternLoader, Error>)
    requires
        grid_size > 0,
    ensures
        spec.resolution[0] % grid_size == 0 ==> r == Ok::<PatternLoader, Error>(
            PatternLoader {
                width: spec.resolution[0],
                height: spec.resolution[1],
                color,
                grid_size,
            },
        ),
        spec.resolution[0] % grid_size != 0 ==> r == Err::<PatternLoader, Error>(
            Error::InvalidGridSize {
                grid_size,
                width: spec.resolution[0],
                height: spec.resolution[1],
            },
        ),
{
    let w = spec.resolution[0];
    let h = spec.resolution[1];
    if w % grid_size != 0 {
        return Err(Error::InvalidGridSize { grid_size, width: w, height: h });
    }
    Ok(PatternLoader { width: w, height: h, color, grid_size })
}

impl PatternLoader {
    /// The pattern can be drawn into `len` pixels without running past them.
    pub open spec fn fits(&self, len: int) -> bool {
        &&& self.grid_size > 0
        &&& self.width % self.grid_size == 0
        &&& 2 * self.grid_size <= u32::MAX
        &&& pattern_rows(self.height as int, self.grid_size as int) * self.width <= len
    }

    /// Draws the pattern into `dest` (RGBA pixels read little-endian): row
    /// `r` of the frame starts at pixel `r * width`. The pattern's rows are
    /// the frame's (see [`lemma_pattern_rows_is_height`]); pixels past them
    /// are left as they were.
    pub fn render(&self, dest: &mut [u32])
        requires
            self.fits(old(dest)@.len() as int),
        ensures
            final(dest)@.len() == old(dest)@.len(),
            forall|r: int, col: int|
                0 <= r < pattern_rows(self.height as int, self.grid_size as int) && 0 <= col
                    < self.width ==> #[trigger] final(dest)@[r * self.width + col] == pattern_pixel(
                    r,
                    col,
                    self.height as int,
                    self.grid_size as int,
                    on_color(self.color),
                ),
            forall|k: int|
                pattern_rows(self.height as int, self.grid_size as int) * self.width <= k
                    < old(dest)@.len() ==> #[trigger] final(dest)@[k] == old(dest)@[k],
    {
        let w = self.width;
        let h = self.height;
        let g = self.grid_size;
        let lit = on_color_pixel(self.color);
        let ghost hi = h as int;
        let ghost gi = g as int;
        let ghost old_dest = dest@;
        if w == 0 {
            return;
        }
        let on_off_size = g * 2;
        let num_v_on_offs = h / on_off_size;
        let last_v_on_off_size = h % on_off_size;
        proof {
            lemma_rows_bound(hi, gi);
            assert(dest@.len() == dest.len());
            lemma_mul_le(pattern_rows(hi, gi), pattern_rows(hi, gi), w as int);
            assert(pattern_rows(hi, gi) <= pattern_rows(hi, gi) * w) by (nonlinear_arith)
                requires
                    w >= 1,
                    pattern_rows(hi, gi) >= 0,
            ;
        }
        let mut row: usize = 0;
        let mut b: u32 = 0;
        while b < num_v_on_offs
            invariant
                self.fits(old_dest.len() as int),
                w == self.width,
                w >= 1,
                h == self.height,
                g == self.grid_size,
                gi == g,
                hi == h,
                lit == on_color(self.color),
                on_off_size == 2 * g,
                num_v_on_offs == hi / (2 * gi),
                old_dest.len() == dest@.len(),
                old_dest.len() <= usize::MAX,
                pattern_rows(hi, gi) <= old_dest.len(),
                0 <= full_rows(hi, gi),
                b <= num_v_on_offs,
                row == b * (2 * gi),
                row <= full_rows(hi, gi),
                rendered(dest@, old_dest, row as int, w as int, hi, gi, lit),
            decreases num_v_on_offs - b,
        {
            proof {
                lemma_band_rows(b as int, hi, gi);
                lemma_full_rows_bound(b as int, hi, gi);
                lemma_mul_le(row + 2 * gi, pattern_rows(hi, gi), w as int);
                lemma_mul_le(row + gi, pattern_rows(hi, gi), w as int);
            }
            draw_rows(dest, row, g as usize, false, w, g, Ghost(hi), lit, Ghost(old_dest));
            row = row + g as usize;
            draw_rows(dest, row, g as usize, true, w, g, Ghost(hi), lit, Ghost(old_dest));
            row = row + g as usize;
            b = b + 1;
        }
        proof {
            vstd::arithmetic::div_mod::lemma_fundamental_div_mod(hi, 2 * gi);
            assert(row == full_rows(hi, gi)) by (nonlinear_arith)
                requires
                    row == b * (2 * gi),
                    b == hi / (2 * gi),
                    full_rows(hi, gi) == (hi / (2 * gi)) * (2 * gi),
            ;
        }
        let dark = if g <= last_v_on_off_size {
            g
        } else {
            last_v_on_off_size
        };
        proof {
            lemma_mul_le(row + dark, pattern_rows(hi, gi), w as int);
        }
        draw_rows(dest, row, dark as usize, false, w, g, Ghost(hi), lit, Ghost(old_dest));
        row = row + dark as usize;
        let over = if last_v_on_off_size >= g {
            last_v_on_off_size - g
        } else {
            0
        };
        let lit_rows = if g <= over {
            g
        } else {
            over
        };
        proof {
            assert(row + lit_rows == pattern_rows(hi, gi));
            lemma_mul_le(row + lit_rows, pattern_rows(hi, gi), w as int);
        }
        draw_rows(dest, row, lit_rows as usize, true, w, g, Ghost(hi), lit, Ghost(old_dest));
        proof {
            assert forall|r: int, col: int|
                0 <= r < pattern_rows(hi, gi) && 0 <= col < w implies #[trigger] dest@[r * w + col]
                == pattern_pixel(r, col, hi, gi, lit) by {
                assert(dest@[row_col(r, w as int, col)] == pattern_pixel(r, col, hi, gi, lit));
            }
        }
    }
}

/// Products keep the order of their first factors.
proof fn lemma_mul_le(a: int, b: int, w: int)
    requires
        a <= b,
        w >= 0,
    ensures
        a * w <= b * w,
{
    assert(a * w <= b * w) by (nonlinear_arith)
        requires
            a <= b,
            w >= 0,
    ;
}

/// Index of column `col` of row `r` in a frame `w` pixels wide.
pub open spec fn row_col(r: int, w: int, col: int) -> int {
    r * w + col
}

/// The first `rows` rows of `now` hold the pattern and everything after
/// them is as in `before`.
pub open spec fn rendered(now: Seq<u32>, before: Seq<u32>, rows: int, w: int, h: int, g: int, lit: u32) -> bool {
    &&& now.len() == before.len()
    &&& forall|r: int, col: int|
        0 <= r < rows && 0 <= col < w ==> #[trigger] now[row_col(r, w, col)] == pattern_pixel(
            r,
            col,
            h,
            g,
            lit,
        )
    &&& forall|k: int| rows * w <= k < before.len() ==> #[trigger] now[k] == before[k]
}

/// Draws `count` rows from row `row` on, each starting lit when `starts`.
fn draw_rows(
    dest: &mut [u32],
    row: usize,
    count: usize,
    starts: bool,
    w: u32,
    g: u32,
    Ghost(h): Ghost<int>,
    lit: u32,
    Ghost(before): Ghost<Seq<u32>>,
)
    requires
        g > 0,
        w % g == 0,
        row + count <= usize::MAX,
        (row + count) * w <= old(dest)@.len(),
        old(dest)@.len() <= usize::MAX,
        rendered(old(dest)@, before, row as int, w as int, h, g as int, lit),
        forall|r: int| row <= r < row + count ==> #[trigger] row_starts_lit(r, h, g as int) == starts,
    ensures
        rendered(final(dest)@, before, row + count, w as int, h, g as int, lit),
{
    let mut i: usize = 0;
    while i < count
        invariant
            g > 0,
            w % g == 0,
            i <= count,
            row + count <= usize::MAX,
            (row + count) * w <= dest@.len(),
            dest@.len() <= usize::MAX,
            rendered(dest@, before, row + i, w as int, h, g as int, lit),
            forall|r: int| row <= r < row + count ==> #[trigger] row_starts_lit(r, h, g as int) == starts,
        decreases count - i,
    {
        let ghost r = row + i;
        let ghost prev = dest@;
        proof {
            lemma_row_start_fits(r as int, (row + count) as int, w as int);
        }
        let off = (row + i) * w as usize;
        draw_row(dest, off, w, starts, g, lit);
        proof {
            assert(row_starts_lit(r as int, h, g as int) == starts);
            lemma_row_step(prev, dest@, before, r as int, w as int, h, g as int, lit);
        }
        i = i + 1;
    }
}

/// Extends [`rendered`] by one row once that row holds its pixels and the
/// rest is as it was.
proof fn lemma_row_step(
    prev: Seq<u32>,
    now: Seq<u32>,
    before: Seq<u32>,
    r: int,
    w: int,
    h: int,
    g: int,
    lit: u32,
)
    requires
        r >= 0,
        w >= 0,
        g > 0,
        rendered(prev, before, r, w, h, g, lit),
        now.len() == prev.len(),
        r * w + w <= prev.len(),
        forall|col: int|
            0 <= col < w ==> #[trigger] now[r * w + col] == if cell_lit(
                row_starts_lit(r, h, g),
                col,
                g,
            ) {
                lit
            } else {
                OFF_COLOR
            },
        forall|k: int| 0 <= k < prev.len() && !(r * w <= k < r * w + w) ==> #[trigger] now[k] == prev[k],
    ensures
        rendered(now, before, r + 1, w, h, g, lit),
{
    assert forall|r2: int, col: int| 0 <= r2 < r + 1 && 0 <= col < w implies #[trigger] now[row_col(
        r2,
        w,
        col,
    )] == pattern_pixel(r2, col, h, g, lit) by {
        if r2 == r {
            assert(now[r * w + col] == pattern_pixel(r, col, h, g, lit));
        } else {
            lemma_mul_le(r2 + 1, r, w);
            assert((r2 + 1) * w == r2 * w + w) by (nonlinear_arith);
            assert(0 <= r2 * w) by (nonlinear_arith)
                requires
                    r2 >= 0,
                    w >= 0,
            ;
            assert(now[row_col(r2, w, col)] == prev[row_col(r2, w, col)]);
        }
    }
    assert forall|k: int| (r + 1) * w <= k < before.len() implies #[trigger] now[k] == before[k] by {
        assert((r + 1) * w == r * w + w) by (nonlinear_arith);
        lemma_mul_le(r, r + 1, w);
        assert(0 <= r * w) by (nonlinear_arith)
            requires
                r >= 0,
                w >= 0,
        ;
        assert(now[k] == prev[k]);
    }
}

/// Draws one row of `w` pixels at `off`; cells of `g` pixels alternate,
/// the first one lit when `starts`.
fn draw_row(dest: &mut [u32], off: usize, w: u32, starts: bool, g: u32, lit: u32)
    requires
        g > 0,
        w % g == 0,
        off + w <= old(dest)@.len(),
        old(dest)@.len() <= usize::MAX,
    ensures
        final(dest)@.len() == old(dest)@.len(),
        forall|col: int|
            0 <= col < w ==> #[trigger] final(dest)@[off + col] == if cell_lit(starts, col, g as int) {
                lit
            } else {
                OFF_COLOR
            },
        forall|k: int|
            0 <= k < old(dest)@.len() && !(off <= k < off + w) ==> #[trigger] final(dest)@[k]
                == old(dest)@[k],
{
    let ghost before = dest@;
    let mut t: u32 = 0;
    let mut q: u32 = 0;
    let mut on = starts;
    let ghost mut cell: int = 0;
    while t < w
        invariant
            g > 0,
            off + w <= before.len(),
            before.len() <= usize::MAX,
            dest@.len() == before.len(),
            t <= w,
            t == cell * g + q,
            0 <= q < g,
            cell >= 0,
            on == (starts != (cell % 2 == 1)),
            forall|col: int|
                0 <= col < t ==> #[trigger] dest@[off + col] == if cell_lit(starts, col, g as int) {
                    lit
                } else {
                    OFF_COLOR
                },
            forall|k: int|
                0 <= k < before.len() && !(off <= k < off + t) ==> #[trigger] dest@[k] == before[k],
        decreases w - t,
    {
        proof {
            vstd::arithmetic::div_mod::lemma_fundamental_div_mod_converse(t as int, g as int, cell, q as int);
        }
        dest[off + t as usize] = if on {
            lit
        } else {
            OFF_COLOR
        };
        t = t + 1;
        q = q + 1;
        if q == g {
            q = 0;
            on = !on;
            proof {
                assert((cell + 1) * (g as int) == cell * (g as int) + g) by (nonlinear_arith);
                cell = cell + 1;
            }
        }
    }
}

/// The rows of band pair `b` start dark for `g` rows and lit for `g` more.
proof fn lemma_band_rows(b: int, h: int, g: int)
    requires
        g > 0,
        0 <= b,
        b < h / (2 * g),
        h >= 0,
    ensures
        forall|r: int| b * (2 * g) <= r < b * (2 * g) + g ==> #[trigger] row_starts_lit(r, h, g) == false,
        forall|r: int|
            b * (2 * g) + g <= r < b * (2 * g) + 2 * g ==> #[trigger] row_starts_lit(r, h, g) == true,
{
    assert((b + 1) * (2 * g) <= (h / (2 * g)) * (2 * g)) by (nonlinear_arith)
        requires
            b + 1 <= h / (2 * g),
            g > 0,
    ;
    assert((b + 1) * (2 * g) == b * (2 * g) + 2 * g) by (nonlinear_arith);
    assert forall|r: int| b * (2 * g) <= r < b * (2 * g) + 2 * g implies #[trigger] (r % (2 * g)) == r - b * (2
        * g) by {
        vstd::arithmetic::div_mod::lemma_fundamental_div_mod_converse(r, 2 * g, b, r - b * (2 * g));
    }
}

/// The band pairs drawn so far stay within the whole band rows.
proof fn lemma_full_rows_bound(b: int, h: int, g: int)
    requires
        g > 0,
        0 <= b < h / (2 * g),
        h >= 0,
    ensures
        (b + 1) * (2 * g) <= full_rows(h, g),
        (b + 1) * (2 * g) == b * (2 * g) + 2 * g,
{
    assert((b + 1) * (2 * g) <= (h / (2 * g)) * (2 * g)) by (nonlinear_arith)
        requires
            b + 1 <= h / (2 * g),
            g > 0,
    ;
    assert((b + 1) * (2 * g) == b * (2 * g) + 2 * g) by (nonlinear_arith);
}

/// The pattern never draws more rows than `u32` can count.
proof fn lemma_rows_bound(h: int, g: int)
    requires
        g > 0,
        0 <= h <= u32::MAX,
    ensures
        pattern_rows(h, g) <= h + g,
        pattern_rows(h, g) <= u32::MAX + u32::MAX,
        0 <= full_rows(h, g) <= h,
{
    vstd::arithmetic::div_mod::lemma_fundamental_div_mod(h, 2 * g);
    assert((h / (2 * g)) * (2 * g) == (2 * g) * (h / (2 * g))) by (nonlinear_arith);
    assert(h / (2 * g) >= 0) by (nonlinear_arith)
        requires
            h >= 0,
            g > 0,
    ;
    assert((h / (2 * g)) * (2 * g) >= 0) by (nonlinear_arith)
        requires
            h / (2 * g) >= 0,
            g > 0,
    ;
}

/// Row `r`'s first pixel index fits when the rows up to `end` fit.
proof fn lemma_row_start_fits(r: int, end: int, w: int)
    requires
        0 <= r < end,
        w >= 0,
        end * w <= usize::MAX,
    ensures
        0 <= r * w,
        r * w + w <= end * w,
{
    assert(r * w + w <= end * w) by (nonlinear_arith)
        requires
            r + 1 <= end,
            w >= 0,
    ;
    assert(0 <= r * w) by (nonlinear_arith)
        requires
            r >= 0,
            w >= 0,
    ;
}

/// The cell colour of a chessboard of `grid`-pixel cells whose top-left
/// cell is black.
pub open spec fn chess_pixel(r: int, col: int, grid: int, lit: u32) -> u32 {
    if (r / grid + col / grid) % 2 == 1 {
        lit
    } else {
        OFF_COLOR
    }
}

/// Row `r` of a stack of bands `2 * grid` rows high lies in an odd cell row
/// exactly when it is in the second half of its band.
proof fn lemma_band_half(r: int, grid: int)
    requires
        grid > 0,
        r >= 0,
    ensures
        (r / grid) % 2 == 1 <==> r % (2 * grid) >= grid,
{
    let q = r / (2 * grid);
    let m = r % (2 * grid);
    vstd::arithmetic::div_mod::lemma_fundamental_div_mod(r, 2 * grid);
    assert(0 <= m < 2 * grid);
    assert(r == q * (2 * grid) + m);
    assert(q >= 0) by (nonlinear_arith)
        requires
            r >= 0,
            grid > 0,
            q == r / (2 * grid),
    ;
    if m >= grid {
        assert(r / grid == 2 * q + 1) by (nonlinear_arith)
            requires
                r == q * (2 * grid) + m,
                grid <= m < 2 * grid,
                grid > 0,
        ;
        assert((2 * q + 1) % 2 == 1) by (nonlinear_arith);
    } else {
        assert(r / grid == 2 * q) by (nonlinear_arith)
            requires
                r == q * (2 * grid) + m,
                0 <= m < grid,
                grid > 0,
        ;
        assert((2 * q) % 2 == 0) by (nonlinear_arith);
    }
}

/// The pattern draws exactly the frame's rows: whole band pairs, then the
/// dark rows and the lit rows of the last, partial pair.
pub proof fn lemma_pattern_rows_is_height(height: int, grid: int)
    requires
        grid > 0,
        height >= 0,
    ensures
        pattern_rows(height, grid) == height,
{
    vstd::arithmetic::div_mod::lemma_fundamental_div_mod(height, 2 * grid);
    assert((height / (2 * grid)) * (2 * grid) == (2 * grid) * (height / (2 * grid))) by (nonlinear_arith);
}

/// Every row of the frame is a chessboard of `grid`-pixel cells whose
/// top-left cell is black and whose lit cells have the "on" colour: cells
/// flip between lit and black every `grid` pixels across a row and every
/// `grid` rows down a column.
pub proof fn lemma_pattern_is_chessboard(r: int, col: int, height: int, grid: int, lit: u32)
    requires
        grid > 0,
        0 <= r < height,
        col >= 0,
    ensures
        pattern_pixel(r, col, height, grid, lit) == chess_pixel(r, col, grid, lit),
{
    lemma_pattern_rows_is_height(height, grid);
    let b = 2 * grid;
    let full = full_rows(height, grid);
    let rest = rest_rows(height, grid);
    let k = height / b;
    vstd::arithmetic::div_mod::lemma_fundamental_div_mod(height, b);
    assert(full == k * b);
    assert(height == full + rest);
    assert(0 <= rest < b);
    assert(k >= 0) by (nonlinear_arith)
        requires
            height >= 0,
            b > 0,
            k == height / b,
    ;
    lemma_band_half(r, grid);
    if r < full {
    } else if r < full + tail_dark_rows(height, grid) {
        assert(r / grid == 2 * k) by (nonlinear_arith)
            requires
                r >= k * (2 * grid),
                r < k * (2 * grid) + grid,
                grid > 0,
        ;
        assert((2 * k) % 2 == 0) by (nonlinear_arith);
    } else {
        assert(tail_dark_rows(height, grid) == grid);
        assert(r / grid == 2 * k + 1) by (nonlinear_arith)
            requires
                r >= k * (2 * grid) + grid,
                r < k * (2 * grid) + 2 * grid,
                grid > 0,
        ;
        assert((2 * k + 1) % 2 == 1) by (nonlinear_arith);
    }
    assert(((r / grid) % 2 == 1) == row_starts_lit(r, height, grid));
    let a = r / grid;
    let c = col / grid;
    assert(a >= 0 && c >= 0) by (nonlinear_arith)
        requires
            r >= 0,
            col >= 0,
            grid > 0,
            a == r / grid,
            c == col / grid,
    ;
    assert(((a + c) % 2 == 1) == ((a % 2 == 1) != (c % 2 == 1))) by (nonlinear_arith)
        requires
            a >= 0,
            c >= 0,
    ;
}

/// The place value of byte `k` (0 = least significant) of a word.
pub open spec fn byte_weight(k: int) -> int {
    if k == 0 {
        1
    } else if k == 1 {
        0x100
    } else if k == 2 {
        0x1_0000
    } else {
        0x100_0000
    }
}

/// Byte `j` in memory of the word `w`, stored least significant byte first
/// when `le` holds and most significant first otherwise.
pub open spec fn word_byte(w: u32, le: bool, j: int) -> u8 {
    let k = if le {
        j
    } else {
        3 - j
    };
    ((w as int / byte_weight(k)) % 256) as u8
}

/// The bytes in memory of the words `ws`, four per word, in the byte order
/// `le` picks.
pub open spec fn words_bytes(ws: Seq<u32>, le: bool) -> Seq<u8> {
    Seq::new(4 * ws.len(), |i: int| word_byte(ws[i / 4], le, i % 4))
}

/// Calls `zerocopy::FromBytes::mut_from_bytes` for `[u32]`, which views
/// `bytes` in place as words. Claimed: on success there is one word for
/// every four bytes, and the bytes are, before and after the view is used,
/// those of the words stored in one of the two byte orders (the machine's,
/// which is not said); on failure the bytes are untouched. Success also
/// depends on where the bytes lie in memory (word alignment), so when it
/// comes is not said beyond a length that is a multiple of four.
#[verifier::external_body]
fn as_words_mut(bytes: &mut [u8]) -> (w: Option<&mut [u32]>)
    ensures
        w matches Some(ws) ==> ws@.len() * 4 == old(bytes)@.len(),
        w matches Some(ws) ==> exists|le: bool|
            old(bytes)@ == words_bytes(ws@, le) && final(bytes)@ == words_bytes(final(ws)@, le),
        w is None ==> final(bytes)@ == old(bytes)@,
        final(bytes)@.len() == old(bytes)@.len(),
{
    <[u32] as zerocopy::FromBytes>::mut_from_bytes(bytes).ok()
}

impl PatternLoader {
    /// Whether the pattern can be drawn into `len` pixels: the loader's
    /// settings hold and its rows fit (see [`PatternLoader::fits`]).
    pub fn can_render(&self, len: usize) -> (b: bool)
        ensures
            b == self.fits(len as int),
    {
        let g = self.grid_size;
        if g == 0 || self.width % g != 0 || g > u32::MAX / 2 {
            return false;
        }
        let h = self.height as u64;
        let band = 2 * g as u64;
        proof {
            vstd::arithmetic::div_mod::lemma_fundamental_div_mod(h as int, band as int);
            assert((h / band) * band <= h) by (nonlinear_arith)
                requires
                    band > 0,
                    h == band * (h / band) + h % band,
                    h % band >= 0,
            ;
        }
        let full = (h / band) * band;
        let rest = h % band;
        let dark = if (g as u64) < rest {
            g as u64
        } else {
            rest
        };
        let over = if rest > g as u64 {
            rest - g as u64
        } else {
            0
        };
        let lit = if (g as u64) < over {
            g as u64
        } else {
            over
        };
        proof {
            lemma_rows_bound(self.height as int, g as int);
        }
        let rows = full + dark + lit;
        assert(rows == pattern_rows(self.height as int, g as int));
        match rows.checked_mul(self.width as u64) {
            Some(n) => n <= len as u64,
            None => false,
        }
    }

    /// The bytes of a frame holding `before` after the pattern is drawn into
    /// it, its words stored in the byte order `le`: the four bytes of each
    /// drawn pixel are those of its [`pattern_pixel`], the other bytes stay.
    pub open spec fn rendered_bytes(&self, before: Seq<u8>, le: bool) -> Seq<u8> {
        Seq::new(
            before.len(),
            |i: int|
                if i / 4 < pattern_rows(self.height as int, self.grid_size as int) * self.width {
                    word_byte(
                        pattern_pixel(
                            (i / 4) / self.width as int,
                            (i / 4) % self.width as int,
                            self.height as int,
                            self.grid_size as int,
                            on_color(self.color),
                        ),
                        le,
                        i % 4,
                    )
                } else {
                    before[i]
                },
        )
    }

    /// Draws the pattern into the bytes of a frame viewed in place as RGBA
    /// words (see [`PatternLoader::render`]), each word stored in the
    /// machine's byte order; `false`, with the bytes untouched, when they
    /// cannot be viewed as words (a loader treats that as a fatal error).
    pub fn render_bytes(&self, dest: &mut [u8]) -> (ok: bool)
        requires
            self.fits((old(dest)@.len() / 4) as int),
        ensures
            final(dest)@.len() == old(dest)@.len(),
            ok ==> old(dest)@.len() % 4 == 0,
            ok ==> exists|le: bool| final(dest)@ == self.rendered_bytes(old(dest)@, le),
            !ok ==> final(dest)@ == old(dest)@,
    {
        let ghost before = dest@;
        match as_words_mut(dest) {
            Some(words) => {
                let ghost w0 = words@;
                self.render(words);
                let ghost w1 = words@;
                proof {
                    assert forall|le: bool| before == words_bytes(w0, le) implies words_bytes(w1, le)
                        == self.rendered_bytes(before, le) by {
                        self.lemma_rendered_bytes(before, w0, w1, le);
                    }
                }
                true
            },
            None => false,
        }
    }

    /// Drawing the pattern into a frame of exactly `width * height` RGBA
    /// pixels overwrites every byte, whatever the frame held before: each
    /// pixel becomes its chessboard cell colour, black or the "on" colour,
    /// stored in the byte order `le`.
    pub proof fn lemma_rendered_frame_is_chessboard(&self, before: Seq<u8>, le: bool, i: int)
        requires
            self.grid_size > 0,
            before.len() == self.width * self.height * 4,
            0 <= i < before.len(),
        ensures
            self.rendered_bytes(before, le)[i] == word_byte(
                chess_pixel(
                    (i / 4) / self.width as int,
                    (i / 4) % self.width as int,
                    self.grid_size as int,
                    on_color(self.color),
                ),
                le,
                i % 4,
            ),
    {
        let w = self.width as int;
        let h = self.height as int;
        let g = self.grid_size as int;
        let p = i / 4;
        lemma_pattern_rows_is_height(h, g);
        assert(0 <= p < w * h) by (nonlinear_arith)
            requires
                0 <= i < w * h * 4,
                p == i / 4,
        ;
        assert(w > 0) by (nonlinear_arith)
            requires
                0 <= p < w * h,
                h >= 0,
        ;
        let r = p / w;
        let col = p % w;
        vstd::arithmetic::div_mod::lemma_fundamental_div_mod(p, w);
        assert(0 <= r < h) by (nonlinear_arith)
            requires
                p == w * r + col,
                0 <= col < w,
                0 <= p < w * h,
        ;
        assert(w * h == h * w) by (nonlinear_arith);
        lemma_pattern_is_chessboard(r, col, h, g, on_color(self.color));
    }

    /// What [`PatternLoader::render`] leaves in the words `w1`, starting from
    /// `w0`, is, read as bytes, [`PatternLoader::rendered_bytes`].
    proof fn lemma_rendered_bytes(&self, before: Seq<u8>, w0: Seq<u32>, w1: Seq<u32>, le: bool)
        requires
            self.fits(w0.len() as int),
            before == words_bytes(w0, le),
            w1.len() == w0.len(),
            forall|r: int, col: int|
                0 <= r < pattern_rows(self.height as int, self.grid_size as int) && 0 <= col
                    < self.width ==> #[trigger] w1[r * self.width + col] == pattern_pixel(
                    r,
                    col,
                    self.height as int,
                    self.grid_size as int,
                    on_color(self.color),
                ),
            forall|k: int|
                pattern_rows(self.height as int, self.grid_size as int) * self.width <= k
                    < w0.len() ==> #[trigger] w1[k] == w0[k],
        ensures
            words_bytes(w1, le) == self.rendered_bytes(before, le),
    {
        let rows = pattern_rows(self.height as int, self.grid_size as int);
        let w = self.width as int;
        assert forall|i: int| 0 <= i < before.len() implies #[trigger] words_bytes(w1, le)[i]
            == self.rendered_bytes(before, le)[i] by {
            let p = i / 4;
            assert(0 <= p < w0.len()) by (nonlinear_arith)
                requires
                    0 <= i < 4 * w0.len(),
                    p == i / 4,
            ;
            if p < rows * w {
                assert(w > 0) by (nonlinear_arith)
                    requires
                        p < rows * w,
                        p >= 0,
                        rows >= 0,
                        w >= 0,
                ;
                let r = p / w;
                let col = p % w;
                vstd::arithmetic::div_mod::lemma_fundamental_div_mod(p, w);
                assert(p == r * w + col) by (nonlinear_arith)
                    requires
                        p == w * (p / w) + p % w,
                        r == p / w,
                        col == p % w,
                ;
                assert(0 <= r < rows) by (nonlinear_arith)
                    requires
                        p == r * w + col,
                        0 <= col < w,
                        0 <= p < rows * w,
                ;
                assert(w1[r * w + col] == pattern_pixel(
                    r,
                    col,
                    self.height as int,
                    self.grid_size as int,
                    on_color(self.color),
                ));
            } else {
                assert(w1[p] == w0[p]);
            }
        }
        assert(words_bytes(w1, le) =~= self.rendered_bytes(before, le));
    }

    /// Draws the pattern into the buffer a loader request lends
    /// (see [`PatternLoader::render_bytes`]).
    pub fn render_owned<B: OwnedWriteBuffer>(&self, buf: &mut B) -> (ok: bool)
        requires
            self.fits((old(buf).spec_owned_bytes().len() / 4) as int),
        ensures
            final(buf).spec_owned_bytes().len() == old(buf).spec_owned_bytes().len(),
            ok ==> old(buf).spec_owned_bytes().len() % 4 == 0,
            ok ==> exists|le: bool|
                final(buf).spec_owned_bytes() == self.rendered_bytes(old(buf).spec_owned_bytes(), le),
            !ok ==> final(buf).spec_owned_bytes() == old(buf).spec_owned_bytes(),
    {
        let view = buf.owned_to_view();
        self.render_bytes(view)
    }
}

/// The lit cells have exactly the configured colour, fully opaque: read
/// little-endian, the "on" pixel's bytes are the colour's three bytes and
/// then 255.
pub proof fn lemma_on_color_bytes(color: [u8; 3])
    ensures
        word_byte(on_color(color), true, 0) == color[0],
        word_byte(on_color(color), true, 1) == color[1],
        word_byte(on_color(color), true, 2) == color[2],
        word_byte(on_color(color), true, 3) == 255,
{
    let c0 = color[0] as int;
    let c1 = color[1] as int;
    let c2 = color[2] as int;
    let v = c0 + c1 * 0x100 + c2 * 0x1_0000 + 0xff00_0000;
    assert(0 <= v < 0x1_0000_0000) by (nonlinear_arith)
        requires
            0 <= c0 < 256,
            0 <= c1 < 256,
            0 <= c2 < 256,
            v == c0 + c1 * 0x100 + c2 * 0x1_0000 + 0xff00_0000,
    ;
    assert(on_color(color) as int == v);
    assert((v / 1) % 256 == c0) by (nonlinear_arith)
        requires
            0 <= c0 < 256,
            0 <= c1 < 256,
            0 <= c2 < 256,
            v == c0 + c1 * 0x100 + c2 * 0x1_0000 + 0xff00_0000,
    ;
    assert((v / 0x100) % 256 == c1) by (nonlinear_arith)
        requires
            0 <= c0 < 256,
            0 <= c1 < 256,
            0 <= c2 < 256,
            v == c0 + c1 * 0x100 + c2 * 0x1_0000 + 0xff00_0000,
    ;
    assert((v / 0x1_0000) % 256 == c2) by (nonlinear_arith)
        requires
            0 <= c0 < 256,
            0 <= c1 < 256,
            0 <= c2 < 256,
            v == c0 + c1 * 0x100 + c2 * 0x1_0000 + 0xff00_0000,
    ;
    assert((v / 0x100_0000) % 256 == 255) by (nonlinear_arith)
        requires
            0 <= c0 < 256,
            0 <= c1 < 256,
            0 <= c2 < 256,
            v == c0 + c1 * 0x100 + c2 * 0x1_0000 + 0xff00_0000,
    ;
}

} // verus!
