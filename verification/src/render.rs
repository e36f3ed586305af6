//! Layout of the gpu renderer's inputs: the ranges the camera frames take
//! in the shared input buffer, the mask words of each camera, the offsets
//! of the frame uploads, the world mesh's triangle indices and depth
//! lookups.
use vstd::prelude::*;

use crate::frame::min_int;

verus! {

/// Number of pixels of a camera frame of size (x, y).
pub open spec fn pixel_count(size: (u32, u32)) -> int {
    size.0 as int * size.1 as int
}

/// Total pixels of the first `i` frames.
pub open spec fn pixels_before(sizes: Seq<(u32, u32)>, i: int) -> int
    decreases i,
{
    if i <= 0 {
        0
    } else {
        pixels_before(sizes, i - 1) + pixel_count(sizes[i - 1])
    }
}

/// The pixel totals grow with the number of frames counted.
pub proof fn lemma_pixels_before_mono(sizes: Seq<(u32, u32)>, i: int, j: int)
    requires
        0 <= i <= j <= sizes.len(),
    ensures
        0 <= pixels_before(sizes, i) <= pixels_before(sizes, j),
    decreases j,
{
    if j > 0 {
        if i == j {
            lemma_pixels_before_mono(sizes, i - 1, j - 1);
        } else {
            lemma_pixels_before_mono(sizes, i, j - 1);
        }
        assert(pixel_count(sizes[j - 1]) >= 0) by (nonlinear_arith)
            requires
                sizes[j - 1].0 >= 0,
                sizes[j - 1].1 >= 0,
        ;
    }
}

/// The range (first pixel, one past the last) that each camera's frame
/// takes in the input buffer: frames lie back to back in camera order.
/// The sums are `u32`, so the total must fit in one.
pub fn input_ranges(sizes: &[(u32, u32)]) -> (ranges: Vec<(u32, u32)>)
    requires
        pixels_before(sizes@, sizes@.len() as int) <= u32::MAX,
    ensures
        ranges.len() == sizes@.len(),
        forall|i: int|
            0 <= i < sizes@.len() ==> #[trigger] ranges[i] == (
                pixels_before(sizes@, i) as u32,
                pixels_before(sizes@, i + 1) as u32,
            ),
{
    let mut ranges: Vec<(u32, u32)> = Vec::new();
    let mut acc: u32 = 0;
    let mut i: usize = 0;
    while i < sizes.len()
        invariant
            i <= sizes@.len(),
            ranges.len() == i,
            acc == pixels_before(sizes@, i as int),
            pixels_before(sizes@, sizes@.len() as int) <= u32::MAX,
            forall|j: int|
                0 <= j < i ==> #[trigger] ranges[j] == (
                    pixels_before(sizes@, j) as u32,
                    pixels_before(sizes@, j + 1) as u32,
                ),
        decreases sizes@.len() - i,
    {
        proof {
            lemma_pixels_before_mono(sizes@, i + 1, sizes@.len() as int);
            lemma_pixels_before_mono(sizes@, i as int, i + 1);
        }
        let (x, y) = sizes[i];
        proof {
            assert(x * y <= u32::MAX);
        }
        let start = acc;
        acc = acc + x * y;
        ranges.push((start, acc));
        i = i + 1;
    }
    ranges
}

/// The mask word meaning "this pixel is used".
pub const MASK_ON: u32 = 0xffff_ffffu32;

/// The mask word of a mask byte: pixels whose mask brightness is at least
/// half are used.
pub open spec fn mask_word(luma: u8) -> u32 {
    if luma >= 128 {
        MASK_ON
    } else {
        0
    }
}

/// The mask word of pixel `j` of camera `i`: from its mask image where it
/// has one (zero past the image's end), all used when the camera has no
/// mask image, and zero for cameras beyond the list of masks.
pub open spec fn camera_mask_word(masks: Seq<Option<Seq<u8>>>, i: int, j: int) -> u32 {
    if i < masks.len() {
        match masks[i] {
            Some(data) => if j < data.len() {
                mask_word(data[j])
            } else {
                0
            },
            None => MASK_ON,
        }
    } else {
        0
    }
}

/// The luma bytes of each camera's mask image, where it could be read.
pub open spec fn masks_view(masks: Seq<Option<Vec<u8>>>) -> Seq<Option<Seq<u8>>> {
    masks.map_values(|m: Option<Vec<u8>>|
        match m {
            Some(v) => Some(v@),
            None => None,
        })
}

/// The mask words of all cameras, laid out as [`input_ranges`] lays out
/// their frames: see [`camera_mask_word`]. The layout needs at least one
/// camera.
pub fn mask_words(sizes: &[(u32, u32)], masks: &[Option<Vec<u8>>]) -> (words: Vec<u32>)
    requires
        sizes@.len() > 0,
        pixels_before(sizes@, sizes@.len() as int) <= u32::MAX,
    ensures
        words.len() == pixels_before(sizes@, sizes@.len() as int),
        forall|i: int, j: int|
            0 <= i < sizes@.len() && 0 <= j < pixel_count(sizes@[i]) ==> #[trigger] words@[
            pixels_before(sizes@, i) + j] == camera_mask_word(masks_view(masks@), i, j),
{
    proof {
        lemma_pixels_before_mono(sizes@, 0, sizes@.len() as int);
    }
    let ranges = input_ranges(sizes);
    let total = ranges[ranges.len() - 1].1;
    let total_len = total as usize;
    let mut words: Vec<u32> = vec![0u32; total_len];
    let ghost mv = masks_view(masks@);
    let ghost n = sizes@.len() as int;
    proof {
        assert(words@ =~= Seq::new(total_len as nat, |k: int| 0u32));
    }
    let count = if masks.len() < ranges.len() {
        masks.len()
    } else {
        ranges.len()
    };
    let mut i: usize = 0;
    while i < count
        invariant
            n == sizes@.len(),
            mv == masks_view(masks@),
            count <= masks@.len(),
            count <= n,
            ranges.len() == n,
            i <= count,
            pixels_before(sizes@, n) <= u32::MAX,
            forall|c: int|
                0 <= c < n ==> #[trigger] ranges[c] == (
                    pixels_before(sizes@, c) as u32,
                    pixels_before(sizes@, c + 1) as u32,
                ),
            words.len() == pixels_before(sizes@, n),
            forall|c: int, j: int|
                0 <= c < i && 0 <= j < pixel_count(sizes@[c]) ==> #[trigger] words@[pixels_before(
                    sizes@,
                    c,
                ) + j] == camera_mask_word(mv, c, j),
            forall|k: int| pixels_before(sizes@, i as int) <= k < words.len() ==> #[trigger] words@[k] == 0,
        decreases count - i,
    {
        proof {
            lemma_pixels_before_mono(sizes@, i + 1, n);
            lemma_pixels_before_mono(sizes@, i as int, i + 1);
        }
        let (start, end) = ranges[i];
        let start = start as usize;
        let end = end as usize;
        let ghost before = words@;
        match &masks[i] {
            Some(data) => {
                let mut j: usize = 0;
                while j < data.len() && start + j < end
                    invariant
                        start <= end <= words.len(),
                        j <= end - start,
                        j <= data@.len(),
                        words.len() == before.len(),
                        forall|k: int| 0 <= k < j ==> #[trigger] words@[start + k] == mask_word(data@[k]),
                        forall|k: int|
                            0 <= k < words.len() && !(start <= k < start + j) ==> #[trigger] words@[k]
                                == before[k],
                    decreases end - start - j,
                {
                    words.set(start + j, if data[j] >= 128 {
                        MASK_ON
                    } else {
                        0
                    });
                    j = j + 1;
                }
                proof {
                    assert(mv[i as int] == Some(data@));
                    assert forall|jj: int| 0 <= jj < pixel_count(sizes@[i as int]) implies #[trigger] words@[
                    pixels_before(sizes@, i as int) + jj] == camera_mask_word(mv, i as int, jj) by {
                        if jj < j {
                            assert(words@[start + jj] == mask_word(data@[jj]));
                        } else {
                            assert(words@[start + jj] == before[start + jj]);
                            assert(before[start + jj] == 0);
                        }
                    }
                    assert forall|k: int|
                        0 <= k < words.len() && !(start <= k < end) implies #[trigger] words@[k]
                        == before[k] by {
                        assert(!(start <= k < start + j));
                    }
                }
            },
            None => {
                let mut j: usize = start;
                while j < end
                    invariant
                        start <= j <= end <= words.len(),
                        words.len() == before.len(),
                        forall|k: int| start <= k < j ==> #[trigger] words@[k] == MASK_ON,
                        forall|k: int|
                            0 <= k < words.len() && !(start <= k < j) ==> #[trigger] words@[k] == before[k],
                    decreases end - j,
                {
                    words.set(j, MASK_ON);
                    j = j + 1;
                }
                proof {
                    assert(mv[i as int] == None::<Seq<u8>>);
                    assert forall|jj: int| 0 <= jj < pixel_count(sizes@[i as int]) implies #[trigger] words@[
                    pixels_before(sizes@, i as int) + jj] == camera_mask_word(mv, i as int, jj) by {
                        assert(words@[start + jj] == MASK_ON);
                    }
                }
            },
        }
        proof {
            assert(forall|k: int|
                0 <= k < words.len() && !(start <= k < end) ==> #[trigger] words@[k] == before[k]);
            assert forall|k: int| pixels_before(sizes@, i + 1) <= k < words.len() implies #[trigger] words@[k]
                == 0 by {
                assert(words@[k] == before[k]);
            }
            assert forall|c: int, jj: int|
                0 <= c < i && 0 <= jj < pixel_count(sizes@[c]) implies #[trigger] words@[pixels_before(
                sizes@,
                c,
            ) + jj] == camera_mask_word(mv, c, jj) by {
                lemma_pixels_before_mono(sizes@, c + 1, i as int);
                lemma_pixels_before_mono(sizes@, 0, c);
                assert(before[pixels_before(sizes@, c) + jj] == camera_mask_word(mv, c, jj));
                assert(words@[pixels_before(sizes@, c) + jj] == before[pixels_before(sizes@, c) + jj]);
            }
        }
        i = i + 1;
    }
    proof {
        assert forall|c: int, jj: int|
            0 <= c < n && 0 <= jj < pixel_count(sizes@[c]) implies #[trigger] words@[pixels_before(
            sizes@,
            c,
        ) + jj] == camera_mask_word(mv, c, jj) by {
            if c >= i {
                lemma_pixels_before_mono(sizes@, i as int, c);
                lemma_pixels_before_mono(sizes@, c + 1, n);
                assert(words@[pixels_before(sizes@, c) + jj] == 0);
            }
        }
    }
    words
}

/// Total bytes of the first `i` uploads.
pub open spec fn bytes_before(sizes: Seq<u64>, i: int) -> int
    decreases i,
{
    if i <= 0 {
        0
    } else {
        bytes_before(sizes, i - 1) + sizes[i - 1]
    }
}

/// The byte totals grow with the number of uploads counted.
pub proof fn lemma_bytes_before_mono(sizes: Seq<u64>, i: int, j: int)
    requires
        0 <= i <= j <= sizes.len(),
    ensures
        0 <= bytes_before(sizes, i) <= bytes_before(sizes, j),
    decreases j,
{
    if j > 0 {
        if i == j {
            lemma_bytes_before_mono(sizes, i - 1, j - 1);
        } else {
            lemma_bytes_before_mono(sizes, i, j - 1);
        }
    }
}

/// Where each camera's frame upload goes in the input buffer: (offset,
/// size) with uploads back to back in camera order.
pub fn upload_offsets(sizes: &[u64]) -> (offs: Vec<(u64, u64)>)
    requires
        bytes_before(sizes@, sizes@.len() as int) <= u64::MAX,
    ensures
        offs.len() == sizes@.len(),
        forall|i: int|
            0 <= i < sizes@.len() ==> #[trigger] offs[i] == (bytes_before(sizes@, i) as u64, sizes@[i]),
{
    let mut offs: Vec<(u64, u64)> = Vec::new();
    let mut off: u64 = 0;
    let mut i: usize = 0;
    while i < sizes.len()
        invariant
            i <= sizes@.len(),
            offs.len() == i,
            off == bytes_before(sizes@, i as int),
            bytes_before(sizes@, sizes@.len() as int) <= u64::MAX,
            forall|j: int|
                0 <= j < i ==> #[trigger] offs[j] == (bytes_before(sizes@, j) as u64, sizes@[j]),
        decreases sizes@.len() - i,
    {
        proof {
            lemma_bytes_before_mono(sizes@, i + 1, sizes@.len() as int);
        }
        let size = sizes[i];
        offs.push((off, size));
        off = off + size;
        i = i + 1;
    }
    offs
}

/// Slices around the world cylinder.
pub const SLICES: u16 = 20u16;

/// Vertices of the world cylinder: its center, then a bottom and a top
/// vertex for each slice.
pub open spec fn cylinder_vertex_count() -> int {
    1 + 2 * SLICES
}

/// Index `t` (0 to 8) of the three triangles between slice `n` and the next.
pub open spec fn slice_index(n: int, t: int) -> int {
    let bn = 2 * n + 1;
    if t == 0 {
        0
    } else if t == 1 {
        bn
    } else if t == 2 {
        bn + 2
    } else if t == 3 {
        bn + 2
    } else if t == 4 {
        bn
    } else if t == 5 {
        bn + 1
    } else if t == 6 {
        bn + 1
    } else if t == 7 {
        bn + 3
    } else {
        bn + 2
    }
}

/// Index `t` (0 to 8) of the three triangles that close the cylinder
/// between the last slice and the first.
pub open spec fn closing_index(t: int) -> int {
    let last = 2 * SLICES - 1;
    if t == 0 {
        0
    } else if t == 1 {
        last
    } else if t == 2 {
        1
    } else if t == 3 {
        1
    } else if t == 4 {
        last
    } else if t == 5 {
        last + 1
    } else if t == 6 {
        last + 1
    } else if t == 7 {
        2
    } else {
        1
    }
}

/// Index `k` of the world cylinder's triangle list.
pub open spec fn cylinder_index(k: int) -> int {
    if k < 9 * (SLICES - 1) {
        slice_index(k / 9, k % 9)
    } else {
        closing_index(k - 9 * (SLICES - 1))
    }
}

/// The triangle indices of the world cylinder: three triangles between
/// each slice and the next, three more closing it; every index names one
/// of its [`cylinder_vertex_count`] vertices.
pub fn cylinder_mesh_indices() -> (idxs: Vec<u16>)
    ensures
        idxs.len() == 9 * SLICES,
        forall|k: int| 0 <= k < idxs.len() ==> #[trigger] idxs@[k] == cylinder_index(k),
        forall|k: int| 0 <= k < idxs.len() ==> #[trigger] idxs@[k] < cylinder_vertex_count(),
{
    let mut idxs: Vec<u16> = Vec::new();
    let mut n: u16 = 0;
    while n < SLICES - 1
        invariant
            n <= SLICES - 1,
            idxs.len() == 9 * n,
            forall|k: int| 0 <= k < idxs.len() ==> #[trigger] idxs@[k] == cylinder_index(k),
        decreases SLICES - 1 - n,
    {
        let bn = n * 2 + 1;
        let ghost base = idxs.len() as int;
        idxs.push(0);
        idxs.push(bn);
        idxs.push(bn + 2);
        idxs.push(bn + 2);
        idxs.push(bn);
        idxs.push(bn + 1);
        idxs.push(bn + 1);
        idxs.push(bn + 3);
        idxs.push(bn + 2);
        proof {
            assert forall|k: int| base <= k < idxs.len() implies #[trigger] idxs@[k] == cylinder_index(k) by {
                vstd::arithmetic::div_mod::lemma_fundamental_div_mod_converse(k, 9, n as int, k - base);
            }
        }
        n = n + 1;
    }
    let last_bn = SLICES * 2 - 1;
    idxs.push(0);
    idxs.push(last_bn);
    idxs.push(1);
    idxs.push(1);
    idxs.push(last_bn);
    idxs.push(last_bn + 1);
    idxs.push(last_bn + 1);
    idxs.push(2);
    idxs.push(1);
    proof {
        assert forall|k: int| 0 <= k < idxs.len() implies #[trigger] idxs@[k] < cylinder_vertex_count() by {
            if k < 9 * (SLICES - 1) {
                vstd::arithmetic::div_mod::lemma_fundamental_div_mod(k, 9);
                assert(k / 9 < SLICES - 1);
            }
        }
    }
    idxs
}

/// Vertices of the world plane: its four corners.
pub open spec fn plane_vertex_count() -> int {
    4
}

/// The triangle indices of the world plane: two triangles over its four
/// corners.
pub fn plane_mesh_indices() -> (idxs: Vec<u16>)
    ensures
        idxs@ == seq![0u16, 1, 2, 2, 3, 0],
        forall|k: int| 0 <= k < idxs.len() ==> #[trigger] idxs@[k] < plane_vertex_count(),
{
    let idxs = vec![0u16, 1, 2, 2, 3, 0];
    assert(idxs@ =~= seq![0u16, 1, 2, 2, 3, 0]);
    idxs
}

/// Index of the depth sample at (`x`, `y`) in a `width` x `height` depth
/// image, coordinates past the edges taking the edge's sample.
pub open spec fn depth_index_of(x: int, y: int, width: int, height: int) -> int {
    min_int(x, width - 1) + min_int(y, height - 1) * width
}

/// Computes [`depth_index_of`] in `u32` as the depth lookup does; an empty
/// image has no sample and an index past `u32` does not fit, so both are
/// excluded.
pub fn depth_index(x: u32, y: u32, width: u32, height: u32) -> (i: usize)
    requires
        width >= 1,
        height >= 1,
        depth_index_of(x as int, y as int, width as int, height as int) <= u32::MAX,
    ensures
        i == depth_index_of(x as int, y as int, width as int, height as int),
        i < width * height,
{
    let cx = if x < width - 1 {
        x
    } else {
        width - 1
    };
    let cy = if y < height - 1 {
        y
    } else {
        height - 1
    };
    proof {
        assert(cy * width + cx < width * height) by (nonlinear_arith)
            requires
                cy <= height - 1,
                cx <= width - 1,
                width >= 1,
        ;
        assert(cy * width >= 0) by (nonlinear_arith)
            requires
                cy >= 0,
                width >= 1,
        ;
    }
    (cx + cy * width) as usize
}

/// The three triangles between slice `n` and slice `n + 1` of the world
/// cylinder: the floor triangle fans from the centre vertex 0 to the two
/// slices' bottom vertices (`2n + 1`, `2n + 3`), and the wall is two
/// triangles over the bottom and top vertices (`2n + 1`, `2n + 2`,
/// `2n + 3`, `2n + 4`).
pub proof fn lemma_cylinder_slice_triangles(n: int)
    requires
        0 <= n < SLICES - 1,
    ensures
        cylinder_index(9 * n) == 0,
        cylinder_index(9 * n + 1) == 2 * n + 1,
        cylinder_index(9 * n + 2) == 2 * n + 3,
        cylinder_index(9 * n + 3) == 2 * n + 3,
        cylinder_index(9 * n + 4) == 2 * n + 1,
        cylinder_index(9 * n + 5) == 2 * n + 2,
        cylinder_index(9 * n + 6) == 2 * n + 2,
        cylinder_index(9 * n + 7) == 2 * n + 4,
        cylinder_index(9 * n + 8) == 2 * n + 3,
{
    vstd::arithmetic::div_mod::lemma_fundamental_div_mod_converse(9 * n + 0, 9, n, 0);
    vstd::arithmetic::div_mod::lemma_fundamental_div_mod_converse(9 * n + 1, 9, n, 1);
    vstd::arithmetic::div_mod::lemma_fundamental_div_mod_converse(9 * n + 2, 9, n, 2);
    vstd::arithmetic::div_mod::lemma_fundamental_div_mod_converse(9 * n + 3, 9, n, 3);
    vstd::arithmetic::div_mod::lemma_fundamental_div_mod_converse(9 * n + 4, 9, n, 4);
    vstd::arithmetic::div_mod::lemma_fundamental_div_mod_converse(9 * n + 5, 9, n, 5);
    vstd::arithmetic::div_mod::lemma_fundamental_div_mod_converse(9 * n + 6, 9, n, 6);
    vstd::arithmetic::div_mod::lemma_fundamental_div_mod_converse(9 * n + 7, 9, n, 7);
    vstd::arithmetic::div_mod::lemma_fundamental_div_mod_converse(9 * n + 8, 9, n, 8);
    assert((9 * n + 0) / 9 == n && (9 * n + 0) % 9 == 0);
    assert((9 * n + 1) / 9 == n && (9 * n + 1) % 9 == 1);
    assert((9 * n + 2) / 9 == n && (9 * n + 2) % 9 == 2);
    assert((9 * n + 3) / 9 == n && (9 * n + 3) % 9 == 3);
    assert((9 * n + 4) / 9 == n && (9 * n + 4) % 9 == 4);
    assert((9 * n + 5) / 9 == n && (9 * n + 5) % 9 == 5);
    assert((9 * n + 6) / 9 == n && (9 * n + 6) % 9 == 6);
    assert((9 * n + 7) / 9 == n && (9 * n + 7) % 9 == 7);
    assert((9 * n + 8) / 9 == n && (9 * n + 8) % 9 == 8);
}

/// The three triangles that close the cylinder between its last slice
/// (bottom vertex 39, top 40) and its first (bottom 1, top 2): the floor
/// triangle fans from the centre vertex 0.
pub proof fn lemma_cylinder_closing_triangles()
    ensures
        cylinder_index(171) == 0,
        cylinder_index(172) == 39,
        cylinder_index(173) == 1,
        cylinder_index(174) == 1,
        cylinder_index(175) == 39,
        cylinder_index(176) == 40,
        cylinder_index(177) == 40,
        cylinder_index(178) == 2,
        cylinder_index(179) == 1,
{
}

} // verus!
