use stitch::grad::{block_gradient, blocks_in_bounds, gradients, sobel, EdgeBucket, RgbImage};

fn image(width: u32, height: u32, f: impl Fn(u32, u32) -> [u8; 3]) -> RgbImage {
    let mut data = Vec::new();
    for y in 0..height {
        for x in 0..width {
            data.extend_from_slice(&f(x, y));
        }
    }
    RgbImage { width, height, data }
}

/// The Sobel gradients convolved in floats, weight by weight.
fn float_sobel(img: &RgbImage, x: usize, y: usize) -> ([f32; 3], [f32; 3]) {
    let w = img.width as usize;
    let h = img.height as usize;
    let left = x.saturating_sub(1);
    let right = (x + 1).min(w - 1);
    let top = y.saturating_sub(1);
    let bot = (y + 1).min(h - 1);
    let conv = [
        (left, top, 1., 1.),
        (x, top, 0., 2.),
        (right, top, -1., 1.),
        (left, y, 2., 0.),
        (right, y, -2., 0.),
        (left, bot, 1., -1.),
        (x, bot, 0., -2.),
        (right, bot, -1., -1.),
    ];
    let mut gx = [0f32; 3];
    let mut gy = [0f32; 3];
    for (fx, fy, wgx, wgy) in conv {
        let off = (fy * w + fx) * 3;
        for i in 0..3 {
            gx[i] += img.data[off + i] as f32 * wgx;
            gy[i] += img.data[off + i] as f32 * wgy;
        }
    }
    (gx, gy)
}

#[test]
fn sobel_of_uniform_image_is_zero() {
    let img = image(5, 5, |_, _| [40, 50, 60]);
    for y in 0..5usize {
        for x in 0..5usize {
            assert_eq!(sobel(&img, x, y), ([0; 3], [0; 3]));
        }
    }
}

#[test]
fn sobel_of_vertical_edge() {
    // left half dark, right half bright: the horizontal gradient points left
    let img = image(4, 3, |x, _| if x < 2 { [0, 0, 0] } else { [10, 20, 30] });
    let (gx, gy) = sobel(&img, 1, 1);
    assert_eq!(gx, [-40, -80, -120]);
    assert_eq!(gy, [0, 0, 0]);
}

#[test]
fn sobel_matches_float_convolution() {
    let img = image(7, 6, |x, y| [(x * 37 + y * 11) as u8, (x * y * 5) as u8, (255 - x * 20) as u8]);
    for y in 0..6usize {
        for x in 0..7usize {
            let (gx, gy) = sobel(&img, x, y);
            let (fx, fy) = float_sobel(&img, x, y);
            for c in 0..3 {
                assert_eq!(gx[c] as f32, fx[c]);
                assert_eq!(gy[c] as f32, fy[c]);
            }
        }
    }
}

#[test]
fn block_gradient_takes_last_of_equal_strengths() {
    let img = image(8, 8, |_, _| [1, 1, 1]);
    let (px, py, gx, gy) = block_gradient(&img, 4, 0);
    assert_eq!((px, py), (7, 3));
    assert_eq!((gx, gy), ([0; 3], [0; 3]));
}

#[test]
fn block_gradient_takes_strongest_pixel() {
    // one bright pixel at (1, 2): its neighbours see the strongest edges
    let img = image(4, 4, |x, y| if (x, y) == (1, 2) { [255, 255, 255] } else { [0, 0, 0] });
    let (px, py, gx, gy) = block_gradient(&img, 0, 0);
    let best = |g: ([i32; 3], [i32; 3])| (0..3).map(|c| g.0[c] * g.0[c] + g.1[c] * g.1[c]).max().unwrap();
    let strongest = (0..16).map(|k| best(sobel(&img, k % 4, k / 4))).max().unwrap();
    assert_eq!(best((gx, gy)), strongest);
    assert_eq!(sobel(&img, px, py), (gx, gy));
    let last = (0..16).filter(|k| best(sobel(&img, k % 4, k / 4)) == strongest).max().unwrap();
    assert_eq!((px, py), (last % 4, last / 4));
}

#[test]
fn gradients_visits_blocks_in_order() {
    let img = image(8, 8, |x, y| [(x * 30) as u8, (y * 30) as u8, 0]);
    let gs = gradients(&img);
    assert_eq!(gs.len(), 4);
    let origins: Vec<(usize, usize)> = gs.iter().map(|g| (g.x, g.y)).collect();
    assert_eq!(origins, vec![(0, 0), (4, 0), (0, 4), (4, 4)]);
    for g in &gs {
        let (_, _, gx, gy) = block_gradient(&img, g.x, g.y);
        assert_eq!((g.gx, g.gy), (gx, gy));
    }
}

#[test]
fn gradients_of_tiny_image_is_empty() {
    let img = image(3, 9, |_, _| [0, 0, 0]);
    assert!(gradients(&img).is_empty());
}

#[test]
fn blocks_fit_unless_width_misaligned() {
    assert!(blocks_in_bounds(8, 8));
    assert!(blocks_in_bounds(8, 7));
    assert!(blocks_in_bounds(0, 0));
    assert!(blocks_in_bounds(3, 100));
    // six pixels wide: the second block would start at column 4
    assert!(!blocks_in_bounds(6, 8));
}

#[test]
fn edge_bucket_equality() {
    let a = EdgeBucket { r: 3, ang: -10 };
    assert_eq!(a, EdgeBucket { r: 3, ang: -10 });
    assert_ne!(a, EdgeBucket { r: 3, ang: 10 });
}
