use stitch::loader::{Config, Error, Mode};
use stitch::pattern::{from_spec, on_color_pixel, PatternLoader, OFF_COLOR};

fn config(w: u32, h: u32) -> Config {
    Config {
        mode: Mode::Pattern { color: [1, 2, 3], grid_size: None },
        resolution: [w, h],
        frame_rate: None,
    }
}

fn chess(r: u32, col: u32, g: u32, lit: u32) -> u32 {
    if (r / g + col / g) % 2 == 1 {
        lit
    } else {
        OFF_COLOR
    }
}

#[test]
fn on_color_is_little_endian_rgba() {
    assert_eq!(on_color_pixel([1, 2, 3]), 0xff03_0201);
    assert_eq!(on_color_pixel([1, 2, 3]), u32::from_le_bytes([1, 2, 3, 255]));
    assert_eq!(OFF_COLOR, u32::from_le_bytes([0, 0, 0, 255]));
}

#[test]
fn from_spec_accepts_multiple_of_grid() {
    let p = from_spec(&config(32, 20), [9, 8, 7], 16).unwrap();
    assert_eq!(p, PatternLoader { width: 32, height: 20, color: [9, 8, 7], grid_size: 16 });
}

#[test]
fn from_spec_rejects_width_not_multiple_of_grid() {
    assert_eq!(
        from_spec(&config(30, 20), [9, 8, 7], 16),
        Err(Error::InvalidGridSize { grid_size: 16, width: 30, height: 20 })
    );
}

#[test]
fn render_small_chessboard() {
    let p = from_spec(&config(4, 4), [1, 2, 3], 2).unwrap();
    let lit = on_color_pixel([1, 2, 3]);
    let mut dest = vec![0u32; 16];
    p.render(&mut dest);
    for r in 0..4 {
        for c in 0..4 {
            assert_eq!(dest[(r * 4 + c) as usize], chess(r, c, 2, lit), "row {r} col {c}");
        }
    }
    assert_eq!(dest[0], OFF_COLOR);
    assert_eq!(dest[2], lit);
    assert_eq!(dest[8], lit);
}

#[test]
fn render_default_grid_is_chessboard_below_height() {
    let lit = on_color_pixel([200, 100, 50]);
    for h in [8u32, 16, 20, 32, 40, 47] {
        let p = from_spec(&config(32, h), [200, 100, 50], 16).unwrap();
        let mut dest = vec![7u32; (32 * h) as usize];
        p.render(&mut dest);
        for r in 0..h {
            for c in 0..32 {
                assert_eq!(dest[(r * 32 + c) as usize], chess(r, c, 16, lit), "h {h} row {r} col {c}");
            }
        }
    }
}

#[test]
fn render_every_grid_is_chessboard_over_whole_frame() {
    let lit = on_color_pixel([1, 1, 1]);
    for g in [1u32, 2, 3, 4, 8, 16, 32] {
        for h in [1u32, 5, 13, 20, 28, 47, 64, 70] {
            let w = 4 * g;
            let p = from_spec(&config(w, h), [1, 1, 1], g).unwrap();
            assert!(p.can_render((w * h) as usize));
            let mut dest = vec![5u32; (w * h) as usize];
            p.render(&mut dest);
            for r in 0..h {
                for c in 0..w {
                    assert_eq!(dest[(r * w + c) as usize], chess(r, c, g, lit), "g {g} h {h} row {r} col {c}");
                }
            }
        }
    }
}

#[test]
fn render_grid_eight_last_rows_flip() {
    // 28 rows: one band pair of 16, then 8 black-first rows and 4 lit-first
    let p = from_spec(&config(8, 28), [1, 2, 3], 8).unwrap();
    let mut dest = vec![5u32; 8 * 28];
    p.render(&mut dest);
    assert!(dest[16 * 8..24 * 8].iter().all(|w| *w == OFF_COLOR));
    assert!(dest[24 * 8..].iter().all(|w| *w == on_color_pixel([1, 2, 3])));
}

#[test]
fn render_two_by_two_grid_one_bytes() {
    let p = from_spec(&config(2, 2), [255, 0, 0], 1).unwrap();
    let mut words = vec![7u32; 4];
    assert!(p.render_bytes(zerocopy::IntoBytes::as_mut_bytes(&mut words[..])));
    let bytes: Vec<u8> = words.iter().flat_map(|w| w.to_le_bytes()).collect();
    assert_eq!(bytes, vec![0, 0, 0, 255, 255, 0, 0, 255, 255, 0, 0, 255, 0, 0, 0, 255]);
}

#[test]
fn render_bytes_through_word_view() {
    let p = from_spec(&config(4, 4), [1, 2, 3], 2).unwrap();
    let mut expected = vec![0u32; 16];
    p.render(&mut expected);
    let mut words = vec![0u32; 16];
    let ok = p.render_bytes(zerocopy::IntoBytes::as_mut_bytes(&mut words[..]));
    assert!(ok);
    assert_eq!(words, expected);
}

#[test]
fn render_bytes_refuses_misaligned_bytes() {
    let p = from_spec(&config(2, 2), [1, 2, 3], 2).unwrap();
    let mut words = vec![0u32; 6];
    let bytes = zerocopy::IntoBytes::as_mut_bytes(&mut words[..]);
    assert!(!p.render_bytes(&mut bytes[1..17]));
    assert!(words.iter().all(|w| *w == 0));
}

#[test]
fn render_owned_vec() {
    let p = from_spec(&config(2, 2), [1, 2, 3], 2).unwrap();
    let mut buf = vec![0u8; 16];
    assert!(p.render_owned(&mut buf));
    let off = OFF_COLOR.to_ne_bytes();
    assert_eq!(&buf[0..4], &off);
    assert_eq!(&buf[12..16], &off);
}

#[test]
fn render_owned_bytes_are_native_words() {
    let p = from_spec(&config(4, 2), [9, 8, 7], 2).unwrap();
    let mut expected = vec![0u32; 8];
    p.render(&mut expected);
    let mut buf = vec![0u8; 32];
    assert!(p.render_owned(&mut buf));
    let want: Vec<u8> = expected.iter().flat_map(|w| w.to_ne_bytes()).collect();
    assert_eq!(buf, want);
}
