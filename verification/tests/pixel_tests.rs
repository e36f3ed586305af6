use stitch::frame::{FrameBuffer, FrameBufferView, SizedFrameBuffer};
use stitch::pixel::{copy_pixel_into, PixelBufferExt, PixelBufferMutExt};

#[test]
fn copy_rgb_into_rgba_adds_opaque_alpha() {
    let mut dest = [0u8; 4];
    copy_pixel_into(&[10, 20, 30], &mut dest);
    assert_eq!(dest, [10, 20, 30, 255]);
}

#[test]
fn copy_gray_into_gray_alpha_adds_opaque_alpha() {
    let mut dest = [7u8; 2];
    copy_pixel_into(&[99], &mut dest);
    assert_eq!(dest, [99, 255]);
}

#[test]
fn copy_same_length_copies_bytes() {
    let mut dest = [0u8; 3];
    copy_pixel_into(&[1, 2, 3], &mut dest);
    assert_eq!(dest, [1, 2, 3]);
}

#[test]
fn checked_pixel_at_inside_and_outside() {
    let data: Vec<u8> = (0..8).collect();
    let v = FrameBufferView::new((2, 2, 2), &data);
    assert_eq!(PixelBufferExt::pixel_at(&v, 1, 0), Some(&[2u8, 3][..]));
    assert_eq!(PixelBufferExt::pixel_at(&v, 0, 1), Some(&[4u8, 5][..]));
    assert_eq!(PixelBufferExt::pixel_at(&v, 2, 0), None);
    assert_eq!(PixelBufferExt::pixel_at(&v, 0, 2), None);
}

#[test]
fn write_pixel_then_read_back() {
    let mut f = SizedFrameBuffer::new(3, 1, 4);
    f.write_pixel(1, &[1, 2, 3]);
    let ps = PixelBufferExt::pixel_iter(&f);
    assert_eq!(ps[0], &[0, 0, 0, 0]);
    assert_eq!(ps[1], &[1, 2, 3, 255]);
    assert_eq!(ps[2], &[0, 0, 0, 0]);
    assert_eq!(f.as_bytes().len(), 12);
}

#[test]
fn write_pixel_same_format() {
    let mut f = SizedFrameBuffer::new(2, 1, 2);
    f.write_pixel(0, &[5, 6]);
    f.write_pixel(1, &[7, 8]);
    assert_eq!(f.as_bytes(), &[5, 6, 7, 8]);
}
