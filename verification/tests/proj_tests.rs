use stitch::frame::{FrameBuffer, SizedFrameBuffer};
use stitch::proj::{CpuProjector, ProjectionStyle};

#[test]
fn sized_projector_has_forward_size() {
    assert_eq!(CpuProjector::sized(640, 480).forward_size(), (640, 480));
}

#[test]
fn projection_style_default_is_normal() {
    assert_eq!(ProjectionStyle::default(), ProjectionStyle::Normal);
}

#[test]
fn load_back_copies_picked_pixels() {
    let p = CpuProjector::none();
    let mut buf = SizedFrameBuffer::new(3, 1, 4);
    let a = [1u8, 2, 3];
    let b = [4u8, 5, 6, 7];
    p.load_back(&[Some(&a[..]), None, Some(&b[..])], &mut buf);
    assert_eq!(buf.as_bytes(), &[1, 2, 3, 255, 0, 0, 0, 0, 4, 5, 6, 7]);
}

#[test]
fn load_back_stops_at_shorter_list() {
    let p = CpuProjector::sized(2, 1);
    let mut buf = SizedFrameBuffer::new(2, 1, 1);
    let a = [9u8];
    p.load_back(&[Some(&a[..]), Some(&a[..]), Some(&a[..])], &mut buf);
    assert_eq!(buf.as_bytes(), &[9, 9]);
    let mut buf2 = SizedFrameBuffer::new(2, 1, 1);
    p.load_back(&[Some(&a[..])], &mut buf2);
    assert_eq!(buf2.as_bytes(), &[9, 0]);
}
