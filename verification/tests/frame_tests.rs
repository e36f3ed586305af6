use stitch::frame::{
    pixel_chunks, DecoderInfo, DimError, DimErrorKind, FrameBuffer, FrameBufferMut,
    FrameBufferView, FrameSize, SizedFrameBuffer, StaticFrameBuffer,
};

#[test]
fn sized_frame_new_is_zeroed() {
    let f = SizedFrameBuffer::new(2, 3, 4);
    assert_eq!((f.width, f.height, f.chans), (2, 3, 4));
    assert_eq!(f.data.len(), 24);
    assert!(f.data.iter().all(|b| *b == 0));
    assert_eq!(f.frame_size(), (2, 3, 4));
    assert_eq!(f.num_bytes(), 24);
}

#[test]
fn sized_frame_default_is_empty() {
    let f = SizedFrameBuffer::default();
    assert_eq!(f.frame_size(), (0, 0, 0));
    assert!(f.as_bytes().is_empty());
}

#[test]
fn take_vec_returns_bytes_and_zeroes_frame() {
    let mut f = SizedFrameBuffer::new(2, 1, 3);
    f.as_bytes_mut().copy_from_slice(&[1, 2, 3, 4, 5, 6]);
    let v = f.take_vec();
    assert_eq!(v, vec![1, 2, 3, 4, 5, 6]);
    assert_eq!(f.as_bytes(), &[0, 0, 0, 0, 0, 0]);
    assert_eq!(f.frame_size(), (2, 1, 3));
    let again = f.take_vec();
    assert_eq!(again, vec![0; 6]);
}

#[test]
fn static_frame_default_is_zeroed() {
    let f: StaticFrameBuffer<3, 2, 4> = StaticFrameBuffer::default();
    assert_eq!(f.frame_size(), (3, 2, 4));
    assert_eq!(f.as_bytes().len(), 24);
    assert!(f.as_bytes().iter().all(|b| *b == 0));
}

#[test]
fn view_keeps_size_and_bytes() {
    let data = [9u8, 8, 7, 6];
    let v = FrameBufferView::new((2, 1, 2), &data);
    assert_eq!(v.frame_size(), (2, 1, 2));
    assert_eq!(v.as_bytes(), &data);
    assert!(v.mask_bytes().is_none());
    let e = v.as_empty_view();
    assert_eq!(e.frame_size(), (2, 1, 2));
    assert!(e.as_bytes().is_empty());
}

#[test]
fn dim_check_equal_is_ok() {
    assert_eq!(DimErrorKind::Width.check(5, 5), Ok(()));
}

#[test]
fn dim_check_unequal_is_error() {
    assert_eq!(
        DimErrorKind::Height.check(5, 6),
        Err(DimError { kind: DimErrorKind::Height, exp: 5, got: 6 })
    );
    assert_eq!(
        DimErrorKind::Channel.err(3, 4),
        DimError { kind: DimErrorKind::Channel, exp: 3, got: 4 }
    );
}

#[test]
fn dim_kind_names() {
    assert_eq!(DimErrorKind::Width.name(), "width");
    assert_eq!(DimErrorKind::Height.name(), "height");
    assert_eq!(DimErrorKind::Channel.name(), "channel");
    assert_eq!(DimErrorKind::Bytes.name(), "bytes");
}

fn info(width: u32, height: u32, channel_count: u8, bytes_per_pixel: u8) -> DecoderInfo {
    DecoderInfo { width, height, channel_count, bytes_per_pixel }
}

#[test]
fn check_decoder_accepts_matching_image() {
    let f = SizedFrameBuffer::new(4, 2, 3);
    assert_eq!(f.check_decoder(&info(4, 2, 3, 3)), Ok(()));
}

#[test]
fn check_decoder_rejects_wide_channels_first() {
    let f = SizedFrameBuffer::new(4, 2, 3);
    // a 16-bit RGB image: 3 channels in 6 bytes, checked before the size
    assert_eq!(
        f.check_decoder(&info(9, 9, 3, 6)),
        Err(DimError { kind: DimErrorKind::Bytes, exp: 1, got: 0 })
    );
}

#[test]
fn check_decoder_reports_each_dimension() {
    let f = SizedFrameBuffer::new(4, 2, 3);
    assert_eq!(
        f.check_decoder(&info(5, 2, 3, 3)),
        Err(DimError { kind: DimErrorKind::Width, exp: 4, got: 5 })
    );
    assert_eq!(
        f.check_decoder(&info(4, 1, 3, 3)),
        Err(DimError { kind: DimErrorKind::Height, exp: 2, got: 1 })
    );
    assert_eq!(
        f.check_decoder(&info(4, 2, 4, 4)),
        Err(DimError { kind: DimErrorKind::Channel, exp: 3, got: 4 })
    );
}

#[test]
fn frame_pixel_at_steps_rows_by_height() {
    // rows are addressed in steps of the frame's height
    let data: Vec<u8> = (0..12).collect();
    let v = FrameBufferView::new((3, 2, 2), &data);
    assert_eq!(FrameBuffer::pixel_at(&v, 0, 0), &[0, 1]);
    assert_eq!(FrameBuffer::pixel_at(&v, 1, 1), &[6, 7]);
    assert_eq!(FrameBuffer::pixel_at(&v, 2, 1), &[8, 9]);
}

#[test]
fn pixel_iter_cuts_last_pixel_short() {
    let data = [1u8, 2, 3, 4, 5, 6, 7];
    let v = FrameBufferView::new((2, 1, 3), &data);
    let ps = FrameBuffer::pixel_iter(&v);
    assert_eq!(ps, vec![&[1u8, 2, 3][..], &[4, 5, 6][..], &[7][..]]);
}

#[test]
fn pixel_chunks_cover_bytes() {
    let data: Vec<u8> = (0..10).collect();
    for chans in 1..5 {
        let ps = pixel_chunks(&data, chans);
        let joined: Vec<u8> = ps.iter().flat_map(|p| p.iter().copied()).collect();
        assert_eq!(joined, data);
        for (k, b) in data.iter().enumerate() {
            assert_eq!(ps[k / chans][k % chans], *b);
        }
    }
}

#[test]
fn dim_error_message_text() {
    assert_eq!(DimErrorKind::Width.check(3, 4).unwrap_err().message(), "width mismatch: 3 != 4");
    assert_eq!(DimErrorKind::Bytes.err(1, 120).message(), "bytes mismatch: 1 != 120");
    assert_eq!(DimErrorKind::Channel.check(4, 4), Ok(()));
}
