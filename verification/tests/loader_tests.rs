use stitch::loader::{
    check_decoded_size, check_frame_format, frame_duration_ns, pattern_grid_size, resolve_controls,
    select_frame_size, ControlSetting, Error, FrameSizeEntry, OwnedWritable, OwnedWriteBuffer,
    DEFAULT_FRAME_RATE, DEFAULT_GRID_SIZE,
};

#[test]
fn grid_size_defaults_to_sixteen() {
    assert_eq!(DEFAULT_GRID_SIZE, 16);
    assert_eq!(pattern_grid_size(None), 16);
    assert_eq!(pattern_grid_size(Some(8)), 8);
}

#[test]
fn frame_duration_from_rate() {
    assert_eq!(DEFAULT_FRAME_RATE, 30);
    assert_eq!(frame_duration_ns(None), 33_333_333);
    assert_eq!(frame_duration_ns(Some(60)), 16_666_666);
    assert_eq!(frame_duration_ns(Some(1)), 1_000_000_000);
}

fn entry(width: u32, height: u32, fourcc: &[u8; 4]) -> FrameSizeEntry {
    FrameSizeEntry { width, height, fourcc: *fourcc }
}

#[test]
fn select_frame_size_takes_first_match() {
    let sizes = [entry(640, 480, b"YUYV"), entry(1920, 1080, b"MJPG"), entry(1920, 1080, b"YUYV")];
    assert_eq!(select_frame_size(2, &sizes, [1920, 1080]), Ok(entry(1920, 1080, b"MJPG")));
}

#[test]
fn select_frame_size_without_match() {
    let sizes = [entry(640, 480, b"YUYV")];
    assert_eq!(
        select_frame_size(2, &sizes, [1920, 1080]),
        Err(Error::NoFrameSize { index: 2, resolution: [1920, 1080] })
    );
    assert_eq!(
        select_frame_size(0, &[], [1, 1]),
        Err(Error::NoFrameSize { index: 0, resolution: [1, 1] })
    );
}

#[test]
fn only_mjpg_frames_are_read() {
    assert_eq!(check_frame_format(1, *b"MJPG"), Ok(()));
    assert_eq!(
        check_frame_format(1, *b"YUYV"),
        Err(Error::UnknownFrameFormat { index: 1, fourcc: *b"YUYV" })
    );
}

#[test]
fn decoded_size_must_fill_destination() {
    assert_eq!(check_decoded_size(16, 16), Ok(()));
    assert_eq!(check_decoded_size(16, 12), Err(Error::BadDecodedSize { expected: 12, got: 16 }));
}

fn known() -> Vec<(String, u32)> {
    vec![
        ("Brightness".to_string(), 1),
        ("Contrast".to_string(), 2),
        ("Brightness".to_string(), 3),
    ]
}

#[test]
fn controls_resolve_to_last_id_of_name() {
    let wanted = vec![("Contrast".to_string(), -4), ("Brightness".to_string(), 128)];
    assert_eq!(
        resolve_controls(0, &wanted, &known()),
        Ok(vec![ControlSetting { id: 2, value: -4 }, ControlSetting { id: 3, value: 128 }])
    );
    assert_eq!(resolve_controls(0, &[], &known()), Ok(vec![]));
}

#[test]
fn unknown_control_is_refused() {
    let wanted = vec![
        ("Contrast".to_string(), 1),
        ("Gain".to_string(), 2),
        ("Zoom".to_string(), 3),
    ];
    assert_eq!(
        resolve_controls(5, &wanted, &known()),
        Err(Error::UnknownControl { index: 5, name: "Gain".to_string() })
    );
}

#[test]
fn vec_lends_its_bytes() {
    let mut v = vec![1u8, 2, 3];
    v.owned_to_view()[1] = 9;
    assert_eq!(v, vec![1, 9, 3]);
    if let Some(view) = v.owned_to_inner() {
        view[0] = 7;
    }
    assert_eq!(v, vec![7, 9, 3]);
}

#[test]
fn buffer_lost_error() {
    assert_ne!(Error::BufferLost, Error::BadDecodedSize { expected: 0, got: 0 });
}
