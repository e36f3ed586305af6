use stitch::camera::{CameraTypeConfig, Error, ImageSpec, LensKind};
use stitch::frame::{DimError, DimErrorKind, FrameBuffer, SizedFrameBuffer};
use stitch::proj::ProjectionStyle;

fn png_bytes(width: u32, height: u32, pixels: Vec<u8>) -> Vec<u8> {
    let img = image::RgbImage::from_raw(width, height, pixels).unwrap();
    let mut out = Vec::new();
    img.write_to(&mut std::io::Cursor::new(&mut out), image::ImageFormat::Png).unwrap();
    out
}

fn spec(path: &str) -> ImageSpec {
    ImageSpec { path: path.to_string(), mask_path: None }
}

#[test]
fn lens_kind_defaults_to_rectilinear() {
    assert_eq!(LensKind::default(), LensKind::Rectilinear);
}

#[test]
fn fix_paths_joins_relative_paths() {
    let mut s = ImageSpec { path: "img.png".to_string(), mask_path: Some("m/mask.png".to_string()) };
    s.fix_paths("/data/cams");
    assert_eq!(s.path, "/data/cams/img.png");
    assert_eq!(s.mask_path, Some("/data/cams/m/mask.png".to_string()));
}

#[test]
fn fix_paths_keeps_absolute_paths() {
    let mut s = ImageSpec { path: "/abs/img.png".to_string(), mask_path: None };
    s.fix_paths("base");
    assert_eq!(s.path, "/abs/img.png");
    assert_eq!(s.mask_path, None);
}

#[test]
fn load_into_fills_matching_frame() {
    let pixels: Vec<u8> = (0..12).map(|v| v * 20).collect();
    let file = png_bytes(2, 2, pixels.clone());
    let mut buf = SizedFrameBuffer::new(2, 2, 3);
    assert!(spec("cam.png").load_into(&mut buf, &file).is_ok());
    assert_eq!(buf.as_bytes(), &pixels[..]);
}

#[test]
fn load_into_reports_size_mismatch() {
    let file = png_bytes(2, 2, vec![1; 12]);
    let mut buf = SizedFrameBuffer::new(3, 2, 3);
    match spec("cam.png").load_into(&mut buf, &file) {
        Err(Error::Dim(e)) => assert_eq!(e, DimError { kind: DimErrorKind::Width, exp: 3, got: 2 }),
        other => panic!("unexpected {other:?}"),
    }
    assert!(buf.as_bytes().iter().all(|b| *b == 0));
}

#[test]
fn load_into_takes_format_from_extension() {
    let file = png_bytes(2, 2, vec![1; 12]);
    let mut buf = SizedFrameBuffer::new(2, 2, 3);
    assert!(matches!(spec("cam.unknownext").load_into(&mut buf, &file), Err(Error::Image(_))));
    assert!(matches!(spec("cam").load_into(&mut buf, &file), Err(Error::Image(_))));
    assert!(matches!(spec("cam.jpg").load_into(&mut buf, &file), Err(Error::Image(_))));
    assert!(buf.as_bytes().iter().all(|b| *b == 0));
}

#[test]
fn load_into_checked_refuses_short_frame() {
    let file = png_bytes(2, 2, vec![1; 12]);
    let mut buf = SizedFrameBuffer { width: 2, height: 2, chans: 3, data: vec![0; 5] };
    assert!(spec("cam.png").load_into_checked(&mut buf, &file).is_none());
    assert_eq!(buf.data, vec![0; 5]);
    let mut good = SizedFrameBuffer::new(2, 2, 3);
    assert!(matches!(spec("cam.png").load_into_checked(&mut good, &file), Some(Ok(()))));
    assert_eq!(good.as_bytes(), &[1; 12]);
}

#[test]
fn camera_type_config_variants() {
    let c = CameraTypeConfig::Projection { style: ProjectionStyle::Normal, avg_colors: true };
    assert!(matches!(c, CameraTypeConfig::Projection { avg_colors: true, .. }));
    let i = CameraTypeConfig::Image { path: "a.png".to_string(), mask_path: None };
    assert!(matches!(i, CameraTypeConfig::Image { .. }));
}

#[test]
fn fix_paths_twice_changes_nothing() {
    let mut s = ImageSpec { path: "img.png".to_string(), mask_path: Some("mask.png".to_string()) };
    s.fix_paths("/data");
    let once = (s.path.clone(), s.mask_path.clone());
    s.fix_paths("/data");
    assert_eq!((s.path.clone(), s.mask_path.clone()), once);
    assert_eq!(s.path, "/data/img.png");
}

#[test]
fn load_into_reports_broken_pixel_data() {
    let mut file = png_bytes(4, 4, (0..48).collect());
    // keep the header, break the compressed pixel data
    let n = file.len();
    for b in &mut file[n - 30..n - 12] {
        *b = 0;
    }
    let mut buf = SizedFrameBuffer::new(4, 4, 3);
    assert!(matches!(spec("cam.png").load_into(&mut buf, &file), Err(Error::Image(_))));
    assert_eq!(buf.as_bytes().len(), 48);
}

#[test]
fn load_sized_takes_image_size() {
    let pixels: Vec<u8> = (0..18).map(|v| v * 10).collect();
    let file = png_bytes(3, 2, pixels.clone());
    let buf = stitch::camera::load_sized(&file, "a.png").unwrap();
    assert_eq!((buf.width, buf.height, buf.chans), (3, 2, 3));
    assert_eq!(buf.data, pixels);
}

#[test]
fn load_sized_reports_undecodable_image() {
    let file = png_bytes(3, 2, vec![1; 18]);
    assert!(matches!(stitch::camera::load_sized(&file, "a.bmpx"), Err(Error::Image(_))));
    assert!(matches!(stitch::camera::load_sized(&file[..20], "a.png"), Err(Error::Image(_))));
}

#[test]
fn load_sized_checked_refuses_wide_channels() {
    let img = image::ImageBuffer::<image::Rgb<u16>, Vec<u16>>::from_raw(2, 1, vec![1, 2, 3, 4, 5, 6]).unwrap();
    let mut file = Vec::new();
    img.write_to(&mut std::io::Cursor::new(&mut file), image::ImageFormat::Png).unwrap();
    assert!(stitch::camera::load_sized_checked(&file, "w.png").is_none());
    let ok = png_bytes(1, 1, vec![9, 8, 7]);
    match stitch::camera::load_sized_checked(&ok, "x.png") {
        Some(Ok(b)) => assert_eq!(b.data, vec![9, 8, 7]),
        _ => panic!("expected a loaded frame"),
    }
}

#[test]
fn image_loader_copies_rgba_pixels() {
    let file = png_bytes(2, 1, vec![1, 2, 3, 4, 5, 6]);
    let l = stitch::camera::ImageLoader::from_file(&file, "img.png").unwrap();
    assert_eq!((l.width, l.height), (2, 1));
    assert_eq!(l.num_bytes(), 8);
    let mut dest = vec![0u8; 8];
    l.fill(&mut dest);
    assert_eq!(dest, vec![1, 2, 3, 255, 4, 5, 6, 255]);
}

#[test]
fn image_loader_reports_undecodable_image() {
    let file = png_bytes(2, 1, vec![1; 6]);
    assert!(matches!(stitch::camera::ImageLoader::from_file(&file, "img.txt"), Err(Error::Image(_))));
}
