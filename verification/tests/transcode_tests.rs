use image::GenericImageView;
use mesh_core::errors::MeshError;
use mesh_core::transcode::{takes_png_branch, target_dims, transcode};

#[test]
fn tall_source_scales_to_max_height() {
    // 4000x3000 at maximum height 300: scale factor 0.1 on both axes.
    assert_eq!(target_dims(4000, 3000), (400, 300));
}

#[test]
fn short_source_passes_through() {
    assert_eq!(target_dims(500, 300), (500, 300));
    assert_eq!(target_dims(500, 120), (500, 120));
}

#[test]
fn width_rounds_to_nearest() {
    // 1000 * 300 / 301 = 996.67..: rounds up to 997.
    assert_eq!(target_dims(1000, 301), (997, 300));
    // 999 * 300 / 400 = 749.25: rounds down to 749.
    assert_eq!(target_dims(999, 400), (749, 300));
}

#[test]
fn png_branch_matches_case_insensitively() {
    assert!(takes_png_branch("png"));
    assert!(takes_png_branch("PNG"));
    assert!(takes_png_branch("Png"));
    assert!(!takes_png_branch("jpg"));
    assert!(!takes_png_branch("heic"));
    assert!(!takes_png_branch(""));
}

#[test]
fn png_source_encodes_as_png_at_target_size() {
    let img = image::DynamicImage::new_rgb8(4000, 3000);
    let out = transcode(&img, "PNG").unwrap();
    assert_eq!(&out[0..4], &[0x89, 0x50, 0x4E, 0x47]);
    let decoded = image::load_from_memory(&out).unwrap();
    assert_eq!(decoded.dimensions(), (400, 300));
}

#[test]
fn unsupported_extension_falls_back_to_jpeg() {
    // 640x480 scales to the maximum height: 400x300.
    let img = image::DynamicImage::new_rgb8(640, 480);
    let out = transcode(&img, "heic").unwrap();
    assert_eq!(&out[0..2], &[0xFF, 0xD8]);
    let decoded = image::load_from_memory(&out).unwrap();
    assert_eq!(decoded.dimensions(), (400, 300));
}

#[test]
fn transcode_is_reproducible() {
    let img = image::DynamicImage::new_rgb8(800, 600);
    let a = transcode(&img, "jpg").unwrap();
    let b = transcode(&img, "jpg").unwrap();
    assert_eq!(a, b);
}

#[test]
fn zero_sized_target_fails_per_file() {
    // A 1x100000 source scales its width to zero, which no encoder accepts.
    let img = image::DynamicImage::new_rgb8(1, 100000);
    assert_eq!(target_dims(1, 100000), (0, 300));
    let r = transcode(&img, "png");
    assert_eq!(r.unwrap_err(), MeshError::EncodeError);
}

#[test]
fn oversize_jpeg_target_fails_per_file() {
    // 70000x10 passes through unresized; JPEG accepts at most 65535.
    let img = image::DynamicImage::new_rgb8(70000, 10);
    assert_eq!(target_dims(70000, 10), (70000, 10));
    assert_eq!(transcode(&img, "bmp").unwrap_err(), MeshError::EncodeError);
}
