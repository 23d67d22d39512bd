use std::io::Cursor;

use tmtbook::media::{optimize_image_bytes, ImagePreset, WebpOutcome};

fn png_bytes(width: u32, height: u32) -> Vec<u8> {
    let img = image::RgbImage::from_pixel(width, height, image::Rgb([200, 40, 90]));
    let mut out = Cursor::new(Vec::new());
    image::DynamicImage::ImageRgb8(img).write_to(&mut out, image::ImageFormat::Png).unwrap();
    out.into_inner()
}

fn webp_size(bytes: &[u8]) -> (u32, u32) {
    assert_eq!(image::guess_format(bytes).unwrap(), image::ImageFormat::WebP);
    let img = image::load_from_memory_with_format(bytes, image::ImageFormat::WebP).unwrap();
    (img.width(), img.height())
}

#[test]
fn a_wide_banner_is_shrunk_to_the_preset_width_and_written_as_webp() {
    let src = png_bytes(2000, 100);
    match optimize_image_bytes(&src, "images/hero.png", ImagePreset::Banner) {
        WebpOutcome::Encoded(webp) => {
            assert_ne!(webp, src);
            assert_eq!(webp_size(&webp), (1600, 80));
        }
        other => panic!("expected an encoded image, got {other:?}"),
    }
}

#[test]
fn a_narrow_image_keeps_its_size() {
    let src = png_bytes(300, 50);
    match optimize_image_bytes(&src, "p.PNG", ImagePreset::Profile) {
        WebpOutcome::Encoded(webp) => assert_eq!(webp_size(&webp), (300, 50)),
        other => panic!("expected an encoded image, got {other:?}"),
    }
}

#[test]
fn the_thumbnail_preset_is_the_narrowest() {
    let src = png_bytes(480, 480);
    match optimize_image_bytes(&src, "t.png", ImagePreset::Thumb) {
        WebpOutcome::Encoded(webp) => assert_eq!(webp_size(&webp), (240, 240)),
        other => panic!("expected an encoded image, got {other:?}"),
    }
}

#[test]
fn bytes_that_are_no_image_are_left_alone() {
    assert!(matches!(optimize_image_bytes(b"not an image", "a.png", ImagePreset::Banner), WebpOutcome::NotAnImage));
}

#[test]
fn the_format_comes_from_the_extension() {
    let src = png_bytes(10, 10);
    assert!(matches!(optimize_image_bytes(&src, "a.jpg", ImagePreset::Banner), WebpOutcome::NotAnImage));
    assert!(matches!(optimize_image_bytes(&src, "noext", ImagePreset::Banner), WebpOutcome::NotAnImage));
}
