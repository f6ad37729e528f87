use std::io::Cursor;

use pixelops::clip::PixelsError;
use pixelops::image_ops::clip_pixels_with_percentiles;
use pixelops::image_ops::invert_colors;
use pixelops::image_ops::median_blur;
use pixelops::image_ops::remove_hot_pixels_with_percentile;
use pixelops::image_ops::to_grayscale;
use pixelops::image_ops::to_png;
use pixelops::percentile::Percentile;

fn make_png(width: u32, height: u32, pixels: Vec<u8>) -> Vec<u8> {
    let buf: image::ImageBuffer<image::Rgb<u8>, Vec<u8>> =
        image::ImageBuffer::from_raw(width, height, pixels).unwrap();
    let mut out = Cursor::new(Vec::new());
    image::DynamicImage::ImageRgb8(buf)
        .write_to(&mut out, image::ImageOutputFormat::Png)
        .unwrap();
    out.into_inner()
}

fn decode_rgb(bytes: &[u8]) -> (u32, u32, Vec<u8>) {
    let img = image::load_from_memory(bytes).unwrap();
    let rgb = img.to_rgb8();
    let (w, h) = rgb.dimensions();
    (w, h, rgb.into_raw())
}

#[test]
fn clip_pipeline_scenario() {
    // 6 channel bytes: low index = floor(0.2 * 6) = 1 -> 20,
    // high index = floor(0.8 * 6) = 4 -> 50
    let png = make_png(2, 1, vec![10, 20, 30, 40, 50, 60]);
    let out = clip_pixels_with_percentiles(
        &png,
        Some(Percentile::whole(20)),
        Some(Percentile::whole(80)),
    )
    .unwrap();
    let (w, h, pixels) = decode_rgb(&out);
    assert_eq!((w, h), (2, 1));
    assert_eq!(pixels, vec![20, 20, 30, 40, 50, 50]);
}

#[test]
fn clip_pipeline_no_percentiles_keeps_pixels() {
    let original = vec![10, 20, 30, 40, 50, 60];
    let png = make_png(2, 1, original.clone());
    let out = clip_pixels_with_percentiles(&png, None, None).unwrap();
    let (_, _, pixels) = decode_rgb(&out);
    assert_eq!(pixels, original);
}

#[test]
fn clip_pipeline_full_range_keeps_pixels() {
    let original = vec![10, 20, 30, 40, 50, 60];
    let png = make_png(2, 1, original.clone());
    let out = clip_pixels_with_percentiles(
        &png,
        Some(Percentile::whole(0)),
        Some(Percentile::whole(100)),
    )
    .unwrap();
    let (_, _, pixels) = decode_rgb(&out);
    assert_eq!(pixels, original);
}

#[test]
fn clip_pipeline_validates_before_decoding() {
    // invalid percentiles win over undecodable bytes
    let garbage = vec![1, 2, 3, 4];
    let r = clip_pixels_with_percentiles(
        &garbage,
        Some(Percentile::whole(60)),
        Some(Percentile::whole(40)),
    );
    assert!(matches!(r, Err(PixelsError::LowAboveHigh)));
    let r = clip_pixels_with_percentiles(&garbage, Some(Percentile::whole(150)), None);
    assert!(matches!(r, Err(PixelsError::PercentileOutOfRange)));
}

#[test]
fn clip_pipeline_reports_decode_error() {
    let garbage = vec![1, 2, 3, 4];
    let r = clip_pixels_with_percentiles(&garbage, Some(Percentile::whole(10)), None);
    match r {
        Err(e @ PixelsError::Decode(_)) => {
            assert!(e.message().starts_with("Image decode error: "));
        }
        other => panic!("expected a decode error, got {:?}", other),
    }
}

#[test]
fn hot_pixel_pipeline_scenario() {
    // index = floor(0.4 * 6) = 2 -> cutoff 30
    let png = make_png(2, 1, vec![10, 20, 30, 40, 50, 60]);
    let out = remove_hot_pixels_with_percentile(&png, Percentile::whole(40)).unwrap();
    let (_, _, pixels) = decode_rgb(&out);
    assert_eq!(pixels, vec![10, 20, 30, 30, 30, 30]);
}

#[test]
fn hot_pixel_pipeline_rejects_bad_percentile() {
    let png = make_png(1, 1, vec![5, 5, 5]);
    let r = remove_hot_pixels_with_percentile(&png, Percentile::whole(101));
    assert!(matches!(r, Err(PixelsError::PercentileOutOfRange)));
}

#[test]
fn hot_pixel_pipeline_reports_decode_error() {
    let garbage = vec![9, 9, 9];
    let r = remove_hot_pixels_with_percentile(&garbage, Percentile::whole(50));
    assert!(matches!(r, Err(PixelsError::Decode(_))));
}

#[test]
fn to_png_converts_other_containers() {
    let original = vec![7, 8, 9, 10, 11, 12];
    let buf: image::ImageBuffer<image::Rgb<u8>, Vec<u8>> =
        image::ImageBuffer::from_raw(2, 1, original.clone()).unwrap();
    let mut bmp = Cursor::new(Vec::new());
    image::DynamicImage::ImageRgb8(buf)
        .write_to(&mut bmp, image::ImageOutputFormat::Bmp)
        .unwrap();
    let bmp = bmp.into_inner();
    let out = to_png(&bmp).unwrap();
    assert_ne!(out, bmp);
    // PNG signature
    assert_eq!(&out[..4], &[0x89, b'P', b'N', b'G']);
    let (_, _, pixels) = decode_rgb(&out);
    assert_eq!(pixels, original);
}

#[test]
fn to_png_roundtrips_pixels() {
    let original = vec![1, 2, 3, 250, 251, 252];
    let png = make_png(2, 1, original.clone());
    let out = to_png(&png).unwrap();
    let (w, h, pixels) = decode_rgb(&out);
    assert_eq!((w, h), (2, 1));
    assert_eq!(pixels, original);
}

#[test]
fn invert_colors_inverts_every_channel() {
    let original = vec![0, 10, 100, 200, 255, 30];
    let png = make_png(2, 1, original.clone());
    let out = invert_colors(&png).unwrap();
    let (_, _, pixels) = decode_rgb(&out);
    let expected: Vec<u8> = original.iter().map(|x| 255 - x).collect();
    assert_eq!(pixels, expected);
}

#[test]
fn grayscale_flattens_channels() {
    let png = make_png(1, 1, vec![255, 0, 0]);
    let out = to_grayscale(&png).unwrap();
    let (_, _, pixels) = decode_rgb(&out);
    assert_eq!(pixels.len(), 3);
    assert_eq!(pixels[0], pixels[1]);
    assert_eq!(pixels[1], pixels[2]);
    // pure red does not stay at full intensity once weighted to luma
    assert!(pixels[0] < 255);
}

#[test]
fn median_blur_removes_salt_pixel() {
    // 3x3 image, all black except a white center pixel
    let mut pixels = vec![0u8; 27];
    pixels[4 * 3] = 255;
    pixels[4 * 3 + 1] = 255;
    pixels[4 * 3 + 2] = 255;
    let png = make_png(3, 3, pixels);
    let out = median_blur(&png, 1).unwrap();
    let (_, _, filtered) = decode_rgb(&out);
    assert_eq!(&filtered[4 * 3..4 * 3 + 3], &[0, 0, 0]);
}

#[test]
fn median_blur_rejects_zero_radius() {
    let png = make_png(1, 1, vec![5, 5, 5]);
    let r = median_blur(&png, 0);
    assert!(matches!(r, Err(PixelsError::InvalidKernelRadius)));
}

#[test]
fn median_blur_reports_decode_error() {
    let garbage = vec![0, 1, 2];
    let r = median_blur(&garbage, 2);
    assert!(matches!(r, Err(PixelsError::Decode(_))));
}
