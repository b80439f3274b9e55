use sloth::decode::{load_image_from_memory, rgba_from_decoded, ImageLoadError};

fn png_of(img: image::DynamicImage) -> Vec<u8> {
    let mut out = std::io::Cursor::new(Vec::new());
    img.write_to(&mut out, image::ImageOutputFormat::Png).unwrap();
    out.into_inner()
}

#[test]
fn a_png_is_decoded_into_its_rgba_bytes() {
    let mut img = image::RgbaImage::new(2, 1);
    img.put_pixel(0, 0, image::Rgba([1, 2, 3, 4]));
    img.put_pixel(1, 0, image::Rgba([5, 6, 7, 8]));
    let png = png_of(image::DynamicImage::ImageRgba8(img));
    let loaded = load_image_from_memory(&png).unwrap();
    assert_eq!(loaded.width(), 2);
    assert_eq!(loaded.height(), 1);
    assert_eq!(loaded.bytes(), &vec![1, 2, 3, 4, 5, 6, 7, 8]);
    assert_ne!(loaded.bytes(), &png);
}

#[test]
fn a_grey_image_is_widened_to_rgba() {
    let mut img = image::GrayImage::new(1, 2);
    img.put_pixel(0, 0, image::Luma([7]));
    img.put_pixel(0, 1, image::Luma([200]));
    let decoded = image::DynamicImage::ImageLuma8(img);
    let direct = rgba_from_decoded(&decoded).unwrap();
    assert_eq!(direct.width(), 1);
    assert_eq!(direct.height(), 2);
    assert_eq!(direct.bytes(), &vec![7, 7, 7, 255, 200, 200, 200, 255]);
    let loaded = load_image_from_memory(&png_of(decoded)).unwrap();
    assert_eq!(loaded.width(), 1);
    assert_eq!(loaded.height(), 2);
    assert_eq!(loaded.bytes(), direct.bytes());
}

#[test]
fn an_image_without_pixels_is_an_empty_buffer() {
    let decoded = image::DynamicImage::ImageRgb8(image::RgbImage::new(0, 0));
    let rgba = rgba_from_decoded(&decoded).unwrap();
    assert_eq!(rgba.width(), 0);
    assert_eq!(rgba.height(), 0);
    assert!(rgba.bytes().is_empty());
}

#[test]
fn bytes_that_are_no_image_give_a_decode_error() {
    assert!(matches!(load_image_from_memory(b"not an image"), Err(ImageLoadError::Decode(_))));
    assert!(matches!(load_image_from_memory(&[]), Err(ImageLoadError::Decode(_))));
    let raw_pixels = vec![255u8; 16];
    assert!(matches!(load_image_from_memory(&raw_pixels), Err(ImageLoadError::Decode(_))));
}

#[test]
fn a_truncated_png_gives_a_decode_error() {
    let png = png_of(image::DynamicImage::ImageRgba8(image::RgbaImage::new(4, 4)));
    let cut = &png[..png.len() / 2];
    assert!(matches!(load_image_from_memory(cut), Err(ImageLoadError::Decode(_))));
}
