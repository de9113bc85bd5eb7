use std::hash::{DefaultHasher, Hash, Hasher};

use appsscope::images::{
    cache_file_name, declared_too_large, downscale, scaled_size, within_download_limit, MAX_BYTES,
    MAX_WIDTH,
};

fn png(width: u32, height: u32) -> Vec<u8> {
    let img = image::DynamicImage::new_rgb8(width, height);
    let mut out = std::io::Cursor::new(Vec::new());
    img.write_to(&mut out, image::ImageFormat::Png).unwrap();
    out.into_inner()
}

#[test]
fn wide_images_are_narrowed_in_proportion() {
    assert_eq!(scaled_size(3200, 1800), Some((MAX_WIDTH, 900)));
    assert_eq!(scaled_size(1600, 900), None);
    assert_eq!(scaled_size(4000, 1), Some((1600, 0)));
    assert_eq!(scaled_size(u32::MAX, u32::MAX), Some((1600, 1600)));
}

#[test]
fn downscaled_images_fit_the_maximum_width() {
    let out = downscale(&png(2000, 100)).unwrap();
    let decoded = image::load_from_memory(&out).unwrap();
    assert_eq!(decoded.width(), 1600);
    assert_eq!(decoded.height(), 80);
}

#[test]
fn narrow_images_are_re_encoded_unchanged_in_size() {
    let out = downscale(&png(40, 30)).unwrap();
    let decoded = image::load_from_memory(&out).unwrap();
    assert_eq!((decoded.width(), decoded.height()), (40, 30));
}

#[test]
fn other_formats_come_back_as_png() {
    let img = image::DynamicImage::new_rgb8(20, 10);
    let mut bmp = std::io::Cursor::new(Vec::new());
    img.write_to(&mut bmp, image::ImageFormat::Bmp).unwrap();
    let bmp = bmp.into_inner();
    let out = downscale(&bmp).unwrap();
    assert_ne!(out, bmp);
    assert_eq!(&out[..8], b"\x89PNG\r\n\x1a\n");
    assert_eq!(image::guess_format(&out).unwrap(), image::ImageFormat::Png);

    let wide = image::DynamicImage::new_rgb8(3200, 20);
    let mut bmp = std::io::Cursor::new(Vec::new());
    wide.write_to(&mut bmp, image::ImageFormat::Bmp).unwrap();
    let out = downscale(&bmp.into_inner()).unwrap();
    assert_eq!(image::guess_format(&out).unwrap(), image::ImageFormat::Png);
    let decoded = image::load_from_memory(&out).unwrap();
    assert_eq!((decoded.width(), decoded.height()), (1600, 10));
}

#[test]
fn garbage_is_not_an_image() {
    assert!(downscale(b"definitely not an image").is_none());
    assert!(downscale(&[]).is_none());
}

#[test]
fn oversized_downloads_are_refused() {
    assert_eq!(MAX_BYTES, 12 * 1024 * 1024);
    assert!(within_download_limit(MAX_BYTES));
    assert!(!within_download_limit(MAX_BYTES + 1));
    assert!(declared_too_large(Some(MAX_BYTES + 1)));
    assert!(!declared_too_large(Some(10)));
    assert!(!declared_too_large(None));
}

#[test]
fn cache_names_are_sixteen_hex_digits() {
    let a = cache_file_name("https://example.com/a.png");
    let b = cache_file_name("https://example.com/b.png");
    assert_eq!(a.len(), 16);
    assert!(a.chars().all(|c| c.is_ascii_hexdigit() && !c.is_ascii_uppercase()));
    assert_ne!(a, b);
    assert_eq!(a, cache_file_name("https://example.com/a.png"));
    let mut hasher = DefaultHasher::new();
    "https://example.com/a.png".hash(&mut hasher);
    assert_eq!(a, format!("{:016x}", hasher.finish()));
}
