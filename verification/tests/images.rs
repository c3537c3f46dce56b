use sam::images::{
    decode, decode_checked, oversized, shrinkable, Entry, ImageStore, Unshrinkable, MAX_CONCURRENT,
    MAX_DIMENSION,
};

#[test]
fn decodes_a_png() {
    // 1x1 opaque red PNG.
    let png: &[u8] = &[
        0x89, 0x50, 0x4E, 0x47, 0x0D, 0x0A, 0x1A, 0x0A, 0x00, 0x00, 0x00, 0x0D, 0x49, 0x48,
        0x44, 0x52, 0x00, 0x00, 0x00, 0x01, 0x00, 0x00, 0x00, 0x01, 0x08, 0x02, 0x00, 0x00,
        0x00, 0x90, 0x77, 0x53, 0xDE, 0x00, 0x00, 0x00, 0x0C, 0x49, 0x44, 0x41, 0x54, 0x08,
        0xD7, 0x63, 0xF8, 0xCF, 0xC0, 0x00, 0x00, 0x03, 0x01, 0x01, 0x00, 0x18, 0xDD, 0x8D,
        0xB0, 0x00, 0x00, 0x00, 0x00, 0x49, 0x45, 0x4E, 0x44, 0xAE, 0x42, 0x60, 0x82,
    ];
    let image = decode(png).expect("should decode");
    assert_eq!([image.width, image.height], [1, 1]);
    assert_eq!(image.rgba, vec![255, 0, 0, 255]);
}

#[test]
fn rejects_garbage() {
    assert!(decode(b"not an image").is_none());
}

/// An encoded picture of one colour.
fn picture(width: u32, height: u32) -> Vec<u8> {
    let mut raw = image::RgbaImage::new(width, height);
    for pixel in raw.pixels_mut() {
        *pixel = image::Rgba([10, 20, 30, 255]);
    }
    let mut out = std::io::Cursor::new(Vec::new());
    image::DynamicImage::ImageRgba8(raw)
        .write_to(&mut out, image::ImageFormat::Png)
        .expect("should encode");
    out.into_inner()
}

#[test]
fn oversized_art_is_shrunk() {
    let wide = decode(&picture(1024, 256)).unwrap();
    assert_eq!((wide.width, wide.height), (512, 128));
    assert_eq!(wide.rgba.len(), 512 * 128 * 4);
    assert_eq!(&wide.rgba[..4], &[10, 20, 30, 255]);

    let tall = decode(&picture(3, 1536)).unwrap();
    assert_eq!((tall.width, tall.height), (1, 512));
}

#[test]
fn art_within_the_limit_is_kept() {
    let kept = decode(&picture(512, 40)).unwrap();
    assert_eq!((kept.width, kept.height), (512, 40));
    assert!(!oversized(MAX_DIMENSION, MAX_DIMENSION));
    assert!(oversized(MAX_DIMENSION + 1, 1));
    assert!(oversized(1, MAX_DIMENSION + 1));
}

#[test]
fn an_image_is_asked_for_once() {
    let mut store = ImageStore::new();
    assert_eq!(store.texture("a"), Entry::Loading);
    assert_eq!(store.texture("a"), Entry::Loading);
    assert_eq!(store.outstanding(), 1);
    assert_eq!(store.start_next().as_deref(), Some("a"));
    assert_eq!(store.start_next(), None);
    assert_eq!(store.outstanding(), 1);
    store.delivered("a".into(), true);
    assert_eq!(store.texture("a"), Entry::Ready);
    assert_eq!(store.outstanding(), 0);
}

#[test]
fn only_so_many_downloads_run_at_once() {
    let mut store = ImageStore::default();
    for i in 0..9 {
        store.texture(&format!("{i}"));
    }
    let mut started = Vec::new();
    while let Some(url) = store.start_next() {
        started.push(url);
    }
    assert_eq!(started, vec!["0", "1", "2", "3", "4", "5"]);
    assert_eq!(started.len(), MAX_CONCURRENT);
    assert_eq!(store.outstanding(), 9);
    store.delivered("3".into(), false);
    assert_eq!(store.texture("3"), Entry::Failed);
    assert_eq!(store.start_next().as_deref(), Some("6"));
    assert_eq!(store.start_next(), None);
    assert_eq!(store.outstanding(), 8);
}

#[test]
fn deep_art_is_shrunk_too() {
    let mut raw = image::ImageBuffer::<image::Luma<u16>, Vec<u16>>::new(2048, 1024);
    for pixel in raw.pixels_mut() {
        *pixel = image::Luma([u16::MAX]);
    }
    let mut out = std::io::Cursor::new(Vec::new());
    image::DynamicImage::ImageLuma16(raw)
        .write_to(&mut out, image::ImageFormat::Png)
        .expect("should encode");
    let shown = decode(&out.into_inner()).unwrap();
    assert_eq!((shown.width, shown.height), (512, 256));
    assert_eq!(&shown.rgba[..4], &[255, 255, 255, 255]);
}

#[test]
fn art_whose_blocks_cannot_be_summed_is_refused() {
    // 257 rows of 256 pixels in one, of sixteen bits a sample.
    assert!(!shrinkable(131_072, 257, 2, 1));
    assert!(!shrinkable(257, 131_072, 6, 3));
    assert!(shrinkable(131_072, 250, 2, 1));
    // Eight bits a sample leave more room.
    assert!(shrinkable(131_072, 257, 1, 1));
    assert!(shrinkable(131_072, 257, 4, 4));
    assert!(!shrinkable(u32::MAX, u32::MAX, 1, 1));
    assert!(shrinkable(65_536, 65_536, 2, 1));
    assert!(shrinkable(513, 1, 2, 1));
}

#[test]
fn an_extreme_deep_picture_is_refused() {
    let raw = image::ImageBuffer::<image::Luma<u16>, Vec<u16>>::from_raw(
        131_072,
        257,
        vec![u16::MAX; 131_072 * 257],
    )
    .expect("should fit");
    let mut out = std::io::Cursor::new(Vec::new());
    image::DynamicImage::ImageLuma16(raw)
        .write_to(&mut out, image::ImageFormat::Png)
        .expect("should encode");
    assert_eq!(decode_checked(&out.into_inner()), Err(Unshrinkable));
}

#[test]
fn a_checked_picture_is_the_same_as_a_decoded_one() {
    for size in [(512, 40), (1024, 256), (3, 1536)] {
        let bytes = picture(size.0, size.1);
        assert_eq!(decode_checked(&bytes), Ok(decode(&bytes)));
        assert!(decode(&bytes).is_some());
    }
    assert_eq!(decode_checked(b"not an image"), Ok(None));
}

#[test]
fn a_long_picture_of_eight_bits_is_shrunk() {
    let raw = image::GrayImage::from_raw(131_072, 257, vec![90; 131_072 * 257]).expect("should fit");
    let mut out = std::io::Cursor::new(Vec::new());
    image::DynamicImage::ImageLuma8(raw)
        .write_to(&mut out, image::ImageFormat::Png)
        .expect("should encode");
    let shown = decode_checked(&out.into_inner()).unwrap().unwrap();
    assert_eq!((shown.width, shown.height), (512, 1));
    assert_eq!(&shown.rgba[..4], &[90, 90, 90, 255]);
}
