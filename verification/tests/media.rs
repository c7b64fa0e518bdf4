use base64::Engine;
use gallerynet::media::load_image_with_limits;
use gallerynet::processing::process_image;
use gallerynet::processing::apply_orientation;
use gallerynet::processing::process_video;
use gallerynet::photo_meta::read_photo_meta;
use gallerynet::processing::{frame_extraction_command, video_frame_name, video_frame_pattern, video_input_name};
use gallerynet::dates::{
    exif_capture_date, filename_date_from_parses, parse_date_from_filename, parse_exif_datetime,
};
use gallerynet::error::DomainError;
use gallerynet::media::{image_phash, orientation_ops, video_phash, ImageOp};
use gallerynet::phash::{decode_image, HashGenerator, PhashGenerator};

fn png_bytes(w: u32, h: u32, seed: u8) -> Vec<u8> {
    let img = image::RgbImage::from_fn(w, h, |x, y| {
        image::Rgb([(x as u8).wrapping_mul(seed), (y as u8).wrapping_mul(3), seed])
    });
    let mut out = std::io::Cursor::new(Vec::new());
    image::DynamicImage::ImageRgb8(img).write_to(&mut out, image::ImageFormat::Png).unwrap();
    out.into_inner()
}

#[test]
fn filename_dates() {
    assert_eq!(parse_date_from_filename("IMG_20240115_134530.jpg"), Some((1705326330, 0)));
    assert_eq!(parse_date_from_filename("Screenshot_20240115-134530.png"), Some((1705326330, 0)));
    assert_eq!(parse_date_from_filename("PXL_20240115_134530123.jpg"), Some((1705326330, 0)));
    assert_eq!(parse_date_from_filename("some/dir/VID_20240115_134530.mp4"), Some((1705326330, 0)));
    assert_eq!(parse_date_from_filename("2024-01-15_13-45-30.jpg"), Some((1705326330, 0)));
    // date only
    assert_eq!(parse_date_from_filename("scan_20240115.jpg"), Some((1705276800, 0)));
    // invalid time falls back to the date
    assert_eq!(parse_date_from_filename("IMG_20240115_996530.jpg"), Some((1705276800, 0)));
    // out of range years are ignored
    assert_eq!(parse_date_from_filename("IMG_19690101_000000.jpg"), None);
    assert_eq!(parse_date_from_filename("holiday.jpg"), None);
    // digits of the extension do not count
    assert_eq!(parse_date_from_filename("a.20240115"), None);
    // a directory's digits do not count either
    assert_eq!(parse_date_from_filename("20240115/photo.jpg"), None);
}

#[test]
fn filename_date_choice() {
    assert_eq!(filename_date_from_parses(Some((5, 0)), Some((7, 0))), Some((5, 0)));
    assert_eq!(filename_date_from_parses(Some((-5, 0)), Some((7, 0))), Some((7, 0)));
    assert_eq!(filename_date_from_parses(None, Some((4133980800, 0))), None);
    assert_eq!(filename_date_from_parses(None, Some((4133980799, 0))), Some((4133980799, 0)));
    assert_eq!(filename_date_from_parses(None, None), None);
}

#[test]
fn exif_dates() {
    assert_eq!(parse_exif_datetime("2024:01:15 13:45:30"), Some((1705326330, 0)));
    assert_eq!(parse_exif_datetime(" 2024-01-15 13:45:30 "), Some((1705326330, 0)));
    assert_eq!(parse_exif_datetime("2024/01/15 13:45:30"), Some((1705326330, 0)));
    assert_eq!(parse_exif_datetime("2024:01:15"), Some((1705276800, 0)));
    assert_eq!(parse_exif_datetime("2024-01-15"), Some((1705276800, 0)));
    assert_eq!(parse_exif_datetime("garbage"), None);
    let texts = vec![None, Some("bad".to_string()), Some("2024:01:15 00:00:00".to_string())];
    assert_eq!(exif_capture_date(&texts), Some((1705276800, 0)));
    assert_eq!(exif_capture_date(&vec![None, None]), None);
}

#[test]
fn orientations() {
    assert_eq!(orientation_ops(1), vec![]);
    assert_eq!(orientation_ops(2), vec![ImageOp::FlipHorizontal]);
    assert_eq!(orientation_ops(3), vec![ImageOp::Rotate180]);
    assert_eq!(orientation_ops(4), vec![ImageOp::FlipVertical]);
    assert_eq!(orientation_ops(5), vec![ImageOp::Rotate90, ImageOp::FlipHorizontal]);
    assert_eq!(orientation_ops(6), vec![ImageOp::Rotate90]);
    assert_eq!(orientation_ops(7), vec![ImageOp::Rotate270, ImageOp::FlipHorizontal]);
    assert_eq!(orientation_ops(8), vec![ImageOp::Rotate270]);
    assert_eq!(orientation_ops(9), vec![]);
}

#[test]
fn phash_of_an_image() {
    let g = PhashGenerator::new();
    let bytes = png_bytes(32, 32, 7);
    let h = g.generate_phash(&bytes).ok().unwrap();
    let raw = base64::engine::general_purpose::STANDARD.decode(&h).unwrap();
    assert!(!raw.is_empty() && raw.len() <= 8);
    // the same image hashes the same way
    assert_eq!(g.generate_phash(&bytes).ok().unwrap(), h);
    assert_ne!(h.as_bytes(), bytes.as_slice());
}

#[test]
fn phash_of_garbage_fails() {
    let g = PhashGenerator::new();
    match g.generate_phash(b"definitely not an image") {
        Err(DomainError::Hashing(m)) => assert!(m.starts_with("Failed to load image: ")),
        _ => panic!("expected a hashing error"),
    }
    assert_eq!(image_phash(b"nope", &g), "no_hash");
}

#[test]
fn video_hash_joins_frames() {
    let g = PhashGenerator::new();
    let a = png_bytes(16, 16, 3);
    let b = png_bytes(16, 16, 9);
    let ha = g.generate_phash(&a).ok().unwrap();
    let hb = g.generate_phash(&b).ok().unwrap();
    let frames = vec![a.clone(), b"junk".to_vec(), b.clone()];
    assert_eq!(video_phash(&frames, &g), format!("{}|{}", ha, hb));
    assert_eq!(video_phash(&vec![a], &g), ha);
    assert_eq!(video_phash(&vec![b"junk".to_vec()], &g), "no_hash");
    assert_eq!(video_phash(&vec![], &g), "no_hash");
}

#[test]
fn image_loading_limits() {
    let img = load_image_with_limits(&png_bytes(12, 7, 2)).ok().unwrap();
    assert_eq!((image::GenericImageView::dimensions(img.image())), (12, 7));
    match load_image_with_limits(b"garbage bytes") {
        Err(DomainError::Io(m)) => assert!(m.starts_with("Image decode failed: "), "{}", m),
        _ => panic!("expected a decode error"),
    }
}

#[test]
fn processing_an_image_upload() {
    let g = PhashGenerator::new();
    let data = png_bytes(40, 30, 5);
    let p = process_image(&data, &g).ok().unwrap();
    assert_eq!(p.width, Some(40));
    assert_eq!(p.height, Some(30));
    assert!(p.exif_json.is_none());
    assert!(p.original_date.is_none());
    assert!(!p.thumbnail_bytes.is_empty());
    let thumb = image::load_from_memory(&p.thumbnail_bytes).unwrap();
    assert_eq!(image::GenericImageView::dimensions(&thumb), (224, 224));
    assert_ne!(p.phash, "no_hash");
    assert_eq!(p.feature_input.as_deref(), Some(data.as_slice()));

    let junk = b"not an image".to_vec();
    let p = process_image(&junk, &g).ok().unwrap();
    assert_eq!(p.width, None);
    assert!(p.thumbnail_bytes.is_empty());
    assert_eq!(p.phash, "no_hash");
    assert_eq!(p.feature_input, Some(junk));
}

#[test]
fn processing_video_frames() {
    let g = PhashGenerator::new();
    let p = process_video(None, &g);
    assert_eq!(p.phash, "no_hash");
    assert!(p.feature_input.is_none());
    let f1 = png_bytes(20, 10, 4);
    let f2 = png_bytes(20, 10, 8);
    let p = process_video(Some(vec![f1.clone(), f2.clone()]), &g);
    assert_eq!(p.width, Some(20));
    assert_eq!(p.height, Some(10));
    assert_eq!(p.feature_input, Some(f1.clone()));
    let expected = format!(
        "{}|{}",
        g.generate_phash(&f1).ok().unwrap(),
        g.generate_phash(&f2).ok().unwrap()
    );
    assert_eq!(p.phash, expected);
    assert!(!p.thumbnail_bytes.is_empty());
}

#[test]
fn exif_of_a_plain_png() {
    let m = read_photo_meta(&png_bytes(4, 4, 1));
    assert!(m.exif_json.is_none());
    assert_eq!(m.orientation, 1);
    assert!(m.original_date.is_none());
}

#[test]
fn frame_extraction_names() {
    let id = uuid::Uuid::parse_str("a1b2c3d4-e5f6-4788-9900-aabbccddeeff").unwrap().as_u128();
    assert_eq!(video_input_name(id), "gallerynet_a1b2c3d4-e5f6-4788-9900-aabbccddeeff.tmp");
    assert_eq!(video_frame_pattern(id), "gallerynet_a1b2c3d4-e5f6-4788-9900-aabbccddeeff_%03d.jpg");
    assert_eq!(video_frame_name(id, 3), "gallerynet_a1b2c3d4-e5f6-4788-9900-aabbccddeeff_003.jpg");
    assert_eq!(
        frame_extraction_command("in.tmp", "out_%03d.jpg"),
        vec!["-y", "-i", "in.tmp", "-vf", "scale='min(1920,iw)':-2,thumbnail=60", "-frames:v", "5", "-fps_mode", "vfr", "out_%03d.jpg"]
    );
}

/// A JPEG of `w` x `h` pixels with an EXIF block holding the given
/// orientation and DateTimeOriginal.
fn jpeg_with_exif(w: u32, h: u32, orientation: u16, date: &str) -> Vec<u8> {
    let img = image::RgbImage::from_fn(w, h, |x, y| image::Rgb([(x * 7) as u8, (y * 5) as u8, 90]));
    let mut jpeg = std::io::Cursor::new(Vec::new());
    image::DynamicImage::ImageRgb8(img).write_to(&mut jpeg, image::ImageFormat::Jpeg).unwrap();
    let jpeg = jpeg.into_inner();

    // TIFF, little endian: IFD0 at 8 with Orientation and the Exif IFD pointer;
    // the Exif IFD at 38 with DateTimeOriginal; the date text at 56.
    let mut tiff: Vec<u8> = b"II*\0".to_vec();
    tiff.extend_from_slice(&8u32.to_le_bytes());
    tiff.extend_from_slice(&2u16.to_le_bytes());
    tiff.extend_from_slice(&0x0112u16.to_le_bytes());
    tiff.extend_from_slice(&3u16.to_le_bytes());
    tiff.extend_from_slice(&1u32.to_le_bytes());
    tiff.extend_from_slice(&(orientation as u32).to_le_bytes());
    tiff.extend_from_slice(&0x8769u16.to_le_bytes());
    tiff.extend_from_slice(&4u16.to_le_bytes());
    tiff.extend_from_slice(&1u32.to_le_bytes());
    tiff.extend_from_slice(&38u32.to_le_bytes());
    tiff.extend_from_slice(&0u32.to_le_bytes());
    assert_eq!(tiff.len(), 38);
    tiff.extend_from_slice(&1u16.to_le_bytes());
    tiff.extend_from_slice(&0x9003u16.to_le_bytes());
    tiff.extend_from_slice(&2u16.to_le_bytes());
    tiff.extend_from_slice(&20u32.to_le_bytes());
    tiff.extend_from_slice(&56u32.to_le_bytes());
    tiff.extend_from_slice(&0u32.to_le_bytes());
    assert_eq!(tiff.len(), 56);
    tiff.extend_from_slice(date.as_bytes());
    tiff.push(0);

    let mut app1: Vec<u8> = b"Exif\0\0".to_vec();
    app1.extend_from_slice(&tiff);
    let mut out = vec![0xFF, 0xD8, 0xFF, 0xE1];
    out.extend_from_slice(&((app1.len() + 2) as u16).to_be_bytes());
    out.extend_from_slice(&app1);
    out.extend_from_slice(&jpeg[2..]);
    out
}

#[test]
fn exif_orientation_and_date() {
    let data = jpeg_with_exif(40, 20, 6, "2024:01:15 13:45:30");
    let m = read_photo_meta(&data);
    assert_eq!(m.orientation, 6);
    assert_eq!(m.original_date, Some((1705326330, 0)));
    let json = m.exif_json.unwrap();
    assert!(json.contains("Orientation"), "{}", json);
    assert!(json.contains("DateTimeOriginal"), "{}", json);
}

#[test]
fn upright_image_is_measured_after_rotation() {
    let g = PhashGenerator::new();
    let data = jpeg_with_exif(40, 20, 6, "2024:01:15 13:45:30");
    let p = process_image(&data, &g).ok().unwrap();
    // orientation 6 turns the picture a quarter: width and height swap
    assert_eq!(p.width, Some(20));
    assert_eq!(p.height, Some(40));
    assert_eq!(p.original_date, Some((1705326330, 0)));
    assert!(p.exif_json.is_some());
    let plain = process_image(&jpeg_with_exif(40, 20, 1, "2024:01:15 13:45:30"), &g).ok().unwrap();
    assert_eq!((plain.width, plain.height), (Some(40), Some(20)));
}

#[test]
fn orientation_turns_sideways_images_upright() {
    for o in 0u32..=9 {
        let img = decode_image(&png_bytes(3, 2, 1)).ok().unwrap();
        let out = apply_orientation(img, o).into_image();
        let expected = if (5..=8).contains(&o) { (2, 3) } else { (3, 2) };
        assert_eq!((out.width(), out.height()), expected, "orientation {}", o);
    }
}

#[test]
fn orientation_six_rotates_clockwise() {
    let mut img = image::RgbImage::new(2, 1);
    img.put_pixel(0, 0, image::Rgb([255, 0, 0]));
    let mut png = std::io::Cursor::new(Vec::new());
    image::DynamicImage::ImageRgb8(img).write_to(&mut png, image::ImageFormat::Png).unwrap();
    let decoded = decode_image(png.get_ref()).ok().unwrap();
    let out = apply_orientation(decoded, 6).into_image().to_rgb8();
    assert_eq!(out.dimensions(), (1, 2));
    assert_eq!(out.get_pixel(0, 0), &image::Rgb([255, 0, 0]));
    assert_eq!(out.get_pixel(0, 1), &image::Rgb([0, 0, 0]));
}

fn jpeg_of(img: &image::DynamicImage) -> Vec<u8> {
    let mut out = std::io::Cursor::new(Vec::new());
    img.write_to(&mut out, image::ImageFormat::Jpeg).unwrap();
    out.into_inner()
}

#[test]
fn image_upload_hash_and_thumbnail_come_from_the_upright_image() {
    let g = PhashGenerator::new();
    let data = jpeg_with_exif(40, 20, 6, "2024:01:15 13:45:30");
    let p = process_image(&data, &g).ok().unwrap();
    let upright = image::load_from_memory(&data).unwrap().rotate90();
    let upright_jpeg = jpeg_of(&upright);
    assert_eq!(p.phash, g.generate_phash(&upright_jpeg).ok().unwrap());
    let thumb = upright.resize_to_fill(224, 224, image::imageops::FilterType::CatmullRom);
    assert_eq!(p.thumbnail_bytes, jpeg_of(&thumb));
    let stored = image::load_from_memory(&p.thumbnail_bytes).unwrap();
    assert_eq!(image::GenericImageView::dimensions(&stored), (224, 224));
    // the raw file hashes differently from its upright copy
    assert_ne!(g.generate_phash(&data).ok().unwrap(), p.phash);
}

#[test]
fn equal_uploads_get_equal_hashes() {
    let g = PhashGenerator::new();
    let a = png_bytes(30, 18, 5);
    let b = a.clone();
    assert_eq!(process_image(&a, &g).ok().unwrap().phash, process_image(&b, &g).ok().unwrap().phash);
    assert_eq!(g.generate_phash(&a).ok().unwrap(), g.generate_phash(&b).ok().unwrap());
}

#[test]
fn image_hash_is_base64_of_the_double_gradient_hash() {
    let g = PhashGenerator::new();
    let bytes = png_bytes(16, 16, 7);
    let hasher = image_hasher::HasherConfig::new().hash_alg(image_hasher::HashAlg::DoubleGradient).to_hasher();
    let h = hasher.hash_image(&image::load_from_memory(&bytes).unwrap());
    let expected = base64::engine::general_purpose::STANDARD.encode(h.as_bytes());
    assert_eq!(g.generate_phash(&bytes).ok().unwrap(), expected);
    assert_eq!(image_phash(&bytes, &g), expected);
}

#[test]
fn video_size_thumbnail_and_hash_from_frames() {
    let g = PhashGenerator::new();
    let f1 = png_bytes(30, 12, 2);
    let f3 = png_bytes(30, 12, 6);
    let p = process_video(Some(vec![f1.clone(), b"junk".to_vec(), f3.clone()]), &g);
    assert_eq!((p.width, p.height), (Some(30), Some(12)));
    let first = image::load_from_memory(&f1).unwrap();
    let thumb = first.resize_to_fill(224, 224, image::imageops::FilterType::CatmullRom);
    assert_eq!(p.thumbnail_bytes, jpeg_of(&thumb));
    let expected = format!("{}|{}", g.generate_phash(&f1).ok().unwrap(), g.generate_phash(&f3).ok().unwrap());
    assert_eq!(p.phash, expected);
    let q = process_video(Some(vec![b"junk".to_vec(), f1.clone()]), &g);
    assert_eq!((q.width, q.height), (None, None));
    assert!(q.thumbnail_bytes.is_empty());
    assert_eq!(q.feature_input, Some(b"junk".to_vec()));
    assert_eq!(q.phash, g.generate_phash(&f1).ok().unwrap());
}

#[test]
fn frame_names_beyond_three_digits() {
    let id = uuid::Uuid::parse_str("a1b2c3d4-e5f6-4788-9900-aabbccddeeff").unwrap().as_u128();
    assert_eq!(video_frame_name(id, 1234), "gallerynet_a1b2c3d4-e5f6-4788-9900-aabbccddeeff_1234.jpg");
    assert_eq!(video_frame_name(id, 42), "gallerynet_a1b2c3d4-e5f6-4788-9900-aabbccddeeff_042.jpg");
}

#[test]
fn failed_decodes_report_the_decoder_message() {
    let g = PhashGenerator::new();
    let junk = b"definitely not an image".to_vec();
    let expected = format!("Failed to load image: {}", image::load_from_memory(&junk).unwrap_err());
    match (g.generate_phash(&junk), g.generate_phash(&junk.clone())) {
        (Err(DomainError::Hashing(a)), Err(DomainError::Hashing(b))) => {
            assert_eq!(a, expected);
            assert_eq!(a, b);
        }
        _ => panic!("expected hashing errors"),
    }
    match load_image_with_limits(&junk) {
        Err(DomainError::Io(m)) => {
            let direct = image::ImageReader::new(std::io::Cursor::new(&junk))
                .with_guessed_format()
                .unwrap()
                .decode()
                .unwrap_err();
            assert_eq!(m, format!("Image decode failed: {}", direct));
        }
        _ => panic!("expected a decode error"),
    }
}
