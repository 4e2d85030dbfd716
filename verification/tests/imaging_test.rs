use std::io::Cursor;

use exif::experimental::Writer;
use exif::{Field, In, Rational, Tag, Value};
use image::{ImageFormat, Rgb, RgbImage};

use scan_engine::error::AppError;
use scan_engine::exif::read_exif;
use scan_engine::imaging::{dimensions_from, fold_hashes, thumbnail_from, thumbnail_target};

fn png(width: u32, height: u32) -> Vec<u8> {
    let img = RgbImage::from_fn(width, height, |x, y| Rgb([(x * 7) as u8, (y * 13) as u8, ((x + y) * 3) as u8]));
    let mut out = Cursor::new(Vec::new());
    img.write_to(&mut out, ImageFormat::Png).unwrap();
    out.into_inner()
}

#[test]
fn dimensions_are_stored_or_reported() {
    assert_eq!(dimensions_from(Ok((40, 20))).unwrap(), (Some(40), Some(20)));
    assert!(matches!(dimensions_from(Err("bad header".to_string())), Err(AppError::Image(m)) if m == "bad header"));
}

#[test]
fn perceptual_hashes_fold_the_hash_bytes() {
    let data = png(64, 48);
    let img = image::load_from_memory_with_format(&data, ImageFormat::Png).unwrap();
    let dh = image_hasher::HasherConfig::new()
        .hash_alg(image_hasher::HashAlg::Gradient)
        .to_hasher()
        .hash_image(&img);
    let ph = image_hasher::HasherConfig::new()
        .hash_alg(image_hasher::HashAlg::Median)
        .preproc_dct()
        .to_hasher()
        .hash_image(&img);
    let (d, p) = fold_hashes(Ok((dh.as_bytes().to_vec(), ph.as_bytes().to_vec()))).unwrap();
    assert_eq!(d, scan_engine::hash::hash_to_u64(dh.as_bytes()));
    assert_eq!(p, scan_engine::hash::hash_to_u64(ph.as_bytes()));
    assert_eq!(fold_hashes(Ok((vec![1, 2], vec![0, 0, 0, 0, 0, 0, 0, 0, 9]))).unwrap(), (0x0201, 0));
    assert!(matches!(fold_hashes(Err("panicked".to_string())), Err(AppError::Image(m)) if m == "panicked"));
}

#[test]
fn thumbnails_are_scaled_to_long_edge_256() {
    assert_eq!(thumbnail_target(Ok((40, 20))).unwrap(), (256, 128));
    assert_eq!(thumbnail_target(Ok((20, 40))).unwrap(), (128, 256));
    assert_eq!(thumbnail_target(Ok((1000, 1))).unwrap(), (256, 1));
    assert!(matches!(thumbnail_target(Err("no".to_string())), Err(AppError::Image(m)) if m == "no"));
    assert_eq!(thumbnail_from(Ok(vec![1, 2, 3])).unwrap(), vec![1, 2, 3]);
    assert!(matches!(thumbnail_from(Err("enc".to_string())), Err(AppError::Image(m)) if m == "enc"));
}

#[test]
fn exif_fields_and_exposure_are_read_from_bytes() {
    let make = Field { tag: Tag::Make, ifd_num: In::PRIMARY, value: Value::Ascii(vec![b"Sony".to_vec()]) };
    let iso = Field { tag: Tag::PhotographicSensitivity, ifd_num: In::PRIMARY, value: Value::Short(vec![400]) };
    let taken = Field {
        tag: Tag::DateTimeOriginal,
        ifd_num: In::PRIMARY,
        value: Value::Ascii(vec![b"2024:01:02 03:04:05".to_vec()]),
    };
    let fnum = Field {
        tag: Tag::FNumber,
        ifd_num: In::PRIMARY,
        value: Value::Rational(vec![Rational { num: 28, denom: 10 }]),
    };
    let mut writer = Writer::new();
    writer.push_field(&make);
    writer.push_field(&iso);
    writer.push_field(&taken);
    writer.push_field(&fnum);
    let mut buf = Cursor::new(Vec::new());
    writer.write(&mut buf, true).unwrap();
    let data = buf.into_inner();

    let reading = read_exif(&data).unwrap();
    assert_eq!(reading.f_number, Some((28, 10)));
    assert_eq!(reading.exposure_time, None);
    let d = scan_engine::exif::exif_data_from_fields(&reading.fields, None, None, None);
    assert_eq!(d.camera_make, Some("Sony".to_string()));
    assert_eq!(d.camera_model, None);
    assert_eq!(d.iso, Some(400));
    assert_eq!(d.date_taken, Some((1704164645, 0)));
    assert!(read_exif(b"no exif here").is_none());
}
