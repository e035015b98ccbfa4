use data_fortress::search::exif::{
    exif_datetime_to_iso, extract_exif, extract_gps_coordinate, extract_metadata, field_to_rational,
    field_to_string, field_to_u32, may_hold_exif, number_of_tag, read_fields, read_image, ExifField, ExifTag,
    ExifValue, MediaMetadata, NumberTexts, Rational, TagGroup,
};
use exif::experimental::Writer;
use exif::{Context, Field, In, Tag, Value};
use std::io::Cursor;

fn field(tag: ExifTag, text: &str, value: ExifValue) -> ExifField {
    ExifField { tag, text: text.to_string(), value }
}

fn r(num: u32, denom: u32) -> Rational {
    Rational { num, denom }
}

#[test]
fn test_exif_datetime_to_iso_conversion() {
    assert_eq!(exif_datetime_to_iso("2024:03:15 14:30:00"), "2024-03-15 14:30:00");
}

#[test]
fn test_exif_datetime_no_space_fallback() {
    assert_eq!(exif_datetime_to_iso("2024:03:15"), "2024-03-15");
}

#[test]
fn test_build_searchable_text_populated() {
    let mut meta = MediaMetadata {
        camera_make: Some("Apple".into()),
        camera_model: Some("iPhone 15 Pro".into()),
        iso: Some(400),
        ..Default::default()
    };
    meta.build_searchable_text(&NumberTexts::default());
    assert!(meta.searchable_text.contains("Apple"));
    assert!(meta.searchable_text.contains("iPhone 15 Pro"));
    assert!(meta.searchable_text.contains("ISO400"));
    assert_eq!(meta.searchable_text, "Apple iPhone 15 Pro ISO400");
}

#[test]
fn empty_texts_are_left_out_of_the_searchable_text() {
    let mut meta = MediaMetadata {
        camera_make: Some("".into()),
        camera_model: Some("EOS R5".into()),
        lens_model: Some("".into()),
        iso: Some(100),
        ..Default::default()
    };
    meta.build_searchable_text(&NumberTexts::default());
    assert_eq!(meta.searchable_text, "EOS R5 ISO100");
}

#[test]
fn test_build_searchable_text_empty_when_no_fields() {
    let mut meta = MediaMetadata::default();
    meta.build_searchable_text(&NumberTexts::default());
    assert!(meta.searchable_text.is_empty());
}

#[test]
fn test_extract_metadata_returns_none_for_non_image() {
    let fields = Some(vec![field(ExifTag::Make, "\"Apple\"", ExifValue::Other)]);
    assert!(extract_metadata("/tmp/a.txt", &fields, &NumberTexts::default()).is_none());
    assert!(extract_metadata("/tmp/a.txt", &None, &NumberTexts::default()).is_none());
}

#[test]
fn test_extract_metadata_returns_none_for_empty_jpeg() {
    let fields = read_image(&[]);
    assert!(fields.is_none());
    assert!(extract_metadata("/tmp/a.jpg", &fields, &NumberTexts::default()).is_none());
    assert!(extract_metadata("/tmp/a.jpg", &Some(Vec::new()), &NumberTexts::default()).is_none());
}

#[test]
fn test_gps_coordinate_negative_for_south() {
    let degrees = 48.0_f64;
    let minutes = 51.0_f64;
    let seconds = 30.0_f64;
    let decimal = degrees + minutes / 60.0 + seconds / 3600.0;
    assert!((decimal - 48.8583).abs() < 0.001);

    let fields = vec![
        field(ExifTag::GpsLatitude, "", ExifValue::Rational(vec![r(48, 1), r(51, 1), r(30, 1)])),
        field(ExifTag::GpsLatitudeRef, "S", ExifValue::Other),
    ];
    let c = extract_gps_coordinate(&fields, ExifTag::GpsLatitude, ExifTag::GpsLatitudeRef).unwrap();
    assert!(c.negative);
    assert_eq!((c.degrees, c.minutes, c.seconds), (r(48, 1), r(51, 1), r(30, 1)));
}

#[test]
fn coordinates_need_three_fractions() {
    let two = vec![field(ExifTag::GpsLongitude, "", ExifValue::Rational(vec![r(2, 1), r(17, 1)]))];
    assert!(extract_gps_coordinate(&two, ExifTag::GpsLongitude, ExifTag::GpsLongitudeRef).is_none());
    let short = vec![field(ExifTag::GpsLongitude, "", ExifValue::Short(vec![2, 17, 40]))];
    assert!(extract_gps_coordinate(&short, ExifTag::GpsLongitude, ExifTag::GpsLongitudeRef).is_none());
    let east = vec![
        field(ExifTag::GpsLongitude, "", ExifValue::Rational(vec![r(2, 1), r(17, 1), r(40, 1)])),
        field(ExifTag::GpsLongitudeRef, "E", ExifValue::Other),
    ];
    let c = extract_gps_coordinate(&east, ExifTag::GpsLongitude, ExifTag::GpsLongitudeRef).unwrap();
    assert!(!c.negative);
    let west = vec![
        field(ExifTag::GpsLongitude, "", ExifValue::Rational(vec![r(2, 1), r(17, 1), r(40, 1)])),
        field(ExifTag::GpsLongitudeRef, "\"W\"", ExifValue::Other),
    ];
    assert!(extract_gps_coordinate(&west, ExifTag::GpsLongitude, ExifTag::GpsLongitudeRef).unwrap().negative);
}

#[test]
fn fields_become_plain_values() {
    assert_eq!(field_to_string(&field(ExifTag::Make, "\" Canon \"", ExifValue::Other)), "Canon");
    assert_eq!(field_to_rational(&field(ExifTag::FNumber, "", ExifValue::Rational(vec![r(28, 10)]))), Some(r(28, 10)));
    assert_eq!(field_to_rational(&field(ExifTag::FNumber, "", ExifValue::Rational(vec![r(28, 0)]))), None);
    assert_eq!(field_to_rational(&field(ExifTag::FNumber, "", ExifValue::Rational(vec![]))), None);
    assert_eq!(field_to_rational(&field(ExifTag::FNumber, "", ExifValue::Short(vec![2]))), None);
    assert_eq!(field_to_u32(&field(ExifTag::PixelXDimension, "", ExifValue::Short(vec![640]))), Some(640));
    assert_eq!(field_to_u32(&field(ExifTag::PixelXDimension, "", ExifValue::Long(vec![70000]))), Some(70000));
    assert_eq!(field_to_u32(&field(ExifTag::PixelXDimension, "", ExifValue::Long(vec![]))), None);
    assert_eq!(field_to_u32(&field(ExifTag::PixelXDimension, "", ExifValue::Other)), None);
}

#[test]
fn all_metadata_in_order() {
    let fields = vec![
        field(ExifTag::PixelYDimension, "", ExifValue::Long(vec![3000])),
        field(ExifTag::PixelXDimension, "", ExifValue::Short(vec![4000])),
        field(ExifTag::ExposureTime, "", ExifValue::Rational(vec![r(1, 250)])),
        field(ExifTag::PhotographicSensitivity, "", ExifValue::Short(vec![3200])),
        field(ExifTag::FNumber, "", ExifValue::Rational(vec![r(28, 10)])),
        field(ExifTag::FocalLength, "", ExifValue::Rational(vec![r(50, 1)])),
        field(ExifTag::DateTimeOriginal, "\"2024:03:15 14:30:00\"", ExifValue::Other),
        field(ExifTag::LensModel, "\"24-70mm\"", ExifValue::Other),
        field(ExifTag::Model, "\"EOS R5\"", ExifValue::Other),
        field(ExifTag::Make, "\"Canon\"", ExifValue::Other),
        field(ExifTag::GpsLatitude, "", ExifValue::Rational(vec![r(48, 1), r(51, 1), r(30, 1)])),
    ];
    let meta = read_fields(&fields);
    assert_eq!(meta.iso, Some(3200));
    assert_eq!(meta.exposure_time, Some("1/250".to_string()));
    assert_eq!(meta.gps_longitude, None);
    assert_eq!(meta.gps_altitude_m, None);
    let numbers = NumberTexts {
        focal_length_mm: Some("50".to_string()),
        f_number: Some("2.8".to_string()),
        gps_latitude: Some("48.8583".to_string()),
        gps_longitude: None,
        gps_altitude_m: None,
    };
    let meta = extract_exif(&fields, &numbers).unwrap();
    assert_eq!(
        meta.searchable_text,
        "Canon EOS R5 24-70mm 2024-03-15 14:30:00 lat:48.8583 50mm f/2.8 ISO3200 1/250 4000px 3000px"
    );
    let meta = extract_metadata("/p/IMG.JPG", &Some(fields), &numbers).unwrap();
    assert_eq!(meta.camera_make, Some("Canon".to_string()));
}

#[test]
fn sensitivity_and_exposure_need_their_types() {
    let fields = vec![
        field(ExifTag::PhotographicSensitivity, "", ExifValue::Long(vec![3200])),
        field(ExifTag::ExposureTime, "", ExifValue::Short(vec![1])),
        field(ExifTag::GpsAltitude, "", ExifValue::Rational(vec![r(35, 1)])),
    ];
    let meta = read_fields(&fields);
    assert_eq!(meta.iso, None);
    assert_eq!(meta.exposure_time, None);
    assert_eq!(meta.gps_altitude_m, Some(r(35, 1)));
    let numbers = NumberTexts { gps_altitude_m: Some("35".to_string()), ..NumberTexts::default() };
    assert_eq!(extract_exif(&fields, &numbers).unwrap().searchable_text, "alt:35m");
    assert!(extract_exif(&fields[..2].iter().map(|f| field(f.tag, &f.text, ExifValue::Other)).collect(), &numbers).is_none());
}

#[test]
fn images_that_may_hold_exif() {
    for ext in ["jpg", "jpeg", "tiff", "tif", "heif", "heic", "png", "WEBP"] {
        assert!(may_hold_exif(&format!("/p/a.{}", ext)), "{}", ext);
    }
    assert!(!may_hold_exif("/p/a.gif"));
    assert!(!may_hold_exif("/p/jpg"));
}

fn image(fields: &[(Tag, Value)]) -> Vec<u8> {
    let fields: Vec<Field> = fields
        .iter()
        .map(|(tag, value)| Field { tag: *tag, ifd_num: In::PRIMARY, value: value.clone() })
        .collect();
    let mut writer = Writer::new();
    for field in &fields {
        writer.push_field(field);
    }
    let mut out = Cursor::new(Vec::new());
    writer.write(&mut out, false).unwrap();
    out.into_inner()
}

#[test]
fn fields_of_an_image_file() {
    let bytes = image(&[
        (Tag::Make, Value::Ascii(vec![b"Canon".to_vec()])),
        (Tag::Artist, Value::Ascii(vec![b"Somebody".to_vec()])),
        (Tag::PhotographicSensitivity, Value::Short(vec![400])),
        (Tag::PixelXDimension, Value::Long(vec![4000])),
        (Tag::FNumber, Value::Rational(vec![exif::Rational { num: 28, denom: 10 }])),
        (Tag::DateTimeOriginal, Value::Ascii(vec![b"2024:03:15 14:30:00".to_vec()])),
        (Tag::GPSLatitudeRef, Value::Ascii(vec![b"S".to_vec()])),
    ]);
    let fields = read_image(&bytes).unwrap();
    assert_eq!(fields.len(), 6);
    let meta = read_fields(&fields);
    assert_eq!(meta.camera_make, Some("Canon".to_string()));
    assert_eq!(meta.camera_model, None);
    assert_eq!(meta.iso, Some(400));
    assert_eq!(meta.width_px, Some(4000));
    assert_eq!(meta.f_number, Some(r(28, 10)));
    assert_eq!(meta.date_taken, Some("2024-03-15 14:30:00".to_string()));
    let numbers = NumberTexts { f_number: Some("2.8".to_string()), ..NumberTexts::default() };
    let meta = extract_metadata("/p/scan.tif", &Some(fields), &numbers).unwrap();
    assert_eq!(meta.searchable_text, "Canon 2024-03-15 14:30:00 f/2.8 ISO400 4000px");
}

#[test]
fn bytes_that_are_no_image() {
    assert!(read_image(b"plain text").is_none());
    assert!(read_image(&[0xFF, 0xD8, 0xFF, 0xD9]).is_none());
}

#[test]
fn numbers_of_tags() {
    let all = [
        (ExifTag::Make, Tag::Make),
        (ExifTag::Model, Tag::Model),
        (ExifTag::LensModel, Tag::LensModel),
        (ExifTag::FocalLength, Tag::FocalLength),
        (ExifTag::FNumber, Tag::FNumber),
        (ExifTag::PhotographicSensitivity, Tag::PhotographicSensitivity),
        (ExifTag::ExposureTime, Tag::ExposureTime),
        (ExifTag::DateTimeOriginal, Tag::DateTimeOriginal),
        (ExifTag::GpsLatitude, Tag::GPSLatitude),
        (ExifTag::GpsLatitudeRef, Tag::GPSLatitudeRef),
        (ExifTag::GpsLongitude, Tag::GPSLongitude),
        (ExifTag::GpsLongitudeRef, Tag::GPSLongitudeRef),
        (ExifTag::GpsAltitude, Tag::GPSAltitude),
        (ExifTag::PixelXDimension, Tag::PixelXDimension),
        (ExifTag::PixelYDimension, Tag::PixelYDimension),
    ];
    for (ours, theirs) in all {
        let (group, number) = number_of_tag(ours);
        let context = match group {
            TagGroup::Tiff => Context::Tiff,
            TagGroup::Exif => Context::Exif,
            TagGroup::Gps => Context::Gps,
        };
        assert_eq!((context, number), (theirs.context(), theirs.number()), "{:?}", ours);
    }
}
