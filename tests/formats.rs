use png2lvgl::error::{FormatError, Png2LvglError, ValidationError};
use png2lvgl::format::{
    count_unique_colors, detect_format, format_name, resolve_format, validate_format, ColorFormat,
    FormatWarning, LvglVersion,
};
use png2lvgl::pixels::PixelBuffer;
use png2lvgl::validation::{validate_dimensions, validate_file_size, validate_png_header};

fn distinct_colors(count: usize) -> PixelBuffer {
    let mut bytes = Vec::new();
    for i in 0..count {
        bytes.extend_from_slice(&[(i * 7) as u8, (i / 256) as u8, 3, 255]);
    }
    PixelBuffer::new(count as u32, 1, bytes, false, true, 24).unwrap()
}

#[test]
fn seventeen_colors_overflow_indexed4() {
    let img = distinct_colors(17);
    match validate_format(&img, &ColorFormat::Indexed4) {
        Err(Png2LvglError::Format(FormatError::TooManyColors { colors, max_colors, format })) => {
            assert_eq!(colors, 17);
            assert_eq!(max_colors, 16);
            assert_eq!(format, "Indexed4");
        }
        other => panic!("unexpected {:?}", other),
    }
}

#[test]
fn sixteen_colors_fit_indexed4() {
    let img = distinct_colors(16);
    assert_eq!(validate_format(&img, &ColorFormat::Indexed4).unwrap(), vec![]);
}

#[test]
fn alpha_is_ignored_when_counting_colors() {
    let bytes = vec![1, 2, 3, 255, 1, 2, 3, 0, 4, 5, 6, 9];
    let img = PixelBuffer::new(3, 1, bytes, true, true, 32).unwrap();
    assert_eq!(count_unique_colors(&img), 2);
}

#[test]
fn color_count_stops_above_256() {
    assert_eq!(count_unique_colors(&distinct_colors(256)), 256);
    assert_eq!(count_unique_colors(&distinct_colors(600)), 257);
    match validate_format(&distinct_colors(600), &ColorFormat::Indexed8) {
        Err(Png2LvglError::Format(FormatError::TooManyColors { colors, max_colors, .. })) => {
            assert_eq!((colors, max_colors), (257, 256));
        }
        other => panic!("unexpected {:?}", other),
    }
}

#[test]
fn narrow_alpha_of_wide_source_is_rejected() {
    let img = PixelBuffer::new(1, 1, vec![9, 9, 9, 255], true, true, 32).unwrap();
    match validate_format(&img, &ColorFormat::Alpha4) {
        Err(Png2LvglError::Format(FormatError::InvalidBitDepth { depth, format })) => {
            assert_eq!(depth, 4);
            assert_eq!(format, "Alpha4");
        }
        other => panic!("unexpected {:?}", other),
    }
    assert_eq!(validate_format(&img, &ColorFormat::Alpha8).unwrap(), vec![]);
}

#[test]
fn color_source_to_alpha_warns() {
    let gray = PixelBuffer::new(1, 1, vec![9, 9, 9, 255], false, false, 8).unwrap();
    assert_eq!(validate_format(&gray, &ColorFormat::Alpha2).unwrap(), vec![]);
    assert!(validate_format(&gray, &ColorFormat::Alpha1).is_err());
    let color = PixelBuffer::new(1, 1, vec![9, 9, 9, 255], false, true, 16).unwrap();
    assert_eq!(
        validate_format(&color, &ColorFormat::Alpha4).unwrap(),
        vec![FormatWarning::LossyAlpha]
    );
}

#[test]
fn true_color_formats_always_pass() {
    let img = distinct_colors(300);
    for f in [ColorFormat::TrueColor, ColorFormat::TrueColorAlpha, ColorFormat::TrueColorChroma, ColorFormat::Auto] {
        assert_eq!(validate_format(&img, &f).unwrap(), vec![]);
    }
}

#[test]
fn auto_detection_follows_alpha() {
    let translucent = PixelBuffer::new(2, 1, vec![1, 2, 3, 255, 1, 2, 3, 128], true, true, 32).unwrap();
    assert_eq!(detect_format(&translucent), ColorFormat::TrueColorAlpha);
    assert_eq!(resolve_format(ColorFormat::Auto, &translucent), ColorFormat::TrueColorAlpha);
    let opaque = PixelBuffer::new(1, 1, vec![1, 2, 3, 255], false, true, 24).unwrap();
    assert_eq!(resolve_format(ColorFormat::Auto, &opaque), ColorFormat::TrueColor);
    assert_eq!(resolve_format(ColorFormat::Indexed2, &opaque), ColorFormat::Indexed2);
}

#[test]
fn buffer_rejects_bad_layouts() {
    assert!(PixelBuffer::new(2, 1, vec![0; 4], true, true, 32).is_none());
    assert!(PixelBuffer::new(1, 1, vec![0, 0, 0, 7], false, true, 24).is_none());
    assert!(PixelBuffer::new(1, 1, vec![0, 0, 0, 7], true, true, 32).is_some());
    assert!(PixelBuffer::new(0, 5, vec![], false, true, 24).is_some());
}

#[test]
fn format_tags_per_version() {
    assert_eq!(format_name(&ColorFormat::TrueColor, &LvglVersion::V8), "LV_IMG_CF_TRUE_COLOR");
    assert_eq!(format_name(&ColorFormat::TrueColorAlpha, &LvglVersion::V9), "LV_COLOR_FORMAT_RGB565A8");
    assert_eq!(format_name(&ColorFormat::Indexed4, &LvglVersion::V8), "LV_IMG_CF_INDEXED_4BIT");
    assert_eq!(format_name(&ColorFormat::Indexed4, &LvglVersion::V9), "LV_COLOR_FORMAT_I4");
    assert_eq!(format_name(&ColorFormat::Alpha1, &LvglVersion::V8), "LV_IMG_CF_ALPHA_1BIT");
    assert_eq!(format_name(&ColorFormat::Alpha8, &LvglVersion::V9), "LV_COLOR_FORMAT_A8");
    assert_eq!(
        format_name(&ColorFormat::TrueColorChroma, &LvglVersion::V9),
        "LV_COLOR_FORMAT_RGB565_CHROMA_KEYED"
    );
}

#[test]
fn dimensions_within_bounds() {
    assert!(validate_dimensions(1, 1).is_ok());
    assert!(validate_dimensions(8192, 8192).is_ok());
    match validate_dimensions(0, 10) {
        Err(Png2LvglError::Validation(ValidationError::DimensionsTooSmall { width, height, min_width, min_height })) => {
            assert_eq!((width, height, min_width, min_height), (0, 10, 1, 1));
        }
        other => panic!("unexpected {:?}", other),
    }
    match validate_dimensions(8193, 5) {
        Err(Png2LvglError::Validation(ValidationError::DimensionsTooLarge { width, height, max_width, max_height })) => {
            assert_eq!((width, height, max_width, max_height), (8193, 5, 8192, 8192));
        }
        other => panic!("unexpected {:?}", other),
    }
    assert!(matches!(
        validate_dimensions(0, 9000),
        Err(Png2LvglError::Validation(ValidationError::DimensionsTooSmall { .. }))
    ));
}

#[test]
fn file_size_limit() {
    assert!(validate_file_size(0).is_ok());
    assert!(validate_file_size(100 * 1024 * 1024).is_ok());
    match validate_file_size(100 * 1024 * 1024 + 1) {
        Err(Png2LvglError::Validation(ValidationError::FileSizeTooLarge { size, max_size })) => {
            assert_eq!((size, max_size), (104857601, 104857600));
        }
        other => panic!("unexpected {:?}", other),
    }
}

#[test]
fn png_signature_check() {
    assert!(validate_png_header(b"\x89PNG\r\n\x1a\n").is_ok());
    for bad in [&b"\x89PNG\r\n\x1a\x0b"[..], &b"GIF89a.."[..], &b"\x89PNG"[..], &b""[..]] {
        assert!(matches!(
            validate_png_header(bad),
            Err(Png2LvglError::Validation(ValidationError::InvalidPngHeader))
        ));
    }
}
