use png2lvgl::error::{FormatError, Png2LvglError};
use png2lvgl::format::{ColorFormat, FormatWarning, LvglVersion};
use png2lvgl::generate::{convert, generate_c, variable_name, Args};
use png2lvgl::pixels::PixelBuffer;
use png2lvgl::encode::EncodedImage;
use png2lvgl::text::{write_data_array, write_descriptor, write_guarded_header, write_header, write_image};
use std::path::PathBuf;

const PREAMBLE: &str = "#ifdef __has_include\n    #if __has_include(\"lvgl.h\")\n        #ifndef LV_LVGL_H_INCLUDE_SIMPLE\n            #define LV_LVGL_H_INCLUDE_SIMPLE\n        #endif\n    #endif\n#endif\n\n#if defined(LV_LVGL_H_INCLUDE_SIMPLE)\n    #include \"lvgl.h\"\n#else\n    #include \"lvgl/lvgl.h\"\n#endif\n\n#ifndef LV_ATTRIBUTE_MEM_ALIGN\n#define LV_ATTRIBUTE_MEM_ALIGN\n#endif\n\n";

fn white_dot() -> PixelBuffer {
    PixelBuffer::new(1, 1, vec![255, 255, 255, 255], false, true, 24).unwrap()
}

#[test]
fn alpha8_full_source() {
    let text = generate_c(&white_dot(), "dot", &ColorFormat::Alpha8, &LvglVersion::V9, false).unwrap();
    let expected = [
        PREAMBLE,
        "#ifndef LV_ATTRIBUTE_IMG_DOT\n#define LV_ATTRIBUTE_IMG_DOT\n#endif\n\n",
        "const LV_ATTRIBUTE_MEM_ALIGN LV_ATTRIBUTE_LARGE_CONST LV_ATTRIBUTE_IMG_DOT uint8_t dot_map[] = {\n",
        "  0xff,\n",
        "};\n\n",
        "const lv_img_dsc_t dot = {\n",
        "  .header.cf = LV_COLOR_FORMAT_A8,\n",
        "  .header.always_zero = 0,\n",
        "  .header.reserved = 0,\n",
        "  .header.w = 1,\n",
        "  .header.h = 1,\n",
        "  .data_size = 1,\n",
        "  .data = dot_map,\n",
        "};\n",
    ]
    .concat();
    assert_eq!(text, expected);
}

#[test]
fn alpha1_white_dot_data() {
    let text = generate_c(&white_dot(), "dot", &ColorFormat::Alpha1, &LvglVersion::V8, false).unwrap();
    assert!(text.contains("uint8_t dot_map[] = {\n  0x80,\n};\n\n"));
    assert!(text.contains(".header.cf = LV_IMG_CF_ALPHA_1BIT,"));
    assert!(text.contains(".data_size = 1,"));
}

#[test]
fn indexed1_lists_palette_then_data() {
    let text = generate_c(&white_dot(), "dot", &ColorFormat::Indexed1, &LvglVersion::V9, false).unwrap();
    assert!(text.contains(
        "dot_map[] = {\n  0x00, 0x00, 0x00, 0xff, \t/*Color of index 0*/\n  0xff, 0xff, 0xff, 0xff, \t/*Color of index 1*/\n\n  0x80,\n};\n\n"
    ));
    assert!(text.contains(".data_size = 9,"));
    assert!(text.contains(".header.cf = LV_COLOR_FORMAT_I1,"));
}

#[test]
fn true_color_notes_byte_order() {
    let img = PixelBuffer::new(2, 1, vec![255, 0, 0, 255, 0, 255, 0, 255], false, true, 24).unwrap();
    let text = generate_c(&img, "rg", &ColorFormat::TrueColor, &LvglVersion::V9, false).unwrap();
    assert!(text.starts_with("/*\n * RGB565 byte order: little-endian\n */\n\n#ifdef __has_include\n"));
    assert!(text.contains("rg_map[] = {\n  0x00, 0xf8, 0xe0, 0x07,\n};\n\n"));
    assert!(text.contains(".data_size = 4,"));
    let text = generate_c(&img, "rg", &ColorFormat::TrueColor, &LvglVersion::V9, true).unwrap();
    assert!(text.starts_with("/*\n * RGB565 byte order: big-endian\n */\n\n"));
    assert!(text.contains("  0xf8, 0x00, 0x07, 0xe0,\n"));
}

#[test]
fn true_color_alpha_writes_second_block() {
    let img = PixelBuffer::new(1, 1, vec![0, 0, 0, 7], true, true, 32).unwrap();
    let text = generate_c(&img, "t", &ColorFormat::TrueColorAlpha, &LvglVersion::V8, false).unwrap();
    assert!(text.contains("t_map[] = {\n  0x00, 0x00,\n\n  0x07,\n};\n\n"));
    assert!(text.contains(".data_size = 3,"));
    assert!(text.contains(".header.cf = LV_IMG_CF_TRUE_COLOR_ALPHA,"));
}

#[test]
fn chroma_is_not_implemented() {
    match generate_c(&white_dot(), "dot", &ColorFormat::TrueColorChroma, &LvglVersion::V9, false) {
        Err(Png2LvglError::Format(FormatError::NotImplemented { format })) => {
            assert_eq!(format, "TrueColorChroma");
        }
        other => panic!("unexpected {:?}", other.map(|_| ())),
    }
}

#[test]
fn header_guard_is_upper_case() {
    let mut out = String::new();
    write_header(&mut out, "my_icon", &ColorFormat::Alpha8, false);
    assert_eq!(
        out,
        format!("{}#ifndef LV_ATTRIBUTE_IMG_MY_ICON\n#define LV_ATTRIBUTE_IMG_MY_ICON\n#endif\n\n", PREAMBLE)
    );
}

#[test]
fn data_array_sixteen_per_line() {
    let mut out = String::from(">");
    let data: Vec<u8> = (0u8..17).collect();
    write_data_array(&mut out, &data);
    assert_eq!(
        out,
        ">  0x00, 0x01, 0x02, 0x03, 0x04, 0x05, 0x06, 0x07, 0x08, 0x09, 0x0a, 0x0b, 0x0c, 0x0d, 0x0e, 0x0f,\n  0x10,\n"
    );
    let mut empty = String::new();
    write_data_array(&mut empty, &[]);
    assert_eq!(empty, "\n");
    let mut sixteen = String::new();
    write_data_array(&mut sixteen, &[0xab; 16]);
    assert_eq!(sixteen.matches("0xab").count(), 16);
    assert_eq!(sixteen.lines().count(), 1);
}

#[test]
fn descriptor_fields_in_order() {
    let mut out = String::new();
    write_descriptor(&mut out, "img", 640, 480, "LV_COLOR_FORMAT_I8", 308224);
    assert_eq!(
        out,
        "const lv_img_dsc_t img = {\n  .header.cf = LV_COLOR_FORMAT_I8,\n  .header.always_zero = 0,\n  .header.reserved = 0,\n  .header.w = 640,\n  .header.h = 480,\n  .data_size = 308224,\n  .data = img_map,\n};\n"
    );
}

#[test]
fn data_size_matches_array_bytes() {
    let mut bytes = Vec::new();
    for i in 0..15u8 {
        bytes.extend_from_slice(&[i * 10, 255 - i, i, 255]);
    }
    let img = PixelBuffer::new(5, 3, bytes, false, true, 24).unwrap();
    for (f, size) in [
        (ColorFormat::TrueColor, 30usize),
        (ColorFormat::Indexed2, 16 + 3 * 2),
        (ColorFormat::Indexed8, 1024 + 15),
        (ColorFormat::Alpha4, 3 * 3),
        (ColorFormat::Alpha8, 15),
    ] {
        let text = generate_c(&img, "x", &f, &LvglVersion::V9, false).unwrap();
        let start = text.find("x_map[] = {\n").unwrap();
        let end = text.find("};\n\n").unwrap();
        let literals = text[start..end].matches("0x").count();
        assert_eq!(literals, size, "{:?}", f);
        assert!(text.contains(&format!(".data_size = {},", size)), "{:?}", f);
    }
}

#[test]
fn convert_reports_and_aborts() {
    let img = white_dot();
    let c = convert(&img, "dot", ColorFormat::Auto, LvglVersion::V9, true).unwrap();
    assert_eq!(c.format, ColorFormat::TrueColor);
    assert!(c.warnings.is_empty());
    assert!(c.text.contains("big-endian"));
    let c = convert(&img, "dot", ColorFormat::Alpha8, LvglVersion::V9, true).unwrap();
    assert_eq!(c.warnings, vec![FormatWarning::BigEndianIgnored]);
    assert!(convert(&img, "dot", ColorFormat::TrueColorChroma, LvglVersion::V9, false).is_err());
    let mut bytes = Vec::new();
    for i in 0..5u8 {
        bytes.extend_from_slice(&[i, 0, 0, 255]);
    }
    let colorful = PixelBuffer::new(5, 1, bytes, false, true, 24).unwrap();
    assert!(matches!(
        convert(&colorful, "c", ColorFormat::Indexed2, LvglVersion::V9, false),
        Err(Png2LvglError::Format(FormatError::TooManyColors { colors: 5, max_colors: 4, .. }))
    ));
}

#[test]
fn variable_names_replace_hyphens() {
    assert_eq!(variable_name(Some("my-icon-2")), "my_icon_2");
    assert_eq!(variable_name(Some("plain")), "plain");
    assert_eq!(variable_name(None), "image");
    assert_eq!(variable_name(Some("")), "");
}

fn args(stdout: bool, output: Option<&str>, lvgl_v8: bool) -> Args {
    Args {
        input: PathBuf::from("in.png"),
        output: output.map(PathBuf::from),
        stdout,
        format: ColorFormat::Auto,
        overwrite: false,
        lvgl_v8,
        lvgl_v9: false,
        big_endian: false,
    }
}

#[test]
fn lvgl_version_defaults_to_nine() {
    assert_eq!(args(false, None, false).lvgl_version(), LvglVersion::V9);
    assert_eq!(args(false, None, true).lvgl_version(), LvglVersion::V8);
}

#[test]
fn stdout_and_output_conflict() {
    assert!(args(true, None, false).check_output_choice().is_ok());
    assert!(args(false, Some("a.c"), false).check_output_choice().is_ok());
    match args(true, Some("a.c"), false).check_output_choice() {
        Err(Png2LvglError::Config(m)) => assert_eq!(m, "Cannot use both --stdout and --output"),
        other => panic!("unexpected {:?}", other),
    }
}

#[test]
fn guarded_header_uses_guard_as_given() {
    let mut out = String::new();
    write_guarded_header(&mut out, "Odd-Guard", &ColorFormat::Indexed2, true);
    assert_eq!(
        out,
        format!("{}#ifndef LV_ATTRIBUTE_IMG_Odd-Guard\n#define LV_ATTRIBUTE_IMG_Odd-Guard\n#endif\n\n", PREAMBLE)
    );
}

#[test]
fn image_block_from_segments() {
    let e = EncodedImage { palette: vec![], pixels: vec![1, 2], alpha: vec![3] };
    let mut out = String::new();
    write_image(&mut out, "pic", "G", &e, true, 1, 1, "CF");
    assert_eq!(
        out,
        "const LV_ATTRIBUTE_MEM_ALIGN LV_ATTRIBUTE_LARGE_CONST LV_ATTRIBUTE_IMG_G uint8_t pic_map[] = {\n  0x01, 0x02,\n\n  0x03,\n};\n\nconst lv_img_dsc_t pic = {\n  .header.cf = CF,\n  .header.always_zero = 0,\n  .header.reserved = 0,\n  .header.w = 1,\n  .header.h = 1,\n  .data_size = 3,\n  .data = pic_map,\n};\n"
    );
}
