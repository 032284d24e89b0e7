use crate::encode::{ceil_div, chunk_of, EncodedImage};
use crate::format::{is_true_color, ColorFormat};
use vstd::prelude::*;

verus! {

/// Relies on `String::push`: appends one character.
#[verifier::external_body]
pub(crate) fn push_char(out: &mut String, c: char)
    ensures
        final(out)@ == old(out)@.push(c),
{
    out.push(c)
}

/// What `str::to_uppercase` makes of a string.
pub uninterp spec fn upper_of(s: Seq<char>) -> Seq<char>;

/// Relies on `str::to_uppercase`: the result depends on the characters
/// alone.
#[verifier::external_body]
pub(crate) fn to_upper(s: &str) -> (r: String)
    ensures
        r@ == upper_of(s@),
{
    s.to_uppercase()
}

/// The lower-case hexadecimal digit for `d < 16`; also the decimal digit
/// for `d < 10`.
pub open spec fn hex_digit(d: u8) -> char {
    if d < 10 {
        (48 + d) as char
    } else {
        (87 + d) as char
    }
}

fn digit_char(d: u8) -> (c: char)
    requires
        d < 16,
    ensures
        c == hex_digit(d),
{
    if d < 10 {
        (48 + d) as char
    } else {
        (87 + d) as char
    }
}

/// A byte as a C literal: `0x` and two lower-case hex digits.
pub open spec fn hex_byte(b: u8) -> Seq<char> {
    seq!['0', 'x', hex_digit(b / 16), hex_digit(b % 16)]
}

/// A number in decimal, without leading zeros.
pub open spec fn decimal(n: nat) -> Seq<char>
    decreases n,
{
    if n < 10 {
        seq![hex_digit(n as u8)]
    } else {
        decimal(n / 10).push(hex_digit((n % 10) as u8))
    }
}

fn write_hex_byte(out: &mut String, b: u8)
    ensures
        final(out)@ == old(out)@ + hex_byte(b),
{
    push_char(out, '0');
    push_char(out, 'x');
    push_char(out, digit_char(b / 16));
    push_char(out, digit_char(b % 16));
    assert(out@ =~= old(out)@ + hex_byte(b));
}

fn write_decimal(out: &mut String, n: u64)
    ensures
        final(out)@ == old(out)@ + decimal(n as nat),
    decreases n,
{
    if n >= 10 {
        write_decimal(out, n / 10);
    }
    push_char(out, digit_char((n % 10) as u8));
    assert(out@ =~= old(out)@ + decimal(n as nat));
}

/// Bytes as hex literals separated by `", "`.
pub open spec fn hex_list(s: Seq<u8>) -> Seq<char>
    decreases s.len(),
{
    if s.len() == 0 {
        Seq::empty()
    } else if s.len() == 1 {
        hex_byte(s[0])
    } else {
        hex_list(s.drop_last()) + ", "@ + hex_byte(s.last())
    }
}

/// The first `k` lines of a data array, sixteen bytes a line, each line
/// indented by two spaces and ended by a comma; lines are separated by
/// newlines.
pub open spec fn array_lines(data: Seq<u8>, k: nat) -> Seq<char>
    decreases k,
{
    if k == 0 {
        Seq::empty()
    } else {
        let before = array_lines(data, (k - 1) as nat);
        let sep = if k > 1 {
            seq!['\n']
        } else {
            Seq::empty()
        };
        before + sep + "  "@ + hex_list(chunk_of(data, k - 1, 16)) + ","@
    }
}

/// A byte array's body: all its lines, then a newline.
pub open spec fn data_array_text(data: Seq<u8>) -> Seq<char> {
    array_lines(data, ceil_div(data.len() as int, 16) as nat).push('\n')
}

/// Writes bytes as hex literals, sixteen a line.
pub fn write_data_array(out: &mut String, data: &[u8])
    ensures
        final(out)@ == old(out)@ + data_array_text(data@),
{
    let n: usize = data.len();
    let chunks: usize = n / 16 + if n % 16 != 0 {
        1
    } else {
        0
    };
    assert(chunks == ceil_div(n as int, 16));
    let mut k: usize = 0;
    while k < chunks
        invariant
            n == data@.len(),
            chunks == ceil_div(n as int, 16),
            k <= chunks,
            out@ == old(out)@ + array_lines(data@, k as nat),
        decreases chunks - k,
    {
        let ghost before = out@;
        if k > 0 {
            push_char(out, '\n');
        }
        out.append("  ");
        let start: usize = 16 * k;
        let end: usize = if n - start > 16 {
            start + 16
        } else {
            n
        };
        let ghost line_start = out@;
        assert(chunk_of(data@, k as int, 16) == data@.subrange(start as int, end as int));
        let mut j: usize = start;
        while j < end
            invariant
                start <= j <= end,
                end <= n,
                n == data@.len(),
                out@ == line_start + hex_list(data@.subrange(start as int, j as int)),
            decreases end - j,
        {
            if j > start {
                out.append(", ");
            }
            write_hex_byte(out, data[j]);
            proof {
                let s = data@.subrange(start as int, j + 1);
                assert(s.drop_last() =~= data@.subrange(start as int, j as int));
                assert(out@ =~= line_start + hex_list(s));
            }
            j = j + 1;
        }
        out.append(",");
        proof {
            let sep = if k > 0 {
                seq!['\n']
            } else {
                Seq::<char>::empty()
            };
            assert(out@ =~= before + sep + "  "@ + hex_list(chunk_of(data@, k as int, 16)) + ","@);
        }
        k = k + 1;
    }
    push_char(out, '\n');
}

/// The include block every generated file starts with, after the optional
/// byte-order note.
pub const INCLUDE_PREAMBLE: &'static str = "#ifdef __has_include\n    #if __has_include(\"lvgl.h\")\n        #ifndef LV_LVGL_H_INCLUDE_SIMPLE\n            #define LV_LVGL_H_INCLUDE_SIMPLE\n        #endif\n    #endif\n#endif\n\n#if defined(LV_LVGL_H_INCLUDE_SIMPLE)\n    #include \"lvgl.h\"\n#else\n    #include \"lvgl/lvgl.h\"\n#endif\n\n#ifndef LV_ATTRIBUTE_MEM_ALIGN\n#define LV_ATTRIBUTE_MEM_ALIGN\n#endif\n\n";

/// The byte-order note of the RGB565 formats.
pub open spec fn byte_order_note(format: ColorFormat, big_endian: bool) -> Seq<char> {
    if is_true_color(format) {
        "/*\n * RGB565 byte order: "@ + (if big_endian {
            "big-endian"@
        } else {
            "little-endian"@
        }) + "\n */\n\n"@
    } else {
        Seq::empty()
    }
}

/// The file header: byte-order note, include block, and the image's
/// attribute guard `LV_ATTRIBUTE_IMG_<guard>`.
pub open spec fn header_text(guard: Seq<char>, format: ColorFormat, big_endian: bool) -> Seq<
    char,
> {
    byte_order_note(format, big_endian) + INCLUDE_PREAMBLE@ + "#ifndef LV_ATTRIBUTE_IMG_"@
        + guard + "\n#define LV_ATTRIBUTE_IMG_"@ + guard + "\n#endif\n\n"@
}

/// Writes the file header, its attribute guard named after the upper-cased
/// variable name.
pub fn write_header(out: &mut String, var_name: &str, format: &ColorFormat, big_endian: bool)
    ensures
        final(out)@ == old(out)@ + header_text(upper_of(var_name@), *format, big_endian),
{
    let upper = to_upper(var_name);
    write_guarded_header(out, upper.as_str(), format, big_endian);
}

/// Writes the file header with the attribute guard `LV_ATTRIBUTE_IMG_<guard>`.
pub fn write_guarded_header(out: &mut String, guard: &str, format: &ColorFormat, big_endian: bool)
    ensures
        final(out)@ == old(out)@ + header_text(guard@, *format, big_endian),
{
    if matches!(format, ColorFormat::TrueColor | ColorFormat::TrueColorAlpha) {
        out.append("/*\n * RGB565 byte order: ");
        out.append(if big_endian { "big-endian" } else { "little-endian" });
        out.append("\n */\n\n");
    }
    out.append(INCLUDE_PREAMBLE);
    out.append("#ifndef LV_ATTRIBUTE_IMG_");
    out.append(guard);
    out.append("\n#define LV_ATTRIBUTE_IMG_");
    out.append(guard);
    out.append("\n#endif\n\n");
    assert(out@ =~= old(out)@ + header_text(guard@, *format, big_endian));
}

/// The opening line of the data array `<name>_map`, under the attribute
/// `LV_ATTRIBUTE_IMG_<guard>`.
pub open spec fn map_open_text(name: Seq<char>, guard: Seq<char>) -> Seq<char> {
    "const LV_ATTRIBUTE_MEM_ALIGN LV_ATTRIBUTE_LARGE_CONST LV_ATTRIBUTE_IMG_"@ + guard
        + " uint8_t "@ + name + "_map[] = {\n"@
}

/// Palette entry `i` on a line of its own, with a comment naming its index.
pub open spec fn palette_entry_text(p: Seq<u8>, i: nat) -> Seq<char> {
    let k = 4 * i as int;
    "  "@ + hex_byte(p[k]) + ", "@ + hex_byte(p[k + 1]) + ", "@ + hex_byte(p[k + 2]) + ", "@
        + hex_byte(p[k + 3]) + ", \t/*Color of index "@ + decimal(i) + "*/\n"@
}

/// The first `k` palette entries.
pub open spec fn palette_lines(p: Seq<u8>, k: nat) -> Seq<char>
    decreases k,
{
    if k == 0 {
        Seq::empty()
    } else {
        palette_lines(p, (k - 1) as nat) + palette_entry_text(p, (k - 1) as nat)
    }
}

fn write_palette_entry(out: &mut String, palette: &[u8], i: usize)
    requires
        4 * i + 3 < palette@.len() <= usize::MAX,
    ensures
        final(out)@ == old(out)@ + palette_entry_text(palette@, i as nat),
{
    out.append("  ");
    write_hex_byte(out, palette[4 * i]);
    out.append(", ");
    write_hex_byte(out, palette[4 * i + 1]);
    out.append(", ");
    write_hex_byte(out, palette[4 * i + 2]);
    out.append(", ");
    write_hex_byte(out, palette[4 * i + 3]);
    out.append(", \t/*Color of index ");
    write_decimal(out, i as u64);
    out.append("*/\n");
    assert(out@ =~= old(out)@ + palette_entry_text(palette@, i as nat));
}

fn write_palette(out: &mut String, palette: &[u8])
    requires
        palette@.len() % 4 == 0,
    ensures
        final(out)@ == old(out)@ + palette_lines(palette@, palette@.len() / 4),
{
    let len: usize = palette.len();
    let entries: usize = len / 4;
    let mut i: usize = 0;
    while i < entries
        invariant
            len == palette@.len(),
            entries == palette@.len() / 4,
            palette@.len() % 4 == 0,
            i <= entries,
            out@ == old(out)@ + palette_lines(palette@, i as nat),
        decreases entries - i,
    {
        assert(4 * i + 3 < len);
        write_palette_entry(out, palette, i);
        i = i + 1;
    }
}

/// The image descriptor: format constant, two zero fields, size, data
/// size and a reference to the data array.
pub open spec fn descriptor_text(name: Seq<char>, w: nat, h: nat, cf: Seq<char>, size: nat) -> Seq<
    char,
> {
    "const lv_img_dsc_t "@ + name + " = {\n  .header.cf = "@ + cf
        + ",\n  .header.always_zero = 0,\n  .header.reserved = 0,\n  .header.w = "@ + decimal(w)
        + ",\n  .header.h = "@ + decimal(h) + ",\n  .data_size = "@ + decimal(size)
        + ",\n  .data = "@ + name + "_map,\n};\n"@
}

/// Writes the image descriptor.
pub fn write_descriptor(out: &mut String, var_name: &str, w: u32, h: u32, cf: &str, size: usize)
    ensures
        final(out)@ == old(out)@ + descriptor_text(var_name@, w as nat, h as nat, cf@, size as nat),
{
    out.append("const lv_img_dsc_t ");
    out.append(var_name);
    out.append(" = {\n  .header.cf = ");
    out.append(cf);
    out.append(",\n  .header.always_zero = 0,\n  .header.reserved = 0,\n  .header.w = ");
    write_decimal(out, w as u64);
    out.append(",\n  .header.h = ");
    write_decimal(out, h as u64);
    out.append(",\n  .data_size = ");
    write_decimal(out, size as u64);
    out.append(",\n  .data = ");
    out.append(var_name);
    out.append("_map,\n};\n");
    assert(out@ =~= old(out)@ + descriptor_text(var_name@, w as nat, h as nat, cf@, size as nat));
}

/// The number of bytes in a palette, pixel data and optional alpha plane.
pub open spec fn segments_len(palette: Seq<u8>, pixels: Seq<u8>, alpha: Option<Seq<u8>>) -> nat {
    palette.len() + pixels.len() + match alpha {
        Some(a) => a.len(),
        None => 0,
    }
}

/// Everything after the header for one encoded image: the data array,
/// with the palette first when there is one and the alpha plane last when
/// asked, then the descriptor, whose data size counts every byte of the
/// array.
pub open spec fn image_text(
    name: Seq<char>,
    guard: Seq<char>,
    palette: Seq<u8>,
    pixels: Seq<u8>,
    alpha: Option<Seq<u8>>,
    w: nat,
    h: nat,
    cf: Seq<char>,
) -> Seq<char> {
    let palette_part = if palette.len() > 0 {
        palette_lines(palette, palette.len() / 4).push('\n')
    } else {
        Seq::empty()
    };
    let alpha_part = match alpha {
        Some(a) => seq!['\n'] + data_array_text(a),
        None => Seq::empty(),
    };
    let size = segments_len(palette, pixels, alpha);
    map_open_text(name, guard) + palette_part + data_array_text(pixels) + alpha_part + "};\n\n"@
        + descriptor_text(name, w, h, cf, size)
}

proof fn lemma_concat6(
    s: Seq<char>,
    a: Seq<char>,
    b: Seq<char>,
    c: Seq<char>,
    d: Seq<char>,
    e: Seq<char>,
    f: Seq<char>,
)
    ensures
        s + a + b + c + d + e + f == s + (a + b + c + d + e + f),
{
    assert(s + a + b + c + d + e + f =~= s + (a + b + c + d + e + f));
}

/// Writes an encoded image's data array, under the attribute
/// `LV_ATTRIBUTE_IMG_<guard>`, and its descriptor. The alpha plane is
/// written as a second block when `with_alpha`.
pub fn write_image(
    out: &mut String,
    var_name: &str,
    guard: &str,
    encoded: &EncodedImage,
    with_alpha: bool,
    w: u32,
    h: u32,
    cf: &str,
)
    requires
        encoded.total_len() <= usize::MAX,
        encoded.palette@.len() % 4 == 0,
        !with_alpha ==> encoded.alpha@.len() == 0,
    ensures
        final(out)@ == old(out)@ + image_text(
            var_name@,
            guard@,
            encoded.palette@,
            encoded.pixels@,
            if with_alpha {
                Some(encoded.alpha@)
            } else {
                None
            },
            w as nat,
            h as nat,
            cf@,
        ),
{
    let ghost start = out@;
    let ghost alpha = if with_alpha {
        Some(encoded.alpha@)
    } else {
        None
    };
    let ghost palette_part = if encoded.palette@.len() > 0 {
        palette_lines(encoded.palette@, encoded.palette@.len() / 4).push('\n')
    } else {
        Seq::empty()
    };
    let ghost alpha_part = match alpha {
        Some(a) => seq!['\n'] + data_array_text(a),
        None => Seq::empty(),
    };
    out.append("const LV_ATTRIBUTE_MEM_ALIGN LV_ATTRIBUTE_LARGE_CONST LV_ATTRIBUTE_IMG_");
    out.append(guard);
    out.append(" uint8_t ");
    out.append(var_name);
    out.append("_map[] = {\n");
    assert(out@ =~= start + map_open_text(var_name@, guard@));
    let ghost s1 = out@;
    if encoded.palette.len() > 0 {
        write_palette(out, encoded.palette.as_slice());
        push_char(out, '\n');
        assert(out@ =~= s1 + palette_part);
    } else {
        assert(out@ =~= s1 + palette_part);
    }
    write_data_array(out, encoded.pixels.as_slice());
    let ghost s3 = out@;
    if with_alpha {
        push_char(out, '\n');
        write_data_array(out, encoded.alpha.as_slice());
        assert(out@ =~= s3 + alpha_part);
    } else {
        assert(out@ =~= s3 + alpha_part);
    }
    out.append("};\n\n");
    let size = encoded.data_size();
    write_descriptor(out, var_name, w, h, cf, size);
    proof {
        lemma_concat6(
            start,
            map_open_text(var_name@, guard@),
            palette_part,
            data_array_text(encoded.pixels@),
            alpha_part,
            "};\n\n"@,
            descriptor_text(var_name@, w as nat, h as nat, cf@, size as nat),
        );
    }
}

} // verus!
