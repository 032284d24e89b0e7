use crate::encode::{
    alpha_plane, encode_alpha, encode_indexed, encode_true_color, lemma_pack_rows_len,
    lemma_palette_shape, lemma_row_bytes_bound, lumas, pack_rows, palette_bytes, rgb565_plane,
    row_bytes, samples,
};
use crate::error::{FormatError, Png2LvglError};
use crate::format::{
    bit_depth, bit_depth_too_small, capped_colors, format_bit_depth, format_name, format_tag,
    format_warnings, is_alpha, is_indexed, is_invalid_bit_depth, is_too_many_colors,
    is_true_color, levels, resolve_format, resolved_format, validate_format, valid_bpp,
    ColorFormat, FormatWarning, LvglVersion,
};
use crate::pixels::PixelBuffer;
use crate::text::{
    header_text, image_text, segments_len, to_upper, upper_of, write_header, write_image,
};
use std::path::PathBuf;
use vstd::prelude::*;

verus! {

/// The pixel data of an alpha-only image: luma bytes at 8 bits, else luma
/// reduced to `bpp` bits and packed row by row.
pub open spec fn alpha_only_pixels(img: PixelBuffer, bpp: u8) -> Seq<u8> {
    if bpp == 8 {
        lumas(img)
    } else {
        pack_rows(samples(img, bpp), img.width as nat, img.height as nat, bpp)
    }
}

/// The byte segments written for `img` in a concrete format other than
/// `TrueColorChroma`: palette, pixel data, and the alpha plane where the
/// format has one.
pub open spec fn segments(img: PixelBuffer, format: ColorFormat, big_endian: bool) -> (
    Seq<u8>,
    Seq<u8>,
    Option<Seq<u8>>,
) {
    let w = img.width as nat;
    let h = img.height as nat;
    if format is TrueColor {
        (Seq::empty(), rgb565_plane(img, big_endian), None)
    } else if format is TrueColorAlpha {
        (Seq::empty(), rgb565_plane(img, big_endian), Some(alpha_plane(img)))
    } else if is_indexed(format) {
        let b = bit_depth(format);
        (palette_bytes(b), pack_rows(samples(img, b), w, h, b), None)
    } else {
        (Seq::empty(), alpha_only_pixels(img, bit_depth(format)), None)
    }
}

/// Everything after the header for `img` in a concrete format other than
/// `TrueColorChroma`.
pub open spec fn body_text(
    img: PixelBuffer,
    name: Seq<char>,
    format: ColorFormat,
    cf: Seq<char>,
    big_endian: bool,
) -> Seq<char> {
    let (palette, pixels, alpha) = segments(img, format, big_endian);
    image_text(name, upper_of(name), palette, pixels, alpha, img.width as nat, img.height as nat, cf)
}

/// The data size of `img` in a concrete format other than
/// `TrueColorChroma`: two bytes per pixel for RGB565 and one more with
/// alpha; `2^b` four-byte palette entries plus `⌈w · b / 8⌉` bytes per row
/// for indexed formats; one byte per pixel for 8-bit alpha and
/// `⌈w · b / 8⌉` bytes per row below that.
pub open spec fn expected_data_size(img: PixelBuffer, format: ColorFormat) -> nat {
    let n = img.num_pixels();
    let w = img.width as nat;
    let h = img.height as nat;
    let b = bit_depth(format);
    if format is TrueColor {
        2 * n
    } else if format is TrueColorAlpha {
        3 * n
    } else if is_indexed(format) {
        4 * vstd::arithmetic::power2::pow2(b as nat) + h * row_bytes(w, b)
    } else if b == 8 {
        n
    } else {
        h * row_bytes(w, b)
    }
}

/// For every supported format, the data size that the descriptor states
/// is the number of bytes the data array holds, and that number is the
/// format's closed-form size.
pub proof fn lemma_data_size(img: PixelBuffer, name: Seq<char>, format: ColorFormat, cf: Seq<char>, big_endian: bool)
    requires
        img.wf(),
        !(format is Auto),
        !(format is TrueColorChroma),
    ensures
        ({
            let (palette, pixels, alpha) = segments(img, format, big_endian);
            &&& body_text(img, name, format, cf, big_endian) == image_text(
                name,
                upper_of(name),
                palette,
                pixels,
                alpha,
                img.width as nat,
                img.height as nat,
                cf,
            )
            &&& segments_len(palette, pixels, alpha) == expected_data_size(img, format)
        }),
{
    let w = img.width as nat;
    let h = img.height as nat;
    let b = bit_depth(format);
    if is_indexed(format) || (is_alpha(format) && b != 8) {
        assert(h * w == w * h) by (nonlinear_arith);
        lemma_pack_rows_len(samples(img, b), w, h, b);
    }
    if is_indexed(format) {
        lemma_palette_shape(b);
    }
}

/// The complete C source for `img` in `format`.
pub open spec fn c_source(
    img: PixelBuffer,
    name: Seq<char>,
    format: ColorFormat,
    version: LvglVersion,
    big_endian: bool,
) -> Seq<char> {
    header_text(upper_of(name), format, big_endian) + body_text(
        img,
        name,
        format,
        format_tag(format, version),
        big_endian,
    )
}

/// `e` reports the named format as not implemented.
pub open spec fn is_not_implemented(e: Png2LvglError, name: Seq<char>) -> bool {
    match e {
        Png2LvglError::Format(FormatError::NotImplemented { format }) => format@ == name,
        _ => false,
    }
}

/// Writes the palette and packed indices of a `bpp`-bit indexed image,
/// then its descriptor.
pub fn write_indexed(img: &PixelBuffer, out: &mut String, var_name: &str, format_const: &str, bpp: u8)
    requires
        img.wf(),
        valid_bpp(bpp),
    ensures
        final(out)@ == old(out)@ + image_text(
            var_name@,
            upper_of(var_name@),
            palette_bytes(bpp),
            pack_rows(samples(*img, bpp), img.width as nat, img.height as nat, bpp),
            None,
            img.width as nat,
            img.height as nat,
            format_const@,
        ),
{
    let encoded = encode_indexed(img, bpp);
    proof {
        let (w, h) = (img.width as nat, img.height as nat);
        lemma_pack_rows_len(samples(*img, bpp), w, h, bpp);
        lemma_row_bytes_bound(w, h, bpp);
        assert(h * w == w * h) by (nonlinear_arith);
        assert(encoded.palette@.len() == 4 * levels(bpp));
    }
    let upper = to_upper(var_name);
    write_image(out, var_name, upper.as_str(), &encoded, false, img.width, img.height, format_const);
}

/// Writes the RGB565 plane of a true-color image, followed by its alpha
/// plane when `alpha`, then its descriptor.
pub fn write_true_color(
    img: &PixelBuffer,
    out: &mut String,
    var_name: &str,
    alpha: bool,
    format_const: &str,
    big_endian: bool,
)
    requires
        img.wf(),
    ensures
        final(out)@ == old(out)@ + image_text(
            var_name@,
            upper_of(var_name@),
            Seq::empty(),
            rgb565_plane(*img, big_endian),
            if alpha {
                Some(alpha_plane(*img))
            } else {
                None
            },
            img.width as nat,
            img.height as nat,
            format_const@,
        ),
{
    let encoded = encode_true_color(img, alpha, big_endian);
    let upper = to_upper(var_name);
    write_image(out, var_name, upper.as_str(), &encoded, alpha, img.width, img.height, format_const);
}

/// Writes the alpha-only data of a `bpp`-bit image, then its descriptor.
pub fn write_alpha(img: &PixelBuffer, out: &mut String, var_name: &str, format_const: &str, bpp: u8)
    requires
        img.wf(),
        valid_bpp(bpp),
    ensures
        final(out)@ == old(out)@ + image_text(
            var_name@,
            upper_of(var_name@),
            Seq::empty(),
            alpha_only_pixels(*img, bpp),
            None,
            img.width as nat,
            img.height as nat,
            format_const@,
        ),
{
    let encoded = encode_alpha(img, bpp);
    proof {
        let (w, h) = (img.width as nat, img.height as nat);
        lemma_pack_rows_len(samples(*img, bpp), w, h, bpp);
        lemma_row_bytes_bound(w, h, bpp);
        assert(h * w == w * h) by (nonlinear_arith);
    }
    let upper = to_upper(var_name);
    write_image(out, var_name, upper.as_str(), &encoded, false, img.width, img.height, format_const);
}

/// Generates the C source for `img` in a concrete `format`: header, data
/// array and descriptor. `TrueColorChroma` is not implemented and fails.
pub fn generate_c(
    img: &PixelBuffer,
    var_name: &str,
    format: &ColorFormat,
    lvgl_version: &LvglVersion,
    big_endian: bool,
) -> (r: Result<String, Png2LvglError>)
    requires
        img.wf(),
        !(*format is Auto),
    ensures
        *format is TrueColorChroma <==> r is Err,
        r matches Err(e) ==> is_not_implemented(e, "TrueColorChroma"@),
        r matches Ok(s) ==> s@ == c_source(*img, var_name@, *format, *lvgl_version, big_endian),
{
    if matches!(format, ColorFormat::TrueColorChroma) {
        return Err(
            Png2LvglError::Format(
                FormatError::NotImplemented { format: String::from_str("TrueColorChroma") },
            ),
        );
    }
    let mut out = String::new();
    write_header(&mut out, var_name, format, big_endian);
    let ghost head = out@;
    let format_const = format_name(format, lvgl_version);
    match format {
        ColorFormat::TrueColor => {
            write_true_color(img, &mut out, var_name, false, format_const, big_endian);
        },
        ColorFormat::TrueColorAlpha => {
            write_true_color(img, &mut out, var_name, true, format_const, big_endian);
        },
        ColorFormat::Indexed1 | ColorFormat::Indexed2 | ColorFormat::Indexed4
        | ColorFormat::Indexed8 => {
            let bpp = format_bit_depth(*format);
            write_indexed(img, &mut out, var_name, format_const, bpp);
        },
        _ => {
            let bpp = format_bit_depth(*format);
            write_alpha(img, &mut out, var_name, format_const, bpp);
        },
    }
    assert(head =~= header_text(upper_of(var_name@), *format, big_endian));
    assert(out@ =~= c_source(*img, var_name@, *format, *lvgl_version, big_endian));
    Ok(out)
}

/// Where a conversion fails: the format check rejects the image, or the
/// format is not implemented.
pub open spec fn conversion_fails(img: PixelBuffer, format: ColorFormat) -> bool {
    (is_indexed(format) && capped_colors(img) > levels(bit_depth(format))) || bit_depth_too_small(
        img,
        format,
    ) || format is TrueColorChroma
}

/// The warnings of a successful conversion: those of the format check,
/// then one for a byte order that the format does not use.
pub open spec fn conversion_warnings(
    img: PixelBuffer,
    format: ColorFormat,
    big_endian: bool,
) -> Seq<FormatWarning> {
    format_warnings(img, format) + if big_endian && !is_true_color(format) {
        seq![FormatWarning::BigEndianIgnored]
    } else {
        Seq::empty()
    }
}

/// A finished conversion: the format used, what is worth reporting, and
/// the C source.
pub struct Conversion {
    pub format: ColorFormat,
    pub warnings: Vec<FormatWarning>,
    pub text: String,
}

/// Converts an image: resolves `Auto`, checks the format against the
/// image, and generates the C source. Nothing is produced on failure.
pub fn convert(
    img: &PixelBuffer,
    var_name: &str,
    requested: ColorFormat,
    lvgl_version: LvglVersion,
    big_endian: bool,
) -> (r: Result<Conversion, Png2LvglError>)
    requires
        img.wf(),
    ensures
        ({
            let f = resolved_format(requested, img.has_alpha);
            &&& r is Err <==> conversion_fails(*img, f)
            &&& r matches Ok(c) ==> c.format == f && c.warnings@ == conversion_warnings(
                *img,
                f,
                big_endian,
            ) && c.text@ == c_source(*img, var_name@, f, lvgl_version, big_endian)
            &&& r matches Err(e) ==> (is_indexed(f) ==> is_too_many_colors(
                e,
                capped_colors(*img),
                levels(bit_depth(f)),
                crate::format::format_label(f),
            )) && (is_alpha(f) ==> is_invalid_bit_depth(
                e,
                bit_depth(f),
                crate::format::format_label(f),
            )) && (f is TrueColorChroma ==> is_not_implemented(e, "TrueColorChroma"@))
        }),
{
    let format = resolve_format(requested, img);
    let mut warnings = match validate_format(img, &format) {
        Ok(w) => w,
        Err(e) => {
            return Err(e);
        },
    };
    if big_endian && !matches!(format, ColorFormat::TrueColor | ColorFormat::TrueColorAlpha) {
        warnings.push(FormatWarning::BigEndianIgnored);
    }
    let text = match generate_c(img, var_name, &format, &lvgl_version, big_endian) {
        Ok(t) => t,
        Err(e) => {
            return Err(e);
        },
    };
    assert(warnings@ =~= conversion_warnings(*img, format, big_endian));
    Ok(Conversion { format, warnings, text })
}

/// The C identifier for a name: every `-` becomes `_`.
pub open spec fn c_identifier(s: Seq<char>) -> Seq<char> {
    Seq::new(s.len(), |i: int| if s[i] == '-' { '_' } else { s[i] })
}

/// The variable name for the generated arrays: the file stem with hyphens
/// replaced by underscores, `image` where there is no stem.
pub fn variable_name(stem: Option<&str>) -> (r: String)
    ensures
        r@ == c_identifier(
            match stem {
                Some(s) => s@,
                None => "image"@,
            },
        ),
{
    let s: &str = match stem {
        Some(s) => s,
        None => "image",
    };
    let n = s.unicode_len();
    let mut name = String::new();
    let mut i: usize = 0;
    while i < n
        invariant
            n == s@.len(),
            i <= n,
            name@ =~= c_identifier(s@).take(i as int),
        decreases n - i,
    {
        let c = s.get_char(i);
        crate::text::push_char(&mut name, if c == '-' { '_' } else { c });
        assert(c_identifier(s@).take(i + 1) =~= c_identifier(s@).take(i as int).push(
            if c == '-' { '_' } else { c },
        ));
        i = i + 1;
    }
    assert(c_identifier(s@).take(n as int) =~= c_identifier(s@));
    name
}

/// The command-line settings of a conversion.
pub struct Args {
    pub input: PathBuf,
    pub output: Option<PathBuf>,
    pub stdout: bool,
    pub format: ColorFormat,
    pub overwrite: bool,
    pub lvgl_v8: bool,
    pub lvgl_v9: bool,
    pub big_endian: bool,
}

impl Args {
    /// LVGL 9 unless 8 is asked for.
    pub fn lvgl_version(&self) -> (v: LvglVersion)
        ensures
            v == (if self.lvgl_v8 {
                LvglVersion::V8
            } else {
                LvglVersion::V9
            }),
    {
        if self.lvgl_v8 {
            LvglVersion::V8
        } else {
            LvglVersion::V9
        }
    }

    /// Output goes to a file or to standard output, not both.
    pub fn check_output_choice(&self) -> (r: Result<(), Png2LvglError>)
        ensures
            r is Err <==> self.stdout && self.output is Some,
            r matches Err(e) ==> (e matches Png2LvglError::Config(m) && m@
                == "Cannot use both --stdout and --output"@),
    {
        if self.stdout && self.output.is_some() {
            return Err(
                Png2LvglError::Config(String::from_str("Cannot use both --stdout and --output")),
            );
        }
        Ok(())
    }
}

} // verus!
