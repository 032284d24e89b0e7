use crate::error::{FormatError, Png2LvglError};
use crate::pixels::PixelBuffer;
use std::collections::HashSet;
use vstd::prelude::*;

verus! {

/// The pixel formats an image can be converted to. `Auto` is a request
/// only: it is resolved to a concrete format before anything is encoded.
#[derive(Clone, Copy, Debug, PartialEq, Eq, Structural)]
pub enum ColorFormat {
    Auto,
    TrueColor,
    TrueColorAlpha,
    TrueColorChroma,
    Indexed1,
    Indexed2,
    Indexed4,
    Indexed8,
    Alpha1,
    Alpha2,
    Alpha4,
    Alpha8,
}

/// Which family of format constants the generated descriptor names.
#[derive(Clone, Copy, Debug, PartialEq, Eq, Structural)]
pub enum LvglVersion {
    V8,
    V9,
}

/// A condition worth reporting that does not stop a conversion.
#[derive(Clone, Copy, Debug, PartialEq, Eq, Structural)]
pub enum FormatWarning {
    /// A color source is reduced to an alpha-only format.
    LossyAlpha,
    /// A byte order was asked for a format that has no 16-bit words.
    BigEndianIgnored,
}

pub open spec fn is_true_color(f: ColorFormat) -> bool {
    f is TrueColor || f is TrueColorAlpha
}

pub open spec fn is_indexed(f: ColorFormat) -> bool {
    f is Indexed1 || f is Indexed2 || f is Indexed4 || f is Indexed8
}

pub open spec fn is_alpha(f: ColorFormat) -> bool {
    f is Alpha1 || f is Alpha2 || f is Alpha4 || f is Alpha8
}

/// Bits per pixel of an indexed or alpha-only format.
pub open spec fn bit_depth(f: ColorFormat) -> u8 {
    match f {
        ColorFormat::Indexed1 | ColorFormat::Alpha1 => 1,
        ColorFormat::Indexed2 | ColorFormat::Alpha2 => 2,
        ColorFormat::Indexed4 | ColorFormat::Alpha4 => 4,
        _ => 8,
    }
}

/// The bit depths of the packed formats.
pub open spec fn valid_bpp(bpp: u8) -> bool {
    bpp == 1 || bpp == 2 || bpp == 4 || bpp == 8
}

/// `2^bpp`: the values a sample of `bpp` bits can take.
pub open spec fn levels(bpp: u8) -> nat {
    if bpp == 1 {
        2
    } else if bpp == 2 {
        4
    } else if bpp == 4 {
        16
    } else {
        256
    }
}

/// Bits per pixel of an indexed or alpha-only format.
pub fn format_bit_depth(f: ColorFormat) -> (b: u8)
    requires
        is_indexed(f) || is_alpha(f),
    ensures
        b == bit_depth(f),
        valid_bpp(b),
{
    match f {
        ColorFormat::Indexed1 | ColorFormat::Alpha1 => 1,
        ColorFormat::Indexed2 | ColorFormat::Alpha2 => 2,
        ColorFormat::Indexed4 | ColorFormat::Alpha4 => 4,
        _ => 8,
    }
}

/// The short name of a format, as error messages give it.
pub open spec fn format_label(f: ColorFormat) -> Seq<char> {
    match f {
        ColorFormat::Auto => "Auto"@,
        ColorFormat::TrueColor => "TrueColor"@,
        ColorFormat::TrueColorAlpha => "TrueColorAlpha"@,
        ColorFormat::TrueColorChroma => "TrueColorChroma"@,
        ColorFormat::Indexed1 => "Indexed1"@,
        ColorFormat::Indexed2 => "Indexed2"@,
        ColorFormat::Indexed4 => "Indexed4"@,
        ColorFormat::Indexed8 => "Indexed8"@,
        ColorFormat::Alpha1 => "Alpha1"@,
        ColorFormat::Alpha2 => "Alpha2"@,
        ColorFormat::Alpha4 => "Alpha4"@,
        ColorFormat::Alpha8 => "Alpha8"@,
    }
}

/// The short name of a format, as error messages give it.
pub fn label(f: ColorFormat) -> (r: &'static str)
    ensures
        r@ == format_label(f),
{
    match f {
        ColorFormat::Auto => "Auto",
        ColorFormat::TrueColor => "TrueColor",
        ColorFormat::TrueColorAlpha => "TrueColorAlpha",
        ColorFormat::TrueColorChroma => "TrueColorChroma",
        ColorFormat::Indexed1 => "Indexed1",
        ColorFormat::Indexed2 => "Indexed2",
        ColorFormat::Indexed4 => "Indexed4",
        ColorFormat::Indexed8 => "Indexed8",
        ColorFormat::Alpha1 => "Alpha1",
        ColorFormat::Alpha2 => "Alpha2",
        ColorFormat::Alpha4 => "Alpha4",
        ColorFormat::Alpha8 => "Alpha8",
    }
}

/// The C constant naming a format in the descriptor, per LVGL version.
pub open spec fn format_tag(f: ColorFormat, v: LvglVersion) -> Seq<char> {
    match v {
        LvglVersion::V8 => match f {
            ColorFormat::Auto => "auto"@,
            ColorFormat::TrueColor => "LV_IMG_CF_TRUE_COLOR"@,
            ColorFormat::TrueColorAlpha => "LV_IMG_CF_TRUE_COLOR_ALPHA"@,
            ColorFormat::TrueColorChroma => "LV_IMG_CF_TRUE_COLOR_CHROMA_KEYED"@,
            ColorFormat::Indexed1 => "LV_IMG_CF_INDEXED_1BIT"@,
            ColorFormat::Indexed2 => "LV_IMG_CF_INDEXED_2BIT"@,
            ColorFormat::Indexed4 => "LV_IMG_CF_INDEXED_4BIT"@,
            ColorFormat::Indexed8 => "LV_IMG_CF_INDEXED_8BIT"@,
            ColorFormat::Alpha1 => "LV_IMG_CF_ALPHA_1BIT"@,
            ColorFormat::Alpha2 => "LV_IMG_CF_ALPHA_2BIT"@,
            ColorFormat::Alpha4 => "LV_IMG_CF_ALPHA_4BIT"@,
            ColorFormat::Alpha8 => "LV_IMG_CF_ALPHA_8BIT"@,
        },
        LvglVersion::V9 => match f {
            ColorFormat::Auto => "auto"@,
            ColorFormat::TrueColor => "LV_COLOR_FORMAT_RGB565"@,
            ColorFormat::TrueColorAlpha => "LV_COLOR_FORMAT_RGB565A8"@,
            ColorFormat::TrueColorChroma => "LV_COLOR_FORMAT_RGB565_CHROMA_KEYED"@,
            ColorFormat::Indexed1 => "LV_COLOR_FORMAT_I1"@,
            ColorFormat::Indexed2 => "LV_COLOR_FORMAT_I2"@,
            ColorFormat::Indexed4 => "LV_COLOR_FORMAT_I4"@,
            ColorFormat::Indexed8 => "LV_COLOR_FORMAT_I8"@,
            ColorFormat::Alpha1 => "LV_COLOR_FORMAT_A1"@,
            ColorFormat::Alpha2 => "LV_COLOR_FORMAT_A2"@,
            ColorFormat::Alpha4 => "LV_COLOR_FORMAT_A4"@,
            ColorFormat::Alpha8 => "LV_COLOR_FORMAT_A8"@,
        },
    }
}

/// The C constant naming a format in the descriptor, per LVGL version.
pub fn format_name(format: &ColorFormat, lvgl_version: &LvglVersion) -> (r: &'static str)
    ensures
        r@ == format_tag(*format, *lvgl_version),
{
    match lvgl_version {
        LvglVersion::V8 => match format {
            ColorFormat::Auto => "auto",
            ColorFormat::TrueColor => "LV_IMG_CF_TRUE_COLOR",
            ColorFormat::TrueColorAlpha => "LV_IMG_CF_TRUE_COLOR_ALPHA",
            ColorFormat::TrueColorChroma => "LV_IMG_CF_TRUE_COLOR_CHROMA_KEYED",
            ColorFormat::Indexed1 => "LV_IMG_CF_INDEXED_1BIT",
            ColorFormat::Indexed2 => "LV_IMG_CF_INDEXED_2BIT",
            ColorFormat::Indexed4 => "LV_IMG_CF_INDEXED_4BIT",
            ColorFormat::Indexed8 => "LV_IMG_CF_INDEXED_8BIT",
            ColorFormat::Alpha1 => "LV_IMG_CF_ALPHA_1BIT",
            ColorFormat::Alpha2 => "LV_IMG_CF_ALPHA_2BIT",
            ColorFormat::Alpha4 => "LV_IMG_CF_ALPHA_4BIT",
            ColorFormat::Alpha8 => "LV_IMG_CF_ALPHA_8BIT",
        },
        LvglVersion::V9 => match format {
            ColorFormat::Auto => "auto",
            ColorFormat::TrueColor => "LV_COLOR_FORMAT_RGB565",
            ColorFormat::TrueColorAlpha => "LV_COLOR_FORMAT_RGB565A8",
            ColorFormat::TrueColorChroma => "LV_COLOR_FORMAT_RGB565_CHROMA_KEYED",
            ColorFormat::Indexed1 => "LV_COLOR_FORMAT_I1",
            ColorFormat::Indexed2 => "LV_COLOR_FORMAT_I2",
            ColorFormat::Indexed4 => "LV_COLOR_FORMAT_I4",
            ColorFormat::Indexed8 => "LV_COLOR_FORMAT_I8",
            ColorFormat::Alpha1 => "LV_COLOR_FORMAT_A1",
            ColorFormat::Alpha2 => "LV_COLOR_FORMAT_A2",
            ColorFormat::Alpha4 => "LV_COLOR_FORMAT_A4",
            ColorFormat::Alpha8 => "LV_COLOR_FORMAT_A8",
        },
    }
}

/// The format chosen for `Auto`: with alpha where the source has an alpha
/// channel.
pub open spec fn detected_format(has_alpha: bool) -> ColorFormat {
    if has_alpha {
        ColorFormat::TrueColorAlpha
    } else {
        ColorFormat::TrueColor
    }
}

/// The concrete format for a request.
pub open spec fn resolved_format(requested: ColorFormat, has_alpha: bool) -> ColorFormat {
    if requested is Auto {
        detected_format(has_alpha)
    } else {
        requested
    }
}

/// Picks the format for `Auto` from the source's alpha channel.
pub fn detect_format(img: &PixelBuffer) -> (r: ColorFormat)
    ensures
        r == detected_format(img.has_alpha),
{
    if img.has_alpha {
        ColorFormat::TrueColorAlpha
    } else {
        ColorFormat::TrueColor
    }
}

/// Resolves `Auto`; any other request stands.
pub fn resolve_format(requested: ColorFormat, img: &PixelBuffer) -> (r: ColorFormat)
    ensures
        r == resolved_format(requested, img.has_alpha),
        !(r is Auto),
{
    match requested {
        ColorFormat::Auto => detect_format(img),
        f => f,
    }
}

/// Automatic selection picks the alpha format for any image with a
/// translucent pixel, and the plain format for an opaque image whose source
/// has no alpha channel.
pub proof fn lemma_auto_detection(img: PixelBuffer)
    requires
        img.wf(),
    ensures
        (exists|i: int| 0 <= i < img.num_pixels() && #[trigger] img.alpha(i) < 255)
            ==> resolved_format(ColorFormat::Auto, img.has_alpha) == ColorFormat::TrueColorAlpha,
        img.opaque() && !img.has_alpha ==> resolved_format(ColorFormat::Auto, img.has_alpha)
            == ColorFormat::TrueColor,
{
    if exists|i: int| 0 <= i < img.num_pixels() && #[trigger] img.alpha(i) < 255 {
        let i = choose|i: int| 0 <= i < img.num_pixels() && #[trigger] img.alpha(i) < 255;
        if !img.has_alpha {
            assert(img.rgba@[4 * i + 3] == 255);
        }
    }
}

/// The RGB triple of pixel `i` as one number, alpha left out.
pub open spec fn color_key(img: PixelBuffer, i: int) -> u32 {
    (img.red(i) as nat * 65536 + img.green(i) as nat * 256 + img.blue(i) as nat) as u32
}

pub open spec fn color_keys(img: PixelBuffer) -> Seq<u32> {
    Seq::new(img.num_pixels(), |i: int| color_key(img, i))
}

/// The number of distinct RGB triples in the image.
pub open spec fn distinct_colors(img: PixelBuffer) -> nat {
    color_keys(img).to_set().len()
}

/// The distinct-color count, capped at 257: counting stops as soon as more
/// than 256 colors are seen.
pub open spec fn capped_colors(img: PixelBuffer) -> nat {
    if distinct_colors(img) <= 256 {
        distinct_colors(img)
    } else {
        257
    }
}

/// Counts the distinct RGB triples, stopping once there are more than 256.
pub fn count_unique_colors(img: &PixelBuffer) -> (r: usize)
    requires
        img.wf(),
    ensures
        r == capped_colors(*img),
{
    broadcast use vstd::std_specs::hash::group_hash_axioms;
    broadcast use vstd::seq_lib::seq_to_set_is_finite;

    let n: usize = img.pixel_count();
    let len: usize = img.rgba.len();
    let mut colors: HashSet<u32> = HashSet::new();
    let mut i: usize = 0;
    while i < n
        invariant
            img.wf(),
            n == img.num_pixels(),
            img.rgba@.len() == len,
            i <= n,
            colors@ == color_keys(*img).take(i as int).to_set(),
            colors@.len() <= 256,
        decreases n - i,
    {
        assert(4 * i + 3 < 4 * n);
        let key: u32 = (img.rgba[4 * i] as u32) * 65536 + (img.rgba[4 * i + 1] as u32) * 256
            + (img.rgba[4 * i + 2] as u32);
        colors.insert(key);
        proof {
            color_keys(*img).take(i as int).lemma_push_to_set_commute(key);
        }
        assert(color_keys(*img).take(i + 1) =~= color_keys(*img).take(i as int).push(key));
        assert(colors@ == color_keys(*img).take(i as int).push(key).to_set());
        i = i + 1;
        if colors.len() > 256 {
            assert(colors@.subset_of(color_keys(*img).to_set())) by {
                assert forall|k: u32| colors@.contains(k) implies color_keys(
                    *img,
                ).to_set().contains(k) by {
                    let prefix = color_keys(*img).take(i as int);
                    assert(prefix.contains(k));
                    let j = choose|j: int| 0 <= j < prefix.len() && prefix[j] == k;
                    assert(color_keys(*img)[j] == k);
                    assert(color_keys(*img).contains(k));
                }
            }
            proof {
                vstd::set_lib::lemma_len_subset(colors@, color_keys(*img).to_set());
            }
            return colors.len();
        }
    }
    assert(color_keys(*img).take(n as int) =~= color_keys(*img));
    colors.len()
}

/// `e` is a palette overflow with these counts, for the named format.
pub open spec fn is_too_many_colors(
    e: Png2LvglError,
    colors: nat,
    max_colors: nat,
    name: Seq<char>,
) -> bool {
    match e {
        Png2LvglError::Format(FormatError::TooManyColors { colors: c, max_colors: m, format }) => c
            == colors && m == max_colors && format@ == name,
        _ => false,
    }
}

/// `e` rejects the bit depth of the named format.
pub open spec fn is_invalid_bit_depth(e: Png2LvglError, depth: u8, name: Seq<char>) -> bool {
    match e {
        Png2LvglError::Format(FormatError::InvalidBitDepth { depth: d, format }) => d == depth
            && format@ == name,
        _ => false,
    }
}

/// A narrow alpha-only format asked of a source with more than four times
/// as many bits per pixel.
pub open spec fn bit_depth_too_small(img: PixelBuffer, f: ColorFormat) -> bool {
    is_alpha(f) && bit_depth(f) < 8 && img.bits_per_pixel > 4 * bit_depth(f)
}

/// Warnings that a format which passes validation carries.
pub open spec fn format_warnings(img: PixelBuffer, f: ColorFormat) -> Seq<FormatWarning> {
    if is_alpha(f) && bit_depth(f) < 8 && img.has_color {
        seq![FormatWarning::LossyAlpha]
    } else {
        seq![]
    }
}

/// Checks that `format` can hold the image. Indexed formats fail when the
/// image has more distinct RGB colors than palette entries; narrow alpha-only
/// formats fail on a source of more than four times their bit depth, and
/// warn on a color source. Every other format passes.
pub fn validate_format(img: &PixelBuffer, format: &ColorFormat) -> (r: Result<
    Vec<FormatWarning>,
    Png2LvglError,
>)
    requires
        img.wf(),
    ensures
        is_indexed(*format) ==> (r is Err <==> capped_colors(*img) > levels(bit_depth(*format))),
        is_alpha(*format) ==> (r is Err <==> bit_depth_too_small(*img, *format)),
        !is_indexed(*format) && !is_alpha(*format) ==> r is Ok,
        r matches Err(e) ==> (is_indexed(*format) ==> is_too_many_colors(
            e,
            capped_colors(*img),
            levels(bit_depth(*format)),
            format_label(*format),
        )) && (is_alpha(*format) ==> is_invalid_bit_depth(
            e,
            bit_depth(*format),
            format_label(*format),
        )),
        r matches Ok(w) ==> w@ == format_warnings(*img, *format),
{
    let mut warnings: Vec<FormatWarning> = Vec::new();
    match format {
        ColorFormat::Indexed1 | ColorFormat::Indexed2 | ColorFormat::Indexed4
        | ColorFormat::Indexed8 => {
            let bpp = format_bit_depth(*format);
            let max_colors: usize = if bpp == 1 {
                2
            } else if bpp == 2 {
                4
            } else if bpp == 4 {
                16
            } else {
                256
            };
            let unique_colors = count_unique_colors(img);
            if unique_colors > max_colors {
                return Err(
                    Png2LvglError::Format(
                        FormatError::TooManyColors {
                            colors: unique_colors,
                            max_colors,
                            format: String::from_str(label(*format)),
                        },
                    ),
                );
            }
        },
        ColorFormat::Alpha1 | ColorFormat::Alpha2 | ColorFormat::Alpha4 | ColorFormat::Alpha8 => {
            let bit_depth = format_bit_depth(*format);
            if bit_depth < 8 {
                if img.bits_per_pixel > 4 * (bit_depth as u16) {
                    return Err(
                        Png2LvglError::Format(
                            FormatError::InvalidBitDepth {
                                depth: bit_depth,
                                format: String::from_str(label(*format)),
                            },
                        ),
                    );
                }
                if img.has_color {
                    warnings.push(FormatWarning::LossyAlpha);
                }
            }
        },
        _ => {},
    }
    proof {
        if !(is_alpha(*format) && bit_depth(*format) < 8 && img.has_color) {
            assert(warnings@ =~= seq![]);
        } else {
            assert(warnings@ =~= seq![FormatWarning::LossyAlpha]);
        }
    }
    Ok(warnings)
}

} // verus!
