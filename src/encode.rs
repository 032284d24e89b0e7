use crate::format::{levels, valid_bpp};
use crate::pixels::PixelBuffer;
use vstd::prelude::*;

verus! {

/// The byte segments of an encoded image: a palette (indexed formats only),
/// the pixel data, and an alpha plane (true color with alpha only), in the
/// order they are laid out.
pub struct EncodedImage {
    pub palette: Vec<u8>,
    pub pixels: Vec<u8>,
    pub alpha: Vec<u8>,
}

impl EncodedImage {
    /// The number of bytes in all segments together.
    pub open spec fn total_len(&self) -> nat {
        self.palette@.len() + self.pixels@.len() + self.alpha@.len()
    }

    /// The number of bytes in all segments together: the descriptor's
    /// `data_size`.
    pub fn data_size(&self) -> (n: usize)
        requires
            self.total_len() <= usize::MAX,
        ensures
            n == self.total_len(),
    {
        self.palette.len() + self.pixels.len() + self.alpha.len()
    }
}

/// RGB565: the top five bits of red, six of green and five of blue, in
/// that order from the most significant bit.
pub open spec fn rgb565(r: u8, g: u8, b: u8) -> u16 {
    (((r as u16) >> 3u16) << 11u16) | (((g as u16) >> 2u16) << 5u16) | ((b as u16) >> 3u16)
}

/// The two bytes of a 16-bit word in the requested byte order.
pub open spec fn word_bytes(v: u16, big_endian: bool) -> Seq<u8> {
    if big_endian {
        seq![(v >> 8u16) as u8, (v & 0xffu16) as u8]
    } else {
        seq![(v & 0xffu16) as u8, (v >> 8u16) as u8]
    }
}

pub open spec fn pixel_rgb565(img: PixelBuffer, i: int) -> u16 {
    rgb565(img.red(i), img.green(i), img.blue(i))
}

/// The color plane of a true-color image: two bytes per pixel.
pub open spec fn rgb565_plane(img: PixelBuffer, big_endian: bool) -> Seq<u8> {
    Seq::new(2 * img.num_pixels(), |k: int| word_bytes(pixel_rgb565(img, k / 2), big_endian)[k % 2])
}

/// The alpha plane: each pixel's alpha byte.
pub open spec fn alpha_plane(img: PixelBuffer) -> Seq<u8> {
    Seq::new(img.num_pixels(), |i: int| img.alpha(i))
}

/// Packs an 8-bit color into RGB565.
pub fn encode_rgb565(r: u8, g: u8, b: u8) -> (v: u16)
    ensures
        v == rgb565(r, g, b),
{
    let v: u16 = ((r as u16 & 0xF8) << 8) | ((g as u16 & 0xFC) << 3) | (b as u16 >> 3);
    let (r16, g16, b16) = (r as u16, g as u16, b as u16);
    assert(((r16 & 0xF8) << 8) | ((g16 & 0xFC) << 3) | (b16 >> 3) == ((r16 >> 3) << 11) | ((g16
        >> 2) << 5) | (b16 >> 3)) by (bit_vector)
        requires
            r16 < 256,
            g16 < 256,
            b16 < 256,
    ;
    v
}

/// Encodes every pixel as RGB565 in the given byte order; with `alpha`, the
/// alpha bytes follow as a separate plane.
pub fn encode_true_color(img: &PixelBuffer, alpha: bool, big_endian: bool) -> (e: EncodedImage)
    requires
        img.wf(),
    ensures
        e.palette@ == Seq::<u8>::empty(),
        e.pixels@ == rgb565_plane(*img, big_endian),
        e.alpha@ == (if alpha {
            alpha_plane(*img)
        } else {
            Seq::<u8>::empty()
        }),
{
    let n: usize = img.pixel_count();
    let len: usize = img.rgba.len();
    let mut rgb_data: Vec<u8> = Vec::new();
    let mut alpha_data: Vec<u8> = Vec::new();
    let mut i: usize = 0;
    while i < n
        invariant
            img.wf(),
            n == img.num_pixels(),
            img.rgba@.len() == len,
            i <= n,
            rgb_data@ =~= rgb565_plane(*img, big_endian).take(2 * i),
            alpha_data@ =~= (if alpha {
                alpha_plane(*img).take(i as int)
            } else {
                Seq::<u8>::empty()
            }),
        decreases n - i,
    {
        assert(4 * i + 3 < len);
        let rgb565 = encode_rgb565(img.rgba[4 * i], img.rgba[4 * i + 1], img.rgba[4 * i + 2]);
        let ghost before = rgb_data@;
        if big_endian {
            rgb_data.push((rgb565 >> 8) as u8);
            rgb_data.push((rgb565 & 0xFF) as u8);
        } else {
            rgb_data.push((rgb565 & 0xFF) as u8);
            rgb_data.push((rgb565 >> 8) as u8);
        }
        if alpha {
            alpha_data.push(img.rgba[4 * i + 3]);
        }
        proof {
            let plane = rgb565_plane(*img, big_endian);
            assert((2 * i as int) / 2 == i && (2 * i as int) % 2 == 0);
            assert((2 * i as int + 1) / 2 == i && (2 * i as int + 1) % 2 == 1);
            assert(plane.take(2 * i + 2) =~= before.push(plane[2 * i as int]).push(
                plane[2 * i + 1],
            ));
            if alpha {
                assert(alpha_plane(*img).take(i + 1) =~= alpha_plane(*img).take(i as int).push(
                    img.alpha(i as int),
                ));
            }
        }
        i = i + 1;
    }
    EncodedImage { palette: Vec::new(), pixels: rgb_data, alpha: alpha_data }
}

/// A luma value reduced to its top `bpp` bits.
pub open spec fn sample(l: u8, bpp: u8) -> u8 {
    l >> ((8 - bpp) as u8)
}

/// Each pixel's luma, in row-major order.
pub open spec fn lumas(img: PixelBuffer) -> Seq<u8> {
    Seq::new(img.num_pixels(), |i: int| img.luma(i))
}

/// Each pixel's luma reduced to `bpp` bits, in row-major order.
pub open spec fn samples(img: PixelBuffer, bpp: u8) -> Seq<u8> {
    Seq::new(img.num_pixels(), |i: int| sample(img.luma(i), bpp))
}

/// One byte holding `chunk`'s samples from the most significant bit down,
/// `bpp` bits each; unused low bits are zero.
pub open spec fn pack_chunk(chunk: Seq<u8>, bpp: u8) -> u8
    decreases chunk.len(),
{
    if chunk.len() == 0 {
        0
    } else {
        pack_chunk(chunk.drop_last(), bpp) | (chunk.last() << ((8 - bpp * chunk.len()) as u8))
    }
}

/// Samples per byte at `bpp` bits each.
pub open spec fn per_byte(bpp: u8) -> int {
    8int / (bpp as int)
}

/// The `k`-th group of `ppb` samples of a row; the last may be shorter.
pub open spec fn chunk_of(row: Seq<u8>, k: int, ppb: int) -> Seq<u8> {
    row.subrange(k * ppb, if (k + 1) * ppb <= row.len() { (k + 1) * ppb } else { row.len() as int })
}

/// `⌈a / d⌉`.
pub open spec fn ceil_div(a: int, d: int) -> int {
    (a + d - 1) / d
}

/// One row of samples packed MSB-first, `bpp` bits each, a partly filled
/// last byte padded with zero bits.
pub open spec fn pack_row(row: Seq<u8>, bpp: u8) -> Seq<u8> {
    Seq::new(
        ceil_div(row.len() as int, per_byte(bpp)) as nat,
        |k: int| pack_chunk(chunk_of(row, k, per_byte(bpp)), bpp),
    )
}

/// The first `rows` rows of `vals` (each `width` samples long), each packed
/// on its own and laid out one after the other.
pub open spec fn pack_rows(vals: Seq<u8>, width: nat, rows: nat, bpp: u8) -> Seq<u8>
    decreases rows,
{
    if rows == 0 {
        Seq::empty()
    } else {
        pack_rows(vals, width, (rows - 1) as nat, bpp) + pack_row(
            vals.subrange((rows - 1) * width as int, rows * width as int),
            bpp,
        )
    }
}

/// Palette entry `i` of a `bpp`-bit palette: gray `i · 255 / (2^bpp − 1)`.
pub open spec fn gray_level(i: nat, bpp: u8) -> u8 {
    (i * 255 / ((levels(bpp) - 1) as nat)) as u8
}

/// The grayscale palette: `2^bpp` RGBA entries from black to white, each
/// gray level in R, G and B and alpha 255.
pub open spec fn palette_bytes(bpp: u8) -> Seq<u8> {
    Seq::new(
        4 * levels(bpp),
        |k: int|
            if k % 4 == 3 {
                255u8
            } else {
                gray_level((k / 4) as nat, bpp)
            },
    )
}

proof fn lemma_row_bounds(y: int, width: int, height: int)
    requires
        0 <= y < height,
        0 <= width,
    ensures
        0 <= y * width,
        (y + 1) * width == y * width + width,
        y * width + width <= width * height,
{
    assert(y * width + width <= width * height) by (nonlinear_arith)
        requires
            0 <= y < height,
            0 <= width,
    ;
    assert(0 <= y * width) by (nonlinear_arith)
        requires
            0 <= y,
            0 <= width,
    ;
    assert((y + 1) * width == y * width + width) by (nonlinear_arith);
}

/// The full chunks before position `k · ppb` of a row are the first `k`
/// chunks, and the row has `k` chunks, or `k + 1` where `c` samples are left.
proof fn lemma_row_chunks(row: Seq<u8>, k: int, c: int, ppb: int)
    requires
        ppb > 0,
        k >= 0,
        0 <= c < ppb,
        row.len() == k * ppb + c,
    ensures
        ceil_div(row.len() as int, ppb) == if c == 0 { k } else { k + 1 },
        forall|j: int|
            0 <= j < k ==> #[trigger] chunk_of(row, j, ppb) == row.subrange(j * ppb, (j + 1) * ppb),
        c != 0 ==> chunk_of(row, k, ppb) == row.subrange(k * ppb, row.len() as int),
{
    let len = row.len() as int;
    assert(ceil_div(len, ppb) == if c == 0 { k } else { k + 1 }) by {
        if c == 0 {
            assert(len + ppb - 1 == k * ppb + (ppb - 1));
            vstd::arithmetic::div_mod::lemma_fundamental_div_mod_converse(len + ppb - 1, ppb, k, ppb - 1);
        } else {
            assert(len + ppb - 1 == (k + 1) * ppb + (c - 1)) by (nonlinear_arith)
                requires
                    len == k * ppb + c,
            ;
            vstd::arithmetic::div_mod::lemma_fundamental_div_mod_converse(len + ppb - 1, ppb, k + 1, c - 1);
        }
    }
    assert forall|j: int| 0 <= j < k implies #[trigger] chunk_of(row, j, ppb) == row.subrange(
        j * ppb,
        (j + 1) * ppb,
    ) by {
        assert((j + 1) * ppb <= k * ppb) by (nonlinear_arith)
            requires
                0 <= j < k,
                ppb > 0,
        ;
    }
    assert((k + 1) * ppb == k * ppb + ppb) by (nonlinear_arith);
}

/// Packs `height` rows of `width` samples, `bpp` bits each, MSB-first; every
/// row starts on a fresh byte.
pub fn pack_samples(vals: &Vec<u8>, width: usize, height: usize, bpp: u8) -> (data: Vec<u8>)
    requires
        vals@.len() == width * height,
        valid_bpp(bpp),
    ensures
        data@ == pack_rows(vals@, width as nat, height as nat, bpp),
{
    let ghost ppb = per_byte(bpp);
    assert(bpp * ppb == 8 && ppb > 0);
    let total: usize = vals.len();
    let mut data: Vec<u8> = Vec::new();
    let mut y: usize = 0;
    while y < height
        invariant
            vals@.len() == width * height,
            total == width * height,
            valid_bpp(bpp),
            ppb == per_byte(bpp),
            bpp * ppb == 8,
            ppb > 0,
            y <= height,
            data@ == pack_rows(vals@, width as nat, y as nat, bpp),
        decreases height - y,
    {
        let ghost base = data@;
        proof {
            lemma_row_bounds(y as int, width as int, height as int);
        }
        let ghost row = vals@.subrange(y * width, y * width + width);
        let row_start: usize = y * width;
        let mut byte: u8 = 0;
        let mut shift: u8 = 8 - bpp;
        let ghost mut k: int = 0;
        let ghost mut c: int = 0;
        let mut x: usize = 0;
        while x < width
            invariant
                vals@.len() == width * height,
                total == width * height,
                y * width + width <= width * height,
                0 <= y * width,
                valid_bpp(bpp),
                ppb == per_byte(bpp),
                bpp * ppb == 8,
                ppb > 0,
                y < height,
                row_start == y * width,
                row == vals@.subrange(y * width, y * width + width),
                x <= width,
                k >= 0,
                0 <= c < ppb,
                x == k * ppb + c,
                shift == 8 - bpp * (c + 1),
                byte == pack_chunk(row.subrange(k * ppb, x as int), bpp),
                data@ == base + Seq::new(
                    k as nat,
                    |j: int| pack_chunk(row.subrange(j * ppb, (j + 1) * ppb), bpp),
                ),
            decreases width - x,
        {
            assert(shift < 8) by (nonlinear_arith)
                requires
                    shift == 8 - bpp * (c + 1),
                    bpp > 0,
                    c >= 0,
            ;
            let v: u8 = vals[row_start + x];
            proof {
                let chunk = row.subrange(k * ppb, x + 1);
                assert(chunk.drop_last() =~= row.subrange(k * ppb, x as int));
                assert(chunk.last() == v);
                assert(chunk.len() == c + 1);
            }
            byte = byte | (v << shift);
            let ghost chunks = Seq::new(
                k as nat,
                |j: int| pack_chunk(row.subrange(j * ppb, (j + 1) * ppb), bpp),
            );
            if shift == 0 {
                assert(c + 1 == ppb) by {
                    assert(bpp * (ppb - (c + 1)) == 0) by (nonlinear_arith)
                        requires
                            bpp * ppb == 8,
                            shift == 8 - bpp * (c + 1),
                            shift == 0,
                    ;
                    assert(ppb - (c + 1) == 0) by (nonlinear_arith)
                        requires
                            bpp * (ppb - (c + 1)) == 0,
                            bpp > 0,
                    ;
                }
                data.push(byte);
                proof {
                    assert((k + 1) * ppb == x + 1) by (nonlinear_arith)
                        requires
                            x == k * ppb + c,
                            c + 1 == ppb,
                    ;
                    assert(Seq::new(
                        (k + 1) as nat,
                        |j: int| pack_chunk(row.subrange(j * ppb, (j + 1) * ppb), bpp),
                    ) =~= chunks.push(byte));
                    k = k + 1;
                    c = 0;
                    assert(row.subrange(k * ppb, x + 1) =~= Seq::<u8>::empty());
                }
                byte = 0;
                shift = 8 - bpp;
                assert(shift == 8 - bpp * (c + 1));
            } else {
                assert(c + 1 < ppb) by {
                    assert(bpp * (ppb - (c + 1)) > 0) by (nonlinear_arith)
                        requires
                            bpp * ppb == 8,
                            shift == 8 - bpp * (c + 1),
                            shift != 0,
                            shift < 8,
                    ;
                    assert(ppb - (c + 1) > 0) by (nonlinear_arith)
                        requires
                            bpp * (ppb - (c + 1)) > 0,
                            bpp > 0,
                    ;
                }
                assert(shift >= bpp) by (nonlinear_arith)
                    requires
                        shift == 8 - bpp * (c + 1),
                        bpp * ppb == 8,
                        c + 1 < ppb,
                        bpp > 0,
                ;
                shift = shift - bpp;
                proof {
                    assert(shift == 8 - bpp * (c + 2)) by (nonlinear_arith)
                        requires
                            shift == 8 - bpp * (c + 1) - bpp,
                    ;
                    c = c + 1;
                }
            }
            x = x + 1;
        }
        proof {
            lemma_row_chunks(row, k, c, ppb);
        }
        let ghost chunks = Seq::new(
            k as nat,
            |j: int| pack_chunk(row.subrange(j * ppb, (j + 1) * ppb), bpp),
        );
        if shift != 8 - bpp {
            assert(c != 0);
            data.push(byte);
            assert(data@ =~= base + chunks.push(byte));
            assert(chunks.push(byte) =~= pack_row(row, bpp));
        } else {
            assert(c == 0) by (nonlinear_arith)
                requires
                    shift == 8 - bpp * (c + 1),
                    shift == 8 - bpp,
                    bpp > 0,
            ;
            assert(chunks =~= pack_row(row, bpp));
        }
        proof {
            lemma_row_bounds(y as int, width as int, height as int);
            assert(pack_rows(vals@, width as nat, (y + 1) as nat, bpp) == base + pack_row(row, bpp));
        }
        y = y + 1;
    }
    data
}

/// The grayscale palette of a `bpp`-bit indexed image.
pub fn build_palette(bpp: u8) -> (palette: Vec<u8>)
    requires
        valid_bpp(bpp),
    ensures
        palette@ == palette_bytes(bpp),
{
    let palette_size: u32 = 1u32 << (bpp as u32);
    assert(palette_size == levels(bpp)) by {
        assert(1u32 << 1u32 == 2) by (bit_vector);
        assert(1u32 << 2u32 == 4) by (bit_vector);
        assert(1u32 << 4u32 == 16) by (bit_vector);
        assert(1u32 << 8u32 == 256) by (bit_vector);
    }
    let mut palette: Vec<u8> = Vec::new();
    let mut i: u32 = 0;
    while i < palette_size
        invariant
            valid_bpp(bpp),
            palette_size == levels(bpp),
            i <= palette_size,
            palette@ =~= palette_bytes(bpp).take(4 * i),
        decreases palette_size - i,
    {
        assert(i * 255 / (palette_size - 1) <= 255) by {
            assert(i * 255 <= (palette_size - 1) * 255) by (nonlinear_arith)
                requires
                    i < palette_size,
            ;
            vstd::arithmetic::div_mod::lemma_div_is_ordered(
                (i * 255) as int,
                ((palette_size - 1) * 255) as int,
                (palette_size - 1) as int,
            );
            vstd::arithmetic::div_mod::lemma_div_by_multiple(255, (palette_size - 1) as int);
            assert((palette_size - 1) * 255 == 255 * (palette_size - 1)) by (nonlinear_arith);
        }
        let v: u8 = (i * 255 / (palette_size - 1)) as u8;
        let ghost before = palette@;
        palette.push(v);
        palette.push(v);
        palette.push(v);
        palette.push(0xff);
        proof {
            let all = palette_bytes(bpp);
            let b = 4 * i as int;
            assert(b / 4 == i && b % 4 == 0);
            assert((b + 1) / 4 == i && (b + 1) % 4 == 1);
            assert((b + 2) / 4 == i && (b + 2) % 4 == 2);
            assert((b + 3) / 4 == i && (b + 3) % 4 == 3);
            assert(all.take(b + 4) =~= before.push(all[b]).push(all[b + 1]).push(all[b + 2]).push(
                all[b + 3],
            ));
        }
        i = i + 1;
    }
    palette
}

/// Each pixel's luma, in row-major order.
pub fn luma_values(img: &PixelBuffer) -> (vals: Vec<u8>)
    requires
        img.wf(),
    ensures
        vals@ == lumas(*img),
{
    let n: usize = img.pixel_count();
    let mut vals: Vec<u8> = Vec::new();
    let mut i: usize = 0;
    while i < n
        invariant
            img.wf(),
            n == img.num_pixels(),
            i <= n,
            vals@ =~= lumas(*img).take(i as int),
        decreases n - i,
    {
        vals.push(img.luma_at(i));
        assert(lumas(*img).take(i + 1) =~= lumas(*img).take(i as int).push(img.luma(i as int)));
        i = i + 1;
    }
    vals
}

/// Each pixel's luma reduced to its top `bpp` bits, in row-major order.
pub fn sample_values(img: &PixelBuffer, bpp: u8) -> (vals: Vec<u8>)
    requires
        img.wf(),
        valid_bpp(bpp),
    ensures
        vals@ == samples(*img, bpp),
{
    let n: usize = img.pixel_count();
    let mut vals: Vec<u8> = Vec::new();
    let mut i: usize = 0;
    while i < n
        invariant
            img.wf(),
            valid_bpp(bpp),
            n == img.num_pixels(),
            i <= n,
            vals@ =~= samples(*img, bpp).take(i as int),
        decreases n - i,
    {
        let l = img.luma_at(i);
        vals.push(l >> (8 - bpp));
        assert(samples(*img, bpp).take(i + 1) =~= samples(*img, bpp).take(i as int).push(
            sample(img.luma(i as int), bpp),
        ));
        i = i + 1;
    }
    vals
}

/// Encodes the image as `bpp`-bit indices into a grayscale palette: the
/// palette, then each pixel's luma reduced to `bpp` bits, packed row by row.
pub fn encode_indexed(img: &PixelBuffer, bpp: u8) -> (e: EncodedImage)
    requires
        img.wf(),
        valid_bpp(bpp),
    ensures
        e.palette@ == palette_bytes(bpp),
        e.pixels@ == pack_rows(samples(*img, bpp), img.width as nat, img.height as nat, bpp),
        e.alpha@ == Seq::<u8>::empty(),
{
    let palette = build_palette(bpp);
    let vals = sample_values(img, bpp);
    let data = pack_samples(&vals, img.width as usize, img.height as usize, bpp);
    EncodedImage { palette, pixels: data, alpha: Vec::new() }
}

/// Encodes the image's luma as alpha: one byte per pixel at 8 bits, else
/// the top `bpp` bits of each, packed row by row.
pub fn encode_alpha(img: &PixelBuffer, bpp: u8) -> (e: EncodedImage)
    requires
        img.wf(),
        valid_bpp(bpp),
    ensures
        e.palette@ == Seq::<u8>::empty(),
        e.pixels@ == (if bpp == 8 {
            lumas(*img)
        } else {
            pack_rows(samples(*img, bpp), img.width as nat, img.height as nat, bpp)
        }),
        e.alpha@ == Seq::<u8>::empty(),
{
    let data = if bpp == 8 {
        luma_values(img)
    } else {
        let vals = sample_values(img, bpp);
        pack_samples(&vals, img.width as usize, img.height as usize, bpp)
    };
    EncodedImage { palette: Vec::new(), pixels: data, alpha: Vec::new() }
}

/// Bytes that one packed row of `width` samples at `bpp` bits takes:
/// `⌈width · bpp / 8⌉`.
pub open spec fn row_bytes(width: nat, bpp: u8) -> nat {
    (width * bpp as nat + 7) / 8
}

/// A packed row is never longer than its samples.
pub proof fn lemma_row_bytes_bound(width: nat, height: nat, bpp: u8)
    requires
        valid_bpp(bpp),
    ensures
        row_bytes(width, bpp) <= width,
        height * row_bytes(width, bpp) <= height * width,
{
    assert(width * bpp as nat + 7 <= 8 * width + 7) by (nonlinear_arith)
        requires
            bpp <= 8,
    ;
    vstd::arithmetic::div_mod::lemma_div_is_ordered(
        (width * bpp as nat + 7) as int,
        (8 * width + 7) as int,
        8,
    );
    vstd::arithmetic::div_mod::lemma_fundamental_div_mod_converse(
        (8 * width + 7) as int,
        8,
        width as int,
        7,
    );
    assert(height * row_bytes(width, bpp) <= height * width) by (nonlinear_arith)
        requires
            row_bytes(width, bpp) <= width,
    ;
}

/// A packed row of `w` samples at `b` bits takes `⌈w · b / 8⌉` bytes.
pub proof fn lemma_pack_row_len(row: Seq<u8>, bpp: u8)
    requires
        valid_bpp(bpp),
    ensures
        pack_row(row, bpp).len() == row_bytes(row.len(), bpp),
{
    let len = row.len() as int;
    let ppb = per_byte(bpp);
    let q = (len + ppb - 1) / ppb;
    let r = (len + ppb - 1) % ppb;
    vstd::arithmetic::div_mod::lemma_fundamental_div_mod(len + ppb - 1, ppb);
    assert(len * bpp + 7 == 8 * q + (bpp * (r + 1) - 1) && 0 <= bpp * (r + 1) - 1 < 8) by (
    nonlinear_arith)
        requires
            len + ppb - 1 == ppb * q + r,
            0 <= r < ppb,
            bpp * ppb == 8,
            bpp >= 1,
    ;
    vstd::arithmetic::div_mod::lemma_fundamental_div_mod_converse(
        len * bpp + 7,
        8,
        q,
        bpp * (r + 1) - 1,
    );
}

/// `height` packed rows of `width` samples take `height · ⌈width · bpp / 8⌉`
/// bytes.
pub proof fn lemma_pack_rows_len(vals: Seq<u8>, width: nat, height: nat, bpp: u8)
    requires
        valid_bpp(bpp),
        height * width <= vals.len(),
    ensures
        pack_rows(vals, width, height, bpp).len() == height * row_bytes(width, bpp),
    decreases height,
{
    if height > 0 {
        assert((height - 1) * width + width == height * width) by (nonlinear_arith);
        assert((height - 1) * width <= height * width) by (nonlinear_arith);
        lemma_pack_rows_len(vals, width, (height - 1) as nat, bpp);
        lemma_pack_row_len(
            vals.subrange((height - 1) * width as int, height * width as int),
            bpp,
        );
        assert((height - 1) * row_bytes(width, bpp) + row_bytes(width, bpp) == height * row_bytes(
            width,
            bpp,
        )) by (nonlinear_arith);
        assert(pack_rows(vals, width, height, bpp) == pack_rows(vals, width, (height - 1) as nat, bpp)
            + pack_row(vals.subrange((height - 1) * width as int, height * width as int), bpp));
    } else {
        assert(height * row_bytes(width, bpp) == 0) by (nonlinear_arith)
            requires
                height == 0,
        ;
    }
}

/// Rows are packed independently: the bytes of row `r` are the packing of
/// row `r`'s samples alone, so no bits of one row reach another row's
/// bytes.
pub proof fn lemma_rows_independent(vals: Seq<u8>, width: nat, height: nat, bpp: u8, r: nat)
    requires
        valid_bpp(bpp),
        height * width <= vals.len(),
        r < height,
    ensures
        ({
            let rb = row_bytes(width, bpp);
            pack_rows(vals, width, height, bpp).subrange(r * rb as int, (r + 1) * rb as int)
                == pack_row(vals.subrange(r * width as int, (r + 1) * width as int), bpp)
        }),
    decreases height,
{
    let rb = row_bytes(width, bpp);
    assert((height - 1) * width + width == height * width) by (nonlinear_arith);
    assert((height - 1) * width <= height * width) by (nonlinear_arith);
    lemma_pack_rows_len(vals, width, (height - 1) as nat, bpp);
    let prefix = pack_rows(vals, width, (height - 1) as nat, bpp);
    let last = pack_row(vals.subrange((height - 1) * width as int, height * width as int), bpp);
    lemma_pack_row_len(vals.subrange((height - 1) * width as int, height * width as int), bpp);
    assert(pack_rows(vals, width, height, bpp) == prefix + last);
    if r == height - 1 {
        assert((prefix + last).subrange(r * rb as int, (r + 1) * rb as int) =~= last) by {
            assert((r + 1) * rb == r * rb + rb) by (nonlinear_arith);
        }
    } else {
        lemma_rows_independent(vals, width, (height - 1) as nat, bpp, r);
        assert((r + 1) * rb <= (height - 1) * rb) by (nonlinear_arith)
            requires
                r + 1 <= height - 1,
        ;
        assert(r * rb <= (r + 1) * rb) by (nonlinear_arith);
        assert((prefix + last).subrange(r * rb as int, (r + 1) * rb as int) =~= prefix.subrange(
            r * rb as int,
            (r + 1) * rb as int,
        ));
    }
}

/// The 16-bit word stored in two bytes of the given byte order.
pub open spec fn decode_word(b0: u8, b1: u8, big_endian: bool) -> u16 {
    if big_endian {
        ((b0 as u16) << 8u16) | (b1 as u16)
    } else {
        ((b1 as u16) << 8u16) | (b0 as u16)
    }
}

/// The red field of an RGB565 word, widened back to 8 bits.
pub open spec fn expand_red(v: u16) -> u8 {
    ((v >> 11u16) << 3u16) as u8
}

/// The green field of an RGB565 word, widened back to 8 bits.
pub open spec fn expand_green(v: u16) -> u8 {
    (((v >> 5u16) & 0x3fu16) << 2u16) as u8
}

/// The blue field of an RGB565 word, widened back to 8 bits.
pub open spec fn expand_blue(v: u16) -> u8 {
    ((v & 0x1fu16) << 3u16) as u8
}

proof fn lemma_rgb565_bits(r: u16, g: u16, b: u16)
    requires
        r < 256,
        g < 256,
        b < 256,
    ensures
        ({
            let w = ((r >> 3) << 11) | ((g >> 2) << 5) | (b >> 3);
            &&& (w >> 11) << 3 == r - (r & 7)
            &&& ((w >> 5) & 0x3f) << 2 == g - (g & 3)
            &&& (w & 0x1f) << 3 == b - (b & 7)
            &&& (w >> 8) < 256
            &&& ((w >> 8) << 8) | (w & 0xff) == w
        }),
{
    assert({
        let w = ((r >> 3) << 11) | ((g >> 2) << 5) | (b >> 3);
        &&& (w >> 11) << 3 == r - (r & 7)
        &&& ((w >> 5) & 0x3f) << 2 == g - (g & 3)
        &&& (w & 0x1f) << 3 == b - (b & 7)
        &&& (w >> 8) < 256
        &&& ((w >> 8) << 8) | (w & 0xff) == w
    }) by (bit_vector)
        requires
            r < 256,
            g < 256,
            b < 256,
    ;
    assert(r & 7 == r % 8) by (bit_vector);
}

/// Decoding pixel `i`'s two bytes in the stated byte order and widening each
/// field back to 8 bits gives the source channels with the bits that RGB565
/// drops cleared: red and blue lose at most 7, green at most 3.
pub proof fn lemma_rgb565_round_trip(img: PixelBuffer, i: int, big_endian: bool)
    requires
        img.wf(),
        0 <= i < img.num_pixels(),
    ensures
        ({
            let plane = rgb565_plane(img, big_endian);
            let v = decode_word(plane[2 * i], plane[2 * i + 1], big_endian);
            &&& expand_red(v) == img.red(i) - img.red(i) % 8
            &&& expand_green(v) == img.green(i) - img.green(i) % 4
            &&& expand_blue(v) == img.blue(i) - img.blue(i) % 8
        }),
{
    let plane = rgb565_plane(img, big_endian);
    let (r, g, b) = (img.red(i) as u16, img.green(i) as u16, img.blue(i) as u16);
    let w = pixel_rgb565(img, i);
    assert((2 * i) / 2 == i && (2 * i) % 2 == 0);
    assert((2 * i + 1) / 2 == i && (2 * i + 1) % 2 == 1);
    assert(plane[2 * i] == word_bytes(w, big_endian)[0]);
    assert(plane[2 * i + 1] == word_bytes(w, big_endian)[1]);
    lemma_rgb565_bits(r, g, b);
    assert(r & 7 == r % 8) by (bit_vector);
    assert(g & 3 == g % 4) by (bit_vector);
    assert(b & 7 == b % 8) by (bit_vector);
    assert(w & 0xff < 256) by (bit_vector);
    assert(decode_word(plane[2 * i], plane[2 * i + 1], big_endian) == w);
}

/// Where the bits that RGB565 drops are small (at most 4 in red and blue,
/// at most 2 in green), the decoded channels are within 4, 2 and 4 of the
/// source.
pub proof fn lemma_rgb565_error_bound(img: PixelBuffer, i: int, big_endian: bool)
    requires
        img.wf(),
        0 <= i < img.num_pixels(),
        img.red(i) % 8 <= 4,
        img.green(i) % 4 <= 2,
        img.blue(i) % 8 <= 4,
    ensures
        ({
            let plane = rgb565_plane(img, big_endian);
            let v = decode_word(plane[2 * i], plane[2 * i + 1], big_endian);
            &&& expand_red(v) <= img.red(i) <= expand_red(v) + 4
            &&& expand_green(v) <= img.green(i) <= expand_green(v) + 2
            &&& expand_blue(v) <= img.blue(i) <= expand_blue(v) + 4
        }),
{
    lemma_rgb565_round_trip(img, i, big_endian);
}

proof fn lemma_levels_pow2(bpp: u8)
    requires
        valid_bpp(bpp),
    ensures
        levels(bpp) == vstd::arithmetic::power2::pow2(bpp as nat),
{
    vstd::arithmetic::power2::lemma2_to64();
}

proof fn lemma_gray_monotone(bpp: u8, i: int, j: int)
    requires
        valid_bpp(bpp),
        0 <= i <= j < levels(bpp),
    ensures
        gray_level(i as nat, bpp) <= gray_level(j as nat, bpp),
        gray_level(j as nat, bpp) as int == j * 255 / (levels(bpp) - 1),
{
    let last = levels(bpp) - 1;
    assert(i * 255 <= j * 255) by (nonlinear_arith)
        requires
            i <= j,
    ;
    vstd::arithmetic::div_mod::lemma_div_is_ordered(i * 255, j * 255, last as int);
    assert(j * 255 <= last * 255) by (nonlinear_arith)
        requires
            j <= last,
    ;
    vstd::arithmetic::div_mod::lemma_div_is_ordered(j * 255, last * 255, last as int);
    vstd::arithmetic::div_mod::lemma_div_by_multiple(255, last as int);
    assert(last * 255 == 255 * last) by (nonlinear_arith);
    assert(0 <= i * 255) by (nonlinear_arith)
        requires
            0 <= i,
    ;
    vstd::arithmetic::div_mod::lemma_div_pos_is_pos(i * 255, last as int);
}

proof fn lemma_palette_entry(bpp: u8, i: int)
    requires
        valid_bpp(bpp),
        0 <= i < levels(bpp),
    ensures
        palette_bytes(bpp).subrange(4 * i, 4 * i + 4) == seq![
            gray_level(i as nat, bpp),
            gray_level(i as nat, bpp),
            gray_level(i as nat, bpp),
            255u8,
        ],
{
    assert((4 * i) / 4 == i && (4 * i) % 4 == 0);
    assert((4 * i + 1) / 4 == i && (4 * i + 1) % 4 == 1);
    assert((4 * i + 2) / 4 == i && (4 * i + 2) % 4 == 2);
    assert((4 * i + 3) / 4 == i && (4 * i + 3) % 4 == 3);
    assert(palette_bytes(bpp).subrange(4 * i, 4 * i + 4) =~= seq![
        gray_level(i as nat, bpp),
        gray_level(i as nat, bpp),
        gray_level(i as nat, bpp),
        255u8,
    ]);
}

/// The grayscale palette has `2^bpp` four-byte entries; entry 0 is opaque
/// black, the last is opaque white, every entry is an opaque gray, and the
/// grays never decrease with the index.
pub proof fn lemma_palette_shape(bpp: u8)
    requires
        valid_bpp(bpp),
    ensures
        palette_bytes(bpp).len() == 4 * vstd::arithmetic::power2::pow2(bpp as nat),
        palette_bytes(bpp).subrange(0, 4) == seq![0u8, 0u8, 0u8, 255u8],
        palette_bytes(bpp).subrange(4 * (levels(bpp) - 1), 4 * levels(bpp) as int) == seq![
            255u8,
            255u8,
            255u8,
            255u8,
        ],
        forall|i: int|
            0 <= i < levels(bpp) ==> #[trigger] palette_bytes(bpp).subrange(4 * i, 4 * i + 4)
                == seq![
                gray_level(i as nat, bpp),
                gray_level(i as nat, bpp),
                gray_level(i as nat, bpp),
                255u8,
            ],
        forall|i: int, j: int|
            0 <= i <= j < levels(bpp) ==> #[trigger] gray_level(i as nat, bpp)
                <= #[trigger] gray_level(j as nat, bpp),
{
    let last = levels(bpp) - 1;
    lemma_levels_pow2(bpp);
    assert forall|i: int| 0 <= i < levels(bpp) implies #[trigger] palette_bytes(bpp).subrange(
        4 * i,
        4 * i + 4,
    ) == seq![gray_level(i as nat, bpp), gray_level(i as nat, bpp), gray_level(i as nat, bpp), 255u8] by {
        lemma_palette_entry(bpp, i);
    }
    assert forall|i: int, j: int| 0 <= i <= j < levels(bpp) implies #[trigger] gray_level(
        i as nat,
        bpp,
    ) <= #[trigger] gray_level(j as nat, bpp) by {
        lemma_gray_monotone(bpp, i, j);
    }
    lemma_palette_entry(bpp, 0);
    lemma_palette_entry(bpp, last);
    lemma_gray_monotone(bpp, 0, 0);
    lemma_gray_monotone(bpp, 0, last);
    vstd::arithmetic::div_mod::lemma_div_by_multiple(255, last as int);
    assert(last * 255 == 255 * last) by (nonlinear_arith);
}

} // verus!
