use png2lvgl::encode::{
    build_palette, encode_alpha, encode_indexed, encode_rgb565, encode_true_color, luma_values,
    pack_samples, sample_values,
};
use png2lvgl::pixels::PixelBuffer;

fn opaque(width: u32, height: u32, rgb: &[(u8, u8, u8)]) -> PixelBuffer {
    let mut bytes = Vec::new();
    for &(r, g, b) in rgb {
        bytes.extend_from_slice(&[r, g, b, 255]);
    }
    PixelBuffer::new(width, height, bytes, false, true, 24).unwrap()
}

fn gray_row(levels: &[u8]) -> PixelBuffer {
    let rgb: Vec<(u8, u8, u8)> = levels.iter().map(|&v| (v, v, v)).collect();
    opaque(levels.len() as u32, 1, &rgb)
}

#[test]
fn red_and_green_true_color_little_endian() {
    let img = opaque(2, 1, &[(255, 0, 0), (0, 255, 0)]);
    let e = encode_true_color(&img, false, false);
    assert_eq!(e.pixels, vec![0x00, 0xf8, 0xe0, 0x07]);
    assert!(e.palette.is_empty());
    assert!(e.alpha.is_empty());
    assert_eq!(e.data_size(), 4);
}

#[test]
fn red_and_green_true_color_big_endian() {
    let img = opaque(2, 1, &[(255, 0, 0), (0, 255, 0)]);
    let e = encode_true_color(&img, false, true);
    assert_eq!(e.pixels, vec![0xf8, 0x00, 0x07, 0xe0]);
}

#[test]
fn true_color_alpha_appends_alpha_plane() {
    let bytes = vec![255, 255, 255, 10, 0, 0, 0, 200];
    let img = PixelBuffer::new(2, 1, bytes, true, true, 32).unwrap();
    let e = encode_true_color(&img, true, false);
    assert_eq!(e.pixels, vec![0xff, 0xff, 0x00, 0x00]);
    assert_eq!(e.alpha, vec![10, 200]);
    assert_eq!(e.data_size(), 6);
}

#[test]
fn rgb565_packs_top_bits() {
    assert_eq!(encode_rgb565(255, 0, 0), 0xf800);
    assert_eq!(encode_rgb565(0, 255, 0), 0x07e0);
    assert_eq!(encode_rgb565(0, 0, 255), 0x001f);
    assert_eq!(encode_rgb565(0x12, 0x34, 0x56), (0x12 >> 3) << 11 | (0x34 >> 2) << 5 | 0x56 >> 3);
}

#[test]
fn rgb565_round_trip_error() {
    for &(r, g, b) in &[(0u8, 0u8, 0u8), (255, 255, 255), (100, 150, 200), (7, 3, 7), (12, 130, 44)] {
        let v = encode_rgb565(r, g, b);
        let (r2, g2, b2) = (((v >> 11) << 3) as u8, (((v >> 5) & 0x3f) << 2) as u8, ((v & 0x1f) << 3) as u8);
        assert_eq!(r2, r & 0xf8);
        assert_eq!(g2, g & 0xfc);
        assert_eq!(b2, b & 0xf8);
        if r % 8 <= 4 && g % 4 <= 2 && b % 8 <= 4 {
            assert!(r - r2 <= 4 && g - g2 <= 2 && b - b2 <= 4);
        }
    }
}

#[test]
fn white_pixel_alpha1_is_top_bit() {
    let img = opaque(1, 1, &[(255, 255, 255)]);
    let e = encode_alpha(&img, 1);
    assert_eq!(e.pixels, vec![0x80]);
    assert_eq!(e.data_size(), 1);
}

#[test]
fn alpha8_is_one_luma_byte_per_pixel() {
    let img = gray_row(&[0, 17, 128, 255]);
    let e = encode_alpha(&img, 8);
    assert_eq!(e.pixels, vec![0, 17, 128, 255]);
}

#[test]
fn luma_uses_srgb_weights() {
    let img = opaque(3, 1, &[(10, 200, 30), (255, 0, 0), (0, 0, 255)]);
    // (2126 r + 7152 g + 722 b) / 10000
    assert_eq!(luma_values(&img), vec![147, 54, 18]);
}

#[test]
fn samples_keep_top_bits() {
    let img = gray_row(&[0xff, 0x80, 0x7f, 0x00]);
    assert_eq!(sample_values(&img, 1), vec![1, 1, 0, 0]);
    assert_eq!(sample_values(&img, 2), vec![3, 2, 1, 0]);
    assert_eq!(sample_values(&img, 4), vec![15, 8, 7, 0]);
}

#[test]
fn palette_two_bit() {
    let p = build_palette(2);
    assert_eq!(
        p,
        vec![0, 0, 0, 255, 85, 85, 85, 255, 170, 170, 170, 255, 255, 255, 255, 255]
    );
}

#[test]
fn palette_sizes_and_ends() {
    for &(bpp, entries) in &[(1u8, 2usize), (2, 4), (4, 16), (8, 256)] {
        let p = build_palette(bpp);
        assert_eq!(p.len(), 4 * entries);
        assert_eq!(&p[0..4], &[0, 0, 0, 255]);
        assert_eq!(&p[p.len() - 4..], &[255, 255, 255, 255]);
        for i in 1..entries {
            assert!(p[4 * i] >= p[4 * (i - 1)]);
            assert_eq!(p[4 * i], p[4 * i + 1]);
            assert_eq!(p[4 * i], p[4 * i + 2]);
            assert_eq!(p[4 * i + 3], 255);
        }
    }
}

#[test]
fn packing_rows_do_not_share_bytes() {
    // two rows of three 1-bit samples: each row gets its own byte
    let vals = vec![1, 0, 1, 0, 1, 1];
    assert_eq!(pack_samples(&vals, 3, 2, 1), vec![0b1010_0000, 0b0110_0000]);
    // 2-bit samples, five per row: two bytes per row
    let vals = vec![3, 2, 1, 0, 3, 1, 1, 1, 1, 1];
    assert_eq!(pack_samples(&vals, 5, 2, 2), vec![0b1110_0100, 0b1100_0000, 0b0101_0101, 0b0100_0000]);
    // 4-bit samples, three per row
    let vals = vec![0xa, 0xb, 0xc];
    assert_eq!(pack_samples(&vals, 3, 1, 4), vec![0xab, 0xc0]);
}

#[test]
fn packed_row_length_is_ceiling() {
    for &bpp in &[1u8, 2, 4, 8] {
        for w in 1usize..20 {
            let vals = vec![0u8; w * 3];
            let data = pack_samples(&vals, w, 3, bpp);
            assert_eq!(data.len(), 3 * ((w * bpp as usize + 7) / 8));
        }
    }
}

#[test]
fn indexed_data_size_counts_palette() {
    let img = gray_row(&[0, 255, 255]);
    let e = encode_indexed(&img, 1);
    assert_eq!(e.palette.len(), 8);
    assert_eq!(e.pixels, vec![0b0110_0000]);
    assert_eq!(e.data_size(), 9);
    let e = encode_indexed(&img, 4);
    assert_eq!(e.palette.len(), 64);
    assert_eq!(e.pixels, vec![0x0f, 0xf0]);
    assert_eq!(e.data_size(), 66);
}
