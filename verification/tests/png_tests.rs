use scampii::frame::{FRAMES, FRAME_COUNT};
use scampii::iterm::{adler32, crc32, encode_png};
use scampii::png::{
    base64_encode, emoji_fits_memory, rasterise, render_all_emoji, render_all_frames,
    render_emoji, render_png, zlib_store, PNG_SIGNATURE,
};
use scampii::raster::{CROP_H, CROP_W, MAX_SCALE};
use scampii::theme::Theme;

fn be32(b: &[u8]) -> u32 {
    u32::from_be_bytes([b[0], b[1], b[2], b[3]])
}

#[test]
fn png_base64_rfc_vectors() {
    let cases: &[(&[u8], &str)] = &[
        (b"", ""),
        (b"f", "Zg=="),
        (b"fo", "Zm8="),
        (b"foo", "Zm9v"),
        (b"foob", "Zm9vYg=="),
        (b"fooba", "Zm9vYmE="),
        (b"foobar", "Zm9vYmFy"),
    ];
    for &(input, expected) in cases {
        let mut out = Vec::new();
        base64_encode(input, &mut out);
        assert_eq!(
            std::str::from_utf8(&out).unwrap(),
            expected,
            "base64 mismatch for {:?}",
            std::str::from_utf8(input).unwrap()
        );
    }
}

#[test]
fn png_rasterise_dimensions_scale_1() {
    let theme = Theme::classic();
    let (rgba, w, h) = rasterise(&FRAMES[0], &theme, 1);
    assert_eq!(w, CROP_W as u32);
    assert_eq!(h, CROP_H as u32);
    assert_eq!(rgba.len(), (w as usize) * (h as usize) * 4);
}

#[test]
fn png_rasterise_dimensions_scale_2() {
    let theme = Theme::classic();
    let (rgba, w, h) = rasterise(&FRAMES[0], &theme, 2);
    assert_eq!(w, (CROP_W * 2) as u32);
    assert_eq!(h, (CROP_H * 2) as u32);
    assert_eq!(rgba.len(), (w as usize) * (h as usize) * 4);
}

#[test]
fn png_rasterise_clamps_excessive_scale() {
    let theme = Theme::classic();
    let (rgba, w, h) = rasterise(&FRAMES[0], &theme, 255);
    assert_eq!(w, (CROP_W * MAX_SCALE as usize) as u32);
    assert_eq!(h, (CROP_H * MAX_SCALE as usize) as u32);
    assert_eq!(rgba.len(), (w as usize) * (h as usize) * 4);
}

#[test]
fn png_rasterise_transparent_pixel_is_zero_alpha() {
    let theme = Theme::classic();
    let (rgba, _w, _h) = rasterise(&FRAMES[0], &theme, 1);
    for x in 0..CROP_W {
        let idx = x * 4;
        assert_eq!(rgba[idx + 3], 0, "pixel ({x}, 0) should be transparent");
    }
}

#[test]
fn render_png_valid_header() {
    let data = render_png(&FRAMES[0], &Theme::classic(), 1);
    assert_eq!(&data[..8], &[0x89, b'P', b'N', b'G', 0x0D, 0x0A, 0x1A, 0x0A]);
}

#[test]
fn render_emoji_valid_png() {
    let data = render_emoji(&FRAMES[0], &Theme::classic(), 128);
    assert_eq!(&data[..8], &[0x89, b'P', b'N', b'G', 0x0D, 0x0A, 0x1A, 0x0A]);
    assert!(data.len() > 100);
}

#[test]
fn render_all_frames_count() {
    let frames = render_all_frames(&Theme::classic(), 1);
    assert_eq!(frames.len(), FRAME_COUNT);
}

#[test]
fn render_all_emoji_count() {
    let emojis = render_all_emoji(&Theme::classic(), 64);
    assert_eq!(emojis.len(), FRAME_COUNT);
}

#[test]
fn empty_zlib_is_valid() {
    let out = zlib_store(&[]);
    assert_eq!(out[0], 0x78);
    assert_eq!(out[1], 0x01);
    assert_eq!(out[2], 0x01);
}

#[test]
fn empty_zlib_exact_bytes() {
    let out = zlib_store(&[]);
    assert_eq!(out, vec![0x78, 0x01, 0x01, 0x00, 0x00, 0xff, 0xff, 0x00, 0x00, 0x00, 0x01]);
}

#[test]
fn zlib_store_small_input_layout() {
    let out = zlib_store(b"Wikipedia");
    assert_eq!(&out[..3], &[0x78, 0x01, 0x01]);
    assert_eq!(&out[3..7], &[9, 0, !9u8, 0xff]);
    assert_eq!(&out[7..16], b"Wikipedia");
    assert_eq!(be32(&out[16..20]), 0x11E6_0398);
    assert_eq!(out.len(), 20);
}

#[test]
fn zlib_store_splits_large_input_into_blocks() {
    let data: Vec<u8> = (0..70_000u32).map(|i| (i % 251) as u8).collect();
    let out = zlib_store(&data);
    // first block: not final, 65535 bytes
    assert_eq!(out[2], 0x00);
    assert_eq!(&out[3..7], &[0xff, 0xff, 0x00, 0x00]);
    assert_eq!(&out[7..7 + 65535], &data[..65535]);
    // second block: final, the rest
    let b = 7 + 65535;
    let rest = data.len() - 65535;
    assert_eq!(out[b], 0x01);
    assert_eq!(u16::from_le_bytes([out[b + 1], out[b + 2]]) as usize, rest);
    assert_eq!(&out[b + 5..b + 5 + rest], &data[65535..]);
    assert_eq!(be32(&out[out.len() - 4..]), adler32(&data));
    assert_eq!(out.len(), 2 + 2 * 5 + data.len() + 4);
}

#[test]
fn render_png_matches_encoded_raster() {
    let theme = Theme::classic();
    let (rgba, w, h) = rasterise(&FRAMES[2], &theme, 3);
    let mut expected = Vec::new();
    encode_png(&rgba, w, h, &mut expected);
    assert_eq!(render_png(&FRAMES[2], &theme, 3), expected);
}

#[test]
fn render_png_chunk_layout() {
    let data = render_png(&FRAMES[0], &Theme::classic(), 2);
    assert_eq!(&data[..8], &PNG_SIGNATURE);
    // IHDR
    assert_eq!(be32(&data[8..12]), 13);
    assert_eq!(&data[12..16], b"IHDR");
    assert_eq!(be32(&data[16..20]), (CROP_W * 2) as u32);
    assert_eq!(be32(&data[20..24]), (CROP_H * 2) as u32);
    assert_eq!(&data[24..29], &[8, 6, 0, 0, 0]);
    assert_eq!(be32(&data[29..33]), crc32(&data[12..29]));
    // IDAT
    let idat_len = be32(&data[33..37]) as usize;
    assert_eq!(&data[37..41], b"IDAT");
    let idat_end = 41 + idat_len;
    assert_eq!(be32(&data[idat_end..idat_end + 4]), crc32(&data[37..idat_end]));
    // IEND
    assert_eq!(&data[idat_end + 4..], &[0, 0, 0, 0, b'I', b'E', b'N', b'D', 0xAE, 0x42, 0x60, 0x82]);
}

#[test]
fn render_all_frames_match_render_png() {
    let theme = Theme::classic();
    let all = render_all_frames(&theme, 2);
    for (i, png) in all.iter().enumerate() {
        assert_eq!(*png, render_png(&FRAMES[i], &theme, 2));
    }
}

#[test]
fn render_emoji_canvas_is_square() {
    let data = render_emoji(&FRAMES[0], &Theme::classic(), 64);
    assert_eq!(be32(&data[16..20]), 64);
    assert_eq!(be32(&data[20..24]), 64);
}

#[test]
fn render_emoji_small_canvas_is_clipped() {
    for size in [0u32, 1, 8, 16] {
        let data = render_emoji(&FRAMES[0], &Theme::classic(), size);
        let side = size.max(1);
        assert_eq!(&data[..8], &PNG_SIGNATURE);
        assert_eq!(be32(&data[16..20]), side);
        assert_eq!(be32(&data[20..24]), side);
    }
    // the 16 x 16 canvas shows the middle of the sprite, so some pixels are drawn
    let data = render_emoji(&FRAMES[0], &Theme::classic(), 16);
    let z = &data[41..data.len() - 16];
    let raw = &z[7..z.len() - 4];
    assert_eq!(raw.len(), 16 * (1 + 64));
    assert!((0..16).any(|y| (0..16).any(|x| raw[y * 65 + 1 + x * 4 + 3] == 255)));
}

#[test]
fn emoji_canvas_memory_bound() {
    for size in [0u32, 1, 32, 64, 128, 256, 512, 4096] {
        assert!(emoji_fits_memory(size));
    }
}

#[test]
fn render_all_emoji_match_render_emoji() {
    let theme = Theme::classic();
    let all = render_all_emoji(&theme, 32);
    for (i, png) in all.iter().enumerate() {
        assert_eq!(*png, render_emoji(&FRAMES[i], &theme, 32));
    }
}
