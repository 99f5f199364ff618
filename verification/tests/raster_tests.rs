use scampii::frame::FRAMES;
use scampii::raster::{base64_encode, rasterise, CROP_H, CROP_W, MAX_SCALE};
use scampii::theme::Theme;

#[test]
fn raster_base64_rfc_vectors() {
    let cases: &[(&[u8], &str)] = &[
        (b"", ""),
        (b"f", "Zg=="),
        (b"fo", "Zm8="),
        (b"foo", "Zm9v"),
        (b"foob", "Zm9vYg=="),
        (b"fooba", "Zm9vYmE="),
        (b"foobar", "Zm9vYmFy"),
    ];
    for &(input, expected) in cases {
        let mut out = Vec::new();
        base64_encode(input, &mut out);
        assert_eq!(
            std::str::from_utf8(&out).unwrap(),
            expected,
            "base64 mismatch for {:?}",
            std::str::from_utf8(input).unwrap()
        );
    }
}

#[test]
fn raster_rasterise_dimensions_scale_1() {
    let theme = Theme::classic();
    let (rgba, w, h) = rasterise(&FRAMES[0], &theme, 1);
    assert_eq!(w, CROP_W as u32);
    assert_eq!(h, CROP_H as u32);
    assert_eq!(rgba.len(), (w as usize) * (h as usize) * 4);
}

#[test]
fn raster_rasterise_dimensions_scale_2() {
    let theme = Theme::classic();
    let (rgba, w, h) = rasterise(&FRAMES[0], &theme, 2);
    assert_eq!(w, (CROP_W * 2) as u32);
    assert_eq!(h, (CROP_H * 2) as u32);
    assert_eq!(rgba.len(), (w as usize) * (h as usize) * 4);
}

#[test]
fn raster_rasterise_clamps_excessive_scale() {
    let theme = Theme::classic();
    let (rgba, w, h) = rasterise(&FRAMES[0], &theme, 255);
    assert_eq!(w, (CROP_W * MAX_SCALE as usize) as u32);
    assert_eq!(h, (CROP_H * MAX_SCALE as usize) as u32);
    assert_eq!(rgba.len(), (w as usize) * (h as usize) * 4);
}

#[test]
fn rasterise_clamps_zero_scale_to_one() {
    let theme = Theme::classic();
    let (rgba, w, h) = rasterise(&FRAMES[0], &theme, 0);
    assert_eq!(w, CROP_W as u32);
    assert_eq!(h, CROP_H as u32);
    assert_eq!(rgba.len(), (w as usize) * (h as usize) * 4);
}

#[test]
fn raster_rasterise_transparent_pixel_is_zero_alpha() {
    let theme = Theme::classic();
    let (rgba, w, _h) = rasterise(&FRAMES[0], &theme, 1);
    for x in 0..CROP_W {
        let idx = (0 * w as usize + x) * 4;
        assert_eq!(rgba[idx + 3], 0, "pixel ({x}, 0) should be transparent");
    }
}

#[test]
fn base64_output_length_is_four_per_three() {
    for n in 0..20usize {
        let input: Vec<u8> = (0..n as u8).collect();
        let mut out = Vec::new();
        base64_encode(&input, &mut out);
        assert_eq!(out.len(), (n + 2) / 3 * 4);
    }
}

#[test]
fn base64_appends_to_existing_output() {
    let mut out = b"x:".to_vec();
    base64_encode(b"foobar", &mut out);
    assert_eq!(out, b"x:Zm9vYmFy".to_vec());
}

#[test]
fn base64_concat_of_whole_groups() {
    let mut whole = Vec::new();
    base64_encode(b"foobar", &mut whole);
    let mut parts = Vec::new();
    base64_encode(b"foo", &mut parts);
    base64_encode(b"bar", &mut parts);
    assert_eq!(whole, parts);
}

#[test]
fn base64_high_bytes() {
    let mut out = Vec::new();
    base64_encode(&[0xff, 0xfe, 0xfd], &mut out);
    assert_eq!(out, b"//79".to_vec());
    let mut out = Vec::new();
    base64_encode(&[0xfb, 0xef], &mut out);
    assert_eq!(out, b"++8=".to_vec());
}

#[test]
fn rasterise_opaque_pixels_carry_theme_colors() {
    let theme = Theme::classic();
    let (rgba, w, h) = rasterise(&FRAMES[0], &theme, 1);
    let mut opaque = 0;
    for y in 0..h as usize {
        for x in 0..w as usize {
            let i = (y * w as usize + x) * 4;
            let a = rgba[i + 3];
            assert!(a == 0 || a == 255);
            if a == 255 {
                opaque += 1;
                let c = (rgba[i], rgba[i + 1], rgba[i + 2]);
                assert!(theme.lut.iter().any(|&t| t == c));
            } else {
                assert_eq!((rgba[i], rgba[i + 1], rgba[i + 2]), (0, 0, 0));
            }
        }
    }
    assert!(opaque > 0);
}

#[test]
fn rasterise_scale_two_repeats_each_pixel() {
    let theme = Theme::classic();
    let (one, w1, h1) = rasterise(&FRAMES[1], &theme, 1);
    let (two, w2, _h2) = rasterise(&FRAMES[1], &theme, 2);
    for y in 0..h1 as usize {
        for x in 0..w1 as usize {
            let src = &one[(y * w1 as usize + x) * 4..][..4];
            for dy in 0..2 {
                for dx in 0..2 {
                    let j = ((2 * y + dy) * w2 as usize + 2 * x + dx) * 4;
                    assert_eq!(&two[j..j + 4], src);
                }
            }
        }
    }
}
