use scampii::frame::FRAMES;
use scampii::raster::{CROP_H, CROP_W};
use scampii::sixel::{draw_sixel, rle_encode, SixelRenderer};
use scampii::theme::Theme;

#[test]
fn sixel_smoke_test() {
    let theme = Theme::classic();
    let mut buf = Vec::new();
    let mut out = Vec::new();

    draw_sixel(&mut buf, &mut out, &FRAMES[0], &theme, 1);

    assert!(out.starts_with(b"\x1bPq"), "output must start with DCS sixel introducer");
    assert!(out.ends_with(b"\x1b\\"), "output must end with String Terminator");
}

#[test]
fn sixel_contains_color_definitions() {
    let theme = Theme::classic();
    let mut buf = Vec::new();
    let mut out = Vec::new();

    draw_sixel(&mut buf, &mut out, &FRAMES[0], &theme, 1);
    let s = String::from_utf8_lossy(&out);

    assert!(s.contains("#0;2;"), "output should contain color definitions");
}

#[test]
fn sixel_scaled() {
    let theme = Theme::classic();
    let mut buf = Vec::new();
    let mut out_1x = Vec::new();
    let mut out_2x = Vec::new();

    draw_sixel(&mut buf, &mut out_1x, &FRAMES[0], &theme, 1);
    draw_sixel(&mut buf, &mut out_2x, &FRAMES[0], &theme, 2);

    assert!(out_2x.len() > out_1x.len(), "2x scale should produce more data");
}

#[test]
fn rle_encode_basic() {
    let mut out = Vec::new();
    rle_encode(b"AAABBC", &mut out);
    let s = std::str::from_utf8(&out).unwrap();
    assert_eq!(s, "!3ABBC");
}

#[test]
fn rle_encode_no_repeats() {
    let mut out = Vec::new();
    rle_encode(b"ABC", &mut out);
    assert_eq!(&out, b"ABC");
}

#[test]
fn all_frames_render_sixel() {
    let theme = Theme::classic();
    let mut buf = Vec::new();
    for (i, frame) in FRAMES.iter().enumerate() {
        let mut out = Vec::new();
        draw_sixel(&mut buf, &mut out, frame, &theme, 1);
        assert!(!out.is_empty(), "frame {i} produced empty output");
    }
}

#[test]
fn rle_encode_edge_cases() {
    let mut out = Vec::new();
    rle_encode(b"", &mut out);
    assert!(out.is_empty());

    let mut out = Vec::new();
    rle_encode(b"??", &mut out);
    assert_eq!(&out, b"??");

    let mut out = Vec::new();
    rle_encode(&[b'~'; 12], &mut out);
    assert_eq!(&out, b"!12~");

    let mut out = b"#1".to_vec();
    rle_encode(b"AAAAB???", &mut out);
    assert_eq!(&out, b"#1!4AB!3?");
}

#[test]
fn sixel_raster_attributes_and_palette() {
    let theme = Theme::classic();
    let mut buf = Vec::new();
    let mut out = Vec::new();
    draw_sixel(&mut buf, &mut out, &FRAMES[0], &theme, 2);
    let header = format!("\x1bPq\"1;1;{};{}", CROP_W * 2, CROP_H * 2);
    assert!(out.starts_with(header.as_bytes()));
    let s = String::from_utf8_lossy(&out).to_string();
    let mut palette = String::new();
    for (i, &(r, g, b)) in theme.lut.iter().enumerate() {
        let pct = |c: u8| c as u16 * 100 / 255;
        palette.push_str(&format!("#{};2;{};{};{}", i, pct(r), pct(g), pct(b)));
    }
    assert!(s[header.len()..].starts_with(&palette));
    // bands of six rows, separated by '-'
    let bands = (CROP_H * 2 + 5) / 6;
    assert_eq!(s.matches('-').count(), bands - 1);
}

#[test]
fn sixel_clamps_scale_and_appends() {
    let theme = Theme::classic();
    let mut buf = Vec::new();
    let mut zero = b"x".to_vec();
    let mut one = Vec::new();
    draw_sixel(&mut buf, &mut zero, &FRAMES[1], &theme, 0);
    draw_sixel(&mut buf, &mut one, &FRAMES[1], &theme, 1);
    assert_eq!(&zero[1..], &one[..]);
    assert_eq!(buf, one);
}

#[test]
fn sixel_renderer_matches_draw_sixel() {
    let theme = Theme::classic();
    let mut renderer = SixelRenderer::default();
    let mut via_renderer = Vec::new();
    renderer.draw(&mut via_renderer, &FRAMES[2], &theme, 2);
    let mut buf = Vec::new();
    let mut direct = Vec::new();
    draw_sixel(&mut buf, &mut direct, &FRAMES[2], &theme, 2);
    assert_eq!(via_renderer, direct);
}
