use scampii::frame::FRAMES;
use scampii::iterm::{adler32, crc32, draw_iterm, encode_png, ItermRenderer};
use scampii::raster::{base64_encode, rasterise};
use scampii::theme::Theme;

#[test]
fn crc32_known_value() {
    assert_eq!(crc32(b"123456789"), 0xCBF4_3926);
}

#[test]
fn adler32_known_value() {
    assert_eq!(adler32(b"Wikipedia"), 0x11E6_0398);
}

#[test]
fn png_signature_check() {
    let theme = Theme::classic();
    let (rgba, w, h) = rasterise(&FRAMES[0], &theme, 1);
    let mut png = Vec::new();
    encode_png(&rgba, w, h, &mut png);
    assert_eq!(&png[0..8], &[137, 80, 78, 71, 13, 10, 26, 10]);
}

#[test]
fn osc_output_check() {
    let theme = Theme::classic();
    let mut buf = Vec::new();
    let mut out = Vec::new();

    draw_iterm(&mut buf, &mut out, &FRAMES[0], &theme, 1);

    assert!(
        out.starts_with(b"\x1b]1337;File=inline=1;size="),
        "output must start with OSC 1337 header"
    );
    assert_eq!(out.last(), Some(&0x07), "output must end with BEL");
    let s = String::from_utf8_lossy(&out);
    assert!(s.contains(':'), "output must contain colon separator");
}

#[test]
fn all_frames_render_iterm() {
    let theme = Theme::classic();
    let mut buf = Vec::new();
    for (i, frame) in FRAMES.iter().enumerate() {
        let mut out = Vec::new();
        draw_iterm(&mut buf, &mut out, frame, &theme, 1);
        assert!(!out.is_empty(), "frame {i} produced empty output");
    }
}

#[test]
fn crc32_empty_and_single_byte() {
    assert_eq!(crc32(b""), 0);
    assert_eq!(crc32(b"a"), 0xE8B7_BE43);
    assert_eq!(crc32(b"The quick brown fox jumps over the lazy dog"), 0x414F_A339);
}

#[test]
fn adler32_empty_and_long_input() {
    assert_eq!(adler32(b""), 1);
    assert_eq!(adler32(b"a"), 0x0062_0062);
    // long enough to take the modulus many times over
    let data = vec![0xffu8; 100_000];
    let mut a: u64 = 1;
    let mut b: u64 = 0;
    for &x in &data {
        a = (a + x as u64) % 65521;
        b = (b + a) % 65521;
    }
    assert_eq!(adler32(&data), ((b << 16) | a) as u32);
}

#[test]
fn iterm_sequence_exact_layout() {
    let theme = Theme::classic();
    let (rgba, w, h) = rasterise(&FRAMES[1], &theme, 2);
    let mut png = Vec::new();
    encode_png(&rgba, w, h, &mut png);
    let mut b64 = Vec::new();
    base64_encode(&png, &mut b64);
    let mut expected = format!("\x1b]1337;File=inline=1;size={};preserveAspectRatio=1:", png.len())
        .into_bytes();
    expected.extend_from_slice(&b64);
    expected.push(0x07);

    let mut buf = Vec::new();
    let mut out = Vec::new();
    draw_iterm(&mut buf, &mut out, &FRAMES[1], &theme, 2);
    assert_eq!(out, expected);
    assert_eq!(buf, expected);
}

#[test]
fn iterm_appends_to_output() {
    let theme = Theme::classic();
    let mut buf = Vec::new();
    let mut out = b"prefix".to_vec();
    draw_iterm(&mut buf, &mut out, &FRAMES[0], &theme, 1);
    assert!(out.starts_with(b"prefix\x1b]1337;"));
    assert_eq!(&out[6..], &buf[..]);
}

#[test]
fn iterm_clamps_scale() {
    let theme = Theme::classic();
    let mut buf = Vec::new();
    let mut zero = Vec::new();
    let mut one = Vec::new();
    draw_iterm(&mut buf, &mut zero, &FRAMES[0], &theme, 0);
    draw_iterm(&mut buf, &mut one, &FRAMES[0], &theme, 1);
    assert_eq!(zero, one);
    let mut big = Vec::new();
    let mut max = Vec::new();
    draw_iterm(&mut buf, &mut big, &FRAMES[0], &theme, 200);
    draw_iterm(&mut buf, &mut max, &FRAMES[0], &theme, 16);
    assert_eq!(big, max);
}

#[test]
fn iterm_renderer_matches_draw_iterm() {
    let theme = Theme::classic();
    let mut renderer = ItermRenderer::default();
    let mut via_renderer = Vec::new();
    renderer.draw(&mut via_renderer, &FRAMES[2], &theme, 3);
    let mut buf = Vec::new();
    let mut direct = Vec::new();
    draw_iterm(&mut buf, &mut direct, &FRAMES[2], &theme, 3);
    assert_eq!(via_renderer, direct);
}
