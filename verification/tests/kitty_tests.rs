use scampii::frame::FRAMES;
use scampii::kitty::{draw_kitty, KittyRenderer, CHUNK_SIZE};
use scampii::raster::{base64_encode, rasterise, CROP_H, CROP_W};
use scampii::theme::Theme;

#[test]
fn kitty_small_single_chunk() {
    let theme = Theme::classic();
    let mut buf = Vec::new();
    let mut out = Vec::new();

    draw_kitty(&mut buf, &mut out, &FRAMES[0], &theme, 1);

    let s = String::from_utf8_lossy(&out);
    assert!(s.contains("\x1b_G"), "output must contain Kitty APC start");
    assert!(s.contains("\x1b\\"), "output must contain ST");
    assert!(s.contains("f=32"), "output must specify RGBA format");
    assert!(s.contains("a=T"), "output must specify transmit+display");
}

#[test]
fn kitty_large_multi_chunk() {
    let theme = Theme::classic();
    let mut buf = Vec::new();
    let mut out = Vec::new();

    draw_kitty(&mut buf, &mut out, &FRAMES[0], &theme, 4);

    let s = String::from_utf8_lossy(&out);
    assert!(s.contains("m=1"), "large image should use multi-chunk mode");
    assert!(s.contains("m=0"), "last chunk should have m=0");
}

#[test]
fn kitty_dimensions_in_header() {
    let theme = Theme::classic();
    let mut buf = Vec::new();
    let mut out = Vec::new();
    let scale = 2u8;

    draw_kitty(&mut buf, &mut out, &FRAMES[0], &theme, scale);

    let s = String::from_utf8_lossy(&out);
    let expected_w = CROP_W * scale as usize;
    let expected_h = CROP_H * scale as usize;
    let w_str = format!("s={}", expected_w);
    let h_str = format!("v={}", expected_h);
    assert!(s.contains(&w_str), "header must contain width s={expected_w}");
    assert!(s.contains(&h_str), "header must contain height v={expected_h}");
}

#[test]
fn all_frames_render_kitty() {
    let theme = Theme::classic();
    let mut buf = Vec::new();
    for (i, frame) in FRAMES.iter().enumerate() {
        let mut out = Vec::new();
        draw_kitty(&mut buf, &mut out, frame, &theme, 1);
        assert!(!out.is_empty(), "frame {i} produced empty output");
    }
}

#[test]
fn kitty_buf_reusable_across_frames() {
    let theme = Theme::classic();
    let mut buf = Vec::new();
    for frame in FRAMES.iter() {
        let mut out = Vec::new();
        draw_kitty(&mut buf, &mut out, frame, &theme, 4);
        assert!(!out.is_empty());
    }
}

fn base64_of_frame(frame: usize, scale: u8) -> Vec<u8> {
    let (rgba, _, _) = rasterise(&FRAMES[frame], &Theme::classic(), scale);
    let mut b64 = Vec::new();
    base64_encode(&rgba, &mut b64);
    b64
}

#[test]
fn kitty_single_chunk_exact_bytes() {
    // at scale 1 the raster is 24 x 26 x 4 = 2496 bytes, 3328 of base64
    let b64 = base64_of_frame(0, 1);
    assert!(b64.len() <= CHUNK_SIZE);
    let mut expected = format!("\x1b_Gf=32,s={},v={},a=T,t=d;", CROP_W, CROP_H).into_bytes();
    expected.extend_from_slice(&b64);
    expected.extend_from_slice(b"\x1b\\");
    let mut buf = Vec::new();
    let mut out = Vec::new();
    draw_kitty(&mut buf, &mut out, &FRAMES[0], &Theme::classic(), 1);
    assert_eq!(out, expected);
}

#[test]
fn kitty_chunks_reassemble_to_payload() {
    let b64 = base64_of_frame(1, 3);
    assert!(b64.len() > CHUNK_SIZE);
    let mut buf = Vec::new();
    let mut out = Vec::new();
    draw_kitty(&mut buf, &mut out, &FRAMES[1], &Theme::classic(), 3);

    // split into escape sequences and check each chunk
    let mut rest: &[u8] = &out;
    let mut payload = Vec::new();
    let mut count = 0;
    while !rest.is_empty() {
        assert!(rest.starts_with(b"\x1b_G"));
        let semi = rest.iter().position(|&c| c == b';').unwrap();
        let header = std::str::from_utf8(&rest[3..semi]).unwrap().to_string();
        let st = rest.windows(2).position(|w| w == b"\x1b\\").unwrap();
        let chunk = &rest[semi + 1..st];
        assert!(chunk.len() <= CHUNK_SIZE);
        payload.extend_from_slice(chunk);
        rest = &rest[st + 2..];
        if count == 0 {
            assert_eq!(header, format!("f=32,s={},v={},a=T,t=d,m=1", CROP_W * 3, CROP_H * 3));
        } else if rest.is_empty() {
            assert_eq!(header, "m=0");
        } else {
            assert_eq!(header, "m=1");
            assert_eq!(chunk.len(), CHUNK_SIZE);
        }
        count += 1;
    }
    assert_eq!(payload, b64);
    assert_eq!(count, (b64.len() + CHUNK_SIZE - 1) / CHUNK_SIZE);
}

#[test]
fn kitty_renderer_matches_draw_kitty() {
    let theme = Theme::classic();
    let mut renderer = KittyRenderer::new();
    let mut via_renderer = Vec::new();
    renderer.draw(&mut via_renderer, &FRAMES[0], &theme, 4);
    let mut buf = Vec::new();
    let mut direct = Vec::new();
    draw_kitty(&mut buf, &mut direct, &FRAMES[0], &theme, 4);
    assert_eq!(via_renderer, direct);
}

#[test]
fn kitty_scratch_buffer_contents() {
    let theme = Theme::classic();
    let mut buf = b"old".to_vec();
    let mut out = Vec::new();
    draw_kitty(&mut buf, &mut out, &FRAMES[0], &theme, 1);
    assert_eq!(buf, base64_of_frame(0, 1));
    draw_kitty(&mut buf, &mut out, &FRAMES[0], &theme, 4);
    assert!(buf.is_empty());
}
