use scampii::color::{osc_reply_complete, parse_hex_color, parse_osc_color};
use scampii::frame::FRAMES;
use scampii::iterm::draw_iterm;
use scampii::kitty::draw_kitty;
use scampii::png::{render_png, zlib_store};
use scampii::raster::{base64_encode, rasterise, CROP_H, CROP_W};
use scampii::sixel::{draw_sixel, rle_encode};
use scampii::theme::Theme;

fn b64_value(c: u8) -> u32 {
    match c {
        b'A'..=b'Z' => (c - b'A') as u32,
        b'a'..=b'z' => (c - b'a') as u32 + 26,
        b'0'..=b'9' => (c - b'0') as u32 + 52,
        b'+' => 62,
        b'/' => 63,
        _ => 0,
    }
}

fn b64_decode(t: &[u8]) -> Vec<u8> {
    let mut out = Vec::new();
    for g in t.chunks(4) {
        let v: Vec<u32> = g.iter().map(|&c| b64_value(c)).collect();
        out.push((v[0] * 4 + v[1] / 16) as u8);
        if g[2] == b'=' {
            break;
        }
        out.push(((v[1] % 16) * 16 + v[2] / 4) as u8);
        if g[3] == b'=' {
            break;
        }
        out.push(((v[2] % 4) * 64 + v[3]) as u8);
    }
    out
}

fn unstore(blocks: &[u8]) -> Vec<u8> {
    let mut out = Vec::new();
    let mut rest = blocks;
    while rest.len() >= 5 {
        let n = rest[1] as usize + 256 * rest[2] as usize;
        let nlen = rest[3] as usize + 256 * rest[4] as usize;
        assert_eq!(n + nlen, 65535);
        out.extend_from_slice(&rest[5..5 + n]);
        if rest[0] & 1 == 1 {
            break;
        }
        rest = &rest[5 + n..];
    }
    out
}

fn rle_decode(t: &[u8]) -> Vec<u8> {
    let mut out = Vec::new();
    let mut i = 0;
    while i < t.len() {
        if t[i] == b'!' {
            let mut j = i + 1;
            let mut n = 0usize;
            while t[j].is_ascii_digit() {
                n = n * 10 + (t[j] - b'0') as usize;
                j += 1;
            }
            out.extend(std::iter::repeat(t[j]).take(n));
            i = j + 1;
        } else {
            out.push(t[i]);
            i += 1;
        }
    }
    out
}

#[test]
fn base64_decodes_back() {
    for n in 0..40usize {
        let data: Vec<u8> = (0..n).map(|i| (i * 37 + 11) as u8).collect();
        let mut t = Vec::new();
        base64_encode(&data, &mut t);
        assert_eq!(b64_decode(&t), data);
    }
}

#[test]
fn zlib_store_inflates_back() {
    for n in [0usize, 1, 9, 65535, 65536, 140_000] {
        let data: Vec<u8> = (0..n).map(|i| (i % 253) as u8).collect();
        let z = zlib_store(&data);
        assert_eq!(&z[..2], &[0x78, 0x01]);
        assert_eq!(unstore(&z[2..z.len() - 4]), data);
    }
}

#[test]
fn png_holds_its_image() {
    let theme = Theme::classic();
    let (rgba, w, h) = rasterise(&FRAMES[1], &theme, 2);
    let file = render_png(&FRAMES[1], &theme, 2);
    let z = &file[41..file.len() - 16];
    let raw = unstore(&z[2..z.len() - 4]);
    let row = 4 * w as usize;
    assert_eq!(raw.len(), h as usize * (1 + row));
    for y in 0..h as usize {
        assert_eq!(raw[y * (1 + row)], 0);
        assert_eq!(&raw[y * (1 + row) + 1..(y + 1) * (1 + row)], &rgba[y * row..(y + 1) * row]);
    }
}

#[test]
fn rle_decodes_back() {
    let rows: [&[u8]; 4] = [b"", b"?", b"??~~~~~@@@@@@@@@@@@A", b"~~~~~~~~~~~~~~~~~~~~~~~~"];
    for row in rows {
        let mut t = Vec::new();
        rle_encode(row, &mut t);
        assert_eq!(rle_decode(&t), row.to_vec());
    }
}

#[test]
fn kitty_payload_decodes_to_raster() {
    let theme = Theme::classic();
    for scale in [1u8, 3] {
        let (rgba, _, _) = rasterise(&FRAMES[2], &theme, scale);
        let mut buf = Vec::new();
        let mut out = Vec::new();
        draw_kitty(&mut buf, &mut out, &FRAMES[2], &theme, scale);
        // keep bytes between ';' and ESC
        let mut payload = Vec::new();
        let mut inside = false;
        for &c in &out {
            if !inside {
                inside = c == b';';
            } else if c == 0x1b {
                inside = false;
            } else {
                payload.push(c);
            }
        }
        assert_eq!(b64_decode(&payload), rgba);
    }
}

#[test]
fn iterm_payload_decodes_to_png() {
    let theme = Theme::classic();
    let png = render_png(&FRAMES[0], &theme, 2);
    let mut buf = Vec::new();
    let mut out = Vec::new();
    draw_iterm(&mut buf, &mut out, &FRAMES[0], &theme, 2);
    let colon = out.iter().position(|&c| c == b':').unwrap();
    let bel = out.iter().position(|&c| c == 0x07).unwrap();
    assert_eq!(bel, out.len() - 1);
    assert_eq!(b64_decode(&out[colon + 1..bel]), png);
    let header = format!("\x1b]1337;File=inline=1;size={};preserveAspectRatio=1", png.len());
    assert_eq!(&out[..colon], header.as_bytes());
}

#[test]
fn sixel_framing_and_scale_clamp() {
    let theme = Theme::classic();
    let mut buf = Vec::new();
    let mut at16 = Vec::new();
    let mut at99 = Vec::new();
    draw_sixel(&mut buf, &mut at16, &FRAMES[0], &theme, 16);
    draw_sixel(&mut buf, &mut at99, &FRAMES[0], &theme, 99);
    assert_eq!(at16, at99);
    assert!(at16.starts_with(format!("\x1bPq\"1;1;{};{}", CROP_W * 16, CROP_H * 16).as_bytes()));
    assert!(at16.ends_with(b"\x1b\\"));
}

#[test]
fn hex_color_round_trip() {
    for &(r, g, b) in &[(0u8, 0u8, 0u8), (255, 255, 255), (0x12, 0xab, 0xef), (1, 160, 15)] {
        let s = format!("{r:02x}{g:02x}{b:02x}");
        assert_eq!(parse_hex_color(&s), Some((r, g, b)));
        assert_eq!(parse_hex_color(&format!("#{s}")), Some((r, g, b)));
        assert_eq!(parse_hex_color(&format!("##{s}")), None);
    }
}

#[test]
fn preset_names_are_exactly_the_presets() {
    let from_color = |_r: u8, _g: u8, _b: u8| Theme::classic();
    for name in Theme::PRESET_NAMES {
        assert!(Theme::preset(name, from_color).is_some());
    }
    for name in ["", "Classic", "oceans", "barbi", "auto", "ff00ff"] {
        assert!(Theme::preset(name, from_color).is_none());
    }
}

#[test]
fn osc_reply_round_trip() {
    for &(r, g, b) in &[(0u8, 0u8, 0u8), (255, 128, 7), (0x12, 0xab, 0xef)] {
        let short = format!("\x1b]10;rgb:{r:02x}/{g:02x}/{b:02x}\x07");
        assert_eq!(parse_osc_color(&short), Some((r, g, b)));
        let long = format!("\x1b]10;rgb:{r:02x}3c/{g:02x}3c/{b:02x}3c\x1b\\");
        assert_eq!(parse_osc_color(&long), Some((r, g, b)));
    }
}

#[test]
fn osc_reply_complete_detects_terminators() {
    assert!(!osc_reply_complete(b""));
    assert!(!osc_reply_complete(b"\x1b]10;rgb:ff/00"));
    assert!(!osc_reply_complete(b"\x1b]10;rgb:ff/00/80\x1b"));
    assert!(osc_reply_complete(b"\x1b]10;rgb:ff/00/80\x07"));
    assert!(osc_reply_complete(b"\x1b]10;rgb:ff/00/80\x1b\\"));
}

#[test]
fn io_error_converts() {
    let e = scampii::ScampiiError::from(std::io::Error::other("boom"));
    assert!(matches!(e, scampii::ScampiiError::Io(_)));
}

#[test]
fn zlib_store_length_formula() {
    for n in [0usize, 1, 65534, 65535, 65536, 131070, 131071, 200_000] {
        let data = vec![7u8; n];
        let blocks = if n == 0 { 1 } else { n.div_ceil(65535) };
        let z = zlib_store(&data);
        assert_eq!(z.len(), 6 + 5 * blocks + n);
        // only the last block is final
        let mut at = 2;
        for b in 0..blocks {
            let len = z[at + 1] as usize + 256 * z[at + 2] as usize;
            assert_eq!(z[at], if b + 1 == blocks { 1 } else { 0 });
            at += 5 + len;
        }
        assert_eq!(at, z.len() - 4);
    }
}

fn decode_png(file: &[u8], w: usize, h: usize) -> Vec<u8> {
    let z = &file[41..file.len() - 16];
    let raw = unstore(&z[2..z.len() - 4]);
    let row = 4 * w;
    let mut img = Vec::new();
    for y in 0..h {
        assert_eq!(raw[y * (1 + row)], 0);
        img.extend_from_slice(&raw[y * (1 + row) + 1..(y + 1) * (1 + row)]);
    }
    img
}

#[test]
fn emoji_pixels_follow_crop_scale_centre() {
    let theme = Theme::classic();
    let (p, w1, h1) = rasterise(&FRAMES[1], &theme, 1);
    let (w1, h1) = (w1 as usize, h1 as usize);
    let (mut x0, mut y0, mut x1, mut y1) = (w1, h1, 0, 0);
    for y in 0..h1 {
        for x in 0..w1 {
            if p[(y * w1 + x) * 4 + 3] > 0 {
                x0 = x0.min(x);
                y0 = y0.min(y);
                x1 = x1.max(x);
                y1 = y1.max(y);
            }
        }
    }
    for size in [16usize, 30, 64, 100] {
        let file = scampii::png::render_emoji(&FRAMES[1], &theme, size as u32);
        let img = decode_png(&file, size, size);
        let (cw, ch) = (x1 - x0 + 1, y1 - y0 + 1);
        let s = (size / cw).min(size / ch).max(1) as i64;
        let ox = (size as i64 - cw as i64 * s).div_euclid(2);
        let oy = (size as i64 - ch as i64 * s).div_euclid(2);
        for yy in 0..size as i64 {
            for xx in 0..size as i64 {
                let got = &img[((yy as usize) * size + xx as usize) * 4..][..4];
                let inside = ox <= xx && xx < ox + cw as i64 * s && oy <= yy && yy < oy + ch as i64 * s;
                if inside {
                    let px = x0 + ((xx - ox) / s) as usize;
                    let py = y0 + ((yy - oy) / s) as usize;
                    assert_eq!(got, &p[(py * w1 + px) * 4..][..4]);
                } else {
                    assert_eq!(got, &[0, 0, 0, 0]);
                }
            }
        }
    }
}

#[test]
fn themes_that_differ_give_different_pngs() {
    let classic = Theme::classic();
    let mut other = Theme::classic();
    other.set_color(scampii::Hue::S2, 1, 2, 3);
    assert_ne!(render_png(&FRAMES[0], &classic, 1), render_png(&FRAMES[0], &other, 1));
    assert_ne!(
        scampii::png::render_emoji(&FRAMES[0], &classic, 64),
        scampii::png::render_emoji(&FRAMES[0], &other, 64)
    );
}

#[test]
fn sixel_more_bands_at_larger_scale() {
    let theme = Theme::classic();
    let mut buf = Vec::new();
    let mut last = 0;
    for scale in 1..=16u8 {
        let mut out = Vec::new();
        draw_sixel(&mut buf, &mut out, &FRAMES[2], &theme, scale);
        let dashes = out.iter().filter(|&&c| c == b'-').count();
        assert_eq!(dashes, (26 * scale as usize).div_ceil(6) - 1);
        assert!(dashes > last || scale == 1);
        last = dashes;
    }
}
