use scampii::frame::FRAMES;
use scampii::pixel::{Hue, ALL_HUES};
use scampii::png::render_emoji;
use scampii::theme::{ColorArg, Theme};

// HSB color rotation, as the command-line program computes it.

const F32_EPS: f32 = 1.0 / 512.0;
const BASE_HUE: f32 = 20.0;

fn rgb_to_hsb(r: u8, g: u8, b: u8) -> (f32, f32, f32) {
    let rf = r as f32 / 255.0;
    let gf = g as f32 / 255.0;
    let bf = b as f32 / 255.0;
    let max = rf.max(gf).max(bf);
    let min = rf.min(gf).min(bf);
    let delta = max - min;
    let h = if delta < F32_EPS {
        0.0
    } else if (max - rf).abs() < F32_EPS {
        60.0 * ((gf - bf) / delta).rem_euclid(6.0)
    } else if (max - gf).abs() < F32_EPS {
        60.0 * (((bf - rf) / delta) + 2.0)
    } else {
        60.0 * (((rf - gf) / delta) + 4.0)
    };
    let s = if max < F32_EPS { 0.0 } else { delta / max };
    (h, s, max)
}

fn hsb_to_rgb(h: f32, s: f32, b: f32) -> (u8, u8, u8) {
    let h = ((h % 360.0) + 360.0) % 360.0;
    let c = b * s;
    let x = c * (1.0 - ((h / 60.0) % 2.0 - 1.0).abs());
    let m = b - c;
    let (r1, g1, b1) = match h as u32 {
        0..=59 => (c, x, 0.0),
        60..=119 => (x, c, 0.0),
        120..=179 => (0.0, c, x),
        180..=239 => (0.0, x, c),
        240..=299 => (x, 0.0, c),
        _ => (c, 0.0, x),
    };
    (
        ((r1 + m) * 255.0).round() as u8,
        ((g1 + m) * 255.0).round() as u8,
        ((b1 + m) * 255.0).round() as u8,
    )
}

fn from_color(r: u8, g: u8, b: u8) -> Theme {
    let (tgt_h, _, _) = rgb_to_hsb(r, g, b);
    Theme::from_resolved(|hue: Hue| {
        let (hr, hg, hb) = hue.rgb();
        let (h, s, br) = rgb_to_hsb(hr, hg, hb);
        hsb_to_rgb(h + (tgt_h - BASE_HUE), s, br)
    })
}

#[test]
fn preset_returns_some_for_all_names() {
    for &name in Theme::PRESET_NAMES.iter() {
        assert!(
            Theme::preset(name, from_color).is_some(),
            "Theme::preset({name:?}) returned None"
        );
    }
}

#[test]
fn preset_returns_none_for_unknown() {
    assert!(Theme::preset("doesnotexist", from_color).is_none());
    assert!(Theme::preset("", from_color).is_none());
    assert!(Theme::preset("OCEAN", from_color).is_none()); // case-sensitive
}

#[test]
fn classic_matches_canonical_rgb() {
    let theme = Theme::classic();
    for hue in ALL_HUES {
        assert_eq!(theme.color(hue), hue.rgb(), "mismatch for {hue:?}");
    }
}

#[test]
fn theme_is_clone() {
    let a = Theme::classic();
    let b = a.clone();
    for hue in ALL_HUES {
        assert_eq!(a.color(hue), b.color(hue));
    }
}

#[test]
fn emoji_different_themes() {
    let classic = render_emoji(&FRAMES[0], &Theme::classic(), 64);
    let ocean = render_emoji(&FRAMES[0], &Theme::preset("ocean", from_color).unwrap(), 64);
    assert_ne!(classic, ocean);
}

#[test]
fn shifted_theme_keeps_eyes() {
    let theme = from_color(0x20, 0x90, 0xDD);
    for hue in ALL_HUES {
        if hue.is_structural() {
            assert_eq!(theme.color(hue), hue.rgb());
        }
    }
    assert_ne!(theme.color(Hue::S7), Hue::S7.rgb());
}

#[test]
fn barbie_preset_overrides() {
    let base = from_color(0xE0, 0x21, 0x8A);
    let barbie = Theme::preset("barbie", from_color).unwrap();
    assert_eq!(barbie.color(Hue::Antenna), (0x80, 0x35, 0x5A));
    assert_eq!(barbie.color(Hue::Leg), (0x66, 0x20, 0x40));
    assert_eq!(barbie.color(Hue::S3), base.color(Hue::S3));
    let classic = Theme::preset("classic", from_color).unwrap();
    assert_eq!(classic, Theme::classic());
    assert_eq!(Theme::default(), Theme::classic());
}

#[test]
fn set_color_changes_one_slot() {
    let mut theme = Theme::classic();
    theme.set_color(Hue::Antenna, 1, 2, 3);
    for hue in ALL_HUES {
        if hue == Hue::Antenna {
            assert_eq!(theme.color(hue), (1, 2, 3));
        } else {
            assert_eq!(theme.color(hue), hue.rgb());
        }
    }
}

#[test]
fn color_arg_classification() {
    assert_eq!(ColorArg::parse("auto"), ColorArg::Auto);
    assert_eq!(ColorArg::parse("AuTo"), ColorArg::Auto);
    assert_eq!(ColorArg::parse("ocean"), ColorArg::Preset("ocean"));
    assert_eq!(ColorArg::parse("OCEAN"), ColorArg::Preset("ocean"));
    assert_eq!(ColorArg::parse("Barbie"), ColorArg::Preset("barbie"));
    assert_eq!(ColorArg::parse("ff00ff"), ColorArg::Hex(255, 0, 255));
    assert_eq!(ColorArg::parse("#FF6600"), ColorArg::Hex(255, 102, 0));
    assert_eq!(ColorArg::parse("purple"), ColorArg::Unknown);
    assert_eq!(ColorArg::parse(""), ColorArg::Unknown);
    assert_eq!(ColorArg::parse("autos"), ColorArg::Unknown);
}
