use scampii::color::{parse_hex_color, parse_osc_color};

#[test]
fn parse_hex_valid() {
    assert_eq!(parse_hex_color("#ff6600"), Some((255, 102, 0)));
    assert_eq!(parse_hex_color("e8732a"), Some((232, 115, 42)));
}

#[test]
fn parse_hex_invalid() {
    assert_eq!(parse_hex_color("zzzzzz"), None);
    assert_eq!(parse_hex_color("fff"), None);
}

#[test]
fn parse_osc_16bit() {
    let resp = "\x1b]10;rgb:ffff/0000/8080\x1b\\";
    assert_eq!(parse_osc_color(resp), Some((255, 0, 128)));
}

#[test]
fn parse_osc_8bit() {
    let resp = "\x1b]10;rgb:ff/00/80\x07";
    assert_eq!(parse_osc_color(resp), Some((255, 0, 128)));
}

#[test]
fn parse_osc_4bit() {
    let resp = "\x1b]10;rgb:f/0/8\x07";
    assert_eq!(parse_osc_color(resp), Some((255, 0, 136)));
}

#[test]
fn parse_osc_12bit() {
    let resp = "\x1b]10;rgb:fff/000/800\x07";
    assert_eq!(parse_osc_color(resp), Some((255, 0, 128)));
}

#[test]
fn parse_hex_edge_cases() {
    // One leading '#' is stripped, not two.
    assert_eq!(parse_hex_color("#00ff10"), Some((0, 255, 16)));
    assert_eq!(parse_hex_color("##00ff10"), None);
    // Upper-case digits.
    assert_eq!(parse_hex_color("C0FFEE"), Some((192, 255, 238)));
    // A '+' sign is no hex digit.
    assert_eq!(parse_hex_color("+f0000"), None);
    // Wrong lengths and non-ASCII text.
    assert_eq!(parse_hex_color(""), None);
    assert_eq!(parse_hex_color("#"), None);
    assert_eq!(parse_hex_color("ff66001"), None);
    assert_eq!(parse_hex_color("ff66é"), None);
    assert_eq!(parse_hex_color("-f0000"), None);
}

#[test]
fn parse_osc_edge_cases() {
    // No "rgb:" at all.
    assert_eq!(parse_osc_color("\x1b]10;?\x07"), None);
    // Too few fields.
    assert_eq!(parse_osc_color("rgb:ff/00\x07"), None);
    // Extra fields are ignored.
    assert_eq!(parse_osc_color("rgb:ff/00/80/12"), Some((255, 0, 128)));
    // A field of five digits is refused.
    assert_eq!(parse_osc_color("rgb:fffff/00/80"), None);
    // An empty field is refused.
    assert_eq!(parse_osc_color("rgb://80"), None);
    // The first "rgb:" counts, and text after the terminator is ignored.
    assert_eq!(parse_osc_color("xrgb:1/2/3\x1b\\rgb:ff/ff/ff"), Some((17, 34, 51)));
    // Mixed widths.
    assert_eq!(parse_osc_color("rgb:f/00/800"), Some((255, 0, 128)));
}

#[test]
fn hex_fields_take_digits_only() {
    assert_eq!(parse_hex_color("+f+f+f"), None);
    assert_eq!(parse_hex_color("#+f+f+f"), None);
    assert_eq!(parse_hex_color("f\u{e9}abc"), None);
    assert_eq!(parse_hex_color("FF6600"), Some((255, 102, 0)));
    assert_eq!(parse_osc_color("\x1b]10;rgb:+f/00/00\x07"), None);
    assert_eq!(parse_osc_color("\x1b]10;rgb:ff/00/+0\x07"), None);
}
