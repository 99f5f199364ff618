//! Shared rasterisation and base64 encoding for pixel-based renderers.
//!
//! The iTerm2, Kitty and PNG paths all need the same "frame -> RGBA pixels"
//! rasterisation step and base64 encoding; they are defined once here.

use vstd::prelude::*;
use vstd::string::StringSliceAdditionalSpecFns;
use crate::frame::{PackedFrame, COMPACT_X0, COMPACT_X1, FRAME_HEIGHT};
use crate::pixel::{spec_unpack_pixel, unpack_pixel};
use crate::theme::Theme;

verus! {

/// Cropped image width in sprite pixels.
pub const CROP_W: usize = COMPACT_X1 - COMPACT_X0;

/// Cropped image height in sprite pixels.
pub const CROP_H: usize = FRAME_HEIGHT;

/// Maximum allowed scale factor.
///
/// At scale 16 the rasterised image is 384x416 pixels (~640 KB RGBA). Higher
/// values offer no visual benefit; every image renderer clamps to this value.
pub const MAX_SCALE: u8 = 16;

// ---------------------------------------------------------------------------
// Base64
// ---------------------------------------------------------------------------

/// The base64 alphabet letter for a 6-bit value (RFC 4648, standard alphabet).
pub open spec fn spec_b64_char(v: int) -> u8 {
    if v < 26 {
        (65 + v) as u8
    } else if v < 52 {
        (97 + v - 26) as u8
    } else if v < 62 {
        (48 + v - 52) as u8
    } else if v == 62 {
        43u8
    } else {
        47u8
    }
}

/// Standard padded base64 (RFC 4648) of `s`: every group of three bytes
/// becomes four letters, and a final group of one or two bytes is padded
/// with `=` to four letters.
pub open spec fn spec_base64(s: Seq<u8>) -> Seq<u8>
    decreases s.len(),
{
    if s.len() == 0 {
        seq![]
    } else if s.len() == 1 {
        seq![spec_b64_char((s[0] as int) / 4), spec_b64_char(((s[0] as int) % 4) * 16), 61u8, 61u8]
    } else if s.len() == 2 {
        seq![
            spec_b64_char((s[0] as int) / 4),
            spec_b64_char(((s[0] as int) % 4) * 16 + (s[1] as int) / 16),
            spec_b64_char(((s[1] as int) % 16) * 4),
            61u8,
        ]
    } else {
        seq![
            spec_b64_char((s[0] as int) / 4),
            spec_b64_char(((s[0] as int) % 4) * 16 + (s[1] as int) / 16),
            spec_b64_char(((s[1] as int) % 16) * 4 + (s[2] as int) / 64),
            spec_b64_char((s[2] as int) % 64),
        ] + spec_base64(s.skip(3))
    }
}

/// The alphabet letter of a 6-bit value.
fn b64_char(v: u8) -> (c: u8)
    requires
        v < 64,
    ensures
        c == spec_b64_char(v as int),
{
    if v < 26 {
        65 + v
    } else if v < 52 {
        97 + (v - 26)
    } else if v < 62 {
        48 + (v - 52)
    } else if v == 62 {
        43
    } else {
        47
    }
}

/// Base64-encode `input`, appending the result to `out`.
pub fn base64_encode(input: &[u8], out: &mut Vec<u8>)
    ensures
        final(out)@ == old(out)@ + spec_base64(input@),
{
    let len = input.len();
    let mut i: usize = 0;
    assert(input@.skip(0) =~= input@);
    while len - i > 2
        invariant
            len == input@.len(),
            i <= len,
            out@ + spec_base64(input@.skip(i as int)) == old(out)@ + spec_base64(input@),
        decreases len - i,
    {
        let a = input[i];
        let b = input[i + 1];
        let c = input[i + 2];
        let ghost rest = input@.skip(i as int);
        assert(rest.skip(3) =~= input@.skip(i + 3));
        out.push(b64_char(a / 4));
        out.push(b64_char((a % 4) * 16 + b / 16));
        out.push(b64_char((b % 16) * 4 + c / 64));
        out.push(b64_char(c % 64));
        i = i + 3;
        assert(out@ + spec_base64(input@.skip(i as int)) =~= old(out)@ + spec_base64(input@));
    }
    let remaining = len - i;
    let ghost rest = input@.skip(i as int);
    if remaining == 2 {
        let a = input[i];
        let b = input[i + 1];
        out.push(b64_char(a / 4));
        out.push(b64_char((a % 4) * 16 + b / 16));
        out.push(b64_char((b % 16) * 4));
        out.push(61);
    } else if remaining == 1 {
        let a = input[i];
        out.push(b64_char(a / 4));
        out.push(b64_char((a % 4) * 16));
        out.push(61);
        out.push(61);
    }
    assert(final(out)@ =~= old(out)@ + spec_base64(input@));
}

/// The base64 text of `n` bytes has `4 * ceil(n / 3)` letters.
pub proof fn lemma_base64_len(s: Seq<u8>)
    ensures
        spec_base64(s).len() == 4 * ((s.len() + 2) / 3),
    decreases s.len(),
{
    if s.len() > 2 {
        lemma_base64_len(s.skip(3));
    }
}

/// Every letter of a base64 text is from the alphabet `A-Z a-z 0-9 + /`
/// or is the padding `=`, and padding only appears in the last four letters.
pub proof fn lemma_base64_alphabet(s: Seq<u8>)
    ensures
        forall|i: int|
            0 <= i < spec_base64(s).len() ==> {
                let c = #[trigger] spec_base64(s)[i];
                ||| 65 <= c <= 90
                ||| 97 <= c <= 122
                ||| 48 <= c <= 57
                ||| c == 43
                ||| c == 47
                ||| (c == 61 && i >= spec_base64(s).len() - 4)
            },
    decreases s.len(),
{
    lemma_base64_len(s);
    if s.len() > 2 {
        lemma_base64_alphabet(s.skip(3));
        lemma_base64_len(s.skip(3));
    }
}

/// Encoding two texts whose first one has a length that is a multiple of
/// three is the same as encoding them one after the other.
pub proof fn lemma_base64_concat(a: Seq<u8>, b: Seq<u8>)
    requires
        a.len() % 3 == 0,
    ensures
        spec_base64(a + b) == spec_base64(a) + spec_base64(b),
    decreases a.len(),
{
    if a.len() == 0 {
        assert(a + b =~= b);
        assert(spec_base64(a) + spec_base64(b) =~= spec_base64(b));
    } else {
        lemma_base64_concat(a.skip(3), b);
        assert((a + b).skip(3) =~= a.skip(3) + b);
        assert(spec_base64(a + b) =~= spec_base64(a) + spec_base64(b));
    }
}

/// The 6-bit value of a base64 alphabet letter (0 for any other byte).
pub open spec fn spec_b64_value(c: u8) -> int {
    if 65 <= c <= 90 {
        c - 65
    } else if 97 <= c <= 122 {
        c - 97 + 26
    } else if 48 <= c <= 57 {
        c - 48 + 52
    } else if c == 43 {
        62
    } else if c == 47 {
        63
    } else {
        0
    }
}

/// Decoding of padded base64 text: every group of four letters gives three
/// bytes, or one byte when it ends in `==`, or two when it ends in `=`.
pub open spec fn spec_base64_decode(t: Seq<u8>) -> Seq<u8>
    decreases t.len(),
{
    if t.len() < 4 {
        seq![]
    } else {
        let v0 = spec_b64_value(t[0]);
        let v1 = spec_b64_value(t[1]);
        let v2 = spec_b64_value(t[2]);
        let v3 = spec_b64_value(t[3]);
        let b0 = (v0 * 4 + v1 / 16) as u8;
        let b1 = ((v1 % 16) * 16 + v2 / 4) as u8;
        let b2 = ((v2 % 4) * 64 + v3) as u8;
        if t[2] == 61 {
            seq![b0]
        } else if t[3] == 61 {
            seq![b0, b1]
        } else {
            seq![b0, b1, b2] + spec_base64_decode(t.skip(4))
        }
    }
}

/// Each 6-bit value is read back from its letter, and no letter is `=`.
proof fn lemma_b64_char_value(v: int)
    requires
        0 <= v < 64,
    ensures
        spec_b64_value(spec_b64_char(v)) == v,
        spec_b64_char(v) != 61,
{
}

/// The bytes of a three-byte group are read back from its four letters.
proof fn lemma_b64_group(a: int, b: int, c: int)
    requires
        0 <= a < 256,
        0 <= b < 256,
        0 <= c < 256,
    ensures
        (a / 4) * 4 + (((a % 4) * 16 + b / 16) / 16) == a,
        ((((a % 4) * 16 + b / 16) % 16) * 16 + ((b % 16) * 4 + c / 64) / 4) == b,
        ((((b % 16) * 4 + c / 64) % 4) * 64 + c % 64) == c,
        ((a % 4) * 16) / 16 == a % 4,
        ((((a % 4) * 16 + b / 16) % 16) * 16 + ((b % 16) * 4) / 4) == b,
        0 <= (a % 4) * 16 + b / 16 < 64,
        0 <= (b % 16) * 4 + c / 64 < 64,
{
    assert((a / 4) * 4 + a % 4 == a) by (nonlinear_arith);
    assert((b / 16) * 16 + b % 16 == b) by (nonlinear_arith);
    assert((c / 64) * 64 + c % 64 == c) by (nonlinear_arith);
}

/// Decoding the base64 text of `s` gives back `s`.
pub proof fn lemma_base64_round_trip(s: Seq<u8>)
    ensures
        spec_base64_decode(spec_base64(s)) == s,
    decreases s.len(),
{
    let t = spec_base64(s);
    if s.len() == 0 {
    } else if s.len() == 1 {
        let a = s[0] as int;
        lemma_b64_group(a, 0, 0);
        lemma_b64_char_value(a / 4);
        lemma_b64_char_value((a % 4) * 16);
        assert(spec_base64_decode(t) =~= s);
    } else if s.len() == 2 {
        let a = s[0] as int;
        let b = s[1] as int;
        lemma_b64_group(a, b, 0);
        lemma_b64_char_value(a / 4);
        lemma_b64_char_value((a % 4) * 16 + b / 16);
        lemma_b64_char_value((b % 16) * 4);
        assert(spec_base64_decode(t) =~= s);
    } else {
        let a = s[0] as int;
        let b = s[1] as int;
        let c = s[2] as int;
        lemma_b64_group(a, b, c);
        lemma_b64_char_value(a / 4);
        lemma_b64_char_value((a % 4) * 16 + b / 16);
        lemma_b64_char_value((b % 16) * 4 + c / 64);
        lemma_b64_char_value(c % 64);
        lemma_base64_round_trip(s.skip(3));
        assert(t.skip(4) =~= spec_base64(s.skip(3)));
        assert(seq![s[0], s[1], s[2]] + s.skip(3) =~= s);
        assert(spec_base64_decode(t) =~= s);
    }
}

// ---------------------------------------------------------------------------
// Rasteriser
// ---------------------------------------------------------------------------

/// The scale that renderers use for a requested `scale`: clamped to `1..=MAX_SCALE`.
pub open spec fn spec_clamp_scale(scale: u8) -> int {
    if scale < 1 {
        1
    } else if scale > MAX_SCALE {
        MAX_SCALE as int
    } else {
        scale as int
    }
}

/// The RGBA color of sprite pixel `(x, y)` of the cropped frame: the theme's
/// color with full alpha, or `(0, 0, 0, 0)` for a transparent pixel.
pub open spec fn spec_pixel_rgba(frame: PackedFrame, theme: Theme, x: int, y: int) -> (
    u8,
    u8,
    u8,
    u8,
) {
    match spec_unpack_pixel(frame[y][x + COMPACT_X0]) {
        Some(h) => (theme.spec_color(h).0, theme.spec_color(h).1, theme.spec_color(h).2, 255u8),
        None => (0u8, 0u8, 0u8, 0u8),
    }
}

/// Component `c` (0 = red, 1 = green, 2 = blue, 3 = alpha) of an RGBA value.
pub open spec fn spec_channel(p: (u8, u8, u8, u8), c: int) -> u8 {
    if c == 0 {
        p.0
    } else if c == 1 {
        p.1
    } else if c == 2 {
        p.2
    } else {
        p.3
    }
}

/// Whether sprite pixel `(x, y)` of the cropped frame is drawn (not transparent).
pub open spec fn spec_opaque(frame: PackedFrame, x: int, y: int) -> bool {
    spec_unpack_pixel(frame[y][x + COMPACT_X0]) is Some
}

/// The RGBA image of a frame at scale `s`: `CROP_W * s` by `CROP_H * s`
/// pixels, row by row, four bytes per pixel, where image pixel `(X, Y)` has
/// the color of sprite pixel `(X / s, Y / s)`. Each sprite pixel thus becomes
/// an `s x s` block of identical pixels.
pub open spec fn spec_raster(frame: PackedFrame, theme: Theme, s: int) -> Seq<u8> {
    let w = CROP_W * s;
    Seq::new(
        (w * (CROP_H * s) * 4) as nat,
        |i: int|
            spec_channel(
                spec_pixel_rgba(frame, theme, ((i / 4) % w) / s, ((i / 4) / w) / s),
                i % 4,
            ),
    )
}

/// Where byte `c` of image pixel `(x, y)` stands in a row-major RGBA buffer
/// of width `w`.
pub proof fn lemma_rgba_index(w: int, x: int, y: int, c: int)
    requires
        0 <= x < w,
        0 <= y,
        0 <= c < 4,
    ensures
        ((y * w + x) * 4 + c) / 4 == y * w + x,
        ((y * w + x) * 4 + c) % 4 == c,
        (y * w + x) % w == x,
        (y * w + x) / w == y,
{
    vstd::arithmetic::div_mod::lemma_fundamental_div_mod_converse(
        (y * w + x) * 4 + c,
        4,
        y * w + x,
        c,
    );
    vstd::arithmetic::div_mod::lemma_fundamental_div_mod_converse(y * w + x, w, y, x);
}

/// The RGBA color of sprite pixel `(x, y)`.
pub(crate) fn pixel_rgba(frame: &PackedFrame, theme: &Theme, x: usize, y: usize) -> (p: (
    u8,
    u8,
    u8,
    u8,
))
    requires
        x < CROP_W,
        y < CROP_H,
    ensures
        p == spec_pixel_rgba(*frame, *theme, x as int, y as int),
{
    match unpack_pixel(frame[y][x + COMPACT_X0]) {
        Some(hue) => {
            let (r, g, b) = theme.color(hue);
            (r, g, b, 255u8)
        },
        None => (0, 0, 0, 0),
    }
}

/// Rasterise a frame to RGBA pixels, applying the theme and scale factor.
///
/// Each sprite pixel becomes a `scale x scale` block of identical RGBA pixels.
/// Transparent pixels are encoded as `(0, 0, 0, 0)`. The scale is clamped to
/// `1..=MAX_SCALE`.
///
/// Returns `(rgba_buffer, width_px, height_px)`.
pub fn rasterise(frame: &PackedFrame, theme: &Theme, scale: u8) -> (res: (Vec<u8>, u32, u32))
    ensures
        res.1 == CROP_W * spec_clamp_scale(scale),
        res.2 == CROP_H * spec_clamp_scale(scale),
        res.0@ == spec_raster(*frame, *theme, spec_clamp_scale(scale)),
        res.0@.len() == res.1 * res.2 * 4,
{
    let s: usize = if scale < 1 {
        1
    } else if scale > MAX_SCALE {
        MAX_SCALE as usize
    } else {
        scale as usize
    };
    assert(CROP_W == 24 && CROP_H == 26 && s <= 16);
    let w = CROP_W * s;
    let h = CROP_H * s;
    let ghost full = spec_raster(*frame, *theme, s as int);
    assert(w * h * 4 < 0x1_0000_0000) by (nonlinear_arith)
        requires
            w == CROP_W * s,
            h == CROP_H * s,
            s <= 16,
    ;
    let mut rgba: Vec<u8> = Vec::with_capacity(w * h * 4);
    let mut y: usize = 0;
    while y < h
        invariant
            1 <= s <= 16,
            w == CROP_W * s,
            h == CROP_H * s,
            y <= h,
            full == spec_raster(*frame, *theme, s as int),
            full.len() == w * h * 4,
            rgba@ == full.take(y * w * 4),
        decreases h - y,
    {
        let sy = y / s;
        assert(sy < CROP_H) by (nonlinear_arith)
            requires
                sy == y / s,
                y < h,
                h == CROP_H * s,
                s >= 1,
        ;
        let mut x: usize = 0;
        while x < w
            invariant
                1 <= s <= 16,
                w == CROP_W * s,
                h == CROP_H * s,
                y < h,
                x <= w,
                sy == y / s,
                sy < CROP_H,
                full == spec_raster(*frame, *theme, s as int),
                full.len() == w * h * 4,
                rgba@ == full.take((y * w + x) * 4),
            decreases w - x,
        {
            let sx = x / s;
            assert(sx < CROP_W) by (nonlinear_arith)
                requires
                    sx == x / s,
                    x < w,
                    w == CROP_W * s,
                    s >= 1,
            ;
            let (r, g, b, a) = pixel_rgba(frame, theme, sx, sy);
            let ghost k = y * w + x;
            proof {
                assert((y * w + x + 1) * 4 <= w * h * 4) by (nonlinear_arith)
                    requires
                        x < w,
                        y < h,
                ;
                lemma_rgba_index(w as int, x as int, y as int, 0);
                lemma_rgba_index(w as int, x as int, y as int, 1);
                lemma_rgba_index(w as int, x as int, y as int, 2);
                lemma_rgba_index(w as int, x as int, y as int, 3);
            }
            rgba.push(r);
            rgba.push(g);
            rgba.push(b);
            rgba.push(a);
            x = x + 1;
            assert(rgba@ =~= full.take((y * w + x) * 4));
        }
        y = y + 1;
        assert(rgba@ =~= full.take(y * w * 4)) by {
            assert((y - 1) * w + w == y * w) by (nonlinear_arith);
        }
    }
    assert(y * w * 4 == w * h * 4) by (nonlinear_arith)
        requires
            y == h,
    ;
    assert(rgba@ =~= full);
    (rgba, w as u32, h as u32)
}

/// Byte `c` of image pixel `(x, y)` of a rasterised frame is that channel of
/// the color of sprite pixel `(x / s, y / s)`.
pub proof fn lemma_raster_pixel(frame: PackedFrame, theme: Theme, s: int, x: int, y: int, c: int)
    requires
        1 <= s,
        0 <= x < CROP_W * s,
        0 <= y < CROP_H * s,
        0 <= c < 4,
    ensures
        (y * (CROP_W * s) + x) * 4 + c < spec_raster(frame, theme, s).len(),
        spec_raster(frame, theme, s)[(y * (CROP_W * s) + x) * 4 + c] == spec_channel(
            spec_pixel_rgba(frame, theme, x / s, y / s),
            c,
        ),
{
    let w = CROP_W * s;
    let h = CROP_H * s;
    lemma_rgba_index(w, x, y, c);
    assert((y * w + x) * 4 + c < w * h * 4) by (nonlinear_arith)
        requires
            0 <= x < w,
            0 <= y < h,
            0 <= c < 4,
    ;
}

/// A rasterised pixel has full alpha exactly when its sprite pixel is drawn.
pub proof fn lemma_raster_alpha(frame: PackedFrame, theme: Theme, x: int, y: int)
    requires
        0 <= x < CROP_W,
        0 <= y < CROP_H,
    ensures
        spec_pixel_rgba(frame, theme, x, y).3 == (if spec_opaque(frame, x, y) {
            255u8
        } else {
            0u8
        }),
{
}

/// Image pixel `(x, y)` of a frame rasterised at scale `s` is sprite pixel
/// `(x / s, y / s)`: the theme's color of its hue, fully opaque, in the
/// byte order red, green, blue, alpha; a transparent sprite pixel gives
/// four zero bytes.
pub proof fn lemma_raster_colors(frame: PackedFrame, theme: Theme, s: int, x: int, y: int)
    requires
        1 <= s,
        0 <= x < CROP_W * s,
        0 <= y < CROP_H * s,
    ensures
        ({
            let r = spec_raster(frame, theme, s);
            let i = (y * (CROP_W * s) + x) * 4;
            &&& i + 3 < r.len()
            &&& match spec_unpack_pixel(frame[y / s][x / s + COMPACT_X0]) {
                Some(h) => r[i] == theme.lut@[h.spec_index()].0 && r[i + 1] == theme.lut@[
                    h.spec_index()
                ].1 && r[i + 2] == theme.lut@[h.spec_index()].2 && r[i + 3] == 255,
                None => r[i] == 0 && r[i + 1] == 0 && r[i + 2] == 0 && r[i + 3] == 0,
            }
        }),
{
    lemma_raster_pixel(frame, theme, s, x, y, 0);
    lemma_raster_pixel(frame, theme, s, x, y, 1);
    lemma_raster_pixel(frame, theme, s, x, y, 2);
    lemma_raster_pixel(frame, theme, s, x, y, 3);
}

/// The base64 alphabet of RFC 4648: value `v` is the `v`-th letter of
/// `A-Z a-z 0-9 + /`.
pub proof fn lemma_base64_alphabet_order(v: int)
    requires
        0 <= v < 64,
    ensures
        spec_b64_char(v) == "ABCDEFGHIJKLMNOPQRSTUVWXYZabcdefghijklmnopqrstuvwxyz0123456789+/".spec_bytes()[v],
{
    reveal_strlit("ABCDEFGHIJKLMNOPQRSTUVWXYZabcdefghijklmnopqrstuvwxyz0123456789+/");
    vstd::string::is_ascii_spec_bytes(
        "ABCDEFGHIJKLMNOPQRSTUVWXYZabcdefghijklmnopqrstuvwxyz0123456789+/",
    );
}

} // verus!
