//! DEC Sixel graphics protocol renderer.
//!
//! Encodes a [`PackedFrame`] as a Sixel image in a DCS (Device Control
//! String). Uses 16 color registers from the theme table with per-color
//! scanlines and RLE compression. The bytes to send are left in the
//! caller's buffer.

use vstd::prelude::*;
use vstd::arithmetic::power2::pow2;
use vstd::string::StringSliceAdditionalSpecFns;
use crate::bytes::{
    lemma_count_concat, lemma_count_lacks, lemma_decimal_lacks, lemma_decimal_read_back,
    lemma_digit_run_of, lemma_lacks_concat, push_all, push_decimal, spec_count, spec_decimal,
    spec_digit_run, spec_digits_value, spec_lacks,
};
use crate::frame::{PackedFrame, COMPACT_X0};
use crate::pixel::{spec_unpack_pixel, unpack_pixel, ALL_HUES, HUE_COUNT};
use crate::raster::{spec_clamp_scale, CROP_H, CROP_W, MAX_SCALE};
use crate::theme::Theme;

verus! {

// ---------------------------------------------------------------------------
// Run-length encoding
// ---------------------------------------------------------------------------

/// The length of the run of equal bytes that starts `data`.
pub open spec fn spec_run_len(data: Seq<u8>) -> nat
    decreases data.len(),
{
    if data.len() <= 1 {
        data.len()
    } else if data[1] != data[0] {
        1
    } else {
        1 + spec_run_len(data.drop_first())
    }
}

/// A run of at least one byte lies within the data.
pub proof fn lemma_run_len_bounds(data: Seq<u8>)
    ensures
        data.len() > 0 ==> 1 <= spec_run_len(data) <= data.len(),
        forall|j: int| 0 <= j < spec_run_len(data) ==> #[trigger] data[j] == data[0],
        spec_run_len(data) < data.len() ==> data[spec_run_len(data) as int] != data[0],
    decreases data.len(),
{
    if data.len() > 1 && data[1] == data[0] {
        let rest = data.drop_first();
        lemma_run_len_bounds(rest);
        assert forall|j: int| 0 <= j < spec_run_len(data) implies #[trigger] data[j] == data[0] by {
            if j > 0 {
                assert(data[j] == rest[j - 1]);
            }
        }
    }
}

/// A prefix of equal bytes that is followed by a different byte (or the
/// end) is the starting run.
proof fn lemma_run_len_is(data: Seq<u8>, k: int)
    requires
        1 <= k <= data.len(),
        forall|j: int| 0 <= j < k ==> #[trigger] data[j] == data[0],
        k == data.len() || data[k] != data[0],
    ensures
        spec_run_len(data) == k,
    decreases k,
{
    if k > 1 {
        let rest = data.drop_first();
        assert forall|j: int| 0 <= j < k - 1 implies #[trigger] rest[j] == rest[0] by {
            assert(rest[j] == data[j + 1]);
        }
        lemma_run_len_is(rest, k - 1);
    }
}

/// The encoding of a run of `n` copies of `ch`: `!<n><ch>` for runs of three
/// or more, else the bytes themselves.
pub open spec fn spec_rle_piece(ch: u8, n: nat) -> Seq<u8> {
    if n >= 3 {
        "!".spec_bytes() + spec_decimal(n) + seq![ch]
    } else {
        Seq::new(n, |i: int| ch)
    }
}

/// Sixel run-length encoding: each maximal run of equal bytes is encoded
/// by [`spec_rle_piece`].
pub open spec fn spec_rle(data: Seq<u8>) -> Seq<u8>
    decreases data.len(),
{
    if data.len() == 0 {
        seq![]
    } else {
        proof {
            lemma_run_len_bounds(data);
        }
        spec_rle_piece(data[0], spec_run_len(data)) + spec_rle(data.skip(spec_run_len(data) as int))
    }
}

/// RLE-encode a sixel scanline into `out`.
///
/// Repeated characters are encoded as `!N<char>` where N is the repeat count.
pub fn rle_encode(data: &[u8], out: &mut Vec<u8>)
    ensures
        final(out)@ == old(out)@ + spec_rle(data@),
{
    if data.len() == 0 {
        assert(final(out)@ =~= old(out)@ + spec_rle(data@));
        return;
    }
    let len = data.len();
    let mut i: usize = 0;
    assert(data@.skip(0) =~= data@);
    while i < len
        invariant
            len == data@.len(),
            i <= data@.len(),
            out@ + spec_rle(data@.skip(i as int)) == old(out)@ + spec_rle(data@),
        decreases data@.len() - i,
    {
        let ch = data[i];
        let mut count: usize = 1;
        while i + count < len && data[i + count] == ch
            invariant
                len == data@.len(),
                i < data@.len(),
                1 <= count,
                i + count <= data@.len(),
                ch == data@[i as int],
                forall|j: int| i <= j < i + count ==> #[trigger] data@[j] == ch,
            decreases data@.len() - i - count,
        {
            count = count + 1;
        }
        let ghost rest = data@.skip(i as int);
        proof {
            assert forall|j: int| 0 <= j < count implies #[trigger] rest[j] == rest[0] by {
                assert(rest[j] == data@[i + j]);
            }
            lemma_run_len_is(rest, count as int);
            assert(rest.skip(count as int) =~= data@.skip(i + count));
        }
        let ghost before = out@;
        if count >= 3 {
            push_all(out, "!".as_bytes());
            push_decimal(out, count);
            out.push(ch);
        } else {
            let mut k: usize = 0;
            while k < count
                invariant
                    k <= count,
                    count < 3,
                    out@ == before + Seq::new(k as nat, |j: int| ch),
                decreases count - k,
            {
                out.push(ch);
                k = k + 1;
                assert(out@ =~= before + Seq::new(k as nat, |j: int| ch));
            }
        }
        assert(out@ =~= before + spec_rle_piece(ch, count as nat));
        i = i + count;
    }
    assert(data@.skip(i as int) =~= Seq::<u8>::empty());
}

/// Sixel run-length decoding: `!<n><ch>` stands for `n` copies of `ch`,
/// and every other byte for itself.
pub open spec fn spec_rle_decode(t: Seq<u8>) -> Seq<u8>
    decreases t.len(),
{
    if t.len() == 0 {
        seq![]
    } else if t[0] == 33 {
        let k = spec_digit_run(t.skip(1)) as int;
        if 1 + k < t.len() {
            let n = spec_digits_value(t.subrange(1, 1 + k));
            Seq::new(n, |i: int| t[1 + k]) + spec_rle_decode(t.skip(2 + k))
        } else {
            seq![]
        }
    } else {
        seq![t[0]] + spec_rle_decode(t.skip(1))
    }
}

/// Whether every byte of a scanline is a sixel data byte, `?` to `~`.
pub open spec fn spec_sixel_data(data: Seq<u8>) -> bool {
    forall|i: int| 0 <= i < data.len() ==> 63 <= #[trigger] data[i] <= 126
}

/// Decoding the run-length encoding of a sixel scanline gives back the
/// scanline.
pub proof fn lemma_rle_round_trip(data: Seq<u8>)
    requires
        spec_sixel_data(data),
    ensures
        spec_rle_decode(spec_rle(data)) == data,
    decreases data.len(),
{
    if data.len() > 0 {
        reveal_strlit("!");
        vstd::string::is_ascii_spec_bytes("!");
        lemma_run_len_bounds(data);
        let r = spec_run_len(data);
        let ch = data[0];
        let rest = data.skip(r as int);
        assert(spec_sixel_data(rest));
        lemma_rle_round_trip(rest);
        let tail = spec_rle(rest);
        let piece = spec_rle_piece(ch, r);
        let t = spec_rle(data);
        assert(t == piece + tail);
        assert(data.take(r as int) =~= Seq::new(r, |i: int| ch));
        assert(data =~= data.take(r as int) + rest);
        if r >= 3 {
            let dec = spec_decimal(r);
            let k = dec.len() as int;
            lemma_decimal_read_back(r);
            assert(t =~= seq![33u8] + (dec + (seq![ch] + tail)));
            assert(t.skip(1) =~= dec + (seq![ch] + tail));
            lemma_digit_run_of(dec, seq![ch] + tail);
            assert(t.subrange(1, 1 + k) =~= dec);
            assert(t[1 + k] == ch);
            assert(t.skip(2 + k) =~= tail);
        } else if r == 2 {
            assert(t =~= seq![ch] + (seq![ch] + tail));
            assert(t.skip(1) =~= seq![ch] + tail);
            assert(t.skip(1).skip(1) =~= tail);
            assert(spec_rle_decode(t.skip(1)) =~= seq![ch] + spec_rle_decode(tail));
        } else {
            assert(t =~= seq![ch] + tail);
            assert(t.skip(1) =~= tail);
        }
    }
}

// ---------------------------------------------------------------------------
// Color map and sixel bands
// ---------------------------------------------------------------------------

/// The color register number plus one (`0` = transparent) of image pixel
/// `(x, y)` of a frame scaled by `s`.
pub open spec fn spec_color_code(frame: PackedFrame, s: int, x: int, y: int) -> int {
    match spec_unpack_pixel(frame[y / s][x / s + COMPACT_X0]) {
        Some(h) => h.spec_index() + 1,
        None => 0,
    }
}

/// The bits of the sixel of column `x` in the band starting at row
/// `band_y`, counting its first `n` rows: bit `dy` is set when row
/// `band_y + dy` exists and its pixel has color code `v`.
pub open spec fn spec_sixel_bits(
    frame: PackedFrame,
    s: int,
    img_h: int,
    x: int,
    band_y: int,
    v: int,
    n: nat,
) -> int
    decreases n,
{
    if n == 0 {
        0
    } else {
        spec_sixel_bits(frame, s, img_h, x, band_y, v, (n - 1) as nat) + (if band_y + n - 1 < img_h
            && spec_color_code(frame, s, x, band_y + n - 1) == v {
            pow2((n - 1) as nat) as int
        } else {
            0
        })
    }
}

/// The sixel characters of one color in one band: one per image column,
/// the six row bits offset by `0x3F`.
pub open spec fn spec_sixel_row(
    frame: PackedFrame,
    s: int,
    img_w: int,
    img_h: int,
    band_y: int,
    v: int,
) -> Seq<u8> {
    Seq::new(
        img_w as nat,
        |x: int| (0x3F + spec_sixel_bits(frame, s, img_h, x, band_y, v, 6)) as u8,
    )
}

/// The first `n` row bits of a sixel form a number below `2^n`.
proof fn lemma_sixel_bits_bound(
    frame: PackedFrame,
    s: int,
    img_h: int,
    x: int,
    band_y: int,
    v: int,
    n: nat,
)
    ensures
        0 <= spec_sixel_bits(frame, s, img_h, x, band_y, v, n) < pow2(n),
    decreases n,
{
    if n > 0 {
        lemma_sixel_bits_bound(frame, s, img_h, x, band_y, v, (n - 1) as nat);
        vstd::arithmetic::power2::lemma_pow2_unfold(n);
    } else {
        vstd::arithmetic::power2::lemma2_to64();
    }
}

/// Every character of a sixel row is a sixel data byte, so the row's
/// run-length encoding decodes back to it.
pub proof fn lemma_sixel_row_is_data(
    frame: PackedFrame,
    s: int,
    img_w: int,
    img_h: int,
    band_y: int,
    v: int,
)
    ensures
        spec_sixel_data(spec_sixel_row(frame, s, img_w, img_h, band_y, v)),
        spec_rle_decode(spec_rle(spec_sixel_row(frame, s, img_w, img_h, band_y, v)))
            == spec_sixel_row(frame, s, img_w, img_h, band_y, v),
{
    let row = spec_sixel_row(frame, s, img_w, img_h, band_y, v);
    vstd::arithmetic::power2::lemma2_to64();
    assert forall|i: int| 0 <= i < row.len() implies 63 <= #[trigger] row[i] <= 126 by {
        lemma_sixel_bits_bound(frame, s, img_h, i, band_y, v, 6);
    }
    lemma_rle_round_trip(row);
}

/// Whether color code `v` appears in the band of six rows starting at `band_y`.
pub open spec fn spec_band_has_color(
    frame: PackedFrame,
    s: int,
    img_w: int,
    img_h: int,
    band_y: int,
    v: int,
) -> bool {
    exists|dy: int, x: int|
        0 <= dy < 6 && band_y + dy < img_h && 0 <= x < img_w && #[trigger] spec_color_code(
            frame,
            s,
            x,
            band_y + dy,
        ) == v
}

/// The output of color register `ci` for band `band`: nothing when the
/// color does not appear in the band, else select the color (`#ci`), its
/// run-length encoded sixels, and a graphics carriage return (`$`).
pub open spec fn spec_color_pass(
    frame: PackedFrame,
    s: int,
    img_w: int,
    img_h: int,
    band: int,
    ci: int,
) -> Seq<u8> {
    if spec_band_has_color(frame, s, img_w, img_h, band * 6, ci + 1) {
        "#".spec_bytes() + spec_decimal(ci as nat) + spec_rle(
            spec_sixel_row(frame, s, img_w, img_h, band * 6, ci + 1),
        ) + "$".spec_bytes()
    } else {
        seq![]
    }
}

/// The passes of the first `n` color registers in band `band`.
pub open spec fn spec_band_passes(
    frame: PackedFrame,
    s: int,
    img_w: int,
    img_h: int,
    band: int,
    n: nat,
) -> Seq<u8>
    decreases n,
{
    if n == 0 {
        seq![]
    } else {
        spec_band_passes(frame, s, img_w, img_h, band, (n - 1) as nat) + spec_color_pass(
            frame,
            s,
            img_w,
            img_h,
            band,
            n - 1,
        )
    }
}

/// The first `k` of `band_count` bands: each is its color passes, followed
/// by a graphics new line (`-`) unless it is the last band.
pub open spec fn spec_bands(
    frame: PackedFrame,
    s: int,
    img_w: int,
    img_h: int,
    band_count: int,
    k: nat,
) -> Seq<u8>
    decreases k,
{
    if k == 0 {
        seq![]
    } else {
        spec_bands(frame, s, img_w, img_h, band_count, (k - 1) as nat) + spec_band_passes(
            frame,
            s,
            img_w,
            img_h,
            k - 1,
            HUE_COUNT as nat,
        ) + (if k < band_count {
            "-".spec_bytes()
        } else {
            seq![]
        })
    }
}

/// A color channel as a percentage, rounded down.
pub open spec fn spec_percent(c: u8) -> nat {
    (c as nat * 100 / 255) as nat
}

/// The color register definition `#i;2;R;G;B` (RGB percentages) of theme
/// entry `i`.
pub open spec fn spec_palette_entry(theme: Theme, i: nat) -> Seq<u8> {
    let (r, g, b) = theme.lut@[i as int];
    "#".spec_bytes() + spec_decimal(i) + ";2;".spec_bytes() + spec_decimal(spec_percent(r))
        + ";".spec_bytes() + spec_decimal(spec_percent(g)) + ";".spec_bytes() + spec_decimal(
        spec_percent(b),
    )
}

/// The color register definitions of the first `n` theme entries.
pub open spec fn spec_palette(theme: Theme, n: nat) -> Seq<u8>
    decreases n,
{
    if n == 0 {
        seq![]
    } else {
        spec_palette(theme, (n - 1) as nat) + spec_palette_entry(theme, (n - 1) as nat)
    }
}

/// The Sixel image of a frame at scale `s`: the DCS introducer `ESC P q`,
/// the raster attributes `"1;1;<w>;<h>`, the palette, the bands of six
/// rows, and the string terminator `ESC \`.
pub open spec fn spec_sixel_image(frame: PackedFrame, theme: Theme, s: int) -> Seq<u8> {
    let img_w = CROP_W * s;
    let img_h = CROP_H * s;
    let band_count = (img_h + 5) / 6;
    "\x1bPq".spec_bytes() + "\"1;1;".spec_bytes() + spec_decimal(img_w as nat) + ";".spec_bytes()
        + spec_decimal(img_h as nat) + spec_palette(theme, HUE_COUNT as nat) + spec_bands(
        frame,
        s,
        img_w,
        img_h,
        band_count,
        band_count as nat,
    ) + "\x1b\\".spec_bytes()
}

/// The bytes that [`draw_sixel`] leaves for the terminal.
pub open spec fn spec_sixel_frame(frame: PackedFrame, theme: Theme, scale: u8) -> Seq<u8> {
    spec_sixel_image(frame, theme, spec_clamp_scale(scale))
}

/// The color code of image pixel `(x, y)`.
fn color_code(frame: &PackedFrame, s: usize, x: usize, y: usize) -> (v: u8)
    requires
        1 <= s <= 16,
        x < CROP_W * s,
        y < CROP_H * s,
    ensures
        v == spec_color_code(*frame, s as int, x as int, y as int),
{
    let sx = x / s;
    let sy = y / s;
    assert(sx < CROP_W && sy < CROP_H) by (nonlinear_arith)
        requires
            sx == x / s,
            sy == y / s,
            x < CROP_W * s,
            y < CROP_H * s,
            s >= 1,
    ;
    match unpack_pixel(frame[sy][sx + COMPACT_X0]) {
        Some(hue) => (hue.index() + 1) as u8,
        None => 0,
    }
}

/// Whether color code `v` appears in the band of six rows starting at `band_y`.
fn band_has_color(
    frame: &PackedFrame,
    s: usize,
    img_w: usize,
    img_h: usize,
    band_y: usize,
    v: u8,
) -> (r: bool)
    requires
        1 <= s <= 16,
        img_w == CROP_W * s,
        img_h == CROP_H * s,
        band_y < img_h,
    ensures
        r == spec_band_has_color(
            *frame,
            s as int,
            img_w as int,
            img_h as int,
            band_y as int,
            v as int,
        ),
{
    assert(img_h <= 416) by (nonlinear_arith)
        requires
            img_h == CROP_H * s,
            s <= 16,
    ;
    let mut dy: usize = 0;
    while dy < 6 && band_y + dy < img_h
        invariant
            img_h <= 416,
            dy <= 6,
            1 <= s <= 16,
            img_w == CROP_W * s,
            img_h == CROP_H * s,
            band_y < img_h,
            forall|d: int, x: int|
                0 <= d < dy && band_y + d < img_h && 0 <= x < img_w ==> #[trigger] spec_color_code(
                    *frame,
                    s as int,
                    x,
                    band_y + d,
                ) != v,
        decreases 6 - dy,
    {
        let y = band_y + dy;
        let mut x: usize = 0;
        while x < img_w
            invariant
                dy < 6,
                y == band_y + dy,
                y < img_h,
                x <= img_w,
                1 <= s <= 16,
                img_w == CROP_W * s,
                img_h == CROP_H * s,
                forall|d: int, xx: int|
                    0 <= d < dy && band_y + d < img_h && 0 <= xx < img_w
                        ==> #[trigger] spec_color_code(*frame, s as int, xx, band_y + d) != v,
                forall|xx: int|
                    0 <= xx < x ==> #[trigger] spec_color_code(*frame, s as int, xx, y as int)
                        != v,
            decreases img_w - x,
        {
            if color_code(frame, s, x, y) == v {
                assert(spec_color_code(*frame, s as int, x as int, band_y + dy) == v);
                return true;
            }
            x = x + 1;
        }
        dy = dy + 1;
    }
    false
}

/// The sixel characters of color code `v` in the band starting at `band_y`.
fn sixel_row(
    frame: &PackedFrame,
    s: usize,
    img_w: usize,
    img_h: usize,
    band_y: usize,
    v: u8,
) -> (row: Vec<u8>)
    requires
        1 <= s <= 16,
        img_w == CROP_W * s,
        img_h == CROP_H * s,
        band_y < img_h,
    ensures
        row@ == spec_sixel_row(
            *frame,
            s as int,
            img_w as int,
            img_h as int,
            band_y as int,
            v as int,
        ),
{
    let mut row: Vec<u8> = Vec::with_capacity(img_w);
    let mut x: usize = 0;
    proof {
        vstd::arithmetic::power2::lemma2_to64();
    }
    while x < img_w
        invariant
            x <= img_w,
            1 <= s <= 16,
            img_w == CROP_W * s,
            img_h == CROP_H * s,
            band_y < img_h,
            row@.len() == x,
            forall|xx: int|
                0 <= xx < x ==> #[trigger] row@[xx] == (0x3F + spec_sixel_bits(
                    *frame,
                    s as int,
                    img_h as int,
                    xx,
                    band_y as int,
                    v as int,
                    6,
                )) as u8,
            pow2(0) == 1 && pow2(1) == 2 && pow2(2) == 4 && pow2(3) == 8 && pow2(4) == 16 && pow2(5)
                == 32 && pow2(6) == 64,
        decreases img_w - x,
    {
        let mut sixel_val: u8 = 0;
        let mut bit: u8 = 1;
        let mut dy: usize = 0;
        while dy < 6
            invariant
                dy <= 6,
                x < img_w,
                band_y < img_h,
                1 <= s <= 16,
                img_w == CROP_W * s,
                img_h == CROP_H * s,
                bit == pow2(dy as nat),
                sixel_val < bit,
                sixel_val == spec_sixel_bits(
                    *frame,
                    s as int,
                    img_h as int,
                    x as int,
                    band_y as int,
                    v as int,
                    dy as nat,
                ),
                pow2(0) == 1 && pow2(1) == 2 && pow2(2) == 4 && pow2(3) == 8 && pow2(4) == 16
                    && pow2(5) == 32 && pow2(6) == 64,
            decreases 6 - dy,
        {
            let y = band_y + dy;
            if y < img_h && color_code(frame, s, x, y) == v {
                assert(sixel_val | bit == sixel_val + bit) by (bit_vector)
                    requires
                        sixel_val < bit,
                        bit == 1 || bit == 2 || bit == 4 || bit == 8 || bit == 16 || bit == 32,
                ;
                sixel_val = sixel_val | bit;
            }
            assert(bit <= 32) by {
                if dy == 0 {
                } else if dy == 1 {
                } else if dy == 2 {
                } else if dy == 3 {
                } else if dy == 4 {
                } else {
                }
            }
            proof {
                vstd::arithmetic::power2::lemma_pow2_unfold((dy + 1) as nat);
            }
            bit = bit * 2;
            dy = dy + 1;
        }
        row.push(sixel_val + 0x3F);  // Sixel encoding offset
        x = x + 1;
    }
    assert(row@ =~= spec_sixel_row(
        *frame,
        s as int,
        img_w as int,
        img_h as int,
        band_y as int,
        v as int,
    ));
    row
}

/// Append the output of color register `ci` for the band starting at `band * 6`.
fn push_color_pass(
    buf: &mut Vec<u8>,
    frame: &PackedFrame,
    s: usize,
    img_w: usize,
    img_h: usize,
    band: usize,
    ci: usize,
)
    requires
        1 <= s <= 16,
        img_w == CROP_W * s,
        img_h == CROP_H * s,
        band * 6 < img_h,
        ci < HUE_COUNT,
    ensures
        final(buf)@ == old(buf)@ + spec_color_pass(
            *frame,
            s as int,
            img_w as int,
            img_h as int,
            band as int,
            ci as int,
        ),
{
    let band_y = band * 6;
    let ci_val = (ci as u8) + 1;
    // Check if this color appears in this band at all
    if band_has_color(frame, s, img_w, img_h, band_y, ci_val) {
        // Select this color
        push_all(buf, "#".as_bytes());
        push_decimal(buf, ci);
        // Build sixel data for this color in this band, RLE encoded
        let sixels = sixel_row(frame, s, img_w, img_h, band_y, ci_val);
        rle_encode(sixels.as_slice(), buf);
        // Graphics carriage return ($) to overlay next color on same band
        push_all(buf, "$".as_bytes());
    }
    assert(final(buf)@ =~= old(buf)@ + spec_color_pass(
        *frame,
        s as int,
        img_w as int,
        img_h as int,
        band as int,
        ci as int,
    ));
}

/// Append the color definition of theme entry `i`.
fn push_palette_entry(buf: &mut Vec<u8>, theme: &Theme, i: usize)
    requires
        i < HUE_COUNT,
    ensures
        final(buf)@ == old(buf)@ + spec_palette_entry(*theme, i as nat),
{
    let (r, g, b) = theme.lut[i];
    let rp = (r as u16 * 100 / 255) as u8;
    let gp = (g as u16 * 100 / 255) as u8;
    let bp = (b as u16 * 100 / 255) as u8;
    push_all(buf, "#".as_bytes());
    push_decimal(buf, i);
    push_all(buf, ";2;".as_bytes());
    push_decimal(buf, rp as usize);
    push_all(buf, ";".as_bytes());
    push_decimal(buf, gp as usize);
    push_all(buf, ";".as_bytes());
    push_decimal(buf, bp as usize);
    assert(final(buf)@ =~= old(buf)@ + spec_palette_entry(*theme, i as nat));
}

/// Append the color definitions of the theme.
fn push_palette(buf: &mut Vec<u8>, theme: &Theme)
    ensures
        final(buf)@ == old(buf)@ + spec_palette(*theme, HUE_COUNT as nat),
{
    let mut hue_idx: usize = 0;
    while hue_idx < HUE_COUNT
        invariant
            hue_idx <= HUE_COUNT,
            buf@ == old(buf)@ + spec_palette(*theme, hue_idx as nat),
        decreases HUE_COUNT - hue_idx,
    {
        push_palette_entry(buf, theme, hue_idx);
        hue_idx = hue_idx + 1;
        assert(buf@ =~= old(buf)@ + spec_palette(*theme, hue_idx as nat));
    }
}

/// Render a frame using the DEC Sixel protocol.
///
/// Each sprite pixel is rendered as `scale x scale` screen pixels (the
/// scale is clamped to `1..=MAX_SCALE`). The frame is cropped to the
/// bounding box, and Sixel bands (6 rows each) are emitted with per-color
/// scanlines and RLE compression.
///
/// `buf` is a reusable scratch buffer to avoid per-frame allocation; on
/// return it holds the sequence, which is also appended to `out`.
pub fn draw_sixel(
    buf: &mut Vec<u8>,
    out: &mut Vec<u8>,
    frame: &PackedFrame,
    theme: &Theme,
    scale: u8,
)
    ensures
        final(buf)@ == spec_sixel_frame(*frame, *theme, scale),
        final(out)@ == old(out)@ + spec_sixel_frame(*frame, *theme, scale),
{
    build_sixel(buf, frame, theme, scale);
    push_all(out, buf.as_slice());
}

/// Fill `buf` with exactly the sequence for one frame.
fn build_sixel(buf: &mut Vec<u8>, frame: &PackedFrame, theme: &Theme, scale: u8)
    ensures
        final(buf)@ == spec_sixel_frame(*frame, *theme, scale),
{
    let s: usize = if scale < 1 {
        1
    } else if scale > MAX_SCALE {
        MAX_SCALE as usize
    } else {
        scale as usize
    };
    assert(CROP_W * s <= 384 && CROP_H * s <= 416) by (nonlinear_arith)
        requires
            s <= 16,
    ;
    let img_w = CROP_W * s;
    let img_h = CROP_H * s;
    buf.clear();
    // DCS introducer
    push_all(buf, "\x1bPq".as_bytes());
    // Raster attributes: "Pan;Pad;Ph;Pv (aspect 1:1, width, height)
    push_all(buf, "\"1;1;".as_bytes());
    push_decimal(buf, img_w);
    push_all(buf, ";".as_bytes());
    push_decimal(buf, img_h);
    // Define color palette: #N;2;R;G;B (RGB percentages)
    push_palette(buf, theme);
    let ghost head = buf@;
    // Emit sixel bands (each band = 6 pixel rows)
    let band_count = (img_h + 5) / 6;
    let mut band: usize = 0;
    while band < band_count
        invariant
            1 <= s <= 16,
            img_w == CROP_W * s,
            img_h == CROP_H * s,
            band_count == (img_h + 5) / 6,
            band <= band_count,
            buf@ == head + spec_bands(
                *frame,
                s as int,
                img_w as int,
                img_h as int,
                band_count as int,
                band as nat,
            ),
        decreases band_count - band,
    {
        let ghost before = buf@;
        let mut ci: usize = 0;
        while ci < HUE_COUNT
            invariant
                1 <= s <= 16,
                img_w == CROP_W * s,
                img_h == CROP_H * s,
                band * 6 < img_h,
                ci <= HUE_COUNT,
                buf@ == before + spec_band_passes(
                    *frame,
                    s as int,
                    img_w as int,
                    img_h as int,
                    band as int,
                    ci as nat,
                ),
            decreases HUE_COUNT - ci,
        {
            push_color_pass(buf, frame, s, img_w, img_h, band, ci);
            ci = ci + 1;
            assert(buf@ =~= before + spec_band_passes(
                *frame,
                s as int,
                img_w as int,
                img_h as int,
                band as int,
                ci as nat,
            ));
        }
        // Graphics new line (-) to advance to next band
        if band + 1 < band_count {
            push_all(buf, "-".as_bytes());
        }
        band = band + 1;
        assert(buf@ =~= head + spec_bands(
            *frame,
            s as int,
            img_w as int,
            img_h as int,
            band_count as int,
            band as nat,
        ));
    }
    // String Terminator
    push_all(buf, "\x1b\\".as_bytes());
    assert(final(buf)@ =~= spec_sixel_frame(*frame, *theme, scale));
}

/// Every frame drawn with the Sixel protocol is one DCS string: it opens
/// with `ESC P q` and ends with the string terminator `ESC \`. A scale of 0
/// draws as scale 1, and any scale above [`MAX_SCALE`] as [`MAX_SCALE`].
pub proof fn lemma_sixel_framing(frame: PackedFrame, theme: Theme, scale: u8)
    ensures
        spec_sixel_frame(frame, theme, scale).len() >= 5,
        spec_sixel_frame(frame, theme, scale).take(3) == "\x1bPq".spec_bytes(),
        spec_sixel_frame(frame, theme, scale).skip(
            spec_sixel_frame(frame, theme, scale).len() - 2,
        ) == "\x1b\\".spec_bytes(),
        spec_sixel_frame(frame, theme, 0) == spec_sixel_frame(frame, theme, 1),
        scale >= MAX_SCALE ==> spec_sixel_frame(frame, theme, scale) == spec_sixel_frame(
            frame,
            theme,
            MAX_SCALE,
        ),
{
    reveal_strlit("\x1bPq");
    vstd::string::is_ascii_spec_bytes("\x1bPq");
    reveal_strlit("\x1b\\");
    vstd::string::is_ascii_spec_bytes("\x1b\\");
    let s = spec_clamp_scale(scale);
    let img_w = CROP_W * s;
    let img_h = CROP_H * s;
    let band_count = (img_h + 5) / 6;
    let open = "\x1bPq".spec_bytes();
    let close = "\x1b\\".spec_bytes();
    let mid = "\"1;1;".spec_bytes() + spec_decimal(img_w as nat) + ";".spec_bytes() + spec_decimal(
        img_h as nat,
    ) + spec_palette(theme, HUE_COUNT as nat) + spec_bands(
        frame,
        s,
        img_w,
        img_h,
        band_count,
        band_count as nat,
    );
    let whole = spec_sixel_frame(frame, theme, scale);
    assert(whole =~= open + mid + close);
    assert(whole.take(3) =~= open);
    assert(whole.skip(whole.len() - 2) =~= close);
}

/// A literal without `-`.
proof fn lemma_literal_lacks_dash()
    ensures
        spec_lacks("#".spec_bytes(), 45u8),
        spec_lacks("$".spec_bytes(), 45u8),
        spec_lacks("!".spec_bytes(), 45u8),
        spec_lacks(";".spec_bytes(), 45u8),
        spec_lacks(";2;".spec_bytes(), 45u8),
        spec_lacks("\x1bPq".spec_bytes(), 45u8),
        spec_lacks("\"1;1;".spec_bytes(), 45u8),
        spec_lacks("\x1b\\".spec_bytes(), 45u8),
        "-".spec_bytes() == seq![45u8],
{
    reveal_strlit("#");
    vstd::string::is_ascii_spec_bytes("#");
    reveal_strlit("$");
    vstd::string::is_ascii_spec_bytes("$");
    reveal_strlit("!");
    vstd::string::is_ascii_spec_bytes("!");
    reveal_strlit(";");
    vstd::string::is_ascii_spec_bytes(";");
    reveal_strlit(";2;");
    vstd::string::is_ascii_spec_bytes(";2;");
    reveal_strlit("\x1bPq");
    vstd::string::is_ascii_spec_bytes("\x1bPq");
    reveal_strlit("\"1;1;");
    vstd::string::is_ascii_spec_bytes("\"1;1;");
    reveal_strlit("\x1b\\");
    vstd::string::is_ascii_spec_bytes("\x1b\\");
    reveal_strlit("-");
    vstd::string::is_ascii_spec_bytes("-");
    assert("-".spec_bytes() =~= seq![45u8]);
}

/// The run-length encoding of sixel data holds no `-`.
proof fn lemma_rle_lacks_dash(data: Seq<u8>)
    requires
        spec_sixel_data(data),
    ensures
        spec_lacks(spec_rle(data), 45u8),
    decreases data.len(),
{
    if data.len() > 0 {
        lemma_run_len_bounds(data);
        let r = spec_run_len(data);
        let rest = data.skip(r as int);
        assert(spec_sixel_data(rest));
        lemma_rle_lacks_dash(rest);
        let ch = data[0];
        lemma_literal_lacks_dash();
        if r >= 3 {
            lemma_decimal_lacks(r, 45u8);
            lemma_lacks_concat("!".spec_bytes(), spec_decimal(r), 45u8);
            lemma_lacks_concat("!".spec_bytes() + spec_decimal(r), seq![ch], 45u8);
        }
        lemma_lacks_concat(spec_rle_piece(ch, r), spec_rle(rest), 45u8);
    }
}

/// The passes of the first `n` colors of a band hold no `-`.
proof fn lemma_band_passes_lack_dash(
    frame: PackedFrame,
    s: int,
    img_w: int,
    img_h: int,
    band: int,
    n: nat,
)
    ensures
        spec_lacks(spec_band_passes(frame, s, img_w, img_h, band, n), 45u8),
    decreases n,
{
    if n > 0 {
        lemma_band_passes_lack_dash(frame, s, img_w, img_h, band, (n - 1) as nat);
        let ci = n - 1;
        let pass = spec_color_pass(frame, s, img_w, img_h, band, ci);
        if spec_band_has_color(frame, s, img_w, img_h, band * 6, ci + 1) {
            lemma_literal_lacks_dash();
            lemma_sixel_row_is_data(frame, s, img_w, img_h, band * 6, ci + 1);
            lemma_rle_lacks_dash(spec_sixel_row(frame, s, img_w, img_h, band * 6, ci + 1));
            lemma_decimal_lacks(ci as nat, 45u8);
            let a = "#".spec_bytes() + spec_decimal(ci as nat);
            lemma_lacks_concat("#".spec_bytes(), spec_decimal(ci as nat), 45u8);
            let r = spec_rle(spec_sixel_row(frame, s, img_w, img_h, band * 6, ci + 1));
            lemma_lacks_concat(a, r, 45u8);
            lemma_lacks_concat(a + r, "$".spec_bytes(), 45u8);
        }
        lemma_lacks_concat(spec_band_passes(frame, s, img_w, img_h, band, (n - 1) as nat), pass, 45u8);
    }
}

/// The first `k` bands hold one `-` after each band but the last.
proof fn lemma_bands_dashes(
    frame: PackedFrame,
    s: int,
    img_w: int,
    img_h: int,
    band_count: int,
    k: nat,
)
    requires
        k <= band_count,
    ensures
        spec_count(spec_bands(frame, s, img_w, img_h, band_count, k), 45u8) == (if k
            == band_count && k > 0 {
            k - 1
        } else {
            k as int
        }),
    decreases k,
{
    if k > 0 {
        lemma_bands_dashes(frame, s, img_w, img_h, band_count, (k - 1) as nat);
        let prev = spec_bands(frame, s, img_w, img_h, band_count, (k - 1) as nat);
        let passes = spec_band_passes(frame, s, img_w, img_h, k - 1, HUE_COUNT as nat);
        let sep = if k < band_count {
            "-".spec_bytes()
        } else {
            seq![]
        };
        lemma_band_passes_lack_dash(frame, s, img_w, img_h, k - 1, HUE_COUNT as nat);
        lemma_count_lacks(passes, 45u8);
        lemma_literal_lacks_dash();
        lemma_count_concat(prev, passes, 45u8);
        lemma_count_concat(prev + passes, sep, 45u8);
        assert(seq![45u8].drop_last() =~= Seq::<u8>::empty());
        assert(spec_count(Seq::<u8>::empty(), 45u8) == 0);
        assert(seq![45u8].last() == 45u8);
        assert(spec_count(seq![45u8], 45u8) == spec_count(seq![45u8].drop_last(), 45u8) + 1);
        assert(spec_count(Seq::<u8>::empty(), 45u8) == 0);
    }
}

/// The palette holds no `-`.
proof fn lemma_palette_lacks_dash(theme: Theme, n: nat)
    ensures
        spec_lacks(spec_palette(theme, n), 45u8),
    decreases n,
{
    if n > 0 {
        lemma_palette_lacks_dash(theme, (n - 1) as nat);
        lemma_literal_lacks_dash();
        let i = (n - 1) as nat;
        let (r, g, b) = theme.lut@[i as int];
        lemma_decimal_lacks(i, 45u8);
        lemma_decimal_lacks(spec_percent(r), 45u8);
        lemma_decimal_lacks(spec_percent(g), 45u8);
        lemma_decimal_lacks(spec_percent(b), 45u8);
        let p1 = "#".spec_bytes() + spec_decimal(i);
        lemma_lacks_concat("#".spec_bytes(), spec_decimal(i), 45u8);
        let p2 = p1 + ";2;".spec_bytes();
        lemma_lacks_concat(p1, ";2;".spec_bytes(), 45u8);
        let p3 = p2 + spec_decimal(spec_percent(r));
        lemma_lacks_concat(p2, spec_decimal(spec_percent(r)), 45u8);
        let p4 = p3 + ";".spec_bytes();
        lemma_lacks_concat(p3, ";".spec_bytes(), 45u8);
        let p5 = p4 + spec_decimal(spec_percent(g));
        lemma_lacks_concat(p4, spec_decimal(spec_percent(g)), 45u8);
        let p6 = p5 + ";".spec_bytes();
        lemma_lacks_concat(p5, ";".spec_bytes(), 45u8);
        lemma_lacks_concat(p6, spec_decimal(spec_percent(b)), 45u8);
        assert(spec_palette_entry(theme, i) == p6 + spec_decimal(spec_percent(b)));
        lemma_lacks_concat(spec_palette(theme, i), spec_palette_entry(theme, i), 45u8);
    }
}

/// A Sixel frame at the clamped scale `c` is `ESC P q "1;1;<24c>;<26c>`,
/// the sixteen palette entries, the bands, and `ESC \`; it holds exactly
/// one graphics new line `-` between each two consecutive bands of six
/// rows, `ceil(26c / 6) - 1` of them, all in the bands.
pub proof fn lemma_sixel_band_separators(frame: PackedFrame, theme: Theme, scale: u8)
    ensures
        ({
            let c = spec_clamp_scale(scale);
            let bands = (CROP_H * c + 5) / 6;
            let body = spec_bands(frame, c, CROP_W * c, CROP_H * c, bands, bands as nat);
            &&& spec_sixel_frame(frame, theme, scale) == "\x1bPq".spec_bytes() + "\"1;1;".spec_bytes()
                + spec_decimal((CROP_W * c) as nat) + ";".spec_bytes() + spec_decimal(
                (CROP_H * c) as nat,
            ) + spec_palette(theme, HUE_COUNT as nat) + body + "\x1b\\".spec_bytes()
            &&& spec_count(body, 45u8) == bands - 1
        }),
        spec_count(spec_sixel_frame(frame, theme, scale), 45u8) == (CROP_H * spec_clamp_scale(scale)
            + 5) / 6 - 1,
{
    let s = spec_clamp_scale(scale);
    let img_w = CROP_W * s;
    let img_h = CROP_H * s;
    let band_count = (img_h + 5) / 6;
    assert(CROP_H == 26);
    assert(img_h >= 26) by (nonlinear_arith)
        requires
            img_h == 26 * s,
            s >= 1,
    ;
    assert(band_count >= 1);
    lemma_literal_lacks_dash();
    lemma_decimal_lacks(img_w as nat, 45u8);
    lemma_decimal_lacks(img_h as nat, 45u8);
    lemma_palette_lacks_dash(theme, HUE_COUNT as nat);
    let h1 = "\x1bPq".spec_bytes() + "\"1;1;".spec_bytes();
    lemma_lacks_concat("\x1bPq".spec_bytes(), "\"1;1;".spec_bytes(), 45u8);
    let h2 = h1 + spec_decimal(img_w as nat);
    lemma_lacks_concat(h1, spec_decimal(img_w as nat), 45u8);
    let h3 = h2 + ";".spec_bytes();
    lemma_lacks_concat(h2, ";".spec_bytes(), 45u8);
    let h4 = h3 + spec_decimal(img_h as nat);
    lemma_lacks_concat(h3, spec_decimal(img_h as nat), 45u8);
    let h5 = h4 + spec_palette(theme, HUE_COUNT as nat);
    lemma_lacks_concat(h4, spec_palette(theme, HUE_COUNT as nat), 45u8);
    let bands = spec_bands(frame, s, img_w, img_h, band_count, band_count as nat);
    lemma_bands_dashes(frame, s, img_w, img_h, band_count, band_count as nat);
    let close = "\x1b\\".spec_bytes();
    assert(spec_sixel_frame(frame, theme, scale) == h5 + bands + close);
    lemma_count_lacks(h5, 45u8);
    lemma_count_lacks(close, 45u8);
    lemma_count_concat(h5, bands, 45u8);
    lemma_count_concat(h5 + bands, close, 45u8);
}

/// A larger scale draws more bands: the frame at a larger clamped scale
/// holds more graphics new lines `-`, and a wider and taller raster
/// attribute.
pub proof fn lemma_sixel_more_bands(frame: PackedFrame, theme: Theme, a: u8, b: u8)
    requires
        spec_clamp_scale(a) < spec_clamp_scale(b),
    ensures
        spec_count(spec_sixel_frame(frame, theme, a), 45u8) < spec_count(
            spec_sixel_frame(frame, theme, b),
            45u8,
        ),
        CROP_W * spec_clamp_scale(a) < CROP_W * spec_clamp_scale(b),
        CROP_H * spec_clamp_scale(a) < CROP_H * spec_clamp_scale(b),
{
    lemma_sixel_band_separators(frame, theme, a);
    lemma_sixel_band_separators(frame, theme, b);
    let sa = spec_clamp_scale(a);
    let sb = spec_clamp_scale(b);
    assert(CROP_W == 24 && CROP_H == 26);
    assert((26 * sa + 5) / 6 < (26 * sb + 5) / 6 && 24 * sa < 24 * sb && 26 * sa < 26 * sb)
        by (nonlinear_arith)
        requires
            1 <= sa < sb,
    ;
}

/// Whether image pixel `(x, y)` of a frame scaled by `s` is drawn with the
/// hue at position `ci` of the palette.
pub open spec fn spec_pixel_has_hue(frame: PackedFrame, s: int, x: int, y: int, ci: int) -> bool {
    spec_unpack_pixel(frame[y / s][x / s + COMPACT_X0]) matches Some(h) && h.spec_index() == ci
}

/// Whether bit `k` (bit 0 the top row) of the sixel character `c` is set.
pub open spec fn spec_sixel_bit(c: u8, k: int) -> bool {
    (((c - 63) as u8 >> (k as u8)) & 1) == 1
}

/// Bit `dy` of a six-bit value is bit `dy` of its sum of powers of two.
proof fn lemma_six_bits(b0: u8, b1: u8, b2: u8, b3: u8, b4: u8, b5: u8, dy: u8)
    by (bit_vector)
    requires
        b0 <= 1 && b1 <= 1 && b2 <= 1 && b3 <= 1 && b4 <= 1 && b5 <= 1,
        dy < 6,
    ensures
        (((b0 + 2 * b1 + 4 * b2 + 8 * b3 + 16 * b4 + 32 * b5) as u8 >> dy) & 1) == (if dy == 0 {
            b0
        } else if dy == 1 {
            b1
        } else if dy == 2 {
            b2
        } else if dy == 3 {
            b3
        } else if dy == 4 {
            b4
        } else {
            b5
        }),
{
}

/// The color code of a pixel is one more than the palette position of its
/// hue, and 0 (no register) for a transparent pixel.
proof fn lemma_color_code_hue(frame: PackedFrame, s: int, x: int, y: int, ci: int)
    requires
        0 <= ci < HUE_COUNT,
    ensures
        spec_color_code(frame, s, x, y) == ci + 1 <==> spec_pixel_has_hue(frame, s, x, y, ci),
{
}

/// The sixel character of column `x` of a pass for color code `ci + 1`:
/// bit `y - band_y` is set exactly when image row `y` exists and its pixel
/// in column `x` has the hue at position `ci`.
proof fn lemma_sixel_row_bits(
    frame: PackedFrame,
    s: int,
    img_w: int,
    img_h: int,
    band_y: int,
    ci: int,
    x: int,
    y: int,
)
    requires
        0 <= x < img_w,
        band_y <= y < band_y + 6,
        0 <= ci < HUE_COUNT,
    ensures
        63 <= spec_sixel_row(frame, s, img_w, img_h, band_y, ci + 1)[x] < 127,
        spec_sixel_bit(spec_sixel_row(frame, s, img_w, img_h, band_y, ci + 1)[x], y - band_y) <==> (y
            < img_h && spec_pixel_has_hue(frame, s, x, y, ci)),
{
    let v = ci + 1;
    let dy = y - band_y;
    vstd::arithmetic::power2::lemma2_to64();
    reveal_with_fuel(spec_sixel_bits, 7);
    let c = |k: int| band_y + k < img_h && spec_color_code(frame, s, x, band_y + k) == v;
    let b0: u8 = if c(0) { 1 } else { 0 };
    let b1: u8 = if c(1) { 1 } else { 0 };
    let b2: u8 = if c(2) { 1 } else { 0 };
    let b3: u8 = if c(3) { 1 } else { 0 };
    let b4: u8 = if c(4) { 1 } else { 0 };
    let b5: u8 = if c(5) { 1 } else { 0 };
    let bits = spec_sixel_bits(frame, s, img_h, x, band_y, v, 6);
    assert(bits == b0 + 2 * b1 + 4 * b2 + 8 * b3 + 16 * b4 + 32 * b5);
    let row = spec_sixel_row(frame, s, img_w, img_h, band_y, v);
    assert(row[x] == (0x3F + bits) as u8);
    assert((row[x] - 63) as u8 == (b0 + 2 * b1 + 4 * b2 + 8 * b3 + 16 * b4 + 32 * b5) as u8);
    lemma_six_bits(b0, b1, b2, b3, b4, b5, dy as u8);
    assert(band_y + dy == y);
    lemma_color_code_hue(frame, s, x, y, ci);
    assert(c(dy) <==> (y < img_h && spec_color_code(frame, s, x, y) == v));
}

/// Whether `row` is the sixel row of the hue at palette position `ci` in
/// band `band` of a frame scaled by `s`: one sixel character (`?` to `~`)
/// per image column, whose bit `y - 6 * band` ([`spec_sixel_bit`]; bit 0
/// the band's top row)
/// is set exactly when image row `y` exists and has, in that column, a
/// pixel of that hue.
pub open spec fn spec_pass_row(frame: PackedFrame, s: int, band: int, ci: int, row: Seq<u8>) -> bool {
    &&& row.len() == CROP_W * s
    &&& forall|x: int| 0 <= x < CROP_W * s ==> 63 <= #[trigger] row[x] < 127
    &&& forall|x: int, y: int|
        0 <= x < CROP_W * s && band * 6 <= y < band * 6 + 6 ==> (#[trigger] spec_sixel_bit(
            row[x],
            y - band * 6,
        ) <==> (y < CROP_H * s && spec_pixel_has_hue(frame, s, x, y, ci)))
}

/// What a Sixel color pass draws: the pass for palette position `ci` in
/// band `band` is empty when no pixel of the band's six rows has that hue,
/// and otherwise selects register `#ci` and carries, run-length encoded,
/// the row of sixels that marks exactly the pixels of that hue (see
/// [`spec_pass_row`]); transparent pixels and pixels of other hues set no
/// bit.
pub proof fn lemma_sixel_pass_draws_hue(frame: PackedFrame, s: int, band: int, ci: int)
    requires
        1 <= s <= 16,
        0 <= band,
        band * 6 < CROP_H * s,
        0 <= ci < HUE_COUNT,
    ensures
        ({
            let pass = spec_color_pass(frame, s, CROP_W * s, CROP_H * s, band, ci);
            let used = exists|dy: int, x: int|
                0 <= dy < 6 && band * 6 + dy < CROP_H * s && 0 <= x < CROP_W * s
                    && #[trigger] spec_pixel_has_hue(frame, s, x, band * 6 + dy, ci);
            &&& !used ==> pass.len() == 0
            &&& used ==> exists|row: Seq<u8>|
                #[trigger] spec_pass_row(frame, s, band, ci, row) && pass == "#".spec_bytes()
                    + spec_decimal(ci as nat) + spec_rle(row) + "$".spec_bytes()
                    && spec_rle_decode(spec_rle(row)) == row
        }),
{
    let img_w = CROP_W * s;
    let img_h = CROP_H * s;
    let row = spec_sixel_row(frame, s, img_w, img_h, band * 6, ci + 1);
    let used = exists|dy: int, x: int|
        0 <= dy < 6 && band * 6 + dy < img_h && 0 <= x < img_w
            && #[trigger] spec_pixel_has_hue(frame, s, x, band * 6 + dy, ci);
    if spec_band_has_color(frame, s, img_w, img_h, band * 6, ci + 1) {
        let (dy, x) = choose|dy: int, x: int|
            0 <= dy < 6 && band * 6 + dy < img_h && 0 <= x < img_w && #[trigger] spec_color_code(
                frame,
                s,
                x,
                band * 6 + dy,
            ) == ci + 1;
        lemma_color_code_hue(frame, s, x, band * 6 + dy, ci);
        assert(spec_pixel_has_hue(frame, s, x, band * 6 + dy, ci));
        assert(used);
    }
    if used {
        let (dy, x) = choose|dy: int, x: int|
            0 <= dy < 6 && band * 6 + dy < img_h && 0 <= x < img_w
                && #[trigger] spec_pixel_has_hue(frame, s, x, band * 6 + dy, ci);
        lemma_color_code_hue(frame, s, x, band * 6 + dy, ci);
        assert(spec_color_code(frame, s, x, band * 6 + dy) == ci + 1);
        assert(spec_band_has_color(frame, s, img_w, img_h, band * 6, ci + 1));
    }
    assert(spec_pass_row(frame, s, band, ci, row)) by {
        assert forall|x: int| 0 <= x < img_w implies 63 <= #[trigger] row[x] < 127 by {
            lemma_sixel_row_bits(frame, s, img_w, img_h, band * 6, ci, x, band * 6);
        }
        assert forall|x: int, y: int|
            (0 <= x < img_w && band * 6 <= y < band * 6 + 6 ==> (#[trigger] spec_sixel_bit(
                row[x],
                y - band * 6,
            ) <==> (y < img_h && spec_pixel_has_hue(frame, s, x, y, ci)))) by {
            if 0 <= x < img_w && band * 6 <= y < band * 6 + 6 {
                lemma_sixel_row_bits(frame, s, img_w, img_h, band * 6, ci, x, y);
            }
        }
        assert(img_w > 0) by (nonlinear_arith)
            requires
                img_w == CROP_W * s,
                s >= 1,
                CROP_W == 24,
        ;
        assert(row.len() == img_w);
    }
    lemma_sixel_row_is_data(frame, s, img_w, img_h, band * 6, ci + 1);
    let pass = spec_color_pass(frame, s, img_w, img_h, band, ci);
    if used {
        assert(pass == "#".spec_bytes() + spec_decimal(ci as nat) + spec_rle(row) + "$".spec_bytes());
    } else {
        assert(pass.len() == 0);
    }
}

/// Sixel color register `#i` is defined from the theme's color of the hue
/// at palette position `i`, each channel as a whole percentage rounded
/// down (`p * 255 <= c * 100 < (p + 1) * 255`).
pub proof fn lemma_sixel_register(theme: Theme, i: int)
    requires
        0 <= i < HUE_COUNT,
    ensures
        ({
            let (r, g, b) = theme.spec_color(ALL_HUES[i]);
            &&& spec_palette_entry(theme, i as nat) == "#".spec_bytes() + spec_decimal(i as nat)
                + ";2;".spec_bytes() + spec_decimal(spec_percent(r)) + ";".spec_bytes()
                + spec_decimal(spec_percent(g)) + ";".spec_bytes() + spec_decimal(spec_percent(b))
            &&& spec_percent(r) * 255 <= r * 100 < (spec_percent(r) + 1) * 255
            &&& spec_percent(g) * 255 <= g * 100 < (spec_percent(g) + 1) * 255
            &&& spec_percent(b) * 255 <= b * 100 < (spec_percent(b) + 1) * 255
        }),
{
    crate::pixel::lemma_index_of_all_hues(i);
    let (r, g, b) = theme.spec_color(ALL_HUES[i]);
    vstd::arithmetic::div_mod::lemma_fundamental_div_mod(r * 100, 255);
    vstd::arithmetic::div_mod::lemma_fundamental_div_mod(g * 100, 255);
    vstd::arithmetic::div_mod::lemma_fundamental_div_mod(b * 100, 255);
    vstd::arithmetic::div_mod::lemma_mod_pos_bound(r * 100, 255);
    vstd::arithmetic::div_mod::lemma_mod_pos_bound(g * 100, 255);
    vstd::arithmetic::div_mod::lemma_mod_pos_bound(b * 100, 255);
}

/// Sixel graphics renderer that owns its scratch buffer.
///
/// Wraps [`draw_sixel`] so callers don't need to manage a reusable buffer.
#[derive(Debug)]
pub struct SixelRenderer {
    buf: Vec<u8>,
}

impl View for SixelRenderer {
    type V = Seq<u8>;

    /// The bytes of the last rendered frame.
    closed spec fn view(&self) -> Seq<u8> {
        self.buf@
    }
}

impl SixelRenderer {
    /// Create a new renderer with a pre-allocated scratch buffer.
    pub fn new() -> (r: Self)
        ensures
            r@ == Seq::<u8>::empty(),
    {
        Self { buf: Vec::with_capacity(64 * 1024) }
    }

    /// Render a frame, appending the sequence to `out`.
    pub fn draw(&mut self, out: &mut Vec<u8>, frame: &PackedFrame, theme: &Theme, scale: u8)
        ensures
            final(self)@ == spec_sixel_frame(*frame, *theme, scale),
            final(out)@ == old(out)@ + spec_sixel_frame(*frame, *theme, scale),
    {
        draw_sixel(&mut self.buf, out, frame, theme, scale);
    }
}

impl Default for SixelRenderer {
    fn default() -> (r: Self)
        ensures
            r@ == Seq::<u8>::empty(),
    {
        Self::new()
    }
}

} // verus!
