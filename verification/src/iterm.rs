//! iTerm2 inline image protocol (OSC 1337) renderer.
//!
//! Rasterises a [`PackedFrame`] to RGBA pixels, encodes it as PNG,
//! base64-encodes the result, and wraps it in the
//! `\x1b]1337;File=inline=1;...` escape sequence, appended to the caller's
//! output buffer.

use vstd::prelude::*;
use vstd::string::StringSliceAdditionalSpecFns;
use crate::bytes::{
    lemma_decimal_read_back, push_all, push_be32, push_decimal, spec_be32, spec_decimal,
    spec_is_digit,
};
use crate::frame::PackedFrame;
use crate::png::{
    adler_mod, slice_range, spec_adler32, spec_adler_sums, spec_chunk, spec_crc32,
    spec_crc_shift8, spec_crc_shift_n, spec_crc_update, spec_ihdr, spec_png,
    push_stored_blocks, scanlines, spec_scanlines, spec_stored_blocks, lemma_adler_sums_bound, lemma_scanlines_len,
    PNG_SIGNATURE,
};
use crate::raster::{
    base64_encode, lemma_base64_alphabet, lemma_base64_round_trip, rasterise, spec_base64,
    spec_base64_decode, spec_clamp_scale, spec_raster, CROP_H, CROP_W, MAX_SCALE,
};
use crate::theme::Theme;

verus! {

// ---------------------------------------------------------------------------
// CRC-32 (ISO 3309 / PNG)
// ---------------------------------------------------------------------------

/// The CRC-32 lookup table (polynomial 0xEDB88320, reflected): entry `i` is
/// the register after eight bit steps from `i`.
fn crc32_table() -> (table: [u32; 256])
    ensures
        forall|i: int| 0 <= i < 256 ==> #[trigger] table@[i] == spec_crc_shift8(i as u32),
{
    let mut table = [0u32; 256];
    let mut i: u32 = 0;
    while i < 256
        invariant
            i <= 256,
            forall|k: int| 0 <= k < i ==> #[trigger] table@[k] == spec_crc_shift8(k as u32),
        decreases 256 - i,
    {
        let mut crc = i;
        let mut j: u32 = 0;
        while j < 8
            invariant
                j <= 8,
                crc == spec_crc_shift_n(i, j as nat),
            decreases 8 - j,
        {
            if crc & 1 != 0 {
                crc = 0xEDB8_8320 ^ (crc >> 1);
            } else {
                crc = crc >> 1;
            }
            proof {
                let prev = spec_crc_shift_n(i, j as nat);
                assert(0xEDB8_8320 ^ (prev >> 1) == (prev >> 1) ^ 0xEDB8_8320) by (bit_vector);
            }
            j = j + 1;
        }
        proof {
            reveal_with_fuel(spec_crc_shift_n, 9);
        }
        table[i as usize] = crc;
        i = i + 1;
    }
    table
}

/// One table step of CRC-32 is the same as eight bit steps.
proof fn lemma_crc_table_step(crc: u32, byte: u8)
    ensures
        spec_crc_shift8(crc ^ (byte as u32)) == spec_crc_shift8(((crc ^ (byte as u32)) & 0xFF))
            ^ (crc >> 8),
{
    let x = crc ^ (byte as u32);
    assert(spec_crc_shift8(x) == spec_crc_shift8(x & 0xFF) ^ (x >> 8)) by (bit_vector);
    assert(x >> 8 == crc >> 8) by (bit_vector)
        requires
            x == crc ^ (byte as u32),
    ;
}

/// Compute the CRC-32 checksum of `data`.
pub fn crc32(data: &[u8]) -> (r: u32)
    ensures
        r == spec_crc32(data@),
{
    let table = crc32_table();
    let mut crc: u32 = 0xFFFF_FFFF;
    let mut i: usize = 0;
    while i < data.len()
        invariant
            i <= data@.len(),
            crc == spec_crc_update(0xFFFF_FFFF, data@.take(i as int)),
            forall|k: int| 0 <= k < 256 ==> #[trigger] table@[k] == spec_crc_shift8(k as u32),
        decreases data@.len() - i,
    {
        let b = data[i];
        proof {
            lemma_crc_table_step(crc, b);
            assert(data@.take(i + 1).drop_last() =~= data@.take(i as int));
            assert((crc ^ (b as u32)) & 0xFF < 256) by (bit_vector);
        }
        crc = table[((crc ^ b as u32) & 0xFF) as usize] ^ (crc >> 8);
        i = i + 1;
    }
    assert(data@.take(i as int) =~= data@);
    assert(!crc == crc ^ 0xFFFF_FFFF) by (bit_vector);
    !crc
}

// ---------------------------------------------------------------------------
// Adler-32
// ---------------------------------------------------------------------------

/// The byte count after which the running Adler-32 sums must be reduced
/// so that the second sum cannot overflow 32 bits.
const ADLER_CHUNK: usize = 5552;

/// Compute the Adler-32 checksum of `data`, reducing the sums once per
/// 5552-byte chunk.
pub fn adler32(data: &[u8]) -> (r: u32)
    ensures
        r == spec_adler32(data@),
{
    let mut a: u32 = 1;
    let mut b: u32 = 0;
    let len = data.len();
    let mut start: usize = 0;
    while start < len
        invariant
            len == data@.len(),
            start <= len,
            a == spec_adler_sums(data@.take(start as int)).0,
            b == spec_adler_sums(data@.take(start as int)).1,
            a < 65521,
            b < 65521,
        decreases len - start,
    {
        let end = if len - start > ADLER_CHUNK {
            start + ADLER_CHUNK
        } else {
            len
        };
        let mut i = start;
        while i < end
            invariant
                len == data@.len(),
                start <= i <= end <= len,
                end - start <= 5552,
                a as int % adler_mod() == spec_adler_sums(data@.take(i as int)).0,
                b as int % adler_mod() == spec_adler_sums(data@.take(i as int)).1,
                a <= 65520 + 255 * (i - start),
                2 * b <= 131040 * (i - start + 1) + 255 * (i - start) * (i - start + 1),
            decreases end - i,
        {
            let byte = data[i];
            let ghost k = i - start;
            proof {
                assert(data@.take(i + 1).drop_last() =~= data@.take(i as int));
                lemma_adler_sums_bound(data@.take(i as int));
                assert(2 * (b + a + byte) <= 131040 * (k + 2) + 255 * (k + 1) * (k + 2))
                    by (nonlinear_arith)
                    requires
                        2 * b <= 131040 * (k + 1) + 255 * k * (k + 1),
                        a <= 65520 + 255 * k,
                        byte <= 255,
                ;
                assert(131040 * (k + 2) + 255 * (k + 1) * (k + 2) <= 8_589_380_400)
                    by (nonlinear_arith)
                    requires
                        0 <= k < 5552,
                ;
                let sa = spec_adler_sums(data@.take(i as int)).0;
                let sb = spec_adler_sums(data@.take(i as int)).1;
                vstd::arithmetic::div_mod::lemma_add_mod_noop(a as int, byte as int, adler_mod());
                vstd::arithmetic::div_mod::lemma_add_mod_noop(
                    b as int,
                    (a + byte) as int,
                    adler_mod(),
                );
                vstd::arithmetic::div_mod::lemma_small_mod(byte as nat, 65521);
                vstd::arithmetic::div_mod::lemma_mod_twice((a + byte) as int, adler_mod());
                vstd::arithmetic::div_mod::lemma_small_mod(sa as nat, 65521);
                vstd::arithmetic::div_mod::lemma_small_mod(sb as nat, 65521);
            }
            a = a + byte as u32;
            b = b + a;
            i = i + 1;
        }
        a = a % 65521;
        b = b % 65521;
        start = end;
    }
    assert(data@.take(len as int) =~= data@);
    assert((b << 16) | a == b * 65536 + a) by (bit_vector)
        requires
            a < 65521,
            b < 65521,
    ;
    (b << 16) | a
}

// ---------------------------------------------------------------------------
// PNG encoder (stored DEFLATE, no compression)
// ---------------------------------------------------------------------------

/// Write a 4-byte big-endian u32.
fn write_be32(out: &mut Vec<u8>, val: u32)
    ensures
        final(out)@ == old(out)@ + spec_be32(val),
{
    push_be32(out, val);
}

/// Write a PNG chunk: length + type + data + CRC.
fn write_png_chunk(out: &mut Vec<u8>, chunk_type: &[u8], data: &[u8])
    ensures
        final(out)@ == old(out)@ + spec_chunk(chunk_type@, data@),
{
    let len = data.len();
    let len32 = len as u32;
    assert(len32 == len as int % 0x1_0000_0000) by (bit_vector)
        requires
            len32 == len as u32,
    ;
    write_be32(out, len32);
    let crc_start = out.len();
    push_all(out, chunk_type);
    push_all(out, data);
    // CRC covers type + data
    let crc = crc32(slice_range(out.as_slice(), crc_start, out.len()));
    assert(out@.subrange(crc_start as int, out@.len() as int) =~= chunk_type@ + data@);
    write_be32(out, crc);
    assert(final(out)@ =~= old(out)@ + spec_chunk(chunk_type@, data@));
}

/// The zlib stream that [`encode_png`] stores: like a plain stored-block
/// stream, except that empty data has no block at all.
pub open spec fn spec_iterm_zlib(data: Seq<u8>) -> Seq<u8> {
    seq![0x78u8, 0x01u8] + (if data.len() == 0 {
        seq![]
    } else {
        spec_stored_blocks(data)
    }) + spec_be32(spec_adler32(data))
}

/// The PNG file that [`encode_png`] writes for a `w x h` RGBA image.
pub open spec fn spec_iterm_png(rgba: Seq<u8>, w: u32, h: u32) -> Seq<u8> {
    PNG_SIGNATURE@ + spec_chunk("IHDR".spec_bytes(), spec_ihdr(w, h)) + spec_chunk(
        "IDAT".spec_bytes(),
        spec_iterm_zlib(spec_scanlines(rgba, w as int, h as int)),
    ) + spec_chunk("IEND".spec_bytes(), seq![])
}

/// For an image with at least one row the two PNG encoders produce the same file.
pub proof fn lemma_iterm_png_is_png(rgba: Seq<u8>, w: u32, h: u32)
    requires
        h >= 1,
        rgba.len() >= h * w * 4,
    ensures
        spec_iterm_png(rgba, w, h) == spec_png(rgba, w, h),
{
    lemma_scanlines_len(rgba, w as int, h as int);
    assert(h * (1 + w * 4) >= 1) by (nonlinear_arith)
        requires
            h >= 1,
    ;
    let raw = spec_scanlines(rgba, w as int, h as int);
    assert(spec_iterm_zlib(raw) =~= seq![0x78u8, 0x01u8] + spec_stored_blocks(raw) + spec_be32(
        spec_adler32(raw),
    ));
}

/// Encode an RGBA image as a minimal PNG (stored DEFLATE blocks), appending it to `out`.
#[verifier::rlimit(60)]
pub fn encode_png(rgba: &[u8], width: u32, height: u32, out: &mut Vec<u8>)
    requires
        rgba@.len() >= height * width * 4,
    ensures
        final(out)@ == old(out)@ + spec_iterm_png(rgba@, width, height),
{
    // PNG signature
    push_all(out, PNG_SIGNATURE.as_slice());
    // IHDR
    let mut ihdr: Vec<u8> = Vec::new();
    push_be32(&mut ihdr, width);
    push_be32(&mut ihdr, height);
    ihdr.push(8);  // bit depth
    ihdr.push(6);  // color type: RGBA
    ihdr.push(0);  // compression
    ihdr.push(0);  // filter
    ihdr.push(0);  // interlace
    assert(ihdr@ =~= spec_ihdr(width, height));
    write_png_chunk(out, "IHDR".as_bytes(), ihdr.as_slice());
    // zlib header: CM=8, CINFO=7, FCHECK so header % 31 == 0
    let mut deflate_data: Vec<u8> = Vec::new();
    deflate_data.push(0x78);
    deflate_data.push(0x01);
    // Build the uncompressed payload (filter-byte + row data)
    let payload = scanlines(rgba, width, height);
    // Emit stored DEFLATE blocks (max 65535 bytes each); none for no data
    if payload.len() > 0 {
        push_stored_blocks(&mut deflate_data, payload.as_slice());
    }
    // Adler-32 of uncompressed data
    let adler = adler32(payload.as_slice());
    push_be32(&mut deflate_data, adler);
    assert(deflate_data@ =~= spec_iterm_zlib(payload@));
    write_png_chunk(out, "IDAT".as_bytes(), deflate_data.as_slice());
    // IEND
    let empty: Vec<u8> = Vec::new();
    write_png_chunk(out, "IEND".as_bytes(), empty.as_slice());
    assert(empty@ =~= Seq::<u8>::empty());
    assert(final(out)@ =~= old(out)@ + spec_iterm_png(rgba@, width, height));
}

// ---------------------------------------------------------------------------
// Public API
// ---------------------------------------------------------------------------

/// The OSC 1337 sequence that shows the PNG file `png` inline.
pub open spec fn spec_iterm_osc(png: Seq<u8>) -> Seq<u8> {
    "\x1b]1337;File=inline=1;size=".spec_bytes() + spec_decimal(png.len()) + ";preserveAspectRatio=1:".spec_bytes()
        + spec_base64(png) + seq![0x07u8]
}

/// The bytes that [`draw_iterm`] leaves for the terminal: the frame
/// rasterised at the clamped scale, encoded as PNG, in an OSC 1337 sequence.
pub open spec fn spec_iterm_frame(frame: PackedFrame, theme: Theme, scale: u8) -> Seq<u8> {
    let s = spec_clamp_scale(scale);
    spec_iterm_osc(
        spec_iterm_png(spec_raster(frame, theme, s), (CROP_W * s) as u32, (CROP_H * s) as u32),
    )
}

/// Render a frame using the iTerm2 inline image protocol (OSC 1337).
///
/// Each sprite pixel is rendered as `scale x scale` screen pixels. The frame
/// is cropped to the tight bounding box, rasterised to RGBA, encoded as PNG,
/// base64-encoded, and wrapped in the iTerm2 escape sequence.
///
/// `buf` is a reusable scratch buffer to avoid per-frame allocation; on
/// return it holds the sequence, which is also appended to `out`.
pub fn draw_iterm(
    buf: &mut Vec<u8>,
    out: &mut Vec<u8>,
    frame: &PackedFrame,
    theme: &Theme,
    scale: u8,
)
    ensures
        final(buf)@ == spec_iterm_frame(*frame, *theme, scale),
        final(out)@ == old(out)@ + spec_iterm_frame(*frame, *theme, scale),
{
    let (rgba, w, h) = rasterise(frame, theme, scale);
    // Encode PNG
    buf.clear();
    encode_png(rgba.as_slice(), w, h, buf);
    let png_size = buf.len();
    // Base64 encode
    let mut b64: Vec<u8> = Vec::new();
    base64_encode(buf.as_slice(), &mut b64);
    let ghost png = buf@;
    // Build OSC 1337 sequence
    buf.clear();
    push_all(buf, "\x1b]1337;File=inline=1;size=".as_bytes());
    // Write size as decimal
    push_decimal(buf, png_size);
    push_all(buf, ";preserveAspectRatio=1:".as_bytes());
    push_all(buf, b64.as_slice());
    buf.push(0x07);  // BEL terminator
    assert(b64@ =~= spec_base64(png));
    assert(buf@ =~= spec_iterm_frame(*frame, *theme, scale));
    push_all(out, buf.as_slice());
}

/// Every frame drawn with the iTerm2 protocol is one OSC 1337 sequence: it
/// opens with the inline-file header and ends with BEL. A scale of 0 draws
/// as scale 1, and any scale above [`MAX_SCALE`] as [`MAX_SCALE`].
pub proof fn lemma_iterm_framing(frame: PackedFrame, theme: Theme, scale: u8)
    ensures
        spec_iterm_frame(frame, theme, scale).len() > "\x1b]1337;File=inline=1;size=".spec_bytes().len(),
        spec_iterm_frame(frame, theme, scale).take(
            "\x1b]1337;File=inline=1;size=".spec_bytes().len() as int,
        ) == "\x1b]1337;File=inline=1;size=".spec_bytes(),
        spec_iterm_frame(frame, theme, scale).last() == 0x07u8,
        spec_iterm_frame(frame, theme, 0) == spec_iterm_frame(frame, theme, 1),
        scale >= MAX_SCALE ==> spec_iterm_frame(frame, theme, scale) == spec_iterm_frame(
            frame,
            theme,
            MAX_SCALE,
        ),
{
    let hdr = "\x1b]1337;File=inline=1;size=".spec_bytes();
    let s = spec_clamp_scale(scale);
    let png = spec_iterm_png(spec_raster(frame, theme, s), (CROP_W * s) as u32, (CROP_H * s) as u32);
    let rest = spec_decimal(png.len()) + ";preserveAspectRatio=1:".spec_bytes() + spec_base64(png)
        + seq![0x07u8];
    assert(spec_iterm_frame(frame, theme, scale) =~= hdr + rest);
    assert((hdr + rest).take(hdr.len() as int) =~= hdr);
}

/// The file data that a terminal reads from an OSC 1337 inline-file
/// sequence: it skips the arguments up to `:` and keeps the bytes up to the
/// BEL that ends the sequence.
pub open spec fn spec_iterm_read(t: Seq<u8>, in_payload: bool) -> Seq<u8>
    decreases t.len(),
{
    if t.len() == 0 {
        seq![]
    } else if !in_payload {
        spec_iterm_read(t.skip(1), t[0] == 0x3au8)
    } else if t[0] == 0x07u8 {
        seq![]
    } else {
        seq![t[0]] + spec_iterm_read(t.skip(1), true)
    }
}

/// Arguments without `:` are skipped.
proof fn lemma_iterm_read_skips(head: Seq<u8>, rest: Seq<u8>)
    requires
        forall|i: int| 0 <= i < head.len() ==> #[trigger] head[i] != 0x3au8,
    ensures
        spec_iterm_read(head + rest, false) == spec_iterm_read(rest, false),
    decreases head.len(),
{
    if head.len() == 0 {
        assert(head + rest =~= rest);
    } else {
        assert((head + rest).skip(1) =~= head.skip(1) + rest);
        assert(head[0] != 0x3au8);
        lemma_iterm_read_skips(head.skip(1), rest);
    }
}

/// File bytes without BEL are kept.
proof fn lemma_iterm_read_keeps(data: Seq<u8>, rest: Seq<u8>)
    requires
        forall|i: int| 0 <= i < data.len() ==> #[trigger] data[i] != 0x07u8,
    ensures
        spec_iterm_read(data + rest, true) == data + spec_iterm_read(rest, true),
    decreases data.len(),
{
    if data.len() == 0 {
        assert(data + rest =~= rest);
        assert(data + spec_iterm_read(rest, true) =~= spec_iterm_read(rest, true));
    } else {
        assert((data + rest).skip(1) =~= data.skip(1) + rest);
        assert(data[0] != 0x07u8);
        lemma_iterm_read_keeps(data.skip(1), rest);
        assert(data =~= seq![data[0]] + data.skip(1));
    }
}

/// The sequence that draws a frame announces the size of the frame's PNG
/// file and carries that file: a terminal reading the sequence gets the
/// base64 text of the PNG of the frame's raster, which decodes back to it.
pub proof fn lemma_iterm_payload(frame: PackedFrame, theme: Theme, scale: u8)
    ensures
        ({
            let s = spec_clamp_scale(scale);
            let png = spec_png(spec_raster(frame, theme, s), (CROP_W * s) as u32, (CROP_H * s) as u32);
            &&& spec_iterm_frame(frame, theme, scale) == "\x1b]1337;File=inline=1;size=".spec_bytes()
                + spec_decimal(png.len()) + ";preserveAspectRatio=1:".spec_bytes() + spec_base64(png)
                + seq![0x07u8]
            &&& spec_iterm_read(spec_iterm_frame(frame, theme, scale), false) == spec_base64(png)
            &&& spec_base64_decode(spec_iterm_read(spec_iterm_frame(frame, theme, scale), false))
                == png
        }),
{
    let s = spec_clamp_scale(scale);
    let w = (CROP_W * s) as u32;
    let h = (CROP_H * s) as u32;
    let rgba = spec_raster(frame, theme, s);
    let cw = CROP_W * s;
    let ch = CROP_H * s;
    assert(CROP_W == 24 && CROP_H == 26);
    assert(24 <= cw <= 384 && 26 <= ch <= 416) by (nonlinear_arith)
        requires
            1 <= s <= 16,
            cw == 24 * s,
            ch == 26 * s,
    ;
    assert(w == cw && h == ch);
    assert(cw * ch * 4 == h * w * 4 && h >= 1) by (nonlinear_arith)
        requires
            w == cw,
            h == ch,
            ch >= 26,
    ;
    lemma_iterm_png_is_png(rgba, w, h);
    let png = spec_png(rgba, w, h);
    let b64 = spec_base64(png);
    lemma_base64_round_trip(png);
    lemma_base64_alphabet(png);
    assert forall|i: int| 0 <= i < b64.len() implies #[trigger] b64[i] != 0x07u8 by {}
    reveal_strlit("\x1b]1337;File=inline=1;size=");
    vstd::string::is_ascii_spec_bytes("\x1b]1337;File=inline=1;size=");
    reveal_strlit(";preserveAspectRatio=1:");
    vstd::string::is_ascii_spec_bytes(";preserveAspectRatio=1:");
    let hdr = "\x1b]1337;File=inline=1;size=".spec_bytes();
    let dec = spec_decimal(png.len());
    let par = ";preserveAspectRatio=1".spec_bytes();
    reveal_strlit(";preserveAspectRatio=1");
    vstd::string::is_ascii_spec_bytes(";preserveAspectRatio=1");
    lemma_decimal_read_back(png.len());
    let head = hdr + dec + par;
    assert forall|i: int| 0 <= i < head.len() implies #[trigger] head[i] != 0x3au8 by {
        if i < hdr.len() {
            assert(head[i] == hdr[i]);
        } else if i < hdr.len() + dec.len() {
            assert(head[i] == dec[i - hdr.len()]);
            assert(spec_is_digit(dec[i - hdr.len()]));
        } else {
            assert(head[i] == par[i - hdr.len() - dec.len()]);
        }
    }
    let t = spec_iterm_frame(frame, theme, scale);
    assert(";preserveAspectRatio=1:".spec_bytes() =~= par + seq![0x3au8]);
    assert(t =~= head + (seq![0x3au8] + (b64 + seq![0x07u8])));
    lemma_iterm_read_skips(head, seq![0x3au8] + (b64 + seq![0x07u8]));
    assert((seq![0x3au8] + (b64 + seq![0x07u8])).skip(1) =~= b64 + seq![0x07u8]);
    lemma_iterm_read_keeps(b64, seq![0x07u8]);
    assert(spec_iterm_read(seq![0x07u8], true) =~= Seq::<u8>::empty());
    assert(b64 + Seq::<u8>::empty() =~= b64);
}

/// iTerm2 renderer that owns its scratch buffer.
///
/// Wraps [`draw_iterm`] so callers don't need to manage a reusable buffer.
#[derive(Debug)]
pub struct ItermRenderer {
    buf: Vec<u8>,
}

impl View for ItermRenderer {
    type V = Seq<u8>;

    /// The bytes of the last rendered frame.
    closed spec fn view(&self) -> Seq<u8> {
        self.buf@
    }
}

impl ItermRenderer {
    /// Create a new renderer with a pre-allocated scratch buffer.
    pub fn new() -> (r: Self)
        ensures
            r@ == Seq::<u8>::empty(),
    {
        Self { buf: Vec::with_capacity(64 * 1024) }
    }

    /// Render a frame using the iTerm2 inline image protocol, appending the
    /// sequence to `out`.
    pub fn draw(&mut self, out: &mut Vec<u8>, frame: &PackedFrame, theme: &Theme, scale: u8)
        ensures
            final(self)@ == spec_iterm_frame(*frame, *theme, scale),
            final(out)@ == old(out)@ + spec_iterm_frame(*frame, *theme, scale),
    {
        draw_iterm(&mut self.buf, out, frame, theme, scale);
    }
}

impl Default for ItermRenderer {
    fn default() -> (r: Self)
        ensures
            r@ == Seq::<u8>::empty(),
    {
        Self::new()
    }
}

} // verus!
