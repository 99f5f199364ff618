//! PNG encoding and rasterisation.
//!
//! Converts packed pixel frames into RGBA bitmaps and encodes them as PNG
//! (stored, uncompressed DEFLATE blocks inside zlib).
//!
//! ## Which function do I need?
//!
//! | I want to...                         | Use                     |
//! |--------------------------------------|-------------------------|
//! | Embed one animation frame in a file  | [`render_png`]          |
//! | Make a Slack/Discord emoji            | [`render_emoji`]        |
//! | Export all 3 frames                   | [`render_all_frames`]   |
//! | Export all 3 frames as emoji          | [`render_all_emoji`]    |

use vstd::prelude::*;
use vstd::string::StringSliceAdditionalSpecFns;
use crate::bytes::{push_all, push_be32, push_le16, spec_be32, spec_le16};
use crate::frame::{PackedFrame, COMPACT_X0, FRAMES, FRAME_COUNT};
use crate::pixel::spec_unpack_pixel;
use crate::raster::{spec_channel, spec_clamp_scale, spec_opaque, spec_pixel_rgba, spec_raster, CROP_H, CROP_W};
use crate::theme::Theme;

pub use crate::raster::{base64_encode, rasterise};

verus! {

// ---------------------------------------------------------------------------
// Checksums
// ---------------------------------------------------------------------------

/// One bit step of the reflected CRC-32 (polynomial 0xEDB88320).
pub open spec fn spec_crc_shift(c: u32) -> u32 {
    if c & 1 != 0 {
        (c >> 1) ^ 0xEDB8_8320
    } else {
        c >> 1
    }
}

/// `n` bit steps of the CRC-32 register.
pub open spec fn spec_crc_shift_n(c: u32, n: nat) -> u32
    decreases n,
{
    if n == 0 {
        c
    } else {
        spec_crc_shift(spec_crc_shift_n(c, (n - 1) as nat))
    }
}

/// Eight bit steps of the CRC-32 register: the effect of one byte.
pub open spec fn spec_crc_shift8(x: u32) -> u32 {
    spec_crc_shift(
        spec_crc_shift(
            spec_crc_shift(
                spec_crc_shift(spec_crc_shift(spec_crc_shift(spec_crc_shift(spec_crc_shift(x))))),
            ),
        ),
    )
}

/// The CRC-32 register after feeding `data` to a register holding `crc`
/// (no initial or final inversion).
pub open spec fn spec_crc_update(crc: u32, data: Seq<u8>) -> u32
    decreases data.len(),
{
    if data.len() == 0 {
        crc
    } else {
        spec_crc_shift8(spec_crc_update(crc, data.drop_last()) ^ (data.last() as u32))
    }
}

/// The CRC-32 checksum (ISO 3309, as used by PNG and zlib's `crc32`).
pub open spec fn spec_crc32(data: Seq<u8>) -> u32 {
    spec_crc_update(0xFFFF_FFFF, data) ^ 0xFFFF_FFFF
}

/// The modulus of Adler-32.
pub open spec fn adler_mod() -> int {
    65521
}

/// The two running sums of Adler-32 after `data`: `a` is one plus the byte
/// sum, `b` the sum of the successive `a` values, both modulo 65521.
pub open spec fn spec_adler_sums(data: Seq<u8>) -> (int, int)
    decreases data.len(),
{
    if data.len() == 0 {
        (1, 0)
    } else {
        let (a, b) = spec_adler_sums(data.drop_last());
        let a2 = (a + data.last()) % adler_mod();
        (a2, (b + a2) % adler_mod())
    }
}

/// The Adler-32 checksum (RFC 1950): `b * 65536 + a`.
pub open spec fn spec_adler32(data: Seq<u8>) -> u32 {
    (spec_adler_sums(data).1 * 65536 + spec_adler_sums(data).0) as u32
}

/// Both Adler-32 sums stay below the modulus.
pub proof fn lemma_adler_sums_bound(data: Seq<u8>)
    ensures
        0 <= spec_adler_sums(data).0 < adler_mod(),
        0 <= spec_adler_sums(data).1 < adler_mod(),
    decreases data.len(),
{
    if data.len() > 0 {
        lemma_adler_sums_bound(data.drop_last());
    }
}

/// Feeding two byte strings one after the other is feeding their concatenation.
pub proof fn lemma_crc_update_concat(crc: u32, a: Seq<u8>, b: Seq<u8>)
    ensures
        spec_crc_update(spec_crc_update(crc, a), b) == spec_crc_update(crc, a + b),
    decreases b.len(),
{
    if b.len() == 0 {
        assert(a + b =~= a);
    } else {
        lemma_crc_update_concat(crc, a, b.drop_last());
        assert((a + b).drop_last() =~= a + b.drop_last());
    }
}

/// Incremental CRC-32 update (call repeatedly, XOR with 0xFFFFFFFF at end).
fn crc32_update(crc: u32, data: &[u8]) -> (r: u32)
    ensures
        r == spec_crc_update(crc, data@),
{
    let mut crc = crc;
    let ghost init = crc;
    let mut i: usize = 0;
    while i < data.len()
        invariant
            i <= data@.len(),
            crc == spec_crc_update(init, data@.take(i as int)),
        decreases data@.len() - i,
    {
        let byte = data[i];
        let ghost start = crc ^ (byte as u32);
        crc = crc ^ byte as u32;
        let mut j: u32 = 0;
        while j < 8
            invariant
                j <= 8,
                crc == spec_crc_shift_n(start, j as nat),
            decreases 8 - j,
        {
            if crc & 1 != 0 {
                crc = (crc >> 1) ^ 0xEDB8_8320;
            } else {
                crc = crc >> 1;
            }
            j = j + 1;
        }
        proof {
            reveal_with_fuel(spec_crc_shift_n, 9);
            assert(data@.take(i + 1).drop_last() =~= data@.take(i as int));
        }
        i = i + 1;
    }
    assert(data@.take(i as int) =~= data@);
    crc
}

/// Adler-32 checksum of `data`, reducing both sums after every byte.
fn adler32(data: &[u8]) -> (r: u32)
    ensures
        r == spec_adler32(data@),
{
    let mut a: u32 = 1;
    let mut b: u32 = 0;
    let mut i: usize = 0;
    while i < data.len()
        invariant
            i <= data@.len(),
            a == spec_adler_sums(data@.take(i as int)).0,
            b == spec_adler_sums(data@.take(i as int)).1,
            a < 65521,
            b < 65521,
        decreases data@.len() - i,
    {
        let byte = data[i];
        proof {
            assert(data@.take(i + 1).drop_last() =~= data@.take(i as int));
        }
        a = (a + byte as u32) % 65521;
        b = (b + a) % 65521;
        i = i + 1;
    }
    assert(data@.take(i as int) =~= data@);
    assert((b << 16) | a == b * 65536 + a) by (bit_vector)
        requires
            a < 65521,
            b < 65521,
    ;
    (b << 16) | a
}

// ---------------------------------------------------------------------------
// zlib stored blocks and PNG chunks
// ---------------------------------------------------------------------------

/// The largest payload of one stored DEFLATE block.
pub open spec fn max_stored_block() -> int {
    65535
}

/// `data` as a run of stored (uncompressed) DEFLATE blocks of at most 65535
/// bytes; each block is a header byte (1 on the last block, else 0), its
/// length and the length's one's complement as little-endian 16-bit values,
/// then the bytes. Empty data is one empty final block.
pub open spec fn spec_stored_blocks(data: Seq<u8>) -> Seq<u8>
    decreases data.len(),
{
    if data.len() <= max_stored_block() {
        seq![1u8] + spec_le16(data.len() as u16) + spec_le16((65535 - data.len()) as u16) + data
    } else {
        seq![0u8] + spec_le16(65535u16) + spec_le16(0u16) + data.take(65535) + spec_stored_blocks(
            data.skip(65535),
        )
    }
}

/// The bytes held by a run of stored DEFLATE blocks, as an inflater reads
/// them: each block is a header byte whose low bit marks the last block, a
/// little-endian 16-bit length, its complement, then that many bytes.
/// Reading stops after the last block or at the end of the input.
pub open spec fn spec_unstore(blocks: Seq<u8>) -> Seq<u8>
    decreases blocks.len(),
{
    if blocks.len() < 5 {
        seq![]
    } else {
        let n = blocks[1] as int + 256 * blocks[2] as int;
        let end = if 5 + n <= blocks.len() {
            5 + n
        } else {
            blocks.len() as int
        };
        let payload = blocks.subrange(5, end);
        if blocks[0] % 2 == 1 || end >= blocks.len() {
            payload
        } else {
            payload + spec_unstore(blocks.skip(end))
        }
    }
}

/// The two little-endian bytes of a 16-bit value read back as that value.
proof fn lemma_le16_value(v: u16)
    ensures
        spec_le16(v)[0] as int + 256 * spec_le16(v)[1] as int == v,
{
}

/// Reading the stored blocks of `data` gives back `data`, and every
/// block's length is followed by its one's complement.
pub proof fn lemma_stored_blocks_round_trip(data: Seq<u8>)
    ensures
        spec_unstore(spec_stored_blocks(data)) == data,
        spec_stored_blocks(data).len() >= 5,
        spec_stored_blocks(data)[1] as int + 256 * spec_stored_blocks(data)[2] as int + spec_stored_blocks(data)[3] as int
            + 256 * spec_stored_blocks(data)[4] as int == 65535,
    decreases data.len(),
{
    let blocks = spec_stored_blocks(data);
    if data.len() <= 65535 {
        let n = data.len() as u16;
        lemma_le16_value(n);
        lemma_le16_value((65535 - n) as u16);
        assert(blocks == seq![1u8] + spec_le16(n) + spec_le16((65535 - n) as u16) + data);
        assert(blocks.subrange(5, blocks.len() as int) =~= data);
    } else {
        let tail = spec_stored_blocks(data.skip(65535));
        lemma_stored_blocks_round_trip(data.skip(65535));
        lemma_le16_value(65535u16);
        lemma_le16_value(0u16);
        let head = seq![0u8] + spec_le16(65535u16) + spec_le16(0u16) + data.take(65535);
        assert(blocks == head + tail);
        assert(head.len() == 65540);
        assert(blocks[1] as int + 256 * blocks[2] as int == 65535);
        assert(blocks.subrange(5, 65540) =~= data.take(65535));
        assert(blocks.skip(65540) =~= tail);
        assert(data.take(65535) + data.skip(65535) =~= data);
    }
}

/// A zlib stream (RFC 1950) holding `data` in stored blocks: the header
/// `78 01`, the blocks, then the big-endian Adler-32 of `data`.
pub open spec fn spec_zlib_store(data: Seq<u8>) -> Seq<u8> {
    seq![0x78u8, 0x01u8] + spec_stored_blocks(data) + spec_be32(spec_adler32(data))
}

/// A PNG chunk: the data length as a big-endian 32-bit value (taken modulo
/// 2^32), the type, the data, then the CRC-32 of type and data.
pub open spec fn spec_chunk(chunk_type: Seq<u8>, data: Seq<u8>) -> Seq<u8> {
    spec_be32((data.len() % 0x1_0000_0000) as u32) + chunk_type + data + spec_be32(
        spec_crc32(chunk_type + data),
    )
}

/// The number of stored blocks for `n` bytes: one per 65535 bytes, and one
/// (empty) block for no bytes.
pub open spec fn spec_block_count(n: nat) -> nat {
    if n == 0 {
        1
    } else {
        ((n + 65534) / 65535) as nat
    }
}

/// The stored blocks of `n` bytes take five header bytes per block besides
/// the data, so the zlib stream holds `6 + 5 * blocks + n` bytes; a block
/// is marked final exactly when no data follows it, and after a full block
/// of 65535 bytes come the blocks of the rest.
pub proof fn lemma_zlib_store_len(data: Seq<u8>)
    ensures
        spec_stored_blocks(data)[0] == (if data.len() <= 65535 {
            1u8
        } else {
            0u8
        }),
        data.len() > 65535 ==> spec_stored_blocks(data).skip(65540) == spec_stored_blocks(
            data.skip(65535),
        ),
        spec_stored_blocks(data).len() == 5 * spec_block_count(data.len()) + data.len(),
        spec_zlib_store(data).len() == 6 + 5 * spec_block_count(data.len()) + data.len(),
    decreases data.len(),
{
    if data.len() > 65535 {
        lemma_zlib_store_len(data.skip(65535));
        let head = seq![0u8] + spec_le16(65535u16) + spec_le16(0u16) + data.take(65535);
        assert(spec_stored_blocks(data) == head + spec_stored_blocks(data.skip(65535)));
        assert(head.len() == 65540);
        assert((head + spec_stored_blocks(data.skip(65535))).skip(65540) =~= spec_stored_blocks(
            data.skip(65535),
        ));
        let n = data.len() as int;
        assert((n + 65534) / 65535 == 1 + (n - 65535 + 65534) / 65535);
    }
}

/// Inflating the zlib stream of `data` gives back `data`: the stream is the
/// header `78 01`, stored blocks that read back as `data`, and the
/// big-endian Adler-32 of `data`.
pub proof fn lemma_zlib_store_round_trip(data: Seq<u8>)
    ensures
        spec_zlib_store(data).len() >= 11,
        spec_zlib_store(data).take(2) == seq![0x78u8, 0x01u8],
        spec_unstore(spec_zlib_store(data).subrange(2, spec_zlib_store(data).len() - 4)) == data,
        spec_zlib_store(data).skip(spec_zlib_store(data).len() - 4) == spec_be32(spec_adler32(data)),
{
    lemma_stored_blocks_round_trip(data);
    let z = spec_zlib_store(data);
    let blocks = spec_stored_blocks(data);
    let trailer = spec_be32(spec_adler32(data));
    assert(z == seq![0x78u8, 0x01u8] + blocks + trailer);
    assert(z.take(2) =~= seq![0x78u8, 0x01u8]);
    assert(z.subrange(2, z.len() - 4) =~= blocks);
    assert(z.skip(z.len() - 4) =~= trailer);
}

/// The PNG file signature.
pub const PNG_SIGNATURE: [u8; 8] = [0x89, 0x50, 0x4E, 0x47, 0x0D, 0x0A, 0x1A, 0x0A];

/// The IHDR payload of a `w x h` RGBA image with 8-bit samples.
pub open spec fn spec_ihdr(w: u32, h: u32) -> Seq<u8> {
    spec_be32(w) + spec_be32(h) + seq![8u8, 6u8, 0u8, 0u8, 0u8]
}

/// The raw PNG scanlines of the first `h` rows of a `w`-pixel-wide RGBA
/// image: each row is a filter byte `0` followed by its `4 * w` bytes.
pub open spec fn spec_scanlines(rgba: Seq<u8>, w: int, h: int) -> Seq<u8>
    decreases h,
{
    if h <= 0 {
        seq![]
    } else {
        spec_scanlines(rgba, w, h - 1) + seq![0u8] + rgba.subrange((h - 1) * w * 4, h * w * 4)
    }
}

/// Row `y` of the scanlines is the filter byte 0 (no filter) followed by
/// the `4 * w` bytes of row `y` of the image, so unfiltering the scanlines
/// gives back the image.
pub proof fn lemma_scanlines_rows(rgba: Seq<u8>, w: int, h: int, y: int, j: int)
    requires
        w >= 0,
        0 <= y < h,
        0 <= j < 4 * w,
        rgba.len() >= h * w * 4,
    ensures
        spec_scanlines(rgba, w, h)[y * (1 + 4 * w)] == 0,
        spec_scanlines(rgba, w, h)[y * (1 + 4 * w) + 1 + j] == rgba[y * w * 4 + j],
    decreases h,
{
    let prev = spec_scanlines(rgba, w, h - 1);
    let lo = (h - 1) * w * 4;
    let hi = h * w * 4;
    assert(hi - lo == w * 4 && 0 <= lo <= hi) by (nonlinear_arith)
        requires
            w >= 0,
            h >= 1,
            lo == (h - 1) * w * 4,
            hi == h * w * 4,
    ;
    assert((h - 1) * w * 4 <= h * w * 4) by (nonlinear_arith)
        requires
            w >= 0,
            h >= 1,
    ;
    lemma_scanlines_len(rgba, w, h - 1);
    let row = rgba.subrange(lo, hi);
    assert(spec_scanlines(rgba, w, h) == prev + seq![0u8] + row);
    if y == h - 1 {
        assert(y * (1 + 4 * w) == prev.len());
        assert(y * w * 4 == lo);
    } else {
        lemma_scanlines_rows(rgba, w, h - 1, y, j);
        assert(y * (1 + 4 * w) + 1 + j < prev.len()) by (nonlinear_arith)
            requires
                0 <= y < h - 1,
                0 <= j < 4 * w,
                prev.len() == (h - 1) * (1 + w * 4),
        ;
    }
}

/// A PNG file of a `w x h` RGBA image: the signature, the IHDR chunk, one
/// IDAT chunk holding the zlib stream of the scanlines, and the IEND chunk.
pub open spec fn spec_png(rgba: Seq<u8>, w: u32, h: u32) -> Seq<u8> {
    PNG_SIGNATURE@ + spec_chunk("IHDR".spec_bytes(), spec_ihdr(w, h)) + spec_chunk(
        "IDAT".spec_bytes(),
        spec_zlib_store(spec_scanlines(rgba, w as int, h as int)),
    ) + spec_chunk("IEND".spec_bytes(), seq![])
}

/// Every PNG file written here opens with the PNG signature and then the
/// IHDR chunk, whose first fields are the image's width and height.
pub proof fn lemma_png_header(rgba: Seq<u8>, w: u32, h: u32)
    ensures
        spec_png(rgba, w, h).len() > 24,
        spec_png(rgba, w, h).take(8) == PNG_SIGNATURE@,
        spec_png(rgba, w, h).subrange(8, 16) == spec_be32(13) + "IHDR".spec_bytes(),
        spec_png(rgba, w, h).subrange(16, 24) == spec_be32(w) + spec_be32(h),
{
    reveal_strlit("IHDR");
    vstd::string::is_ascii_spec_bytes("IHDR");
    let tag = "IHDR".spec_bytes();
    let d = spec_ihdr(w, h);
    let len13 = spec_be32(13);
    let crc = spec_be32(spec_crc32(tag + d));
    assert(d.len() == 13 && tag.len() == 4 && len13.len() == 4 && crc.len() == 4);
    assert(spec_chunk(tag, d) == len13 + tag + d + crc);
    let rest = spec_chunk(
        "IDAT".spec_bytes(),
        spec_zlib_store(spec_scanlines(rgba, w as int, h as int)),
    ) + spec_chunk("IEND".spec_bytes(), seq![]);
    let file = spec_png(rgba, w, h);
    let sig = PNG_SIGNATURE@;
    assert(sig.len() == 8);
    assert(file == sig + (len13 + tag + d + crc) + rest);
    assert(file.take(8) =~= sig);
    assert(file.subrange(8, 16) =~= len13 + tag);
    assert(d.take(8) =~= spec_be32(w) + spec_be32(h));
    assert(file.subrange(16, 24) =~= d.take(8));
}

/// Every PNG file written here holds its image: the IDAT data (after the
/// signature and the IHDR chunk, before the IDAT CRC and the IEND chunk)
/// inflates to scanlines whose row `y` is the filter byte 0 and then row
/// `y` of the image.
pub proof fn lemma_png_holds_image(rgba: Seq<u8>, w: u32, h: u32, y: int, j: int)
    requires
        0 <= y < h,
        0 <= j < 4 * w,
        rgba.len() >= h * w * 4,
    ensures
        ({
            let file = spec_png(rgba, w, h);
            let z = file.subrange(41, file.len() - 16);
            let raw = spec_unstore(z.subrange(2, z.len() - 4));
            &&& raw[y * (1 + 4 * w)] == 0
            &&& raw[y * (1 + 4 * w) + 1 + j] == rgba[y * w * 4 + j]
        }),
{
    reveal_strlit("IHDR");
    vstd::string::is_ascii_spec_bytes("IHDR");
    reveal_strlit("IDAT");
    vstd::string::is_ascii_spec_bytes("IDAT");
    reveal_strlit("IEND");
    vstd::string::is_ascii_spec_bytes("IEND");
    let scan = spec_scanlines(rgba, w as int, h as int);
    let zs = spec_zlib_store(scan);
    let ihdr = spec_chunk("IHDR".spec_bytes(), spec_ihdr(w, h));
    let idat_len = spec_be32((zs.len() % 0x1_0000_0000) as u32);
    let idat_crc = spec_be32(spec_crc32("IDAT".spec_bytes() + zs));
    let iend = spec_chunk("IEND".spec_bytes(), seq![]);
    assert(ihdr.len() == 25);
    assert(iend.len() == 12);
    assert(spec_chunk("IDAT".spec_bytes(), zs) == idat_len + "IDAT".spec_bytes() + zs + idat_crc);
    let file = spec_png(rgba, w, h);
    assert(file == PNG_SIGNATURE@ + ihdr + (idat_len + "IDAT".spec_bytes() + zs + idat_crc) + iend);
    let z = file.subrange(41, file.len() - 16);
    assert(z =~= zs);
    lemma_zlib_store_round_trip(scan);
    lemma_scanlines_rows(rgba, w as int, h as int, y, j);
}

/// The RGBA bytes that a PNG decoder reads from a file written here for a
/// `w x h` image: the IDAT data (after the signature and the IHDR chunk,
/// before the IDAT CRC and the IEND chunk) is inflated, and each row drops
/// its filter byte (every row is written with filter 0, no filter).
pub open spec fn spec_png_decode(file: Seq<u8>, w: int, h: int) -> Seq<u8> {
    let z = file.subrange(41, file.len() - 16);
    let raw = spec_unstore(z.subrange(2, z.len() - 4));
    Seq::new((h * w * 4) as nat, |i: int| raw[(i / (4 * w)) * (1 + 4 * w) + 1 + i % (4 * w)])
}

/// Decoding a PNG file written here gives back the image: its IHDR names
/// the width and height, and its pixels are the first `w * h * 4` bytes of
/// the RGBA data.
pub proof fn lemma_png_decodes(rgba: Seq<u8>, w: u32, h: u32)
    requires
        rgba.len() >= h * w * 4,
    ensures
        spec_png(rgba, w, h).subrange(16, 24) == spec_be32(w) + spec_be32(h),
        spec_png_decode(spec_png(rgba, w, h), w as int, h as int) == rgba.take(h * w * 4),
{
    lemma_png_header(rgba, w, h);
    let file = spec_png(rgba, w, h);
    let n = h * w * 4;
    let dec = spec_png_decode(file, w as int, h as int);
    assert forall|i: int| 0 <= i < n implies #[trigger] dec[i] == rgba[i] by {
        let row = 4 * (w as int);
        let y = i / row;
        let j = i % row;
        assert(row >= 1) by (nonlinear_arith)
            requires
                0 <= i < n,
                n == h * w * 4,
                row == 4 * w,
        ;
        vstd::arithmetic::div_mod::lemma_fundamental_div_mod(i, row);
        vstd::arithmetic::div_mod::lemma_mod_pos_bound(i, row);
        assert(i < h * row) by (nonlinear_arith)
            requires
                i < n,
                n == h * w * 4,
                row == 4 * w,
        ;
        lemma_div_below(i, h as int, row);
        assert(y * w * 4 + j == i) by (nonlinear_arith)
            requires
                i == row * y + j,
                row == 4 * w,
        ;
        lemma_png_holds_image(rgba, w, h, y, j);
    }
    assert(dec =~= rgba.take(n));
}

/// The scanlines of `h` rows hold `h * (1 + 4 * w)` bytes.
pub proof fn lemma_scanlines_len(rgba: Seq<u8>, w: int, h: int)
    requires
        w >= 0,
        h >= 0,
        rgba.len() >= h * w * 4,
    ensures
        spec_scanlines(rgba, w, h).len() == h * (1 + w * 4),
    decreases h,
{
    if h > 0 {
        let lo = (h - 1) * w * 4;
        let hi = h * w * 4;
        assert(hi - lo == w * 4 && lo <= hi) by (nonlinear_arith)
            requires
                w >= 0,
                h >= 1,
                lo == (h - 1) * w * 4,
                hi == h * w * 4,
        ;
        lemma_scanlines_len(rgba, w, h - 1);
        let prev = spec_scanlines(rgba, w, h - 1);
        assert(spec_scanlines(rgba, w, h) == prev + seq![0u8] + rgba.subrange(lo, hi));
        assert(rgba.subrange(lo, hi).len() == w * 4);
        assert((h - 1) * (1 + w * 4) + 1 + w * 4 == h * (1 + w * 4)) by (nonlinear_arith);
    } else {
        assert(h * (1 + w * 4) == 0) by (nonlinear_arith)
            requires
                h == 0,
        ;
    }
}

/// Append a PNG chunk: length + type + data + CRC.
fn write_chunk(out: &mut Vec<u8>, chunk_type: &[u8], data: &[u8])
    ensures
        final(out)@ == old(out)@ + spec_chunk(chunk_type@, data@),
{
    let len = data.len();
    let len32 = len as u32;
    assert(len32 == len as int % 0x1_0000_0000) by (bit_vector)
        requires
            len32 == len as u32,
    ;
    push_be32(out, len32);
    push_all(out, chunk_type);
    push_all(out, data);
    // Incremental CRC over chunk_type then data (no allocation)
    let crc = crc32_update(crc32_update(0xFFFF_FFFF, chunk_type), data) ^ 0xFFFF_FFFF;
    proof {
        lemma_crc_update_concat(0xFFFF_FFFF, chunk_type@, data@);
    }
    push_be32(out, crc);
    assert(final(out)@ =~= old(out)@ + spec_chunk(chunk_type@, data@));
}

/// Wrap `data` in a zlib stream of stored DEFLATE blocks.
#[verifier::rlimit(60)]
pub fn zlib_store(data: &[u8]) -> (out: Vec<u8>)
    ensures
        out@ == spec_zlib_store(data@),
{
    let mut out: Vec<u8> = Vec::new();
    out.push(0x78);
    out.push(0x01);
    let ghost head = out@;
    if data.len() == 0 {
        // Empty STORE block with BFINAL=1
        out.push(0x01);
        out.push(0x00);
        out.push(0x00);
        out.push(0xFF);
        out.push(0xFF);
        assert(out@ =~= head + spec_stored_blocks(data@)) by {
            reveal_with_fuel(spec_stored_blocks, 2);
            assert(spec_le16(0u16) =~= seq![0u8, 0u8]);
            assert(spec_le16(65535u16) =~= seq![0xFFu8, 0xFFu8]);
        }
    } else {
        push_stored_blocks(&mut out, data);
    }
    let adler = adler32(data);
    push_be32(&mut out, adler);
    assert(out@ =~= spec_zlib_store(data@));
    out
}

/// Append the stored DEFLATE blocks of non-empty `data`.
#[verifier::rlimit(60)]
pub(crate) fn push_stored_blocks(out: &mut Vec<u8>, data: &[u8])
    requires
        data@.len() > 0,
    ensures
        final(out)@ == old(out)@ + spec_stored_blocks(data@),
{
    let ghost head = out@;
    let max_block: usize = 65535;
    let mut offset: usize = 0;
    assert(data@.skip(0) =~= data@);
    while offset < data.len()
        invariant
            offset <= data@.len(),
            data@.len() > 0,
            max_block == 65535,
            offset < data@.len() ==> out@ + spec_stored_blocks(data@.skip(offset as int))
                == head + spec_stored_blocks(data@),
            offset == data@.len() ==> out@ == head + spec_stored_blocks(data@),
        decreases data@.len() - offset,
    {
        let remaining = data.len() - offset;
        let block_len = if remaining < max_block {
            remaining
        } else {
            max_block
        };
        let is_final = offset + block_len >= data.len();
        let ghost before = out@;
        let ghost rest = data@.skip(offset as int);
        let block = slice_range(data, offset, offset + block_len);
        push_stored_block(out, block, is_final);
        offset = offset + block_len;
        proof {
            assert(block@ =~= rest.take(block_len as int));
            lemma_stored_blocks_step(rest, block@);
            if is_final {
                assert(out@ =~= before + spec_stored_blocks(rest));
            } else {
                assert(rest.skip(65535) =~= data@.skip(offset as int));
                assert(out@ + spec_stored_blocks(data@.skip(offset as int)) =~= before
                    + spec_stored_blocks(rest));
            }
        }
    }
}

/// The first stored block of `rest`, and what follows it.
proof fn lemma_stored_blocks_step(rest: Seq<u8>, block: Seq<u8>)
    requires
        rest.len() > 0,
        block == rest.take(if rest.len() < 65535 { rest.len() as int } else { 65535 }),
    ensures
        rest.len() <= 65535 ==> spec_stored_blocks(rest) == seq![1u8] + spec_le16(
            block.len() as u16,
        ) + spec_le16((65535 - block.len()) as u16) + block,
        rest.len() > 65535 ==> spec_stored_blocks(rest) == seq![0u8] + spec_le16(
            block.len() as u16,
        ) + spec_le16((65535 - block.len()) as u16) + block + spec_stored_blocks(
            rest.skip(65535),
        ),
{
    if rest.len() <= 65535 {
        assert(block =~= rest);
    }
}

/// Append one stored DEFLATE block holding `block` (at most 65535 bytes).
fn push_stored_block(out: &mut Vec<u8>, block: &[u8], is_final: bool)
    requires
        block@.len() <= 65535,
    ensures
        final(out)@ == old(out)@ + seq![if is_final { 1u8 } else { 0u8 }] + spec_le16(
            block@.len() as u16,
        ) + spec_le16((65535 - block@.len()) as u16) + block@,
{
    out.push(if is_final {
        0x01
    } else {
        0x00
    });
    let len16 = block.len() as u16;
    push_le16(out, len16);
    let nlen16 = !len16;
    assert(nlen16 == 65535 - len16) by (bit_vector)
        requires
            nlen16 == !len16,
    ;
    push_le16(out, nlen16);
    push_all(out, block);
    assert(final(out)@ =~= old(out)@ + seq![if is_final { 1u8 } else { 0u8 }] + spec_le16(
        block@.len() as u16,
    ) + spec_le16((65535 - block@.len()) as u16) + block@);
}

/// The bytes `data[start..end]`.
pub(crate) fn slice_range(data: &[u8], start: usize, end: usize) -> (r: &[u8])
    requires
        start <= end <= data@.len(),
    ensures
        r@ == data@.subrange(start as int, end as int),
{
    let (left, _) = data.split_at(end);
    let (_, mid) = left.split_at(start);
    mid
}

/// The raw scanlines of a `w x h` RGBA image.
pub(crate) fn scanlines(rgba: &[u8], w: u32, h: u32) -> (raw: Vec<u8>)
    requires
        rgba@.len() >= h * w * 4,
    ensures
        raw@ == spec_scanlines(rgba@, w as int, h as int),
{
    let mut raw: Vec<u8> = Vec::new();
    if h == 0 {
        return raw;
    }
    let n = rgba.len();
    assert(w * 4 <= n) by (nonlinear_arith)
        requires
            n >= h * w * 4,
            h >= 1,
    ;
    let row_bytes = (w as usize) * 4;
    let mut y: usize = 0;
    while y < h as usize
        invariant
            y <= h,
            h >= 1,
            row_bytes == w * 4,
            n == rgba@.len(),
            n >= h * w * 4,
            raw@ == spec_scanlines(rgba@, w as int, y as int),
        decreases h - y,
    {
        raw.push(0);
        // filter: None
        assert((y + 1) * row_bytes <= h * w * 4 && y * row_bytes + row_bytes == (y + 1) * row_bytes
            && y * row_bytes == y * w * 4 && (y + 1) * row_bytes == (y + 1) * w * 4)
            by (nonlinear_arith)
            requires
                y < h,
                row_bytes == w * 4,
        ;
        let start = y * row_bytes;
        let row = slice_range(rgba, start, start + row_bytes);
        push_all(&mut raw, row);
        y = y + 1;
        assert(raw@ =~= spec_scanlines(rgba@, w as int, y as int));
    }
    raw
}

/// Encode an RGBA image as a minimal PNG (stored DEFLATE blocks).
fn encode_rgba_png(rgba: &[u8], w: u32, h: u32) -> (png: Vec<u8>)
    requires
        rgba@.len() >= h * w * 4,
    ensures
        png@ == spec_png(rgba@, w, h),
{
    let mut png: Vec<u8> = Vec::new();
    // PNG signature
    push_all(&mut png, PNG_SIGNATURE.as_slice());
    // IHDR
    let mut ihdr: Vec<u8> = Vec::new();
    push_be32(&mut ihdr, w);
    push_be32(&mut ihdr, h);
    ihdr.push(8);  // bit depth
    ihdr.push(6);  // color type: RGBA
    ihdr.push(0);  // compression
    ihdr.push(0);  // filter
    ihdr.push(0);  // interlace
    assert(ihdr@ =~= spec_ihdr(w, h));
    write_chunk(&mut png, "IHDR".as_bytes(), ihdr.as_slice());
    // IDAT
    let raw = scanlines(rgba, w, h);
    let deflated = zlib_store(raw.as_slice());
    write_chunk(&mut png, "IDAT".as_bytes(), deflated.as_slice());
    // IEND
    let empty: Vec<u8> = Vec::new();
    write_chunk(&mut png, "IEND".as_bytes(), empty.as_slice());
    assert(empty@ =~= Seq::<u8>::empty());
    assert(png@ =~= spec_png(rgba@, w, h));
    png
}

// ---------------------------------------------------------------------------
// Public PNG API
// ---------------------------------------------------------------------------

/// The PNG file of a frame rendered at `scale` (clamped to `1..=MAX_SCALE`).
pub open spec fn spec_frame_png(frame: PackedFrame, theme: Theme, scale: u8) -> Seq<u8> {
    let s = spec_clamp_scale(scale);
    spec_png(spec_raster(frame, theme, s), (CROP_W * s) as u32, (CROP_H * s) as u32)
}

/// Two `w x h` images with different RGBA bytes give different PNG files.
pub proof fn lemma_png_injective(ra: Seq<u8>, rb: Seq<u8>, w: u32, h: u32)
    requires
        ra.len() == h * w * 4,
        rb.len() == h * w * 4,
        ra != rb,
    ensures
        spec_png(ra, w, h) != spec_png(rb, w, h),
{
    lemma_png_decodes(ra, w, h);
    lemma_png_decodes(rb, w, h);
    assert(ra.take(h * w * 4) =~= ra);
    assert(rb.take(h * w * 4) =~= rb);
}

/// The rasters of two themes that color a drawn sprite pixel differently
/// differ.
proof fn lemma_rasters_differ(frame: PackedFrame, a: Theme, b: Theme, s: int, x: int, y: int)
    requires
        1 <= s <= 16,
        0 <= x < CROP_W,
        0 <= y < CROP_H,
        spec_unpack_pixel(frame[y][x + COMPACT_X0]) matches Some(hue) && a.spec_color(hue)
            != b.spec_color(hue),
    ensures
        spec_raster(frame, a, s) != spec_raster(frame, b, s),
{
    let xs = x * s;
    let ys = y * s;
    assert(0 <= xs < CROP_W * s && 0 <= ys < CROP_H * s && xs / s == x && ys / s == y)
        by (nonlinear_arith)
        requires
            0 <= x < CROP_W,
            0 <= y < CROP_H,
            s >= 1,
            xs == x * s,
            ys == y * s,
    ;
    crate::raster::lemma_raster_pixel(frame, a, s, xs, ys, 0);
    crate::raster::lemma_raster_pixel(frame, a, s, xs, ys, 1);
    crate::raster::lemma_raster_pixel(frame, a, s, xs, ys, 2);
    crate::raster::lemma_raster_pixel(frame, b, s, xs, ys, 0);
    crate::raster::lemma_raster_pixel(frame, b, s, xs, ys, 1);
    crate::raster::lemma_raster_pixel(frame, b, s, xs, ys, 2);
    let ra = spec_raster(frame, a, s);
    let rb = spec_raster(frame, b, s);
    let base = (ys * (CROP_W * s) + xs) * 4;
    assert(ra[base] != rb[base] || ra[base + 1] != rb[base + 1] || ra[base + 2] != rb[base + 2]);
}

/// Two themes that color a drawn sprite pixel differently give different
/// frame PNGs, at every scale.
pub proof fn lemma_frame_png_tells_themes_apart(
    frame: PackedFrame,
    a: Theme,
    b: Theme,
    scale: u8,
    x: int,
    y: int,
)
    requires
        0 <= x < CROP_W,
        0 <= y < CROP_H,
        spec_unpack_pixel(frame[y][x + COMPACT_X0]) matches Some(hue) && a.spec_color(hue)
            != b.spec_color(hue),
    ensures
        spec_frame_png(frame, a, scale) != spec_frame_png(frame, b, scale),
{
    let s = spec_clamp_scale(scale);
    let w = (CROP_W * s) as u32;
    let h = (CROP_H * s) as u32;
    let cw = CROP_W * s;
    let ch = CROP_H * s;
    assert(CROP_W == 24 && CROP_H == 26);
    assert(cw <= 384 && ch <= 416 && cw >= 24) by (nonlinear_arith)
        requires
            1 <= s <= 16,
            cw == 24 * s,
            ch == 26 * s,
    ;
    assert(w == cw && h == ch);
    let ra = spec_raster(frame, a, s);
    let rb = spec_raster(frame, b, s);
    assert(ra.len() == cw * ch * 4 && rb.len() == cw * ch * 4);
    assert(cw * ch * 4 == h * w * 4) by (nonlinear_arith)
        requires
            w == cw,
            h == ch,
    ;
    lemma_rasters_differ(frame, a, b, s, x, y);
    lemma_png_injective(ra, rb, w, h);
}

/// Render a single frame as a PNG byte vector.
pub fn render_png(frame: &PackedFrame, theme: &Theme, scale: u8) -> (png: Vec<u8>)
    ensures
        png@ == spec_frame_png(*frame, *theme, scale),
{
    let (rgba, w, h) = rasterise(frame, theme, scale);
    encode_rgba_png(rgba.as_slice(), w, h)
}

/// Render all animation frames as PNGs.
pub fn render_all_frames(theme: &Theme, scale: u8) -> (pngs: Vec<Vec<u8>>)
    ensures
        pngs@.len() == FRAME_COUNT,
        forall|i: int|
            0 <= i < FRAME_COUNT ==> #[trigger] pngs@[i]@ == spec_frame_png(FRAMES[i], *theme, scale),
{
    let mut pngs: Vec<Vec<u8>> = Vec::new();
    let mut i: usize = 0;
    while i < FRAME_COUNT
        invariant
            i <= FRAME_COUNT,
            pngs@.len() == i,
            forall|j: int|
                0 <= j < i ==> #[trigger] pngs@[j]@ == spec_frame_png(FRAMES[j], *theme, scale),
        decreases FRAME_COUNT - i,
    {
        let frame = FRAMES[i];
        pngs.push(render_png(&frame, theme, scale));
        i = i + 1;
    }
    pngs
}

} // verus!

verus! {

// ---------------------------------------------------------------------------
// Emoji
// ---------------------------------------------------------------------------

/// Whether column `x` of the cropped frame has a drawn pixel.
pub open spec fn spec_col_used(frame: PackedFrame, x: int) -> bool {
    exists|y: int| 0 <= y < CROP_H && #[trigger] spec_opaque(frame, x, y)
}

/// Whether row `y` of the cropped frame has a drawn pixel.
pub open spec fn spec_row_used(frame: PackedFrame, y: int) -> bool {
    exists|x: int| 0 <= x < CROP_W && #[trigger] spec_opaque(frame, x, y)
}

/// Whether the cropped frame has any drawn pixel.
pub open spec fn spec_has_content(frame: PackedFrame) -> bool {
    exists|x: int| 0 <= x < CROP_W && #[trigger] spec_col_used(frame, x)
}

/// The leftmost column with a drawn pixel.
pub open spec fn spec_min_x(frame: PackedFrame) -> int {
    choose|m: int|
        0 <= m < CROP_W && spec_col_used(frame, m) && forall|x: int|
            0 <= x < CROP_W && #[trigger] spec_col_used(frame, x) ==> m <= x
}

/// The rightmost column with a drawn pixel.
pub open spec fn spec_max_x(frame: PackedFrame) -> int {
    choose|m: int|
        0 <= m < CROP_W && spec_col_used(frame, m) && forall|x: int|
            0 <= x < CROP_W && #[trigger] spec_col_used(frame, x) ==> x <= m
}

/// The topmost row with a drawn pixel.
pub open spec fn spec_min_y(frame: PackedFrame) -> int {
    choose|m: int|
        0 <= m < CROP_H && spec_row_used(frame, m) && forall|y: int|
            0 <= y < CROP_H && #[trigger] spec_row_used(frame, y) ==> m <= y
}

/// The bottom row with a drawn pixel.
pub open spec fn spec_max_y(frame: PackedFrame) -> int {
    choose|m: int|
        0 <= m < CROP_H && spec_row_used(frame, m) && forall|y: int|
            0 <= y < CROP_H && #[trigger] spec_row_used(frame, y) ==> y <= m
}

/// The side of the emoji canvas for a requested `size` (at least 1).
pub open spec fn spec_canvas_side(size: u32) -> int {
    if size < 1 {
        1
    } else {
        size as int
    }
}

/// The upscale factor of the content box (`cw x ch` pixels) on a canvas of
/// side `sz`: the largest whole factor that fits, but at least 1.
pub open spec fn spec_emoji_scale(sz: int, cw: int, ch: int) -> int {
    let fit = if sz / cw < sz / ch {
        sz / cw
    } else {
        sz / ch
    };
    if fit < 1 {
        1
    } else {
        fit
    }
}

/// The `sz x sz` RGBA canvas holding the cropped frame's box with corner
/// `(x0, y0)` and size `cw x ch`, upscaled by `s` (nearest neighbour) and
/// placed with its corner at `(ox, oy)`; every other pixel is transparent.
pub open spec fn spec_placed_canvas(
    frame: PackedFrame,
    theme: Theme,
    sz: int,
    x0: int,
    y0: int,
    cw: int,
    ch: int,
    s: int,
    ox: int,
    oy: int,
) -> Seq<u8> {
    Seq::new(
        (sz * sz * 4) as nat,
        |i: int|
            {
                let xx = (i / 4) % sz;
                let yy = (i / 4) / sz;
                if ox <= xx < ox + cw * s && oy <= yy < oy + ch * s {
                    spec_channel(
                        spec_pixel_rgba(frame, theme, x0 + (xx - ox) / s, y0 + (yy - oy) / s),
                        i % 4,
                    )
                } else {
                    0u8
                }
            },
    )
}

/// The emoji canvas: a transparent `sz x sz` RGBA image with the frame's
/// content box, upscaled by nearest neighbour by [`spec_emoji_scale`],
/// centered on it (offsets rounded down).
pub open spec fn spec_emoji_canvas(frame: PackedFrame, theme: Theme, sz: int) -> Seq<u8> {
    if !spec_has_content(frame) {
        Seq::new((sz * sz * 4) as nat, |i: int| 0u8)
    } else {
        let x0 = spec_min_x(frame);
        let y0 = spec_min_y(frame);
        let cw = spec_max_x(frame) - x0 + 1;
        let ch = spec_max_y(frame) - y0 + 1;
        let s = spec_emoji_scale(sz, cw, ch);
        spec_placed_canvas(frame, theme, sz, x0, y0, cw, ch, s, (sz - cw * s) / 2, (sz - ch * s) / 2)
    }
}

/// Pixel `(xx, yy)` of the emoji canvas of side `sz`: with the content box
/// `cw x ch` at `(x0, y0)`, the scale `s` and the centring offsets
/// `(ox, oy)` (rounded down, negative when the box is clipped), a pixel
/// inside the upscaled box is the scale-1 sprite pixel
/// `(x0 + (xx - ox) / s, y0 + (yy - oy) / s)`, and every other pixel, or
/// every pixel of a frame without content, is transparent black.
pub proof fn lemma_emoji_pixel(frame: PackedFrame, theme: Theme, sz: int, xx: int, yy: int, c: int)
    requires
        1 <= sz,
        0 <= xx < sz,
        0 <= yy < sz,
        0 <= c < 4,
    ensures
        ({
            let canvas = spec_emoji_canvas(frame, theme, sz);
            let x0 = spec_min_x(frame);
            let y0 = spec_min_y(frame);
            let cw = spec_max_x(frame) - x0 + 1;
            let ch = spec_max_y(frame) - y0 + 1;
            let s = spec_emoji_scale(sz, cw, ch);
            let ox = (sz - cw * s) / 2;
            let oy = (sz - ch * s) / 2;
            &&& canvas.len() == sz * sz * 4
            &&& canvas[(yy * sz + xx) * 4 + c] == if spec_has_content(frame) && ox <= xx < ox + cw
                * s && oy <= yy < oy + ch * s {
                spec_channel(spec_pixel_rgba(frame, theme, x0 + (xx - ox) / s, y0 + (yy - oy) / s), c)
            } else {
                0u8
            }
        }),
{
    crate::raster::lemma_rgba_index(sz, xx, yy, c);
    assert((yy * sz + xx) * 4 + c < sz * sz * 4) by (nonlinear_arith)
        requires
            0 <= xx < sz,
            0 <= yy < sz,
            0 <= c < 4,
    ;
}

/// Some `x` in `k..n` has `p`, none before `k` does: then a least `x` in
/// `0..n` with `p` exists.
proof fn lemma_least_exists(p: spec_fn(int) -> bool, n: int, k: int)
    requires
        0 <= k <= n,
        forall|x: int| 0 <= x < k ==> !#[trigger] p(x),
        exists|x: int| k <= x < n && #[trigger] p(x),
    ensures
        exists|m: int| 0 <= m < n && #[trigger] p(m) && forall|x: int| 0 <= x < n && #[trigger] p(x) ==> m <= x,
    decreases n - k,
{
    if p(k) {
        assert(forall|x: int| 0 <= x < n && #[trigger] p(x) ==> k <= x);
    } else {
        lemma_least_exists(p, n, k + 1);
    }
}

/// Some `x` in `0..k` has `p`, none from `k` to `n` does: then a greatest
/// `x` in `0..n` with `p` exists.
proof fn lemma_greatest_exists(p: spec_fn(int) -> bool, n: int, k: int)
    requires
        0 <= k <= n,
        forall|x: int| k <= x < n ==> !#[trigger] p(x),
        exists|x: int| 0 <= x < k && #[trigger] p(x),
    ensures
        exists|m: int| 0 <= m < n && #[trigger] p(m) && forall|x: int| 0 <= x < n && #[trigger] p(x) ==> x <= m,
    decreases k,
{
    if p(k - 1) {
        assert(forall|x: int| 0 <= x < n && #[trigger] p(x) ==> x <= k - 1);
    } else {
        lemma_greatest_exists(p, n, k - 1);
    }
}

/// A frame with content has a content box within the cropped frame, and
/// the box holds every drawn pixel.
pub proof fn lemma_content_box(frame: PackedFrame)
    requires
        spec_has_content(frame),
    ensures
        0 <= spec_min_x(frame) <= spec_max_x(frame) < CROP_W,
        0 <= spec_min_y(frame) <= spec_max_y(frame) < CROP_H,
        forall|x: int, y: int|
            0 <= x < CROP_W && 0 <= y < CROP_H && #[trigger] spec_opaque(frame, x, y) ==> spec_min_x(
                frame,
            ) <= x <= spec_max_x(frame) && spec_min_y(frame) <= y <= spec_max_y(frame),
{
    let cols = |x: int| spec_col_used(frame, x);
    let rows = |y: int| spec_row_used(frame, y);
    let wx = choose|x: int| 0 <= x < CROP_W && #[trigger] spec_col_used(frame, x);
    let wy = choose|y: int| 0 <= y < CROP_H && #[trigger] spec_opaque(frame, wx, y);
    assert(rows(wy));
    assert(cols(wx));
    lemma_least_exists(cols, CROP_W as int, 0);
    lemma_greatest_exists(cols, CROP_W as int, CROP_W as int);
    lemma_least_exists(rows, CROP_H as int, 0);
    lemma_greatest_exists(rows, CROP_H as int, CROP_H as int);
    assert forall|x: int, y: int|
        0 <= x < CROP_W && 0 <= y < CROP_H && #[trigger] spec_opaque(frame, x, y) implies spec_min_x(
        frame,
    ) <= x <= spec_max_x(frame) && spec_min_y(frame) <= y <= spec_max_y(frame) by {
        assert(spec_col_used(frame, x));
        assert(spec_row_used(frame, y));
    }
}

/// The emoji PNG of a frame for a requested canvas `size`.
pub open spec fn spec_emoji_png(frame: PackedFrame, theme: Theme, size: u32) -> Seq<u8> {
    let sz = spec_canvas_side(size);
    spec_png(spec_emoji_canvas(frame, theme, sz), sz as u32, sz as u32)
}

/// Decoding an emoji PNG gives a square `sz x sz` image (`sz` the size, at
/// least 1) whose pixel `(xx, yy)` is, inside the centred upscaled box, the
/// scale-1 raster pixel `(x0 + (xx - ox) / s, y0 + (yy - oy) / s)` of the
/// frame, where `[x0, x1] x [y0, y1]` is the tight box of the frame's drawn
/// pixels, `s = max(1, min(sz / cw, sz / ch))` and
/// `(ox, oy) = ((sz - cw * s) / 2, (sz - ch * s) / 2)`; every other pixel,
/// and every pixel of a frame with nothing drawn, is `(0, 0, 0, 0)`.
pub proof fn lemma_emoji_decoded(frame: PackedFrame, theme: Theme, size: u32, xx: int, yy: int, c: int)
    requires
        0 <= xx < spec_canvas_side(size),
        0 <= yy < spec_canvas_side(size),
        0 <= c < 4,
    ensures
        ({
            let sz = spec_canvas_side(size);
            let file = spec_emoji_png(frame, theme, size);
            let img = spec_png_decode(file, sz, sz);
            let x0 = spec_min_x(frame);
            let y0 = spec_min_y(frame);
            let cw = spec_max_x(frame) - x0 + 1;
            let ch = spec_max_y(frame) - y0 + 1;
            let s = spec_emoji_scale(sz, cw, ch);
            let ox = (sz - cw * s) / 2;
            let oy = (sz - ch * s) / 2;
            &&& file.subrange(16, 24) == spec_be32(sz as u32) + spec_be32(sz as u32)
            &&& img.len() == sz * sz * 4
            &&& img[(yy * sz + xx) * 4 + c] == if spec_has_content(frame) && ox <= xx < ox + cw * s
                && oy <= yy < oy + ch * s {
                spec_raster(frame, theme, 1)[((y0 + (yy - oy) / s) * CROP_W + x0 + (xx - ox) / s)
                    * 4 + c]
            } else {
                0u8
            }
        }),
{
    let sz = spec_canvas_side(size);
    let canvas = spec_emoji_canvas(frame, theme, sz);
    lemma_emoji_pixel(frame, theme, sz, xx, yy, c);
    assert(sz as u32 as int == sz);
    assert(canvas.len() == sz * sz * 4);
    lemma_png_decodes(canvas, sz as u32, sz as u32);
    assert(canvas.take(sz * sz * 4) =~= canvas);
    if spec_has_content(frame) {
        lemma_content_box(frame);
        let x0 = spec_min_x(frame);
        let y0 = spec_min_y(frame);
        let cw = spec_max_x(frame) - x0 + 1;
        let ch = spec_max_y(frame) - y0 + 1;
        lemma_emoji_fit(sz, cw, ch);
        let s = spec_emoji_scale(sz, cw, ch);
        let ox = (sz - cw * s) / 2;
        let oy = (sz - ch * s) / 2;
        if ox <= xx < ox + cw * s && oy <= yy < oy + ch * s {
            lemma_div_below(xx - ox, cw, s);
            lemma_div_below(yy - oy, ch, s);
            let px = x0 + (xx - ox) / s;
            let py = y0 + (yy - oy) / s;
            crate::raster::lemma_raster_pixel(frame, theme, 1, px, py, c);
            assert(px / 1 == px && py / 1 == py);
            assert(CROP_W * 1 == CROP_W);
        }
    }
}

/// The content box of a frame from its scale-1 raster:
/// `(min_x, min_y, max_x, max_y)`, or `(CROP_W, CROP_H, 0, 0)` when empty.
#[verifier::rlimit(40)]
fn content_bounds(rgba_1x: &Vec<u8>, Ghost(frame): Ghost<PackedFrame>, Ghost(theme): Ghost<Theme>) -> (b: (
    usize,
    usize,
    usize,
    usize,
))
    requires
        rgba_1x@ == spec_raster(frame, theme, 1),
    ensures
        spec_has_content(frame) ==> b == (
            spec_min_x(frame) as usize,
            spec_min_y(frame) as usize,
            spec_max_x(frame) as usize,
            spec_max_y(frame) as usize,
        ) && spec_min_x(frame) <= spec_max_x(frame) < CROP_W && spec_min_y(frame) <= spec_max_y(
            frame,
        ) < CROP_H && 0 <= spec_min_x(frame) && 0 <= spec_min_y(frame),
        !spec_has_content(frame) ==> b == (CROP_W, CROP_H, 0usize, 0usize),
{
    let w1 = CROP_W;
    let h1 = CROP_H;
    let mut min_x = w1;
    let mut min_y = h1;
    let mut max_x: usize = 0;
    let mut max_y: usize = 0;
    let ghost mut found = false;
    let ghost mut wy_min_x: int = 0;
    let ghost mut wy_max_x: int = 0;
    let ghost mut wx_min_y: int = 0;
    let ghost mut wx_max_y: int = 0;
    let mut y: usize = 0;
    while y < h1
        invariant
            w1 == CROP_W,
            h1 == CROP_H,
            y <= h1,
            rgba_1x@ == spec_raster(frame, theme, 1),
            !found ==> min_x == CROP_W && min_y == CROP_H && max_x == 0 && max_y == 0,
            !found ==> forall|xx: int, yy: int|
                0 <= xx < CROP_W && 0 <= yy < y ==> !#[trigger] spec_opaque(frame, xx, yy),
            found ==> {
                &&& spec_opaque(frame, min_x as int, wy_min_x)
                &&& spec_opaque(frame, max_x as int, wy_max_x)
                &&& spec_opaque(frame, wx_min_y, min_y as int)
                &&& spec_opaque(frame, wx_max_y, max_y as int)
                &&& 0 <= wy_min_x < CROP_H && 0 <= wy_max_x < CROP_H
                &&& 0 <= wx_min_y < CROP_W && 0 <= wx_max_y < CROP_W
                &&& min_x <= max_x < CROP_W && min_y <= max_y < CROP_H
                &&& forall|xx: int, yy: int|
                    0 <= xx < CROP_W && 0 <= yy < y && #[trigger] spec_opaque(frame, xx, yy) ==> min_x
                        <= xx <= max_x && min_y <= yy <= max_y
            },
        decreases h1 - y,
    {
        let mut x: usize = 0;
        while x < w1
            invariant
                w1 == CROP_W,
                h1 == CROP_H,
                y < h1,
                x <= w1,
                rgba_1x@ == spec_raster(frame, theme, 1),
                !found ==> min_x == CROP_W && min_y == CROP_H && max_x == 0 && max_y == 0,
                !found ==> forall|xx: int, yy: int|
                    0 <= xx < CROP_W && 0 <= yy < CROP_H && (yy < y || (yy == y && xx < x))
                        ==> !#[trigger] spec_opaque(frame, xx, yy),
                found ==> {
                    &&& spec_opaque(frame, min_x as int, wy_min_x)
                    &&& spec_opaque(frame, max_x as int, wy_max_x)
                    &&& spec_opaque(frame, wx_min_y, min_y as int)
                    &&& spec_opaque(frame, wx_max_y, max_y as int)
                    &&& 0 <= wy_min_x < CROP_H && 0 <= wy_max_x < CROP_H
                    &&& 0 <= wx_min_y < CROP_W && 0 <= wx_max_y < CROP_W
                    &&& min_x <= max_x < CROP_W && min_y <= max_y < CROP_H
                    &&& forall|xx: int, yy: int|
                        0 <= xx < CROP_W && 0 <= yy < CROP_H && (yy < y || (yy == y && xx < x))
                            && #[trigger] spec_opaque(frame, xx, yy) ==> min_x <= xx <= max_x
                            && min_y <= yy <= max_y
                },
            decreases w1 - x,
        {
            proof {
                crate::raster::lemma_raster_pixel(frame, theme, 1, x as int, y as int, 3);
                crate::raster::lemma_raster_alpha(frame, theme, x as int, y as int);
            }
            if rgba_1x[(y * w1 + x) * 4 + 3] > 0 {
                proof {
                    if !found {
                        wy_min_x = y as int;
                        wy_max_x = y as int;
                        wx_min_y = x as int;
                        wx_max_y = x as int;
                    } else {
                        if x < min_x {
                            wy_min_x = y as int;
                        }
                        if x > max_x {
                            wy_max_x = y as int;
                        }
                        if y < min_y {
                            wx_min_y = x as int;
                        }
                        if y > max_y {
                            wx_max_y = x as int;
                        }
                    }
                    found = true;
                }
                if x < min_x {
                    min_x = x;
                }
                if y < min_y {
                    min_y = y;
                }
                if x > max_x {
                    max_x = x;
                }
                if y > max_y {
                    max_y = y;
                }
            }
            x = x + 1;
        }
        y = y + 1;
    }
    proof {
        if found {
            assert(spec_col_used(frame, min_x as int));
            assert(spec_col_used(frame, max_x as int));
            assert(spec_row_used(frame, min_y as int));
            assert(spec_row_used(frame, max_y as int));
            assert(spec_has_content(frame));
            let m1 = spec_min_x(frame);
            let m2 = spec_max_x(frame);
            let m3 = spec_min_y(frame);
            let m4 = spec_max_y(frame);
            assert(m1 == min_x);
            assert(m2 == max_x);
            assert(m3 == min_y);
            assert(m4 == max_y);
        } else {
            assert(!spec_has_content(frame));
        }
    }
    (min_x, min_y, max_x, max_y)
}

/// A transparent RGBA canvas of `sz x sz` pixels.
fn zero_canvas(sz: usize) -> (out: Vec<u8>)
    requires
        sz * sz * 4 <= usize::MAX,
    ensures
        out@ == Seq::new((sz * sz * 4) as nat, |i: int| 0u8),
{
    let n = sz * sz * 4;
    let mut out: Vec<u8> = Vec::new();
    let mut i: usize = 0;
    while i < n
        invariant
            i <= n,
            out@ == Seq::new(i as nat, |k: int| 0u8),
        decreases n - i,
    {
        out.push(0);
        i = i + 1;
        assert(out@ =~= Seq::new(i as nat, |k: int| 0u8));
    }
    out
}

/// `a < b * s` gives `a / s < b`.
proof fn lemma_div_below(a: int, b: int, s: int)
    requires
        0 <= a < b * s,
        s >= 1,
    ensures
        a / s < b,
        0 <= a / s,
{
    vstd::arithmetic::div_mod::lemma_div_pos_is_pos(a, s);
    assert(a / s < b) by (nonlinear_arith)
        requires
            0 <= a < b * s,
            s >= 1,
    {
        vstd::arithmetic::div_mod::lemma_fundamental_div_mod(a, s);
        vstd::arithmetic::div_mod::lemma_mod_pos_bound(a, s);
    }
}

/// The emoji scale is at least 1; along each axis the upscaled box fits on
/// the canvas or the scale is 1, and a box that fits at scale 1 fits
/// upscaled.
proof fn lemma_emoji_fit(sz: int, cw: int, ch: int)
    requires
        1 <= sz,
        1 <= cw,
        1 <= ch,
    ensures
        spec_emoji_scale(sz, cw, ch) >= 1,
        cw * spec_emoji_scale(sz, cw, ch) <= sz || spec_emoji_scale(sz, cw, ch) == 1,
        ch * spec_emoji_scale(sz, cw, ch) <= sz || spec_emoji_scale(sz, cw, ch) == 1,
        cw <= sz && ch <= sz ==> cw * spec_emoji_scale(sz, cw, ch) <= sz && ch
            * spec_emoji_scale(sz, cw, ch) <= sz,
{
    let s = spec_emoji_scale(sz, cw, ch);
    vstd::arithmetic::div_mod::lemma_div_pos_is_pos(sz, cw);
    vstd::arithmetic::div_mod::lemma_div_pos_is_pos(sz, ch);
    vstd::arithmetic::div_mod::lemma_fundamental_div_mod(sz, cw);
    vstd::arithmetic::div_mod::lemma_fundamental_div_mod(sz, ch);
    vstd::arithmetic::div_mod::lemma_mod_pos_bound(sz, cw);
    vstd::arithmetic::div_mod::lemma_mod_pos_bound(sz, ch);
    if s > 1 {
        assert(s <= sz / cw && s <= sz / ch);
        vstd::arithmetic::mul::lemma_mul_inequality(s, sz / cw, cw);
        vstd::arithmetic::mul::lemma_mul_inequality(s, sz / ch, ch);
        vstd::arithmetic::mul::lemma_mul_is_commutative(s, cw);
        vstd::arithmetic::mul::lemma_mul_is_commutative(s, ch);
        vstd::arithmetic::mul::lemma_mul_is_commutative(sz / cw, cw);
        vstd::arithmetic::mul::lemma_mul_is_commutative(sz / ch, ch);
    } else {
        assert(s == 1);
    }
}

/// Build the canvas with the frame's box `(x0, y0, cw, ch)` upscaled by `s`
/// and placed with its corner at `(ox - cx, oy - cy)`, copying pixels from
/// the scale-1 raster; the parts of the box off the canvas are clipped.
#[verifier::rlimit(60)]
fn place_content(
    rgba_1x: &Vec<u8>,
    sz: usize,
    x0: usize,
    y0: usize,
    cw: usize,
    ch: usize,
    s: usize,
    ox: usize,
    oy: usize,
    cx: usize,
    cy: usize,
    Ghost(frame): Ghost<PackedFrame>,
    Ghost(theme): Ghost<Theme>,
) -> (out: Vec<u8>)
    requires
        rgba_1x@ == spec_raster(frame, theme, 1),
        sz * sz * 4 <= usize::MAX,
        s >= 1,
        x0 + cw <= CROP_W,
        y0 + ch <= CROP_H,
        2 * sz + 64 <= usize::MAX,
        ox <= sz,
        oy <= sz,
        cx <= 32,
        cy <= 32,
        cw * s <= sz + 32,
        ch * s <= sz + 32,
    ensures
        out@ == spec_placed_canvas(
            frame,
            theme,
            sz as int,
            x0 as int,
            y0 as int,
            cw as int,
            ch as int,
            s as int,
            ox - cx,
            oy - cy,
        ),
{
    let ghost full = spec_placed_canvas(
        frame,
        theme,
        sz as int,
        x0 as int,
        y0 as int,
        cw as int,
        ch as int,
        s as int,
        ox - cx,
        oy - cy,
    );
    let sw = cw * s;
    let sh = ch * s;
    let mut out: Vec<u8> = Vec::new();
    let mut yy: usize = 0;
    while yy < sz
        invariant
            rgba_1x@ == spec_raster(frame, theme, 1),
            sz * sz * 4 <= usize::MAX,
            s >= 1,
            x0 + cw <= CROP_W,
            y0 + ch <= CROP_H,
            sw == cw * s,
            sh == ch * s,
            2 * sz + 64 <= usize::MAX,
            ox <= sz,
            oy <= sz,
            cx <= 32,
            cy <= 32,
            sw <= sz + 32,
            sh <= sz + 32,
            yy <= sz,
            full.len() == sz * sz * 4,
            full == spec_placed_canvas(
                frame,
                theme,
                sz as int,
                x0 as int,
                y0 as int,
                cw as int,
                ch as int,
                s as int,
                ox - cx,
                oy - cy,
            ),
            out@ == full.take(yy * sz * 4),
        decreases sz - yy,
    {
        let mut xx: usize = 0;
        while xx < sz
            invariant
                rgba_1x@ == spec_raster(frame, theme, 1),
                sz * sz * 4 <= usize::MAX,
                s >= 1,
                x0 + cw <= CROP_W,
                y0 + ch <= CROP_H,
                sw == cw * s,
                sh == ch * s,
                2 * sz + 64 <= usize::MAX,
                ox <= sz,
                oy <= sz,
                cx <= 32,
                cy <= 32,
                sw <= sz + 32,
                sh <= sz + 32,
                yy < sz,
                xx <= sz,
                full.len() == sz * sz * 4,
                full == spec_placed_canvas(
                    frame,
                    theme,
                    sz as int,
                    x0 as int,
                    y0 as int,
                    cw as int,
                    ch as int,
                    s as int,
                    ox - cx,
                    oy - cy,
                ),
                out@ == full.take((yy * sz + xx) * 4),
            decreases sz - xx,
        {
            proof {
                assert((yy * sz + xx + 1) * 4 <= sz * sz * 4) by (nonlinear_arith)
                    requires
                        xx < sz,
                        yy < sz,
                ;
                crate::raster::lemma_rgba_index(sz as int, xx as int, yy as int, 0);
                crate::raster::lemma_rgba_index(sz as int, xx as int, yy as int, 1);
                crate::raster::lemma_rgba_index(sz as int, xx as int, yy as int, 2);
                crate::raster::lemma_rgba_index(sz as int, xx as int, yy as int, 3);
            }
            if ox <= xx + cx && xx + cx < ox + sw && oy <= yy + cy && yy + cy < oy + sh {
                proof {
                    lemma_div_below((xx + cx - ox) as int, cw as int, s as int);
                    lemma_div_below((yy + cy - oy) as int, ch as int, s as int);
                }
                let src_x = x0 + (xx + cx - ox) / s;
                let src_y = y0 + (yy + cy - oy) / s;
                let src_idx = (src_y * CROP_W + src_x) * 4;
                proof {
                    crate::raster::lemma_raster_pixel(frame, theme, 1, src_x as int, src_y as int, 0);
                    crate::raster::lemma_raster_pixel(frame, theme, 1, src_x as int, src_y as int, 1);
                    crate::raster::lemma_raster_pixel(frame, theme, 1, src_x as int, src_y as int, 2);
                    crate::raster::lemma_raster_pixel(frame, theme, 1, src_x as int, src_y as int, 3);
                    assert(src_x as int / 1 == src_x);
                    assert(src_y as int / 1 == src_y);
                }
                out.push(rgba_1x[src_idx]);
                out.push(rgba_1x[src_idx + 1]);
                out.push(rgba_1x[src_idx + 2]);
                out.push(rgba_1x[src_idx + 3]);
            } else {
                out.push(0);
                out.push(0);
                out.push(0);
                out.push(0);
            }
            xx = xx + 1;
            assert(out@ =~= full.take((yy * sz + xx) * 4));
        }
        yy = yy + 1;
        assert(out@ =~= full.take(yy * sz * 4)) by {
            assert((yy - 1) * sz + sz == yy * sz) by (nonlinear_arith);
        }
    }
    assert(yy * sz * 4 == sz * sz * 4) by (nonlinear_arith)
        requires
            yy == sz,
    ;
    assert(out@ =~= full);
    out
}

/// Where a run of `sw` pixels starts when centred on `sz` pixels, as
/// `o - c`: the offset `o` on the canvas when the run fits, else the number
/// `c` of pixels clipped at the start (offsets rounded down).
fn centre_offset(sz: usize, sw: usize) -> (r: (usize, usize))
    ensures
        r.0 - r.1 == (sz - sw) / 2,
        r.0 <= sz,
        sw <= sz + 32 ==> r.1 <= 32,
{
    if sw <= sz {
        ((sz - sw) / 2, 0)
    } else {
        let d = sw - sz;
        let c = d / 2 + d % 2;
        assert(0 - c == (sz - sw) / 2) by (nonlinear_arith)
            requires
                sw > sz,
                d == sw - sz,
                c == d / 2 + d % 2,
        ;
        (0, c)
    }
}

/// Whether the `size x size` RGBA canvas of an emoji fits in memory (a
/// size of 0 counts as 1).
pub open spec fn spec_emoji_fits_memory(size: u32) -> bool {
    spec_canvas_side(size) * spec_canvas_side(size) * 4 <= usize::MAX
}

/// Where sprite pixel `(x, y)` lands on an emoji canvas of side `sz`: the
/// corner of its upscaled copy.
pub open spec fn spec_emoji_spot(frame: PackedFrame, sz: int, x: int, y: int) -> (int, int) {
    let x0 = spec_min_x(frame);
    let y0 = spec_min_y(frame);
    let cw = spec_max_x(frame) - x0 + 1;
    let ch = spec_max_y(frame) - y0 + 1;
    let s = spec_emoji_scale(sz, cw, ch);
    ((sz - cw * s) / 2 + (x - x0) * s, (sz - ch * s) / 2 + (y - y0) * s)
}

/// On a canvas that holds the content box, every drawn sprite pixel shows
/// at its spot.
proof fn lemma_emoji_shows_pixel(frame: PackedFrame, theme: Theme, sz: int, x: int, y: int, c: int)
    requires
        0 <= x < CROP_W,
        0 <= y < CROP_H,
        0 <= c < 4,
        spec_opaque(frame, x, y),
        spec_max_x(frame) - spec_min_x(frame) + 1 <= sz,
        spec_max_y(frame) - spec_min_y(frame) + 1 <= sz,
    ensures
        0 <= spec_emoji_spot(frame, sz, x, y).0 < sz,
        0 <= spec_emoji_spot(frame, sz, x, y).1 < sz,
        spec_emoji_canvas(frame, theme, sz)[(spec_emoji_spot(frame, sz, x, y).1 * sz
            + spec_emoji_spot(frame, sz, x, y).0) * 4 + c] == spec_channel(
            spec_pixel_rgba(frame, theme, x, y),
            c,
        ),
{
    assert(spec_col_used(frame, x));
    assert(spec_has_content(frame));
    lemma_content_box(frame);
    let x0 = spec_min_x(frame);
    let y0 = spec_min_y(frame);
    let cw = spec_max_x(frame) - x0 + 1;
    let ch = spec_max_y(frame) - y0 + 1;
    lemma_emoji_fit(sz, cw, ch);
    let s = spec_emoji_scale(sz, cw, ch);
    let ox = (sz - cw * s) / 2;
    let oy = (sz - ch * s) / 2;
    let dx = (x - x0) * s;
    let dy = (y - y0) * s;
    assert(0 <= dx < cw * s && dx / s == x - x0) by (nonlinear_arith)
        requires
            0 <= x - x0 < cw,
            s >= 1,
            dx == (x - x0) * s,
    ;
    assert(0 <= dy < ch * s && dy / s == y - y0) by (nonlinear_arith)
        requires
            0 <= y - y0 < ch,
            s >= 1,
            dy == (y - y0) * s,
    ;
    lemma_emoji_pixel(frame, theme, sz, ox + dx, oy + dy, c);
}

/// Two themes that color a drawn sprite pixel differently give different
/// emoji PNGs on any canvas that holds the content box.
pub proof fn lemma_emoji_png_tells_themes_apart(
    frame: PackedFrame,
    a: Theme,
    b: Theme,
    size: u32,
    x: int,
    y: int,
)
    requires
        0 <= x < CROP_W,
        0 <= y < CROP_H,
        spec_unpack_pixel(frame[y][x + COMPACT_X0]) matches Some(hue) && a.spec_color(hue)
            != b.spec_color(hue),
        spec_max_x(frame) - spec_min_x(frame) + 1 <= spec_canvas_side(size),
        spec_max_y(frame) - spec_min_y(frame) + 1 <= spec_canvas_side(size),
    ensures
        spec_emoji_png(frame, a, size) != spec_emoji_png(frame, b, size),
{
    let sz = spec_canvas_side(size);
    assert(spec_opaque(frame, x, y));
    lemma_emoji_shows_pixel(frame, a, sz, x, y, 0);
    lemma_emoji_shows_pixel(frame, a, sz, x, y, 1);
    lemma_emoji_shows_pixel(frame, a, sz, x, y, 2);
    lemma_emoji_shows_pixel(frame, b, sz, x, y, 0);
    lemma_emoji_shows_pixel(frame, b, sz, x, y, 1);
    lemma_emoji_shows_pixel(frame, b, sz, x, y, 2);
    let p = spec_emoji_spot(frame, sz, x, y);
    let ca = spec_emoji_canvas(frame, a, sz);
    let cb = spec_emoji_canvas(frame, b, sz);
    let base = (p.1 * sz + p.0) * 4;
    assert(ca[base] != cb[base] || ca[base + 1] != cb[base + 1] || ca[base + 2] != cb[base + 2]);
    assert(sz as u32 as int == sz);
    lemma_png_injective(ca, cb, sz as u32, sz as u32);
}

/// Render a frame as a square emoji-ready PNG.
///
/// Crops to content bounds, nearest-neighbor upscales, and centers on a
/// transparent canvas of `size × size` pixels (a size of 0 counts as 1).
/// A box larger than the canvas is drawn at scale 1 and centred, and what
/// falls off the canvas is clipped.
#[verifier::rlimit(60)]
pub fn render_emoji(frame: &PackedFrame, theme: &Theme, size: u32) -> (png: Vec<u8>)
    requires
        spec_emoji_fits_memory(size),
    ensures
        png@ == spec_emoji_png(*frame, *theme, size),
{
    let (rgba_1x, _w1, _h1) = rasterise(frame, theme, 1);
    let (min_x, min_y, max_x, max_y) = content_bounds(&rgba_1x, Ghost(*frame), Ghost(*theme));
    let sz: usize = if size < 1 {
        1
    } else {
        size as usize
    };
    if max_x < min_x || max_y < min_y {
        let empty = zero_canvas(sz);
        return encode_rgba_png(empty.as_slice(), sz as u32, sz as u32);
    }
    let cw = max_x - min_x + 1;
    let ch = max_y - min_y + 1;
    let fit = if sz / cw < sz / ch {
        sz / cw
    } else {
        sz / ch
    };
    let s = if fit < 1 {
        1
    } else {
        fit
    };
    proof {
        lemma_emoji_fit(sz as int, cw as int, ch as int);
        assert(2 * sz + 64 <= usize::MAX) by (nonlinear_arith)
            requires
                sz >= 1,
                sz * sz * 4 <= usize::MAX,
                usize::MAX >= 0xffff_ffff,
        ;
    }
    assert(cw * s <= sz + 32 && ch * s <= sz + 32);
    let sw = cw * s;
    let sh = ch * s;
    let (ox, cx) = centre_offset(sz, sw);
    let (oy, cy) = centre_offset(sz, sh);
    let out = place_content(
        &rgba_1x,
        sz,
        min_x,
        min_y,
        cw,
        ch,
        s,
        ox,
        oy,
        cx,
        cy,
        Ghost(*frame),
        Ghost(*theme),
    );
    encode_rgba_png(out.as_slice(), sz as u32, sz as u32)
}

/// Whether an emoji canvas of `size` pixels fits in memory, so that
/// [`render_emoji`] can draw on it.
pub fn emoji_fits_memory(size: u32) -> (b: bool)
    ensures
        b == spec_emoji_fits_memory(size),
{
    let sz: u64 = if size < 1 {
        1
    } else {
        size as u64
    };
    match sz.checked_mul(sz) {
        Some(area) => match area.checked_mul(4) {
            Some(bytes) => bytes as u128 <= usize::MAX as u128,
            None => false,
        },
        None => false,
    }
}

/// Render all animation frames as emoji-sized PNGs.
pub fn render_all_emoji(theme: &Theme, size: u32) -> (pngs: Vec<Vec<u8>>)
    requires
        spec_emoji_fits_memory(size),
    ensures
        pngs@.len() == FRAME_COUNT,
        forall|i: int|
            0 <= i < FRAME_COUNT ==> #[trigger] pngs@[i]@ == spec_emoji_png(FRAMES[i], *theme, size),
{
    let mut pngs: Vec<Vec<u8>> = Vec::new();
    let mut i: usize = 0;
    while i < FRAME_COUNT
        invariant
            i <= FRAME_COUNT,
            pngs@.len() == i,
            spec_emoji_fits_memory(size),
            forall|j: int|
                0 <= j < i ==> #[trigger] pngs@[j]@ == spec_emoji_png(FRAMES[j], *theme, size),
        decreases FRAME_COUNT - i,
    {
        let frame = FRAMES[i];
        pngs.push(render_emoji(&frame, theme, size));
        i = i + 1;
    }
    pngs
}

} // verus!
