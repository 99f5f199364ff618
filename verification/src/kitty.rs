//! Kitty graphics protocol renderer.
//!
//! Rasterises a [`PackedFrame`] to RGBA pixels, base64-encodes the raw data,
//! and frames it in Kitty graphics protocol escape sequences. Data larger
//! than 4096 bytes is chunked with continuation flags. The bytes to send are
//! left in the caller's buffer.

use vstd::prelude::*;
use vstd::string::StringSliceAdditionalSpecFns;
use crate::bytes::{
    lemma_decimal_lacks, push_all, push_decimal, spec_decimal, spec_lacks,
};
use crate::frame::PackedFrame;
use crate::png::slice_range;
use crate::raster::{
    base64_encode, lemma_base64_alphabet, lemma_base64_round_trip, rasterise, spec_base64,
    spec_base64_decode, spec_clamp_scale, spec_raster, CROP_H, CROP_W, MAX_SCALE,
};
use crate::theme::Theme;

verus! {

/// Maximum payload per Kitty graphics chunk (bytes of base64).
pub const CHUNK_SIZE: usize = 4096;

/// The header that opens the first escape sequence of an image:
/// `ESC _ G f=32,s=<w>,v=<h>,a=T,t=d` (RGBA, transmit and display, direct data).
pub open spec fn spec_kitty_first_header(w: u32, h: u32) -> Seq<u8> {
    "\x1b_Gf=32,s=".spec_bytes() + spec_decimal(w as nat) + ",v=".spec_bytes() + spec_decimal(
        h as nat,
    ) + ",a=T,t=d".spec_bytes()
}

/// The escape sequences of a chunked transmission of `data`: one per chunk
/// of at most 4096 bytes; the first carries the image header, the others
/// only `m=`; `m=1` marks every chunk but the last, which has `m=0`; each
/// ends with the string terminator `ESC \`.
pub open spec fn spec_kitty_chunks(data: Seq<u8>, w: u32, h: u32, first: bool) -> Seq<u8>
    decreases data.len(),
{
    if data.len() == 0 {
        seq![]
    } else {
        let n = if data.len() < CHUNK_SIZE {
            data.len() as int
        } else {
            CHUNK_SIZE as int
        };
        let m: nat = if data.len() <= CHUNK_SIZE {
            0
        } else {
            1
        };
        let header = if first {
            spec_kitty_first_header(w, h) + ",m=".spec_bytes() + spec_decimal(m) + ";".spec_bytes()
        } else {
            "\x1b_Gm=".spec_bytes() + spec_decimal(m) + ";".spec_bytes()
        };
        header + data.take(n) + "\x1b\\".spec_bytes() + spec_kitty_chunks(
            data.skip(n),
            w,
            h,
            false,
        )
    }
}

/// The bytes that transmit and display a `w x h` RGBA image whose base64
/// text is `data`: a single escape sequence when the text fits in one
/// chunk, else a chunked transmission.
pub open spec fn spec_kitty_stream(data: Seq<u8>, w: u32, h: u32) -> Seq<u8> {
    if data.len() <= CHUNK_SIZE {
        spec_kitty_first_header(w, h) + ";".spec_bytes() + data + "\x1b\\".spec_bytes()
    } else {
        spec_kitty_chunks(data, w, h, true)
    }
}

/// The bytes that [`draw_kitty`] leaves for the terminal: the base64 of the
/// frame rasterised at the clamped scale, in Kitty graphics sequences.
pub open spec fn spec_kitty_frame(frame: PackedFrame, theme: Theme, scale: u8) -> Seq<u8> {
    let s = spec_clamp_scale(scale);
    spec_kitty_stream(
        spec_base64(spec_raster(frame, theme, s)),
        (CROP_W * s) as u32,
        (CROP_H * s) as u32,
    )
}

/// What [`draw_kitty`] leaves in its scratch buffer: the base64 text of
/// the frame's raster when it fits in one chunk, else nothing.
pub open spec fn spec_kitty_scratch(frame: PackedFrame, theme: Theme, scale: u8) -> Seq<u8> {
    let data = spec_base64(spec_raster(frame, theme, spec_clamp_scale(scale)));
    if data.len() <= CHUNK_SIZE {
        data
    } else {
        Seq::<u8>::empty()
    }
}

/// Append the first-sequence header for a `w x h` image.
fn push_first_header(out: &mut Vec<u8>, w: u32, h: u32)
    ensures
        final(out)@ == old(out)@ + spec_kitty_first_header(w, h),
{
    push_all(out, "\x1b_Gf=32,s=".as_bytes());
    push_decimal(out, w as usize);
    push_all(out, ",v=".as_bytes());
    push_decimal(out, h as usize);
    push_all(out, ",a=T,t=d".as_bytes());
    assert(final(out)@ =~= old(out)@ + spec_kitty_first_header(w, h));
}

/// Render a frame using the Kitty graphics protocol.
///
/// Each sprite pixel is rendered as `scale x scale` screen pixels. The frame
/// is cropped to the bounding box, rasterised to RGBA, base64-encoded, and
/// framed in `\x1b_G...` escape sequences. Payloads larger than 4096 bytes
/// are chunked with `m=1` continuation flags.
///
/// `buf` is a reusable scratch buffer to avoid per-frame allocation: it
/// receives the base64 text, which it keeps for a single chunk and gives up
/// (empty) after a chunked transmission. The sequences are appended to `out`.
pub fn draw_kitty(
    buf: &mut Vec<u8>,
    out: &mut Vec<u8>,
    frame: &PackedFrame,
    theme: &Theme,
    scale: u8,
)
    ensures
        final(buf)@ == spec_kitty_scratch(*frame, *theme, scale),
        final(out)@ == old(out)@ + spec_kitty_frame(*frame, *theme, scale),
{
    let (rgba, w, h) = rasterise(frame, theme, scale);
    // Base64 encode the raw RGBA data into buf
    buf.clear();
    base64_encode(rgba.as_slice(), buf);
    assert(buf@ =~= spec_base64(rgba@));
    push_kitty_stream(out, buf.as_slice(), w, h);
    if buf.len() > CHUNK_SIZE {
        buf.clear();
    }
}

/// Append the sequences that transmit and display a `w x h` RGBA image
/// whose base64 text is `b64`.
#[verifier::rlimit(40)]
fn push_kitty_stream(out: &mut Vec<u8>, b64: &[u8], w: u32, h: u32)
    ensures
        final(out)@ == old(out)@ + spec_kitty_stream(b64@, w, h),
{
    let ghost start = out@;
    let ghost target = spec_kitty_stream(b64@, w, h);
    let total_len = b64.len();
    if total_len <= CHUNK_SIZE {
        // Single chunk: a=T (transmit and display), f=32 (RGBA), t=d (direct data)
        push_first_header(out, w, h);
        push_all(out, ";".as_bytes());
        push_all(out, b64);
        push_all(out, "\x1b\\".as_bytes());
        assert(out@ =~= start + target);
    } else {
        // Multi-chunk transmission.
        let mut offset: usize = 0;
        let mut first = true;
        assert(b64@.skip(0) =~= b64@);
        assert(start + target =~= start + spec_kitty_chunks(b64@, w, h, true));
        while offset < total_len
            invariant
                total_len == b64@.len(),
                total_len > CHUNK_SIZE,
                offset <= total_len,
                first == (offset == 0),
                target == spec_kitty_chunks(b64@, w, h, true),
                offset < total_len ==> out@ + spec_kitty_chunks(b64@.skip(offset as int), w, h, first)
                    == start + target,
                offset == total_len ==> out@ == start + target,
            decreases total_len - offset,
        {
            let remaining = total_len - offset;
            let chunk_len = if remaining < CHUNK_SIZE {
                remaining
            } else {
                CHUNK_SIZE
            };
            let is_last = offset + chunk_len >= total_len;
            let m: usize = if is_last {
                0
            } else {
                1
            };
            let ghost before = out@;
            let ghost rest = b64@.skip(offset as int);
            if first {
                push_first_header(out, w, h);
                push_all(out, ",m=".as_bytes());
                push_decimal(out, m);
                push_all(out, ";".as_bytes());
                first = false;
            } else {
                push_all(out, "\x1b_Gm=".as_bytes());
                push_decimal(out, m);
                push_all(out, ";".as_bytes());
            }
            let chunk = slice_range(b64, offset, offset + chunk_len);
            push_all(out, chunk);
            push_all(out, "\x1b\\".as_bytes());
            offset = offset + chunk_len;
            proof {
                assert(chunk@ =~= rest.take(chunk_len as int));
                assert(rest.skip(chunk_len as int) =~= b64@.skip(offset as int));
                if is_last {
                    assert(rest.skip(chunk_len as int) =~= Seq::<u8>::empty());
                    assert(spec_kitty_chunks(rest.skip(chunk_len as int), w, h, false)
                        =~= Seq::<u8>::empty());
                    assert(out@ =~= before + spec_kitty_chunks(rest, w, h, offset == chunk_len));
                } else {
                    assert(out@ + spec_kitty_chunks(b64@.skip(offset as int), w, h, false)
                        =~= before + spec_kitty_chunks(rest, w, h, offset == chunk_len));
                }
            }
        }
    }
}

/// The number of chunks of `len` bytes of base64 text.
pub open spec fn spec_chunk_count(len: nat) -> nat {
    ((len + 4095) / 4096) as nat
}

/// Sequences `k` to `n - 1` of a chunked transmission of `data`: sequence
/// `k` carries bytes `4096 k ..` of the text (at most 4096 of them), the
/// first one with the image header and `m=1`, the others `m=1` but the
/// last, which has `m=0`.
pub open spec fn spec_kitty_sequences(data: Seq<u8>, w: u32, h: u32, k: nat, n: nat) -> Seq<u8>
    decreases n - k,
{
    if k >= n {
        seq![]
    } else {
        let m: nat = if k + 1 == n {
            0
        } else {
            1
        };
        let header = if k == 0 {
            spec_kitty_first_header(w, h) + ",m=".spec_bytes() + spec_decimal(m)
        } else {
            "\x1b_Gm=".spec_bytes() + spec_decimal(m)
        };
        let end = if 4096 * (k as int + 1) < data.len() {
            4096 * (k as int + 1)
        } else {
            data.len() as int
        };
        header + ";".spec_bytes() + data.subrange(4096 * (k as int), end) + "\x1b\\".spec_bytes()
            + spec_kitty_sequences(data, w, h, k + 1, n)
    }
}

/// The chunks from offset `4096 k` on are sequences `k` to the last.
proof fn lemma_kitty_chunks_from(data: Seq<u8>, w: u32, h: u32, k: nat)
    requires
        data.len() > 4096,
        4096 * (k as int) < data.len(),
    ensures
        spec_kitty_chunks(data.skip(4096 * (k as int)), w, h, k == 0) == spec_kitty_sequences(
            data,
            w,
            h,
            k,
            spec_chunk_count(data.len()),
        ),
    decreases data.len() - 4096 * (k as int),
{
    let n = spec_chunk_count(data.len());
    let len = data.len() as int;
    let rest = data.skip(4096 * (k as int));
    assert(k < n);
    assert(rest.len() <= 4096 <==> k + 1 == n);
    let take = if rest.len() < 4096 {
        rest.len() as int
    } else {
        4096
    };
    let end = if 4096 * (k as int + 1) < len {
        4096 * (k as int + 1)
    } else {
        len
    };
    assert(rest.take(take) =~= data.subrange(4096 * (k as int), end));
    let m: nat = if k + 1 == n {
        0
    } else {
        1
    };
    let header = if k == 0 {
        spec_kitty_first_header(w, h) + ",m=".spec_bytes() + spec_decimal(m) + ";".spec_bytes()
    } else {
        "\x1b_Gm=".spec_bytes() + spec_decimal(m) + ";".spec_bytes()
    };
    assert(spec_kitty_chunks(rest, w, h, k == 0) == header + rest.take(take) + "\x1b\\".spec_bytes()
        + spec_kitty_chunks(rest.skip(take), w, h, false));
    if 4096 * (k as int + 1) < len {
        lemma_kitty_chunks_from(data, w, h, k + 1);
        assert(rest.skip(take) =~= data.skip(4096 * (k as int + 1)));
    } else {
        assert(rest.skip(take) =~= Seq::<u8>::empty());
        assert(spec_kitty_sequences(data, w, h, k + 1, n) =~= Seq::<u8>::empty());
    }
    assert(spec_kitty_sequences(data, w, h, k, n) =~= header + data.subrange(4096 * (k as int), end)
        + "\x1b\\".spec_bytes() + spec_kitty_sequences(data, w, h, k + 1, n));
}

/// A text longer than one chunk is sent as `ceil(len / 4096)` sequences:
/// sequence `k` carries bytes `4096 k ..` (at most 4096), the first holds
/// the image header with `m=1`, and every later one `m=1` except the last,
/// which has `m=0`.
pub proof fn lemma_kitty_chunk_layout(data: Seq<u8>, w: u32, h: u32)
    requires
        data.len() > 4096,
    ensures
        spec_kitty_stream(data, w, h) == spec_kitty_sequences(
            data,
            w,
            h,
            0,
            spec_chunk_count(data.len()),
        ),
{
    lemma_kitty_chunks_from(data, w, h, 0);
    assert(data.skip(0) =~= data);
}

/// The image data that a terminal reads from Kitty graphics sequences:
/// outside a payload it skips the control data up to `;`; inside one it
/// keeps every byte up to the ESC that starts the string terminator.
pub open spec fn spec_kitty_read(t: Seq<u8>, in_payload: bool) -> Seq<u8>
    decreases t.len(),
{
    if t.len() == 0 {
        seq![]
    } else if !in_payload {
        spec_kitty_read(t.skip(1), t[0] == 0x3bu8)
    } else if t[0] == 0x1bu8 {
        spec_kitty_read(t.skip(1), false)
    } else {
        seq![t[0]] + spec_kitty_read(t.skip(1), true)
    }
}

/// Control data without `;` is skipped.
proof fn lemma_kitty_read_skips(head: Seq<u8>, rest: Seq<u8>)
    requires
        spec_lacks(head, 0x3bu8),
    ensures
        spec_kitty_read(head + rest, false) == spec_kitty_read(rest, false),
    decreases head.len(),
{
    if head.len() == 0 {
        assert(head + rest =~= rest);
    } else {
        assert((head + rest).skip(1) =~= head.skip(1) + rest);
        assert(head[0] != 0x3bu8);
        lemma_kitty_read_skips(head.skip(1), rest);
    }
}

/// Payload bytes without ESC are kept.
proof fn lemma_kitty_read_keeps(data: Seq<u8>, rest: Seq<u8>)
    requires
        spec_lacks(data, 0x1bu8),
    ensures
        spec_kitty_read(data + rest, true) == data + spec_kitty_read(rest, true),
    decreases data.len(),
{
    if data.len() == 0 {
        assert(data + rest =~= rest);
        assert(data + spec_kitty_read(rest, true) =~= spec_kitty_read(rest, true));
    } else {
        assert((data + rest).skip(1) =~= data.skip(1) + rest);
        assert(data[0] != 0x1bu8);
        lemma_kitty_read_keeps(data.skip(1), rest);
        assert(data =~= seq![data[0]] + data.skip(1));
    }
}

/// One escape sequence `<control> ; <payload> ESC \` is read as its payload.
proof fn lemma_kitty_read_sequence(control: Seq<u8>, data: Seq<u8>, rest: Seq<u8>)
    requires
        spec_lacks(control, 0x3bu8),
        spec_lacks(data, 0x1bu8),
    ensures
        spec_kitty_read(control + ";".spec_bytes() + data + "\x1b\\".spec_bytes() + rest, false)
            == data + spec_kitty_read(rest, false),
{
    reveal_strlit(";");
    vstd::string::is_ascii_spec_bytes(";");
    reveal_strlit("\x1b\\");
    vstd::string::is_ascii_spec_bytes("\x1b\\");
    let t = control + ";".spec_bytes() + data + "\x1b\\".spec_bytes() + rest;
    let after = data + (seq![0x1bu8, 0x5cu8] + rest);
    assert(t =~= control + (seq![0x3bu8] + after));
    lemma_kitty_read_skips(control, seq![0x3bu8] + after);
    assert((seq![0x3bu8] + after).skip(1) =~= after);
    lemma_kitty_read_keeps(data, seq![0x1bu8, 0x5cu8] + rest);
    let st = seq![0x1bu8, 0x5cu8] + rest;
    assert(st.skip(1) =~= seq![0x5cu8] + rest);
    assert((seq![0x5cu8] + rest).skip(1) =~= rest);
    assert(spec_kitty_read(seq![0x5cu8] + rest, false) == spec_kitty_read(rest, false));
    assert(spec_kitty_read(st, true) == spec_kitty_read(rest, false));
    assert(spec_kitty_read(seq![0x3bu8] + after, false) == spec_kitty_read(after, true));
    assert(spec_kitty_read(t, false) == data + spec_kitty_read(rest, false));
}

/// The control data of the first sequence holds no `;`.
proof fn lemma_first_header_lacks_semicolon(w: u32, h: u32)
    ensures
        spec_lacks(spec_kitty_first_header(w, h), 0x3bu8),
{
    reveal_strlit("\x1b_Gf=32,s=");
    vstd::string::is_ascii_spec_bytes("\x1b_Gf=32,s=");
    reveal_strlit(",v=");
    vstd::string::is_ascii_spec_bytes(",v=");
    reveal_strlit(",a=T,t=d");
    vstd::string::is_ascii_spec_bytes(",a=T,t=d");
    lemma_decimal_lacks(w as nat, 0x3bu8);
    lemma_decimal_lacks(h as nat, 0x3bu8);
    let a = "\x1b_Gf=32,s=".spec_bytes();
    let b = spec_decimal(w as nat);
    let c = ",v=".spec_bytes();
    let d = spec_decimal(h as nat);
    let e = ",a=T,t=d".spec_bytes();
    let all = spec_kitty_first_header(w, h);
    assert(all == a + b + c + d + e);
    assert forall|i: int| 0 <= i < all.len() implies #[trigger] all[i] != 0x3bu8 by {
        if i < a.len() {
            assert(all[i] == a[i]);
        } else if i < a.len() + b.len() {
            assert(all[i] == b[i - a.len()]);
        } else if i < a.len() + b.len() + c.len() {
            assert(all[i] == c[i - a.len() - b.len()]);
        } else if i < a.len() + b.len() + c.len() + d.len() {
            assert(all[i] == d[i - a.len() - b.len() - c.len()]);
        } else {
            assert(all[i] == e[i - a.len() - b.len() - c.len() - d.len()]);
        }
    }
}

/// The control data `<prefix>,m=<m>` or `ESC _ G m=<m>` holds no `;`.
proof fn lemma_chunk_header_lacks_semicolon(prefix: Seq<u8>, m: nat, first: bool)
    requires
        spec_lacks(prefix, 0x3bu8),
    ensures
        first ==> spec_lacks(prefix + ",m=".spec_bytes() + spec_decimal(m), 0x3bu8),
        !first ==> spec_lacks("\x1b_Gm=".spec_bytes() + spec_decimal(m), 0x3bu8),
{
    reveal_strlit(",m=");
    vstd::string::is_ascii_spec_bytes(",m=");
    reveal_strlit("\x1b_Gm=");
    vstd::string::is_ascii_spec_bytes("\x1b_Gm=");
    lemma_decimal_lacks(m, 0x3bu8);
    let d = spec_decimal(m);
    let a = prefix + ",m=".spec_bytes();
    assert forall|i: int| 0 <= i < (a + d).len() implies #[trigger] (a + d)[i] != 0x3bu8 by {
        if i < prefix.len() {
            assert((a + d)[i] == prefix[i]);
        } else if i < a.len() {
            assert((a + d)[i] == ",m=".spec_bytes()[i - prefix.len()]);
        } else {
            assert((a + d)[i] == d[i - a.len()]);
        }
    }
    let g = "\x1b_Gm=".spec_bytes();
    assert forall|i: int| 0 <= i < (g + d).len() implies #[trigger] (g + d)[i] != 0x3bu8 by {
        if i < g.len() {
            assert((g + d)[i] == g[i]);
        } else {
            assert((g + d)[i] == d[i - g.len()]);
        }
    }
}

/// Reading a chunked transmission gives back the data.
proof fn lemma_kitty_chunks_read(data: Seq<u8>, w: u32, h: u32, first: bool)
    requires
        spec_lacks(data, 0x1bu8),
    ensures
        spec_kitty_read(spec_kitty_chunks(data, w, h, first), false) == data,
    decreases data.len(),
{
    if data.len() > 0 {
        let n = if data.len() < CHUNK_SIZE {
            data.len() as int
        } else {
            CHUNK_SIZE as int
        };
        let m: nat = if data.len() <= CHUNK_SIZE {
            0
        } else {
            1
        };
        let control = if first {
            spec_kitty_first_header(w, h) + ",m=".spec_bytes() + spec_decimal(m)
        } else {
            "\x1b_Gm=".spec_bytes() + spec_decimal(m)
        };
        lemma_first_header_lacks_semicolon(w, h);
        lemma_chunk_header_lacks_semicolon(spec_kitty_first_header(w, h), m, first);
        let piece = data.take(n);
        assert(spec_lacks(piece, 0x1bu8));
        let tail = spec_kitty_chunks(data.skip(n), w, h, false);
        assert(spec_lacks(data.skip(n), 0x1bu8));
        lemma_kitty_chunks_read(data.skip(n), w, h, false);
        assert(spec_kitty_chunks(data, w, h, first) =~= control + ";".spec_bytes() + piece
            + "\x1b\\".spec_bytes() + tail);
        lemma_kitty_read_sequence(control, piece, tail);
        assert(piece + data.skip(n) =~= data);
    } else {
        assert(spec_kitty_chunks(data, w, h, first) =~= Seq::<u8>::empty());
    }
}

/// A terminal reading the sequences that draw a frame gets back exactly the
/// base64 text of the frame's RGBA raster, whether it came in one sequence
/// or in chunks; decoding that text gives back the raster.
pub proof fn lemma_kitty_payload(frame: PackedFrame, theme: Theme, scale: u8)
    ensures
        spec_kitty_read(spec_kitty_frame(frame, theme, scale), false) == spec_base64(
            spec_raster(frame, theme, spec_clamp_scale(scale)),
        ),
        spec_base64_decode(spec_kitty_read(spec_kitty_frame(frame, theme, scale), false))
            == spec_raster(frame, theme, spec_clamp_scale(scale)),
{
    lemma_base64_round_trip(spec_raster(frame, theme, spec_clamp_scale(scale)));
    let s = spec_clamp_scale(scale);
    let data = spec_base64(spec_raster(frame, theme, s));
    let w = (CROP_W * s) as u32;
    let h = (CROP_H * s) as u32;
    lemma_base64_alphabet(spec_raster(frame, theme, s));
    assert forall|i: int| 0 <= i < data.len() implies #[trigger] data[i] != 0x1bu8 by {}
    if data.len() <= CHUNK_SIZE {
        lemma_first_header_lacks_semicolon(w, h);
        lemma_kitty_read_sequence(spec_kitty_first_header(w, h), data, seq![]);
        assert(spec_kitty_frame(frame, theme, scale) =~= spec_kitty_first_header(w, h)
            + ";".spec_bytes() + data + "\x1b\\".spec_bytes() + seq![]);
        assert(data + spec_kitty_read(seq![], false) =~= data);
    } else {
        lemma_kitty_chunks_read(data, w, h, true);
    }
}

/// A chunked transmission of non-empty data opens with `ESC _ G` and ends
/// with the string terminator `ESC \`.
proof fn lemma_kitty_chunks_framing(data: Seq<u8>, w: u32, h: u32, first: bool)
    requires
        data.len() > 0,
    ensures
        spec_kitty_chunks(data, w, h, first).len() >= 5,
        spec_kitty_chunks(data, w, h, first).take(3) == "\x1b_G".spec_bytes(),
        spec_kitty_chunks(data, w, h, first).skip(spec_kitty_chunks(data, w, h, first).len() - 2)
            == "\x1b\\".spec_bytes(),
    decreases data.len(),
{
    reveal_strlit("\x1b_G");
    vstd::string::is_ascii_spec_bytes("\x1b_G");
    reveal_strlit("\x1b\\");
    vstd::string::is_ascii_spec_bytes("\x1b\\");
    reveal_strlit("\x1b_Gm=");
    vstd::string::is_ascii_spec_bytes("\x1b_Gm=");
    reveal_strlit("\x1b_Gf=32,s=");
    vstd::string::is_ascii_spec_bytes("\x1b_Gf=32,s=");
    let n = if data.len() < CHUNK_SIZE {
        data.len() as int
    } else {
        CHUNK_SIZE as int
    };
    let m: nat = if data.len() <= CHUNK_SIZE {
        0
    } else {
        1
    };
    let header = if first {
        spec_kitty_first_header(w, h) + ",m=".spec_bytes() + spec_decimal(m) + ";".spec_bytes()
    } else {
        "\x1b_Gm=".spec_bytes() + spec_decimal(m) + ";".spec_bytes()
    };
    let piece = header + data.take(n) + "\x1b\\".spec_bytes();
    let tail = spec_kitty_chunks(data.skip(n), w, h, false);
    assert(spec_kitty_chunks(data, w, h, first) == piece + tail);
    assert(header.take(3) =~= "\x1b_G".spec_bytes());
    assert(piece.take(3) =~= "\x1b_G".spec_bytes());
    if data.skip(n).len() == 0 {
        assert(tail =~= Seq::<u8>::empty());
        assert((piece + tail).skip((piece + tail).len() - 2) =~= "\x1b\\".spec_bytes());
    } else {
        lemma_kitty_chunks_framing(data.skip(n), w, h, false);
        assert((piece + tail).skip((piece + tail).len() - 2) =~= tail.skip(tail.len() - 2));
    }
    assert((piece + tail).take(3) =~= piece.take(3));
}

/// Every frame drawn with the Kitty protocol opens with the graphics
/// command `ESC _ G f=32,s=` and ends with the string terminator `ESC \`.
/// A scale of 0 draws as scale 1, and any scale above [`MAX_SCALE`] as
/// [`MAX_SCALE`].
pub proof fn lemma_kitty_framing(frame: PackedFrame, theme: Theme, scale: u8)
    ensures
        spec_kitty_frame(frame, theme, scale).len() >= 12,
        spec_kitty_frame(frame, theme, scale).take(10) == "\x1b_Gf=32,s=".spec_bytes(),
        spec_kitty_frame(frame, theme, scale).skip(spec_kitty_frame(frame, theme, scale).len() - 2)
            == "\x1b\\".spec_bytes(),
        spec_kitty_frame(frame, theme, 0) == spec_kitty_frame(frame, theme, 1),
        scale >= MAX_SCALE ==> spec_kitty_frame(frame, theme, scale) == spec_kitty_frame(
            frame,
            theme,
            MAX_SCALE,
        ),
{
    reveal_strlit("\x1b_Gf=32,s=");
    vstd::string::is_ascii_spec_bytes("\x1b_Gf=32,s=");
    reveal_strlit("\x1b\\");
    vstd::string::is_ascii_spec_bytes("\x1b\\");
    let s = spec_clamp_scale(scale);
    let data = spec_base64(spec_raster(frame, theme, s));
    let w = (CROP_W * s) as u32;
    let h = (CROP_H * s) as u32;
    let open = "\x1b_Gf=32,s=".spec_bytes();
    let close = "\x1b\\".spec_bytes();
    let whole = spec_kitty_frame(frame, theme, scale);
    let hdr = spec_kitty_first_header(w, h);
    assert(hdr.take(10) =~= open);
    if data.len() <= CHUNK_SIZE {
        assert(whole =~= hdr + ";".spec_bytes() + data + close);
        assert(whole.take(10) =~= open);
        assert(whole.skip(whole.len() - 2) =~= close);
    } else {
        lemma_kitty_chunks_framing(data, w, h, true);
        let n = CHUNK_SIZE as int;
        let rest = ",m=".spec_bytes() + spec_decimal(1) + ";".spec_bytes() + data.take(n) + close
            + spec_kitty_chunks(data.skip(n), w, h, false);
        assert(whole =~= hdr + rest);
        assert(whole.take(10) =~= open);
    }
}

/// The first Kitty sequence of a frame at clamped scale `c` transmits an
/// RGBA image (`f=32`) of `24c` by `26c` pixels (`s=` width, `v=` height)
/// and displays it (`a=T`) from direct data (`t=d`).
pub proof fn lemma_kitty_header(frame: PackedFrame, theme: Theme, scale: u8)
    ensures
        ({
            let c = spec_clamp_scale(scale);
            let hdr = "\x1b_Gf=32,s=".spec_bytes() + spec_decimal((CROP_W * c) as nat)
                + ",v=".spec_bytes() + spec_decimal((CROP_H * c) as nat) + ",a=T,t=d".spec_bytes();
            &&& spec_kitty_frame(frame, theme, scale).len() > hdr.len()
            &&& spec_kitty_frame(frame, theme, scale).take(hdr.len() as int) == hdr
        }),
{
    let c = spec_clamp_scale(scale);
    let cw = CROP_W * c;
    let ch = CROP_H * c;
    assert(CROP_W == 24 && CROP_H == 26);
    assert(24 <= cw <= 384 && 26 <= ch <= 416) by (nonlinear_arith)
        requires
            1 <= c <= 16,
            cw == 24 * c,
            ch == 26 * c,
    ;
    let w = cw as u32;
    let h = ch as u32;
    let hdr = spec_kitty_first_header(w, h);
    let data = spec_base64(spec_raster(frame, theme, c));
    let whole = spec_kitty_frame(frame, theme, scale);
    reveal_strlit(";");
    vstd::string::is_ascii_spec_bytes(";");
    reveal_strlit(",m=");
    vstd::string::is_ascii_spec_bytes(",m=");
    if data.len() <= CHUNK_SIZE {
        let rest = ";".spec_bytes() + data + "\x1b\\".spec_bytes();
        assert(whole =~= hdr + rest);
        assert(whole.take(hdr.len() as int) =~= hdr);
    } else {
        let n = CHUNK_SIZE as int;
        let rest = ",m=".spec_bytes() + spec_decimal(1) + ";".spec_bytes() + data.take(n)
            + "\x1b\\".spec_bytes() + spec_kitty_chunks(data.skip(n), w, h, false);
        assert(whole =~= hdr + rest);
        assert(whole.take(hdr.len() as int) =~= hdr);
    }
}

/// Kitty graphics renderer that owns its scratch buffer.
///
/// Wraps [`draw_kitty`] so callers don't need to manage a reusable buffer.
#[derive(Debug)]
pub struct KittyRenderer {
    buf: Vec<u8>,
}

impl View for KittyRenderer {
    type V = Seq<u8>;

    /// What the last draw left in the scratch buffer.
    closed spec fn view(&self) -> Seq<u8> {
        self.buf@
    }
}

impl KittyRenderer {
    /// Create a new renderer with a pre-allocated scratch buffer.
    pub fn new() -> (r: Self)
        ensures
            r@ == Seq::<u8>::empty(),
    {
        Self { buf: Vec::with_capacity(64 * 1024) }
    }

    /// Render a frame, appending the sequence to `out`.
    pub fn draw(&mut self, out: &mut Vec<u8>, frame: &PackedFrame, theme: &Theme, scale: u8)
        ensures
            final(self)@ == spec_kitty_scratch(*frame, *theme, scale),
            final(out)@ == old(out)@ + spec_kitty_frame(*frame, *theme, scale),
    {
        draw_kitty(&mut self.buf, out, frame, theme, scale);
    }
}

impl Default for KittyRenderer {
    fn default() -> (r: Self)
        ensures
            r@ == Seq::<u8>::empty(),
    {
        Self::new()
    }
}

} // verus!
