//! Color parsing: hex color strings and OSC 10 foreground-color replies.
//!
//! Both parsers read hexadecimal fields made of one or more hex digits of
//! either case, and nothing else.

use vstd::prelude::*;
use vstd::string::StringSliceAdditionalSpecFns;
use crate::bytes::bytes_equal;
use crate::png::slice_range;

verus! {

// ---------------------------------------------------------------------------
// Hexadecimal fields
// ---------------------------------------------------------------------------

/// The value of a hexadecimal digit (`0-9`, `a-f`, `A-F`).
pub open spec fn spec_hex_digit(c: u8) -> Option<nat> {
    if 48 <= c <= 57 {
        Some((c - 48) as nat)
    } else if 97 <= c <= 102 {
        Some((c - 87) as nat)
    } else if 65 <= c <= 70 {
        Some((c - 55) as nat)
    } else {
        None
    }
}

/// The big-endian value of a string of hex digits (`Some(0)` for no digits),
/// or `None` if some byte is not a hex digit.
pub open spec fn spec_hex_digits_value(d: Seq<u8>) -> Option<nat>
    decreases d.len(),
{
    if d.len() == 0 {
        Some(0)
    } else {
        match (spec_hex_digits_value(d.drop_last()), spec_hex_digit(d.last())) {
            (Some(v), Some(x)) => Some(v * 16 + x),
            _ => None,
        }
    }
}

/// The value of a hexadecimal field: one or more hex digits and nothing
/// else.
pub open spec fn spec_parse_hex(s: Seq<u8>) -> Option<nat> {
    if s.len() == 0 {
        None
    } else {
        spec_hex_digits_value(s)
    }
}

/// `16^n`, the number of values of `n` hex digits.
pub open spec fn spec_hex_span(n: nat) -> nat
    decreases n,
{
    if n == 0 {
        1
    } else {
        16 * spec_hex_span((n - 1) as nat)
    }
}

/// The number of values of one to four hex digits.
proof fn lemma_hex_span_values()
    ensures
        spec_hex_span(0) == 1,
        spec_hex_span(1) == 16,
        spec_hex_span(2) == 256,
        spec_hex_span(3) == 4096,
        spec_hex_span(4) == 65536,
{
    reveal_with_fuel(spec_hex_span, 5);
}

/// A longer field has more values.
proof fn lemma_hex_span_increases(a: nat, b: nat)
    requires
        a <= b,
    ensures
        1 <= spec_hex_span(a) <= spec_hex_span(b),
    decreases b,
{
    if b > a {
        lemma_hex_span_increases(a, (b - 1) as nat);
    } else if b > 0 {
        lemma_hex_span_increases(0, (b - 1) as nat);
    }
}

/// A string of `n` hex digits has a value below `16^n`.
proof fn lemma_hex_digits_bound(d: Seq<u8>)
    ensures
        spec_hex_digits_value(d) matches Some(v) ==> v < spec_hex_span(d.len()),
    decreases d.len(),
{
    if d.len() > 0 {
        lemma_hex_digits_bound(d.drop_last());
    }
}

/// A field of at most `n` bytes has a value below `16^n`.
proof fn lemma_parse_hex_bound(s: Seq<u8>)
    ensures
        spec_parse_hex(s) matches Some(v) ==> v < spec_hex_span(s.len()),
{
    lemma_hex_digits_bound(s);
}

/// The value of a hexadecimal digit.
fn hex_digit(c: u8) -> (r: Option<u32>)
    ensures
        match r {
            Some(v) => spec_hex_digit(c) == Some(v as nat),
            None => spec_hex_digit(c) is None,
        },
{
    if 48 <= c && c <= 57 {
        Some((c - 48) as u32)
    } else if 97 <= c && c <= 102 {
        Some((c - 87) as u32)
    } else if 65 <= c && c <= 70 {
        Some((c - 55) as u32)
    } else {
        None
    }
}

/// Parse a hexadecimal field of at most four bytes.
fn parse_hex(s: &[u8]) -> (r: Option<u32>)
    requires
        s@.len() <= 4,
    ensures
        match r {
            Some(v) => spec_parse_hex(s@) == Some(v as nat),
            None => spec_parse_hex(s@) is None,
        },
{
    if s.len() == 0 {
        return None;
    }
    let mut value: u32 = 0;
    let mut i: usize = 0;
    assert(s@.subrange(0, 0) =~= Seq::<u8>::empty());
    while i < s.len()
        invariant
            i <= s@.len() <= 4,
            0 < s@.len(),
            value < spec_hex_span(i as nat),
            spec_hex_digits_value(s@.subrange(0, i as int)) == Some(value as nat),
        decreases s@.len() - i,
    {
        let ghost prefix = s@.subrange(0, i as int);
        let ghost next = s@.subrange(0, i + 1);
        assert(next.drop_last() =~= prefix);
        match hex_digit(s[i]) {
            Some(x) => {
                proof {
                    lemma_hex_span_increases(i as nat, 3);
                    lemma_hex_span_values();
                }
                value = value * 16 + x;
            },
            None => {
                proof {
                    lemma_hex_prefix_invalid(s@, i as int);
                }
                return None;
            },
        }
        i = i + 1;
    }
    assert(s@.subrange(0, i as int) =~= s@);
    Some(value)
}

/// A byte that is not a hex digit makes the whole string invalid.
proof fn lemma_hex_prefix_invalid(d: Seq<u8>, k: int)
    requires
        0 <= k < d.len(),
        spec_hex_digit(d[k]) is None,
    ensures
        spec_hex_digits_value(d) is None,
    decreases d.len(),
{
    if k < d.len() - 1 {
        lemma_hex_prefix_invalid(d.drop_last(), k);
    }
}

// ---------------------------------------------------------------------------
// Hex colors
// ---------------------------------------------------------------------------

/// `s` without its leading `#`, if it has one.
pub open spec fn spec_strip_hash(s: Seq<u8>) -> Seq<u8> {
    if s.len() > 0 && s[0] == 35 {
        s.drop_first()
    } else {
        s
    }
}

/// The color a hex color string stands for: after one optional leading
/// `#`, exactly six hex digits, read as three two-digit fields `RRGGBB`.
pub open spec fn spec_parse_hex_color(s: Seq<u8>) -> Option<(u8, u8, u8)> {
    let t = spec_strip_hash(s);
    if t.len() != 6 {
        None
    } else {
        match (
            spec_parse_hex(t.subrange(0, 2)),
            spec_parse_hex(t.subrange(2, 4)),
            spec_parse_hex(t.subrange(4, 6)),
        ) {
            (Some(r), Some(g), Some(b)) => Some((r as u8, g as u8, b as u8)),
            _ => None,
        }
    }
}

/// The lower-case hexadecimal digit of a value below 16.
pub open spec fn spec_hex_char(v: int) -> u8 {
    if v < 10 {
        (48 + v) as u8
    } else {
        (87 + v) as u8
    }
}

/// The two lower-case hexadecimal digits of a byte.
pub open spec fn spec_hex_byte(v: u8) -> Seq<u8> {
    seq![spec_hex_char(v as int / 16), spec_hex_char(v as int % 16)]
}

/// Two hex digits are read back as the byte they spell.
proof fn lemma_hex_byte_read_back(v: u8)
    ensures
        spec_parse_hex(spec_hex_byte(v)) == Some(v as nat),
        spec_hex_byte(v)[0] < 128 && spec_hex_byte(v)[1] < 128,
{
    let d = spec_hex_byte(v);
    let hi = v as int / 16;
    let lo = v as int % 16;
    assert(0 <= hi < 16 && 0 <= lo < 16);
    assert(spec_hex_digit(spec_hex_char(hi)) == Some(hi as nat));
    assert(spec_hex_digit(spec_hex_char(lo)) == Some(lo as nat));
    assert(d.drop_last() =~= seq![d[0]]);
    let one = seq![d[0]];
    assert(one.drop_last() =~= Seq::<u8>::empty());
    assert(one.last() == spec_hex_char(hi));
    assert(spec_hex_digits_value(one.drop_last()) == Some(0nat));
    assert(spec_hex_digits_value(one) == Some(hi as nat));
    assert(d.last() == spec_hex_char(lo));
    assert(spec_hex_digits_value(d) == Some(((v as int / 16) * 16 + v as int % 16) as nat));
}

/// One leading `#` does not change the color a string stands for, and a
/// second one makes the string no color.
pub proof fn lemma_hex_color_hash_prefix(s: Seq<u8>)
    requires
        s.len() == 0 || s[0] != 35u8,
    ensures
        spec_parse_hex_color(seq![35u8] + s) == spec_parse_hex_color(s),
        spec_parse_hex_color(seq![35u8, 35u8] + s) is None,
{
    assert((seq![35u8, 35u8] + s).drop_first() =~= seq![35u8] + s);
    if (seq![35u8] + s).len() == 6 {
        assert(spec_parse_hex((seq![35u8] + s).subrange(0, 2)) is None) by {
            assert(spec_hex_digit(35u8) is None);
            lemma_hex_prefix_invalid((seq![35u8] + s).subrange(0, 2), 0);
        }
    }
    assert((seq![35u8] + s).drop_first() =~= s);
}

/// The six hex digits `RRGGBB` of a color, with or without a leading `#`,
/// stand for that color.
pub proof fn lemma_hex_color_round_trip(r: u8, g: u8, b: u8)
    ensures
        spec_parse_hex_color(spec_hex_byte(r) + spec_hex_byte(g) + spec_hex_byte(b)) == Some(
            (r, g, b),
        ),
        spec_parse_hex_color(seq![35u8] + spec_hex_byte(r) + spec_hex_byte(g) + spec_hex_byte(b))
            == Some((r, g, b)),
{
    let t = spec_hex_byte(r) + spec_hex_byte(g) + spec_hex_byte(b);
    lemma_hex_byte_read_back(r);
    lemma_hex_byte_read_back(g);
    lemma_hex_byte_read_back(b);
    assert(t[0] != 35u8);
    assert(spec_strip_hash(t) == t);
    assert(t.subrange(0, 2) =~= spec_hex_byte(r));
    assert(t.subrange(2, 4) =~= spec_hex_byte(g));
    assert(t.subrange(4, 6) =~= spec_hex_byte(b));
    lemma_hex_color_hash_prefix(t);
    assert(seq![35u8] + spec_hex_byte(r) + spec_hex_byte(g) + spec_hex_byte(b) =~= seq![35u8] + t);
}

/// Parse a hex color string like `"ff6600"` or `"#ff6600"` into `(r, g, b)`.
pub fn parse_hex_color(s: &str) -> (c: Option<(u8, u8, u8)>)
    ensures
        c == spec_parse_hex_color(s.spec_bytes()),
{
    let bytes = s.as_bytes();
    let start: usize = if bytes.len() > 0 && bytes[0] == 35 {
        1
    } else {
        0
    };
    let t = slice_range(bytes, start, bytes.len());
    assert(t@ =~= spec_strip_hash(bytes@));
    if t.len() != 6 {
        return None;
    }
    let r = parse_hex(slice_range(t, 0, 2));
    let g = parse_hex(slice_range(t, 2, 4));
    let b = parse_hex(slice_range(t, 4, 6));
    proof {
        lemma_parse_hex_bound(t@.subrange(0, 2));
        lemma_parse_hex_bound(t@.subrange(2, 4));
        lemma_parse_hex_bound(t@.subrange(4, 6));
        lemma_hex_span_values();
    }
    match (r, g, b) {
        (Some(r), Some(g), Some(b)) => Some((r as u8, g as u8, b as u8)),
        _ => None,
    }
}

// ---------------------------------------------------------------------------
// OSC 10 replies
// ---------------------------------------------------------------------------

/// The first position at or after `i` where `pat` occurs in `s`.
pub open spec fn spec_find_from(s: Seq<u8>, pat: Seq<u8>, i: int) -> Option<int>
    decreases s.len() - i,
{
    if i < 0 || i + pat.len() > s.len() {
        None
    } else if s.subrange(i, i + pat.len()) == pat {
        Some(i)
    } else if i >= s.len() {
        None
    } else {
        spec_find_from(s, pat, i + 1)
    }
}

/// The position of the first byte of `s` equal to `c`.
pub open spec fn spec_byte_pos(s: Seq<u8>, c: u8) -> Option<int>
    decreases s.len(),
{
    if s.len() == 0 {
        None
    } else if s[0] == c {
        Some(0)
    } else {
        match spec_byte_pos(s.drop_first(), c) {
            Some(k) => Some(k + 1),
            None => None,
        }
    }
}

/// The text before the first occurrence of `c` (all of `s` if there is none).
pub open spec fn spec_before(s: Seq<u8>, c: u8) -> Seq<u8> {
    match spec_byte_pos(s, c) {
        Some(k) => s.take(k),
        None => s,
    }
}

/// The text before the first ESC or BEL byte.
pub open spec fn spec_before_terminator(s: Seq<u8>) -> Seq<u8> {
    let e = spec_byte_pos(s, 0x1b);
    let b = spec_byte_pos(s, 0x07);
    match (e, b) {
        (Some(i), Some(j)) => s.take(if i < j {
            i
        } else {
            j
        }),
        (Some(i), None) => s.take(i),
        (None, Some(j)) => s.take(j),
        (None, None) => s,
    }
}

/// One color channel of an X11 `rgb:` spec, scaled to 8 bits: 1, 2, 3 or 4
/// hexadecimal bytes `h`, `hh`, `hhh` or `hhhh`.
pub open spec fn spec_osc_channel(h: Seq<u8>) -> Option<u8> {
    match spec_parse_hex(h) {
        None => None,
        Some(v) => if h.len() == 1 {
            Some((v * 17) as u8)
        } else if h.len() == 2 {
            Some(v as u8)
        } else if h.len() == 3 {
            Some((v / 16) as u8)
        } else if h.len() == 4 {
            Some((v / 256) as u8)
        } else {
            None
        },
    }
}

/// The color of an OSC 10 reply such as `ESC ]10;rgb:RRRR/GGGG/BBBB ESC \`:
/// the text after the first `rgb:` up to the first ESC or BEL is split at
/// `/`, and its first three fields are the channels.
pub open spec fn spec_parse_osc_color(s: Seq<u8>) -> Option<(u8, u8, u8)> {
    match spec_find_from(s, "rgb:".spec_bytes(), 0) {
        None => None,
        Some(start) => {
            let part = spec_before_terminator(s.skip(start + "rgb:".spec_bytes().len()));
            match spec_byte_pos(part, 47) {
                None => None,
                Some(i1) => {
                    let after1 = part.skip(i1 + 1);
                    match spec_byte_pos(after1, 47) {
                        None => None,
                        Some(i2) => {
                            let after2 = after1.skip(i2 + 1);
                            match (
                                spec_osc_channel(part.take(i1)),
                                spec_osc_channel(after1.take(i2)),
                                spec_osc_channel(spec_before(after2, 47)),
                            ) {
                                (Some(r), Some(g), Some(b)) => Some((r, g, b)),
                                _ => None,
                            }
                        },
                    }
                },
            }
        },
    }
}

/// The first position of `pat` in `s`.
fn find_pattern(s: &[u8], pat: &[u8]) -> (r: Option<usize>)
    ensures
        match r {
            Some(i) => spec_find_from(s@, pat@, 0) == Some(i as int),
            None => spec_find_from(s@, pat@, 0) is None,
        },
{
    let n = s.len();
    let m = pat.len();
    if m > n {
        return None;
    }
    let mut i: usize = 0;
    while i <= n - m
        invariant
            n == s@.len(),
            m == pat@.len(),
            m <= n,
            i <= n - m + 1,
            spec_find_from(s@, pat@, 0) == spec_find_from(s@, pat@, i as int),
        decreases n - i,
    {
        if bytes_equal(slice_range(s, i, i + m), pat) {
            return Some(i);
        }
        assert(i < n) by {
            if i >= n {
                assert(s@.subrange(i as int, (i + m) as int) =~= pat@);
            }
        }
        i = i + 1;
    }
    None
}

/// The position of the first byte of `s` equal to `c`.
fn byte_pos(s: &[u8], c: u8) -> (r: Option<usize>)
    ensures
        match r {
            Some(i) => spec_byte_pos(s@, c) == Some(i as int) && i < s@.len(),
            None => spec_byte_pos(s@, c) is None,
        },
{
    let mut i: usize = 0;
    while i < s.len()
        invariant
            i <= s@.len(),
            forall|k: int| 0 <= k < i ==> #[trigger] s@[k] != c,
        decreases s@.len() - i,
    {
        if s[i] == c {
            proof {
                lemma_byte_pos_first(s@, c, i as int);
            }
            return Some(i);
        }
        i = i + 1;
    }
    proof {
        lemma_byte_pos_none(s@, c);
    }
    None
}

/// A byte `c` at position `i` with no `c` before it is the first `c`.
proof fn lemma_byte_pos_first(s: Seq<u8>, c: u8, i: int)
    requires
        0 <= i < s.len(),
        s[i] == c,
        forall|k: int| 0 <= k < i ==> #[trigger] s[k] != c,
    ensures
        spec_byte_pos(s, c) == Some(i),
    decreases i,
{
    if i > 0 {
        let rest = s.drop_first();
        assert forall|k: int| 0 <= k < i - 1 implies #[trigger] rest[k] != c by {
            assert(rest[k] == s[k + 1]);
        }
        lemma_byte_pos_first(rest, c, i - 1);
    }
}

/// A string without `c` has no first `c`.
proof fn lemma_byte_pos_none(s: Seq<u8>, c: u8)
    requires
        forall|k: int| 0 <= k < s.len() ==> #[trigger] s[k] != c,
    ensures
        spec_byte_pos(s, c) is None,
    decreases s.len(),
{
    if s.len() > 0 {
        let rest = s.drop_first();
        assert forall|k: int| 0 <= k < rest.len() implies #[trigger] rest[k] != c by {
            assert(rest[k] == s[k + 1]);
        }
        lemma_byte_pos_none(rest, c);
    }
}

/// The text before the first occurrence of `c`.
fn before(s: &[u8], c: u8) -> (r: &[u8])
    ensures
        r@ == spec_before(s@, c),
{
    match byte_pos(s, c) {
        Some(k) => slice_range(s, 0, k),
        None => s,
    }
}

/// Scale an N-digit hex channel value to 8-bit.
fn parse_channel(h: &[u8]) -> (r: Option<u8>)
    ensures
        r == spec_osc_channel(h@),
{
    if h.len() > 4 {
        return None;
    }
    let val = match parse_hex(h) {
        Some(v) => v,
        None => return None,
    };
    proof {
        lemma_parse_hex_bound(h@);
        lemma_hex_span_values();
    }
    if h.len() == 1 {
        let small = val as u8;
        assert(small < 16);
        Some(small * 17)
    } else if h.len() == 2 {
        Some(val as u8)
    } else if h.len() == 3 {
        let shifted = val >> 4;
        assert(shifted == val / 16) by (bit_vector)
            requires
                shifted == val >> 4,
        ;
        Some(shifted as u8)
    } else if h.len() == 4 {
        let shifted = val >> 8;
        assert(shifted == val / 256) by (bit_vector)
            requires
                shifted == val >> 8,
        ;
        Some(shifted as u8)
    } else {
        None
    }
}

/// A found pattern lies within the text, at or after the start of the search.
proof fn lemma_find_from_found(s: Seq<u8>, pat: Seq<u8>, j: int)
    ensures
        spec_find_from(s, pat, j) matches Some(i) ==> j <= i && i + pat.len() <= s.len() && 0 <= i,
    decreases s.len() - j,
{
    if j >= 0 && j + pat.len() <= s.len() && s.subrange(j, j + pat.len()) != pat && j < s.len() {
        lemma_find_from_found(s, pat, j + 1);
    }
}

/// Parse an OSC 10 response like `"\x1b]10;rgb:RRRR/GGGG/BBBB\x1b\\"` into `(r, g, b)`.
///
/// Handles 1, 2, 3, and 4 hex-digit channel values for maximum terminal
/// compatibility. The X11 color spec allows any of these widths.
pub fn parse_osc_color(s: &str) -> (c: Option<(u8, u8, u8)>)
    ensures
        c == spec_parse_osc_color(s.spec_bytes()),
{
    let bytes = s.as_bytes();
    let n = bytes.len();
    let pat = "rgb:".as_bytes();
    let rgb_start = match find_pattern(bytes, pat) {
        Some(i) => i,
        None => return None,
    };
    proof {
        lemma_find_from_found(bytes@, pat@, 0);
        assert(rgb_start + pat@.len() <= bytes@.len());
    }
    let rgb_part = slice_range(bytes, rgb_start + pat.len(), bytes.len());
    assert(rgb_part@ =~= bytes@.skip(rgb_start + "rgb:".spec_bytes().len()));
    let esc = byte_pos(rgb_part, 0x1b);
    let bel = byte_pos(rgb_part, 0x07);
    let end = match (esc, bel) {
        (Some(i), Some(j)) => if i < j {
            i
        } else {
            j
        },
        (Some(i), None) => i,
        (None, Some(j)) => j,
        (None, None) => rgb_part.len(),
    };
    let part = slice_range(rgb_part, 0, end);
    assert(part@ =~= spec_before_terminator(rgb_part@));
    let i1 = match byte_pos(part, 47) {
        Some(i) => i,
        None => return None,
    };
    let r_hex = slice_range(part, 0, i1);
    let after1 = slice_range(part, i1 + 1, part.len());
    assert(after1@ =~= part@.skip(i1 + 1));
    let i2 = match byte_pos(after1, 47) {
        Some(i) => i,
        None => return None,
    };
    let g_hex = slice_range(after1, 0, i2);
    let after2 = slice_range(after1, i2 + 1, after1.len());
    assert(after2@ =~= after1@.skip(i2 + 1));
    let b_hex = before(after2, 47);
    assert(r_hex@ =~= part@.take(i1 as int));
    assert(g_hex@ =~= after1@.take(i2 as int));
    let r = parse_channel(r_hex);
    let g = parse_channel(g_hex);
    let b = parse_channel(b_hex);
    match (r, g, b) {
        (Some(r), Some(g), Some(b)) => Some((r, g, b)),
        _ => None,
    }
}

/// Whether an OSC reply read so far is complete: it holds a BEL or the
/// string terminator `ESC \\`.
pub fn osc_reply_complete(reply: &[u8]) -> (b: bool)
    ensures
        b <==> (exists|i: int| 0 <= i < reply@.len() && #[trigger] reply@[i] == 0x07u8) || (exists|
            i: int,
        |
            0 <= i && i + 1 < reply@.len() && #[trigger] reply@[i] == 0x1bu8 && reply@[i + 1]
                == 0x5cu8),
{
    let n = reply.len();
    let mut i: usize = 0;
    while i < n
        invariant
            n == reply@.len(),
            i <= n,
            forall|j: int| 0 <= j < i ==> #[trigger] reply@[j] != 0x07u8,
            forall|j: int| 0 <= j && j + 1 < n && j < i ==> !(#[trigger] reply@[j] == 0x1bu8 && reply@[j + 1] == 0x5cu8),
        decreases n - i,
    {
        if reply[i] == 0x07 {
            assert(reply@[i as int] == 0x07u8);
            return true;
        }
        if i + 1 < n && reply[i] == 0x1b && reply[i + 1] == 0x5c {
            assert(reply@[i as int] == 0x1bu8);
            return true;
        }
        i = i + 1;
    }
    false
}

/// The first `c` in `a + b`, when `a` holds none, is the first `c` in `b`.
proof fn lemma_byte_pos_concat(a: Seq<u8>, b: Seq<u8>, c: u8)
    requires
        forall|k: int| 0 <= k < a.len() ==> #[trigger] a[k] != c,
    ensures
        spec_byte_pos(a + b, c) == (match spec_byte_pos(b, c) {
            Some(k) => Some(k + a.len()),
            None => None,
        }),
    decreases a.len(),
{
    if a.len() == 0 {
        assert(a + b =~= b);
    } else {
        assert((a + b).drop_first() =~= a.drop_first() + b);
        assert(a[0] != c);
        lemma_byte_pos_concat(a.drop_first(), b, c);
    }
}

/// A first `c` that is found is a `c` within the string.
proof fn lemma_byte_pos_found(s: Seq<u8>, c: u8)
    ensures
        spec_byte_pos(s, c) matches Some(k) ==> 0 <= k < s.len() && s[k] == c,
    decreases s.len(),
{
    if s.len() > 0 && s[0] != c {
        lemma_byte_pos_found(s.drop_first(), c);
    }
}

/// Whether a channel field holds only hexadecimal digits.
pub open spec fn spec_hex_field(d: Seq<u8>) -> bool {
    forall|k: int| 0 <= k < d.len() ==> (#[trigger] spec_hex_digit(d[k])) is Some
}

/// The `rgb:` after the reply prefix `ESC ]10;` is found right there.
proof fn lemma_osc_find_tag(x: Seq<u8>)
    ensures
        spec_find_from("\x1b]10;".spec_bytes() + "rgb:".spec_bytes() + x, "rgb:".spec_bytes(), 0)
            == Some(5int),
{
    reveal_strlit("\x1b]10;");
    vstd::string::is_ascii_spec_bytes("\x1b]10;");
    reveal_strlit("rgb:");
    vstd::string::is_ascii_spec_bytes("rgb:");
    let pre = "\x1b]10;".spec_bytes();
    let tag = "rgb:".spec_bytes();
    let s = pre + tag + x;
    assert(pre =~= seq![0x1bu8, 0x5du8, 0x31u8, 0x30u8, 0x3bu8]);
    assert(tag =~= seq![0x72u8, 0x67u8, 0x62u8, 0x3au8]);
    assert(s.subrange(5, 9) =~= tag);
    assert(spec_find_from(s, tag, 5) == Some(5int));
    assert(s.subrange(4, 8)[0] != tag[0]);
    assert(spec_find_from(s, tag, 4) == Some(5int));
    assert(s.subrange(3, 7)[0] != tag[0]);
    assert(spec_find_from(s, tag, 3) == Some(5int));
    assert(s.subrange(2, 6)[0] != tag[0]);
    assert(spec_find_from(s, tag, 2) == Some(5int));
    assert(s.subrange(1, 5)[0] != tag[0]);
    assert(spec_find_from(s, tag, 1) == Some(5int));
    assert(s.subrange(0, 4)[0] != tag[0]);
}

/// Text without ESC or BEL, followed by a terminator that starts with one
/// of them, is the text before the terminator.
proof fn lemma_osc_before_terminator(fields: Seq<u8>, term: Seq<u8>)
    requires
        forall|k: int| 0 <= k < fields.len() ==> #[trigger] fields[k] != 0x1bu8 && fields[k]
            != 0x07u8,
        term.len() >= 1,
        term[0] == 0x07u8 || term[0] == 0x1bu8,
    ensures
        spec_before_terminator(fields + term) == fields,
{
    let rest = fields + term;
    lemma_byte_pos_concat(fields, term, 0x1bu8);
    lemma_byte_pos_concat(fields, term, 0x07u8);
    lemma_byte_pos_found(term, 0x1bu8);
    lemma_byte_pos_found(term, 0x07u8);
    if term[0] == 0x07u8 {
        lemma_byte_pos_first(term, 0x07u8, 0);
    } else {
        lemma_byte_pos_first(term, 0x1bu8, 0);
    }
    assert(rest.take(fields.len() as int) =~= fields);
}

/// The fields `<r>/<g>/<b>` split at their two `/`s.
proof fn lemma_osc_fields(cr: Seq<u8>, cg: Seq<u8>, cb: Seq<u8>)
    requires
        forall|k: int| 0 <= k < cr.len() ==> #[trigger] cr[k] != 47u8,
        forall|k: int| 0 <= k < cg.len() ==> #[trigger] cg[k] != 47u8,
        forall|k: int| 0 <= k < cb.len() ==> #[trigger] cb[k] != 47u8,
    ensures
        ({
            let part = cr + seq![47u8] + cg + seq![47u8] + cb;
            let after1 = part.skip(cr.len() as int + 1);
            &&& spec_byte_pos(part, 47u8) == Some(cr.len() as int)
            &&& part.take(cr.len() as int) == cr
            &&& spec_byte_pos(after1, 47u8) == Some(cg.len() as int)
            &&& after1.take(cg.len() as int) == cg
            &&& spec_before(after1.skip(cg.len() as int + 1), 47u8) == cb
        }),
{
    let part = cr + seq![47u8] + cg + seq![47u8] + cb;
    let tail1 = seq![47u8] + cg + seq![47u8] + cb;
    assert(part =~= cr + tail1);
    lemma_byte_pos_concat(cr, tail1, 47u8);
    lemma_byte_pos_first(tail1, 47u8, 0);
    let after1 = part.skip(cr.len() as int + 1);
    assert(after1 =~= cg + (seq![47u8] + cb));
    lemma_byte_pos_concat(cg, seq![47u8] + cb, 47u8);
    lemma_byte_pos_first(seq![47u8] + cb, 47u8, 0);
    let after2 = after1.skip(cg.len() as int + 1);
    assert(after2 =~= cb);
    lemma_byte_pos_none(cb, 47u8);
    assert(part.take(cr.len() as int) =~= cr);
    assert(after1.take(cg.len() as int) =~= cg);
}

/// A reply `ESC ]10;rgb:<r>/<g>/<b>` ended by BEL or by `ESC \`, with
/// channel fields of hex digits, is read as the color of its three fields.
pub proof fn lemma_osc_reply(cr: Seq<u8>, cg: Seq<u8>, cb: Seq<u8>, term: Seq<u8>)
    requires
        spec_hex_field(cr),
        spec_hex_field(cg),
        spec_hex_field(cb),
        spec_osc_channel(cr) is Some,
        spec_osc_channel(cg) is Some,
        spec_osc_channel(cb) is Some,
        term.len() >= 1,
        term[0] == 0x07u8 || term[0] == 0x1bu8,
    ensures
        spec_parse_osc_color(
            "\x1b]10;".spec_bytes() + "rgb:".spec_bytes() + cr + seq![47u8] + cg + seq![47u8] + cb
                + term,
        ) == Some((spec_osc_channel(cr)->0, spec_osc_channel(cg)->0, spec_osc_channel(cb)->0)),
{
    let fields = cr + seq![47u8] + cg + seq![47u8] + cb;
    let x = fields + term;
    let s = "\x1b]10;".spec_bytes() + "rgb:".spec_bytes() + x;
    assert(s =~= "\x1b]10;".spec_bytes() + "rgb:".spec_bytes() + cr + seq![47u8] + cg + seq![47u8]
        + cb + term);
    lemma_osc_find_tag(x);
    assert("rgb:".spec_bytes().len() == 4) by {
        reveal_strlit("rgb:");
        vstd::string::is_ascii_spec_bytes("rgb:");
    }
    assert("\x1b]10;".spec_bytes().len() == 5) by {
        reveal_strlit("\x1b]10;");
        vstd::string::is_ascii_spec_bytes("\x1b]10;");
    }
    assert(s.skip(9) =~= x);
    assert forall|k: int| 0 <= k < cr.len() implies #[trigger] cr[k] != 47u8 && cr[k] != 0x1bu8
        && cr[k] != 0x07u8 by {
        assert(spec_hex_digit(cr[k]) is Some);
    }
    assert forall|k: int| 0 <= k < cg.len() implies #[trigger] cg[k] != 47u8 && cg[k] != 0x1bu8
        && cg[k] != 0x07u8 by {
        assert(spec_hex_digit(cg[k]) is Some);
    }
    assert forall|k: int| 0 <= k < cb.len() implies #[trigger] cb[k] != 47u8 && cb[k] != 0x1bu8
        && cb[k] != 0x07u8 by {
        assert(spec_hex_digit(cb[k]) is Some);
    }
    assert forall|k: int| 0 <= k < fields.len() implies #[trigger] fields[k] != 0x1bu8 && fields[k]
        != 0x07u8 by {
        if k < cr.len() {
            assert(fields[k] == cr[k]);
        } else if k == cr.len() {
        } else if k < cr.len() + 1 + cg.len() {
            assert(fields[k] == cg[k - cr.len() - 1]);
        } else if k == cr.len() + 1 + cg.len() {
        } else {
            assert(fields[k] == cb[k - cr.len() - cg.len() - 2]);
        }
    }
    lemma_osc_before_terminator(fields, term);
    lemma_osc_fields(cr, cg, cb);
}

/// Each digit of a hex digit string counts sixteen times the ones after it.
proof fn lemma_hex_digits_push(d: Seq<u8>, c: u8)
    ensures
        spec_hex_digits_value(d.push(c)) == (match (spec_hex_digits_value(d), spec_hex_digit(c)) {
            (Some(v), Some(x)) => Some(v * 16 + x),
            _ => None,
        }),
{
    assert(d.push(c).drop_last() =~= d);
}

/// The channel widths of an X11 `rgb:` spec scale to 8 bits as the X11
/// convention has it: `hh` is the byte, `hhhh` and `hhh` keep the high
/// byte, and a single `h` is repeated (`h * 17`).
pub proof fn lemma_osc_channel_widths(v: u8, x: u8)
    ensures
        spec_hex_field(spec_hex_byte(v)),
        spec_osc_channel(spec_hex_byte(v)) == Some(v),
        spec_hex_field(spec_hex_byte(v) + spec_hex_byte(x)),
        spec_osc_channel(spec_hex_byte(v) + spec_hex_byte(x)) == Some(v),
        spec_hex_field(spec_hex_byte(v).push(spec_hex_char(x as int % 16))),
        spec_osc_channel(spec_hex_byte(v).push(spec_hex_char(x as int % 16))) == Some(v),
        v < 16 ==> spec_hex_field(seq![spec_hex_char(v as int)]),
        v < 16 ==> spec_osc_channel(seq![spec_hex_char(v as int)]) == Some((v * 17) as u8),
{
    let hv = v as int / 16;
    let lv = v as int % 16;
    let hx = x as int / 16;
    let lx = x as int % 16;
    assert(spec_hex_digit(spec_hex_char(hv)) == Some(hv as nat));
    assert(spec_hex_digit(spec_hex_char(lv)) == Some(lv as nat));
    assert(spec_hex_digit(spec_hex_char(hx)) == Some(hx as nat));
    assert(spec_hex_digit(spec_hex_char(lx)) == Some(lx as nat));
    assert(spec_hex_digit(spec_hex_char(v as int)) == Some(v as nat) || v >= 16);
    let e = Seq::<u8>::empty();
    let d1 = e.push(spec_hex_char(hv));
    let d2 = d1.push(spec_hex_char(lv));
    let d3 = d2.push(spec_hex_char(hx));
    let d4 = d3.push(spec_hex_char(lx));
    let d3b = d2.push(spec_hex_char(lx));
    lemma_hex_digits_push(e, spec_hex_char(hv));
    lemma_hex_digits_push(d1, spec_hex_char(lv));
    lemma_hex_digits_push(d2, spec_hex_char(hx));
    lemma_hex_digits_push(d3, spec_hex_char(lx));
    lemma_hex_digits_push(d2, spec_hex_char(lx));
    assert(spec_hex_digits_value(d2) == Some(v as nat));
    assert(spec_hex_digits_value(d4) == Some((v as nat * 16 + hx as nat) * 16 + lx as nat));
    assert(spec_hex_digits_value(d3b) == Some(v as nat * 16 + lx as nat));
    assert(d2 =~= spec_hex_byte(v));
    assert(d4 =~= spec_hex_byte(v) + spec_hex_byte(x));
    assert(d3b =~= spec_hex_byte(v).push(spec_hex_char(x as int % 16)));
    assert(((v as nat * 16 + hx as nat) * 16 + lx as nat) / 256 == v as nat);
    assert((v as nat * 16 + lx as nat) / 16 == v as nat);
    if v < 16 {
        let d = seq![spec_hex_char(v as int)];
        assert(d =~= e.push(spec_hex_char(v as int)));
        lemma_hex_digits_push(e, spec_hex_char(v as int));
    }
}

/// A foreground-color reply with 8-bit or 16-bit channels, ended by BEL or
/// by `ESC \`, is read as its color.
pub proof fn lemma_osc_reply_round_trip(r: u8, g: u8, b: u8, lo: u8)
    ensures
        spec_parse_osc_color(
            "\x1b]10;".spec_bytes() + "rgb:".spec_bytes() + spec_hex_byte(r) + seq![47u8]
                + spec_hex_byte(g) + seq![47u8] + spec_hex_byte(b) + seq![0x07u8],
        ) == Some((r, g, b)),
        spec_parse_osc_color(
            "\x1b]10;".spec_bytes() + "rgb:".spec_bytes() + (spec_hex_byte(r) + spec_hex_byte(lo))
                + seq![47u8] + (spec_hex_byte(g) + spec_hex_byte(lo)) + seq![47u8] + (spec_hex_byte(
                b,
            ) + spec_hex_byte(lo)) + seq![0x1bu8, 0x5cu8],
        ) == Some((r, g, b)),
{
    lemma_osc_channel_widths(r, lo);
    lemma_osc_channel_widths(g, lo);
    lemma_osc_channel_widths(b, lo);
    lemma_osc_reply(spec_hex_byte(r), spec_hex_byte(g), spec_hex_byte(b), seq![0x07u8]);
    lemma_osc_reply(
        spec_hex_byte(r) + spec_hex_byte(lo),
        spec_hex_byte(g) + spec_hex_byte(lo),
        spec_hex_byte(b) + spec_hex_byte(lo),
        seq![0x1bu8, 0x5cu8],
    );
}

} // verus!
