//! Byte-string helpers shared by the encoders: comparison, decimal and
//! big/little-endian number formatting.

use vstd::prelude::*;

verus! {

/// The ASCII decimal representation of `n`, most significant digit first,
/// with no leading zeros (`0` is `"0"`).
pub open spec fn spec_decimal(n: nat) -> Seq<u8>
    decreases n,
{
    if n < 10 {
        seq![(48 + n) as u8]
    } else {
        spec_decimal(n / 10).push((48 + n % 10) as u8)
    }
}

/// Whether a byte is an ASCII decimal digit.
pub open spec fn spec_is_digit(c: u8) -> bool {
    48 <= c <= 57
}

/// The number of ASCII digits that `t` starts with.
pub open spec fn spec_digit_run(t: Seq<u8>) -> nat
    decreases t.len(),
{
    if t.len() == 0 || !spec_is_digit(t[0]) {
        0
    } else {
        1 + spec_digit_run(t.skip(1))
    }
}

/// The number that a string of ASCII digits spells, most significant
/// digit first.
pub open spec fn spec_digits_value(d: Seq<u8>) -> nat
    decreases d.len(),
{
    if d.len() == 0 {
        0
    } else {
        spec_digits_value(d.drop_last()) * 10 + (d.last() - 48) as nat
    }
}

/// The decimal representation of `n` is a non-empty string of digits that
/// spells `n`.
pub proof fn lemma_decimal_read_back(n: nat)
    ensures
        spec_decimal(n).len() >= 1,
        forall|i: int| 0 <= i < spec_decimal(n).len() ==> spec_is_digit(#[trigger] spec_decimal(n)[i]),
        spec_digits_value(spec_decimal(n)) == n,
    decreases n,
{
    if n >= 10 {
        lemma_decimal_read_back(n / 10);
        let d = spec_decimal(n);
        assert(d.drop_last() =~= spec_decimal(n / 10));
        assert(d.last() == (48 + n % 10) as u8);
        assert(spec_digits_value(d) == (n / 10) * 10 + n % 10);
    } else {
        let d = spec_decimal(n);
        assert(d.drop_last() =~= Seq::<u8>::empty());
        assert(spec_digits_value(d) == spec_digits_value(d.drop_last()) * 10 + (d.last() - 48) as nat);
    }
}

/// A string of digits followed by a non-digit starts with exactly that
/// many digits.
pub proof fn lemma_digit_run_of(d: Seq<u8>, rest: Seq<u8>)
    requires
        forall|i: int| 0 <= i < d.len() ==> spec_is_digit(#[trigger] d[i]),
        rest.len() > 0,
        !spec_is_digit(rest[0]),
    ensures
        spec_digit_run(d + rest) == d.len(),
    decreases d.len(),
{
    if d.len() > 0 {
        assert((d + rest).skip(1) =~= d.skip(1) + rest);
        assert(spec_is_digit(d[0]));
        lemma_digit_run_of(d.skip(1), rest);
    } else {
        assert(d + rest =~= rest);
    }
}

/// Whether no byte of `t` is `c`.
pub open spec fn spec_lacks(t: Seq<u8>, c: u8) -> bool {
    forall|i: int| 0 <= i < t.len() ==> #[trigger] t[i] != c
}

/// The number of bytes of `t` equal to `c`.
pub open spec fn spec_count(t: Seq<u8>, c: u8) -> nat
    decreases t.len(),
{
    if t.len() == 0 {
        0
    } else {
        spec_count(t.drop_last(), c) + (if t.last() == c {
            1nat
        } else {
            0nat
        })
    }
}

/// Counting is additive over concatenation.
pub proof fn lemma_count_concat(a: Seq<u8>, b: Seq<u8>, c: u8)
    ensures
        spec_count(a + b, c) == spec_count(a, c) + spec_count(b, c),
    decreases b.len(),
{
    if b.len() == 0 {
        assert(a + b =~= a);
    } else {
        assert((a + b).drop_last() =~= a + b.drop_last());
        lemma_count_concat(a, b.drop_last(), c);
    }
}

/// A string without `c` counts no `c`.
pub proof fn lemma_count_lacks(t: Seq<u8>, c: u8)
    requires
        spec_lacks(t, c),
    ensures
        spec_count(t, c) == 0,
    decreases t.len(),
{
    if t.len() > 0 {
        lemma_count_lacks(t.drop_last(), c);
    }
}

/// Two strings without `c` make one without `c`.
pub proof fn lemma_lacks_concat(a: Seq<u8>, b: Seq<u8>, c: u8)
    requires
        spec_lacks(a, c),
        spec_lacks(b, c),
    ensures
        spec_lacks(a + b, c),
{
    assert forall|i: int| 0 <= i < (a + b).len() implies #[trigger] (a + b)[i] != c by {
        if i < a.len() {
            assert((a + b)[i] == a[i]);
        } else {
            assert((a + b)[i] == b[i - a.len()]);
        }
    }
}

/// A decimal number holds no byte other than digits.
pub proof fn lemma_decimal_lacks(n: nat, c: u8)
    requires
        !spec_is_digit(c),
    ensures
        spec_lacks(spec_decimal(n), c),
{
    lemma_decimal_read_back(n);
    assert forall|i: int| 0 <= i < spec_decimal(n).len() implies #[trigger] spec_decimal(n)[i]
        != c by {
        assert(spec_is_digit(spec_decimal(n)[i]));
    }
}

/// Whether two byte slices hold the same bytes.
pub fn bytes_equal(a: &[u8], b: &[u8]) -> (r: bool)
    ensures
        r == (a@ == b@),
{
    if a.len() != b.len() {
        return false;
    }
    let mut i: usize = 0;
    while i < a.len()
        invariant
            a@.len() == b@.len(),
            i <= a@.len(),
            forall|j: int| 0 <= j < i ==> a@[j] == b@[j],
        decreases a@.len() - i,
    {
        if a[i] != b[i] {
            return false;
        }
        i = i + 1;
    }
    assert(a@ =~= b@);
    true
}

/// Append the ASCII decimal representation of `n` to `out`.
pub fn push_decimal(out: &mut Vec<u8>, n: usize)
    ensures
        final(out)@ == old(out)@ + spec_decimal(n as nat),
    decreases n,
{
    if n >= 10 {
        push_decimal(out, n / 10);
    }
    out.push(48 + (n % 10) as u8);
    assert(final(out)@ =~= old(out)@ + spec_decimal(n as nat));
}

/// Append all of `data` to `out`.
pub fn push_all(out: &mut Vec<u8>, data: &[u8])
    ensures
        final(out)@ == old(out)@ + data@,
{
    out.extend_from_slice(data);
    assert(final(out)@ =~= old(out)@ + data@);
}

/// The four bytes of `v`, most significant first.
pub open spec fn spec_be32(v: u32) -> Seq<u8> {
    seq![
        (v / 0x100_0000) as u8,
        ((v / 0x1_0000) % 0x100) as u8,
        ((v / 0x100) % 0x100) as u8,
        (v % 0x100) as u8,
    ]
}

/// The two bytes of `v`, least significant first.
pub open spec fn spec_le16(v: u16) -> Seq<u8> {
    seq![(v % 0x100) as u8, (v / 0x100) as u8]
}

/// Append the four big-endian bytes of `v` to `out`.
pub fn push_be32(out: &mut Vec<u8>, v: u32)
    ensures
        final(out)@ == old(out)@ + spec_be32(v),
{
    let b0 = (v >> 24) as u8;
    let b1 = ((v >> 16) & 0xFF) as u8;
    let b2 = ((v >> 8) & 0xFF) as u8;
    let b3 = (v & 0xFF) as u8;
    assert(b0 == v / 0x100_0000) by (bit_vector)
        requires
            b0 == (v >> 24) as u8,
    ;
    assert(b1 == (v / 0x1_0000) % 0x100) by (bit_vector)
        requires
            b1 == ((v >> 16) & 0xFF) as u8,
    ;
    assert(b2 == (v / 0x100) % 0x100) by (bit_vector)
        requires
            b2 == ((v >> 8) & 0xFF) as u8,
    ;
    assert(b3 == v % 0x100) by (bit_vector)
        requires
            b3 == (v & 0xFF) as u8,
    ;
    out.push(b0);
    out.push(b1);
    out.push(b2);
    out.push(b3);
    assert(final(out)@ =~= old(out)@ + spec_be32(v));
}

/// Append the two little-endian bytes of `v` to `out`.
pub fn push_le16(out: &mut Vec<u8>, v: u16)
    ensures
        final(out)@ == old(out)@ + spec_le16(v),
{
    let lo = (v & 0xFF) as u8;
    let hi = (v >> 8) as u8;
    assert(lo == v % 0x100) by (bit_vector)
        requires
            lo == (v & 0xFF) as u8,
    ;
    assert(hi == v / 0x100) by (bit_vector)
        requires
            hi == (v >> 8) as u8,
    ;
    out.push(lo);
    out.push(hi);
    assert(final(out)@ =~= old(out)@ + spec_le16(v));
}

} // verus!
