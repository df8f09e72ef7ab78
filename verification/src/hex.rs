//! Hexadecimal encoding and decoding of raw digest bytes.

use vstd::prelude::*;

verus! {

/// ASCII code of the lower-case hex digit for a nibble value.
pub open spec fn hex_digit(n: u8) -> u8
    recommends
        n < 16,
{
    if n < 10 {
        (48 + n) as u8
    } else {
        (87 + n) as u8
    }
}

/// Lower-case hex encoding: two digits for each byte, high nibble first.
pub open spec fn hex_bytes(bytes: Seq<u8>) -> Seq<u8> {
    Seq::new(
        bytes.len() * 2,
        |i: int|
            if i % 2 == 0 {
                hex_digit(bytes[i / 2] / 16)
            } else {
                hex_digit(bytes[i / 2] % 16)
            },
    )
}

/// Digits `0`-`9` and letters `a`-`f` or `A`-`F`.
pub open spec fn is_hex_digit(c: u8) -> bool {
    (48 <= c && c <= 57) || (97 <= c && c <= 102) || (65 <= c && c <= 70)
}

/// Nibble value of one hex digit; upper and lower case both count.
pub open spec fn hex_val(c: u8) -> u8
    recommends
        is_hex_digit(c),
{
    if 48 <= c && c <= 57 {
        (c - 48) as u8
    } else if 97 <= c {
        (c - 87) as u8
    } else {
        (c - 55) as u8
    }
}

pub open spec fn all_hex_digits(s: Seq<u8>) -> bool {
    forall|i: int| 0 <= i < s.len() ==> is_hex_digit(#[trigger] s[i])
}

/// Decoding of an even-length run of hex digits, one byte per digit pair.
pub open spec fn hex_decoded(s: Seq<u8>) -> Seq<u8>
    recommends
        s.len() % 2 == 0,
        all_hex_digits(s),
{
    Seq::new(s.len() / 2, |i: int| (16 * hex_val(s[2 * i]) + hex_val(s[2 * i + 1])) as u8)
}

/// Law: decoding inverts encoding, for every byte sequence.
pub proof fn lemma_hex_round_trip(bytes: Seq<u8>)
    ensures
        hex_bytes(bytes).len() == 2 * bytes.len(),
        all_hex_digits(hex_bytes(bytes)),
        hex_decoded(hex_bytes(bytes)) == bytes,
{
    let h = hex_bytes(bytes);
    assert forall|i: int| 0 <= i < h.len() implies is_hex_digit(#[trigger] h[i]) by {
        if i % 2 == 0 {
            assert(bytes[i / 2] / 16 < 16);
        } else {
            assert(bytes[i / 2] % 16 < 16);
        }
    }
    assert forall|i: int| 0 <= i < bytes.len() implies hex_decoded(h)[i] == bytes[i] by {
        assert((2 * i) / 2 == i);
        assert((2 * i) % 2 == 0);
        assert((2 * i + 1) / 2 == i);
        assert((2 * i + 1) % 2 == 1);
        let b = bytes[i];
        assert(hex_val(hex_digit(b / 16)) == b / 16);
        assert(hex_val(hex_digit(b % 16)) == b % 16);
        assert(16 * (b / 16) + b % 16 == b);
    }
    assert(hex_decoded(h) =~= bytes);
}

// Byte to 2-char hex representation, high nibble first.
pub(crate) fn byte2hex(byte: u8) -> (r: (u8, u8))
    ensures
        r.0 == hex_digit(byte / 16),
        r.1 == hex_digit(byte % 16),
{
    let high = hex_digit_of(byte / 16);
    let low = hex_digit_of(byte % 16);
    (high, low)
}

fn hex_digit_of(n: u8) -> (r: u8)
    requires
        n < 16,
    ensures
        r == hex_digit(n),
{
    if n < 10 {
        48 + n
    } else {
        87 + n
    }
}

/// Encode 20 raw bytes as 40 lower-case hex digits.
pub(crate) fn hex_encode_20(bytes: &[u8; 20]) -> (r: [u8; 40])
    ensures
        r@ == hex_bytes(bytes@),
{
    let mut out: [u8; 40] = [0u8; 40];
    let mut i: usize = 0;
    while i < 20
        invariant
            0 <= i <= 20,
            forall|j: int| 0 <= j < 2 * i ==> out@[j] == hex_bytes(bytes@)[j],
        decreases 20 - i,
    {
        let (high, low) = byte2hex(bytes[i]);
        out[2 * i] = high;
        out[2 * i + 1] = low;
        i += 1;
    }
    assert(out@ =~= hex_bytes(bytes@));
    out
}

/// Whether every byte of the slice is a hex digit.
pub(crate) fn check_all_hex(s: &[u8]) -> (r: bool)
    ensures
        r == all_hex_digits(s@),
{
    let mut i: usize = 0;
    while i < s.len()
        invariant
            0 <= i <= s@.len(),
            forall|j: int| 0 <= j < i ==> is_hex_digit(#[trigger] s@[j]),
        decreases s@.len() - i,
    {
        let c = s[i];
        if !((48 <= c && c <= 57) || (97 <= c && c <= 102) || (65 <= c && c <= 70)) {
            assert(!is_hex_digit(s@[i as int]));
            return false;
        }
        i += 1;
    }
    true
}

fn hex_val_of(c: u8) -> (r: u8)
    requires
        is_hex_digit(c),
    ensures
        r == hex_val(c),
{
    if 48 <= c && c <= 57 {
        c - 48
    } else if 97 <= c {
        c - 87
    } else {
        c - 55
    }
}

/// Decode 40 hex digits into the 20 raw bytes they denote.
pub(crate) fn hex_decode_20(s: &[u8]) -> (r: [u8; 20])
    requires
        s@.len() == 40,
        all_hex_digits(s@),
    ensures
        r@ == hex_decoded(s@),
{
    let mut out: [u8; 20] = [0u8; 20];
    let mut i: usize = 0;
    while i < 20
        invariant
            0 <= i <= 20,
            s@.len() == 40,
            all_hex_digits(s@),
            forall|j: int| 0 <= j < i ==> out@[j] == hex_decoded(s@)[j],
        decreases 20 - i,
    {
        let high = hex_val_of(s[2 * i]);
        let low = hex_val_of(s[2 * i + 1]);
        out[i] = 16 * high + low;
        i += 1;
    }
    assert(out@ =~= hex_decoded(s@));
    out
}

} // verus!
