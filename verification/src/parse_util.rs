//! ASCII decimal and octal numerals: formatting, parsing, and the laws that
//! tie the two together.

use vstd::prelude::*;

verus! {

#[derive(Debug, Clone, Copy, PartialEq, Eq, Structural)]
pub enum ParseU64Error {
    InvalidDigit { got: u8 },
    NumberTooBig,
}

pub open spec fn is_dec_digit(c: u8) -> bool {
    48 <= c <= 57
}

pub open spec fn is_oct_digit(c: u8) -> bool {
    48 <= c <= 55
}

/// Decimal numeral of `n`, most significant digit first, no leading zeros.
pub open spec fn dec_bytes(n: nat) -> Seq<u8>
    decreases n,
{
    if n < 10 {
        seq![(48 + n) as u8]
    } else {
        dec_bytes(n / 10) + seq![(48 + n % 10) as u8]
    }
}

/// Octal numeral of `n`, most significant digit first, no leading zeros.
pub open spec fn oct_bytes(n: nat) -> Seq<u8>
    decreases n,
{
    if n < 8 {
        seq![(48 + n) as u8]
    } else {
        oct_bytes(n / 8) + seq![(48 + n % 8) as u8]
    }
}

/// Parsing a decimal numeral, digit by digit from the left, onto an
/// accumulator: the first non-digit byte fails, and so does a value that
/// leaves `usize`.
pub open spec fn spec_parse_usize_from(s: Seq<u8>, acc: usize) -> Result<usize, ParseU64Error>
    decreases s.len(),
{
    if s.len() == 0 {
        Ok(acc)
    } else if !is_dec_digit(s[0]) {
        Err(ParseU64Error::InvalidDigit { got: s[0] })
    } else if 10 * (acc as int) + (s[0] - 48) > usize::MAX as int {
        Err(ParseU64Error::NumberTooBig)
    } else {
        spec_parse_usize_from(s.drop_first(), (10 * acc + (s[0] - 48) as usize) as usize)
    }
}

pub open spec fn spec_parse_usize(s: Seq<u8>) -> Result<usize, ParseU64Error> {
    spec_parse_usize_from(s, 0)
}

/// Parse an ASCII decimal numeral into a `usize`.
pub fn parse_usize(bytes: &[u8]) -> (r: Result<usize, ParseU64Error>)
    ensures
        r == spec_parse_usize(bytes@),
{
    let mut n: usize = 0;
    let mut i: usize = 0;
    assert(bytes@.skip(0) =~= bytes@);
    while i < bytes.len()
        invariant
            0 <= i <= bytes@.len(),
            spec_parse_usize_from(bytes@, 0) == spec_parse_usize_from(bytes@.skip(i as int), n),
        decreases bytes@.len() - i,
    {
        let c = bytes[i];
        assert(bytes@.skip(i as int)[0] == bytes@[i as int]);
        if !(48 <= c && c <= 57) {
            return Err(ParseU64Error::InvalidDigit { got: c });
        }
        let d = (c - 48) as usize;
        if n > (usize::MAX - d) / 10 {
            assert(10 * (n as int) + d > usize::MAX as int) by {
                assert((usize::MAX - d) / 10 * 10 + (usize::MAX - d) % 10 == usize::MAX - d);
            }
            return Err(ParseU64Error::NumberTooBig);
        }
        assert(10 * (n as int) + d <= usize::MAX as int) by {
            assert(n * 10 <= (usize::MAX - d) / 10 * 10) by (nonlinear_arith)
                requires
                    n <= (usize::MAX - d) / 10,
            ;
            assert((usize::MAX - d) / 10 * 10 + (usize::MAX - d) % 10 == usize::MAX - d);
        }
        assert(bytes@.skip(i as int).drop_first() =~= bytes@.skip(i as int + 1));
        n = 10 * n + d;
        i += 1;
    }
    assert(bytes@.skip(i as int) =~= Seq::<u8>::empty());
    Ok(n)
}

/// Parsing an octal numeral onto a `u32` accumulator; an empty numeral is
/// rejected as if its terminator were the bad digit.
pub open spec fn spec_parse_oct_u32_from(s: Seq<u8>, acc: u32) -> Result<u32, ParseU64Error>
    decreases s.len(),
{
    if s.len() == 0 {
        Ok(acc)
    } else if !is_oct_digit(s[0]) {
        Err(ParseU64Error::InvalidDigit { got: s[0] })
    } else if 8 * (acc as int) + (s[0] - 48) > u32::MAX as int {
        Err(ParseU64Error::NumberTooBig)
    } else {
        spec_parse_oct_u32_from(s.drop_first(), (8 * acc + (s[0] - 48) as u32) as u32)
    }
}

pub open spec fn spec_parse_oct_u32(s: Seq<u8>) -> Result<u32, ParseU64Error> {
    if s.len() == 0 {
        Err(ParseU64Error::InvalidDigit { got: 0 })
    } else {
        spec_parse_oct_u32_from(s, 0)
    }
}

/// Parse a non-empty ASCII octal numeral into a `u32`.
pub fn parse_oct_u32(bytes: &[u8]) -> (r: Result<u32, ParseU64Error>)
    ensures
        r == spec_parse_oct_u32(bytes@),
{
    if bytes.len() == 0 {
        return Err(ParseU64Error::InvalidDigit { got: 0 });
    }
    let mut n: u32 = 0;
    let mut i: usize = 0;
    assert(bytes@.skip(0) =~= bytes@);
    while i < bytes.len()
        invariant
            0 <= i <= bytes@.len(),
            bytes@.len() > 0,
            spec_parse_oct_u32_from(bytes@, 0) == spec_parse_oct_u32_from(
                bytes@.skip(i as int),
                n,
            ),
        decreases bytes@.len() - i,
    {
        let c = bytes[i];
        assert(bytes@.skip(i as int)[0] == bytes@[i as int]);
        if !(48 <= c && c <= 55) {
            return Err(ParseU64Error::InvalidDigit { got: c });
        }
        let d = (c - 48) as u32;
        if n > (u32::MAX - d) / 8 {
            assert(8 * (n as int) + d > u32::MAX as int) by {
                assert((u32::MAX - d) / 8 * 8 + (u32::MAX - d) % 8 == u32::MAX - d);
            }
            return Err(ParseU64Error::NumberTooBig);
        }
        assert(8 * (n as int) + d <= u32::MAX as int) by {
            assert(n * 8 <= (u32::MAX - d) / 8 * 8) by (nonlinear_arith)
                requires
                    n <= (u32::MAX - d) / 8,
            ;
            assert((u32::MAX - d) / 8 * 8 + (u32::MAX - d) % 8 == u32::MAX - d);
        }
        assert(bytes@.skip(i as int).drop_first() =~= bytes@.skip(i as int + 1));
        n = 8 * n + d;
        i += 1;
    }
    assert(bytes@.skip(i as int) =~= Seq::<u8>::empty());
    Ok(n)
}

/// Append the decimal numeral of `n`.
pub(crate) fn push_dec(out: &mut Vec<u8>, n: usize)
    ensures
        final(out)@ == old(out)@ + dec_bytes(n as nat),
    decreases n,
{
    if n < 10 {
        out.push(48 + n as u8);
        assert(final(out)@ =~= old(out)@ + dec_bytes(n as nat));
    } else {
        push_dec(out, n / 10);
        out.push(48 + (n % 10) as u8);
        assert(final(out)@ =~= old(out)@ + dec_bytes(n as nat));
    }
}

/// Append the octal numeral of `n`.
pub(crate) fn push_oct(out: &mut Vec<u8>, n: u32)
    ensures
        final(out)@ == old(out)@ + oct_bytes(n as nat),
    decreases n,
{
    if n < 8 {
        out.push(48 + n as u8);
        assert(final(out)@ =~= old(out)@ + oct_bytes(n as nat));
    } else {
        push_oct(out, n / 8);
        out.push(48 + (n % 8) as u8);
        assert(final(out)@ =~= old(out)@ + oct_bytes(n as nat));
    }
}

proof fn lemma_parse_usize_snoc(s: Seq<u8>, d: u8, acc: usize)
    ensures
        spec_parse_usize_from(s.push(d), acc) == (match spec_parse_usize_from(s, acc) {
            Ok(m) => {
                if !is_dec_digit(d) {
                    Err::<usize, ParseU64Error>(ParseU64Error::InvalidDigit { got: d })
                } else if 10 * (m as int) + (d - 48) > usize::MAX as int {
                    Err(ParseU64Error::NumberTooBig)
                } else {
                    Ok((10 * m + (d - 48) as usize) as usize)
                }
            },
            Err(e) => Err(e),
        }),
    decreases s.len(),
{
    reveal_with_fuel(spec_parse_usize_from, 3);
    if s.len() == 0 {
        assert(s.push(d) =~= seq![d]);
        assert(s.push(d).drop_first() =~= Seq::<u8>::empty());
    } else {
        assert(s.push(d)[0] == s[0]);
        assert(s.push(d).drop_first() =~= s.drop_first().push(d));
        if is_dec_digit(s[0]) && 10 * (acc as int) + (s[0] - 48) <= usize::MAX as int {
            lemma_parse_usize_snoc(s.drop_first(), d, (10 * acc + (s[0] - 48) as usize) as usize);
        }
    }
}

proof fn lemma_parse_oct_u32_snoc(s: Seq<u8>, d: u8, acc: u32)
    ensures
        spec_parse_oct_u32_from(s.push(d), acc) == (match spec_parse_oct_u32_from(s, acc) {
            Ok(m) => {
                if !is_oct_digit(d) {
                    Err::<u32, ParseU64Error>(ParseU64Error::InvalidDigit { got: d })
                } else if 8 * (m as int) + (d - 48) > u32::MAX as int {
                    Err(ParseU64Error::NumberTooBig)
                } else {
                    Ok((8 * m + (d - 48) as u32) as u32)
                }
            },
            Err(e) => Err(e),
        }),
    decreases s.len(),
{
    reveal_with_fuel(spec_parse_oct_u32_from, 3);
    if s.len() == 0 {
        assert(s.push(d) =~= seq![d]);
        assert(s.push(d).drop_first() =~= Seq::<u8>::empty());
    } else {
        assert(s.push(d)[0] == s[0]);
        assert(s.push(d).drop_first() =~= s.drop_first().push(d));
        if is_oct_digit(s[0]) && 8 * (acc as int) + (s[0] - 48) <= u32::MAX as int {
            lemma_parse_oct_u32_snoc(s.drop_first(), d, (8 * acc + (s[0] - 48) as u32) as u32);
        }
    }
}

/// Law: parsing a formatted decimal numeral gives the number back.
pub proof fn lemma_parse_dec_round_trip(n: usize)
    ensures
        spec_parse_usize(dec_bytes(n as nat)) == Ok::<usize, ParseU64Error>(n),
    decreases n,
{
    reveal_with_fuel(spec_parse_usize_from, 3);
    if n < 10 {
        let s = dec_bytes(n as nat);
        assert(s =~= seq![(48 + n) as u8]);
        assert(s.drop_first() =~= Seq::<u8>::empty());
    } else {
        lemma_parse_dec_round_trip(n / 10);
        let prefix = dec_bytes((n / 10) as nat);
        let d = (48 + n % 10) as u8;
        assert(dec_bytes(n as nat) =~= prefix.push(d));
        lemma_parse_usize_snoc(prefix, d, 0);
        assert(10 * (n / 10) + n % 10 == n);
    }
}

/// Law: parsing a formatted octal numeral gives the number back.
pub proof fn lemma_parse_oct_round_trip(n: u32)
    ensures
        spec_parse_oct_u32(oct_bytes(n as nat)) == Ok::<u32, ParseU64Error>(n),
    decreases n,
{
    reveal_with_fuel(spec_parse_oct_u32_from, 3);
    if n < 8 {
        let s = oct_bytes(n as nat);
        assert(s =~= seq![(48 + n) as u8]);
        assert(s.drop_first() =~= Seq::<u8>::empty());
    } else {
        lemma_parse_oct_round_trip_from(n);
    }
}

proof fn lemma_parse_oct_round_trip_from(n: u32)
    ensures
        spec_parse_oct_u32_from(oct_bytes(n as nat), 0) == Ok::<u32, ParseU64Error>(n),
    decreases n,
{
    reveal_with_fuel(spec_parse_oct_u32_from, 3);
    if n < 8 {
        let s = oct_bytes(n as nat);
        assert(s =~= seq![(48 + n) as u8]);
        assert(s.drop_first() =~= Seq::<u8>::empty());
    } else {
        lemma_parse_oct_round_trip_from(n / 8);
        let prefix = oct_bytes((n / 8) as nat);
        let d = (48 + n % 8) as u8;
        assert(oct_bytes(n as nat) =~= prefix.push(d));
        lemma_parse_oct_u32_snoc(prefix, d, 0);
        assert(8 * (n / 8) + n % 8 == n);
    }
}

/// The digits of a numeral: decimal ones are decimal digits, octal ones octal
/// digits, and in particular neither holds a space or a NUL byte.
pub proof fn lemma_dec_bytes_digits(n: nat)
    ensures
        dec_bytes(n).len() >= 1,
        forall|i: int| 0 <= i < dec_bytes(n).len() ==> is_dec_digit(#[trigger] dec_bytes(n)[i]),
    decreases n,
{
    if n >= 10 {
        lemma_dec_bytes_digits(n / 10);
    }
}

pub proof fn lemma_oct_bytes_digits(n: nat)
    ensures
        oct_bytes(n).len() >= 1,
        forall|i: int| 0 <= i < oct_bytes(n).len() ==> is_oct_digit(#[trigger] oct_bytes(n)[i]),
    decreases n,
{
    if n >= 8 {
        lemma_oct_bytes_digits(n / 8);
    }
}

} // verus!

verus! {

/// Append the decimal numeral of a 64-bit value.
pub(crate) fn push_dec_u64(out: &mut Vec<u8>, n: u64)
    ensures
        final(out)@ == old(out)@ + dec_bytes(n as nat),
    decreases n,
{
    if n < 10 {
        out.push(48 + n as u8);
        assert(final(out)@ =~= old(out)@ + dec_bytes(n as nat));
    } else {
        push_dec_u64(out, n / 10);
        out.push(48 + (n % 10) as u8);
        assert(final(out)@ =~= old(out)@ + dec_bytes(n as nat));
    }
}

} // verus!
