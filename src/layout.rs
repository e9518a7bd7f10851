//! Byte-level pieces of the Pin Helper format: numbers rendered as ASCII text,
//! and fixed-width integers in a chosen byte order.

use vstd::prelude::*;

verus! {

/// ASCII code of the lower-case hexadecimal digit `d` (`d < 16`).
pub open spec fn digit_char(d: nat) -> u8 {
    if d < 10 {
        (48 + d) as u8
    } else {
        (87 + d) as u8
    }
}

/// Decimal digits of `n`, most significant first, with no leading zeros.
pub open spec fn decimal(n: nat) -> Seq<u8>
    decreases n,
{
    if n < 10 {
        seq![digit_char(n)]
    } else {
        decimal(n / 10).push(digit_char(n % 10))
    }
}

/// Lower-case hexadecimal digits of `n`, most significant first, with no
/// leading zeros.
pub open spec fn hex(n: nat) -> Seq<u8>
    decreases n,
{
    if n < 16 {
        seq![digit_char(n)]
    } else {
        hex(n / 16).push(digit_char(n % 16))
    }
}

/// The two bytes of `x`, least significant first when `little`, else most
/// significant first.
pub open spec fn u16_bytes(x: u16, little: bool) -> Seq<u8> {
    let lo = (x % 256) as u8;
    let hi = (x / 256) as u8;
    if little {
        seq![lo, hi]
    } else {
        seq![hi, lo]
    }
}

/// The four bytes of `x`, least significant first when `little`, else most
/// significant first.
pub open spec fn u32_bytes(x: u32, little: bool) -> Seq<u8> {
    let b0 = (x % 256) as u8;
    let b1 = ((x / 256) % 256) as u8;
    let b2 = ((x / 65536) % 256) as u8;
    let b3 = (x / 16777216) as u8;
    if little {
        seq![b0, b1, b2, b3]
    } else {
        seq![b3, b2, b1, b0]
    }
}

fn digit_byte(d: u64) -> (r: u8)
    requires
        d < 16,
    ensures
        r == digit_char(d as nat),
{
    if d < 10 {
        (48 + d) as u8
    } else {
        (87 + d) as u8
    }
}

/// Appends the decimal digits of `n`.
pub(crate) fn push_decimal(out: &mut Vec<u8>, n: u64)
    ensures
        final(out)@ == old(out)@ + decimal(n as nat),
    decreases n,
{
    if n >= 10 {
        push_decimal(out, n / 10);
    }
    out.push(digit_byte(n % 10));
    assert(final(out)@ =~= old(out)@ + decimal(n as nat));
}

/// Appends the lower-case hexadecimal digits of `n`.
pub(crate) fn push_hex(out: &mut Vec<u8>, n: u64)
    ensures
        final(out)@ == old(out)@ + hex(n as nat),
    decreases n,
{
    if n >= 16 {
        push_hex(out, n / 16);
    }
    out.push(digit_byte(n % 16));
    assert(final(out)@ =~= old(out)@ + hex(n as nat));
}

/// Appends the two bytes of `x` in the byte order given by `little`.
pub(crate) fn push_u16(out: &mut Vec<u8>, x: u16, little: bool)
    ensures
        final(out)@ == old(out)@ + u16_bytes(x, little),
{
    let lo = (x % 256) as u8;
    let hi = (x / 256) as u8;
    if little {
        out.push(lo);
        out.push(hi);
    } else {
        out.push(hi);
        out.push(lo);
    }
    assert(final(out)@ =~= old(out)@ + u16_bytes(x, little));
}

/// Appends the four bytes of `x` in the byte order given by `little`.
pub(crate) fn push_u32(out: &mut Vec<u8>, x: u32, little: bool)
    ensures
        final(out)@ == old(out)@ + u32_bytes(x, little),
{
    let b0 = (x % 256) as u8;
    let b1 = ((x / 256) % 256) as u8;
    let b2 = ((x / 65536) % 256) as u8;
    let b3 = (x / 16777216) as u8;
    if little {
        out.push(b0);
        out.push(b1);
        out.push(b2);
        out.push(b3);
    } else {
        out.push(b3);
        out.push(b2);
        out.push(b1);
        out.push(b0);
    }
    assert(final(out)@ =~= old(out)@ + u32_bytes(x, little));
}

} // verus!
