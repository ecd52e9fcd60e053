//! Hexadecimal characters and big-endian byte values: the vocabulary shared
//! by the stream reader, the instruction renderer and the laws about both.

use vstd::prelude::*;

verus! {

/// ASCII whitespace: space, tab, line feed, form feed, carriage return.
pub open spec fn is_space(b: u8) -> bool {
    b == 0x20 || b == 0x09 || b == 0x0a || b == 0x0c || b == 0x0d
}

/// ASCII hexadecimal digit, either case.
pub open spec fn is_hex_digit(b: u8) -> bool {
    (0x30 <= b && b <= 0x39) || (0x61 <= b && b <= 0x66) || (0x41 <= b && b <= 0x46)
}

/// Numeric value of an ASCII hexadecimal digit.
pub open spec fn hex_value(b: u8) -> nat {
    if 0x30 <= b && b <= 0x39 {
        (b - 0x30) as nat
    } else if 0x61 <= b && b <= 0x66 {
        (b - 0x61 + 10) as nat
    } else {
        (b - 0x41 + 10) as nat
    }
}

/// Lowercase ASCII code of the hexadecimal digit `d`.
pub open spec fn hex_ascii(d: u8) -> u8 {
    if d < 10 {
        (0x30 + d) as u8
    } else {
        (0x61 + d - 10) as u8
    }
}

/// The byte encoded by two hexadecimal digit characters.
pub open spec fn pair_byte(hi: u8, lo: u8) -> u8 {
    (hex_value(hi) * 16 + hex_value(lo)) as u8
}

/// Big-endian value of a byte sequence.
pub open spec fn be_val(b: Seq<u8>) -> nat
    decreases b.len(),
{
    if b.len() == 0 {
        0
    } else {
        (be_val(b.drop_last()) * 256 + b.last()) as nat
    }
}

/// `b` zero-extended on the left to 32 bytes.
pub open spec fn zero_extend32(b: Seq<u8>) -> Seq<u8> {
    Seq::new((32 - b.len()) as nat, |j: int| 0u8) + b
}

pub fn byte_is_space(b: u8) -> (r: bool)
    ensures
        r == is_space(b),
{
    b == 0x20 || b == 0x09 || b == 0x0a || b == 0x0c || b == 0x0d
}

pub fn byte_is_hex_digit(b: u8) -> (r: bool)
    ensures
        r == is_hex_digit(b),
{
    (0x30 <= b && b <= 0x39) || (0x61 <= b && b <= 0x66) || (0x41 <= b && b <= 0x46)
}

pub fn hex_digit_value(b: u8) -> (r: u8)
    requires
        is_hex_digit(b),
    ensures
        r as nat == hex_value(b),
        r < 16,
{
    if 0x30 <= b && b <= 0x39 {
        b - 0x30
    } else if 0x61 <= b && b <= 0x66 {
        b - 0x61 + 10
    } else {
        b - 0x41 + 10
    }
}

/// A sequence of all-zero bytes has value zero.
pub proof fn lemma_be_val_zeros(z: Seq<u8>)
    requires
        forall|j: int| 0 <= j < z.len() ==> z[j] == 0,
    ensures
        be_val(z) == 0,
    decreases z.len(),
{
    if z.len() > 0 {
        lemma_be_val_zeros(z.drop_last());
    }
}

/// Leading zero bytes do not change the big-endian value.
pub proof fn lemma_be_val_zero_prefix(z: Seq<u8>, b: Seq<u8>)
    requires
        forall|j: int| 0 <= j < z.len() ==> z[j] == 0,
    ensures
        be_val(z + b) == be_val(b),
    decreases b.len(),
{
    if b.len() == 0 {
        assert(z + b =~= z);
        lemma_be_val_zeros(z);
    } else {
        assert((z + b).drop_last() =~= z + b.drop_last());
        assert((z + b).last() == b.last());
        lemma_be_val_zero_prefix(z, b.drop_last());
    }
}

} // verus!
