//! Integers seen through a fixed number of bits.
use vstd::prelude::*;

verus! {

pub const TWO_TO_8: u64 = 0x100;

pub const TWO_TO_16: u64 = 0x1_0000;

pub const TWO_TO_32: u64 = 0x1_0000_0000;

/// Two to the power of 64.
pub open spec fn two_to_64() -> int {
    0x1_0000_0000_0000_0000
}

/// A number of 64 bits, read as a signed one.
pub open spec fn as_signed(x: int) -> int {
    if x < 0x8000_0000_0000_0000 {
        x
    } else {
        x - two_to_64()
    }
}

/// The 64 bits of a signed number.
pub fn unsigned(i: i64) -> (r: u64)
    ensures
        r as int == (i as int) % two_to_64(),
{
    assert(i >= 0 ==> i as u64 == i) by (bit_vector);
    assert(i < 0 ==> (i as u64) == i + 0x1_0000_0000_0000_0000) by (bit_vector);
    i as u64
}

/// 64 bits, read as a signed number.
pub fn signed(x: u64) -> (r: i64)
    ensures
        r as int == as_signed(x as int),
{
    assert(x < 0x8000_0000_0000_0000 ==> x as i64 == x) by (bit_vector);
    assert(x >= 0x8000_0000_0000_0000 ==> x as i64 == x - 0x1_0000_0000_0000_0000) by (bit_vector);
    x as i64
}

/// Reading bits as signed and taking the bits again gives them back.
pub proof fn lemma_signed_and_back(x: int)
    requires
        0 <= x < two_to_64(),
    ensures
        as_signed(x) % two_to_64() == x,
{
}

/// A number of 64 bits and its reading as a signed one differ by nothing below two to the
/// power of 63, and by two to the power of 64 from there on.
pub proof fn law_signed_reading(x: int)
    requires
        0 <= x <= u64::MAX,
    ensures
        x < 0x8000_0000_0000_0000 ==> as_signed(x) == x,
        x >= 0x8000_0000_0000_0000 ==> as_signed(x) == x - 0x1_0000_0000_0000_0000,
        i64::MIN <= as_signed(x) <= i64::MAX,
{
}

}
