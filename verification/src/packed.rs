//! Fixed-width integers of the reference-count words.
//!
//! The counters are narrower than the machine words that carry them: the
//! `arbitrary_int` crate supplies the integers of 12, 20 and 62 bits. Each
//! function here hands plain machine integers to one function of that crate.
use arbitrary_int::traits::Integer;
use vstd::prelude::*;

verus! {

/// The number of values of a 12-bit integer.
pub const U12_VALUES: u32 = 0x1000;

/// The number of values of a 20-bit integer.
pub const U20_VALUES: u32 = 0x10_0000;

/// The number of values of a 62-bit integer.
pub const I62_VALUES: u64 = 0x4000_0000_0000_0000;

/// The largest signed 62-bit integer.
pub const I62_MAX: i64 = 0x1fff_ffff_ffff_ffff;

/// The smallest signed 62-bit integer.
pub const I62_MIN: i64 = -0x2000_0000_0000_0000;

/// Whether `v` fits in a signed 62-bit integer.
pub open spec fn fits_i62(v: int) -> bool {
    I62_MIN <= v <= I62_MAX
}

/// The signed 62-bit integer whose two's complement representation is
/// the low 62 bits of `raw`.
pub open spec fn sign_extend_62(raw: u64) -> int {
    let low = raw as int % I62_VALUES as int;
    if low <= I62_MAX {
        low
    } else {
        low - I62_VALUES
    }
}

/// Calls `u12::masked_new`, which keeps the low 12 bits of its argument.
#[verifier::external_body]
pub(crate) fn u12_masked_new(raw: u32) -> (r: u16)
    ensures
        r as int == raw as int % U12_VALUES as int,
{
    arbitrary_int::u12::masked_new(raw).value()
}

/// Calls `u20::masked_new`, which keeps the low 20 bits of its argument.
#[verifier::external_body]
pub(crate) fn u20_masked_new(raw: u32) -> (r: u32)
    ensures
        r as int == raw as int % U20_VALUES as int,
{
    arbitrary_int::u20::masked_new(raw).value()
}

/// Calls `u20::checked_add`, which gives the sum where it fits in 20 bits,
/// and `None` where it does not.
#[verifier::external_body]
pub(crate) fn u20_checked_add(a: u32, b: u32) -> (r: Option<u32>)
    requires
        a < U20_VALUES,
        b < U20_VALUES,
    ensures
        a + b < U20_VALUES ==> r == Some((a + b) as u32),
        a + b >= U20_VALUES ==> r is None,
{
    arbitrary_int::u20::new(a).checked_add(arbitrary_int::u20::new(b)).map(|sum| sum.value())
}

/// Calls `i62::masked_new`, which keeps the low 62 bits of its argument and
/// extends the sign.
#[verifier::external_body]
pub(crate) fn i62_masked_new(raw: u64) -> (r: i64)
    ensures
        r as int == sign_extend_62(raw),
{
    arbitrary_int::i62::masked_new(raw).value()
}

/// Calls `i62::to_bits`, which gives the two's complement representation in
/// 62 bits.
#[verifier::external_body]
pub(crate) fn i62_to_bits(v: i64) -> (r: u64)
    requires
        fits_i62(v as int),
    ensures
        v >= 0 ==> r == v,
        v < 0 ==> r == v + I62_VALUES,
{
    arbitrary_int::i62::new(v).to_bits()
}

/// Calls `i62::checked_add`, which gives the sum where it fits in 62 bits,
/// and `None` where it does not.
#[verifier::external_body]
pub(crate) fn i62_checked_add(a: i64, b: i64) -> (r: Option<i64>)
    requires
        fits_i62(a as int),
        fits_i62(b as int),
    ensures
        fits_i62(a + b) ==> r == Some((a + b) as i64),
        !fits_i62(a + b) ==> r is None,
{
    arbitrary_int::i62::new(a).checked_add(arbitrary_int::i62::new(b)).map(|sum| sum.value())
}

/// Calls `i62::checked_sub`, which gives the difference where it fits in 62
/// bits, and `None` where it does not.
#[verifier::external_body]
pub(crate) fn i62_checked_sub(a: i64, b: i64) -> (r: Option<i64>)
    requires
        fits_i62(a as int),
        fits_i62(b as int),
    ensures
        fits_i62(a - b) ==> r == Some((a - b) as i64),
        !fits_i62(a - b) ==> r is None,
{
    arbitrary_int::i62::new(a).checked_sub(arbitrary_int::i62::new(b)).map(|diff| diff.value())
}

} // verus!
