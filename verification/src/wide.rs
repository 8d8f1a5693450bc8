//! 256-bit unsigned arithmetic for prices, on the outside `U256` type.
use vstd::prelude::*;

verus! {

/// A 256-bit unsigned integer as four 64-bit limbs, least significant
/// first: the layout of the outside `U256`.
#[derive(Clone, Copy, Debug)]
pub struct Wide {
    pub limbs: [u64; 4],
}

/// Two to the power of `64 * k`.
pub open spec fn pow64(k: nat) -> nat
    decreases k,
{
    if k == 0 { 1 } else { 0x1_0000_0000_0000_0000 * pow64((k - 1) as nat) }
}

/// The value of a wide integer.
pub open spec fn wide_value(w: Wide) -> nat {
    (w.limbs[0] as nat + w.limbs[1] as nat * pow64(1) + w.limbs[2] as nat * pow64(2) + w.limbs[3] as nat * pow64(3)) as nat
}

/// The largest wide integer.
pub open spec fn wide_max() -> nat {
    (pow64(4) - 1) as nat
}

/// A value clamped to the largest wide integer.
pub open spec fn saturate(x: nat) -> nat {
    if x <= wide_max() { x } else { wide_max() }
}

/// `U256::saturating_mul`: the product, or the largest value on overflow.
#[verifier::external_body]
pub(crate) fn saturating_mul(a: Wide, b: Wide) -> (r: Wide)
    ensures
        wide_value(r) == saturate(wide_value(a) * wide_value(b)),
{
    Wide { limbs: sp_core::U256(a.limbs).saturating_mul(sp_core::U256(b.limbs)).0 }
}

/// `U256::saturating_add`: the sum, or the largest value on overflow.
#[verifier::external_body]
pub(crate) fn saturating_add(a: Wide, b: Wide) -> (r: Wide)
    ensures
        wide_value(r) == saturate(wide_value(a) + wide_value(b)),
{
    Wide { limbs: sp_core::U256(a.limbs).saturating_add(sp_core::U256(b.limbs)).0 }
}

/// `U256::saturating_sub`: the difference, or zero below zero.
#[verifier::external_body]
pub(crate) fn saturating_sub(a: Wide, b: Wide) -> (r: Wide)
    ensures
        wide_value(r) == if wide_value(a) >= wide_value(b) { (wide_value(a) - wide_value(b)) as nat } else { 0 },
{
    Wide { limbs: sp_core::U256(a.limbs).saturating_sub(sp_core::U256(b.limbs)).0 }
}

/// `U256::checked_add`: the sum, or nothing on overflow.
#[verifier::external_body]
pub(crate) fn checked_add(a: Wide, b: Wide) -> (r: Option<Wide>)
    ensures
        r.is_none() == (wide_value(a) + wide_value(b) > wide_max()),
        r.is_some() ==> wide_value(r.unwrap()) == wide_value(a) + wide_value(b),
{
    match sp_core::U256(a.limbs).checked_add(sp_core::U256(b.limbs)) {
        Some(v) => Some(Wide { limbs: v.0 }),
        None => None,
    }
}

/// `U256::checked_div`: the quotient rounded down, or nothing for a zero divisor.
#[verifier::external_body]
pub(crate) fn checked_div(a: Wide, b: Wide) -> (r: Option<Wide>)
    ensures
        r.is_none() == (wide_value(b) == 0),
        r.is_some() ==> wide_value(r.unwrap()) == wide_value(a) / wide_value(b),
{
    match sp_core::U256(a.limbs).checked_div(sp_core::U256(b.limbs)) {
        Some(v) => Some(Wide { limbs: v.0 }),
        None => None,
    }
}

/// `U256::checked_rem`: the remainder, or nothing for a zero divisor.
#[verifier::external_body]
pub(crate) fn checked_rem(a: Wide, b: Wide) -> (r: Option<Wide>)
    ensures
        r.is_none() == (wide_value(b) == 0),
        r.is_some() ==> wide_value(r.unwrap()) == wide_value(a) % wide_value(b),
{
    match sp_core::U256(a.limbs).checked_rem(sp_core::U256(b.limbs)) {
        Some(v) => Some(Wide { limbs: v.0 }),
        None => None,
    }
}

/// The powers of two to the 64 that a wide integer's limbs are weighted by.
pub proof fn lemma_pow64()
    ensures
        pow64(1) == 0x1_0000_0000_0000_0000,
        pow64(2) == 0x1_0000_0000_0000_0000_0000_0000_0000_0000,
        pow64(3) == 0x1_0000_0000_0000_0000_0000_0000_0000_0000_0000_0000_0000_0000,
        pow64(4) == 0x1_0000_0000_0000_0000_0000_0000_0000_0000_0000_0000_0000_0000_0000_0000_0000_0000,
{
    reveal_with_fuel(pow64, 5);
}

/// The wide integer of a 128-bit value.
pub fn from_u128(x: u128) -> (r: Wide)
    ensures
        wide_value(r) == x,
{
    let lo = x as u64;
    let hi = (x >> 64u32) as u64;
    proof {
        lemma_pow64();
        assert(x == lo + hi * 0x1_0000_0000_0000_0000) by (bit_vector)
            requires
                lo == x as u64,
                hi == (x >> 64u32) as u64,
        ;
    }
    Wide { limbs: [lo, hi, 0, 0] }
}

/// Whether a wide integer is zero.
pub fn is_zero(w: Wide) -> (r: bool)
    ensures
        r == (wide_value(w) == 0),
{
    proof {
        lemma_pow64();
    }
    w.limbs[0] == 0 && w.limbs[1] == 0 && w.limbs[2] == 0 && w.limbs[3] == 0
}

/// The 128-bit value of a wide integer, or nothing where it does not fit.
pub fn to_u128(w: Wide) -> (r: Option<u128>)
    ensures
        wide_value(w) <= u128::MAX ==> r == Some(wide_value(w) as u128),
        wide_value(w) > u128::MAX ==> r is None,
{
    proof {
        lemma_pow64();
    }
    if w.limbs[2] == 0 && w.limbs[3] == 0 {
        let lo = w.limbs[0] as u128;
        let hi = w.limbs[1] as u128;
        assert(hi * 0x1_0000_0000_0000_0000 <= 0xffff_ffff_ffff_ffff_0000_0000_0000_0000) by (nonlinear_arith)
            requires
                hi <= 0xffff_ffff_ffff_ffff,
        ;
        Some(lo + hi * 0x1_0000_0000_0000_0000u128)
    } else {
        assert(w.limbs[2] as nat * pow64(2) + w.limbs[3] as nat * pow64(3) >= pow64(2)) by (nonlinear_arith)
            requires
                w.limbs[2] != 0 || w.limbs[3] != 0,
                pow64(3) >= pow64(2),
                pow64(2) > 0,
        ;
        None
    }
}

} // verus!
