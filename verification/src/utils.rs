use vstd::prelude::*;

use vstd::arithmetic::div_mod::{
    lemma_div_is_ordered, lemma_div_multiples_vanish, lemma_fundamental_div_mod, lemma_small_mod,
};
use vstd::arithmetic::mul::{lemma_mul_inequality, lemma_mul_upper_bound};

use crate::error::AoError;

verus! {

/// One in Q32.32 fixed point, i.e. 2^32.
pub const FP32_ONE: u64 = 0x1_0000_0000;

/// The truncated Q32.32 product: `a` is fp0, `b_fp32` is Q32.32, the result
/// is fp0. The full 128-bit product is shifted down by 32 bits and the low
/// 64 bits are kept; overflow of that final truncation is a defined wrap.
pub open spec fn spec_fp32_mul(a: u64, b_fp32: u64) -> u64 {
    ((((a as int) * (b_fp32 as int)) / 0x1_0000_0000) % 0x1_0000_0000_0000_0000) as u64
}

/// The truncated Q32.32 quotient: `a` is fp0, `b_fp32` is Q32.32, the result
/// (`a` divided by `b_fp32`) is fp0, truncated to 64 bits.
pub open spec fn spec_fp32_div(a: u64, b_fp32: u64) -> u64
    recommends
        b_fp32 > 0,
{
    ((((a as int) * 0x1_0000_0000) / (b_fp32 as int)) % 0x1_0000_0000_0000_0000) as u64
}

/// `a` is fp0, `b_fp32` is Q32.32 and the result is `a * b` fp0.
pub fn fp32_mul(a: u64, b_fp32: u64) -> (r: u64)
    ensures
        r == spec_fp32_mul(a, b_fp32),
{
    proof {
        lemma_mul_upper_bound(a as int, u64::MAX as int, b_fp32 as int, u64::MAX as int);
    }
    let wide: u128 = (a as u128) * (b_fp32 as u128);
    let shifted: u128 = wide / 0x1_0000_0000u128;
    let low: u128 = shifted % 0x1_0000_0000_0000_0000u128;
    low as u64
}

/// `a` is fp0, `b_fp32` is Q32.32 and the result is `a / b` fp0.
pub fn fp32_div(a: u64, b_fp32: u64) -> (r: u64)
    requires
        b_fp32 > 0,
    ensures
        r == spec_fp32_div(a, b_fp32),
{
    let wide: u128 = (a as u128) * 0x1_0000_0000u128;
    let q: u128 = wide / (b_fp32 as u128);
    let low: u128 = q % 0x1_0000_0000_0000_0000u128;
    low as u64
}

/// Multiplying a quantity that was obtained by dividing a quote budget by a
/// price never yields more than the budget: if `a <= fp32_div(q, p)` then
/// `fp32_mul(a, p) <= q`, and that product does not truncate.
pub proof fn lemma_fp32_mul_of_div_le(a: u64, q: u64, p: u64)
    requires
        p > 0,
        a <= spec_fp32_div(q, p),
    ensures
        spec_fp32_mul(a, p) <= q,
        ((a as int) * (p as int)) / 0x1_0000_0000 <= q,
{
    let d = ((q as int) * 0x1_0000_0000) / (p as int);
    assert(d >= 0) by {
        vstd::arithmetic::div_mod::lemma_div_pos_is_pos((q as int) * 0x1_0000_0000, p as int);
        lemma_mul_upper_bound(q as int, u64::MAX as int, 0x1_0000_0000, 0x1_0000_0000);
    }
    // The truncated divide is at most the untruncated one.
    assert(d % 0x1_0000_0000_0000_0000 <= d) by {
        if d < 0x1_0000_0000_0000_0000 {
            lemma_small_mod(d as nat, 0x1_0000_0000_0000_0000nat);
        } else {
            vstd::arithmetic::div_mod::lemma_mod_bound(d, 0x1_0000_0000_0000_0000);
        }
    }
    assert(a as int <= d);
    // d * p <= q * 2^32, by the fundamental property of floor division.
    lemma_fundamental_div_mod((q as int) * 0x1_0000_0000, p as int);
    assert(d * (p as int) <= (q as int) * 0x1_0000_0000) by {
        lemma_fundamental_div_mod((q as int) * 0x1_0000_0000, p as int);
        assert((q as int) * 0x1_0000_0000 == (p as int) * d + ((q as int) * 0x1_0000_0000) % (
        p as int));
        vstd::arithmetic::mul::lemma_mul_is_commutative(p as int, d);
    }
    lemma_mul_inequality(a as int, d, p as int);
    assert((a as int) * (p as int) <= (q as int) * 0x1_0000_0000);
    lemma_div_is_ordered((a as int) * (p as int), (q as int) * 0x1_0000_0000, 0x1_0000_0000);
    lemma_div_multiples_vanish(q as int, 0x1_0000_0000);
    assert(((a as int) * (p as int)) / 0x1_0000_0000 <= q as int);
    assert((((a as int) * (p as int)) / 0x1_0000_0000) >= 0) by {
        vstd::arithmetic::div_mod::lemma_div_pos_is_pos((a as int) * (p as int), 0x1_0000_0000);
        vstd::arithmetic::mul::lemma_mul_nonnegative(a as int, p as int);
    }
    lemma_small_mod((((a as int) * (p as int)) / 0x1_0000_0000) as nat, 0x1_0000_0000_0000_0000nat);
}

/// Initialization guard on the first byte of an account's data: a zero tag
/// means the account is still uninitialized.
pub fn check_unitialized(first_data_byte: u8) -> (r: Result<(), AoError>)
    ensures
        r == Ok::<(), AoError>(()) <==> first_data_byte == 0,
        r is Err ==> r == Err::<(), AoError>(AoError::AlreadyInitialized),
{
    if first_data_byte != 0 {
        return Err(AoError::AlreadyInitialized);
    }
    Ok(())
}

} // verus!
