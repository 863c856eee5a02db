//! Arithmetic on 16-bit results.
//!
//! A dice code is worth a mathematical integer; what the evaluator hands back is
//! that integer narrowed to 16 bits, as a cast would do it. Narrowing respects
//! sums and products, so the evaluator may narrow at every step.
use vstd::prelude::*;
use vstd::arithmetic::div_mod::{lemma_fundamental_div_mod, lemma_mod_multiples_vanish};

verus! {

/// `v` narrowed to 16 bits: the one integer from -32768 to 32767 that differs from
/// `v` by a multiple of 65536.
pub open spec fn narrow(v: int) -> int {
    (v + 32768) % 65536 - 32768
}

/// Narrowing gives a 16-bit value and leaves a 16-bit value as it is.
pub proof fn lemma_narrow_range(v: int)
    ensures
        -32768 <= narrow(v) <= 32767,
        -32768 <= v <= 32767 ==> narrow(v) == v,
{
}

/// Two integers that differ by a multiple of 65536 narrow to the same value.
pub proof fn lemma_narrow_congruent(v: int, k: int)
    ensures
        narrow(v + 65536 * k) == narrow(v),
{
    lemma_mod_multiples_vanish(k, v + 32768, 65536);
}

/// `v` and `narrow(v)` differ by a multiple of 65536.
pub proof fn lemma_narrow_quotient(v: int) -> (k: int)
    ensures
        narrow(v) == v + 65536 * k,
{
    lemma_fundamental_div_mod(v + 32768, 65536);
    -((v + 32768) / 65536)
}

/// Narrowing a sum is narrowing the sum of the narrowed terms.
pub proof fn lemma_narrow_add(x: int, y: int)
    ensures
        narrow(narrow(x) + narrow(y)) == narrow(x + y),
{
    let j = lemma_narrow_quotient(x);
    let k = lemma_narrow_quotient(y);
    lemma_narrow_congruent(x + y, j + k);
    assert(narrow(x) + narrow(y) == (x + y) + 65536 * (j + k));
}

/// Narrowing a product is narrowing the product of the narrowed factors.
pub proof fn lemma_narrow_mul(x: int, y: int)
    ensures
        narrow(narrow(x) * narrow(y)) == narrow(x * y),
{
    let j = lemma_narrow_quotient(x);
    let k = lemma_narrow_quotient(y);
    let m = j * y + k * x + 65536 * (j * k);
    assert(narrow(x) * narrow(y) == x * y + 65536 * m) by (nonlinear_arith)
        requires
            narrow(x) == x + 65536 * j,
            narrow(y) == y + 65536 * k,
            m == j * y + k * x + 65536 * (j * k),
    ;
    lemma_narrow_congruent(x * y, m);
}

/// The sum of two 16-bit values, narrowed to 16 bits.
pub fn add16(a: i16, b: i16) -> (sum: i16)
    ensures
        sum == narrow(a + b),
{
    let wide: i32 = a as i32 + b as i32;
    if wide > 32767 {
        (wide - 65536) as i16
    } else if wide < -32768 {
        (wide + 65536) as i16
    } else {
        wide as i16
    }
}

/// The product of two 16-bit values, narrowed to 16 bits.
pub fn mul16(a: i16, b: i16) -> (product: i16)
    ensures
        product == narrow(a * b),
{
    assert(-1073741824 < a * b <= 1073741824) by (nonlinear_arith)
        requires
            -32768 <= a <= 32767,
            -32768 <= b <= 32767,
    ;
    let wide: i64 = a as i64 * b as i64;
    let lifted: u64 = (wide + 1073741824 + 32768) as u64;
    let low: u64 = lifted % 65536;
    proof {
        lemma_mod_multiples_vanish(16384, wide + 32768, 65536);
    }
    (low as i64 - 32768) as i16
}

} // verus!
