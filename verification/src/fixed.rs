//! Q16 fixed-point arithmetic on samples.

use vstd::prelude::*;

verus! {

/// The Q16 number that stands for 1.0.
pub const ONE: u32 = 0x1_0000;

/// Division by [`ONE`] that rounds toward zero, so that a sample and its negation
/// always scale to values of the same magnitude.
pub open spec fn descale(n: int) -> int {
    if n >= 0 {
        n / 0x1_0000
    } else {
        -((-n) / 0x1_0000)
    }
}

/// The sample nearest to `n`: `n` itself when it fits, else the closest bound.
pub open spec fn saturate(n: int) -> i32 {
    if n < i32::MIN as int {
        i32::MIN
    } else if n > i32::MAX as int {
        i32::MAX
    } else {
        n as i32
    }
}

/// The weighted sum `a * wa + b * wb` of two samples with Q16 weights, computed
/// exactly, rounded toward zero once, and saturated to the sample range.
pub open spec fn blend(a: i32, wa: u32, b: i32, wb: u32) -> i32 {
    saturate(descale(a * wa + b * wb))
}

/// Computes [`blend`] without intermediate overflow.
pub fn blend_samples(a: i32, wa: u32, b: i32, wb: u32) -> (r: i32)
    ensures
        r == blend(a, wa, b, wb),
{
    assert(-0x8000_0000 * 0xffff_ffff <= a * wa <= 0x7fff_ffff * 0xffff_ffff) by (nonlinear_arith)
        requires
            -0x8000_0000 <= a <= 0x7fff_ffff,
            0 <= wa <= 0xffff_ffff,
    ;
    assert(-0x8000_0000 * 0xffff_ffff <= b * wb <= 0x7fff_ffff * 0xffff_ffff) by (nonlinear_arith)
        requires
            -0x8000_0000 <= b <= 0x7fff_ffff,
            0 <= wb <= 0xffff_ffff,
    ;
    let p: i64 = (a as i64) * (wa as i64);
    let q: i64 = (b as i64) * (wb as i64);
    let sum: i128 = (p as i128) + (q as i128);
    if sum >= 0x8000_0000_0000 {
        i32::MAX
    } else if sum <= -0x8000_0000_0000 {
        i32::MIN
    } else {
        let narrow: i64 = sum as i64;
        (narrow / 0x1_0000) as i32
    }
}

/// The magnitude of a sample, as an integer.
pub open spec fn magnitude(x: int) -> int {
    if x >= 0 {
        x
    } else {
        -x
    }
}

/// A whole multiple of [`ONE`] descales to the multiplier, with nothing lost.
pub proof fn lemma_descale_multiple(x: int)
    ensures
        descale(x * 0x1_0000) == x,
{
}

/// Descaling keeps the order of its arguments.
pub proof fn lemma_descale_monotonic(m: int, n: int)
    requires
        m <= n,
    ensures
        descale(m) <= descale(n),
{
}

/// Descaling never rounds away from zero, and loses less than one unit.
pub proof fn lemma_descale_bounds(n: int)
    ensures
        magnitude(descale(n)) * 0x1_0000 <= magnitude(n),
        magnitude(n) < (magnitude(descale(n)) + 1) * 0x1_0000,
        n >= 0 ==> descale(n) >= 0,
        n <= 0 ==> descale(n) <= 0,
{
}

/// Two numbers that lie `gap` apart descale to numbers that lie no more than
/// `gap / ONE + 1` apart.
pub proof fn lemma_descale_lipschitz(m: int, n: int)
    ensures
        magnitude(descale(n) - descale(m)) <= magnitude(n - m) / 0x1_0000 + 1,
{
}

/// The product of a sample and a weight is bounded by the product of their
/// bounds, and has the sign of the sample.
pub proof fn lemma_weighted_bounds(a: int, w: int, bound: int, limit: int)
    by (nonlinear_arith)
    requires
        -bound <= a <= bound,
        0 <= w <= limit,
    ensures
        -(bound * limit) <= a * w <= bound * limit,
        -(bound * w) <= a * w <= bound * w,
        a >= 0 ==> a * w >= 0,
        a <= 0 ==> a * w <= 0,
{
}

/// A blend in which the first sample has full weight and the second has none is
/// the first sample.
pub proof fn lemma_blend_first(a: i32, b: i32)
    ensures
        blend(a, ONE, b, 0) == a,
{
    assert(b * 0 == 0);
    lemma_descale_multiple(a as int);
}

/// A blend in which the second sample has full weight and the first has none is
/// the second sample.
pub proof fn lemma_blend_second(a: i32, b: i32)
    ensures
        blend(a, 0, b, ONE) == b,
{
    assert(a * 0 == 0);
    lemma_descale_multiple(b as int);
}

/// A blend of silence with silence is silence, whatever the weights.
pub proof fn lemma_blend_silence(wa: u32, wb: u32)
    ensures
        blend(0, wa, 0, wb) == 0,
{
    assert(0 * wa == 0);
    assert(0 * wb == 0);
}

/// A blend does not depend on the order of its two terms.
pub proof fn lemma_blend_commutes(a: i32, wa: u32, b: i32, wb: u32)
    ensures
        blend(a, wa, b, wb) == blend(b, wb, a, wa),
{
}

/// A blend whose weights add up to [`ONE`] lies between the two samples: it
/// never saturates and never overshoots.
pub proof fn lemma_blend_between(a: i32, wa: u32, b: i32, wb: u32)
    requires
        wa + wb == ONE,
    ensures
        blend(a, wa, b, wb) == descale(a * wa + b * wb),
        a <= b ==> a <= blend(a, wa, b, wb) <= b,
        b <= a ==> b <= blend(a, wa, b, wb) <= a,
{
    let sum = a * wa + b * wb;
    let low: int = if a <= b { a as int } else { b as int };
    let high: int = if a <= b { b as int } else { a as int };
    assert(low * 0x1_0000 <= sum <= high * 0x1_0000) by (nonlinear_arith)
        requires
            low <= a <= high,
            low <= b <= high,
            0 <= wa,
            0 <= wb,
            wa + wb == 0x1_0000,
            sum == a * wa + b * wb,
    ;
    lemma_descale_multiple(low);
    lemma_descale_multiple(high);
    lemma_descale_monotonic(low * 0x1_0000, sum);
    lemma_descale_monotonic(sum, high * 0x1_0000);
}

/// Silence blended with a sample at a weight of at most [`ONE`] is the sample
/// scaled by the weight: it never saturates, it keeps the sample's sign, and its
/// magnitude is at most `weight / ONE` times the sample's.
pub proof fn lemma_blend_scales(wa: u32, b: i32, wb: u32)
    requires
        wb <= ONE,
    ensures
        blend(0, wa, b, wb) == descale(b * wb),
        magnitude(blend(0, wa, b, wb) as int) * 0x1_0000 <= magnitude(b as int) * wb,
        magnitude(blend(0, wa, b, wb) as int) <= magnitude(b as int),
        wb < ONE && b != 0 ==> magnitude(blend(0, wa, b, wb) as int) < magnitude(b as int),
        b >= 0 ==> blend(0, wa, b, wb) >= 0,
        b <= 0 ==> blend(0, wa, b, wb) <= 0,
{
    assert(0 * wa == 0);
    let product = b * wb;
    let size = magnitude(b as int);
    lemma_weighted_bounds(b as int, wb as int, size, 0x1_0000);
    assert(magnitude(product) == size * wb) by (nonlinear_arith)
        requires
            product == b * wb,
            size == magnitude(b as int),
            0 <= wb,
    ;
    lemma_descale_bounds(product);
    assert(wb < 0x1_0000 && size > 0 ==> size * wb < size * 0x1_0000) by (nonlinear_arith)
        requires
            0 <= wb,
            0 <= size,
    ;
}

} // verus!
