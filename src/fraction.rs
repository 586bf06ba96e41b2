//! Fixed-point fractions in parts per billion, computed by `Perbill`.
use sp_arithmetic::Perbill;
use vstd::prelude::*;

verus! {

/// The number of parts that make one whole unit.
pub const PARTS_PER_UNIT: u32 = 1_000_000_000;

/// The parts that a percentage stands for; percentages above 100 saturate.
pub open spec fn parts_of_percent(p: u32) -> int {
    if p <= 100 {
        p * 10_000_000
    } else {
        PARTS_PER_UNIT as int
    }
}

/// The parts of the fraction `p / q`, rounded down; one whole unit where `q`
/// is zero or `p` exceeds `q`.
pub open spec fn parts_of_ratio(p: u128, q: u128) -> int {
    if q == 0 || p > q {
        PARTS_PER_UNIT as int
    } else {
        (PARTS_PER_UNIT * p) / (q as int)
    }
}

/// `parts / PARTS_PER_UNIT` of `x`, rounded down.
pub open spec fn mul_floor(parts: u32, x: u128) -> int {
    (x * parts) / (PARTS_PER_UNIT as int)
}

/// `parts / PARTS_PER_UNIT` of `x`, rounded to the nearest integer, halves down.
pub open spec fn mul_nearest(parts: u32, x: u128) -> int {
    let exact = x * parts;
    exact / (PARTS_PER_UNIT as int) + if exact % (PARTS_PER_UNIT as int) > (PARTS_PER_UNIT / 2) as int {
        1int
    } else {
        0int
    }
}

/// Relies on `Perbill::from_percent`: `min(p, 100) * 10^9 / 100` parts.
#[verifier::external_body]
pub(crate) fn percent_parts(p: u32) -> (r: u32)
    ensures
        r == parts_of_percent(p),
{
    Perbill::from_percent(p).deconstruct()
}

/// Relies on `Perbill::from_rational` over `u128`: `p * 10^9 / q` rounded
/// down, or one whole unit where `q` is zero or `p > q`.
#[verifier::external_body]
pub(crate) fn ratio_parts(p: u128, q: u128) -> (r: u32)
    ensures
        r == parts_of_ratio(p, q),
{
    Perbill::from_rational(p, q).deconstruct()
}

/// Relies on `Perbill::mul_floor` over `u128`: `x * parts / 10^9` rounded down.
#[verifier::external_body]
pub(crate) fn apply_floor(parts: u32, x: u128) -> (r: u128)
    requires
        parts <= PARTS_PER_UNIT,
    ensures
        r == mul_floor(parts, x),
{
    Perbill::from_parts(parts).mul_floor(x)
}

/// Relies on `Perbill * u128`: `x * parts / 10^9` rounded to the nearest
/// integer, a remainder of exactly one half rounding down.
#[verifier::external_body]
pub(crate) fn apply_nearest(parts: u32, x: u128) -> (r: u128)
    requires
        parts <= PARTS_PER_UNIT,
    ensures
        r == mul_nearest(parts, x),
{
    Perbill::from_parts(parts) * x
}

/// A whole unit takes all of `x`.
pub proof fn lemma_whole_unit_takes_all(x: u128)
    ensures
        mul_nearest(PARTS_PER_UNIT, x) == x,
        mul_floor(PARTS_PER_UNIT, x) == x,
{
    assert((x * PARTS_PER_UNIT) / (PARTS_PER_UNIT as int) == x) by (nonlinear_arith);
    assert((x * PARTS_PER_UNIT) % (PARTS_PER_UNIT as int) == 0) by (nonlinear_arith);
}

/// A ratio is at most one whole unit.
pub proof fn lemma_ratio_within_unit(p: u128, q: u128)
    ensures
        0 <= parts_of_ratio(p, q) <= PARTS_PER_UNIT,
{
    if q != 0 && p <= q {
        let m = PARTS_PER_UNIT as int;
        assert((m * p) / (q as int) <= m) by (nonlinear_arith)
            requires p <= q, q > 0, m > 0, p >= 0;
        assert((m * p) / (q as int) >= 0) by (nonlinear_arith)
            requires q > 0, m > 0, p >= 0;
    }
}

/// Both roundings stay within `x`.
pub proof fn lemma_share_bounded(parts: u32, x: u128)
    requires
        parts <= PARTS_PER_UNIT,
    ensures
        0 <= mul_floor(parts, x) <= x,
        0 <= mul_nearest(parts, x) <= x,
{
    let m = PARTS_PER_UNIT as int;
    let e = x * parts;
    assert(0 <= e <= x * m) by (nonlinear_arith)
        requires parts <= m, e == x * parts, x >= 0, parts >= 0;
    assert(e / m <= x) by (nonlinear_arith)
        requires e <= x * m, m > 0, e >= 0;
    assert(e / m * m + e % m == e) by (nonlinear_arith) requires m > 0;
    if e % m > 0 && e / m == x {
        assert(e > x * m);
    }
}

} // verus!
