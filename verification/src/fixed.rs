//! Fixed-point representation and the few arithmetic helpers the engine
//! needs: saturation into the representable band and floor division.

use vstd::prelude::*;

verus! {

/// One state unit: densities, velocities, distribution values, relaxation
/// times and tolerances are stored as signed multiples of `1/SCALE`.
pub const SCALE: i64 = 65536;

/// One geometry unit: mesh coordinates and grid spacings are stored as
/// signed multiples of `1/GEO_SCALE` of the same physical unit.
pub const GEO_SCALE: i64 = 4096;

/// `SCALE / GEO_SCALE`, used where a length expressed in geometry units
/// enters a state-unit formula.
pub const SCALE_RATIO: i64 = 16;

/// Largest magnitude a stored distribution value can take.  Values that a
/// step would carry past this band saturate at its edge.
pub const F_LIMIT: i64 = 0x100_0000_0000;

/// Largest magnitude a node density can take: the sum of 27 distribution
/// values, each within `F_LIMIT`.
pub const RHO_LIMIT: i64 = 27 * 0x100_0000_0000;

/// Largest magnitude a stored velocity component can take (four lattice
/// units; stable simulations stay far below one).
pub const V_LIMIT: i64 = 4 * 65536;

/// `x` pulled into the band `[-lim, lim]`.
pub open spec fn sat(x: int, lim: int) -> int {
    if x > lim {
        lim
    } else if x < -lim {
        -lim
    } else {
        x
    }
}

/// Saturate a wide intermediate into an `i64` band.
pub fn sat_i128(x: i128, lim: i64) -> (r: i64)
    requires
        0 < lim,
    ensures
        r as int == sat(x as int, lim as int),
{
    if x > lim as i128 {
        lim
    } else if x < -(lim as i128) {
        -lim
    } else {
        x as i64
    }
}

/// Floor division of a wide intermediate by a positive divisor.  Agrees
/// with the specification-level `/` on `int`, whose quotient is the floor
/// when the divisor is positive.
pub fn div_floor(n: i128, d: i128) -> (q: i128)
    requires
        d > 0,
    ensures
        q as int == n as int / d as int,
{
    proof {
        lemma_div_in_range(n as int, d as int, i128::MIN as int, i128::MAX as int);
    }
    match n.checked_div_euclid(d) {
        Some(q) => q,
        None => vstd::pervasive::unreached(),
    }
}

/// For a positive divisor the quotient lies between the dividend's bounds:
/// dividing cannot carry a value out of the band that holds the dividend.
pub proof fn lemma_div_in_range(n: int, d: int, lo: int, hi: int)
    requires
        d > 0,
        lo <= n <= hi,
        lo <= 0,
        hi >= 0,
    ensures
        lo <= n / d <= hi,
{
    vstd::arithmetic::div_mod::lemma_fundamental_div_mod(n, d);
    let q = n / d;
    let r = n % d;
    if q > hi {
        assert(d * q >= q) by (nonlinear_arith)
            requires
                d >= 1,
                q > 0,
        ;
        assert(n >= d * q);
        assert(false);
    }
    if q < lo {
        assert(d * (q + 1) <= q + 1) by (nonlinear_arith)
            requires
                d >= 1,
                q + 1 <= 0,
        ;
        assert(n == d * q + r);
        assert(n < d * q + d);
        assert(d * q + d == d * (q + 1)) by (nonlinear_arith);
        assert(false);
    }
}

/// A magnitude bound on the dividend, in multiples of the divisor, bounds
/// the quotient.
pub proof fn lemma_div_magnitude(n: int, d: int, b: int)
    requires
        d > 0,
        b >= 0,
        -(b * d) <= n <= b * d,
    ensures
        -b <= n / d <= b,
{
    vstd::arithmetic::div_mod::lemma_div_is_ordered(n, b * d, d);
    vstd::arithmetic::div_mod::lemma_div_is_ordered(-(b * d), n, d);
    vstd::arithmetic::div_mod::lemma_div_multiples_vanish(b, d);
    vstd::arithmetic::div_mod::lemma_div_multiples_vanish(-b, d);
    assert(b * d == d * b) by (nonlinear_arith);
    assert(-(b * d) == d * (-b)) by (nonlinear_arith);
}

/// Bounds on a product follow from bounds on its factors.
pub proof fn lemma_mul_bound(a: int, b: int, aa: int, bb: int)
    by (nonlinear_arith)
    requires
        -aa <= a <= aa,
        -bb <= b <= bb,
        0 <= aa,
        0 <= bb,
    ensures
        -(aa * bb) <= a * b <= aa * bb,
{
}

} // verus!
