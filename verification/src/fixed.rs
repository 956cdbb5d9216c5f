use vstd::prelude::*;

verus! {

use vstd::arithmetic::div_mod::{
    lemma_div_is_ordered,
    lemma_div_multiples_vanish,
    lemma_div_pos_is_pos,
    lemma_fundamental_div_mod,
};
use vstd::arithmetic::mul::lemma_mul_inequality;
use vstd::math::abs;

/// Number of fixed-point units per whole unit: every scalar in this crate is
/// an `i64` count of 1/65536ths, so values carry 16 fractional bits.
pub const SCALE: i64 = 65536;

/// Division that rounds toward zero, for a positive divisor `d`.  This is the
/// rounding every fixed-point operation of the crate uses.
pub open spec fn tdiv(p: int, d: int) -> int {
    if p >= 0 {
        p / d
    } else {
        -((-p) / d)
    }
}

/// The fixed-point product of `a` and `b`: the product of the represented
/// values, scaled back down and rounded toward zero.
pub open spec fn fmul(a: int, b: int) -> int {
    tdiv(a * b, SCALE as int)
}

/// The fixed-point quotient of `a` by a positive `b`, rounded toward zero.
pub open spec fn fdiv(a: int, b: int) -> int {
    tdiv(a * (SCALE as int), b)
}

pub proof fn lemma_tdiv_nonneg(p: int, d: int)
    requires
        0 <= p,
        1 <= d,
    ensures
        0 <= tdiv(p, d),
{
    lemma_div_pos_is_pos(p, d);
}

/// A bound on the dividend gives the matching bound on the truncated quotient.
pub proof fn lemma_tdiv_bound(p: int, m: int, d: int)
    requires
        -m <= p <= m,
        0 <= m,
        1 <= d,
    ensures
        -(m / d) <= tdiv(p, d) <= m / d,
{
    lemma_div_pos_is_pos(m, d);
    if p >= 0 {
        lemma_div_pos_is_pos(p, d);
        lemma_div_is_ordered(p, m, d);
    } else {
        lemma_div_pos_is_pos(-p, d);
        lemma_div_is_ordered(-p, m, d);
    }
}

/// Truncated division by a positive divisor is monotone in the dividend.
pub proof fn lemma_tdiv_mono(p1: int, p2: int, d: int)
    requires
        p1 <= p2,
        1 <= d,
    ensures
        tdiv(p1, d) <= tdiv(p2, d),
{
    if 0 <= p1 {
        lemma_div_is_ordered(p1, p2, d);
    } else if p2 < 0 {
        lemma_div_is_ordered(-p2, -p1, d);
    } else {
        lemma_div_pos_is_pos(-p1, d);
        lemma_div_pos_is_pos(p2, d);
    }
}

/// Truncated division loses less than one divisor's worth of the dividend:
/// `d * tdiv(p, d)` lies strictly within `d` of `p` on either side.
pub proof fn lemma_tdiv_estimate(p: int, d: int)
    requires
        1 <= d,
    ensures
        p - d < d * tdiv(p, d) < p + d,
{
    if p >= 0 {
        lemma_fundamental_div_mod(p, d);
        vstd::arithmetic::div_mod::lemma_mod_bound(p, d);
    } else {
        lemma_fundamental_div_mod(-p, d);
        vstd::arithmetic::div_mod::lemma_mod_bound(-p, d);
        assert(d * -((-p) / d) == -(d * ((-p) / d))) by (nonlinear_arith);
    }
}

/// Componentwise bounds on the factors give the expected bound on `fmul`.
pub proof fn lemma_fmul_bound(a: int, b: int, ma: int, mb: int)
    requires
        -ma <= a <= ma,
        -mb <= b <= mb,
        0 <= ma,
        0 <= mb,
    ensures
        -((ma * mb) / (SCALE as int)) <= fmul(a, b) <= (ma * mb) / (SCALE as int),
{
    assert(-(ma * mb) <= a * b <= ma * mb) by (nonlinear_arith)
        requires
            -ma <= a <= ma,
            -mb <= b <= mb,
            0 <= ma,
            0 <= mb,
    ;
    assert(0 <= ma * mb) by (nonlinear_arith)
        requires
            0 <= ma,
            0 <= mb,
    ;
    lemma_tdiv_bound(a * b, ma * mb, SCALE as int);
}

/// Multiplying by a nonnegative value is monotone in the other factor.
pub proof fn lemma_fmul_mono(a1: int, a2: int, b: int)
    requires
        a1 <= a2,
        0 <= b,
    ensures
        fmul(a1, b) <= fmul(a2, b),
{
    lemma_mul_inequality(a1, a2, b);
    lemma_tdiv_mono(a1 * b, a2 * b, SCALE as int);
}

/// The fixed-point square of any value is nonnegative.
pub proof fn lemma_fmul_square_nonneg(a: int)
    ensures
        0 <= fmul(a, a),
{
    assert(0 <= a * a) by (nonlinear_arith);
    lemma_tdiv_nonneg(a * a, SCALE as int);
}

/// Scaling a value bounded by `m` with a factor no larger than two whole
/// units keeps it within `2 * m`.
pub proof fn lemma_fmul_double_bound(a: int, b: int, m: int)
    requires
        -m <= a <= m,
        0 <= m,
        -131072 <= b <= 131072,
    ensures
        -2 * m <= fmul(a, b) <= 2 * m,
{
    lemma_fmul_bound(a, b, m, 131072);
    assert(m * 131072 == 65536 * (2 * m));
    lemma_div_multiples_vanish(2 * m, 65536);
}

/// The magnitude of `a`, as an unsigned value.
pub fn magnitude(a: i64) -> (m: u64)
    ensures
        m == abs(a as int),
{
    if a >= 0 {
        a as u64
    } else if a == i64::MIN {
        9223372036854775808u64
    } else {
        (-a) as u64
    }
}

/// Fixed-point multiplication; the caller guarantees the product fits.
pub fn fp_mul(a: i64, b: i64) -> (r: i64)
    requires
        -0x7fff_ffff_ffff_ffff <= fmul(a as int, b as int) <= 0x7fff_ffff_ffff_ffff,
    ensures
        r as int == fmul(a as int, b as int),
{
    let neg: bool = (a < 0) != (b < 0);
    let ma: u64 = magnitude(a);
    let mb: u64 = magnitude(b);
    proof {
        assert((ma as int) * (mb as int) < 0x1_0000_0000_0000_0000_0000_0000_0000_0000)
            by (nonlinear_arith)
            requires
                ma <= 0xffff_ffff_ffff_ffff,
                mb <= 0xffff_ffff_ffff_ffff,
        ;
    }
    let p: u128 = (ma as u128) * (mb as u128);
    let q: u128 = p / 65536u128;
    proof {
        let ai: int = a as int;
        let bi: int = b as int;
        assert(abs(ai) * abs(bi) == abs(ai * bi)) by (nonlinear_arith);
        assert(((ai < 0) != (bi < 0)) ==> ai * bi <= 0) by (nonlinear_arith);
        assert(!((ai < 0) != (bi < 0)) ==> ai * bi >= 0) by (nonlinear_arith);
        assert(q == abs(ai * bi) / 65536);
        if ai * bi >= 0 {
            assert(fmul(ai, bi) == q);
        } else {
            assert(fmul(ai, bi) == -(q as int));
        }
    }
    if neg {
        -(q as i64)
    } else {
        q as i64
    }
}

/// Fixed-point division by a positive divisor; the caller guarantees the
/// quotient fits.
pub fn fp_div(a: i64, b: i64) -> (r: i64)
    requires
        1 <= b,
        -0x7fff_ffff_ffff_ffff <= fdiv(a as int, b as int) <= 0x7fff_ffff_ffff_ffff,
    ensures
        r as int == fdiv(a as int, b as int),
{
    let ma: u64 = magnitude(a);
    let p: u128 = (ma as u128) * 65536u128;
    let q: u128 = p / (b as u128);
    proof {
        let ai: int = a as int;
        let bi: int = b as int;
        assert(abs(ai) * 65536 == abs(ai * 65536));
        assert(q == (abs(ai * 65536) as int) / bi);
        if ai >= 0 {
            assert(fdiv(ai, bi) == q);
        } else {
            assert(fdiv(ai, bi) == -(q as int));
        }
    }
    if a < 0 {
        -(q as i64)
    } else {
        q as i64
    }
}

/// Plain truncating division of a fixed-point value by a positive integer,
/// so the result stays in the same fixed-point scale.
pub fn fp_div_trunc(a: i64, d: i64) -> (r: i64)
    requires
        1 <= d,
        -0x7fff_ffff_ffff_ffff <= a,
    ensures
        r as int == tdiv(a as int, d as int),
{
    let ma: u64 = magnitude(a);
    let q: u64 = ma / (d as u64);
    proof {
        let ai: int = a as int;
        let di: int = d as int;
        lemma_fundamental_div_mod(abs(ai) as int, di);
        vstd::arithmetic::div_mod::lemma_mod_bound(abs(ai) as int, di);
        assert(di * (q as int) <= abs(ai));
        assert(q <= abs(ai)) by (nonlinear_arith)
            requires
                di * (q as int) <= abs(ai),
                0 <= q,
                1 <= di,
        ;
    }
    if a < 0 {
        -(q as i64)
    } else {
        q as i64
    }
}

} // verus!
