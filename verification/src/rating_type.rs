use vstd::prelude::*;
use crate::time_types::TimeDelta;

verus! {

/// Goodness score of a candidate alignment, in fixed-point integer units.
pub type Rating = i64;

/// Per-millisecond slope of a rating signal.
pub type RatingDelta = i64;

/// Second difference of a rating signal: the change of slope at a breakpoint.
pub type RatingDeltaDelta = i64;

/// The product of two values in a symmetric range stays in the squared range.
pub proof fn lemma_mul_range(a: int, b: int, m: int)
    by (nonlinear_arith)
    requires
        0 <= m,
        -m <= a <= m,
        -m <= b <= m,
    ensures
        -(m * m) <= a * b <= m * m,
{
}

/// `rating + delta * time`, computed without intermediate overflow.
pub fn add_mul(rating: Rating, delta: RatingDelta, time: TimeDelta) -> (r: Rating)
    requires
        i64::MIN <= rating + delta * time <= i64::MAX,
    ensures
        r == rating + delta * time,
{
    proof {
        lemma_mul_range(delta as int, time as int, 0x8000_0000_0000_0000);
    }
    let wide: i128 = rating as i128 + (delta as i128) * (time as i128);
    wide as i64
}

/// Floored quotient of two 128-bit integers, characterized by bounds that
/// avoid any appeal to a particular division convention.
pub fn div_floor_i128(a: i128, b: i128) -> (q: i128)
    requires
        b != 0,
        a != i128::MIN,
        b != i128::MIN,
    ensures
        b > 0 ==> b * q <= a < b * (q + 1),
        b < 0 ==> b * (q + 1) < a <= b * q,
{
    let ua: u128 = if a >= 0 {
        a as u128
    } else {
        (-a) as u128
    };
    let ub: u128 = if b >= 0 {
        b as u128
    } else {
        (-b) as u128
    };
    let q0: u128 = ua / ub;
    let r0: u128 = ua % ub;
    proof {
        vstd::arithmetic::div_mod::lemma_fundamental_div_mod(ua as int, ub as int);
        vstd::arithmetic::div_mod::lemma_mod_division_less_than_divisor(ua as int, ub as int);
        assert(ua == ub * q0 + r0);
        assert(0 <= r0 < ub);
        assert(q0 <= ua) by (nonlinear_arith)
            requires
                ua == ub * q0 + r0,
                0 <= r0,
                ub >= 1,
                q0 >= 0;
    }
    let neg: bool = (a < 0) != (b < 0);
    if neg {
        if r0 == 0 {
            let q: i128 = -(q0 as i128);
            proof {
                assert(b > 0 ==> b * q <= a < b * (q + 1)) by (nonlinear_arith)
                    requires
                        ua == ub * q0,
                        r0 == 0,
                        ub > 0,
                        (a < 0) != (b < 0),
                        q == -(q0 as int),
                        ua == if a >= 0 { a as int } else { -(a as int) },
                        ub == if b >= 0 { b as int } else { -(b as int) };
                assert(b < 0 ==> b * (q + 1) < a <= b * q) by (nonlinear_arith)
                    requires
                        ua == ub * q0,
                        r0 == 0,
                        ub > 0,
                        (a < 0) != (b < 0),
                        q == -(q0 as int),
                        ua == if a >= 0 { a as int } else { -(a as int) },
                        ub == if b >= 0 { b as int } else { -(b as int) };
            }
            q
        } else {
            let q: i128 = -(q0 as i128) - 1;
            proof {
                assert(b > 0 ==> b * q <= a < b * (q + 1)) by (nonlinear_arith)
                    requires
                        ua == ub * q0 + r0,
                        0 < r0 < ub,
                        ub > 0,
                        (a < 0) != (b < 0),
                        q == -(q0 as int) - 1,
                        ua == if a >= 0 { a as int } else { -(a as int) },
                        ub == if b >= 0 { b as int } else { -(b as int) };
                assert(b < 0 ==> b * (q + 1) < a <= b * q) by (nonlinear_arith)
                    requires
                        ua == ub * q0 + r0,
                        0 < r0 < ub,
                        ub > 0,
                        (a < 0) != (b < 0),
                        q == -(q0 as int) - 1,
                        ua == if a >= 0 { a as int } else { -(a as int) },
                        ub == if b >= 0 { b as int } else { -(b as int) };
            }
            q
        }
    } else {
        let q: i128 = q0 as i128;
        proof {
            assert(b > 0 ==> b * q <= a < b * (q + 1)) by (nonlinear_arith)
                requires
                    ua == ub * q0 + r0,
                    0 <= r0 < ub,
                    ub > 0,
                    b != 0,
                    (a < 0) == (b < 0),
                    q == q0 as int,
                    ua == if a >= 0 { a as int } else { -(a as int) },
                    ub == if b >= 0 { b as int } else { -(b as int) };
            assert(b < 0 ==> b * (q + 1) < a <= b * q) by (nonlinear_arith)
                requires
                    ua == ub * q0 + r0,
                    0 <= r0 < ub,
                    ub > 0,
                    b != 0,
                    (a < 0) == (b < 0),
                    q == q0 as int,
                    ua == if a >= 0 { a as int } else { -(a as int) },
                    ub == if b >= 0 { b as int } else { -(b as int) };
        }
        q
    }
}

/// Floored quotient `(rating difference) / (slope difference)` as used when
/// solving for the crossing point of two rating lines.
pub fn div_by_delta_to_i64(num: Rating, den: RatingDelta) -> (q: i64)
    requires
        den != 0,
        !(num == i64::MIN && den == -1),
    ensures
        den > 0 ==> den * q <= num < den * (q + 1),
        den < 0 ==> den * (q + 1) < num <= den * q,
{
    let q_wide: i128 = div_floor_i128(num as i128, den as i128);
    proof {
        assert(-0x8000_0000_0000_0000 <= q_wide <= 0x7fff_ffff_ffff_ffff)
            by (nonlinear_arith)
            requires
                i64::MIN <= num <= i64::MAX,
                i64::MIN <= den <= i64::MAX,
                den != 0,
                !(num == i64::MIN && den == -1),
                den > 0 ==> den * q_wide <= num < den * (q_wide + 1),
                den < 0 ==> den * (q_wide + 1) < num <= den * q_wide;
    }
    q_wide as i64
}

} // verus!
