//! What holds of single-precision arithmetic whatever the numbers: its order, and how rounding
//! keeps to it.
use crate::constants;
use crate::number::num;
use crate::number::F32;
use crate::rounding;
use crate::rounding::FIELD;
use crate::rounding::INFINITE;
use vstd::arithmetic::div_mod::*;
use vstd::arithmetic::power2::*;
use vstd::prelude::*;

verus! {

/// A larger numerator has no smaller nearest integer.
pub proof fn law_nearest_even_monotone(a: nat, b: nat, d: nat)
    requires
        d > 0,
        a <= b,
    ensures
        rounding::nearest_even(a, d) <= rounding::nearest_even(b, d),
{
    lemma_fundamental_div_mod(a as int, d as int);
    lemma_fundamental_div_mod(b as int, d as int);
    let qa = a / d;
    let qb = b / d;
    let ra = a % d;
    let rb = b % d;
    assert(qa <= qb) by (nonlinear_arith)
        requires
            a == d * qa + ra,
            b == d * qb + rb,
            0 <= ra < d,
            0 <= rb < d,
            a <= b,
            d > 0,
    ;
    if qa == qb {
        assert(ra <= rb);
    }
}

/// A nearest integer lies between the bounds of the ratio.
proof fn lemma_nearest_even_between(n: nat, d: nat, lo: nat, hi: nat)
    requires
        d > 0,
        lo * d <= n,
        n <= hi * d,
    ensures
        lo <= rounding::nearest_even(n, d) <= hi,
{
    rounding::lemma_nearest_even_exact(lo, d);
    rounding::lemma_nearest_even_exact(hi, d);
    law_nearest_even_monotone(lo * d, n, d);
    law_nearest_even_monotone(n, hi * d, d);
}

/// The part of a rounded magnitude within its binade.
proof fn lemma_binade(n: nat, d: nat)
    requires
        d > 0,
    ensures
        ({
            let k = rounding::grid_exponent(n, d);
            let q = rounding::nearest_even(n, d * pow2(k));
            &&& q <= 2 * FIELD
            &&& k > 0 ==> q >= FIELD
        }),
{
    let k = rounding::grid_exponent(n, d);
    let p = pow2(k);
    rounding::lemma_grid_exponent_bounds(n, d);
    lemma_pow2_pos(k);
    lemma2_to64();
    lemma_pow2_adds(24, k);
    lemma_pow2_adds(23, k);
    assert(d * p > 0) by (nonlinear_arith)
        requires
            d > 0,
            p > 0,
    ;
    assert(n <= 0x1000000 * (d * p)) by (nonlinear_arith)
        requires
            n < d * (0x1000000 * p),
    ;
    lemma_nearest_even_between(n, d * p, 0, 0x1000000);
    if k > 0 {
        assert(n >= 0x800000 * (d * p)) by (nonlinear_arith)
            requires
                n >= d * (0x800000 * p),
        ;
        lemma_nearest_even_between(n, d * p, 0x800000, 0x1000000);
    }
}

/// Rounding keeps order: a larger ratio is never rounded to a smaller magnitude.
pub proof fn law_round_monotone(a: nat, b: nat, d: nat)
    requires
        d > 0,
        a <= b,
    ensures
        rounding::round_mag(a, d) <= rounding::round_mag(b, d),
{
    let j = rounding::grid_exponent(a, d);
    let k = rounding::grid_exponent(b, d);
    lemma_binade(a, d);
    lemma_binade(b, d);
    rounding::lemma_grid_exponent_bounds(a, d);
    rounding::lemma_grid_exponent_bounds(b, d);
    if j == k {
        lemma_pow2_pos(k);
        assert(d * pow2(k) > 0) by (nonlinear_arith)
            requires
                d > 0,
                pow2(k) > 0,
        ;
        law_nearest_even_monotone(a, b, d * pow2(k));
    } else if j > k {
        let lo = pow2((23 + j) as nat);
        let hi = pow2(24 + k);
        if 23 + j > 24 + k {
            lemma_pow2_strictly_increases(24 + k, (23 + j) as nat);
        }
        assert(d * lo >= d * hi) by (nonlinear_arith)
            requires
                lo >= hi,
        ;
        assert(false);
    } else {
        let qa = rounding::nearest_even(a, d * pow2(j));
        let qb = rounding::nearest_even(b, d * pow2(k));
        assert(j * FIELD as nat + qa <= k * FIELD as nat + qb) by (nonlinear_arith)
            requires
                j + 1 <= k,
                qa <= 2 * FIELD,
                qb >= FIELD,
        ;
    }
}

/// Of two magnitudes the larger stands for more units.
pub proof fn law_units_strictly_monotone(a: nat, b: nat)
    requires
        a < b,
    ensures
        rounding::units(a) < rounding::units(b),
{
    let j = rounding::exponent(a);
    let k = rounding::exponent(b);
    rounding::lemma_fields(a);
    rounding::lemma_fields(b);
    let p = rounding::significand(a);
    let q = rounding::significand(b);
    lemma_pow2_pos(j);
    if j == k {
        let u = pow2(j);
        assert(p * u < q * u) by (nonlinear_arith)
            requires
                p < q,
                u > 0,
        ;
    } else {
        assert(j < k) by (nonlinear_arith)
            requires
                a == j * FIELD as nat + p,
                b == k * FIELD as nat + q,
                p < 2 * FIELD,
                q < 2 * FIELD,
                a < b,
                j != k,
                j > 0 ==> p >= FIELD,
                k > 0 ==> q >= FIELD,
        ;
        rounding::lemma_pow2_step(j);
        if j + 1 < k {
            lemma_pow2_strictly_increases(j + 1, k);
        }
        let u = pow2(j);
        let v = pow2(k);
        assert(p * u < q * v) by (nonlinear_arith)
            requires
                p < 2 * FIELD,
                q >= FIELD,
                v >= 2 * u,
                u > 0,
        ;
    }
}

/// For finite numbers, to come first in the order is to have the smaller value.
pub proof fn law_order_is_by_value(x: F32, y: F32)
    requires
        x.is_finite(),
        y.is_finite(),
    ensures
        x.lt(y) == (x.value() < y.value()),
        x.le(y) == (x.value() <= y.value()),
{
    lemma_value_by_rank(x, y);
    lemma_value_by_rank(y, x);
}

proof fn lemma_value_by_rank(x: F32, y: F32)
    ensures
        x.rank() < y.rank() ==> x.value() < y.value(),
        x.rank() == y.rank() ==> x.value() == y.value(),
{
    let a = x.mag() as nat;
    let b = y.mag() as nat;
    assert(rounding::units(0) == 0) by (nonlinear_arith)
        requires
            rounding::significand(0) == 0,
    ;
    if a < b {
        law_units_strictly_monotone(a, b);
    } else if b < a {
        law_units_strictly_monotone(b, a);
    }
    if 0 < a {
        law_units_strictly_monotone(0, a);
    }
    if 0 < b {
        law_units_strictly_monotone(0, b);
    }
}

/// The place in the order of a whole number of units once it is rounded.
pub open spec fn rounded(v: int) -> int {
    if v < 0 {
        -(rounding::round_mag((-v) as nat, 1) as int)
    } else {
        rounding::round_mag(v as nat, 1) as int
    }
}

/// Rounding keeps the order of whole numbers of units, of either sign.
pub proof fn law_rounded_monotone(v: int, w: int)
    requires
        v <= w,
    ensures
        rounded(v) <= rounded(w),
{
    if v >= 0 {
        law_round_monotone(v as nat, w as nat, 1);
    } else if w < 0 {
        law_round_monotone((-w) as nat, (-v) as nat, 1);
    }
}

/// A finite number is where its value is rounded to.
pub proof fn law_rounded_exact(x: F32)
    requires
        x.is_finite(),
    ensures
        rounded(x.value()) == x.rank(),
{
    rounding::lemma_round_mag_exact(x.mag() as nat);
    lemma_value_by_rank(num(0), x);
    lemma_value_by_rank(x, num(0));
    assert(rounding::units(0) == 0) by (nonlinear_arith)
        requires
            rounding::significand(0) == 0,
    ;
    rounding::lemma_round_mag_exact(0);
}

/// The bounds of a rounded magnitude.
proof fn lemma_round_bounded(n: nat, d: nat)
    ensures
        rounding::round_mag(n, d) <= INFINITE,
{
}

/// Where the sum of two finite numbers lies.
pub proof fn law_sum_is_rounded(x: F32, y: F32)
    requires
        x.is_finite(),
        y.is_finite(),
    ensures
        x.plus(y).rank() == rounded(x.value() + y.value()),
        !x.plus(y).is_nan(),
{
    reveal(F32::spec_plus);
    let v = x.value() + y.value();
    if v < 0 {
        lemma_round_bounded((-v) as nat, 1);
    } else {
        lemma_round_bounded(v as nat, 1);
    }
    assert(rounding::units(0) == 0) by (nonlinear_arith)
        requires
            rounding::significand(0) == 0,
    ;
    rounding::lemma_round_mag_exact(0);
}

/// Addition does not depend on the order of its terms.
pub proof fn law_plus_commutes(x: F32, y: F32)
    ensures
        x.plus(y) == y.plus(x),
{
    reveal(F32::spec_plus);
}

/// Multiplication does not depend on the order of its factors.
pub proof fn law_times_commutes(x: F32, y: F32)
    ensures
        x.times(y) == y.times(x),
{
    reveal(F32::spec_times);
    let a = rounding::units(x.mag() as nat);
    let b = rounding::units(y.mag() as nat);
    assert(a * b == b * a) by (nonlinear_arith);
}

/// What is taken away makes nothing larger.
pub proof fn law_minus_makes_no_larger(x: F32, y: F32)
    requires
        !x.is_nan(),
        num(0).le(y),
        !x.minus(y).is_nan(),
    ensures
        x.minus(y).le(x),
{
    let z = y.neg();
    assert(z.mag() == y.mag());
    if x.is_finite() && y.is_finite() {
        law_sum_is_rounded(x, z);
        law_rounded_exact(x);
        lemma_value_by_rank(num(0), y);
        lemma_zero();
        lemma_neg_value(y);
        assert(z.value() <= 0);
        law_rounded_monotone(x.value() + z.value(), x.value());
    } else {
        reveal(F32::spec_plus);
    }
}

/// What is added makes nothing smaller.
pub proof fn law_plus_makes_no_smaller(x: F32, y: F32)
    requires
        !x.is_nan(),
        num(0).le(y),
        !x.plus(y).is_nan(),
    ensures
        x.le(x.plus(y)),
{
    if x.is_finite() && y.is_finite() {
        law_sum_is_rounded(x, y);
        law_rounded_exact(x);
        lemma_value_by_rank(num(0), y);
        lemma_zero();
        law_rounded_monotone(x.value(), x.value() + y.value());
    } else {
        reveal(F32::spec_plus);
    }
}

/// Zero has the value zero.
proof fn lemma_zero()
    ensures
        rounding::units(0) == 0,
        num(0).value() == 0,
        num(0).is_finite(),
{
    assert(rounding::units(0) == 0) by (nonlinear_arith)
        requires
            rounding::significand(0) == 0,
    ;
}

/// A negated number has the opposite value and place.
proof fn lemma_neg_value(x: F32)
    ensures
        x.neg().value() == -x.value(),
        x.neg().rank() == -x.rank(),
        x.neg().is_nan() == x.is_nan(),
        x.neg().is_finite() == x.is_finite(),
{
    assert(x.neg().mag() == x.mag());
    lemma_zero();
}

/// Adding nothing changes nothing; a negative zero loses its sign.
pub proof fn law_plus_zero(x: F32)
    requires
        !x.is_nan(),
    ensures
        x.plus(num(0)).rank() == x.rank(),
        num(0).plus(x).rank() == x.rank(),
        0 < x.rank() ==> x.plus(num(0)) == x && num(0).plus(x) == x,
{
    law_plus_commutes(x, num(0));
    lemma_zero();
    if x.is_finite() {
        law_sum_is_rounded(x, num(0));
        law_rounded_exact(x);
    }
    reveal(F32::spec_plus);
    if x.is_finite() && 0 < x.rank() {
        lemma_value_by_rank(num(0), x);
        rounding::lemma_round_mag_exact(x.mag() as nat);
    }
}

/// A finite number taken from itself leaves zero.
pub proof fn law_minus_self(x: F32)
    requires
        x.is_finite(),
    ensures
        x.minus(x) == num(0),
{
    reveal(F32::spec_plus);
    lemma_neg_value(x);
    assert(x.neg().mag() == x.mag());
}

/// One is two to the power of 149 units.
pub proof fn lemma_one()
    ensures
        num(constants::ONE).value() == pow2(149),
        rounding::units(constants::ONE as nat) == pow2(149),
        num(constants::ONE).is_finite(),
{
    lemma2_to64();
    lemma_pow2_adds(23, 126);
    assert(rounding::exponent(constants::ONE as nat) == 126);
    assert(rounding::significand(constants::ONE as nat) == 0x800000);
}

/// One times a number is that number.
pub proof fn law_times_one(x: F32)
    requires
        !x.is_nan(),
    ensures
        x.times(num(constants::ONE)) == x,
        num(constants::ONE).times(x) == x,
{
    law_times_commutes(x, num(constants::ONE));
    lemma_one();
    reveal(F32::spec_times);
    if x.is_finite() {
        let u = rounding::units(x.mag() as nat);
        lemma_pow2_pos(149);
        rounding::lemma_round_mag_scaled(u, 1, pow2(149));
        rounding::lemma_round_mag_exact(x.mag() as nat);
        assert(1 * pow2(149) == pow2(149));
    }
}

/// A part of something is neither negative nor more than the whole: a number from zero on, times
/// a factor between zero and one.
pub proof fn law_part_of_whole(x: F32, f: F32)
    requires
        num(0).le(x),
        x.is_finite(),
        num(0).le(f),
        f.le(num(constants::ONE)),
    ensures
        num(0).le(x.times(f)),
        x.times(f).le(x),
{
    lemma_one();
    lemma_zero();
    lemma_value_by_rank(num(0), x);
    lemma_value_by_rank(num(0), f);
    lemma_value_by_rank(f, num(constants::ONE));
    let u = rounding::units(x.mag() as nat);
    let v = rounding::units(f.mag() as nat);
    if x.rank() == 0 {
        assert(u == 0);
    }
    if f.rank() == 0 {
        assert(v == 0);
    }
    assert(v <= pow2(149));
    assert(u * v <= u * pow2(149)) by (nonlinear_arith)
        requires
            v <= pow2(149),
    ;
    lemma_pow2_pos(149);
    law_round_monotone(u * v, u * pow2(149), pow2(149));
    rounding::lemma_round_mag_scaled(u, 1, pow2(149));
    assert(1 * pow2(149) == pow2(149));
    rounding::lemma_round_mag_exact(x.mag() as nat);
    reveal(F32::spec_times);
    lemma_round_bounded(u * v, pow2(149));
    if u == 0 || v == 0 {
        assert(u * v == 0) by (nonlinear_arith)
            requires
                u == 0 || v == 0,
        ;
        law_round_zero(pow2(149));
    }
}

/// Nothing is rounded to nothing.
pub proof fn law_round_zero(d: nat)
    requires
        d > 0,
    ensures
        rounding::round_mag(0, d) == 0,
{
    lemma_zero();
    rounding::lemma_round_mag_exact(0);
    rounding::lemma_round_mag_scaled(0, 1, d);
    assert(0 * d == 0);
    assert(1 * d == d);
}

/// A product of numbers from zero on is not negative.
pub proof fn law_product_not_negative(x: F32, y: F32)
    requires
        num(0).le(x),
        num(0).le(y),
        !x.times(y).is_nan(),
    ensures
        num(0).le(x.times(y)),
{
    reveal(F32::spec_times);
    let u = rounding::units(x.mag() as nat);
    let v = rounding::units(y.mag() as nat);
    lemma_zero();
    lemma_pow2_pos(149);
    lemma_round_bounded(u * v, pow2(149));
    if u == 0 || v == 0 {
        assert(u * v == 0) by (nonlinear_arith)
            requires
                u == 0 || v == 0,
        ;
        law_round_zero(pow2(149));
    }
    lemma_value_by_rank(num(0), x);
    lemma_value_by_rank(num(0), y);
}

/// A ratio of a part to its whole lies between zero and one.
pub proof fn law_ratio_of_part(x: F32, y: F32)
    requires
        num(0).le(x),
        x.le(y),
        num(0).lt(y),
        y.is_finite(),
    ensures
        num(0).le(x.over(y)),
        x.over(y).le(num(constants::ONE)),
{
    lemma_one();
    lemma_zero();
    lemma_value_by_rank(num(0), x);
    lemma_value_by_rank(x, y);
    lemma_value_by_rank(num(0), y);
    let u = rounding::units(x.mag() as nat);
    let v = rounding::units(y.mag() as nat);
    assert(x.rank() == 0 ==> u == 0);
    assert(u <= v && v > 0);
    lemma_pow2_pos(149);
    let p = pow2(149);
    assert(u * p <= p * v) by (nonlinear_arith)
        requires
            u <= v,
    ;
    law_round_monotone(u * p, p * v, v);
    rounding::lemma_round_mag_scaled(p, 1, v);
    assert(1 * v == v);
    rounding::lemma_round_mag_exact(constants::ONE as nat);
    reveal(F32::spec_over);
    lemma_round_bounded(u * p, v);
    if u == 0 {
        assert(u * p == 0) by (nonlinear_arith)
            requires
                u == 0,
        ;
        law_round_zero(v);
    }
}

/// A number that is cut off at two bounds lies between them, unless it is no number.
pub proof fn law_clamp(x: F32, lo: F32, hi: F32)
    requires
        lo.le(hi),
        !x.is_nan(),
    ensures
        lo.le(x.clamp(lo, hi)),
        x.clamp(lo, hi).le(hi),
        lo.le(x) && x.le(hi) ==> x.clamp(lo, hi) == x,
{
}

/// A small integer is a number that leads back to it.
pub proof fn law_integer_round_trip(v: i32)
    requires
        -0x100_0000 <= v <= 0x100_0000,
    ensures
        F32::from_i32(v).to_i32() == v,
        F32::from_i32(v).is_finite(),
        F32::from_i32(v).value() == v * pow2(149),
{
    let a: nat = if v < 0 {
        (-(v as int)) as nat
    } else {
        v as nat
    };
    lemma_integer(a);
    reveal(F32::spec_from_i32);
    reveal(F32::to_range);
    lemma_pow2_pos(149);
    let m = rounding::round_mag(a * pow2(149), 1);
    lemma_fundamental_div_mod_converse((a * pow2(149)) as int, pow2(149) as int, a as int, 0);
    assert((-(a as int)) * pow2(149) == -((a * pow2(149)) as int)) by (nonlinear_arith);
    let x = F32::from_i32(v);
    assert(x.mag() == m);
    assert(x.whole() == a);
}

/// An integer of up to 24 binary digits is a number.
proof fn lemma_integer(a: nat)
    requires
        a <= 0x100_0000,
    ensures
        rounding::round_mag(a * pow2(149), 1) < INFINITE,
        rounding::units(rounding::round_mag(a * pow2(149), 1)) == a * pow2(149),
{
    lemma_pow2_pos(149);
    if a == 0 {
        assert(a * pow2(149) == 0) by (nonlinear_arith)
            requires
                a == 0,
        ;
        law_round_zero(1);
        lemma_zero();
    } else {
        lemma_mantissa(a, 149);
    }
}

/// Every whole number of units of up to 24 binary digits, shifted, is the value of a magnitude.
proof fn lemma_mantissa(a: nat, e: nat)
    requires
        0 < a <= 0x100_0000,
        e <= 150,
    ensures
        rounding::round_mag(a * pow2(e), 1) < INFINITE,
        rounding::units(rounding::round_mag(a * pow2(e), 1)) == a * pow2(e),
    decreases 0x100_0000 - a,
{
    lemma2_to64();
    if a == 0x100_0000 {
        rounding::lemma_pow2_step(e);
        let m: nat = ((e + 2) * FIELD) as nat;
        assert(rounding::exponent(m) == e + 1 && rounding::significand(m) == FIELD) by {
            lemma_fundamental_div_mod_converse(m as int, FIELD as int, (e + 2) as int, 0);
        }
        assert(rounding::units(m) == a * pow2(e)) by (nonlinear_arith)
            requires
                rounding::units(m) == FIELD * pow2(e + 1),
                pow2(e + 1) == 2 * pow2(e),
                a == 0x100_0000,
                FIELD == 0x80_0000,
        ;
        rounding::lemma_round_mag_exact(m);
    } else if a >= FIELD {
        let m: nat = ((e + 1) * FIELD + (a - FIELD)) as nat;
        assert(rounding::exponent(m) == e && rounding::significand(m) == a) by {
            lemma_fundamental_div_mod_converse(
                m as int,
                FIELD as int,
                (e + 1) as int,
                a - FIELD,
            );
        }
        rounding::lemma_round_mag_exact(m);
    } else if e == 0 {
        assert(pow2(0) == 1);
        assert(a * pow2(e) == a);
        assert(rounding::units(a) == a);
        rounding::lemma_round_mag_exact(a);
    } else {
        let h: nat = (e - 1) as nat;
        rounding::lemma_pow2_step(h);
        assert(a * pow2(e) == (2 * a) * pow2(h)) by (nonlinear_arith)
            requires
                pow2(e) == 2 * pow2(h),
        ;
        lemma_mantissa(2 * a, h);
    }
}

/// The integer part of a finite number is itself a number.
pub proof fn law_trunc_is_exact(x: F32)
    requires
        x.is_finite(),
    ensures
        x.trunc().is_finite(),
        x.trunc().is_negative() == x.is_negative(),
        rounding::units(x.trunc().mag() as nat) == x.whole() * pow2(149),
{
    reveal(F32::spec_trunc);
    let m = x.mag() as nat;
    let k = rounding::exponent(m);
    let q = rounding::significand(m);
    let w = x.whole();
    let p = pow2(149);
    rounding::lemma_fields(m);
    lemma_pow2_pos(149);
    lemma_pow2_pos(k);
    lemma_fundamental_div_mod((q * pow2(k)) as int, p as int);
    if k >= 149 {
        let h = (k - 149) as nat;
        lemma_pow2_adds(h, 149);
        assert(q * pow2(k) == (q * pow2(h)) * p) by (nonlinear_arith)
            requires
                pow2(k) == pow2(h) * p,
        ;
        lemma_fundamental_div_mod_converse(
            (q * pow2(k)) as int,
            p as int,
            (q * pow2(h)) as int,
            0,
        );
        rounding::lemma_round_mag_exact(m);
    } else {
        lemma_pow2_strictly_increases(k, 149);
        assert(w <= q) by (nonlinear_arith)
            requires
                w * p <= q * pow2(k),
                pow2(k) < p,
                p > 0,
        ;
        lemma_integer(w);
    }
}

/// What is left of a finite number without its integer part lies between minus one and one, and
/// is on its side of zero.
pub proof fn law_fraction_is_small(x: F32)
    requires
        x.is_finite(),
    ensures
        ({
            let f = x.minus(x.trunc());
            &&& !f.is_nan()
            &&& num(constants::ONE).neg().le(f)
            &&& f.le(num(constants::ONE))
            &&& num(0).le(x) ==> num(0).le(f)
            &&& x.le(num(0)) ==> f.le(num(0))
        }),
{
    let y = x.trunc();
    let p = pow2(149);
    let u = rounding::units(x.mag() as nat);
    law_trunc_is_exact(x);
    lemma_pow2_pos(149);
    lemma_fundamental_div_mod(u as int, p as int);
    assert(x.whole() * p == p * x.whole()) by (nonlinear_arith);
    lemma_neg_value(y);
    law_sum_is_rounded(x, y.neg());
    let v = x.value() + y.neg().value();
    assert(-p <= v <= p);
    lemma_one();
    lemma_zero();
    lemma_neg_value(num(constants::ONE));
    law_rounded_exact(num(constants::ONE));
    law_rounded_exact(num(constants::ONE).neg());
    law_rounded_exact(num(0));
    law_rounded_monotone(v, p as int);
    law_rounded_monotone(-p, v);
    lemma_value_by_rank(num(0), x);
    lemma_value_by_rank(x, num(0));
    if v >= 0 {
        law_rounded_monotone(0, v);
    }
    if v <= 0 {
        law_rounded_monotone(v, 0);
    }
}

/// The value of a magnitude that is put together from a scale and a significand.
proof fn lemma_put_together(k: nat, q: nat)
    requires
        q <= 2 * FIELD,
        k > 0 ==> q >= FIELD,
    ensures
        rounding::units(k * FIELD as nat + q) == q * pow2(k),
{
    let m = k * FIELD as nat + q;
    let f = FIELD as nat;
    lemma2_to64();
    if q < FIELD {
        assert(k == 0);
        assert(pow2(0) == 1);
    } else if q < 2 * FIELD {
        assert(m == (k + 1) * f + (q - f)) by (nonlinear_arith)
            requires
                m == k * f + q,
        ;
        lemma_fundamental_div_mod_converse(m as int, f as int, (k + 1) as int, q - f);
        assert(m >= FIELD) by (nonlinear_arith)
            requires
                m == k * f + q,
                q >= f,
                f == FIELD,
        ;
    } else {
        assert(m == (k + 2) * f + 0) by (nonlinear_arith)
            requires
                m == k * f + q,
                q == 2 * f,
        ;
        lemma_fundamental_div_mod_converse(m as int, f as int, (k + 2) as int, 0);
        rounding::lemma_pow2_step(k);
        assert(m >= FIELD) by (nonlinear_arith)
            requires
                m == k * f + q,
                q >= f,
                f == FIELD,
        ;
        assert(f * pow2(k + 1) == q * pow2(k)) by (nonlinear_arith)
            requires
                pow2(k + 1) == 2 * pow2(k),
                q == 2 * f,
        ;
    }
}

/// Rounding moves a whole number of units by at most half a step of the grid.
pub proof fn law_rounding_error(n: nat)
    requires
        rounding::round_mag(n, 1) < INFINITE,
    ensures
        ({
            let p = pow2(rounding::grid_exponent(n, 1));
            let r = rounding::units(rounding::round_mag(n, 1));
            2 * r <= 2 * n + p && 2 * n <= 2 * r + p
        }),
{
    let k = rounding::grid_exponent(n, 1);
    let p = pow2(k);
    let q = rounding::nearest_even(n, 1 * p);
    assert(1 * p == p);
    lemma_pow2_pos(k);
    lemma_binade(n, 1);
    lemma_put_together(k, q);
    lemma_fundamental_div_mod(n as int, p as int);
    let a = n / p;
    let b = n % p;
    assert(2 * (q * p) <= 2 * n + p && 2 * n <= 2 * (q * p) + p) by (nonlinear_arith)
        requires
            n == p * a + b,
            0 <= b < p,
            (q == a && 2 * b <= p) || (q == a + 1 && 2 * b >= p),
    ;
}

/// A sum is off by at most one part in two to the power of 24.
pub proof fn law_sum_is_near(x: F32, y: F32)
    requires
        x.is_finite(),
        y.is_finite(),
        x.plus(y).is_finite(),
    ensures
        ({
            let v = x.value() + y.value();
            let e = x.plus(y).value() - v;
            let size = if v < 0 {
                -v
            } else {
                v
            };
            -size <= 0x100_0000 * e <= size
        }),
{
    let v = x.value() + y.value();
    let n: nat = (if v < 0 {
        -v
    } else {
        v
    }) as nat;
    let k = rounding::grid_exponent(n, 1);
    let p = pow2(k);
    lemma_zero();
    law_sum_is_rounded(x, y);
    assert(x.plus(y).mag() == rounding::round_mag(n, 1));
    law_rounding_error(n);
    rounding::lemma_grid_exponent_bounds(n, 1);
    lemma2_to64();
    lemma_pow2_pos(k);
    if k > 0 {
        lemma_pow2_adds(23, k);
        assert(1 * pow2((23 + k) as nat) == pow2((23 + k) as nat));
    }
}

/// Rounding moves a ratio by at most one part in two to the power of 24, or by half a unit.
pub proof fn law_ratio_error(n: nat, d: nat)
    requires
        d > 0,
        rounding::round_mag(n, d) < INFINITE,
    ensures
        ({
            let r = rounding::units(rounding::round_mag(n, d));
            -(n + 0x80_0000 * d) <= 0x100_0000 * (r * d - n) <= n + 0x80_0000 * d
        }),
{
    let k = rounding::grid_exponent(n, d);
    let p = pow2(k);
    let e = d * p;
    let q = rounding::nearest_even(n, e);
    lemma_pow2_pos(k);
    assert(e > 0) by (nonlinear_arith)
        requires
            e == d * p,
            d > 0,
            p > 0,
    ;
    lemma_binade(n, d);
    lemma_put_together(k, q);
    lemma_fundamental_div_mod(n as int, e as int);
    let a = n / e;
    let b = n % e;
    let r = rounding::units(rounding::round_mag(n, d));
    assert(r * d == q * e) by (nonlinear_arith)
        requires
            r == q * p,
            e == d * p,
    ;
    assert(2 * (q * e) <= 2 * n + e && 2 * n <= 2 * (q * e) + e) by (nonlinear_arith)
        requires
            n == e * a + b,
            0 <= b < e,
            (q == a && 2 * b <= e) || (q == a + 1 && 2 * b >= e),
    ;
    rounding::lemma_grid_exponent_bounds(n, d);
    lemma2_to64();
    if k > 0 {
        lemma_pow2_adds(23, k);
        assert(0x80_0000 * e == d * (0x80_0000 * p)) by (nonlinear_arith)
            requires
                e == d * p,
        ;
    } else {
        assert(e == d) by (nonlinear_arith)
            requires
                e == d * p,
                p == 1,
        ;
    }
}

/// What is below two to the power of 276 units is rounded to a finite number.
pub proof fn law_ratio_is_finite(n: nat, d: nat)
    requires
        d > 0,
        n <= d * pow2(276),
    ensures
        rounding::round_mag(n, d) < INFINITE,
{
    let m: nat = 0x7f00_0000;
    lemma2_to64();
    lemma_pow2_adds(23, 253);
    assert(rounding::exponent(m) == 253);
    assert(rounding::significand(m) == 0x80_0000);
    rounding::lemma_round_mag_exact(m);
    rounding::lemma_round_mag_scaled(pow2(276), 1, d);
    assert(pow2(276) * d == d * pow2(276)) by (nonlinear_arith);
    assert(1 * d == d);
    law_round_monotone(n, d * pow2(276), d);
}

/// A product of numbers from zero on is off by at most one part in two to the power of 24, or by
/// half a unit.
pub proof fn law_product_is_near(x: F32, y: F32)
    requires
        x.is_finite(),
        y.is_finite(),
        num(0).le(x),
        num(0).le(y),
        x.value() * y.value() <= pow2(149) * pow2(276),
    ensures
        ({
            let e = x.value() * y.value();
            let p = pow2(149);
            &&& x.times(y).is_finite()
            &&& num(0).le(x.times(y))
            &&& x.times(y).value() >= 0
            &&& -(e + 0x80_0000 * p) <= 0x100_0000 * (x.times(y).value() * p - e) <= e + 0x80_0000
                * p
        }),
{
    let p = pow2(149);
    let u = rounding::units(x.mag() as nat);
    let v = rounding::units(y.mag() as nat);
    lemma_pow2_pos(149);
    lemma_zero();
    lemma_value_by_rank(num(0), x);
    lemma_value_by_rank(num(0), y);
    assert(x.value() == u && y.value() == v);
    law_ratio_is_finite(u * v, p);
    law_ratio_error(u * v, p);
    lemma_round_bounded(u * v, p);
    if u == 0 || v == 0 {
        assert(u * v == 0) by (nonlinear_arith)
            requires
                u == 0 || v == 0,
        ;
        law_round_zero(p);
    }
    reveal(F32::spec_times);
    let r = x.times(y);
    assert(r.mag() == rounding::round_mag(u * v, p));
    assert(!x.is_negative() || u == 0);
    assert(!y.is_negative() || v == 0);
    assert(r.rank() >= 0);
    lemma_value_by_rank(num(0), r);
    assert(r.value() == rounding::units(r.mag() as nat));
}

/// A quotient of numbers from zero on is off by at most one part in two to the power of 24, or by
/// half a unit.
pub proof fn law_quotient_is_near(x: F32, y: F32)
    requires
        x.is_finite(),
        y.is_finite(),
        num(0).le(x),
        num(0).lt(y),
        x.value() * pow2(149) <= y.value() * pow2(276),
    ensures
        ({
            let e = x.value() * pow2(149);
            &&& x.over(y).is_finite()
            &&& num(0).le(x.over(y))
            &&& x.over(y).value() >= 0
            &&& -(e + 0x80_0000 * y.value()) <= 0x100_0000 * (x.over(y).value() * y.value() - e)
                <= e + 0x80_0000 * y.value()
        }),
{
    let p = pow2(149);
    let u = rounding::units(x.mag() as nat);
    let v = rounding::units(y.mag() as nat);
    lemma_pow2_pos(149);
    lemma_zero();
    lemma_value_by_rank(num(0), x);
    lemma_value_by_rank(num(0), y);
    assert(x.value() == u && y.value() == v);
    law_ratio_is_finite(u * p, v);
    law_ratio_error(u * p, v);
    lemma_round_bounded(u * p, v);
    if u == 0 {
        assert(u * p == 0) by (nonlinear_arith)
            requires
                u == 0,
        ;
        law_round_zero(v);
    }
    reveal(F32::spec_over);
    let r = x.over(y);
    assert(r.mag() == rounding::round_mag(u * p, v));
    assert(!x.is_negative() || u == 0);
    assert(r.rank() >= 0);
    lemma_value_by_rank(num(0), r);
    assert(r.value() == rounding::units(r.mag() as nat));
}

/// Only a zero has the value zero, and signs are those of values.
proof fn lemma_sign(x: F32)
    requires
        x.value() != 0,
    ensures
        x.is_negative() == (x.value() < 0),
        x.value() < 0 ==> -x.value() == rounding::units(x.mag() as nat),
        x.value() > 0 ==> x.value() == rounding::units(x.mag() as nat),
{
}

/// A sum that is a number is that number.
pub proof fn law_plus_exact(x: F32, y: F32, z: F32)
    requires
        x.is_finite(),
        y.is_finite(),
        z.is_finite(),
        z.value() != 0,
        z.value() == x.value() + y.value(),
    ensures
        x.plus(y) == z,
{
    reveal(F32::spec_plus);
    lemma_sign(z);
    rounding::lemma_round_mag_exact(z.mag() as nat);
}

/// A product that is a number is that number.
pub proof fn law_times_exact(x: F32, y: F32, z: F32)
    requires
        x.is_finite(),
        y.is_finite(),
        z.is_finite(),
        z.value() != 0,
        z.value() * pow2(149) == x.value() * y.value(),
    ensures
        x.times(y) == z,
{
    reveal(F32::spec_times);
    let a = rounding::units(x.mag() as nat);
    let b = rounding::units(y.mag() as nat);
    let c = rounding::units(z.mag() as nat);
    let p = pow2(149);
    lemma_pow2_pos(149);
    lemma_sign(z);
    assert(x.value() != 0 && y.value() != 0 && a * b == c * p && (z.value() < 0) == ((x.value() < 0)
        != (y.value() < 0))) by (nonlinear_arith)
        requires
            z.value() * p == x.value() * y.value(),
            z.value() != 0,
            p > 0,
            z.value() == c || z.value() == -(c as int),
            x.value() == a || x.value() == -(a as int),
            y.value() == b || y.value() == -(b as int),
            a >= 0,
            b >= 0,
            c >= 0,
    ;
    lemma_sign(x);
    lemma_sign(y);
    rounding::lemma_round_mag_scaled(c, 1, p);
    assert(1 * p == p);
    rounding::lemma_round_mag_exact(z.mag() as nat);
}

/// A quotient that is a number is that number.
pub proof fn law_over_exact(x: F32, y: F32, z: F32)
    requires
        x.is_finite(),
        y.is_finite(),
        z.is_finite(),
        y.value() != 0,
        z.value() != 0,
        z.value() * y.value() == x.value() * pow2(149),
    ensures
        x.over(y) == z,
{
    reveal(F32::spec_over);
    let a = rounding::units(x.mag() as nat);
    let b = rounding::units(y.mag() as nat);
    let c = rounding::units(z.mag() as nat);
    let p = pow2(149);
    lemma_pow2_pos(149);
    lemma_sign(z);
    lemma_sign(y);
    lemma_zero();
    assert(x.value() != 0 && a * p == c * b && (z.value() < 0) == ((x.value() < 0) != (y.value()
        < 0))) by (nonlinear_arith)
        requires
            z.value() * y.value() == x.value() * p,
            z.value() != 0,
            y.value() != 0,
            p > 0,
            z.value() == c || z.value() == -(c as int),
            x.value() == a || x.value() == -(a as int),
            y.value() == b || y.value() == -(b as int),
            a >= 0,
            b >= 0,
            c >= 0,
    ;
    lemma_sign(x);
    rounding::lemma_round_mag_scaled(c, 1, b);
    assert(1 * b == b);
    rounding::lemma_round_mag_exact(z.mag() as nat);
}

} // verus!
