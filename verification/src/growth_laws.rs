//! What holds of germs that grow or die.
use crate::cell::Cell;
use crate::constants::EIGHTH;
use crate::constants::FIFTH;
use crate::constants::INFINITY;
use crate::constants::ONE;
use crate::constants::ZERO;
use crate::break_laws;
use crate::disease;
use crate::disease::DiffusionPass;
use crate::disease::Rate;
use crate::germs::DiseaseInfo;
use crate::germs::DiseaseTable;
use crate::germs::RangeInfo;
use crate::heat_laws;
use crate::laws;
use crate::liquid_laws;
use crate::number::num;
use crate::number::F32;
use crate::number_laws;
use crate::pressure_laws;
use crate::pressure_laws::is_amount;
use crate::push_laws::alike_but;
use crate::room_laws;
use crate::rounding;
use crate::sim_data::Env;
use crate::sim_data::State;
use crate::sweep::Pass;
use vstd::arithmetic::power2::*;
use vstd::prelude::*;

verus! {

/// Whether the bounds of a range are amounts in order.
pub open spec fn is_range(r: RangeInfo) -> bool {
    &&& is_amount(r.min_viable)
    &&& is_amount(r.min_growth)
    &&& is_amount(r.max_growth)
    &&& is_amount(r.max_viable)
    &&& r.min_viable.lt(r.min_growth)
    &&& r.min_growth.le(r.max_growth)
    &&& r.max_growth.lt(r.max_viable)
}

/// Whether a half-life is an amount that is not too large for a number.
pub open spec fn is_half_life(h: F32) -> bool {
    is_amount(h) && h.value() <= pow2(270)
}

/// Whether `h` lies between the half-lives `h0` at `t0` and `h1` at `t1` as the temperature does:
/// up to one part in a million of the two together, and a unit.
pub open spec fn is_between(temp: F32, t0: F32, t1: F32, h0: F32, h1: F32, h: F32) -> bool {
    let a = temp.value() - t0.value();
    let b = t1.value() - temp.value();
    let span = a + b;
    let both = h0.value() + h1.value();
    let goal = h0.value() * b + h1.value() * a;
    let slack = (both + 0x10_0000 * 3) * span;
    &&& is_amount(h)
    &&& -slack <= 0x10_0000 * (h.value() * span - goal) <= slack
}

/// The steps of an interpolation keep to its goal.
proof fn lemma_interpolation(
    p: int,
    a: int,
    b: int,
    h0: int,
    h1: int,
    alpha: int,
    sigma: int,
    tau: int,
    rho: int,
    u: int,
    v: int,
    r: int,
)
    requires
        p >= 0x100_0000,
        a >= 0,
        b >= 0,
        a + b > 0,
        h0 >= 0,
        h1 >= 0,
        alpha >= 0,
        sigma > 0,
        0 <= tau <= p,
        rho >= 0,
        u >= 0,
        v >= 0,
        -a <= 0x100_0000 * (alpha - a) <= a,
        -(a + b) <= 0x100_0000 * (sigma - (a + b)) <= a + b,
        -(alpha * p + 0x80_0000 * sigma) <= 0x100_0000 * (tau * sigma - alpha * p) <= alpha * p
            + 0x80_0000 * sigma,
        -(p - tau) <= 0x100_0000 * (rho - (p - tau)) <= p - tau,
        -(rho * h0 + 0x80_0000 * p) <= 0x100_0000 * (u * p - rho * h0) <= rho * h0 + 0x80_0000 * p,
        -(tau * h1 + 0x80_0000 * p) <= 0x100_0000 * (v * p - tau * h1) <= tau * h1 + 0x80_0000 * p,
        -(u + v) <= 0x100_0000 * (r - (u + v)) <= u + v,
    ensures
        ({
            let span = a + b;
            let slack = (h0 + h1 + 0x10_0000 * 3) * span;
            -slack <= 0x10_0000 * (r * span - (h0 * b + h1 * a)) <= slack
        }),
{
    let span = a + b;
    // The part that the temperature has gone, times the span.
    let ts = tau * span;
    let tg = tau * sigma;
    let ap = a * p;
    let bp = b * p;
    let sp = span * p;
    let alp = alpha * p;
    assert(-ap <= 0x100_0000 * (alp - ap) <= ap) by (nonlinear_arith)
        requires
            alp == alpha * p,
            ap == a * p,
            p >= 0,
            -a <= 0x100_0000 * (alpha - a) <= a,
    ;
    assert(-ts <= 0x100_0000 * (tg - ts) <= ts) by (nonlinear_arith)
        requires
            ts == tau * span,
            tg == tau * sigma,
            tau >= 0,
            -span <= 0x100_0000 * (sigma - span) <= span,
    ;
    assert(0 <= ts <= sp && sp == ap + bp && 0 <= ap && 0 <= bp) by (nonlinear_arith)
        requires
            ts == tau * span,
            sp == span * p,
            ap == a * p,
            bp == b * p,
            span == a + b,
            0 <= tau <= p,
            a >= 0,
            b >= 0,
    ;
    // |ts - ap| is at most four parts in 2^24 of sp, and a span.
    assert(-(4 * sp + 0x100_0000 * span) <= 0x100_0000 * (ts - ap) <= 4 * sp + 0x100_0000 * span);
    let rs = rho * span;
    assert(-(sp - ts) <= 0x100_0000 * (rs - (sp - ts)) <= sp - ts) by (nonlinear_arith)
        requires
            rs == rho * span,
            sp == span * p,
            ts == tau * span,
            span > 0,
            -(p - tau) <= 0x100_0000 * (rho - (p - tau)) <= p - tau,
    ;
    assert(-(5 * sp + 0x100_0000 * span) <= 0x100_0000 * (rs - bp) <= 5 * sp + 0x100_0000 * span);
    // Both parts of the result, times the span.
    let us = u * p * span;
    let vs = v * p * span;
    let x0 = rs * h0;
    let x1 = ts * h1;
    assert(-(x0 + 0x80_0000 * sp) <= 0x100_0000 * (us - x0) <= x0 + 0x80_0000 * sp) by {
        lemma_scale(u * p, rho * h0, 0x80_0000 * p, span);
        assert((u * p) * span == us);
        assert((rho * h0) * span == x0) by (nonlinear_arith)
            requires
                x0 == rs * h0,
                rs == rho * span,
        ;
        assert((0x80_0000 * p) * span == 0x80_0000 * sp) by (nonlinear_arith)
            requires
                sp == span * p,
        ;
    }
    assert(-(x1 + 0x80_0000 * sp) <= 0x100_0000 * (vs - x1) <= x1 + 0x80_0000 * sp) by {
        lemma_scale(v * p, tau * h1, 0x80_0000 * p, span);
        assert((v * p) * span == vs);
        assert((tau * h1) * span == x1) by (nonlinear_arith)
            requires
                x1 == ts * h1,
                ts == tau * span,
        ;
        assert((0x80_0000 * p) * span == 0x80_0000 * sp) by (nonlinear_arith)
            requires
                sp == span * p,
        ;
    }
    let g0 = bp * h0;
    let g1 = ap * h1;
    let y0 = sp * h0;
    let y1 = sp * h1;
    let z0 = span * h0;
    let z1 = span * h1;
    assert(-(5 * y0 + 0x100_0000 * z0) <= 0x100_0000 * (x0 - g0) <= 5 * y0 + 0x100_0000 * z0)
        by (nonlinear_arith)
        requires
            x0 == rs * h0,
            g0 == bp * h0,
            y0 == sp * h0,
            z0 == span * h0,
            h0 >= 0,
            -(5 * sp + 0x100_0000 * span) <= 0x100_0000 * (rs - bp) <= 5 * sp + 0x100_0000 * span,
    ;
    assert(-(4 * y1 + 0x100_0000 * z1) <= 0x100_0000 * (x1 - g1) <= 4 * y1 + 0x100_0000 * z1)
        by (nonlinear_arith)
        requires
            x1 == ts * h1,
            g1 == ap * h1,
            y1 == sp * h1,
            z1 == span * h1,
            h1 >= 0,
            -(4 * sp + 0x100_0000 * span) <= 0x100_0000 * (ts - ap) <= 4 * sp + 0x100_0000 * span,
    ;
    assert(0 <= g0 <= y0 && 0 <= g1 <= y1 && 0 <= z0 && 0 <= z1 && 0x100_0000 * z0 <= y0
        && 0x100_0000 * z1 <= y1) by {
        assert(0x100_0000 * span <= sp) by (nonlinear_arith)
            requires
                sp == span * p,
                p >= 0x100_0000,
                span > 0,
        ;
        lemma_order(bp, sp, h0);
        lemma_order(ap, sp, h1);
        lemma_order(0x100_0000 * span, sp, h0);
        lemma_order(0x100_0000 * span, sp, h1);
        assert((0x100_0000 * span) * h0 == 0x100_0000 * z0) by (nonlinear_arith)
            requires
                z0 == span * h0,
        ;
        assert((0x100_0000 * span) * h1 == 0x100_0000 * z1) by (nonlinear_arith)
            requires
                z1 == span * h1,
        ;
        lemma_order(0, bp, h0);
        lemma_order(0, ap, h1);
        lemma_order(0, span, h0);
        lemma_order(0, span, h1);
    }
    let rr = r * p * span;
    assert(-(us + vs) <= 0x100_0000 * (rr - (us + vs)) <= us + vs && us >= 0 && vs >= 0) by {
        lemma_scale(r, u + v, 0, p * span);
        lemma_order(0, u, p * span);
        lemma_order(0, v, p * span);
        assert(p * span > 0) by (nonlinear_arith)
            requires
                p > 0,
                span > 0,
        ;
        assert(r * (p * span) == rr) by (nonlinear_arith)
            requires
                rr == r * p * span,
        ;
        assert((u + v) * (p * span) == us + vs && u * (p * span) == us && v * (p * span) == vs)
            by (nonlinear_arith)
            requires
                us == u * p * span,
                vs == v * p * span,
        ;
        assert(0 * (p * span) == 0);
    }
    lemma_errors(rr, us, x0, g0, y0, z0, vs, x1, g1, y1, z1, sp);
    // Without the common factor.
    let want = h0 * b + h1 * a;
    let rspan = r * span;
    let zs = (h0 + h1) * span;
    assert(rr == rspan * p) by (nonlinear_arith)
        requires
            rr == r * p * span,
            rspan == r * span,
    ;
    assert(g0 == (h0 * b) * p) by (nonlinear_arith)
        requires
            g0 == bp * h0,
            bp == b * p,
    ;
    assert(g1 == (h1 * a) * p) by (nonlinear_arith)
        requires
            g1 == ap * h1,
            ap == a * p,
    ;
    let (wa, wb) = (h0 * b, h1 * a);
    assert((rspan - (wa + wb)) * p == rspan * p - wa * p - wb * p) by (nonlinear_arith);
    assert(y0 + y1 == (h0 + h1) * sp) by (nonlinear_arith)
        requires
            y0 == sp * h0,
            y1 == sp * h1,
    ;
    assert((h0 + h1) * sp == zs * p) by (nonlinear_arith)
        requires
            sp == span * p,
            zs == (h0 + h1) * span,
    ;
    lemma_cancel(rspan - want, (h0 + h1) * span, span, p);
    let slack = (h0 + h1 + 0x10_0000 * 3) * span;
    assert(slack == zs + 0x30_0000 * span) by (nonlinear_arith)
        requires
            slack == (h0 + h1 + 0x10_0000 * 3) * span,
            zs == (h0 + h1) * span,
    ;
    let off = rspan - want;
    assert(-(12 * zs + 0x200_0000 * span) <= 0x100_0000 * off <= 12 * zs + 0x200_0000 * span);
    assert((h0 + h1) * span >= 0) by (nonlinear_arith)
        requires
            h0 >= 0,
            h1 >= 0,
            span > 0,
    ;
    assert(-slack <= 0x10_0000 * off <= slack);
    assert(off == r * span - (h0 * b + h1 * a));
}

proof fn lemma_errors(
    rr: int,
    us: int,
    x0: int,
    g0: int,
    y0: int,
    z0: int,
    vs: int,
    x1: int,
    g1: int,
    y1: int,
    z1: int,
    sp: int,
)
    requires
        0 <= g0 <= y0,
        0 <= g1 <= y1,
        0x100_0000 * z0 <= y0,
        0x100_0000 * z1 <= y1,
        0 <= sp,
        -(5 * y0 + 0x100_0000 * z0) <= 0x100_0000 * (x0 - g0) <= 5 * y0 + 0x100_0000 * z0,
        -(4 * y1 + 0x100_0000 * z1) <= 0x100_0000 * (x1 - g1) <= 4 * y1 + 0x100_0000 * z1,
        -(x0 + 0x80_0000 * sp) <= 0x100_0000 * (us - x0) <= x0 + 0x80_0000 * sp,
        -(x1 + 0x80_0000 * sp) <= 0x100_0000 * (vs - x1) <= x1 + 0x80_0000 * sp,
        -(us + vs) <= 0x100_0000 * (rr - (us + vs)) <= us + vs,
    ensures
        -(12 * (y0 + y1) + 0x200_0000 * sp) <= 0x100_0000 * (rr - (g0 + g1)) <= 12 * (y0 + y1)
            + 0x200_0000 * sp,
{
    let y = y0 + y1;
    let x = x0 + x1;
    let g = g0 + g1;
    let w = us + vs;
    assert(-(6 * y) <= 0x100_0000 * (x - g) <= 6 * y);
    assert(x <= 2 * y);
    assert(-(2 * y + 0x100_0000 * sp) <= 0x100_0000 * (w - x) <= 2 * y + 0x100_0000 * sp);
    assert(w <= 3 * y + 2 * sp);
    assert(-(3 * y + 2 * sp) <= 0x100_0000 * (rr - w) <= 3 * y + 2 * sp);
}

proof fn lemma_scale(x: int, y: int, e: int, k: int)
    requires
        -(y + e) <= 0x100_0000 * (x - y) <= y + e,
        k >= 0,
    ensures
        -(y * k + e * k) <= 0x100_0000 * (x * k - y * k) <= y * k + e * k,
{
    let d = x - y;
    let f = y + e;
    assert(-(f * k) <= 0x100_0000 * (d * k) <= f * k) by (nonlinear_arith)
        requires
            -f <= 0x100_0000 * d <= f,
            k >= 0,
    ;
    assert(d * k == x * k - y * k && f * k == y * k + e * k) by (nonlinear_arith)
        requires
            d == x - y,
            f == y + e,
    ;
}

proof fn lemma_order(x: int, y: int, k: int)
    requires
        x <= y,
        k >= 0,
    ensures
        x * k <= y * k,
{
    assert(x * k <= y * k) by (nonlinear_arith)
        requires
            x <= y,
            k >= 0,
    ;
}

proof fn lemma_cancel(x: int, y: int, z: int, p: int)
    requires
        p > 0,
        -(12 * (y * p) + 0x200_0000 * (z * p)) <= 0x100_0000 * (x * p) <= 12 * (y * p)
            + 0x200_0000 * (z * p),
    ensures
        -(12 * y + 0x200_0000 * z) <= 0x100_0000 * x <= 12 * y + 0x200_0000 * z,
{
    let e = 12 * y + 0x200_0000 * z;
    assert(e * p == 12 * (y * p) + 0x200_0000 * (z * p)) by (nonlinear_arith)
        requires
            e == 12 * y + 0x200_0000 * z,
    ;
    assert(-(e * p) <= (0x100_0000 * x) * p <= e * p) by (nonlinear_arith)
        requires
            -(e * p) <= 0x100_0000 * (x * p) <= e * p,
    ;
    let w = 0x100_0000 * x;
    assert(w <= e) by (nonlinear_arith)
        requires
            w * p <= e * p,
            p > 0,
    ;
    assert(-e <= w) by (nonlinear_arith)
        requires
            -(e * p) <= w * p,
            p > 0,
    ;
}

/// A temperature between two bounds, and the half-life that is interpolated there.
proof fn lemma_interpolated(temp: F32, t0: F32, t1: F32, h0: F32, h1: F32)
    requires
        is_amount(temp),
        is_amount(t0),
        is_amount(t1),
        t0.le(temp),
        temp.le(t1),
        t0.lt(t1),
        is_half_life(h0),
        is_half_life(h1),
    ensures
        ({
            let span = t1.minus(t0);
            let t = temp.minus(t0).over(span);
            let h = num(ONE).minus(t).times(h0).plus(t.times(h1));
            &&& num(ZERO).lt(span)
            &&& is_between(temp, t0, t1, h0, h1, h)
            &&& temp == t1 ==> h.same(h1)
        }),
{
    let span = t1.minus(t0);
    let part = temp.minus(t0);
    laws::lemma_zero_value();
    laws::lemma_neg_is_opposite(t0);
    number_laws::law_order_is_by_value(t0, temp);
    number_laws::law_order_is_by_value(temp, t1);
    number_laws::law_order_is_by_value(t0, t1);
    laws::lemma_rest(t1, t0);
    laws::lemma_rest(temp, t0);
    number_laws::law_sum_is_near(t1, t0.neg());
    number_laws::law_sum_is_near(temp, t0.neg());
    number_laws::law_order_is_by_value(num(ZERO), span);
    number_laws::law_sum_is_rounded(t1, t0.neg());
    number_laws::law_sum_is_rounded(temp, t0.neg());
    number_laws::law_rounded_monotone(temp.value() - t0.value(), t1.value() - t0.value());
    assert(part.le(span));
    let t = part.over(span);
    number_laws::law_ratio_of_part(part, span);
    liquid_laws::lemma_amount_value(part);
    let p = pow2(149);
    lemma_pow2_pos(149);
    number_laws::lemma_one();
    lemma_bounds();
    assert(part.value() * p <= span.value() * pow2(276)) by {
        number_laws::law_order_is_by_value(part, span);
        assert(part.value() * p <= span.value() * pow2(276)) by (nonlinear_arith)
            requires
                0 <= part.value() <= span.value(),
                0 <= p <= pow2(276),
        ;
    }
    number_laws::law_quotient_is_near(part, span);
    number_laws::law_order_is_by_value(t, num(ONE));
    let left = num(ONE).minus(t);
    laws::lemma_neg_is_opposite(t);
    laws::lemma_rest(num(ONE), t);
    number_laws::law_sum_is_near(num(ONE), t.neg());
    number_laws::law_minus_makes_no_larger(num(ONE), t);
    number_laws::law_order_is_by_value(left, num(ONE));
    liquid_laws::lemma_amount_value(left);
    liquid_laws::lemma_amount_value(h0);
    liquid_laws::lemma_amount_value(h1);
    lemma_part_product(left, h0);
    lemma_part_product(t, h1);
    let u = left.times(h0);
    let v = t.times(h1);
    number_laws::law_ratio_is_finite((u.value() + v.value()) as nat, 1);
    number_laws::law_sum_is_rounded(u, v);
    number_laws::law_sum_is_near(u, v);
    let h = u.plus(v);
    liquid_laws::lemma_amount(h);
    lemma_interpolation(
        p as int,
        temp.value() - t0.value(),
        t1.value() - temp.value(),
        h0.value(),
        h1.value(),
        part.value(),
        span.value(),
        t.value(),
        left.value(),
        u.value(),
        v.value(),
        h.value(),
    );
    if temp == t1 {
        assert(p * span.value() == span.value() * p) by (nonlinear_arith);
        number_laws::law_over_exact(part, span, num(ONE));
        number_laws::law_minus_self(num(ONE));
        number_laws::law_times_one(h1);
        laws::lemma_product_sign(num(ZERO), h0);
        lemma_nothing_and(u, h1);
    }
}

proof fn lemma_bounds()
    ensures
        pow2(149) <= pow2(276),
        pow2(149) >= 0x100_0000,
        pow2(276) == 64 * pow2(270),
        pow2(270) > 0,
{
    lemma2_to64();
    lemma_pow2_pos(270);
    lemma_pow2_strictly_increases(149, 276);
    lemma_pow2_strictly_increases(24, 149);
    lemma_pow2_adds(6, 270);
}

/// A part of a half-life is near to the exact one, and not too large.
proof fn lemma_part_product(f: F32, h: F32)
    requires
        is_amount(f),
        f.le(num(ONE)),
        is_half_life(h),
    ensures
        ({
            let e = f.value() * h.value();
            let p = pow2(149);
            let r = f.times(h);
            &&& is_amount(r)
            &&& 0 <= r.value() <= pow2(270)
            &&& -(e + 0x80_0000 * p) <= 0x100_0000 * (r.value() * p - e) <= e + 0x80_0000 * p
        }),
{
    lemma_bounds();
    number_laws::lemma_one();
    liquid_laws::lemma_amount_value(f);
    liquid_laws::lemma_amount_value(h);
    number_laws::law_order_is_by_value(f, num(ONE));
    let (a, b, p) = (f.value(), h.value(), pow2(149) as int);
    assert(a * b <= p * pow2(276)) by (nonlinear_arith)
        requires
            0 <= a <= p,
            0 <= b <= pow2(270),
            pow2(276) == 64 * pow2(270),
    ;
    number_laws::law_product_is_near(f, h);
    number_laws::law_times_commutes(f, h);
    number_laws::law_part_of_whole(h, f);
    number_laws::law_order_is_by_value(f.times(h), h);
}

/// Nothing and a number are that number.
proof fn lemma_nothing_and(z: F32, x: F32)
    requires
        z.is_finite(),
        z.rank() == 0,
        x.is_finite(),
    ensures
        z.plus(x).same(x),
{
    laws::lemma_zero_value();
    number_laws::law_order_is_by_value(z, num(ZERO));
    number_laws::law_order_is_by_value(num(ZERO), z);
    number_laws::law_sum_is_rounded(z, x);
    number_laws::law_rounded_exact(x);
}

/// Where it is too cold to grow but not too cold to live, the half-life goes from that at the
/// least viable temperature to that at the least temperature for growth; where it is too hot to
/// grow but not too hot to live, from that at the most for growth to that at the most that is
/// viable. It is infinite only in the range of growth, or where one of the two is.
pub proof fn law_half_life_is_interpolated(temp: F32, range: RangeInfo, half_lives: RangeInfo)
    requires
        is_range(range),
        is_amount(temp),
        is_half_life(half_lives.min_viable),
        is_half_life(half_lives.min_growth),
        is_half_life(half_lives.max_growth),
        is_half_life(half_lives.max_viable),
    ensures
        ({
            let h = disease::half_life_at(temp, range, half_lives);
            &&& range.min_viable.lt(temp) && temp.le(range.min_growth) ==> is_between(
                temp,
                range.min_viable,
                range.min_growth,
                half_lives.min_viable,
                half_lives.min_growth,
                h,
            )
            &&& range.max_growth.lt(temp) && temp.le(range.max_viable) ==> is_between(
                temp,
                range.max_growth,
                range.max_viable,
                half_lives.max_growth,
                half_lives.max_viable,
                h,
            )
            &&& temp == range.min_growth ==> h.same(half_lives.min_growth)
            &&& temp == range.max_viable ==> h.same(half_lives.max_viable)
            &&& temp.le(range.min_viable) ==> h.same(half_lives.min_viable)
            &&& range.max_viable.lt(temp) ==> h.same(half_lives.max_viable)
            &&& h.same(num(INFINITY)) <==> range.min_growth.lt(temp) && temp.le(range.max_growth)
        }),
{
    reveal_with_fuel(RangeInfo::upper, 4);
    if range.min_viable.lt(temp) && temp.le(range.min_growth) {
        lemma_interpolated(
            temp,
            range.min_viable,
            range.min_growth,
            half_lives.min_viable,
            half_lives.min_growth,
        );
    } else if range.max_growth.lt(temp) && temp.le(range.max_viable) {
        lemma_interpolated(
            temp,
            range.max_growth,
            range.max_viable,
            half_lives.max_growth,
            half_lives.max_viable,
        );
    } else if temp.le(range.min_viable) {
        lemma_outside(range.min_viable, half_lives.min_viable);
    } else if range.max_viable.lt(temp) {
        lemma_outside(range.max_viable, half_lives.max_viable);
    }
}

/// At and beyond the outer bounds the half-life is theirs.
proof fn lemma_outside(t: F32, h: F32)
    requires
        is_amount(t),
        is_amount(h),
    ensures
        !num(ZERO).lt(t.minus(t)),
        num(ONE).minus(num(ZERO)).times(h).plus(num(ZERO).times(h)).same(h),
{
    number_laws::law_minus_self(t);
    laws::lemma_zero_value();
    break_laws::lemma_one_less_nothing();
    number_laws::law_times_one(h);
    laws::lemma_product_sign(num(ZERO), h);
    let z = num(ZERO).times(h);
    number_laws::law_plus_commutes(h, z);
    lemma_nothing_and(z, h);
}

/// Where a bound of the range that a temperature is in has an infinite half-life, so has the
/// temperature.
pub proof fn law_infinite_half_life_spreads(temp: F32, range: RangeInfo, half_lives: RangeInfo)
    requires
        is_range(range),
        is_amount(temp),
    ensures
        ({
            let h = disease::half_life_at(temp, range, half_lives);
            &&& range.max_growth.lt(temp) && temp.le(range.max_viable) && (
            half_lives.max_growth.same(num(INFINITY)) || half_lives.max_viable.same(num(INFINITY)))
                ==> h == num(INFINITY)
            &&& range.min_viable.lt(temp) && temp.le(range.min_growth) && (
            half_lives.min_viable.same(num(INFINITY)) || half_lives.min_growth.same(num(INFINITY)))
                ==> h == num(INFINITY)
        }),
{
    reveal_with_fuel(RangeInfo::upper, 4);
}

/// The factor that belongs to a half-life: none are left where it is zero and all where it is
/// infinite; else it is two to the power of minus the time in half-lives, so that half of them are
/// left after one.
pub proof fn law_factor_of_a_half_life(h: F32, dt: F32)
    requires
        num(ZERO).le(h),
        is_amount(dt),
        num(ZERO).lt(dt),
    ensures
        ({
            let r = disease::half_life_to_growth_rate(h, dt);
            &&& h.rank() == 0 ==> r == Rate::Fixed(num(ZERO))
            &&& h.same(num(INFINITY)) ==> r == Rate::Fixed(num(ONE))
            &&& h.rank() != 0 && h.is_finite() ==> (r matches Rate::Power(e) && {
                &&& e.neg() == dt.over(h)
                &&& e.rank() <= 0
                &&& h == dt ==> e == num(ONE).neg()
            })
        }),
{
    laws::lemma_zero_value();
    if h.rank() != 0 && h.is_finite() {
        let e = dt.neg().over(h);
        assert(dt.neg().mag() == dt.mag());
        number_laws::law_order_is_by_value(num(ZERO), h);
        number_laws::law_order_is_by_value(num(ZERO), dt);
        assert(e.neg() == dt.over(h) && e.neg().neg() == e && e.rank() <= 0) by {
            reveal(F32::spec_over);
            let n = rounding::units(dt.mag() as nat) * pow2(149);
            let d = rounding::units(h.mag() as nat);
            assert(rounding::round_mag(n, d) <= rounding::INFINITE);
        }
        if h == dt {
            number_laws::lemma_one();
            lemma_pow2_pos(149);
            assert(pow2(149) * dt.value() == dt.value() * pow2(149)) by (nonlinear_arith);
            number_laws::law_over_exact(dt, dt, num(ONE));
        }
    }
}

/// Whether the germs of a cell are known, with their numbers for its element.
pub open spec fn is_known(env: Env, c: Cell, d: DiseaseInfo) -> bool {
    let e = c.element_idx as int;
    let g = d.elem_growth_info;
    &&& env.diseases matches Some(t) && c.disease_idx < t.diseases@.len()
        && t.diseases@[c.disease_idx as int] == d
    &&& c.disease_idx != 0xff
    &&& e < g.min_count_per_kg@.len()
    &&& e < g.max_count_per_kg@.len()
    &&& e < g.under_population_death_rate@.len()
    &&& e < g.population_half_life@.len()
    &&& e < g.over_population_half_life@.len()
}

/// What the population does to itself in a step: too few germs for the mass lose a fifth of their
/// death rate; too many lose by the half-life of too many; others by their own.
pub open spec fn own_growth(c: Cell, d: DiseaseInfo, p: disease::Powers) -> F32 {
    let e = c.element_idx as int;
    let g = d.elem_growth_info;
    let count = F32::from_i32(c.disease_count);
    let part = |h: F32, power: F32|
        if h.rank() == 0 && !h.is_nan() {
            num(ZERO)
        } else if h.same(num(INFINITY)) {
            num(ONE)
        } else {
            power
        };
    if count.lt(g.min_count_per_kg@[e].times(c.mass)) {
        g.under_population_death_rate@[e].neg().times(num(FIFTH))
    } else if g.max_count_per_kg@[e].times(c.mass).lt(count) {
        part(g.over_population_half_life@[e], p.over).minus(num(ONE)).times(count)
    } else {
        part(g.population_half_life@[e], p.normal).minus(num(ONE)).times(count)
    }
}

/// Germs at a temperature at which they thrive, with nothing carried over, change by what the
/// population does to itself, less what radiation kills; whole germs count, and the rest is carried
/// over. Nothing else in the cell changes.
pub proof fn law_population_grows(env: Env, c: Cell, d: DiseaseInfo, p: disease::Powers)
    requires
        is_known(env, c, d),
        is_range(d.temperature_range),
        d.temperature_range.min_growth.lt(c.temperature),
        c.temperature.le(d.temperature_range.max_growth),
        c.disease_growth_accumulated_error == num(ZERO),
        c.disease_count > 0,
        own_growth(c, d, p).is_finite(),
        env.radiation_enabled ==> num(ZERO).plus(own_growth(c, d, p)).minus(
            c.radiation.times(d.radiation_kill_rate),
        ).is_finite(),
    ensures
        ({
            let own = num(ZERO).plus(own_growth(c, d, p));
            let f = if env.radiation_enabled {
                own.minus(c.radiation.times(d.radiation_kill_rate))
            } else {
                own
            };
            let now = disease::grown(env, c, p);
            &&& now.disease_count == c.disease_count.wrapping_add(f.trunc().to_i32())
            &&& now.disease_growth_accumulated_error == f.minus(f.trunc())
            &&& now == (Cell {
                disease_count: now.disease_count,
                disease_growth_accumulated_error: now.disease_growth_accumulated_error,
                ..c
            })
        }),
{
    let n = F32::from_i32(c.disease_count);
    laws::law_thriving_germs(c.temperature, d.temperature_range, d.temperature_half_lives);
    laws::lemma_positive_integer(c.disease_count);
    laws::lemma_zero_value();
    number_laws::law_times_one(n);
    number_laws::law_plus_zero(n);
    number_laws::law_minus_self(n);
    assert(disease::thriving(env, c) == Some(d));
    let own = num(ZERO).plus(own_growth(c, d, p));
    assert(own.is_finite()) by {
        number_laws::law_plus_zero(own_growth(c, d, p));
    }
    assert(n.times(num(ONE)).plus(num(ZERO)).minus(n) == num(ZERO));
}

/// Germs whose number suits them, with nothing carried over and no radiation, change by the half-
/// life of their temperature: their number times the power, less their number.
pub proof fn law_temperature_kills(env: Env, c: Cell, d: DiseaseInfo, p: disease::Powers)
    requires
        is_known(env, c, d),
        !env.radiation_enabled,
        c.disease_growth_accumulated_error == num(ZERO),
        c.disease_count > 0,
        ({
            let e = c.element_idx as int;
            let g = d.elem_growth_info;
            let count = F32::from_i32(c.disease_count);
            &&& !count.lt(g.min_count_per_kg@[e].times(c.mass))
            &&& !g.max_count_per_kg@[e].times(c.mass).lt(count)
            &&& g.population_half_life@[e].same(num(INFINITY))
        }),
        is_amount(p.warm),
        p.warm.le(num(ONE)),
        disease::half_life_at(
            c.temperature,
            d.temperature_range,
            d.temperature_half_lives,
        ).is_finite(),
        disease::half_life_at(c.temperature, d.temperature_range, d.temperature_half_lives).rank()
            != 0,
    ensures
        ({
            let count = F32::from_i32(c.disease_count);
            let left = count.times(p.warm);
            let f = left.minus(count);
            let now = disease::grown(env, c, p);
            &&& f.le(num(ZERO))
            &&& now.disease_count == c.disease_count.wrapping_add(f.trunc().to_i32())
        }),
{
    let n = F32::from_i32(c.disease_count);
    laws::lemma_positive_integer(c.disease_count);
    laws::lemma_zero_value();
    number_laws::law_part_of_whole(n, p.warm);
    let left = n.times(p.warm);
    number_laws::law_minus_self(num(ONE));
    number_laws::law_plus_zero(left);
    assert(disease::thriving(env, c) == Some(d));
    let a = left.plus(num(ZERO));
    laws::lemma_product_sign(num(ZERO), n);
    let z = num(ZERO).times(n);
    let f = left.minus(n);
    let g = a.minus(n).plus(z);
    laws::lemma_neg_is_opposite(n);
    number_laws::law_order_is_by_value(left, n);
    number_laws::law_sum_is_rounded(left, n.neg());
    number_laws::law_sum_is_rounded(a, n.neg());
    pressure_laws::lemma_same_value(a, left);
    pressure_laws::lemma_same_value(z, num(ZERO));
    number_laws::law_rounded_exact(num(ZERO));
    number_laws::law_rounded_monotone(left.value() - n.value(), 0);
    number_laws::law_rounded_exact(n.neg());
    number_laws::law_order_is_by_value(num(ZERO), left);
    number_laws::law_rounded_monotone(-n.value(), left.value() - n.value());
    assert(f.is_finite());
    assert(a.minus(n).same(f));
    pressure_laws::lemma_same_value(a.minus(n), f);
    number_laws::law_sum_is_rounded(a.minus(n), z);
    number_laws::law_rounded_exact(f);
    assert(g.same(f));
    lemma_same_integer(g, f);
}

/// Numbers in the same place have the same integer part.
proof fn lemma_same_integer(x: F32, y: F32)
    requires
        x.same(y),
        x.is_finite(),
        y.is_finite(),
        y.rank() <= 0,
    ensures
        x.trunc().to_i32() == y.trunc().to_i32(),
{
    if y.rank() != 0 {
        assert(x == y);
    } else {
        laws::lemma_whole_zero(x);
        laws::lemma_whole_zero(y);
        number_laws::law_round_zero(1);
        assert(0 * pow2(149) == 0);
        reveal(F32::spec_trunc);
        reveal(F32::to_range);
        laws::lemma_whole_zero(x.trunc());
        laws::lemma_whole_zero(y.trunc());
    }
}

/// Germs that are not in the table, or without numbers for the element that they are in, stay as
/// they are.
pub proof fn law_unknown_germs_stay(env: Env, c: Cell, p: disease::Powers)
    requires
        match env.diseases {
            Some(t) => c.disease_idx == 0xff || c.disease_idx >= t.diseases@.len()
                || c.element_idx
                >= t.diseases@[c.disease_idx as int].elem_growth_info.min_count_per_kg@.len(),
            None => true,
        },
    ensures
        disease::grown(env, c, p) == c,
{
}

/// What spreads between cells with germs and cells without, or with another kind: germs flow from
/// the cell that has them into a clean one, and of two kinds that of the greater number times
/// strength flows into the other cell; an eighth of them times how readily they spread.
pub proof fn law_germs_flow(table: DiseaseTable, a: Cell, b: Cell)
    ensures
        ({
            let r = disease::germ_flow(table, a, b);
            let n = table.diseases@.len();
            let go = |c: Cell|
                disease::diffusion_scale(table, c).times(F32::from_i32(c.disease_count)).times(
                    num(EIGHTH),
                ).to_i32();
            let force = |c: Cell|
                F32::from_i32(c.disease_count).times(
                    table.diseases@[c.disease_idx as int].strength,
                );
            &&& a.disease_idx == 0xff && b.disease_idx == 0xff ==> r is None
            &&& a.disease_idx == 0xff && b.disease_idx != 0xff ==> r == Some(
                (b.disease_idx, go(b)),
            )
            &&& a.disease_idx != 0xff && b.disease_idx == 0xff ==> r == Some(
                (a.disease_idx, 0i32.wrapping_sub(go(a))),
            )
            &&& a.disease_idx != 0xff && b.disease_idx != 0xff && a.disease_idx != b.disease_idx
                && a.disease_idx < n && b.disease_idx < n ==> r == if force(b).lt(force(a)) {
                Some((a.disease_idx, 0i32.wrapping_sub(go(a))))
            } else {
                Some((b.disease_idx, go(b)))
            }
        }),
{
}

/// Germs spread readily only once there are enough of them, and they have been there long enough.
pub proof fn law_readiness(table: DiseaseTable, c: Cell)
    requires
        c.disease_idx < table.diseases@.len(),
        ({
            let e = c.element_idx as int;
            let g = table.diseases@[c.disease_idx as int].elem_growth_info;
            &&& e < g.min_diffusion_count@.len()
            &&& e < g.min_diffusion_infestation_tick_count@.len()
            &&& e < g.diffusion_scale@.len()
        }),
    ensures
        ({
            let e = c.element_idx as int;
            let g = table.diseases@[c.disease_idx as int].elem_growth_info;
            let enough = c.disease_count >= g.min_diffusion_count@[e];
            let old = c.disease_infestation_tick_count
                >= g.min_diffusion_infestation_tick_count@[e];
            let f = disease::diffusion_scale(table, c);
            &&& enough && old ==> f == g.diffusion_scale@[e]
            &&& !enough || !old ==> f == num(ZERO)
        }),
{
}

/// Two cells exchange germs only where both are of the same phase, in the table; what one cell
/// gains the other loses, by the rules by which germs meet.
pub proof fn law_who_exchanges_germs(env: Env, s: State, a: int, b: int)
    requires
        0 <= a < s.cells.len(),
        0 <= b < s.cells.len(),
        s.cells.len() == s.updated.len(),
        a != b,
    ensures
        ({
            let t = disease::spread_between(env, s, a, b);
            let (x, y) = (s.cells[a], s.cells[b]);
            let p = room_laws::post_phase_of(env, x.element_idx);
            let q = room_laws::post_phase_of(env, y.element_idx);
            &&& env.diseases is None || p == -1 || p != q ==> t == s
            &&& env.diseases is Some && p != -1 && p == q ==> match disease::germ_flow(
                env.diseases->0,
                x,
                y,
            ) {
                Some((kind, n)) => n != 0 && n != i32::MIN ==> {
                    &&& heat_laws::has_germs_from(
                        env.diseases,
                        s.updated[a],
                        t.updated[a],
                        kind,
                        n,
                    )
                    &&& heat_laws::has_germs_from(
                        env.diseases,
                        s.updated[b],
                        t.updated[b],
                        kind,
                        (-n) as i32,
                    )
                    &&& alike_but(s, t, set![a, b])
                },
                None => t == s,
            }
        }),
{
    let (x, y) = (s.cells[a], s.cells[b]);
    room_laws::lemma_post_bits(env, x.element_idx);
    room_laws::lemma_post_bits(env, y.element_idx);
    if env.diseases is Some {
        if let Some((kind, n)) = disease::germ_flow(env.diseases->0, x, y) {
            heat_laws::law_germs_meet(s.updated[a], env.diseases, kind, n);
            heat_laws::law_germs_meet(
                s.updated[b],
                env.diseases,
                kind,
                0i32.wrapping_sub(n),
            );
        }
    }
}

/// Each cell exchanges germs with the one to its right and the one above it, where one of the two
/// has any.
pub proof fn law_germs_spread_right_and_up(env: Env, s: State, y: int, x: int)
    requires
        0 <= y * env.width + x < s.cells.len(),
    ensures
        ({
            let i = y * env.width + x;
            let t = DiffusionPass.effect(env, s, y, x);
            let some = |k: int|
                0 <= k < s.cells.len() && (s.cells[i].disease_idx != 0xff
                    || s.cells[k].disease_idx != 0xff);
            let right = if some(i + 1) {
                disease::spread_between(env, s, i, i + 1)
            } else {
                s
            };
            &&& some(i + env.width) ==> t == disease::spread_between(env, right, i, i + env.width)
            &&& !some(i + env.width) ==> t == right
        }),
{
}

} // verus!
