//! What holds of the radiation in a rectangle once its turn is over.
use crate::break_laws;
use crate::cell::Cell;
use crate::constants::CENTI;
use crate::constants::HALF;
use crate::constants::MAX_RADIATION;
use crate::constants::MILLI;
use crate::constants::ONE;
use crate::constants::QUARTER;
use crate::constants::TENTH;
use crate::constants::THREE_QUARTERS;
use crate::constants::THREE_TWENTIETHS;
use crate::constants::ZERO;
use crate::laws;
use crate::liquid_laws;
use crate::number::num;
use crate::number::F32;
use crate::number_laws;
use crate::pressure_laws;
use crate::pressure_laws::is_amount;
use crate::radiation;
use crate::radiation::FadePass;
use crate::rounding;
use crate::sim_data::Env;
use crate::sim_data::RegionBounds;
use crate::sim_data::State;
use crate::sweep;
use vstd::arithmetic::power2::*;
use vstd::prelude::*;

verus! {

/// Whether radiation is within its limits: nothing, or more than a hundredth and at most the most.
pub open spec fn is_limited(r: F32) -> bool {
    r == num(ZERO) || (num(CENTI).lt(r) && r.le(num(MAX_RADIATION)))
}

/// Whether a place is in a rectangle.
pub open spec fn is_inside(b: RegionBounds, y: int, x: int) -> bool {
    b.min_x <= x < b.max_x && b.min_y <= y < b.max_y
}

/// Whether the element in a cell gives off radiation.
pub open spec fn gives_off(env: Env, c: Cell) -> bool {
    env.elements.spec_radiation(c.element_idx) matches Some(d) && num(ZERO).lt(d.rads_per_1000)
}

/// Whether the turn of the cell in row `v` and column `u` may change the radiation in row `y` and
/// column `x`: it is that cell, or it gives off radiation and is near.
pub open spec fn touches(env: Env, s: State, v: int, u: int, y: int, x: int) -> bool {
    ||| v == y && u == x
    ||| gives_off(env, s.updated[v * env.width + u]) && -2 <= y - v <= 2 && -2 <= x - u <= 2
}

/// Places with the same index are the same.
proof fn lemma_same_place(w: int, y: int, x: int, v: int, u: int)
    requires
        0 <= x < w,
        0 <= u < w,
        y * w + x == v * w + u,
    ensures
        y == v,
        x == u,
{
    assert(y == v) by (nonlinear_arith)
        requires
            0 <= x < w,
            0 <= u < w,
            y * w + x == v * w + u,
    ;
}

/// Radiation reaches two cells far.
proof fn lemma_radiated_far(
    env: Env,
    s: State,
    b: RegionBounds,
    v: int,
    u: int,
    strength: F32,
    k: int,
    y: int,
    x: int,
)
    requires
        s.updated.len() == env.cell_count(),
        b.max_x < env.width,
        b.max_y < env.height,
        0 <= x < env.width,
        0 <= y < env.height,
        k <= 25,
        !(-2 <= y - v <= 2 && -2 <= x - u <= 2),
    ensures
        ({
            let t = radiation::radiated(env, s, b, v, u, strength, k);
            t.updated.len() == s.updated.len() && t.updated[y * env.width + x] == s.updated[y
                * env.width + x]
        }),
    decreases k,
{
    sweep::lemma_index(env, y, x);
    if k > 0 {
        lemma_radiated_far(env, s, b, v, u, strength, k - 1, y, x);
        let dx = (k - 1) % 5 - 2;
        let dy = (k - 1) / 5 - 2;
        if radiation::reaches(b, v + dy, u + dx) {
            sweep::lemma_index(env, v + dy, u + dx);
            if (v + dy) * env.width + u + dx == y * env.width + x {
                lemma_same_place(env.width as int, y, x, v + dy, u + dx);
            }
        }
    }
}

/// A turn changes only what it touches.
proof fn lemma_lit_elsewhere(
    env: Env,
    s: State,
    b: RegionBounds,
    cosmic: F32,
    v: int,
    u: int,
    y: int,
    x: int,
)
    requires
        s.updated.len() == env.cell_count(),
        b.max_x < env.width,
        b.max_y < env.height,
        is_inside(b, v, u),
        0 <= x < env.width,
        0 <= y < env.height,
        !touches(env, s, v, u, y, x),
    ensures
        radiation::lit(env, s, b, cosmic, v, u).updated[y * env.width + x] == s.updated[y
            * env.width + x],
{
    sweep::lemma_index(env, y, x);
    sweep::lemma_index(env, v, u);
    if y * env.width + x == v * env.width + u {
        lemma_same_place(env.width as int, y, x, v, u);
    }
    let c = s.updated[v * env.width + u];
    if gives_off(env, c) {
        let d = env.elements.spec_radiation(c.element_idx)->0;
        let strength = c.mass.times(num(MILLI)).times(d.rads_per_1000);
        lemma_radiated_far(env, s, b, v, u, strength, 25, y, x);
    }
}

/// A row changes only what it touches.
proof fn lemma_row_elsewhere(
    env: Env,
    s: State,
    b: RegionBounds,
    cosmic: F32,
    v: int,
    lo: int,
    hi: int,
    y: int,
    x: int,
)
    requires
        s.updated.len() == env.cell_count(),
        b.max_x < env.width,
        b.max_y < env.height,
        0 <= x < env.width,
        0 <= y < env.height,
        forall|u: int|
            lo <= u < hi && is_inside(b, v, u) ==> !#[trigger] touches(env, s, v, u, y, x),
    ensures
        sweep::row_by(radiation::lighting(env, b, cosmic), s, v, lo, hi).updated[y * env.width + x]
            == s.updated[y * env.width + x],
    decreases hi - lo,
{
    if hi > lo {
        lemma_row_elsewhere(env, s, b, cosmic, v, lo, hi - 1, y, x);
        let t = sweep::row_by(radiation::lighting(env, b, cosmic), s, v, lo, hi - 1);
        radiation::lemma_light_row(env, s, b, cosmic, v, lo, hi - 1);
        if is_inside(b, v, hi - 1) {
            sweep::lemma_index(env, v, hi - 1);
            lemma_same_kind(env, s, t, v * env.width + hi - 1);
            assert(!touches(env, s, v, hi - 1, y, x));
            lemma_lit_elsewhere(env, t, b, cosmic, v, hi - 1, y, x);
        }
    }
}

/// What differs in radiation alone gives off the same.
proof fn lemma_same_kind(env: Env, s: State, t: State, i: int)
    requires
        radiation::same_matter(s, t),
        0 <= i < s.updated.len(),
    ensures
        gives_off(env, s.updated[i]) == gives_off(env, t.updated[i]),
        s.updated[i].mass == t.updated[i].mass,
{
    let a = s.updated[i];
    let b = t.updated[i];
    assert((Cell { radiation: num(ZERO), ..a }) == (Cell { radiation: num(ZERO), ..b }));
}

/// Limits keep what is no number, and nothing else that is beyond them.
proof fn lemma_limits(r: F32)
    ensures
        radiation::limited(r).is_nan() || is_limited(radiation::limited(r)),
{
    if !r.is_nan() {
        laws::law_radiation_limits(r);
    }
}

/// After its own turn a cell is within limits.
proof fn lemma_row_limits(
    env: Env,
    s: State,
    b: RegionBounds,
    cosmic: F32,
    y: int,
    lo: int,
    hi: int,
    x: int,
)
    requires
        s.updated.len() == env.cell_count(),
        b.max_x < env.width,
        b.max_y < env.height,
        is_inside(b, y, x),
        lo <= x < hi,
        forall|u: int| x < u && is_inside(b, y, u) ==> !#[trigger] touches(env, s, y, u, y, x),
    ensures
        ({
            let t = sweep::row_by(radiation::lighting(env, b, cosmic), s, y, lo, hi);
            let r = t.updated[y * env.width + x].radiation;
            r.is_nan() || is_limited(r)
        }),
    decreases hi - lo,
{
    let t = sweep::row_by(radiation::lighting(env, b, cosmic), s, y, lo, hi - 1);
    radiation::lemma_light_row(env, s, b, cosmic, y, lo, hi - 1);
    sweep::lemma_index(env, y, x);
    if x == hi - 1 {
        radiation::lemma_gained(env, t, b, cosmic, y, x);
        lemma_limits(
            radiation::gained(env, t, b, cosmic, y, x).updated[y * env.width + x].radiation,
        );
    } else {
        lemma_row_limits(env, s, b, cosmic, y, lo, hi - 1, x);
        if is_inside(b, y, hi - 1) {
            sweep::lemma_index(env, y, hi - 1);
            lemma_same_kind(env, s, t, y * env.width + hi - 1);
            assert(!touches(env, s, y, hi - 1, y, x));
            lemma_lit_elsewhere(env, t, b, cosmic, y, hi - 1, y, x);
        }
    }
}

/// Whether no cell of a rectangle that has its turn after the cell in row `y` and column `x`, row
/// after row, radiates on it.
pub open spec fn is_spared(env: Env, s: State, b: RegionBounds, y: int, x: int) -> bool {
    forall|v: int, u: int|
        is_inside(b, v, u) && (v > y || (v == y && u > x)) ==> !#[trigger] touches(
            env,
            s,
            v,
            u,
            y,
            x,
        )
}

/// After its own row a cell that is spared is within limits.
proof fn lemma_rows_limits(
    env: Env,
    s: State,
    b: RegionBounds,
    cosmic: F32,
    y0: int,
    y1: int,
    y: int,
    x: int,
)
    requires
        s.updated.len() == env.cell_count(),
        b.max_x < env.width,
        b.max_y < env.height,
        is_inside(b, y, x),
        y0 <= y < y1,
        is_spared(env, s, b, y, x),
    ensures
        ({
            let f = radiation::lighting(env, b, cosmic);
            let t = sweep::rows_by(f, s, b.min_x as int, b.max_x as int, y0, y1);
            let r = t.updated[y * env.width + x].radiation;
            r.is_nan() || is_limited(r)
        }),
    decreases y1 - y0,
{
    let x0 = b.min_x as int;
    let x1 = b.max_x as int;
    let t = sweep::rows_by(radiation::lighting(env, b, cosmic), s, x0, x1, y0, y1 - 1);
    radiation::lemma_light_rows(env, s, b, cosmic, x0, x1, y0, y1 - 1);
    let v = y1 - 1;
    assert forall|u: int|
        is_inside(b, v, u) && (v > y || u > x) implies !#[trigger] touches(env, t, v, u, y, x) by {
        sweep::lemma_index(env, v, u);
        lemma_same_kind(env, s, t, v * env.width + u);
        assert(!touches(env, s, v, u, y, x));
    }
    if v == y {
        lemma_row_limits(env, t, b, cosmic, y, x0, x1, x);
    } else {
        lemma_rows_limits(env, s, b, cosmic, y0, y1 - 1, y, x);
        lemma_row_elsewhere(env, t, b, cosmic, v, x0, x1, y, x);
    }
}

/// Once a rectangle has had its turn, each of its cells that no later cell radiates on is within
/// limits, unless its radiation is no number.
pub proof fn law_radiation_ends_within_limits(
    env: Env,
    s: State,
    b: RegionBounds,
    cosmic: F32,
    y: int,
    x: int,
)
    requires
        radiation::radiating(env, s, b),
        s.updated.len() == env.cell_count(),
        is_inside(b, y, x),
        is_spared(env, s, b, y, x),
    ensures
        ({
            let r = radiation::irradiated(env, s, b, cosmic).updated[y * env.width + x].radiation;
            r.is_nan() || is_limited(r)
        }),
{
    let x0 = b.min_x as int;
    let x1 = b.max_x as int;
    let y0 = b.min_y as int;
    let y1 = b.max_y as int;
    let t = sweep::rows(FadePass, env, s, x0, x1, y0, y1);
    radiation::lemma_fade_rows(env, s, x0, x1, y0, y1);
    assert forall|v: int, u: int|
        is_inside(b, v, u) && (v > y || (v == y && u > x)) implies !#[trigger] touches(
        env,
        t,
        v,
        u,
        y,
        x,
    ) by {
        sweep::lemma_index(env, v, u);
        lemma_same_kind(env, s, t, v * env.width + u);
        assert(!touches(env, s, v, u, y, x));
    }
    lemma_rows_limits(env, t, b, cosmic, y0, y1, y, x);
}

/// Whether no radiation in a rectangle is below zero, nor anything but a number.
pub open spec fn is_calm(env: Env, s: State, b: RegionBounds) -> bool {
    forall|y: int, x: int| #[trigger]
        is_inside(b, y, x) ==> num(ZERO).le(s.updated[y * env.width + x].radiation)
}

/// Whether the sources of radiation are amounts: what falls from space, where it lingers at a rate
/// above zero, and the mass and the strength of each cell of a rectangle that gives off any.
pub open spec fn has_sources(env: Env, s: State, b: RegionBounds, cosmic: F32) -> bool {
    &&& is_amount(cosmic)
    &&& num(ZERO).lt(env.radiation_linger_rate)
    &&& forall|y: int, x: int| #[trigger]
        is_inside(b, y, x) ==> {
            let c = s.updated[y * env.width + x];
            gives_off(env, c) ==> is_amount(c.mass)
                && env.elements.spec_radiation(c.element_idx)->0.rads_per_1000.is_finite()
        }
}

/// A sum of what is not negative is not negative.
proof fn lemma_more(r: F32, q: F32)
    requires
        num(ZERO).le(r),
        num(ZERO).le(q),
    ensures
        num(ZERO).le(r.plus(q)),
{
    assert(!r.plus(q).is_nan()) by {
        if r.is_finite() && q.is_finite() {
            number_laws::law_sum_is_rounded(r, q);
        } else {
            reveal(F32::spec_plus);
        }
    }
    number_laws::law_plus_makes_no_smaller(r, q);
}

/// What is given off to any cell is not negative.
proof fn lemma_strength(mass: F32, rads: F32, dx: int, dy: int)
    requires
        is_amount(mass),
        is_amount(rads),
    ensures
        num(ZERO).le(mass.times(num(MILLI)).times(rads).times(radiation::spec_weight(dx, dy))),
{
    let part = mass.times(num(MILLI));
    number_laws::law_part_of_whole(mass, num(MILLI));
    laws::lemma_product_sign(part, rads);
    number_laws::law_product_not_negative(part, rads);
    let strength = part.times(rads);
    let w = radiation::spec_weight(dx, dy);
    assert(num(ZERO).lt(w) && w.is_finite());
    assert(!strength.times(w).is_nan()) by {
        if strength.is_finite() {
            laws::lemma_product_sign(strength, w);
        } else {
            reveal(F32::spec_times);
        }
    }
    number_laws::law_product_not_negative(strength, w);
}

/// What a cell gives off takes no radiation away.
proof fn lemma_radiated_calm(
    env: Env,
    s: State,
    b: RegionBounds,
    v: int,
    u: int,
    mass: F32,
    rads: F32,
    k: int,
)
    requires
        s.updated.len() == env.cell_count(),
        b.max_x < env.width,
        b.max_y < env.height,
        is_calm(env, s, b),
        is_amount(mass),
        is_amount(rads),
    ensures
        is_calm(
            env,
            radiation::radiated(env, s, b, v, u, mass.times(num(MILLI)).times(rads), k),
            b,
        ),
    decreases k,
{
    if k > 0 {
        let strength = mass.times(num(MILLI)).times(rads);
        lemma_radiated_calm(env, s, b, v, u, mass, rads, k - 1);
        let t = radiation::radiated(env, s, b, v, u, strength, k - 1);
        radiation::lemma_radiated(env, s, b, v, u, strength, k - 1);
        let dx = (k - 1) % 5 - 2;
        let dy = (k - 1) / 5 - 2;
        lemma_strength(mass, rads, dx, dy);
        if radiation::reaches(b, v + dy, u + dx) {
            let q = strength.times(radiation::spec_weight(dx, dy));
            sweep::lemma_index(env, v + dy, u + dx);
            let i = (v + dy) * env.width + u + dx;
            let r = radiation::brighter(t, i, q);
            assert forall|y: int, x: int| #[trigger] is_inside(b, y, x) implies num(ZERO).le(
                r.updated[y * env.width + x].radiation,
            ) by {
                sweep::lemma_index(env, y, x);
                if y * env.width + x == i {
                    lemma_more(t.updated[i].radiation, q);
                }
            }
        }
    }
}

/// What is left of the radiation from space is no number, or at most all of it.
proof fn lemma_exposure_part(env: Env, s: State, top: int, y: int, x: int)
    ensures
        ({
            let e = radiation::exposure(env, s, top, y, x);
            e.is_nan() || (num(ZERO).le(e) && e.le(num(ONE)))
        }),
    decreases top - y,
{
    let block = radiation::absorption(env, s.updated[y * env.width + x]);
    let above = if y + 1 < top {
        radiation::exposure(env, s, top, y + 1, x)
    } else {
        num(ONE)
    };
    if y + 1 < top {
        lemma_exposure_part(env, s, top, y + 1, x);
    }
    if block.is_nan() || above.is_nan() {
        assert(block.neg().is_nan() == block.is_nan());
        reveal(F32::spec_plus);
        reveal(F32::spec_times);
    } else {
        laws::law_radiation_is_held_back(block, above);
    }
}

/// What a cell gains from space is not negative.
proof fn lemma_from_space(cosmic: F32, linger: F32, e: F32)
    requires
        is_amount(cosmic),
        num(ZERO).lt(linger),
        num(ZERO).lt(e),
        e.le(num(ONE)),
    ensures
        num(ZERO).le(cosmic.over(linger).times(e)),
{
    let q = cosmic.over(linger);
    laws::lemma_zero_value();
    assert(num(ZERO).le(q)) by {
        reveal(F32::spec_over);
        if linger.is_finite() {
            let v = rounding::units(linger.mag() as nat);
            number_laws::law_order_is_by_value(num(ZERO), linger);
            number_laws::law_round_zero(v);
            assert(0 * pow2(149) == 0);
            assert(cosmic.mag() == 0 ==> rounding::units(cosmic.mag() as nat) == 0);
            assert(rounding::round_mag(rounding::units(cosmic.mag() as nat) * pow2(149), v)
                <= rounding::INFINITE);
        }
    }
    assert(!q.times(e).is_nan()) by {
        if q.is_finite() {
            laws::lemma_product_sign(q, e);
        } else {
            reveal(F32::spec_times);
        }
    }
    number_laws::law_product_not_negative(q, e);
}

/// An integer is a finite number.
pub proof fn lemma_integer(n: i32)
    ensures
        F32::from_i32(n).is_finite(),
{
    reveal(F32::spec_from_i32);
    let p = pow2(149);
    let m: int = if n < 0 {
        -(n as int)
    } else {
        n as int
    };
    lemma2_to64();
    lemma_pow2_adds(31, 149);
    lemma_pow2_adds(23, 157);
    assert(rounding::exponent(0x4f00_0000) == 157);
    assert(rounding::significand(0x4f00_0000) == 0x80_0000);
    assert(0 <= m * p <= 0x8000_0000 * p) by (nonlinear_arith)
        requires
            0 <= m <= 0x8000_0000,
            p >= 0,
    ;
    rounding::lemma_round_mag_exact(0x4f00_0000);
    number_laws::law_round_monotone((m * p) as nat, (0x8000_0000 * p) as nat, 1);
}

/// What germs add is finite.
proof fn lemma_from_germs(count: i32)
    ensures
        F32::from_i32(count).times(num(MILLI)).is_finite(),
{
    let x = F32::from_i32(count);
    lemma_integer(count);
    let size = x.abs();
    pressure_laws::lemma_opposite_bits(x);
    number_laws::law_part_of_whole(size, num(MILLI));
    assert(x.times(num(MILLI)).mag() == size.times(num(MILLI)).mag()) by {
        reveal(F32::spec_times);
    }
}

/// What a cell has and gains is a number.
proof fn lemma_gain_is_number(r: F32, g: F32, q: F32)
    requires
        num(ZERO).le(r),
        g.is_finite(),
        num(ZERO).le(q),
    ensures
        !r.plus(g).is_nan(),
        !r.plus(g).plus(q).is_nan(),
        !r.plus(q).is_nan(),
{
    lemma_more(r, q);
    assert(!r.plus(g).is_nan()) by {
        if r.is_finite() {
            number_laws::law_sum_is_rounded(r, g);
        } else {
            reveal(F32::spec_plus);
        }
    }
    number_laws::law_plus_commutes(r, g);
    number_laws::law_plus_makes_no_smaller(g, r);
    let u = r.plus(g);
    if u.is_finite() && q.is_finite() {
        number_laws::law_sum_is_rounded(u, q);
    } else {
        reveal(F32::spec_plus);
    }
}

/// A turn leaves the rectangle calm.
proof fn lemma_lit_calm(env: Env, s: State, b: RegionBounds, cosmic: F32, y: int, x: int)
    requires
        s.updated.len() == env.cell_count(),
        b.max_x < env.width,
        b.max_y < env.height,
        is_inside(b, y, x),
        is_calm(env, s, b),
        has_sources(env, s, b, cosmic),
    ensures
        is_calm(env, radiation::lit(env, s, b, cosmic, y, x), b),
{
    let cell = y * env.width + x;
    let c = s.updated[cell];
    sweep::lemma_index(env, y, x);
    radiation::lemma_gained(env, s, b, cosmic, y, x);
    let rads = match env.elements.spec_radiation(c.element_idx) {
        Some(d) => d.rads_per_1000,
        None => num(ZERO),
    };
    let strength = c.mass.times(num(MILLI)).times(rads);
    let t = if num(ZERO).lt(rads) {
        radiation::radiated(env, s, b, y, x, strength, 25)
    } else {
        s
    };
    if num(ZERO).lt(rads) {
        lemma_radiated_calm(env, s, b, y, x, c.mass, rads, 25);
        radiation::lemma_radiated(env, s, b, y, x, strength, 25);
    }
    let r = t.updated[cell].radiation;
    let e = radiation::exposure(env, s, b.max_y as int, y, x);
    lemma_exposure_part(env, s, b.max_y as int, y, x);
    lemma_from_germs(c.disease_count);
    let g = F32::from_i32(c.disease_count).times(num(MILLI));
    let q = cosmic.over(env.radiation_linger_rate).times(e);
    if num(ZERO).lt(e) {
        lemma_from_space(cosmic, env.radiation_linger_rate, e);
        lemma_gain_is_number(r, g, q);
    } else {
        lemma_gain_is_number(r, g, num(ZERO));
    }
    let after = radiation::gained(env, s, b, cosmic, y, x);
    assert(!after.updated[cell].radiation.is_nan());
    laws::law_radiation_limits(after.updated[cell].radiation);
    assert forall|v: int, u: int| #[trigger] is_inside(b, v, u) implies num(ZERO).le(
        radiation::lit(env, s, b, cosmic, y, x).updated[v * env.width + u].radiation,
    ) by {
        sweep::lemma_index(env, v, u);
    }
}

/// What differs in radiation alone has the same sources.
proof fn lemma_same_sources(env: Env, s: State, t: State, b: RegionBounds, cosmic: F32)
    requires
        radiation::same_matter(s, t),
        s.updated.len() == env.cell_count(),
        b.max_x < env.width,
        b.max_y < env.height,
        has_sources(env, s, b, cosmic),
    ensures
        has_sources(env, t, b, cosmic),
{
    assert forall|y: int, x: int| #[trigger] is_inside(b, y, x) implies ({
        let c = t.updated[y * env.width + x];
        gives_off(env, c) ==> is_amount(c.mass) && env.elements.spec_radiation(
            c.element_idx,
        )->0.rads_per_1000.is_finite()
    }) by {
        sweep::lemma_index(env, y, x);
        let c = s.updated[y * env.width + x];
        let d = t.updated[y * env.width + x];
        assert((Cell { radiation: num(ZERO), ..c }) == (Cell { radiation: num(ZERO), ..d }));
    }
}

/// A row leaves the rectangle calm.
proof fn lemma_row_calm(
    env: Env,
    s: State,
    b: RegionBounds,
    cosmic: F32,
    y: int,
    lo: int,
    hi: int,
)
    requires
        s.updated.len() == env.cell_count(),
        b.max_x < env.width,
        b.max_y < env.height,
        is_calm(env, s, b),
        has_sources(env, s, b, cosmic),
    ensures
        is_calm(env, sweep::row_by(radiation::lighting(env, b, cosmic), s, y, lo, hi), b),
    decreases hi - lo,
{
    if hi > lo {
        lemma_row_calm(env, s, b, cosmic, y, lo, hi - 1);
        let t = sweep::row_by(radiation::lighting(env, b, cosmic), s, y, lo, hi - 1);
        radiation::lemma_light_row(env, s, b, cosmic, y, lo, hi - 1);
        lemma_same_sources(env, s, t, b, cosmic);
        if is_inside(b, y, hi - 1) {
            lemma_lit_calm(env, t, b, cosmic, y, hi - 1);
        }
    }
}

/// Rows leave the rectangle calm.
proof fn lemma_rows_calm(
    env: Env,
    s: State,
    b: RegionBounds,
    cosmic: F32,
    y0: int,
    y1: int,
)
    requires
        s.updated.len() == env.cell_count(),
        b.max_x < env.width,
        b.max_y < env.height,
        is_calm(env, s, b),
        has_sources(env, s, b, cosmic),
    ensures
        ({
            let f = radiation::lighting(env, b, cosmic);
            is_calm(env, sweep::rows_by(f, s, b.min_x as int, b.max_x as int, y0, y1), b)
        }),
    decreases y1 - y0,
{
    if y1 > y0 {
        let x0 = b.min_x as int;
        let x1 = b.max_x as int;
        lemma_rows_calm(env, s, b, cosmic, y0, y1 - 1);
        let t = sweep::rows_by(radiation::lighting(env, b, cosmic), s, x0, x1, y0, y1 - 1);
        radiation::lemma_light_rows(env, s, b, cosmic, x0, x1, y0, y1 - 1);
        lemma_same_sources(env, s, t, b, cosmic);
        lemma_row_calm(env, t, b, cosmic, y1 - 1, x0, x1);
    }
}

/// What has faded is not negative, whatever it was.
proof fn lemma_fade_row_calm(env: Env, s: State, y: int, lo: int, hi: int, u: int)
    requires
        s.updated.len() == env.cell_count(),
        0 <= y < env.height,
        0 <= lo <= u < hi <= env.width,
    ensures
        num(ZERO).le(
            sweep::row(FadePass, env, s, y, lo, hi).updated[y * env.width + u].radiation,
        ),
    decreases hi - lo,
{
    radiation::lemma_fade_row(env, s, y, lo, hi - 1);
    sweep::lemma_index(env, y, u);
    sweep::lemma_index(env, y, hi - 1);
    if u < hi - 1 {
        lemma_fade_row_calm(env, s, y, lo, hi - 1, u);
    }
}

/// A row that fades leaves the others as they are.
proof fn lemma_fade_row_elsewhere(env: Env, s: State, y: int, lo: int, hi: int, v: int, u: int)
    requires
        s.updated.len() == env.cell_count(),
        0 <= y < env.height,
        0 <= lo,
        hi <= env.width,
        0 <= v < env.height,
        0 <= u < env.width,
        v != y,
    ensures
        sweep::row(FadePass, env, s, y, lo, hi).updated[v * env.width + u] == s.updated[v
            * env.width + u],
    decreases hi - lo,
{
    if hi > lo {
        lemma_fade_row_elsewhere(env, s, y, lo, hi - 1, v, u);
        radiation::lemma_fade_row(env, s, y, lo, hi - 1);
        sweep::lemma_index(env, v, u);
        sweep::lemma_index(env, y, hi - 1);
        if y * env.width + hi - 1 == v * env.width + u {
            lemma_same_place(env.width as int, y, hi - 1, v, u);
        }
    }
}

/// What has faded is not negative, whatever it was.
proof fn lemma_fade_rows_calm(
    env: Env,
    s: State,
    x0: int,
    x1: int,
    y0: int,
    y1: int,
    v: int,
    u: int,
)
    requires
        s.updated.len() == env.cell_count(),
        0 <= x0 <= u < x1 <= env.width,
        0 <= y0 <= v < y1 <= env.height,
    ensures
        num(ZERO).le(
            sweep::rows(FadePass, env, s, x0, x1, y0, y1).updated[v * env.width + u].radiation,
        ),
    decreases y1 - y0,
{
    let t = sweep::rows(FadePass, env, s, x0, x1, y0, y1 - 1);
    radiation::lemma_fade_rows(env, s, x0, x1, y0, y1 - 1);
    if v == y1 - 1 {
        lemma_fade_row_calm(env, t, v, x0, x1, u);
    } else {
        lemma_fade_rows_calm(env, s, x0, x1, y0, y1 - 1, v, u);
        lemma_fade_row_elsewhere(env, t, y1 - 1, x0, x1, v, u);
    }
}

/// Once a rectangle has had its turn, no radiation in it is below zero, nor anything but a number,
/// whatever it was before.
pub proof fn law_radiation_is_not_negative(
    env: Env,
    s: State,
    b: RegionBounds,
    cosmic: F32,
    y: int,
    x: int,
)
    requires
        radiation::radiating(env, s, b),
        s.updated.len() == env.cell_count(),
        has_sources(env, s, b, cosmic),
        is_inside(b, y, x),
    ensures
        num(ZERO).le(
            radiation::irradiated(env, s, b, cosmic).updated[y * env.width + x].radiation,
        ),
{
    let x0 = b.min_x as int;
    let x1 = b.max_x as int;
    let y0 = b.min_y as int;
    let y1 = b.max_y as int;
    let t = sweep::rows(FadePass, env, s, x0, x1, y0, y1);
    radiation::lemma_fade_rows(env, s, x0, x1, y0, y1);
    assert forall|v: int, u: int| #[trigger] is_inside(b, v, u) implies num(ZERO).le(
        t.updated[v * env.width + u].radiation,
    ) by {
        lemma_fade_rows_calm(env, s, x0, x1, y0, y1, v, u);
    }
    lemma_same_sources(env, s, t, b, cosmic);
    lemma_rows_calm(env, t, b, cosmic, y0, y1);
}

/// Where no element of a rectangle gives off radiation, and what falls from space is an amount
/// that lingers, each cell of it ends with no radiation, or with more than a hundredth and at most
/// the most.
pub proof fn law_radiation_without_sources(
    env: Env,
    s: State,
    b: RegionBounds,
    cosmic: F32,
    y: int,
    x: int,
)
    requires
        radiation::radiating(env, s, b),
        s.updated.len() == env.cell_count(),
        is_amount(cosmic),
        num(ZERO).lt(env.radiation_linger_rate),
        forall|v: int, u: int| #[trigger]
            is_inside(b, v, u) ==> !gives_off(env, s.updated[v * env.width + u]),
        is_inside(b, y, x),
    ensures
        is_limited(radiation::irradiated(env, s, b, cosmic).updated[y * env.width + x].radiation),
{
    law_radiation_ends_within_limits(env, s, b, cosmic, y, x);
    law_radiation_is_not_negative(env, s, b, cosmic, y, x);
}

/// Whether a cell is built, of an element with the given factor.
pub open spec fn is_built(env: Env, c: Cell, factor: F32) -> bool {
    &&& c.properties & 0x80 != 0
    &&& env.elements.spec_radiation(c.element_idx) matches Some(d) && d.factor == factor
}

/// Whether a cell is not built, of an element with the given factor.
pub open spec fn is_natural(env: Env, c: Cell, factor: F32) -> bool {
    &&& c.properties & 0x80 == 0
    &&& env.elements.spec_radiation(c.element_idx) matches Some(d) && d.factor == factor
}

/// A product at most one is rounded to at most one, and one from one on to no less.
proof fn lemma_product_and_one(x: F32, y: F32)
    requires
        is_amount(x),
        is_amount(y),
        x.times(y).is_finite(),
    ensures
        x.value() * y.value() <= pow2(149) * pow2(149) ==> x.times(y).le(num(ONE)),
        x.value() * y.value() >= pow2(149) * pow2(149) ==> num(ONE).le(x.times(y)),
{
    let p = pow2(149);
    let u = rounding::units(x.mag() as nat);
    let v = rounding::units(y.mag() as nat);
    lemma_pow2_pos(149);
    laws::lemma_zero_value();
    number_laws::lemma_one();
    number_laws::law_order_is_by_value(num(ZERO), x);
    number_laws::law_order_is_by_value(num(ZERO), y);
    assert(x.value() == u && y.value() == v);
    rounding::lemma_round_mag_scaled(p, 1, p);
    assert(1 * p == p);
    rounding::lemma_round_mag_exact(ONE as nat);
    number_laws::law_product_not_negative(x, y);
    if u * v <= p * p {
        number_laws::law_round_monotone(u * v, p * p, p);
    }
    if u * v >= p * p {
        number_laws::law_round_monotone(p * p, u * v, p);
    }
    reveal(F32::spec_times);
}

/// A built cell holds back the part of the radiation from above that is its element's factor times
/// that of what is built, but no more than all of it, whatever its mass is.
pub proof fn law_built_cell_holds_back(env: Env, c: Cell, factor: F32)
    requires
        is_built(env, c, factor),
        is_amount(factor),
        is_amount(env.radiation_constructed_factor),
        factor.value() <= pow2(200),
        env.radiation_constructed_factor.value() <= pow2(200),
    ensures
        ({
            let a = radiation::absorption(env, c);
            let p = pow2(149);
            let e = factor.value() * env.radiation_constructed_factor.value();
            &&& is_amount(a)
            &&& a.le(num(ONE))
            &&& e <= p * p ==> -(e + 0x80_0000 * p) <= 0x100_0000 * (a.value() * p - e) <= e
                + 0x80_0000 * p
            &&& e >= p * p ==> a == num(ONE)
        }),
{
    let k = env.radiation_constructed_factor;
    let p = pow2(149) as int;
    lemma_pow2_pos(149);
    liquid_laws::lemma_amount_value(factor);
    liquid_laws::lemma_amount_value(k);
    let e = factor.value() * k.value();
    lemma_pow2_adds(200, 200);
    lemma_pow2_adds(149, 276);
    lemma_pow2_strictly_increases(400, 425);
    assert(0 <= e <= pow2(200) * pow2(200)) by (nonlinear_arith)
        requires
            e == factor.value() * k.value(),
            0 <= factor.value() <= pow2(200),
            0 <= k.value() <= pow2(200),
    ;
    number_laws::law_product_is_near(factor, k);
    let r = factor.times(k);
    number_laws::law_clamp(r, num(ZERO), num(ONE));
    lemma_product_and_one(factor, k);
    if r.rank() == num(ONE).rank() {
        assert(!r.is_negative());
        assert(r == num(ONE));
    }
}

/// Two built cells of one element hold back the same part, whatever their masses are.
pub proof fn law_built_cells_hold_back_alike(env: Env, a: Cell, b: Cell)
    requires
        a.element_idx == b.element_idx,
        a.properties & 0x80 != 0,
        b.properties & 0x80 != 0,
    ensures
        radiation::absorption(env, a) == radiation::absorption(env, b),
{
}

/// A cell that holds back at least a millionth lets through strictly less than falls on it, and no
/// cell lets through more; what holds back nothing lets all of it through, and what holds back all
/// of it, nothing.
pub proof fn law_less_passes_than_falls(block: F32, above: F32)
    requires
        is_amount(block),
        block.le(num(ONE)),
        is_amount(above),
        above.le(num(ONE)),
    ensures
        ({
            let f = radiation::passing(block, above);
            &&& num(ZERO).le(f)
            &&& f.le(above)
            &&& 0x10_0000 * block.value() >= pow2(149) && num(CENTI).le(above) ==> f.lt(above)
            &&& block.rank() == 0 && num(CENTI).le(above) ==> f == above
            &&& block == num(ONE) ==> f == num(ZERO)
            &&& f == num(ZERO) || num(CENTI).le(f)
        }),
{
    let p = pow2(149) as int;
    let rest = num(ONE).minus(block);
    laws::law_radiation_is_held_back(block, above);
    laws::lemma_zero_value();
    lemma_pow2_pos(149);
    number_laws::lemma_one();
    liquid_laws::lemma_amount_value(block);
    liquid_laws::lemma_amount_value(above);
    laws::lemma_neg_is_opposite(block);
    laws::lemma_rest(num(ONE), block);
    number_laws::law_order_is_by_value(block, num(ONE));
    number_laws::law_sum_is_near(num(ONE), block.neg());
    number_laws::law_minus_makes_no_larger(num(ONE), block);
    number_laws::law_order_is_by_value(rest, num(ONE));
    number_laws::law_order_is_by_value(above, num(ONE));
    liquid_laws::lemma_amount_value(rest);
    let (a, b) = (rest.value(), above.value());
    lemma_pow2_strictly_increases(149, 276);
    assert(0 <= a * b <= p * pow2(276)) by (nonlinear_arith)
        requires
            0 <= a <= p,
            0 <= b <= p,
            p <= pow2(276),
    ;
    number_laws::law_product_is_near(rest, above);
    let f = rest.times(above);
    number_laws::law_order_is_by_value(f, above);
    number_laws::law_order_is_by_value(f, num(CENTI));
    number_laws::law_order_is_by_value(num(CENTI), above);
    if 0x10_0000 * block.value() >= p && num(CENTI).le(above) {
        lemma_centi();
        assert(0x100_0000 * a <= 0x100_0000 * p - 14 * p);
        lemma_strictly_less(a, b, p, f.value());
        number_laws::law_order_is_by_value(num(ZERO), above);
    }
    if block.rank() == 0 {
        number_laws::law_order_is_by_value(block, num(ZERO));
        number_laws::law_order_is_by_value(num(ZERO), block);
        number_laws::law_plus_exact(num(ONE), block.neg(), num(ONE));
        number_laws::law_times_one(above);
        number_laws::law_order_is_by_value(above, num(CENTI));
    }
    if block == num(ONE) {
        number_laws::law_minus_self(num(ONE));
        laws::lemma_product_sign(num(ZERO), above);
    }
}

/// A hundredth is at least two to the power of 142 units.
proof fn lemma_centi()
    ensures
        num(CENTI).value() >= pow2(142),
        num(CENTI).is_finite(),
        pow2(149) == 128 * pow2(142),
        pow2(142) >= 0x1000,
{
    lemma2_to64();
    let m = num(CENTI).mag() as nat;
    assert(rounding::exponent(m) == 119);
    assert(rounding::significand(m) >= 0x80_0000);
    lemma_pow2_adds(23, 119);
    lemma_pow2_adds(7, 142);
    lemma_pow2_strictly_increases(12, 142);
    lemma_pow2_pos(119);
    assert(rounding::significand(m) * pow2(119) >= 0x80_0000 * pow2(119)) by (nonlinear_arith)
        requires
            rounding::significand(m) >= 0x80_0000,
    ;
}

proof fn lemma_strictly_less(a: int, b: int, p: int, f: int)
    requires
        p > 0,
        a >= 0,
        b >= 0x1000,
        128 * b >= p,
        0x100_0000 * a <= 0x100_0000 * p - 14 * p,
        0x100_0000 * (f * p - a * b) <= a * b + 0x80_0000 * p,
        p == pow2(149),
        b >= pow2(142),
    ensures
        f < b,
{
    let ab = a * b;
    let pb = p * b;
    assert(0x100_0000 * ab <= 0x100_0000 * pb - 14 * pb) by (nonlinear_arith)
        requires
            ab == a * b,
            pb == p * b,
            b >= 0,
            0x100_0000 * a <= 0x100_0000 * p - 14 * p,
    ;
    assert(0x80_0000 * p <= pb) by {
        lemma2_to64();
        lemma_pow2_strictly_increases(23, 142);
        assert(0x80_0000 * p <= pb) by (nonlinear_arith)
            requires
                pb == p * b,
                b >= 0x80_0000,
                p > 0,
        ;
    }
    let fp = f * p;
    assert(pb > 0) by (nonlinear_arith)
        requires
            pb == p * b,
            p > 0,
            b > 0,
    ;
    assert(fp < pb);
    assert(f < b) by (nonlinear_arith)
        requires
            f * p < p * b,
            p > 0,
    ;
}

/// What the sun and the sky send falls from cell to cell: in each cell of a column that much is
/// left of what is left above it, and no more.
pub proof fn law_exposure_falls(env: Env, s: State, top: int, y: int, x: int)
    requires
        y + 1 < top,
    ensures
        ({
            let e = radiation::exposure(env, s, top, y, x);
            let above = radiation::exposure(env, s, top, y + 1, x);
            let block = radiation::absorption(env, s.updated[y * env.width + x]);
            &&& e == radiation::passing(block, above)
            &&& !e.is_nan() ==> num(ZERO).le(e) && e.le(above)
        }),
{
    lemma_exposure_part(env, s, top, y, x);
    lemma_exposure_part(env, s, top, y + 1, x);
    let above = radiation::exposure(env, s, top, y + 1, x);
    let block = radiation::absorption(env, s.updated[y * env.width + x]);
    if block.is_nan() || above.is_nan() {
        assert(block.neg().is_nan() == block.is_nan());
        reveal(F32::spec_plus);
        reveal(F32::spec_times);
    } else {
        laws::law_radiation_is_held_back(block, above);
    }
}

/// The top row of a rectangle gets what its own cells let through of all of it.
pub proof fn law_exposure_at_the_top(env: Env, s: State, top: int, x: int)
    ensures
        radiation::exposure(env, s, top, top - 1, x) == radiation::passing(
            radiation::absorption(env, s.updated[(top - 1) * env.width + x]),
            num(ONE),
        ),
{
}

/// An element that is not in the table, or whose factor is nothing, holds back nothing.
pub proof fn law_what_holds_nothing_back(env: Env, c: Cell)
    requires
        match env.elements.spec_radiation(c.element_idx) {
            Some(d) => d.factor == num(ZERO),
            None => true,
        },
        is_amount(c.mass),
        is_amount(env.radiation_max_mass),
        num(ZERO).lt(env.radiation_max_mass),
        c.mass.over(env.radiation_max_mass).is_finite(),
        is_amount(env.radiation_density_weight),
        is_amount(env.radiation_base_weight),
        is_amount(env.radiation_constructed_factor),
    ensures
        radiation::absorption(env, c).rank() == 0,
{
    let q = c.mass.over(env.radiation_max_mass);
    laws::lemma_zero_value();
    laws::lemma_product_sign(num(ZERO), env.radiation_constructed_factor);
    number_laws::law_times_commutes(q, num(ZERO));
    laws::lemma_product_sign(num(ZERO), q);
    let a = q.times(num(ZERO));
    assert(a.is_finite());
    laws::lemma_product_sign(a, env.radiation_density_weight);
    laws::lemma_product_sign(num(ZERO), env.radiation_base_weight);
    let b = a.times(env.radiation_density_weight);
    let d = num(ZERO).times(env.radiation_base_weight);
    assert(b.is_finite() && d.is_finite());
    number_laws::law_order_is_by_value(b, num(ZERO));
    number_laws::law_order_is_by_value(num(ZERO), b);
    number_laws::law_order_is_by_value(d, num(ZERO));
    number_laws::law_order_is_by_value(num(ZERO), d);
    number_laws::law_sum_is_rounded(b, d);
    number_laws::law_rounded_exact(num(ZERO));
}

/// Of two natural cells of one element the heavier holds back no less.
pub proof fn law_heavier_cells_hold_back_more(env: Env, light: Cell, heavy: Cell, factor: F32)
    requires
        is_natural(env, light, factor),
        is_natural(env, heavy, factor),
        is_amount(factor),
        factor.le(num(ONE)),
        is_amount(env.radiation_max_mass),
        num(ZERO).lt(env.radiation_max_mass),
        is_amount(env.radiation_density_weight),
        env.radiation_density_weight.le(num(ONE)),
        is_amount(env.radiation_base_weight),
        env.radiation_base_weight.le(num(ONE)),
        num(ZERO).le(light.mass),
        light.mass.le(heavy.mass),
        heavy.mass.is_finite(),
        heavy.mass.over(env.radiation_max_mass).is_finite(),
    ensures
        radiation::absorption(env, light).le(radiation::absorption(env, heavy)),
{
    let m = env.radiation_max_mass;
    let (a, b) = (light.mass.over(m), heavy.mass.over(m));
    break_laws::lemma_over_monotone(light.mass, heavy.mass, m);
    lemma_times_monotone(a, b, factor);
    let (c, d) = (a.times(factor), b.times(factor));
    let w = env.radiation_density_weight;
    lemma_times_monotone(c, d, w);
    let base = factor.times(env.radiation_base_weight);
    number_laws::law_part_of_whole(factor, env.radiation_base_weight);
    lemma_plus_monotone(c.times(w), d.times(w), base);
}

/// A part of what is larger is no smaller.
pub proof fn lemma_times_monotone(x: F32, y: F32, f: F32)
    requires
        num(ZERO).le(x),
        x.le(y),
        y.is_finite(),
        is_amount(f),
        f.le(num(ONE)),
    ensures
        num(ZERO).le(x.times(f)),
        x.times(f).le(y.times(f)),
        y.times(f).is_finite(),
{
    let p = pow2(149);
    let u = rounding::units(x.mag() as nat);
    let v = rounding::units(y.mag() as nat);
    let w = rounding::units(f.mag() as nat);
    lemma_pow2_pos(149);
    laws::lemma_zero_value();
    number_laws::law_order_is_by_value(num(ZERO), x);
    number_laws::law_order_is_by_value(x, y);
    number_laws::law_order_is_by_value(num(ZERO), f);
    assert(x.value() == u && y.value() == v && f.value() == w);
    assert(u * w <= v * w) by (nonlinear_arith)
        requires
            u <= v,
    ;
    number_laws::law_part_of_whole(x, f);
    number_laws::law_part_of_whole(y, f);
    number_laws::law_round_monotone(u * w, v * w, p);
    reveal(F32::spec_times);
}

/// A sum with what is larger is no smaller.
pub proof fn lemma_plus_monotone(x: F32, y: F32, z: F32)
    requires
        num(ZERO).le(x),
        x.le(y),
        y.is_finite(),
        is_amount(z),
    ensures
        num(ZERO).le(x.plus(z)),
        x.plus(z).le(y.plus(z)),
{
    lemma_more(x, z);
    number_laws::law_order_is_by_value(x, y);
    number_laws::law_sum_is_rounded(x, z);
    number_laws::law_sum_is_rounded(y, z);
    number_laws::law_rounded_monotone(x.value() + z.value(), y.value() + z.value());
}

/// The number of the kind of germs that radiate, where it is the first of its kind in the table.
pub open spec fn is_radiant(env: Env, kind: u8) -> bool {
    match env.diseases {
        Some(t) => if kind == 0xff {
            forall|i: int|
                0 <= i < t.diseases@.len() && i < 0xff ==> (#[trigger] t.diseases@[i]).hash
                    != 0xd49f77d6
        } else {
            &&& kind < t.diseases@.len()
            &&& t.diseases@[kind as int].hash == 0xd49f77d6
            &&& forall|i: int| 0 <= i < kind ==> (#[trigger] t.diseases@[i]).hash != 0xd49f77d6
        },
        None => false,
    }
}

proof fn lemma_germs_with(env: Env, i: int)
    requires
        env.diseases is Some,
        0 <= i <= 0xff,
        i <= env.diseases->0.diseases@.len(),
        forall|j: int|
            0 <= j < i ==> (#[trigger] env.diseases->0.diseases@[j]).hash != 0xd49f77d6,
    ensures
        is_radiant(env, radiation::germs_with(env.diseases->0.diseases@, 0xd49f77d6, i)),
    decreases env.diseases->0.diseases@.len() - i,
{
    let list = env.diseases->0.diseases@;
    if i < list.len() && i < 0xff && list[i].hash != 0xd49f77d6 {
        lemma_germs_with(env, i + 1);
    }
}

/// The germs that radiate are those of one kind, and it is the first in the table with its hash.
pub proof fn law_radiant_germs(env: Env, kind: u8)
    ensures
        radiation::radiant_germs(env) == Some(kind) <==> is_radiant(env, kind),
{
    if env.diseases is Some {
        lemma_germs_with(env, 0);
        let k = radiation::germs_with(env.diseases->0.diseases@, 0xd49f77d6, 0);
        if is_radiant(env, kind) && kind != k {
            let list = env.diseases->0.diseases@;
            if k != 0xff && kind != 0xff {
                assert(list[k as int].hash == 0xd49f77d6 && list[kind as int].hash == 0xd49f77d6);
            } else if k == 0xff {
                assert(list[kind as int].hash == 0xd49f77d6);
            } else {
                assert(list[k as int].hash == 0xd49f77d6);
            }
        }
    }
}

/// What a cell has once its radiation has faded by its part of the rate, or by one where that part
/// is nothing.
pub open spec fn faded(r: F32, rate: F32) -> F32 {
    let part = r.over(rate);
    if part.rank() == 0 && !part.is_nan() {
        r.minus(num(ONE)).max(num(ZERO))
    } else {
        r.minus(part).max(num(ZERO))
    }
}

/// What a cell ends with where nothing in its rectangle gives off radiation: what is left after
/// fading, what its germs add, a thousandth for each that radiates, and its share of what falls
/// from space; brought within limits.
pub proof fn law_radiation_of_a_cell(
    env: Env,
    s: State,
    b: RegionBounds,
    cosmic: F32,
    y: int,
    x: int,
)
    requires
        radiation::radiating(env, s, b),
        s.updated.len() == env.cell_count(),
        forall|v: int, u: int| #[trigger]
            is_inside(b, v, u) ==> !gives_off(env, s.updated[v * env.width + u]),
        is_inside(b, y, x),
    ensures
        ({
            let i = y * env.width + x;
            let c = s.updated[i];
            let a = faded(c.radiation, env.radiation_linger_rate);
            let g = if is_radiant(env, c.disease_idx) {
                a.plus(F32::from_i32(c.disease_count).times(num(MILLI)))
            } else {
                a
            };
            let e = radiation::exposure(env, s, b.max_y as int, y, x);
            let r = if num(ZERO).lt(e) {
                g.plus(cosmic.over(env.radiation_linger_rate).times(e))
            } else {
                g
            };
            let end = radiation::irradiated(env, s, b, cosmic).updated[i].radiation;
            &&& r.le(num(CENTI)) ==> end == num(ZERO)
            &&& num(CENTI).lt(r) && r.le(num(MAX_RADIATION)) ==> end == r
            &&& num(MAX_RADIATION).lt(r) ==> end == num(MAX_RADIATION)
        }),
{
    let x0 = b.min_x as int;
    let x1 = b.max_x as int;
    let y0 = b.min_y as int;
    let y1 = b.max_y as int;
    let i = y * env.width + x;
    let c = s.updated[i];
    sweep::lemma_index(env, y, x);
    law_radiant_germs(env, c.disease_idx);
    let t = sweep::rows(FadePass, env, s, x0, x1, y0, y1);
    radiation::lemma_fade_rows(env, s, x0, x1, y0, y1);
    lemma_faded_at(env, s, x0, x1, y0, y1, y, x);
    assert forall|v: int, u: int| #[trigger] is_inside(b, v, u) implies !gives_off(
        env,
        t.updated[v * env.width + u],
    ) by {
        sweep::lemma_index(env, v, u);
        lemma_same_kind(env, s, t, v * env.width + u);
    }
    let d = t.updated[i];
    assert((Cell { radiation: num(ZERO), ..c }) == (Cell { radiation: num(ZERO), ..d }));
    radiation::lemma_exposure(env, s, t, y1, y, x);
    lemma_lit_once(env, t, b, cosmic, y0, y1, y, x);
}

/// What has faded has faded once.
proof fn lemma_faded_at(env: Env, s: State, x0: int, x1: int, y0: int, y1: int, v: int, u: int)
    requires
        s.updated.len() == env.cell_count(),
        0 <= x0 <= u < x1 <= env.width,
        0 <= y0 <= v < y1 <= env.height,
    ensures
        sweep::rows(FadePass, env, s, x0, x1, y0, y1).updated[v * env.width + u].radiation == faded(
            s.updated[v * env.width + u].radiation,
            env.radiation_linger_rate,
        ),
    decreases y1 - y0,
{
    let t = sweep::rows(FadePass, env, s, x0, x1, y0, y1 - 1);
    radiation::lemma_fade_rows(env, s, x0, x1, y0, y1 - 1);
    if v == y1 - 1 {
        lemma_faded_before(env, s, x0, x1, y0, y1 - 1, v, u);
        lemma_faded_in_row(env, t, v, x0, x1, u);
    } else {
        lemma_faded_at(env, s, x0, x1, y0, y1 - 1, v, u);
        lemma_fade_row_elsewhere(env, t, y1 - 1, x0, x1, v, u);
    }
}

/// Rows that have not had their turn have not faded.
proof fn lemma_faded_before(env: Env, s: State, x0: int, x1: int, y0: int, y1: int, v: int, u: int)
    requires
        s.updated.len() == env.cell_count(),
        0 <= x0,
        x1 <= env.width,
        0 <= y0,
        y1 <= v < env.height,
        0 <= u < env.width,
    ensures
        sweep::rows(FadePass, env, s, x0, x1, y0, y1).updated[v * env.width + u]
            == s.updated[v * env.width + u],
    decreases y1 - y0,
{
    if y1 > y0 {
        lemma_faded_before(env, s, x0, x1, y0, y1 - 1, v, u);
        radiation::lemma_fade_rows(env, s, x0, x1, y0, y1 - 1);
        let t = sweep::rows(FadePass, env, s, x0, x1, y0, y1 - 1);
        lemma_fade_row_elsewhere(env, t, y1 - 1, x0, x1, v, u);
    }
}

proof fn lemma_faded_in_row(env: Env, s: State, y: int, lo: int, hi: int, u: int)
    requires
        s.updated.len() == env.cell_count(),
        0 <= y < env.height,
        0 <= lo <= u,
        u < env.width,
        hi <= env.width,
    ensures
        ({
            let r = s.updated[y * env.width + u].radiation;
            sweep::row(FadePass, env, s, y, lo, hi).updated[y * env.width + u].radiation == if u
                < hi {
                faded(r, env.radiation_linger_rate)
            } else {
                r
            }
        }),
    decreases hi - lo,
{
    sweep::lemma_index(env, y, u);
    if hi > lo {
        lemma_faded_in_row(env, s, y, lo, hi - 1, u);
        radiation::lemma_fade_row(env, s, y, lo, hi - 1);
        sweep::lemma_index(env, y, hi - 1);
    }
}

/// Where nothing gives off radiation, a cell changes in its own turn alone.
proof fn lemma_lit_once(
    env: Env,
    s: State,
    b: RegionBounds,
    cosmic: F32,
    y0: int,
    y1: int,
    y: int,
    x: int,
)
    requires
        s.updated.len() == env.cell_count(),
        b.max_x < env.width,
        b.max_y < env.height,
        forall|v: int, u: int| #[trigger]
            is_inside(b, v, u) ==> !gives_off(env, s.updated[v * env.width + u]),
        is_inside(b, y, x),
        b.min_y <= y0 <= y < y1 <= b.max_y,
    ensures
        ({
            let f = radiation::lighting(env, b, cosmic);
            let i = y * env.width + x;
            sweep::rows_by(f, s, b.min_x as int, b.max_x as int, y0, y1).updated[i].radiation
                == radiation::lit(env, s, b, cosmic, y, x).updated[i].radiation
        }),
    decreases y1 - y0,
{
    let x0 = b.min_x as int;
    let x1 = b.max_x as int;
    let t = sweep::rows_by(radiation::lighting(env, b, cosmic), s, x0, x1, y0, y1 - 1);
    radiation::lemma_light_rows(env, s, b, cosmic, x0, x1, y0, y1 - 1);
    lemma_no_source(env, s, t, b);
    let v = y1 - 1;
    if v == y {
        lemma_unlit_rows(env, s, b, cosmic, y0, y1 - 1, y, x);
        lemma_lit_in_row(env, t, b, cosmic, y, x0, x1, x);
        lemma_same_turn(env, s, t, b, cosmic, y, x);
    } else {
        lemma_lit_once(env, s, b, cosmic, y0, y1 - 1, y, x);
        assert forall|u: int| x0 <= u < x1 && is_inside(b, v, u) implies !#[trigger] touches(
            env,
            t,
            v,
            u,
            y,
            x,
        ) by {}
        lemma_row_elsewhere(env, t, b, cosmic, v, x0, x1, y, x);
    }
}

proof fn lemma_no_source(env: Env, s: State, t: State, b: RegionBounds)
    requires
        radiation::same_matter(s, t),
        s.updated.len() == env.cell_count(),
        b.max_x < env.width,
        b.max_y < env.height,
        forall|v: int, u: int| #[trigger]
            is_inside(b, v, u) ==> !gives_off(env, s.updated[v * env.width + u]),
    ensures
        forall|v: int, u: int| #[trigger]
            is_inside(b, v, u) ==> !gives_off(env, t.updated[v * env.width + u]),
{
    assert forall|v: int, u: int| #[trigger] is_inside(b, v, u) implies !gives_off(
        env,
        t.updated[v * env.width + u],
    ) by {
        sweep::lemma_index(env, v, u);
        lemma_same_kind(env, s, t, v * env.width + u);
    }
}

/// Rows before its own leave a cell alone.
proof fn lemma_unlit_rows(
    env: Env,
    s: State,
    b: RegionBounds,
    cosmic: F32,
    y0: int,
    y1: int,
    y: int,
    x: int,
)
    requires
        s.updated.len() == env.cell_count(),
        b.max_x < env.width,
        b.max_y < env.height,
        forall|v: int, u: int| #[trigger]
            is_inside(b, v, u) ==> !gives_off(env, s.updated[v * env.width + u]),
        is_inside(b, y, x),
        y1 <= y,
    ensures
        sweep::rows_by(
            radiation::lighting(env, b, cosmic),
            s,
            b.min_x as int,
            b.max_x as int,
            y0,
            y1,
        ).updated[y * env.width + x] == s.updated[y * env.width + x],
    decreases y1 - y0,
{
    if y1 > y0 {
        let x0 = b.min_x as int;
        let x1 = b.max_x as int;
        lemma_unlit_rows(env, s, b, cosmic, y0, y1 - 1, y, x);
        let t = sweep::rows_by(radiation::lighting(env, b, cosmic), s, x0, x1, y0, y1 - 1);
        radiation::lemma_light_rows(env, s, b, cosmic, x0, x1, y0, y1 - 1);
        lemma_no_source(env, s, t, b);
        let v = y1 - 1;
        assert forall|u: int| x0 <= u < x1 && is_inside(b, v, u) implies !#[trigger] touches(
            env,
            t,
            v,
            u,
            y,
            x,
        ) by {}
        lemma_row_elsewhere(env, t, b, cosmic, v, x0, x1, y, x);
    }
}

/// In its row a cell changes in its own turn alone.
proof fn lemma_lit_in_row(
    env: Env,
    s: State,
    b: RegionBounds,
    cosmic: F32,
    y: int,
    lo: int,
    hi: int,
    x: int,
)
    requires
        s.updated.len() == env.cell_count(),
        b.max_x < env.width,
        b.max_y < env.height,
        forall|v: int, u: int| #[trigger]
            is_inside(b, v, u) ==> !gives_off(env, s.updated[v * env.width + u]),
        is_inside(b, y, x),
        lo <= x < hi,
    ensures
        ({
            let i = y * env.width + x;
            sweep::row_by(radiation::lighting(env, b, cosmic), s, y, lo, hi).updated[i].radiation
                == radiation::lit(env, s, b, cosmic, y, x).updated[i].radiation
        }),
    decreases hi - lo,
{
    let t = sweep::row_by(radiation::lighting(env, b, cosmic), s, y, lo, hi - 1);
    radiation::lemma_light_row(env, s, b, cosmic, y, lo, hi - 1);
    lemma_no_source(env, s, t, b);
    sweep::lemma_index(env, y, x);
    if x == hi - 1 {
        assert forall|u: int| lo <= u < hi - 1 && is_inside(b, y, u) implies !#[trigger] touches(
            env,
            s,
            y,
            u,
            y,
            x,
        ) by {}
        lemma_row_elsewhere(env, s, b, cosmic, y, lo, hi - 1, y, x);
        lemma_same_turn(env, s, t, b, cosmic, y, x);
    } else {
        lemma_lit_in_row(env, s, b, cosmic, y, lo, hi - 1, x);
        if is_inside(b, y, hi - 1) {
            lemma_lit_elsewhere(env, t, b, cosmic, y, hi - 1, y, x);
        }
    }
}

/// The turn of a cell depends on its own radiation and on the matter of the world.
proof fn lemma_same_turn(
    env: Env,
    s: State,
    t: State,
    b: RegionBounds,
    cosmic: F32,
    y: int,
    x: int,
)
    requires
        radiation::same_matter(s, t),
        s.updated.len() == env.cell_count(),
        b.max_x < env.width,
        b.max_y < env.height,
        is_inside(b, y, x),
        s.updated[y * env.width + x] == t.updated[y * env.width + x],
        !gives_off(env, s.updated[y * env.width + x]),
    ensures
        radiation::lit(env, s, b, cosmic, y, x).updated[y * env.width + x].radiation
            == radiation::lit(env, t, b, cosmic, y, x).updated[y * env.width + x].radiation,
{
    sweep::lemma_index(env, y, x);
    radiation::lemma_exposure(env, s, t, b.max_y as int, y, x);
}

/// The weights with which radiation reaches the cells around: one at its source, and less with
/// the distance, the same in all directions; a tenth two cells off in both.
pub proof fn law_weights(dx: int, dy: int)
    requires
        -2 <= dx <= 2,
        -2 <= dy <= 2,
    ensures
        ({
            let w = radiation::spec_weight(dx, dy);
            &&& w == radiation::spec_weight(dy, dx)
            &&& w == radiation::spec_weight(-dx, dy)
            &&& w == radiation::spec_weight(dx, -dy)
            &&& dx == 0 && dy == 0 ==> w == num(ONE)
            &&& dx == 1 && dy == 0 ==> w == num(THREE_QUARTERS)
            &&& dx == 1 && dy == 1 ==> w == num(HALF)
            &&& dx == 2 && dy == 0 ==> w == num(QUARTER)
            &&& dx == 2 && dy == 1 ==> w == num(THREE_TWENTIETHS)
            &&& dx == 2 && dy == 2 ==> w == num(TENTH)
        }),
{
    assert(dx * dx == (-dx) * (-dx) && dy * dy == (-dy) * (-dy)) by (nonlinear_arith);
}

/// A source gives each cell around it, as far as its region goes, its strength times the weight of
/// the distance, once.
pub proof fn law_source_reaches_around(
    env: Env,
    s: State,
    b: RegionBounds,
    v: int,
    u: int,
    strength: F32,
    dx: int,
    dy: int,
)
    requires
        s.updated.len() == env.cell_count(),
        b.max_x < env.width,
        b.max_y < env.height,
        -2 <= dx <= 2,
        -2 <= dy <= 2,
        b.min_x <= u + dx <= b.max_x,
        b.min_y <= v + dy <= b.max_y,
    ensures
        ({
            let i = (v + dy) * env.width + u + dx;
            let t = radiation::radiated(env, s, b, v, u, strength, 25);
            t.updated[i].radiation == s.updated[i].radiation.plus(
                strength.times(radiation::spec_weight(dx, dy)),
            )
        }),
{
    lemma_source_prefix(env, s, b, v, u, strength, dx, dy, 25);
}

proof fn lemma_source_prefix(
    env: Env,
    s: State,
    b: RegionBounds,
    v: int,
    u: int,
    strength: F32,
    dx: int,
    dy: int,
    k: int,
)
    requires
        s.updated.len() == env.cell_count(),
        b.max_x < env.width,
        b.max_y < env.height,
        -2 <= dx <= 2,
        -2 <= dy <= 2,
        b.min_x <= u + dx <= b.max_x,
        b.min_y <= v + dy <= b.max_y,
        0 <= k <= 25,
    ensures
        ({
            let i = (v + dy) * env.width + u + dx;
            let t = radiation::radiated(env, s, b, v, u, strength, k);
            t.updated[i].radiation == if (dy + 2) * 5 + dx + 2 < k {
                s.updated[i].radiation.plus(strength.times(radiation::spec_weight(dx, dy)))
            } else {
                s.updated[i].radiation
            }
        }),
    decreases k,
{
    sweep::lemma_index(env, v + dy, u + dx);
    if k > 0 {
        lemma_source_prefix(env, s, b, v, u, strength, dx, dy, k - 1);
        radiation::lemma_radiated(env, s, b, v, u, strength, k - 1);
        let ex = (k - 1) % 5 - 2;
        let ey = (k - 1) / 5 - 2;
        if radiation::reaches(b, v + ey, u + ex) {
            sweep::lemma_index(env, v + ey, u + ex);
            if (v + ey) * env.width + u + ex == (v + dy) * env.width + u + dx {
                lemma_same_place(env.width as int, v + dy, u + dx, v + ey, u + ex);
            }
        }
    }
}

/// The strength of a source: a thousandth of its mass times what its element gives off.
pub proof fn law_strength_of_a_source(
    env: Env,
    s: State,
    b: RegionBounds,
    cosmic: F32,
    v: int,
    u: int,
    dx: int,
    dy: int,
)
    requires
        s.updated.len() == env.cell_count(),
        b.max_x < env.width,
        b.max_y < env.height,
        is_inside(b, v, u),
        gives_off(env, s.updated[v * env.width + u]),
        -2 <= dx <= 2,
        -2 <= dy <= 2,
        dx != 0 || dy != 0,
        b.min_x <= u + dx <= b.max_x,
        b.min_y <= v + dy <= b.max_y,
    ensures
        ({
            let i = (v + dy) * env.width + u + dx;
            let c = s.updated[v * env.width + u];
            let rads = env.elements.spec_radiation(c.element_idx)->0.rads_per_1000;
            radiation::lit(env, s, b, cosmic, v, u).updated[i].radiation
                == s.updated[i].radiation.plus(
                c.mass.times(num(MILLI)).times(rads).times(radiation::spec_weight(dx, dy)),
            )
        }),
{
    let c = s.updated[v * env.width + u];
    let rads = env.elements.spec_radiation(c.element_idx)->0.rads_per_1000;
    sweep::lemma_index(env, v, u);
    sweep::lemma_index(env, v + dy, u + dx);
    law_source_reaches_around(
        env,
        s,
        b,
        v,
        u,
        c.mass.times(num(MILLI)).times(rads),
        dx,
        dy,
    );
    radiation::lemma_radiated(env, s, b, v, u, c.mass.times(num(MILLI)).times(rads), 25);
    if (v + dy) * env.width + u + dx == v * env.width + u {
        lemma_same_place(env.width as int, v + dy, u + dx, v, u);
    }
}

/// A natural cell holds back by its mass, as a part of the full mass, its element's factor and the
/// weight of density; and by the factor and the base weight, whatever its mass is. No less than
/// nothing, and no more than all of it.
pub proof fn law_natural_cell_holds_back(env: Env, c: Cell, factor: F32)
    requires
        is_natural(env, c, factor),
    ensures
        ({
            let a = radiation::absorption(env, c);
            let full = c.mass.over(env.radiation_max_mass);
            let dense = full.times(factor).times(env.radiation_density_weight);
            let sum = dense.plus(factor.times(env.radiation_base_weight));
            &&& num(ZERO).le(sum) && sum.le(num(ONE)) ==> a == sum
            &&& num(ONE).lt(sum) ==> a == num(ONE)
            &&& sum.lt(num(ZERO)) ==> a == num(ZERO)
        }),
{
}

/// A natural cell without mass holds back its element's factor times the base weight.
pub proof fn law_base_of_what_is_held_back(env: Env, c: Cell, factor: F32)
    requires
        is_natural(env, c, factor),
        c.mass == num(ZERO),
        is_amount(factor),
        factor.le(num(ONE)),
        is_amount(env.radiation_max_mass),
        num(ZERO).lt(env.radiation_max_mass),
        is_amount(env.radiation_density_weight),
        is_amount(env.radiation_base_weight),
        env.radiation_base_weight.le(num(ONE)),
    ensures
        radiation::absorption(env, c).same(factor.times(env.radiation_base_weight)),
{
    laws::lemma_zero_value();
    let q = num(ZERO).over(env.radiation_max_mass);
    number_laws::law_ratio_of_part(num(ZERO), env.radiation_max_mass);
    assert(q.rank() == 0) by {
        let v = rounding::units(env.radiation_max_mass.mag() as nat);
        number_laws::law_order_is_by_value(num(ZERO), env.radiation_max_mass);
        number_laws::law_round_zero(v);
        assert(0 * pow2(149) == 0);
        reveal(F32::spec_over);
    }
    laws::lemma_product_sign(q, factor);
    let a = q.times(factor);
    laws::lemma_product_sign(a, env.radiation_density_weight);
    let z = a.times(env.radiation_density_weight);
    number_laws::law_part_of_whole(factor, env.radiation_base_weight);
    let b = factor.times(env.radiation_base_weight);
    number_laws::law_order_is_by_value(z, num(ZERO));
    number_laws::law_order_is_by_value(num(ZERO), z);
    number_laws::law_sum_is_rounded(z, b);
    number_laws::law_rounded_exact(b);
}

} // verus!
