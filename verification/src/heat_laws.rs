//! What holds of warmth where substances meet: a mixture has the mean temperature of its parts.
use crate::cell::mixed_temperature;
use crate::cell::share;
use crate::cell::Cell;
use crate::constants::ONE;
use crate::constants::ZERO;
use crate::germs::DiseaseTable;
use crate::laws;
use crate::liquid_laws;
use crate::number::num;
use crate::number::F32;
use crate::number_laws;
use crate::pressure_laws::is_amount;
use crate::rounding;
use vstd::arithmetic::power2::*;
use vstd::prelude::*;

verus! {

/// The heat of a mass at a temperature, in squares of the units of the numbers.
pub open spec fn heat(mass: F32, temperature: F32) -> int {
    mass.value() * temperature.value()
}

/// Whether two masses and their temperatures are amounts, there is something of the second, and
/// neither they nor their heat are too large for a number.
pub open spec fn can_mix(mass_a: F32, temp_a: F32, mass_b: F32, temp_b: F32) -> bool {
    &&& is_amount(mass_a)
    &&& is_amount(temp_a)
    &&& is_amount(mass_b)
    &&& is_amount(temp_b)
    &&& num(ZERO).lt(mass_b)
    &&& mass_a.value() + mass_b.value() <= pow2(270)
    &&& temp_a.value() <= pow2(270)
    &&& temp_b.value() <= pow2(270)
    &&& heat(mass_a, temp_a) + heat(mass_b, temp_b) <= pow2(149) * pow2(270)
}

/// Whether `t` is the mean of two temperatures weighted by their masses: it keeps the heat up to
/// one part in a million, and half a unit of each number.
pub open spec fn is_mean(mass_a: F32, temp_a: F32, mass_b: F32, temp_b: F32, t: F32) -> bool {
    let total = mass_a.value() + mass_b.value();
    let sum = heat(mass_a, temp_a) + heat(mass_b, temp_b);
    let slack = sum + 0x10_0000 * (2 * pow2(149) + total);
    &&& is_amount(t)
    &&& -slack <= 0x10_0000 * (t.value() * total - sum) <= slack
    &&& temp_a.le(temp_b) ==> temp_a.le(t) && t.le(temp_b)
    &&& temp_b.le(temp_a) ==> temp_b.le(t) && t.le(temp_a)
}

/// The roundings of a mean add up to no more than one part in a million.
proof fn lemma_roundings(
    p: int,
    ea: int,
    eb: int,
    ha: int,
    hb: int,
    h: int,
    hp: int,
    m: int,
    n: int,
    q: int,
    x: int,
    y: int,
)
    requires
        p > 0,
        ea >= 0,
        eb >= 0,
        ha >= 0,
        hb >= 0,
        m >= 0,
        n >= 0,
        x >= 0,
        y >= 0,
        -(ea + 0x80_0000 * p) <= 0x100_0000 * (ha - ea) <= ea + 0x80_0000 * p,
        -(eb + 0x80_0000 * p) <= 0x100_0000 * (hb - eb) <= eb + 0x80_0000 * p,
        -(ha + hb) <= 0x100_0000 * (hp - (ha + hb)) <= ha + hb,
        -m <= 0x100_0000 * (n - m) <= m,
        -(hp + 0x80_0000 * n) <= 0x100_0000 * (x - hp) <= hp + 0x80_0000 * n,
        -y <= 0x100_0000 * (x - y) <= y,
    ensures
        -(ea + eb + 0x10_0000 * (2 * p + m)) <= 0x10_0000 * (y - (ea + eb)) <= ea + eb + 0x10_0000
            * (2 * p + m),
{
}

/// The heat of two parts divided by their mass keeps the heat.
pub proof fn lemma_quotient_of_heat(mass_a: F32, temp_a: F32, mass_b: F32, temp_b: F32)
    requires
        can_mix(mass_a, temp_a, mass_b, temp_b),
    ensures
        ({
            let total = mass_a.plus(mass_b);
            let q = mass_a.times(temp_a).plus(temp_b.times(mass_b)).over(total);
            let m = mass_a.value() + mass_b.value();
            let sum = heat(mass_a, temp_a) + heat(mass_b, temp_b);
            let slack = sum + 0x10_0000 * (2 * pow2(149) + m);
            &&& total.is_finite()
            &&& num(ZERO).lt(total)
            &&& is_amount(q)
            &&& -slack <= 0x10_0000 * (q.value() * m - sum) <= slack
        }),
{
    let p = pow2(149) as int;
    let a = mass_a.value();
    let b = mass_b.value();
    let m = a + b;
    let ea = heat(mass_a, temp_a);
    let eb = heat(mass_b, temp_b);
    lemma_pow2_pos(149);
    lemma_powers();
    laws::lemma_zero_value();
    liquid_laws::lemma_amount_value(mass_a);
    liquid_laws::lemma_amount_value(mass_b);
    liquid_laws::lemma_amount_value(temp_a);
    liquid_laws::lemma_amount_value(temp_b);
    lemma_products(a, temp_a.value(), b, temp_b.value());
    // The parts of the heat.
    let ha = mass_a.times(temp_a);
    let hb = temp_b.times(mass_b);
    number_laws::law_times_commutes(temp_b, mass_b);
    assert(pow2(149) * pow2(270) <= pow2(149) * pow2(276)) by (nonlinear_arith)
        requires
            pow2(270) <= pow2(276),
    ;
    number_laws::law_product_is_near(mass_a, temp_a);
    number_laws::law_product_is_near(mass_b, temp_b);
    let (va, vb) = (ha.value(), hb.value());
    assert(va <= pow2(272) && vb <= pow2(272)) by {
        lemma_scaled_bound(va, ea, p, pow2(270) as int);
        lemma_scaled_bound(vb, eb, p, pow2(270) as int);
    }
    lemma_sum_is_finite(ha, hb);
    lemma_sum_is_finite(mass_a, mass_b);
    let h = ha.plus(hb);
    let total = mass_a.plus(mass_b);
    number_laws::law_sum_is_near(ha, hb);
    number_laws::law_sum_is_near(mass_a, mass_b);
    liquid_laws::lemma_amount(h);
    let n = total.value();
    assert(n > 0);
    number_laws::law_order_is_by_value(num(ZERO), total);
    // The quotient.
    let hp = h.value() * p;
    assert(-(va * p + vb * p) <= 0x100_0000 * (hp - (va * p + vb * p)) <= va * p + vb * p && va * p
        >= 0 && vb * p >= 0) by (nonlinear_arith)
        requires
            hp == h.value() * p,
            -(va + vb) <= 0x100_0000 * (h.value() - (va + vb)) <= va + vb,
            p > 0,
            va >= 0,
            vb >= 0,
    ;
    assert(hp <= n * pow2(276)) by {
        lemma_mean_bound(
            hp,
            va * p,
            vb * p,
            ea,
            eb,
            p,
            a,
            b,
            temp_a.value(),
            temp_b.value(),
            n,
            pow2(270) as int,
        );
    }
    number_laws::law_quotient_is_near(h, total);
    let q = h.over(total);
    let x = q.value() * n;
    let y = q.value() * m;
    assert(x >= 0 && y >= 0 && -y <= 0x100_0000 * (x - y) <= y) by (nonlinear_arith)
        requires
            x == q.value() * n,
            y == q.value() * m,
            q.value() >= 0,
            n >= 0,
            m >= 0,
            -m <= 0x100_0000 * (n - m) <= m,
    ;
    lemma_roundings(p, ea, eb, va * p, vb * p, h.value(), hp, m, n, q.value(), x, y);
}

/// A mixture has the mean temperature of its parts.
pub proof fn law_mixture_is_mean(mass_a: F32, temp_a: F32, mass_b: F32, temp_b: F32)
    requires
        can_mix(mass_a, temp_a, mass_b, temp_b),
    ensures
        ({
            let total = mass_a.plus(mass_b);
            &&& total.is_finite()
            &&& num(ZERO).lt(total)
            &&& is_mean(
                mass_a,
                temp_a,
                mass_b,
                temp_b,
                mixed_temperature(mass_a, temp_a, mass_b, temp_b, total),
            )
        }),
{
    let a = mass_a.value();
    let b = mass_b.value();
    let m = a + b;
    let ea = heat(mass_a, temp_a);
    let eb = heat(mass_b, temp_b);
    liquid_laws::lemma_amount_value(mass_a);
    liquid_laws::lemma_amount_value(mass_b);
    liquid_laws::lemma_amount_value(temp_a);
    liquid_laws::lemma_amount_value(temp_b);
    lemma_quotient_of_heat(mass_a, temp_a, mass_b, temp_b);
    let q = mass_a.times(temp_a).plus(temp_b.times(mass_b)).over(mass_a.plus(mass_b));
    liquid_laws::lemma_amount_value(q);
    // Between the two.
    let lo = temp_a.min(temp_b);
    let hi = temp_a.max(temp_b);
    let t = q.clamp(lo, hi);
    number_laws::law_order_is_by_value(temp_a, temp_b);
    number_laws::law_order_is_by_value(temp_b, temp_a);
    number_laws::law_order_is_by_value(q, lo);
    number_laws::law_order_is_by_value(hi, q);
    number_laws::law_order_is_by_value(lo, q);
    let (lv, hv, tv, qv) = (lo.value(), hi.value(), t.value(), q.value());
    assert(lv * m <= ea + eb <= hv * m) by (nonlinear_arith)
        requires
            ea == a * temp_a.value(),
            eb == b * temp_b.value(),
            m == a + b,
            a >= 0,
            b >= 0,
            lv <= temp_a.value() <= hv,
            lv <= temp_b.value() <= hv,
    ;
    assert(qv < lv ==> qv * m <= lv * m) by (nonlinear_arith)
        requires
            m >= 0,
    ;
    assert(qv > hv ==> qv * m >= hv * m) by (nonlinear_arith)
        requires
            m >= 0,
    ;
    assert(tv == lv || tv == hv || tv == qv);
    assert(0 <= tv * m);
    number_laws::law_order_is_by_value(temp_a, t);
    number_laws::law_order_is_by_value(t, temp_b);
    number_laws::law_order_is_by_value(temp_b, t);
    number_laws::law_order_is_by_value(t, temp_a);
}

/// Some powers of two.
proof fn lemma_powers()
    ensures
        pow2(270) <= pow2(276),
        pow2(276) == 64 * pow2(270),
        pow2(272) == 4 * pow2(270),
        pow2(270) > 0,
        pow2(149) <= pow2(270),
{
    lemma2_to64();
    lemma_pow2_strictly_increases(149, 270);
    lemma_pow2_pos(270);
    lemma_pow2_adds(6, 270);
    lemma_pow2_adds(2, 270);
}

proof fn lemma_products(a: int, s: int, b: int, t: int)
    requires
        a >= 0,
        s >= 0,
        b >= 0,
        t >= 0,
    ensures
        a * s >= 0,
        b * t >= 0,
{
    assert(a * s >= 0) by (nonlinear_arith)
        requires
            a >= 0,
            s >= 0,
    ;
    assert(b * t >= 0) by (nonlinear_arith)
        requires
            b >= 0,
            t >= 0,
    ;
}

/// A rounded product is below a bound on the product.
proof fn lemma_scaled_bound(v: int, e: int, p: int, bound: int)
    requires
        p > 0,
        bound >= 1,
        0 <= e <= p * bound,
        0x100_0000 * (v * p - e) <= e + 0x80_0000 * p,
    ensures
        v <= 4 * bound,
{
    let w = v * p;
    assert(w <= 4 * (p * bound)) by (nonlinear_arith)
        requires
            0x100_0000 * (w - e) <= e + 0x80_0000 * p,
            e <= p * bound,
            bound >= 1,
            p > 0,
    ;
    assert(v <= 4 * bound) by (nonlinear_arith)
        requires
            v * p <= 4 * (p * bound),
            p > 0,
    ;
}

/// A sum of amounts that are not too large is finite.
proof fn lemma_sum_is_finite(x: F32, y: F32)
    requires
        is_amount(x),
        is_amount(y),
        x.value() <= pow2(272),
        y.value() <= pow2(272),
    ensures
        x.plus(y).is_finite(),
{
    let v = x.value() + y.value();
    liquid_laws::lemma_amount_value(x);
    liquid_laws::lemma_amount_value(y);
    lemma_powers();
    number_laws::law_sum_is_rounded(x, y);
    number_laws::law_ratio_is_finite(v as nat, 1);
}

/// A mean is no larger than what it is taken of.
proof fn lemma_mean_bound(
    hp: int,
    ha: int,
    hb: int,
    ea: int,
    eb: int,
    p: int,
    a: int,
    b: int,
    s: int,
    t: int,
    n: int,
    bound: int,
)
    requires
        0 < p <= bound,
        a >= 0,
        b >= 1,
        0 <= s <= bound,
        0 <= t <= bound,
        ea == a * s,
        eb == b * t,
        ha >= 0,
        hb >= 0,
        0x100_0000 * (ha - ea) <= ea + 0x80_0000 * p,
        0x100_0000 * (hb - eb) <= eb + 0x80_0000 * p,
        0x100_0000 * (hp - (ha + hb)) <= ha + hb,
        -(a + b) <= 0x100_0000 * (n - (a + b)),
    ensures
        hp <= n * (64 * bound),
{
    let m = a + b;
    let mb = m * bound;
    assert(ea + eb <= mb && p <= mb) by (nonlinear_arith)
        requires
            ea == a * s,
            eb == b * t,
            mb == (a + b) * bound,
            0 <= s <= bound,
            0 <= t <= bound,
            a >= 0,
            b >= 1,
            0 < p <= bound,
    ;
    assert(hp <= 16 * mb);
    let nb = n * bound;
    assert(mb <= 2 * nb) by (nonlinear_arith)
        requires
            mb == m * bound,
            nb == n * bound,
            m <= 2 * n,
            bound >= 0,
    ;
    assert(n * (64 * bound) == 64 * nb) by (nonlinear_arith)
        requires
            nb == n * bound,
    ;
}

/// Whether a cell has gained an amount at a temperature: its mass is the sum, up to one part in two
/// to the power of 24, its temperature the mean, and its place and element are as they were.
pub open spec fn has_gained(was: Cell, now: Cell, amount: F32, temperature: F32) -> bool {
    let sum = was.mass.value() + amount.value();
    &&& is_amount(now.mass)
    &&& -sum <= 0x100_0000 * (now.mass.value() - sum) <= sum
    &&& is_mean(was.mass, was.temperature, amount, temperature, now.temperature)
    &&& now.element_idx == was.element_idx
    &&& same_place(was, now)
}

/// Whether two cells have the same marks, strength and radiation.
pub open spec fn same_place(was: Cell, now: Cell) -> bool {
    &&& now.properties == was.properties
    &&& now.strength_info == was.strength_info
    &&& now.radiation == was.radiation
}

/// Whether two cells have the same germs.
pub open spec fn same_germs(was: Cell, now: Cell) -> bool {
    &&& now.disease_idx == was.disease_idx
    &&& now.disease_count == was.disease_count
    &&& now.disease_infestation_tick_count == was.disease_infestation_tick_count
    &&& now.disease_growth_accumulated_error == was.disease_growth_accumulated_error
}

/// Whether `count` germs of a kind have come to a cell. Germs of one kind add up. A clean cell
/// takes on what comes. Where no germs come, nothing changes. Two kinds of which one has no known
/// strength leave the cell as it was, and so does a kind whose number times its strength is at
/// least that of what is there; a weaker one is set against what is there, by as much as that is
/// stronger.
pub open spec fn has_germs_from(
    table: Option<DiseaseTable>,
    was: Cell,
    now: Cell,
    kind: u8,
    count: i32,
) -> bool {
    let held = was.disease_count;
    let k = was.disease_idx;
    &&& kind == k && k != 0xff && 0 < held + count <= i32::MAX ==> {
        &&& now.disease_count == held + count
        &&& now.disease_idx == k
        &&& now.disease_infestation_tick_count == was.disease_infestation_tick_count
    }
    &&& kind == k && -0x8000_0000 <= held + count <= 0 ==> laws::clean(now)
    &&& k == 0xff && kind != 0xff && count > 0 ==> {
        &&& now.disease_count == count
        &&& now.disease_idx == kind
        &&& now.disease_infestation_tick_count == 0
    }
    &&& k == 0xff && kind != 0xff && count <= 0 ==> laws::clean(now)
    &&& kind == 0xff && k != 0xff && held > 0 ==> same_germs(was, now)
    &&& kind != k && kind != 0xff && k != 0xff && held > 0 ==> match table {
        Some(t) => if k < t.diseases@.len() && kind < t.diseases@.len() {
            let a = F32::from_i32(held).times(t.diseases@[k as int].strength);
            let b = F32::from_i32(count).times(t.diseases@[kind as int].strength);
            let d = F32::from_i32(count).minus(a.over(b).times(F32::from_i32(held))).to_i32();
            &&& a.le(b) ==> same_germs(was, now)
            &&& !a.le(b) && d > 0 ==> now.disease_idx == kind && now.disease_count == d
            &&& !a.le(b) && -0x8000_0000 < d < 0 ==> now.disease_idx == k && now.disease_count
                == -d
            &&& !a.le(b) && d == 0 ==> laws::clean(now)
        } else {
            same_germs(was, now)
        },
        None => same_germs(was, now),
    }
}

/// What becomes of germs that meet, in words: see `has_germs_from`. Nothing else changes.
pub proof fn law_germs_meet(c: Cell, table: Option<DiseaseTable>, kind: u8, count: i32)
    ensures
        ({
            let d = c.spec_with_disease(table, kind, count);
            &&& has_germs_from(table, c, d, kind, count)
            &&& d.mass == c.mass
            &&& d.temperature == c.temperature
            &&& d.element_idx == c.element_idx
            &&& same_place(c, d)
        }),
{
}

/// Germs that leave are gone; a cell with none left is clean. Nothing else changes.
pub proof fn law_germs_leave(c: Cell, n: i32)
    requires
        -0x7fff_ffff <= n,
        -0x8000_0000 <= c.disease_count - n <= i32::MAX,
    ensures
        ({
            let d = c.with_disease_delta(0i32.wrapping_sub(n));
            &&& c.disease_count > n ==> d.disease_count == c.disease_count - n && d.disease_idx
                == c.disease_idx
            &&& c.disease_count <= n ==> laws::clean(d)
            &&& d.mass == c.mass
            &&& d.temperature == c.temperature
            &&& d.element_idx == c.element_idx
            &&& same_place(c, d)
        }),
{
}

/// Mass that comes to a cell brings its warmth and its germs: the cell has the sum of the masses
/// and their mean temperature.
pub proof fn law_added_mass_mixes(
    c: Cell,
    table: Option<DiseaseTable>,
    amount: F32,
    temperature: F32,
    kind: u8,
    count: i32,
)
    requires
        can_mix(c.mass, c.temperature, amount, temperature),
    ensures
        ({
            let d = c.spec_with_mass_added(table, amount, temperature, kind, count);
            &&& has_gained(c, d, amount, temperature)
            &&& has_germs_from(table, c, d, kind, count)
        }),
{
    law_mixture_is_mean(c.mass, c.temperature, amount, temperature);
    number_laws::law_sum_is_near(c.mass, amount);
    laws::lemma_zero_value();
    let total = c.mass.plus(amount);
    let m = Cell {
        mass: total,
        temperature: mixed_temperature(c.mass, c.temperature, amount, temperature, total),
        ..c
    };
    law_germs_meet(m, table, kind, count);
}

/// What comes to an empty cell keeps its temperature, up to one part in a million.
pub proof fn law_empty_cell_takes_on_warmth(t: F32, amount: F32, temperature: F32, now: F32)
    requires
        can_mix(num(ZERO), t, amount, temperature),
        is_mean(num(ZERO), t, amount, temperature, now),
    ensures
        ({
            let (m, w) = (amount.value(), temperature.value());
            -(m * w + 0x10_0000 * (2 * pow2(149) + m)) <= 0x10_0000 * (now.value() * m - m * w) <= m
                * w + 0x10_0000 * (2 * pow2(149) + m)
        }),
{
    laws::lemma_zero_value();
    assert(0 * t.value() == 0);
}

/// A cell becomes warmer where what comes to it is noticeably warmer: where the heat by which that
/// exceeds the cell's own is more than what rounding may take.
pub proof fn law_warmer_inflow_warms(mass_a: F32, temp_a: F32, mass_b: F32, temp_b: F32, t: F32)
    requires
        can_mix(mass_a, temp_a, mass_b, temp_b),
        is_mean(mass_a, temp_a, mass_b, temp_b, t),
        0x10_0000 * mass_b.value() * (temp_b.value() - temp_a.value()) > heat(mass_a, temp_a)
            + heat(mass_b, temp_b) + 0x10_0000 * (2 * pow2(149) + mass_a.value()
            + mass_b.value()),
    ensures
        temp_a.lt(t),
{
    let (a, b) = (mass_a.value(), mass_b.value());
    let (s, w, v) = (temp_a.value(), temp_b.value(), t.value());
    let m = a + b;
    liquid_laws::lemma_amount_value(mass_a);
    liquid_laws::lemma_amount_value(mass_b);
    let sum = heat(mass_a, temp_a) + heat(mass_b, temp_b);
    let vm = v * m;
    let sm = s * m;
    assert(sum - sm == b * (w - s)) by (nonlinear_arith)
        requires
            sum == a * s + b * w,
            sm == s * m,
            m == a + b,
    ;
    let d = b * (w - s);
    assert(0x10_0000 * b * (w - s) == 0x10_0000 * d) by (nonlinear_arith)
        requires
            d == b * (w - s),
    ;
    assert(vm > sm);
    assert(v > s) by (nonlinear_arith)
        requires
            v * m > s * m,
            m >= 0,
    ;
    number_laws::law_order_is_by_value(temp_a, t);
}

/// The share of germs that goes with a part of a mass is in proportion to it, up to one germ and
/// one part in a million.
pub proof fn law_share_is_proportional(part: F32, whole: F32, n: i32)
    requires
        is_amount(part),
        part.le(whole),
        num(ZERO).lt(whole),
        whole.is_finite(),
        0 <= n <= 0x100_0000,
    ensures
        ({
            let k = share(part, whole, n);
            let e = n * part.value();
            let w = whole.value();
            &&& 0 <= k <= n
            &&& -(e + 0x20_0000 * w) <= 0x10_0000 * (k * w - e) <= e + 0x20_0000 * w
        }),
{
    let p = pow2(149) as int;
    let x = F32::from_i32(n);
    let q = part.over(whole);
    laws::law_share_of_germs(part, whole, n);
    lemma_pow2_pos(149);
    lemma2_to64();
    lemma_pow2_strictly_increases(149, 276);
    lemma_pow2_adds(149, 24);
    lemma_pow2_strictly_increases(173, 276);
    lemma_pow2_strictly_increases(28, 149);
    laws::lemma_zero_value();
    number_laws::lemma_one();
    number_laws::law_order_is_by_value(num(ZERO), whole);
    number_laws::law_order_is_by_value(part, whole);
    liquid_laws::lemma_amount_value(part);
    let (a, w) = (part.value(), whole.value());
    assert(a * p <= w * pow2(276)) by (nonlinear_arith)
        requires
            0 <= a <= w,
            0 <= p <= pow2(276),
    ;
    number_laws::law_quotient_is_near(part, whole);
    number_laws::law_ratio_of_part(part, whole);
    number_laws::law_order_is_by_value(q, num(ONE));
    number_laws::law_integer_round_trip(n);
    laws::lemma_from_nonnegative(n);
    let (qv, xv) = (q.value(), x.value());
    assert(0 <= qv * xv <= p * pow2(276) && 0 <= xv) by (nonlinear_arith)
        requires
            0 <= qv <= p,
            xv == n * p,
            0 <= n <= 0x100_0000,
            0x100_0000 * p <= pow2(276),
            p > 0,
    ;
    number_laws::law_product_is_near(q, x);
    let z = q.times(x);
    let zv = z.value();
    let k = share(part, whole, n);
    assert(zv <= n * p) by {
        number_laws::law_times_commutes(q, x);
        number_laws::law_part_of_whole(x, q);
        number_laws::law_order_is_by_value(z, x);
    }
    assert(k * p <= zv < k * p + p) by {
        lemma_integer_part(z, n as int);
    }
    lemma_proportion(p, a, w, n as int, qv, zv, k as int);
}

/// The integer part of an amount.
pub proof fn lemma_integer_part(z: F32, bound: int)
    requires
        is_amount(z),
        z.value() <= bound * pow2(149),
        0 <= bound <= i32::MAX,
    ensures
        z.to_i32() * pow2(149) <= z.value() < z.to_i32() * pow2(149) + pow2(149),
        0 <= z.to_i32() <= bound,
{
    let p = pow2(149) as int;
    let u = rounding::units(z.mag() as nat) as int;
    lemma_pow2_pos(149);
    laws::lemma_zero_value();
    liquid_laws::lemma_amount_value(z);
    assert(z.value() == u);
    vstd::arithmetic::div_mod::lemma_fundamental_div_mod(u, p);
    let k = u / p;
    assert(0 <= k <= bound) by (nonlinear_arith)
        requires
            u == p * k + u % p,
            0 <= u % p < p,
            0 <= u <= bound * p,
    ;
    assert(p * k == k * p) by (nonlinear_arith);
    reveal(F32::to_range);
    if z.is_negative() {
        assert(u == 0);
        assert(k == 0);
    }
    assert(z.to_i32() == k);
}

proof fn lemma_proportion(p: int, a: int, w: int, n: int, q: int, z: int, k: int)
    requires
        p >= 0x1000_0000,
        0 <= a <= w,
        0 <= n <= 0x100_0000,
        0 <= q,
        0 <= z,
        -(a * p + 0x80_0000 * w) <= 0x100_0000 * (q * w - a * p) <= a * p + 0x80_0000 * w,
        -(q * (n * p) + 0x80_0000 * p) <= 0x100_0000 * (z * p - q * (n * p)) <= q * (n * p)
            + 0x80_0000 * p,
        k * p <= z < k * p + p,
    ensures
        -(n * a + 0x20_0000 * w) <= 0x10_0000 * (k * w - n * a) <= n * a + 0x20_0000 * w,
{
    let qn = q * n;
    assert(q * (n * p) == qn * p) by (nonlinear_arith)
        requires
            qn == q * n,
    ;
    // Without the factor p: z is near q * n.
    assert(-(qn + 0x80_0000) <= 0x100_0000 * (z - qn) <= qn + 0x80_0000) by (nonlinear_arith)
        requires
            -(qn * p + 0x80_0000 * p) <= 0x100_0000 * (z * p - qn * p) <= qn * p + 0x80_0000 * p,
            p > 0,
    ;
    let zw = z * w;
    let qnw = qn * w;
    assert(-(qnw + 0x80_0000 * w) <= 0x100_0000 * (zw - qnw) <= qnw + 0x80_0000 * w)
        by (nonlinear_arith)
        requires
            zw == z * w,
            qnw == qn * w,
            w >= 0,
            -(qn + 0x80_0000) <= 0x100_0000 * (z - qn) <= qn + 0x80_0000,
    ;
    let nap = n * a * p;
    let nw = n * w;
    assert(-(nap + 0x80_0000 * nw) <= 0x100_0000 * (qnw - nap) <= nap + 0x80_0000 * nw) by {
        let d = q * w - a * p;
        let e = a * p + 0x80_0000 * w;
        assert(-(e * n) <= 0x100_0000 * (d * n) <= e * n) by (nonlinear_arith)
            requires
                -e <= 0x100_0000 * d <= e,
                n >= 0,
        ;
        assert(d * n == qnw - nap && e * n == nap + 0x80_0000 * nw) by {
            assert((q * w) * n == qnw) by (nonlinear_arith)
                requires
                    qnw == qn * w,
                    qn == q * n,
            ;
            assert((a * p) * n == nap) by (nonlinear_arith)
                requires
                    nap == n * a * p,
            ;
            assert((0x80_0000 * w) * n == 0x80_0000 * nw) by (nonlinear_arith)
                requires
                    nw == n * w,
            ;
            assert((q * w - a * p) * n == (q * w) * n - (a * p) * n) by (nonlinear_arith);
            assert((a * p + 0x80_0000 * w) * n == (a * p) * n + (0x80_0000 * w) * n)
                by (nonlinear_arith);
        }
    }
    let wp = w * p;
    assert(0x10 * nw <= wp && 0 <= nw && 0 <= nap && 0 <= wp && w <= wp) by (nonlinear_arith)
        requires
            nw == n * w,
            wp == w * p,
            nap == n * a * p,
            0 <= n <= 0x100_0000,
            p >= 0x1000_0000,
            w >= 0,
            a >= 0,
    ;
    let kwp = k * w * p;
    assert(kwp <= zw <= kwp + wp) by (nonlinear_arith)
        requires
            kwp == k * w * p,
            zw == z * w,
            wp == w * p,
            w >= 0,
            k * p <= z < k * p + p,
    ;
    assert(-(nap + 0x20_0000 * wp) <= 0x10_0000 * (kwp - nap) <= nap + 0x20_0000 * wp);
    let off = k * w - n * a;
    let bound = n * a + 0x20_0000 * w;
    assert(off * p == kwp - nap && bound * p == nap + 0x20_0000 * wp) by {
        assert((k * w) * p == kwp && (n * a) * p == nap) by (nonlinear_arith)
            requires
                kwp == k * w * p,
                nap == n * a * p,
        ;
        assert((k * w - n * a) * p == (k * w) * p - (n * a) * p) by (nonlinear_arith);
        assert((n * a + 0x20_0000 * w) * p == (n * a) * p + 0x20_0000 * wp) by (nonlinear_arith)
            requires
                wp == w * p,
        ;
    }
    assert(-bound <= 0x10_0000 * off <= bound) by (nonlinear_arith)
        requires
            -(bound * p) <= 0x10_0000 * (off * p) <= bound * p,
            p > 0,
    ;
}

} // verus!
