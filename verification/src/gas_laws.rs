//! What holds where the gases of a whole rectangle spread.
use crate::cell::Cell;
use crate::constants::EIGHTH;
use crate::constants::ZERO;
use crate::element::phase;
use crate::element::ElementPressureData;
use crate::element::LIQUID;
use crate::element::VACUUM;
use crate::gas_flow;
use crate::gas_flow::GasPass;
use crate::grid::marked;
use crate::grid::GAS_IMPERMEABLE;
use crate::laws;
use crate::liquid_laws;
use crate::number::num;
use crate::number::F32;
use crate::number_laws;
use crate::pressure;
use crate::pressure_laws;
use crate::rounding;
use crate::sim_data;
use crate::sim_data::Env;
use crate::sim_data::RegionBounds;
use crate::sim_data::State;
use crate::sweep;
use vstd::arithmetic::power2::*;
use vstd::prelude::*;

verus! {

/// Whether a cell is open to gases: it holds a gas or nothing, and is not marked.
pub open spec fn is_open(env: Env, c: Cell) -> bool {
    match env.elements.spec_pressure(c.element_idx) {
        Some(d) => phase(d.state) < LIQUID && !marked(c, GAS_IMPERMEABLE),
        None => false,
    }
}

/// Whether two states differ at most in the new content of cells that are open to gases, in the
/// flows and in what is reported.
pub open spec fn kept_out(env: Env, s: State, t: State) -> bool {
    &&& t.cells == s.cells
    &&& t.iterate_direction == s.iterate_direction
    &&& t.updated.len() == s.updated.len()
    &&& forall|i: int|
        0 <= i < s.updated.len() && !is_open(env, s.cells[i]) ==> #[trigger] t.updated[i]
            == s.updated[i]
}

/// An exchange changes two cells at most.
proof fn lemma_evened_two(
    env: Env,
    s: State,
    src: int,
    dst: int,
    elem: u16,
    other_elem: u16,
    data: ElementPressureData,
    other: ElementPressureData,
)
    requires
        0 <= src < s.updated.len(),
        0 <= dst < s.updated.len(),
    ensures
        ({
            let t = pressure::evened(env, s, src, dst, elem, other_elem, data, other).0;
            &&& t.cells == s.cells
            &&& t.iterate_direction == s.iterate_direction
            &&& t.updated.len() == s.updated.len()
            &&& forall|i: int|
                0 <= i < s.updated.len() && i != src && i != dst ==> #[trigger] t.updated[i]
                    == s.updated[i]
        }),
{
}

/// A cell that is open shares only with cells that are open.
proof fn lemma_shared_open(
    env: Env,
    s: State,
    src: int,
    dst: int,
    elem: u16,
    data: ElementPressureData,
)
    requires
        0 <= src < s.cells.len(),
        s.updated.len() == s.cells.len(),
        is_open(env, s.cells[src]),
    ensures
        kept_out(env, s, gas_flow::shared(env, s, src, dst, elem, data).0),
{
    match gas_flow::partner(env, s, dst, elem, phase(data.state)) {
        Some(d) => {
            lemma_evened_two(env, s, src, dst, elem, s.cells[dst].element_idx, data, d);
        },
        None => {},
    }
}

/// A visit changes only cells that are open.
proof fn lemma_visit_open(env: Env, s: State, y: int, x: int)
    requires
        0 <= y * env.width + x < s.cells.len(),
        s.updated.len() == s.cells.len(),
    ensures
        kept_out(env, s, gas_flow::gas_spread(env, s, y, x)),
{
    reveal(gas_flow::shared_sideways);
    reveal(gas_flow::shared_upwards);
    reveal(gas_flow::shared_diagonally);
    let src = y * env.width + x;
    let e = s.cells[src].element_idx;
    let w = env.width as int;
    let dir = s.iterate_direction as int;
    if is_open(env, s.cells[src]) {
        let d = env.elements.spec_pressure(e)->0;
        lemma_shared_open(env, s, src, src + dir, e, d);
        let a = gas_flow::shared_sideways(env, s, y, x, e, d);
        assert(kept_out(env, s, a));
        lemma_shared_open(env, a, src, src + w, e, d);
        let b = gas_flow::shared_upwards(env, a, src, e, d);
        assert(kept_out(env, a, b));
        lemma_shared_open(env, b, src, src + w + dir, e, d);
        let c = gas_flow::shared_diagonally(env, b, y, x, e, d);
        assert(kept_out(env, b, c));
    }
}

/// The column that is visited lies between the two columns.
proof fn lemma_column(env: Env, p: GasPass, y: int, x: int, dir: int)
    requires
        p.x1 <= env.width,
        0 <= y < env.height,
        p.x0 <= x < p.x1,
    ensures
        ({
            let col = gas_flow::column(p.x0 as int, p.x1 as int, x, dir);
            p.x0 <= col < p.x1 && 0 <= y * env.width + col < env.cell_count()
        }),
{
    let col = gas_flow::column(p.x0 as int, p.x1 as int, x, dir);
    sweep::lemma_index(env, y, col);
}

/// A row changes only cells that are open.
proof fn lemma_row_open(env: Env, p: GasPass, s: State, y: int, lo: int, hi: int)
    requires
        p.x1 <= env.width,
        0 <= y < env.height,
        s.cells.len() == env.cell_count(),
        s.updated.len() == s.cells.len(),
    ensures
        kept_out(env, s, sweep::row(p, env, s, y, lo, hi)),
    decreases hi - lo,
{
    if hi > lo {
        lemma_row_open(env, p, s, y, lo, hi - 1);
        let t = sweep::row(p, env, s, y, lo, hi - 1);
        if p.x0 <= hi - 1 < p.x1 {
            let dir = t.iterate_direction as int;
            lemma_column(env, p, y, hi - 1, dir);
            lemma_visit_open(
                env,
                t,
                y,
                gas_flow::column(p.x0 as int, p.x1 as int, hi - 1, dir),
            );
        }
    }
}

/// Rows change only cells that are open.
proof fn lemma_rows_open(env: Env, p: GasPass, s: State, x0: int, x1: int, y0: int, y1: int)
    requires
        p.x1 <= env.width,
        0 <= y0,
        y1 <= env.height,
        s.cells.len() == env.cell_count(),
        s.updated.len() == s.cells.len(),
    ensures
        kept_out(env, s, sweep::rows(p, env, s, x0, x1, y0, y1)),
    decreases y1 - y0,
{
    if y1 > y0 {
        lemma_rows_open(env, p, s, x0, x1, y0, y1 - 1);
        let t = sweep::rows(p, env, s, x0, x1, y0, y1 - 1);
        lemma_row_open(env, p, t, y1 - 1, x0, x1);
    }
}

/// Where gases spread, the old buffer stays as it is, and each cell that is closed to gases keeps
/// its content: what is marked, what holds a liquid or a solid and what holds an element without
/// pressure data.
pub proof fn law_closed_cells_keep_their_content(env: Env, s: State, b: RegionBounds, i: int)
    requires
        s.fits(env),
        0 <= i < s.updated.len(),
        s.cells.len() == s.updated.len(),
        !is_open(env, s.cells[i]),
    ensures
        gas_flow::gases_spread(env, s, b).updated[i] == s.updated[i],
        gas_flow::gases_spread(env, s, b).cells == s.cells,
{
    if env.width >= 5 && env.height >= 5 {
        let x0 = sweep::greater(b.min_x as int, 1);
        let x1 = sweep::lesser(b.max_x as int, env.width - 1);
        lemma_rows_open(
            env,
            GasPass { x0: x0 as usize, x1: x1 as usize },
            s,
            x0,
            x1,
            sweep::greater(b.min_y as int, 1),
            sweep::lesser(b.max_y as int, env.height - 1),
        );
    }
}

/// The most that leaves a cell in one exchange.
pub open spec fn eighth(c: Cell) -> F32 {
    c.mass.times(num(EIGHTH))
}

/// What is left in a cell that gives the most in each of some exchanges, and gets nothing.
pub open spec fn rest(c: Cell, given: int) -> F32
    decreases given,
{
    if given <= 0 {
        c.mass
    } else {
        rest(c, given - 1).minus(eighth(c))
    }
}

/// Whether a cell can give the most in each of six exchanges.
pub open spec fn lasts(c: Cell) -> bool {
    forall|k: int| 0 <= k <= 5 ==> eighth(c).le(#[trigger] rest(c, k))
}

/// An eighth is two to the power of 146 units.
proof fn lemma_eighth_units()
    ensures
        rounding::units(num(EIGHTH).mag() as nat) == pow2(146),
        pow2(149) == 8 * pow2(146),
{
    lemma2_to64();
    lemma_pow2_adds(23, 123);
    lemma_pow2_adds(3, 146);
    let m = num(EIGHTH).mag();
    assert(m == 0x3e00_0000u32);
    assert(rounding::exponent(m as nat) == 123);
    assert(rounding::significand(m as nat) == 0x80_0000);
}

/// An eighth of a large number is a number.
proof fn lemma_eighth_of_large(x: F32)
    requires
        pressure_laws::is_amount(x),
        x.mag() >= 4 * rounding::FIELD,
    ensures
        8 * x.times(num(EIGHTH)).value() == x.value(),
{
    let m = x.mag() as nat;
    let p = pow2(146);
    lemma2_to64();
    lemma_eighth_units();
    rounding::lemma_fields(m);
    liquid_laws::lemma_amount_value(x);
    let z = F32 { bits: (m - 3 * rounding::FIELD) as u32 };
    let k = rounding::exponent(m);
    let q = rounding::significand(m);
    assert(rounding::exponent(z.mag() as nat) == k - 3);
    assert(rounding::significand(z.mag() as nat) == q);
    lemma_pow2_adds(3, (k - 3) as nat);
    lemma_pow2_pos((k - 3) as nat);
    let u = pow2((k - 3) as nat);
    let v = q * u;
    assert(q * (8 * u) == 8 * v && v * (8 * p) == (8 * v) * p && v > 0) by (nonlinear_arith)
        requires
            v == q * u,
            q > 0,
            u > 0,
    ;
    assert(x.value() == 8 * v);
    assert(z.value() == v);
    assert(num(EIGHTH).value() == p);
    number_laws::law_times_exact(x, num(EIGHTH), z);
}

/// An eighth of an integer is a number.
pub proof fn lemma_eighth_exact(x: F32, n: int)
    requires
        pressure_laws::is_amount(x),
        0 <= n,
        x.value() == n * pow2(149),
    ensures
        8 * x.times(num(EIGHTH)).value() == x.value(),
{
    let m = x.mag() as nat;
    laws::lemma_zero_value();
    if m >= 4 * rounding::FIELD {
        lemma_eighth_of_large(x);
    } else {
        lemma_small(x);
        lemma2_to64();
        lemma_pow2_strictly_increases(26, 149);
        assert(n == 0) by (nonlinear_arith)
            requires
                0 <= n,
                n * pow2(149) < 0x400_0000,
                pow2(149) >= 0x400_0000,
        ;
        assert(0 * pow2(149) == 0);
        laws::lemma_product_sign(x, num(EIGHTH));
        let z = x.times(num(EIGHTH));
        number_laws::law_order_is_by_value(x, num(ZERO));
        assert(x.rank() == 0);
        assert(z.rank() == 0);
        pressure_laws::lemma_same_value(z, num(ZERO));
    }
}

/// An eighth of a small number is rounded to a whole number of units.
proof fn lemma_eighth_of_small(x: F32)
    requires
        pressure_laws::is_amount(x),
        x.mag() < 4 * rounding::FIELD,
    ensures
        x.times(num(EIGHTH)).value() == rounding::nearest_even(x.value() as nat, 8),
        x.value() >= 0,
{
    let m = x.mag() as nat;
    let v = rounding::units(m);
    let r = x.times(num(EIGHTH));
    let p = pow2(146);
    lemma2_to64();
    lemma_pow2_pos(146);
    lemma_eighth_units();
    rounding::lemma_fields(m);
    liquid_laws::lemma_amount_value(x);
    pressure_laws::lemma_eighth(x);
    liquid_laws::lemma_amount_value(r);
    let k = rounding::exponent(m);
    let q = rounding::significand(m);
    assert(k <= 2);
    assert(v <= 4 * q) by (nonlinear_arith)
        requires
            v == q * pow2(k),
            pow2(k) <= 4,
    ;
    rounding::lemma_round_mag_scaled(v, 8, p);
    assert(rounding::grid_exponent(v, 8) == 0);
    reveal(F32::spec_times);
    let n = rounding::nearest_even(v, 8);
    assert(x.value() == v || v == 0);
    assert(r.mag() == n);
    assert(n <= rounding::FIELD);
    assert(rounding::exponent(n) == 0);
    assert(rounding::significand(n) == n);
    assert(rounding::units(n) == n) by (nonlinear_arith)
        requires
            rounding::units(n) == n * pow2(0),
            pow2(0) == 1,
    ;
}

/// What is left of an amount is an amount, and off by at most one part in two to the power of 24.
proof fn lemma_less(x: F32, e: F32)
    requires
        pressure_laws::is_amount(x),
        pressure_laws::is_amount(e),
        e.le(x),
    ensures
        ({
            let v = x.value() - e.value();
            let r = x.minus(e).value();
            &&& pressure_laws::is_amount(x.minus(e))
            &&& 0 <= v
            &&& -v <= 0x100_0000 * (r - v) <= v
        }),
{
    laws::lemma_rest(x, e);
    laws::lemma_neg_is_opposite(e);
    number_laws::law_order_is_by_value(e, x);
    number_laws::law_sum_is_near(x, e.neg());
}

/// An eighth is no more than what is at least as large in value.
proof fn lemma_enough(e: F32, x: F32)
    requires
        pressure_laws::is_amount(x),
        pressure_laws::is_amount(e),
        e.value() <= x.value(),
    ensures
        e.le(x),
{
    number_laws::law_order_is_by_value(e, x);
}

/// Every mass lasts for six exchanges, though each eighth and what is left of it is rounded. The
/// one exception is a mass of five units.
pub proof fn law_mass_lasts(c: Cell)
    requires
        pressure_laws::is_amount(c.mass),
        c.mass.value() != 5,
    ensures
        lasts(c),
{
    let e = eighth(c);
    let v = c.mass.value();
    liquid_laws::lemma_amount_value(c.mass);
    pressure_laws::lemma_eighth(c.mass);
    liquid_laws::lemma_amount_value(e);
    if c.mass.mag() >= 4 * rounding::FIELD {
        lemma_eighth_of_large(c.mass);
    } else {
        lemma_eighth_of_small(c.mass);
        lemma_small(c.mass);
    }
    reveal_with_fuel(rest, 6);
    let t0 = rest(c, 0);
    lemma_enough(e, t0);
    lemma_less(t0, e);
    let t1 = rest(c, 1);
    assert(t1 == t0.minus(e));
    lemma_enough(e, t1);
    lemma_less(t1, e);
    let t2 = rest(c, 2);
    assert(t2 == t1.minus(e));
    lemma_enough(e, t2);
    lemma_less(t2, e);
    let t3 = rest(c, 3);
    assert(t3 == t2.minus(e));
    lemma_enough(e, t3);
    lemma_less(t3, e);
    let t4 = rest(c, 4);
    assert(t4 == t3.minus(e));
    lemma_enough(e, t4);
    lemma_less(t4, e);
    let t5 = rest(c, 5);
    assert(t5 == t4.minus(e));
    lemma_enough(e, t5);
    assert forall|k: int| 0 <= k <= 5 implies e.le(#[trigger] rest(c, k)) by {
        assert(k == 0 || k == 1 || k == 2 || k == 3 || k == 4 || k == 5);
    }
}

/// A small number is below two to the power of 26 units.
proof fn lemma_small(x: F32)
    requires
        x.mag() < 4 * rounding::FIELD,
        x.value() >= 0,
    ensures
        x.value() < 0x400_0000,
{
    let m = x.mag() as nat;
    lemma2_to64();
    rounding::lemma_fields(m);
    let k = rounding::exponent(m);
    let q = rounding::significand(m);
    assert(k <= 2);
    assert(q * pow2(k) <= 4 * q) by (nonlinear_arith)
        requires
            pow2(k) <= 4,
            q >= 0,
    ;
}

/// The more is given, the less is left, and it is an amount.
proof fn lemma_rest_falls(c: Cell, j: int, k: int)
    requires
        pressure_laws::is_amount(c.mass),
        lasts(c),
        0 <= j <= k <= 6,
    ensures
        pressure_laws::is_amount(rest(c, j)),
        pressure_laws::is_amount(rest(c, k)),
        rest(c, k).le(rest(c, j)),
    decreases k,
{
    pressure_laws::lemma_eighth(c.mass);
    if k > 0 {
        let before = rest(c, k - 1);
        if j < k {
            lemma_rest_falls(c, j, k - 1);
        } else {
            lemma_rest_falls(c, k - 1, k - 1);
        }
        assert(eighth(c).le(before));
        laws::lemma_rest(before, eighth(c));
        number_laws::law_minus_makes_no_larger(before, eighth(c));
    }
}

/// How many exchanges a cell may still have.
pub type Turns = spec_fn(int) -> int;

/// Whether all masses are amounts, and each cell that is open to gases has what it may still give.
pub open spec fn has_enough(env: Env, s: State, n: Turns) -> bool {
    &&& s.updated.len() == s.cells.len()
    &&& forall|i: int|
        0 <= i < s.updated.len() ==> pressure_laws::is_amount((#[trigger] s.updated[i]).mass)
    &&& forall|i: int|
        0 <= i < s.updated.len() && is_open(env, s.cells[i]) ==> 0 <= #[trigger] n(i) <= 6
    &&& forall|i: int|
        0 <= i < s.updated.len() && is_open(env, s.cells[i]) ==> rest(s.cells[i], 6 - n(i)).le(
            (#[trigger] s.updated[i]).mass,
        )
}

/// Whether a step finds what the movement of gases rests on: no cell holds the void, all masses
/// are amounts, those of cells that are open to gases last for six exchanges, all gases flow at a
/// pace from zero on, and rows are gone through one by one in one of the two directions.
pub open spec fn finds_gas(env: Env, s: State) -> bool {
    &&& s.cells.len() == env.cell_count()
    &&& liquid_laws::no_void(env, s.cells)
    &&& forall|i: int|
        0 <= i < s.cells.len() ==> pressure_laws::is_amount((#[trigger] s.cells[i]).mass)
    &&& forall|i: int|
        0 <= i < s.cells.len() && is_open(env, s.cells[i]) ==> lasts(#[trigger] s.cells[i])
    &&& forall|e: u16|
        (#[trigger] env.elements.spec_pressure(e)) matches Some(d) ==> pressure_laws::is_amount(
            d.flow,
        )
    &&& s.iterate_direction == 1 || s.iterate_direction == -1
    &&& env.width >= 5
}

/// Whether the sums are off by at most `err` each where a cell evens out its mass with a
/// neighbour.
pub open spec fn evens_within(
    env: Env,
    s: State,
    src: int,
    dst: int,
    elem: u16,
    data: ElementPressureData,
    err: int,
) -> bool {
    gas_flow::shared(env, s, src, dst, elem, data).1 matches Some(f) ==> laws::near_sum(
        s.updated[src].mass,
        f.neg(),
        err,
    ) && laws::near_sum(s.updated[dst].mass, f, err)
}

/// The turns that are left after two cells have had one with each other.
pub open spec fn after_turn(n: Turns, a: int, b: int) -> Turns {
    |i: int|
        if i == a || i == b {
            n(i) - 1
        } else {
            n(i)
        }
}

/// Who has enough for a turn has enough for the rest after it, and no mass is lost or gained, up to
/// two roundings.
proof fn lemma_given(
    env: Env,
    s: State,
    t: State,
    src: int,
    dst: int,
    amount: F32,
    n: Turns,
    err: int,
)
    requires
        0 <= err,
        has_enough(env, s, n),
        finds_gas(env, s),
        0 <= src < s.cells.len(),
        0 <= dst < s.cells.len(),
        src != dst,
        is_open(env, s.cells[src]),
        n(src) >= 1,
        n(dst) >= 1,
        amount.is_finite(),
        num(ZERO).lt(amount),
        amount.le(eighth(s.cells[src])),
        laws::near_sum(s.updated[src].mass, amount.neg(), err),
        laws::near_sum(s.updated[dst].mass, amount, err),
        pressure_laws::is_exchange(s, t, src, dst, amount),
    ensures
        has_enough(env, t, after_turn(n, src, dst)),
        laws::near(laws::total_mass(t), laws::total_mass(s), 2 * err),
{
    let m = after_turn(n, src, dst);
    let c = s.cells[src];
    let here = s.updated[src].mass;
    let there = s.updated[dst].mass;
    let least = rest(c, 6 - n(src));
    assert(pressure_laws::is_amount(c.mass));
    assert(pressure_laws::is_amount(here));
    assert(pressure_laws::is_amount(there));
    assert(lasts(c));
    pressure_laws::lemma_eighth(c.mass);
    lemma_rest_falls(c, 6 - n(src), 7 - n(src));
    assert(eighth(c).le(least));
    laws::lemma_neg_is_opposite(amount);
    laws::lemma_rest(here, amount);
    lemma_less_of_more(here, amount, least, eighth(c));
    number_laws::law_plus_makes_no_smaller(there, amount);
    number_laws::law_plus_commutes(there, amount);
    number_laws::law_plus_makes_no_smaller(amount, there);
    let left = here.minus(amount);
    let more = there.plus(amount);
    assert(t.updated[src].mass == left);
    assert(t.updated[dst].mass == more);
    let u = s.updated.update(src, t.updated[src]);
    assert(t.updated =~= u.update(dst, t.updated[dst]));
    laws::lemma_total(s.updated, src, t.updated[src]);
    laws::lemma_total(u, dst, t.updated[dst]);
    assert(rest(c, 6 - m(src)) == least.minus(eighth(c)));
    assert forall|i: int| 0 <= i < t.updated.len() implies pressure_laws::is_amount(
        (#[trigger] t.updated[i]).mass,
    ) by {
        assert(pressure_laws::is_amount(s.updated[i].mass));
    }
    assert forall|i: int|
        0 <= i < t.updated.len() && is_open(env, t.cells[i]) implies 0 <= #[trigger] m(i) <= 6 by {
        assert(0 <= n(i) <= 6);
    }
    assert forall|i: int| 0 <= i < t.updated.len() && is_open(env, t.cells[i]) implies rest(
        t.cells[i],
        6 - m(i),
    ).le((#[trigger] t.updated[i]).mass) by {
        assert(rest(s.cells[i], 6 - n(i)).le(s.updated[i].mass));
        if i == dst {
            assert(pressure_laws::is_amount(s.cells[i].mass));
            assert(lasts(s.cells[i]));
            lemma_rest_falls(s.cells[i], 6 - n(i), 6 - m(i));
        }
    }
}

/// Less taken from more leaves more.
proof fn lemma_less_of_more(x: F32, a: F32, y: F32, b: F32)
    requires
        x.is_finite(),
        y.is_finite(),
        a.is_finite(),
        b.is_finite(),
        y.le(x),
        a.le(b),
        x.minus(a).is_finite(),
        y.minus(b).is_finite(),
    ensures
        y.minus(b).le(x.minus(a)),
{
    laws::lemma_neg_is_opposite(a);
    laws::lemma_neg_is_opposite(b);
    number_laws::law_order_is_by_value(y, x);
    number_laws::law_order_is_by_value(a, b);
    number_laws::law_sum_is_rounded(x, a.neg());
    number_laws::law_sum_is_rounded(y, b.neg());
    number_laws::law_rounded_monotone(y.value() - b.value(), x.value() - a.value());
}

/// Turns that are not taken may be dropped.
proof fn lemma_fewer_turns(env: Env, s: State, n: Turns, m: Turns)
    requires
        has_enough(env, s, n),
        finds_gas(env, s),
        forall|i: int|
            0 <= i < s.cells.len() && is_open(env, s.cells[i]) ==> 0 <= #[trigger] m(i) <= n(i),
    ensures
        has_enough(env, s, m),
{
    assert forall|i: int|
        0 <= i < s.updated.len() && is_open(env, s.cells[i]) implies 0 <= #[trigger] m(i) <= 6 by {
        assert(0 <= n(i) <= 6);
    }
    assert forall|i: int| 0 <= i < s.updated.len() && is_open(env, s.cells[i]) implies rest(
        s.cells[i],
        6 - m(i),
    ).le((#[trigger] s.updated[i]).mass) by {
        assert(pressure_laws::is_amount(s.cells[i].mass));
        assert(lasts(s.cells[i]));
        assert(0 <= m(i) <= n(i) <= 6);
        lemma_rest_falls(s.cells[i], 6 - n(i), 6 - m(i));
    }
}

/// A turn of two cells with each other keeps the mass, up to two roundings, and leaves enough for
/// the turns to come.
proof fn lemma_shared(
    env: Env,
    s: State,
    src: int,
    dst: int,
    elem: u16,
    data: ElementPressureData,
    n: Turns,
    err: int,
)
    requires
        0 <= err,
        has_enough(env, s, n),
        finds_gas(env, s),
        0 <= src < s.cells.len(),
        src != dst,
        elem == s.cells[src].element_idx,
        env.elements.spec_pressure(elem) == Some(data),
        is_open(env, s.cells[src]),
        n(src) >= 1,
        n(dst) >= 1,
        evens_within(env, s, src, dst, elem, data, err),
    ensures
        ({
            let t = gas_flow::shared(env, s, src, dst, elem, data).0;
            &&& has_enough(env, t, after_turn(n, src, dst))
            &&& finds_gas(env, t)
            &&& kept_out(env, s, t)
            &&& laws::near(laws::total_mass(t), laws::total_mass(s), 2 * err)
        }),
{
    let m = after_turn(n, src, dst);
    let t = gas_flow::shared(env, s, src, dst, elem, data).0;
    lemma_shared_open(env, s, src, dst, elem, data);
    assert(s.cells[src].element_idx != env.void_element_idx);
    match gas_flow::partner(env, s, dst, elem, phase(data.state)) {
        Some(d) => {
            let other = s.cells[dst].element_idx;
            let f = pressure::evened(env, s, src, dst, elem, other, data, d).1;
            assert(s.cells[dst].element_idx != env.void_element_idx);
            assert(pressure_laws::is_amount(s.cells[src].mass));
            assert(pressure_laws::is_amount(s.cells[dst].mass));
            pressure_laws::lemma_evened(env, s, src, dst, elem, other, data, d);
            pressure_laws::lemma_opposite_bits(f);
            pressure_laws::lemma_eighth(s.cells[dst].mass);
            if f.rank() == 0 {
                lemma_fewer_turns(env, s, n, m);
            } else if f.rank() > 0 {
                lemma_given(env, s, t, src, dst, f.abs(), n, err);
            } else {
                lemma_given(env, s, t, dst, src, f.abs(), n, err);
                assert(after_turn(n, dst, src) =~= m);
            }
        },
        None => {
            lemma_fewer_turns(env, s, n, m);
        },
    }
}

/// Whether a gas can go up and ahead: the cells there are, and the corner does not stop it.
pub open spec fn passes_corner(env: Env, s: State, src: int) -> bool {
    match (
        sim_data::at(s.cells, src + s.iterate_direction),
        sim_data::at(s.cells, src + env.width),
    ) {
        (Some(a), Some(b)) => !gas_flow::cornered(env, a, b),
        _ => false,
    }
}

/// Whether the sums are off by at most `err` each in every turn of the cell in row `y` and column
/// `x`.
pub open spec fn spreads_within(env: Env, s: State, y: int, x: int, err: int) -> bool {
    let src = y * env.width + x;
    let c = s.cells[src];
    let e = c.element_idx;
    let dir = s.iterate_direction as int;
    let inside = 1 <= x + dir <= env.width - 2;
    is_open(env, c) && gas_flow::still(s, src, e) ==> {
        let d = env.elements.spec_pressure(e)->0;
        let a = gas_flow::shared_sideways(env, s, y, x, e, d);
        let b = gas_flow::shared_upwards(env, a, src, e, d);
        &&& inside ==> evens_within(env, s, src, src + dir, e, d, err)
        &&& phase(d.state) != VACUUM || gas_flow::still(a, src, e) ==> {
            &&& evens_within(env, a, src, src + env.width, e, d, err)
            &&& inside && passes_corner(env, b, src) && (phase(d.state) != VACUUM
                || gas_flow::still(b, src, e)) ==> evens_within(
                env,
                b,
                src,
                src + env.width + dir,
                e,
                d,
                err,
            )
        }
    }
}

/// How many turns a cell still has where the cells of `done` have been visited: three of its
/// own, and one each with the cells behind it, below it and behind that one.
#[verifier::opaque]
pub open spec fn turns(done: Set<int>, w: int, dir: int) -> Turns {
    |i: int|
        (if done.contains(i) {
            0int
        } else {
            3
        }) + (if done.contains(i - dir) {
            0int
        } else {
            1
        }) + (if done.contains(i - w) {
            0int
        } else {
            1
        }) + (if done.contains(i - w - dir) {
            0int
        } else {
            1
        })
}

/// The mass is kept up to `slack` units, what the step found is still there, and each cell has
/// enough for its turns.
pub open spec fn goes_well(env: Env, s: State, t: State, n: Turns, slack: int) -> bool {
    &&& has_enough(env, t, n)
    &&& finds_gas(env, t)
    &&& laws::near(laws::total_mass(t), laws::total_mass(s), slack)
    &&& t.iterate_direction == s.iterate_direction
    &&& t.cells == s.cells
}

/// The turn sideways.
proof fn lemma_sideways(
    env: Env,
    s: State,
    y: int,
    x: int,
    d: ElementPressureData,
    n: Turns,
    err: int,
)
    requires
        0 <= err,
        has_enough(env, s, n),
        finds_gas(env, s),
        0 <= y * env.width + x < s.cells.len(),
        is_open(env, s.cells[y * env.width + x]),
        env.elements.spec_pressure(s.cells[y * env.width + x].element_idx) == Some(d),
        n(y * env.width + x) >= 1,
        n(y * env.width + x + s.iterate_direction) >= 1,
        1 <= x + s.iterate_direction <= env.width - 2 ==> evens_within(
            env,
            s,
            y * env.width + x,
            y * env.width + x + s.iterate_direction,
            s.cells[y * env.width + x].element_idx,
            d,
            err,
        ),
    ensures
        goes_well(
            env,
            s,
            gas_flow::shared_sideways(
                env,
                s,
                y,
                x,
                s.cells[y * env.width + x].element_idx,
                d,
            ),
            after_turn(n, y * env.width + x, y * env.width + x + s.iterate_direction),
            2 * err,
        ),
{
    reveal(gas_flow::shared_sideways);
    let src = y * env.width + x;
    let dst = src + s.iterate_direction;
    if 1 <= x + s.iterate_direction <= env.width - 2 {
        lemma_shared(env, s, src, dst, s.cells[src].element_idx, d, n, err);
    } else {
        lemma_fewer_turns(env, s, n, after_turn(n, src, dst));
    }
}

/// The turn upwards.
proof fn lemma_upwards(env: Env, s: State, src: int, d: ElementPressureData, n: Turns, err: int)
    requires
        0 <= err,
        has_enough(env, s, n),
        finds_gas(env, s),
        0 <= src < s.cells.len(),
        is_open(env, s.cells[src]),
        env.elements.spec_pressure(s.cells[src].element_idx) == Some(d),
        n(src) >= 1,
        n(src + env.width) >= 1,
        evens_within(env, s, src, src + env.width, s.cells[src].element_idx, d, err),
    ensures
        goes_well(
            env,
            s,
            gas_flow::shared_upwards(env, s, src, s.cells[src].element_idx, d),
            after_turn(n, src, src + env.width),
            2 * err,
        ),
{
    reveal(gas_flow::shared_upwards);
    lemma_shared(env, s, src, src + env.width, s.cells[src].element_idx, d, n, err);
}

/// The turn up and ahead.
proof fn lemma_diagonally(
    env: Env,
    s: State,
    y: int,
    x: int,
    d: ElementPressureData,
    n: Turns,
    err: int,
)
    requires
        0 <= err,
        has_enough(env, s, n),
        finds_gas(env, s),
        0 <= y * env.width + x < s.cells.len(),
        is_open(env, s.cells[y * env.width + x]),
        env.elements.spec_pressure(s.cells[y * env.width + x].element_idx) == Some(d),
        n(y * env.width + x) >= 1,
        n(y * env.width + x + env.width + s.iterate_direction) >= 1,
        1 <= x + s.iterate_direction <= env.width - 2 && passes_corner(
            env,
            s,
            y * env.width + x,
        ) ==> evens_within(
            env,
            s,
            y * env.width + x,
            y * env.width + x + env.width + s.iterate_direction,
            s.cells[y * env.width + x].element_idx,
            d,
            err,
        ),
    ensures
        goes_well(
            env,
            s,
            gas_flow::shared_diagonally(
                env,
                s,
                y,
                x,
                s.cells[y * env.width + x].element_idx,
                d,
            ),
            after_turn(
                n,
                y * env.width + x,
                y * env.width + x + env.width + s.iterate_direction,
            ),
            2 * err,
        ),
{
    reveal(gas_flow::shared_diagonally);
    let src = y * env.width + x;
    let dst = src + env.width + s.iterate_direction;
    if 1 <= x + s.iterate_direction <= env.width - 2 && passes_corner(env, s, src) {
        lemma_shared(env, s, src, dst, s.cells[src].element_idx, d, n, err);
    }
    lemma_fewer_turns(env, s, n, after_turn(n, src, dst));
}

/// A visit has its turns, and takes no more of them than are gone after it.
proof fn lemma_turns(done: Set<int>, w: int, dir: int, src: int)
    requires
        !done.contains(src),
        dir == 1 || dir == -1,
        w >= 5,
    ensures
        ({
            let n = turns(done, w, dir);
            let na = after_turn(n, src, src + dir);
            let nb = after_turn(na, src, src + w);
            let nc = after_turn(nb, src, src + w + dir);
            let later = turns(done.insert(src), w, dir);
            &&& n(src) >= 1 && n(src + dir) >= 1
            &&& na(src) >= 1 && na(src + w) >= 1
            &&& nb(src) >= 1 && nb(src + w + dir) >= 1
            &&& forall|i: int| 0 <= #[trigger] later(i) <= n(i)
            &&& forall|i: int| #[trigger] later(i) <= na(i)
            &&& forall|i: int| #[trigger] later(i) <= nb(i)
            &&& forall|i: int| #[trigger] later(i) <= nc(i)
        }),
{
    reveal(turns);
}

/// A visit keeps the mass, and leaves enough for the visits to come.
proof fn lemma_visit(env: Env, s: State, y: int, x: int, done: Set<int>, err: int)
    requires
        0 <= err,
        has_enough(env, s, turns(done, env.width as int, s.iterate_direction as int)),
        finds_gas(env, s),
        0 <= y * env.width + x < s.cells.len(),
        !done.contains(y * env.width + x),
        spreads_within(env, s, y, x, err),
    ensures
        goes_well(
            env,
            s,
            gas_flow::gas_spread(env, s, y, x),
            turns(
                done.insert(y * env.width + x),
                env.width as int,
                s.iterate_direction as int,
            ),
            6 * err,
        ),
{
    let w = env.width as int;
    let dir = s.iterate_direction as int;
    let src = y * env.width + x;
    let c = s.cells[src];
    let e = c.element_idx;
    let n = turns(done, w, dir);
    let later = turns(done.insert(src), w, dir);
    lemma_turns(done, w, dir, src);
    if is_open(env, c) && gas_flow::still(s, src, e) {
        let d = env.elements.spec_pressure(e)->0;
        lemma_sideways(env, s, y, x, d, n, err);
        let a = gas_flow::shared_sideways(env, s, y, x, e, d);
        let na = after_turn(n, src, src + dir);
        if phase(d.state) == VACUUM && !gas_flow::still(a, src, e) {
            lemma_fewer_turns(env, a, na, later);
        } else {
            lemma_upwards(env, a, src, d, na, err);
            let b = gas_flow::shared_upwards(env, a, src, e, d);
            let nb = after_turn(na, src, src + w);
            if phase(d.state) == VACUUM && !gas_flow::still(b, src, e) {
                lemma_fewer_turns(env, b, nb, later);
            } else {
                lemma_diagonally(env, b, y, x, d, nb, err);
                let t = gas_flow::shared_diagonally(env, b, y, x, e, d);
                lemma_fewer_turns(env, t, after_turn(nb, src, src + w + dir), later);
            }
        }
    } else {
        lemma_fewer_turns(env, s, n, later);
    }
}

/// Whether the sums are off by at most `err` each in every visit of a row's columns `lo..hi`.
pub open spec fn row_within(
    env: Env,
    p: GasPass,
    s: State,
    y: int,
    lo: int,
    hi: int,
    err: int,
) -> bool
    decreases hi - lo,
{
    hi <= lo || {
        let t = sweep::row(p, env, s, y, lo, hi - 1);
        &&& row_within(env, p, s, y, lo, hi - 1, err)
        &&& spreads_within(
            env,
            t,
            y,
            gas_flow::column(
                p.x0 as int,
                p.x1 as int,
                hi - 1,
                t.iterate_direction as int,
            ),
            err,
        )
    }
}

/// Whether the sums are off by at most `err` each in every visit of rows `y0..y1`.
pub open spec fn rows_within(
    env: Env,
    p: GasPass,
    s: State,
    x0: int,
    x1: int,
    y0: int,
    y1: int,
    err: int,
) -> bool
    decreases y1 - y0,
{
    y1 <= y0 || {
        let t = sweep::rows(p, env, s, x0, x1, y0, y1 - 1);
        &&& rows_within(env, p, s, x0, x1, y0, y1 - 1, err)
        &&& row_within(env, p, t, y1 - 1, x0, x1, err)
    }
}

/// How many columns or rows there are from one on and before another.
pub open spec fn span(from: int, to: int) -> int {
    if from < to {
        to - from
    } else {
        0
    }
}

/// A row keeps the mass, and leaves enough for the rows to come. Gives the cells that have been
/// visited.
proof fn lemma_row(
    env: Env,
    p: GasPass,
    s: State,
    y: int,
    lo: int,
    hi: int,
    done: Set<int>,
    err: int,
) -> (all: Set<int>)
    requires
        0 <= err,
        has_enough(env, s, turns(done, env.width as int, s.iterate_direction as int)),
        finds_gas(env, s),
        0 <= y < env.height,
        p.x0 <= lo,
        hi <= p.x1 <= env.width,
        row_within(env, p, s, y, lo, hi, err),
        forall|i: int| #[trigger] done.contains(i) ==> i < y * env.width,
    ensures
        goes_well(
            env,
            s,
            sweep::row(p, env, s, y, lo, hi),
            turns(all, env.width as int, s.iterate_direction as int),
            6 * span(lo, hi) * err,
        ),
        forall|i: int| #[trigger]
            all.contains(i) ==> i < y * env.width || exists|k: int|
                lo <= k < hi && i == y * env.width + #[trigger] gas_flow::column(
                    p.x0 as int,
                    p.x1 as int,
                    k,
                    s.iterate_direction as int,
                ),
    decreases hi - lo,
{
    if hi <= lo {
        done
    } else {
        let part = lemma_row(env, p, s, y, lo, hi - 1, done, err);
        let t = sweep::row(p, env, s, y, lo, hi - 1);
        let dir = s.iterate_direction as int;
        let col = gas_flow::column(p.x0 as int, p.x1 as int, hi - 1, dir);
        lemma_column(env, p, y, hi - 1, dir);
        assert(!part.contains(y * env.width + col));
        lemma_visit(env, t, y, col, part, err);
        let k = span(lo, hi - 1);
        assert(6 * (k + 1) * err == 6 * k * err + 6 * err) by (nonlinear_arith);
        let all = part.insert(y * env.width + col);
        assert forall|i: int| #[trigger] all.contains(i) implies i < y * env.width || exists|k: int|
            lo <= k < hi && i == y * env.width + #[trigger] gas_flow::column(
                p.x0 as int,
                p.x1 as int,
                k,
                dir,
            ) by {
            if i == y * env.width + col {
                assert(i == y * env.width + gas_flow::column(
                    p.x0 as int,
                    p.x1 as int,
                    hi - 1,
                    dir,
                ));
            }
        }
        all
    }
}

/// Rows keep the mass, and leave enough for the rows to come. Gives the cells that have been
/// visited.
proof fn lemma_rows(
    env: Env,
    p: GasPass,
    s: State,
    x0: int,
    x1: int,
    y0: int,
    y1: int,
    err: int,
) -> (all: Set<int>)
    requires
        0 <= err,
        has_enough(env, s, turns(Set::empty(), env.width as int, s.iterate_direction as int)),
        finds_gas(env, s),
        0 <= y0,
        y1 <= env.height,
        p.x0 <= x0,
        x1 <= p.x1 <= env.width,
        rows_within(env, p, s, x0, x1, y0, y1, err),
    ensures
        goes_well(
            env,
            s,
            sweep::rows(p, env, s, x0, x1, y0, y1),
            turns(all, env.width as int, s.iterate_direction as int),
            6 * span(x0, x1) * span(y0, y1) * err,
        ),
        forall|i: int| #[trigger] all.contains(i) ==> y0 < y1 && i < y1 * env.width,
    decreases y1 - y0,
{
    if y1 <= y0 {
        Set::empty()
    } else {
        let done = lemma_rows(env, p, s, x0, x1, y0, y1 - 1, err);
        let t = sweep::rows(p, env, s, x0, x1, y0, y1 - 1);
        let all = lemma_row(env, p, t, y1 - 1, x0, x1, done, err);
        let (c, r) = (span(x0, x1), span(y0, y1 - 1));
        assert(6 * c * (r + 1) * err == 6 * c * r * err + 6 * c * err) by (nonlinear_arith);
        let w = env.width as int;
        assert(y1 * w == (y1 - 1) * w + w) by (nonlinear_arith);
        assert forall|i: int| #[trigger] all.contains(i) implies y0 < y1 && i < y1 * env.width by {
            if !(i < (y1 - 1) * env.width) {
                let k = choose|k: int|
                    x0 <= k < x1 && i == (y1 - 1) * env.width + #[trigger] gas_flow::column(
                        p.x0 as int,
                        p.x1 as int,
                        k,
                        t.iterate_direction as int,
                    );
                lemma_column(env, p, y1 - 1, k, t.iterate_direction as int);
            }
        }
        all
    }
}

/// Whether the sums are off by at most `err` each wherever the gases of a rectangle spread.
pub open spec fn all_within(env: Env, s: State, b: RegionBounds, err: int) -> bool {
    let x0 = sweep::greater(b.min_x as int, 1);
    let x1 = sweep::lesser(b.max_x as int, env.width - 1);
    rows_within(
        env,
        GasPass { x0: x0 as usize, x1: x1 as usize },
        s,
        x0,
        x1,
        sweep::greater(b.min_y as int, 1),
        sweep::lesser(b.max_y as int, env.height - 1),
        err,
    )
}

/// Where the gases of a rectangle spread, no mass falls below zero, and none is lost or gained but
/// for what rounding does: a cell that is visited has three turns, of two sums each, so where no
/// sum is off by more than `err` units, and none is too large to be a number, the mass is off by
/// at most six times that for each cell; and it is kept where all sums are numbers. A cell has six
/// turns at most and gives at most an eighth of its mass in each: so that holds where each cell
/// that is open to gases has what the step found, and that lasts for six turns.
pub proof fn law_spreading_gas_conserves_mass(env: Env, s: State, b: RegionBounds, err: int)
    requires
        0 <= err,
        finds_gas(env, s),
        s.updated.len() == s.cells.len(),
        forall|i: int|
            0 <= i < s.updated.len() ==> pressure_laws::is_amount((#[trigger] s.updated[i]).mass),
        forall|i: int|
            0 <= i < s.updated.len() && is_open(env, s.cells[i]) ==> s.cells[i].mass.le(
                (#[trigger] s.updated[i]).mass,
            ),
        all_within(env, s, b, err),
    ensures
        laws::near(
            laws::total_mass(gas_flow::gases_spread(env, s, b)),
            laws::total_mass(s),
            6 * span(b.min_x as int, b.max_x as int) * span(b.min_y as int, b.max_y as int) * err,
        ),
        err == 0 ==> laws::total_mass(gas_flow::gases_spread(env, s, b)) == laws::total_mass(s),
        forall|i: int|
            0 <= i < s.updated.len() ==> pressure_laws::is_amount(
                (#[trigger] gas_flow::gases_spread(env, s, b).updated[i]).mass,
            ),
{
    if env.height >= 5 && !s.unallocated() {
        let x0 = sweep::greater(b.min_x as int, 1);
        let x1 = sweep::lesser(b.max_x as int, env.width - 1);
        let n = turns(Set::empty(), env.width as int, s.iterate_direction as int);
        reveal(turns);
        assert(has_enough(env, s, n));
        let p = GasPass { x0: x0 as usize, x1: x1 as usize };
        let y0 = sweep::greater(b.min_y as int, 1);
        let y1 = sweep::lesser(b.max_y as int, env.height - 1);
        lemma_rows(env, p, s, x0, x1, y0, y1, err);
        lemma_spans(
            span(x0, x1),
            span(y0, y1),
            span(b.min_x as int, b.max_x as int),
            span(b.min_y as int, b.max_y as int),
            err,
        );
    } else {
        lemma_spans(
            0,
            0,
            span(b.min_x as int, b.max_x as int),
            span(b.min_y as int, b.max_y as int),
            err,
        );
    }
}

/// Fewer cells have fewer roundings.
proof fn lemma_spans(c: int, r: int, w: int, h: int, err: int)
    requires
        0 <= c <= w,
        0 <= r <= h,
        0 <= err,
    ensures
        0 <= 6 * c * r * err <= 6 * w * h * err,
        err == 0 ==> 6 * c * r * err == 0,
{
    assert(0 <= c * r <= w * h) by (nonlinear_arith)
        requires
            0 <= c <= w,
            0 <= r <= h,
    ;
    let (m, n) = (c * r, w * h);
    assert(6 * c * r * err == 6 * (m * err) && 6 * w * h * err == 6 * (n * err))
        by (nonlinear_arith)
        requires
            m == c * r,
            n == w * h,
    ;
    assert(0 <= m * err <= n * err) by (nonlinear_arith)
        requires
            0 <= m <= n,
            0 <= err,
    ;
}

} // verus!
