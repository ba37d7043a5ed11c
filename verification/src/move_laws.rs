//! What holds where a liquid goes one way only, and what that way is.
use crate::cell::share;
use crate::cell::Cell;
use crate::constants::CENTI;
use crate::constants::COMPRESSION;
use crate::constants::HALF;
use crate::constants::QUARTER;
use crate::constants::TWO;
use crate::constants::ZERO;
use crate::displacement;
use crate::element::ElementLiquidData;
use crate::heat_laws;
use crate::laws;
use crate::liquid_flow;
use crate::number::num;
use crate::number::F32;
use crate::pressure_laws::is_amount;
use crate::push_laws::alike_but;
use crate::push_laws::is_void_of;
use crate::region_events::SpawnFallingLiquidInfo;
use crate::sim_data::Env;
use crate::sim_data::State;
use vstd::prelude::*;

verus! {

/// The phase of an element: nothing, a gas, a liquid or a solid, counted from zero; minus one where
/// it is not in the table.
pub open spec fn phase_of(env: Env, elem: u16) -> int {
    match env.elements.spec_liquid(elem) {
        Some(d) => (d.state & 3) as int,
        None => -1,
    }
}

/// Whether a liquid cannot enter a cell: it is marked, it was found to hold another liquid, a solid
/// or what is not in the table, or it holds a solid by now.
pub open spec fn is_barred(env: Env, s: State, elem: u16, n: int) -> bool {
    let p = phase_of(env, s.cells[n].element_idx);
    ||| s.cells[n].properties & 2 != 0
    ||| s.cells[n].element_idx != elem && p != 0 && p != 1
    ||| phase_of(env, s.updated[n].element_idx) == 3
}

/// Whether a cell is open to a liquid that falls: it is there, not marked, and holds a gas or
/// nothing.
pub open spec fn is_open(env: Env, s: State, n: int) -> bool {
    &&& 0 <= n < s.updated.len()
    &&& s.updated[n].properties & 2 == 0
    &&& phase_of(env, s.updated[n].element_idx) == 0 || phase_of(env, s.updated[n].element_idx) == 1
}

/// Whether a cell holds a liquid that has not changed in this step, inside the world.
pub open spec fn is_liquid_at(env: Env, s: State, cell: int) -> bool {
    &&& env.width >= 3
    &&& env.width < cell
    &&& cell + env.width + 1 < s.cells.len()
    &&& s.cells.len() == s.updated.len()
    &&& s.flow.len() == s.cells.len()
    &&& 0 < cell % env.width as int
    &&& cell % env.width as int + 1 < env.width
    &&& phase_of(env, s.cells[cell].element_idx) == 2
    &&& s.updated[cell] == s.cells[cell]
    &&& s.cells[cell].element_idx != env.void_element_idx
    &&& is_amount(s.cells[cell].mass)
    &&& num(ZERO).lt(s.cells[cell].mass)
}

/// Whether a cell is barred above.
pub open spec fn is_capped(env: Env, s: State, cell: int) -> bool {
    is_barred(env, s, s.cells[cell].element_idx, cell + env.width)
}

/// Whether there is a floor below a cell that its liquid cannot fall through: a solid, a mark or
/// another liquid.
pub open spec fn is_floored(env: Env, s: State, cell: int) -> bool {
    let below = cell - env.width;
    let b = s.cells[below];
    let p = phase_of(env, s.updated[below].element_idx);
    ||| p == 3
    ||| p != -1 && b.properties & 2 != 0
    ||| p != -1 && b.element_idx != s.cells[cell].element_idx && phase_of(env, b.element_idx) == 2
}

/// Whether no gas is diagonally below a cell, into which a liquid could slip.
pub open spec fn has_no_slope(env: Env, s: State, cell: int) -> bool {
    let below = cell - env.width;
    &&& phase_of(env, s.updated[below - 1].element_idx) != 1
    &&& phase_of(env, s.updated[below + 1].element_idx) != 1
}

/// The least of three numbers.
pub open spec fn is_least(f: F32, a: F32, b: F32, c: F32) -> bool {
    &&& f.le(a) && f.le(b) && f.le(c)
    &&& f == a || f == b || f == c
}

/// Sides that are barred take nothing.
proof fn lemma_no_spread(env: Env, s: State, cell: int, dx: int, mass: F32, count: i32)
    requires
        is_barred(env, s, s.cells[cell].element_idx, cell + dx),
    ensures
        ({
            let a = liquid_flow::spread(env, s, cell, dx, mass, count);
            a.state == s && a.mass == mass && a.count == count
        }),
{
    reveal(liquid_flow::spread);
}

proof fn lemma_no_rise(env: Env, s: State, cell: int, mass: F32, count: i32)
    requires
        is_capped(env, s, cell),
    ensures
        ({
            let a = liquid_flow::risen(env, s, cell, mass, count);
            a.state == s && a.mass == mass && a.count == count
        }),
{
    reveal(liquid_flow::risen);
}

proof fn lemma_no_slip(env: Env, s: State, cell: int)
    requires
        has_no_slope(env, s, cell),
        env.width < cell,
        cell < s.updated.len(),
    ensures
        liquid_flow::slipped(env, s, cell) == s,
{
    reveal(liquid_flow::slipped);
}

proof fn lemma_floor(env: Env, s: State, cell: int)
    requires
        is_floored(env, s, cell),
    ensures
        ({
            let a = liquid_flow::fallen(env, s, cell);
            let c = s.cells[cell];
            a.state == s && a.mass == c.mass && a.count == c.disease_count && !a.done
        }),
{
    lemma_low_bits(env, s.updated[cell - env.width].element_idx);
    lemma_low_bits(env, s.cells[cell - env.width].element_idx);
    reveal(liquid_flow::fallen);
}

/// A phase is one of four.
pub proof fn lemma_low_bits(env: Env, elem: u16)
    ensures
        -1 <= phase_of(env, elem) <= 3,
        phase_of(env, elem) == -1 <==> env.elements.spec_liquid_phase(elem) == 0xff,
        phase_of(env, elem) != -1 ==> env.elements.spec_liquid_phase(elem) == phase_of(env, elem),
{
    if let Some(d) = env.elements.spec_liquid(elem) {
        lemma_two_bits(d.state);
    }
}

/// Two bits make at most three.
pub proof fn lemma_two_bits(x: u8)
    ensures
        x & 3 <= 3,
{
    assert(x & 3 <= 3) by (bit_vector);
}

/// A liquid that is closed in on all sides stays as it is.
pub proof fn law_enclosed_liquid_stays(env: Env, s: State, cell: int)
    requires
        is_liquid_at(env, s, cell),
        is_floored(env, s, cell),
        is_barred(env, s, s.cells[cell].element_idx, cell - 1),
        is_barred(env, s, s.cells[cell].element_idx, cell + 1),
        is_capped(env, s, cell),
        has_no_slope(env, s, cell),
    ensures
        liquid_flow::liquid_moved(env, s, cell) == s,
{
    let c = s.cells[cell];
    lemma_floor(env, s, cell);
    lemma_no_spread(env, s, cell, -1, c.mass, c.disease_count);
    lemma_no_spread(env, s, cell, 1, c.mass, c.disease_count);
    lemma_no_rise(env, s, cell, c.mass, c.disease_count);
    lemma_no_slip(env, s, cell);
}

/// Whether an amount of a liquid has flowed from a cell into another one: that has gained it at the
/// temperature of the first, with its share of the germs; and the first has lost it.
pub open spec fn has_flowed(
    env: Env,
    s: State,
    t: State,
    cell: int,
    n: int,
    was: Cell,
    amount: F32,
) -> bool {
    let c = s.cells[cell];
    let now = t.updated[n];
    let left = t.updated[cell];
    let germs = share(amount, c.mass, c.disease_count);
    &&& heat_laws::has_gained(was, Cell { element_idx: was.element_idx, ..now }, amount, c.temperature)
    &&& now.element_idx == c.element_idx
    &&& heat_laws::has_germs_from(env.diseases, was, now, c.disease_idx, germs)
    &&& left.mass == c.mass.minus(amount)
    &&& left.temperature == c.temperature
    &&& left.element_idx == c.element_idx
    &&& heat_laws::same_place(c, left)
    &&& 0 <= germs < c.disease_count ==> left.disease_count == c.disease_count - germs
        && left.disease_idx == c.disease_idx
    &&& 0 <= c.disease_count <= germs ==> laws::clean(left)
}

/// A liquid that can be taken in by its own kind is: mass, warmth and germs are mixed.
proof fn lemma_joined(
    env: Env,
    s: State,
    cell: int,
    n: int,
    amount: F32,
    germs: i32,
    side: crate::sim_data::Side,
)
    requires
        0 <= cell < s.cells.len(),
        s.cells.len() == s.updated.len(),
        0 <= n < s.updated.len(),
        n != cell,
        s.updated[cell] == s.cells[cell],
        s.updated[n].element_idx == s.cells[cell].element_idx,
        germs == share(amount, s.cells[cell].mass, s.cells[cell].disease_count),
        heat_laws::can_mix(
            s.updated[n].mass,
            s.updated[n].temperature,
            amount,
            s.cells[cell].temperature,
        ),
    ensures
        ({
            let c = s.cells[cell];
            let (t, ok) = liquid_flow::offered(
                env,
                s,
                cell,
                c.element_idx,
                n,
                amount,
                c.disease_idx,
                germs,
            );
            let u = liquid_flow::debited(t, cell, c.disease_idx, amount, germs, side);
            &&& ok
            &&& has_flowed(env, s, u, cell, n, s.updated[n], amount)
            &&& alike_but(s, u, set![cell, n])
            &&& u.updated[cell].properties == s.updated[cell].properties
            &&& s.flow.len() == s.cells.len() ==> u.flow == s.flow.update(
                cell,
                s.flow[cell].with(side, amount),
            )
        }),
{
    let c = s.cells[cell];
    heat_laws::law_added_mass_mixes(
        s.updated[n],
        env.diseases,
        amount,
        c.temperature,
        c.disease_idx,
        germs,
    );
    if 0 <= germs && 0 <= c.disease_count {
        heat_laws::law_germs_leave(c, germs);
    }
}

/// How much falls into the same liquid below: all of it, but no more than flows at a time, and no
/// more than half of the room there, up to the greater of its full mass and a hundredth more than
/// what is above.
pub open spec fn is_fall(d: ElementLiquidData, mass: F32, held: F32, amount: F32) -> bool {
    let top = if mass.times(num(COMPRESSION)).lt(d.max_mass) {
        d.max_mass
    } else {
        mass.times(num(COMPRESSION))
    };
    let room = top.minus(held);
    is_least(
        amount,
        mass,
        d.viscosity,
        if room.lt(num(ZERO)) {
            num(ZERO).times(num(HALF))
        } else {
            room.times(num(HALF))
        },
    )
}

/// A liquid with the same liquid below it, and closed in otherwise, falls into it as far as there
/// is room: mass, warmth and germs go along.
pub proof fn law_liquid_falls_into_its_kind(env: Env, s: State, cell: int, amount: F32)
    requires
        is_liquid_at(env, s, cell),
        ({
            let c = s.cells[cell];
            let below = cell - env.width;
            let d = env.elements.spec_liquid(c.element_idx)->0;
            &&& s.cells[below].element_idx == c.element_idx
            &&& s.updated[below].element_idx == c.element_idx
            &&& s.cells[below].properties & 2 == 0
            &&& is_fall(d, c.mass, s.cells[below].mass, amount)
            &&& !d.viscosity.is_nan() && !d.max_mass.is_nan() && is_amount(s.cells[below].mass)
            &&& num(ZERO).lt(amount)
            &&& c.mass.le(d.min_vertical_flow) || d.min_vertical_flow.le(amount)
            &&& heat_laws::can_mix(
                s.updated[below].mass,
                s.updated[below].temperature,
                amount,
                c.temperature,
            )
        }),
        is_barred(env, s, s.cells[cell].element_idx, cell - 1),
        is_barred(env, s, s.cells[cell].element_idx, cell + 1),
        is_capped(env, s, cell),
        has_no_slope(env, s, cell),
    ensures
        ({
            let t = liquid_flow::liquid_moved(env, s, cell);
            let below = cell - env.width;
            &&& has_flowed(env, s, t, cell, below, s.updated[below], amount)
            &&& alike_but(s, t, set![cell, below])
            &&& t.flow[cell].z == s.flow[cell].z.plus(amount)
        }),
{
    let c = s.cells[cell];
    let below = cell - env.width;
    let d = env.elements.spec_liquid(c.element_idx)->0;
    let f = liquid_flow::fall_amount(d, c.mass, s.cells[below].mass);
    lemma_least(d, c.mass, s.cells[below].mass, amount);
    assert(f.same(amount));
    lemma_positive_same(f, amount);
    let germs = share(amount, c.mass, c.disease_count);
    lemma_joined(env, s, cell, below, amount, germs, crate::sim_data::Side::Down);
    reveal(liquid_flow::fallen);
    let a = liquid_flow::fallen(env, s, cell);
    assert(!a.done);
    assert(a.state.cells == s.cells);
    assert(has_no_slope(env, a.state, cell));
    lemma_no_spread(env, a.state, cell, -1, a.mass, a.count);
    lemma_no_spread(env, a.state, cell, 1, a.mass, a.count);
    lemma_no_rise(env, a.state, cell, a.mass, a.count);
    lemma_no_slip(env, a.state, cell);
}

/// Numbers above zero in the same place are the same.
proof fn lemma_positive_same(x: F32, y: F32)
    requires
        x.same(y),
        num(ZERO).lt(y),
    ensures
        x == y,
{
}

proof fn lemma_least(d: ElementLiquidData, mass: F32, held: F32, amount: F32)
    requires
        is_fall(d, mass, held, amount),
        is_amount(mass),
        !d.viscosity.is_nan(),
        !d.max_mass.is_nan(),
    ensures
        liquid_flow::fall_amount(d, mass, held).same(amount),
{
    laws::lemma_product_sign(mass, num(COMPRESSION));
}

/// How much flows sideways: all of it, but no more than flows at a time, and no more than a quarter
/// of the difference to what is there.
pub open spec fn is_spread(d: ElementLiquidData, mass: F32, held: F32, amount: F32) -> bool {
    is_least(amount, mass, d.viscosity, mass.minus(held).times(num(QUARTER)))
}

/// How much rises: half of what is more than the cell above can press down, which is its full mass
/// or a hundredth more than what is there. Where that is less than half of all, no more rises than
/// flows at a time.
pub open spec fn is_rise(d: ElementLiquidData, mass: F32, held: F32, amount: F32) -> bool {
    let top = if held.times(num(COMPRESSION)).lt(d.max_mass) {
        d.max_mass
    } else {
        held.times(num(COMPRESSION))
    };
    let more = mass.minus(top);
    let half = if more.lt(num(ZERO)) {
        num(ZERO).times(num(HALF))
    } else {
        more.times(num(HALF))
    };
    if mass.lt(top.times(num(TWO))) {
        is_least(amount, half, d.viscosity, mass)
    } else {
        amount == half
    }
}

/// Whether no side of a cell but those at the given distances lets its liquid out.
pub open spec fn is_closed_but(env: Env, s: State, cell: int, way: int) -> bool {
    let elem = s.cells[cell].element_idx;
    &&& way != -1 ==> is_barred(env, s, elem, cell - 1)
    &&& way != 1 ==> is_barred(env, s, elem, cell + 1)
    &&& way != env.width ==> is_capped(env, s, cell)
    &&& is_floored(env, s, cell)
    &&& has_no_slope(env, s, cell)
}

/// A liquid on a floor with the same liquid beside it, and closed in otherwise, spreads into it: by
/// a quarter of the difference, but no more than flows at a time.
pub proof fn law_liquid_spreads_into_its_kind(env: Env, s: State, cell: int, dx: int, amount: F32)
    requires
        is_liquid_at(env, s, cell),
        dx == 1 || dx == -1,
        is_closed_but(env, s, cell, dx),
        ({
            let c = s.cells[cell];
            let n = cell + dx;
            let d = env.elements.spec_liquid(c.element_idx)->0;
            &&& s.cells[n].element_idx == c.element_idx
            &&& s.updated[n].element_idx == c.element_idx
            &&& s.cells[n].properties & 2 == 0
            &&& !is_open(env, s, n - env.width)
            &&& is_spread(d, c.mass, s.cells[n].mass, amount)
            &&& !d.viscosity.is_nan()
            &&& num(ZERO).lt(amount)
            &&& d.min_horizontal_flow.le(amount)
            &&& heat_laws::can_mix(
                s.updated[n].mass,
                s.updated[n].temperature,
                amount,
                c.temperature,
            )
        }),
    ensures
        ({
            let t = liquid_flow::liquid_moved(env, s, cell);
            let n = cell + dx;
            &&& has_flowed(env, s, t, cell, n, s.updated[n], amount)
            &&& alike_but(s, t, set![cell, n])
            &&& dx == -1 ==> t.flow[cell].x == s.flow[cell].x.plus(amount)
            &&& dx == 1 ==> t.flow[cell].y == s.flow[cell].y.plus(amount)
        }),
{
    let c = s.cells[cell];
    let n = cell + dx;
    let germs = share(amount, c.mass, c.disease_count);
    let d = env.elements.spec_liquid(c.element_idx)->0;
    let side = if dx < 0 {
        crate::sim_data::Side::Left
    } else {
        crate::sim_data::Side::Right
    };
    lemma_low_bits(env, c.element_idx);
    lemma_low_bits(env, s.updated[n - env.width].element_idx);
    lemma_joined(env, s, cell, n, amount, germs, side);
    lemma_floor(env, s, cell);
    let f = c.mass.min(d.viscosity).min(
        c.mass.minus(liquid_flow::held_at(env, s, n)).times(num(QUARTER)),
    );
    assert(f.same(amount));
    lemma_positive_same(f, amount);
    if dx == 1 {
        lemma_no_spread(env, s, cell, -1, c.mass, c.disease_count);
    }
    let a = liquid_flow::spread(env, s, cell, dx, c.mass, c.disease_count);
    assert(a == (liquid_flow::Leg {
        state: liquid_flow::debited(
            liquid_flow::offered(
                env,
                s,
                cell,
                c.element_idx,
                n,
                amount,
                c.disease_idx,
                germs,
            ).0,
            cell,
            c.disease_idx,
            amount,
            germs,
            side,
        ),
        mass: c.mass.minus(amount),
        count: c.disease_count.wrapping_sub(germs),
        done: false,
    })) by {
        reveal(liquid_flow::spread);
    }
    if dx == -1 {
        lemma_no_spread(env, a.state, cell, 1, a.mass, a.count);
    }
    lemma_no_rise(env, a.state, cell, a.mass, a.count);
    lemma_no_slip(env, a.state, cell);
}

/// A liquid on a floor with the same liquid above it, and closed in otherwise, rises where it is
/// pressed together.
pub proof fn law_liquid_rises_into_its_kind(env: Env, s: State, cell: int, amount: F32)
    requires
        is_liquid_at(env, s, cell),
        is_closed_but(env, s, cell, env.width as int),
        ({
            let c = s.cells[cell];
            let up = cell + env.width;
            let d = env.elements.spec_liquid(c.element_idx)->0;
            &&& s.cells[up].element_idx == c.element_idx
            &&& s.updated[up].element_idx == c.element_idx
            &&& s.cells[up].properties & 2 == 0
            &&& is_amount(s.cells[up].mass)
            &&& is_amount(d.max_mass)
            &&& !d.viscosity.is_nan()
            &&& is_rise(d, c.mass, s.cells[up].mass, amount)
            &&& num(CENTI).lt(amount)
            &&& heat_laws::can_mix(
                s.updated[up].mass,
                s.updated[up].temperature,
                amount,
                c.temperature,
            )
        }),
    ensures
        ({
            let t = liquid_flow::liquid_moved(env, s, cell);
            let up = cell + env.width;
            &&& has_flowed(env, s, t, cell, up, s.updated[up], amount)
            &&& alike_but(s, t, set![cell, up])
            &&& t.flow[cell].w == s.flow[cell].w.plus(amount)
        }),
{
    let c = s.cells[cell];
    let up = cell + env.width;
    let germs = share(amount, c.mass, c.disease_count);
    let d = env.elements.spec_liquid(c.element_idx)->0;
    lemma_low_bits(env, c.element_idx);
    lemma_joined(env, s, cell, up, amount, germs, crate::sim_data::Side::Up);
    lemma_floor(env, s, cell);
    lemma_no_spread(env, s, cell, -1, c.mass, c.disease_count);
    lemma_no_spread(env, s, cell, 1, c.mass, c.disease_count);
    let f = liquid_flow::rise_amount(d, c.mass, s.cells[up].mass);
    laws::lemma_zero_value();
    laws::lemma_product_sign(s.cells[up].mass, num(COMPRESSION));
    assert(f.same(amount)) by {
        lemma_rise(d, c.mass, s.cells[up].mass, amount);
    }
    lemma_positive_same(f, amount);
    let a = liquid_flow::risen(env, s, cell, c.mass, c.disease_count);
    assert(a.state == liquid_flow::debited(
        liquid_flow::offered(
            env,
            s,
            cell,
            c.element_idx,
            up,
            amount,
            c.disease_idx,
            germs,
        ).0,
        cell,
        c.disease_idx,
        amount,
        germs,
        crate::sim_data::Side::Up,
    )) by {
        reveal(liquid_flow::risen);
    }
    lemma_no_slip(env, a.state, cell);
}

proof fn lemma_rise(d: ElementLiquidData, mass: F32, held: F32, amount: F32)
    requires
        is_rise(d, mass, held, amount),
        num(CENTI).lt(amount),
        is_amount(mass),
        is_amount(held),
        is_amount(d.max_mass),
        !d.viscosity.is_nan(),
    ensures
        liquid_flow::rise_amount(d, mass, held).same(amount),
{
    laws::lemma_product_sign(held, num(COMPRESSION));
    let top = if held.times(num(COMPRESSION)).lt(d.max_mass) {
        d.max_mass
    } else {
        held.times(num(COMPRESSION))
    };
    let more = mass.minus(top);
    if top.is_finite() {
        crate::number_laws::law_sum_is_rounded(mass, top.neg());
    } else {
        assert(top.neg().mag() == top.mag());
        reveal(F32::spec_plus);
    }
    assert(!more.is_nan());
}

/// Whether the substances of two cells have changed places, and the marks have not.
pub open spec fn has_swapped(s: State, t: State, a: int, b: int) -> bool {
    &&& holds_what(s.updated[b], t.updated[a])
    &&& holds_what(s.updated[a], t.updated[b])
    &&& heat_laws::same_place(s.updated[a], t.updated[a])
    &&& heat_laws::same_place(s.updated[b], t.updated[b])
    &&& alike_but(s, t, set![a, b])
}

/// Whether a cell holds what another held: element, mass, warmth and germs.
pub open spec fn holds_what(was: Cell, now: Cell) -> bool {
    &&& now.element_idx == was.element_idx
    &&& now.mass == was.mass
    &&& now.temperature == was.temperature
    &&& heat_laws::same_germs(was, now)
}

/// To swap cells is to swap what they hold.
pub proof fn law_swap(s: State, a: int, b: int)
    requires
        0 <= a < s.updated.len(),
        0 <= b < s.updated.len(),
        a != b,
    ensures
        has_swapped(s, s.swapped(a, b), a, b),
{
}

/// Whether a liquid stands over a gas or nothing that is not the void.
pub open spec fn is_over_gas(env: Env, s: State, cell: int) -> bool {
    let below = cell - env.width;
    let p = phase_of(env, s.cells[below].element_idx);
    let q = phase_of(env, s.updated[below].element_idx);
    &&& p == 0 || p == 1
    &&& q != -1 && q != 3
    &&& s.cells[below].element_idx != s.cells[cell].element_idx
    &&& s.cells[below].properties & 2 == 0
}

/// Whether the fall from a cell leads past an edge: on one side the way is open beside the cell and
/// closed below that.
pub open spec fn is_edge(env: Env, s: State, cell: int) -> bool {
    let below = cell - env.width;
    ||| is_open(env, s, cell - 1) && !is_open(env, s, below - 1)
    ||| is_open(env, s, cell + 1) && !is_open(env, s, below + 1)
}

pub proof fn lemma_open(env: Env, s: State, n: int)
    ensures
        is_open(env, s, n) == liquid_flow::open_at(env, s, n),
{
    if 0 <= n < s.updated.len() {
        lemma_low_bits(env, s.updated[n].element_idx);
    }
}

/// A liquid over a gas or nothing changes places with it, unless there is an edge; and it is done.
pub proof fn law_liquid_falls_through_gas(env: Env, s: State, cell: int)
    requires
        is_liquid_at(env, s, cell),
        is_over_gas(env, s, cell),
        s.cells[cell - env.width].element_idx != env.void_element_idx,
        !is_edge(env, s, cell),
    ensures
        has_swapped(s, liquid_flow::liquid_moved(env, s, cell), cell, cell - env.width),
{
    let below = cell - env.width;
    lemma_low_bits(env, s.cells[below].element_idx);
    lemma_low_bits(env, s.updated[below].element_idx);
    lemma_low_bits(env, s.cells[cell].element_idx);
    lemma_open(env, s, cell - 1);
    lemma_open(env, s, cell + 1);
    lemma_open(env, s, below - 1);
    lemma_open(env, s, below + 1);
    reveal(liquid_flow::fallen);
    law_swap(s, cell, below);
    let t = s.swapped(cell, below);
    assert(liquid_flow::liquid_moved(env, s, cell) == t.changed(env, cell).changed(env, below));
}

/// Whether a droplet can be shown that falls from a cell: there is a viewer, the place is in the
/// picture or edited, the cell below it lets liquids through, and the element keeps its phase, give
/// or take three degrees.
pub open spec fn is_in_view(env: Env, s: State, cell: int, elem: u16, temperature: F32) -> bool {
    &&& !env.headless
    &&& s.events is Some
    &&& env.visible_grid@.len() != 0
    &&& s.cells[cell - env.width].properties & 2 == 0
    &&& env.on_game_grid(cell)
    &&& env.visible_grid@[env.game_cell(cell)] != 0 || env.is_debug_editing
    &&& env.elements.spec_temperature(elem) matches Some(d) && !temperature.lt(
        d.low_temp.minus(num(crate::constants::THREE)),
    ) && !d.high_temp.plus(num(crate::constants::THREE)).lt(temperature)
}

/// At an edge a liquid over a gas or nothing leaves its cell as a droplet of the same element,
/// mass, temperature and germs, where that can be shown, and stays otherwise.
pub proof fn law_liquid_drips_at_an_edge(env: Env, s: State, cell: int)
    requires
        is_liquid_at(env, s, cell),
        is_over_gas(env, s, cell),
        s.cells[cell - env.width].element_idx != env.void_element_idx,
        is_edge(env, s, cell),
        s.sink is None,
    ensures
        ({
            let c = s.cells[cell];
            let t = liquid_flow::liquid_moved(env, s, cell);
            if is_in_view(env, s, cell, c.element_idx, c.temperature) {
                &&& is_void_of(env, c, t.updated[cell])
                &&& alike_but(s, t, set![cell])
                &&& t.events->0.spawn_liquid_info == s.events->0.spawn_liquid_info.push(
                    SpawnFallingLiquidInfo {
                        cell_idx: env.game_cell(cell) as i32,
                        element_idx: c.element_idx,
                        disease_idx: c.disease_idx,
                        mass: c.mass,
                        temperature: c.temperature,
                        disease_count: c.disease_count,
                    },
                )
            } else {
                t == s
            }
        }),
{
    let below = cell - env.width;
    lemma_low_bits(env, s.cells[below].element_idx);
    lemma_low_bits(env, s.updated[below].element_idx);
    lemma_low_bits(env, s.cells[cell].element_idx);
    lemma_open(env, s, cell - 1);
    lemma_open(env, s, cell + 1);
    lemma_open(env, s, below - 1);
    lemma_open(env, s, below + 1);
    reveal(liquid_flow::fallen);
}

/// Over the void a liquid is gone.
pub proof fn law_liquid_falls_into_the_void(env: Env, s: State, cell: int)
    requires
        is_liquid_at(env, s, cell),
        is_over_gas(env, s, cell),
        s.cells[cell - env.width].element_idx == env.void_element_idx,
    ensures
        ({
            let t = liquid_flow::liquid_moved(env, s, cell);
            is_void_of(env, s.cells[cell], t.updated[cell]) && alike_but(s, t, set![cell])
        }),
{
    let below = cell - env.width;
    lemma_low_bits(env, s.cells[below].element_idx);
    lemma_low_bits(env, s.updated[below].element_idx);
    lemma_low_bits(env, s.cells[cell].element_idx);
    reveal(liquid_flow::fallen);
}

/// A liquid that is closed in, but for a gas diagonally below it behind a solid or marked cell,
/// slips past the corner: to the right before to the left.
pub proof fn law_liquid_slips(env: Env, s: State, cell: int, dx: int)
    requires
        is_liquid_at(env, s, cell),
        dx == 1 || dx == -1,
        is_barred(env, s, s.cells[cell].element_idx, cell - 1),
        is_barred(env, s, s.cells[cell].element_idx, cell + 1),
        is_capped(env, s, cell),
        ({
            let below = cell - env.width;
            let goal = s.updated[below + dx];
            let beside = s.updated[cell + dx];
            &&& is_floored(env, s, cell)
            &&& phase_of(env, s.updated[below].element_idx) == 2
            &&& s.updated[below].properties & 3 == 0
            &&& s.updated[cell].properties & 1 == 0
            &&& phase_of(env, goal.element_idx) == 1
            &&& goal.properties & 2 == 0
            &&& phase_of(env, beside.element_idx) == 3 || beside.properties & 1 != 0
            &&& dx == -1 ==> phase_of(env, s.updated[below + 1].element_idx) != 1
        }),
    ensures
        has_swapped(
            s,
            liquid_flow::liquid_moved(env, s, cell),
            cell,
            cell - env.width + dx,
        ),
{
    let c = s.cells[cell];
    let below = cell - env.width;
    lemma_low_bits(env, s.updated[below].element_idx);
    lemma_low_bits(env, s.updated[below + dx].element_idx);
    lemma_low_bits(env, s.updated[below + 1].element_idx);
    lemma_low_bits(env, s.updated[cell + dx].element_idx);
    lemma_floor(env, s, cell);
    lemma_no_spread(env, s, cell, -1, c.mass, c.disease_count);
    lemma_no_spread(env, s, cell, 1, c.mass, c.disease_count);
    lemma_no_rise(env, s, cell, c.mass, c.disease_count);
    law_swap(s, cell, below + dx);
    reveal(liquid_flow::slipped);
    let t = s.swapped(cell, below + dx);
    assert(liquid_flow::slipped(env, s, cell) == t.changed(env, cell).changed(env, below + dx));
}

/// A liquid that is offered to its own kind is taken in with its mass, its warmth and its germs,
/// and nothing else changes.
pub proof fn law_offer_to_its_kind(
    env: Env,
    s: State,
    src: int,
    dst: int,
    amount: F32,
    kind: u8,
    count: i32,
)
    requires
        0 <= src < s.cells.len(),
        0 <= dst < s.updated.len(),
        heat_laws::can_mix(
            s.updated[dst].mass,
            s.updated[dst].temperature,
            amount,
            s.cells[src].temperature,
        ),
    ensures
        ({
            let elem = s.updated[dst].element_idx;
            let (t, ok) = liquid_flow::offered(env, s, src, elem, dst, amount, kind, count);
            &&& ok
            &&& heat_laws::has_gained(
                s.updated[dst],
                t.updated[dst],
                amount,
                s.cells[src].temperature,
            )
            &&& heat_laws::has_germs_from(env.diseases, s.updated[dst], t.updated[dst], kind, count)
            &&& alike_but(s, t, set![dst])
        }),
{
    heat_laws::law_added_mass_mixes(
        s.updated[dst],
        env.diseases,
        amount,
        s.cells[src].temperature,
        kind,
        count,
    );
}

/// A liquid that is offered to an empty cell fills it; one that is offered to a gas that can leave
/// fills the cell once that is gone, and brings nothing where the gas cannot leave. Another liquid
/// takes nothing in. The void swallows what is offered.
#[verifier::rlimit(40)]
pub proof fn law_offer_to_others(
    env: Env,
    s: State,
    src: int,
    elem: u16,
    dst: int,
    amount: F32,
    kind: u8,
    count: i32,
)
    requires
        0 <= src < s.cells.len(),
        0 <= dst < s.updated.len(),
        env.width >= 2,
        s.updated[dst].element_idx != elem,
        s.updated[dst].element_idx < env.elements.ids@.len(),
    ensures
        ({
            let (t, ok) = liquid_flow::offered(env, s, src, elem, dst, amount, kind, count);
            let d = s.updated[dst];
            let p = phase_of(env, d.element_idx);
            let warmth = s.cells[src].temperature;
            let now = t.updated[dst];
            let goal = displacement::gas_goal(env, s, dst, d.element_idx);
            &&& d.element_idx == env.void_element_idx ==> ok && now == (Cell {
                mass: num(ZERO),
                ..d
            }) && alike_but(s, t, set![dst])
            &&& d.element_idx != env.void_element_idx && (p == -1 || p == 2) ==> !ok && t == s
            &&& d.element_idx != env.void_element_idx && p == 0 && heat_laws::can_mix(
                d.mass,
                d.temperature,
                amount,
                warmth,
            ) ==> {
                &&& ok
                &&& now.element_idx == elem
                &&& heat_laws::has_gained(
                    d,
                    Cell { element_idx: d.element_idx, ..now },
                    amount,
                    warmth,
                )
                &&& heat_laws::has_germs_from(env.diseases, d, now, kind, count)
                &&& alike_but(s, t, set![dst])
            }
            &&& d.element_idx != env.void_element_idx && p == 1 ==> ok == (goal is Some)
            &&& d.element_idx != env.void_element_idx && p == 1 && goal is None ==> t == s
            &&& d.element_idx != env.void_element_idx && p == 1 && goal is Some
                && heat_laws::can_mix(
                s.updated[goal->0].mass,
                s.updated[goal->0].temperature,
                d.mass,
                d.temperature,
            ) && heat_laws::can_mix(num(ZERO), num(ZERO), amount, warmth) ==> {
                let empty = Cell { mass: num(ZERO), temperature: num(ZERO), ..now };
                let same = Cell {
                    element_idx: s.updated[goal->0].element_idx,
                    ..t.updated[goal->0]
                };
                &&& now.element_idx == elem
                &&& heat_laws::has_gained(empty, now, amount, warmth)
                &&& heat_laws::same_place(d, now)
                &&& count > 0 && kind != 0xff ==> now.disease_idx == kind && now.disease_count
                    == count
                &&& count <= 0 ==> laws::clean(now)
                &&& heat_laws::has_gained(s.updated[goal->0], same, d.mass, d.temperature)
                &&& t.updated[goal->0].element_idx == d.element_idx
                &&& alike_but(s, t, set![dst, goal->0])
            }
        }),
{
    let d = s.updated[dst];
    let warmth = s.cells[src].temperature;
    lemma_low_bits(env, d.element_idx);
    laws::lemma_gas_goal(env, s, dst, d.element_idx);
    let goal = displacement::gas_goal(env, s, dst, d.element_idx);
    if heat_laws::can_mix(d.mass, d.temperature, amount, warmth) {
        heat_laws::law_added_mass_mixes(
            Cell { element_idx: elem, ..d },
            env.diseases,
            amount,
            warmth,
            kind,
            count,
        );
    }
    if goal is Some && heat_laws::can_mix(
        s.updated[goal->0].mass,
        s.updated[goal->0].temperature,
        d.mass,
        d.temperature,
    ) && heat_laws::can_mix(num(ZERO), num(ZERO), amount, warmth) {
        crate::push_laws::law_moving_on(env, s, dst, goal->0);
        let u = displacement::moved(env, s, dst, goal->0);
        heat_laws::law_added_mass_mixes(
            Cell { element_idx: elem, ..u.updated[dst] },
            env.diseases,
            amount,
            warmth,
            kind,
            count,
        );
    }
}

/// Whether a cell has lost an amount, with a share of the germs that were left, to a neighbour that
/// has gained it at the cell's temperature.
pub open spec fn has_passed_on(
    env: Env,
    s: State,
    t: State,
    cell: int,
    n: int,
    amount: F32,
    mass: F32,
    count: i32,
) -> bool {
    let c = s.cells[cell];
    &&& heat_laws::has_gained(s.updated[n], t.updated[n], amount, c.temperature)
    &&& heat_laws::has_germs_from(
        env.diseases,
        s.updated[n],
        t.updated[n],
        c.disease_idx,
        share(amount, mass, count),
    )
}

/// Whether a neighbour holds the same liquid as a cell, by what the step found and by now.
pub open spec fn is_kin(env: Env, s: State, cell: int, n: int) -> bool {
    &&& 0 <= n < s.updated.len()
    &&& s.cells[n].element_idx == s.cells[cell].element_idx
    &&& s.updated[n].element_idx == s.cells[cell].element_idx
    &&& s.cells[n].properties & 2 == 0
}

/// Whether a neighbour can take in an amount.
pub open spec fn can_pass(s: State, cell: int, n: int, amount: F32) -> bool {
    &&& num(ZERO).lt(amount)
    &&& heat_laws::can_mix(
        s.updated[n].mass,
        s.updated[n].temperature,
        amount,
        s.cells[cell].temperature,
    )
}

/// One part of the movement of a liquid into its own kind: what it does to the new buffer.
proof fn lemma_one_part(
    env: Env,
    s: State,
    cell: int,
    n: int,
    amount: F32,
    germs: i32,
    side: crate::sim_data::Side,
)
    requires
        0 <= cell < s.cells.len(),
        s.cells.len() == s.updated.len(),
        n != cell,
        is_kin(env, s, cell, n),
        can_pass(s, cell, n, amount),
    ensures
        ({
            let c = s.cells[cell];
            let (t, ok) = liquid_flow::offered(
                env,
                s,
                cell,
                c.element_idx,
                n,
                amount,
                c.disease_idx,
                germs,
            );
            let u = liquid_flow::debited(t, cell, c.disease_idx, amount, germs, side);
            &&& ok
            &&& heat_laws::has_gained(s.updated[n], u.updated[n], amount, c.temperature)
            &&& heat_laws::has_germs_from(
                env.diseases,
                s.updated[n],
                u.updated[n],
                c.disease_idx,
                germs,
            )
            &&& u.updated[cell].mass == s.updated[cell].mass.minus(amount)
            &&& u.updated[cell].temperature == s.updated[cell].temperature
            &&& u.updated[cell].element_idx == s.updated[cell].element_idx
            &&& alike_but(s, u, set![cell, n])
        }),
{
    heat_laws::law_added_mass_mixes(
        s.updated[n],
        env.diseases,
        amount,
        s.cells[cell].temperature,
        s.cells[cell].disease_idx,
        germs,
    );
}

proof fn lemma_spread_part(
    env: Env,
    s: State,
    cell: int,
    dx: int,
    mass: F32,
    count: i32,
    amount: F32,
)
    requires
        env.width >= 3,
        env.width < cell,
        cell + env.width + 1 < s.cells.len(),
        s.cells.len() == s.updated.len(),
        0 < cell % env.width as int,
        cell % env.width as int + 1 < env.width,
        phase_of(env, s.cells[cell].element_idx) == 2,
        dx == 1 || dx == -1,
        is_kin(env, s, cell, cell + dx),
        can_pass(s, cell, cell + dx, amount),
        !is_open(env, s, cell + dx - env.width),
        is_amount(mass),
        ({
            let d = env.elements.spec_liquid(s.cells[cell].element_idx)->0;
            &&& is_spread(d, mass, s.cells[cell + dx].mass, amount)
            &&& !d.viscosity.is_nan()
            &&& d.min_horizontal_flow.le(amount)
        }),
    ensures
        ({
            let a = liquid_flow::spread(env, s, cell, dx, mass, count);
            &&& a.mass == mass.minus(amount)
            &&& a.count == count.wrapping_sub(share(amount, mass, count))
            &&& has_passed_on(env, s, a.state, cell, cell + dx, amount, mass, count)
            &&& a.state.updated[cell].mass == s.updated[cell].mass.minus(amount)
            &&& a.state.updated[cell].temperature == s.updated[cell].temperature
            &&& a.state.updated[cell].element_idx == s.updated[cell].element_idx
            &&& alike_but(s, a.state, set![cell, cell + dx])
        }),
{
    let c = s.cells[cell];
    let n = cell + dx;
    let germs = share(amount, mass, count);
    let d = env.elements.spec_liquid(c.element_idx)->0;
    let side = if dx < 0 {
        crate::sim_data::Side::Left
    } else {
        crate::sim_data::Side::Right
    };
    lemma_low_bits(env, c.element_idx);
    lemma_open(env, s, n - env.width);
    lemma_one_part(env, s, cell, n, amount, germs, side);
    let f = mass.min(d.viscosity).min(
        mass.minus(liquid_flow::held_at(env, s, n)).times(num(QUARTER)),
    );
    assert(f.same(amount));
    lemma_positive_same(f, amount);
    reveal(liquid_flow::spread);
}

/// A liquid in the midst of its own kind falls first, then spreads to the left, then to the right,
/// and then rises, each time by what is left of it; every neighbour gains what comes to it at the
/// cell's own temperature.
#[verifier::rlimit(40)]
pub proof fn law_liquid_moves_in_turn(
    env: Env,
    s: State,
    cell: int,
    down: F32,
    left: F32,
    right: F32,
    up: F32,
)
    requires
        is_liquid_at(env, s, cell),
        is_kin(env, s, cell, cell - env.width),
        is_kin(env, s, cell, cell - 1),
        is_kin(env, s, cell, cell + 1),
        is_kin(env, s, cell, cell + env.width),
        has_no_slope(env, s, cell),
        !is_open(env, s, cell - 1 - env.width),
        !is_open(env, s, cell + 1 - env.width),
        can_pass(s, cell, cell - env.width, down),
        can_pass(s, cell, cell - 1, left),
        can_pass(s, cell, cell + 1, right),
        can_pass(s, cell, cell + env.width, up),
        ({
            let c = s.cells[cell];
            let d = env.elements.spec_liquid(c.element_idx)->0;
            let m1 = c.mass.minus(down);
            let m2 = m1.minus(left);
            let m3 = m2.minus(right);
            &&& !d.viscosity.is_nan() && is_amount(d.max_mass)
            &&& is_amount(m1) && is_amount(m2) && is_amount(m3)
            &&& num(ZERO).lt(m1) && num(ZERO).lt(m2) && num(ZERO).lt(m3)
            &&& is_fall(d, c.mass, s.cells[cell - env.width].mass, down)
            &&& is_spread(d, m1, s.cells[cell - 1].mass, left)
            &&& is_spread(d, m2, s.cells[cell + 1].mass, right)
            &&& is_rise(d, m3, s.cells[cell + env.width].mass, up)
            &&& is_amount(s.cells[cell - env.width].mass)
            &&& is_amount(s.cells[cell + env.width].mass)
            &&& c.mass.le(d.min_vertical_flow) || d.min_vertical_flow.le(down)
            &&& d.min_horizontal_flow.le(left)
            &&& d.min_horizontal_flow.le(right)
            &&& num(CENTI).lt(up)
        }),
    ensures
        ({
            let t = liquid_flow::liquid_moved(env, s, cell);
            let c = s.cells[cell];
            let w = env.width as int;
            let m1 = c.mass.minus(down);
            let m2 = m1.minus(left);
            let m3 = m2.minus(right);
            let n0 = c.disease_count;
            let n1 = n0.wrapping_sub(share(down, c.mass, n0));
            let n2 = n1.wrapping_sub(share(left, m1, n1));
            let n3 = n2.wrapping_sub(share(right, m2, n2));
            &&& has_passed_on(env, s, t, cell, cell - w, down, c.mass, n0)
            &&& has_passed_on(env, s, t, cell, cell - 1, left, m1, n1)
            &&& has_passed_on(env, s, t, cell, cell + 1, right, m2, n2)
            &&& has_passed_on(env, s, t, cell, cell + w, up, m3, n3)
            &&& t.updated[cell].mass == m3.minus(up)
            &&& t.updated[cell].temperature == c.temperature
            &&& t.updated[cell].element_idx == c.element_idx
            &&& alike_but(s, t, set![cell, cell - w, cell - 1, cell + 1, cell + w])
        }),
{
    let c = s.cells[cell];
    let w = env.width as int;
    let below = cell - w;
    let d = env.elements.spec_liquid(c.element_idx)->0;
    lemma_low_bits(env, c.element_idx);
    let germs = share(down, c.mass, c.disease_count);
    lemma_one_part(env, s, cell, below, down, germs, crate::sim_data::Side::Down);
    let f = liquid_flow::fall_amount(d, c.mass, s.cells[below].mass);
    lemma_least(d, c.mass, s.cells[below].mass, down);
    lemma_positive_same(f, down);
    let a = liquid_flow::fallen(env, s, cell);
    assert(a == (liquid_flow::Leg {
        state: liquid_flow::debited(
            liquid_flow::offered(
                env,
                s,
                cell,
                c.element_idx,
                below,
                down,
                c.disease_idx,
                germs,
            ).0,
            cell,
            c.disease_idx,
            down,
            germs,
            crate::sim_data::Side::Down,
        ),
        mass: c.mass.minus(down),
        count: c.disease_count.wrapping_sub(germs),
        done: false,
    })) by {
        reveal(liquid_flow::fallen);
    }
    lemma_spread_part(env, a.state, cell, -1, a.mass, a.count, left);
    let b = liquid_flow::spread(env, a.state, cell, -1, a.mass, a.count);
    lemma_spread_part(env, b.state, cell, 1, b.mass, b.count, right);
    let e = liquid_flow::spread(env, b.state, cell, 1, b.mass, b.count);
    let g = share(up, e.mass, e.count);
    lemma_one_part(env, e.state, cell, cell + w, up, g, crate::sim_data::Side::Up);
    let h = liquid_flow::rise_amount(d, e.mass, s.cells[cell + w].mass);
    laws::lemma_zero_value();
    lemma_rise(d, e.mass, s.cells[cell + w].mass, up);
    lemma_positive_same(h, up);
    let r = liquid_flow::risen(env, e.state, cell, e.mass, e.count);
    assert(r.state == liquid_flow::debited(
        liquid_flow::offered(
            env,
            e.state,
            cell,
            c.element_idx,
            cell + w,
            up,
            c.disease_idx,
            g,
        ).0,
        cell,
        c.disease_idx,
        up,
        g,
        crate::sim_data::Side::Up,
    )) by {
        reveal(liquid_flow::risen);
    }
    lemma_no_slip(env, r.state, cell);
}

/// A liquid on a solid floor that would spread over an edge, into the open, drips there: what
/// spreads leaves the world as a droplet of its element, temperature and share of germs, and is
/// taken off the cell.
pub proof fn law_liquid_drips_over_an_edge(env: Env, s: State, cell: int, dx: int, amount: F32)
    requires
        is_liquid_at(env, s, cell),
        dx == 1 || dx == -1,
        is_closed_but(env, s, cell, dx),
        s.sink is None,
        ({
            let c = s.cells[cell];
            let n = cell + dx;
            let b = s.cells[cell - env.width];
            let d = env.elements.spec_liquid(c.element_idx)->0;
            let p = phase_of(env, s.cells[n].element_idx);
            &&& p == 0 || p == 1
            &&& s.cells[n].properties & 2 == 0
            &&& phase_of(env, s.updated[n].element_idx) != 3
            &&& phase_of(env, b.element_idx) == 3 || b.properties & 2 != 0
            &&& is_open(env, s, n - env.width)
            &&& is_in_view(env, s, n, c.element_idx, c.temperature)
            &&& is_spread(d, c.mass, num(ZERO), amount)
            &&& !d.viscosity.is_nan()
            &&& num(ZERO).lt(amount)
            &&& d.min_horizontal_flow.le(amount)
        }),
    ensures
        ({
            let t = liquid_flow::liquid_moved(env, s, cell);
            let c = s.cells[cell];
            let left = t.updated[cell];
            &&& t.events->0.spawn_liquid_info == s.events->0.spawn_liquid_info.push(
                SpawnFallingLiquidInfo {
                    cell_idx: env.game_cell(cell + dx) as i32,
                    element_idx: c.element_idx,
                    disease_idx: c.disease_idx,
                    mass: amount,
                    temperature: c.temperature,
                    disease_count: share(amount, c.mass, c.disease_count),
                },
            )
            &&& left.mass == c.mass.minus(amount)
            &&& left.temperature == c.temperature
            &&& left.element_idx == c.element_idx
            &&& alike_but(s, t, set![cell])
        }),
{
    let c = s.cells[cell];
    let n = cell + dx;
    let d = env.elements.spec_liquid(c.element_idx)->0;
    lemma_low_bits(env, c.element_idx);
    lemma_low_bits(env, s.cells[n].element_idx);
    lemma_low_bits(env, s.updated[n].element_idx);
    lemma_low_bits(env, s.cells[cell - env.width].element_idx);
    lemma_open(env, s, n - env.width);
    lemma_floor(env, s, cell);
    let f = c.mass.min(d.viscosity).min(
        c.mass.minus(liquid_flow::held_at(env, s, n)).times(num(QUARTER)),
    );
    assert(f.same(amount));
    lemma_positive_same(f, amount);
    if dx == 1 {
        lemma_no_spread(env, s, cell, -1, c.mass, c.disease_count);
    }
    let a = liquid_flow::spread(env, s, cell, dx, c.mass, c.disease_count);
    lemma_drip(env, s, cell, dx, amount);
    if dx == -1 {
        lemma_no_spread(env, a.state, cell, 1, a.mass, a.count);
    }
    lemma_no_rise(env, a.state, cell, a.mass, a.count);
    lemma_no_slip(env, a.state, cell);
}

proof fn lemma_drip(env: Env, s: State, cell: int, dx: int, amount: F32)
    requires
        is_liquid_at(env, s, cell),
        dx == 1 || dx == -1,
        s.sink is None,
        s.events is Some,
        ({
            let c = s.cells[cell];
            let n = cell + dx;
            let d = env.elements.spec_liquid(c.element_idx)->0;
            &&& liquid_flow::enterable(env, s, c.element_idx, n)
            &&& crate::grid::solid(env.elements, s.cells[cell - env.width])
            &&& liquid_flow::open_at(env, s, n - env.width)
            &&& liquid_flow::can_drip(env, s, n, c.element_idx, c.temperature)
            &&& c.mass.min(d.viscosity).min(
                c.mass.minus(liquid_flow::held_at(env, s, n)).times(num(QUARTER)),
            ) == amount
            &&& num(ZERO).lt(amount)
            &&& d.min_horizontal_flow.le(amount)
        }),
    ensures
        ({
            let a = liquid_flow::spread(env, s, cell, dx, s.cells[cell].mass, s.cells[cell].disease_count);
            let c = s.cells[cell];
            let left = a.state.updated[cell];
            &&& a.state.events->0.spawn_liquid_info == s.events->0.spawn_liquid_info.push(
                SpawnFallingLiquidInfo {
                    cell_idx: env.game_cell(cell + dx) as i32,
                    element_idx: c.element_idx,
                    disease_idx: c.disease_idx,
                    mass: amount,
                    temperature: c.temperature,
                    disease_count: share(amount, c.mass, c.disease_count),
                },
            )
            &&& left.mass == c.mass.minus(amount)
            &&& left.temperature == c.temperature
            &&& left.element_idx == c.element_idx
            &&& alike_but(s, a.state, set![cell])
        }),
{
    reveal(liquid_flow::spread);
}

/// A liquid whose fall into its own kind would be less than the least that falls, and that has more
/// than that, does not fall; closed in otherwise, it stays.
pub proof fn law_too_little_does_not_fall(env: Env, s: State, cell: int, amount: F32)
    requires
        is_liquid_at(env, s, cell),
        is_kin(env, s, cell, cell - env.width),
        is_barred(env, s, s.cells[cell].element_idx, cell - 1),
        is_barred(env, s, s.cells[cell].element_idx, cell + 1),
        is_capped(env, s, cell),
        has_no_slope(env, s, cell),
        ({
            let c = s.cells[cell];
            let d = env.elements.spec_liquid(c.element_idx)->0;
            &&& is_fall(d, c.mass, s.cells[cell - env.width].mass, amount)
            &&& !d.viscosity.is_nan() && !d.max_mass.is_nan()
            &&& is_amount(s.cells[cell - env.width].mass)
            &&& (amount.lt(d.min_vertical_flow) && d.min_vertical_flow.lt(c.mass)) || amount.le(
                num(ZERO),
            )
        }),
    ensures
        liquid_flow::liquid_moved(env, s, cell) == s,
{
    let c = s.cells[cell];
    let d = env.elements.spec_liquid(c.element_idx)->0;
    lemma_low_bits(env, c.element_idx);
    lemma_least(d, c.mass, s.cells[cell - env.width].mass, amount);
    let a = liquid_flow::fallen(env, s, cell);
    assert(a.state == s && a.mass == c.mass && a.count == c.disease_count && !a.done) by {
        reveal(liquid_flow::fallen);
    }
    lemma_no_spread(env, s, cell, -1, c.mass, c.disease_count);
    lemma_no_spread(env, s, cell, 1, c.mass, c.disease_count);
    lemma_no_rise(env, s, cell, c.mass, c.disease_count);
    lemma_no_slip(env, s, cell);
}

/// A liquid that would spread by less than the least that does, or by nothing, stays.
pub proof fn law_too_little_does_not_spread(env: Env, s: State, cell: int, dx: int, amount: F32)
    requires
        is_liquid_at(env, s, cell),
        dx == 1 || dx == -1,
        is_closed_but(env, s, cell, dx),
        is_kin(env, s, cell, cell + dx),
        ({
            let c = s.cells[cell];
            let d = env.elements.spec_liquid(c.element_idx)->0;
            &&& is_spread(d, c.mass, s.cells[cell + dx].mass, amount)
            &&& !d.viscosity.is_nan()
            &&& amount.lt(d.min_horizontal_flow) || amount.le(num(ZERO))
        }),
    ensures
        liquid_flow::liquid_moved(env, s, cell) == s,
{
    let c = s.cells[cell];
    let d = env.elements.spec_liquid(c.element_idx)->0;
    lemma_low_bits(env, c.element_idx);
    lemma_floor(env, s, cell);
    let f = c.mass.min(d.viscosity).min(
        c.mass.minus(liquid_flow::held_at(env, s, cell + dx)).times(num(QUARTER)),
    );
    assert(f.same(amount));
    let a = liquid_flow::spread(env, s, cell, dx, c.mass, c.disease_count);
    assert(a.state == s && a.mass == c.mass && a.count == c.disease_count) by {
        reveal(liquid_flow::spread);
    }
    if dx == 1 {
        lemma_no_spread(env, s, cell, -1, c.mass, c.disease_count);
    } else {
        lemma_no_spread(env, s, cell, 1, c.mass, c.disease_count);
    }
    lemma_no_rise(env, s, cell, c.mass, c.disease_count);
    lemma_no_slip(env, s, cell);
}

/// A liquid that is not pressed together by more than a hundredth does not rise.
pub proof fn law_too_little_does_not_rise(env: Env, s: State, cell: int, amount: F32)
    requires
        is_liquid_at(env, s, cell),
        is_closed_but(env, s, cell, env.width as int),
        is_kin(env, s, cell, cell + env.width),
        ({
            let c = s.cells[cell];
            let d = env.elements.spec_liquid(c.element_idx)->0;
            let top = s.cells[cell + env.width].mass.times(num(COMPRESSION));
            &&& is_amount(s.cells[cell + env.width].mass)
            &&& is_amount(d.max_mass)
            &&& c.mass.le(d.max_mass) || c.mass.le(top)
        }),
    ensures
        liquid_flow::liquid_moved(env, s, cell) == s,
{
    let c = s.cells[cell];
    let up = cell + env.width;
    let held = s.cells[up].mass;
    let d = env.elements.spec_liquid(c.element_idx)->0;
    lemma_low_bits(env, c.element_idx);
    lemma_floor(env, s, cell);
    lemma_no_spread(env, s, cell, -1, c.mass, c.disease_count);
    lemma_no_spread(env, s, cell, 1, c.mass, c.disease_count);
    laws::lemma_zero_value();
    laws::lemma_product_sign(held, num(COMPRESSION));
    let top = held.times(num(COMPRESSION)).max(d.max_mass);
    let more = c.mass.minus(top);
    if top.is_finite() {
        crate::pressure_laws::lemma_gap(c.mass, top);
    } else {
        assert(top.neg().mag() == top.mag());
        reveal(F32::spec_plus);
    }
    assert(more.rank() <= 0 && !more.is_nan());
    let x = more.max(num(ZERO));
    assert(x.rank() == 0);
    laws::lemma_product_sign(x, num(HALF));
    let e = x.times(num(HALF));
    assert(e.rank() == 0);
    assert(c.mass.lt(top.times(num(TWO))) || !c.mass.lt(top.times(num(TWO))));
    let f = liquid_flow::rise_amount(d, c.mass, held);
    assert(f.is_nan() || f.rank() <= 0) by {
        laws::lemma_smallest(e, d.viscosity, c.mass);
    }
    let a = liquid_flow::risen(env, s, cell, c.mass, c.disease_count);
    assert(a.state == s && a.mass == c.mass && a.count == c.disease_count) by {
        reveal(liquid_flow::risen);
    }
    lemma_no_slip(env, s, cell);
}

/// A liquid does not slip past a cell that lets it through, into a marked cell, past a marked cell
/// below it or out of a cell that is closed to gases.
pub proof fn law_liquid_that_cannot_slip(env: Env, s: State, cell: int)
    requires
        env.width >= 3,
        env.width < cell,
        cell + 1 < s.updated.len(),
        ({
            let below = cell - env.width;
            let held = |dx: int|
                {
                    let goal = s.updated[below + dx];
                    let beside = s.updated[cell + dx];
                    ||| phase_of(env, goal.element_idx) != 1
                    ||| phase_of(env, beside.element_idx) != 3 && beside.properties & 1 == 0
                    ||| goal.properties & 2 != 0
                };
            ||| s.updated[below].properties & 3 != 0
            ||| s.updated[cell].properties & 1 != 0
            ||| phase_of(env, s.updated[below].element_idx) == 3
            ||| held(1) && held(-1)
        }),
    ensures
        liquid_flow::slipped(env, s, cell) == s,
{
    let below = cell - env.width;
    lemma_low_bits(env, s.updated[below].element_idx);
    lemma_low_bits(env, s.updated[below + 1].element_idx);
    lemma_low_bits(env, s.updated[below - 1].element_idx);
    lemma_low_bits(env, s.updated[cell + 1].element_idx);
    lemma_low_bits(env, s.updated[cell - 1].element_idx);
    reveal(liquid_flow::slipped);
}

} // verus!
