//! What holds of the whole movement of a liquid.
use crate::cell::share;
use crate::cell::Cell;
use crate::constants::CENTI;
use crate::constants::COMPRESSION;
use crate::constants::HALF;
use crate::constants::QUARTER;
use crate::constants::ZERO;
use crate::displacement;
use crate::element::ElementLiquidData;
use crate::element::GAS;
use crate::element::NO_PHASE;
use crate::element::SOLID;
use crate::grid;
use crate::grid::marked;
use crate::grid::LIQUID_IMPERMEABLE;
use crate::laws;
use crate::liquid_flow;
use crate::number::num;
use crate::number::F32;
use crate::number_laws;
use crate::pressure_laws;
use crate::region_events::Event;
use crate::region_events::EventLog;
use crate::region_events::SpawnFallingLiquidInfo;
use crate::sim_data::Env;
use crate::sim_data::Side;
use crate::sim_data::State;
use vstd::prelude::*;

verus! {

/// The mass of droplets, in units of the numbers.
pub open spec fn droplets_of(list: Seq<SpawnFallingLiquidInfo>) -> int
    decreases list.len(),
{
    if list.len() == 0 {
        0
    } else {
        droplets_of(list.drop_last()) + list.last().mass.value()
    }
}

/// The mass of the droplets in a log.
pub open spec fn droplets_in(log: Option<EventLog>) -> int {
    match log {
        Some(l) => droplets_of(l.spawn_liquid_info),
        None => 0,
    }
}

/// The mass of the world and of the droplets that have left it.
pub open spec fn mass_with_droplets(s: State) -> int {
    laws::total_mass(s) + droplets_in(s.events) + droplets_in(s.sink)
}

/// A report of a change is no droplet.
proof fn lemma_changed(env: Env, s: State, i: int)
    ensures
        mass_with_droplets(s.changed(env, i)) == mass_with_droplets(s),
        s.changed(env, i).updated == s.updated,
        s.changed(env, i).cells == s.cells,
{
}

/// A droplet adds its mass to that of the droplets.
proof fn lemma_dripped(s: State, d: SpawnFallingLiquidInfo)
    requires
        s.events is Some,
    ensures
        mass_with_droplets(s.emit(Event::SpawnLiquid(d))) == mass_with_droplets(s)
            + d.mass.value(),
        s.emit(Event::SpawnLiquid(d)).updated == s.updated,
        s.emit(Event::SpawnLiquid(d)).cells == s.cells,
{
    let log = match s.sink {
        Some(l) => l.spawn_liquid_info,
        None => s.events->0.spawn_liquid_info,
    };
    assert(log.push(d).drop_last() =~= log);
}

/// All masses of the new buffer are amounts, no cell of it holds the void, and the cell has at
/// least `mass` left.
pub open spec fn is_sound(env: Env, s: State, cell: int, mass: F32) -> bool {
    &&& 0 <= cell < s.updated.len()
    &&& s.cells.len() == s.updated.len()
    &&& forall|i: int|
        0 <= i < s.updated.len() ==> pressure_laws::is_amount((#[trigger] s.updated[i]).mass)
    &&& forall|i: int|
        0 <= i < s.updated.len() ==> (#[trigger] s.updated[i]).element_idx != env.void_element_idx
    &&& pressure_laws::is_amount(mass)
    &&& mass.value() <= s.updated[cell].mass.value()
}

/// What is from zero on in value is an amount.
pub proof fn lemma_amount(x: F32)
    requires
        x.is_finite(),
        x.value() >= 0,
    ensures
        pressure_laws::is_amount(x),
{
    laws::lemma_zero_value();
    number_laws::law_order_is_by_value(num(ZERO), x);
}

/// An amount is from zero on in value.
pub proof fn lemma_amount_value(x: F32)
    requires
        pressure_laws::is_amount(x),
    ensures
        x.value() >= 0,
        num(ZERO).lt(x) ==> x.value() > 0,
{
    laws::lemma_zero_value();
    number_laws::law_order_is_by_value(num(ZERO), x);
}

/// A cell with more in it holds the sum, and no less than before.
proof fn lemma_added(
    c: Cell,
    env: Env,
    amount: F32,
    temperature: F32,
    idx: u8,
    germs: i32,
    err: int,
)
    requires
        pressure_laws::is_amount(c.mass),
        pressure_laws::is_amount(amount),
        num(ZERO).lt(amount),
        laws::near_sum(c.mass, amount, err),
    ensures
        ({
            let d = c.spec_with_mass_added(env.diseases, amount, temperature, idx, germs);
            &&& laws::near(d.mass.value(), c.mass.value() + amount.value(), err)
            &&& c.mass.value() <= d.mass.value()
            &&& pressure_laws::is_amount(d.mass)
            &&& d.element_idx == c.element_idx
            &&& num(ZERO).lt(c.mass.plus(amount))
        }),
{
    let sum = c.mass.plus(amount);
    number_laws::law_plus_makes_no_smaller(c.mass, amount);
    number_laws::law_plus_commutes(c.mass, amount);
    number_laws::law_plus_makes_no_smaller(amount, c.mass);
    number_laws::law_order_is_by_value(c.mass, sum);
    lemma_amount_value(c.mass);
    lemma_amount(sum);
}

/// An empty cell and an amount make that amount.
pub proof fn lemma_exact_zero(amount: F32)
    requires
        pressure_laws::is_amount(amount),
    ensures
        laws::near_sum(num(ZERO), amount, 0),
{
    laws::lemma_zero_value();
    number_laws::law_sum_is_rounded(num(ZERO), amount);
    number_laws::law_rounded_exact(amount);
    let r = num(ZERO).plus(amount);
    number_laws::law_order_is_by_value(r, amount);
    number_laws::law_order_is_by_value(amount, r);
}

/// Whether a sum is off by at most `err` where a neighbour takes `amount` of `elem`: that of what
/// it holds and what comes or, where it holds a gas that must leave, of that gas and what is where
/// it goes.
pub open spec fn takes_within(
    env: Env,
    s: State,
    elem: u16,
    dst: int,
    amount: F32,
    err: int,
) -> bool {
    let d = s.updated[dst];
    if d.element_idx != elem && env.elements.spec_liquid_phase(d.element_idx) == GAS {
        displacement::gas_goal(env, s, dst, d.element_idx) matches Some(g) ==> laws::near_sum(
            s.updated[g].mass,
            d.mass,
            err,
        )
    } else {
        laws::near_sum(d.mass, amount, err)
    }
}

/// What a neighbour takes comes to the world, up to one rounding; all masses stay amounts and no
/// void appears.
proof fn lemma_offered(
    env: Env,
    s: State,
    cell: int,
    elem: u16,
    dst: int,
    amount: F32,
    mass: F32,
    idx: u8,
    germs: i32,
    err: int,
)
    requires
        0 <= err,
        is_sound(env, s, cell, mass),
        env.width >= 2,
        dst != cell,
        elem != env.void_element_idx,
        pressure_laws::is_amount(amount),
        num(ZERO).lt(amount),
        liquid_flow::offered(env, s, cell, elem, dst, amount, idx, germs).1,
        takes_within(env, s, elem, dst, amount, err),
    ensures
        ({
            let t = liquid_flow::offered(env, s, cell, elem, dst, amount, idx, germs).0;
            &&& laws::near(mass_with_droplets(t), mass_with_droplets(s) + amount.value(), err)
            &&& is_sound(env, t, cell, mass)
            &&& t.cells == s.cells
        }),
{
    let warmth = s.cells[cell].temperature;
    let t = liquid_flow::offered(env, s, cell, elem, dst, amount, idx, germs).0;
    let d = s.updated[dst];
    if d.element_idx == elem {
        let c = d.spec_with_mass_added(env.diseases, amount, warmth, idx, germs);
        lemma_added(d, env, amount, warmth, idx, germs, err);
        laws::lemma_total(s.updated, dst, c);
        assert(t.updated =~= s.updated.update(dst, c));
    } else if env.elements.spec_liquid_phase(d.element_idx) == GAS {
        let g = displacement::gas_goal(env, s, dst, d.element_idx)->0;
        laws::lemma_gas_goal(env, s, dst, d.element_idx);
        lemma_pushed(env, s, cell, dst, g, mass, err);
        let u = displacement::moved(env, s, dst, g);
        lemma_exact_zero(amount);
        lemma_filled(env, u, cell, elem, dst, amount, warmth, idx, germs, mass, 0);
    } else {
        lemma_filled(env, s, cell, elem, dst, amount, warmth, idx, germs, mass, err);
    }
}

/// A cell that is filled gains what comes, up to one rounding.
proof fn lemma_filled(
    env: Env,
    s: State,
    cell: int,
    elem: u16,
    dst: int,
    amount: F32,
    warmth: F32,
    idx: u8,
    germs: i32,
    mass: F32,
    err: int,
)
    requires
        0 <= cell < s.updated.len(),
        s.cells.len() == s.updated.len(),
        forall|i: int|
            0 <= i < s.updated.len() ==> pressure_laws::is_amount((#[trigger] s.updated[i]).mass),
        forall|i: int|
            0 <= i < s.updated.len() && i != dst ==> (#[trigger] s.updated[i]).element_idx
                != env.void_element_idx,
        pressure_laws::is_amount(mass),
        mass.value() <= s.updated[cell].mass.value(),
        0 <= dst < s.updated.len(),
        dst != cell,
        elem != env.void_element_idx,
        pressure_laws::is_amount(amount),
        num(ZERO).lt(amount),
        laws::near_sum(s.updated[dst].mass, amount, err),
    ensures
        ({
            let t = liquid_flow::filled(env, s, dst, elem, amount, warmth, idx, germs);
            &&& laws::near(mass_with_droplets(t), mass_with_droplets(s) + amount.value(), err)
            &&& is_sound(env, t, cell, mass)
            &&& t.cells == s.cells
        }),
{
    let d = Cell { element_idx: elem, ..s.updated[dst] };
    let c = d.spec_with_mass_added(env.diseases, amount, warmth, idx, germs);
    lemma_added(d, env, amount, warmth, idx, germs, err);
    laws::lemma_total(s.updated, dst, c);
    let u = s.put(dst, c);
    lemma_changed(env, u, dst);
    let t = liquid_flow::filled(env, s, dst, elem, amount, warmth, idx, germs);
    assert(t.updated =~= s.updated.update(dst, c));
}

/// A gas that is pushed out takes its mass along, up to one rounding.
proof fn lemma_pushed(env: Env, s: State, cell: int, dst: int, g: int, mass: F32, err: int)
    requires
        is_sound(env, s, cell, mass),
        0 <= dst < s.updated.len(),
        0 <= g < s.updated.len(),
        g != dst,
        dst != cell,
        !s.updated[dst].mass.le(num(ZERO)),
        laws::near_sum(s.updated[g].mass, s.updated[dst].mass, err),
    ensures
        ({
            let t = displacement::moved(env, s, dst, g);
            &&& laws::near(mass_with_droplets(t), mass_with_droplets(s), err)
            &&& t.updated.len() == s.updated.len()
            &&& t.cells == s.cells
            &&& forall|i: int|
                0 <= i < t.updated.len() ==> pressure_laws::is_amount(
                    (#[trigger] t.updated[i]).mass,
                )
            &&& forall|i: int|
                0 <= i < t.updated.len() && i != dst ==> (#[trigger] t.updated[i]).element_idx
                    != env.void_element_idx
            &&& t.updated[dst].mass == num(ZERO)
            &&& mass.value() <= t.updated[cell].mass.value()
        }),
{
    let from = s.updated[dst];
    let to = s.updated[g];
    lemma_amount_value(from.mass);
    lemma_added(to, env, from.mass, from.temperature, from.disease_idx, from.disease_count, err);
    laws::lemma_zero_value();
    let t = displacement::moved(env, s, dst, g);
    let c = to.spec_with_mass_added(
        env.diseases,
        from.mass,
        from.temperature,
        from.disease_idx,
        from.disease_count,
    );
    let e = Cell { element_idx: from.element_idx, ..c };
    let rest = from.emptied(env.vacuum_element_idx);
    laws::lemma_total(s.updated, g, e);
    laws::lemma_total(s.updated.update(g, e), dst, rest);
    assert(t.updated =~= s.updated.update(g, e).update(dst, rest));
}

/// What is taken off a cell leaves the world, up to one rounding.
proof fn lemma_debited(
    env: Env,
    s: State,
    cell: int,
    idx: u8,
    amount: F32,
    germs: i32,
    side: Side,
    mass: F32,
    err: int,
)
    requires
        is_sound(env, s, cell, mass),
        pressure_laws::is_amount(amount),
        amount.le(mass),
        laws::near_sum(s.updated[cell].mass, amount.neg(), err),
    ensures
        ({
            let t = liquid_flow::debited(s, cell, idx, amount, germs, side);
            &&& laws::near(mass_with_droplets(t), mass_with_droplets(s) - amount.value(), err)
            &&& is_sound(env, t, cell, mass.minus(amount))
            &&& t.cells == s.cells
        }),
{
    let t = liquid_flow::debited(s, cell, idx, amount, germs, side);
    let c = s.updated[cell];
    let m = c.mass.minus(amount);
    laws::lemma_neg_is_opposite(amount);
    laws::lemma_rest(mass, amount);
    number_laws::law_order_is_by_value(amount, mass);
    number_laws::law_order_is_by_value(amount, c.mass);
    laws::lemma_rest(c.mass, amount);
    number_laws::law_sum_is_rounded(mass, amount.neg());
    number_laws::law_sum_is_rounded(c.mass, amount.neg());
    number_laws::law_rounded_monotone(
        mass.value() + amount.neg().value(),
        c.mass.value() + amount.neg().value(),
    );
    number_laws::law_order_is_by_value(mass.minus(amount), m);
    laws::lemma_total(s.updated, cell, t.updated[cell]);
    assert(t.updated =~= s.updated.update(cell, t.updated[cell]));
}

/// Whether the sums are off by at most `err` each where `amount` passes from a cell to a neighbour.
pub open spec fn passes_within(
    env: Env,
    s: State,
    cell: int,
    elem: u16,
    dst: int,
    amount: F32,
    idx: u8,
    germs: i32,
    err: int,
) -> bool {
    let (t, ok) = liquid_flow::offered(env, s, cell, elem, dst, amount, idx, germs);
    ok ==> takes_within(env, s, elem, dst, amount, err) && laws::near_sum(
        t.updated[cell].mass,
        amount.neg(),
        err,
    )
}

/// What passes from a cell to a neighbour is neither lost nor gained, up to two roundings.
proof fn lemma_passed(
    env: Env,
    s: State,
    cell: int,
    elem: u16,
    dst: int,
    amount: F32,
    idx: u8,
    germs: i32,
    side: Side,
    mass: F32,
    err: int,
)
    requires
        0 <= err,
        is_sound(env, s, cell, mass),
        env.width >= 2,
        dst != cell,
        elem != env.void_element_idx,
        num(ZERO).lt(amount),
        amount.le(mass),
        passes_within(env, s, cell, elem, dst, amount, idx, germs, err),
        liquid_flow::offered(env, s, cell, elem, dst, amount, idx, germs).1,
    ensures
        ({
            let t = liquid_flow::offered(env, s, cell, elem, dst, amount, idx, germs).0;
            let u = liquid_flow::debited(t, cell, idx, amount, germs, side);
            &&& laws::near(mass_with_droplets(u), mass_with_droplets(s), 2 * err)
            &&& is_sound(env, u, cell, mass.minus(amount))
            &&& u.cells == s.cells
        }),
{
    lemma_offered(env, s, cell, elem, dst, amount, mass, idx, germs, err);
    let t = liquid_flow::offered(env, s, cell, elem, dst, amount, idx, germs).0;
    lemma_debited(env, t, cell, idx, amount, germs, side, mass, err);
}

/// The data of the liquid in a cell.
pub open spec fn data_of(env: Env, s: State, cell: int) -> ElementLiquidData {
    env.elements.spec_liquid(s.cells[cell].element_idx)->0
}

/// How much falls from a cell into the same liquid below.
pub open spec fn falling(env: Env, s: State, cell: int) -> F32 {
    liquid_flow::fall_amount(
        data_of(env, s, cell),
        s.cells[cell].mass,
        liquid_flow::held_at(env, s, cell - env.width),
    )
}

/// Whether the sums are off by at most `err` each where a cell falls into the same liquid.
pub open spec fn falls_within(env: Env, s: State, cell: int, err: int) -> bool {
    let below = cell - env.width;
    let c = s.cells[cell];
    let b = s.cells[below];
    let amount = falling(env, s, cell);
    let d = data_of(env, s, cell);
    let pu = env.elements.spec_liquid_phase(s.updated[below].element_idx);
    pu != NO_PHASE && pu != SOLID && !marked(b, LIQUID_IMPERMEABLE)
        && env.elements.spec_liquid_phase(b.element_idx) != NO_PHASE && c.element_idx
        == b.element_idx && (c.mass.le(d.min_vertical_flow) || d.min_vertical_flow.le(amount))
        && num(ZERO).lt(amount) ==> passes_within(
        env,
        s,
        cell,
        c.element_idx,
        below,
        amount,
        c.disease_idx,
        share(amount, c.mass, c.disease_count),
        err,
    )
}

/// How much flows sideways from a cell with `mass` left.
pub open spec fn spreading(env: Env, s: State, cell: int, dx: int, mass: F32) -> F32 {
    mass.min(data_of(env, s, cell).viscosity).min(
        mass.minus(liquid_flow::held_at(env, s, cell + dx)).times(num(QUARTER)),
    )
}

/// Whether a cell spreads to its neighbour at distance `dx`.
pub open spec fn does_spread(env: Env, s: State, cell: int, dx: int, mass: F32) -> bool {
    let amount = spreading(env, s, cell, dx, mass);
    &&& if dx < 0 {
        cell % env.width as int != 0
    } else {
        cell % env.width as int != env.width - 1
    }
    &&& liquid_flow::enterable(env, s, s.cells[cell].element_idx, cell + dx)
    &&& data_of(env, s, cell).min_horizontal_flow.le(amount)
    &&& num(ZERO).lt(amount)
}

/// Whether what flows sideways leaves as a droplet.
pub open spec fn drips(env: Env, s: State, cell: int, dx: int) -> bool {
    let c = s.cells[cell];
    let n = cell + dx;
    &&& grid::solid(env.elements, s.cells[cell - env.width])
    &&& liquid_flow::open_at(env, s, n - env.width)
    &&& liquid_flow::can_drip(env, s, n, c.element_idx, c.temperature)
}

/// Whether the sums are off by at most `err` each where a cell spreads.
pub open spec fn spreads_within(
    env: Env,
    s: State,
    cell: int,
    dx: int,
    mass: F32,
    count: i32,
    err: int,
) -> bool {
    let c = s.cells[cell];
    let amount = spreading(env, s, cell, dx, mass);
    does_spread(env, s, cell, dx, mass) ==> if drips(env, s, cell, dx) {
        laws::near_sum(s.updated[cell].mass, amount.neg(), err)
    } else {
        passes_within(
            env,
            s,
            cell,
            c.element_idx,
            cell + dx,
            amount,
            c.disease_idx,
            share(amount, mass, count),
            err,
        )
    }
}

/// How much rises from a cell with `mass` left.
pub open spec fn rising(env: Env, s: State, cell: int, mass: F32) -> F32 {
    liquid_flow::rise_amount(
        data_of(env, s, cell),
        mass,
        liquid_flow::held_at(env, s, cell + env.width),
    )
}

/// Whether the sums are off by at most `err` each where a cell rises.
pub open spec fn rises_within(
    env: Env,
    s: State,
    cell: int,
    mass: F32,
    count: i32,
    err: int,
) -> bool {
    let up = cell + env.width;
    let c = s.cells[cell];
    let amount = rising(env, s, cell, mass);
    up < s.cells.len() && liquid_flow::enterable(env, s, c.element_idx, up) && num(CENTI).lt(
        amount,
    ) ==> passes_within(
        env,
        s,
        cell,
        c.element_idx,
        up,
        amount,
        c.disease_idx,
        share(amount, mass, count),
        err,
    )
}

/// Falling neither loses nor gains mass, up to two roundings.
proof fn lemma_fallen(env: Env, s: State, cell: int, err: int)
    requires
        0 <= err,
        liquid_flow::movable(env, s, cell),
        env.width >= 2,
        is_sound(env, s, cell, s.cells[cell].mass),
        s.updated[cell].mass == s.cells[cell].mass,
        no_void(env, s.cells),
        falls_within(env, s, cell, err),
    ensures
        ({
            let a = liquid_flow::fallen(env, s, cell);
            &&& laws::near(mass_with_droplets(a.state), mass_with_droplets(s), 2 * err)
            &&& !a.done ==> is_sound(env, a.state, cell, a.mass)
            &&& a.state.cells == s.cells
        }),
{
    reveal(liquid_flow::fallen);
    let below = cell - env.width;
    let c = s.cells[cell];
    let b = s.cells[below];
    let p = env.elements.spec_liquid_phase(b.element_idx);
    let pu = env.elements.spec_liquid_phase(s.updated[below].element_idx);
    let a = liquid_flow::fallen(env, s, cell);
    assert(c.element_idx != env.void_element_idx);
    assert(b.element_idx != env.void_element_idx);
    if pu == NO_PHASE || pu == SOLID || marked(b, LIQUID_IMPERMEABLE) || p == NO_PHASE {
        assert(a.state == s);
    } else if c.element_idx == b.element_idx {
        let d = data_of(env, s, cell);
        let amount = falling(env, s, cell);
        let gap = c.mass.times(num(COMPRESSION)).max(d.max_mass).minus(
            liquid_flow::held_at(env, s, below),
        );
        let room = if gap.lt(num(ZERO)) {
            num(ZERO)
        } else {
            gap
        };
        laws::lemma_smallest(c.mass, d.viscosity, room.times(num(HALF)));
        let germs = share(amount, c.mass, c.disease_count);
        let (t, ok) = liquid_flow::offered(
            env,
            s,
            cell,
            c.element_idx,
            below,
            amount,
            c.disease_idx,
            germs,
        );
        if (c.mass.le(d.min_vertical_flow) || d.min_vertical_flow.le(amount)) && num(ZERO).lt(
            amount,
        ) && ok {
            lemma_passed(
                env,
                s,
                cell,
                c.element_idx,
                below,
                amount,
                c.disease_idx,
                germs,
                Side::Down,
                c.mass,
                err,
            );
        }
    } else if p < 2 {
        if liquid_flow::at_edge(env, s, cell) {
            if liquid_flow::can_drip(env, s, cell, c.element_idx, c.temperature) {
                lemma_left(env, s, cell);
            }
        } else {
            let t = s.swapped(cell, below);
            laws::law_swap_conserves_mass(s, cell, below);
            lemma_changed(env, t, cell);
            lemma_changed(env, t.changed(env, cell), below);
        }
    }
}

/// A cell that leaves as a droplet takes its mass along.
proof fn lemma_left(env: Env, s: State, cell: int)
    requires
        0 <= cell < s.updated.len(),
        s.cells.len() == s.updated.len(),
        s.updated[cell].mass == s.cells[cell].mass,
        s.events is Some,
    ensures
        ({
            let c = s.cells[cell];
            let t = s.emit(
                liquid_flow::droplet(
                    env,
                    cell,
                    c.element_idx,
                    c.mass,
                    c.temperature,
                    c.disease_idx,
                    c.disease_count,
                ),
            );
            let u = displacement::evaporated(env, t, cell);
            mass_with_droplets(u) == mass_with_droplets(s) && u.cells == s.cells
        }),
{
    let c = s.cells[cell];
    let d = liquid_flow::droplet(
        env,
        cell,
        c.element_idx,
        c.mass,
        c.temperature,
        c.disease_idx,
        c.disease_count,
    )->SpawnLiquid_0;
    let t = s.emit(Event::SpawnLiquid(d));
    lemma_dripped(s, d);
    laws::lemma_zero_value();
    let e = t.updated[cell].emptied(env.vacuum_element_idx);
    laws::lemma_total(t.updated, cell, e);
    lemma_changed(env, t.put(cell, e), cell);
}

/// No cell of a buffer holds the void.
pub open spec fn no_void(env: Env, cells: Seq<Cell>) -> bool {
    forall|i: int|
        0 <= i < cells.len() ==> (#[trigger] cells[i]).element_idx != env.void_element_idx
}

/// Spreading neither loses nor gains mass, up to two roundings.
proof fn lemma_spread(env: Env, s: State, cell: int, dx: int, mass: F32, count: i32, err: int)
    requires
        0 <= err,
        liquid_flow::movable(env, s, cell),
        env.width >= 2,
        is_sound(env, s, cell, mass),
        no_void(env, s.cells),
        dx == 1 || dx == -1,
        spreads_within(env, s, cell, dx, mass, count, err),
    ensures
        ({
            let a = liquid_flow::spread(env, s, cell, dx, mass, count);
            &&& laws::near(mass_with_droplets(a.state), mass_with_droplets(s), 2 * err)
            &&& is_sound(env, a.state, cell, a.mass)
            &&& a.state.cells == s.cells
        }),
{
    reveal(liquid_flow::spread);
    let c = s.cells[cell];
    let n = cell + dx;
    let d = data_of(env, s, cell);
    let amount = spreading(env, s, cell, dx, mass);
    let germs = share(amount, mass, count);
    let side = if dx < 0 {
        Side::Left
    } else {
        Side::Right
    };
    laws::lemma_smallest(
        mass,
        d.viscosity,
        mass.minus(liquid_flow::held_at(env, s, n)).times(num(QUARTER)),
    );
    assert(c.element_idx != env.void_element_idx);
    if does_spread(env, s, cell, dx, mass) {
        if drips(env, s, cell, dx) {
            let e = liquid_flow::droplet(
                env,
                n,
                c.element_idx,
                amount,
                c.temperature,
                c.disease_idx,
                germs,
            )->SpawnLiquid_0;
            lemma_dripped(s, e);
            let t = s.emit(Event::SpawnLiquid(e));
            lemma_debited(env, t, cell, c.disease_idx, amount, germs, side, mass, err);
        } else if liquid_flow::offered(
            env,
            s,
            cell,
            c.element_idx,
            n,
            amount,
            c.disease_idx,
            germs,
        ).1 {
            lemma_passed(
                env,
                s,
                cell,
                c.element_idx,
                n,
                amount,
                c.disease_idx,
                germs,
                side,
                mass,
                err,
            );
        }
    }
}

/// No more rises than there is.
proof fn lemma_rise_amount(d: ElementLiquidData, mass: F32, held: F32)
    requires
        pressure_laws::is_amount(mass),
        pressure_laws::is_amount(held),
    ensures
        liquid_flow::rise_amount(d, mass, held).le(mass),
{
    let squeezed = held.times(num(COMPRESSION));
    laws::lemma_product_sign(held, num(COMPRESSION));
    let full = squeezed.max(d.max_mass);
    let rest = mass.minus(full);
    if full.is_finite() {
        number_laws::law_sum_is_rounded(mass, full.neg());
    } else {
        assert(full.neg().mag() == full.mag());
        reveal(F32::spec_plus);
    }
    number_laws::law_minus_makes_no_larger(mass, full);
    let x = rest.max(num(ZERO));
    number_laws::law_part_of_whole(x, num(HALF));
    let excess = x.times(num(HALF));
    laws::lemma_smallest(excess, d.viscosity, mass);
}

/// Rising neither loses nor gains mass, up to two roundings.
proof fn lemma_risen(env: Env, s: State, cell: int, mass: F32, count: i32, err: int)
    requires
        0 <= err,
        liquid_flow::movable(env, s, cell),
        env.width >= 2,
        is_sound(env, s, cell, mass),
        no_void(env, s.cells),
        forall|i: int|
            0 <= i < s.cells.len() ==> pressure_laws::is_amount((#[trigger] s.cells[i]).mass),
        rises_within(env, s, cell, mass, count, err),
    ensures
        ({
            let a = liquid_flow::risen(env, s, cell, mass, count);
            &&& laws::near(mass_with_droplets(a.state), mass_with_droplets(s), 2 * err)
            &&& is_sound(env, a.state, cell, a.mass)
            &&& a.state.cells == s.cells
        }),
{
    reveal(liquid_flow::risen);
    let up = cell + env.width;
    let c = s.cells[cell];
    let amount = rising(env, s, cell, mass);
    let germs = share(amount, mass, count);
    assert(c.element_idx != env.void_element_idx);
    if up < s.cells.len() && liquid_flow::enterable(env, s, c.element_idx, up) && num(CENTI).lt(
        amount,
    ) {
        laws::lemma_zero_value();
        assert(pressure_laws::is_amount(s.cells[up].mass));
        lemma_rise_amount(data_of(env, s, cell), mass, liquid_flow::held_at(env, s, up));
        if liquid_flow::offered(
            env,
            s,
            cell,
            c.element_idx,
            up,
            amount,
            c.disease_idx,
            germs,
        ).1 {
            lemma_passed(
                env,
                s,
                cell,
                c.element_idx,
                up,
                amount,
                c.disease_idx,
                germs,
                Side::Up,
                mass,
                err,
            );
        }
    }
}

/// Whether the sums are off by at most `err` each in every part of the movement of a liquid.
pub open spec fn moves_within(env: Env, s: State, cell: int, err: int) -> bool {
    let a = liquid_flow::fallen(env, s, cell);
    let b = liquid_flow::spread(env, a.state, cell, -1, a.mass, a.count);
    let c = liquid_flow::spread(env, b.state, cell, 1, b.mass, b.count);
    &&& falls_within(env, s, cell, err)
    &&& !a.done && !a.mass.le(num(ZERO)) ==> {
        &&& spreads_within(env, a.state, cell, -1, a.mass, a.count, err)
        &&& !b.mass.le(num(ZERO)) ==> {
            &&& spreads_within(env, b.state, cell, 1, b.mass, b.count, err)
            &&& !c.mass.le(num(ZERO)) ==> rises_within(env, c.state, cell, c.mass, c.count, err)
        }
    }
}

/// Where a liquid moves, no mass is lost or gained, but for what rounding does: what leaves the
/// world leaves it as droplets. At most eight sums are taken, so where none is off by more than
/// `err` units, and none is too large to be a number, the mass is off by at most eight times that;
/// and it is kept where all sums are numbers. That holds of one whole movement where no cell
/// holds the void, all masses are from zero on, and both buffers agree on the mass that moves.
pub proof fn law_moving_liquid_conserves_mass(env: Env, s: State, cell: int, err: int)
    requires
        0 <= err,
        env.width >= 2,
        0 <= cell < s.cells.len(),
        s.updated.len() == s.cells.len(),
        no_void(env, s.cells),
        no_void(env, s.updated),
        forall|i: int|
            0 <= i < s.cells.len() ==> pressure_laws::is_amount((#[trigger] s.cells[i]).mass),
        forall|i: int|
            0 <= i < s.updated.len() ==> pressure_laws::is_amount((#[trigger] s.updated[i]).mass),
        s.updated[cell].mass == s.cells[cell].mass,
        liquid_flow::movable(env, s, cell) ==> moves_within(env, s, cell, err),
    ensures
        laws::near(
            mass_with_droplets(liquid_flow::liquid_moved(env, s, cell)),
            mass_with_droplets(s),
            8 * err,
        ),
        err == 0 ==> mass_with_droplets(liquid_flow::liquid_moved(env, s, cell))
            == mass_with_droplets(s),
{
    if liquid_flow::movable(env, s, cell) {
        assert(pressure_laws::is_amount(s.cells[cell].mass));
        lemma_fallen(env, s, cell, err);
        let a = liquid_flow::fallen(env, s, cell);
        if !a.done && !a.mass.le(num(ZERO)) {
            lemma_spread(env, a.state, cell, -1, a.mass, a.count, err);
            let b = liquid_flow::spread(env, a.state, cell, -1, a.mass, a.count);
            if !b.mass.le(num(ZERO)) {
                lemma_spread(env, b.state, cell, 1, b.mass, b.count, err);
                let c = liquid_flow::spread(env, b.state, cell, 1, b.mass, b.count);
                if !c.mass.le(num(ZERO)) {
                    lemma_risen(env, c.state, cell, c.mass, c.count, err);
                    let d = liquid_flow::risen(env, c.state, cell, c.mass, c.count);
                    lemma_slipped(env, d.state, cell);
                }
            }
        }
    }
}

/// Slipping past a corner makes no droplets and neither loses nor gains mass.
proof fn lemma_slipped(env: Env, s: State, cell: int)
    requires
        0 <= cell < s.updated.len(),
    ensures
        mass_with_droplets(liquid_flow::slipped(env, s, cell)) == mass_with_droplets(s),
{
    laws::law_slipping_conserves_mass(env, s, cell);
    reveal(liquid_flow::slipped);
}

} // verus!
