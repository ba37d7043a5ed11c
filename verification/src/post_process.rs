//! The closing pass over the cells: what evaporates, sinks, bursts, mixes, crumbles or gives off
//! gas once everything has moved.
//!
//! Whether a cell melts a neighbour, or changes phase by its heat, is decided outside of the pass:
//! it pauses there, asks about one neighbour after the other until the answer is yes, and goes on.
use crate::cell::Cell;
use crate::cell::NO_DISEASE;
use crate::constants::ALMOST_ONE;
use crate::constants::CENTI;
use crate::constants::COMPRESSION;
use crate::constants::DUMP_SHARE;
use crate::constants::HALF;
use crate::constants::MILLI;
use crate::constants::NANO;
use crate::constants::NINE_TENTHS;
use crate::constants::ONE;
use crate::constants::SUBLIMATE_LIMIT;
use crate::constants::THREE_HALVES;
use crate::constants::THREE_TENTHS;
use crate::constants::ZERO;
use crate::displacement;
use crate::displacement::clear_flow;
use crate::displacement::displace_gas;
use crate::displacement::displace_liquid;
use crate::displacement::do_density_displacement;
use crate::displacement::do_evaporate;
use crate::displacement::no_flow;
use crate::element::phase;
use crate::element::ElementPostProcessData;
use crate::element::GAS;
use crate::element::LIQUID;
use crate::element::NO_ELEMENT;
use crate::element::SOLID;
use crate::element::VACUUM;
use crate::grid::marked;
use crate::grid::GAS_IMPERMEABLE;
use crate::grid::LIQUID_IMPERMEABLE;
use crate::number::num;
use crate::number::F32;
use crate::pressure_break;
use crate::pressure_break::do_pressure_break;
use crate::sim_data;
use crate::sim_data::next_random;
use crate::sim_data::peek;
use crate::sim_data::push_spawn_fx;
use crate::sim_data::push_substance_change;
use crate::sim_data::Env;
use crate::sim_data::RegionBounds;
use crate::sim_data::Side;
use crate::sim_data::SimData;
use crate::sim_data::State;
use crate::sublimation;
use crate::sublimation::do_sublimation;
use crate::sublimation::emit_sublimate_gas;
use crate::sweep;
use crate::unstable;
use crate::unstable::do_unstable_check;
use vstd::prelude::*;

verus! {

broadcast use crate::region_events::group_events;

/// The state bits of a solid that is not stable.
pub const UNSTABLE_STATE: u8 = 0xb;

/// What the pass waits for.
#[derive(Clone, Copy, Debug)]
pub enum Pause {
    /// Nothing: the cell is done.
    Done,
    /// Whether the gas in the cell has melted the neighbour on a side. With it goes what the cell
    /// was when its turn came: its element, the direction that it looked in and whether it was
    /// closed to liquids.
    Melt { side: Side, elem: u16, dir: i32, sealed: bool },
    /// Whether the liquid in the cell has changed phase by the heat of the neighbour on a side.
    /// With it goes the element that the cell held when its turn came.
    Transition { side: Side, elem: u16 },
}

pub open spec fn spec_side_after(side: Side) -> Option<Side> {
    match side {
        Side::Down => Some(Side::Left),
        Side::Left => Some(Side::Right),
        Side::Right => Some(Side::Up),
        Side::Up => None,
    }
}

/// The side whose turn comes after another's: below comes first, then left, right and above.
#[verifier::when_used_as_spec(spec_side_after)]
pub fn side_after(side: Side) -> (r: Option<Side>)
    ensures
        r == spec_side_after(side),
{
    match side {
        Side::Down => Some(Side::Left),
        Side::Left => Some(Side::Right),
        Side::Right => Some(Side::Up),
        Side::Up => None,
    }
}

/// The neighbour of a cell on a side.
pub open spec fn beside(env: Env, cell: int, side: Side) -> int {
    match side {
        Side::Down => cell - env.width,
        Side::Left => cell - 1,
        Side::Right => cell + 1,
        Side::Up => cell + env.width,
    }
}

impl Pause {
    /// The side of the neighbour that is asked about.
    pub open spec fn spec_side(self) -> Option<Side> {
        match self {
            Pause::Done => None,
            Pause::Melt { side, .. } => Some(side),
            Pause::Transition { side, .. } => Some(side),
        }
    }

    /// The side of the neighbour that is asked about.
    #[verifier::when_used_as_spec(spec_side)]
    pub fn side(self) -> (r: Option<Side>)
        ensures
            r == self.spec_side(),
    {
        match self {
            Pause::Done => None,
            Pause::Melt { side, .. } => Some(side),
            Pause::Transition { side, .. } => Some(side),
        }
    }

    /// How many neighbours have been asked about before.
    pub open spec fn asked(self) -> int {
        match self.side() {
            Some(Side::Down) => 0,
            Some(Side::Left) => 1,
            Some(Side::Right) => 2,
            Some(Side::Up) => 3,
            None => 4,
        }
    }

    pub open spec fn spec_next(self) -> Pause {
        match self {
            Pause::Done => Pause::Done,
            Pause::Melt { side, elem, dir, sealed } => match side_after(side) {
                Some(side) => Pause::Melt { side, elem, dir, sealed },
                None => Pause::Done,
            },
            Pause::Transition { side, elem } => match side_after(side) {
                Some(side) => Pause::Transition { side, elem },
                None => Pause::Done,
            },
        }
    }

    /// What is asked where the answer is no: the same of the next neighbour, and nothing after
    /// the last.
    #[verifier::when_used_as_spec(spec_next)]
    pub fn next(self) -> (p: Pause)
        ensures
            p == self.spec_next(),
    {
        match self {
            Pause::Done => Pause::Done,
            Pause::Melt { side, elem, dir, sealed } => match side_after(side) {
                Some(side) => Pause::Melt { side, elem, dir, sealed },
                None => Pause::Done,
            },
            Pause::Transition { side, elem } => match side_after(side) {
                Some(side) => Pause::Transition { side, elem },
                None => Pause::Done,
            },
        }
    }

    /// Whether nothing is asked.
    pub fn is_done(self) -> (b: bool)
        ensures
            b == (self == Pause::Done),
    {
        match self {
            Pause::Done => true,
            _ => false,
        }
    }
}

/// The state after what is left in a cell vanishes.
pub open spec fn vanished(env: Env, s: State, cell: int) -> State {
    displacement::evaporated(env, s.with_flow(cell, no_flow()), cell)
}

fn vanish(sim: &mut SimData, cell: usize)
    requires
        old(sim).wf(),
        cell < old(sim)@.updated.len(),
    ensures
        sim_data::stepped(*old(sim), *final(sim), vanished(old(sim).env, old(sim)@, cell as int)),
{
    clear_flow(sim, cell);
    do_evaporate(sim, cell);
}

/// Whether the gas in cell `n` is dense enough to take in traces beside it.
pub open spec fn dense_at(env: Env, s: State, n: int) -> bool {
    sim_data::at(s.updated, n) matches Some(c) && num(ONE).le(c.mass)
        && env.elements.spec_post_phase(c.element_idx) == GAS
}

fn is_dense_at(sim: &SimData, n: i64) -> (b: bool)
    ensures
        b == dense_at(sim.env, sim@, n as int),
{
    match peek(&sim.updated_cells, n) {
        Some(c) => num(ONE).le(c.mass) && sim.env.elements.post_phase(c.element_idx) == GAS,
        None => false,
    }
}

/// Whether a dense gas is beside, below or above a cell.
pub open spec fn crowded(env: Env, s: State, cell: int, dir: int) -> bool {
    ||| dense_at(env, s, cell + dir)
    ||| dense_at(env, s, cell - dir)
    ||| dense_at(env, s, cell - env.width)
    ||| dense_at(env, s, cell + env.width)
}

/// The first part of a gas cell's turn. The direction turns. Traces of gas vanish, and a little
/// gas beside a dense one. A gas that sinks is done but for what sublimates into it. For the
/// others it must be known whether they melt anything.
#[verifier::opaque]
pub open spec fn gas_begun(env: Env, s: State, cell: int) -> (State, Pause) {
    let c = s.updated[cell];
    let dir = s.direction();
    let a = s.turned();
    let b = if !num(NANO).le(c.mass) || (c.mass.lt(num(MILLI)) && crowded(env, a, cell, dir)) {
        vanished(env, a, cell)
    } else {
        a
    };
    let (d, sunk) = displacement::layered(env, b, cell, num(ALMOST_ONE));
    if sunk {
        (sublimation::sublimated(env, d, cell), Pause::Done)
    } else {
        (
            d,
            Pause::Melt {
                side: Side::Down,
                elem: c.element_idx,
                dir: dir as i32,
                sealed: marked(c, LIQUID_IMPERMEABLE),
            },
        )
    }
}

fn begin_gas(sim: &mut SimData, cell: usize) -> (p: Pause)
    requires
        old(sim).wf(),
        cell < old(sim)@.updated.len(),
    ensures
        sim_data::stepped(
            *old(sim),
            *final(sim),
            gas_begun(old(sim).env, old(sim)@, cell as int).0,
        ),
        p == gas_begun(old(sim).env, old(sim)@, cell as int).1,
{
    reveal(gas_begun);
    let c = sim.updated_cells[cell];
    let dir: i32 = sim.turn();
    let at: i64 = cell as i64;
    let w: i64 = sim.env.width as i64;
    if num(NANO).le(c.mass) {
        if c.mass.lt(num(MILLI)) {
            let crowd = is_dense_at(sim, at + dir as i64) || is_dense_at(sim, at - dir as i64)
                || is_dense_at(sim, at - w) || is_dense_at(sim, at + w);
            if crowd {
                vanish(sim, cell);
            }
        }
    } else {
        vanish(sim, cell);
    }
    if do_density_displacement(sim, cell, num(ALMOST_ONE)) {
        do_sublimation(sim, cell);
        return Pause::Done;
    }
    Pause::Melt {
        side: Side::Down,
        elem: c.element_idx,
        dir,
        sealed: marked(c, LIQUID_IMPERMEABLE),
    }
}

/// The state after neighbour `n` is considered as the coldest gas to change places with, and the
/// choice so far with its temperature. Each one that is not warmer than the choice has an even
/// chance. `limit` is the molar mass that it must be below, where there is one.
pub open spec fn considered(
    env: Env,
    s: State,
    n: int,
    limit: Option<F32>,
    best: Option<(int, F32)>,
) -> (State, Option<(int, F32)>) {
    match sim_data::at(s.updated, n) {
        None => (s, best),
        Some(c) => if best matches Some(b) && b.1.lt(c.temperature) {
            (s, best)
        } else {
            let t = s.rolled();
            if t.roll().le(num(HALF)) {
                (t, best)
            } else {
                match env.elements.spec_post_process(c.element_idx) {
                    Some(d) => if phase(d.state) != GAS || (limit matches Some(m) && m.le(
                        d.molar_mass,
                    )) {
                        (t, best)
                    } else {
                        (t, Some((n, c.temperature)))
                    },
                    None => (t, best),
                }
            }
        },
    }
}

/// A choice among neighbours in plain indices.
pub open spec fn choice(best: Option<(usize, F32)>) -> Option<(int, F32)> {
    match best {
        Some(b) => Some((b.0 as int, b.1)),
        None => None,
    }
}

fn consider(sim: &mut SimData, n: i64, limit: Option<F32>, best: Option<(usize, F32)>) -> (r:
    Option<(usize, F32)>)
    requires
        old(sim).wf(),
        best matches Some(b) ==> b.0 < old(sim)@.updated.len(),
    ensures
        sim_data::stepped(
            *old(sim),
            *final(sim),
            considered(old(sim).env, old(sim)@, n as int, limit, choice(best)).0,
        ),
        choice(r) == considered(old(sim).env, old(sim)@, n as int, limit, choice(best)).1,
        r matches Some(b) ==> b.0 < final(sim)@.updated.len(),
{
    let c = match peek(&sim.updated_cells, n) {
        Some(c) => c,
        None => return best,
    };
    match best {
        Some(b) => {
            if b.1.lt(c.temperature) {
                return best;
            }
        },
        None => {},
    }
    if next_random(sim).le(num(HALF)) {
        return best;
    }
    match sim.env.elements.post_process(c.element_idx) {
        Some(d) => {
            if phase(d.state) != GAS {
                return best;
            }
            match limit {
                Some(m) => {
                    if m.le(d.molar_mass) {
                        return best;
                    }
                },
                None => {},
            }
            Some((n as usize, c.temperature))
        },
        None => best,
    }
}

/// The state after a gas has mixed with the coldest of its gas neighbours, which happens one
/// time in ten. The one below must be lighter.
#[verifier::opaque]
pub open spec fn gas_mixed(
    env: Env,
    s: State,
    cell: int,
    d: ElementPostProcessData,
    dir: int,
) -> State {
    let t = s.rolled();
    if !num(NINE_TENTHS).lt(t.roll()) {
        t
    } else {
        let (t1, b1) = considered(env, t, cell - dir, None, None);
        let (t2, b2) = considered(env, t1, cell + dir, None, b1);
        let (t3, b3) = considered(env, t2, cell - env.width, Some(d.molar_mass), b2);
        match b3 {
            Some(b) => t3.swapped(b.0, cell).changed(env, b.0).changed(env, cell),
            None => t3,
        }
    }
}

fn mix_gas(sim: &mut SimData, cell: usize, d: ElementPostProcessData, dir: i32)
    requires
        old(sim).wf(),
        cell < old(sim)@.updated.len(),
    ensures
        sim_data::stepped(
            *old(sim),
            *final(sim),
            gas_mixed(old(sim).env, old(sim)@, cell as int, d, dir as int),
        ),
{
    reveal(gas_mixed);
    if !num(NINE_TENTHS).lt(next_random(sim)) {
        return;
    }
    let at: i64 = cell as i64;
    let best = consider(sim, at - dir as i64, None, None);
    let best = consider(sim, at + dir as i64, None, best);
    let best = consider(sim, at - sim.env.width as i64, Some(d.molar_mass), best);
    match best {
        Some((b, _)) => {
            sim.swap(b, cell);
            push_substance_change(sim, b);
            push_substance_change(sim, cell);
        },
        None => {},
    }
}

/// The last part of a gas cell's turn: it mixes, unless it has melted something and is open to
/// liquids, and takes in what sublimates.
pub open spec fn gas_finished(
    env: Env,
    s: State,
    cell: int,
    elem: u16,
    dir: int,
    sealed: bool,
    melted: bool,
) -> State {
    match env.elements.spec_post_process(elem) {
        None => s,
        Some(d) => sublimation::sublimated(
            env,
            if sealed || !melted {
                gas_mixed(env, s, cell, d, dir)
            } else {
                s
            },
            cell,
        ),
    }
}

/// Finishes the turn of a gas cell.
pub fn post_process_melted(
    sim: &mut SimData,
    cell: usize,
    elem: u16,
    dir: i32,
    sealed: bool,
    melted: bool,
)
    requires
        old(sim).wf(),
        cell < old(sim)@.updated.len(),
    ensures
        sim_data::stepped(
            *old(sim),
            *final(sim),
            gas_finished(old(sim).env, old(sim)@, cell as int, elem, dir as int, sealed, melted),
        ),
{
    match sim.env.elements.post_process(elem) {
        Some(d) => {
            if sealed || !melted {
                mix_gas(sim, cell, d, dir);
            }
            do_sublimation(sim, cell);
        },
        None => {},
    }
}

/// The direction in which a liquid of pressure `ratio` bursts first, if any: down, left, right,
/// up.
pub open spec fn burst_direction(env: Env, s: State, cell: int, ratio: F32) -> Option<int> {
    let w = env.width as int;
    if pressure_break::breach(env, s, cell, ratio, -w) is Some {
        Some(-w)
    } else if pressure_break::breach(env, s, cell, ratio, -1) is Some {
        Some(-1int)
    } else if pressure_break::breach(env, s, cell, ratio, 1) is Some {
        Some(1int)
    } else if pressure_break::breach(env, s, cell, ratio, w) is Some {
        Some(w)
    } else {
        None
    }
}

/// The state after a liquid has burst its walls, and whether it has.
#[verifier::opaque]
pub open spec fn burst(env: Env, s: State, cell: int, ratio: F32) -> (State, bool) {
    match burst_direction(env, s, cell, ratio) {
        Some(d) => (
            pressure_break::damaged(
                env,
                s,
                cell,
                d,
                pressure_break::breach(env, s, cell, ratio, d)->0,
            ),
            true,
        ),
        None => (s, false),
    }
}

fn try_burst(sim: &mut SimData, cell: usize, ratio: F32) -> (ok: bool)
    requires
        old(sim).wf(),
        cell < old(sim)@.updated.len(),
    ensures
        sim_data::stepped(
            *old(sim),
            *final(sim),
            burst(old(sim).env, old(sim)@, cell as int, ratio).0,
        ),
        ok == burst(old(sim).env, old(sim)@, cell as int, ratio).1,
{
    reveal(burst);
    let w: i64 = sim.env.width as i64;
    do_pressure_break(sim, cell, ratio, -w) || do_pressure_break(sim, cell, ratio, -1)
        || do_pressure_break(sim, cell, ratio, 1) || do_pressure_break(sim, cell, ratio, w)
}

/// Whether a liquid with far too much mass presses part of it into the liquid above.
pub open spec fn overflows(env: Env, s: State, cell: int, limit: F32) -> bool {
    let mass = s.updated[cell].mass;
    match sim_data::at(s.updated, cell + env.width) {
        Some(n) => {
            let full = n.mass.times(num(COMPRESSION)).max(limit);
            &&& limit.times(num(THREE_HALVES)).lt(mass)
            &&& n.mass.lt(mass)
            &&& env.elements.spec_liquid_phase(n.element_idx) == LIQUID
            &&& full.le(mass)
            &&& !mass.same(full)
        },
        None => false,
    }
}

fn is_overflowing(sim: &SimData, cell: usize, limit: F32) -> (b: bool)
    requires
        sim.wf(),
        cell < sim@.updated.len(),
    ensures
        b == overflows(sim.env, sim@, cell as int, limit),
{
    let mass = sim.updated_cells[cell].mass;
    match peek(&sim.updated_cells, cell as i64 + sim.env.width as i64) {
        Some(n) => {
            let full = n.mass.times(num(COMPRESSION)).max(limit);
            limit.times(num(THREE_HALVES)).lt(mass) && n.mass.lt(mass)
                && sim.env.elements.liquid_phase(n.element_idx) == LIQUID && full.le(mass)
                && !mass.same(full)
        },
        None => false,
    }
}

/// The state after about half of a liquid has gone to cell `n`, which has been cleared.
pub open spec fn halved(env: Env, s: State, cell: int, n: int) -> State {
    let c = s.updated[cell];
    let part = c.mass.times(num(DUMP_SHARE));
    let germs = F32::from_i32(c.disease_count).times(part.over(c.mass)).to_i32();
    let t = s.put(
        n,
        Cell {
            element_idx: c.element_idx,
            mass: part,
            temperature: c.temperature,
            disease_idx: c.disease_idx,
            disease_count: germs,
            disease_infestation_tick_count: 0,
            disease_growth_accumulated_error: num(ZERO),
            ..s.updated[n]
        },
    ).changed(env, n);
    let d = t.updated[cell];
    t.put(
        cell,
        (Cell { mass: d.mass.minus(part), ..d }).with_disease_delta(0i32.wrapping_sub(germs)),
    )
}

fn halve(sim: &mut SimData, cell: usize, n: usize)
    requires
        old(sim).wf(),
        cell < old(sim)@.updated.len(),
        n < old(sim)@.updated.len(),
    ensures
        sim_data::stepped(
            *old(sim),
            *final(sim),
            halved(old(sim).env, old(sim)@, cell as int, n as int),
        ),
{
    let c = sim.updated_cells[cell];
    let part = c.mass.times(num(DUMP_SHARE));
    let germs: i32 = F32::from_i32(c.disease_count).times(part.over(c.mass)).to_i32();
    let e = Cell {
        element_idx: c.element_idx,
        mass: part,
        temperature: c.temperature,
        disease_idx: c.disease_idx,
        disease_count: germs,
        disease_infestation_tick_count: 0,
        disease_growth_accumulated_error: num(ZERO),
        ..sim.updated_cells[n]
    };
    sim.put(n, e);
    push_substance_change(sim, n);
    let d = sim.updated_cells[cell];
    let d = Cell { mass: d.mass.minus(part), ..d };
    sim.put(cell, d.with_disease_delta(0i32.wrapping_sub(germs)));
}

/// The state after a liquid above its limit has been relieved of it, and whether that ends its
/// turn: it bursts a wall, or presses about half of it into the cell above.
#[verifier::opaque]
pub open spec fn relieved(env: Env, s: State, cell: int, limit: F32) -> (State, bool) {
    let mass = s.updated[cell].mass;
    if !num(ZERO).lt(limit) || !limit.lt(mass) {
        (s, false)
    } else {
        let (t, ok) = burst(env, s, cell, mass.over(limit));
        if ok {
            (t, true)
        } else if overflows(env, t, cell, limit) {
            let n = cell + env.width;
            let (u, pushed) = displacement::liquid_displaced(env, t, n, t.updated[n].element_idx);
            if pushed {
                (halved(env, u, cell, n), true)
            } else {
                (u, false)
            }
        } else {
            (t, false)
        }
    }
}

fn relieve(sim: &mut SimData, cell: usize, limit: F32) -> (ok: bool)
    requires
        old(sim).wf(),
        cell < old(sim)@.updated.len(),
    ensures
        sim_data::stepped(
            *old(sim),
            *final(sim),
            relieved(old(sim).env, old(sim)@, cell as int, limit).0,
        ),
        ok == relieved(old(sim).env, old(sim)@, cell as int, limit).1,
{
    reveal(relieved);
    let mass = sim.updated_cells[cell].mass;
    if !num(ZERO).lt(limit) || !limit.lt(mass) {
        return false;
    }
    if try_burst(sim, cell, mass.over(limit)) {
        return true;
    }
    if is_overflowing(sim, cell, limit) {
        let n: usize = cell + sim.env.width;
        if displace_liquid(sim, n, sim.updated_cells[n].element_idx) {
            halve(sim, cell, n);
            return true;
        }
    }
    false
}

/// The first part of a liquid cell's turn. Traces vanish. A liquid that sinks, or is relieved of
/// too much mass, is done. For the others it must be known whether they change phase.
pub open spec fn liquid_begun(
    env: Env,
    s: State,
    cell: int,
    d: ElementPostProcessData,
) -> (State, Pause) {
    let c = s.updated[cell];
    if c.mass.lt(num(CENTI)) {
        (vanished(env, s, cell), Pause::Done)
    } else {
        let (t, sunk) = displacement::layered(env, s, cell, num(THREE_TENTHS));
        if sunk {
            (t, Pause::Done)
        } else {
            let (u, done) = relieved(env, t, cell, d.max_mass);
            (
                u,
                if done {
                    Pause::Done
                } else {
                    Pause::Transition { side: Side::Down, elem: c.element_idx }
                },
            )
        }
    }
}

fn begin_liquid(sim: &mut SimData, cell: usize, d: ElementPostProcessData) -> (p: Pause)
    requires
        old(sim).wf(),
        cell < old(sim)@.updated.len(),
    ensures
        sim_data::stepped(
            *old(sim),
            *final(sim),
            liquid_begun(old(sim).env, old(sim)@, cell as int, d).0,
        ),
        p == liquid_begun(old(sim).env, old(sim)@, cell as int, d).1,
{
    let c = sim.updated_cells[cell];
    if c.mass.lt(num(CENTI)) {
        vanish(sim, cell);
        return Pause::Done;
    }
    if do_density_displacement(sim, cell, num(THREE_TENTHS)) {
        return Pause::Done;
    }
    if relieve(sim, cell, d.max_mass) {
        return Pause::Done;
    }
    Pause::Transition { side: Side::Down, elem: c.element_idx }
}

/// Whether germs of two cells may be joined: they are of one kind, or the second is clean.
pub open spec fn spec_germs_mix(from: Cell, to: Cell) -> bool {
    from.disease_idx == to.disease_idx || to.disease_idx == NO_DISEASE
}

/// Whether germs of two cells may be joined: they are of one kind, or the second is clean.
#[verifier::when_used_as_spec(spec_germs_mix)]
pub fn germs_mix(from: Cell, to: Cell) -> (b: bool)
    ensures
        b == spec_germs_mix(from, to),
{
    from.disease_idx == to.disease_idx || to.disease_idx == NO_DISEASE
}

/// How much gas a mass of liquid gives off in a step.
pub open spec fn spec_off_gas(d: ElementPostProcessData, mass: F32) -> F32 {
    let f = d.off_gas_percentage.times(mass);
    if num(ONE).le(f) {
        num(ONE)
    } else {
        f
    }
}

/// How much gas a mass of liquid gives off in a step.
#[verifier::when_used_as_spec(spec_off_gas)]
pub fn off_gas(d: ElementPostProcessData, mass: F32) -> (f: F32)
    ensures
        f == spec_off_gas(d, mass),
{
    let f = d.off_gas_percentage.times(mass);
    if num(ONE).le(f) {
        num(ONE)
    } else {
        f
    }
}

/// The state after a liquid has given off `amount` of gas into the cell above, as far as there
/// is room. Another gas there must leave first; nothing happens where it cannot.
#[verifier::opaque]
pub open spec fn fumed(
    env: Env,
    s: State,
    cell: int,
    d: ElementPostProcessData,
    amount: F32,
) -> State {
    let n = cell + env.width;
    let e = s.updated[n].element_idx;
    let pushes = e != d.sublimate_index && e != env.vacuum_element_idx;
    if pushes && displacement::gas_goal(env, s, n, e) is None {
        s
    } else {
        let t = if pushes {
            displacement::gas_displaced(env, s, n, e)
        } else {
            s
        };
        let gain = amount.times(d.sublimate_efficiency);
        let room = num(SUBLIMATE_LIMIT).minus(t.updated[n].mass);
        let part = if room.lt(gain) {
            amount.times(room.over(gain))
        } else {
            amount
        };
        sublimation::gas_emitted(
            env,
            t,
            cell,
            n,
            part,
            germs_mix(t.updated[cell], t.updated[n]),
            d.sublimate_index,
        ).accumulated(cell, part).shown(env, cell, d.sublimate_fx, num(ZERO))
    }
}

fn fume(sim: &mut SimData, cell: usize, d: ElementPostProcessData, amount: F32)
    requires
        old(sim).wf(),
        cell + old(sim).env.width < old(sim)@.updated.len(),
    ensures
        sim_data::stepped(
            *old(sim),
            *final(sim),
            fumed(old(sim).env, old(sim)@, cell as int, d, amount),
        ),
{
    reveal(fumed);
    let n: usize = cell + sim.env.width;
    let e: u16 = sim.updated_cells[n].element_idx;
    if e != d.sublimate_index && e != sim.env.vacuum_element_idx {
        if !displace_gas(sim, n, e) {
            return;
        }
    }
    let mut part = amount;
    let gain = amount.times(d.sublimate_efficiency);
    let room = num(SUBLIMATE_LIMIT).minus(sim.updated_cells[n].mass);
    if room.lt(gain) {
        part = amount.times(room.over(gain));
    }
    let merge = germs_mix(sim.updated_cells[cell], sim.updated_cells[n]);
    emit_sublimate_gas(sim, cell, n, part, merge, d.sublimate_index);
    sim.accumulate(cell, part);
    push_spawn_fx(sim, cell, d.sublimate_fx, num(ZERO));
}

/// The state after a liquid that cannot give off `amount` of gas and last has turned into gas
/// itself. Where `heavier` says that the same liquid below it has more, that makes up for the
/// rest.
#[verifier::opaque]
pub open spec fn boiled(
    env: Env,
    s: State,
    cell: int,
    d: ElementPostProcessData,
    amount: F32,
    heavier: bool,
) -> State {
    let mass = s.updated[cell].mass;
    let down = cell - env.width;
    let t = sublimation::gas_emitted(env, s, cell, cell, mass, true, d.sublimate_index);
    let u = if num(ZERO).lt(amount.minus(mass)) && heavier {
        sublimation::gas_emitted(
            env,
            t,
            down,
            cell,
            amount.minus(mass),
            germs_mix(t.updated[down], t.updated[cell]),
            d.sublimate_index,
        )
    } else {
        t
    };
    u.shown(env, cell, d.sublimate_fx, num(ZERO))
}

fn boil(sim: &mut SimData, cell: usize, d: ElementPostProcessData, amount: F32, heavier: bool)
    requires
        old(sim).wf(),
        old(sim).env.width <= cell < old(sim)@.updated.len(),
    ensures
        sim_data::stepped(
            *old(sim),
            *final(sim),
            boiled(old(sim).env, old(sim)@, cell as int, d, amount, heavier),
        ),
{
    reveal(boiled);
    let mass = sim.updated_cells[cell].mass;
    let down: usize = cell - sim.env.width;
    emit_sublimate_gas(sim, cell, cell, mass, true, d.sublimate_index);
    if num(ZERO).lt(amount.minus(mass)) && heavier {
        let merge = germs_mix(sim.updated_cells[down], sim.updated_cells[cell]);
        emit_sublimate_gas(sim, down, cell, amount.minus(mass), merge, d.sublimate_index);
    }
    push_spawn_fx(sim, cell, d.sublimate_fx, num(ZERO));
}

/// Whether a liquid of data `d` has the chance to give off gas: it can, and the cell above has
/// room and holds a gas or nothing. Only then a random number is drawn.
pub open spec fn may_fume(env: Env, s: State, cell: int, d: ElementPostProcessData) -> bool {
    &&& s.accumulated_flow.len() != 0
    &&& d.sublimate_index != NO_ELEMENT
    &&& cell >= env.width
    &&& sim_data::at(s.updated, cell + env.width) matches Some(n) && n.mass.lt(
        num(SUBLIMATE_LIMIT),
    ) && env.elements.spec_post_phase(n.element_idx) <= GAS
}

/// The last part of a liquid cell's turn: it gives off gas, unless it has changed phase.
pub open spec fn liquid_finished(
    env: Env,
    s: State,
    cell: int,
    elem: u16,
    changed: bool,
) -> State {
    match env.elements.spec_post_process(elem) {
        None => s,
        Some(d) => if changed || !may_fume(env, s, cell, d) {
            s
        } else {
            let t = s.rolled();
            let c = t.updated[cell];
            let down = t.updated[cell - env.width];
            let heavier = down.element_idx == elem && c.mass.lt(down.mass);
            let amount = off_gas(
                d,
                if heavier {
                    down.mass
                } else {
                    c.mass
                },
            );
            if marked(t.updated[cell + env.width], GAS_IMPERMEABLE) || !t.roll().lt(
                d.sublimate_probability,
            ) {
                t
            } else if !num(CENTI).le(c.mass.minus(amount)) {
                boiled(env, t, cell, d, amount, heavier)
            } else if amount.le(num(ZERO)) {
                t
            } else {
                fumed(env, t, cell, d, amount)
            }
        },
    }
}

/// Finishes the turn of a liquid cell.
pub fn post_process_heated(sim: &mut SimData, cell: usize, elem: u16, changed: bool)
    requires
        old(sim).wf(),
        cell < old(sim)@.updated.len(),
    ensures
        sim_data::stepped(
            *old(sim),
            *final(sim),
            liquid_finished(old(sim).env, old(sim)@, cell as int, elem, changed),
        ),
{
    let d = match sim.env.elements.post_process(elem) {
        Some(d) => d,
        None => return,
    };
    let w: usize = sim.env.width;
    if changed || sim.accumulated_flow.len() == 0 || d.sublimate_index == NO_ELEMENT || cell < w {
        return;
    }
    let up: usize = cell + w;
    if up >= sim.updated_cells.len() {
        return;
    }
    let n = sim.updated_cells[up];
    if !n.mass.lt(num(SUBLIMATE_LIMIT)) || sim.env.elements.post_phase(n.element_idx) > GAS {
        return;
    }
    let random = next_random(sim);
    if marked(n, GAS_IMPERMEABLE) || !random.lt(d.sublimate_probability) {
        return;
    }
    let c = sim.updated_cells[cell];
    let down = sim.updated_cells[cell - w];
    let heavier = down.element_idx == elem && c.mass.lt(down.mass);
    let amount = off_gas(
        d,
        if heavier {
            down.mass
        } else {
            c.mass
        },
    );
    if !num(CENTI).le(c.mass.minus(amount)) {
        boil(sim, cell, d, amount, heavier);
        return;
    }
    if amount.le(num(ZERO)) {
        return;
    }
    fume(sim, cell, d, amount);
}

/// The state after a cell's turn in the closing pass, as far as it goes without an answer from
/// outside, and what it waits for.
pub open spec fn begun(env: Env, s: State, cell: int) -> (State, Pause) {
    if env.width < 3 || env.height < 3 || cell < env.width || cell >= s.updated.len() {
        (s, Pause::Done)
    } else {
        let c = s.updated[cell];
        match env.elements.spec_post_process(c.element_idx) {
            None => (s, Pause::Done),
            Some(d) => {
                let p = phase(d.state);
                if p == VACUUM {
                    if marked(c, GAS_IMPERMEABLE) {
                        (s, Pause::Done)
                    } else {
                        (sublimation::sublimated(env, s, cell), Pause::Done)
                    }
                } else if p == GAS {
                    gas_begun(env, s, cell)
                } else if p == SOLID {
                    if d.state & UNSTABLE_STATE != UNSTABLE_STATE {
                        (s, Pause::Done)
                    } else {
                        (unstable::checked(env, s, cell), Pause::Done)
                    }
                } else {
                    liquid_begun(env, s, cell, d)
                }
            },
        }
    }
}

/// Runs a cell's turn in the closing pass and returns what it waits for. Where that is an
/// answer, `post_process_resume` goes on with it.
pub fn post_process_cell(sim: &mut SimData, cell: usize) -> (p: Pause)
    requires
        old(sim).wf(),
    ensures
        sim_data::stepped(*old(sim), *final(sim), begun(old(sim).env, old(sim)@, cell as int).0),
        p == begun(old(sim).env, old(sim)@, cell as int).1,
{
    let w: usize = sim.env.width;
    if w < 3 || sim.env.height < 3 || cell < w || cell >= sim.updated_cells.len() {
        return Pause::Done;
    }
    let c = sim.updated_cells[cell];
    let d = match sim.env.elements.post_process(c.element_idx) {
        Some(d) => d,
        None => return Pause::Done,
    };
    let p: u8 = phase(d.state);
    if p == VACUUM {
        if !marked(c, GAS_IMPERMEABLE) {
            do_sublimation(sim, cell);
        }
        return Pause::Done;
    }
    if p == GAS {
        return begin_gas(sim, cell);
    }
    if p == SOLID {
        if d.state & UNSTABLE_STATE == UNSTABLE_STATE {
            do_unstable_check(sim, cell);
        }
        return Pause::Done;
    }
    begin_liquid(sim, cell, d)
}

/// The state after a cell's turn is finished, once it is known whether any neighbour has melted
/// or changed its phase.
pub open spec fn finished(env: Env, s: State, cell: int, p: Pause, answer: bool) -> State {
    match p {
        Pause::Done => s,
        Pause::Melt { elem, dir, sealed, .. } => gas_finished(
            env,
            s,
            cell,
            elem,
            dir as int,
            sealed,
            answer,
        ),
        Pause::Transition { elem, .. } => liquid_finished(env, s, cell, elem, answer),
    }
}

/// The state after a cell's turn goes on with an answer, and what it waits for then: after a no
/// the same is asked of the next neighbour; after a yes, or the last no, the turn is finished.
pub open spec fn resumed(env: Env, s: State, cell: int, p: Pause, answer: bool) -> (State, Pause) {
    if !answer && p.next() != Pause::Done {
        (s, p.next())
    } else {
        (finished(env, s, cell, p, answer), Pause::Done)
    }
}

/// Goes on with a cell's turn that waited for an answer, and returns what it waits for then.
pub fn post_process_resume(sim: &mut SimData, cell: usize, p: Pause, answer: bool) -> (q: Pause)
    requires
        old(sim).wf(),
        cell < old(sim)@.updated.len(),
    ensures
        sim_data::stepped(
            *old(sim),
            *final(sim),
            resumed(old(sim).env, old(sim)@, cell as int, p, answer).0,
        ),
        q == resumed(old(sim).env, old(sim)@, cell as int, p, answer).1,
{
    if !answer && !p.next().is_done() {
        return p.next();
    }
    match p {
        Pause::Done => {},
        Pause::Melt { elem, dir, sealed, .. } => post_process_melted(
            sim,
            cell,
            elem,
            dir,
            sealed,
            answer,
        ),
        Pause::Transition { elem, .. } => post_process_heated(sim, cell, elem, answer),
    }
    Pause::Done
}

/// A cell that waits asks about the neighbours below, to the left, to the right and above, in this
/// order, whatever happens to the world in between: a yes finishes its turn with a yes, and four
/// noes finish it with a no.
pub proof fn law_neighbours_are_asked_in_turn(env: Env, s: State, cell: int, p: Pause)
    requires
        p.side() == Some(Side::Down),
    ensures
        ({
            let left = p.next();
            let right = left.next();
            let above = right.next();
            &&& left.side() == Some(Side::Left)
            &&& right.side() == Some(Side::Right)
            &&& above.side() == Some(Side::Up)
            &&& resumed(env, s, cell, p, false) == (s, left)
            &&& resumed(env, s, cell, left, false) == (s, right)
            &&& resumed(env, s, cell, right, false) == (s, above)
            &&& resumed(env, s, cell, above, false) == (
                finished(env, s, cell, p, false),
                Pause::Done,
            )
            &&& forall|q: Pause|
                q == p || q == left || q == right || q == above ==> #[trigger] resumed(
                    env,
                    s,
                    cell,
                    q,
                    true,
                ) == (finished(env, s, cell, p, true), Pause::Done)
        }),
{
}

/// A cell that waits begins with the neighbour below, and has one.
pub proof fn law_below_is_asked_first(env: Env, s: State, cell: int)
    ensures
        ({
            let p = begun(env, s, cell).1;
            p != Pause::Done ==> p.side() == Some(Side::Down) && env.width <= cell
                < s.updated.len()
        }),
{
    reveal(gas_begun);
}

/// Where the closing pass stands: the rectangle that it goes over, row after row, the cell
/// whose turn it is, and what that waits for. With nothing to wait for the pass is over.
#[derive(Clone, Copy, Debug)]
pub struct Closing {
    pub x0: usize,
    pub x1: usize,
    pub y1: usize,
    pub y: usize,
    pub x: usize,
    pub pause: Pause,
}

/// The state and the place where the pass next waits, or ends, if it goes on with the cell in
/// row `y` and column `x`.
pub open spec fn closed_from(env: Env, s: State, x0: int, x1: int, y1: int, y: int, x: int) -> (
    State,
    int,
    int,
    Pause,
)
    decreases
            (if y < y1 {
                y1 - y
            } else {
                0
            }),
            (if x < x1 {
                x1 - x
            } else {
                0
            }),
{
    if y >= y1 {
        (s, y, x, Pause::Done)
    } else if x >= x1 {
        closed_from(env, s, x0, x1, y1, y + 1, x0)
    } else {
        let (t, p) = begun(env, s, y * env.width + x);
        if p == Pause::Done {
            closed_from(env, t, x0, x1, y1, y, x + 1)
        } else {
            (t, y, x, p)
        }
    }
}

/// Where the closing pass waits, it waits at the cell that it goes on with or at a later one, and
/// inside its rectangle.
pub proof fn law_closing_goes_on(env: Env, s: State, x0: int, x1: int, y1: int, y: int, x: int)
    ensures
        ({
            let r = closed_from(env, s, x0, x1, y1, y, x);
            r.3 != Pause::Done ==> {
                &&& r.1 > y || (r.1 == y && r.2 >= x)
                &&& r.1 < y1
                &&& r.2 < x1
            }
        }),
    decreases
            (if y < y1 {
                y1 - y
            } else {
                0
            }),
            (if x < x1 {
                x1 - x
            } else {
                0
            }),
{
    if y >= y1 {
    } else if x >= x1 {
        law_closing_goes_on(env, s, x0, x1, y1, y + 1, x0);
    } else {
        let (t, p) = begun(env, s, y * env.width + x);
        if p == Pause::Done {
            law_closing_goes_on(env, t, x0, x1, y1, y, x + 1);
        }
    }
}

impl Closing {
    /// A pass that waits stays inside the grid, and the cell that waits is there, with all its
    /// neighbours.
    pub open spec fn wf(self, env: Env, s: State) -> bool {
        self.pause != Pause::Done ==> {
            &&& self.x1 < env.width
            &&& self.y1 < env.height
            &&& 1 <= self.y < self.y1
            &&& self.x < self.x1
            &&& s.updated.len() == env.cell_count()
        }
    }

    /// The cell whose turn it is.
    pub open spec fn place(self, env: Env) -> int {
        self.y * env.width + self.x
    }

    /// The pass once it has come to a place.
    pub open spec fn at(self, r: (State, int, int, Pause)) -> Closing {
        Closing { y: r.1 as usize, x: r.2 as usize, pause: r.3, ..self }
    }

    /// The state, and where the pass next waits once it has its answer: at the same cell, for the
    /// next neighbour, or at a later cell.
    pub open spec fn answered(self, env: Env, s: State, answer: bool) -> (State, Closing) {
        let (t, p) = resumed(env, s, self.place(env), self.pause, answer);
        if self.pause == Pause::Done {
            (s, self)
        } else if p != Pause::Done {
            (t, Closing { pause: p, ..self })
        } else {
            let r = closed_from(
                env,
                t,
                self.x0 as int,
                self.x1 as int,
                self.y1 as int,
                self.y as int,
                self.x + 1,
            );
            (r.0, self.at(r))
        }
    }

    /// Goes on from the cell whose turn it is to the next that waits.
    fn run(&mut self, sim: &mut SimData)
        requires
            old(sim).wf(),
            old(self).x1 < old(sim).env.width,
            old(self).y1 < old(sim).env.height,
            old(self).pause == Pause::Done,
            old(sim)@.updated.len() == old(sim).env.cell_count(),
        ensures
            ({
                let r = closed_from(
                    old(sim).env,
                    old(sim)@,
                    old(self).x0 as int,
                    old(self).x1 as int,
                    old(self).y1 as int,
                    old(self).y as int,
                    old(self).x as int,
                );
                &&& sim_data::stepped(*old(sim), *final(sim), r.0)
                &&& *final(self) == old(self).at(r)
            }),
            final(self).wf(final(sim).env, final(sim)@),
    {
        let ghost goal = closed_from(
            sim.env,
            sim@,
            self.x0 as int,
            self.x1 as int,
            self.y1 as int,
            self.y as int,
            self.x as int,
        );
        while self.y < self.y1
            invariant_except_break
                self.pause == Pause::Done,
                goal == closed_from(
                    sim.env,
                    sim@,
                    self.x0 as int,
                    self.x1 as int,
                    self.y1 as int,
                    self.y as int,
                    self.x as int,
                ),
            invariant
                sim.wf(),
                sim.env == old(sim).env,
                sim_data::same_shape(old(sim)@, sim@),
                sim@.updated.len() == sim.env.cell_count(),
                self.x0 == old(self).x0,
                self.x1 == old(self).x1,
                self.y1 == old(self).y1,
                self.x1 < sim.env.width,
                self.y1 < sim.env.height,
            ensures
                sim@ == goal.0,
                *self == old(self).at(goal),
                self.wf(sim.env, sim@),
            decreases
                    (if self.y < self.y1 {
                        self.y1 - self.y
                    } else {
                        0
                    }),
                    (if self.x < self.x1 {
                        self.x1 - self.x
                    } else {
                        0
                    }),
        {
            if self.x >= self.x1 {
                self.y = self.y + 1;
                self.x = self.x0;
            } else {
                proof {
                    sweep::lemma_index(sim.env, self.y as int, self.x as int);
                }
                let ghost before = sim@;
                let p = post_process_cell(sim, self.y * sim.env.width + self.x);
                proof {
                    let w = sim.env.width as int;
                    let y = self.y as int;
                    law_below_is_asked_first(sim.env, before, y * w + self.x);
                    assert(y < 1 ==> y * w <= 0) by (nonlinear_arith)
                        requires
                            w >= 0,
                    ;
                }
                match p {
                    Pause::Done => {
                        self.x = self.x + 1;
                    },
                    _ => {
                        self.pause = p;
                        break ;
                    },
                }
            }
        }
    }

    /// Whether the pass is over.
    pub fn is_over(&self) -> (b: bool)
        ensures
            b == (self.pause == Pause::Done),
    {
        self.pause.is_done()
    }

    /// Whether the pass is over or the cell that waits is there.
    pub fn is_valid(&self, sim: &SimData) -> (b: bool)
        requires
            sim.wf(),
        ensures
            b == self.wf(sim.env, sim@),
    {
        self.is_over() || (self.x1 < sim.env.width && self.y1 < sim.env.height && 1 <= self.y
            && self.y < self.y1 && self.x < self.x1 && sim.updated_cells.len() == sim.env.total())
    }

    /// The cell whose turn it is.
    pub fn cell(&self, sim: &SimData) -> (c: usize)
        requires
            sim.wf(),
            self.wf(sim.env, sim@),
            self.pause != Pause::Done,
        ensures
            c == self.place(sim.env),
            c < sim.env.cell_count(),
    {
        proof {
            sweep::lemma_index(sim.env, self.y as int, self.x as int);
        }
        self.y * sim.env.width + self.x
    }

    /// The neighbour that the pass asks about: below the cell, to its left, to its right and
    /// above it, one after the other.
    pub fn neighbour(&self, sim: &SimData) -> (n: usize)
        requires
            sim.wf(),
            self.wf(sim.env, sim@),
            self.pause != Pause::Done,
        ensures
            self.pause.asked() == 0 ==> n == self.place(sim.env) - sim.env.width,
            self.pause.asked() == 1 ==> n == self.place(sim.env) - 1,
            self.pause.asked() == 2 ==> n == self.place(sim.env) + 1,
            self.pause.asked() == 3 ==> n == self.place(sim.env) + sim.env.width,
            0 <= self.pause.asked() <= 3,
            n == beside(sim.env, self.place(sim.env), self.pause.side()->0),
            n < sim.env.cell_count(),
    {
        let cell: usize = self.cell(sim);
        let w: usize = sim.env.width;
        proof {
            sweep::lemma_index(sim.env, self.y + 1, self.x as int);
            let (y, v) = (self.y as int, w as int);
            assert((y + 1) * v == y * v + v && y * v >= v) by (nonlinear_arith)
                requires
                    y >= 1,
                    v >= 0,
            ;
        }
        match self.pause.side() {
            Some(Side::Down) => cell - w,
            Some(Side::Left) => cell - 1,
            Some(Side::Right) => cell + 1,
            _ => cell + w,
        }
    }

    /// Whether the pass stands at an earlier point than `later`: at an earlier cell, or at an
    /// earlier neighbour of the same cell.
    pub open spec fn precedes(self, env: Env, later: Closing) -> bool {
        ||| self.place(env) < later.place(env)
        ||| self.place(env) == later.place(env) && self.pause.asked() < later.pause.asked()
    }

    /// Goes on with the answer that the pass waits for. After a no it asks the same of the next
    /// neighbour; after a yes, or the fourth no, it goes on to the next cell that waits.
    pub fn reply(&mut self, sim: &mut SimData, answer: bool)
        requires
            old(sim).wf(),
            old(self).wf(old(sim).env, old(sim)@),
        ensures
            ({
                let r = old(self).answered(old(sim).env, old(sim)@, answer);
                &&& sim_data::stepped(*old(sim), *final(sim), r.0)
                &&& *final(self) == r.1
            }),
            old(self).pause == Pause::Done || final(self).pause == Pause::Done
                || old(self).precedes(old(sim).env, *final(self)),
            final(self).wf(final(sim).env, final(sim)@),
    {
        if self.is_over() {
            return;
        }
        let cell: usize = self.cell(sim);
        let p = post_process_resume(sim, cell, self.pause, answer);
        if !p.is_done() {
            self.pause = p;
            return;
        }
        proof {
            law_closing_goes_on(
                sim.env,
                sim@,
                self.x0 as int,
                self.x1 as int,
                self.y1 as int,
                self.y as int,
                self.x + 1,
            );
        }
        self.x = self.x + 1;
        self.pause = Pause::Done;
        self.run(sim);
        proof {
            let w = sim.env.width as int;
            let (y0, y) = (old(self).y as int, self.y as int);
            assert(y0 < y ==> y0 * w + w <= y * w) by (nonlinear_arith)
                requires
                    w >= 0,
            ;
        }
    }
}

/// A pass that is over.
pub open spec fn spec_no_closing() -> Closing {
    Closing { x0: 0, x1: 0, y1: 0, y: 0, x: 0, pause: Pause::Done }
}

/// A pass that is over.
#[verifier::when_used_as_spec(spec_no_closing)]
pub fn no_closing() -> (c: Closing)
    ensures
        c == spec_no_closing(),
{
    Closing { x0: 0, x1: 0, y1: 0, y: 0, x: 0, pause: Pause::Done }
}

/// The state, and where the closing pass over a rectangle first waits, or ends. Cells in the last
/// row and column of the grid have no turn.
pub open spec fn closing(env: Env, s: State, b: RegionBounds) -> (State, Closing) {
    if env.width < 3 || env.height < 3 || s.unallocated() {
        (s, no_closing())
    } else {
        let c = Closing {
            x0: b.min_x,
            x1: sweep::lesser(b.max_x as int, env.width - 1) as usize,
            y1: sweep::lesser(b.max_y as int, env.height - 1) as usize,
            y: b.min_y,
            x: b.min_x,
            pause: Pause::Done,
        };
        let r = closed_from(
            env,
            s,
            c.x0 as int,
            c.x1 as int,
            c.y1 as int,
            c.y as int,
            c.x as int,
        );
        (r.0, c.at(r))
    }
}

/// Begins the closing pass over a rectangle.
pub fn post_process_loop(sim: &mut SimData, bounds: RegionBounds) -> (c: Closing)
    requires
        old(sim).wf(),
    ensures
        sim_data::stepped(
            *old(sim),
            *final(sim),
            closing(old(sim).env, old(sim)@, bounds).0,
        ),
        c == closing(old(sim).env, old(sim)@, bounds).1,
        c.wf(final(sim).env, final(sim)@),
{
    let w: usize = sim.env.width;
    let h: usize = sim.env.height;
    if w < 3 || h < 3 || sim.cells.len() == 0 || sim.updated_cells.len() == 0 {
        return no_closing();
    }
    let x1: usize = if bounds.max_x <= w - 1 {
        bounds.max_x
    } else {
        w - 1
    };
    let y1: usize = if bounds.max_y <= h - 1 {
        bounds.max_y
    } else {
        h - 1
    };
    let mut c = Closing {
        x0: bounds.min_x,
        x1,
        y1,
        y: bounds.min_y,
        x: bounds.min_x,
        pause: Pause::Done,
    };
    c.run(sim);
    c
}

} // verus!
