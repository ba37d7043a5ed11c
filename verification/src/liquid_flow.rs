//! How liquids fall, spread, rise and slip past corners.
use crate::cell::share;
use crate::cell::Cell;
use crate::constants::CENTI;
use crate::constants::COMPRESSION;
use crate::constants::HALF;
use crate::constants::QUARTER;
use crate::constants::THREE;
use crate::constants::TWO;
use crate::constants::ZERO;
use crate::displacement;
use crate::displacement::displace_gas;
use crate::element::ElementLiquidData;
use crate::element::GAS;
use crate::element::LIQUID;
use crate::element::NO_PHASE;
use crate::element::SOLID;
use crate::grid;
use crate::grid::is_liquid_permeable;
use crate::grid::is_solid;
use crate::grid::marked;
use crate::grid::GAS_IMPERMEABLE;
use crate::grid::LIQUID_IMPERMEABLE;
use crate::number::num;
use crate::number::F32;
use crate::region_events::Event;
use crate::region_events::SpawnFallingLiquidInfo;
use crate::sim_data;
use crate::sim_data::emit;
use crate::sim_data::peek;
use crate::sim_data::push_substance_change;
use crate::sim_data::Env;
use crate::sim_data::RegionBounds;
use crate::sim_data::Side;
use crate::sim_data::SimData;
use crate::sim_data::State;
use crate::sweep;
use crate::sweep::sweep_inner;
use crate::sweep::Pass;
use vstd::prelude::*;

verus! {

broadcast use crate::region_events::group_events;

/// Whether a droplet of `elem` at `temperature` may leave the grid at `cell`: the place is
/// shown to the player, the cell below it admits liquids, and the element keeps its phase at
/// that temperature, give or take three degrees.
pub open spec fn can_drip(env: Env, s: State, cell: int, elem: u16, temperature: F32) -> bool {
    &&& !env.headless
    &&& s.cells.len() != 0
    &&& env.visible_grid@.len() != 0
    &&& cell >= env.width
    &&& !marked(s.cells[cell - env.width], LIQUID_IMPERMEABLE)
    &&& env.on_game_grid(cell)
    &&& env.visible_grid@[env.game_cell(cell)] != 0 || env.is_debug_editing
    &&& env.elements.spec_temperature(elem) matches Some(d) && {
        &&& !temperature.lt(d.low_temp.minus(num(THREE)))
        &&& !d.high_temp.plus(num(THREE)).lt(temperature)
    }
    &&& s.events is Some
}

/// The event of a droplet.
pub open spec fn droplet(
    env: Env,
    cell: int,
    elem: u16,
    mass: F32,
    temperature: F32,
    disease_idx: u8,
    disease_count: i32,
) -> Event {
    Event::SpawnLiquid(
        SpawnFallingLiquidInfo {
            cell_idx: env.game_cell(cell) as i32,
            element_idx: elem,
            disease_idx,
            mass,
            temperature,
            disease_count,
        },
    )
}

/// Lets a droplet leave the grid, where it may.
pub fn spawn_falling_liquid(
    sim: &mut SimData,
    cell: usize,
    elem_idx: u16,
    mass: F32,
    temperature: F32,
    disease_idx: u8,
    disease_count: i32,
) -> (ok: bool)
    requires
        old(sim).wf(),
        cell < old(sim).env.cell_count(),
    ensures
        ok == can_drip(old(sim).env, old(sim)@, cell as int, elem_idx, temperature),
        sim_data::stepped(
            *old(sim),
            *final(sim),
            if ok {
                old(sim)@.emit(
                    droplet(
                        old(sim).env,
                        cell as int,
                        elem_idx,
                        mass,
                        temperature,
                        disease_idx,
                        disease_count,
                    ),
                )
            } else {
                old(sim)@
            },
        ),
{
    let width: usize = sim.env.width;
    if sim.env.headless || sim.cells.len() == 0 || sim.env.visible_grid.len() == 0 || cell < width {
        return false;
    }
    if marked(sim.cells[cell - width], LIQUID_IMPERMEABLE) {
        return false;
    }
    let g: i32 = match sim.env.game_index(cell) {
        Some(g) => g,
        None => return false,
    };
    if sim.env.visible_grid[g as usize] == 0 && !sim.env.is_debug_editing {
        return false;
    }
    match sim.env.elements.temperature(elem_idx) {
        Some(d) => {
            if temperature.lt(d.low_temp.minus(num(THREE))) || d.high_temp.plus(num(THREE)).lt(
                temperature,
            ) {
                return false;
            }
        },
        None => return false,
    }
    if sim.sim_events.is_none() {
        return false;
    }
    emit(
        sim,
        Event::SpawnLiquid(
            SpawnFallingLiquidInfo {
                cell_idx: g,
                element_idx: elem_idx,
                disease_idx,
                mass,
                temperature,
                disease_count,
            },
        ),
    );
    true
}

/// The state with `amount` of `elem` poured into `dst`, which takes on that element.
pub open spec fn filled(
    env: Env,
    s: State,
    dst: int,
    elem: u16,
    amount: F32,
    temperature: F32,
    idx: u8,
    count: i32,
) -> State {
    s.put(
        dst,
        (Cell { element_idx: elem, ..s.updated[dst] }).spec_with_mass_added(
            env.diseases,
            amount,
            temperature,
            idx,
            count,
        ),
    ).changed(env, dst)
}

/// Pours `amount` of `elem` into a cell, which takes on that element.
pub fn fill(
    sim: &mut SimData,
    dst: usize,
    elem: u16,
    amount: F32,
    temperature: F32,
    idx: u8,
    count: i32,
)
    requires
        old(sim).wf(),
        dst < old(sim)@.updated.len(),
    ensures
        sim_data::stepped(
            *old(sim),
            *final(sim),
            filled(old(sim).env, old(sim)@, dst as int, elem, amount, temperature, idx, count),
        ),
{
    let c = Cell { element_idx: elem, ..sim.updated_cells[dst] };
    let c = c.with_mass_added(&sim.env.diseases, amount, temperature, idx, count);
    sim.put(dst, c);
    push_substance_change(sim, dst);
}

/// The state with `amount` of mass added to `dst`.
pub open spec fn topped_up(
    env: Env,
    s: State,
    dst: int,
    amount: F32,
    temperature: F32,
    idx: u8,
    count: i32,
) -> State {
    s.put(
        dst,
        s.updated[dst].spec_with_mass_added(env.diseases, amount, temperature, idx, count),
    )
}

/// Adds mass to a cell of the new buffer.
pub fn top_up(
    sim: &mut SimData,
    dst: usize,
    amount: F32,
    temperature: F32,
    idx: u8,
    count: i32,
)
    requires
        old(sim).wf(),
        dst < old(sim)@.updated.len(),
    ensures
        sim_data::stepped(
            *old(sim),
            *final(sim),
            topped_up(old(sim).env, old(sim)@, dst as int, amount, temperature, idx, count),
        ),
{
    let c = sim.updated_cells[dst].with_mass_added(
        &sim.env.diseases,
        amount,
        temperature,
        idx,
        count,
    );
    sim.put(dst, c);
}

/// The state after a neighbour is offered `amount` of the liquid in `src`, and whether it took
/// it. It does where it holds that liquid or nothing, or a gas that can be pushed out. The
/// void swallows it. Another liquid refuses.
pub open spec fn offered(
    env: Env,
    s: State,
    src: int,
    elem: u16,
    dst: int,
    amount: F32,
    idx: u8,
    count: i32,
) -> (State, bool) {
    let warmth = s.cells[src].temperature;
    match sim_data::at(s.updated, dst) {
        None => (s, false),
        Some(d) => if d.element_idx == elem {
            (topped_up(env, s, dst, amount, warmth, idx, count), true)
        } else if d.element_idx >= env.elements.ids@.len() {
            (s, false)
        } else if d.element_idx == env.void_element_idx {
            (s.put(dst, Cell { mass: num(ZERO), ..d }), true)
        } else {
            let p = env.elements.spec_liquid_phase(d.element_idx);
            if p == NO_PHASE || p == LIQUID {
                (s, false)
            } else if p == GAS {
                if displacement::gas_goal(env, s, dst, d.element_idx) is None {
                    (s, false)
                } else {
                    let t = displacement::gas_displaced(env, s, dst, d.element_idx);
                    (filled(env, t, dst, elem, amount, warmth, idx, count), true)
                }
            } else {
                (filled(env, s, dst, elem, amount, warmth, idx, count), true)
            }
        },
    }
}

/// Offers a neighbour some of the liquid in `src_cell`.
pub fn update_neighbour_liquid_mass(
    sim: &mut SimData,
    src_cell: usize,
    src_elem: u16,
    dst_cell: usize,
    amount: F32,
    disease_idx: u8,
    disease_count: i32,
) -> (ok: bool)
    requires
        old(sim).wf(),
        src_cell < old(sim)@.cells.len(),
    ensures
        sim_data::stepped(
            *old(sim),
            *final(sim),
            offered(
                old(sim).env,
                old(sim)@,
                src_cell as int,
                src_elem,
                dst_cell as int,
                amount,
                disease_idx,
                disease_count,
            ).0,
        ),
        ok == offered(
            old(sim).env,
            old(sim)@,
            src_cell as int,
            src_elem,
            dst_cell as int,
            amount,
            disease_idx,
            disease_count,
        ).1,
{
    let warmth = sim.cells[src_cell].temperature;
    if dst_cell >= sim.updated_cells.len() {
        return false;
    }
    let d = sim.updated_cells[dst_cell];
    if d.element_idx == src_elem {
        top_up(sim, dst_cell, amount, warmth, disease_idx, disease_count);
        return true;
    }
    if d.element_idx as usize >= sim.env.elements.ids.len() {
        return false;
    }
    if d.element_idx == sim.env.void_element_idx {
        sim.put(dst_cell, Cell { mass: num(ZERO), ..d });
        return true;
    }
    let p: u8 = sim.env.elements.liquid_phase(d.element_idx);
    if p == NO_PHASE || p == LIQUID {
        return false;
    }
    if p == GAS {
        if !displace_gas(sim, dst_cell, d.element_idx) {
            return false;
        }
    }
    fill(sim, dst_cell, src_elem, amount, warmth, disease_idx, disease_count);
    true
}

/// The state after `amount` has left a cell towards one side, with `count` germs.
pub open spec fn debited(
    s: State,
    cell: int,
    idx: u8,
    amount: F32,
    count: i32,
    side: Side,
) -> State {
    let c = if s.updated[cell].disease_idx == idx {
        s.updated[cell].with_disease_delta(0i32.wrapping_sub(count))
    } else {
        s.updated[cell]
    };
    s.put(cell, Cell { mass: c.mass.minus(amount), ..c }).flowed(cell, side, amount)
}

/// Books that mass has left a cell.
fn debit(sim: &mut SimData, cell: usize, idx: u8, amount: F32, count: i32, side: Side)
    requires
        old(sim).wf(),
        cell < old(sim)@.updated.len(),
    ensures
        sim_data::stepped(
            *old(sim),
            *final(sim),
            debited(old(sim)@, cell as int, idx, amount, count, side),
        ),
{
    let mut c = sim.updated_cells[cell];
    if c.disease_idx == idx {
        c = c.with_disease_delta(0i32.wrapping_sub(count));
    }
    sim.put(cell, Cell { mass: c.mass.minus(amount), ..c });
    sim.add_flow(cell, side, amount);
}

/// A liquid cell on the move: the state so far, what is left of its mass and germs, and
/// whether it is done for this step.
pub ghost struct Leg {
    pub state: State,
    pub mass: F32,
    pub count: i32,
    pub done: bool,
}

/// How much falls into the same liquid below: what the flow rate allows, and half the room that
/// is left where the cell below is compressed.
pub open spec fn spec_fall_amount(d: ElementLiquidData, mass: F32, held: F32) -> F32 {
    let gap = mass.times(num(COMPRESSION)).max(d.max_mass).minus(held);
    let room = if gap.lt(num(ZERO)) {
        num(ZERO)
    } else {
        gap
    };
    mass.min(d.viscosity).min(room.times(num(HALF)))
}

/// How much falls into the same liquid below.
#[verifier::when_used_as_spec(spec_fall_amount)]
pub fn fall_amount(d: ElementLiquidData, mass: F32, held: F32) -> (a: F32)
    ensures
        a == spec_fall_amount(d, mass, held),
{
    let gap = mass.times(num(COMPRESSION)).max(d.max_mass).minus(held);
    let room = if gap.lt(num(ZERO)) {
        num(ZERO)
    } else {
        gap
    };
    mass.min(d.viscosity).min(room.times(num(HALF)))
}

/// Whether a cell of the new buffer is inside the grid and admits liquid.
pub open spec fn open_at(env: Env, s: State, i: int) -> bool {
    match sim_data::at(s.updated, i) {
        Some(c) => grid::permeable(env.elements, c),
        None => false,
    }
}

fn is_open_at(sim: &SimData, i: i64) -> (b: bool)
    ensures
        b == open_at(sim.env, sim@, i as int),
{
    if i >= 0 && (i as u64) < sim.updated_cells.len() as u64 {
        is_liquid_permeable(&sim.env.elements, &sim.updated_cells, i as usize)
    } else {
        false
    }
}

/// Whether the fall of a cell leads past an edge: on one side the way is open above and
/// closed below.
pub open spec fn at_edge(env: Env, s: State, cell: int) -> bool {
    let below = cell - env.width;
    ||| open_at(env, s, cell - 1) && !open_at(env, s, below - 1)
    ||| open_at(env, s, cell + 1) && !open_at(env, s, below + 1)
}

/// The downward part of the movement: into the same liquid; or away into the void; or out of
/// the grid as a droplet at an edge; or in exchange for the gas or nothing below.
#[verifier::opaque]
pub open spec fn fallen(env: Env, s: State, cell: int) -> Leg {
    let below = cell - env.width;
    let c = s.cells[cell];
    let b = s.cells[below];
    let stay = Leg { state: s, mass: c.mass, count: c.disease_count, done: false };
    let pu = env.elements.spec_liquid_phase(s.updated[below].element_idx);
    let p = env.elements.spec_liquid_phase(b.element_idx);
    if pu == NO_PHASE {
        Leg { done: true, ..stay }
    } else if pu == SOLID || marked(b, LIQUID_IMPERMEABLE) {
        stay
    } else if p == NO_PHASE {
        Leg { done: true, ..stay }
    } else if c.element_idx == b.element_idx {
        let d = env.elements.spec_liquid(c.element_idx)->0;
        let amount = fall_amount(
            d,
            c.mass,
            if p == LIQUID {
                b.mass
            } else {
                num(ZERO)
            },
        );
        let germs = share(amount, c.mass, c.disease_count);
        let (t, ok) = offered(
            env,
            s,
            cell,
            c.element_idx,
            below,
            amount,
            c.disease_idx,
            germs,
        );
        if (c.mass.le(d.min_vertical_flow) || d.min_vertical_flow.le(amount)) && num(ZERO).lt(
            amount,
        ) && ok {
            Leg {
                state: debited(t, cell, c.disease_idx, amount, germs, Side::Down),
                mass: c.mass.minus(amount),
                count: c.disease_count.wrapping_sub(germs),
                done: false,
            }
        } else {
            stay
        }
    } else if p < 2 {
        if b.element_idx == env.void_element_idx {
            Leg {
                state: displacement::evaporated(env, s, cell),
                done: true,
                ..stay
            }
        } else if at_edge(env, s, cell) {
            if can_drip(env, s, cell, c.element_idx, c.temperature) {
                let t = s.emit(
                    droplet(
                        env,
                        cell,
                        c.element_idx,
                        c.mass,
                        c.temperature,
                        c.disease_idx,
                        c.disease_count,
                    ),
                );
                Leg { state: displacement::evaporated(env, t, cell), done: true, ..stay }
            } else {
                Leg { done: true, ..stay }
            }
        } else {
            Leg {
                state: s.swapped(cell, below).changed(env, cell).changed(env, below),
                done: true,
                ..stay
            }
        }
    } else {
        stay
    }
}

/// Whether a cell is of a kind that the simulation moves: its index is inside, something is
/// below it, and its element has an entry in the liquid table.
pub open spec fn movable(env: Env, s: State, cell: int) -> bool {
    &&& 0 < env.width <= cell < s.cells.len()
    &&& s.updated.len() == s.cells.len()
    &&& env.elements.spec_liquid(s.cells[cell].element_idx) is Some
}

fn fall(sim: &mut SimData, cell: usize) -> (r: (F32, i32, bool))
    requires
        old(sim).wf(),
        movable(old(sim).env, old(sim)@, cell as int),
    ensures
        sim_data::stepped(
            *old(sim),
            *final(sim),
            fallen(old(sim).env, old(sim)@, cell as int).state,
        ),
        r.0 == fallen(old(sim).env, old(sim)@, cell as int).mass,
        r.1 == fallen(old(sim).env, old(sim)@, cell as int).count,
        r.2 == fallen(old(sim).env, old(sim)@, cell as int).done,
{
    reveal(fallen);
    let below: usize = cell - sim.env.width;
    let c = sim.cells[cell];
    let b = sim.cells[below];
    let pu: u8 = sim.env.elements.liquid_phase(sim.updated_cells[below].element_idx);
    let p: u8 = sim.env.elements.liquid_phase(b.element_idx);
    if pu == NO_PHASE {
        return (c.mass, c.disease_count, true);
    }
    if pu == SOLID || marked(b, LIQUID_IMPERMEABLE) {
        return (c.mass, c.disease_count, false);
    }
    if p == NO_PHASE {
        return (c.mass, c.disease_count, true);
    }
    if c.element_idx == b.element_idx {
        let d = match sim.env.elements.liquid(c.element_idx) {
            Some(d) => d,
            None => return (c.mass, c.disease_count, true),
        };
        let held = if p == LIQUID {
            b.mass
        } else {
            num(ZERO)
        };
        let amount = fall_amount(d, c.mass, held);
        if (c.mass.le(d.min_vertical_flow) || d.min_vertical_flow.le(amount)) && num(ZERO).lt(
            amount,
        ) {
            let germs: i32 = share(amount, c.mass, c.disease_count);
            if update_neighbour_liquid_mass(
                sim,
                cell,
                c.element_idx,
                below,
                amount,
                c.disease_idx,
                germs,
            ) {
                debit(sim, cell, c.disease_idx, amount, germs, Side::Down);
                return (c.mass.minus(amount), c.disease_count.wrapping_sub(germs), false);
            }
        }
        return (c.mass, c.disease_count, false);
    }
    if p < 2 {
        if b.element_idx == sim.env.void_element_idx {
            displacement::do_evaporate(sim, cell);
            return (c.mass, c.disease_count, true);
        }
        let here: i64 = cell as i64;
        let under: i64 = below as i64;
        let edge = (is_open_at(sim, here - 1) && !is_open_at(sim, under - 1)) || (is_open_at(
            sim,
            here + 1,
        ) && !is_open_at(sim, under + 1));
        if edge {
            if spawn_falling_liquid(
                sim,
                cell,
                c.element_idx,
                c.mass,
                c.temperature,
                c.disease_idx,
                c.disease_count,
            ) {
                displacement::do_evaporate(sim, cell);
            }
            return (c.mass, c.disease_count, true);
        }
        sim.swap(cell, below);
        push_substance_change(sim, cell);
        push_substance_change(sim, below);
        return (c.mass, c.disease_count, true);
    }
    (c.mass, c.disease_count, false)
}

/// Whether liquid of `elem` may enter a neighbour: in the old buffer it holds the same liquid,
/// a gas or nothing, in the new one no solid, and it admits liquids.
pub open spec fn enterable(env: Env, s: State, elem: u16, n: int) -> bool {
    let nb = s.cells[n];
    &&& elem == nb.element_idx || env.elements.spec_liquid_phase(nb.element_idx) < 2
    &&& env.elements.spec_liquid_phase(s.updated[n].element_idx) != SOLID
    &&& !marked(nb, LIQUID_IMPERMEABLE)
}

fn is_enterable(sim: &SimData, elem: u16, n: usize) -> (b: bool)
    requires
        n < sim@.cells.len(),
        n < sim@.updated.len(),
    ensures
        b == enterable(sim.env, sim@, elem, n as int),
{
    let nb = sim.cells[n];
    (elem == nb.element_idx || sim.env.elements.liquid_phase(nb.element_idx) < 2)
        && sim.env.elements.liquid_phase(sim.updated_cells[n].element_idx) != SOLID && !marked(
        nb,
        LIQUID_IMPERMEABLE,
    )
}

/// The liquid that a neighbour held in the old buffer.
pub open spec fn held_at(env: Env, s: State, n: int) -> F32 {
    if env.elements.spec_liquid_phase(s.cells[n].element_idx) == LIQUID {
        s.cells[n].mass
    } else {
        num(ZERO)
    }
}

fn get_held_at(sim: &SimData, n: usize) -> (m: F32)
    requires
        n < sim@.cells.len(),
    ensures
        m == held_at(sim.env, sim@, n as int),
{
    if sim.env.elements.liquid_phase(sim.cells[n].element_idx) == LIQUID {
        sim.cells[n].mass
    } else {
        num(ZERO)
    }
}

/// One sideways part of the movement, from a cell with `mass` and `count` germs left to its
/// neighbour at distance `dx`: a quarter of the difference in mass, as far as the flow rate
/// allows. At a cliff the liquid leaves as a droplet where it may.
#[verifier::opaque]
pub open spec fn spread(env: Env, s: State, cell: int, dx: int, mass: F32, count: i32) -> Leg {
    let n = cell + dx;
    let below = cell - env.width;
    let c = s.cells[cell];
    let stay = Leg { state: s, mass, count, done: false };
    let inside = if dx < 0 {
        cell % env.width as int != 0
    } else {
        cell % env.width as int != env.width - 1
    };
    let d = env.elements.spec_liquid(c.element_idx)->0;
    let amount = mass.min(d.viscosity).min(
        mass.minus(held_at(env, s, n)).times(num(QUARTER)),
    );
    let germs = share(amount, mass, count);
    if inside && enterable(env, s, c.element_idx, n) && d.min_horizontal_flow.le(amount) && num(
        ZERO,
    ).lt(amount) {
        let cliff = grid::solid(env.elements, s.cells[below]) && open_at(env, s, n - env.width);
        let (t, ok) = if cliff && can_drip(env, s, n, c.element_idx, c.temperature) {
            (
                s.emit(
                    droplet(env, n, c.element_idx, amount, c.temperature, c.disease_idx, germs),
                ),
                true,
            )
        } else {
            offered(env, s, cell, c.element_idx, n, amount, c.disease_idx, germs)
        };
        if ok {
            Leg {
                state: debited(
                    t,
                    cell,
                    c.disease_idx,
                    amount,
                    germs,
                    if dx < 0 {
                        Side::Left
                    } else {
                        Side::Right
                    },
                ),
                mass: mass.minus(amount),
                count: count.wrapping_sub(germs),
                done: false,
            }
        } else {
            stay
        }
    } else {
        stay
    }
}

fn spread_to(sim: &mut SimData, cell: usize, left: bool, mass: F32, count: i32) -> (r: (F32, i32))
    requires
        old(sim).wf(),
        movable(old(sim).env, old(sim)@, cell as int),
    ensures
        sim_data::stepped(
            *old(sim),
            *final(sim),
            spread(
                old(sim).env,
                old(sim)@,
                cell as int,
                if left {
                    -1
                } else {
                    1
                },
                mass,
                count,
            ).state,
        ),
        r.0 == spread(
            old(sim).env,
            old(sim)@,
            cell as int,
            if left {
                -1
            } else {
                1
            },
            mass,
            count,
        ).mass,
        r.1 == spread(
            old(sim).env,
            old(sim)@,
            cell as int,
            if left {
                -1
            } else {
                1
            },
            mass,
            count,
        ).count,
{
    reveal(spread);
    let width: usize = sim.env.width;
    let col: usize = cell % width;
    if left {
        if col == 0 {
            return (mass, count);
        }
    } else if col == width - 1 {
        return (mass, count);
    }
    proof {
        lemma_beside(sim.env, cell as int);
    }
    let n: usize = if left {
        cell - 1
    } else {
        cell + 1
    };
    let below: usize = cell - width;
    let c = sim.cells[cell];
    if !is_enterable(sim, c.element_idx, n) {
        return (mass, count);
    }
    let d = match sim.env.elements.liquid(c.element_idx) {
        Some(d) => d,
        None => return (mass, count),
    };
    let amount = mass.min(d.viscosity).min(
        mass.minus(get_held_at(sim, n)).times(num(QUARTER)),
    );
    if !(d.min_horizontal_flow.le(amount) && num(ZERO).lt(amount)) {
        return (mass, count);
    }
    let germs: i32 = share(amount, mass, count);
    let cliff = is_solid(&sim.env.elements, &sim.cells, below) && is_open_at(
        sim,
        n as i64 - width as i64,
    );
    let mut ok = false;
    if cliff {
        ok = spawn_falling_liquid(
            sim,
            n,
            c.element_idx,
            amount,
            c.temperature,
            c.disease_idx,
            germs,
        );
    }
    if !ok {
        ok = update_neighbour_liquid_mass(
            sim,
            cell,
            c.element_idx,
            n,
            amount,
            c.disease_idx,
            germs,
        );
    }
    if ok {
        let side = if left {
            Side::Left
        } else {
            Side::Right
        };
        debit(sim, cell, c.disease_idx, amount, germs, side);
        return (mass.minus(amount), count.wrapping_sub(germs));
    }
    (mass, count)
}

/// A cell that is not the last of its row has a neighbour inside the grid.
proof fn lemma_beside(env: Env, cell: int)
    requires
        env.width > 0,
        0 <= cell < env.cell_count(),
    ensures
        cell % env.width as int != env.width - 1 ==> cell + 1 < env.cell_count(),
        cell % env.width as int != 0 ==> cell >= 1,
        cell % env.width as int != 0 && cell >= env.width ==> cell >= env.width + 1,
{
    let w = env.width as int;
    let h = env.height as int;
    let q = cell / w;
    let r = cell % w;
    vstd::arithmetic::div_mod::lemma_fundamental_div_mod(cell, w);
    if cell == w {
        vstd::arithmetic::div_mod::lemma_mod_self_0(w);
    }
    assert(q < h && (r != w - 1 ==> cell + 1 < w * h)) by (nonlinear_arith)
        requires
            cell == w * q + r,
            0 <= r < w,
            0 <= cell < w * h,
            w > 0,
    ;
}

/// How much rises: half of what exceeds the compressed fill of the cell above. Less than twice
/// that fill, the flow rate caps it.
pub open spec fn spec_rise_amount(d: ElementLiquidData, mass: F32, held: F32) -> F32 {
    let full = held.times(num(COMPRESSION)).max(d.max_mass);
    let excess = mass.minus(full).max(num(ZERO)).times(num(HALF));
    if mass.lt(full.times(num(TWO))) {
        excess.min(d.viscosity).min(mass)
    } else {
        excess
    }
}

/// How much rises into the cell above.
#[verifier::when_used_as_spec(spec_rise_amount)]
pub fn rise_amount(d: ElementLiquidData, mass: F32, held: F32) -> (a: F32)
    ensures
        a == spec_rise_amount(d, mass, held),
{
    let full = held.times(num(COMPRESSION)).max(d.max_mass);
    let excess = mass.minus(full).max(num(ZERO)).times(num(HALF));
    if mass.lt(full.times(num(TWO))) {
        excess.min(d.viscosity).min(mass)
    } else {
        excess
    }
}

/// The upward part of the movement, from a cell with `mass` and `count` germs left: an overfull
/// cell presses liquid into the one above.
#[verifier::opaque]
pub open spec fn risen(env: Env, s: State, cell: int, mass: F32, count: i32) -> Leg {
    let up = cell + env.width;
    let c = s.cells[cell];
    let stay = Leg { state: s, mass, count, done: false };
    let d = env.elements.spec_liquid(c.element_idx)->0;
    if up < s.cells.len() && enterable(env, s, c.element_idx, up) {
        let amount = rise_amount(d, mass, held_at(env, s, up));
        let germs = share(amount, mass, count);
        if num(CENTI).lt(amount) {
            let (t, ok) = offered(
                env,
                s,
                cell,
                c.element_idx,
                up,
                amount,
                c.disease_idx,
                germs,
            );
            if ok {
                Leg {
                    state: debited(t, cell, c.disease_idx, amount, germs, Side::Up),
                    mass: mass.minus(amount),
                    count: count.wrapping_sub(germs),
                    done: false,
                }
            } else {
                stay
            }
        } else {
            stay
        }
    } else {
        stay
    }
}

fn rise(sim: &mut SimData, cell: usize, mass: F32, count: i32) -> (left: F32)
    requires
        old(sim).wf(),
        movable(old(sim).env, old(sim)@, cell as int),
    ensures
        sim_data::stepped(
            *old(sim),
            *final(sim),
            risen(old(sim).env, old(sim)@, cell as int, mass, count).state,
        ),
        left == risen(old(sim).env, old(sim)@, cell as int, mass, count).mass,
{
    reveal(risen);
    let up: usize = cell + sim.env.width;
    if up >= sim.cells.len() {
        return mass;
    }
    let c = sim.cells[cell];
    if !is_enterable(sim, c.element_idx, up) {
        return mass;
    }
    let d = match sim.env.elements.liquid(c.element_idx) {
        Some(d) => d,
        None => return mass,
    };
    let amount = rise_amount(d, mass, get_held_at(sim, up));
    if num(CENTI).lt(amount) {
        let germs: i32 = share(amount, mass, count);
        if update_neighbour_liquid_mass(
            sim,
            cell,
            c.element_idx,
            up,
            amount,
            c.disease_idx,
            germs,
        ) {
            debit(sim, cell, c.disease_idx, amount, germs, Side::Up);
            return mass.minus(amount);
        }
    }
    mass
}

/// Whether a cell may change places with the gas diagonally below it at distance `dx`: the
/// cell beside it is solid or keeps gases out, the one below it is neither, and both ends of
/// the way are open.
pub open spec fn slips_down(env: Env, s: State, cell: int, dx: int) -> bool {
    let below = cell - env.width;
    match (sim_data::at(s.updated, below + dx), sim_data::at(s.updated, cell + dx)) {
        (Some(goal), Some(beside)) => {
            &&& env.elements.spec_liquid_phase(goal.element_idx) == GAS
            &&& env.elements.spec_liquid_phase(beside.element_idx) == SOLID || marked(
                beside,
                GAS_IMPERMEABLE,
            )
            &&& env.elements.spec_liquid_phase(s.updated[below].element_idx) != SOLID
            &&& !marked(s.updated[cell], GAS_IMPERMEABLE)
            &&& !marked(goal, LIQUID_IMPERMEABLE)
            &&& !marked(s.updated[below], 3)
        },
        _ => false,
    }
}

fn can_slip_down(sim: &SimData, cell: usize, right: bool) -> (b: bool)
    requires
        sim.wf(),
        0 < sim.env.width <= cell < sim@.updated.len(),
    ensures
        b == slips_down(
            sim.env,
            sim@,
            cell as int,
            if right {
                1
            } else {
                -1
            },
        ),
{
    let below: usize = cell - sim.env.width;
    let dx: i64 = if right {
        1
    } else {
        -1
    };
    match (
        peek(&sim.updated_cells, below as i64 + dx),
        peek(&sim.updated_cells, cell as i64 + dx),
    ) {
        (Some(goal), Some(beside)) => {
            let under = sim.updated_cells[below];
            sim.env.elements.liquid_phase(goal.element_idx) == GAS && (
            sim.env.elements.liquid_phase(beside.element_idx) == SOLID || marked(
                beside,
                GAS_IMPERMEABLE,
            )) && sim.env.elements.liquid_phase(under.element_idx) != SOLID && !marked(
                sim.updated_cells[cell],
                GAS_IMPERMEABLE,
            ) && !marked(goal, LIQUID_IMPERMEABLE) && !marked(under, 3)
        },
        _ => false,
    }
}

/// The diagonal part of the movement: an exchange with a gas below, first to the right.
#[verifier::opaque]
pub open spec fn slipped(env: Env, s: State, cell: int) -> State {
    let below = cell - env.width;
    if slips_down(env, s, cell, 1) {
        s.swapped(cell, below + 1).changed(env, cell).changed(env, below + 1)
    } else if slips_down(env, s, cell, -1) {
        s.swapped(cell, below - 1).changed(env, cell).changed(env, below - 1)
    } else {
        s
    }
}

fn slip(sim: &mut SimData, cell: usize)
    requires
        old(sim).wf(),
        0 < old(sim).env.width <= cell < old(sim)@.updated.len(),
    ensures
        sim_data::stepped(*old(sim), *final(sim), slipped(old(sim).env, old(sim)@, cell as int)),
{
    reveal(slipped);
    let below: usize = cell - sim.env.width;
    if can_slip_down(sim, cell, true) {
        sim.swap(cell, below + 1);
        push_substance_change(sim, cell);
        push_substance_change(sim, below + 1);
    } else if can_slip_down(sim, cell, false) {
        sim.swap(cell, below - 1);
        push_substance_change(sim, cell);
        push_substance_change(sim, below - 1);
    }
}

/// One step of a liquid cell: down, left, right, up and diagonally, each part with what the
/// earlier ones have left, as long as something is left.
pub open spec fn liquid_moved(env: Env, s: State, cell: int) -> State {
    if !movable(env, s, cell) {
        s
    } else {
        let a = fallen(env, s, cell);
        if a.done || a.mass.le(num(ZERO)) {
            a.state
        } else {
            let b = spread(env, a.state, cell, -1, a.mass, a.count);
            if b.mass.le(num(ZERO)) {
                b.state
            } else {
                let c = spread(env, b.state, cell, 1, b.mass, b.count);
                if c.mass.le(num(ZERO)) {
                    c.state
                } else {
                    let d = risen(env, c.state, cell, c.mass, c.count);
                    if d.mass.le(num(ZERO)) {
                        d.state
                    } else {
                        slipped(env, d.state, cell)
                    }
                }
            }
        }
    }
}

/// Moves the liquid in a cell.
pub fn update_liquid(sim: &mut SimData, cell: usize)
    requires
        old(sim).wf(),
    ensures
        sim_data::stepped(
            *old(sim),
            *final(sim),
            liquid_moved(old(sim).env, old(sim)@, cell as int),
        ),
{
    let width: usize = sim.env.width;
    if width == 0 || cell < width || cell >= sim.cells.len() || sim.updated_cells.len()
        != sim.cells.len() {
        return;
    }
    if sim.env.elements.liquid(sim.cells[cell].element_idx).is_none() {
        return;
    }
    let (mass, count, done) = fall(sim, cell);
    if done || mass.le(num(ZERO)) {
        return;
    }
    let (mass, count) = spread_to(sim, cell, true, mass, count);
    if mass.le(num(ZERO)) {
        return;
    }
    let (mass, count) = spread_to(sim, cell, false, mass, count);
    if mass.le(num(ZERO)) {
        return;
    }
    if rise(sim, cell, mass, count).le(num(ZERO)) {
        return;
    }
    slip(sim, cell);
}

/// The movement of the liquids, cell by cell.
pub struct LiquidPass;

impl Pass for LiquidPass {
    open spec fn ready(&self, env: Env, s: State) -> bool {
        !s.unallocated()
    }

    /// Where a cell held a liquid with some mass, the liquid moves.
    open spec fn effect(&self, env: Env, s: State, y: int, x: int) -> State {
        let cell = y * env.width + x;
        if env.elements.spec_liquid_phase(s.cells[cell].element_idx) == LIQUID && num(ZERO).lt(
            s.cells[cell].mass,
        ) {
            liquid_moved(env, s, cell)
        } else {
            s
        }
    }

    proof fn stays_ready(&self, env: Env, s: State, y: int, x: int) {
    }

    fn visit(&self, sim: &mut SimData, y: usize, x: usize, cell: usize) {
        let c = sim.cells[cell];
        if sim.env.elements.liquid_phase(c.element_idx) == LIQUID && num(ZERO).lt(c.mass) {
            update_liquid(sim, cell);
        }
    }
}

/// Whether the grids are too small, or not there.
pub open spec fn idle(env: Env, s: State) -> bool {
    env.width < 3 || env.height < 3 || s.unallocated()
}

/// The state after the liquid pass over a rectangle.
pub open spec fn liquids_moved(env: Env, s: State, b: RegionBounds) -> State {
    if idle(env, s) {
        s
    } else {
        sweep::inner(LiquidPass, env, s, b)
    }
}

/// Moves the liquids of a rectangle, row after row from the lowest.
pub fn update_liquid_loop(sim: &mut SimData, bounds: RegionBounds)
    requires
        old(sim).wf(),
    ensures
        sim_data::stepped(*old(sim), *final(sim), liquids_moved(old(sim).env, old(sim)@, bounds)),
{
    if sim.env.width < 3 || sim.env.height < 3 || sim.cells.len() == 0 || sim.updated_cells.len()
        == 0 {
        return;
    }
    sweep_inner(&LiquidPass, sim, bounds);
}

} // verus!
