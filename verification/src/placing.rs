//! How matter that comes from outside the grid is put into it.
use crate::cell::share;
use crate::cell::Cell;
use crate::constants::LEAST_NORMAL;
use crate::constants::ZERO;
use crate::displacement;
use crate::displacement::displace_gas;
use crate::displacement::displace_liquid;
use crate::element::GAS;
use crate::element::LIQUID;
use crate::element::NO_PHASE;
use crate::element::SOLID;
use crate::element::VACUUM;
use crate::liquid_flow;
use crate::liquid_flow::fill;
use crate::liquid_flow::top_up;
use crate::number::num;
use crate::number::F32;
use crate::sim_data;
use crate::sim_data::peek;
use crate::sim_data::push_substance_change;
use crate::sim_data::Env;
use crate::sim_data::SimData;
use crate::sim_data::State;
use vstd::prelude::*;

verus! {

broadcast use crate::region_events::group_events;

/// Matter on its way into the grid.
#[derive(Clone, Copy, Debug)]
pub struct Load {
    pub elem: u16,
    pub mass: F32,
    pub temperature: F32,
    pub disease_idx: u8,
    pub disease_count: i32,
}

/// The state after a load has taken the place of what is in `target`. What is there wears the
/// load off first: where it outweighs the load it only loses that mass.
pub open spec fn replaced(env: Env, s: State, target: int, load: Load) -> State {
    match sim_data::at(s.updated, target) {
        None => s,
        Some(c) => if load.mass.lt(c.mass) {
            s.put(target, Cell { mass: c.mass.minus(load.mass), ..c })
        } else {
            let rest = load.mass.minus(c.mass);
            let germs = if num(ZERO).lt(load.mass) {
                share(rest, load.mass, load.disease_count)
            } else {
                0
            };
            let d = (Cell {
                element_idx: load.elem,
                mass: num(ZERO),
                temperature: num(ZERO),
                ..c
            }).spec_with_mass_added(
                env.diseases,
                rest,
                load.temperature,
                load.disease_idx,
                germs,
            );
            let e = if d.mass.le(num(LEAST_NORMAL)) {
                Cell { element_idx: env.vacuum_element_idx, ..d }
            } else {
                d
            };
            s.put(target, e).changed(env, target)
        },
    }
}

/// Lets a load take the place of what is in a cell.
pub fn place_subtract(sim: &mut SimData, target: usize, load: Load)
    requires
        old(sim).wf(),
    ensures
        sim_data::stepped(
            *old(sim),
            *final(sim),
            replaced(old(sim).env, old(sim)@, target as int, load),
        ),
{
    if target >= sim.updated_cells.len() {
        return;
    }
    let c = sim.updated_cells[target];
    if load.mass.lt(c.mass) {
        sim.put(target, Cell { mass: c.mass.minus(load.mass), ..c });
        return;
    }
    let rest = load.mass.minus(c.mass);
    let germs: i32 = if num(ZERO).lt(load.mass) {
        share(rest, load.mass, load.disease_count)
    } else {
        0
    };
    let emptied = Cell {
        element_idx: load.elem,
        mass: num(ZERO),
        temperature: num(ZERO),
        ..c
    };
    let mut d = emptied.with_mass_added(
        &sim.env.diseases,
        rest,
        load.temperature,
        load.disease_idx,
        germs,
    );
    if d.mass.le(num(LEAST_NORMAL)) {
        d = Cell { element_idx: sim.env.vacuum_element_idx, ..d };
    }
    sim.put(target, d);
    push_substance_change(sim, target);
}

/// Whether cell `n` is inside the grid and holds `elem`.
pub open spec fn holds(s: State, n: int, elem: u16) -> bool {
    sim_data::at(s.updated, n) matches Some(c) && c.element_idx == elem
}

fn is_holding(sim: &SimData, n: i64, elem: u16) -> (b: bool)
    ensures
        b == holds(sim@, n as int, elem),
{
    match peek(&sim.updated_cells, n) {
        Some(c) => c.element_idx == elem,
        None => false,
    }
}

/// The first neighbour of a cell that holds `elem`: to the right, to the left, above, below.
pub open spec fn kin(env: Env, s: State, cell: int, elem: u16) -> Option<int> {
    if holds(s, cell + 1, elem) {
        Some(cell + 1)
    } else if holds(s, cell - 1, elem) {
        Some(cell - 1)
    } else if holds(s, cell + env.width, elem) {
        Some(cell + env.width)
    } else if holds(s, cell - env.width, elem) {
        Some(cell - env.width)
    } else {
        None
    }
}

/// The state after a load is added to `n`.
pub open spec fn absorbed(env: Env, s: State, n: int, load: Load) -> State {
    liquid_flow::topped_up(
        env,
        s,
        n,
        load.mass,
        load.temperature,
        load.disease_idx,
        load.disease_count,
    )
}

/// The state after a load is put into `n`, which takes on its element.
pub open spec fn settled(env: Env, s: State, n: int, load: Load) -> State {
    liquid_flow::filled(
        env,
        s,
        n,
        load.elem,
        load.mass,
        load.temperature,
        load.disease_idx,
        load.disease_count,
    )
}

fn absorb(sim: &mut SimData, n: usize, load: Load)
    requires
        old(sim).wf(),
        n < old(sim)@.updated.len(),
    ensures
        sim_data::stepped(
            *old(sim),
            *final(sim),
            absorbed(old(sim).env, old(sim)@, n as int, load),
        ),
{
    top_up(sim, n, load.mass, load.temperature, load.disease_idx, load.disease_count);
}

fn settle(sim: &mut SimData, n: usize, load: Load)
    requires
        old(sim).wf(),
        n < old(sim)@.updated.len(),
    ensures
        sim_data::stepped(
            *old(sim),
            *final(sim),
            settled(old(sim).env, old(sim)@, n as int, load),
        ),
{
    fill(sim, n, load.elem, load.mass, load.temperature, load.disease_idx, load.disease_count);
}

/// Adds a load to a neighbour of `target` that holds its element; false where none does.
pub fn merge_into_same_element_neighbor(sim: &mut SimData, target: usize, load: Load) -> (ok: bool)
    requires
        old(sim).wf(),
        target < old(sim).env.cell_count(),
    ensures
        ok == (kin(old(sim).env, old(sim)@, target as int, load.elem) is Some),
        sim_data::stepped(
            *old(sim),
            *final(sim),
            match kin(old(sim).env, old(sim)@, target as int, load.elem) {
                Some(n) => absorbed(old(sim).env, old(sim)@, n, load),
                None => old(sim)@,
            },
        ),
{
    let t: i64 = target as i64;
    let w: i64 = sim.env.width as i64;
    let n: i64 = if is_holding(sim, t + 1, load.elem) {
        t + 1
    } else if is_holding(sim, t - 1, load.elem) {
        t - 1
    } else if is_holding(sim, t + w, load.elem) {
        t + w
    } else if is_holding(sim, t - w, load.elem) {
        t - w
    } else {
        return false;
    };
    absorb(sim, n as usize, load);
    true
}

/// The state after a load has joined its kind beside `target` or, where there is none, has
/// taken the place of what is in `target`.
pub open spec fn joined_or_replaced(env: Env, s: State, target: int, load: Load) -> State {
    match kin(env, s, target, load.elem) {
        Some(n) => absorbed(env, s, n, load),
        None => replaced(env, s, target, load),
    }
}

fn join_or_replace(sim: &mut SimData, target: usize, load: Load)
    requires
        old(sim).wf(),
        target < old(sim).env.cell_count(),
    ensures
        sim_data::stepped(
            *old(sim),
            *final(sim),
            joined_or_replaced(old(sim).env, old(sim)@, target as int, load),
        ),
{
    if !merge_into_same_element_neighbor(sim, target, load) {
        place_subtract(sim, target, load);
    }
}

/// Whether cell `n` is inside the grid and not solid.
pub open spec fn yields(env: Env, s: State, n: int) -> bool {
    sim_data::at(s.updated, n) matches Some(c) && env.elements.spec_post_phase(c.element_idx)
        != SOLID
}

fn is_yielding(sim: &SimData, n: i64) -> (b: bool)
    ensures
        b == yields(sim.env, sim@, n as int),
{
    match peek(&sim.updated_cells, n) {
        Some(c) => sim.env.elements.post_phase(c.element_idx) != SOLID,
        None => false,
    }
}

/// Where a liquid that is added to `cell` goes: to the cell itself or, where that is solid, to
/// its first neighbour that is not, to the left, to the right, below, above.
pub open spec fn liquid_target(env: Env, s: State, cell: int) -> int {
    if yields(env, s, cell) {
        cell
    } else if yields(env, s, cell - 1) {
        cell - 1
    } else if yields(env, s, cell + 1) {
        cell + 1
    } else if yields(env, s, cell - env.width) {
        cell - env.width
    } else if yields(env, s, cell + env.width) {
        cell + env.width
    } else {
        cell
    }
}

fn find_liquid_target(sim: &SimData, cell: usize) -> (t: usize)
    requires
        sim.wf(),
        cell < sim@.updated.len(),
    ensures
        t == liquid_target(sim.env, sim@, cell as int),
        t < sim@.updated.len(),
{
    let c: i64 = cell as i64;
    let w: i64 = sim.env.width as i64;
    let t: i64 = if is_yielding(sim, c) {
        c
    } else if is_yielding(sim, c - 1) {
        c - 1
    } else if is_yielding(sim, c + 1) {
        c + 1
    } else if is_yielding(sim, c - w) {
        c - w
    } else if is_yielding(sim, c + w) {
        c + w
    } else {
        c
    };
    t as usize
}

/// The state after the liquid above a cell has changed places with it.
pub open spec fn flooded(env: Env, s: State, target: int) -> State {
    let above = target + env.width;
    match sim_data::at(s.updated, above) {
        Some(c) => if env.elements.spec_post_phase(c.element_idx) == LIQUID {
            s.swapped(above, target).changed(env, above).changed(env, target)
        } else {
            s
        },
        None => s,
    }
}

fn flood(sim: &mut SimData, target: usize)
    requires
        old(sim).wf(),
        target < old(sim)@.updated.len(),
    ensures
        sim_data::stepped(*old(sim), *final(sim), flooded(old(sim).env, old(sim)@, target as int)),
{
    let above: usize = target + sim.env.width;
    if above < sim.updated_cells.len() {
        let e: u16 = sim.updated_cells[above].element_idx;
        if sim.env.elements.post_phase(e) == LIQUID {
            sim.swap(above, target);
            push_substance_change(sim, above);
            push_substance_change(sim, target);
        }
    }
}

/// The state after a liquid is added to a cell.
pub open spec fn liquid_added(env: Env, s: State, cell: int, load: Load) -> State {
    if cell >= s.updated.len() {
        s
    } else if s.updated[cell].element_idx == load.elem {
        absorbed(env, s, cell, load)
    } else {
        let t = liquid_target(env, s, cell);
        let e = s.updated[t].element_idx;
        let p = env.elements.spec_post_phase(e);
        if p == SOLID || e == env.void_element_idx {
            replaced(env, s, t, load)
        } else if p == VACUUM {
            settled(env, s, t, load)
        } else if p == GAS {
            if displacement::gas_goal(env, s, t, e) is Some {
                settled(env, displacement::gas_displaced(env, s, t, e), t, load)
            } else {
                joined_or_replaced(env, flooded(env, s, t), t, load)
            }
        } else {
            let (u, ok) = displacement::liquid_displaced(env, s, t, e);
            if ok {
                settled(env, u, t, load)
            } else {
                joined_or_replaced(env, u, t, load)
            }
        }
    }
}

/// Adds a liquid to a cell. It joins its own kind. Other matter is pushed out; where it cannot
/// go, the liquid joins its kind beside the cell or takes the place of what is there.
pub fn add_liquid(
    sim: &mut SimData,
    cell: usize,
    elem: u16,
    mass: F32,
    temperature: F32,
    disease_idx: u8,
    disease_count: i32,
)
    requires
        old(sim).wf(),
    ensures
        sim_data::stepped(
            *old(sim),
            *final(sim),
            liquid_added(
                old(sim).env,
                old(sim)@,
                cell as int,
                Load { elem, mass, temperature, disease_idx, disease_count },
            ),
        ),
{
    let load = Load { elem, mass, temperature, disease_idx, disease_count };
    if cell >= sim.updated_cells.len() {
        return;
    }
    if sim.updated_cells[cell].element_idx == elem {
        absorb(sim, cell, load);
        return;
    }
    let t: usize = find_liquid_target(sim, cell);
    let e: u16 = sim.updated_cells[t].element_idx;
    let p: u8 = sim.env.elements.post_phase(e);
    if p == SOLID || e == sim.env.void_element_idx {
        place_subtract(sim, t, load);
    } else if p == VACUUM {
        settle(sim, t, load);
    } else if p == GAS {
        if displace_gas(sim, t, e) {
            settle(sim, t, load);
        } else {
            flood(sim, t);
            join_or_replace(sim, t, load);
        }
    } else if displace_liquid(sim, t, e) {
        settle(sim, t, load);
    } else {
        join_or_replace(sim, t, load);
    }
}

/// The state after a load alone fills `n`.
pub open spec fn laid(env: Env, s: State, n: int, load: Load) -> State {
    s.put(
        n,
        Cell {
            element_idx: load.elem,
            mass: load.mass,
            temperature: load.temperature,
            disease_idx: load.disease_idx,
            disease_count: load.disease_count,
            ..s.updated[n]
        },
    ).changed(env, n)
}

fn lay(sim: &mut SimData, n: usize, load: Load)
    requires
        old(sim).wf(),
        n < old(sim)@.updated.len(),
    ensures
        sim_data::stepped(
            *old(sim),
            *final(sim),
            laid(old(sim).env, old(sim)@, n as int, load),
        ),
{
    let c = Cell {
        element_idx: load.elem,
        mass: load.mass,
        temperature: load.temperature,
        disease_idx: load.disease_idx,
        disease_count: load.disease_count,
        ..sim.updated_cells[n]
    };
    sim.put(n, c);
    push_substance_change(sim, n);
}

/// Whether cell `n` takes a gas that found no room where it was added: it is empty or holds
/// the same gas.
pub open spec fn shelters(env: Env, s: State, n: int, elem: u16) -> bool {
    holds(s, n, env.vacuum_element_idx) || holds(s, n, elem)
}

/// The state after a gas is added to a neighbour that takes it.
pub open spec fn sheltered(env: Env, s: State, n: int, load: Load) -> State {
    if s.updated[n].element_idx == env.vacuum_element_idx {
        laid(env, s, n, load)
    } else {
        absorbed(env, s, n, load)
    }
}

/// Adds a gas to a neighbour where that takes it.
fn shelter(sim: &mut SimData, n: i64, load: Load) -> (ok: bool)
    requires
        old(sim).wf(),
    ensures
        ok == shelters(old(sim).env, old(sim)@, n as int, load.elem),
        sim_data::stepped(
            *old(sim),
            *final(sim),
            if ok {
                sheltered(old(sim).env, old(sim)@, n as int, load)
            } else {
                old(sim)@
            },
        ),
{
    if is_holding(sim, n, sim.env.vacuum_element_idx) {
        lay(sim, n as usize, load);
        return true;
    }
    if is_holding(sim, n, load.elem) {
        absorb(sim, n as usize, load);
        return true;
    }
    false
}

/// The state after what is in a cell was pushed out for a gas, and whether there is room.
pub open spec fn cleared_for_gas(env: Env, s: State, cell: int) -> (State, bool) {
    let e = s.updated[cell].element_idx;
    let p = env.elements.spec_post_phase(e);
    if p == VACUUM {
        (s, true)
    } else if p == GAS {
        (
            displacement::gas_displaced(env, s, cell, e),
            displacement::gas_goal(env, s, cell, e) is Some,
        )
    } else if p == LIQUID {
        displacement::liquid_displaced(env, s, cell, e)
    } else {
        (s, false)
    }
}

/// The state after a gas is added to a cell.
pub open spec fn gas_added(env: Env, s: State, cell: int, load: Load) -> State {
    if cell >= s.updated.len() {
        s
    } else if s.updated[cell].element_idx == load.elem {
        absorbed(env, s, cell, load)
    } else {
        let (t, ok) = cleared_for_gas(env, s, cell);
        if ok {
            settled(env, t, cell, load)
        } else if shelters(env, t, cell - 1, load.elem) {
            sheltered(env, t, cell - 1, load)
        } else if shelters(env, t, cell + 1, load.elem) {
            sheltered(env, t, cell + 1, load)
        } else if shelters(env, t, cell + env.width, load.elem) {
            sheltered(env, t, cell + env.width, load)
        } else {
            replaced(env, t, cell, load)
        }
    }
}

/// Adds a gas to a cell. It joins its own kind. Other matter is pushed out; where it cannot go,
/// the gas goes to the left, to the right or above, to a cell that is empty or holds its kind,
/// or else takes the place of what is there.
pub fn add_gas(
    sim: &mut SimData,
    cell: usize,
    elem: u16,
    mass: F32,
    temperature: F32,
    disease_idx: u8,
    disease_count: i32,
)
    requires
        old(sim).wf(),
    ensures
        sim_data::stepped(
            *old(sim),
            *final(sim),
            gas_added(
                old(sim).env,
                old(sim)@,
                cell as int,
                Load { elem, mass, temperature, disease_idx, disease_count },
            ),
        ),
{
    let load = Load { elem, mass, temperature, disease_idx, disease_count };
    if cell >= sim.updated_cells.len() {
        return;
    }
    let e: u16 = sim.updated_cells[cell].element_idx;
    if e == elem {
        absorb(sim, cell, load);
        return;
    }
    let p: u8 = sim.env.elements.post_phase(e);
    let ok = if p == VACUUM {
        true
    } else if p == GAS {
        displace_gas(sim, cell, e)
    } else if p == LIQUID {
        displace_liquid(sim, cell, e)
    } else {
        false
    };
    if ok {
        settle(sim, cell, load);
        return;
    }
    let c: i64 = cell as i64;
    if shelter(sim, c - 1, load) || shelter(sim, c + 1, load) || shelter(
        sim,
        c + sim.env.width as i64,
        load,
    ) {
        return;
    }
    place_subtract(sim, cell, load);
}

/// A solid that tops up its kind in a column: the state so far and what is left of the solid.
pub ghost struct Heap {
    pub state: State,
    pub mass: F32,
    pub done: bool,
}

/// The heap after cell `n`, where it holds the same solid, is topped up to its limit.
pub open spec fn heaped(env: Env, was: Heap, n: int, load: Load) -> Heap {
    match (sim_data::at(was.state.updated, n), env.elements.spec_post_process(load.elem)) {
        (Some(c), Some(p)) => {
            let room = p.max_mass.minus(c.mass);
            if was.done || c.element_idx != load.elem || room.le(num(ZERO)) {
                was
            } else {
                let part = room.min(was.mass);
                let rest = was.mass.minus(part);
                Heap {
                    state: absorbed(
                        env,
                        was.state,
                        n,
                        Load {
                            mass: part,
                            disease_count: share(part, was.mass, load.disease_count),
                            ..load
                        },
                    ),
                    mass: rest,
                    done: rest.le(num(ZERO)),
                }
            }
        },
        _ => was,
    }
}

fn heap(sim: &mut SimData, n: i64, load: Load, mass: F32, done: bool) -> (r: (F32, bool))
    requires
        old(sim).wf(),
    ensures
        ({
            let now = heaped(
                old(sim).env,
                Heap { state: old(sim)@, mass, done },
                n as int,
                load,
            );
            &&& sim_data::stepped(*old(sim), *final(sim), now.state)
            &&& r.0 == now.mass
            &&& r.1 == now.done
        }),
{
    match (peek(&sim.updated_cells, n), sim.env.elements.post_process(load.elem)) {
        (Some(c), Some(p)) => {
            let room = p.max_mass.minus(c.mass);
            if done || c.element_idx != load.elem || room.le(num(ZERO)) {
                return (mass, done);
            }
            let part = room.min(mass);
            let rest = mass.minus(part);
            let germs: i32 = share(part, mass, load.disease_count);
            absorb(sim, n as usize, Load { mass: part, disease_count: germs, ..load });
            (rest, rest.le(num(ZERO)))
        },
        _ => (mass, done),
    }
}

/// The state after what is in a cell is pushed out for a solid, as far as it can go.
pub open spec fn cleared_for_solid(env: Env, s: State, cell: int) -> State {
    let e = s.updated[cell].element_idx;
    let p = env.elements.spec_post_phase(e);
    if p == GAS {
        displacement::gas_displaced(env, s, cell, e)
    } else if p == LIQUID {
        displacement::liquid_displaced(env, s, cell, e).0
    } else {
        s
    }
}

fn clear_for_solid(sim: &mut SimData, cell: usize)
    requires
        old(sim).wf(),
        cell < old(sim)@.updated.len(),
    ensures
        sim_data::stepped(
            *old(sim),
            *final(sim),
            cleared_for_solid(old(sim).env, old(sim)@, cell as int),
        ),
{
    let e: u16 = sim.updated_cells[cell].element_idx;
    let p: u8 = sim.env.elements.post_phase(e);
    if p == GAS {
        displace_gas(sim, cell, e);
    } else if p == LIQUID {
        displace_liquid(sim, cell, e);
    }
}

/// The state after a solid is laid on the first cell from `cell` upwards that is not solid. What
/// no solid can be in stops it.
pub open spec fn stacked(env: Env, s: State, cell: int, load: Load) -> State
    decreases
            if cell < s.updated.len() {
                s.updated.len() - cell
            } else {
                0
            },
{
    match sim_data::at(s.updated, cell) {
        None => s,
        Some(c) => {
            let p = env.elements.spec_post_phase(c.element_idx);
            if env.width == 0 || c.element_idx == env.unobtanium_element_idx || p == NO_PHASE {
                s
            } else if p == SOLID {
                stacked(env, s, cell + env.width, load)
            } else {
                laid(env, cleared_for_solid(env, s, cell), cell, load)
            }
        },
    }
}

fn stack(sim: &mut SimData, cell: usize, load: Load)
    requires
        old(sim).wf(),
        cell < old(sim)@.updated.len(),
        old(sim).env.width > 0,
    ensures
        sim_data::stepped(
            *old(sim),
            *final(sim),
            stacked(old(sim).env, old(sim)@, cell as int, load),
        ),
{
    let mut at: usize = cell;
    while at < sim.updated_cells.len()
        invariant_except_break
            sim@ == old(sim)@,
            stacked(sim.env, sim@, cell as int, load) == stacked(sim.env, sim@, at as int, load),
        invariant
            sim.wf(),
            sim.env == old(sim).env,
            sim.env.width > 0,
            sim_data::same_shape(old(sim)@, sim@),
        ensures
            sim@ == stacked(old(sim).env, old(sim)@, cell as int, load),
        decreases
                if at < sim@.updated.len() {
                    sim@.updated.len() - at
                } else {
                    0
                },
    {
        let e: u16 = sim.updated_cells[at].element_idx;
        let p: u8 = sim.env.elements.post_phase(e);
        if e == sim.env.unobtanium_element_idx || p == NO_PHASE {
            break;
        }
        if p != SOLID {
            clear_for_solid(sim, at);
            lay(sim, at, load);
            break;
        }
        at = at + sim.env.width;
    }
}

/// The state after a solid is added to a cell. With type 0 it tops up its kind in the column,
/// from one below the cell to two above, and what is left is laid on top. With type 1 it
/// joins what is in the cell, unless that is another solid.
pub open spec fn solid_added(env: Env, s: State, cell: int, load: Load, kind: u8) -> State {
    if cell >= s.updated.len() {
        s
    } else if kind == 0 {
        let w = env.width as int;
        let a = Heap { state: s, mass: load.mass, done: false };
        let b = heaped(env, a, cell - w, load);
        let c = heaped(env, b, cell, load);
        let d = heaped(env, c, cell + w, load);
        let e = heaped(env, d, cell + w + w, load);
        if e.done {
            e.state
        } else {
            stacked(env, e.state, cell, Load { mass: e.mass, ..load })
        }
    } else if kind == 1 {
        let e = s.updated[cell].element_idx;
        let p = env.elements.spec_post_phase(e);
        if p == NO_PHASE || (p == SOLID && e != load.elem) {
            s
        } else {
            absorbed(env, cleared_for_solid(env, s, cell), cell, load).changed(env, cell)
        }
    } else {
        s
    }
}

/// Adds a solid to a cell.
pub fn add_solid(
    sim: &mut SimData,
    cell: usize,
    elem: u16,
    mass: F32,
    temperature: F32,
    disease_idx: u8,
    disease_count: i32,
    add_sub_type: u8,
)
    requires
        old(sim).wf(),
    ensures
        sim_data::stepped(
            *old(sim),
            *final(sim),
            solid_added(
                old(sim).env,
                old(sim)@,
                cell as int,
                Load { elem, mass, temperature, disease_idx, disease_count },
                add_sub_type,
            ),
        ),
{
    let load = Load { elem, mass, temperature, disease_idx, disease_count };
    if cell >= sim.updated_cells.len() {
        return;
    }
    if add_sub_type == 0 {
        let c: i64 = cell as i64;
        let w: i64 = sim.env.width as i64;
        let (m, done) = heap(sim, c - w, load, mass, false);
        let (m, done) = heap(sim, c, load, m, done);
        let (m, done) = heap(sim, c + w, load, m, done);
        let (m, done) = heap(sim, c + w + w, load, m, done);
        if !done {
            proof {
                assert(sim.env.width > 0) by (nonlinear_arith)
                    requires
                        cell < sim.env.width * sim.env.height,
                        cell >= 0,
                ;
            }
            stack(sim, cell, Load { mass: m, ..load });
        }
    } else if add_sub_type == 1 {
        let e: u16 = sim.updated_cells[cell].element_idx;
        let p: u8 = sim.env.elements.post_phase(e);
        if p == NO_PHASE || (p == SOLID && e != elem) {
            return;
        }
        clear_for_solid(sim, cell);
        absorb(sim, cell, load);
        push_substance_change(sim, cell);
    }
}

} // verus!
