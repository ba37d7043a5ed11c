//! How gases spread into what is empty and push other gases aside.
use crate::cell::Cell;
use crate::constants::EIGHTH;
use crate::constants::ZERO;
use crate::displacement;
use crate::displacement::do_displacement;
use crate::element::phase;
use crate::element::ElementPressureData;
use crate::element::GAS;
use crate::element::LIQUID;
use crate::element::NO_PHASE;
use crate::element::SOLID;
use crate::element::VACUUM;
use crate::grid::marked;
use crate::grid::GAS_IMPERMEABLE;
use crate::number::num;
use crate::number::F32;
use crate::pressure;
use crate::pressure::update_pressure_with;
use crate::sim_data;
use crate::sim_data::peek;
use crate::sim_data::push_substance_change;
use crate::sim_data::Env;
use crate::sim_data::RegionBounds;
use crate::sim_data::Side;
use crate::sim_data::SimData;
use crate::sim_data::State;
use crate::sweep;
use crate::sweep::sweep_rows;
use crate::sweep::Pass;
use vstd::prelude::*;

verus! {

broadcast use crate::region_events::group_events;

/// The neighbour's pressure data, where the gas or vacuum `elem` of phase `p` evens out its mass
/// with that neighbour: it is open to gases, still what the step found, and a gas or empty; not
/// both are empty; and two gases must be the same.
pub open spec fn partner(env: Env, s: State, dst: int, elem: u16, p: u8) -> Option<
    ElementPressureData,
> {
    match sim_data::at(s.cells, dst) {
        None => None,
        Some(c) => match env.elements.spec_pressure(c.element_idx) {
            None => None,
            Some(d) => {
                let q = phase(d.state);
                if marked(c, GAS_IMPERMEABLE) || s.updated[dst].element_idx != c.element_idx || q
                    >= LIQUID || (p == VACUUM && q == VACUUM) || (elem != c.element_idx && q == p) {
                    None
                } else {
                    Some(d)
                }
            },
        },
    }
}

/// The neighbour's element and pressure data, where a gas or vacuum evens out its mass with it.
fn gas_pair_ok(sim: &SimData, dst: i64, src_elem: u16, src_state: u8) -> (r: Option<
    (u16, ElementPressureData),
>)
    requires
        sim.wf(),
        !sim@.unallocated(),
    ensures
        match partner(sim.env, sim@, dst as int, src_elem, src_state) {
            Some(d) => r == Some((sim@.cells[dst as int].element_idx, d)),
            None => r is None,
        },
{
    let c = match peek(&sim.cells, dst) {
        Some(c) => c,
        None => return None,
    };
    match sim.env.elements.pressure(c.element_idx) {
        Some(d) => {
            let q: u8 = phase(d.state);
            if marked(c, GAS_IMPERMEABLE) || sim.updated_cells[dst as usize].element_idx
                != c.element_idx || q >= LIQUID || (src_state == VACUUM && q == VACUUM) || (src_elem
                != c.element_idx && q == src_state) {
                None
            } else {
                Some((c.element_idx, d))
            }
        },
        None => None,
    }
}

/// The state after a gas or vacuum has evened out its mass with a neighbour, where they are
/// partners, and the mass that has flowed.
pub open spec fn shared(
    env: Env,
    s: State,
    src: int,
    dst: int,
    elem: u16,
    data: ElementPressureData,
) -> (State, Option<F32>) {
    match partner(env, s, dst, elem, phase(data.state)) {
        Some(d) => {
            let (t, f) = pressure::evened(
                env,
                s,
                src,
                dst,
                elem,
                s.cells[dst].element_idx,
                data,
                d,
            );
            (t, Some(f))
        },
        None => (s, None),
    }
}

fn share_with(sim: &mut SimData, src: usize, dst: i64, elem: u16, data: ElementPressureData) -> (f:
    Option<F32>)
    requires
        old(sim).wf(),
        !old(sim)@.unallocated(),
        src < old(sim)@.cells.len(),
    ensures
        sim_data::stepped(
            *old(sim),
            *final(sim),
            shared(old(sim).env, old(sim)@, src as int, dst as int, elem, data).0,
        ),
        f == shared(old(sim).env, old(sim)@, src as int, dst as int, elem, data).1,
        f is Some ==> 0 <= dst < final(sim).env.cell_count(),
{
    match gas_pair_ok(sim, dst, elem, phase(data.state)) {
        Some((e, d)) => Some(update_pressure_with(sim, src, dst as usize, elem, e, &data, &d)),
        None => None,
    }
}

/// The phase of an element for the corner rule; what is not in the table counts as solid.
pub open spec fn barrier(env: Env, c: Cell) -> u8 {
    let p = env.elements.spec_pressure_phase(c.element_idx);
    if p == NO_PHASE {
        SOLID
    } else {
        p
    }
}

fn get_barrier(env: &Env, c: Cell) -> (p: u8)
    ensures
        p == barrier(*env, c),
{
    let p: u8 = env.elements.pressure_phase(c.element_idx);
    if p == NO_PHASE {
        SOLID
    } else {
        p
    }
}

/// Whether a gas cannot pass a corner between two cells: their phases together make up a
/// solid's.
pub open spec fn cornered(env: Env, a: Cell, b: Cell) -> bool {
    (barrier(env, a) | barrier(env, b)) & 3 == SOLID
}

/// Whether the gas or vacuum in a cell takes part: it is open to gases and still what the step
/// found. An empty cell may be filled in between.
pub open spec fn still(s: State, src: int, elem: u16) -> bool {
    s.updated[src].element_idx == elem
}

/// The state after a cell has evened out its mass sideways, ahead in the direction of the step.
#[verifier::opaque]
pub open spec fn shared_sideways(
    env: Env,
    s: State,
    y: int,
    x: int,
    elem: u16,
    data: ElementPressureData,
) -> State {
    let dir = s.iterate_direction;
    let src = y * env.width + x;
    let n = x + dir;
    if 1 <= n <= env.width - 2 {
        let (t, f) = shared(env, s, src, src + dir, elem, data);
        match f {
            Some(f) => {
                let g = F32::from_i32(dir).times(f);
                t.flowed(src, Side::Right, g).flowed(src + dir, Side::Left, g.neg())
            },
            None => t,
        }
    } else {
        s
    }
}

fn share_sideways(sim: &mut SimData, y: usize, x: usize, elem: u16, data: ElementPressureData)
    requires
        old(sim).wf(),
        !old(sim)@.unallocated(),
        y < old(sim).env.height,
        x < old(sim).env.width,
    ensures
        sim_data::stepped(
            *old(sim),
            *final(sim),
            shared_sideways(old(sim).env, old(sim)@, y as int, x as int, elem, data),
        ),
{
    reveal(shared_sideways);
    proof {
        sweep::lemma_index(sim.env, y as int, x as int);
    }
    let dir: i32 = sim.iterate_direction;
    let w: usize = sim.env.width;
    let src: usize = y * w + x;
    let n: i64 = x as i64 + dir as i64;
    if n >= 1 && n <= w as i64 - 2 {
        let dst: i64 = src as i64 + dir as i64;
        match share_with(sim, src, dst, elem, data) {
            Some(f) => {
                let g = F32::from_i32(dir).times(f);
                sim.add_flow(src, Side::Right, g);
                sim.add_flow(dst as usize, Side::Left, g.neg());
            },
            None => {},
        }
    }
}

/// The state after a cell has evened out its mass upwards.
#[verifier::opaque]
pub open spec fn shared_upwards(
    env: Env,
    s: State,
    src: int,
    elem: u16,
    data: ElementPressureData,
) -> State {
    let dst = src + env.width;
    let (t, f) = shared(env, s, src, dst, elem, data);
    match f {
        Some(f) => t.flowed(src, Side::Down, f).flowed(dst, Side::Up, f.neg()),
        None => t,
    }
}

fn share_upwards(sim: &mut SimData, src: usize, elem: u16, data: ElementPressureData)
    requires
        old(sim).wf(),
        !old(sim)@.unallocated(),
        src < old(sim)@.cells.len(),
    ensures
        sim_data::stepped(
            *old(sim),
            *final(sim),
            shared_upwards(old(sim).env, old(sim)@, src as int, elem, data),
        ),
{
    reveal(shared_upwards);
    let dst: i64 = src as i64 + sim.env.width as i64;
    match share_with(sim, src, dst, elem, data) {
        Some(f) => {
            sim.add_flow(src, Side::Down, f);
            sim.add_flow(dst as usize, Side::Up, f.neg());
        },
        None => {},
    }
}

/// The state after a cell has evened out its mass diagonally, up and ahead, unless the corner
/// stops it. That is not booked as flow.
#[verifier::opaque]
pub open spec fn shared_diagonally(
    env: Env,
    s: State,
    y: int,
    x: int,
    elem: u16,
    data: ElementPressureData,
) -> State {
    let dir = s.iterate_direction;
    let src = y * env.width + x;
    let n = x + dir;
    match (
        sim_data::at(s.cells, src + dir),
        sim_data::at(s.cells, src + env.width),
    ) {
        (Some(a), Some(b)) => if 1 <= n <= env.width - 2 && !cornered(env, a, b) {
            shared(env, s, src, src + env.width + dir, elem, data).0
        } else {
            s
        },
        _ => s,
    }
}

fn share_diagonally(sim: &mut SimData, y: usize, x: usize, elem: u16, data: ElementPressureData)
    requires
        old(sim).wf(),
        !old(sim)@.unallocated(),
        y < old(sim).env.height,
        x < old(sim).env.width,
    ensures
        sim_data::stepped(
            *old(sim),
            *final(sim),
            shared_diagonally(old(sim).env, old(sim)@, y as int, x as int, elem, data),
        ),
{
    reveal(shared_diagonally);
    proof {
        sweep::lemma_index(sim.env, y as int, x as int);
    }
    let dir: i64 = sim.iterate_direction as i64;
    let w: usize = sim.env.width;
    let src: usize = y * w + x;
    let n: i64 = x as i64 + dir;
    let up: i64 = src as i64 + w as i64;
    match (peek(&sim.cells, src as i64 + dir), peek(&sim.cells, up)) {
        (Some(a), Some(b)) => {
            if n >= 1 && n <= w as i64 - 2 && (get_barrier(&sim.env, a) | get_barrier(
                &sim.env,
                b,
            )) & 3 != SOLID {
                share_with(sim, src, up + dir, elem, data);
            }
        },
        _ => {},
    }
}

/// The spreading of gases, cell by cell: each gas or empty cell evens out its mass sideways,
/// upwards and diagonally. Rows between the two columns are gone through in the direction of
/// the step.
pub struct GasPass {
    pub x0: usize,
    pub x1: usize,
}

/// The column that has its turn when the row is gone through in direction `dir`.
pub open spec fn column(x0: int, x1: int, x: int, dir: int) -> int {
    if dir >= 0 {
        x
    } else {
        x0 + x1 - 1 - x
    }
}

/// The state after the cell in row `y` and column `x` has evened out its mass. An empty cell
/// that has been filled stops.
pub open spec fn gas_spread(env: Env, s: State, y: int, x: int) -> State {
    let src = y * env.width + x;
    let c = s.cells[src];
    let e = c.element_idx;
    match env.elements.spec_pressure(e) {
        None => s,
        Some(d) => {
            let p = phase(d.state);
            if p >= LIQUID || marked(c, GAS_IMPERMEABLE) || !still(s, src, e) {
                s
            } else {
                let a = shared_sideways(env, s, y, x, e, d);
                if p == VACUUM && !still(a, src, e) {
                    a
                } else {
                    let b = shared_upwards(env, a, src, e, d);
                    if p == VACUUM && !still(b, src, e) {
                        b
                    } else {
                        shared_diagonally(env, b, y, x, e, d)
                    }
                }
            }
        },
    }
}

impl Pass for GasPass {
    open spec fn ready(&self, env: Env, s: State) -> bool {
        !s.unallocated() && self.x1 <= env.width
    }

    open spec fn effect(&self, env: Env, s: State, y: int, x: int) -> State {
        if self.x0 <= x < self.x1 {
            gas_spread(
                env,
                s,
                y,
                column(self.x0 as int, self.x1 as int, x, s.iterate_direction as int),
            )
        } else {
            s
        }
    }

    proof fn stays_ready(&self, env: Env, s: State, y: int, x: int) {
    }

    fn visit(&self, sim: &mut SimData, y: usize, x: usize, cell: usize) {
        if x < self.x0 || x >= self.x1 {
            return;
        }
        let col: usize = if sim.iterate_direction >= 0 {
            x
        } else {
            self.x0 + (self.x1 - 1 - x)
        };
        proof {
            sweep::lemma_inside(sim.env, y as int, x as int);
            sweep::lemma_index(sim.env, y as int, col as int);
        }
        let src: usize = y * sim.env.width + col;
        let c = sim.cells[src];
        let e: u16 = c.element_idx;
        let d = match sim.env.elements.pressure(e) {
            Some(d) => d,
            None => return,
        };
        let p: u8 = phase(d.state);
        if p >= LIQUID || marked(c, GAS_IMPERMEABLE) || sim.updated_cells[src].element_idx != e {
            return;
        }
        share_sideways(sim, y, col, e, d);
        if p == VACUUM && sim.updated_cells[src].element_idx != e {
            return;
        }
        share_upwards(sim, src, e, d);
        if p == VACUUM && sim.updated_cells[src].element_idx != e {
            return;
        }
        share_diagonally(sim, y, col, e, d);
    }
}

/// The state after the gases of a rectangle have spread. The edge of the grid is left out.
pub open spec fn gases_spread(env: Env, s: State, b: RegionBounds) -> State {
    if env.width < 5 || env.height < 5 || s.unallocated() {
        s
    } else {
        let x0 = sweep::greater(b.min_x as int, 1);
        let x1 = sweep::lesser(b.max_x as int, env.width - 1);
        sweep::rows(
            GasPass { x0: x0 as usize, x1: x1 as usize },
            env,
            s,
            x0,
            x1,
            sweep::greater(b.min_y as int, 1),
            sweep::lesser(b.max_y as int, env.height - 1),
        )
    }
}

/// Lets the gases of a rectangle spread.
pub fn run_gas_pressure_task(sim: &mut SimData, bounds: RegionBounds)
    requires
        old(sim).wf(),
    ensures
        sim_data::stepped(*old(sim), *final(sim), gases_spread(old(sim).env, old(sim)@, bounds)),
{
    let w: usize = sim.env.width;
    let h: usize = sim.env.height;
    if w < 5 || h < 5 || sim.cells.len() == 0 || sim.updated_cells.len() == 0 {
        return;
    }
    let x0: usize = if bounds.min_x >= 1 {
        bounds.min_x
    } else {
        1
    };
    let x1: usize = if bounds.max_x <= w - 1 {
        bounds.max_x
    } else {
        w - 1
    };
    let y0: usize = if bounds.min_y >= 1 {
        bounds.min_y
    } else {
        1
    };
    let y1: usize = if bounds.max_y <= h - 1 {
        bounds.max_y
    } else {
        h - 1
    };
    sweep_rows(&GasPass { x0, x1 }, sim, x0, x1, y0, y1);
}

/// Whether the gas `elem` in `src` pushes the gas in `dst` on into `beyond`: it has more mass,
/// both are still what the step found, and `beyond` is open to gases and holds the same gas or
/// nothing.
pub open spec fn pushes_gas(
    env: Env,
    s: State,
    elem: u16,
    src: int,
    dst: int,
    beyond: int,
) -> bool {
    let b = s.updated[beyond].element_idx;
    &&& !s.cells[src].mass.le(s.cells[dst].mass)
    &&& s.updated[src].element_idx == elem
    &&& s.updated[dst].element_idx == s.cells[dst].element_idx
    &&& !s.updated[dst].mass.le(num(ZERO))
    &&& b == s.cells[dst].element_idx || b == env.vacuum_element_idx
    &&& !marked(s.updated[beyond], GAS_IMPERMEABLE)
}

/// The state after the gas `elem` in `src` has pushed the gas in `dst` on into `beyond` and
/// followed with an eighth of its mass and germs; and the mass that followed.
pub open spec fn gas_pushed(env: Env, s: State, elem: u16, src: int, dst: int, beyond: int) -> (
    State,
    F32,
) {
    if !pushes_gas(env, s, elem, src, dst, beyond) {
        (s, num(ZERO))
    } else {
        let a = displacement::moved(env, s, dst, beyond);
        let c = a.updated[src];
        let f = s.cells[src].mass.times(num(EIGHTH)).min(c.mass);
        if f.le(num(ZERO)) {
            (a, num(ZERO))
        } else {
            let d = a.updated[dst];
            let b = a.put(
                dst,
                Cell {
                    element_idx: elem,
                    mass: d.mass.plus(f),
                    temperature: s.cells[src].temperature,
                    ..d
                },
            ).changed(env, dst);
            let e = b.put(
                src,
                Cell { mass: c.mass.minus(f).max(num(ZERO)), ..b.updated[src] },
            );
            let germs = F32::from_i32(s.cells[src].disease_count).times(num(EIGHTH)).to_i32();
            if germs <= 0 {
                (e, f)
            } else {
                let g = e.put(
                    dst,
                    e.updated[dst].spec_with_disease(
                        env.diseases,
                        s.cells[src].disease_idx,
                        germs,
                    ),
                );
                let rest = g.updated[src].disease_count.wrapping_sub(germs);
                (
                    g.put(
                        src,
                        Cell {
                            disease_count: if rest > 0 {
                                rest
                            } else {
                                0
                            },
                            ..g.updated[src]
                        },
                    ),
                    f,
                )
            }
        }
    }
}

/// Lets a gas push another aside.
pub fn do_gas_pressure_displacement(
    sim: &mut SimData,
    src_elem: u16,
    src: usize,
    dst: usize,
    beyond: usize,
) -> (f: F32)
    requires
        old(sim).wf(),
        !old(sim)@.unallocated(),
        src < old(sim)@.cells.len(),
        dst < old(sim)@.cells.len(),
        beyond < old(sim)@.cells.len(),
    ensures
        sim_data::stepped(
            *old(sim),
            *final(sim),
            gas_pushed(
                old(sim).env,
                old(sim)@,
                src_elem,
                src as int,
                dst as int,
                beyond as int,
            ).0,
        ),
        f == gas_pushed(
            old(sim).env,
            old(sim)@,
            src_elem,
            src as int,
            dst as int,
            beyond as int,
        ).1,
{
    let giver = sim.cells[src];
    let e: u16 = sim.cells[dst].element_idx;
    if giver.mass.le(sim.cells[dst].mass) {
        return num(ZERO);
    }
    if sim.updated_cells[src].element_idx != src_elem || sim.updated_cells[dst].element_idx != e {
        return num(ZERO);
    }
    if sim.updated_cells[dst].mass.le(num(ZERO)) {
        return num(ZERO);
    }
    let b: u16 = sim.updated_cells[beyond].element_idx;
    if b != e && b != sim.env.vacuum_element_idx {
        return num(ZERO);
    }
    if marked(sim.updated_cells[beyond], GAS_IMPERMEABLE) {
        return num(ZERO);
    }
    do_displacement(sim, dst, beyond);
    let now = sim.updated_cells[src].mass;
    let f = giver.mass.times(num(EIGHTH)).min(now);
    if f.le(num(ZERO)) {
        return num(ZERO);
    }
    let d = sim.updated_cells[dst];
    sim.put(
        dst,
        Cell {
            element_idx: src_elem,
            mass: d.mass.plus(f),
            temperature: giver.temperature,
            ..d
        },
    );
    push_substance_change(sim, dst);
    let c = Cell { mass: now.minus(f).max(num(ZERO)), ..sim.updated_cells[src] };
    sim.put(src, c);
    let germs: i32 = F32::from_i32(giver.disease_count).times(num(EIGHTH)).to_i32();
    if germs > 0 {
        let d = sim.updated_cells[dst].with_disease(&sim.env.diseases, giver.disease_idx, germs);
        sim.put(dst, d);
        let rest: i32 = sim.updated_cells[src].disease_count.wrapping_sub(germs);
        let left: i32 = if rest > 0 {
            rest
        } else {
            0
        };
        let c = Cell { disease_count: left, ..sim.updated_cells[src] };
        sim.put(src, c);
    }
    f
}

/// The state after the gas `elem` in `src` has tried to push the gas at distance `d` aside. It
/// must be another gas, open to gases.
#[verifier::opaque]
pub open spec fn gas_pushed_to(env: Env, s: State, elem: u16, src: int, d: int) -> State {
    match (sim_data::at(s.cells, src + d), sim_data::at(s.cells, src + d + d)) {
        (Some(c), Some(_)) => if c.element_idx == elem || env.elements.spec_pressure_phase(
            c.element_idx,
        ) != GAS || marked(c, GAS_IMPERMEABLE) {
            s
        } else {
            let (t, f) = gas_pushed(env, s, elem, src, src + d, src + d + d);
            if num(ZERO).lt(f) {
                t.flowed(src, Side::Up, f.neg()).flowed(src + d, Side::Down, f)
            } else {
                t
            }
        },
        _ => s,
    }
}

fn push_gas_to(sim: &mut SimData, elem: u16, src: usize, d: i64)
    requires
        old(sim).wf(),
        !old(sim)@.unallocated(),
        src < old(sim)@.cells.len(),
        -0x8000_0000 <= d <= 0x8000_0000,
    ensures
        sim_data::stepped(
            *old(sim),
            *final(sim),
            gas_pushed_to(old(sim).env, old(sim)@, elem, src as int, d as int),
        ),
{
    reveal(gas_pushed_to);
    let dst: i64 = src as i64 + d;
    match (peek(&sim.cells, dst), peek(&sim.cells, dst + d)) {
        (Some(c), Some(_)) => {
            if c.element_idx == elem || sim.env.elements.pressure_phase(c.element_idx) != GAS
                || marked(c, GAS_IMPERMEABLE) {
                return;
            }
            let f = do_gas_pressure_displacement(
                sim,
                elem,
                src,
                dst as usize,
                (dst + d) as usize,
            );
            if num(ZERO).lt(f) {
                sim.add_flow(src, Side::Up, f.neg());
                sim.add_flow(dst as usize, Side::Down, f);
            }
        },
        _ => {},
    }
}

/// The pushing of gases, cell by cell: down, behind, ahead and up.
pub struct GasPushPass;

impl Pass for GasPushPass {
    open spec fn ready(&self, env: Env, s: State) -> bool {
        !s.unallocated()
    }

    open spec fn effect(&self, env: Env, s: State, y: int, x: int) -> State {
        let src = y * env.width + x;
        let e = s.cells[src].element_idx;
        let w = env.width as int;
        let dir = s.iterate_direction as int;
        if env.elements.spec_pressure_phase(e) != GAS {
            s
        } else {
            let a = gas_pushed_to(env, s, e, src, -w);
            let b = gas_pushed_to(env, a, e, src, -dir);
            let c = gas_pushed_to(env, b, e, src, dir);
            gas_pushed_to(env, c, e, src, w)
        }
    }

    proof fn stays_ready(&self, env: Env, s: State, y: int, x: int) {
    }

    fn visit(&self, sim: &mut SimData, y: usize, x: usize, cell: usize) {
        let e: u16 = sim.cells[cell].element_idx;
        if sim.env.elements.pressure_phase(e) != GAS {
            return;
        }
        let w: i64 = sim.env.width as i64;
        let dir: i64 = sim.iterate_direction as i64;
        push_gas_to(sim, e, cell, -w);
        push_gas_to(sim, e, cell, -dir);
        push_gas_to(sim, e, cell, dir);
        push_gas_to(sim, e, cell, w);
    }
}

/// The state after the gases of a rectangle have pushed one another. Three cells along each
/// edge of the grid are left out.
pub open spec fn gases_pushed(env: Env, s: State, b: RegionBounds) -> State {
    if env.width < 7 || env.height < 7 || s.unallocated() {
        s
    } else {
        sweep::rows(
            GasPushPass,
            env,
            s,
            sweep::greater(b.min_x as int, 3),
            sweep::lesser(b.max_x as int, env.width - 3),
            sweep::greater(b.min_y as int, 3),
            sweep::lesser(b.max_y as int, env.height - 3),
        )
    }
}

/// Lets the gases of a rectangle push one another.
pub fn run_gas_displacement_task(sim: &mut SimData, bounds: RegionBounds)
    requires
        old(sim).wf(),
    ensures
        sim_data::stepped(*old(sim), *final(sim), gases_pushed(old(sim).env, old(sim)@, bounds)),
{
    let w: usize = sim.env.width;
    let h: usize = sim.env.height;
    if w < 7 || h < 7 || sim.cells.len() == 0 || sim.updated_cells.len() == 0 {
        return;
    }
    let x0: usize = if bounds.min_x >= 3 {
        bounds.min_x
    } else {
        3
    };
    let x1: usize = if bounds.max_x <= w - 3 {
        bounds.max_x
    } else {
        w - 3
    };
    let y0: usize = if bounds.min_y >= 3 {
        bounds.min_y
    } else {
        3
    };
    let y1: usize = if bounds.max_y <= h - 3 {
        bounds.max_y
    } else {
        h - 3
    };
    sweep_rows(&GasPushPass, sim, x0, x1, y0, y1);
}

} // verus!
