//! How neighbouring cells even out their masses, and how liquids squeeze one another aside.
use crate::cell::Cell;
use crate::constants::EIGHTH;
use crate::constants::MINUS_EIGHTH;
use crate::constants::ONE;
use crate::constants::ZERO;
use crate::displacement;
use crate::displacement::displace_gas;
use crate::element::phase;
use crate::element::ElementPressureData;
use crate::element::GAS;
use crate::element::LIQUID;
use crate::element::VACUUM;
use crate::grid::marked;
use crate::grid::LIQUID_IMPERMEABLE;
use crate::number::num;
use crate::number::F32;
use crate::sim_data;
use crate::sim_data::push_substance_change;
use crate::sim_data::Env;
use crate::sim_data::RegionBounds;
use crate::sim_data::Side;
use crate::sim_data::SimData;
use crate::sim_data::State;
use crate::sim_data::Vector4f;
use crate::sweep;
use crate::sweep::sweep_rows;
use crate::sweep::Pass;
use vstd::prelude::*;

verus! {

broadcast use crate::region_events::group_events;

pub open spec fn spec_pressure_flow(coefficient: F32, here: F32, there: F32) -> F32 {
    let f = coefficient.times(here.minus(there));
    let f = if here.times(num(EIGHTH)).le(f) {
        here.times(num(EIGHTH))
    } else {
        f
    };
    if f.le(there.times(num(MINUS_EIGHTH))) {
        there.times(num(MINUS_EIGHTH))
    } else {
        f
    }
}

/// The mass that flows between two cells, positive from the first to the second: proportional
/// to the difference of their masses, and at most an eighth of the giver's.
#[verifier::when_used_as_spec(spec_pressure_flow)]
pub fn pressure_flow(coefficient: F32, here: F32, there: F32) -> (f: F32)
    ensures
        f == spec_pressure_flow(coefficient, here, there),
{
    let mut f = coefficient.times(here.minus(there));
    if here.times(num(EIGHTH)).le(f) {
        f = here.times(num(EIGHTH));
    }
    if f.le(there.times(num(MINUS_EIGHTH))) {
        f = there.times(num(MINUS_EIGHTH));
    }
    f
}

/// The state after `transfer` of mass has passed from `src`, with its temperature and `germs`
/// of its germs, to `dst`.
pub open spec fn passed(
    env: Env,
    s: State,
    src: int,
    dst: int,
    transfer: F32,
    germs: i32,
) -> State {
    let from = s.updated[src];
    let t = s.put(
        dst,
        s.updated[dst].spec_with_mass_added(
            env.diseases,
            transfer,
            from.temperature,
            from.disease_idx,
            germs,
        ),
    );
    let left = t.updated[src];
    t.put(
        src,
        (Cell { mass: left.mass.minus(transfer).max(num(ZERO)), ..left }).with_disease_delta(
            0i32.wrapping_sub(germs),
        ),
    )
}

/// Lets mass pass from one cell to another.
fn pass(sim: &mut SimData, src: usize, dst: usize, transfer: F32, germs: i32)
    requires
        old(sim).wf(),
        src < old(sim)@.updated.len(),
        dst < old(sim)@.updated.len(),
    ensures
        sim_data::stepped(
            *old(sim),
            *final(sim),
            passed(old(sim).env, old(sim)@, src as int, dst as int, transfer, germs),
        ),
{
    let from = sim.updated_cells[src];
    let c = sim.updated_cells[dst].with_mass_added(
        &sim.env.diseases,
        transfer,
        from.temperature,
        from.disease_idx,
        germs,
    );
    sim.put(dst, c);
    let left = sim.updated_cells[src];
    let c = Cell { mass: left.mass.minus(transfer).max(num(ZERO)), ..left };
    sim.put(src, c.with_disease_delta(0i32.wrapping_sub(germs)));
}

/// The state after a receiver that was empty has taken on `elem`. The void stays the void, and
/// empty.
pub open spec fn taken_on(env: Env, s: State, dst: int, held: u16, elem: u16) -> State {
    let c = s.updated[dst];
    if held == env.void_element_idx {
        s.put(
            dst,
            (Cell { mass: num(ZERO), temperature: num(ZERO), ..c }).without_disease(),
        )
    } else {
        s.put(dst, Cell { element_idx: elem, ..c }).changed(env, dst)
    }
}

/// The state after two cells have evened out their masses, and the mass that has flowed,
/// positive from `cell` to `neighbor`. A gas sets the pace where the neighbour is one. A liquid
/// flows only into itself or into what is empty.
pub open spec fn evened(
    env: Env,
    s: State,
    cell: int,
    neighbor: int,
    elem: u16,
    neighbor_elem: u16,
    data: ElementPressureData,
    neighbor_data: ElementPressureData,
) -> (State, F32) {
    if s.unallocated() || cell >= s.cells.len() || neighbor >= s.cells.len() {
        (s, num(ZERO))
    } else if phase(data.state) == LIQUID && phase(neighbor_data.state) != VACUUM && neighbor_elem
        != elem {
        (s, num(ZERO))
    } else {
        let here = s.cells[cell].mass;
        let there = s.cells[neighbor].mass;
        let f = pressure_flow(
            if phase(neighbor_data.state) == GAS {
                neighbor_data.flow
            } else {
                data.flow
            },
            here,
            there,
        );
        let back = f.lt(num(ZERO));
        let src = if back {
            neighbor
        } else {
            cell
        };
        let dst = if back {
            cell
        } else {
            neighbor
        };
        let giver = s.cells[src];
        let transfer = f.abs().min(giver.mass);
        if transfer.le(num(ZERO)) {
            (s, f)
        } else {
            let germs = transfer.over(giver.mass).clamp(num(ZERO), num(ONE)).times(
                F32::from_i32(giver.disease_count),
            ).to_i32();
            let t = passed(env, s, src, dst, transfer, germs);
            let receiver = if back {
                data
            } else {
                neighbor_data
            };
            if phase(receiver.state) != VACUUM {
                (t, f)
            } else if back {
                (taken_on(env, t, dst, elem, neighbor_elem), f)
            } else {
                (taken_on(env, t, dst, neighbor_elem, elem), f)
            }
        }
    }
}

/// Evens out the masses of two cells of the given elements.
pub fn update_pressure_with(
    sim: &mut SimData,
    cell: usize,
    neighbor: usize,
    cell_elem: u16,
    neighbor_elem: u16,
    cell_pd: &ElementPressureData,
    neighbor_pd: &ElementPressureData,
) -> (flow: F32)
    requires
        old(sim).wf(),
    ensures
        sim_data::stepped(
            *old(sim),
            *final(sim),
            evened(
                old(sim).env,
                old(sim)@,
                cell as int,
                neighbor as int,
                cell_elem,
                neighbor_elem,
                *cell_pd,
                *neighbor_pd,
            ).0,
        ),
        flow == evened(
            old(sim).env,
            old(sim)@,
            cell as int,
            neighbor as int,
            cell_elem,
            neighbor_elem,
            *cell_pd,
            *neighbor_pd,
        ).1,
{
    if sim.cells.len() == 0 || sim.updated_cells.len() == 0 {
        return num(ZERO);
    }
    if cell >= sim.cells.len() || neighbor >= sim.cells.len() {
        return num(ZERO);
    }
    let neighbor_phase: u8 = phase(neighbor_pd.state);
    let cell_phase: u8 = phase(cell_pd.state);
    if cell_phase == LIQUID && neighbor_phase != VACUUM && neighbor_elem != cell_elem {
        return num(ZERO);
    }
    let coefficient = if neighbor_phase == GAS {
        neighbor_pd.flow
    } else {
        cell_pd.flow
    };
    let f = pressure_flow(coefficient, sim.cells[cell].mass, sim.cells[neighbor].mass);
    let back = f.lt(num(ZERO));
    let (src, dst): (usize, usize) = if back {
        (neighbor, cell)
    } else {
        (cell, neighbor)
    };
    let giver = sim.cells[src];
    let transfer = f.abs().min(giver.mass);
    if transfer.le(num(ZERO)) {
        return f;
    }
    let germs: i32 = transfer.over(giver.mass).clamp(num(ZERO), num(ONE)).times(
        F32::from_i32(giver.disease_count),
    ).to_i32();
    pass(sim, src, dst, transfer, germs);
    let (held, elem, receiver): (u16, u16, u8) = if back {
        (cell_elem, neighbor_elem, cell_phase)
    } else {
        (neighbor_elem, cell_elem, neighbor_phase)
    };
    if receiver != VACUUM {
        return f;
    }
    let c = sim.updated_cells[dst];
    if held == sim.env.void_element_idx {
        let c = Cell { mass: num(ZERO), temperature: num(ZERO), ..c };
        sim.put(dst, c.without_disease());
        return f;
    }
    sim.put(dst, Cell { element_idx: elem, ..c });
    push_substance_change(sim, dst);
    f
}

/// The state after two cells have evened out their masses, and the mass that has flowed.
/// Nothing flows where a cell is missing or its element has no entry in the pressure table.
pub open spec fn levelled(env: Env, s: State, cell: int, neighbor: int) -> (State, F32) {
    match (sim_data::at(s.cells, cell), sim_data::at(s.cells, neighbor)) {
        (Some(c), Some(n)) => match (
            env.elements.spec_pressure(c.element_idx),
            env.elements.spec_pressure(n.element_idx),
        ) {
            (Some(cd), Some(nd)) => evened(
                env,
                s,
                cell,
                neighbor,
                c.element_idx,
                n.element_idx,
                cd,
                nd,
            ),
            _ => (s, num(ZERO)),
        },
        _ => (s, num(ZERO)),
    }
}

/// Evens out the masses of two cells.
pub fn update_pressure(sim: &mut SimData, cell: usize, neighbor: usize) -> (flow: F32)
    requires
        old(sim).wf(),
    ensures
        sim_data::stepped(
            *old(sim),
            *final(sim),
            levelled(old(sim).env, old(sim)@, cell as int, neighbor as int).0,
        ),
        flow == levelled(old(sim).env, old(sim)@, cell as int, neighbor as int).1,
{
    if cell >= sim.cells.len() || neighbor >= sim.cells.len() {
        return num(ZERO);
    }
    let elem: u16 = sim.cells[cell].element_idx;
    let neighbor_elem: u16 = sim.cells[neighbor].element_idx;
    match (sim.env.elements.pressure(elem), sim.env.elements.pressure(neighbor_elem)) {
        (Some(cd), Some(nd)) => update_pressure_with(
            sim,
            cell,
            neighbor,
            elem,
            neighbor_elem,
            &cd,
            &nd,
        ),
        _ => num(ZERO),
    }
}

/// The state after the liquid in `src` is pushed into `dst`, and whether that went: a gas there
/// must find a way out, a liquid there must be the same, and there must be something to push.
pub open spec fn pushed(env: Env, s: State, src: int, dst: int) -> (State, bool) {
    match (sim_data::at(s.updated, src), sim_data::at(s.updated, dst)) {
        (Some(from), Some(to)) => if from.mass.le(num(ZERO)) || marked(to, LIQUID_IMPERMEABLE) {
            (s, false)
        } else if env.elements.spec_liquid_phase(to.element_idx) < LIQUID {
            if displacement::gas_goal(env, s, dst, to.element_idx) is None {
                (s, false)
            } else {
                let t = displacement::gas_displaced(env, s, dst, to.element_idx);
                (t.swapped(src, dst).changed(env, src).changed(env, dst), true)
            }
        } else if env.elements.spec_liquid_phase(to.element_idx) == LIQUID && from.element_idx
            == to.element_idx {
            let t = s.put(
                dst,
                to.spec_with_mass_added(
                    env.diseases,
                    from.mass,
                    from.temperature,
                    from.disease_idx,
                    from.disease_count,
                ),
            );
            (
                t.put(src, t.updated[src].emptied(env.vacuum_element_idx)).changed(env, src),
                true,
            )
        } else {
            (s, false)
        },
        _ => (s, false),
    }
}

/// Pushes the liquid in a cell into another.
pub fn displace_liquid_directional(sim: &mut SimData, src_cell: usize, dst_cell: usize) -> (ok:
    bool)
    requires
        old(sim).wf(),
    ensures
        sim_data::stepped(
            *old(sim),
            *final(sim),
            pushed(old(sim).env, old(sim)@, src_cell as int, dst_cell as int).0,
        ),
        ok == pushed(old(sim).env, old(sim)@, src_cell as int, dst_cell as int).1,
{
    if src_cell >= sim.updated_cells.len() || dst_cell >= sim.updated_cells.len() {
        return false;
    }
    let from = sim.updated_cells[src_cell];
    let to = sim.updated_cells[dst_cell];
    if from.mass.le(num(ZERO)) || marked(to, LIQUID_IMPERMEABLE) {
        return false;
    }
    let p: u8 = sim.env.elements.liquid_phase(to.element_idx);
    if p < LIQUID {
        if !displace_gas(sim, dst_cell, to.element_idx) {
            return false;
        }
        sim.swap(src_cell, dst_cell);
        push_substance_change(sim, src_cell);
        push_substance_change(sim, dst_cell);
        return true;
    }
    if p != LIQUID || from.element_idx != to.element_idx {
        return false;
    }
    let c = to.with_mass_added(
        &sim.env.diseases,
        from.mass,
        from.temperature,
        from.disease_idx,
        from.disease_count,
    );
    sim.put(dst_cell, c);
    let c = sim.updated_cells[src_cell].emptied(sim.env.vacuum_element_idx);
    sim.put(src_cell, c);
    push_substance_change(sim, src_cell);
    true
}

pub open spec fn spec_outflow(v: Vector4f) -> F32 {
    v.x.plus(v.y).plus(v.z).plus(v.w)
}

/// What flows out of a cell to all sides together.
#[verifier::when_used_as_spec(spec_outflow)]
pub fn outflow(v: Vector4f) -> (f: F32)
    ensures
        f == spec_outflow(v),
{
    v.x.plus(v.y).plus(v.z).plus(v.w)
}

/// Whether the liquid `elem` in `src` may squeeze the liquid in `dst` aside: both are still
/// where the step found them, they differ, and what `src` holds beyond its outflow outweighs
/// `dst` and `beyond` together.
pub open spec fn squeezes(
    env: Env,
    s: State,
    elem: u16,
    src: int,
    dst: int,
    beyond: int,
) -> bool {
    let surplus = s.cells[src].mass.minus(
        if s.flow.len() == 0 {
            num(ZERO)
        } else {
            outflow(s.flow[src])
        },
    );
    &&& !s.unallocated()
    &&& 0 <= src < s.cells.len()
    &&& 0 <= dst < s.cells.len()
    &&& 0 <= beyond < s.cells.len()
    &&& !marked(s.cells[dst], LIQUID_IMPERMEABLE)
    &&& s.cells[dst].element_idx != elem
    &&& s.updated[src].element_idx == elem
    &&& s.updated[dst].element_idx == s.cells[dst].element_idx
    &&& env.elements.spec_pressure_phase(s.cells[dst].element_idx) == LIQUID
    &&& !surplus.le(s.cells[beyond].mass.plus(s.cells[dst].mass))
}

/// The state after the liquid `elem` in `src` squeezes the liquid in `dst` aside into `beyond`
/// and follows with an eighth of its surplus and of its germs; and the mass that followed.
pub open spec fn squeezed(
    env: Env,
    s: State,
    elem: u16,
    src: int,
    dst: int,
    beyond: int,
) -> (State, F32) {
    if !squeezes(env, s, elem, src, dst, beyond) || !pushed(env, s, dst, beyond).1 {
        (s, num(ZERO))
    } else {
        let surplus = s.cells[src].mass.minus(
            if s.flow.len() == 0 {
                num(ZERO)
            } else {
                outflow(s.flow[src])
            },
        );
        let f = surplus.times(num(EIGHTH));
        let germs = F32::from_i32(s.cells[src].disease_count).times(num(EIGHTH)).to_i32();
        let a = pushed(env, s, dst, beyond).0;
        let d = a.updated[dst];
        let b = a.put(
            dst,
            Cell {
                element_idx: elem,
                mass: d.mass.plus(f),
                temperature: s.cells[src].temperature,
                ..d
            },
        ).changed(env, dst);
        let from = b.updated[src];
        let c = b.put(src, Cell { mass: from.mass.minus(f).max(num(ZERO)), ..from });
        let e = c.put(
            dst,
            c.updated[dst].spec_with_disease(env.diseases, s.cells[src].disease_idx, germs),
        );
        (e.put(src, e.updated[src].with_disease_delta(0i32.wrapping_sub(germs))), f)
    }
}

/// Lets a liquid squeeze another aside.
pub fn do_liquid_pressure_displacement(
    sim: &mut SimData,
    src_elem: u16,
    src_cell: usize,
    dst_cell: usize,
    beyond_cell: usize,
) -> (f: F32)
    requires
        old(sim).wf(),
    ensures
        sim_data::stepped(
            *old(sim),
            *final(sim),
            squeezed(
                old(sim).env,
                old(sim)@,
                src_elem,
                src_cell as int,
                dst_cell as int,
                beyond_cell as int,
            ).0,
        ),
        f == squeezed(
            old(sim).env,
            old(sim)@,
            src_elem,
            src_cell as int,
            dst_cell as int,
            beyond_cell as int,
        ).1,
{
    if sim.cells.len() == 0 || sim.updated_cells.len() == 0 {
        return num(ZERO);
    }
    if src_cell >= sim.cells.len() || dst_cell >= sim.cells.len() || beyond_cell
        >= sim.cells.len() {
        return num(ZERO);
    }
    let src = sim.cells[src_cell];
    let dst = sim.cells[dst_cell];
    if marked(dst, LIQUID_IMPERMEABLE) || dst.element_idx == src_elem {
        return num(ZERO);
    }
    if sim.updated_cells[src_cell].element_idx != src_elem
        || sim.updated_cells[dst_cell].element_idx != dst.element_idx {
        return num(ZERO);
    }
    if sim.env.elements.pressure_phase(dst.element_idx) != LIQUID {
        return num(ZERO);
    }
    let flow_sum = if sim.flow.len() == 0 {
        num(ZERO)
    } else {
        outflow(sim.flow[src_cell])
    };
    let surplus = src.mass.minus(flow_sum);
    if surplus.le(sim.cells[beyond_cell].mass.plus(dst.mass)) {
        return num(ZERO);
    }
    if !displace_liquid_directional(sim, dst_cell, beyond_cell) {
        return num(ZERO);
    }
    let f = surplus.times(num(EIGHTH));
    let d = sim.updated_cells[dst_cell];
    sim.put(
        dst_cell,
        Cell {
            element_idx: src_elem,
            mass: d.mass.plus(f),
            temperature: src.temperature,
            ..d
        },
    );
    push_substance_change(sim, dst_cell);
    let from = sim.updated_cells[src_cell];
    sim.put(src_cell, Cell { mass: from.mass.minus(f).max(num(ZERO)), ..from });
    let germs: i32 = F32::from_i32(src.disease_count).times(num(EIGHTH)).to_i32();
    let c = sim.updated_cells[dst_cell].with_disease(&sim.env.diseases, src.disease_idx, germs);
    sim.put(dst_cell, c);
    let c = sim.updated_cells[src_cell].with_disease_delta(0i32.wrapping_sub(germs));
    sim.put(src_cell, c);
    f
}

/// The state after the liquid in a cell squeezes its neighbour at distance `d`, which is of
/// another element, and the flow is booked on one component of each.
#[verifier::opaque]
pub open spec fn squeezed_to(
    env: Env,
    s: State,
    elem: u16,
    cell: int,
    d: int,
    out: Side,
    back: Side,
    forward: bool,
) -> State {
    match sim_data::at(s.cells, cell + d) {
        Some(n) => if n.element_idx != elem {
            let (t, f) = squeezed(env, s, elem, cell, cell + d, cell + d + d);
            if forward {
                t.flowed(cell, out, f).flowed(cell + d, back, f.neg())
            } else {
                t.flowed(cell, out, f.neg()).flowed(cell + d, back, f)
            }
        } else {
            s
        },
        None => s,
    }
}

fn squeeze_to(
    sim: &mut SimData,
    elem: u16,
    cell: usize,
    d: i64,
    out: Side,
    back: Side,
    forward: bool,
)
    requires
        old(sim).wf(),
        cell < old(sim)@.cells.len(),
        -0x8000_0000 <= d <= 0x8000_0000,
    ensures
        sim_data::stepped(
            *old(sim),
            *final(sim),
            squeezed_to(
                old(sim).env,
                old(sim)@,
                elem,
                cell as int,
                d as int,
                out,
                back,
                forward,
            ),
        ),
{
    reveal(squeezed_to);
    let n: i64 = cell as i64 + d;
    if n < 0 || n >= sim.cells.len() as i64 {
        return;
    }
    if sim.cells[n as usize].element_idx == elem {
        return;
    }
    let beyond: i64 = n + d;
    let f = if beyond < 0 || beyond >= sim.cells.len() as i64 {
        num(ZERO)
    } else {
        do_liquid_pressure_displacement(sim, elem, cell, n as usize, beyond as usize)
    };
    if forward {
        sim.add_flow(cell, out, f);
        sim.add_flow(n as usize, back, f.neg());
    } else {
        sim.add_flow(cell, out, f.neg());
        sim.add_flow(n as usize, back, f);
    }
}

/// The squeezing of liquids, cell by cell: behind, ahead, and, where a cell is full, above.
pub struct SqueezePass;

impl Pass for SqueezePass {
    open spec fn ready(&self, env: Env, s: State) -> bool {
        !s.unallocated()
    }

    open spec fn effect(&self, env: Env, s: State, y: int, x: int) -> State {
        let cell = y * env.width + x;
        let elem = s.cells[cell].element_idx;
        let dir = s.iterate_direction as int;
        if env.elements.spec_pressure_phase(elem) != LIQUID {
            s
        } else {
            let a = squeezed_to(env, s, elem, cell, -dir, Side::Left, Side::Right, true);
            let b = squeezed_to(env, a, elem, cell, dir, Side::Left, Side::Right, false);
            match env.elements.spec_post_process(b.updated[cell].element_idx) {
                Some(d) => if d.max_mass.le(b.updated[cell].mass) {
                    squeezed_to(env, b, elem, cell, env.width as int, Side::Down, Side::Up, true)
                } else {
                    b
                },
                None => b,
            }
        }
    }

    proof fn stays_ready(&self, env: Env, s: State, y: int, x: int) {
    }

    fn visit(&self, sim: &mut SimData, y: usize, x: usize, cell: usize) {
        let elem: u16 = sim.cells[cell].element_idx;
        let dir: i64 = sim.iterate_direction as i64;
        if sim.env.elements.pressure_phase(elem) != LIQUID {
            return;
        }
        squeeze_to(sim, elem, cell, -dir, Side::Left, Side::Right, true);
        squeeze_to(sim, elem, cell, dir, Side::Left, Side::Right, false);
        let c = sim.updated_cells[cell];
        match sim.env.elements.post_process(c.element_idx) {
            Some(d) => {
                if d.max_mass.le(c.mass) {
                    squeeze_to(
                        sim,
                        elem,
                        cell,
                        sim.env.width as i64,
                        Side::Down,
                        Side::Up,
                        true,
                    );
                }
            },
            None => {},
        }
    }
}

/// The state after the liquids of a rectangle have squeezed one another. Three cells along
/// each edge of the grid are left out.
pub open spec fn all_squeezed(env: Env, s: State, b: RegionBounds) -> State {
    if env.width < 7 || env.height < 7 || s.unallocated() {
        s
    } else {
        sweep::rows(
            SqueezePass,
            env,
            s,
            sweep::greater(b.min_x as int, 3),
            sweep::lesser(b.max_x as int, env.width - 3),
            sweep::greater(b.min_y as int, 3),
            sweep::lesser(b.max_y as int, env.height - 3),
        )
    }
}

/// Lets the liquids of a rectangle squeeze one another.
pub fn run_liquid_displacement_task(sim: &mut SimData, bounds: RegionBounds)
    requires
        old(sim).wf(),
    ensures
        sim_data::stepped(*old(sim), *final(sim), all_squeezed(old(sim).env, old(sim)@, bounds)),
{
    let w: usize = sim.env.width;
    let h: usize = sim.env.height;
    if w < 7 || h < 7 || sim.cells.len() == 0 || sim.updated_cells.len() == 0 {
        return;
    }
    let x0: usize = if bounds.min_x <= 3 {
        3
    } else {
        bounds.min_x
    };
    let x1: usize = if bounds.max_x <= w - 3 {
        bounds.max_x
    } else {
        w - 3
    };
    let y0: usize = if bounds.min_y <= 3 {
        3
    } else {
        bounds.min_y
    };
    let y1: usize = if bounds.max_y <= h - 3 {
        bounds.max_y
    } else {
        h - 3
    };
    sweep_rows(&SqueezePass, sim, x0, x1, y0, y1);
}

} // verus!
