//! How blocks that are not supported fall.
use crate::cell::Cell;
use crate::constants::HALF;
use crate::constants::LEAST_NORMAL;
use crate::constants::ONE;
use crate::constants::THREE;
use crate::constants::ZERO;
use crate::displacement;
use crate::displacement::displace_gas;
use crate::displacement::displace_liquid;
use crate::displacement::do_evaporate;
use crate::element::GAS;
use crate::element::LIQUID;
use crate::element::NO_PHASE;
use crate::element::SOLID;
use crate::grid::marked;
use crate::grid::SOLID_IMPERMEABLE;
use crate::number::num;
use crate::number::F32;
use crate::region_events::Event;
use crate::region_events::UnstableCellInfo;
use crate::sim_data;
use crate::sim_data::emit;
use crate::sim_data::next_random;
use crate::sim_data::peek;
use crate::sim_data::push_substance_change;
use crate::sim_data::Env;
use crate::sim_data::SimData;
use crate::sim_data::State;
use crate::sim_data::STABLE_BITS;
use vstd::prelude::*;

verus! {

broadcast use crate::region_events::group_events;

/// The ticks until a block may fall, from a random number.
pub open spec fn spec_fresh_ticks(random: F32) -> u8 {
    let n = random.times(num(THREE)).to_u8();
    if n > 252 {
        31
    } else {
        ((n + 3) as u8) & STABLE_BITS
    }
}

/// The ticks until a block may fall, from a random number.
#[verifier::when_used_as_spec(spec_fresh_ticks)]
pub fn fresh_ticks(random: F32) -> (n: u8)
    ensures
        n == spec_fresh_ticks(random),
{
    let n: u8 = random.times(num(THREE)).to_u8();
    if n > 252 {
        31
    } else {
        (n + 3) & STABLE_BITS
    }
}

/// The state with the tick count of a cell's timer replaced.
pub open spec fn with_ticks(s: State, cell: int, n: u8) -> State {
    State { timers: s.timers.update(cell, (s.timers[cell] & 0xe0) | n), ..s }
}

/// The state after a tick of a cell's timer, and the ticks that are left. A timer that was just
/// set draws its length at random.
pub open spec fn ticked(s: State, cell: int) -> (State, u8) {
    if s.timers.len() == 0 {
        (s, 0)
    } else {
        let low = s.timers[cell] & STABLE_BITS;
        if low == STABLE_BITS {
            let t = s.rolled();
            (with_ticks(t, cell, fresh_ticks(t.roll())), fresh_ticks(t.roll()))
        } else if low != 0 {
            (with_ticks(s, cell, (low - 1) as u8), (low - 1) as u8)
        } else {
            (s, 0)
        }
    }
}

/// Lets a tick of a cell's timer pass and returns the ticks that are left.
pub fn get_stable_ticks_remaining(sim: &mut SimData, cell: usize) -> (n: u8)
    requires
        old(sim).wf(),
        cell < old(sim).env.cell_count(),
    ensures
        sim_data::stepped(*old(sim), *final(sim), ticked(old(sim)@, cell as int).0),
        n == ticked(old(sim)@, cell as int).1,
{
    if sim.timers.len() == 0 {
        return 0;
    }
    let low: u8 = sim.timers[cell] & STABLE_BITS;
    if low == STABLE_BITS {
        let n: u8 = fresh_ticks(next_random(sim));
        let t: u8 = (sim.timers[cell] & 0xe0) | n;
        sim.timers.set(cell, t);
        return n;
    }
    if low != 0 {
        let n: u8 = low - 1;
        let t: u8 = (sim.timers[cell] & 0xe0) | n;
        sim.timers.set(cell, t);
        return n;
    }
    0
}

/// The part `weight` of a number of germs.
pub open spec fn spec_weighted(count: i32, weight: F32) -> i32 {
    F32::from_i32(count).times(weight).to_i32()
}

/// The part `weight` of a number of germs.
#[verifier::when_used_as_spec(spec_weighted)]
pub fn weighted(count: i32, weight: F32) -> (n: i32)
    ensures
        n == spec_weighted(count, weight),
{
    F32::from_i32(count).times(weight).to_i32()
}

/// The state after it is reported that `mass` and `germs` of what is in `src` fall at `pos`.
pub open spec fn fall_reported(
    env: Env,
    s: State,
    src: int,
    pos: int,
    mass: F32,
    germs: i32,
) -> State {
    if s.events is None || !env.on_game_grid(pos) || src >= s.updated.len() {
        s
    } else {
        let c = s.updated[src];
        s.emit(
            Event::UnstableCell(
                UnstableCellInfo {
                    cell_idx: env.game_cell(pos) as i32,
                    elem_idx: c.element_idx,
                    falling_info: 0,
                    disease_idx: c.disease_idx,
                    mass,
                    temperature: c.temperature,
                    disease_count: germs,
                },
            ),
        )
    }
}

/// Reports that part of a block falls.
pub fn push_unstable_cell_info(
    sim: &mut SimData,
    src_cell: usize,
    pos_cell: usize,
    mass: F32,
    germs: i32,
)
    requires
        old(sim).wf(),
        pos_cell < old(sim).env.cell_count(),
    ensures
        sim_data::stepped(
            *old(sim),
            *final(sim),
            fall_reported(
                old(sim).env,
                old(sim)@,
                src_cell as int,
                pos_cell as int,
                mass,
                germs,
            ),
        ),
{
    if sim.sim_events.is_none() || src_cell >= sim.updated_cells.len() {
        return;
    }
    let g: i32 = match sim.env.game_index(pos_cell) {
        Some(g) => g,
        None => return,
    };
    let c = sim.updated_cells[src_cell];
    emit(
        sim,
        Event::UnstableCell(
            UnstableCellInfo {
                cell_idx: g,
                elem_idx: c.element_idx,
                falling_info: 0,
                disease_idx: c.disease_idx,
                mass,
                temperature: c.temperature,
                disease_count: germs,
            },
        ),
    );
}

/// The state after a block has fallen from `cell` down to the first solid, changing places with
/// each cell on its way.
pub open spec fn dropped(env: Env, s: State, cell: int) -> State
    decreases cell,
{
    let below = cell - env.width;
    if env.width == 0 || below < 0 || below >= s.updated.len() {
        s
    } else {
        let p = env.elements.spec_post_phase(s.updated[below].element_idx);
        if p == SOLID || p == NO_PHASE {
            s.changed(env, cell)
        } else {
            dropped(env, s.swapped(below, cell).changed(env, cell), below)
        }
    }
}

/// Lets a block fall down to the first solid.
pub fn headless_unstable_fall_simple_swap(sim: &mut SimData, cell: usize)
    requires
        old(sim).wf(),
        cell < old(sim).env.cell_count(),
    ensures
        sim_data::stepped(*old(sim), *final(sim), dropped(old(sim).env, old(sim)@, cell as int)),
{
    let w: usize = sim.env.width;
    if w == 0 || sim.updated_cells.len() == 0 {
        return;
    }
    let mut at: usize = cell;
    while at >= w
        invariant_except_break
            dropped(old(sim).env, old(sim)@, cell as int) == dropped(sim.env, sim@, at as int),
        invariant
            sim.wf(),
            sim.env == old(sim).env,
            sim_data::same_shape(old(sim)@, sim@),
            sim@.updated.len() == sim.env.cell_count(),
            w == sim.env.width,
            w > 0,
            at < sim.env.cell_count(),
        ensures
            sim@ == dropped(old(sim).env, old(sim)@, cell as int),
        decreases at,
    {
        let below: usize = at - w;
        let p: u8 = sim.env.elements.post_phase(sim.updated_cells[below].element_idx);
        if p == SOLID || p == NO_PHASE {
            push_substance_change(sim, at);
            break;
        }
        sim.swap(below, at);
        push_substance_change(sim, at);
        at = below;
    }
}

/// Whether a block may fall into a cell: it is not solid, not the void, and admits solids.
pub open spec fn takes_block(env: Env, c: Cell) -> bool {
    &&& env.elements.spec_post_phase(c.element_idx) < SOLID
    &&& c.element_idx != env.void_element_idx
    &&& !marked(c, SOLID_IMPERMEABLE)
}

fn can_take_block(env: &Env, c: Cell) -> (b: bool)
    ensures
        b == takes_block(*env, c),
{
    env.elements.post_phase(c.element_idx) < SOLID && c.element_idx != env.void_element_idx
        && !marked(c, SOLID_IMPERMEABLE)
}

/// The state after it is checked whether the block in a cell falls straight down. While its
/// timer runs it waits. Where it is supported its timer is set anew.
pub open spec fn checked_straight(env: Env, s: State, cell: int) -> State {
    let below = cell - env.width;
    if s.updated.len() == 0 || env.width == 0 || below < 0 {
        s
    } else {
        let b = s.updated[below];
        if env.elements.spec_post_process(b.element_idx) is None {
            s
        } else if takes_block(env, b) {
            let (t, ticks) = ticked(s, cell);
            if ticks != 0 {
                t
            } else if env.headless {
                dropped(env, t, cell)
            } else {
                let c = t.updated[cell];
                let mass = c.mass.times(num(ONE));
                let germs = weighted(c.disease_count, num(ONE));
                displacement::evaporated(
                    env,
                    fall_reported(env, t, cell, cell, mass, germs),
                    cell,
                )
            }
        } else {
            s.restless(cell)
        }
    }
}

/// Checks whether the block in a cell falls straight down.
pub fn do_unstable_check_basic(sim: &mut SimData, cell: usize)
    requires
        old(sim).wf(),
        cell < old(sim).env.cell_count(),
    ensures
        sim_data::stepped(
            *old(sim),
            *final(sim),
            checked_straight(old(sim).env, old(sim)@, cell as int),
        ),
{
    let w: usize = sim.env.width;
    if sim.updated_cells.len() == 0 || w == 0 || cell < w {
        return;
    }
    let b = sim.updated_cells[cell - w];
    if sim.env.elements.post_process(b.element_idx).is_none() {
        return;
    }
    if can_take_block(&sim.env, b) {
        if get_stable_ticks_remaining(sim, cell) == 0 {
            if sim.env.headless {
                headless_unstable_fall_simple_swap(sim, cell);
            } else {
                let c = sim.updated_cells[cell];
                let germs: i32 = weighted(c.disease_count, num(ONE));
                push_unstable_cell_info(sim, cell, cell, c.mass.times(num(ONE)), germs);
                do_evaporate(sim, cell);
            }
        }
        return;
    }
    sim.disturb(cell);
}

/// The state after `mass` and `germs` have left a cell.
pub open spec fn thinned(s: State, cell: int, mass: F32, germs: i32) -> State {
    let c = s.updated[cell];
    s.put(
        cell,
        (Cell { mass: c.mass.minus(mass).max(num(ZERO)), ..c }).with_disease_delta(
            0i32.wrapping_sub(germs),
        ),
    )
}

fn thin(sim: &mut SimData, cell: usize, mass: F32, germs: i32)
    requires
        old(sim).wf(),
        cell < old(sim)@.updated.len(),
    ensures
        sim_data::stepped(*old(sim), *final(sim), thinned(old(sim)@, cell as int, mass, germs)),
{
    let c = sim.updated_cells[cell];
    let c = Cell { mass: c.mass.minus(mass).max(num(ZERO)), ..c };
    sim.put(cell, c.with_disease_delta(0i32.wrapping_sub(germs)));
}

/// The state after the part `weight` of a block has moved to `goal`, whose content has been
/// pushed out where it could go, and has fallen on from there.
pub open spec fn slid(env: Env, s: State, cell: int, goal: int, weight: F32) -> State {
    let e = s.updated[goal].element_idx;
    let p = env.elements.spec_post_phase(e);
    if p == NO_PHASE {
        s
    } else {
        let a = if p == GAS {
            displacement::gas_displaced(env, s, goal, e)
        } else if p == LIQUID {
            displacement::liquid_displaced(env, s, goal, e).0
        } else {
            s
        };
        let c = a.updated[cell];
        let mass = c.mass.times(weight);
        let germs = weighted(c.disease_count, weight);
        let b = a.put(
            goal,
            Cell {
                element_idx: c.element_idx,
                mass,
                temperature: c.temperature,
                disease_idx: c.disease_idx,
                disease_count: germs,
                ..a.updated[goal]
            },
        );
        let d = thinned(b, cell, mass, germs).changed(env, goal).changed(env, cell);
        let e = if d.updated[cell].mass.le(num(LEAST_NORMAL)) {
            displacement::evaporated(env, d, cell)
        } else {
            d
        };
        dropped(env, e, goal)
    }
}

/// Moves part of a block aside and lets it fall on.
pub fn headless_diagonal_fall(sim: &mut SimData, cell: usize, candidate: usize, weight: F32)
    requires
        old(sim).wf(),
        cell < old(sim)@.updated.len(),
        candidate < old(sim)@.updated.len(),
    ensures
        sim_data::stepped(
            *old(sim),
            *final(sim),
            slid(old(sim).env, old(sim)@, cell as int, candidate as int, weight),
        ),
{
    let e: u16 = sim.updated_cells[candidate].element_idx;
    let p: u8 = sim.env.elements.post_phase(e);
    if p == NO_PHASE {
        return;
    }
    if p == GAS {
        displace_gas(sim, candidate, e);
    } else if p == LIQUID {
        displace_liquid(sim, candidate, e);
    }
    let c = sim.updated_cells[cell];
    let mass = c.mass.times(weight);
    let germs: i32 = weighted(c.disease_count, weight);
    let g = Cell {
        element_idx: c.element_idx,
        mass,
        temperature: c.temperature,
        disease_idx: c.disease_idx,
        disease_count: germs,
        ..sim.updated_cells[candidate]
    };
    sim.put(candidate, g);
    thin(sim, cell, mass, germs);
    push_substance_change(sim, candidate);
    push_substance_change(sim, cell);
    if sim.updated_cells[cell].mass.le(num(LEAST_NORMAL)) {
        do_evaporate(sim, cell);
    }
    headless_unstable_fall_simple_swap(sim, candidate);
}

/// A block on its way down in one of three directions: the state so far, whether a direction
/// was open, and the timer once it was asked.
pub ghost struct Slide {
    pub state: State,
    pub open: bool,
    pub ticks: Option<u8>,
}

/// Whether the block `c` may fall from `cell` to its neighbour at distance `d`. On the diagonal
/// the block must be heavy enough and the cell beside it open too.
pub open spec fn may_slide(env: Env, s: State, c: Cell, cell: int, d: int) -> bool {
    let straight = d == -env.width;
    match (
        sim_data::at(s.updated, cell + d),
        sim_data::at(s.updated, cell + d + env.width),
        env.elements.spec_post_process(c.element_idx),
    ) {
        (Some(goal), Some(above), Some(p)) => {
            &&& !c.mass.minus(
                (if straight {
                    num(ZERO)
                } else {
                    num(ONE)
                }).times(p.min_horizontal_flow),
            ).times(
                if straight {
                    num(ONE)
                } else {
                    num(HALF)
                },
            ).le(num(ZERO))
            &&& takes_block(env, goal)
            &&& env.elements.spec_post_phase(above.element_idx) != NO_PHASE
            &&& straight || (env.elements.spec_post_phase(above.element_idx) != SOLID && !marked(
                above,
                SOLID_IMPERMEABLE,
            ))
        },
        _ => false,
    }
}

fn can_slide(sim: &SimData, c: Cell, cell: usize, d: i64) -> (b: bool)
    requires
        sim.wf(),
        cell < sim@.updated.len(),
        -0x8000_0000 <= d <= 0x8000_0000,
    ensures
        b == may_slide(sim.env, sim@, c, cell as int, d as int),
{
    let w: i64 = sim.env.width as i64;
    let straight = d == -w;
    let n: i64 = cell as i64 + d;
    match (
        peek(&sim.updated_cells, n),
        peek(&sim.updated_cells, n + w),
        sim.env.elements.post_process(c.element_idx),
    ) {
        (Some(goal), Some(above), Some(p)) => {
            let threshold = if straight {
                num(ZERO)
            } else {
                num(ONE)
            };
            let weight = if straight {
                num(ONE)
            } else {
                num(HALF)
            };
            let q: u8 = sim.env.elements.post_phase(above.element_idx);
            !c.mass.minus(threshold.times(p.min_horizontal_flow)).times(weight).le(num(ZERO))
                && can_take_block(&sim.env, goal) && q != NO_PHASE && (straight || (q != SOLID
                && !marked(above, SOLID_IMPERMEABLE)))
        },
        _ => false,
    }
}

/// The state after the part `weight` of a block has fallen to `goal`. What is reported, and taken
/// off the cell, is that part of the block `c` as it was before it fell in any direction. Without
/// a viewer it is the part of what is left of the block that moves.
pub open spec fn shed(env: Env, s: State, c: Cell, cell: int, goal: int, weight: F32) -> State {
    let a = s.restless(cell);
    if env.headless {
        slid(env, a, cell, goal, weight)
    } else {
        let mass = c.mass.times(weight);
        let germs = weighted(c.disease_count, weight);
        let b = thinned(
            fall_reported(env, a, cell, goal, mass, germs),
            cell,
            mass,
            germs,
        ).changed(env, cell);
        if b.updated[cell].mass.le(num(ZERO)) {
            displacement::evaporated(env, b, cell)
        } else {
            b
        }
    }
}

fn shed_to(sim: &mut SimData, c: Cell, cell: usize, goal: usize, weight: F32)
    requires
        old(sim).wf(),
        cell < old(sim)@.updated.len(),
        goal < old(sim)@.updated.len(),
    ensures
        sim_data::stepped(
            *old(sim),
            *final(sim),
            shed(old(sim).env, old(sim)@, c, cell as int, goal as int, weight),
        ),
{
    sim.disturb(cell);
    if sim.env.headless {
        headless_diagonal_fall(sim, cell, goal, weight);
    } else {
        let mass = c.mass.times(weight);
        let germs: i32 = weighted(c.disease_count, weight);
        push_unstable_cell_info(sim, cell, goal, mass, germs);
        thin(sim, cell, mass, germs);
        push_substance_change(sim, cell);
        if sim.updated_cells[cell].mass.le(num(ZERO)) {
            do_evaporate(sim, cell);
        }
    }
}

/// One direction: where the way is open and the timer has run out, part of the block falls. The
/// timer is asked once for all three directions.
pub open spec fn slide(env: Env, c: Cell, cell: int, d: int, weight: F32, was: Slide) -> Slide {
    if !may_slide(env, was.state, c, cell, d) {
        was
    } else {
        let (t, ticks) = match was.ticks {
            Some(n) => (was.state, n),
            None => ticked(was.state, cell),
        };
        Slide {
            state: if ticks == 0 {
                shed(env, t, c, cell, cell + d, weight)
            } else {
                t
            },
            open: true,
            ticks: Some(ticks),
        }
    }
}

fn slide_to(sim: &mut SimData, c: Cell, cell: usize, d: i64, weight: F32, open: bool, ticks: Option<
    u8,
>) -> (r: (bool, Option<u8>))
    requires
        old(sim).wf(),
        cell < old(sim)@.updated.len(),
        -0x8000_0000 <= d <= 0x8000_0000,
    ensures
        ({
            let was = Slide { state: old(sim)@, open, ticks };
            let now = slide(old(sim).env, c, cell as int, d as int, weight, was);
            &&& sim_data::stepped(*old(sim), *final(sim), now.state)
            &&& r.0 == now.open
            &&& r.1 == now.ticks
        }),
{
    if !can_slide(sim, c, cell, d) {
        return (open, ticks);
    }
    let n: u8 = match ticks {
        Some(n) => n,
        None => get_stable_ticks_remaining(sim, cell),
    };
    if n == 0 {
        shed_to(sim, c, cell, (cell as i64 + d) as usize, weight);
    }
    (true, Some(n))
}

/// The state after it is checked whether the block in a cell falls, straight down or, half of
/// it each, diagonally to the left and to the right.
pub open spec fn checked_diagonally(env: Env, s: State, cell: int) -> State {
    if s.updated.len() == 0 || env.width == 0 || cell < env.width
        || env.elements.spec_post_process(s.updated[cell].element_idx) is None {
        s
    } else {
        let c = s.updated[cell];
        let w = env.width as int;
        let a = Slide { state: s, open: false, ticks: None };
        let b = slide(env, c, cell, -w, num(ONE), a);
        let d = slide(env, c, cell, -w - 1, num(HALF), b);
        let e = slide(env, c, cell, 1 - w, num(HALF), d);
        if e.open {
            e.state
        } else {
            e.state.restless(cell)
        }
    }
}

/// Checks whether the block in a cell falls, straight down or diagonally.
pub fn do_unstable_check_with_diagonals(sim: &mut SimData, cell: usize)
    requires
        old(sim).wf(),
        cell < old(sim).env.cell_count(),
    ensures
        sim_data::stepped(
            *old(sim),
            *final(sim),
            checked_diagonally(old(sim).env, old(sim)@, cell as int),
        ),
{
    let w: usize = sim.env.width;
    if sim.updated_cells.len() == 0 || w == 0 || cell < w {
        return;
    }
    let c = sim.updated_cells[cell];
    if sim.env.elements.post_process(c.element_idx).is_none() {
        return;
    }
    let (open, ticks) = slide_to(sim, c, cell, -(w as i64), num(ONE), false, None);
    let (open, ticks) = slide_to(sim, c, cell, -(w as i64) - 1, num(HALF), open, ticks);
    let (open, ticks) = slide_to(sim, c, cell, 1 - (w as i64), num(HALF), open, ticks);
    if !open {
        sim.disturb(cell);
    }
}

/// The state after it is checked whether the block in a cell falls. An option of the saved game
/// decides whether it may do so diagonally.
pub open spec fn checked(env: Env, s: State, cell: int) -> State {
    if env.saved_options & 1 != 0 {
        checked_diagonally(env, s, cell)
    } else {
        checked_straight(env, s, cell)
    }
}

/// Checks whether the block in a cell falls.
pub fn do_unstable_check(sim: &mut SimData, cell: usize)
    requires
        old(sim).wf(),
        cell < old(sim).env.cell_count(),
    ensures
        sim_data::stepped(*old(sim), *final(sim), checked(old(sim).env, old(sim)@, cell as int)),
{
    if sim.env.saved_options & 1 != 0 {
        do_unstable_check_with_diagonals(sim, cell);
    } else {
        do_unstable_check_basic(sim, cell);
    }
}

} // verus!
