//! How a liquid under too much pressure breaks walls.
use crate::cell::Cell;
use crate::constants::ONE;
use crate::constants::QUARTER;
use crate::constants::WALL_RESISTANCE;
use crate::constants::ZERO;
use crate::element::ElementPostProcessData;
use crate::element::phase;
use crate::element::LIQUID;
use crate::element::SOLID;
use crate::grid::marked;
use crate::grid::UNBREAKABLE;
use crate::number::num;
use crate::number::F32;
use crate::region_events::Event;
use crate::region_events::WorldDamageInfo;
use crate::sim_data;
use crate::sim_data::emit;
use crate::sim_data::peek;
use crate::sim_data::Env;
use crate::sim_data::SimData;
use crate::sim_data::State;
use vstd::prelude::*;

verus! {

broadcast use crate::region_events::group_events;

/// The most cells of wall that pressure reaches through.
pub const REACH: usize = 3;

/// The state bit of an element that cannot be broken.
pub const UNBREAKABLE_STATE: u8 = 4;

pub open spec fn spec_resistance(c: Cell, d: ElementPostProcessData) -> F32 {
    let natural = if c.strength_info >> 7 == 1 {
        num(ONE)
    } else {
        num(ZERO)
    };
    c.mass.over(d.max_mass).times(natural).plus(num(ONE).minus(natural)).times(d.strength).times(
        F32::from_i32((c.strength_info & 0x7f) as i32),
    ).times(num(QUARTER)).plus(num(WALL_RESISTANCE))
}

/// What a cell of wall adds to the resistance: its strength, in proportion to its mass where it
/// is natural, and a little more in any case.
#[verifier::when_used_as_spec(spec_resistance)]
pub fn resistance(c: Cell, d: ElementPostProcessData) -> (r: F32)
    ensures
        r == spec_resistance(c, d),
{
    let natural = if c.strength_info >> 7 == 1 {
        num(ONE)
    } else {
        num(ZERO)
    };
    c.mass.over(d.max_mass).times(natural).plus(num(ONE).minus(natural)).times(d.strength).times(
        F32::from_i32((c.strength_info & 0x7f) as i32),
    ).times(num(QUARTER)).plus(num(WALL_RESISTANCE))
}

/// What pressure meets on its way: the number of cells of wall and their resistance, and the
/// cell behind them.
#[derive(Clone, Copy, Debug)]
pub struct Wall {
    pub thickness: usize,
    pub resistance: F32,
    pub behind: Option<Cell>,
}

/// The wall that pressure `ratio` meets from `cell` on in steps of `offset`, after `k` cells
/// with a resistance of `sum`; nothing where it is held up, or leaves the grid. Behind a wall of
/// full reach it sees no cell.
pub open spec fn wall(
    env: Env,
    s: State,
    cell: int,
    offset: int,
    ratio: F32,
    k: int,
    sum: F32,
) -> Option<Wall>
    decreases REACH - k,
{
    if k >= REACH {
        Some(Wall { thickness: REACH, resistance: sum, behind: None })
    } else {
        match sim_data::at(s.updated, cell + offset) {
            None => None,
            Some(c) => match env.elements.spec_post_process(c.element_idx) {
                None => None,
                Some(d) => if phase(d.state) != SOLID {
                    Some(Wall { thickness: k as usize, resistance: sum, behind: Some(c) })
                } else if d.state & UNBREAKABLE_STATE != 0 || marked(c, UNBREAKABLE) {
                    None
                } else {
                    let r = sum.plus(resistance(c, d));
                    if ratio.lt(r) {
                        None
                    } else {
                        wall(env, s, cell + offset, offset, ratio, k + 1, r)
                    }
                },
            },
        }
    }
}

/// The number of cells of wall that a liquid in `cell` under pressure `ratio` breaks in one
/// direction, where it breaks through: one or two, weaker than the pressure less that of a
/// liquid behind them.
pub open spec fn breach(env: Env, s: State, cell: int, ratio: F32, offset: int) -> Option<int> {
    if s.events is None {
        None
    } else {
        match wall(env, s, cell, offset, ratio, 0, num(ONE)) {
            Some(Wall { thickness, resistance, behind: Some(c) }) => {
                let d = env.elements.spec_post_process(c.element_idx)->0;
                let excess = if phase(d.state) == LIQUID && num(ZERO).lt(c.mass) {
                    ratio.minus(c.mass.over(d.max_mass))
                } else {
                    ratio
                };
                if 1 <= thickness <= 2 && resistance.lt(ratio) && resistance.lt(excess) {
                    Some(thickness as int)
                } else {
                    None
                }
            },
            _ => None,
        }
    }
}

/// The state after damage by the liquid in `cell` to the next `n` cells in steps of `offset` is
/// reported.
pub open spec fn damaged(env: Env, s: State, cell: int, offset: int, n: int) -> State
    decreases n,
{
    if n <= 0 {
        s
    } else {
        let t = damaged(env, s, cell, offset, n - 1);
        let p = cell + offset * n;
        if env.on_game_grid(p) {
            t.emit(
                Event::WorldDamage(
                    WorldDamageInfo {
                        cell_idx: env.game_cell(p) as i32,
                        damage_source_cell_idx: env.game_cell(cell) as i32,
                    },
                ),
            )
        } else {
            t
        }
    }
}

/// Reports damage by the liquid in a cell to the next cells in one direction.
pub fn push_world_damage(sim: &mut SimData, cell: usize, offset: i64, solid_count: usize)
    requires
        old(sim).wf(),
        cell < old(sim).env.cell_count(),
        solid_count <= REACH,
        -0x8000_0000 <= offset <= 0x8000_0000,
        forall|i: int|
            1 <= i <= solid_count ==> 0 <= cell + #[trigger] (offset * i)
                < old(sim).env.cell_count(),
    ensures
        sim_data::stepped(
            *old(sim),
            *final(sim),
            damaged(old(sim).env, old(sim)@, cell as int, offset as int, solid_count as int),
        ),
{
    let source: i32 = sim.env.game_position(cell);
    let mut pos: i64 = cell as i64;
    let mut n: usize = 0;
    while n < solid_count
        invariant
            n <= solid_count,
            solid_count <= REACH,
            cell < sim.env.cell_count(),
            pos == cell + offset * n,
            -0x8000_0000 <= offset <= 0x8000_0000,
            n > 0 ==> 0 <= pos < sim.env.cell_count(),
            forall|i: int|
                1 <= i <= solid_count ==> 0 <= cell + #[trigger] (offset * i)
                    < sim.env.cell_count(),
            sim.wf(),
            sim.env == old(sim).env,
            sim_data::same_shape(old(sim)@, sim@),
            source == sim.env.game_cell(cell as int) as i32,
            sim@ == damaged(sim.env, old(sim)@, cell as int, offset as int, n as int),
        decreases solid_count - n,
    {
        proof {
            assert(offset * (n + 1) == offset * n + offset) by (nonlinear_arith);
            assert(0 <= cell + offset * (n + 1) < sim.env.cell_count());
        }
        pos = pos + offset;
        n = n + 1;
        match sim.env.game_index(pos as usize) {
            Some(g) => emit(
                sim,
                Event::WorldDamage(
                    WorldDamageInfo { cell_idx: g, damage_source_cell_idx: source },
                ),
            ),
            None => {},
        }
    }
}

/// Finds the wall that pressure meets. Every cell of it is inside the grid.
fn find_wall(sim: &SimData, cell: usize, offset: i64, ratio: F32) -> (w: Option<Wall>)
    requires
        sim.wf(),
        cell < sim.env.cell_count(),
        -0x8000_0000 <= offset <= 0x8000_0000,
    ensures
        w == wall(sim.env, sim@, cell as int, offset as int, ratio, 0, num(ONE)),
        w matches Some(x) ==> {
            &&& x.thickness <= REACH
            &&& forall|i: int|
                1 <= i <= x.thickness ==> 0 <= cell + #[trigger] (offset * i)
                    < sim.env.cell_count()
            &&& x.behind matches Some(c) ==> sim.env.elements.spec_post_process(
                c.element_idx,
            ) is Some
        },
{
    let mut sum = num(ONE);
    let mut pos: i64 = cell as i64;
    let mut k: usize = 0;
    while k < REACH
        invariant
            k <= REACH,
            sim.wf(),
            -0x8000_0000 <= offset <= 0x8000_0000,
            pos == cell + offset * k,
            0 <= pos < sim.env.cell_count(),
            forall|i: int|
                1 <= i <= k ==> 0 <= cell + #[trigger] (offset * i) < sim.env.cell_count(),
            wall(sim.env, sim@, cell as int, offset as int, ratio, 0, num(ONE)) == wall(
                sim.env,
                sim@,
                pos as int,
                offset as int,
                ratio,
                k as int,
                sum,
            ),
        decreases REACH - k,
    {
        proof {
            assert(offset * (k + 1) == offset * k + offset) by (nonlinear_arith);
        }
        pos = pos + offset;
        let c = match peek(&sim.updated_cells, pos) {
            Some(c) => c,
            None => return None,
        };
        let d = match sim.env.elements.post_process(c.element_idx) {
            Some(d) => d,
            None => return None,
        };
        if phase(d.state) != SOLID {
            return Some(Wall { thickness: k, resistance: sum, behind: Some(c) });
        }
        if d.state & UNBREAKABLE_STATE != 0 || marked(c, UNBREAKABLE) {
            return None;
        }
        sum = sum.plus(resistance(c, d));
        if ratio.lt(sum) {
            return None;
        }
        k = k + 1;
    }
    Some(Wall { thickness: REACH, resistance: sum, behind: None })
}

/// Lets a liquid under pressure break through a wall in one direction; false where it is held.
pub fn do_pressure_break(sim: &mut SimData, cell: usize, ratio: F32, offset: i64) -> (ok: bool)
    requires
        old(sim).wf(),
        cell < old(sim).env.cell_count(),
        -0x8000_0000 <= offset <= 0x8000_0000,
    ensures
        ok == (breach(old(sim).env, old(sim)@, cell as int, ratio, offset as int) is Some),
        sim_data::stepped(
            *old(sim),
            *final(sim),
            match breach(old(sim).env, old(sim)@, cell as int, ratio, offset as int) {
                Some(n) => damaged(old(sim).env, old(sim)@, cell as int, offset as int, n),
                None => old(sim)@,
            },
        ),
{
    if sim.sim_events.is_none() {
        return false;
    }
    match find_wall(sim, cell, offset, ratio) {
        Some(Wall { thickness, resistance, behind: Some(c) }) => {
            let mut excess = ratio;
            match sim.env.elements.post_process(c.element_idx) {
                Some(d) => {
                    if phase(d.state) == LIQUID && num(ZERO).lt(c.mass) {
                        excess = ratio.minus(c.mass.over(d.max_mass));
                    }
                },
                None => {},
            }
            if thickness >= 1 && thickness <= 2 && resistance.lt(ratio) && resistance.lt(excess) {
                push_world_damage(sim, cell, offset, thickness);
                return true;
            }
            false
        },
        _ => false,
    }
}

} // verus!
