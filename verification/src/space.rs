//! What is exposed to space is lost to it.
use crate::cell::Cell;
use crate::constants::FIFTIETH;
use crate::constants::MINUS_THREE_TENTHS;
use crate::constants::ONE;
use crate::constants::THOUSAND;
use crate::constants::THREE_TENTHS;
use crate::constants::ZERO;
use crate::element::GAS;
use crate::element::LIQUID;
use crate::number::num;
use crate::number::F32;
use crate::sim_data;
use crate::sim_data::Env;
use crate::sim_data::RegionBounds;
use crate::sim_data::SimData;
use crate::sim_data::State;
use crate::sim_data::Vector4f;
use crate::sweep;
use crate::sweep::sweep_inner;
use crate::sweep::Pass;
use vstd::prelude::*;

verus! {

broadcast use crate::region_events::group_events;

/// The zone of a cell outside of all worlds.
pub const SPACE_ZONE: u8 = 0xff;

pub open spec fn spec_drift() -> Vector4f {
    Vector4f {
        x: num(MINUS_THREE_TENTHS),
        y: num(THREE_TENTHS),
        z: num(THREE_TENTHS),
        w: num(MINUS_THREE_TENTHS),
    }
}

/// The flow out of a cell that is exposed to space.
#[verifier::when_used_as_spec(spec_drift)]
pub fn drift() -> (v: Vector4f)
    ensures
        v == spec_drift(),
{
    Vector4f {
        x: num(MINUS_THREE_TENTHS),
        y: num(THREE_TENTHS),
        z: num(THREE_TENTHS),
        w: num(MINUS_THREE_TENTHS),
    }
}

/// What a phase loses to space in a second; solids and what is empty lose nothing.
pub open spec fn spec_loss_rate(p: u8) -> Option<F32> {
    if p == GAS {
        Some(num(ONE))
    } else if p == LIQUID {
        Some(num(THOUSAND))
    } else {
        None
    }
}

/// What a phase loses to space in a second; solids and what is empty lose nothing.
#[verifier::when_used_as_spec(spec_loss_rate)]
pub fn loss_rate(p: u8) -> (r: Option<F32>)
    ensures
        r == spec_loss_rate(p),
{
    if p == GAS {
        Some(num(ONE))
    } else if p == LIQUID {
        Some(num(THOUSAND))
    } else {
        None
    }
}

pub open spec fn spec_drained(mass: F32, rate: F32) -> F32 {
    let m = mass.minus(rate.times(num(FIFTIETH)));
    if m.le(num(ZERO)) {
        num(ZERO)
    } else {
        m
    }
}

/// The mass that is left after a step of loss.
#[verifier::when_used_as_spec(spec_drained)]
pub fn drained(mass: F32, rate: F32) -> (m: F32)
    ensures
        m == spec_drained(mass, rate),
{
    let m = mass.minus(rate.times(num(FIFTIETH)));
    if m.le(num(ZERO)) {
        num(ZERO)
    } else {
        m
    }
}

/// The loss to space, cell by cell.
pub struct SpacePass;

impl Pass for SpacePass {
    open spec fn ready(&self, env: Env, s: State) -> bool {
        &&& env.world_zones@.len() != 0
        &&& env.backwall@.len() != 0
        &&& s.updated.len() != 0
        &&& s.flow.len() != 0
    }

    /// A cell in space without a back wall loses some of its gas or liquid.
    open spec fn effect(&self, env: Env, s: State, y: int, x: int) -> State {
        let cell = y * env.width + x;
        let c = s.updated[cell];
        if env.world_zones@[cell] != SPACE_ZONE || env.backwall@[cell]
            != env.backwall_vacuum_element_idx {
            s
        } else {
            match loss_rate(env.elements.spec_post_phase(c.element_idx)) {
                Some(rate) => s.put(
                    cell,
                    Cell { mass: drained(c.mass, rate), ..c },
                ).with_flow(cell, drift()),
                None => s,
            }
        }
    }

    proof fn stays_ready(&self, env: Env, s: State, y: int, x: int) {
    }

    fn visit(&self, sim: &mut SimData, y: usize, x: usize, cell: usize) {
        if sim.env.world_zones[cell] != SPACE_ZONE || sim.env.backwall[cell]
            != sim.env.backwall_vacuum_element_idx {
            return;
        }
        let c = sim.updated_cells[cell];
        match loss_rate(sim.env.elements.post_phase(c.element_idx)) {
            Some(rate) => {
                sim.put(cell, Cell { mass: drained(c.mass, rate), ..c });
                sim.set_flow(cell, drift());
            },
            None => {},
        }
    }
}

/// The state after a rectangle has lost matter to space. Cells in the last row and column of
/// the grid lose none.
pub open spec fn vented(env: Env, s: State, b: RegionBounds) -> State {
    if env.width < 3 || env.height < 3 || !SpacePass.ready(env, s) {
        s
    } else {
        sweep::inner(SpacePass, env, s, b)
    }
}

/// Lets a rectangle lose matter to space.
pub fn run_space_vacuum_task(sim: &mut SimData, bounds: RegionBounds)
    requires
        old(sim).wf(),
    ensures
        sim_data::stepped(*old(sim), *final(sim), vented(old(sim).env, old(sim)@, bounds)),
{
    if sim.env.world_zones.len() == 0 || sim.env.backwall.len() == 0 || sim.updated_cells.len()
        == 0 || sim.flow.len() == 0 {
        return;
    }
    if sim.env.width < 3 || sim.env.height < 3 {
        return;
    }
    sweep_inner(&SpacePass, sim, bounds);
}

} // verus!
