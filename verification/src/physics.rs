//! A step of the whole simulation.
//!
//! Heat, the components of buildings and powers with fractional exponents are not part of this
//! library. A step asks for them: `update_data` begins it, `Substep::request` says what it waits
//! for, and `Substep::reply` goes on with the answer until nothing is left to ask.
use crate::constants::ZERO;
use crate::disease;
use crate::disease::growth_exponents;
use crate::disease::run_disease_diffusion_task;
use crate::disease::run_disease_growth_task;
use crate::gas_flow;
use crate::gas_flow::run_gas_displacement_task;
use crate::gas_flow::run_gas_pressure_task;
use crate::liquid_flow;
use crate::liquid_flow::update_liquid_loop;
use crate::number::num;
use crate::number::F32;
use crate::post_process;
use crate::post_process::no_closing;
use crate::post_process::post_process_loop;
use crate::post_process::Closing;
use crate::post_process::Pause;
use crate::pressure;
use crate::pressure::run_liquid_displacement_task;
use crate::radiation;
use crate::radiation::run_radiation_task;
use crate::sim_data;
use crate::sim_data::ActiveRegion;
use crate::sim_data::Env;
use crate::sim_data::RegionBounds;
use crate::sim_data::SimData;
use crate::sim_data::State;
use crate::space;
use crate::space::run_space_vacuum_task;
use vstd::prelude::*;

verus! {

broadcast use crate::region_events::group_events;

/// The state after the old buffer of cells has become like the new one.
pub open spec fn copied(s: State) -> State {
    if s.unallocated() {
        s
    } else {
        State { cells: s.updated, ..s }
    }
}

/// Makes the old buffer of cells like the new one.
pub fn copy_updated_cells_to_cells(sim: &mut SimData)
    requires
        old(sim).wf(),
    ensures
        sim_data::carried(*old(sim), *final(sim), copied(old(sim)@)),
{
    if sim.cells.len() == 0 || sim.updated_cells.len() == 0 {
        return;
    }
    let n: usize = sim.cells.len();
    let mut i: usize = 0;
    while i < n
        invariant
            i <= n,
            n == sim.cells@.len(),
            n == sim.updated_cells@.len(),
            sim.env == old(sim).env,
            sim@ == (State { cells: sim.cells@, ..old(sim)@ }),
            forall|j: int| 0 <= j < i ==> sim.cells@[j] == sim.updated_cells@[j],
        decreases n - i,
    {
        let c = sim.updated_cells[i];
        sim.cells.set(i, c);
        i = i + 1;
    }
    assert(sim.cells@ =~= sim.updated_cells@);
}

/// Whether a cell lies in a rectangle.
pub open spec fn lies_in(env: Env, b: RegionBounds, i: int) -> bool {
    let w = env.width as int;
    b.min_x <= i % w < b.max_x && b.min_y <= i / w < b.max_y
}

/// The state after the old buffer of cells has become like the new one in a rectangle.
pub open spec fn copied_in(env: Env, s: State, b: RegionBounds) -> State {
    if s.unallocated() {
        s
    } else {
        State {
            cells: Seq::new(
                s.cells.len(),
                |i: int|
                    if lies_in(env, b, i) {
                        s.updated[i]
                    } else {
                        s.cells[i]
                    },
            ),
            ..s
        }
    }
}

/// Makes the old buffer of cells like the new one in a rectangle.
pub fn copy_updated_cells_to_cells_region(sim: &mut SimData, b: RegionBounds)
    requires
        old(sim).wf(),
    ensures
        sim_data::carried(*old(sim), *final(sim), copied_in(old(sim).env, old(sim)@, b)),
{
    if sim.cells.len() == 0 || sim.updated_cells.len() == 0 {
        return;
    }
    let n: usize = sim.cells.len();
    let w: usize = sim.env.width;
    proof {
        assert(w > 0) by (nonlinear_arith)
            requires
                0 < n,
                n == w * sim.env.height,
        ;
    }
    let mut i: usize = 0;
    while i < n
        invariant
            i <= n,
            w > 0,
            w == sim.env.width,
            n == sim.cells@.len(),
            n == sim.updated_cells@.len(),
            n == old(sim)@.cells.len(),
            sim.env == old(sim).env,
            sim@ == (State { cells: sim.cells@, ..old(sim)@ }),
            forall|j: int|
                0 <= j < n ==> #[trigger] sim.cells@[j] == if j < i && lies_in(sim.env, b, j) {
                    sim.updated_cells@[j]
                } else {
                    old(sim)@.cells[j]
                },
        decreases n - i,
    {
        let x: usize = i % w;
        let y: usize = i / w;
        if b.min_x <= x && x < b.max_x && b.min_y <= y && y < b.max_y {
            let c = sim.updated_cells[i];
            sim.cells.set(i, c);
        }
        i = i + 1;
    }
    assert(sim.cells@ =~= copied_in(sim.env, old(sim)@, b).cells);
}

/// The state after the old buffer of cells has become like the new one, everywhere or, where
/// regions run side by side, in a region only.
pub open spec fn refreshed(env: Env, s: State, b: RegionBounds, parallel: bool) -> State {
    if parallel {
        copied_in(env, s, b)
    } else {
        copied(s)
    }
}

fn refresh(sim: &mut SimData, b: RegionBounds, parallel: bool)
    requires
        old(sim).wf(),
    ensures
        sim_data::carried(
            *old(sim),
            *final(sim),
            refreshed(old(sim).env, old(sim)@, b, parallel),
        ),
{
    if parallel {
        copy_updated_cells_to_cells_region(sim, b);
    } else {
        copy_updated_cells_to_cells(sim);
    }
}

pub open spec fn spec_full_grid_bounds(env: Env) -> RegionBounds {
    RegionBounds {
        min_x: 1,
        min_y: 1,
        max_x: if env.width == 0 {
            0
        } else {
            (env.width - 1) as usize
        },
        max_y: if env.height == 0 {
            0
        } else {
            (env.height - 1) as usize
        },
    }
}

/// The whole grid without its border.
pub fn full_grid_bounds(env: &Env) -> (b: RegionBounds)
    ensures
        b == spec_full_grid_bounds(*env),
{
    RegionBounds {
        min_x: 1,
        min_y: 1,
        max_x: if env.width == 0 {
            0
        } else {
            env.width - 1
        },
        max_y: if env.height == 0 {
            0
        } else {
            env.height - 1
        },
    }
}

/// The regions that a step goes through: the active ones, or the whole grid where there are
/// none.
pub open spec fn regions(env: Env) -> Seq<ActiveRegion> {
    if env.active_regions@.len() == 0 {
        seq![
            ActiveRegion {
                bounds: spec_full_grid_bounds(env),
                post_process_bounds: spec_full_grid_bounds(env),
                current_cosmic_radiation_intensity: num(ZERO),
            },
        ]
    } else {
        env.active_regions@
    }
}

/// The number of regions that a step goes through.
fn region_count(env: &Env) -> (n: usize)
    ensures
        n == regions(*env).len(),
{
    let n: usize = env.active_regions.len();
    if n == 0 {
        1
    } else {
        n
    }
}

/// The region with the given number, where there is one.
fn region_at(env: &Env, i: usize) -> (r: Option<ActiveRegion>)
    ensures
        r == if i < regions(*env).len() {
            Some(regions(*env)[i as int])
        } else {
            None
        },
{
    if env.active_regions.len() == 0 {
        if i == 0 {
            Some(
                ActiveRegion {
                    bounds: full_grid_bounds(env),
                    post_process_bounds: full_grid_bounds(env),
                    current_cosmic_radiation_intensity: num(ZERO),
                },
            )
        } else {
            None
        }
    } else if i < env.active_regions.len() {
        Some(env.active_regions[i])
    } else {
        None
    }
}

/// The state after the gases, liquids, germs and the radiation of a region have moved, once its
/// heat has. Each kind of movement starts from buffers that are alike.
pub open spec fn region_moved(
    env: Env,
    s: State,
    b: RegionBounds,
    cosmic: F32,
    parallel: bool,
) -> State {
    if b.is_empty() {
        s
    } else {
        let a = refreshed(env, s, b, parallel);
        let c = gas_flow::gases_pushed(env, gas_flow::gases_spread(env, a, b), b);
        let d = refreshed(env, c, b, parallel);
        let e = pressure::all_squeezed(env, liquid_flow::liquids_moved(env, d, b), b);
        let f = refreshed(env, e, b, parallel);
        radiation::irradiated(env, disease::germs_spread(env, f, b), b, cosmic)
    }
}

/// Moves the gases, liquids, germs and the radiation of a region.
pub fn run_region_physics_a(
    sim: &mut SimData,
    bounds: RegionBounds,
    cosmic_intensity: F32,
    parallel: bool,
)
    requires
        old(sim).wf(),
    ensures
        sim_data::carried(
            *old(sim),
            *final(sim),
            region_moved(old(sim).env, old(sim)@, bounds, cosmic_intensity, parallel),
        ),
{
    if bounds.is_empty() {
        return;
    }
    refresh(sim, bounds, parallel);
    run_gas_pressure_task(sim, bounds);
    run_gas_displacement_task(sim, bounds);
    refresh(sim, bounds, parallel);
    update_liquid_loop(sim, bounds);
    run_liquid_displacement_task(sim, bounds);
    refresh(sim, bounds, parallel);
    run_disease_diffusion_task(sim, bounds);
    run_radiation_task(sim, bounds, cosmic_intensity);
}

/// The state, and where the end of a region's turn first waits: what lies in `pp` loses matter to
/// space, then the closing pass over it begins.
pub open spec fn region_closing(env: Env, s: State, b: RegionBounds, pp: RegionBounds) -> (
    State,
    Closing,
) {
    if b.is_empty() {
        (s, no_closing())
    } else {
        post_process::closing(env, space::vented(env, s, pp), pp)
    }
}

/// Begins the end of a region's turn.
pub fn run_region_physics_c(
    sim: &mut SimData,
    bounds: RegionBounds,
    pp_bounds: RegionBounds,
) -> (c: Closing)
    requires
        old(sim).wf(),
    ensures
        sim_data::stepped(
            *old(sim),
            *final(sim),
            region_closing(old(sim).env, old(sim)@, bounds, pp_bounds).0,
        ),
        c == region_closing(old(sim).env, old(sim)@, bounds, pp_bounds).1,
        c.wf(final(sim).env, final(sim)@),
{
    if bounds.is_empty() {
        return no_closing();
    }
    run_space_vacuum_task(sim, pp_bounds);
    post_process_loop(sim, pp_bounds)
}

/// The state, and where the pass over all liquids first waits: they have moved, then the closing
/// pass begins.
pub open spec fn liquids_closing(env: Env, s: State) -> (State, Closing) {
    let b = spec_full_grid_bounds(env);
    post_process::closing(env, liquid_flow::liquids_moved(env, s, b), b)
}

/// Moves the liquids of the whole grid and begins the closing pass over it.
pub fn update_liquids(sim: &mut SimData) -> (c: Closing)
    requires
        old(sim).wf(),
    ensures
        sim_data::stepped(*old(sim), *final(sim), liquids_closing(old(sim).env, old(sim)@).0),
        c == liquids_closing(old(sim).env, old(sim)@).1,
        c.wf(final(sim).env, final(sim)@),
{
    let b = full_grid_bounds(&sim.env);
    update_liquid_loop(sim, b);
    post_process_loop(sim, b)
}

/// What a step waits for.
#[derive(Debug)]
pub enum Request {
    /// Natural solids in a rectangle are to get the strength that their mass gives them.
    Strengthen(RegionBounds),
    /// Heat is to flow in a rectangle.
    Heat(RegionBounds),
    /// The components in a rectangle are to do their work.
    Components(RegionBounds),
    /// Whether the gas in a cell melts a neighbour, given behind it, is to be answered.
    Melt(usize, usize),
    /// Whether the liquid in a cell changes phase by the heat of a neighbour, given behind it, is
    /// to be answered.
    Transition(usize, usize),
    /// Two to the power of each of these exponents is to be given.
    Powers(Vec<F32>),
    /// Nothing: the step is over.
    Nothing,
}

/// What is given to a step.
#[derive(Debug)]
pub enum Reply {
    /// What was asked for is done.
    Done,
    /// The answer to a question.
    Answer(bool),
    /// Powers of two.
    Powers(Vec<F32>),
}

impl Reply {
    pub open spec fn spec_answer(self) -> bool {
        self == Reply::Answer(true)
    }

    pub open spec fn spec_powers(self) -> Seq<F32> {
        match self {
            Reply::Powers(p) => p@,
            _ => Seq::empty(),
        }
    }

    /// The powers that are given.
    pub fn into_powers(self) -> (p: Vec<F32>)
        ensures
            p@ == self.spec_powers(),
    {
        match self {
            Reply::Powers(p) => p,
            _ => Vec::new(),
        }
    }

    /// The answer to a question; no answer is no.
    pub fn answer(&self) -> (b: bool)
        ensures
            b == self.spec_answer(),
    {
        match self {
            Reply::Answer(b) => *b,
            _ => false,
        }
    }
}

/// The stages of a region's turn.
#[derive(Clone, Copy, Debug)]
pub enum Stage {
    /// Before heat flows, natural solids get their strength.
    Strengthen,
    /// Heat flows.
    Heat,
    /// Components do their work.
    Components,
    /// Before the closing pass, natural solids get their strength again.
    Harden,
    /// The closing pass waits.
    Closing,
    /// Germs are about to grow.
    Growth,
    /// All regions are done.
    Over,
}

/// Where a step stands: in which region, at which stage, and where in its closing pass.
#[derive(Clone, Copy, Debug)]
pub struct Substep {
    pub region: usize,
    pub stage: Stage,
    pub closing: Closing,
}

/// The first region from `i` on with cells in it.
pub open spec fn next_region(env: Env, i: int) -> int
    decreases regions(env).len() - i,
{
    if i >= regions(env).len() || !regions(env)[i].bounds.is_empty() {
        i
    } else {
        next_region(env, i + 1)
    }
}

fn find_next_region(env: &Env, from: usize) -> (r: usize)
    requires
        from <= regions(*env).len(),
    ensures
        r == next_region(*env, from as int),
        from <= r <= regions(*env).len(),
{
    let n: usize = region_count(env);
    let mut i: usize = from;
    while i < n
        invariant
            from <= i <= n,
            n == regions(*env).len(),
            next_region(*env, from as int) == next_region(*env, i as int),
        decreases n - i,
    {
        match region_at(env, i) {
            Some(r) => {
                if !r.bounds.is_empty() {
                    return i;
                }
            },
            None => {},
        }
        i = i + 1;
    }
    i
}

/// The state and place where a step goes on with the first region from `i` on. Where there is
/// none it is over, and the clock has gone on.
pub open spec fn turned_to(env: Env, s: State, i: int) -> (State, Substep) {
    let n = next_region(env, i);
    if n < regions(env).len() {
        (s, Substep { region: n as usize, stage: Stage::Strengthen, closing: no_closing() })
    } else {
        (
            State { tick_count: s.tick_count.wrapping_add(1), ..s },
            Substep { region: n as usize, stage: Stage::Over, closing: no_closing() },
        )
    }
}

fn turn_to(sim: &mut SimData, i: usize) -> (step: Substep)
    requires
        old(sim).wf(),
        i <= regions(old(sim).env).len(),
    ensures
        sim_data::passed(*old(sim), *final(sim), turned_to(old(sim).env, old(sim)@, i as int).0),
        step == turned_to(old(sim).env, old(sim)@, i as int).1,
        step.wf(final(sim).env, final(sim)@),
        step.region >= i,
{
    let n: usize = find_next_region(&sim.env, i);
    let closing = no_closing();
    if region_at(&sim.env, n).is_some() {
        Substep { region: n, stage: Stage::Strengthen, closing }
    } else {
        sim.tick_count = sim.tick_count.wrapping_add(1);
        Substep { region: n, stage: Stage::Over, closing }
    }
}

/// The state and place after a step was begun: the direction has turned, and the old buffer of
/// cells is like the new one.
pub open spec fn step_begun(env: Env, s: State) -> (State, Substep) {
    turned_to(
        env,
        copied(State { iterate_direction: 0i32.wrapping_sub(s.iterate_direction), ..s }),
        0,
    )
}

/// Begins a step.
pub fn update_data(sim: &mut SimData) -> (step: Substep)
    requires
        old(sim).wf(),
    ensures
        sim_data::passed(*old(sim), *final(sim), step_begun(old(sim).env, old(sim)@).0),
        step == step_begun(old(sim).env, old(sim)@).1,
        step.wf(final(sim).env, final(sim)@),
        final(sim)@.tick_count == if step.stage is Over {
            old(sim)@.tick_count.wrapping_add(1)
        } else {
            old(sim)@.tick_count
        },
{
    sim.iterate_direction = 0i32.wrapping_sub(sim.iterate_direction);
    copy_updated_cells_to_cells(sim);
    turn_to(sim, 0)
}

impl Substep {
    /// A step that is not over is in a region, and where its closing pass waits it waits inside
    /// the grid.
    pub open spec fn wf(self, env: Env, s: State) -> bool {
        &&& self.region <= regions(env).len()
        &&& !(self.stage is Over) ==> self.region < regions(env).len()
        &&& self.stage is Closing ==> self.closing.pause != Pause::Done && self.closing.wf(env, s)
    }

    /// The state and place once the closing pass has come to where it waits next, or to its end,
    /// where germs are about to grow.
    pub open spec fn closed(self, r: (State, Closing)) -> (State, Substep) {
        (
            r.0,
            Substep {
                stage: if r.1.pause == Pause::Done {
                    Stage::Growth
                } else {
                    Stage::Closing
                },
                closing: r.1,
                ..self
            },
        )
    }

    /// The state and place where the step waits next, once it is given a reply.
    pub open spec fn replied(self, env: Env, s: State, reply: Reply) -> (State, Substep) {
        let r = regions(env)[self.region as int];
        match self.stage {
            Stage::Strengthen => (s, Substep { stage: Stage::Heat, ..self }),
            Stage::Heat => (
                region_moved(
                    env,
                    s,
                    r.bounds,
                    r.current_cosmic_radiation_intensity,
                    false,
                ),
                Substep { stage: Stage::Components, ..self },
            ),
            Stage::Components => (s, Substep { stage: Stage::Harden, ..self }),
            Stage::Harden => self.closed(
                region_closing(env, s, r.bounds, r.post_process_bounds),
            ),
            Stage::Closing => self.closed(self.closing.answered(env, s, reply.spec_answer())),
            Stage::Growth => turned_to(
                env,
                disease::germs_grown(env, s, r.bounds, reply.spec_powers()),
                self.region + 1,
            ),
            Stage::Over => (s, self),
        }
    }

    /// Whether the step is over or is in a region, and the cell that waits is there.
    pub fn is_valid(&self, sim: &SimData) -> (b: bool)
        requires
            sim.wf(),
        ensures
            b == self.wf(sim.env, sim@),
    {
        let n: usize = region_count(&sim.env);
        match self.stage {
            Stage::Over => self.region <= n,
            Stage::Closing => self.region < n && !self.closing.is_over() && self.closing.is_valid(
                sim,
            ),
            _ => self.region < n,
        }
    }

    /// The number of the stage in a region's turn.
    pub open spec fn stage_number(self) -> int {
        match self.stage {
            Stage::Strengthen => 0,
            Stage::Heat => 1,
            Stage::Components => 2,
            Stage::Harden => 3,
            Stage::Closing => 4,
            Stage::Growth => 5,
            Stage::Over => 6,
        }
    }

    /// Whether the step stands at an earlier point than `later`: in an earlier region, at an
    /// earlier stage, or at an earlier point of the closing pass.
    pub open spec fn precedes(self, env: Env, later: Substep) -> bool {
        ||| self.region < later.region
        ||| self.region == later.region && self.stage_number() < later.stage_number()
        ||| self.region == later.region && self.stage is Closing && later.stage is Closing
            && self.closing.precedes(env, later.closing)
    }

    /// What the step waits for.
    pub fn request(&self, sim: &SimData) -> (q: Request)
        requires
            sim.wf(),
            self.wf(sim.env, sim@),
        ensures
            match self.stage {
                Stage::Strengthen | Stage::Harden => q == Request::Strengthen(
                    regions(sim.env)[self.region as int].bounds,
                ),
                Stage::Heat => q == Request::Heat(regions(sim.env)[self.region as int].bounds),
                Stage::Components => q == Request::Components(
                    regions(sim.env)[self.region as int].bounds,
                ),
                Stage::Closing => {
                    let cell = self.closing.place(sim.env);
                    let n = post_process::beside(sim.env, cell, self.closing.pause.side()->0);
                    &&& 0 <= cell < sim.env.cell_count()
                    &&& 0 <= n < sim.env.cell_count()
                    &&& if self.closing.pause is Melt {
                        q == Request::Melt(cell as usize, n as usize)
                    } else {
                        q == Request::Transition(cell as usize, n as usize)
                    }
                },
                Stage::Growth => q is Powers && q->Powers_0@ == disease::needed_exponents(
                    sim.env,
                    sim@,
                    regions(sim.env)[self.region as int].bounds,
                ),
                Stage::Over => q == Request::Nothing,
            },
    {
        let r = match region_at(&sim.env, self.region) {
            Some(r) => r,
            None => return Request::Nothing,
        };
        match self.stage {
            Stage::Strengthen | Stage::Harden => Request::Strengthen(r.bounds),
            Stage::Heat => Request::Heat(r.bounds),
            Stage::Components => Request::Components(r.bounds),
            Stage::Closing => {
                let cell: usize = self.closing.cell(sim);
                let n: usize = self.closing.neighbour(sim);
                match self.closing.pause {
                    Pause::Melt { .. } => Request::Melt(cell, n),
                    _ => Request::Transition(cell, n),
                }
            },
            Stage::Growth => {
                Request::Powers(growth_exponents(sim, r.bounds))
            },
            Stage::Over => Request::Nothing,
        }
    }

    /// Goes on with a reply to where the step waits next.
    pub fn reply(&mut self, sim: &mut SimData, reply: Reply)
        requires
            old(sim).wf(),
            old(self).wf(old(sim).env, old(sim)@),
        ensures
            ({
                let r = old(self).replied(old(sim).env, old(sim)@, reply);
                &&& sim_data::passed(*old(sim), *final(sim), r.0)
                &&& *final(self) == r.1
            }),
            final(self).wf(final(sim).env, final(sim)@),
            old(self).stage is Over || old(self).precedes(old(sim).env, *final(self)),
            final(sim)@.iterate_direction == old(sim)@.iterate_direction,
            final(sim)@.tick_count == if final(self).stage is Over && !(old(self).stage is Over) {
                old(sim)@.tick_count.wrapping_add(1)
            } else {
                old(sim)@.tick_count
            },
    {
        let r = match region_at(&sim.env, self.region) {
            Some(r) => r,
            None => return ,
        };
        let count: usize = region_count(&sim.env);
        match self.stage {
            Stage::Strengthen => {
                self.stage = Stage::Heat;
            },
            Stage::Heat => {
                run_region_physics_a(
                    sim,
                    r.bounds,
                    r.current_cosmic_radiation_intensity,
                    false,
                );
                self.stage = Stage::Components;
            },
            Stage::Components => {
                self.stage = Stage::Harden;
            },
            Stage::Harden => {
                self.closing = run_region_physics_c(sim, r.bounds, r.post_process_bounds);
                self.stage = if self.closing.is_over() {
                    Stage::Growth
                } else {
                    Stage::Closing
                };
            },
            Stage::Closing => {
                let mut c = self.closing;
                c.reply(sim, reply.answer());
                self.closing = c;
                self.stage = if self.closing.is_over() {
                    Stage::Growth
                } else {
                    Stage::Closing
                };
            },
            Stage::Growth => {
                run_disease_growth_task(sim, r.bounds, reply.into_powers());
                *self = turn_to(sim, self.region + 1);
            },
            Stage::Over => {},
        }
    }
}

/// Brings the events of all workers together. There is one worker, which reports straight to the
/// world, so nothing is left to do.
pub fn consolidate_events(sim: &mut SimData)
    ensures
        *final(sim) == *old(sim),
{
}

/// Refreshes what components report where no time passes. What they report is kept outside of
/// the world, so that stays as it is.
pub fn update_components_data_list_only(sim: &mut SimData)
    ensures
        *final(sim) == *old(sim),
{
}

} // verus!
