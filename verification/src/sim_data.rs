//! The world: its grids, its clock and random numbers, and its event buffers.
use crate::cell::Cell;
use crate::constants::RANDOM_SCALE;
use crate::element::ElementsTable;
use crate::germs::DiseaseTable;
use crate::number::num;
use crate::number::F32;
use crate::region_events;
use crate::region_events::Event;
use crate::region_events::EventLog;
use crate::region_events::RegionEvents;
use crate::region_events::SpawnFXInfo;
use crate::region_events::SubstanceChangeInfo;
use vstd::prelude::*;

verus! {

broadcast use region_events::group_events;

/// The timer bits that count the ticks until a cell is stable.
pub const STABLE_BITS: u8 = 0x1f;

/// The flow out of a cell: to the left, right, below and above.
#[derive(Clone, Copy, Debug)]
pub struct Vector4f {
    pub x: F32,
    pub y: F32,
    pub z: F32,
    pub w: F32,
}

/// A component of a flow.
#[derive(Clone, Copy, Debug)]
pub enum Side {
    Left,
    Right,
    Down,
    Up,
}

impl Vector4f {
    pub open spec fn spec_with(self, side: Side, amount: F32) -> Vector4f {
        match side {
            Side::Left => Vector4f { x: self.x.plus(amount), ..self },
            Side::Right => Vector4f { y: self.y.plus(amount), ..self },
            Side::Down => Vector4f { z: self.z.plus(amount), ..self },
            Side::Up => Vector4f { w: self.w.plus(amount), ..self },
        }
    }

    /// The flow with `amount` more to one side.
    #[verifier::when_used_as_spec(spec_with)]
    pub fn with(self, side: Side, amount: F32) -> (r: Vector4f)
        ensures
            r == self.spec_with(side, amount),
    {
        match side {
            Side::Left => Vector4f { x: self.x.plus(amount), ..self },
            Side::Right => Vector4f { y: self.y.plus(amount), ..self },
            Side::Down => Vector4f { z: self.z.plus(amount), ..self },
            Side::Up => Vector4f { w: self.w.plus(amount), ..self },
        }
    }
}

/// A rectangle of cells: columns `min_x..max_x` of rows `min_y..max_y`.
#[derive(Clone, Copy, Debug)]
pub struct RegionBounds {
    pub min_x: usize,
    pub min_y: usize,
    pub max_x: usize,
    pub max_y: usize,
}

impl RegionBounds {
    pub open spec fn spec_is_empty(self) -> bool {
        self.min_x >= self.max_x || self.min_y >= self.max_y
    }

    /// Whether no cell lies in the rectangle.
    #[verifier::when_used_as_spec(spec_is_empty)]
    pub fn is_empty(self) -> (b: bool)
        ensures
            b == self.spec_is_empty(),
    {
        self.min_x >= self.max_x || self.min_y >= self.max_y
    }
}

/// A discovered part of the world: where its physics runs, where its closing pass runs, and
/// the cosmic radiation that falls on it.
#[derive(Clone, Copy, Debug)]
pub struct ActiveRegion {
    pub bounds: RegionBounds,
    pub post_process_bounds: RegionBounds,
    pub current_cosmic_radiation_intensity: F32,
}

/// Where a world lies on the game grid.
#[derive(Clone, Copy, Debug)]
pub struct WorldOffsetData {
    pub offset_x: i32,
    pub offset_y: i32,
    pub width: i32,
    pub height: i32,
}

/// Random numbers of a region that runs on its own.
#[derive(Clone, Copy, Debug)]
pub struct RegionRng {
    pub random_seed: u32,
    pub displacement_direction: i32,
}

/// What the physics reads and never writes. A grid that is empty is absent.
#[derive(Debug)]
pub struct Env {
    pub width: usize,
    pub height: usize,
    pub num_game_cells: i32,
    pub vacuum_element_idx: u16,
    pub void_element_idx: u16,
    pub unobtanium_element_idx: u16,
    pub headless: bool,
    pub is_debug_editing: bool,
    pub saved_options: u32,
    pub radiation_enabled: bool,
    pub radiation_max_mass: F32,
    pub radiation_linger_rate: F32,
    pub radiation_base_weight: F32,
    pub radiation_density_weight: F32,
    pub radiation_constructed_factor: F32,
    pub elements: ElementsTable,
    pub diseases: Option<DiseaseTable>,
    pub world_zones: Vec<u8>,
    pub backwall_vacuum_element_idx: u16,
    pub backwall: Vec<u16>,
    pub visible_grid: Vec<u8>,
    pub active_regions: Vec<ActiveRegion>,
    pub worlds: Vec<WorldOffsetData>,
}

impl Env {
    /// The number of cells.
    pub open spec fn cell_count(self) -> int {
        self.width * self.height
    }

    /// Cell indices fit the signed 32-bit indices that events carry.
    pub open spec fn wf(self) -> bool {
        &&& self.width <= i32::MAX
        &&& self.height <= i32::MAX
        &&& self.cell_count() <= i32::MAX
        &&& self.world_zones@.len() == 0 || self.world_zones@.len() == self.cell_count()
        &&& self.backwall@.len() == 0 || self.backwall@.len() == self.cell_count()
        &&& self.visible_grid@.len() == 0 || self.visible_grid@.len() >= self.num_game_cells
    }

    /// Whether a grid of `n` entries is absent or covers all cells.
    fn is_covered(&self, n: usize) -> (b: bool)
        requires
            self.width <= i32::MAX,
            self.height <= i32::MAX,
        ensures
            b == (n == 0 || n == self.cell_count()),
    {
        proof {
            assert(0 <= self.width * self.height <= 0x7fff_ffff * 0x7fff_ffff) by (nonlinear_arith)
                requires
                    0 <= self.width <= 0x7fff_ffff,
                    0 <= self.height <= 0x7fff_ffff,
            ;
        }
        n == 0 || n as u64 == self.width as u64 * self.height as u64
    }

    /// Whether the sizes of all grids agree.
    pub fn is_valid(&self) -> (b: bool)
        ensures
            b == self.wf(),
    {
        if self.width > i32::MAX as usize || self.height > i32::MAX as usize {
            return false;
        }
        proof {
            assert(0 <= self.width * self.height <= 0x7fff_ffff * 0x7fff_ffff) by (nonlinear_arith)
                requires
                    0 <= self.width <= 0x7fff_ffff,
                    0 <= self.height <= 0x7fff_ffff,
            ;
        }
        let n: i32 = self.num_game_cells;
        self.width as u64 * self.height as u64 <= i32::MAX as u64 && self.is_covered(
            self.world_zones.len(),
        ) && self.is_covered(self.backwall.len()) && (self.visible_grid.len() == 0 || n <= 0
            || self.visible_grid.len() >= n as usize)
    }

    /// The index of a cell on the game grid, which lacks the border.
    pub open spec fn game_cell(self, cell: int) -> int {
        (cell % self.width as int - 1) + (cell / self.width as int - 1) * (self.width - 2)
    }

    /// Whether a cell is on the game grid.
    pub open spec fn on_game_grid(self, cell: int) -> bool {
        0 <= self.game_cell(cell) < self.num_game_cells
    }

    /// The number of cells.
    pub fn total(&self) -> (n: usize)
        requires
            self.wf(),
        ensures
            n == self.cell_count(),
    {
        self.width * self.height
    }

    /// The index of a cell on the game grid; of a cell beside it, an index that is none.
    pub fn game_position(&self, cell: usize) -> (g: i32)
        requires
            self.wf(),
            cell < self.cell_count(),
        ensures
            g == self.game_cell(cell as int),
    {
        let w: i64 = self.width as i64;
        proof {
            assert(w > 0) by (nonlinear_arith)
                requires
                    cell < self.width * self.height,
                    w == self.width,
                    cell >= 0,
            ;
            let r: int = cell as int / w as int;
            vstd::arithmetic::div_mod::lemma_fundamental_div_mod(cell as int, w as int);
            let c: int = cell as int % w as int;
            assert(0 <= r <= cell) by (nonlinear_arith)
                requires
                    cell == w * r + c,
                    0 <= c < w,
                    w > 0,
                    cell >= 0,
            ;
            assert(-0x8000_0000 <= (r - 1) * (w - 2) && (c - 1) + (r - 1) * (w - 2) <= cell && (r
                - 1) * (w - 2) + c - 1 >= -0x8000_0000) by (nonlinear_arith)
                requires
                    cell == w * r + c,
                    0 <= c < w,
                    0 <= r <= cell,
                    0 < w <= 0x7fff_ffff,
                    cell < 0x7fff_ffff,
            ;
        }
        let g: i64 = (cell as i64 % w - 1) + (cell as i64 / w - 1) * (w - 2);
        g as i32
    }

    /// The index of a cell on the game grid, where it is on it.
    pub fn game_index(&self, cell: usize) -> (g: Option<i32>)
        requires
            self.wf(),
            cell < self.cell_count(),
        ensures
            g == if self.on_game_grid(cell as int) {
                Some(self.game_cell(cell as int) as i32)
            } else {
                None
            },
    {
        let g: i32 = self.game_position(cell);
        if g >= 0 && g < self.num_game_cells {
            Some(g)
        } else {
            None
        }
    }
}

/// What the physics writes: both buffers of cells, the flows, the timers, the clock and the
/// random numbers, and the events so far.
#[verifier::ext_equal]
pub ghost struct State {
    pub cells: Seq<Cell>,
    pub updated: Seq<Cell>,
    pub flow: Seq<Vector4f>,
    pub accumulated_flow: Seq<F32>,
    pub timers: Seq<u8>,
    pub events: Option<EventLog>,
    pub sink: Option<EventLog>,
    pub region_rng: Option<RegionRng>,
    pub random_seed: u32,
    pub displacement_direction: i32,
    pub tick_count: u32,
    pub iterate_direction: i32,
}

/// The marks of a place, which stay there whatever comes and goes.
pub open spec fn marks(c: Cell) -> (u8, u8) {
    (c.properties, c.strength_info)
}

/// What a step as a whole leaves alone is the same in two states: the sizes of the grids and the
/// marks of each place. Events have only been added.
pub open spec fn same_world(a: State, b: State) -> bool {
    &&& forall|i: int|
        0 <= i < a.updated.len() ==> marks(#[trigger] b.updated[i]) == marks(a.updated[i])
    &&& region_events::only_added(a.events, b.events)
    &&& region_events::only_added(a.sink, b.sink)
    &&& a.events is Some == b.events is Some
    &&& a.sink is Some == b.sink is Some
    &&& a.cells.len() == b.cells.len()
    &&& a.updated.len() == b.updated.len()
    &&& a.flow.len() == b.flow.len()
    &&& a.accumulated_flow.len() == b.accumulated_flow.len()
    &&& a.timers.len() == b.timers.len()
}

/// What no part of a step touches is the same in two states: besides all that, the clock and the
/// direction of the step.
pub open spec fn same_step(a: State, b: State) -> bool {
    &&& same_world(a, b)
    &&& a.tick_count == b.tick_count
    &&& a.iterate_direction == b.iterate_direction
}

/// What a stage of a step leaves alone is the same in two states: besides all that, the old
/// buffer of cells.
pub open spec fn same_shape(a: State, b: State) -> bool {
    &&& same_step(a, b)
    &&& a.cells == b.cells
}

/// The grid `s` is absent or covers all cells.
pub open spec fn covers<T>(env: Env, s: Seq<T>) -> bool {
    s.len() == 0 || s.len() == env.cell_count()
}

/// The entry of a buffer at `i`, where there is one.
pub open spec fn at(cells: Seq<Cell>, i: int) -> Option<Cell> {
    if 0 <= i < cells.len() {
        Some(cells[i])
    } else {
        None
    }
}

/// The seed that follows `seed`.
pub open spec fn next_seed(seed: u32) -> u32 {
    seed.wrapping_mul(0x343fd).wrapping_add(0x269ec3)
}

/// The random number that a seed gives: fifteen of its bits, as a fraction.
pub open spec fn fraction_of(seed: u32) -> F32 {
    F32::from_i32(((seed >> 16) & 0x7fff) as i32).times(num(RANDOM_SCALE))
}

impl State {
    /// The grids are absent or cover all cells of `env`.
    pub open spec fn fits(self, env: Env) -> bool {
        &&& covers(env, self.cells)
        &&& covers(env, self.updated)
        &&& covers(env, self.flow)
        &&& covers(env, self.accumulated_flow)
        &&& covers(env, self.timers)
    }

    /// Whether a buffer of cells is missing.
    pub open spec fn unallocated(self) -> bool {
        self.cells.len() == 0 || self.updated.len() == 0
    }

    /// The state with cell `i` of the new buffer replaced.
    pub open spec fn put(self, i: int, c: Cell) -> State {
        State { updated: self.updated.update(i, c), ..self }
    }

    /// The state with one event more, in the region's buffer where there is one.
    pub open spec fn emit(self, e: Event) -> State {
        match self.sink {
            Some(log) => State { sink: Some(log.record(e)), ..self },
            None => match self.events {
                Some(log) => State { events: Some(log.record(e)), ..self },
                None => self,
            },
        }
    }

    /// The state with a cell marked as just changed.
    pub open spec fn restless(self, i: int) -> State {
        if self.timers.len() == 0 {
            self
        } else {
            State { timers: self.timers.update(i, self.timers[i] | STABLE_BITS), ..self }
        }
    }

    /// The state after the change of a cell's substance is reported.
    pub open spec fn changed(self, env: Env, i: int) -> State {
        if self.events is None {
            self
        } else if env.on_game_grid(i) {
            self.emit(
                Event::SubstanceChange(
                    SubstanceChangeInfo {
                        cell_idx: env.game_cell(i) as i32,
                        old_element_idx: 0xffff,
                        new_element_idx: 0xffff,
                    },
                ),
            ).restless(i)
        } else {
            self.restless(i)
        }
    }

    /// The state after a visual effect at a cell is reported.
    pub open spec fn shown(self, env: Env, i: int, fx_id: i32, rotation: F32) -> State {
        if self.events is Some && env.on_game_grid(i) {
            self.emit(
                Event::SpawnFX(
                    SpawnFXInfo { cell_idx: env.game_cell(i) as i32, fx_id, rotation },
                ),
            )
        } else {
            self
        }
    }

    /// The state with `amount` more of flow to one side of a cell.
    pub open spec fn flowed(self, i: int, side: Side, amount: F32) -> State {
        if self.flow.len() == 0 {
            self
        } else {
            State { flow: self.flow.update(i, self.flow[i].with(side, amount)), ..self }
        }
    }

    /// The state with the flow of a cell replaced.
    pub open spec fn with_flow(self, i: int, v: Vector4f) -> State {
        if self.flow.len() == 0 {
            self
        } else {
            State { flow: self.flow.update(i, v), ..self }
        }
    }

    /// The state with `amount` more of sublimated mass booked at a cell.
    pub open spec fn accumulated(self, i: int, amount: F32) -> State {
        if self.accumulated_flow.len() == 0 {
            self
        } else {
            State {
                accumulated_flow: self.accumulated_flow.update(
                    i,
                    self.accumulated_flow[i].plus(amount),
                ),
                ..self
            }
        }
    }

    /// The state after a random number is drawn.
    pub open spec fn rolled(self) -> State {
        match self.region_rng {
            Some(r) => State {
                region_rng: Some(RegionRng { random_seed: next_seed(r.random_seed), ..r }),
                ..self
            },
            None => State { random_seed: next_seed(self.random_seed), ..self },
        }
    }

    /// The random number that was drawn last.
    pub open spec fn roll(self) -> F32 {
        match self.region_rng {
            Some(r) => fraction_of(r.random_seed),
            None => fraction_of(self.random_seed),
        }
    }

    /// The direction in which gases are pushed first.
    pub open spec fn direction(self) -> int {
        match self.region_rng {
            Some(r) => r.displacement_direction as int,
            None => self.displacement_direction as int,
        }
    }

    /// The state with that direction reversed.
    pub open spec fn turned(self) -> State {
        match self.region_rng {
            Some(r) => State {
                region_rng: Some(
                    RegionRng {
                        displacement_direction: 0i32.wrapping_sub(r.displacement_direction),
                        ..r
                    },
                ),
                ..self
            },
            None => State {
                displacement_direction: 0i32.wrapping_sub(self.displacement_direction),
                ..self
            },
        }
    }

    /// The state with the substances of two cells exchanged.
    pub open spec fn swapped(self, a: int, b: int) -> State {
        let ca = self.updated[a];
        let cb = self.updated[b];
        State {
            updated: self.updated.update(a, ca.holding(cb)).update(b, cb.holding(ca)),
            ..self
        }
    }
}

/// The simulated world.
#[derive(Debug)]
pub struct SimData {
    pub env: Env,
    /// The cells as the current stage found them.
    pub cells: Vec<Cell>,
    /// The cells as the current stage leaves them.
    pub updated_cells: Vec<Cell>,
    pub flow: Vec<Vector4f>,
    pub accumulated_flow: Vec<F32>,
    pub timers: Vec<u8>,
    /// The events of the whole world, where they are kept.
    pub sim_events: Option<RegionEvents>,
    /// The buffer of the region that is being run, where it has one of its own.
    pub region_sink: Option<RegionEvents>,
    pub region_rng: Option<RegionRng>,
    pub random_seed: u32,
    pub displacement_direction: i32,
    pub tick_count: u32,
    pub iterate_direction: i32,
}

/// The events in a buffer that may be missing.
pub open spec fn log_of(events: Option<RegionEvents>) -> Option<EventLog> {
    match events {
        Some(e) => Some(e@),
        None => None,
    }
}

impl View for SimData {
    type V = State;

    open spec fn view(&self) -> State {
        State {
            cells: self.cells@,
            updated: self.updated_cells@,
            flow: self.flow@,
            accumulated_flow: self.accumulated_flow@,
            timers: self.timers@,
            events: log_of(self.sim_events),
            sink: log_of(self.region_sink),
            region_rng: self.region_rng,
            random_seed: self.random_seed,
            displacement_direction: self.displacement_direction,
            tick_count: self.tick_count,
            iterate_direction: self.iterate_direction,
        }
    }
}

/// The world has gone from `before` to `after`, whose state is `s`, by a step or part of one.
pub open spec fn passed(before: SimData, after: SimData, s: State) -> bool {
    &&& after@ == s
    &&& after.env == before.env
    &&& same_world(before@, after@)
}

/// The world has gone from `before` to `after`, whose state is `s`, within a step.
pub open spec fn carried(before: SimData, after: SimData, s: State) -> bool {
    &&& after@ == s
    &&& after.env == before.env
    &&& same_step(before@, after@)
}

/// The world has gone from `before` to `after`, whose state is `s`, within a stage of a step.
pub open spec fn stepped(before: SimData, after: SimData, s: State) -> bool {
    &&& after@ == s
    &&& after.env == before.env
    &&& same_shape(before@, after@)
}

impl SimData {
    /// Every grid is absent or covers all cells.
    pub open spec fn wf(self) -> bool {
        self.env.wf() && self@.fits(self.env)
    }

    /// Whether every grid is absent or covers all cells.
    pub fn is_valid(&self) -> (b: bool)
        ensures
            b == self.wf(),
    {
        self.env.is_valid() && self.env.is_covered(self.cells.len()) && self.env.is_covered(
            self.updated_cells.len(),
        ) && self.env.is_covered(self.flow.len()) && self.env.is_covered(
            self.accumulated_flow.len(),
        ) && self.env.is_covered(self.timers.len())
    }

    /// Replaces a cell of the new buffer.
    pub fn put(&mut self, i: usize, c: Cell)
        requires
            old(self).wf(),
            i < old(self)@.updated.len(),
            marks(c) == marks(old(self)@.updated[i as int]),
        ensures
            stepped(*old(self), *final(self), old(self)@.put(i as int, c)),
    {
        self.updated_cells.set(i, c);
    }

    /// Exchanges the substances of two cells of the new buffer.
    pub fn swap(&mut self, a: usize, b: usize)
        requires
            old(self).wf(),
            a < old(self)@.updated.len(),
            b < old(self)@.updated.len(),
        ensures
            stepped(*old(self), *final(self), old(self)@.swapped(a as int, b as int)),
    {
        let ca = self.updated_cells[a];
        let cb = self.updated_cells[b];
        self.updated_cells.set(a, ca.holding(cb));
        self.updated_cells.set(b, cb.holding(ca));
    }

    /// Adds to the flow out of a cell, where flows are kept.
    pub fn add_flow(&mut self, i: usize, side: Side, amount: F32)
        requires
            old(self).wf(),
            i < old(self).env.cell_count(),
        ensures
            stepped(*old(self), *final(self), old(self)@.flowed(i as int, side, amount)),
    {
        if self.flow.len() != 0 {
            let v = self.flow[i].with(side, amount);
            self.flow.set(i, v);
        }
    }

    /// Replaces the flow out of a cell, where flows are kept.
    pub fn set_flow(&mut self, i: usize, v: Vector4f)
        requires
            old(self).wf(),
            i < old(self).env.cell_count(),
        ensures
            stepped(*old(self), *final(self), old(self)@.with_flow(i as int, v)),
    {
        if self.flow.len() != 0 {
            self.flow.set(i, v);
        }
    }

    /// Books sublimated mass at a cell, where it is booked.
    pub fn accumulate(&mut self, i: usize, amount: F32)
        requires
            old(self).wf(),
            i < old(self).env.cell_count(),
        ensures
            stepped(*old(self), *final(self), old(self)@.accumulated(i as int, amount)),
    {
        if self.accumulated_flow.len() != 0 {
            let v = self.accumulated_flow[i].plus(amount);
            self.accumulated_flow.set(i, v);
        }
    }

    /// Marks a cell as just changed, where timers are kept.
    pub fn disturb(&mut self, i: usize)
        requires
            old(self).wf(),
            i < old(self).env.cell_count(),
        ensures
            stepped(*old(self), *final(self), old(self)@.restless(i as int)),
    {
        if self.timers.len() != 0 {
            let t: u8 = self.timers[i] | STABLE_BITS;
            self.timers.set(i, t);
        }
    }

    /// Routes the events from here on to a buffer of its own, or to the world's where none is
    /// given, and returns the buffer that they went to so far.
    pub fn route_events(&mut self, sink: Option<RegionEvents>) -> (prev: Option<RegionEvents>)
        requires
            old(self).wf(),
        ensures
            prev == old(self).region_sink,
            *final(self) == (SimData { region_sink: sink, ..*old(self) }),
    {
        let mut other = sink;
        std::mem::swap(&mut self.region_sink, &mut other);
        other
    }

    /// Reverses the direction in which gases are pushed first, and returns the old one.
    pub fn turn(&mut self) -> (d: i32)
        requires
            old(self).wf(),
        ensures
            stepped(*old(self), *final(self), old(self)@.turned()),
            d == old(self)@.direction(),
    {
        match self.region_rng {
            Some(r) => {
                self.region_rng = Some(
                    RegionRng {
                        displacement_direction: 0i32.wrapping_sub(r.displacement_direction),
                        ..r
                    },
                );
                r.displacement_direction
            },
            None => {
                let d: i32 = self.displacement_direction;
                self.displacement_direction = 0i32.wrapping_sub(d);
                d
            },
        }
    }
}

/// Runs `f` on a world whose events go to `sink`, and hands back what `f` returns, the events
/// that came, and the world, whose events go where they went before.
pub fn with_region_sink<T, F: FnOnce(SimData) -> (T, SimData)>(
    sim: SimData,
    sink: RegionEvents,
    f: F,
) -> (r: (T, Option<RegionEvents>, SimData))
    requires
        sim.wf(),
        f.requires((SimData { region_sink: Some(sink), ..sim },)),
        forall|t: T, s: SimData|
            f.ensures((SimData { region_sink: Some(sink), ..sim },), (t, s)) ==> s.wf(),
    ensures
        f.ensures(
            (SimData { region_sink: Some(sink), ..sim },),
            (r.0, SimData { region_sink: r.1, ..r.2 }),
        ),
        r.2.region_sink == sim.region_sink,
        r.2.wf(),
{
    let mut outer = sim;
    let prev = outer.route_events(Some(sink));
    let (t, mut inner) = f(outer);
    let events = inner.route_events(prev);
    (t, events, inner)
}

/// The entry of a buffer at `i`, where there is one.
pub fn peek(cells: &Vec<Cell>, i: i64) -> (c: Option<Cell>)
    ensures
        c == at(cells@, i as int),
{
    if i >= 0 && (i as u64) < cells.len() as u64 {
        Some(cells[i as usize])
    } else {
        None
    }
}

/// Reports an event: to the buffer of the region that is being run, or else to the world's.
pub fn emit(sim: &mut SimData, e: Event)
    requires
        old(sim).wf(),
    ensures
        stepped(*old(sim), *final(sim), old(sim)@.emit(e)),
{
    proof {
        reveal(region_events::only_added);
    }
    if sim.region_sink.is_some() {
        let mut log = RegionEvents::default();
        std::mem::swap(&mut log, sim.region_sink.as_mut().unwrap());
        log.record(e);
        sim.region_sink = Some(log);
    } else if sim.sim_events.is_some() {
        let mut log = RegionEvents::default();
        std::mem::swap(&mut log, sim.sim_events.as_mut().unwrap());
        log.record(e);
        sim.sim_events = Some(log);
    }
}

/// Reports that the substance of a cell has changed, and marks the cell as just changed.
pub fn push_substance_change(sim: &mut SimData, cell: usize)
    requires
        old(sim).wf(),
        cell < old(sim).env.cell_count(),
    ensures
        stepped(*old(sim), *final(sim), old(sim)@.changed(old(sim).env, cell as int)),
{
    if sim.sim_events.is_none() {
        return;
    }
    match sim.env.game_index(cell) {
        Some(g) => emit(
            sim,
            Event::SubstanceChange(
                SubstanceChangeInfo {
                    cell_idx: g,
                    old_element_idx: 0xffff,
                    new_element_idx: 0xffff,
                },
            ),
        ),
        None => {},
    }
    sim.disturb(cell);
}

/// Reports a visual effect at a cell.
pub fn push_spawn_fx(sim: &mut SimData, cell: usize, fx_id: i32, rotation: F32)
    requires
        old(sim).wf(),
        cell < old(sim).env.cell_count(),
    ensures
        stepped(
            *old(sim),
            *final(sim),
            old(sim)@.shown(old(sim).env, cell as int, fx_id, rotation),
        ),
{
    if sim.sim_events.is_none() {
        return;
    }
    match sim.env.game_index(cell) {
        Some(g) => emit(sim, Event::SpawnFX(SpawnFXInfo { cell_idx: g, fx_id, rotation })),
        None => {},
    }
}

/// Draws a random number.
pub fn next_random(sim: &mut SimData) -> (x: F32)
    requires
        old(sim).wf(),
    ensures
        stepped(*old(sim), *final(sim), old(sim)@.rolled()),
        x == final(sim)@.roll(),
{
    let seed: u32 = match sim.region_rng {
        Some(r) => {
            let n: u32 = r.random_seed.wrapping_mul(0x343fd).wrapping_add(0x269ec3);
            sim.region_rng = Some(RegionRng { random_seed: n, ..r });
            n
        },
        None => {
            let n: u32 = sim.random_seed.wrapping_mul(0x343fd).wrapping_add(0x269ec3);
            sim.random_seed = n;
            n
        },
    };
    F32::from_i32(((seed >> 16) & 0x7fff) as i32).times(num(RANDOM_SCALE))
}

impl RegionEvents {
    /// Moves the events of a region behind those of the world, channel by channel. Where the
    /// world keeps no events, nothing moves.
    pub fn merge_into(&mut self, sim: &mut SimData)
        requires
            old(sim).wf(),
        ensures
            old(sim)@.events is None ==> *final(sim) == *old(sim) && *final(self) == *old(self),
            old(sim)@.events matches Some(log) ==> {
                &&& final(self)@ == EventLog::empty()
                &&& stepped(
                    *old(sim),
                    *final(sim),
                    State { events: Some(log.joined(old(self)@)), ..old(sim)@ },
                )
            },
    {
        proof {
            reveal(region_events::only_added);
        }
        if sim.sim_events.is_some() {
            let mut log = RegionEvents::default();
            std::mem::swap(&mut log, sim.sim_events.as_mut().unwrap());
            self.move_into(&mut log);
            sim.sim_events = Some(log);
        }
    }
}

} // verus!
