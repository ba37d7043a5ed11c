//! Radiation: how it lingers, what gives it off, and how it falls from space.
use crate::cell::Cell;
use crate::cell::NO_DISEASE;
use crate::constants::CENTI;
use crate::constants::HALF;
use crate::constants::MAX_RADIATION;
use crate::constants::MILLI;
use crate::constants::ONE;
use crate::constants::QUARTER;
use crate::constants::TENTH;
use crate::constants::THREE_QUARTERS;
use crate::constants::THREE_TWENTIETHS;
use crate::constants::ZERO;
use crate::germs::DiseaseInfo;
use crate::grid::marked;
use crate::grid::CONSTRUCTED;
use crate::number::num;
use crate::number::F32;
use crate::sim_data;
use crate::sim_data::Env;
use crate::sim_data::RegionBounds;
use crate::sim_data::SimData;
use crate::sim_data::State;
use crate::sweep;
use crate::sweep::sweep_rows;
use crate::sweep::Pass;
use vstd::prelude::*;

verus! {

broadcast use crate::region_events::group_events;

/// The hash of the germs that radiate.
pub const RADIATION_SICKNESS: u32 = 0xd49f77d6;

/// How far a radiating element reaches.
pub const REACH: i64 = 2;

/// The weight of a cell at a distance from a radiating element.
pub open spec fn spec_weight(dx: int, dy: int) -> F32 {
    let a = dx * dx + dy * dy;
    if a == 0 {
        num(ONE)
    } else if a == 1 {
        num(THREE_QUARTERS)
    } else if a == 2 {
        num(HALF)
    } else if a == 4 {
        num(QUARTER)
    } else if a == 5 {
        num(THREE_TWENTIETHS)
    } else {
        num(TENTH)
    }
}

/// The weight of a cell at a distance from a radiating element.
pub fn weight(dx: i64, dy: i64) -> (w: F32)
    requires
        -REACH <= dx <= REACH,
        -REACH <= dy <= REACH,
    ensures
        w == spec_weight(dx as int, dy as int),
{
    proof {
        assert(0 <= dx * dx <= 4) by (nonlinear_arith)
            requires
                -2 <= dx <= 2,
        ;
        assert(0 <= dy * dy <= 4) by (nonlinear_arith)
            requires
                -2 <= dy <= 2,
        ;
    }
    let a: i64 = dx * dx + dy * dy;
    if a == 0 {
        num(ONE)
    } else if a == 1 {
        num(THREE_QUARTERS)
    } else if a == 2 {
        num(HALF)
    } else if a == 4 {
        num(QUARTER)
    } else if a == 5 {
        num(THREE_TWENTIETHS)
    } else {
        num(TENTH)
    }
}

/// The part of the radiation from above that a cell holds back.
pub open spec fn absorption(env: Env, c: Cell) -> F32 {
    let factor = match env.elements.spec_radiation(c.element_idx) {
        Some(d) => d.factor,
        None => num(ZERO),
    };
    let block = if marked(c, CONSTRUCTED) {
        factor.times(env.radiation_constructed_factor)
    } else {
        c.mass.over(env.radiation_max_mass).times(factor).times(
            env.radiation_density_weight,
        ).plus(factor.times(env.radiation_base_weight))
    };
    block.clamp(num(ZERO), num(ONE))
}

fn get_absorption(env: &Env, c: Cell) -> (f: F32)
    ensures
        f == absorption(*env, c),
{
    let factor = match env.elements.radiation(c.element_idx) {
        Some(d) => d.factor,
        None => num(ZERO),
    };
    let block = if marked(c, CONSTRUCTED) {
        factor.times(env.radiation_constructed_factor)
    } else {
        c.mass.over(env.radiation_max_mass).times(factor).times(
            env.radiation_density_weight,
        ).plus(factor.times(env.radiation_base_weight))
    };
    block.clamp(num(ZERO), num(ONE))
}

pub open spec fn spec_passing(block: F32, above: F32) -> F32 {
    let f = num(ONE).minus(block).times(above);
    if f.lt(num(CENTI)) {
        num(ZERO)
    } else {
        f
    }
}

/// What is left of the radiation from above after a cell; less than a hundredth is nothing.
#[verifier::when_used_as_spec(spec_passing)]
pub fn passing(block: F32, above: F32) -> (f: F32)
    ensures
        f == spec_passing(block, above),
{
    let f = num(ONE).minus(block).times(above);
    if f.lt(num(CENTI)) {
        num(ZERO)
    } else {
        f
    }
}

/// What is left of the radiation from space in row `y` and column `x`, if it falls through the
/// rows from `top - 1` down.
pub open spec fn exposure(env: Env, s: State, top: int, y: int, x: int) -> F32
    decreases top - y,
{
    passing(
        absorption(env, s.updated[y * env.width + x]),
        if y + 1 < top {
            exposure(env, s, top, y + 1, x)
        } else {
            num(ONE)
        },
    )
}

/// The state after the radiation in a cell has faded.
pub open spec fn spec_faded(env: Env, c: Cell) -> Cell {
    let f = c.radiation.over(env.radiation_linger_rate);
    Cell {
        radiation: c.radiation.minus(
            if f.same(num(ZERO)) {
                num(ONE)
            } else {
                f
            },
        ).max(num(ZERO)),
        ..c
    }
}

/// The fading of radiation, cell by cell.
pub struct FadePass;

impl Pass for FadePass {
    open spec fn ready(&self, env: Env, s: State) -> bool {
        s.updated.len() != 0
    }

    open spec fn effect(&self, env: Env, s: State, y: int, x: int) -> State {
        let cell = y * env.width + x;
        s.put(cell, spec_faded(env, s.updated[cell]))
    }

    proof fn stays_ready(&self, env: Env, s: State, y: int, x: int) {
    }

    fn visit(&self, sim: &mut SimData, y: usize, x: usize, cell: usize) {
        let c = sim.updated_cells[cell];
        let f = c.radiation.over(sim.env.radiation_linger_rate);
        let loss = if f.same(num(ZERO)) {
            num(ONE)
        } else {
            f
        };
        sim.put(cell, Cell { radiation: c.radiation.minus(loss).max(num(ZERO)), ..c });
    }
}

/// The state with more radiation in a cell.
pub open spec fn brighter(s: State, cell: int, amount: F32) -> State {
    let c = s.updated[cell];
    s.put(cell, Cell { radiation: c.radiation.plus(amount), ..c })
}

fn brighten(sim: &mut SimData, cell: usize, amount: F32)
    requires
        old(sim).wf(),
        cell < old(sim)@.updated.len(),
    ensures
        sim_data::stepped(*old(sim), *final(sim), brighter(old(sim)@, cell as int, amount)),
{
    let c = sim.updated_cells[cell];
    sim.put(cell, Cell { radiation: c.radiation.plus(amount), ..c });
}

/// Whether a place is in a rectangle or on its upper edges.
pub open spec fn reaches(b: RegionBounds, y: int, x: int) -> bool {
    b.min_x <= x <= b.max_x && b.min_y <= y <= b.max_y
}

/// The state after an element in row `y` and column `x` has radiated, with the given strength, on
/// the first `k` of the 25 cells around it, row after row.
pub open spec fn radiated(
    env: Env,
    s: State,
    b: RegionBounds,
    y: int,
    x: int,
    strength: F32,
    k: int,
) -> State
    decreases k,
{
    if k <= 0 {
        s
    } else {
        let t = radiated(env, s, b, y, x, strength, k - 1);
        let dx = (k - 1) % 5 - 2;
        let dy = (k - 1) / 5 - 2;
        if reaches(b, y + dy, x + dx) {
            brighter(t, (y + dy) * env.width + x + dx, strength.times(spec_weight(dx, dy)))
        } else {
            t
        }
    }
}

fn radiate(sim: &mut SimData, b: RegionBounds, y: usize, x: usize, strength: F32)
    requires
        old(sim).wf(),
        old(sim)@.updated.len() != 0,
        b.max_x < old(sim).env.width,
        b.max_y < old(sim).env.height,
        y < old(sim).env.height,
        x < old(sim).env.width,
    ensures
        sim_data::stepped(
            *old(sim),
            *final(sim),
            radiated(old(sim).env, old(sim)@, b, y as int, x as int, strength, 25),
        ),
{
    let mut k: i64 = 0;
    while k < 25
        invariant
            0 <= k <= 25,
            sim.wf(),
            sim.env == old(sim).env,
            sim_data::same_shape(old(sim)@, sim@),
            sim@.updated.len() == sim.env.cell_count(),
            b.max_x < sim.env.width,
            b.max_y < sim.env.height,
            y < sim.env.height,
            x < sim.env.width,
            sim@ == radiated(sim.env, old(sim)@, b, y as int, x as int, strength, k as int),
        decreases 25 - k,
    {
        let dx: i64 = k % 5 - 2;
        let dy: i64 = k / 5 - 2;
        let ty: i64 = y as i64 + dy;
        let tx: i64 = x as i64 + dx;
        if tx >= 0 && ty >= 0 && b.min_x <= tx as usize && tx as usize <= b.max_x && b.min_y
            <= ty as usize && ty as usize <= b.max_y {
            proof {
                sweep::lemma_index(sim.env, ty as int, tx as int);
            }
            let t: usize = ty as usize * sim.env.width + tx as usize;
            brighten(sim, t, strength.times(weight(dx, dy)));
        }
        k = k + 1;
    }
}

/// The number of the kind of germs with a hash, from `i` on; that of no germs where there is
/// none.
pub open spec fn germs_with(diseases: Seq<DiseaseInfo>, hash: u32, i: int) -> u8
    decreases diseases.len() - i,
{
    if i >= diseases.len() || i >= NO_DISEASE {
        NO_DISEASE
    } else if diseases[i].hash == hash {
        i as u8
    } else {
        germs_with(diseases, hash, i + 1)
    }
}

/// The number of the germs that radiate, where germs are known at all.
pub open spec fn radiant_germs(env: Env) -> Option<u8> {
    match env.diseases {
        Some(t) => Some(germs_with(t.diseases@, RADIATION_SICKNESS, 0)),
        None => None,
    }
}

fn get_radiant_germs(env: &Env) -> (r: Option<u8>)
    ensures
        r == radiant_germs(*env),
{
    match &env.diseases {
        Some(t) => {
            let mut i: usize = 0;
            while i < t.diseases.len() && i < NO_DISEASE as usize
                invariant
                    0 <= i <= NO_DISEASE,
                    env.diseases == Some(*t),
                    germs_with(t.diseases@, RADIATION_SICKNESS, 0) == germs_with(
                        t.diseases@,
                        RADIATION_SICKNESS,
                        i as int,
                    ),
                decreases t.diseases@.len() - i,
            {
                if t.diseases[i].hash == RADIATION_SICKNESS {
                    return Some(i as u8);
                }
                i = i + 1;
            }
            Some(NO_DISEASE)
        },
        None => None,
    }
}

pub open spec fn spec_limited(r: F32) -> F32 {
    let c = r.clamp(num(ZERO), num(MAX_RADIATION));
    if c.le(num(CENTI)) {
        num(ZERO)
    } else {
        c
    }
}

/// Radiation within its limits; a hundredth or less is nothing.
#[verifier::when_used_as_spec(spec_limited)]
pub fn limited(r: F32) -> (x: F32)
    ensures
        x == spec_limited(r),
{
    let c = r.clamp(num(ZERO), num(MAX_RADIATION));
    if c.le(num(CENTI)) {
        num(ZERO)
    } else {
        c
    }
}

/// The state after the cell in row `y` and column `x` has radiated by its element, and gained by
/// its germs and by what is left there of the radiation from space.
pub open spec fn gained(env: Env, s: State, b: RegionBounds, cosmic: F32, y: int, x: int) -> State {
    let cell = y * env.width + x;
    let c = s.updated[cell];
    let rads = match env.elements.spec_radiation(c.element_idx) {
        Some(d) => d.rads_per_1000,
        None => num(ZERO),
    };
    let t = if num(ZERO).lt(rads) {
        radiated(env, s, b, y, x, c.mass.times(num(MILLI)).times(rads), 25)
    } else {
        s
    };
    let u = if radiant_germs(env) == Some(c.disease_idx) {
        brighter(t, cell, F32::from_i32(c.disease_count).times(num(MILLI)))
    } else {
        t
    };
    let e = exposure(env, s, b.max_y as int, y, x);
    if num(ZERO).lt(e) {
        brighter(u, cell, cosmic.over(env.radiation_linger_rate).times(e))
    } else {
        u
    }
}

/// The state after the turn of the cell in row `y` and column `x`: what it has gained is brought
/// within limits.
pub open spec fn lit(env: Env, s: State, b: RegionBounds, cosmic: F32, y: int, x: int) -> State {
    let cell = y * env.width + x;
    let t = gained(env, s, b, cosmic, y, x);
    let c = t.updated[cell];
    t.put(cell, Cell { radiation: limited(c.radiation), ..c })
}

/// The visits of `lit` in a world.
pub open spec fn lighting(env: Env, b: RegionBounds, cosmic: F32) -> sweep::Visit {
    |s: State, y: int, x: int|
        if b.min_x <= x < b.max_x && b.min_y <= y < b.max_y {
            lit(env, s, b, cosmic, y, x)
        } else {
            s
        }
}

/// Two states differ in nothing but the radiation in their cells.
pub open spec fn same_matter(s: State, t: State) -> bool {
    &&& s.updated.len() == t.updated.len()
    &&& forall|i: int|
        0 <= i < s.updated.len() ==> (Cell {
            radiation: num(ZERO),
            ..#[trigger] s.updated[i]
        }) == (Cell { radiation: num(ZERO), ..t.updated[i] })
}

/// What is left of the radiation from space does not depend on the radiation that is there.
pub proof fn lemma_exposure(env: Env, s: State, t: State, top: int, y: int, x: int)
    requires
        same_matter(s, t),
        s.updated.len() == env.cell_count(),
        0 <= y,
        0 <= x < env.width,
        y < top <= env.height,
    ensures
        exposure(env, s, top, y, x) == exposure(env, t, top, y, x),
    decreases top - y,
{
    sweep::lemma_index(env, y, x);
    let i = y * env.width + x;
    let a = s.updated[i];
    let b = t.updated[i];
    assert((Cell { radiation: num(ZERO), ..a }) == (Cell { radiation: num(ZERO), ..b }));
    assert(a.mass == b.mass && a.element_idx == b.element_idx && a.properties == b.properties);
    if y + 1 < top {
        lemma_exposure(env, s, t, top, y + 1, x);
    }
}

/// What radiates changes nothing but radiation.
pub proof fn lemma_radiated(
    env: Env,
    s: State,
    b: RegionBounds,
    y: int,
    x: int,
    strength: F32,
    k: int,
)
    requires
        s.updated.len() == env.cell_count(),
        b.max_x < env.width,
        b.max_y < env.height,
    ensures
        same_matter(s, radiated(env, s, b, y, x, strength, k)),
    decreases k,
{
    if k > 0 {
        lemma_radiated(env, s, b, y, x, strength, k - 1);
        let dx = (k - 1) % 5 - 2;
        let dy = (k - 1) / 5 - 2;
        if reaches(b, y + dy, x + dx) {
            sweep::lemma_index(env, y + dy, x + dx);
        }
    }
}

/// What a cell gains and gives off changes nothing but radiation.
pub proof fn lemma_gained(env: Env, s: State, b: RegionBounds, cosmic: F32, y: int, x: int)
    requires
        s.updated.len() == env.cell_count(),
        b.max_x < env.width,
        b.max_y < env.height,
        0 <= y < env.height,
        0 <= x < env.width,
    ensures
        same_matter(s, gained(env, s, b, cosmic, y, x)),
{
    sweep::lemma_index(env, y, x);
    let c = s.updated[y * env.width + x];
    let rads = match env.elements.spec_radiation(c.element_idx) {
        Some(d) => d.rads_per_1000,
        None => num(ZERO),
    };
    lemma_radiated(env, s, b, y, x, c.mass.times(num(MILLI)).times(rads), 25);
}

/// A visit changes nothing but radiation.
proof fn lemma_lit(env: Env, s: State, b: RegionBounds, cosmic: F32, y: int, x: int)
    requires
        s.updated.len() == env.cell_count(),
        b.max_x < env.width,
        b.max_y < env.height,
        0 <= y < env.height,
        0 <= x < env.width,
    ensures
        same_matter(s, lit(env, s, b, cosmic, y, x)),
{
    sweep::lemma_index(env, y, x);
    lemma_gained(env, s, b, cosmic, y, x);
}

/// The lighting of a rectangle, cell by cell, with what is left of the radiation from space in
/// each, from the top row down.
pub struct LightPass {
    pub bounds: RegionBounds,
    pub cosmic: F32,
    pub germs: Option<u8>,
    pub exposures: Vec<Vec<F32>>,
}

impl Pass for LightPass {
    open spec fn ready(&self, env: Env, s: State) -> bool {
        let b = self.bounds;
        &&& s.updated.len() != 0
        &&& s.updated.len() == env.cell_count()
        &&& b.min_x <= b.max_x < env.width
        &&& b.min_y <= b.max_y < env.height
        &&& self.germs == radiant_germs(env)
        &&& self.exposures@.len() == b.max_y - b.min_y
        &&& forall|j: int|
            0 <= j < self.exposures@.len() ==> (#[trigger] self.exposures@[j])@.len() == b.max_x
                - b.min_x
        &&& forall|j: int, i: int|
            0 <= j < self.exposures@.len() && 0 <= i < b.max_x - b.min_x ==> #[trigger] (
            self.exposures@[j]@[i]) == exposure(
                env,
                s,
                b.max_y as int,
                b.max_y - 1 - j,
                b.min_x + i,
            )
    }

    open spec fn effect(&self, env: Env, s: State, y: int, x: int) -> State {
        lighting(env, self.bounds, self.cosmic)(s, y, x)
    }

    proof fn stays_ready(&self, env: Env, s: State, y: int, x: int) {
        let b = self.bounds;
        let t = self.effect(env, s, y, x);
        if b.min_x <= x < b.max_x && b.min_y <= y < b.max_y {
            lemma_lit(env, s, b, self.cosmic, y, x);
        }
        assert forall|j: int, i: int|
            0 <= j < self.exposures@.len() && 0 <= i < b.max_x - b.min_x implies #[trigger] (
        self.exposures@[j]@[i]) == exposure(
            env,
            t,
            b.max_y as int,
            b.max_y - 1 - j,
            b.min_x + i,
        ) by {
            if same_matter(s, t) {
                lemma_exposure(env, s, t, b.max_y as int, b.max_y - 1 - j, b.min_x + i);
            }
        }
    }

    fn visit(&self, sim: &mut SimData, y: usize, x: usize, cell: usize) {
        let b = self.bounds;
        if x < b.min_x || x >= b.max_x || y < b.min_y || y >= b.max_y {
            return;
        }
        let c = sim.updated_cells[cell];
        let rads = match sim.env.elements.radiation(c.element_idx) {
            Some(d) => d.rads_per_1000,
            None => num(ZERO),
        };
        proof {
            let j = b.max_y - 1 - y as int;
            let i = x as int - b.min_x;
            assert(self.exposures@[j]@.len() == b.max_x - b.min_x);
            assert(self.exposures@[j]@[i] == exposure(
                sim.env,
                sim@,
                b.max_y as int,
                b.max_y - 1 - j,
                b.min_x + i,
            ));
        }
        let e = self.exposures[b.max_y - 1 - y][x - b.min_x];
        if num(ZERO).lt(rads) {
            radiate(sim, b, y, x, c.mass.times(num(MILLI)).times(rads));
        }
        match self.germs {
            Some(g) => {
                if g == c.disease_idx {
                    brighten(sim, cell, F32::from_i32(c.disease_count).times(num(MILLI)));
                }
            },
            None => {},
        }
        if num(ZERO).lt(e) {
            brighten(sim, cell, self.cosmic.over(sim.env.radiation_linger_rate).times(e));
        }
        let d = sim.updated_cells[cell];
        sim.put(cell, Cell { radiation: limited(d.radiation), ..d });
    }
}

/// Whether radiation is simulated in a rectangle: the option is on, and the rectangle ends
/// inside the grid.
pub open spec fn radiating(env: Env, s: State, b: RegionBounds) -> bool {
    &&& env.radiation_enabled
    &&& env.width >= 3
    &&& env.height >= 3
    &&& s.updated.len() != 0
    &&& b.min_x <= b.max_x < env.width
    &&& b.min_y <= b.max_y < env.height
}

/// The state after radiation has faded and spread in a rectangle.
pub open spec fn irradiated(env: Env, s: State, b: RegionBounds, cosmic: F32) -> State {
    if !radiating(env, s, b) {
        s
    } else {
        let x0 = b.min_x as int;
        let x1 = b.max_x as int;
        let y0 = b.min_y as int;
        let y1 = b.max_y as int;
        let t = sweep::rows(FadePass, env, s, x0, x1, y0, y1);
        sweep::rows_by(lighting(env, b, cosmic), t, x0, x1, y0, y1)
    }
}

/// What is left of the radiation from space in each cell of a rectangle, from the top row down.
fn find_exposures(sim: &SimData, b: RegionBounds) -> (r: Vec<Vec<F32>>)
    requires
        sim.wf(),
        sim@.updated.len() == sim.env.cell_count(),
        b.min_x <= b.max_x < sim.env.width,
        b.min_y <= b.max_y < sim.env.height,
    ensures
        r@.len() == b.max_y - b.min_y,
        forall|j: int|
            0 <= j < r@.len() ==> (#[trigger] r@[j])@.len() == b.max_x - b.min_x,
        forall|j: int, i: int|
            0 <= j < r@.len() && 0 <= i < b.max_x - b.min_x ==> #[trigger] (r@[j]@[i])
                == exposure(sim.env, sim@, b.max_y as int, b.max_y - 1 - j, b.min_x + i),
{
    let mut r: Vec<Vec<F32>> = Vec::new();
    let mut y: usize = b.max_y;
    while y > b.min_y
        invariant
            sim.wf(),
            sim@.updated.len() == sim.env.cell_count(),
            b.min_x <= b.max_x < sim.env.width,
            b.min_y <= y <= b.max_y < sim.env.height,
            r@.len() == b.max_y - y,
            forall|j: int|
                0 <= j < r@.len() ==> (#[trigger] r@[j])@.len() == b.max_x - b.min_x,
            forall|j: int, i: int|
                0 <= j < r@.len() && 0 <= i < b.max_x - b.min_x ==> #[trigger] (r@[j]@[i])
                    == exposure(sim.env, sim@, b.max_y as int, b.max_y - 1 - j, b.min_x + i),
        decreases y,
    {
        y = y - 1;
        let mut line: Vec<F32> = Vec::new();
        let mut x: usize = b.min_x;
        while x < b.max_x
            invariant
                sim.wf(),
                sim@.updated.len() == sim.env.cell_count(),
                b.min_x <= x <= b.max_x < sim.env.width,
                b.min_y <= y < b.max_y < sim.env.height,
                r@.len() == b.max_y - 1 - y,
                forall|j: int|
                    0 <= j < r@.len() ==> (#[trigger] r@[j])@.len() == b.max_x - b.min_x,
                forall|j: int, i: int|
                    0 <= j < r@.len() && 0 <= i < b.max_x - b.min_x ==> #[trigger] (r@[j]@[i])
                        == exposure(sim.env, sim@, b.max_y as int, b.max_y - 1 - j, b.min_x + i),
                line@.len() == x - b.min_x,
                forall|i: int|
                    0 <= i < line@.len() ==> #[trigger] line@[i] == exposure(
                        sim.env,
                        sim@,
                        b.max_y as int,
                        y as int,
                        b.min_x + i,
                    ),
            decreases b.max_x - x,
        {
            proof {
                sweep::lemma_index(sim.env, y as int, x as int);
            }
            let block = get_absorption(&sim.env, sim.updated_cells[y * sim.env.width + x]);
            let above = if y + 1 < b.max_y {
                proof {
                    let j = r@.len() - 1;
                    let i = x as int - b.min_x;
                    assert(r@[j]@.len() == b.max_x - b.min_x);
                    assert(r@[j]@[i] == exposure(
                        sim.env,
                        sim@,
                        b.max_y as int,
                        b.max_y - 1 - j,
                        b.min_x + i,
                    ));
                }
                r[b.max_y - 2 - y][x - b.min_x]
            } else {
                num(ONE)
            };
            line.push(passing(block, above));
            x = x + 1;
        }
        r.push(line);
    }
    r
}

/// Fading leaves everything but radiation as it is.
pub proof fn lemma_fade_row(env: Env, s: State, y: int, lo: int, hi: int)
    requires
        s.updated.len() == env.cell_count(),
        0 <= lo,
        hi <= env.width,
        0 <= y < env.height,
    ensures
        same_matter(s, sweep::row(FadePass, env, s, y, lo, hi)),
    decreases hi - lo,
{
    if hi > lo {
        lemma_fade_row(env, s, y, lo, hi - 1);
        sweep::lemma_index(env, y, hi - 1);
    }
}

/// Fading leaves everything but radiation as it is.
pub proof fn lemma_fade_rows(env: Env, s: State, x0: int, x1: int, y0: int, y1: int)
    requires
        s.updated.len() == env.cell_count(),
        0 <= x0,
        x1 <= env.width,
        0 <= y0,
        y1 <= env.height,
    ensures
        same_matter(s, sweep::rows(FadePass, env, s, x0, x1, y0, y1)),
    decreases y1 - y0,
{
    if y1 > y0 {
        lemma_fade_rows(env, s, x0, x1, y0, y1 - 1);
        lemma_fade_row(env, sweep::rows(FadePass, env, s, x0, x1, y0, y1 - 1), y1 - 1, x0, x1);
    }
}

/// Lighting leaves everything but radiation as it is.
pub proof fn lemma_light_row(
    env: Env,
    s: State,
    b: RegionBounds,
    cosmic: F32,
    y: int,
    lo: int,
    hi: int,
)
    requires
        s.updated.len() == env.cell_count(),
        b.max_x < env.width,
        b.max_y < env.height,
    ensures
        same_matter(s, sweep::row_by(lighting(env, b, cosmic), s, y, lo, hi)),
    decreases hi - lo,
{
    if hi > lo {
        lemma_light_row(env, s, b, cosmic, y, lo, hi - 1);
        let t = sweep::row_by(lighting(env, b, cosmic), s, y, lo, hi - 1);
        if b.min_x <= hi - 1 < b.max_x && b.min_y <= y < b.max_y {
            lemma_lit(env, t, b, cosmic, y, hi - 1);
        }
    }
}

/// Lighting leaves everything but radiation as it is.
pub proof fn lemma_light_rows(
    env: Env,
    s: State,
    b: RegionBounds,
    cosmic: F32,
    x0: int,
    x1: int,
    y0: int,
    y1: int,
)
    requires
        s.updated.len() == env.cell_count(),
        b.max_x < env.width,
        b.max_y < env.height,
    ensures
        same_matter(s, sweep::rows_by(lighting(env, b, cosmic), s, x0, x1, y0, y1)),
    decreases y1 - y0,
{
    if y1 > y0 {
        lemma_light_rows(env, s, b, cosmic, x0, x1, y0, y1 - 1);
        let t = sweep::rows_by(lighting(env, b, cosmic), s, x0, x1, y0, y1 - 1);
        lemma_light_row(env, t, b, cosmic, y1 - 1, x0, x1);
    }
}

/// Radiation changes nothing else.
pub proof fn lemma_irradiated(env: Env, s: State, b: RegionBounds, cosmic: F32)
    requires
        radiating(env, s, b),
        s.updated.len() == env.cell_count(),
    ensures
        same_matter(s, irradiated(env, s, b, cosmic)),
{
    let x0 = b.min_x as int;
    let x1 = b.max_x as int;
    let y0 = b.min_y as int;
    let y1 = b.max_y as int;
    lemma_fade_rows(env, s, x0, x1, y0, y1);
    let t = sweep::rows(FadePass, env, s, x0, x1, y0, y1);
    lemma_light_rows(env, t, b, cosmic, x0, x1, y0, y1);
}

/// Lets radiation fade and spread in a rectangle, on which `cosmic_intensity` falls from space.
pub fn run_radiation_task(sim: &mut SimData, bounds: RegionBounds, cosmic_intensity: F32)
    requires
        old(sim).wf(),
    ensures
        sim_data::stepped(
            *old(sim),
            *final(sim),
            irradiated(old(sim).env, old(sim)@, bounds, cosmic_intensity),
        ),
{
    let b = bounds;
    if !sim.env.radiation_enabled || sim.env.width < 3 || sim.env.height < 3
        || sim.updated_cells.len() == 0 {
        return;
    }
    if b.min_x > b.max_x || b.min_y > b.max_y || b.max_x >= sim.env.width || b.max_y
        >= sim.env.height {
        return;
    }
    let exposures = find_exposures(sim, b);
    let ghost s0 = sim@;
    sweep_rows(&FadePass, sim, b.min_x, b.max_x, b.min_y, b.max_y);
    let p = LightPass {
        bounds: b,
        cosmic: cosmic_intensity,
        germs: get_radiant_germs(&sim.env),
        exposures,
    };
    proof {
        lemma_fade_rows(
            sim.env,
            s0,
            b.min_x as int,
            b.max_x as int,
            b.min_y as int,
            b.max_y as int,
        );
        assert forall|j: int, i: int|
            0 <= j < p.exposures@.len() && 0 <= i < b.max_x - b.min_x implies #[trigger] (
        p.exposures@[j]@[i]) == exposure(
            sim.env,
            sim@,
            b.max_y as int,
            b.max_y - 1 - j,
            b.min_x + i,
        ) by {
            lemma_exposure(sim.env, s0, sim@, b.max_y as int, b.max_y - 1 - j, b.min_x + i);
        }
        sweep::lemma_rows_by(
            p,
            sim.env,
            lighting(sim.env, b, cosmic_intensity),
            sim@,
            b.min_x as int,
            b.max_x as int,
            b.min_y as int,
            b.max_y as int,
        );
    }
    sweep_rows(&p, sim, b.min_x, b.max_x, b.min_y, b.max_y);
}

} // verus!
