//! How germs spread between cells and grow or die in them.
//!
//! Germs grow by powers of two with fractional exponents. Those are not computed here:
//! `growth_exponents` says which are needed, and `run_disease_growth_task` takes their values.
use crate::cell::Cell;
use crate::cell::NO_DISEASE;
use crate::constants::EIGHTH;
use crate::constants::FIFTH;
use crate::constants::INFINITY;
use crate::constants::ONE;
use crate::constants::ZERO;
use crate::element::NO_PHASE;
use crate::germs::DiseaseInfo;
use crate::germs::DiseaseTable;
use crate::germs::RangeInfo;
use crate::number::num;
use crate::number::F32;
use crate::sim_data;
use crate::sim_data::Env;
use crate::sim_data::RegionBounds;
use crate::sim_data::SimData;
use crate::sim_data::State;
use crate::sweep;
use crate::sweep::sweep_reached;
use crate::sweep::Pass;
use vstd::prelude::*;

verus! {

broadcast use crate::region_events::group_events;

/// The factor by which a number of germs changes in a step.
#[derive(Clone, Copy, Debug)]
pub enum Rate {
    /// This factor.
    Fixed(F32),
    /// Two to the power of this exponent.
    Power(F32),
}

pub open spec fn spec_half_life_to_growth_rate(half_life: F32, dt: F32) -> Rate {
    if half_life.same(num(ZERO)) {
        Rate::Fixed(num(ZERO))
    } else if half_life.same(num(INFINITY)) {
        Rate::Fixed(num(ONE))
    } else {
        Rate::Power(dt.neg().over(half_life))
    }
}

/// The factor that belongs to a half-life: nothing is left where it is zero, and all where it is
/// infinite.
#[verifier::when_used_as_spec(spec_half_life_to_growth_rate)]
pub fn half_life_to_growth_rate(half_life: F32, dt: F32) -> (r: Rate)
    ensures
        r == spec_half_life_to_growth_rate(half_life, dt),
{
    if half_life.same(num(ZERO)) {
        Rate::Fixed(num(ZERO))
    } else if half_life.same(num(INFINITY)) {
        Rate::Fixed(num(ONE))
    } else {
        Rate::Power(dt.neg().over(half_life))
    }
}

impl Rate {
    pub open spec fn spec_exponent(self) -> F32 {
        match self {
            Rate::Fixed(_) => num(ZERO),
            Rate::Power(e) => e,
        }
    }

    /// The exponent whose power of two the factor needs; zero where it needs none.
    #[verifier::when_used_as_spec(spec_exponent)]
    pub fn exponent(self) -> (e: F32)
        ensures
            e == self.spec_exponent(),
    {
        match self {
            Rate::Fixed(_) => num(ZERO),
            Rate::Power(e) => e,
        }
    }

    pub open spec fn spec_value(self, power: F32) -> F32 {
        match self {
            Rate::Fixed(f) => f,
            Rate::Power(_) => power,
        }
    }

    /// The factor, given the power of two that it needs.
    #[verifier::when_used_as_spec(spec_value)]
    pub fn value(self, power: F32) -> (f: F32)
        ensures
            f == self.spec_value(power),
    {
        match self {
            Rate::Fixed(f) => f,
            Rate::Power(_) => power,
        }
    }
}

impl RangeInfo {
    pub open spec fn spec_bound(self, i: int) -> F32 {
        if i <= 0 {
            self.min_viable
        } else if i == 1 {
            self.min_growth
        } else if i == 2 {
            self.max_growth
        } else {
            self.max_viable
        }
    }

    /// The bound with the given number, counted upwards from zero.
    pub fn bound(&self, i: usize) -> (x: F32)
        ensures
            x == self.spec_bound(i as int),
    {
        if i == 0 {
            self.min_viable
        } else if i == 1 {
            self.min_growth
        } else if i == 2 {
            self.max_growth
        } else {
            self.max_viable
        }
    }

    /// The number of the first bound from `i` on that a temperature does not exceed; three
    /// where it exceeds all.
    pub open spec fn upper(self, temp: F32, i: int) -> int
        decreases 3 - i,
    {
        if i >= 3 || temp.le(self.spec_bound(i)) {
            i
        } else {
            self.upper(temp, i + 1)
        }
    }

    /// The number of the bound below that one. A temperature that exceeds all has none between
    /// which it lies.
    pub open spec fn lower(self, temp: F32) -> int {
        let u = self.upper(temp, 0);
        if u == 3 && !temp.le(self.max_viable) {
            3
        } else if u == 0 {
            0
        } else {
            u - 1
        }
    }

    /// The numbers of the bounds between which a temperature lies.
    pub fn bracket(&self, temp: F32) -> (r: (usize, usize))
        ensures
            r.0 == self.lower(temp),
            r.1 == self.upper(temp, 0),
            r.0 <= r.1 <= 3,
    {
        let mut i: usize = 0;
        while i < 4
            invariant
                i <= 4,
                i < 4 ==> self.upper(temp, 0) == self.upper(temp, i as int),
                i == 4 ==> self.upper(temp, 0) == 3 && !temp.le(self.max_viable),
            decreases 4 - i,
        {
            if temp.le(self.bound(i)) {
                return (
                    if i == 0 {
                        0
                    } else {
                        i - 1
                    },
                    i,
                );
            }
            i = i + 1;
        }
        (3, 3)
    }
}

/// The half-life at a temperature: infinite in the range of growth or where one of the bounds
/// has an infinite one, else between those of the two bounds.
pub open spec fn half_life_at(temp: F32, range: RangeInfo, half_lives: RangeInfo) -> F32 {
    let u = range.upper(temp, 0);
    let l = range.lower(temp);
    let hl = half_lives.spec_bound(l);
    let hu = half_lives.spec_bound(u);
    if (l == 1 && u == 2) || hl.same(num(INFINITY)) || hu.same(num(INFINITY)) {
        num(INFINITY)
    } else {
        let span = range.spec_bound(u).minus(range.spec_bound(l));
        let t = if num(ZERO).lt(span) {
            temp.minus(range.spec_bound(l)).over(span)
        } else {
            num(ZERO)
        };
        num(ONE).minus(t).times(hl).plus(t.times(hu))
    }
}

/// The half-life of germs at a temperature.
pub fn calculate_range_half_life(temp: F32, range: &RangeInfo, half_lives: &RangeInfo) -> (h: F32)
    ensures
        h == half_life_at(temp, *range, *half_lives),
{
    let (l, u) = range.bracket(temp);
    let hl = half_lives.bound(l);
    let hu = half_lives.bound(u);
    if (l == 1 && u == 2) || hl.same(num(INFINITY)) || hu.same(num(INFINITY)) {
        return num(INFINITY);
    }
    let span = range.bound(u).minus(range.bound(l));
    let t = if num(ZERO).lt(span) {
        temp.minus(range.bound(l)).over(span)
    } else {
        num(ZERO)
    };
    num(ONE).minus(t).times(hl).plus(t.times(hu))
}

/// How readily the germs of a cell spread: not at all before there are enough of them and they
/// have been there long enough.
pub open spec fn diffusion_scale(table: DiseaseTable, c: Cell) -> F32 {
    let e = c.element_idx as int;
    if c.disease_idx >= table.diseases@.len() {
        num(ZERO)
    } else {
        let g = table.diseases@[c.disease_idx as int].elem_growth_info;
        if e >= g.min_diffusion_count@.len() || e
            >= g.min_diffusion_infestation_tick_count@.len() || e >= g.diffusion_scale@.len() {
            num(ZERO)
        } else if c.disease_count < g.min_diffusion_count@[e] || c.disease_infestation_tick_count
            < g.min_diffusion_infestation_tick_count@[e] {
            num(ZERO)
        } else {
            g.diffusion_scale@[e]
        }
    }
}

/// How readily the germs of a cell spread.
pub fn get_diffusion_scale(disease: &DiseaseTable, c: Cell) -> (f: F32)
    ensures
        f == diffusion_scale(*disease, c),
{
    let e: usize = c.element_idx as usize;
    let d: usize = c.disease_idx as usize;
    if d >= disease.diseases.len() {
        return num(ZERO);
    }
    let g = &disease.diseases[d].elem_growth_info;
    if e >= g.min_diffusion_count.len() || e >= g.min_diffusion_infestation_tick_count.len() || e
        >= g.diffusion_scale.len() {
        return num(ZERO);
    }
    if c.disease_count < g.min_diffusion_count[e] || c.disease_infestation_tick_count
        < g.min_diffusion_infestation_tick_count[e] {
        return num(ZERO);
    }
    g.diffusion_scale[e]
}

/// How many of `count` germs leave a cell.
pub open spec fn leaving(table: DiseaseTable, c: Cell, count: i32) -> i32 {
    diffusion_scale(table, c).times(F32::from_i32(count)).times(num(EIGHTH)).to_i32()
}

fn get_leaving(disease: &DiseaseTable, c: Cell, count: i32) -> (n: i32)
    ensures
        n == leaving(*disease, c, count),
{
    get_diffusion_scale(disease, c).times(F32::from_i32(count)).times(num(EIGHTH)).to_i32()
}

/// The germs that pass between two cells: their kind, and how many the first cell gains. One
/// kind flows from where there are more of it. Of two kinds the stronger flows.
pub open spec fn germ_flow(table: DiseaseTable, a: Cell, b: Cell) -> Option<(u8, i32)> {
    let n = table.diseases@.len();
    if a.disease_idx == b.disease_idx {
        if a.disease_idx == NO_DISEASE {
            None
        } else {
            let diff = b.disease_count.wrapping_sub(a.disease_count);
            Some(
                (
                    a.disease_idx,
                    leaving(
                        table,
                        if diff > 0 {
                            b
                        } else {
                            a
                        },
                        diff,
                    ),
                ),
            )
        }
    } else if a.disease_idx == NO_DISEASE {
        Some((b.disease_idx, leaving(table, b, b.disease_count)))
    } else if b.disease_idx == NO_DISEASE {
        Some((a.disease_idx, 0i32.wrapping_sub(leaving(table, a, a.disease_count))))
    } else if a.disease_idx >= n || b.disease_idx >= n {
        None
    } else if F32::from_i32(b.disease_count).times(
        table.diseases@[b.disease_idx as int].strength,
    ).lt(F32::from_i32(a.disease_count).times(table.diseases@[a.disease_idx as int].strength)) {
        Some((a.disease_idx, 0i32.wrapping_sub(leaving(table, a, a.disease_count))))
    } else {
        Some((b.disease_idx, leaving(table, b, b.disease_count)))
    }
}

fn get_germ_flow(disease: &DiseaseTable, a: Cell, b: Cell) -> (r: Option<(u8, i32)>)
    ensures
        r == germ_flow(*disease, a, b),
{
    let n: usize = disease.diseases.len();
    let i: usize = a.disease_idx as usize;
    let j: usize = b.disease_idx as usize;
    if a.disease_idx == b.disease_idx {
        if a.disease_idx == NO_DISEASE {
            return None;
        }
        let diff: i32 = b.disease_count.wrapping_sub(a.disease_count);
        let source = if diff > 0 {
            b
        } else {
            a
        };
        return Some((a.disease_idx, get_leaving(disease, source, diff)));
    }
    if a.disease_idx == NO_DISEASE {
        return Some((b.disease_idx, get_leaving(disease, b, b.disease_count)));
    }
    if b.disease_idx == NO_DISEASE {
        let k: i32 = get_leaving(disease, a, a.disease_count);
        return Some((a.disease_idx, 0i32.wrapping_sub(k)));
    }
    if i >= n || j >= n {
        return None;
    }
    if F32::from_i32(b.disease_count).times(disease.diseases[j].strength).lt(
        F32::from_i32(a.disease_count).times(disease.diseases[i].strength),
    ) {
        let k: i32 = get_leaving(disease, a, a.disease_count);
        Some((a.disease_idx, 0i32.wrapping_sub(k)))
    } else {
        Some((b.disease_idx, get_leaving(disease, b, b.disease_count)))
    }
}

/// The state after germs have passed between two cells, which must hold elements of one phase.
pub open spec fn spread_between(env: Env, s: State, a: int, b: int) -> State {
    match (env.diseases, sim_data::at(s.cells, a), sim_data::at(s.cells, b)) {
        (Some(table), Some(ca), Some(cb)) => {
            let p = env.elements.spec_post_phase(ca.element_idx);
            if s.updated.len() == 0 || p == NO_PHASE || p != env.elements.spec_post_phase(
                cb.element_idx,
            ) {
                s
            } else {
                match germ_flow(table, ca, cb) {
                    Some((kind, n)) => if n == 0 {
                        s
                    } else {
                        let t = s.put(
                            a,
                            s.updated[a].spec_with_disease(env.diseases, kind, n),
                        );
                        t.put(
                            b,
                            t.updated[b].spec_with_disease(
                                env.diseases,
                                kind,
                                0i32.wrapping_sub(n),
                            ),
                        )
                    },
                    None => s,
                }
            }
        },
        _ => s,
    }
}

/// Lets germs pass between two cells.
pub fn update_cells(sim: &mut SimData, cell_a: usize, cell_b: usize)
    requires
        old(sim).wf(),
    ensures
        sim_data::stepped(
            *old(sim),
            *final(sim),
            spread_between(old(sim).env, old(sim)@, cell_a as int, cell_b as int),
        ),
{
    if cell_a >= sim.cells.len() || cell_b >= sim.cells.len() || sim.updated_cells.len() == 0 {
        return;
    }
    let a = sim.cells[cell_a];
    let b = sim.cells[cell_b];
    let p: u8 = sim.env.elements.post_phase(a.element_idx);
    if p == NO_PHASE || p != sim.env.elements.post_phase(b.element_idx) {
        return;
    }
    let flow = match &sim.env.diseases {
        Some(table) => get_germ_flow(table, a, b),
        None => None,
    };
    match flow {
        Some((kind, n)) => {
            if n != 0 {
                let c = sim.updated_cells[cell_a].with_disease(&sim.env.diseases, kind, n);
                sim.put(cell_a, c);
                let m: i32 = 0i32.wrapping_sub(n);
                let c = sim.updated_cells[cell_b].with_disease(&sim.env.diseases, kind, m);
                sim.put(cell_b, c);
            }
        },
        None => {},
    }
}

/// Whether cell `i` is inside the grid and it or `c` has germs.
pub open spec fn infectious(s: State, c: Cell, i: int) -> bool {
    sim_data::at(s.cells, i) matches Some(n) && (c.disease_idx != NO_DISEASE || n.disease_idx
        != NO_DISEASE)
}

/// The spreading of germs, cell by cell: to the cell behind and the cell above, or from them.
pub struct DiffusionPass;

impl Pass for DiffusionPass {
    open spec fn ready(&self, env: Env, s: State) -> bool {
        !s.unallocated()
    }

    open spec fn effect(&self, env: Env, s: State, y: int, x: int) -> State {
        let cell = y * env.width + x;
        let c = s.cells[cell];
        let t = if infectious(s, c, cell + 1) {
            spread_between(env, s, cell, cell + 1)
        } else {
            s
        };
        if infectious(s, c, cell + env.width) {
            spread_between(env, t, cell, cell + env.width)
        } else {
            t
        }
    }

    proof fn stays_ready(&self, env: Env, s: State, y: int, x: int) {
    }

    fn visit(&self, sim: &mut SimData, y: usize, x: usize, cell: usize) {
        let w: usize = sim.env.width;
        let n: usize = sim.cells.len();
        let sick = sim.cells[cell].disease_idx != NO_DISEASE;
        let right = cell + 1 < n && (sick || sim.cells[cell + 1].disease_idx != NO_DISEASE);
        let up = cell + w < n && (sick || sim.cells[cell + w].disease_idx != NO_DISEASE);
        if right {
            update_cells(sim, cell, cell + 1);
        }
        if up {
            update_cells(sim, cell, cell + w);
        }
    }
}

/// The state after the germs of a rectangle have spread. Cells beyond the buffers are skipped.
pub open spec fn germs_spread(env: Env, s: State, b: RegionBounds) -> State {
    if env.diseases is None || env.width < 3 || env.height < 3 || s.unallocated() {
        s
    } else {
        sweep::all_reached(DiffusionPass, env, s, b)
    }
}

/// Lets the germs of a rectangle spread.
pub fn run_disease_diffusion_task(sim: &mut SimData, bounds: RegionBounds)
    requires
        old(sim).wf(),
    ensures
        sim_data::stepped(*old(sim), *final(sim), germs_spread(old(sim).env, old(sim)@, bounds)),
{
    if sim.env.diseases.is_none() || sim.env.width < 3 || sim.env.height < 3 || sim.cells.len()
        == 0 || sim.updated_cells.len() == 0 {
        return;
    }
    sweep_reached(&DiffusionPass, sim, bounds);
}

/// The data on how the germs of a cell thrive, where they are known in its element.
pub open spec fn thriving(env: Env, c: Cell) -> Option<DiseaseInfo> {
    match env.diseases {
        Some(table) => {
            let e = c.element_idx as int;
            let d = table.diseases@[c.disease_idx as int];
            let g = d.elem_growth_info;
            if c.disease_idx != NO_DISEASE && c.disease_idx < table.diseases@.len() && e
                < g.min_count_per_kg@.len() && e < g.max_count_per_kg@.len() && e
                < g.under_population_death_rate@.len() && e < g.population_half_life@.len() && e
                < g.over_population_half_life@.len() {
                Some(d)
            } else {
                None
            }
        },
        None => None,
    }
}

fn get_thriving(env: &Env, c: Cell) -> (r: Option<&DiseaseInfo>)
    ensures
        match thriving(*env, c) {
            Some(d) => r is Some && *r->0 == d,
            None => r is None,
        },
{
    match &env.diseases {
        Some(table) => {
            let e: usize = c.element_idx as usize;
            let i: usize = c.disease_idx as usize;
            if c.disease_idx == NO_DISEASE || i >= table.diseases.len() {
                return None;
            }
            let d = &table.diseases[i];
            let g = &d.elem_growth_info;
            if e < g.min_count_per_kg.len() && e < g.max_count_per_kg.len() && e
                < g.under_population_death_rate.len() && e < g.population_half_life.len() && e
                < g.over_population_half_life.len() {
                Some(d)
            } else {
                None
            }
        },
        None => None,
    }
}

/// Whether there are too few germs for the mass that they live in.
pub open spec fn too_few(d: DiseaseInfo, c: Cell) -> bool {
    F32::from_i32(c.disease_count).lt(
        d.elem_growth_info.min_count_per_kg@[c.element_idx as int].times(c.mass),
    )
}

/// Whether there are too many germs for the mass that they live in.
pub open spec fn too_many(d: DiseaseInfo, c: Cell) -> bool {
    d.elem_growth_info.max_count_per_kg@[c.element_idx as int].times(c.mass).lt(
        F32::from_i32(c.disease_count),
    )
}

/// The factors by which germs change in a step: by the temperature, by their number where there
/// are too many, and by their number where there are not.
#[derive(Clone, Copy, Debug)]
pub struct Rates {
    pub warm: Rate,
    pub over: Rate,
    pub normal: Rate,
}

/// The factors by which the germs of a cell change in a step. They do not depend on how many
/// there are.
pub open spec fn rates(d: DiseaseInfo, c: Cell) -> Rates {
    let e = c.element_idx as int;
    let g = d.elem_growth_info;
    Rates {
        warm: half_life_to_growth_rate(
            half_life_at(c.temperature, d.temperature_range, d.temperature_half_lives),
            num(FIFTH),
        ),
        over: half_life_to_growth_rate(g.over_population_half_life@[e], num(FIFTH)),
        normal: half_life_to_growth_rate(g.population_half_life@[e], num(FIFTH)),
    }
}

fn get_rates(d: &DiseaseInfo, c: Cell) -> (r: Rates)
    requires
        c.element_idx < d.elem_growth_info.population_half_life@.len(),
        c.element_idx < d.elem_growth_info.over_population_half_life@.len(),
    ensures
        r == rates(*d, c),
{
    let e: usize = c.element_idx as usize;
    let g = &d.elem_growth_info;
    Rates {
        warm: half_life_to_growth_rate(
            calculate_range_half_life(
                c.temperature,
                &d.temperature_range,
                &d.temperature_half_lives,
            ),
            num(FIFTH),
        ),
        over: half_life_to_growth_rate(g.over_population_half_life[e], num(FIFTH)),
        normal: half_life_to_growth_rate(g.population_half_life[e], num(FIFTH)),
    }
}

/// The powers of two that the factors of a cell need.
#[derive(Clone, Copy, Debug)]
pub struct Powers {
    pub warm: F32,
    pub over: F32,
    pub normal: F32,
}

/// The change in the number of germs of a cell, with what is carried over from earlier steps,
/// given the powers of two.
pub open spec fn growth(env: Env, d: DiseaseInfo, c: Cell, p: Powers) -> F32 {
    let r = rates(d, c);
    let count = F32::from_i32(c.disease_count);
    let own = if too_few(d, c) {
        d.elem_growth_info.under_population_death_rate@[c.element_idx as int].neg().times(
            num(FIFTH),
        )
    } else if too_many(d, c) {
        r.over.value(p.over).minus(num(ONE)).times(count)
    } else {
        r.normal.value(p.normal).minus(num(ONE)).times(count)
    };
    let f = count.times(r.warm.value(p.warm)).plus(c.disease_growth_accumulated_error).minus(
        count,
    ).plus(own);
    if env.radiation_enabled {
        f.minus(c.radiation.times(d.radiation_kill_rate))
    } else {
        f
    }
}

/// The cell after its germs have grown, given the powers of two. Whole germs count at once, the
/// rest is carried over. What is not finite is left out.
pub open spec fn grown(env: Env, c: Cell, p: Powers) -> Cell {
    match thriving(env, c) {
        None => c,
        Some(d) => {
            let f = growth(env, d, c, p);
            if !f.is_finite() {
                c
            } else {
                Cell {
                    disease_growth_accumulated_error: f.minus(f.trunc()),
                    disease_count: c.disease_count.wrapping_add(f.trunc().to_i32()),
                    ..c
                }
            }
        },
    }
}

/// Lets the germs of a cell grow.
pub fn grow_cell(env: &Env, c: Cell, p: Powers) -> (r: Cell)
    ensures
        r == grown(*env, c, p),
{
    let d = match get_thriving(env, c) {
        Some(d) => d,
        None => return c,
    };
    let r = get_rates(d, c);
    let e: usize = c.element_idx as usize;
    let g = &d.elem_growth_info;
    let count = F32::from_i32(c.disease_count);
    let own = if count.lt(g.min_count_per_kg[e].times(c.mass)) {
        g.under_population_death_rate[e].neg().times(num(FIFTH))
    } else if g.max_count_per_kg[e].times(c.mass).lt(count) {
        r.over.value(p.over).minus(num(ONE)).times(count)
    } else {
        r.normal.value(p.normal).minus(num(ONE)).times(count)
    };
    let mut f = count.times(r.warm.value(p.warm)).plus(c.disease_growth_accumulated_error).minus(
        count,
    ).plus(own);
    if env.radiation_enabled {
        f = f.minus(c.radiation.times(d.radiation_kill_rate));
    }
    if !f.is_finite() {
        return c;
    }
    Cell {
        disease_growth_accumulated_error: f.minus(f.trunc()),
        disease_count: c.disease_count.wrapping_add(f.trunc().to_i32()),
        ..c
    }
}

/// The cell a step older: without germs where none are left, and with one tick more.
pub open spec fn aged(c: Cell) -> Cell {
    let d = if c.disease_count < 1 {
        c.without_disease()
    } else {
        c
    };
    Cell {
        disease_infestation_tick_count: if d.disease_infestation_tick_count < 0xfe {
            (d.disease_infestation_tick_count + 1) as u8
        } else {
            0xfe
        },
        ..d
    }
}

/// Makes a cell a step older.
pub fn age_cell(c: Cell) -> (r: Cell)
    ensures
        r == aged(c),
{
    let d = if c.disease_count < 1 {
        c.without_disease()
    } else {
        c
    };
    let t: u8 = if d.disease_infestation_tick_count < 0xfe {
        d.disease_infestation_tick_count + 1
    } else {
        0xfe
    };
    Cell { disease_infestation_tick_count: t, ..d }
}

/// The first cell of a rectangle.
pub open spec fn first_cell(env: Env, b: RegionBounds) -> int {
    b.min_y * env.width + b.min_x
}

/// The end of the cells of a rectangle that are inside the buffers.
pub open spec fn end_cell(env: Env, b: RegionBounds) -> int {
    sweep::lesser((b.max_y - 1) * env.width + b.max_x, env.cell_count())
}

/// The power with the given number; one where there is none.
pub open spec fn spec_power_at(powers: Seq<F32>, i: int) -> F32 {
    if 0 <= i < powers.len() {
        powers[i]
    } else {
        num(ONE)
    }
}

/// The three powers of the cell with the given number.
pub open spec fn powers_at(powers: Seq<F32>, k: int) -> Powers {
    Powers {
        warm: spec_power_at(powers, 3 * k),
        over: spec_power_at(powers, 3 * k + 1),
        normal: spec_power_at(powers, 3 * k + 2),
    }
}

/// The growth of germs, cell by cell, with three powers of two for each cell from `first` on.
pub struct GrowthPass {
    pub first: u128,
    pub powers: Vec<F32>,
}

impl GrowthPass {
    fn power_at(&self, i: i128) -> (p: F32)
        ensures
            p == spec_power_at(self.powers@, i as int),
    {
        if i >= 0 && i < self.powers.len() as i128 {
            self.powers[i as usize]
        } else {
            num(ONE)
        }
    }
}

/// The visits that let germs grow, with three powers of two for each cell from `first` on. Cells
/// beyond the buffers are skipped.
pub open spec fn growing_by(env: Env, first: int, powers: Seq<F32>) -> sweep::Visit {
    |s: State, y: int, x: int|
        {
            let cell = y * env.width + x;
            if cell < env.cell_count() {
                s.put(cell, grown(env, s.updated[cell], powers_at(powers, cell - first)))
            } else {
                s
            }
        }
}

impl Pass for GrowthPass {
    open spec fn ready(&self, env: Env, s: State) -> bool {
        s.updated.len() != 0 && self.first <= 0x1_0000_0000_0000_0000_0000_0000_0000
    }

    open spec fn effect(&self, env: Env, s: State, y: int, x: int) -> State {
        growing_by(env, self.first as int, self.powers@)(s, y, x)
    }

    proof fn stays_ready(&self, env: Env, s: State, y: int, x: int) {
    }

    fn visit(&self, sim: &mut SimData, y: usize, x: usize, cell: usize) {
        let k: i128 = cell as i128 - self.first as i128;
        let p = Powers {
            warm: self.power_at(3 * k),
            over: self.power_at(3 * k + 1),
            normal: self.power_at(3 * k + 2),
        };
        let c = grow_cell(&sim.env, sim.updated_cells[cell], p);
        sim.put(cell, c);
    }
}

/// The ageing of germs, cell by cell.
pub struct AgePass;

impl Pass for AgePass {
    open spec fn ready(&self, env: Env, s: State) -> bool {
        s.updated.len() != 0
    }

    open spec fn effect(&self, env: Env, s: State, y: int, x: int) -> State {
        let cell = y * env.width + x;
        s.put(cell, aged(s.updated[cell]))
    }

    proof fn stays_ready(&self, env: Env, s: State, y: int, x: int) {
    }

    fn visit(&self, sim: &mut SimData, y: usize, x: usize, cell: usize) {
        let c = age_cell(sim.updated_cells[cell]);
        sim.put(cell, c);
    }
}

/// Whether germs grow at all.
pub open spec fn growing(env: Env, s: State) -> bool {
    env.diseases is Some && env.width >= 3 && env.height >= 3 && s.updated.len() != 0
}

fn is_growing(sim: &SimData) -> (b: bool)
    ensures
        b == growing(sim.env, sim@),
{
    sim.env.diseases.is_some() && sim.env.width >= 3 && sim.env.height >= 3
        && sim.updated_cells.len() != 0
}

/// The state after the germs of a rectangle have grown, given the powers of two, and aged. Cells
/// beyond the buffers are skipped.
pub open spec fn germs_grown(env: Env, s: State, b: RegionBounds, powers: Seq<F32>) -> State {
    if !growing(env, s) {
        s
    } else {
        let t = sweep::rows_by(
            growing_by(env, first_cell(env, b), powers),
            s,
            b.min_x as int,
            b.max_x as int,
            b.min_y as int,
            b.max_y as int,
        );
        sweep::all_reached(AgePass, env, t, b)
    }
}

/// The first cell of a rectangle, whatever the sizes.
fn find_first_cell(env: &Env, b: RegionBounds) -> (n: u128)
    requires
        env.wf(),
    ensures
        n == first_cell(*env, b),
        n <= 0x1_0000_0000_0000_0000_0000_0000_0000,
{
    proof {
        assert(0 <= b.min_y * env.width <= 0xffff_ffff_ffff_ffff * 0x7fff_ffff)
            by (nonlinear_arith)
            requires
                0 <= b.min_y <= 0xffff_ffff_ffff_ffff,
                0 <= env.width <= 0x7fff_ffff,
        ;
    }
    b.min_y as u128 * env.width as u128 + b.min_x as u128
}

/// Lets the germs of a rectangle grow, given two to the powers of `growth_exponents`.
pub fn run_disease_growth_task(sim: &mut SimData, bounds: RegionBounds, powers: Vec<F32>)
    requires
        old(sim).wf(),
    ensures
        sim_data::stepped(
            *old(sim),
            *final(sim),
            germs_grown(old(sim).env, old(sim)@, bounds, powers@),
        ),
{
    if !is_growing(sim) {
        return;
    }
    let ghost given = powers@;
    let first: u128 = find_first_cell(&sim.env, bounds);
    let p = GrowthPass { first, powers };
    proof {
        sweep::lemma_rows_reached_by(
            p,
            sim.env,
            growing_by(sim.env, first as int, given),
            sim@,
            bounds.min_x as int,
            bounds.max_x as int,
            bounds.min_y as int,
            bounds.max_y as int,
        );
    }
    sweep_reached(&p, sim, bounds);
    sweep_reached(&AgePass, sim, bounds);
}

/// The exponents that the growth of a cell's germs needs; zero where it needs none.
pub open spec fn exponents(env: Env, c: Cell) -> Powers {
    match thriving(env, c) {
        None => Powers { warm: num(ZERO), over: num(ZERO), normal: num(ZERO) },
        Some(d) => {
            let r = rates(d, c);
            Powers {
                warm: r.warm.exponent(),
                over: r.over.exponent(),
                normal: r.normal.exponent(),
            }
        },
    }
}

fn get_exponents(env: &Env, c: Cell) -> (r: Powers)
    ensures
        r == exponents(*env, c),
{
    match get_thriving(env, c) {
        Some(d) => {
            let r = get_rates(d, c);
            Powers {
                warm: r.warm.exponent(),
                over: r.over.exponent(),
                normal: r.normal.exponent(),
            }
        },
        None => Powers { warm: num(ZERO), over: num(ZERO), normal: num(ZERO) },
    }
}

/// The exponents whose powers of two the growth of a rectangle's germs needs: three for each
/// cell from the first of the rectangle to the last that is inside the buffers.
pub open spec fn needed_exponents(env: Env, s: State, b: RegionBounds) -> Seq<F32> {
    let first = first_cell(env, b);
    let n = end_cell(env, b) - first;
    if !growing(env, s) || b.is_empty() || n <= 0 {
        Seq::empty()
    } else {
        Seq::new(
            (3 * n) as nat,
            |i: int|
                {
                    let e = exponents(env, s.updated[first + i / 3]);
                    if i % 3 == 0 {
                        e.warm
                    } else if i % 3 == 1 {
                        e.over
                    } else {
                        e.normal
                    }
                },
        )
    }
}

/// The exponents whose powers of two the growth of a rectangle's germs needs.
pub fn growth_exponents(sim: &SimData, bounds: RegionBounds) -> (r: Vec<F32>)
    requires
        sim.wf(),
    ensures
        r@ == needed_exponents(sim.env, sim@, bounds),
{
    let mut r: Vec<F32> = Vec::new();
    if !is_growing(sim) || bounds.is_empty() {
        return r;
    }
    let first: u128 = find_first_cell(&sim.env, bounds);
    proof {
        assert(0 <= (bounds.max_y - 1) * sim.env.width <= 0xffff_ffff_ffff_ffff * 0x7fff_ffff)
            by (nonlinear_arith)
            requires
                0 <= bounds.max_y - 1 <= 0xffff_ffff_ffff_ffff,
                0 <= sim.env.width <= 0x7fff_ffff,
        ;
    }
    let last: u128 = (bounds.max_y as u128 - 1) * sim.env.width as u128 + bounds.max_x as u128;
    let n: usize = sim.updated_cells.len();
    let end: usize = if last <= n as u128 {
        last as usize
    } else {
        n
    };
    if first >= end as u128 {
        return r;
    }
    let start: usize = first as usize;
    let mut i: usize = start;
    while i < end
        invariant
            start <= i <= end <= sim@.updated.len(),
            r@.len() == 3 * (i - start),
            forall|j: int|
                0 <= j < r@.len() ==> #[trigger] r@[j] == {
                    let e = exponents(sim.env, sim@.updated[start + j / 3]);
                    if j % 3 == 0 {
                        e.warm
                    } else if j % 3 == 1 {
                        e.over
                    } else {
                        e.normal
                    }
                },
        decreases end - i,
    {
        let e = get_exponents(&sim.env, sim.updated_cells[i]);
        r.push(e.warm);
        r.push(e.over);
        r.push(e.normal);
        i = i + 1;
    }
    assert(r@ =~= needed_exponents(sim.env, sim@, bounds));
    r
}

} // verus!
