//! What holds of the tables, the grid and the numbers that chance gives; and of the growth of germs
//! and the closing pass over a rectangle.
use crate::cell::Cell;
use crate::constants::LEAST_NORMAL;
use crate::constants::ONE;
use crate::constants::ZERO;
use crate::disease;
use crate::disease::AgePass;
use crate::disease::Powers;
use crate::displacement;
use crate::element::ElementsTable;
use crate::grid;
use crate::heat_laws;
use crate::laws;
use crate::move_laws;
use crate::number::num;
use crate::number::F32;
use crate::physics;
use crate::post_process;
use crate::post_process::Pause;
use crate::property_texture;
use crate::push_laws::alike_but;
use crate::push_laws::is_void_of;
use crate::room_laws;
use crate::room_laws::post_phase_of;
use crate::sim_data;
use crate::sim_data::Env;
use crate::sim_data::RegionBounds;
use crate::sim_data::State;
use crate::sweep;
use crate::unstable;
use vstd::prelude::*;

verus! {

/// The tables are looked up by the number of the element; there is nothing beyond their ends.
pub proof fn law_tables(t: ElementsTable, e: u16)
    ensures
        e < t.liquid_data@.len() ==> t.spec_liquid(e) == Some(t.liquid_data@[e as int]),
        e >= t.liquid_data@.len() ==> t.spec_liquid(e) is None,
        e < t.pressure_data@.len() ==> t.spec_pressure(e) == Some(t.pressure_data@[e as int]),
        e >= t.pressure_data@.len() ==> t.spec_pressure(e) is None,
        e < t.post_process_data@.len() ==> t.spec_post_process(e) == Some(
            t.post_process_data@[e as int],
        ),
        e >= t.post_process_data@.len() ==> t.spec_post_process(e) is None,
        e < t.temperature_data@.len() ==> t.spec_temperature(e) == Some(
            t.temperature_data@[e as int],
        ),
        e >= t.temperature_data@.len() ==> t.spec_temperature(e) is None,
        e < t.radiation_data@.len() ==> t.spec_radiation(e) == Some(t.radiation_data@[e as int]),
        e >= t.radiation_data@.len() ==> t.spec_radiation(e) is None,
        e < t.light_absorption_data@.len() ==> t.spec_light_absorption(e) == Some(
            t.light_absorption_data@[e as int],
        ),
        e >= t.light_absorption_data@.len() ==> t.spec_light_absorption(e) is None,
        e < t.property_texture_data@.len() ==> t.spec_property_texture(e) == Some(
            t.property_texture_data@[e as int],
        ),
        e >= t.property_texture_data@.len() ==> t.spec_property_texture(e) is None,
{
}

/// An element is found by its hash: the first one that has it.
pub proof fn law_index_of(t: ElementsTable, hash: u32)
    ensures
        ({
            let e = t.spec_index_of(hash);
            &&& e != 0xffff ==> e < t.ids@.len() && t.ids@[e as int] == hash
            &&& forall|i: int|
                0 <= i < t.ids@.len() && i < e ==> #[trigger] t.ids@[i] != hash
        }),
{
    lemma_index_from(t.ids@, hash, 0);
}

proof fn lemma_index_from(ids: Seq<u32>, hash: u32, from: int)
    requires
        0 <= from,
        forall|i: int| 0 <= i < from && i < ids.len() ==> #[trigger] ids[i] != hash,
    ensures
        ({
            let e = ElementsTable::index_from(ids, hash, from);
            &&& e != 0xffff ==> e < ids.len() && ids[e as int] == hash
            &&& forall|i: int| 0 <= i < ids.len() && i < e ==> #[trigger] ids[i] != hash
        }),
    decreases ids.len() - from,
{
    if from < ids.len() && from < 0xffff && ids[from] != hash {
        lemma_index_from(ids, hash, from + 1);
    }
}

/// The seed of the next random number, and the number that it gives: fifteen of its bits.
pub proof fn law_random(s: State)
    ensures
        ({
            let t = s.rolled();
            let next = |n: u32| ((n as int * 214013 + 2531011) % 0x1_0000_0000) as u32;
            &&& s.region_rng is None ==> t.random_seed == next(s.random_seed)
            &&& s.region_rng matches Some(r) ==> t.region_rng is Some
                && t.region_rng->0.random_seed == next(r.random_seed) && t.random_seed
                == s.random_seed && t.region_rng->0.displacement_direction
                == r.displacement_direction
            &&& s.region_rng is None ==> t == (State { random_seed: t.random_seed, ..s })
        }),
{
    lemma_seed(s.random_seed);
    if let Some(r) = s.region_rng {
        lemma_seed(r.random_seed);
    }
}

proof fn lemma_seed(n: u32)
    ensures
        sim_data::next_seed(n) == (n as int * 214013 + 2531011) % 0x1_0000_0000,
{
}

/// A random number is the fifteen bits above the lower half of the seed, as a part of 32767.
pub proof fn law_random_number(seed: u32)
    ensures
        sim_data::fraction_of(seed) == F32::from_i32((seed / 0x1_0000 % 0x8000) as i32).times(
            num(crate::constants::RANDOM_SCALE),
        ),
{
    assert((seed >> 16) & 0x7fff == seed / 0x1_0000 % 0x8000) by (bit_vector);
}

/// A cell is solid where it is marked to hold liquids back or holds a solid, and lets liquids
/// through where it is not marked and holds a gas or nothing.
pub proof fn law_solid_and_permeable(env: Env, c: Cell)
    ensures
        grid::solid(env.elements, c) <==> c.properties & 2 != 0 || move_laws::phase_of(
            env,
            c.element_idx,
        ) == 3,
        grid::permeable(env.elements, c) <==> c.properties & 2 == 0 && (move_laws::phase_of(
            env,
            c.element_idx,
        ) == 0 || move_laws::phase_of(env, c.element_idx) == 1),
{
    move_laws::lemma_low_bits(env, c.element_idx);
}

/// The smaller and the larger of two numbers.
pub proof fn law_min_and_max(a: F32, b: F32)
    requires
        !a.is_nan(),
        !b.is_nan(),
    ensures
        a.min(b).le(a) && a.min(b).le(b) && (a.min(b) == a || a.min(b) == b),
        a.le(a.max(b)) && b.le(a.max(b)) && (a.max(b) == a || a.max(b) == b),
{
}

/// The game's grid is the world without its border, row by row.
pub proof fn law_game_cell(env: Env, r: int, c: int)
    requires
        env.width >= 3,
        0 <= r,
        0 <= c < env.width - 2,
    ensures
        env.game_cell((r + 1) * env.width + c + 1) == r * (env.width - 2) + c,
{
    let w = env.width as int;
    let i = (r + 1) * w + c + 1;
    vstd::arithmetic::div_mod::lemma_fundamental_div_mod_converse(i, w, r + 1, c + 1);
}

/// Without active regions the whole grid but its border is one, on which nothing falls from space.
pub proof fn law_one_region(env: Env)
    requires
        env.active_regions@.len() == 0,
        env.width >= 1,
        env.height >= 1,
    ensures
        ({
            let r = physics::regions(env);
            &&& r.len() == 1
            &&& r[0].bounds.min_x == 1 && r[0].bounds.min_y == 1
            &&& r[0].bounds.max_x == env.width - 1 && r[0].bounds.max_y == env.height - 1
            &&& r[0].post_process_bounds == r[0].bounds
            &&& r[0].current_cosmic_radiation_intensity == num(ZERO)
        }),
{
}

/// With active regions those are gone through as they are listed.
pub proof fn law_listed_regions(env: Env)
    requires
        env.active_regions@.len() > 0,
    ensures
        physics::regions(env) == env.active_regions@,
{
}

/// A copy of a rectangle takes over the cells in it and no other.
pub proof fn law_copy_of_a_rectangle(env: Env, s: State, b: RegionBounds, y: int, x: int)
    requires
        !s.unallocated(),
        s.cells.len() == env.cell_count(),
        0 <= y < env.height,
        0 <= x < env.width,
    ensures
        ({
            let i = y * env.width + x;
            let t = physics::copied_in(env, s, b);
            let inside = b.min_x <= x < b.max_x && b.min_y <= y < b.max_y;
            &&& inside ==> t.cells[i] == s.updated[i]
            &&& !inside ==> t.cells[i] == s.cells[i]
            &&& t.updated == s.updated
        }),
{
    let w = env.width as int;
    let i = y * w + x;
    sweep::lemma_index(env, y, x);
    vstd::arithmetic::div_mod::lemma_fundamental_div_mod_converse(i, w, y, x);
}

/// What visits do to each cell by itself is done to each cell of a rectangle once.
proof fn lemma_each_by(
    env: Env,
    f: sweep::Visit,
    s: State,
    x0: int,
    x1: int,
    y0: int,
    y1: int,
    g: spec_fn(int, Cell) -> Cell,
    y: int,
    x: int,
)
    requires
        s.updated.len() == env.cell_count(),
        0 <= x0,
        x1 <= env.width,
        0 <= y0,
        y1 <= env.height,
        0 <= y < env.height,
        0 <= x < env.width,
        forall|t: State, v: int, u: int|
            t.updated.len() == env.cell_count() && 0 <= v < env.height && 0 <= u < env.width ==> (
            #[trigger] f(t, v, u)).updated == t.updated.update(
                v * env.width + u,
                g(v * env.width + u, t.updated[v * env.width + u]),
            ),
    ensures
        ({
            let i = y * env.width + x;
            let t = sweep::rows_by(f, s, x0, x1, y0, y1);
            &&& t.updated.len() == s.updated.len()
            &&& t.updated[i] == if x0 <= x < x1 && y0 <= y < y1 {
                g(i, s.updated[i])
            } else {
                s.updated[i]
            }
        }),
    decreases y1 - y0,
{
    if y1 > y0 {
        lemma_each_by(env, f, s, x0, x1, y0, y1 - 1, g, y, x);
        let t = sweep::rows_by(f, s, x0, x1, y0, y1 - 1);
        lemma_each_in_row(env, f, t, x0, x1, y1 - 1, g, y, x);
    }
}

proof fn lemma_each_in_row(
    env: Env,
    f: sweep::Visit,
    s: State,
    lo: int,
    hi: int,
    v: int,
    g: spec_fn(int, Cell) -> Cell,
    y: int,
    x: int,
)
    requires
        s.updated.len() == env.cell_count(),
        0 <= lo,
        hi <= env.width,
        0 <= v < env.height,
        0 <= y < env.height,
        0 <= x < env.width,
        forall|t: State, v: int, u: int|
            t.updated.len() == env.cell_count() && 0 <= v < env.height && 0 <= u < env.width ==> (
            #[trigger] f(t, v, u)).updated == t.updated.update(
                v * env.width + u,
                g(v * env.width + u, t.updated[v * env.width + u]),
            ),
    ensures
        ({
            let i = y * env.width + x;
            let t = sweep::row_by(f, s, v, lo, hi);
            &&& t.updated.len() == s.updated.len()
            &&& t.updated[i] == if lo <= x < hi && y == v {
                g(i, s.updated[i])
            } else {
                s.updated[i]
            }
        }),
    decreases hi - lo,
{
    if hi > lo {
        lemma_each_in_row(env, f, s, lo, hi - 1, v, g, y, x);
        sweep::lemma_index(env, y, x);
        sweep::lemma_index(env, v, hi - 1);
        let w = env.width as int;
        if y * w + x == v * w + hi - 1 {
            assert(y == v) by (nonlinear_arith)
                requires
                    0 <= x < w,
                    0 <= hi - 1 < w,
                    y * w + x == v * w + hi - 1,
            ;
        }
    }
}

/// The germs of each cell of a rectangle grow once, by the three powers that belong to the cell,
/// counted from the first cell of the rectangle, and then age once. No other cell changes.
pub proof fn law_germs_grow_and_age(
    env: Env,
    s: State,
    b: RegionBounds,
    powers: Seq<F32>,
    y: int,
    x: int,
)
    requires
        env.diseases is Some,
        env.width >= 3,
        env.height >= 3,
        s.updated.len() == env.cell_count(),
        b.max_x <= env.width,
        b.max_y <= env.height,
        0 <= y < env.height,
        0 <= x < env.width,
    ensures
        ({
            let i = y * env.width + x;
            let t = disease::germs_grown(env, s, b, powers);
            let inside = b.min_x <= x < b.max_x && b.min_y <= y < b.max_y;
            let k = 3 * (i - (b.min_y * env.width + b.min_x));
            &&& !inside ==> t.updated[i] == s.updated[i]
            &&& inside && k + 2 < powers.len() ==> t.updated[i] == disease::aged(
                disease::grown(
                    env,
                    s.updated[i],
                    Powers { warm: powers[k], over: powers[k + 1], normal: powers[k + 2] },
                ),
            )
        }),
{
    let i = y * env.width + x;
    let first = disease::first_cell(env, b);
    let f = disease::growing_by(env, first, powers);
    let g = |i: int, c: Cell| disease::grown(env, c, disease::powers_at(powers, i - first));
    assert forall|t: State, v: int, u: int|
        t.updated.len() == env.cell_count() && 0 <= v < env.height && 0 <= u < env.width implies (
    #[trigger] f(t, v, u)).updated == t.updated.update(
        v * env.width + u,
        g(v * env.width + u, t.updated[v * env.width + u]),
    ) by {
        sweep::lemma_index(env, v, u);
    }
    let (x0, x1) = (b.min_x as int, b.max_x as int);
    let (y0, y1) = (b.min_y as int, b.max_y as int);
    sweep::lemma_index(env, y, x);
    lemma_each_by(env, f, s, x0, x1, y0, y1, g, y, x);
    let t = sweep::rows_by(f, s, x0, x1, y0, y1);
    let h = |t: State, v: int, u: int| sweep::reached(AgePass, env, t, v, u);
    let old = |i: int, c: Cell| disease::aged(c);
    assert forall|t: State, v: int, u: int|
        t.updated.len() == env.cell_count() && 0 <= v < env.height && 0 <= u < env.width implies (
    #[trigger] h(t, v, u)).updated == t.updated.update(
        v * env.width + u,
        old(v * env.width + u, t.updated[v * env.width + u]),
    ) by {
        sweep::lemma_index(env, v, u);
    }
    sweep::lemma_rows_reached_by(AgePass, env, h, t, x0, x1, y0, y1);
    lemma_each_by(env, h, t, x0, x1, y0, y1, old, y, x);
    if x0 <= x < x1 && y0 <= y < y1 {
        let w = env.width as int;
        assert(y * w >= y0 * w) by (nonlinear_arith)
            requires
                y >= y0,
                w >= 0,
        ;
        assert(i - first >= 0);
    }
}

/// The closing pass stops at a cell that waits, goes on to the next column after one that is done,
/// and after the last column to the first one of the next row.
pub proof fn law_closing_goes_cell_by_cell(
    env: Env,
    s: State,
    x0: int,
    x1: int,
    y1: int,
    y: int,
    x: int,
)
    requires
        y < y1,
    ensures
        ({
            let r = post_process::closed_from(env, s, x0, x1, y1, y, x);
            let (t, p) = post_process::begun(env, s, y * env.width + x);
            &&& x < x1 && p != Pause::Done ==> r == (t, y, x, p)
            &&& x < x1 && p == Pause::Done && x + 1 < x1 ==> r == post_process::closed_from(
                env,
                t,
                x0,
                x1,
                y1,
                y,
                x + 1,
            )
            &&& x + 1 == x1 && p == Pause::Done ==> r == post_process::closed_from(
                env,
                t,
                x0,
                x1,
                y1,
                y + 1,
                x0,
            )
        }),
{
    reveal_with_fuel(post_process::closed_from, 3);
}

/// The part of a block that slides into an empty cell is there with its weighted mass and germs, at
/// the temperature of the block, on its way down; and is taken off the block, which is gone where
/// nothing is left.
pub proof fn law_block_slides(env: Env, s: State, cell: int, goal: int, weight: F32)
    requires
        0 <= cell < s.updated.len(),
        0 <= goal < s.updated.len(),
        cell != goal,
        post_phase_of(env, s.updated[goal].element_idx) == 0,
    ensures
        ({
            let c = s.updated[cell];
            let mass = c.mass.times(weight);
            let germs = F32::from_i32(c.disease_count).times(weight).to_i32();
            let left = c.mass.minus(mass).max(num(ZERO));
            exists|t: State| #[trigger]
                is_part_way(env, s, t, cell, goal, mass, germs, left) && unstable::slid(
                    env,
                    s,
                    cell,
                    goal,
                    weight,
                ) == unstable::dropped(env, t, goal)
        }),
{
    let c = s.updated[cell];
    let mass = c.mass.times(weight);
    let germs = F32::from_i32(c.disease_count).times(weight).to_i32();
    let left = c.mass.minus(mass).max(num(ZERO));
    room_laws::lemma_post_bits(env, s.updated[goal].element_idx);
    let b = s.put(
        goal,
        Cell {
            element_idx: c.element_idx,
            mass,
            temperature: c.temperature,
            disease_idx: c.disease_idx,
            disease_count: germs,
            ..s.updated[goal]
        },
    );
    let d = unstable::thinned(b, cell, mass, germs).changed(env, goal).changed(env, cell);
    let t = if d.updated[cell].mass.le(num(LEAST_NORMAL)) {
        displacement::evaporated(env, d, cell)
    } else {
        d
    };
    if 0 <= germs && 0 <= c.disease_count {
        heat_laws::law_germs_leave(Cell { mass: left, ..c }, germs);
    }
    assert(is_part_way(env, s, t, cell, goal, mass, germs, left));
}

/// Whether a part of a block has come to a cell and left the block.
pub open spec fn is_part_way(
    env: Env,
    s: State,
    t: State,
    cell: int,
    goal: int,
    mass: F32,
    germs: i32,
    left: F32,
) -> bool {
    let c = s.updated[cell];
    let there = t.updated[goal];
    let here = t.updated[cell];
    &&& there.element_idx == c.element_idx
    &&& there.mass == mass
    &&& there.temperature == c.temperature
    &&& there.disease_idx == c.disease_idx
    &&& there.disease_count == germs
    &&& left.le(num(LEAST_NORMAL)) ==> is_void_of(env, c, here)
    &&& !left.le(num(LEAST_NORMAL)) ==> {
        &&& here.mass == left
        &&& here.temperature == c.temperature
        &&& here.element_idx == c.element_idx
        &&& 0 <= germs < c.disease_count ==> here.disease_count == c.disease_count - germs
    }
    &&& alike_but(s, t, set![cell, goal])
}

/// A colour between two others is the lower one where nothing of the way is gone, channel by
/// channel.
pub proof fn law_blend_begins_with_the_lower(lower: u32, upper: u32)
    requires
        lower < 256,
        upper < 256,
    ensures
        property_texture::blended_channel(lower, upper, num(ZERO)) == lower,
{
    let x = F32::from_i32((upper - lower) as i32);
    crate::number_laws::law_integer_round_trip((upper - lower) as i32);
    crate::number_laws::law_times_commutes(x, num(ZERO));
    laws::lemma_zero_value();
    laws::lemma_product_sign(num(ZERO), x);
    let z = x.times(num(ZERO));
    laws::lemma_whole_zero(z);
    reveal(F32::to_range);
}

/// A colour between two others is the upper one where all of the way is gone, channel by channel.
pub proof fn law_blend_ends_with_the_upper(lower: u32, upper: u32)
    requires
        lower < 256,
        upper < 256,
    ensures
        property_texture::blended_channel(lower, upper, num(ONE)) == upper,
{
    let x = F32::from_i32((upper - lower) as i32);
    crate::number_laws::law_integer_round_trip((upper - lower) as i32);
    crate::number_laws::law_times_one(x);
}

/// Of the colours of a gradient the last one counts that begins at or before a depth, towards the
/// next one; before the first one the colour is the element's own.
pub proof fn law_gradient(colour: u32, gradient: Seq<u32>, n: int, t: F32, i: int)
    requires
        0 <= i <= n,
        n <= gradient.len(),
    ensures
        ({
            let c = property_texture::graded(colour, gradient, n, t, i);
            let begins = |k: int| property_texture::spec_from_byte(gradient[k] >> 24).le(t);
            &&& (forall|k: int| 0 <= k < i ==> !#[trigger] begins(k)) ==> c == colour
            &&& i > 0 && !begins(i - 1) ==> c == property_texture::graded(
                colour,
                gradient,
                n,
                t,
                i - 1,
            )
            &&& i == n && n > 0 && begins(n - 1) ==> c == property_texture::blended(
                gradient[n - 1],
                gradient[n - 1],
                num(ZERO),
            )
        }),
    decreases i,
{
    let begins = |k: int| property_texture::spec_from_byte(gradient[k] >> 24).le(t);
    if i > 0 {
        law_gradient(colour, gradient, n, t, i - 1);
        assert(begins(i - 1) == property_texture::spec_from_byte(gradient[i - 1] >> 24).le(t));
        if i == n {
            let a = property_texture::spec_from_byte(gradient[n - 1] >> 24);
            lemma_no_span(a);
        }
    }
}

proof fn lemma_no_span(a: F32)
    ensures
        !num(ZERO).lt(a.minus(a)),
{
    if a.is_finite() {
        crate::number_laws::law_minus_self(a);
    } else {
        assert(a.neg().mag() == a.mag());
        reveal(F32::spec_plus);
    }
}

} // verus!
