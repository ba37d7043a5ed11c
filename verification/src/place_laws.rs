//! What holds where matter is brought into the world, and where it is lost to space.
use crate::cell::share;
use crate::cell::Cell;
use crate::constants::LEAST_NORMAL;
use crate::constants::MINUS_THREE_TENTHS;
use crate::constants::THREE_TENTHS;
use crate::constants::ZERO;
use crate::displacement;
use crate::heat_laws;
use crate::laws;
use crate::liquid_laws;
use crate::move_laws;
use crate::number::num;
use crate::number::F32;
use crate::number_laws;
use crate::placing;
use crate::placing::Load;
use crate::push_laws;
use crate::push_laws::alike_but;
use crate::room_laws;
use crate::room_laws::post_phase_of;
use crate::sim_data::Env;
use crate::sim_data::State;
use crate::space;
use crate::space::SpacePass;
use crate::sweep::Pass;
use vstd::prelude::*;

verus! {

/// Whether a load has come to a cell that held `was`: its mass is added, its warmth mixed in, its
/// germs come along, and the cell holds its element.
pub open spec fn has_taken(env: Env, was: Cell, now: Cell, load: Load) -> bool {
    &&& heat_laws::has_gained(
        was,
        Cell { element_idx: was.element_idx, ..now },
        load.mass,
        load.temperature,
    )
    &&& heat_laws::has_germs_from(
        env.diseases,
        was,
        now,
        load.disease_idx,
        load.disease_count,
    )
    &&& now.element_idx == load.elem
}

proof fn lemma_taken(env: Env, was: Cell, load: Load)
    requires
        heat_laws::can_mix(was.mass, was.temperature, load.mass, load.temperature),
    ensures
        ({
            let c = Cell { element_idx: load.elem, ..was };
            has_taken(
                env,
                was,
                c.spec_with_mass_added(
                    env.diseases,
                    load.mass,
                    load.temperature,
                    load.disease_idx,
                    load.disease_count,
                ),
                load,
            )
        }),
{
    heat_laws::law_added_mass_mixes(
        Cell { element_idx: load.elem, ..was },
        env.diseases,
        load.mass,
        load.temperature,
        load.disease_idx,
        load.disease_count,
    );
}

/// What is added to its own kind, or to an empty cell, is taken in there; nothing else changes.
/// That holds of liquids and of gases.
pub proof fn law_added_matter_is_taken_in(env: Env, s: State, cell: int, load: Load)
    requires
        0 <= cell < s.updated.len(),
        s.updated[cell].element_idx == load.elem || (post_phase_of(
            env,
            s.updated[cell].element_idx,
        ) == 0 && s.updated[cell].element_idx != env.void_element_idx),
        heat_laws::can_mix(
            s.updated[cell].mass,
            s.updated[cell].temperature,
            load.mass,
            load.temperature,
        ),
    ensures
        ({
            let t = placing::liquid_added(env, s, cell, load);
            let u = placing::gas_added(env, s, cell, load);
            &&& has_taken(env, s.updated[cell], t.updated[cell], load)
            &&& alike_but(s, t, set![cell])
            &&& has_taken(env, s.updated[cell], u.updated[cell], load)
            &&& alike_but(s, u, set![cell])
        }),
{
    room_laws::lemma_post_bits(env, s.updated[cell].element_idx);
    lemma_taken(env, s.updated[cell], load);
}

/// Liquid and gas that are added where a gas is, which can leave, push that out and take its place.
pub proof fn law_added_matter_pushes_gas_out(env: Env, s: State, cell: int, load: Load, goal: int)
    requires
        0 <= cell < s.updated.len(),
        env.width >= 2,
        s.updated[cell].element_idx != load.elem,
        s.updated[cell].element_idx != env.void_element_idx,
        post_phase_of(env, s.updated[cell].element_idx) == 1,
        displacement::gas_goal(env, s, cell, s.updated[cell].element_idx) == Some(goal),
        heat_laws::can_mix(
            s.updated[goal].mass,
            s.updated[goal].temperature,
            s.updated[cell].mass,
            s.updated[cell].temperature,
        ),
        heat_laws::can_mix(num(ZERO), num(ZERO), load.mass, load.temperature),
    ensures
        ({
            let t = placing::liquid_added(env, s, cell, load);
            let u = placing::gas_added(env, s, cell, load);
            let gas = s.updated[cell];
            let empty = Cell {
                mass: num(ZERO),
                temperature: num(ZERO),
                disease_idx: 0xff,
                disease_count: 0,
                disease_infestation_tick_count: 0,
                disease_growth_accumulated_error: num(ZERO),
                ..gas
            };
            &&& has_taken(env, empty, t.updated[cell], load)
            &&& t.updated[goal].element_idx == gas.element_idx
            &&& heat_laws::has_gained(
                s.updated[goal],
                Cell { element_idx: s.updated[goal].element_idx, ..t.updated[goal] },
                gas.mass,
                gas.temperature,
            )
            &&& alike_but(s, t, set![cell, goal])
            &&& u.updated == t.updated
        }),
{
    let gas = s.updated[cell];
    room_laws::lemma_post_bits(env, gas.element_idx);
    laws::lemma_gas_goal(env, s, cell, gas.element_idx);
    push_laws::law_moving_on(env, s, cell, goal);
    let m = displacement::moved(env, s, cell, goal);
    let empty = Cell {
        mass: num(ZERO),
        temperature: num(ZERO),
        disease_idx: 0xff,
        disease_count: 0,
        disease_infestation_tick_count: 0,
        disease_growth_accumulated_error: num(ZERO),
        ..gas
    };
    assert((Cell { element_idx: load.elem, ..m.updated[cell] }) == (Cell {
        element_idx: load.elem,
        ..empty
    }));
    lemma_taken(env, empty, load);
}

/// Whether a place can be filled with a liquid: it is there and not solid.
pub open spec fn is_fillable(env: Env, s: State, n: int) -> bool {
    0 <= n < s.updated.len() && post_phase_of(env, s.updated[n].element_idx) != 3
}

/// A liquid that is added to a solid goes to the first neighbour that is not: left, right, below or
/// above.
pub proof fn law_where_liquid_goes(env: Env, s: State, cell: int)
    ensures
        ({
            let n = placing::liquid_target(env, s, cell);
            let w = env.width as int;
            let free = |k: int| is_fillable(env, s, k);
            &&& free(cell) ==> n == cell
            &&& !free(cell) && free(cell - 1) ==> n == cell - 1
            &&& !free(cell) && !free(cell - 1) && free(cell + 1) ==> n == cell + 1
            &&& !free(cell) && !free(cell - 1) && !free(cell + 1) && free(cell - w) ==> n == cell
                - w
            &&& !free(cell) && !free(cell - 1) && !free(cell + 1) && !free(cell - w) && free(
                cell + w,
            ) ==> n == cell + w
        }),
{
    lemma_fillable(env, s, cell);
    lemma_fillable(env, s, cell - 1);
    lemma_fillable(env, s, cell + 1);
    lemma_fillable(env, s, cell - env.width);
    lemma_fillable(env, s, cell + env.width);
}

proof fn lemma_fillable(env: Env, s: State, n: int)
    ensures
        is_fillable(env, s, n) == placing::yields(env, s, n),
{
    if 0 <= n < s.updated.len() {
        room_laws::lemma_post_bits(env, s.updated[n].element_idx);
    }
}

/// What is added where nothing makes room takes from what is there: the lesser mass is taken off
/// the greater. Where more comes than was there, the rest of it is what the cell holds, at its own
/// temperature and with its share of germs.
pub proof fn law_replacing(env: Env, s: State, cell: int, load: Load)
    requires
        0 <= cell < s.updated.len(),
    ensures
        ({
            let t = placing::replaced(env, s, cell, load);
            let c = s.updated[cell];
            let now = t.updated[cell];
            let rest = load.mass.minus(c.mass);
            &&& alike_but(s, t, set![cell])
            &&& load.mass.lt(c.mass) ==> now == (Cell { mass: c.mass.minus(load.mass), ..c })
            &&& !load.mass.lt(c.mass) && num(ZERO).lt(load.mass) && heat_laws::can_mix(
                num(ZERO),
                num(ZERO),
                rest,
                load.temperature,
            ) && !rest.le(num(LEAST_NORMAL)) ==> {
                let empty = Cell { mass: num(ZERO), temperature: num(ZERO), ..c };
                &&& now.element_idx == load.elem
                &&& heat_laws::has_gained(
                    empty,
                    Cell { element_idx: c.element_idx, ..now },
                    rest,
                    load.temperature,
                )
                &&& heat_laws::has_germs_from(
                    env.diseases,
                    c,
                    now,
                    load.disease_idx,
                    share(rest, load.mass, load.disease_count),
                )
            }
        }),
{
    let c = s.updated[cell];
    let rest = load.mass.minus(c.mass);
    if heat_laws::can_mix(num(ZERO), num(ZERO), rest, load.temperature) {
        let empty = Cell {
            element_idx: load.elem,
            mass: num(ZERO),
            temperature: num(ZERO),
            ..c
        };
        heat_laws::law_added_mass_mixes(
            empty,
            env.diseases,
            rest,
            load.temperature,
            load.disease_idx,
            share(rest, load.mass, load.disease_count),
        );
        laws::lemma_zero_value();
        liquid_laws::lemma_exact_zero(rest);
        number_laws::law_sum_is_rounded(num(ZERO), rest);
        number_laws::law_rounded_exact(rest);
        let d = empty.spec_with_mass_added(
            env.diseases,
            rest,
            load.temperature,
            load.disease_idx,
            share(rest, load.mass, load.disease_count),
        );
        assert(d.mass == num(ZERO).plus(rest));
        assert(d.mass.rank() == rest.rank());
    }
}

/// What is added where nothing makes room joins the first neighbour of its own kind: right, left,
/// above or below.
pub proof fn law_joining_a_neighbour(env: Env, s: State, cell: int, load: Load)
    ensures
        ({
            let t = placing::joined_or_replaced(env, s, cell, load);
            let w = env.width as int;
            let kin = |k: int|
                0 <= k < s.updated.len() && s.updated[k].element_idx == load.elem;
            let joins = |k: int|
                heat_laws::can_mix(
                    s.updated[k].mass,
                    s.updated[k].temperature,
                    load.mass,
                    load.temperature,
                ) ==> has_taken(env, s.updated[k], t.updated[k], load) && alike_but(s, t, set![k]);
            &&& kin(cell + 1) ==> joins(cell + 1)
            &&& !kin(cell + 1) && kin(cell - 1) ==> joins(cell - 1)
            &&& !kin(cell + 1) && !kin(cell - 1) && kin(cell + w) ==> joins(cell + w)
            &&& !kin(cell + 1) && !kin(cell - 1) && !kin(cell + w) && kin(cell - w) ==> joins(
                cell - w,
            )
            &&& !kin(cell + 1) && !kin(cell - 1) && !kin(cell + w) && !kin(cell - w) ==> t
                == placing::replaced(env, s, cell, load)
        }),
{
    let w = env.width as int;
    lemma_joins(env, s, cell + 1, load);
    lemma_joins(env, s, cell - 1, load);
    lemma_joins(env, s, cell + w, load);
    lemma_joins(env, s, cell - w, load);
}

proof fn lemma_joins(env: Env, s: State, k: int, load: Load)
    ensures
        0 <= k < s.updated.len() && s.updated[k].element_idx == load.elem && heat_laws::can_mix(
            s.updated[k].mass,
            s.updated[k].temperature,
            load.mass,
            load.temperature,
        ) ==> {
            let t = placing::absorbed(env, s, k, load);
            has_taken(env, s.updated[k], t.updated[k], load) && alike_but(s, t, set![k])
        },
{
    if 0 <= k < s.updated.len() && heat_laws::can_mix(
        s.updated[k].mass,
        s.updated[k].temperature,
        load.mass,
        load.temperature,
    ) {
        lemma_taken(env, s.updated[k], load);
        assert(s.updated[k].element_idx == load.elem ==> (Cell {
            element_idx: load.elem,
            ..s.updated[k]
        }) == s.updated[k]);
    }
}

/// A gas that finds no room goes to the left, the right or above, in this order, where there is
/// nothing or its own kind.
pub proof fn law_gas_finds_shelter(env: Env, s: State, cell: int, load: Load)
    requires
        0 <= cell < s.updated.len(),
        s.updated[cell].element_idx != load.elem,
        post_phase_of(env, s.updated[cell].element_idx) == 3,
    ensures
        ({
            let t = placing::gas_added(env, s, cell, load);
            let w = env.width as int;
            let free = |k: int|
                0 <= k < s.updated.len() && (s.updated[k].element_idx == load.elem
                    || s.updated[k].element_idx == env.vacuum_element_idx);
            let goes = |k: int|
                {
                    &&& t.updated[k].element_idx == load.elem
                    &&& alike_but(s, t, set![k])
                    &&& s.updated[k].element_idx == env.vacuum_element_idx ==> {
                        &&& t.updated[k].mass == load.mass
                        &&& t.updated[k].temperature == load.temperature
                        &&& t.updated[k].disease_idx == load.disease_idx
                        &&& t.updated[k].disease_count == load.disease_count
                        &&& heat_laws::same_place(s.updated[k], t.updated[k])
                    }
                    &&& s.updated[k].element_idx != env.vacuum_element_idx && heat_laws::can_mix(
                        s.updated[k].mass,
                        s.updated[k].temperature,
                        load.mass,
                        load.temperature,
                    ) ==> has_taken(env, s.updated[k], t.updated[k], load)
                };
            &&& free(cell - 1) ==> goes(cell - 1)
            &&& !free(cell - 1) && free(cell + 1) ==> goes(cell + 1)
            &&& !free(cell - 1) && !free(cell + 1) && free(cell + w) ==> goes(cell + w)
            &&& !free(cell - 1) && !free(cell + 1) && !free(cell + w) ==> t == placing::replaced(
                env,
                s,
                cell,
                load,
            )
        }),
{
    room_laws::lemma_post_bits(env, s.updated[cell].element_idx);
    lemma_joins(env, s, cell - 1, load);
    lemma_joins(env, s, cell + 1, load);
    lemma_joins(env, s, cell + env.width, load);
}

/// Whether a load has been laid down in a cell: it holds that and nothing else.
pub open spec fn is_laid(was: Cell, now: Cell, load: Load) -> bool {
    &&& now.element_idx == load.elem
    &&& now.mass == load.mass
    &&& now.temperature == load.temperature
    &&& now.disease_idx == load.disease_idx
    &&& now.disease_count == load.disease_count
    &&& heat_laws::same_place(was, now)
}

/// A solid that is stacked goes up over the solids in its column to the first empty cell, and stops
/// at what cannot be passed.
pub proof fn law_solid_is_stacked(env: Env, s: State, cell: int, load: Load, k: int)
    requires
        env.width > 0,
        0 <= cell,
        0 <= k,
        cell + k * env.width < s.updated.len(),
        forall|i: int|
            0 <= i < k ==> {
                let c = s.updated[#[trigger] (cell + i * env.width)];
                post_phase_of(env, c.element_idx) == 3 && c.element_idx
                    != env.unobtanium_element_idx
            },
        ({
            let c = s.updated[cell + k * env.width];
            ||| c.element_idx == env.unobtanium_element_idx
            ||| post_phase_of(env, c.element_idx) == -1
            ||| post_phase_of(env, c.element_idx) == 0
        }),
    ensures
        ({
            let t = placing::stacked(env, s, cell, load);
            let n = cell + k * env.width;
            let c = s.updated[n];
            let stops = c.element_idx == env.unobtanium_element_idx || post_phase_of(
                env,
                c.element_idx,
            ) == -1;
            &&& stops ==> t == s
            &&& !stops ==> is_laid(c, t.updated[n], load) && alike_but(s, t, set![n])
        }),
    decreases k,
{
    let w = env.width as int;
    if k == 0 {
        assert(0 * w == 0);
        room_laws::lemma_post_bits(env, s.updated[cell].element_idx);
    } else {
        assert(cell + 0 * w == cell);
        assert(post_phase_of(env, s.updated[cell + 0 * w].element_idx) == 3);
        room_laws::lemma_post_bits(env, s.updated[cell].element_idx);
        assert(k * w >= w) by (nonlinear_arith)
            requires
                k >= 1,
                w > 0,
        ;
        assert((k - 1) * w == k * w - w) by (nonlinear_arith);
        assert forall|i: int| 0 <= i < k - 1 implies {
            let c = s.updated[#[trigger] (cell + w + i * w)];
            post_phase_of(env, c.element_idx) == 3 && c.element_idx != env.unobtanium_element_idx
        } by {
            assert((i + 1) * w == i * w + w) by (nonlinear_arith);
            let c = s.updated[cell + (i + 1) * w];
            assert(post_phase_of(env, c.element_idx) == 3);
        }
        law_solid_is_stacked(env, s, cell + w, load, k - 1);
    }
}

/// A heap of the same solid is filled up to its full mass, by what there is, and the rest is handed
/// on; with its share of germs, and mixed in warmth.
pub proof fn law_heap_is_filled(env: Env, s: State, n: int, load: Load, mass: F32)
    requires
        0 <= n < s.updated.len(),
        s.updated[n].element_idx == load.elem,
        env.elements.spec_post_process(load.elem) is Some,
    ensures
        ({
            let h = placing::heaped(
                env,
                placing::Heap { state: s, mass, done: false },
                n,
                load,
            );
            let c = s.updated[n];
            let room = env.elements.spec_post_process(load.elem)->0.max_mass.minus(c.mass);
            let part = if mass.lt(room) {
                mass
            } else {
                room
            };
            &&& room.le(num(ZERO)) ==> h.state == s && h.mass == mass && !h.done
            &&& num(ZERO).lt(room) && !mass.is_nan() && heat_laws::can_mix(
                c.mass,
                c.temperature,
                part,
                load.temperature,
            ) ==> {
                &&& heat_laws::has_gained(c, h.state.updated[n], part, load.temperature)
                &&& heat_laws::has_germs_from(
                    env.diseases,
                    c,
                    h.state.updated[n],
                    load.disease_idx,
                    share(part, mass, load.disease_count),
                )
                &&& alike_but(s, h.state, set![n])
                &&& h.mass == mass.minus(part)
                &&& h.done == h.mass.le(num(ZERO))
            }
        }),
{
    let c = s.updated[n];
    let room = env.elements.spec_post_process(load.elem)->0.max_mass.minus(c.mass);
    let part = if mass.lt(room) {
        mass
    } else {
        room
    };
    if num(ZERO).lt(room) && heat_laws::can_mix(c.mass, c.temperature, part, load.temperature) {
        heat_laws::law_added_mass_mixes(
            c,
            env.diseases,
            part,
            load.temperature,
            load.disease_idx,
            share(part, mass, load.disease_count),
        );
    }
}

/// A solid of the second way of adding is mixed into what is there, where that is its own kind or
/// nothing; another solid, and what is not in the table, take nothing in. Other ways add nothing.
pub proof fn law_solid_is_merged(env: Env, s: State, cell: int, load: Load, kind: u8)
    requires
        0 <= cell < s.updated.len(),
    ensures
        ({
            let t = placing::solid_added(env, s, cell, load, kind);
            let c = s.updated[cell];
            let p = post_phase_of(env, c.element_idx);
            &&& kind > 1 ==> t == s
            &&& kind == 1 && (p == -1 || (p == 3 && c.element_idx != load.elem)) ==> t == s
            &&& kind == 1 && (p == 0 || (p == 3 && c.element_idx == load.elem))
                && heat_laws::can_mix(c.mass, c.temperature, load.mass, load.temperature) ==> {
                &&& heat_laws::has_gained(c, t.updated[cell], load.mass, load.temperature)
                &&& heat_laws::has_germs_from(
                    env.diseases,
                    c,
                    t.updated[cell],
                    load.disease_idx,
                    load.disease_count,
                )
                &&& alike_but(s, t, set![cell])
            }
        }),
{
    let c = s.updated[cell];
    room_laws::lemma_post_bits(env, c.element_idx);
    if heat_laws::can_mix(c.mass, c.temperature, load.mass, load.temperature) {
        heat_laws::law_added_mass_mixes(
            c,
            env.diseases,
            load.mass,
            load.temperature,
            load.disease_idx,
            load.disease_count,
        );
    }
}

/// In the zone of space, with nothing behind it, a gas loses a fiftieth of a unit of mass and a
/// liquid twenty, as far as there is any; its warmth and germs stay, and its flow is set.
/// Elsewhere, and of solids, nothing is lost.
pub proof fn law_what_space_takes(env: Env, s: State, y: int, x: int)
    requires
        0 <= y * env.width + x < s.updated.len(),
        s.flow.len() == s.updated.len(),
    ensures
        ({
            let i = y * env.width + x;
            let t = SpacePass.effect(env, s, y, x);
            let c = s.updated[i];
            let p = post_phase_of(env, c.element_idx);
            let exposed = env.world_zones@[i] == 0xff && env.backwall@[i]
                == env.backwall_vacuum_element_idx;
            let one = num(crate::constants::ONE).times(num(crate::constants::FIFTIETH));
            let many = num(crate::constants::THOUSAND).times(num(crate::constants::FIFTIETH));
            let left = if p == 1 {
                c.mass.minus(one)
            } else {
                c.mass.minus(many)
            };
            &&& !exposed || (p != 1 && p != 2) ==> t == s
            &&& exposed && (p == 1 || p == 2) ==> {
                &&& t.updated[i] == (Cell { mass: t.updated[i].mass, ..c })
                &&& left.le(num(ZERO)) ==> t.updated[i].mass == num(ZERO)
                &&& !left.le(num(ZERO)) ==> t.updated[i].mass == left
                &&& t.flow[i].x == num(MINUS_THREE_TENTHS) && t.flow[i].w == num(MINUS_THREE_TENTHS)
                &&& t.flow[i].y == num(THREE_TENTHS) && t.flow[i].z == num(THREE_TENTHS)
                &&& alike_but(s, t, set![i])
            }
        }),
{
    room_laws::lemma_post_bits(env, s.updated[y * env.width + x].element_idx);
}

/// A liquid that is added to another liquid takes its place where that can be displaced.
pub proof fn law_added_liquid_displaces(env: Env, s: State, cell: int, load: Load)
    requires
        0 <= cell < s.updated.len(),
        s.updated[cell].element_idx != load.elem,
        s.updated[cell].element_idx != env.void_element_idx,
        post_phase_of(env, s.updated[cell].element_idx) == 2,
    ensures
        ({
            let e = s.updated[cell].element_idx;
            let (u, ok) = displacement::liquid_displaced(env, s, cell, e);
            let t = placing::liquid_added(env, s, cell, load);
            let v = placing::gas_added(env, s, cell, load);
            &&& ok && 0 <= cell < u.updated.len() && heat_laws::can_mix(
                u.updated[cell].mass,
                u.updated[cell].temperature,
                load.mass,
                load.temperature,
            ) ==> {
                &&& has_taken(env, u.updated[cell], t.updated[cell], load)
                &&& alike_but(u, t, set![cell])
                &&& v.updated == t.updated
            }
            &&& !ok ==> t == placing::joined_or_replaced(env, u, cell, load)
        }),
{
    let e = s.updated[cell].element_idx;
    room_laws::lemma_post_bits(env, e);
    let (u, ok) = displacement::liquid_displaced(env, s, cell, e);
    if ok && 0 <= cell < u.updated.len() && heat_laws::can_mix(
        u.updated[cell].mass,
        u.updated[cell].temperature,
        load.mass,
        load.temperature,
    ) {
        lemma_taken(env, u.updated[cell], load);
    }
}

/// A solid goes to heaps of its own kind first: below, in the cell, above, and two above; what no
/// heap takes is stacked.
pub proof fn law_solid_without_heaps_is_stacked(env: Env, s: State, cell: int, load: Load)
    requires
        0 <= cell < s.updated.len(),
        ({
            let heap = |k: int| 0 <= k < s.updated.len() && s.updated[k].element_idx == load.elem;
            let w = env.width as int;
            !heap(cell - w) && !heap(cell) && !heap(cell + w) && !heap(cell + w + w)
        }),
    ensures
        placing::solid_added(env, s, cell, load, 0) == placing::stacked(env, s, cell, load),
{
    assert((Load { mass: load.mass, ..load }) == load);
}

/// The heap below takes a solid before the cell itself does, and that before those above.
#[verifier::rlimit(40)]
pub proof fn law_heaps_in_order(env: Env, s: State, cell: int, load: Load)
    requires
        0 <= cell < s.updated.len(),
    ensures
        ({
            let w = env.width as int;
            let start = placing::Heap { state: s, mass: load.mass, done: false };
            let a = placing::heaped(env, start, cell - w, load);
            let b = placing::heaped(env, a, cell, load);
            let c = placing::heaped(env, b, cell + w, load);
            let d = placing::heaped(env, c, cell + w + w, load);
            let t = placing::solid_added(env, s, cell, load, 0);
            &&& d.done ==> t == d.state
            &&& !d.done ==> t == placing::stacked(
                env,
                d.state,
                cell,
                Load { mass: d.mass, ..load },
            )
            &&& a.done ==> d == a
            &&& b.done ==> d == b
            &&& c.done ==> d == c
        }),
{
}

/// A solid that lands where a gas is, which can leave, pushes it out.
pub proof fn law_solid_pushes_gas_out(env: Env, s: State, cell: int, load: Load)
    requires
        0 <= cell < s.updated.len(),
        env.width >= 2,
        s.updated[cell].element_idx != env.unobtanium_element_idx,
        post_phase_of(env, s.updated[cell].element_idx) == 1,
    ensures
        ({
            let e = s.updated[cell].element_idx;
            let t = placing::stacked(env, s, cell, load);
            let goal = displacement::gas_goal(env, s, cell, e);
            &&& is_laid(s.updated[cell], t.updated[cell], load)
            &&& goal matches Some(g) ==> t.updated[g] == displacement::moved(
                env,
                s,
                cell,
                g,
            ).updated[g] && alike_but(s, t, set![cell, g])
            &&& goal is None ==> alike_but(s, t, set![cell])
        }),
{
    let e = s.updated[cell].element_idx;
    room_laws::lemma_post_bits(env, e);
    laws::lemma_gas_goal(env, s, cell, e);
}

/// A gas that is added where a liquid is above it, and a gas that cannot leave in it: the liquid
/// comes down first.
pub proof fn law_flooding(env: Env, s: State, cell: int)
    requires
        0 <= cell,
        0 < env.width,
        cell + env.width < s.updated.len(),
    ensures
        ({
            let above = cell + env.width;
            let t = placing::flooded(env, s, cell);
            &&& post_phase_of(env, s.updated[above].element_idx) == 2 ==> move_laws::has_swapped(
                s,
                t,
                above,
                cell,
            )
            &&& post_phase_of(env, s.updated[above].element_idx) != 2 ==> t == s
        }),
{
    room_laws::lemma_post_bits(env, s.updated[cell + env.width].element_idx);
    move_laws::law_swap(s, cell + env.width, cell);
}

} // verus!
