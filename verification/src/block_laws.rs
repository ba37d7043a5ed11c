//! What holds of solid blocks: how they sublimate, and how they fall.
use crate::cell::share;
use crate::cell::Cell;
use crate::constants::FIFTH;
use crate::constants::HALF;
use crate::constants::HALF_TURN;
use crate::constants::MINUS_QUARTER_TURN;
use crate::constants::NANO;
use crate::constants::ONE;
use crate::constants::QUARTER_TURN;
use crate::constants::SUBLIMATE_LIMIT;
use crate::constants::THREE;
use crate::constants::ZERO;
use crate::displacement;
use crate::element::ElementPostProcessData;
use crate::heat_laws;
use crate::laws;
use crate::move_laws;
use crate::number::num;
use crate::number::F32;
use crate::number_laws;
use crate::push_laws::alike_but;
use crate::push_laws::is_void_of;
use crate::region_events::UnstableCellInfo;
use crate::room_laws;
use crate::room_laws::post_phase_of;
use crate::sim_data;
use crate::sim_data::Env;
use crate::sim_data::State;
use crate::sublimation;
use crate::unstable;
use vstd::prelude::*;

verus! {

/// Whether a place holds a solid that sublimates.
pub open spec fn sublimates(env: Env, s: State, n: int) -> bool {
    &&& 0 <= n < s.updated.len()
    &&& post_phase_of(env, s.updated[n].element_idx) == 3
    &&& env.elements.spec_post_process(s.updated[n].element_idx)->0.sublimate_index != 0xffff
}

/// What does not sublimate stays as it is, and no random number is drawn for it.
pub proof fn law_other_neighbours_are_left_alone(
    env: Env,
    s: State,
    cell: int,
    n: int,
    rotation: F32,
    elem: u16,
    vacant: bool,
    done: bool,
)
    requires
        !sublimates(env, s, n),
    ensures
        sublimation::sublimated_from(env, s, cell, n, rotation, elem, vacant, done) == (s, done),
{
    reveal(sublimation::sublimated_from);
    if 0 <= n < s.updated.len() {
        room_laws::lemma_post_bits(env, s.updated[n].element_idx);
    }
}

/// A block that sublimates does so where the random number is not above its chance. Where less than
/// one more step's worth would be left, all of it turns into gas on the spot.
#[verifier::rlimit(40)]
pub proof fn law_when_blocks_sublimate(
    env: Env,
    s: State,
    cell: int,
    n: int,
    rotation: F32,
    elem: u16,
    vacant: bool,
    done: bool,
)
    requires
        sublimates(env, s, n),
    ensures
        ({
            let (t, hit) = sublimation::sublimated_from(
                env,
                s,
                cell,
                n,
                rotation,
                elem,
                vacant,
                done,
            );
            let block = s.updated[n];
            let d = env.elements.spec_post_process(block.element_idx)->0;
            let step = d.sublimate_rate.times(num(FIFTH));
            let roll = s.rolled().roll();
            let amount = if block.mass.lt(step) {
                block.mass
            } else {
                step
            };
            let now = t.updated[n];
            &&& d.sublimate_probability.lt(roll) ==> t == s.rolled() && hit == done
            &&& !d.sublimate_probability.lt(roll) && !step.is_nan() && !step.le(
                block.mass.minus(amount),
            ) ==> {
                &&& hit
                &&& now.element_idx == d.sublimate_index
                &&& now.mass == block.mass.times(d.sublimate_efficiency)
                &&& now.temperature == block.temperature
                &&& heat_laws::same_germs(block, now)
                &&& heat_laws::same_place(block, now)
                &&& alike_but(s, t, set![n])
            }
        }),
{
    reveal(sublimation::sublimated_from);
    room_laws::lemma_post_bits(env, s.updated[n].element_idx);
}

/// Whether a block has lost an amount of mass and some germs; it is gone where next to nothing is
/// left.
pub open spec fn is_worn(env: Env, was: Cell, now: Cell, amount: F32, germs: i32) -> bool {
    let left = was.mass.minus(amount);
    &&& left.le(num(NANO)) ==> is_void_of(env, was, now)
    &&& !left.le(num(NANO)) ==> {
        &&& now.mass == left
        &&& now.temperature == was.temperature
        &&& now.element_idx == was.element_idx
        &&& heat_laws::same_place(was, now)
        &&& 0 <= germs < was.disease_count ==> now.disease_count == was.disease_count - germs
            && now.disease_idx == was.disease_idx
    }
}

proof fn lemma_worn(
    env: Env,
    s: State,
    n: int,
    amount: F32,
    germs: i32,
    fx: i32,
    rotation: F32,
)
    requires
        0 <= n < s.updated.len(),
    ensures
        ({
            let t = sublimation::worn(env, s, n, amount, germs, fx, rotation);
            &&& is_worn(env, s.updated[n], t.updated[n], amount, germs)
            &&& alike_but(s, t, set![n])
            &&& s.accumulated_flow.len() == s.updated.len() ==> t.accumulated_flow[n]
                == s.accumulated_flow[n].plus(amount)
        }),
{
    let c = s.updated[n];
    if 0 <= germs && 0 <= c.disease_count {
        heat_laws::law_germs_leave(Cell { mass: c.mass.minus(amount), ..c }, germs);
    }
}

/// A block that sublimates into its own gas gives a step's worth times its efficiency, at its own
/// temperature and with its share of germs, or as much as the gas has room for; and loses in
/// proportion.
pub proof fn law_block_gives_to_its_gas(
    env: Env,
    s: State,
    cell: int,
    n: int,
    d: ElementPostProcessData,
    amount: F32,
    rotation: F32,
)
    requires
        0 <= n < s.updated.len(),
        0 <= cell < s.updated.len(),
        n != cell,
    ensures
        ({
            let t = sublimation::given_to_same(env, s, cell, n, d, amount, rotation);
            let gain = amount.times(d.sublimate_efficiency);
            let room = num(SUBLIMATE_LIMIT).minus(s.updated[cell].mass);
            let c = s.updated[cell];
            let block = s.updated[n];
            let full = room.lt(gain);
            let got = if full {
                room
            } else {
                gain
            };
            let lost = if full {
                room.over(gain).times(amount)
            } else {
                amount
            };
            let germs = share(lost, block.mass, block.disease_count);
            &&& is_worn(env, block, t.updated[n], lost, germs)
            &&& alike_but(s, t, set![cell, n])
            &&& heat_laws::can_mix(c.mass, c.temperature, got, block.temperature) ==> {
                &&& heat_laws::has_gained(c, t.updated[cell], got, block.temperature)
                &&& heat_laws::has_germs_from(
                    env.diseases,
                    c,
                    t.updated[cell],
                    block.disease_idx,
                    germs,
                )
            }
        }),
{
    let gain = amount.times(d.sublimate_efficiency);
    let room = num(SUBLIMATE_LIMIT).minus(s.updated[cell].mass);
    let c = s.updated[cell];
    let block = s.updated[n];
    let full = room.lt(gain);
    let got = if full {
        room
    } else {
        gain
    };
    let lost = if full {
        room.over(gain).times(amount)
    } else {
        amount
    };
    let germs = share(lost, block.mass, block.disease_count);
    if heat_laws::can_mix(c.mass, c.temperature, got, block.temperature) {
        heat_laws::law_added_mass_mixes(
            c,
            env.diseases,
            got,
            block.temperature,
            block.disease_idx,
            germs,
        );
    }
    let a = s.put(
        cell,
        c.spec_with_mass_added(env.diseases, got, block.temperature, block.disease_idx, germs),
    );
    lemma_worn(env, a, n, lost, germs, d.sublimate_fx, rotation);
}

/// A block that sublimates into an empty cell fills it with its gas: a step's worth times its
/// efficiency, at its own temperature and with its share of germs.
pub proof fn law_block_gives_to_an_empty_cell(
    env: Env,
    s: State,
    cell: int,
    n: int,
    d: ElementPostProcessData,
    amount: F32,
    rotation: F32,
    done: bool,
)
    requires
        0 <= n < s.updated.len(),
        0 <= cell < s.updated.len(),
        n != cell,
    ensures
        ({
            let (t, hit) = sublimation::given_to_other(
                env,
                s,
                cell,
                n,
                d,
                amount,
                rotation,
                true,
                done,
            );
            let c = s.updated[cell];
            let block = s.updated[n];
            let now = t.updated[cell];
            let germs = share(amount, block.mass, block.disease_count);
            &&& hit
            &&& now.element_idx == d.sublimate_index
            &&& now.mass == c.mass.plus(amount.times(d.sublimate_efficiency))
            &&& now.temperature == block.temperature
            &&& now.disease_idx == block.disease_idx
            &&& now.disease_count == germs
            &&& heat_laws::same_place(c, now)
            &&& is_worn(env, block, t.updated[n], amount, germs)
            &&& alike_but(s, t, set![cell, n])
        }),
{
    let c = s.updated[cell];
    let block = s.updated[n];
    let germs = share(amount, block.mass, block.disease_count);
    let b = s.put(
        cell,
        Cell {
            element_idx: d.sublimate_index,
            mass: c.mass.plus(amount.times(d.sublimate_efficiency)),
            temperature: block.temperature,
            disease_idx: block.disease_idx,
            disease_count: germs,
            ..c
        },
    ).changed(env, cell);
    lemma_worn(env, b, n, amount, germs, d.sublimate_fx, rotation);
}

/// Whether no neighbour but that at one distance sublimates.
pub open spec fn is_only_way(env: Env, s: State, cell: int, way: int) -> bool {
    &&& way != env.width ==> !sublimates(env, s, cell + env.width)
    &&& way != 1 ==> !sublimates(env, s, cell + 1)
    &&& way != -1 ==> !sublimates(env, s, cell - 1)
    &&& way != -env.width ==> !sublimates(env, s, cell - env.width)
}

/// A cell with one neighbour that sublimates, above, right, left or below, takes part with that one
/// alone, and the effect is turned towards it.
#[verifier::rlimit(40)]
pub proof fn law_one_block_sublimates(env: Env, s: State, cell: int, way: int)
    requires
        env.width >= 3,
        env.height >= 3,
        env.width <= cell < s.updated.len(),
        env.elements.spec_post_process(s.updated[cell].element_idx) is Some,
        !num(SUBLIMATE_LIMIT).le(s.updated[cell].mass),
        way == env.width || way == 1 || way == -1 || way == -env.width,
        is_only_way(env, s, cell, way),
        ({
            let e = s.updated[cell].element_idx;
            let turn = if way == env.width {
                num(HALF_TURN)
            } else if way == 1 {
                num(QUARTER_TURN)
            } else if way == -1 {
                num(MINUS_QUARTER_TURN)
            } else {
                num(ZERO)
            };
            let t = sublimation::sublimated_from(
                env,
                s,
                cell,
                cell + way,
                turn,
                e,
                post_phase_of(env, e) == 0,
                false,
            ).0;
            is_only_way(env, t, cell, way)
        }),
    ensures
        ({
            let e = s.updated[cell].element_idx;
            let turn = if way == env.width {
                num(HALF_TURN)
            } else if way == 1 {
                num(QUARTER_TURN)
            } else if way == -1 {
                num(MINUS_QUARTER_TURN)
            } else {
                num(ZERO)
            };
            sublimation::sublimated(env, s, cell) == sublimation::sublimated_from(
                env,
                s,
                cell,
                cell + way,
                turn,
                e,
                post_phase_of(env, e) == 0,
                false,
            ).0
        }),
{
    reveal(sublimation::sublimated);
    let e = s.updated[cell].element_idx;
    let w = env.width as int;
    room_laws::lemma_post_bits(env, e);
    let v = post_phase_of(env, e) == 0;
    let turn = if way == env.width {
        num(HALF_TURN)
    } else if way == 1 {
        num(QUARTER_TURN)
    } else if way == -1 {
        num(MINUS_QUARTER_TURN)
    } else {
        num(ZERO)
    };
    let t = sublimation::sublimated_from(env, s, cell, cell + way, turn, e, v, false).0;
    let (s1, d1) = sublimation::sublimated_from(
        env,
        s,
        cell,
        cell + w,
        num(HALF_TURN),
        e,
        v,
        false,
    );
    if way != w {
        law_other_neighbours_are_left_alone(env, s, cell, cell + w, num(HALF_TURN), e, v, false);
    }
    let (s2, d2) = sublimation::sublimated_from(
        env,
        s1,
        cell,
        cell + 1,
        num(QUARTER_TURN),
        e,
        v,
        d1,
    );
    if way != 1 {
        law_other_neighbours_are_left_alone(
            env,
            s1,
            cell,
            cell + 1,
            num(QUARTER_TURN),
            e,
            v,
            d1,
        );
    }
    let (s3, d3) = sublimation::sublimated_from(
        env,
        s2,
        cell,
        cell - 1,
        num(MINUS_QUARTER_TURN),
        e,
        v,
        d2,
    );
    if way != -1 {
        law_other_neighbours_are_left_alone(
            env,
            s2,
            cell,
            cell - 1,
            num(MINUS_QUARTER_TURN),
            e,
            v,
            d2,
        );
    }
    if way != -w {
        law_other_neighbours_are_left_alone(env, s3, cell, cell - w, num(ZERO), e, v, d3);
    }
}

/// A cell with a mass from its limit on takes in nothing that sublimates.
pub proof fn law_full_cells_take_nothing_in(env: Env, s: State, cell: int)
    requires
        0 <= cell < s.updated.len(),
        num(SUBLIMATE_LIMIT).le(s.updated[cell].mass),
    ensures
        sublimation::sublimated(env, s, cell) == s,
{
    reveal(sublimation::sublimated);
}

/// Whether a block can fall onto a place: it is not solid, in the table, not the void, and open to
/// solids.
pub open spec fn gives_way(env: Env, c: Cell) -> bool {
    &&& 0 <= post_phase_of(env, c.element_idx) <= 2
    &&& c.element_idx != env.void_element_idx
    &&& c.properties & 4 == 0
}

proof fn lemma_gives_way(env: Env, c: Cell)
    ensures
        gives_way(env, c) == unstable::takes_block(env, c),
{
    room_laws::lemma_post_bits(env, c.element_idx);
}

/// A block with something below it that gives way waits for its timer; once that is at zero it
/// falls: where there is a viewer it leaves its cell empty, and what it was is reported. A block on
/// solid ground stays.
pub proof fn law_block_falls(env: Env, s: State, cell: int)
    requires
        env.saved_options & 1 == 0,
        0 < env.width <= cell,
        cell < s.updated.len(),
        env.elements.spec_post_process(s.updated[cell - env.width].element_idx) is Some,
        s.events is Some,
        s.sink is None,
        env.on_game_grid(cell),
    ensures
        ({
            let t = unstable::checked(env, s, cell);
            let c = s.updated[cell];
            let soft = gives_way(env, s.updated[cell - env.width]);
            let (u, ticks) = unstable::ticked(s, cell);
            &&& !soft ==> t.updated == s.updated && t.events == s.events
            &&& soft && ticks != 0 ==> t == u
            &&& soft && ticks == 0 && !env.headless ==> {
                let list = t.events->0.unstable_cell_info;
                let e = list.last();
                &&& is_void_of(env, c, t.updated[cell])
                &&& alike_but(s, t, set![cell])
                &&& list.len() == s.events->0.unstable_cell_info.len() + 1
                &&& e.cell_idx == env.game_cell(cell) as i32
                &&& e.elem_idx == c.element_idx
                &&& e.mass == c.mass.times(num(ONE))
                &&& e.temperature == c.temperature
                &&& e.disease_idx == c.disease_idx
                &&& e.disease_count == F32::from_i32(c.disease_count).times(num(ONE)).to_i32()
            }
            &&& soft && ticks == 0 && env.headless ==> t == unstable::dropped(env, u, cell)
        }),
{
    lemma_gives_way(env, s.updated[cell - env.width]);
    let (u, ticks) = unstable::ticked(s, cell);
    assert(u.updated == s.updated && u.events == s.events && u.sink == s.sink);
}

/// A block that falls without a viewer goes down to the first solid, or the end of the grid, and
/// what it falls through comes up by one row.
pub proof fn law_block_drops_to_the_ground(env: Env, s: State, cell: int, k: int)
    requires
        env.width > 0,
        0 <= k,
        cell < s.updated.len(),
        cell - k * env.width >= 0,
        forall|i: int|
            1 <= i <= k ==> 0 <= post_phase_of(
                env,
                s.updated[#[trigger] (cell - i * env.width)].element_idx,
            ) <= 2,
        cell - (k + 1) * env.width < 0 || post_phase_of(
            env,
            s.updated[cell - (k + 1) * env.width].element_idx,
        ) == 3 || post_phase_of(env, s.updated[cell - (k + 1) * env.width].element_idx) == -1,
    ensures
        ({
            let t = unstable::dropped(env, s, cell);
            &&& move_laws::holds_what(s.updated[cell], t.updated[cell - k * env.width])
            &&& forall|i: int|
                1 <= i <= k ==> move_laws::holds_what(
                    s.updated[#[trigger] (cell - i * env.width)],
                    t.updated[cell - i * env.width + env.width],
                )
            &&& t.updated.len() == s.updated.len()
            &&& forall|j: int|
                0 <= j < s.updated.len() && j > cell ==> #[trigger] t.updated[j] == s.updated[j]
        }),
    decreases k,
{
    let w = env.width as int;
    let below = cell - w;
    assert((k + 1) * w == k * w + w) by (nonlinear_arith);
    if k == 0 {
        assert(0 * w == 0);
        assert(1 * w == w);
        if below >= 0 {
            room_laws::lemma_post_bits(env, s.updated[below].element_idx);
        }
    } else {
        assert(k * w >= w) by (nonlinear_arith)
            requires
                k >= 1,
                w > 0,
        ;
        assert(1 * w == w);
        assert(0 <= post_phase_of(env, s.updated[cell - 1 * w].element_idx) <= 2);
        room_laws::lemma_post_bits(env, s.updated[below].element_idx);
        let u = s.swapped(below, cell).changed(env, cell);
        assert((k - 1) * w == k * w - w) by (nonlinear_arith);
        assert(below - (k - 1) * w == cell - k * w);
        assert((k - 1 + 1) * w == k * w);
        assert forall|i: int| 1 <= i <= k - 1 implies 0 <= post_phase_of(
            env,
            u.updated[#[trigger] (below - i * w)].element_idx,
        ) <= 2 by {
            assert((i + 1) * w == i * w + w) by (nonlinear_arith);
            assert(i * w > 0 && (i + 1) * w <= k * w) by (nonlinear_arith)
                requires
                    1 <= i <= k - 1,
                    w > 0,
            ;
            assert(u.updated[cell - (i + 1) * w] == s.updated[cell - (i + 1) * w]);
        }
        law_block_drops_to_the_ground(env, u, below, k - 1);
        let t = unstable::dropped(env, u, below);
        assert forall|i: int| 1 <= i <= k implies move_laws::holds_what(
            s.updated[#[trigger] (cell - i * w)],
            t.updated[cell - i * w + w],
        ) by {
            if i == 1 {
                assert(t.updated[cell] == u.updated[cell]);
            } else {
                assert((i - 1) * w == i * w - w) by (nonlinear_arith);
                assert((i - 1) * w > 0 && i * w <= k * w) by (nonlinear_arith)
                    requires
                        2 <= i <= k,
                        w > 0,
                ;
                assert(below - (i - 1) * w == cell - i * w);
                assert(u.updated[cell - i * w] == s.updated[cell - i * w]);
            }
        }
    }
}

/// Whether a block may go in one direction, straight down or diagonally: it is heavy enough, the
/// place gives way, and for a diagonal the cell above that is open.
pub open spec fn can_go(env: Env, s: State, c: Cell, cell: int, d: int) -> bool {
    let (goal, above) = (cell + d, cell + d + env.width);
    let straight = d == -env.width;
    let p = env.elements.spec_post_process(c.element_idx)->0;
    &&& 0 <= goal < s.updated.len()
    &&& 0 <= above < s.updated.len()
    &&& gives_way(env, s.updated[goal])
    &&& straight ==> !c.mass.minus(num(ZERO).times(p.min_horizontal_flow)).times(num(ONE)).le(
        num(ZERO),
    )
    &&& !straight ==> !c.mass.minus(num(ONE).times(p.min_horizontal_flow)).times(num(HALF)).le(
        num(ZERO),
    )
    &&& post_phase_of(env, s.updated[above].element_idx) != -1
    &&& straight || (post_phase_of(env, s.updated[above].element_idx) != 3
        && s.updated[above].properties & 4 == 0)
}

/// With diagonals, a block goes in each direction that it can, once its timer is at zero: straight
/// down with all of its weight, and diagonally, left before right, with half of it. What cannot go
/// anywhere waits anew.
#[verifier::rlimit(40)]
pub proof fn law_block_goes_one_way(env: Env, s: State, cell: int, d: int)
    requires
        env.saved_options & 1 == 1,
        0 < env.width <= cell,
        cell < s.updated.len(),
        env.elements.spec_post_process(s.updated[cell].element_idx) is Some,
        ({
            let w = env.width as int;
            let c = s.updated[cell];
            let (u, ticks) = unstable::ticked(s, cell);
            let weight = if d == -w {
                num(ONE)
            } else {
                num(HALF)
            };
            let t = unstable::shed(env, u, c, cell, cell + d, weight);
            &&& w >= 3
            &&& d == -w || d == -w - 1 || d == -w + 1
            &&& can_go(env, s, c, cell, d)
            &&& forall|e: int|
                (e == -w || e == -w - 1 || e == -w + 1) && e != d ==> !#[trigger] can_go(
                    env,
                    s,
                    c,
                    cell,
                    e,
                ) && (ticks == 0 ==> !can_go(env, t, c, cell, e))
        }),
    ensures
        ({
            let w = env.width as int;
            let c = s.updated[cell];
            let (u, ticks) = unstable::ticked(s, cell);
            let t = unstable::checked(env, s, cell);
            &&& ticks != 0 ==> t == u
            &&& ticks == 0 && d == -w ==> t == unstable::shed(env, u, c, cell, cell + d, num(ONE))
            &&& ticks == 0 && d != -w ==> t == unstable::shed(env, u, c, cell, cell + d, num(HALF))
        }),
{
    let w = env.width as int;
    let c = s.updated[cell];
    let o = env.saved_options;
    let (u, ticks) = unstable::ticked(s, cell);
    assert(u.updated == s.updated);
    let weight = if d == -w {
        num(ONE)
    } else {
        num(HALF)
    };
    let t = unstable::shed(env, u, c, cell, cell + d, weight);
    lemma_can_go(env, s, c, cell, -w);
    lemma_can_go(env, s, c, cell, -w - 1);
    lemma_can_go(env, s, c, cell, 1 - w);
    lemma_can_go(env, u, c, cell, -w);
    lemma_can_go(env, u, c, cell, -w - 1);
    lemma_can_go(env, u, c, cell, 1 - w);
    lemma_can_go(env, t, c, cell, -w);
    lemma_can_go(env, t, c, cell, -w - 1);
    lemma_can_go(env, t, c, cell, 1 - w);
    assert(d != -w ==> !can_go(env, s, c, cell, -w));
    assert(d != -w - 1 ==> !can_go(env, s, c, cell, -w - 1));
    assert(d != -w + 1 ==> !can_go(env, s, c, cell, -w + 1));
}

proof fn lemma_can_go(env: Env, s: State, c: Cell, cell: int, d: int)
    requires
        env.elements.spec_post_process(c.element_idx) is Some,
    ensures
        can_go(env, s, c, cell, d) == unstable::may_slide(env, s, c, cell, d),
{
    if 0 <= cell + d < s.updated.len() {
        lemma_gives_way(env, s.updated[cell + d]);
    }
    let above = cell + d + env.width;
    if 0 <= above < s.updated.len() {
        room_laws::lemma_post_bits(env, s.updated[above].element_idx);
    }
}

/// A part of a block that falls where there is a viewer is reported at the place it falls to, with
/// the weighted mass and germs of the block as it was, and taken off it; a block that nothing is
/// left of is gone.
pub proof fn law_part_of_a_block_is_reported(
    env: Env,
    s: State,
    c: Cell,
    cell: int,
    goal: int,
    weight: F32,
)
    requires
        !env.headless,
        0 <= cell < s.updated.len(),
        s.events is Some,
        s.sink is None,
        env.on_game_grid(goal),
    ensures
        ({
            let t = unstable::shed(env, s, c, cell, goal, weight);
            let was = s.updated[cell];
            let now = t.updated[cell];
            let mass = c.mass.times(weight);
            let germs = F32::from_i32(c.disease_count).times(weight).to_i32();
            let left = was.mass.minus(mass).max(num(ZERO));
            let list = t.events->0.unstable_cell_info;
            &&& list.len() == s.events->0.unstable_cell_info.len() + 1
            &&& list.last() == (UnstableCellInfo {
                cell_idx: env.game_cell(goal) as i32,
                elem_idx: was.element_idx,
                falling_info: 0,
                disease_idx: was.disease_idx,
                mass,
                temperature: was.temperature,
                disease_count: germs,
            })
            &&& left.le(num(ZERO)) ==> is_void_of(env, was, now)
            &&& !left.le(num(ZERO)) ==> {
                &&& now.mass == left
                &&& now.temperature == was.temperature
                &&& now.element_idx == was.element_idx
                &&& 0 <= germs < was.disease_count ==> now.disease_count == was.disease_count
                    - germs
            }
            &&& alike_but(s, t, set![cell])
        }),
{
    let was = s.updated[cell];
    let mass = c.mass.times(weight);
    let germs = F32::from_i32(c.disease_count).times(weight).to_i32();
    if 0 <= germs && 0 <= was.disease_count {
        heat_laws::law_germs_leave(
            Cell { mass: was.mass.minus(mass).max(num(ZERO)), ..was },
            germs,
        );
    }
}

/// A block that sublimates into another gas pushes that out where it can, and then fills the cell;
/// where it cannot, nothing happens, unless an earlier block has: then it is worn all the same.
pub proof fn law_block_gives_to_another_gas(
    env: Env,
    s: State,
    cell: int,
    n: int,
    d: ElementPostProcessData,
    amount: F32,
    rotation: F32,
    done: bool,
)
    requires
        0 <= n < s.updated.len(),
        0 <= cell < s.updated.len(),
        n != cell,
        env.width >= 2,
    ensures
        ({
            let (t, hit) = sublimation::given_to_other(
                env,
                s,
                cell,
                n,
                d,
                amount,
                rotation,
                false,
                done,
            );
            let goal = displacement::gas_goal(env, s, cell, s.updated[cell].element_idx);
            let block = s.updated[n];
            let germs = share(amount, block.mass, block.disease_count);
            let now = t.updated[cell];
            &&& goal is None && !done ==> t == s && !hit
            &&& goal is None && done ==> hit && is_worn(env, block, t.updated[n], amount, germs)
                && alike_but(s, t, set![n])
            &&& goal is Some && goal->0 != n ==> {
                &&& hit
                &&& now.element_idx == d.sublimate_index
                &&& now.mass == num(ZERO).plus(amount.times(d.sublimate_efficiency))
                &&& now.temperature == block.temperature
                &&& now.disease_idx == block.disease_idx
                &&& now.disease_count == germs
                &&& is_worn(env, block, t.updated[n], amount, germs)
            }
        }),
{
    let block = s.updated[n];
    let germs = share(amount, block.mass, block.disease_count);
    let held = s.updated[cell].element_idx;
    laws::lemma_gas_goal(env, s, cell, held);
    match displacement::gas_goal(env, s, cell, held) {
        None => {
            lemma_worn(env, s, n, amount, germs, d.sublimate_fx, rotation);
        },
        Some(g) => {
            let a = displacement::moved(env, s, cell, g);
            let c = a.updated[cell];
            let b = a.put(
                cell,
                Cell {
                    element_idx: d.sublimate_index,
                    mass: c.mass.plus(amount.times(d.sublimate_efficiency)),
                    temperature: block.temperature,
                    disease_idx: block.disease_idx,
                    disease_count: germs,
                    ..c
                },
            ).changed(env, cell);
            lemma_worn(env, b, n, amount, germs, d.sublimate_fx, rotation);
        },
    }
}

/// Which way a block gives off its gas: to its own kind of gas, or to another cell, a step's worth
/// or what it has.
pub proof fn law_how_blocks_sublimate(
    env: Env,
    s: State,
    cell: int,
    n: int,
    rotation: F32,
    elem: u16,
    vacant: bool,
    done: bool,
)
    requires
        sublimates(env, s, n),
    ensures
        ({
            let r = sublimation::sublimated_from(env, s, cell, n, rotation, elem, vacant, done);
            let block = s.updated[n];
            let d = env.elements.spec_post_process(block.element_idx)->0;
            let step = d.sublimate_rate.times(num(FIFTH));
            let amount = if block.mass.lt(step) {
                block.mass
            } else {
                step
            };
            let t = s.rolled();
            !d.sublimate_probability.lt(t.roll()) && step.le(block.mass.minus(amount)) ==> r == if elem
                == d.sublimate_index {
                (sublimation::given_to_same(env, t, cell, n, d, amount, rotation), true)
            } else {
                sublimation::given_to_other(env, t, cell, n, d, amount, rotation, vacant, done)
            }
        }),
{
    reveal(sublimation::sublimated_from);
    room_laws::lemma_post_bits(env, s.updated[n].element_idx);
}

/// A timer at its end takes three ticks and as many more as three times the random number has whole
/// ones.
pub proof fn law_fresh_timer(s: State, cell: int)
    requires
        0 <= cell < s.timers.len(),
        s.timers[cell] & 0x1f == 0x1f,
    ensures
        ({
            let (t, n) = unstable::ticked(s, cell);
            let r = s.rolled().roll();
            &&& n == 3 + r.times(num(THREE)).to_u8()
            &&& t.timers[cell] & 0x1f == n
            &&& t.timers[cell] & 0xe0 == s.timers[cell] & 0xe0
        }),
{
    let seed = match s.rolled().region_rng {
        Some(r) => r.random_seed,
        None => s.rolled().random_seed,
    };
    let r = s.rolled().roll();
    laws::law_fresh_ticks(seed);
    let n = r.times(num(THREE)).to_u8();
    assert(sim_data::fraction_of(seed) == r);
    lemma_few(seed);
    assert(n <= 3);
    let m = (n + 3) as u8;
    assert(m & 0x1f == m) by (bit_vector)
        requires
            m <= 6,
    ;
    let b = s.timers[cell];
    let c = (b & 0xe0) | m;
    assert(c & 0x1f == m && c & 0xe0 == b & 0xe0) by (bit_vector)
        requires
            c == (b & 0xe0) | m,
            m <= 6,
    ;
}

/// Three times a random number is at most three.
proof fn lemma_few(seed: u32)
    ensures
        sim_data::fraction_of(seed).times(num(THREE)).to_u8() <= 3,
{
    let r = sim_data::fraction_of(seed);
    let t = num(THREE);
    laws::law_random_is_a_fraction(seed);
    number_laws::law_times_commutes(r, t);
    number_laws::law_part_of_whole(t, r);
    let x = r.times(t);
    laws::lemma_whole_monotone(x, t);
    laws::lemma_three();
    if x.rank() == 0 {
        laws::lemma_whole_zero(x);
    }
    reveal(F32::to_range);
}

} // verus!
