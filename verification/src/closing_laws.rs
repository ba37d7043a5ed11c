//! What the closing pass makes of a cell, kind by kind.
use crate::break_laws;
use crate::cell::Cell;
use crate::constants::ALMOST_ONE;
use crate::constants::CENTI;
use crate::constants::COMPRESSION;
use crate::constants::DUMP_SHARE;
use crate::constants::HALF;
use crate::constants::MILLI;
use crate::constants::NANO;
use crate::constants::NINE_TENTHS;
use crate::constants::ONE;
use crate::constants::SUBLIMATE_LIMIT;
use crate::constants::THREE_HALVES;
use crate::constants::THREE_TENTHS;
use crate::constants::ZERO;
use crate::displacement;
use crate::element::ElementPostProcessData;
use crate::heat_laws;
use crate::laws;
use crate::liquid_laws;
use crate::move_laws;
use crate::number::num;
use crate::number::F32;
use crate::number_laws;
use crate::post_process;
use crate::post_process::Pause;
use crate::pressure_break;
use crate::pressure_laws::is_amount;
use crate::push_laws::alike_but;
use crate::push_laws::is_void_of;
use crate::room_laws;
use crate::room_laws::post_phase_of;
use crate::sim_data;
use crate::sim_data::Env;
use crate::sim_data::Side;
use crate::sim_data::State;
use crate::sublimation;
use crate::unstable;
use vstd::prelude::*;

verus! {

/// Whether a cell has a turn in the closing pass, and its element is in the table.
pub open spec fn has_turn(env: Env, s: State, cell: int) -> bool {
    &&& env.width >= 3
    &&& env.height >= 3
    &&& env.width <= cell < s.updated.len()
    &&& env.elements.spec_post_process(s.updated[cell].element_idx) is Some
}

/// Whether an element over what is below a cell is no layer of it: the two are of different kinds
/// of matter, or one is not in the table.
pub open spec fn is_apart(env: Env, s: State, cell: int, elem: u16) -> bool {
    match (
        env.elements.spec_post_process(elem),
        env.elements.spec_post_process(s.updated[cell - env.width].element_idx),
    ) {
        (Some(a), Some(b)) => a.state != b.state,
        _ => true,
    }
}

/// What is not in the table, and what is solid and stable, stays as it is; what is outside of the
/// grid too.
pub proof fn law_stable_cells_stay(env: Env, s: State, cell: int)
    requires
        match sim_data::at(s.updated, cell) {
            Some(c) => match env.elements.spec_post_process(c.element_idx) {
                Some(d) => d.state & 3 == 3 && d.state & 8 == 0,
                None => true,
            },
            None => cell >= 0,
        },
    ensures
        post_process::begun(env, s, cell) == (s, Pause::Done),
{
    if let Some(c) = sim_data::at(s.updated, cell) {
        if let Some(d) = env.elements.spec_post_process(c.element_idx) {
            let x = d.state;
            assert(x & 8 == 0 ==> x & 0xb != 0xb) by (bit_vector);
        }
    }
}

/// A solid that is not stable may fall; an empty cell takes in what sublimates beside it, unless it
/// is closed to gases.
pub proof fn law_turns_of_solids_and_empty_cells(env: Env, s: State, cell: int)
    requires
        has_turn(env, s, cell),
    ensures
        ({
            let c = s.updated[cell];
            let d = env.elements.spec_post_process(c.element_idx)->0;
            let (t, p) = post_process::begun(env, s, cell);
            &&& d.state & 0xb == 0xb ==> t == unstable::checked(env, s, cell) && p == Pause::Done
            &&& d.state & 3 == 0 && c.properties & 1 == 0 ==> t == sublimation::sublimated(
                env,
                s,
                cell,
            ) && p == Pause::Done
            &&& d.state & 3 == 0 && c.properties & 1 != 0 ==> t == s && p == Pause::Done
        }),
{
    let x = env.elements.spec_post_process(s.updated[cell].element_idx)->0.state;
    assert(x & 0xb == 0xb ==> x & 3 == 3) by (bit_vector);
}

proof fn lemma_apart(env: Env, s: State, cell: int, gate: F32)
    requires
        0 <= cell < s.updated.len(),
        is_apart(env, s, cell, s.updated[cell].element_idx),
    ensures
        displacement::layered(env, s, cell, gate) == (s, false),
{
}

/// Whether a gas of at least one unit of mass is at a place.
pub open spec fn is_dense(env: Env, s: State, n: int) -> bool {
    &&& 0 <= n < s.updated.len()
    &&& num(ONE).le(s.updated[n].mass)
    &&& post_phase_of(env, s.updated[n].element_idx) == 1
}

/// Whether a gas is a trace that vanishes: a thousand-millionth at most, or less than a thousandth
/// with a dense gas beside, below or above it.
pub open spec fn is_trace(env: Env, s: State, cell: int) -> bool {
    let m = s.updated[cell].mass;
    ||| !num(NANO).le(m)
    ||| m.lt(num(MILLI)) && (is_dense(env, s, cell - 1) || is_dense(env, s, cell + 1) || is_dense(
        env,
        s,
        cell - env.width,
    ) || is_dense(env, s, cell + env.width))
}

/// The turn of a gas begins with a new direction. A trace of gas vanishes, with its flow; other gas
/// stays. Where it does not sink, it is asked whether it melts the neighbour below, with what it
/// was.
pub proof fn law_turn_of_a_gas(env: Env, s: State, cell: int)
    requires
        has_turn(env, s, cell),
        post_phase_of(env, s.updated[cell].element_idx) == 1,
        s.direction() == 1 || s.direction() == -1,
        s.flow.len() == s.updated.len(),
        is_apart(env, s, cell, s.updated[cell].element_idx),
        is_apart(env, s, cell, env.vacuum_element_idx),
    ensures
        ({
            let (t, p) = post_process::begun(env, s, cell);
            let c = s.updated[cell];
            &&& p == (Pause::Melt {
                side: Side::Down,
                elem: c.element_idx,
                dir: s.direction() as i32,
                sealed: c.properties & 2 != 0,
            })
            &&& t.direction() == -s.direction()
            &&& is_trace(env, s, cell) ==> {
                &&& is_void_of(env, c, t.updated[cell])
                &&& alike_but(s, t, set![cell])
                &&& t.flow[cell].x == num(ZERO) && t.flow[cell].y == num(ZERO)
                &&& t.flow[cell].z == num(ZERO) && t.flow[cell].w == num(ZERO)
            }
            &&& !is_trace(env, s, cell) ==> t.updated == s.updated && t.flow == s.flow
        }),
{
    let c = s.updated[cell];
    room_laws::lemma_post_bits(env, c.element_idx);
    lemma_gas_begun(env, s, cell);
    assert(post_process::begun(env, s, cell) == post_process::gas_begun(env, s, cell));
    let a = s.turned();
    if is_trace(env, s, cell) {
        lemma_vanished(env, a, cell);
    }
}

/// What vanishes leaves an empty cell without flow.
proof fn lemma_vanished(env: Env, s: State, cell: int)
    requires
        0 <= cell < s.updated.len(),
        s.flow.len() == s.updated.len(),
    ensures
        ({
            let t = post_process::vanished(env, s, cell);
            &&& is_void_of(env, s.updated[cell], t.updated[cell])
            &&& alike_but(s, t, set![cell])
            &&& t.flow[cell].x == num(ZERO) && t.flow[cell].y == num(ZERO)
            &&& t.flow[cell].z == num(ZERO) && t.flow[cell].w == num(ZERO)
            &&& t.direction() == s.direction()
        }),
{
}

proof fn lemma_gas_begun(env: Env, s: State, cell: int)
    requires
        0 <= cell < s.updated.len(),
        s.direction() == 1 || s.direction() == -1,
        is_apart(env, s, cell, s.updated[cell].element_idx),
        is_apart(env, s, cell, env.vacuum_element_idx),
        0 < env.width <= cell,
    ensures
        ({
            let (t, p) = post_process::gas_begun(env, s, cell);
            let c = s.updated[cell];
            let a = s.turned();
            &&& p == (Pause::Melt {
                side: Side::Down,
                elem: c.element_idx,
                dir: s.direction() as i32,
                sealed: c.properties & 2 != 0,
            })
            &&& a.direction() == -s.direction()
            &&& t == if is_trace(env, s, cell) {
                post_process::vanished(env, a, cell)
            } else {
                a
            }
        }),
{
    reveal(post_process::gas_begun);
    let a = s.turned();
    assert(a.updated == s.updated);
    lemma_dense(env, a, cell - 1);
    lemma_dense(env, a, cell + 1);
    lemma_dense(env, a, cell - env.width);
    lemma_dense(env, a, cell + env.width);
    let trace = is_trace(env, s, cell);
    assert(trace == is_trace(env, a, cell));
    if trace {
        let b = post_process::vanished(env, a, cell);
        lemma_vanished_at(env, a, cell);
        lemma_apart(env, b, cell, num(ALMOST_ONE));
    } else {
        lemma_apart(env, a, cell, num(ALMOST_ONE));
    }
}

proof fn lemma_vanished_at(env: Env, s: State, cell: int)
    requires
        0 < env.width <= cell < s.updated.len(),
    ensures
        ({
            let t = post_process::vanished(env, s, cell);
            &&& t.updated.len() == s.updated.len()
            &&& t.updated[cell].element_idx == env.vacuum_element_idx
            &&& t.updated[cell - env.width] == s.updated[cell - env.width]
        }),
{
}

proof fn lemma_dense(env: Env, s: State, n: int)
    ensures
        is_dense(env, s, n) == post_process::dense_at(env, s, n),
{
    if 0 <= n < s.updated.len() {
        room_laws::lemma_post_bits(env, s.updated[n].element_idx);
    }
}

/// A liquid of less than a hundredth vanishes, with its flow. A liquid that neither sinks nor has
/// more than its full mass stays, and is asked whether it changes phase by the heat of what is
/// below.
pub proof fn law_turn_of_a_liquid(env: Env, s: State, cell: int)
    requires
        has_turn(env, s, cell),
        post_phase_of(env, s.updated[cell].element_idx) == 2,
        s.flow.len() == s.updated.len(),
        is_apart(env, s, cell, s.updated[cell].element_idx),
    ensures
        ({
            let (t, p) = post_process::begun(env, s, cell);
            let c = s.updated[cell];
            let full = env.elements.spec_post_process(c.element_idx)->0.max_mass;
            &&& c.mass.lt(num(CENTI)) ==> {
                &&& p == Pause::Done
                &&& is_void_of(env, c, t.updated[cell])
                &&& alike_but(s, t, set![cell])
                &&& t.flow[cell].x == num(ZERO) && t.flow[cell].y == num(ZERO)
                &&& t.flow[cell].z == num(ZERO) && t.flow[cell].w == num(ZERO)
            }
            &&& !c.mass.lt(num(CENTI)) && !full.lt(c.mass) ==> t == s && p == (Pause::Transition {
                side: Side::Down,
                elem: c.element_idx,
            })
        }),
{
    room_laws::lemma_post_bits(env, s.updated[cell].element_idx);
    lemma_apart(env, s, cell, num(THREE_TENTHS));
    reveal(post_process::relieved);
}

/// A liquid with more than its full mass breaks through a wall where it can, by the ratio of the
/// two, and its turn is over.
pub proof fn law_overfull_liquid_bursts(env: Env, s: State, cell: int)
    requires
        has_turn(env, s, cell),
        post_phase_of(env, s.updated[cell].element_idx) == 2,
        !s.updated[cell].mass.lt(num(CENTI)),
        is_apart(env, s, cell, s.updated[cell].element_idx),
        ({
            let full = env.elements.spec_post_process(s.updated[cell].element_idx)->0.max_mass;
            &&& num(ZERO).lt(full)
            &&& full.lt(s.updated[cell].mass)
        }),
    ensures
        ({
            let full = env.elements.spec_post_process(s.updated[cell].element_idx)->0.max_mass;
            let ratio = s.updated[cell].mass.over(full);
            let w = env.width as int;
            let breaks = |d: int| pressure_break::breach(env, s, cell, ratio, d) is Some;
            let (t, p) = post_process::begun(env, s, cell);
            &&& breaks(-w) || breaks(-1) || breaks(1) || breaks(w) ==> {
                &&& p == Pause::Done
                &&& t == post_process::burst(env, s, cell, ratio).0
                &&& t.updated == s.updated
            }
        }),
{
    room_laws::lemma_post_bits(env, s.updated[cell].element_idx);
    lemma_apart(env, s, cell, num(THREE_TENTHS));
    let full = env.elements.spec_post_process(s.updated[cell].element_idx)->0.max_mass;
    let ratio = s.updated[cell].mass.over(full);
    break_laws::law_burst_goes_the_first_way(env, s, cell, ratio);
    lemma_damage_moves_nothing(env, s, cell, -env.width, 2);
    reveal(post_process::relieved);
    let (t, ok) = post_process::burst(env, s, cell, ratio);
    assert(t.updated == s.updated) by {
        let w = env.width as int;
        lemma_damage(env, s, cell, ratio, -w);
        lemma_damage(env, s, cell, ratio, -1);
        lemma_damage(env, s, cell, ratio, 1);
        lemma_damage(env, s, cell, ratio, w);
    }
}

proof fn lemma_damage(env: Env, s: State, cell: int, ratio: F32, d: int)
    ensures
        pressure_break::breach(env, s, cell, ratio, d) matches Some(n) ==> pressure_break::damaged(
            env,
            s,
            cell,
            d,
            n,
        ).updated == s.updated,
{
    if let Some(n) = pressure_break::breach(env, s, cell, ratio, d) {
        lemma_damage_moves_nothing(env, s, cell, d, n);
    }
}

proof fn lemma_damage_moves_nothing(env: Env, s: State, cell: int, d: int, n: int)
    ensures
        pressure_break::damaged(env, s, cell, d, n).updated == s.updated,
    decreases n,
{
    if n > 0 {
        lemma_damage_moves_nothing(env, s, cell, d, n - 1);
    }
}

/// When a liquid is dumped onto a liquid above it: it has more than one and a half times its full
/// mass, more than what is above, and more than that can press down.
pub proof fn law_when_liquid_overflows(env: Env, s: State, cell: int, full: F32)
    requires
        0 <= cell < s.updated.len(),
        0 <= cell + env.width < s.updated.len(),
        !full.is_nan(),
        is_amount(s.updated[cell + env.width].mass),
    ensures
        ({
            let m = s.updated[cell].mass;
            let n = s.updated[cell + env.width];
            let press = n.mass.times(num(COMPRESSION));
            post_process::overflows(env, s, cell, full) <==> {
                &&& full.times(num(THREE_HALVES)).lt(m)
                &&& n.mass.lt(m)
                &&& press.lt(m)
                &&& full.lt(m)
                &&& move_laws::phase_of(env, n.element_idx) == 2
            }
        }),
{
    let n = s.updated[cell + env.width];
    move_laws::lemma_low_bits(env, n.element_idx);
    laws::lemma_product_sign(n.mass, num(COMPRESSION));
}

/// A liquid that is dumped leaves about half of itself to the cell above, which holds it at the
/// same temperature with the same share of its germs, whatever it held before.
pub proof fn law_dumped_liquid(env: Env, s: State, cell: int, n: int)
    requires
        0 <= cell < s.updated.len(),
        0 <= n < s.updated.len(),
        cell != n,
    ensures
        ({
            let t = post_process::halved(env, s, cell, n);
            let c = s.updated[cell];
            let now = t.updated[n];
            let left = t.updated[cell];
            let part = c.mass.times(num(DUMP_SHARE));
            let germs = F32::from_i32(c.disease_count).times(part.over(c.mass)).to_i32();
            &&& now.element_idx == c.element_idx
            &&& now.mass == part
            &&& now.temperature == c.temperature
            &&& now.disease_idx == c.disease_idx
            &&& now.disease_count == germs
            &&& heat_laws::same_place(s.updated[n], now)
            &&& left.mass == c.mass.minus(part)
            &&& left.temperature == c.temperature
            &&& left.element_idx == c.element_idx
            &&& 0 <= germs < c.disease_count ==> left.disease_count == c.disease_count - germs
                && left.disease_idx == c.disease_idx
            &&& alike_but(s, t, set![cell, n])
        }),
{
    let c = s.updated[cell];
    let part = c.mass.times(num(DUMP_SHARE));
    let germs = F32::from_i32(c.disease_count).times(part.over(c.mass)).to_i32();
    if 0 <= germs && 0 <= c.disease_count {
        heat_laws::law_germs_leave(Cell { mass: c.mass.minus(part), ..c }, germs);
    }
}

/// A gas mixes with a neighbour only where the random number is above nine tenths. It changes
/// places with a gas behind it, ahead of it, or below it where that is lighter by molar mass; no
/// other cell changes.
#[verifier::rlimit(40)]
pub proof fn law_gas_mixes(env: Env, s: State, cell: int, d: ElementPostProcessData, dir: int)
    requires
        0 <= cell < s.updated.len(),
        dir == 1 || dir == -1,
        env.width >= 2,
    ensures
        ({
            let t = post_process::gas_mixed(env, s, cell, d, dir);
            let below = cell - env.width;
            &&& !num(NINE_TENTHS).lt(s.rolled().roll()) ==> t.updated == s.updated
            &&& t.updated == s.updated || may_mix(env, s, t, cell, cell - dir) || may_mix(
                env,
                s,
                t,
                cell,
                cell + dir,
            ) || (may_mix(env, s, t, cell, below) && !d.molar_mass.le(
                env.elements.spec_post_process(s.updated[below].element_idx)->0.molar_mass,
            ))
        }),
{
    reveal(post_process::gas_mixed);
    let t = s.rolled();
    let (t1, b1) = post_process::considered(env, t, cell - dir, None, None);
    let (t2, b2) = post_process::considered(env, t1, cell + dir, None, b1);
    let (t3, b3) = post_process::considered(
        env,
        t2,
        cell - env.width,
        Some(d.molar_mass),
        b2,
    );
    if let Some(b) = b3 {
        room_laws::lemma_post_bits(env, s.updated[b.0].element_idx);
        move_laws::law_swap(t3, b.0, cell);
    }
}

/// Whether a cell has changed places with a gas.
pub open spec fn may_mix(env: Env, s: State, t: State, cell: int, n: int) -> bool {
    &&& 0 <= n < s.updated.len()
    &&& post_phase_of(env, s.updated[n].element_idx) == 1
    &&& move_laws::has_swapped(s, t, n, cell)
}

/// A neighbour is taken into account for mixing where it is there and not warmer than the choice so
/// far; it becomes the choice where the random number is above a half, it is a gas, and lighter by
/// molar mass than the limit, if there is one.
pub proof fn law_choice_for_mixing(
    env: Env,
    s: State,
    n: int,
    limit: Option<F32>,
    best: Option<(int, F32)>,
)
    ensures
        ({
            let (t, b) = post_process::considered(env, s, n, limit, best);
            let there = 0 <= n < s.updated.len();
            let c = s.updated[n];
            let warmer = best matches Some(x) && x.1.lt(c.temperature);
            let lucky = !s.rolled().roll().le(num(HALF));
            let gas = post_phase_of(env, c.element_idx) == 1;
            let heavy = limit matches Some(m) && m.le(
                env.elements.spec_post_process(c.element_idx)->0.molar_mass,
            );
            &&& t.updated == s.updated
            &&& !there || warmer ==> t == s && b == best
            &&& there && !warmer ==> t == s.rolled()
            &&& there && !warmer && lucky && gas && !heavy ==> b == Some((n, c.temperature))
            &&& there && !warmer && !(lucky && gas && !heavy) ==> b == best
        }),
{
    if 0 <= n < s.updated.len() {
        room_laws::lemma_post_bits(env, s.updated[n].element_idx);
    }
}

/// After its answers a gas takes in what sublimates beside it; before that it mixes, unless it has
/// melted something and was not closed to liquids.
pub proof fn law_end_of_a_gas_turn(
    env: Env,
    s: State,
    cell: int,
    elem: u16,
    dir: i32,
    sealed: bool,
    melted: bool,
)
    requires
        env.elements.spec_post_process(elem) is Some,
    ensures
        ({
            let p = Pause::Melt { side: Side::Up, elem, dir, sealed };
            let d = env.elements.spec_post_process(elem)->0;
            let t = post_process::finished(env, s, cell, p, melted);
            let mixed = post_process::gas_mixed(env, s, cell, d, dir as int);
            &&& melted && !sealed ==> t == sublimation::sublimated(env, s, cell)
            &&& !melted || sealed ==> t == sublimation::sublimated(env, mixed, cell)
        }),
{
}

/// Whether what is given off has gone from one cell to another, as a gas: that has gained it at the
/// temperature of the first.
pub open spec fn has_given_off(
    env: Env,
    s: State,
    t: State,
    src: int,
    dst: int,
    amount: F32,
    gas: u16,
) -> bool {
    let from = s.updated[src];
    let was = s.updated[dst];
    let now = t.updated[dst];
    let left = t.updated[src];
    &&& now.element_idx == gas
    &&& heat_laws::has_gained(
        was,
        Cell { element_idx: was.element_idx, ..now },
        amount,
        from.temperature,
    )
    &&& left.mass == from.mass.minus(amount)
    &&& left.temperature == from.temperature
    &&& left.element_idx == from.element_idx
    &&& alike_but(s, t, set![src, dst])
}

/// What a cell gives off to another one goes there as a gas, with its warmth and, where they may
/// mix, its germs, in proportion to the mass.
pub proof fn law_giving_off(
    env: Env,
    s: State,
    src: int,
    dst: int,
    amount: F32,
    merge: bool,
    gas: u16,
)
    requires
        0 <= src < s.updated.len(),
        0 <= dst < s.updated.len(),
        src != dst,
        num(ZERO).lt(s.updated[src].mass),
        s.updated[src].disease_count > 0,
        heat_laws::can_mix(
            s.updated[dst].mass,
            s.updated[dst].temperature,
            amount,
            s.updated[src].temperature,
        ),
    ensures
        ({
            let t = sublimation::gas_emitted(env, s, src, dst, amount, merge, gas);
            let from = s.updated[src];
            let left = t.updated[src];
            let germs = F32::from_i32(from.disease_count).times(amount.over(from.mass)).to_i32();
            &&& has_given_off(env, s, t, src, dst, amount, gas)
            &&& 0 <= germs < from.disease_count ==> left.disease_count == from.disease_count
                - germs
            &&& merge ==> heat_laws::has_germs_from(
                env.diseases,
                s.updated[dst],
                t.updated[dst],
                from.disease_idx,
                germs,
            )
            &&& !merge ==> heat_laws::same_germs(s.updated[dst], t.updated[dst])
        }),
{
    let from = s.updated[src];
    let germs = F32::from_i32(from.disease_count).times(amount.over(from.mass)).to_i32();
    heat_laws::law_added_mass_mixes(
        Cell { element_idx: gas, ..s.updated[dst] },
        env.diseases,
        amount,
        from.temperature,
        from.disease_idx,
        germs,
    );
    heat_laws::law_mixture_is_mean(
        s.updated[dst].mass,
        s.updated[dst].temperature,
        amount,
        from.temperature,
    );
    number_laws::law_sum_is_near(s.updated[dst].mass, amount);
    laws::lemma_zero_value();
    if 0 <= germs {
        heat_laws::law_germs_leave(Cell { mass: from.mass.minus(amount), ..from }, germs);
    }
}

/// Whether a liquid may give off gas upwards: its element has a gas that it gives off, and above it
/// is a gas or nothing with room.
pub open spec fn has_outlet(env: Env, s: State, cell: int, d: ElementPostProcessData) -> bool {
    let up = cell + env.width;
    &&& s.accumulated_flow.len() != 0
    &&& d.sublimate_index != 0xffff
    &&& cell >= env.width
    &&& up < s.updated.len()
    &&& s.updated[up].mass.lt(num(SUBLIMATE_LIMIT))
    &&& post_phase_of(env, s.updated[up].element_idx) == 0 || post_phase_of(
        env,
        s.updated[up].element_idx,
    ) == 1
}

/// A liquid that has changed phase, or has no outlet, gives off nothing and draws no random number.
/// With an outlet it draws one, and gives off nothing where that is not below its chance or the
/// outlet is closed to gases.
pub proof fn law_when_liquid_gives_off_gas(env: Env, s: State, cell: int, elem: u16, changed: bool)
    requires
        0 <= cell < s.updated.len(),
        env.width > 0,
        env.elements.spec_post_process(elem) is Some,
    ensures
        ({
            let d = env.elements.spec_post_process(elem)->0;
            let p = Pause::Transition { side: Side::Up, elem };
            let t = post_process::finished(env, s, cell, p, changed);
            let outlet = has_outlet(env, s, cell, d);
            let lucky = s.rolled().roll().lt(d.sublimate_probability);
            &&& changed || !outlet ==> t == s
            &&& !changed && outlet && (!lucky || s.updated[cell + env.width].properties & 1 != 0)
                ==> t == s.rolled()
        }),
{
    let up = cell + env.width;
    if 0 <= up < s.updated.len() {
        room_laws::lemma_post_bits(env, s.updated[up].element_idx);
    }
}

/// A liquid gives off its percentage, and at most one unit of mass; of the same liquid below, where
/// that is more, the percentage counts.
pub proof fn law_amount_given_off(d: ElementPostProcessData, mass: F32)
    requires
        is_amount(d.off_gas_percentage),
        is_amount(mass),
    ensures
        ({
            let f = post_process::off_gas(d, mass);
            let part = d.off_gas_percentage.times(mass);
            &&& num(ZERO).le(f)
            &&& f.le(num(ONE))
            &&& part.lt(num(ONE)) ==> f == part
            &&& num(ONE).le(part) ==> f == num(ONE)
        }),
{
    laws::lemma_product_sign(d.off_gas_percentage, mass);
    number_laws::law_product_not_negative(d.off_gas_percentage, mass);
}

/// A liquid that gives off gas into its own gas or into nothing gives off that amount, or as much
/// as there is room for.
pub proof fn law_liquid_gives_off_gas(env: Env, s: State, cell: int, elem: u16, amount: F32)
    requires
        env.width > 0,
        env.width <= cell,
        cell + env.width < s.updated.len(),
        s.accumulated_flow.len() == s.updated.len(),
        env.elements.spec_post_process(elem) is Some,
        s.updated[cell].element_idx == elem,
        ({
            let d = env.elements.spec_post_process(elem)->0;
            let up = s.updated[cell + env.width];
            let c = s.updated[cell];
            &&& has_outlet(env, s, cell, d)
            &&& up.element_idx == d.sublimate_index || up.element_idx == env.vacuum_element_idx
            &&& up.properties & 1 == 0
            &&& s.rolled().roll().lt(d.sublimate_probability)
            &&& s.updated[cell - env.width].element_idx != elem
            &&& amount == post_process::off_gas(d, c.mass)
            &&& num(ZERO).lt(amount)
            &&& num(CENTI).le(c.mass.minus(amount))
            &&& d.sublimate_efficiency == num(ONE)
            &&& amount.le(num(SUBLIMATE_LIMIT).minus(up.mass))
            &&& c.disease_count > 0
            &&& num(ZERO).lt(c.mass)
            &&& heat_laws::can_mix(up.mass, up.temperature, amount, c.temperature)
        }),
    ensures
        ({
            let d = env.elements.spec_post_process(elem)->0;
            let p = Pause::Transition { side: Side::Up, elem };
            let t = post_process::finished(env, s, cell, p, false);
            &&& has_given_off(env, s, t, cell, cell + env.width, amount, d.sublimate_index)
            &&& t.accumulated_flow[cell] == s.accumulated_flow[cell].plus(amount)
        }),
{
    let d = env.elements.spec_post_process(elem)->0;
    let up = cell + env.width;
    room_laws::lemma_post_bits(env, s.updated[up].element_idx);
    number_laws::law_times_one(amount);
    let r = s.rolled();
    let merge = post_process::germs_mix(r.updated[cell], r.updated[up]);
    law_giving_off(env, r, cell, up, amount, merge, d.sublimate_index);
    assert(!num(SUBLIMATE_LIMIT).minus(s.updated[up].mass).lt(amount));
    reveal(post_process::fumed);
    let t = sublimation::gas_emitted(env, r, cell, up, amount, merge, d.sublimate_index);
    assert(t.accumulated_flow == s.accumulated_flow);
    assert(!amount.le(num(ZERO)));
}

/// A liquid with more than its full mass that breaks through no wall is dumped onto the liquid
/// above, where it overflows and that one can be displaced; otherwise it is asked like any other.
pub proof fn law_overflowing_liquid_is_dumped(env: Env, s: State, cell: int, full: F32)
    requires
        0 <= cell < s.updated.len(),
        num(ZERO).lt(full),
        full.lt(s.updated[cell].mass),
        !post_process::burst(env, s, cell, s.updated[cell].mass.over(full)).1,
    ensures
        ({
            let n = cell + env.width;
            let (t, done) = post_process::relieved(env, s, cell, full);
            let (u, pushed) = displacement::liquid_displaced(
                env,
                s,
                n,
                s.updated[n].element_idx,
            );
            &&& !post_process::overflows(env, s, cell, full) ==> t == s && !done
            &&& post_process::overflows(env, s, cell, full) ==> done == pushed
            &&& post_process::overflows(env, s, cell, full) && pushed ==> t == post_process::halved(
                env,
                u,
                cell,
                n,
            )
            &&& post_process::overflows(env, s, cell, full) && !pushed ==> t == u
        }),
{
    reveal(post_process::relieved);
    break_laws::law_burst_goes_the_first_way(env, s, cell, s.updated[cell].mass.over(full));
}

/// A liquid of which too little would be left turns into gas as a whole: it keeps its mass and its
/// temperature.
pub proof fn law_last_liquid_turns_into_gas(
    env: Env,
    s: State,
    cell: int,
    d: ElementPostProcessData,
    amount: F32,
)
    requires
        0 <= cell < s.updated.len(),
        is_amount(s.updated[cell].mass),
        num(ZERO).lt(s.updated[cell].mass),
        !s.updated[cell].temperature.is_nan(),
    ensures
        ({
            let t = post_process::boiled(env, s, cell, d, amount, false);
            let c = s.updated[cell];
            let now = t.updated[cell];
            &&& now.element_idx == d.sublimate_index
            &&& now.mass.same(c.mass)
            &&& now.temperature.same(c.temperature) || now.temperature.is_nan()
            &&& alike_but(s, t, set![cell])
        }),
{
    reveal(post_process::boiled);
    let c = s.updated[cell];
    number_laws::law_minus_self(c.mass);
    liquid_laws::lemma_exact_zero(c.mass);
    number_laws::law_sum_is_rounded(num(ZERO), c.mass);
    number_laws::law_rounded_exact(c.mass);
    laws::lemma_zero_value();
}

/// A gas that mixes looks behind it, ahead of it and below it, in this order, and changes places
/// with the choice that is left; where none is, nothing changes.
#[verifier::rlimit(40)]
pub proof fn law_gas_mixes_with_the_choice(
    env: Env,
    s: State,
    cell: int,
    d: ElementPostProcessData,
    dir: int,
)
    requires
        0 <= cell < s.updated.len(),
        dir == 1 || dir == -1,
        env.width >= 2,
        num(NINE_TENTHS).lt(s.rolled().roll()),
    ensures
        ({
            let t = post_process::gas_mixed(env, s, cell, d, dir);
            let a = post_process::considered(env, s.rolled(), cell - dir, None, None);
            let b = post_process::considered(env, a.0, cell + dir, None, a.1);
            let c = post_process::considered(
                env,
                b.0,
                cell - env.width,
                Some(d.molar_mass),
                b.1,
            );
            match c.1 {
                Some(n) => move_laws::has_swapped(s, t, n.0, cell),
                None => t.updated == s.updated,
            }
        }),
{
    reveal(post_process::gas_mixed);
    let a = post_process::considered(env, s.rolled(), cell - dir, None, None);
    let b = post_process::considered(env, a.0, cell + dir, None, a.1);
    let c = post_process::considered(env, b.0, cell - env.width, Some(d.molar_mass), b.1);
    if let Some(n) = c.1 {
        move_laws::law_swap(c.0, n.0, cell);
    }
}

/// A gas that sinks in its turn takes in what sublimates beside it, and is done; a liquid that
/// sinks is done.
pub proof fn law_what_sinks_is_done(env: Env, s: State, cell: int)
    requires
        has_turn(env, s, cell),
    ensures
        ({
            let c = s.updated[cell];
            let p = post_phase_of(env, c.element_idx);
            let gas = displacement::layered(env, s.turned(), cell, num(ALMOST_ONE));
            let liquid = displacement::layered(env, s, cell, num(THREE_TENTHS));
            &&& p == 1 && num(MILLI).le(c.mass) && num(NANO).le(c.mass) && gas.1
                ==> post_process::begun(env, s, cell) == (
                sublimation::sublimated(env, gas.0, cell),
                Pause::Done,
            )
            &&& p == 2 && num(CENTI).le(c.mass) && liquid.1 ==> post_process::begun(env, s, cell)
                == (liquid.0, Pause::Done)
        }),
{
    reveal(post_process::gas_begun);
    room_laws::lemma_post_bits(env, s.updated[cell].element_idx);
}

/// How much of an amount is given off where there is less room than it would fill: in proportion.
pub open spec fn fitting(d: ElementPostProcessData, amount: F32, held: F32) -> F32 {
    let gain = amount.times(d.sublimate_efficiency);
    let room = num(SUBLIMATE_LIMIT).minus(held);
    if room.lt(gain) {
        amount.times(room.over(gain))
    } else {
        amount
    }
}

/// What a liquid gives off into its own gas or nothing is what fits there; into another gas, only
/// where that can leave.
pub proof fn law_what_fits_is_given_off(
    env: Env,
    s: State,
    cell: int,
    d: ElementPostProcessData,
    amount: F32,
)
    requires
        0 <= cell,
        0 < env.width,
        cell + env.width < s.updated.len(),
        num(ZERO).lt(s.updated[cell].mass),
        s.updated[cell].disease_count > 0,
    ensures
        ({
            let up = cell + env.width;
            let n = s.updated[up];
            let t = post_process::fumed(env, s, cell, d, amount);
            let part = fitting(d, amount, n.mass);
            let own = n.element_idx == d.sublimate_index || n.element_idx == env.vacuum_element_idx;
            &&& !own && displacement::gas_goal(env, s, up, n.element_idx) is None ==> t == s
            &&& own && heat_laws::can_mix(
                n.mass,
                n.temperature,
                part,
                s.updated[cell].temperature,
            ) ==> has_given_off(env, s, t, cell, up, part, d.sublimate_index)
            &&& own && s.accumulated_flow.len() == s.updated.len() ==> t.accumulated_flow[cell]
                == s.accumulated_flow[cell].plus(part)
        }),
{
    reveal(post_process::fumed);
    let up = cell + env.width;
    let n = s.updated[up];
    let part = fitting(d, amount, n.mass);
    let merge = post_process::germs_mix(s.updated[cell], n);
    if heat_laws::can_mix(n.mass, n.temperature, part, s.updated[cell].temperature) {
        law_giving_off(env, s, cell, up, part, merge, d.sublimate_index);
    }
    let t = sublimation::gas_emitted(env, s, cell, up, part, merge, d.sublimate_index);
    assert(t.accumulated_flow == s.accumulated_flow);
}

/// What a liquid gives off goes by its own mass, or by that of the same liquid below where that is
/// more. Where less than a hundredth of it would be left, all of it turns into gas.
pub proof fn law_what_giving_off_goes_by(env: Env, s: State, cell: int, elem: u16)
    requires
        env.width > 0,
        env.width <= cell,
        cell + env.width < s.updated.len(),
        env.elements.spec_post_process(elem) is Some,
        ({
            let d = env.elements.spec_post_process(elem)->0;
            &&& has_outlet(env, s, cell, d)
            &&& s.updated[cell + env.width].properties & 1 == 0
            &&& s.rolled().roll().lt(d.sublimate_probability)
        }),
    ensures
        ({
            let d = env.elements.spec_post_process(elem)->0;
            let p = Pause::Transition { side: Side::Up, elem };
            let t = post_process::finished(env, s, cell, p, false);
            let (c, b) = (s.updated[cell], s.updated[cell - env.width]);
            let more = b.element_idx == elem && c.mass.lt(b.mass);
            let amount = post_process::off_gas(
                d,
                if more {
                    b.mass
                } else {
                    c.mass
                },
            );
            let left = c.mass.minus(amount);
            &&& num(CENTI).le(left) && num(ZERO).lt(amount) ==> t == post_process::fumed(
                env,
                s.rolled(),
                cell,
                d,
                amount,
            )
            &&& num(CENTI).le(left) && amount.le(num(ZERO)) ==> t == s.rolled()
            &&& !num(CENTI).le(left) ==> t == post_process::boiled(
                env,
                s.rolled(),
                cell,
                d,
                amount,
                more,
            )
        }),
{
    room_laws::lemma_post_bits(env, s.updated[cell + env.width].element_idx);
}

} // verus!
