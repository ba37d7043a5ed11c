//! What holds where something leaves a cell to make room, or sinks by its weight.
use crate::cell::Cell;
use crate::constants::CENTI;
use crate::constants::ZERO;
use crate::displacement;
use crate::grid;
use crate::heat_laws;
use crate::heat_laws::heat;
use crate::laws;
use crate::liquid_laws;
use crate::move_laws;
use crate::number::num;
use crate::number::F32;
use crate::number_laws;
use crate::pressure_laws::is_amount;
use crate::push_laws::alike_but;
use crate::sim_data::Env;
use crate::sim_data::State;
use vstd::arithmetic::power2::*;
use vstd::prelude::*;

verus! {

/// The phase of an element for the closing pass; minus one where it is not in the table.
pub open spec fn post_phase_of(env: Env, elem: u16) -> int {
    match env.elements.spec_post_process(elem) {
        Some(d) => (d.state & 3) as int,
        None => -1,
    }
}

pub proof fn lemma_post_bits(env: Env, elem: u16)
    ensures
        -1 <= post_phase_of(env, elem) <= 3,
        post_phase_of(env, elem) == -1 <==> env.elements.spec_post_phase(elem) == 0xff,
        post_phase_of(env, elem) != -1 ==> env.elements.spec_post_phase(elem) == post_phase_of(
            env,
            elem,
        ),
{
    if let Some(d) = env.elements.spec_post_process(elem) {
        move_laws::lemma_two_bits(d.state);
    }
}

/// Whether a cell takes in a gas: it is there, open to gases, and holds the same gas or nothing.
pub open spec fn takes_gas(env: Env, s: State, n: int, gas: u16) -> bool {
    &&& 0 <= n < s.updated.len()
    &&& s.updated[n].properties & 1 == 0
    &&& s.updated[n].element_idx == gas || s.updated[n].element_idx == env.vacuum_element_idx
}

/// The neighbours to which a gas may leave, in their order: above, left, right and below.
pub open spec fn gas_way(env: Env, cell: int, k: int) -> int {
    if k % 4 == 0 {
        cell + env.width
    } else if k % 4 == 1 {
        cell - 1
    } else if k % 4 == 2 {
        cell + 1
    } else {
        cell - env.width
    }
}

/// A gas leaves to the first neighbour that takes it in, counted from one that changes with the
/// clock: above, left, right and below in turn.
pub proof fn law_gas_leaves_to_the_first(env: Env, s: State, cell: int, gas: u16, i: int)
    requires
        0 <= cell < s.updated.len(),
        !s.updated[cell].mass.le(num(ZERO)),
        post_phase_of(env, s.updated[cell].element_idx) == 1,
        0 <= i < 4,
        takes_gas(env, s, gas_way(env, cell, s.tick_count + i), gas),
        forall|j: int|
            0 <= j < i ==> !takes_gas(env, s, #[trigger] gas_way(env, cell, s.tick_count + j), gas),
    ensures
        displacement::gas_goal(env, s, cell, gas) == Some(gas_way(env, cell, s.tick_count + i)),
{
    lemma_post_bits(env, s.updated[cell].element_idx);
    reveal_with_fuel(displacement::straight_exit, 5);
    let n = s.tick_count as int;
    assert forall|j: int| 0 <= j < 4 implies #[trigger] gas_way(env, cell, n + j)
        == displacement::gas_exit(env, cell, (n + j) % 4) by {}
    assert(gas_way(env, cell, n + 0) == displacement::gas_exit(env, cell, (n + 0) % 4));
    assert(gas_way(env, cell, n + 1) == displacement::gas_exit(env, cell, (n + 1) % 4));
    assert(gas_way(env, cell, n + 2) == displacement::gas_exit(env, cell, (n + 2) % 4));
    assert(gas_way(env, cell, n + 3) == displacement::gas_exit(env, cell, (n + 3) % 4));
}

/// A gas that no neighbour takes in slips diagonally up into its own kind, past a cell that is not
/// solid, first on the side that the clock gives; and stays otherwise. What is no gas, and what is
/// nothing, never leaves.
pub proof fn law_gas_slips_or_stays(env: Env, s: State, cell: int, gas: u16)
    requires
        0 <= cell < s.updated.len(),
    ensures
        ({
            let goal = displacement::gas_goal(env, s, cell, gas);
            let c = s.updated[cell];
            let up = cell + env.width;
            let slips = |d: int|
                {
                    &&& 0 <= up + d < s.updated.len()
                    &&& 0 <= cell + d < s.updated.len()
                    &&& s.updated[up + d].element_idx == gas
                    &&& s.updated[up + d].properties & 1 == 0
                    &&& move_laws::phase_of(env, s.updated[cell + d].element_idx) != 3
                    &&& move_laws::phase_of(env, s.updated[cell + d].element_idx) != -1
                };
            let first = if s.tick_count % 2 == 0 {
                -1int
            } else {
                1int
            };
            let shut = forall|k: int|
                0 <= k < 4 ==> !takes_gas(env, s, #[trigger] gas_way(env, cell, k), gas);
            &&& c.mass.le(num(ZERO)) || post_phase_of(env, c.element_idx) != 1 ==> goal is None
            &&& !c.mass.le(num(ZERO)) && post_phase_of(env, c.element_idx) == 1 && shut ==> {
                &&& slips(first) ==> goal == Some(up + first)
                &&& !slips(first) && slips(-first) ==> goal == Some(up - first)
                &&& !slips(first) && !slips(-first) ==> goal is None
            }
        }),
{
    let c = s.updated[cell];
    lemma_post_bits(env, c.element_idx);
    let n = s.tick_count as int;
    if forall|k: int| 0 <= k < 4 ==> !takes_gas(env, s, #[trigger] gas_way(env, cell, k), gas) {
        reveal_with_fuel(displacement::straight_exit, 5);
        assert(!takes_gas(env, s, gas_way(env, cell, 0), gas));
        assert(!takes_gas(env, s, gas_way(env, cell, 1), gas));
        assert(!takes_gas(env, s, gas_way(env, cell, 2), gas));
        assert(!takes_gas(env, s, gas_way(env, cell, 3), gas));
        if 0 <= cell - 1 {
            move_laws::lemma_low_bits(env, s.updated[cell - 1].element_idx);
        }
        if cell + 1 < s.updated.len() {
            move_laws::lemma_low_bits(env, s.updated[cell + 1].element_idx);
        }
        assert(displacement::straight_exit(env, s, cell, gas, 0) is None);
    }
}

/// Whether a cell takes in a liquid: it is there, open to liquids, and holds the same or nothing.
pub open spec fn takes_liquid(env: Env, s: State, n: int, elem: u16) -> bool {
    &&& 0 <= n < s.updated.len()
    &&& s.updated[n].properties & 2 == 0
    &&& s.updated[n].element_idx == elem || s.updated[n].element_idx == env.vacuum_element_idx
}

/// A liquid that is divided goes to each neighbour that takes it in, and to no other cell.
pub proof fn law_receivers(env: Env, s: State, cell: int, elem: u16, n: int)
    ensures
        displacement::receivers(env, s, cell, elem, 4).contains(n) <==> takes_liquid(env, s, n, elem)
            && (n == cell + 1 || n == cell - 1 || n == cell + env.width || n == cell - env.width),
{
    reveal_with_fuel(displacement::receivers, 5);
    let r0 = displacement::receivers(env, s, cell, elem, 0);
    let r1 = displacement::receivers(env, s, cell, elem, 1);
    let r2 = displacement::receivers(env, s, cell, elem, 2);
    let r3 = displacement::receivers(env, s, cell, elem, 3);
    let r4 = displacement::receivers(env, s, cell, elem, 4);
    assert(!r0.contains(n));
    lemma_push(r0, cell + 1, n);
    lemma_push(r1, cell - 1, n);
    lemma_push(r2, cell + env.width, n);
    lemma_push(r3, cell - env.width, n);
}

proof fn lemma_push(r: Seq<int>, x: int, n: int)
    ensures
        r.push(x).contains(n) <==> r.contains(n) || n == x,
{
    let p = r.push(x);
    if r.contains(n) {
        let i = choose|i: int| 0 <= i < r.len() && r[i] == n;
        assert(p[i] == n);
    }
    if n == x {
        assert(p[r.len() as int] == n);
    }
    if p.contains(n) && n != x {
        let i = choose|i: int| 0 <= i < p.len() && p[i] == n;
        assert(r[i] == n);
    }
}

/// A portion is the mass divided by the number of portions, and as many germs as make up for all of
/// them, rounded up.
pub proof fn law_portions(c: Cell, n: int)
    requires
        1 <= n <= 4,
        0 <= c.disease_count <= 0x7fff_fff0,
        is_amount(c.mass),
        c.mass.value() <= pow2(270),
    ensures
        ({
            let (mass, germs) = displacement::portion(c, n);
            &&& c.disease_count <= n * germs < c.disease_count + n
            &&& is_amount(mass)
            &&& -(c.mass.value() + 0x80_0000 * n) <= 0x100_0000 * (mass.value() * n
                - c.mass.value()) <= c.mass.value() + 0x80_0000 * n
        }),
{
    let m = n as i32;
    let x = F32::from_i32(m);
    let p = pow2(149) as int;
    let v = c.mass.value();
    number_laws::law_integer_round_trip(m);
    laws::lemma_positive_integer(m);
    lemma_pow2_pos(149);
    lemma2_to64();
    lemma_pow2_adds(6, 270);
    liquid_laws::lemma_amount_value(c.mass);
    assert(v * p <= x.value() * pow2(276)) by (nonlinear_arith)
        requires
            x.value() == n * p,
            n >= 1,
            0 <= v <= pow2(270),
            pow2(276) == 64 * pow2(270),
            p > 0,
    ;
    number_laws::law_quotient_is_near(c.mass, x);
    let q = c.mass.over(x).value();
    let qn = q * n;
    assert(q * x.value() == qn * p) by (nonlinear_arith)
        requires
            x.value() == n * p,
            qn == q * n,
    ;
    assert(-(v + 0x80_0000 * n) <= 0x100_0000 * (qn - v) <= v + 0x80_0000 * n) by {
        let e = v + 0x80_0000 * n;
        assert(e * p == v * p + 0x80_0000 * x.value()) by (nonlinear_arith)
            requires
                e == v + 0x80_0000 * n,
                x.value() == n * p,
        ;
        let d = 0x100_0000 * (qn - v);
        assert(d * p == 0x100_0000 * (qn * p - v * p)) by (nonlinear_arith)
            requires
                d == 0x100_0000 * (qn - v),
        ;
        assert(-e <= d <= e) by (nonlinear_arith)
            requires
                -(e * p) <= d * p <= e * p,
                p > 0,
        ;
    }
    let g = (c.disease_count + n - 1) / n;
    assert(n * g <= c.disease_count + n - 1 < n * g + n) by (nonlinear_arith)
        requires
            g == (c.disease_count + n - 1) / n,
            1 <= n,
    ;
}

/// Whether a liquid has come to the point of being divided.
pub proof fn law_when_divided(env: Env, s: State, cell: int, elem: u16)
    requires
        0 <= cell < s.updated.len(),
    ensures
        displacement::divisible(env, s, cell, elem) <==> !s.updated[cell].mass.lt(num(CENTI)) && (
        takes_liquid(env, s, cell + 1, elem) || takes_liquid(env, s, cell - 1, elem)
            || takes_liquid(env, s, cell + env.width, elem) || takes_liquid(
            env,
            s,
            cell - env.width,
            elem,
        )),
{
    let r = displacement::receivers(env, s, cell, elem, 4);
    law_receivers(env, s, cell, elem, cell + 1);
    law_receivers(env, s, cell, elem, cell - 1);
    law_receivers(env, s, cell, elem, cell + env.width);
    law_receivers(env, s, cell, elem, cell - env.width);
    if r.len() > 0 {
        law_receivers(env, s, cell, elem, r[0]);
        assert(r.contains(r[0]));
    }
}

/// A liquid that is to leave its cell is divided among its neighbours, where one takes it in;
/// nothing changes where there is no liquid.
pub proof fn law_liquid_makes_room(env: Env, s: State, cell: int, elem: u16)
    requires
        0 <= cell < s.updated.len(),
    ensures
        ({
            let (t, ok) = displacement::liquid_displaced(env, s, cell, elem);
            let c = s.updated[cell];
            &&& c.mass.le(num(ZERO)) || post_phase_of(env, c.element_idx) != 2 ==> !ok && t == s
            &&& !c.mass.le(num(ZERO)) && post_phase_of(env, c.element_idx) == 2
                && displacement::divisible(env, s, cell, elem) ==> ok && t == displacement::divided(
                env,
                s,
                cell,
                elem,
            )
        }),
{
    lemma_post_bits(env, s.updated[cell].element_idx);
}

/// Whether one substance is over another of the same kind of matter.
pub open spec fn is_layer(env: Env, s: State, cell: int) -> bool {
    let below = cell - env.width;
    &&& env.width > 0
    &&& 0 <= below
    &&& cell < s.updated.len()
    &&& env.elements.spec_post_process(s.updated[cell].element_idx) is Some
    &&& env.elements.spec_post_process(s.updated[below].element_idx) is Some
    &&& env.elements.spec_post_process(s.updated[cell].element_idx)->0.state
        == env.elements.spec_post_process(s.updated[below].element_idx)->0.state
}

/// Of two substances of the same kind of matter the heavier by molar mass sinks below the lighter
/// one, if chance allows it: where the random number is above a bar.
#[verifier::rlimit(40)]
pub proof fn law_heavier_sinks(env: Env, s: State, cell: int, gate: F32)
    requires
        is_layer(env, s, cell),
    ensures
        ({
            let below = cell - env.width;
            let (t, ok) = displacement::layered(env, s, cell, gate);
            let a = env.elements.spec_post_process(s.updated[cell].element_idx)->0;
            let b = env.elements.spec_post_process(s.updated[below].element_idx)->0;
            let chance = !s.rolled().roll().le(gate);
            &&& !chance ==> !ok && t == s.rolled()
            &&& chance && b.molar_mass.lt(a.molar_mass) ==> ok && move_laws::has_swapped(
                s,
                t,
                cell,
                below,
            )
            &&& chance && a.molar_mass.lt(b.molar_mass) && s.updated[cell].element_idx
                != s.updated[below].element_idx ==> !ok && t.updated == s.updated
        }),
{
    let below = cell - env.width;
    move_laws::law_swap(s.rolled(), cell, below);
    let u = s.rolled().swapped(cell, below);
}

/// What is over the same substance, and colder, sinks: a gas changes places with it, a liquid mixes
/// with it to the mean temperature of both. What is not colder stays.
#[verifier::rlimit(40)]
pub proof fn law_colder_sinks(env: Env, s: State, cell: int, gate: F32)
    requires
        is_layer(env, s, cell),
        s.updated[cell].element_idx == s.updated[cell - env.width].element_idx,
        !s.rolled().roll().le(gate),
    ensures
        ({
            let below = cell - env.width;
            let (t, ok) = displacement::layered(env, s, cell, gate);
            let (a, b) = (s.updated[cell], s.updated[below]);
            let p = env.elements.spec_post_process(a.element_idx)->0.state & 3;
            &&& b.temperature.le(a.temperature) ==> !ok && t.updated == s.updated
            &&& a.temperature.lt(b.temperature) && p != 2 ==> ok && move_laws::has_swapped(
                s,
                t,
                cell,
                below,
            )
            &&& a.temperature.lt(b.temperature) && p == 2 ==> {
                let (c, d) = (t.updated[cell], t.updated[below]);
                &&& ok
                &&& c == (Cell { temperature: c.temperature, ..a })
                &&& d == (Cell { temperature: c.temperature, ..b })
                &&& c.temperature == grid::fast_combined_temperature(
                    a.mass,
                    a.temperature,
                    b.mass,
                    b.temperature,
                )
                &&& alike_but(s, t, set![cell, below])
            }
        }),
{
    let below = cell - env.width;
    move_laws::law_swap(s.rolled(), cell, below);
}

/// The quick mean of two temperatures keeps the heat, up to one part in a million and half a unit
/// of each number.
pub proof fn law_quick_mean(mass_a: F32, temp_a: F32, mass_b: F32, temp_b: F32)
    requires
        heat_laws::can_mix(mass_a, temp_a, mass_b, temp_b),
    ensures
        ({
            let t = grid::fast_combined_temperature(mass_a, temp_a, mass_b, temp_b);
            let total = mass_a.value() + mass_b.value();
            let sum = heat(mass_a, temp_a) + heat(mass_b, temp_b);
            let slack = sum + 0x10_0000 * (2 * pow2(149) + total);
            &&& is_amount(t)
            &&& -slack <= 0x10_0000 * (t.value() * total - sum) <= slack
        }),
{
    heat_laws::lemma_quotient_of_heat(mass_a, temp_a, mass_b, temp_b);
    number_laws::law_times_commutes(temp_b, mass_b);
}

/// A liquid that no neighbour takes in, and that no gas beside it can leave to make room for,
/// stays.
pub proof fn law_liquid_finds_no_room(env: Env, s: State, cell: int, elem: u16)
    requires
        0 <= cell < s.updated.len(),
        !displacement::divisible(env, s, cell, elem),
        forall|n: int|
            (n == cell + 1 || n == cell - 1 || n == cell + env.width || n == cell - env.width) && 0
                <= n < s.updated.len() ==> (#[trigger] displacement::gas_goal(
                env,
                s,
                n,
                s.updated[n].element_idx,
            )) is None,
    ensures
        displacement::liquid_displaced(env, s, cell, elem) == (s, false),
{
    reveal_with_fuel(displacement::gas_to_push, 5);
    let n = s.tick_count as int;
    lemma_no_push(env, s, cell, 0);
}

proof fn lemma_no_push(env: Env, s: State, cell: int, i: int)
    requires
        0 <= i <= 4,
        forall|n: int|
            (n == cell + 1 || n == cell - 1 || n == cell + env.width || n == cell - env.width) && 0
                <= n < s.updated.len() ==> (#[trigger] displacement::gas_goal(
                env,
                s,
                n,
                s.updated[n].element_idx,
            )) is None,
    ensures
        displacement::gas_to_push(env, s, cell, i) is None,
    decreases 4 - i,
{
    if i < 4 {
        lemma_no_push(env, s, cell, i + 1);
        let c = displacement::liquid_exit(env, cell, (s.tick_count + i) % 4);
        if 0 <= c < s.updated.len() {
            assert(displacement::gas_goal(env, s, c, s.updated[c].element_idx) is None);
        }
    }
}

/// A liquid that no neighbour takes in pushes out a gas beside it, the first that can leave,
/// counted from one that changes with the clock: right, left, above and below in turn. Then it is
/// divided.
pub proof fn law_liquid_pushes_gas_to_make_room(env: Env, s: State, cell: int, elem: u16, n: int)
    requires
        0 <= cell < s.updated.len(),
        !s.updated[cell].mass.le(num(ZERO)),
        post_phase_of(env, s.updated[cell].element_idx) == 2,
        !displacement::divisible(env, s, cell, elem),
        ({
            let k = s.tick_count % 4;
            &&& k == 0 ==> n == cell + 1
            &&& k == 1 ==> n == cell - 1
            &&& k == 2 ==> n == cell + env.width
            &&& k == 3 ==> n == cell - env.width
        }),
        0 <= n < s.updated.len(),
        post_phase_of(env, s.updated[n].element_idx) == 1,
        displacement::gas_goal(env, s, n, s.updated[n].element_idx) is Some,
    ensures
        ({
            let g = displacement::gas_goal(env, s, n, s.updated[n].element_idx)->0;
            let t = displacement::moved(env, s, n, g);
            displacement::liquid_displaced(env, s, cell, elem) == (
                displacement::divided(env, t, cell, elem),
                displacement::divisible(env, t, cell, elem),
            )
        }),
{
    lemma_post_bits(env, s.updated[cell].element_idx);
    lemma_post_bits(env, s.updated[n].element_idx);
    reveal_with_fuel(displacement::gas_to_push, 2);
}

} // verus!
