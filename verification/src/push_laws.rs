//! What holds where a substance makes room for another.
use crate::cell::Cell;
use crate::constants::EIGHTH;
use crate::constants::ZERO;
use crate::displacement;
use crate::gas_flow;
use crate::gas_flow::GasPushPass;
use crate::heat_laws;
use crate::laws;
use crate::liquid_laws;
use crate::number::num;
use crate::number::F32;
use crate::number_laws;
use crate::pressure_laws;
use crate::pressure_laws::is_amount;
use crate::sim_data;
use crate::sim_data::Env;
use crate::sim_data::State;
use crate::sweep::Pass;
use vstd::prelude::*;

verus! {

/// Whether the new buffers differ at most in some cells.
pub open spec fn alike_but(s: State, t: State, cells: Set<int>) -> bool {
    &&& t.cells == s.cells
    &&& t.updated.len() == s.updated.len()
    &&& forall|i: int|
        0 <= i < s.updated.len() && !cells.contains(i) ==> #[trigger] t.updated[i] == s.updated[i]
}

/// Whether a cell has nothing in it: the empty element, no mass, no warmth and no germs.
pub open spec fn is_void_of(env: Env, was: Cell, now: Cell) -> bool {
    &&& now.element_idx == env.vacuum_element_idx
    &&& now.mass == num(ZERO)
    &&& now.temperature == num(ZERO)
    &&& laws::clean(now)
    &&& heat_laws::same_place(was, now)
}

/// A substance that moves into another cell leaves an empty cell behind, brings its mass, warmth
/// and germs, and makes the other cell one of its own kind.
pub proof fn law_moving_on(env: Env, s: State, src: int, dst: int)
    requires
        0 <= src < s.updated.len(),
        0 <= dst < s.updated.len(),
        src != dst,
        heat_laws::can_mix(
            s.updated[dst].mass,
            s.updated[dst].temperature,
            s.updated[src].mass,
            s.updated[src].temperature,
        ),
    ensures
        ({
            let t = displacement::moved(env, s, src, dst);
            let a = s.updated[src];
            let now = t.updated[dst];
            let same = Cell { element_idx: s.updated[dst].element_idx, ..now };
            &&& is_void_of(env, a, t.updated[src])
            &&& heat_laws::has_gained(s.updated[dst], same, a.mass, a.temperature)
            &&& heat_laws::has_germs_from(
                env.diseases,
                s.updated[dst],
                now,
                a.disease_idx,
                a.disease_count,
            )
            &&& now.element_idx == a.element_idx
            &&& alike_but(s, t, set![src, dst])
        }),
{
    let a = s.updated[src];
    heat_laws::law_added_mass_mixes(
        s.updated[dst],
        env.diseases,
        a.mass,
        a.temperature,
        a.disease_idx,
        a.disease_count,
    );
}

/// Whether a gas may push another one on: it has more mass, both are still what the step found,
/// there is some of the other, and the cell beyond is open to gases and holds the same or nothing.
pub open spec fn may_push(env: Env, s: State, elem: u16, src: int, dst: int, beyond: int) -> bool {
    let b = s.updated[beyond];
    &&& !s.cells[src].mass.le(s.cells[dst].mass)
    &&& s.updated[src].element_idx == elem
    &&& s.updated[dst].element_idx == s.cells[dst].element_idx
    &&& !s.updated[dst].mass.le(num(ZERO))
    &&& b.element_idx == s.cells[dst].element_idx || b.element_idx == env.vacuum_element_idx
    &&& b.properties & 1 == 0
}

/// Where a gas may not push another one, nothing changes and nothing flows.
pub proof fn law_gas_that_may_not_push(
    env: Env,
    s: State,
    elem: u16,
    src: int,
    dst: int,
    beyond: int,
)
    requires
        !may_push(env, s, elem, src, dst, beyond),
    ensures
        gas_flow::gas_pushed(env, s, elem, src, dst, beyond) == (s, num(ZERO)),
{
}

/// Where a gas pushes another on, it follows into that one's cell: with an eighth of the mass that
/// the step found, or all that is left of it; at the temperature that it has in its own cell,
/// whatever that of the other was; and with an eighth of its germs. The other gas joins what is
/// beyond.
#[verifier::rlimit(40)]
pub proof fn law_gas_follows(env: Env, s: State, elem: u16, src: int, dst: int, beyond: int)
    requires
        0 <= src < s.updated.len(),
        0 <= dst < s.updated.len(),
        0 <= beyond < s.updated.len(),
        s.cells.len() == s.updated.len(),
        src != dst,
        dst != beyond,
        src != beyond,
        may_push(env, s, elem, src, dst, beyond),
        is_amount(s.cells[src].mass),
        is_amount(s.updated[src].mass),
        num(ZERO).lt(s.updated[src].mass),
        num(ZERO).lt(s.cells[src].mass.times(num(EIGHTH))),
        heat_laws::can_mix(
            s.updated[beyond].mass,
            s.updated[beyond].temperature,
            s.updated[dst].mass,
            s.updated[dst].temperature,
        ),
        0 <= s.cells[src].disease_count <= 0x100_0000,
        s.updated[src].disease_count == s.cells[src].disease_count,
        s.updated[src].disease_idx == s.cells[src].disease_idx,
        s.updated[src].disease_idx != 0xff,
    ensures
        ({
            let (t, f) = gas_flow::gas_pushed(env, s, elem, src, dst, beyond);
            let eighth = s.cells[src].mass.times(num(EIGHTH));
            let old = s.updated[src];
            let gas = s.updated[dst];
            let now = t.updated[dst];
            let left = t.updated[src];
            let n = F32::from_i32(s.cells[src].disease_count).times(num(EIGHTH)).to_i32();
            let same = Cell { element_idx: s.updated[beyond].element_idx, ..t.updated[beyond] };
            &&& f.le(eighth) && f.le(old.mass)
            &&& f == eighth || f == old.mass
            &&& now.element_idx == elem
            &&& now.temperature == s.cells[src].temperature
            &&& now.mass.same(f)
            &&& n > 0 ==> now.disease_count == n && now.disease_idx == s.cells[src].disease_idx
            &&& n <= 0 ==> laws::clean(now)
            &&& left.mass == old.mass.minus(f)
            &&& left.temperature == old.temperature
            &&& left.element_idx == old.element_idx
            &&& left.disease_count == if n > 0 {
                old.disease_count - n
            } else {
                old.disease_count as int
            }
            &&& 8 * n <= s.cells[src].disease_count < 8 * n + 8
            &&& heat_laws::has_gained(s.updated[beyond], same, gas.mass, gas.temperature)
            &&& t.updated[beyond].element_idx == gas.element_idx
            &&& alike_but(s, t, set![src, dst, beyond])
        }),
{
    let a = displacement::moved(env, s, dst, beyond);
    law_moving_on(env, s, dst, beyond);
    let c = s.updated[src];
    assert(a.updated[src] == c);
    let eighth = s.cells[src].mass.times(num(EIGHTH));
    let f = eighth.min(c.mass);
    pressure_laws::lemma_eighth(s.cells[src].mass);
    laws::lemma_zero_value();
    liquid_laws::lemma_amount_value(f);
    laws::lemma_rest(c.mass, f);
    liquid_laws::lemma_exact_zero(f);
    number_laws::law_sum_is_rounded(num(ZERO), f);
    number_laws::law_rounded_exact(f);
    let n = F32::from_i32(s.cells[src].disease_count).times(num(EIGHTH)).to_i32();
    lemma_eighth_of(s.cells[src].disease_count);
}

/// An eighth of some germs, rounded down.
pub proof fn lemma_eighth_of(count: i32)
    requires
        0 <= count <= 0x100_0000,
    ensures
        ({
            let n = F32::from_i32(count).times(num(EIGHTH)).to_i32();
            8 * n <= count < 8 * n + 8
        }),
{
    let x = F32::from_i32(count);
    number_laws::law_integer_round_trip(count);
    laws::lemma_from_nonnegative(count);
    let z = x.times(num(EIGHTH));
    let p = vstd::arithmetic::power2::pow2(149) as int;
    number_laws::law_part_of_whole(x, num(EIGHTH));
    number_laws::law_order_is_by_value(z, x);
    crate::gas_laws::lemma_eighth_exact(x, count as int);
    heat_laws::lemma_integer_part(z, count as int);
    let n = z.to_i32() as int;
    vstd::arithmetic::power2::lemma_pow2_pos(149);
    let c = count as int;
    assert(8 * n <= c < 8 * n + 8) by (nonlinear_arith)
        requires
            8 * z.value() == c * p,
            n * p <= z.value() < n * p + p,
            p > 0,
    ;
}

/// Whether a neighbour is no gas that can be pushed: it is not there, or the same gas, or no gas,
/// or closed to gases.
pub open spec fn cannot_be_pushed(env: Env, s: State, elem: u16, src: int, d: int) -> bool {
    match (sim_data::at(s.cells, src + d), sim_data::at(s.cells, src + d + d)) {
        (Some(c), Some(_)) => {
            ||| c.element_idx == elem
            ||| !(env.elements.spec_pressure(c.element_idx) matches Some(p) && p.state & 3 == 1)
            ||| c.properties & 1 != 0
        },
        _ => true,
    }
}

/// A gas with one neighbour that it can push, below, behind, ahead or above it, pushes that one on
/// in the same direction, and the flow is booked as going down into it.
pub proof fn law_gas_pushes_one_way(env: Env, s: State, y: int, x: int, d: int)
    requires
        0 <= y * env.width + x < s.cells.len(),
        s.cells.len() == s.updated.len(),
        s.flow.len() == s.cells.len(),
        env.elements.spec_pressure(s.cells[y * env.width + x].element_idx) matches Some(p)
            && p.state & 3 == 1,
        ({
            let src = y * env.width + x;
            let elem = s.cells[src].element_idx;
            let w = env.width as int;
            let dir = s.iterate_direction as int;
            &&& d == -w || d == -dir || d == dir || d == w
            &&& dir == 1 || dir == -1
            &&& w >= 3
            &&& forall|e: int|
                (e == -w || e == -dir || e == dir || e == w) && e != d ==> #[trigger]
                    cannot_be_pushed(env, s, elem, src, e)
            &&& !cannot_be_pushed(env, s, elem, src, d)
        }),
    ensures
        ({
            let src = y * env.width + x;
            let elem = s.cells[src].element_idx;
            let t = GasPushPass.effect(env, s, y, x);
            let (u, f) = gas_flow::gas_pushed(env, s, elem, src, src + d, src + d + d);
            &&& t.updated == u.updated
            &&& num(ZERO).lt(f) ==> {
                &&& t.flow[src].w == s.flow[src].w.plus(f.neg())
                &&& t.flow[src + d].z == s.flow[src + d].z.plus(f)
                &&& forall|i: int|
                    0 <= i < s.flow.len() && i != src && i != src + d ==> #[trigger] t.flow[i]
                        == s.flow[i]
            }
            &&& !num(ZERO).lt(f) ==> t.flow == s.flow
        }),
{
    let src = y * env.width + x;
    let elem = s.cells[src].element_idx;
    let w = env.width as int;
    let dir = s.iterate_direction as int;
    let a = gas_flow::gas_pushed_to(env, s, elem, src, -w);
    let b = gas_flow::gas_pushed_to(env, a, elem, src, -dir);
    let c = gas_flow::gas_pushed_to(env, b, elem, src, dir);
    let e = gas_flow::gas_pushed_to(env, c, elem, src, w);
    lemma_pushed_to(env, s, elem, src, -w);
    lemma_pushed_to(env, a, elem, src, -dir);
    lemma_pushed_to(env, b, elem, src, dir);
    lemma_pushed_to(env, c, elem, src, w);
    if d != -w {
        assert(cannot_be_pushed(env, s, elem, src, -w));
    }
    if d != -dir {
        assert(cannot_be_pushed(env, s, elem, src, -dir));
        assert(cannot_be_pushed(env, a, elem, src, -dir));
    }
    if d != dir {
        assert(cannot_be_pushed(env, s, elem, src, dir));
        assert(cannot_be_pushed(env, b, elem, src, dir));
    }
    if d != w {
        assert(cannot_be_pushed(env, s, elem, src, w));
        assert(cannot_be_pushed(env, c, elem, src, w));
    }
    let after = gas_flow::gas_pushed_to(env, s, elem, src, d);
    assert(e == after);
    assert(GasPushPass.effect(env, s, y, x) == e);
    lemma_pushed_to(env, s, elem, src, d);
}

proof fn lemma_pushed_to(env: Env, s: State, elem: u16, src: int, d: int)
    ensures
        ({
            let t = gas_flow::gas_pushed_to(env, s, elem, src, d);
            let (u, f) = gas_flow::gas_pushed(env, s, elem, src, src + d, src + d + d);
            &&& t.cells == s.cells
            &&& t.iterate_direction == s.iterate_direction
            &&& cannot_be_pushed(env, s, elem, src, d) ==> t == s
            &&& !cannot_be_pushed(env, s, elem, src, d) && 0 <= src < s.flow.len()
                && s.flow.len() == s.cells.len() && d != 0 ==> {
                &&& t.updated == u.updated
                &&& num(ZERO).lt(f) ==> {
                    &&& t.flow[src].w == s.flow[src].w.plus(f.neg())
                    &&& t.flow[src + d].z == s.flow[src + d].z.plus(f)
                    &&& forall|i: int|
                        0 <= i < s.flow.len() && i != src && i != src + d ==> #[trigger] t.flow[i]
                            == s.flow[i]
                }
                &&& !num(ZERO).lt(f) ==> t.flow == s.flow
            }
        }),
{
    reveal(gas_flow::gas_pushed_to);
    lemma_pushed_flow(env, s, elem, src, src + d, src + d + d);
}

proof fn lemma_pushed_flow(env: Env, s: State, elem: u16, src: int, dst: int, beyond: int)
    ensures
        ({
            let t = gas_flow::gas_pushed(env, s, elem, src, dst, beyond).0;
            &&& t.cells == s.cells
            &&& t.flow == s.flow
            &&& t.iterate_direction == s.iterate_direction
        }),
{
}

/// A gas with no neighbour that it can push stays as it is, and so does what is no gas.
pub proof fn law_gas_with_nothing_to_push_stays(env: Env, s: State, y: int, x: int)
    requires
        ({
            let src = y * env.width + x;
            let elem = s.cells[src].element_idx;
            let w = env.width as int;
            let dir = s.iterate_direction as int;
            ||| !(env.elements.spec_pressure(elem) matches Some(p) && p.state & 3 == 1)
            ||| cannot_be_pushed(env, s, elem, src, -w) && cannot_be_pushed(
                env,
                s,
                elem,
                src,
                -dir,
            ) && cannot_be_pushed(env, s, elem, src, dir) && cannot_be_pushed(env, s, elem, src, w)
        }),
    ensures
        GasPushPass.effect(env, s, y, x) == s,
{
    let src = y * env.width + x;
    let elem = s.cells[src].element_idx;
    let w = env.width as int;
    let dir = s.iterate_direction as int;
    lemma_pushed_to(env, s, elem, src, -w);
    lemma_pushed_to(env, s, elem, src, -dir);
    lemma_pushed_to(env, s, elem, src, dir);
    lemma_pushed_to(env, s, elem, src, w);
    if let Some(p) = env.elements.spec_pressure(elem) {
        crate::move_laws::lemma_two_bits(p.state);
    }
}

} // verus!
