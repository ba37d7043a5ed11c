//! What holds where substances even out or squeeze one another: warmth, germs and kind.
use crate::cell::Cell;
use crate::constants::EIGHTH;
use crate::constants::MINUS_EIGHTH;
use crate::constants::ONE;
use crate::constants::ZERO;
use crate::displacement;
use crate::element::ElementPressureData;
use crate::gas_flow;
use crate::heat_laws;
use crate::laws;
use crate::move_laws;
use crate::number::num;
use crate::number::F32;
use crate::pressure;
use crate::pressure::SqueezePass;
use crate::pressure_laws;
use crate::pressure_laws::is_amount;
use crate::push_laws;
use crate::push_laws::alike_but;
use crate::sim_data;
use crate::sim_data::Env;
use crate::sim_data::State;
use crate::sweep::Pass;
use vstd::prelude::*;

verus! {

/// How much flows between two cells: the difference of their masses times the pace, unless that is
/// an eighth of either; then it is that eighth.
pub proof fn law_flow_is_in_proportion(pace: F32, here: F32, there: F32)
    requires
        is_amount(pace),
        is_amount(here),
        is_amount(there),
    ensures
        ({
            let f = pressure::pressure_flow(pace, here, there);
            let free = pace.times(here.minus(there));
            let most = here.times(num(EIGHTH));
            let least = there.times(num(MINUS_EIGHTH));
            &&& free.lt(most) && least.lt(free) ==> f == free
            &&& most.le(free) && least.lt(most) ==> f == most
            &&& free.le(least) && free.lt(most) ==> f == least
        }),
{
}

/// The pace at which a cell evens out with a neighbour: that of the neighbour where it is a gas,
/// else its own.
pub open spec fn pace(data: ElementPressureData, other: ElementPressureData) -> F32 {
    if other.state & 3 == 1 {
        other.flow
    } else {
        data.flow
    }
}

/// Whether mass has gone from one cell to another: that has gained it at the temperature of the
/// giver, with a share of its germs, and holds the giver's element where it was empty; the giver
/// has lost it and is as warm as before.
pub open spec fn has_evened(
    env: Env,
    s: State,
    t: State,
    src: int,
    dst: int,
    amount: F32,
    empty: bool,
    elem: u16,
) -> bool {
    let was = s.updated[dst];
    let from = s.updated[src];
    let now = t.updated[dst];
    let left = t.updated[src];
    let germs = amount.over(s.cells[src].mass).clamp(num(ZERO), num(ONE)).times(
        F32::from_i32(s.cells[src].disease_count),
    ).to_i32();
    &&& heat_laws::has_gained(
        was,
        Cell { element_idx: was.element_idx, ..now },
        amount,
        from.temperature,
    )
    &&& heat_laws::has_germs_from(env.diseases, was, now, from.disease_idx, germs)
    &&& empty ==> now.element_idx == elem
    &&& !empty ==> now.element_idx == was.element_idx
    &&& left.mass == from.mass.minus(amount).max(num(ZERO))
    &&& left.temperature == from.temperature
    &&& left.element_idx == from.element_idx
    &&& heat_laws::same_place(from, left)
    &&& 0 <= germs < from.disease_count ==> left.disease_count == from.disease_count - germs
    &&& alike_but(s, t, set![src, dst])
}

/// Where two cells even out their masses, warmth and germs go along with what flows; what flows
/// into an empty cell makes it a cell of its own kind.
pub proof fn law_exchange_mixes(env: Env, s: State, cell: int, neighbor: int)
    requires
        0 <= cell < s.cells.len(),
        0 <= neighbor < s.cells.len(),
        s.updated.len() == s.cells.len(),
        cell != neighbor,
        env.elements.spec_pressure(s.cells[cell].element_idx) matches Some(d) && is_amount(d.flow),
        env.elements.spec_pressure(s.cells[neighbor].element_idx) matches Some(d) && is_amount(
            d.flow,
        ),
        s.cells[cell].element_idx != env.void_element_idx,
        s.cells[neighbor].element_idx != env.void_element_idx,
        is_amount(s.cells[cell].mass),
        is_amount(s.cells[neighbor].mass),
    ensures
        ({
            let (t, f) = pressure::levelled(env, s, cell, neighbor);
            let a = s.cells[cell];
            let b = s.cells[neighbor];
            let da = env.elements.spec_pressure(a.element_idx)->0;
            let db = env.elements.spec_pressure(b.element_idx)->0;
            let apart = da.state & 3 == 2 && db.state & 3 != 0 && a.element_idx != b.element_idx;
            &&& apart ==> t == s && f == num(ZERO)
            &&& !apart ==> f == pressure::pressure_flow(pace(da, db), a.mass, b.mass)
            &&& num(ZERO).lt(f) && heat_laws::can_mix(
                s.updated[neighbor].mass,
                s.updated[neighbor].temperature,
                f,
                s.updated[cell].temperature,
            ) ==> has_evened(
                env,
                s,
                t,
                cell,
                neighbor,
                f,
                db.state & 3 == 0,
                a.element_idx,
            )
            &&& f.lt(num(ZERO)) && heat_laws::can_mix(
                s.updated[cell].mass,
                s.updated[cell].temperature,
                f.neg(),
                s.updated[neighbor].temperature,
            ) ==> has_evened(
                env,
                s,
                t,
                neighbor,
                cell,
                f.neg(),
                da.state & 3 == 0,
                b.element_idx,
            )
        }),
{
    let f = pressure::levelled(env, s, cell, neighbor).1;
    lemma_levelled_by(env, s, cell, neighbor);
    let a = s.cells[cell];
    let b = s.cells[neighbor];
    let da = env.elements.spec_pressure(a.element_idx)->0;
    let db = env.elements.spec_pressure(b.element_idx)->0;
    if num(ZERO).lt(f) {
        lemma_one_way(env, s, cell, neighbor, f, db.state & 3 == 0, b.element_idx, a.element_idx);
    } else if f.lt(num(ZERO)) {
        lemma_one_way(
            env,
            s,
            neighbor,
            cell,
            f.neg(),
            da.state & 3 == 0,
            a.element_idx,
            b.element_idx,
        );
    }
}

/// The germs that go along with an amount.
pub open spec fn germs_along(s: State, src: int, amount: F32) -> i32 {
    amount.over(s.cells[src].mass).clamp(num(ZERO), num(ONE)).times(
        F32::from_i32(s.cells[src].disease_count),
    ).to_i32()
}

/// The state after an amount has gone from one cell to another, which was empty or not.
pub open spec fn gone(
    env: Env,
    s: State,
    src: int,
    dst: int,
    amount: F32,
    empty: bool,
    held: u16,
    elem: u16,
) -> State {
    let t = pressure::passed(env, s, src, dst, amount, germs_along(s, src, amount));
    if empty {
        pressure::taken_on(env, t, dst, held, elem)
    } else {
        t
    }
}

proof fn lemma_levelled_by(env: Env, s: State, cell: int, neighbor: int)
    requires
        0 <= cell < s.cells.len(),
        0 <= neighbor < s.cells.len(),
        s.updated.len() == s.cells.len(),
        env.elements.spec_pressure(s.cells[cell].element_idx) matches Some(d) && is_amount(d.flow),
        env.elements.spec_pressure(s.cells[neighbor].element_idx) matches Some(d) && is_amount(
            d.flow,
        ),
        is_amount(s.cells[cell].mass),
        is_amount(s.cells[neighbor].mass),
    ensures
        ({
            let (t, f) = pressure::levelled(env, s, cell, neighbor);
            let a = s.cells[cell];
            let b = s.cells[neighbor];
            let da = env.elements.spec_pressure(a.element_idx)->0;
            let db = env.elements.spec_pressure(b.element_idx)->0;
            let apart = da.state & 3 == 2 && db.state & 3 != 0 && a.element_idx != b.element_idx;
            &&& apart ==> t == s && f == num(ZERO)
            &&& !apart ==> f == pressure::pressure_flow(pace(da, db), a.mass, b.mass)
            &&& num(ZERO).lt(f) ==> t == gone(
                env,
                s,
                cell,
                neighbor,
                f,
                db.state & 3 == 0,
                b.element_idx,
                a.element_idx,
            )
            &&& f.lt(num(ZERO)) ==> t == gone(
                env,
                s,
                neighbor,
                cell,
                f.neg(),
                da.state & 3 == 0,
                a.element_idx,
                b.element_idx,
            )
        }),
{
    let a = s.cells[cell];
    let b = s.cells[neighbor];
    let da = env.elements.spec_pressure(a.element_idx)->0;
    let db = env.elements.spec_pressure(b.element_idx)->0;
    let f = pressure::pressure_flow(pace(da, db), a.mass, b.mass);
    laws::lemma_zero_value();
    pressure_laws::law_flow_goes_downhill(pace(da, db), a.mass, b.mass);
    pressure_laws::lemma_opposite_bits(f);
    pressure_laws::lemma_eighth(a.mass);
    pressure_laws::lemma_eighth(b.mass);
    if num(ZERO).lt(f) {
        assert(f.abs() == f && f.abs().min(a.mass) == f);
    } else if f.lt(num(ZERO)) {
        assert(f.abs() == f.neg() && f.abs().min(b.mass) == f.neg());
    }
}

proof fn lemma_one_way(
    env: Env,
    s: State,
    src: int,
    dst: int,
    amount: F32,
    empty: bool,
    held: u16,
    elem: u16,
)
    requires
        0 <= src < s.updated.len(),
        0 <= dst < s.updated.len(),
        src != dst,
        held != env.void_element_idx,
    ensures
        heat_laws::can_mix(
            s.updated[dst].mass,
            s.updated[dst].temperature,
            amount,
            s.updated[src].temperature,
        ) ==> has_evened(
            env,
            s,
            gone(env, s, src, dst, amount, empty, held, elem),
            src,
            dst,
            amount,
            empty,
            elem,
        ),
{
    lemma_passed(env, s, src, dst, amount);
}

proof fn lemma_passed(env: Env, s: State, src: int, dst: int, amount: F32)
    requires
        0 <= src < s.updated.len(),
        0 <= dst < s.updated.len(),
        src != dst,
    ensures
        ({
            let germs = amount.over(s.cells[src].mass).clamp(num(ZERO), num(ONE)).times(
                F32::from_i32(s.cells[src].disease_count),
            ).to_i32();
            let t = pressure::passed(env, s, src, dst, amount, germs);
            heat_laws::can_mix(
                s.updated[dst].mass,
                s.updated[dst].temperature,
                amount,
                s.updated[src].temperature,
            ) ==> has_evened(env, s, t, src, dst, amount, false, 0)
        }),
{
    let germs = amount.over(s.cells[src].mass).clamp(num(ZERO), num(ONE)).times(
        F32::from_i32(s.cells[src].disease_count),
    ).to_i32();
    let from = s.updated[src];
    if heat_laws::can_mix(
        s.updated[dst].mass,
        s.updated[dst].temperature,
        amount,
        from.temperature,
    ) {
        heat_laws::law_added_mass_mixes(
            s.updated[dst],
            env.diseases,
            amount,
            from.temperature,
            from.disease_idx,
            germs,
        );
        if 0 <= germs && 0 <= from.disease_count {
            heat_laws::law_germs_leave(
                Cell { mass: from.mass.minus(amount).max(num(ZERO)), ..from },
                germs,
            );
        }
    }
}

/// Whether a gas or an empty cell and a neighbour even out: both are open to gases, still what the
/// step found and gases or empty; not both are empty, and two gases are the same.
pub open spec fn even_out(env: Env, s: State, src: int, dst: int) -> bool {
    &&& 0 <= dst < s.cells.len()
    &&& s.cells[dst].properties & 1 == 0
    &&& s.updated[dst].element_idx == s.cells[dst].element_idx
    &&& match (
        env.elements.spec_pressure(s.cells[src].element_idx),
        env.elements.spec_pressure(s.cells[dst].element_idx),
    ) {
        (Some(a), Some(b)) => {
            let (p, q) = (a.state & 3, b.state & 3);
            &&& q < 2
            &&& !(p == 0 && q == 0)
            &&& s.cells[dst].element_idx == s.cells[src].element_idx || p != q
        },
        _ => false,
    }
}

/// Whether a gas or an empty cell takes part in the spreading of gases.
pub open spec fn spreads(env: Env, s: State, src: int) -> bool {
    &&& 0 <= src < s.cells.len()
    &&& s.cells.len() == s.updated.len()
    &&& s.flow.len() == s.cells.len()
    &&& s.cells[src].properties & 1 == 0
    &&& s.updated[src].element_idx == s.cells[src].element_idx
    &&& env.elements.spec_pressure(s.cells[src].element_idx) matches Some(d) && d.state & 3 < 2
}

proof fn lemma_shared(env: Env, s: State, src: int, dst: int)
    requires
        spreads(env, s, src),
    ensures
        ({
            let e = s.cells[src].element_idx;
            let d = env.elements.spec_pressure(e)->0;
            let (t, f) = gas_flow::shared(env, s, src, dst, e, d);
            &&& even_out(env, s, src, dst) ==> f is Some && (t, f->0) == pressure::levelled(
                env,
                s,
                src,
                dst,
            )
            &&& !even_out(env, s, src, dst) ==> f is None && t == s
        }),
{
}

/// Whether a gas has a way up and ahead: neither of the cells beside that way is solid, nor are
/// they a gas and a liquid; what is not in the table counts as solid.
pub open spec fn has_corner(env: Env, s: State, src: int) -> bool {
    let dir = s.iterate_direction as int;
    let (a, b) = (src + dir, src + env.width);
    &&& 0 <= a < s.cells.len()
    &&& 0 <= b < s.cells.len()
    &&& match (
        env.elements.spec_pressure(s.cells[a].element_idx),
        env.elements.spec_pressure(s.cells[b].element_idx),
    ) {
        (Some(x), Some(y)) => {
            let (p, q) = (x.state & 3, y.state & 3);
            p != 3 && q != 3 && !(p == 1 && q == 2) && !(p == 2 && q == 1)
        },
        _ => false,
    }
}

/// A gas or an empty cell with one partner, ahead of it, above it or up and ahead, evens out with
/// that one; what flows is booked, but not up and ahead.
#[verifier::rlimit(40)]
pub proof fn law_gas_spreads_one_way(env: Env, s: State, y: int, x: int, way: int)
    requires
        spreads(env, s, y * env.width + x),
        ({
            let src = y * env.width + x;
            let dir = s.iterate_direction as int;
            let w = env.width as int;
            let ahead = 1 <= x + dir <= w - 2;
            &&& dir == 1 || dir == -1
            &&& w >= 5
            &&& way == dir || way == w || way == w + dir
            &&& way != dir ==> !ahead || !even_out(env, s, src, src + dir)
            &&& way != w ==> !even_out(env, s, src, src + w)
            &&& way != w + dir ==> !ahead || !has_corner(env, s, src) || !even_out(
                env,
                s,
                src,
                src + w + dir,
            )
            &&& way == dir ==> ahead
            &&& way == w + dir ==> ahead && has_corner(env, s, src)
            &&& even_out(env, s, src, src + way)
            &&& env.elements.spec_pressure(s.cells[src].element_idx)->0.state & 3 == 1
        }),
    ensures
        ({
            let src = y * env.width + x;
            let dir = s.iterate_direction as int;
            let w = env.width as int;
            let t = gas_flow::gas_spread(env, s, y, x);
            let (u, f) = pressure::levelled(env, s, src, src + way);
            let sideways = F32::from_i32(s.iterate_direction).times(f);
            &&& t.updated == u.updated
            &&& t.cells == s.cells
            &&& way == dir ==> t.flow[src].y == s.flow[src].y.plus(sideways) && t.flow[src + dir].x
                == s.flow[src + dir].x.plus(sideways.neg())
            &&& way == w ==> t.flow[src].z == s.flow[src].z.plus(f) && t.flow[src + w].w
                == s.flow[src + w].w.plus(f.neg())
            &&& way == w + dir ==> t.flow == s.flow
        }),
{
    let src = y * env.width + x;
    let e = s.cells[src].element_idx;
    let d = env.elements.spec_pressure(e)->0;
    let dir = s.iterate_direction as int;
    let w = env.width as int;
    lemma_sideways(env, s, y, x, d);
    let a = gas_flow::shared_sideways(env, s, y, x, e, d);
    lemma_upwards(env, a, src, d);
    let b = gas_flow::shared_upwards(env, a, src, e, d);
    lemma_diagonally(env, b, y, x, d);
    assert(gas_flow::gas_spread(env, s, y, x) == gas_flow::shared_diagonally(env, b, y, x, e, d));
    lemma_levelled(env, s, src, src + way);
    if way == dir {
        lemma_others(env, s, a, src, dir, src + w);
        lemma_others(env, s, a, src, dir, src + w + dir);
        assert(b == a);
    } else if way == w {
        assert(a == s);
        lemma_others(env, s, b, src, w, src + w + dir);
    }
}

proof fn lemma_levelled(env: Env, s: State, src: int, dst: int)
    requires
        0 <= src < s.cells.len(),
        0 <= dst < s.cells.len(),
        s.cells.len() == s.updated.len(),
    ensures
        ({
            let t = pressure::levelled(env, s, src, dst).0;
            &&& t.flow == s.flow
            &&& t.cells == s.cells
            &&& t.iterate_direction == s.iterate_direction
            &&& t.updated.len() == s.updated.len()
            &&& forall|i: int|
                0 <= i < s.updated.len() && i != src && i != dst ==> #[trigger] t.updated[i]
                    == s.updated[i]
        }),
{
}

/// What two cells do leaves other pairs as they were.
proof fn lemma_others(env: Env, s: State, t: State, src: int, way: int, other: int)
    requires
        t.cells == s.cells,
        t.updated.len() == s.updated.len(),
        s.cells.len() == s.updated.len(),
        other != src,
        other != src + way,
        forall|i: int|
            0 <= i < s.updated.len() && i != src && i != src + way ==> #[trigger] t.updated[i]
                == s.updated[i],
    ensures
        even_out(env, t, src, other) == even_out(env, s, src, other),
{
}

proof fn lemma_sideways(env: Env, s: State, y: int, x: int, d: ElementPressureData)
    requires
        spreads(env, s, y * env.width + x),
        env.elements.spec_pressure(s.cells[y * env.width + x].element_idx) == Some(d),
        s.iterate_direction == 1 || s.iterate_direction == -1,
    ensures
        ({
            let src = y * env.width + x;
            let dir = s.iterate_direction as int;
            let e = s.cells[src].element_idx;
            let t = gas_flow::shared_sideways(env, s, y, x, e, d);
            let (u, f) = pressure::levelled(env, s, src, src + dir);
            let g = F32::from_i32(s.iterate_direction).times(f);
            &&& !(1 <= x + dir <= env.width - 2) || !even_out(env, s, src, src + dir) ==> t == s
            &&& 1 <= x + dir <= env.width - 2 && even_out(env, s, src, src + dir) ==> {
                &&& t.updated == u.updated
                &&& t.cells == s.cells
                &&& t.iterate_direction == s.iterate_direction
                &&& t.flow[src].y == s.flow[src].y.plus(g)
                &&& t.flow[src + dir].x == s.flow[src + dir].x.plus(g.neg())
            }
        }),
{
    let src = y * env.width + x;
    let dir = s.iterate_direction as int;
    reveal(gas_flow::shared_sideways);
    lemma_shared(env, s, src, src + dir);
    if even_out(env, s, src, src + dir) {
        lemma_levelled(env, s, src, src + dir);
    }
}

proof fn lemma_upwards(env: Env, s: State, src: int, d: ElementPressureData)
    requires
        0 <= src < s.cells.len(),
        env.elements.spec_pressure(s.cells[src].element_idx) == Some(d),
        env.width >= 5,
    ensures
        ({
            let e = s.cells[src].element_idx;
            let w = env.width as int;
            let t = gas_flow::shared_upwards(env, s, src, e, d);
            let (u, f) = pressure::levelled(env, s, src, src + w);
            &&& !even_out(env, s, src, src + w) ==> t == s
            &&& spreads(env, s, src) && even_out(env, s, src, src + w) ==> {
                &&& t.updated == u.updated
                &&& t.cells == s.cells
                &&& t.iterate_direction == s.iterate_direction
                &&& t.flow[src].z == s.flow[src].z.plus(f)
                &&& t.flow[src + w].w == s.flow[src + w].w.plus(f.neg())
            }
        }),
{
    let w = env.width as int;
    reveal(gas_flow::shared_upwards);
    if spreads(env, s, src) && even_out(env, s, src, src + w) {
        lemma_shared(env, s, src, src + w);
        lemma_levelled(env, s, src, src + w);
    }
}

proof fn lemma_diagonally(env: Env, s: State, y: int, x: int, d: ElementPressureData)
    requires
        0 <= y * env.width + x < s.cells.len(),
        env.elements.spec_pressure(s.cells[y * env.width + x].element_idx) == Some(d),
        s.iterate_direction == 1 || s.iterate_direction == -1,
    ensures
        ({
            let src = y * env.width + x;
            let dir = s.iterate_direction as int;
            let e = s.cells[src].element_idx;
            let dst = src + env.width + dir;
            let ahead = 1 <= x + dir <= env.width - 2;
            let t = gas_flow::shared_diagonally(env, s, y, x, e, d);
            let (u, f) = pressure::levelled(env, s, src, dst);
            &&& !ahead || !has_corner(env, s, src) || !even_out(env, s, src, dst) ==> t == s
            &&& ahead && has_corner(env, s, src) && even_out(env, s, src, dst) && spreads(
                env,
                s,
                src,
            ) ==> t == u
        }),
{
    let src = y * env.width + x;
    let dir = s.iterate_direction as int;
    reveal(gas_flow::shared_diagonally);
    let (a, b) = (src + dir, src + env.width);
    if 0 <= a < s.cells.len() && 0 <= b < s.cells.len() {
        lemma_corner(env, s.cells[a].element_idx, s.cells[b].element_idx);
    }
    if spreads(env, s, src) && even_out(env, s, src, src + env.width + dir) {
        lemma_shared(env, s, src, src + env.width + dir);
    }
}

/// When two phases make up a solid's.
proof fn lemma_corner(env: Env, a: u16, b: u16)
    ensures
        ({
            let p = if env.elements.spec_pressure(a) is Some {
                env.elements.spec_pressure(a)->0.state & 3
            } else {
                3
            };
            let q = if env.elements.spec_pressure(b) is Some {
                env.elements.spec_pressure(b)->0.state & 3
            } else {
                3
            };
            (p | q) & 3 == 3 <==> p == 3 || q == 3 || (p == 1 && q == 2) || (p == 2 && q == 1)
        }),
        forall|x: u8| #[trigger] (x & 3) != 0xff,
{
    let p = if env.elements.spec_pressure(a) is Some {
        env.elements.spec_pressure(a)->0.state
    } else {
        3
    };
    let q = if env.elements.spec_pressure(b) is Some {
        env.elements.spec_pressure(b)->0.state
    } else {
        3
    };
    assert(((p & 3) | (q & 3)) & 3 == 3 <==> p & 3 == 3 || q & 3 == 3 || (p & 3 == 1 && q & 3 == 2)
        || (p & 3 == 2 && q & 3 == 1)) by (bit_vector);
    assert(3u8 & 3 == 3) by (bit_vector);
    assert forall|x: u8| #[trigger] (x & 3) != 0xff by {
        move_laws::lemma_two_bits(x);
    }
}

/// Whether a liquid has surplus enough to squeeze another one away: the other is open to liquids,
/// both are still what the step found, and the surplus, its mass less what has flowed out of it, is
/// more than the two cells in its way hold.
pub open spec fn may_squeeze(
    env: Env,
    s: State,
    elem: u16,
    src: int,
    dst: int,
    beyond: int,
) -> bool {
    let v = s.flow[src];
    let surplus = s.cells[src].mass.minus(v.x.plus(v.y).plus(v.z).plus(v.w));
    &&& s.cells[dst].properties & 2 == 0
    &&& s.cells[dst].element_idx != elem
    &&& s.updated[src].element_idx == elem
    &&& s.updated[dst].element_idx == s.cells[dst].element_idx
    &&& env.elements.spec_pressure(s.cells[dst].element_idx) matches Some(d) && d.state & 3 == 2
    &&& !surplus.le(s.cells[beyond].mass.plus(s.cells[dst].mass))
}

/// A liquid that squeezes another one into its own kind beyond follows with an eighth of its
/// surplus, at the temperature of its own cell, and with an eighth of its germs.
#[verifier::rlimit(40)]
pub proof fn law_liquid_squeezes(env: Env, s: State, elem: u16, src: int, dst: int, beyond: int)
    requires
        0 <= src < s.updated.len(),
        0 <= dst < s.updated.len(),
        0 <= beyond < s.updated.len(),
        s.cells.len() == s.updated.len(),
        s.flow.len() == s.cells.len(),
        src != dst,
        dst != beyond,
        src != beyond,
        may_squeeze(env, s, elem, src, dst, beyond),
        !s.updated[dst].mass.le(num(ZERO)),
        s.updated[beyond].properties & 2 == 0,
        s.updated[beyond].element_idx == s.updated[dst].element_idx,
        move_laws::phase_of(env, s.updated[beyond].element_idx) == 2,
        heat_laws::can_mix(
            s.updated[beyond].mass,
            s.updated[beyond].temperature,
            s.updated[dst].mass,
            s.updated[dst].temperature,
        ),
        0 <= s.cells[src].disease_count <= 0x100_0000,
        s.updated[src].disease_count == s.cells[src].disease_count,
        s.cells[src].disease_idx != 0xff,
    ensures
        ({
            let (t, f) = pressure::squeezed(env, s, elem, src, dst, beyond);
            let v = s.flow[src];
            let surplus = s.cells[src].mass.minus(v.x.plus(v.y).plus(v.z).plus(v.w));
            let now = t.updated[dst];
            let left = t.updated[src];
            let n = F32::from_i32(s.cells[src].disease_count).times(num(EIGHTH)).to_i32();
            &&& f == surplus.times(num(EIGHTH))
            &&& now.element_idx == elem
            &&& now.temperature == s.cells[src].temperature
            &&& now.mass == num(ZERO).plus(f)
            &&& n > 0 ==> now.disease_idx == s.cells[src].disease_idx && now.disease_count == n
            &&& n <= 0 ==> laws::clean(now)
            &&& left.mass == s.updated[src].mass.minus(f).max(num(ZERO))
            &&& left.temperature == s.updated[src].temperature
            &&& left.element_idx == elem
            &&& 0 <= n < s.updated[src].disease_count ==> left.disease_count
                == s.updated[src].disease_count - n
            &&& 8 * n <= s.cells[src].disease_count < 8 * n + 8
            &&& heat_laws::has_gained(
                s.updated[beyond],
                t.updated[beyond],
                s.updated[dst].mass,
                s.updated[dst].temperature,
            )
            &&& alike_but(s, t, set![src, dst, beyond])
        }),
{
    let c = s.updated[dst];
    heat_laws::law_added_mass_mixes(
        s.updated[beyond],
        env.diseases,
        c.mass,
        c.temperature,
        c.disease_idx,
        c.disease_count,
    );
    move_laws::lemma_low_bits(env, s.updated[beyond].element_idx);
    push_laws::lemma_eighth_of(s.cells[src].disease_count);
    let n = F32::from_i32(s.cells[src].disease_count).times(num(EIGHTH)).to_i32();
    let f = pressure::squeezed(env, s, elem, src, dst, beyond).1;
    if 0 <= n {
        heat_laws::law_germs_leave(
            Cell { mass: s.updated[src].mass.minus(f).max(num(ZERO)), ..s.updated[src] },
            n,
        );
    }
}

/// A liquid that may not squeeze another one leaves it alone.
pub proof fn law_liquid_that_may_not_squeeze(
    env: Env,
    s: State,
    elem: u16,
    src: int,
    dst: int,
    beyond: int,
)
    requires
        s.flow.len() == s.cells.len(),
        0 <= src < s.cells.len(),
        0 <= dst < s.cells.len(),
        0 <= beyond < s.cells.len(),
        s.cells.len() == s.updated.len(),
        !may_squeeze(env, s, elem, src, dst, beyond),
    ensures
        pressure::squeezed(env, s, elem, src, dst, beyond) == (s, num(ZERO)),
{
}

/// An empty cell that a gas ahead of it has flowed into is done: it evens out with no other cell.
pub proof fn law_filled_cell_stops(env: Env, s: State, y: int, x: int)
    requires
        spreads(env, s, y * env.width + x),
        ({
            let src = y * env.width + x;
            let dir = s.iterate_direction as int;
            let t = pressure::levelled(env, s, src, src + dir).0;
            &&& dir == 1 || dir == -1
            &&& 1 <= x + dir <= env.width - 2
            &&& even_out(env, s, src, src + dir)
            &&& env.elements.spec_pressure(s.cells[src].element_idx)->0.state & 3 == 0
            &&& t.updated[src].element_idx != s.cells[src].element_idx
        }),
    ensures
        ({
            let src = y * env.width + x;
            let dir = s.iterate_direction as int;
            gas_flow::gas_spread(env, s, y, x).updated == pressure::levelled(
                env,
                s,
                src,
                src + dir,
            ).0.updated
        }),
{
    let src = y * env.width + x;
    let e = s.cells[src].element_idx;
    let d = env.elements.spec_pressure(e)->0;
    lemma_sideways(env, s, y, x, d);
}

/// Liquids squeeze behind them, ahead of them, and above them where they are full; each time with
/// what the last one left, and the flow is booked.
pub proof fn law_liquid_squeezes_in_turn(env: Env, s: State, y: int, x: int)
    requires
        0 <= y * env.width + x < s.cells.len(),
        env.elements.spec_pressure(s.cells[y * env.width + x].element_idx) matches Some(d)
            && d.state & 3 == 2,
        ({
            let cell = y * env.width + x;
            let dir = s.iterate_direction as int;
            let e = s.cells[cell].element_idx;
            let same = |k: int| 0 <= k < s.cells.len() ==> s.cells[k].element_idx == e;
            &&& same(cell + dir)
            &&& same(cell + env.width)
            &&& 0 <= cell - dir < s.cells.len()
            &&& s.cells[cell - dir].element_idx != e
            &&& s.flow.len() == s.cells.len()
            &&& s.cells.len() == s.updated.len()
            &&& dir == 1 || dir == -1
        }),
    ensures
        ({
            let cell = y * env.width + x;
            let dir = s.iterate_direction as int;
            let e = s.cells[cell].element_idx;
            let (u, f) = pressure::squeezed(env, s, e, cell, cell - dir, cell - dir - dir);
            let t = SqueezePass.effect(env, s, y, x);
            &&& t.updated == u.updated
            &&& t.flow[cell].x == u.flow[cell].x.plus(f)
            &&& t.flow[cell - dir].y == u.flow[cell - dir].y.plus(f.neg())
        }),
{
    reveal(pressure::squeezed_to);
    let cell = y * env.width + x;
    let dir = s.iterate_direction as int;
    let e = s.cells[cell].element_idx;
    let a = pressure::squeezed_to(
        env,
        s,
        e,
        cell,
        -dir,
        crate::sim_data::Side::Left,
        crate::sim_data::Side::Right,
        true,
    );
    lemma_squeezed_frame(env, s, e, cell, cell - dir, cell - dir - dir);
    assert(a.cells == s.cells);
}

proof fn lemma_squeezed_frame(env: Env, s: State, elem: u16, src: int, dst: int, beyond: int)
    ensures
        pressure::squeezed(env, s, elem, src, dst, beyond).0.cells == s.cells,
        pressure::squeezed(env, s, elem, src, dst, beyond).0.flow == s.flow,
{
}

/// A gas that evens out with no neighbour stays as it is.
pub proof fn law_gas_without_partners_stays(env: Env, s: State, y: int, x: int)
    requires
        spreads(env, s, y * env.width + x),
        ({
            let src = y * env.width + x;
            let dir = s.iterate_direction as int;
            let w = env.width as int;
            let ahead = 1 <= x + dir <= w - 2;
            &&& dir == 1 || dir == -1
            &&& w >= 5
            &&& !ahead || !even_out(env, s, src, src + dir)
            &&& !even_out(env, s, src, src + w)
            &&& !ahead || !has_corner(env, s, src) || !even_out(env, s, src, src + w + dir)
        }),
    ensures
        gas_flow::gas_spread(env, s, y, x) == s,
{
    let src = y * env.width + x;
    let e = s.cells[src].element_idx;
    let d = env.elements.spec_pressure(e)->0;
    lemma_sideways(env, s, y, x, d);
    lemma_upwards(env, s, src, d);
    lemma_diagonally(env, s, y, x, d);
}

/// What is closed to gases, has changed since the step found it, or is neither a gas nor empty does
/// not even out.
pub proof fn law_who_does_not_spread(env: Env, s: State, y: int, x: int)
    requires
        0 <= y * env.width + x < s.cells.len(),
        s.cells.len() == s.updated.len(),
        s.flow.len() == s.cells.len(),
        !spreads(env, s, y * env.width + x),
    ensures
        gas_flow::gas_spread(env, s, y, x) == s,
{
}

/// A liquid that is pushed on joins its own kind, or changes places with a gas or nothing once that
/// has left; it does not enter a marked cell, another liquid or a solid.
pub proof fn law_liquid_is_pushed_on(env: Env, s: State, src: int, dst: int)
    requires
        0 <= src < s.updated.len(),
        0 <= dst < s.updated.len(),
        src != dst,
        env.width >= 2,
    ensures
        ({
            let (t, ok) = pressure::pushed(env, s, src, dst);
            let (a, b) = (s.updated[src], s.updated[dst]);
            let p = move_laws::phase_of(env, b.element_idx);
            let goal = displacement::gas_goal(env, s, dst, b.element_idx);
            let soft = p == 0 || p == 1;
            let shut = a.mass.le(num(ZERO)) || b.properties & 2 != 0;
            &&& shut || p == -1 || p == 3 || (p == 2 && a.element_idx != b.element_idx) || (soft
                && goal is None) ==> !ok && t == s
            &&& !shut && soft && goal is Some ==> {
                let u = displacement::moved(env, s, dst, goal->0);
                ok && move_laws::has_swapped(u, t, src, dst)
            }
            &&& !shut && p == 2 && a.element_idx == b.element_idx && heat_laws::can_mix(
                b.mass,
                b.temperature,
                a.mass,
                a.temperature,
            ) ==> {
                &&& ok
                &&& heat_laws::has_gained(b, t.updated[dst], a.mass, a.temperature)
                &&& heat_laws::has_germs_from(
                    env.diseases,
                    b,
                    t.updated[dst],
                    a.disease_idx,
                    a.disease_count,
                )
                &&& push_laws::is_void_of(env, a, t.updated[src])
                &&& alike_but(s, t, set![src, dst])
            }
        }),
{
    let (a, b) = (s.updated[src], s.updated[dst]);
    move_laws::lemma_low_bits(env, b.element_idx);
    laws::lemma_gas_goal(env, s, dst, b.element_idx);
    if let Some(g) = displacement::gas_goal(env, s, dst, b.element_idx) {
        let u = displacement::moved(env, s, dst, g);
        assert(u.updated.len() == s.updated.len());
        move_laws::law_swap(u, src, dst);
    }
    if heat_laws::can_mix(b.mass, b.temperature, a.mass, a.temperature) {
        heat_laws::law_added_mass_mixes(
            b,
            env.diseases,
            a.mass,
            a.temperature,
            a.disease_idx,
            a.disease_count,
        );
    }
}

} // verus!
