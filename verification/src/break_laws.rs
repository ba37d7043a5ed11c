//! What holds where pressure meets walls.
use crate::cell::Cell;
use crate::constants::ONE;
use crate::constants::QUARTER;
use crate::constants::WALL_RESISTANCE;
use crate::constants::ZERO;
use crate::element::ElementPostProcessData;
use crate::laws;
use crate::number::num;
use crate::number::F32;
use crate::number_laws;
use crate::post_process;
use crate::pressure_break;
use crate::pressure_laws::is_amount;
use crate::radiation_laws;
use crate::region_events::WorldDamageInfo;
use crate::rounding;
use crate::sim_data;
use crate::sim_data::Env;
use crate::sim_data::State;
use vstd::arithmetic::power2::*;
use vstd::prelude::*;

verus! {

/// The data of what a cell holds, for the closing pass.
pub open spec fn data_of(env: Env, c: Cell) -> ElementPostProcessData {
    env.elements.spec_post_process(c.element_idx)->0
}

/// Whether a cell is wall that can be broken: solid, and neither it nor its element is marked
/// otherwise.
pub open spec fn is_wall(env: Env, c: Cell) -> bool {
    &&& env.elements.spec_post_process(c.element_idx) is Some
    &&& data_of(env, c).state & 3 == 3
    &&& data_of(env, c).state & 4 == 0
    &&& c.properties & 8 == 0
}

/// Whether a cell is solid and cannot be broken.
pub open spec fn is_bedrock(env: Env, c: Cell) -> bool {
    &&& env.elements.spec_post_process(c.element_idx) is Some
    &&& data_of(env, c).state & 3 == 3
    &&& data_of(env, c).state & 4 != 0 || c.properties & 8 != 0
}

/// Whether a cell holds something that is not solid.
pub open spec fn is_soft(env: Env, c: Cell) -> bool {
    env.elements.spec_post_process(c.element_idx) is Some && data_of(env, c).state & 3 != 3
}

/// Whether a cell holds a liquid that presses back.
pub open spec fn presses(env: Env, c: Cell) -> bool {
    &&& env.elements.spec_post_process(c.element_idx) is Some
    &&& data_of(env, c).state & 3 == 2
    &&& num(ZERO).lt(c.mass)
}

/// Whether the numbers of a cell of wall are amounts, and its element has a full mass.
pub open spec fn is_sound_wall(env: Env, c: Cell) -> bool {
    &&& is_wall(env, c)
    &&& is_amount(c.mass)
    &&& is_amount(data_of(env, c).strength)
    &&& is_amount(data_of(env, c).max_mass)
    &&& num(ZERO).lt(data_of(env, c).max_mass)
}

/// A quotient by what is above zero is not negative, and larger for what is larger.
pub proof fn lemma_over_monotone(x: F32, y: F32, d: F32)
    requires
        num(ZERO).le(x),
        x.le(y),
        y.is_finite(),
        d.is_finite(),
        num(ZERO).lt(d),
    ensures
        num(ZERO).le(x.over(d)),
        x.over(d).le(y.over(d)),
{
    let p = pow2(149);
    let u = rounding::units(x.mag() as nat);
    let v = rounding::units(y.mag() as nat);
    let w = rounding::units(d.mag() as nat);
    laws::lemma_zero_value();
    number_laws::law_order_is_by_value(num(ZERO), x);
    number_laws::law_order_is_by_value(x, y);
    number_laws::law_order_is_by_value(num(ZERO), d);
    assert(x.value() == u && y.value() == v && d.value() == w);
    assert(u * p <= v * p) by (nonlinear_arith)
        requires
            u <= v,
    ;
    number_laws::law_round_monotone(u * p, v * p, w);
    number_laws::law_round_zero(w);
    assert(0 * p == 0);
    assert(rounding::round_mag(u * p, w) <= rounding::INFINITE);
    assert(rounding::round_mag(v * p, w) <= rounding::INFINITE);
    reveal(F32::spec_over);
}

/// A wall adds no less than nothing to the resistance, or it is no number.
proof fn lemma_resistance(env: Env, c: Cell)
    requires
        is_sound_wall(env, c),
    ensures
        ({
            let r = pressure_break::resistance(c, data_of(env, c));
            r.is_nan() || num(ZERO).le(r)
        }),
{
    let d = data_of(env, c);
    let natural = if c.strength_info >> 7 == 1 {
        num(ONE)
    } else {
        num(ZERO)
    };
    let q = c.mass.over(d.max_mass);
    lemma_over_monotone(c.mass, c.mass, d.max_mass);
    let n = (c.strength_info & 0x7f) as i32;
    let i = c.strength_info;
    assert(i & 0x7f <= 0x7f) by (bit_vector);
    laws::lemma_from_nonnegative(n);
    radiation_laws::lemma_integer(n);
    let a = q.times(natural);
    lemma_nan_or(q, natural);
    laws::lemma_zero_value();
    let rest = num(ONE).minus(natural);
    assert(num(ZERO).le(rest)) by {
        if natural == num(ONE) {
            number_laws::law_minus_self(num(ONE));
        } else {
            lemma_less_nothing();
        }
    }
    lemma_nan_or_sum(a, rest);
    let b = a.plus(rest);
    lemma_nan_or(b, d.strength);
    let e = b.times(d.strength);
    lemma_nan_or(e, F32::from_i32(n));
    let f = e.times(F32::from_i32(n));
    lemma_nan_or(f, num(QUARTER));
    lemma_nan_or_sum(f.times(num(QUARTER)), num(WALL_RESISTANCE));
}

proof fn lemma_less_nothing()
    ensures
        num(ZERO).le(num(ONE).minus(num(ZERO))),
{
    let z = num(ZERO).neg();
    laws::lemma_zero_value();
    laws::lemma_neg_is_opposite(num(ZERO));
    number_laws::law_sum_is_rounded(num(ONE), z);
    number_laws::law_rounded_exact(num(ONE));
}

proof fn lemma_nan_or(x: F32, y: F32)
    requires
        x.is_nan() || num(ZERO).le(x),
        is_amount(y),
    ensures
        x.times(y).is_nan() || num(ZERO).le(x.times(y)),
{
    if x.is_nan() {
        reveal(F32::spec_times);
    } else if !x.times(y).is_nan() {
        number_laws::law_product_not_negative(x, y);
    }
}

proof fn lemma_nan_or_sum(x: F32, y: F32)
    requires
        x.is_nan() || num(ZERO).le(x),
        num(ZERO).le(y),
    ensures
        x.plus(y).is_nan() || num(ZERO).le(x.plus(y)),
{
    if x.is_nan() {
        reveal(F32::spec_plus);
    } else if !x.plus(y).is_nan() {
        number_laws::law_plus_makes_no_smaller(x, y);
    }
}

/// What pressure meets in front of a wall of `n` cells: the wall, and what is behind it.
pub open spec fn is_wall_of(
    env: Env,
    s: State,
    cell: int,
    offset: int,
    n: int,
    behind: Cell,
) -> bool {
    &&& 1 <= n <= 2
    &&& sim_data::at(s.updated, cell + offset) matches Some(c) && is_sound_wall(env, c)
    &&& n == 2 ==> (sim_data::at(s.updated, cell + offset + offset) matches Some(c)
        && is_sound_wall(env, c))
    &&& sim_data::at(s.updated, cell + (n + 1) * offset) == Some(behind)
    &&& is_soft(env, behind)
}

/// The resistance of a wall of one or two cells: one, and what each cell adds.
pub open spec fn resistance_of(env: Env, s: State, cell: int, offset: int, n: int) -> F32 {
    let a = s.updated[cell + offset];
    let one = num(ONE).plus(pressure_break::resistance(a, data_of(env, a)));
    if n == 1 {
        one
    } else {
        let b = s.updated[cell + offset + offset];
        one.plus(pressure_break::resistance(b, data_of(env, b)))
    }
}

/// A wall of one or two cells breaks if and only if events are kept, and the pressure exceeds its
/// resistance, also once the pressure of a liquid behind it is taken off.
pub proof fn law_wall_breaks_if_weaker(
    env: Env,
    s: State,
    cell: int,
    ratio: F32,
    offset: int,
    n: int,
    behind: Cell,
)
    requires
        is_wall_of(env, s, cell, offset, n, behind),
    ensures
        ({
            let r = resistance_of(env, s, cell, offset, n);
            let first = resistance_of(env, s, cell, offset, 1);
            let back = behind.mass.over(data_of(env, behind).max_mass);
            pressure_break::breach(env, s, cell, ratio, offset) is Some <==> {
                &&& s.events is Some
                &&& !ratio.lt(first)
                &&& r.lt(ratio)
                &&& presses(env, behind) ==> r.lt(ratio.minus(back))
            }
        }),
        pressure_break::breach(env, s, cell, ratio, offset) matches Some(k) ==> k == n,
{
    lemma_offsets(offset);
    reveal_with_fuel(pressure_break::wall, 4);
}

proof fn lemma_offsets(offset: int)
    ensures
        2 * offset == offset + offset,
        3 * offset == offset + offset + offset,
        (1 + 1) * offset == offset + offset,
        (2 + 1) * offset == offset + offset + offset,
{
}

/// A wall with as much pressure behind it as in front of it holds.
pub proof fn law_balanced_wall_holds(
    env: Env,
    s: State,
    cell: int,
    ratio: F32,
    offset: int,
    n: int,
    behind: Cell,
)
    requires
        is_wall_of(env, s, cell, offset, n, behind),
        presses(env, behind),
        ratio.is_finite(),
        ratio.le(behind.mass.over(data_of(env, behind).max_mass)),
    ensures
        pressure_break::breach(env, s, cell, ratio, offset) is None,
{
    law_wall_breaks_if_weaker(env, s, cell, ratio, offset, n, behind);
    let back = behind.mass.over(data_of(env, behind).max_mass);
    let r = resistance_of(env, s, cell, offset, n);
    assert(r.is_nan() || num(ZERO).le(r)) by {
        let a = s.updated[cell + offset];
        lemma_resistance(env, a);
        lemma_sum_of_walls(num(ONE), pressure_break::resistance(a, data_of(env, a)));
        if n == 2 {
            let b = s.updated[cell + offset + offset];
            lemma_resistance(env, b);
            lemma_sum_of_walls(
                num(ONE).plus(pressure_break::resistance(a, data_of(env, a))),
                pressure_break::resistance(b, data_of(env, b)),
            );
        }
    }
    let excess = ratio.minus(back);
    if back.is_finite() {
        laws::lemma_neg_is_opposite(back);
        laws::lemma_zero_value();
        number_laws::law_order_is_by_value(ratio, back);
        number_laws::law_sum_is_rounded(ratio, back.neg());
        number_laws::law_rounded_exact(num(ZERO));
        number_laws::law_rounded_monotone(ratio.value() - back.value(), 0);
    } else {
        assert(back.neg().mag() == back.mag());
        reveal(F32::spec_plus);
    }
    assert(excess.is_nan() || excess.rank() <= 0);
}

proof fn lemma_sum_of_walls(x: F32, y: F32)
    requires
        x.is_nan() || num(ZERO).le(x),
        y.is_nan() || num(ZERO).le(y),
    ensures
        x.plus(y).is_nan() || num(ZERO).le(x.plus(y)),
{
    if x.is_nan() || y.is_nan() {
        reveal(F32::spec_plus);
    } else {
        lemma_nan_or_sum(x, y);
    }
}

/// More liquid behind a wall never makes a wall break that held with less.
pub proof fn law_more_behind_holds_more(
    env: Env,
    s: State,
    t: State,
    cell: int,
    ratio: F32,
    offset: int,
    n: int,
    less: Cell,
    more: Cell,
)
    requires
        is_wall_of(env, s, cell, offset, n, less),
        is_wall_of(env, t, cell, offset, n, more),
        forall|i: int| 1 <= i <= n ==> s.updated[#[trigger] (cell + i * offset)] == t.updated[cell
            + i * offset],
        s.events is Some,
        presses(env, less),
        presses(env, more),
        less.element_idx == more.element_idx,
        less.mass.le(more.mass),
        more.mass.is_finite(),
        data_of(env, less).max_mass.is_finite(),
        num(ZERO).lt(data_of(env, less).max_mass),
        more.mass.over(data_of(env, more).max_mass).is_finite(),
        ratio.is_finite(),
    ensures
        pressure_break::breach(env, s, cell, ratio, offset) is None ==> pressure_break::breach(
            env,
            t,
            cell,
            ratio,
            offset,
        ) is None,
{
    law_wall_breaks_if_weaker(env, s, cell, ratio, offset, n, less);
    law_wall_breaks_if_weaker(env, t, cell, ratio, offset, n, more);
    lemma_offsets(offset);
    assert(s.updated[cell + 1 * offset] == t.updated[cell + 1 * offset]);
    if n == 2 {
        assert(s.updated[cell + 2 * offset] == t.updated[cell + 2 * offset]);
    }
    let d = data_of(env, less).max_mass;
    let a = less.mass.over(d);
    let b = more.mass.over(d);
    lemma_over_monotone(less.mass, more.mass, d);
    lemma_less_left(ratio, a, b);
}

/// What more is taken from is no larger.
pub proof fn lemma_less_left(x: F32, a: F32, b: F32)
    requires
        x.is_finite(),
        b.is_finite(),
        num(ZERO).le(a),
        a.le(b),
    ensures
        !x.minus(a).is_nan(),
        !x.minus(b).is_nan(),
        x.minus(b).le(x.minus(a)),
{
    laws::lemma_neg_is_opposite(a);
    laws::lemma_neg_is_opposite(b);
    number_laws::law_order_is_by_value(a, b);
    number_laws::law_sum_is_rounded(x, a.neg());
    number_laws::law_sum_is_rounded(x, b.neg());
    number_laws::law_rounded_monotone(x.value() - b.value(), x.value() - a.value());
}

/// Nothing breaks where the next cell is not solid, cannot be broken, or is not there.
pub proof fn law_only_walls_break(env: Env, s: State, cell: int, ratio: F32, offset: int)
    requires
        match sim_data::at(s.updated, cell + offset) {
            Some(c) => is_soft(env, c) || is_bedrock(env, c),
            None => true,
        },
    ensures
        pressure_break::breach(env, s, cell, ratio, offset) is None,
{
    reveal_with_fuel(pressure_break::wall, 2);
    if let Some(c) = sim_data::at(s.updated, cell + offset) {
        let p = data_of(env, c).state;
        let m = c.properties;
    }
}

/// Bedrock behind a wall keeps it whole, and so does a third cell of wall.
pub proof fn law_backed_walls_hold(env: Env, s: State, cell: int, ratio: F32, offset: int)
    requires
        sim_data::at(s.updated, cell + offset) matches Some(c) && is_wall(env, c),
        match sim_data::at(s.updated, cell + offset + offset) {
            Some(c) => is_bedrock(env, c) || (is_wall(env, c) && match sim_data::at(
                s.updated,
                cell + offset + offset + offset,
            ) {
                Some(d) => is_bedrock(env, d) || is_wall(env, d),
                None => true,
            }),
            None => true,
        },
    ensures
        pressure_break::breach(env, s, cell, ratio, offset) is None,
{
    reveal_with_fuel(pressure_break::wall, 5);
}

/// A built wall resists by its strength whatever its mass is: a tenth and a quarter of its
/// element's strength for each degree. A natural wall resists in proportion to its mass.
pub proof fn law_resistance(c: Cell, d: ElementPostProcessData)
    requires
        is_amount(c.mass),
        is_amount(d.max_mass),
        num(ZERO).lt(d.max_mass),
        is_amount(d.strength),
        c.mass.over(d.max_mass).is_finite(),
    ensures
        ({
            let degree = F32::from_i32((c.strength_info % 128) as i32);
            let r = pressure_break::resistance(c, d);
            &&& c.strength_info < 128 ==> r == d.strength.times(degree).times(num(QUARTER)).plus(
                num(WALL_RESISTANCE),
            )
            &&& c.strength_info >= 128 && 0 < c.mass.over(d.max_mass).rank() ==> r == c.mass.over(
                d.max_mass,
            ).times(d.strength).times(degree).times(num(QUARTER)).plus(num(WALL_RESISTANCE))
        }),
{
    let i = c.strength_info;
    assert(i & 0x7f == i % 128) by (bit_vector);
    assert(i >> 7 == 1 <==> i >= 128) by (bit_vector);
    let q = c.mass.over(d.max_mass);
    lemma_over_monotone(c.mass, c.mass, d.max_mass);
    laws::lemma_zero_value();
    if i >= 128 {
        number_laws::law_times_one(q);
        number_laws::law_minus_self(num(ONE));
        number_laws::law_plus_zero(q);
    } else {
        lemma_zero_of(q);
        lemma_one_less_nothing();
        number_laws::law_times_one(d.strength);
    }
}

/// Nothing of a finite amount is nothing.
proof fn lemma_zero_of(q: F32)
    requires
        q.is_finite(),
        num(ZERO).le(q),
    ensures
        q.times(num(ZERO)).rank() == 0,
        q.times(num(ZERO)).plus(num(ONE).minus(num(ZERO))) == num(ONE),
{
    laws::lemma_zero_value();
    number_laws::law_times_commutes(q, num(ZERO));
    laws::lemma_product_sign(num(ZERO), q);
    let z = q.times(num(ZERO));
    lemma_one_less_nothing();
    assert(z.is_finite());
    assert(z.value() == 0) by {
        number_laws::law_order_is_by_value(z, num(ZERO));
        number_laws::law_order_is_by_value(num(ZERO), z);
    }
    number_laws::lemma_one();
    lemma_pow2_pos(149);
    number_laws::law_plus_exact(z, num(ONE), num(ONE));
}

pub proof fn lemma_one_less_nothing()
    ensures
        num(ONE).minus(num(ZERO)) == num(ONE),
{
    laws::lemma_zero_value();
    laws::lemma_neg_is_opposite(num(ZERO));
    number_laws::lemma_one();
    lemma_pow2_pos(149);
    number_laws::law_plus_exact(num(ONE), num(ZERO).neg(), num(ONE));
}

/// The damage that the liquid in a cell does to the next `n` cells is reported cell by cell, with
/// the place of the liquid; nothing else changes.
pub proof fn law_damage_is_reported(env: Env, s: State, cell: int, offset: int, n: int)
    requires
        0 <= n,
        s.events is Some,
        s.sink is None,
        forall|i: int| 1 <= i <= n ==> env.on_game_grid(#[trigger] (cell + offset * i)),
    ensures
        ({
            let t = pressure_break::damaged(env, s, cell, offset, n);
            let old = s.events->0.world_damage_info;
            let new = t.events->0.world_damage_info;
            &&& t.updated == s.updated
            &&& t.events is Some
            &&& t.sink is None
            &&& new.len() == old.len() + n
            &&& forall|i: int| 0 <= i < old.len() ==> new[i] == old[i]
            &&& forall|i: int|
                1 <= i <= n ==> #[trigger] new[old.len() + i - 1] == (WorldDamageInfo {
                    cell_idx: env.game_cell(cell + offset * i) as i32,
                    damage_source_cell_idx: env.game_cell(cell) as i32,
                })
        }),
    decreases n,
{
    if n > 0 {
        law_damage_is_reported(env, s, cell, offset, n - 1);
        assert(env.on_game_grid(cell + offset * n));
    }
}

/// A liquid breaks through in one direction at most: below before to the left, to the right and
/// above; and it does so wherever it can.
pub proof fn law_burst_goes_the_first_way(env: Env, s: State, cell: int, ratio: F32)
    ensures
        ({
            let w = env.width as int;
            let below = pressure_break::breach(env, s, cell, ratio, -w);
            let left = pressure_break::breach(env, s, cell, ratio, -1);
            let right = pressure_break::breach(env, s, cell, ratio, 1);
            let above = pressure_break::breach(env, s, cell, ratio, w);
            let (t, ok) = post_process::burst(env, s, cell, ratio);
            &&& ok == (below is Some || left is Some || right is Some || above is Some)
            &&& below matches Some(n) ==> t == pressure_break::damaged(env, s, cell, -w, n)
            &&& below is None ==> (left matches Some(n) ==> t == pressure_break::damaged(
                env,
                s,
                cell,
                -1,
                n,
            ))
            &&& below is None && left is None ==> (right matches Some(n) ==> t
                == pressure_break::damaged(env, s, cell, 1, n))
            &&& below is None && left is None && right is None ==> (above matches Some(n) ==> t
                == pressure_break::damaged(env, s, cell, w, n))
            &&& !ok ==> t == s
        }),
{
    reveal(post_process::burst);
}

} // verus!
