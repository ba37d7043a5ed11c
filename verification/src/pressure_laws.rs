//! What holds where cells even out their masses.
use crate::constants::EIGHTH;
use crate::constants::MINUS_EIGHTH;
use crate::constants::ONE;
use crate::constants::ZERO;
use crate::element::phase;
use crate::element::ElementPressureData;
use crate::element::GAS;
use crate::element::LIQUID;
use crate::element::VACUUM;
use crate::laws;
use crate::number::num;
use crate::number::F32;
use crate::number_laws;
use crate::pressure;
use crate::sim_data::Env;
use crate::sim_data::State;
use vstd::prelude::*;

verus! {

/// A number is finite and not negative.
pub open spec fn is_amount(x: F32) -> bool {
    x.is_finite() && num(ZERO).le(x)
}

/// A product of a number from zero on has the sign of the other factor.
proof fn lemma_product_order(x: F32, y: F32)
    requires
        is_amount(x),
        y.is_finite(),
    ensures
        !x.times(y).is_nan(),
        y.rank() >= 0 ==> x.times(y).rank() >= 0,
        y.rank() <= 0 ==> x.times(y).rank() <= 0,
{
    laws::lemma_product_sign(x, y);
    laws::lemma_product_sign(y, x);
    number_laws::law_times_commutes(x, y);
}

/// A difference of amounts is finite, and has the sign that it should.
pub proof fn lemma_gap(x: F32, y: F32)
    requires
        is_amount(x),
        is_amount(y),
    ensures
        x.minus(y).is_finite(),
        y.le(x) ==> x.minus(y).rank() >= 0,
        x.le(y) ==> x.minus(y).rank() <= 0,
{
    number_laws::law_sum_is_rounded(x, y.neg());
    number_laws::law_minus_makes_no_larger(x, y);
    laws::lemma_neg_is_opposite(y);
    number_laws::law_rounded_exact(y.neg());
    laws::lemma_zero_value();
    number_laws::law_rounded_exact(num(ZERO));
    number_laws::law_order_is_by_value(num(ZERO), x);
    number_laws::law_order_is_by_value(x, y);
    number_laws::law_order_is_by_value(y, x);
    let v = x.value() + y.neg().value();
    number_laws::law_rounded_monotone(y.neg().value(), v);
    if v >= 0 {
        number_laws::law_rounded_monotone(0, v);
    }
    if v <= 0 {
        number_laws::law_rounded_monotone(v, 0);
    }
}

/// What flows between two cells is at most an eighth of the giver's mass and goes from the larger
/// mass to the smaller.
pub proof fn law_flow_goes_downhill(coefficient: F32, here: F32, there: F32)
    requires
        is_amount(coefficient),
        is_amount(here),
        is_amount(there),
    ensures
        ({
            let f = pressure::pressure_flow(coefficient, here, there);
            &&& f.is_finite()
            &&& f.le(here.times(num(EIGHTH)))
            &&& there.times(num(MINUS_EIGHTH)).le(f)
            &&& there.le(here) ==> num(ZERO).le(f)
            &&& here.le(there) ==> f.le(num(ZERO))
        }),
{
    laws::law_pressure_flow_is_bounded(coefficient, here, there);
    lemma_gap(here, there);
    lemma_product_order(coefficient, here.minus(there));
    lemma_product_order(here, num(EIGHTH));
    lemma_product_order(there, num(MINUS_EIGHTH));
    lemma_eighth(here);
    lemma_eighth(there);
}

/// An eighth of an amount is an amount, and no more than it; the negative eighth is its opposite.
pub proof fn lemma_eighth(x: F32)
    requires
        is_amount(x),
    ensures
        is_amount(x.times(num(EIGHTH))),
        x.times(num(EIGHTH)).le(x),
        x.times(num(MINUS_EIGHTH)).rank() == -x.times(num(EIGHTH)).rank(),
        x.times(num(MINUS_EIGHTH)).is_finite(),
{
    number_laws::law_part_of_whole(x, num(EIGHTH));
    assert(num(MINUS_EIGHTH).mag() == num(EIGHTH).mag());
    reveal(F32::spec_times);
}

/// Two cells that may even out their masses: they are two, they are there, neither holds the
/// void, and all numbers about them are amounts.
pub open spec fn are_partners(
    env: Env,
    s: State,
    cell: int,
    neighbor: int,
    elem: u16,
    other_elem: u16,
    data: ElementPressureData,
    other: ElementPressureData,
) -> bool {
    &&& 0 <= cell < s.cells.len()
    &&& 0 <= neighbor < s.cells.len()
    &&& s.updated.len() == s.cells.len()
    &&& cell != neighbor
    &&& elem != env.void_element_idx
    &&& other_elem != env.void_element_idx
    &&& is_amount(data.flow)
    &&& is_amount(other.flow)
    &&& is_amount(s.cells[cell].mass)
    &&& is_amount(s.cells[neighbor].mass)
}

/// The mass that one cell has gained and the other lost, where any has flowed.
pub open spec fn is_exchange(s: State, t: State, src: int, dst: int, amount: F32) -> bool {
    &&& t.cells == s.cells
    &&& t.updated.len() == s.updated.len()
    &&& t.updated[src].mass == s.updated[src].mass.minus(amount).max(num(ZERO))
    &&& t.updated[dst].mass == if s.updated[dst].mass.plus(amount).le(num(ZERO)) {
        num(ZERO)
    } else {
        s.updated[dst].mass.plus(amount)
    }
    &&& forall|i: int|
        0 <= i < s.updated.len() && i != src && i != dst ==> #[trigger] t.updated[i]
            == s.updated[i]
}

/// What an exchange comes to: nothing where nothing flows, else the size of the flow from the
/// giver to the other.
pub proof fn lemma_evened(
    env: Env,
    s: State,
    cell: int,
    neighbor: int,
    elem: u16,
    other_elem: u16,
    data: ElementPressureData,
    other: ElementPressureData,
)
    requires
        are_partners(env, s, cell, neighbor, elem, other_elem, data, other),
    ensures
        ({
            let (t, f) = pressure::evened(
                env,
                s,
                cell,
                neighbor,
                elem,
                other_elem,
                data,
                other,
            );
            let here = s.cells[cell].mass;
            let there = s.cells[neighbor].mass;
            &&& f.is_finite()
            &&& f.le(here.times(num(EIGHTH)))
            &&& there.times(num(MINUS_EIGHTH)).le(f)
            &&& there.le(here) ==> num(ZERO).le(f)
            &&& here.le(there) ==> f.le(num(ZERO))
            &&& f.rank() == 0 ==> t == s
            &&& f.rank() > 0 ==> is_exchange(s, t, cell, neighbor, f.abs())
            &&& f.rank() < 0 ==> is_exchange(s, t, neighbor, cell, f.abs())
        }),
{
    let here = s.cells[cell].mass;
    let there = s.cells[neighbor].mass;
    lemma_eighth(here);
    lemma_eighth(there);
    laws::lemma_zero_value();
    if !(phase(data.state) == LIQUID && phase(other.state) != VACUUM && other_elem != elem) {
        let coefficient = if phase(other.state) == GAS {
            other.flow
        } else {
            data.flow
        };
        let f = pressure::pressure_flow(coefficient, here, there);
        law_flow_goes_downhill(coefficient, here, there);
        lemma_opposite_bits(f);
        let back = f.lt(num(ZERO));
        let src = if back {
            neighbor
        } else {
            cell
        };
        let dst = if back {
            cell
        } else {
            neighbor
        };
        let giver = s.cells[src];
        let transfer = f.abs().min(giver.mass);
        assert(transfer == f.abs());
        if !transfer.le(num(ZERO)) {
            let germs = transfer.over(giver.mass).clamp(num(ZERO), num(ONE)).times(
                F32::from_i32(giver.disease_count),
            ).to_i32();
            let t = pressure::passed(env, s, src, dst, transfer, germs);
            assert(is_exchange(s, t, src, dst, transfer));
            let u = pressure::taken_on(
                env,
                t,
                dst,
                if back {
                    elem
                } else {
                    other_elem
                },
                if back {
                    other_elem
                } else {
                    elem
                },
            );
            assert(is_exchange(s, u, src, dst, transfer));
        }
    }
}

/// The outcome of one exchange between two cells that still hold what the step found: at most an
/// eighth of the giver's mass flows, from the larger mass to the smaller; what one cell loses the
/// other gains; no other cell changes; and where the sums are numbers the mass of the world is
/// kept.
pub proof fn law_one_exchange(env: Env, s: State, cell: int, neighbor: int)
    requires
        0 <= cell < s.cells.len(),
        0 <= neighbor < s.cells.len(),
        s.updated.len() == s.cells.len(),
        cell != neighbor,
        env.elements.spec_pressure(s.cells[cell].element_idx) matches Some(d) && is_amount(d.flow),
        env.elements.spec_pressure(s.cells[neighbor].element_idx) matches Some(d) && is_amount(
            d.flow,
        ),
        s.cells[cell].element_idx != env.void_element_idx,
        s.cells[neighbor].element_idx != env.void_element_idx,
        is_amount(s.cells[cell].mass),
        is_amount(s.cells[neighbor].mass),
        s.updated[cell].mass == s.cells[cell].mass,
        s.updated[neighbor].mass == s.cells[neighbor].mass,
    ensures
        ({
            let (t, f) = pressure::levelled(env, s, cell, neighbor);
            let here = s.cells[cell].mass;
            let there = s.cells[neighbor].mass;
            &&& f.le(here.times(num(EIGHTH)))
            &&& there.times(num(MINUS_EIGHTH)).le(f)
            &&& there.le(here) ==> num(ZERO).le(f)
            &&& here.le(there) ==> f.le(num(ZERO))
            &&& t.updated[cell].mass.same(here.minus(f))
            &&& t.updated[neighbor].mass.same(there.plus(f))
            &&& t.cells == s.cells
            &&& forall|i: int|
                0 <= i < s.updated.len() && i != cell && i != neighbor ==> #[trigger] t.updated[i]
                    == s.updated[i]
            &&& laws::exact_sum(here, f.neg()) && laws::exact_sum(there, f)
                ==> laws::total_mass(t) == laws::total_mass(s)
        }),
{
    let here = s.cells[cell].mass;
    let there = s.cells[neighbor].mass;
    let data = env.elements.spec_pressure(s.cells[cell].element_idx)->0;
    let other = env.elements.spec_pressure(s.cells[neighbor].element_idx)->0;
    lemma_evened(
        env,
        s,
        cell,
        neighbor,
        s.cells[cell].element_idx,
        s.cells[neighbor].element_idx,
        data,
        other,
    );
    let (t, f) = pressure::levelled(env, s, cell, neighbor);
    lemma_exchange_sums(s, t, cell, neighbor, f);
}

/// In an exchange between cells that hold what the step found, what one loses the other gains.
proof fn lemma_exchange_sums(s: State, t: State, cell: int, neighbor: int, f: F32)
    requires
        0 <= cell < s.cells.len(),
        0 <= neighbor < s.cells.len(),
        s.updated.len() == s.cells.len(),
        cell != neighbor,
        is_amount(s.updated[cell].mass),
        is_amount(s.updated[neighbor].mass),
        f.is_finite(),
        f.le(s.updated[cell].mass.times(num(EIGHTH))),
        s.updated[neighbor].mass.times(num(MINUS_EIGHTH)).le(f),
        f.rank() == 0 ==> t == s,
        f.rank() > 0 ==> is_exchange(s, t, cell, neighbor, f.abs()),
        f.rank() < 0 ==> is_exchange(s, t, neighbor, cell, f.abs()),
    ensures
        t.updated[cell].mass.same(s.updated[cell].mass.minus(f)),
        t.updated[neighbor].mass.same(s.updated[neighbor].mass.plus(f)),
        t.cells == s.cells,
        forall|i: int|
            0 <= i < s.updated.len() && i != cell && i != neighbor ==> #[trigger] t.updated[i]
                == s.updated[i],
        laws::exact_sum(s.updated[cell].mass, f.neg()) && laws::exact_sum(
            s.updated[neighbor].mass,
            f,
        ) ==> laws::total_mass(t) == laws::total_mass(s),
{
    let here = s.updated[cell].mass;
    let there = s.updated[neighbor].mass;
    lemma_eighth(here);
    lemma_eighth(there);
    laws::lemma_zero_value();
    lemma_opposite_bits(f);
    number_laws::law_sum_is_rounded(here, f.neg());
    number_laws::law_sum_is_rounded(there, f);
    if f.rank() == 0 {
        lemma_nothing_of(here, f);
        lemma_nothing_of(there, f);
    } else if f.rank() > 0 {
        laws::lemma_rest(here, f);
        lemma_gain(there, f);
    } else {
        laws::lemma_rest(there, f.abs());
        lemma_gain(here, f.abs());
    }
    assert(t.updated.len() == s.updated.len());
    let u = s.updated.update(cell, t.updated[cell]);
    assert(t.updated =~= u.update(neighbor, t.updated[neighbor]));
    laws::lemma_total(s.updated, cell, t.updated[cell]);
    laws::lemma_total(u, neighbor, t.updated[neighbor]);
    laws::lemma_neg_is_opposite(f);
    if laws::exact_sum(here, f.neg()) && laws::exact_sum(there, f) {
        lemma_same_value(t.updated[cell].mass, here.minus(f));
        lemma_same_value(t.updated[neighbor].mass, there.plus(f));
    }
}

/// Numbers in the same place have the same value.
pub proof fn lemma_same_value(x: F32, y: F32)
    requires
        x.same(y),
        y.is_finite(),
    ensures
        x.value() == y.value(),
{
    number_laws::law_order_is_by_value(x, y);
    number_laws::law_order_is_by_value(y, x);
}

/// Nothing changes by a zero of either sign.
proof fn lemma_nothing_of(x: F32, f: F32)
    requires
        x.is_finite(),
        f.is_finite(),
    ensures
        f.rank() == 0 ==> x.same(x.minus(f)) && x.same(x.plus(f)),
{
    if f.rank() == 0 {
        laws::lemma_zero_value();
        laws::lemma_neg_is_opposite(f);
        lemma_same_value(f, num(ZERO));
        number_laws::law_sum_is_rounded(x, f);
        number_laws::law_sum_is_rounded(x, f.neg());
        number_laws::law_rounded_exact(x);
    }
}

/// The encodings of a number, its size and its opposite.
pub proof fn lemma_opposite_bits(f: F32)
    ensures
        f.is_negative() ==> f.abs().neg() == f && f.neg() == f.abs(),
        !f.is_negative() ==> f.abs() == f,
        f.abs().rank() == if f.rank() < 0 {
            -f.rank()
        } else {
            f.rank()
        },
        f.abs().is_finite() == f.is_finite(),
        f.neg().is_finite() == f.is_finite(),
{
}

/// What gains a positive amount is more than nothing.
proof fn lemma_gain(x: F32, f: F32)
    requires
        is_amount(x),
        f.is_finite(),
    ensures
        num(ZERO).lt(f) ==> num(ZERO).lt(x.plus(f)),
{
    if num(ZERO).lt(f) {
        number_laws::law_sum_is_rounded(x, f);
        number_laws::law_plus_commutes(x, f);
        number_laws::law_plus_makes_no_smaller(f, x);
    }
}

} // verus!
