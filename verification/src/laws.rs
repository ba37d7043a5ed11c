//! What holds of the simulation as a whole, whatever is in its cells.
use crate::cell::mixed_temperature;
use crate::cell::share;
use crate::cell::Cell;
use crate::cell::NO_DISEASE;
use crate::constants;
use crate::constants::CENTI;
use crate::constants::EIGHTH;
use crate::constants::MAX_RADIATION;
use crate::constants::MINUS_EIGHTH;
use crate::constants::ONE;
use crate::constants::RANDOM_SCALE;
use crate::constants::SUBLIMATE_LIMIT;
use crate::constants::THREE;
use crate::constants::ZERO;
use crate::disease;
use crate::displacement;
use crate::element::phase;
use crate::element::ElementLightAbsorptionData;
use crate::element::ElementPostProcessData;
use crate::element::ElementPressureData;
use crate::element::ElementsTable;
use crate::element::LIQUID;
use crate::element::NO_PHASE;
use crate::element::SOLID;
use crate::element::VACUUM;
use crate::germs::DiseaseTable;
use crate::germs::RangeInfo;
use crate::grid;
use crate::liquid_flow;
use crate::number::num;
use crate::number::F32;
use crate::number_laws;
use crate::physics;
use crate::placing;
use crate::post_process;
use crate::pressure;
use crate::pressure_break;
use crate::property_texture;
use crate::radiation;
use crate::region_events::Event;
use crate::region_events::EventLog;
use crate::rounding;
use crate::sim_data;
use crate::sim_data::Env;
use crate::sim_data::RegionBounds;
use crate::sim_data::State;
use crate::space;
use crate::sublimation;
use crate::sunlight;
use crate::unstable;
use vstd::arithmetic::power2::*;
use vstd::prelude::*;

verus! {

/// No cell both admits liquids and is solid.
pub proof fn law_permeable_is_not_solid(elements: ElementsTable, c: Cell)
    ensures
        !(grid::permeable(elements, c) && grid::solid(elements, c)),
{
}

/// Where two cells change places twice, all is as it was.
pub proof fn law_swap_twice(s: State, a: int, b: int)
    requires
        0 <= a < s.updated.len(),
        0 <= b < s.updated.len(),
    ensures
        s.swapped(a, b).swapped(a, b) == s,
{
    assert(s.swapped(a, b).swapped(a, b).updated =~= s.updated);
}

/// Where two cells change places, each keeps the marks of its place and its radiation, and
/// nothing of what they held is lost.
pub proof fn law_swap_keeps_marks(s: State, a: int, b: int)
    requires
        0 <= a < s.updated.len(),
        0 <= b < s.updated.len(),
    ensures
        ({
            let t = s.swapped(a, b);
            &&& sim_data::marks(t.updated[a]) == sim_data::marks(s.updated[a])
            &&& t.updated[a].radiation == s.updated[a].radiation
            &&& t.updated[a].mass == s.updated[b].mass
            &&& t.updated[b].mass == s.updated[a].mass
            &&& t.updated[a].element_idx == s.updated[b].element_idx
            &&& t.updated[a].disease_count == s.updated[b].disease_count
        }),
{
}

/// A cell is clean: it has no germs and no memory of any.
pub open spec fn clean(c: Cell) -> bool {
    &&& c.disease_idx == NO_DISEASE
    &&& c.disease_count == 0
    &&& c.disease_infestation_tick_count == 0
    &&& c.disease_growth_accumulated_error == num(ZERO)
}

/// Whatever becomes of the number of germs in a cell, it ends up with some of them or clean.
pub proof fn law_germs_or_clean(c: Cell, table: Option<DiseaseTable>, idx: u8, n: i32)
    ensures
        clean(c.without_disease()),
        c.with_disease_delta(n).disease_count > 0 || clean(c.with_disease_delta(n)),
        c.spec_with_disease(table, idx, n).disease_count > 0 || clean(
            c.spec_with_disease(table, idx, n),
        ),
{
}

/// To clean a cell twice is to clean it once.
pub proof fn law_clean_once(c: Cell)
    ensures
        c.without_disease().without_disease() == c.without_disease(),
{
}

/// The temperature of a mixture lies between those of its parts, unless it is no number.
pub proof fn law_mixture_between(a: F32, ta: F32, b: F32, tb: F32, total: F32)
    requires
        !ta.is_nan(),
        !tb.is_nan(),
    ensures
        ({
            let t = mixed_temperature(a, ta, b, tb, total);
            t.is_nan() || (ta.min(tb).le(t) && t.le(ta.max(tb)))
        }),
{
    let t = a.times(ta).plus(tb.times(b)).over(total);
    if !t.is_nan() {
        number_laws::law_clamp(t, ta.min(tb), ta.max(tb));
    }
}

/// Mass that comes to a cell makes it no lighter.
pub proof fn law_added_mass(c: Cell, table: Option<DiseaseTable>, m: F32, t: F32, idx: u8, n: i32)
    requires
        num(ZERO).le(c.mass),
        num(ZERO).lt(m),
        !c.mass.plus(m).is_nan(),
    ensures
        c.mass.le(c.spec_with_mass_added(table, m, t, idx, n).mass),
{
    number_laws::law_plus_makes_no_smaller(c.mass, m);
}

/// No more germs leave with a part of a mass than there are, as long as the number of germs can
/// be told exactly.
pub proof fn law_share_of_germs(part: F32, whole: F32, n: i32)
    requires
        num(ZERO).le(part),
        part.le(whole),
        num(ZERO).lt(whole),
        whole.is_finite(),
        0 <= n <= 0x100_0000,
    ensures
        0 <= share(part, whole, n) <= n,
{
    let f = part.over(whole);
    let x = F32::from_i32(n);
    number_laws::law_ratio_of_part(part, whole);
    number_laws::law_integer_round_trip(n);
    lemma_from_nonnegative(n);
    number_laws::law_times_commutes(f, x);
    number_laws::law_part_of_whole(x, f);
    lemma_to_i32_monotone(x.times(f), x);
}

/// A number from an integer that is not negative is not negative.
pub proof fn lemma_from_nonnegative(n: i32)
    requires
        0 <= n,
    ensures
        num(ZERO).le(F32::from_i32(n)),
{
    reveal(F32::spec_from_i32);
}

/// Integer parts keep order.
pub proof fn lemma_to_i32_monotone(x: F32, y: F32)
    requires
        num(ZERO).le(x),
        x.le(y),
        y.is_finite(),
    ensures
        0 <= x.to_i32() <= y.to_i32(),
{
    reveal(F32::to_range);
    lemma_whole_monotone(x, y);
    if x.rank() == 0 {
        lemma_whole_zero(x);
    }
    if y.rank() == 0 {
        lemma_whole_zero(y);
    }
}

/// Zero has no integer part.
pub proof fn lemma_whole_zero(x: F32)
    requires
        x.rank() == 0,
    ensures
        x.whole() == 0,
{
    assert(rounding::units(0) == 0) by (nonlinear_arith)
        requires
            rounding::significand(0) == 0,
    ;
    lemma_pow2_pos(149);
    vstd::arithmetic::div_mod::lemma_div_basics(pow2(149) as int);
}

/// Integer parts of magnitudes keep order.
pub proof fn lemma_whole_monotone(x: F32, y: F32)
    requires
        x.mag() <= y.mag(),
    ensures
        x.whole() <= y.whole(),
{
    if x.mag() < y.mag() {
        number_laws::law_units_strictly_monotone(x.mag() as nat, y.mag() as nat);
    }
    lemma_pow2_pos(149);
    vstd::arithmetic::div_mod::lemma_div_is_ordered(
        rounding::units(x.mag() as nat) as int,
        rounding::units(y.mag() as nat) as int,
        pow2(149) as int,
    );
}

/// Random numbers lie between zero and one. They are one only where all the bits that they are
/// made of are set.
pub proof fn law_random_is_a_fraction(seed: u32)
    ensures
        num(ZERO).le(sim_data::fraction_of(seed)),
        sim_data::fraction_of(seed).le(num(ONE)),
        sim_data::fraction_of(seed).lt(num(ONE)) == ((seed >> 16) & 0x7fff != 0x7fff),
{
    let k = (seed >> 16) & 0x7fff;
    assert(k <= 0x7fff) by (bit_vector)
        requires
            k == (seed >> 16) & 0x7fff,
    ;
    let x = F32::from_i32(k as i32);
    let y = num(RANDOM_SCALE);
    number_laws::law_integer_round_trip(k as i32);
    lemma_from_nonnegative(k as i32);
    number_laws::law_part_of_whole(x, y);
    let p = pow2(149);
    let q = pow2(111);
    let u = rounding::units(y.mag() as nat);
    lemma2_to64();
    lemma2_to64_rest();
    lemma_pow2_adds(38, 111);
    lemma_pow2_pos(111);
    lemma_pow2_pos(149);
    assert(rounding::exponent(RANDOM_SCALE as nat) == 111);
    assert(rounding::significand(RANDOM_SCALE as nat) == 8388864);
    assert(u == 8388864 * q);
    assert(rounding::units(x.mag() as nat) == k * p);
    let n = (k * u) as nat;
    assert((k * p) * u == n * p) by (nonlinear_arith)
        requires
            n == k * u,
    ;
    rounding::lemma_round_mag_scaled(n, 1, p);
    assert(1 * p == p);
    assert(x.times(y).mag() == rounding::round_mag(n, 1)) by {
        reveal(F32::spec_times);
    }
    lemma_one_is_rounded();
    rounding::lemma_round_mag_exact(ONE as nat);
    assert(n <= p) by (nonlinear_arith)
        requires
            n == k * u,
            u == 8388864 * q,
            p == 0x40_0000_0000 * q,
            0 <= k <= 0x7fff,
            q > 0,
    ;
    number_laws::law_round_monotone(n, p, 1);
    let below: nat = 0x3f7f_ffff;
    lemma_pow2_adds(14, 111);
    assert(rounding::exponent(below) == 125);
    assert(rounding::significand(below) == 0xff_ffff);
    let h = pow2(125);
    assert(h == 0x4000 * q);
    assert(rounding::units(below) == 0xff_ffff * h);
    if k != 0x7fff {
        assert(n <= 0xff_ffff * h) by (nonlinear_arith)
            requires
                n == k * u,
                u == 8388864 * q,
                h == 0x4000 * q,
                0 <= k <= 0x7ffe,
                q > 0,
        ;
        rounding::lemma_round_mag_exact(below);
        number_laws::law_round_monotone(n, (0xff_ffff * h) as nat, 1);
    } else {
        lemma_pow2_adds(24, 125);
        lemma_pow2_adds(23, 125);
        let r = (h - 256 * q) as nat;
        assert(n == 0xff_ffff * h + r && n < 0x100_0000 * h && n >= 0x80_0000 * h)
            by (nonlinear_arith)
            requires
                n == 0x7fff * u,
                u == 8388864 * q,
                h == 0x4000 * q,
                r == h - 256 * q,
                q > 0,
        ;
        assert(1 * pow2(149) == pow2(149) && 1 * pow2(148) == pow2(148));
        rounding::lemma_grid_exponent_is(n, 1, 125);
        vstd::arithmetic::div_mod::lemma_fundamental_div_mod_converse(
            n as int,
            h as int,
            0xff_ffff,
            r as int,
        );
        assert(1 * h == h);
        assert(rounding::nearest_even(n, 1 * h) == 0x100_0000);
    }
}

/// Two to the power of 149 units are rounded to one.
proof fn lemma_one_is_rounded()
    ensures
        rounding::round_mag(pow2(149) * pow2(149), pow2(149)) == ONE,
        rounding::units(ONE as nat) == pow2(149),
{
    lemma2_to64();
    lemma_pow2_adds(23, 126);
    lemma_pow2_pos(149);
    assert(rounding::exponent(ONE as nat) == 126);
    assert(rounding::significand(ONE as nat) == 0x800000);
    rounding::lemma_round_mag_exact(ONE as nat);
    rounding::lemma_round_mag_scaled(pow2(149), 1, pow2(149));
    assert(1 * pow2(149) == pow2(149));
}

/// A block that is about to fall waits three to six ticks.
pub proof fn law_fresh_ticks(seed: u32)
    ensures
        3 <= unstable::fresh_ticks(sim_data::fraction_of(seed)) <= 6,
{
    let r = sim_data::fraction_of(seed);
    let t = num(THREE);
    law_random_is_a_fraction(seed);
    number_laws::law_times_commutes(r, t);
    number_laws::law_part_of_whole(t, r);
    let x = r.times(t);
    lemma_whole_monotone(x, t);
    lemma_three();
    if x.rank() == 0 {
        lemma_whole_zero(x);
    }
    reveal(F32::to_range);
    let n = x.to_u8();
    assert(n <= 3);
    assert(((n + 3) as u8) & 0x1f == n + 3) by (bit_vector)
        requires
            n <= 3,
    ;
}

/// The integer part of three is three.
pub proof fn lemma_three()
    ensures
        num(THREE).whole() == 3,
{
    lemma2_to64();
    lemma_pow2_adds(22, 127);
    lemma_pow2_pos(149);
    assert(rounding::exponent(THREE as nat) == 127);
    assert(rounding::significand(THREE as nat) == 0xc0_0000);
    assert(rounding::units(THREE as nat) == 3 * pow2(149)) by (nonlinear_arith)
        requires
            rounding::units(THREE as nat) == 0xc0_0000 * pow2(127),
            pow2(149) == 0x40_0000 * pow2(127),
    ;
    vstd::arithmetic::div_mod::lemma_fundamental_div_mod_converse(
        (3 * pow2(149)) as int,
        pow2(149) as int,
        3,
        0,
    );
}

/// A timer that runs counts down by one, tick by tick, to zero, and stays there. The bits beside
/// it stay as they are.
pub proof fn law_timer_counts_down(s: State, cell: int)
    requires
        0 <= cell < s.timers.len(),
        s.timers[cell] & 0x1f != 0x1f,
    ensures
        ({
            let low = s.timers[cell] & 0x1f;
            let (t, n) = unstable::ticked(s, cell);
            &&& n == if low == 0 {
                0
            } else {
                low - 1
            }
            &&& t.timers[cell] & 0x1f == n
            &&& t.timers[cell] & 0xe0 == s.timers[cell] & 0xe0
            &&& t.updated == s.updated
        }),
{
    let b = s.timers[cell];
    let low = b & 0x1f;
    let n: u8 = if low == 0 {
        0
    } else {
        (low - 1) as u8
    };
    assert(low <= 0x1f) by (bit_vector)
        requires
            low == b & 0x1f,
    ;
    let c = (b & 0xe0) | n;
    assert(c & 0x1f == n && c & 0xe0 == b & 0xe0) by (bit_vector)
        requires
            c == (b & 0xe0) | n,
            n <= 0x1f,
    ;
}

/// While a region has a buffer of its own, its events leave those of the world alone.
pub proof fn law_region_events_stay_apart(s: State, e: Event)
    ensures
        s.sink is Some ==> s.emit(e).events == s.events,
        s.sink is None ==> s.emit(e).sink is None,
{
}

/// The events of a region, once they are merged, are those of the world as if they had been
/// reported to it straight away.
pub proof fn law_merge_is_as_if_direct(log: EventLog, region: EventLog, e: Event)
    ensures
        log.joined(region.record(e)) == log.joined(region).record(e),
{
    assert(log.joined(region.record(e)) =~= log.joined(region).record(e));
}

/// While a region draws random numbers of its own, those of the world stay where they are.
pub proof fn law_region_random_stays_apart(s: State)
    ensures
        s.region_rng is Some ==> s.rolled().random_seed == s.random_seed
            && s.turned().displacement_direction == s.displacement_direction,
        s.region_rng is None ==> s.rolled().region_rng is None && s.turned().region_rng is None,
{
}

/// The direction in which a gas leaves goes round with the clock: after four ticks it is the same
/// again.
pub proof fn law_exits_go_round(env: Env, s: State, cell: int, gas: u16)
    requires
        s.tick_count + 4 <= u32::MAX,
    ensures
        displacement::gas_goal(
            env,
            State { tick_count: (s.tick_count + 4) as u32, ..s },
            cell,
            gas,
        ) == displacement::gas_goal(env, s, cell, gas),
{
    lemma_exit_goes_round(env, s, cell, gas, 0);
}

proof fn lemma_exit_goes_round(env: Env, s: State, cell: int, gas: u16, i: int)
    requires
        s.tick_count + 4 <= u32::MAX,
        0 <= i,
    ensures
        displacement::straight_exit(
            env,
            State { tick_count: (s.tick_count + 4) as u32, ..s },
            cell,
            gas,
            i,
        ) == displacement::straight_exit(env, s, cell, gas, i),
    decreases 4 - i,
{
    if i < 4 {
        lemma_exit_goes_round(env, s, cell, gas, i + 1);
    }
}

/// Where no germs are known, none spread and none grow.
pub proof fn law_no_germs_known(env: Env, s: State, b: RegionBounds, powers: Seq<F32>)
    requires
        env.diseases is None,
    ensures
        disease::germs_spread(env, s, b) == s,
        disease::germs_grown(env, s, b, powers) == s,
{
}

/// To merge a buffer that has been merged adds nothing.
pub proof fn law_merged_once(log: EventLog)
    ensures
        log.joined(EventLog::empty()) == log,
{
    assert(log.joined(EventLog::empty()) =~= log);
}

/// Where a gas cannot leave, nothing changes. Where it can, it leaves its cell empty and clean.
pub proof fn law_gas_leaves_all_or_nothing(env: Env, s: State, cell: int, gas: u16)
    requires
        0 <= cell < s.updated.len(),
        env.width >= 2,
    ensures
        ({
            let t = displacement::gas_displaced(env, s, cell, gas);
            match displacement::gas_goal(env, s, cell, gas) {
                None => t == s,
                Some(d) => {
                    &&& 0 <= d < s.updated.len()
                    &&& d != cell
                    &&& t.updated[cell].element_idx == env.vacuum_element_idx
                    &&& t.updated[cell].mass == num(ZERO)
                    &&& clean(t.updated[cell])
                    &&& t.updated[d].element_idx == s.updated[cell].element_idx
                },
            }
        }),
{
    lemma_gas_goal(env, s, cell, gas);
}

pub proof fn lemma_gas_goal(env: Env, s: State, cell: int, gas: u16)
    requires
        0 <= cell < s.updated.len(),
        env.width >= 2,
    ensures
        displacement::gas_goal(env, s, cell, gas) matches Some(d) ==> 0 <= d < s.updated.len() && d
            != cell,
{
    lemma_straight_exit(env, s, cell, gas, 0);
}

proof fn lemma_straight_exit(env: Env, s: State, cell: int, gas: u16, i: int)
    requires
        0 <= i,
        env.width > 0,
    ensures
        displacement::straight_exit(env, s, cell, gas, i) matches Some(d) ==> 0 <= d
            < s.updated.len() && d != cell,
    decreases 4 - i,
{
    if i < 4 {
        lemma_straight_exit(env, s, cell, gas, i + 1);
    }
}

/// What a cell is after it has got its share of a liquid that is divided.
pub open spec fn with_share(env: Env, c: Cell, from: Cell, elem: u16, n: int) -> Cell {
    let (mass, germs) = displacement::portion(from, n);
    Cell {
        element_idx: elem,
        ..c.spec_with_mass_added(env.diseases, mass, from.temperature, from.disease_idx, germs)
    }
}

/// A liquid that cannot be divided among its neighbours stays. Once it is, its cell is empty and
/// clean, and one to four neighbours have got the same share of it each.
pub proof fn law_liquid_is_divided_or_stays(env: Env, s: State, cell: int, elem: u16)
    requires
        0 <= cell < s.updated.len(),
        env.width >= 2,
    ensures
        ({
            let t = displacement::divided(env, s, cell, elem);
            let list = displacement::receivers(env, s, cell, elem, 4);
            if displacement::divisible(env, s, cell, elem) {
                &&& t.updated[cell].element_idx == env.vacuum_element_idx
                &&& t.updated[cell].mass == num(ZERO)
                &&& clean(t.updated[cell])
                &&& 1 <= list.len() <= 4
                &&& forall|j: int|
                    0 <= j < list.len() ==> t.updated[#[trigger] list[j]] == with_share(
                        env,
                        s.updated[list[j]],
                        s.updated[cell],
                        elem,
                        list.len() as int,
                    )
            } else {
                t == s
            }
        }),
{
    let list = displacement::receivers(env, s, cell, elem, 4);
    lemma_receivers(env, s, cell, elem, 4);
    lemma_poured(env, s, s.updated[cell], elem, list, list.len() as int);
}

proof fn lemma_receivers(env: Env, s: State, cell: int, elem: u16, k: int)
    requires
        0 <= k <= 4,
        env.width >= 2,
    ensures
        ({
            let list = displacement::receivers(env, s, cell, elem, k);
            &&& list.len() <= k
            &&& list.no_duplicates()
            &&& forall|j: int|
                0 <= j < list.len() ==> 0 <= #[trigger] list[j] < s.updated.len() && list[j] != cell
            &&& forall|j: int|
                0 <= j < list.len() ==> exists|e: int|
                    0 <= e < k && #[trigger] list[j] == #[trigger] displacement::liquid_exit(
                        env,
                        cell,
                        e,
                    )
        }),
    decreases k,
{
    if k > 0 {
        lemma_receivers(env, s, cell, elem, k - 1);
        let c = displacement::liquid_exit(env, cell, k - 1);
        let r = displacement::receivers(env, s, cell, elem, k - 1);
        let list = displacement::receivers(env, s, cell, elem, k);
        assert forall|j: int| 0 <= j < r.len() implies r[j] != c by {
            let e = choose|e: int|
                0 <= e < k - 1 && #[trigger] r[j] == #[trigger] displacement::liquid_exit(
                    env,
                    cell,
                    e,
                );
        }
        assert forall|j: int| 0 <= j < list.len() implies exists|e: int|
            0 <= e < k && #[trigger] list[j] == #[trigger] displacement::liquid_exit(
                env,
                cell,
                e,
            ) by {
            if j < r.len() {
                let e = choose|e: int|
                    0 <= e < k - 1 && #[trigger] r[j] == #[trigger] displacement::liquid_exit(
                        env,
                        cell,
                        e,
                    );
                assert(list[j] == displacement::liquid_exit(env, cell, e));
            } else {
                assert(list[j] == displacement::liquid_exit(env, cell, k - 1));
            }
        }
    }
}

proof fn lemma_poured(env: Env, s: State, from: Cell, elem: u16, list: Seq<int>, k: int)
    requires
        0 <= k <= list.len(),
        list.no_duplicates(),
        forall|j: int| 0 <= j < list.len() ==> 0 <= #[trigger] list[j] < s.updated.len(),
    ensures
        ({
            let t = displacement::poured(env, s, from, elem, list, k);
            &&& t.updated.len() == s.updated.len()
            &&& forall|j: int|
                0 <= j < k ==> t.updated[#[trigger] list[j]] == with_share(
                    env,
                    s.updated[list[j]],
                    from,
                    elem,
                    list.len() as int,
                )
            &&& forall|j: int|
                k <= j < list.len() ==> t.updated[#[trigger] list[j]] == s.updated[list[j]]
        }),
    decreases k,
{
    if k > 0 {
        lemma_poured(env, s, from, elem, list, k - 1);
        let p = displacement::poured(env, s, from, elem, list, k - 1);
        let t = displacement::poured(env, s, from, elem, list, k);
        let c = list[k - 1];
        assert(t.updated == p.updated.update(
            c,
            with_share(env, p.updated[c], from, elem, list.len() as int),
        ));
    }
}

/// The exact sum of two masses is a number.
pub open spec fn exact_sum(x: F32, y: F32) -> bool {
    &&& x.is_finite()
    &&& y.is_finite()
    &&& x.plus(y).is_finite()
    &&& x.plus(y).value() == x.value() + y.value()
}

/// How far the sum of two masses is off, in units of the numbers.
pub open spec fn off_by(x: F32, y: F32) -> int {
    x.plus(y).value() - (x.value() + y.value())
}

/// The sum of two masses is off by at most `err` units.
pub open spec fn near_sum(x: F32, y: F32, err: int) -> bool {
    &&& x.is_finite()
    &&& y.is_finite()
    &&& x.plus(y).is_finite()
    &&& -err <= off_by(x, y) <= err
}

/// Two sums of masses differ by at most `err` units.
pub open spec fn near(a: int, b: int, err: int) -> bool {
    -err <= a - b <= err
}

/// The mass of all cells together, in units of the numbers.
pub open spec fn total_of(cells: Seq<Cell>) -> int
    decreases cells.len(),
{
    if cells.len() == 0 {
        0
    } else {
        total_of(cells.drop_last()) + cells.last().mass.value()
    }
}

/// The mass of the world.
pub open spec fn total_mass(s: State) -> int {
    total_of(s.updated)
}

/// A cell that is replaced changes the mass of all by its own.
pub proof fn lemma_total(cells: Seq<Cell>, i: int, c: Cell)
    requires
        0 <= i < cells.len(),
    ensures
        total_of(cells.update(i, c)) == total_of(cells) - cells[i].mass.value() + c.mass.value(),
    decreases cells.len(),
{
    let new = cells.update(i, c);
    if i == cells.len() - 1 {
        assert(new.drop_last() =~= cells.drop_last());
    } else {
        assert(new.drop_last() =~= cells.drop_last().update(i, c));
        lemma_total(cells.drop_last(), i, c);
    }
}

/// Where two cells change places, no mass is lost or gained.
pub proof fn law_swap_conserves_mass(s: State, a: int, b: int)
    requires
        0 <= a < s.updated.len(),
        0 <= b < s.updated.len(),
    ensures
        total_mass(s.swapped(a, b)) == total_mass(s),
{
    let ca = s.updated[a];
    let cb = s.updated[b];
    lemma_total(s.updated, a, ca.holding(cb));
    lemma_total(s.updated.update(a, ca.holding(cb)), b, cb.holding(ca));
}

/// Where heavy matter sinks and warmth is shared, no mass is lost or gained.
pub proof fn law_layering_conserves_mass(env: Env, s: State, cell: int, gate: F32)
    ensures
        total_mass(displacement::layered(env, s, cell, gate).0) == total_mass(s),
{
    let below = cell - env.width;
    if env.width > 0 && below >= 0 && cell < s.updated.len() {
        let t = s.rolled();
        law_swap_conserves_mass(t, cell, below);
        let c = t.updated[cell];
        let b = t.updated[below];
        let mean = grid::fast_combined_temperature(c.mass, c.temperature, b.mass, b.temperature);
        lemma_total(t.updated, cell, Cell { temperature: mean, ..c });
        let u = t.put(cell, Cell { temperature: mean, ..c });
        lemma_total(u.updated, below, Cell { temperature: mean, ..u.updated[below] });
    }
}

/// Where a liquid slips past a corner, no mass is lost or gained.
pub proof fn law_slipping_conserves_mass(env: Env, s: State, cell: int)
    requires
        0 <= cell < s.updated.len(),
    ensures
        total_mass(liquid_flow::slipped(env, s, cell)) == total_mass(s),
{
    reveal(liquid_flow::slipped);
    let below = cell - env.width;
    if liquid_flow::slips_down(env, s, cell, 1) {
        law_swap_conserves_mass(s, cell, below + 1);
    } else if liquid_flow::slips_down(env, s, cell, -1) {
        law_swap_conserves_mass(s, cell, below - 1);
    }
}

/// Where gases mix, no mass is lost or gained.
pub proof fn law_mixing_conserves_mass(
    env: Env,
    s: State,
    cell: int,
    d: ElementPostProcessData,
    dir: int,
)
    requires
        0 <= cell < s.updated.len(),
    ensures
        total_mass(post_process::gas_mixed(env, s, cell, d, dir)) == total_mass(s),
{
    reveal(post_process::gas_mixed);
    let t = s.rolled();
    let (t1, b1) = post_process::considered(env, t, cell - dir, None, None);
    let (t2, b2) = post_process::considered(env, t1, cell + dir, None, b1);
    let (t3, b3) = post_process::considered(
        env,
        t2,
        cell - env.width,
        Some(d.molar_mass),
        b2,
    );
    if let Some(b) = b3 {
        law_swap_conserves_mass(t3, b.0, cell);
    }
}

/// Where a block falls through the grid, no mass is lost or gained.
pub proof fn law_falling_conserves_mass(env: Env, s: State, cell: int)
    requires
        0 <= cell < s.updated.len(),
    ensures
        total_mass(unstable::dropped(env, s, cell)) == total_mass(s),
    decreases cell,
{
    let below = cell - env.width;
    if env.width > 0 && 0 <= below < s.updated.len() {
        let p = env.elements.spec_post_phase(s.updated[below].element_idx);
        if p != SOLID && p != NO_PHASE {
            let t = s.swapped(below, cell).changed(env, cell);
            law_swap_conserves_mass(s, below, cell);
            law_falling_conserves_mass(env, t, below);
        }
    }
}

/// Where a substance moves from one cell to another, no mass is lost or gained, as long as the sum
/// of both masses is a number.
pub proof fn law_move_conserves_mass(env: Env, s: State, src: int, dst: int)
    requires
        0 <= src < s.updated.len(),
        0 <= dst < s.updated.len(),
        src != dst,
        exact_sum(s.updated[dst].mass, s.updated[src].mass),
        num(ZERO).lt(s.updated[dst].mass.plus(s.updated[src].mass)),
    ensures
        total_mass(displacement::moved(env, s, src, dst)) == total_mass(s),
{
    lemma_zero_value();
    let from = s.updated[src];
    let c = s.updated[dst].spec_with_mass_added(
        env.diseases,
        from.mass,
        from.temperature,
        from.disease_idx,
        from.disease_count,
    );
    let a = s.put(dst, c);
    let d = Cell { element_idx: a.updated[src].element_idx, ..a.updated[dst] };
    let b = a.put(dst, d);
    lemma_total(s.updated, dst, c);
    lemma_total(a.updated, dst, d);
    lemma_total(b.updated, src, b.updated[src].emptied(env.vacuum_element_idx));
}

/// Where a gas is pushed out of its cell, no mass is lost or gained, as long as the sum of both
/// masses is a number.
pub proof fn law_pushed_gas_conserves_mass(env: Env, s: State, cell: int, gas: u16)
    requires
        0 <= cell < s.updated.len(),
        env.width >= 2,
        displacement::gas_goal(env, s, cell, gas) matches Some(d) ==> exact_sum(
            s.updated[d].mass,
            s.updated[cell].mass,
        ) && num(ZERO).lt(s.updated[d].mass.plus(s.updated[cell].mass)),
    ensures
        total_mass(displacement::gas_displaced(env, s, cell, gas)) == total_mass(s),
{
    lemma_gas_goal(env, s, cell, gas);
    if let Some(d) = displacement::gas_goal(env, s, cell, gas) {
        law_move_conserves_mass(env, s, cell, d);
    }
}

pub proof fn lemma_zero_value()
    ensures
        num(ZERO).value() == 0,
        num(ZERO).is_finite(),
{
    assert(rounding::units(0) == 0) by (nonlinear_arith)
        requires
            rounding::significand(0) == 0,
    ;
}

/// Where cells even out their masses, what one gives the other gets: no mass is lost or gained,
/// as long as the sums are numbers and the giver has as much as it gives.
pub proof fn law_pressure_conserves_mass(
    env: Env,
    s: State,
    src: int,
    dst: int,
    transfer: F32,
    germs: i32,
)
    requires
        0 <= src < s.updated.len(),
        0 <= dst < s.updated.len(),
        src != dst,
        exact_sum(s.updated[dst].mass, transfer),
        exact_sum(s.updated[src].mass, transfer.neg()),
        num(ZERO).lt(s.updated[dst].mass.plus(transfer)),
        transfer.le(s.updated[src].mass),
    ensures
        total_mass(pressure::passed(env, s, src, dst, transfer, germs)) == total_mass(s),
{
    let m = s.updated[src].mass.minus(transfer);
    lemma_zero_value();
    number_laws::law_order_is_by_value(transfer, s.updated[src].mass);
    number_laws::law_order_is_by_value(m, num(ZERO));
    lemma_neg_is_opposite(transfer);
    let from = s.updated[src];
    let c = s.updated[dst].spec_with_mass_added(
        env.diseases,
        transfer,
        from.temperature,
        from.disease_idx,
        germs,
    );
    let a = s.put(dst, c);
    lemma_total(s.updated, dst, c);
    let t = pressure::passed(env, s, src, dst, transfer, germs);
    lemma_total(a.updated, src, t.updated[src]);
    assert(t.updated =~= a.updated.update(src, t.updated[src]));
}

pub proof fn lemma_neg_is_opposite(x: F32)
    ensures
        x.neg().value() == -x.value(),
{
    assert(x.neg().mag() == x.mag());
}

/// Where a liquid flows on into the same liquid, what leaves one cell comes to the other: no mass
/// is lost or gained, as long as the sums are numbers.
pub proof fn law_liquid_conserves_mass(
    env: Env,
    s: State,
    cell: int,
    dst: int,
    amount: F32,
    idx: u8,
    germs: i32,
    side: sim_data::Side,
)
    requires
        0 <= cell < s.updated.len(),
        0 <= dst < s.updated.len(),
        cell != dst,
        s.updated[dst].element_idx == s.cells[cell].element_idx,
        exact_sum(s.updated[dst].mass, amount),
        exact_sum(s.updated[cell].mass, amount.neg()),
        num(ZERO).lt(s.updated[dst].mass.plus(amount)),
    ensures
        ({
            let (t, ok) = liquid_flow::offered(
                env,
                s,
                cell,
                s.cells[cell].element_idx,
                dst,
                amount,
                idx,
                germs,
            );
            ok && total_mass(liquid_flow::debited(t, cell, idx, amount, germs, side))
                == total_mass(s)
        }),
{
    lemma_neg_is_opposite(amount);
    lemma_zero_value();
    let e = s.cells[cell].element_idx;
    let t = liquid_flow::offered(env, s, cell, e, dst, amount, idx, germs).0;
    let u = liquid_flow::debited(t, cell, idx, amount, germs, side);
    lemma_total(s.updated, dst, t.updated[dst]);
    assert(t.updated =~= s.updated.update(dst, t.updated[dst]));
    lemma_total(t.updated, cell, u.updated[cell]);
    assert(u.updated =~= t.updated.update(cell, u.updated[cell]));
}

/// A neighbour that refuses a liquid stays as it is, and so does everything else.
pub proof fn law_refused_liquid_changes_nothing(
    env: Env,
    s: State,
    src: int,
    elem: u16,
    dst: int,
    amount: F32,
    idx: u8,
    germs: i32,
)
    ensures
        ({
            let (t, ok) = liquid_flow::offered(env, s, src, elem, dst, amount, idx, germs);
            !ok ==> t == s
        }),
{
}

/// Between two cells at most an eighth of the giver's mass flows.
pub proof fn law_pressure_flow_is_bounded(coefficient: F32, here: F32, there: F32)
    requires
        coefficient.is_finite(),
        here.is_finite(),
        there.is_finite(),
        num(ZERO).le(here),
        num(ZERO).le(there),
    ensures
        ({
            let f = pressure::pressure_flow(coefficient, here, there);
            f.le(here.times(num(EIGHTH))) && there.times(num(MINUS_EIGHTH)).le(f)
        }),
{
    let gap = here.minus(there);
    number_laws::law_sum_is_rounded(here, there.neg());
    number_laws::law_minus_makes_no_larger(here, there);
    lemma_neg_is_opposite(there);
    number_laws::law_rounded_exact(there.neg());
    number_laws::law_order_is_by_value(num(ZERO), here);
    lemma_zero_value();
    number_laws::law_rounded_monotone(there.neg().value(), here.value() + there.neg().value());
    lemma_product_sign(coefficient, gap);
    lemma_product_sign(here, num(EIGHTH));
    lemma_product_sign(there, num(MINUS_EIGHTH));
}

/// A product of finite numbers is a number, with the sign of both signs together.
pub proof fn lemma_product_sign(x: F32, y: F32)
    requires
        x.is_finite(),
        y.is_finite(),
    ensures
        !x.times(y).is_nan(),
        x.is_negative() == y.is_negative() ==> x.times(y).rank() >= 0,
        x.is_negative() != y.is_negative() ==> x.times(y).rank() <= 0,
        x.rank() == 0 ==> x.times(y).rank() == 0,
{
    reveal(F32::spec_times);
    lemma_zero_value();
    lemma_pow2_pos(149);
    number_laws::law_round_zero(pow2(149));
    assert(0 * rounding::units(y.mag() as nat) == 0);
    let m = rounding::round_mag(
        rounding::units(x.mag() as nat) * rounding::units(y.mag() as nat),
        pow2(149),
    );
    assert(m <= rounding::INFINITE);
}

/// A liquid evens out its mass only with itself or with what is empty.
pub proof fn law_liquids_do_not_mix_by_pressure(
    env: Env,
    s: State,
    cell: int,
    neighbor: int,
    elem: u16,
    other: u16,
    data: ElementPressureData,
    other_data: ElementPressureData,
)
    requires
        phase(data.state) == LIQUID,
        phase(other_data.state) != VACUUM,
        elem != other,
    ensures
        pressure::evened(env, s, cell, neighbor, elem, other, data, other_data) == (
            s,
            num(ZERO),
        ),
{
}

/// Pressure breaks walls of one or two cells, never an open side, and only where events are
/// kept.
pub proof fn law_breach_is_thin(env: Env, s: State, cell: int, ratio: F32, offset: int)
    ensures
        pressure_break::breach(env, s, cell, ratio, offset) matches Some(n) ==> 1 <= n <= 2
            && s.events is Some,
{
}

/// What is lost to space leaves no less than nothing, and no more than there was.
pub proof fn law_loss_to_space(mass: F32, p: u8)
    requires
        mass.is_finite(),
        num(ZERO).le(mass),
    ensures
        space::loss_rate(p) matches Some(rate) ==> num(ZERO).le(space::drained(mass, rate))
            && space::drained(mass, rate).le(mass),
{
    if let Some(rate) = space::loss_rate(p) {
        let loss = rate.times(num(constants::FIFTIETH));
        lemma_loss(rate);
        number_laws::law_sum_is_rounded(mass, loss.neg());
        number_laws::law_minus_makes_no_larger(mass, loss);
    }
}

/// A loss to space is a positive number.
proof fn lemma_loss(rate: F32)
    requires
        rate == num(ONE) || rate == num(constants::THOUSAND),
    ensures
        num(ZERO).le(rate.times(num(constants::FIFTIETH))),
        rate.times(num(constants::FIFTIETH)).is_finite(),
        rate.times(num(constants::FIFTIETH)).neg().is_finite(),
{
    number_laws::law_part_of_whole(rate, num(constants::FIFTIETH));
}

/// Radiation within its limits is at least nothing and at most the most, and what is left of it
/// is nothing or more than a hundredth.
pub proof fn law_radiation_limits(r: F32)
    requires
        !r.is_nan(),
    ensures
        num(ZERO).le(radiation::limited(r)),
        radiation::limited(r).le(num(MAX_RADIATION)),
        radiation::limited(r) == num(ZERO) || num(CENTI).lt(radiation::limited(r)),
{
    number_laws::law_clamp(r, num(ZERO), num(MAX_RADIATION));
}

/// Where radiation is switched off, nothing changes.
pub proof fn law_no_radiation(env: Env, s: State, b: RegionBounds, cosmic: F32)
    requires
        !env.radiation_enabled,
    ensures
        radiation::irradiated(env, s, b, cosmic) == s,
{
}

/// What a cell lets through of the radiation from above is at least nothing and at most all of
/// it.
pub proof fn law_radiation_is_held_back(block: F32, above: F32)
    requires
        num(ZERO).le(block),
        block.le(num(ONE)),
        num(ZERO).le(above),
        above.is_finite(),
    ensures
        num(ZERO).le(radiation::passing(block, above)),
        radiation::passing(block, above).le(above),
{
    let rest = num(ONE).minus(block);
    lemma_complement(block);
    number_laws::law_times_commutes(rest, above);
    number_laws::law_part_of_whole(above, rest);
}

/// What is left of one lies between zero and one.
proof fn lemma_complement(f: F32)
    requires
        num(ZERO).le(f),
        f.le(num(ONE)),
    ensures
        num(ZERO).le(num(ONE).minus(f)),
        num(ONE).minus(f).le(num(ONE)),
{
    number_laws::law_sum_is_rounded(num(ONE), f.neg());
    number_laws::law_minus_makes_no_larger(num(ONE), f);
    number_laws::law_order_is_by_value(f, num(ONE));
    lemma_neg_is_opposite(f);
    lemma_zero_value();
    number_laws::law_rounded_exact(num(ZERO));
    number_laws::law_rounded_monotone(0, num(ONE).value() + f.neg().value());
}

/// What is left of the radiation from space in a cell depends only on that cell and those above
/// it in the same region.
pub proof fn law_exposure_is_of_the_region(env: Env, s: State, t: State, top: int, y: int, x: int)
    requires
        y < top,
        forall|r: int|
            y <= r < top ==> #[trigger] s.updated[r * env.width + x] == t.updated[r * env.width
                + x],
    ensures
        radiation::exposure(env, s, top, y, x) == radiation::exposure(env, t, top, y, x),
    decreases top - y,
{
    assert(s.updated[y * env.width + x] == t.updated[y * env.width + x]);
    if y + 1 < top {
        law_exposure_is_of_the_region(env, s, t, top, y + 1, x);
    }
}

/// Sunlight grows no brighter on its way down, and no darker than dark.
pub proof fn law_light_only_dims(light: F32, d: Option<ElementLightAbsorptionData>, mass: F32)
    requires
        light.is_finite(),
        num(ZERO).le(light),
        num(ZERO).le(mass),
        d matches Some(x) ==> num(ZERO).le(x.mass_scale) && num(ZERO).le(x.factor)
            && x.factor.is_finite(),
    ensures
        num(ZERO).le(sunlight::dimmed(light, d, mass)),
        sunlight::dimmed(light, d, mass).le(light),
{
    let scale = match d {
        Some(d) => d.mass_scale,
        None => num(ZERO),
    };
    let factor = match d {
        Some(d) => d.factor,
        None => num(ZERO),
    };
    let p = scale.times(mass);
    let part = if p.is_nan() {
        num(ZERO)
    } else if num(ONE).le(p) {
        num(ONE)
    } else {
        p
    };
    if !p.is_nan() {
        number_laws::law_product_not_negative(scale, mass);
    }
    number_laws::law_times_commutes(part, factor);
    number_laws::law_part_of_whole(factor, part);
    let lost = part.times(factor);
    number_laws::law_sum_is_rounded(light, lost.neg());
    number_laws::law_minus_makes_no_larger(light, lost);
}

/// After a step's ageing a cell without germs is clean but for its age, which is one tick.
pub proof fn law_aged(c: Cell)
    ensures
        disease::aged(c).disease_infestation_tick_count <= 0xfe,
        c.disease_count < 1 ==> disease::aged(c) == (Cell {
            disease_infestation_tick_count: 1,
            ..c.without_disease()
        }),
        c.disease_count >= 1 ==> disease::aged(c).disease_count == c.disease_count,
{
}

/// Germs at a temperature at which they thrive have no half-life.
pub proof fn law_thriving_germs(temp: F32, range: RangeInfo, half_lives: RangeInfo)
    requires
        !temp.le(range.min_viable),
        !temp.le(range.min_growth),
        temp.le(range.max_growth),
    ensures
        disease::half_life_at(temp, range, half_lives) == num(constants::INFINITY),
{
    reveal_with_fuel(RangeInfo::upper, 4);
}

/// Where a cell neither sinks nor warms up, nothing changes but the random number.
pub proof fn law_layering_or_nothing(env: Env, s: State, cell: int, gate: F32)
    ensures
        ({
            let (t, ok) = displacement::layered(env, s, cell, gate);
            !ok ==> t == s || t == s.rolled()
        }),
{
}

/// What is added to its own kind joins it: nothing else changes, and nothing is reported.
pub proof fn law_own_kind_joins(env: Env, s: State, cell: int, load: placing::Load)
    requires
        0 <= cell < s.updated.len(),
        s.updated[cell].element_idx == load.elem,
    ensures
        placing::liquid_added(env, s, cell, load) == placing::absorbed(env, s, cell, load),
        placing::gas_added(env, s, cell, load) == placing::absorbed(env, s, cell, load),
        placing::absorbed(env, s, cell, load).events == s.events,
        placing::absorbed(env, s, cell, load).timers == s.timers,
{
}

/// What is added to an empty cell is there with its whole mass.
pub proof fn law_added_to_vacuum(env: Env, s: State, cell: int, load: placing::Load)
    requires
        0 <= cell < s.updated.len(),
        s.updated[cell].element_idx != load.elem,
        s.updated[cell].element_idx != env.void_element_idx,
        env.elements.spec_post_phase(s.updated[cell].element_idx) == VACUUM,
        s.updated[cell].mass == num(ZERO),
        num(ZERO).lt(load.mass),
        load.mass.is_finite(),
    ensures
        ({
            let t = placing::liquid_added(env, s, cell, load);
            &&& placing::gas_added(env, s, cell, load) == t
            &&& t.updated[cell].element_idx == load.elem
            &&& t.updated[cell].mass == load.mass
        }),
{
    number_laws::law_plus_zero(load.mass);
}

/// The buffers agree once the old one has become like the new one, and stay so.
pub proof fn law_copied(s: State)
    ensures
        !s.unallocated() ==> physics::copied(s).cells == physics::copied(s).updated,
        physics::copied(physics::copied(s)) == physics::copied(s),
        physics::copied(s).updated == s.updated,
{
}

/// Where a region covers the whole grid, to copy the region is to copy the grid.
pub proof fn law_copy_of_everything(env: Env, s: State, b: RegionBounds)
    requires
        s.fits(env),
        b.min_x == 0,
        b.min_y == 0,
        b.max_x >= env.width,
        b.max_y >= env.height,
    ensures
        physics::copied_in(env, s, b) == physics::copied(s),
{
    if !s.unallocated() {
        let w = env.width as int;
        let h = env.height as int;
        assert forall|i: int| 0 <= i < s.cells.len() implies physics::lies_in(env, b, i) by {
            assert(w > 0) by (nonlinear_arith)
                requires
                    0 <= i < w * h,
                    w >= 0,
            ;
            vstd::arithmetic::div_mod::lemma_fundamental_div_mod(i, w);
            let q = i / w;
            let r = i % w;
            assert(0 <= q < h) by (nonlinear_arith)
                requires
                    i == w * q + r,
                    0 <= r < w,
                    0 <= i < w * h,
            ;
        }
        assert(physics::copied_in(env, s, b).cells =~= physics::copied(s).cells);
    }
}

/// A step begins with its direction reversed and with both buffers alike; two steps have the
/// direction that there was.
pub proof fn law_step_begins(env: Env, s: State)
    requires
        s.iterate_direction != i32::MIN,
    ensures
        ({
            let t = physics::step_begun(env, s).0;
            &&& t.iterate_direction == -s.iterate_direction
            &&& !s.unallocated() ==> t.cells == t.updated
            &&& t.updated == s.updated
            &&& physics::step_begun(env, t).0.iterate_direction == s.iterate_direction
        }),
{
}

/// Germs that thrive, in a number that suits them and with nothing carried over, stay as many as
/// they are.
pub proof fn law_steady_germs(env: Env, c: Cell, p: disease::Powers)
    requires
        disease::thriving(env, c) matches Some(d) && {
            let r = disease::rates(d, c);
            &&& !env.radiation_enabled
            &&& !disease::too_few(d, c)
            &&& !disease::too_many(d, c)
            &&& r.warm.value(p.warm) == num(ONE)
            &&& r.normal.value(p.normal) == num(ONE)
        },
        c.disease_growth_accumulated_error == num(ZERO),
        c.disease_count > 0,
    ensures
        disease::grown(env, c, p) == c,
{
    let n = F32::from_i32(c.disease_count);
    lemma_positive_integer(c.disease_count);
    number_laws::law_times_one(n);
    number_laws::law_plus_zero(n);
    number_laws::law_minus_self(n);
    number_laws::law_minus_self(num(ONE));
    lemma_product_sign(num(ZERO), n);
    lemma_zero_times(n);
    lemma_zero_sum();
    reveal(F32::spec_trunc);
    reveal(F32::to_range);
    lemma_whole_zero(num(ZERO));
    number_laws::law_round_zero(1);
    assert(0 * pow2(149) == 0);
    let f = disease::growth(env, disease::thriving(env, c)->0, c, p);
    assert(f == num(ZERO));
    assert(f.trunc() == num(ZERO));
}

/// An integer above zero is a finite number above zero.
pub proof fn lemma_positive_integer(n: i32)
    requires
        n > 0,
    ensures
        F32::from_i32(n).is_finite(),
        0 < F32::from_i32(n).rank(),
        !F32::from_i32(n).is_negative(),
{
    reveal(F32::spec_from_i32);
    number_laws::law_integer_round_trip(1);
    lemma_pow2_pos(149);
    let p = pow2(149);
    assert(1 * p <= n * p) by (nonlinear_arith)
        requires
            n >= 1,
            p > 0,
    ;
    number_laws::law_round_monotone((1 * p) as nat, (n * p) as nat, 1);
    lemma2_to64();
    lemma_pow2_adds(31, 149);
    lemma_pow2_adds(23, 157);
    assert(rounding::exponent(0x4f00_0000) == 157);
    assert(rounding::significand(0x4f00_0000) == 0x80_0000);
    assert(n * p <= 0x8000_0000 * p) by (nonlinear_arith)
        requires
            n <= 0x8000_0000,
            p > 0,
    ;
    rounding::lemma_round_mag_exact(0x4f00_0000);
    number_laws::law_round_monotone((n * p) as nat, (0x8000_0000 * p) as nat, 1);
    let x = F32::from_i32(1);
    assert(x.rank() > 0) by {
        if x.rank() == 0 {
            lemma_zero_value();
            assert(x.value() == 0);
            assert(1 * p == p);
        }
    }
}

/// Nothing times a positive number is nothing.
proof fn lemma_zero_times(x: F32)
    requires
        x.is_finite(),
        !x.is_negative(),
    ensures
        num(ZERO).times(x) == num(ZERO),
{
    reveal(F32::spec_times);
    lemma_zero_value();
    lemma_pow2_pos(149);
    number_laws::law_round_zero(pow2(149));
    assert(0 * rounding::units(x.mag() as nat) == 0);
}

/// Nothing and nothing are nothing.
proof fn lemma_zero_sum()
    ensures
        num(ZERO).plus(num(ZERO)) == num(ZERO),
        num(ZERO).minus(num(ZERO)) == num(ZERO),
{
    number_laws::law_minus_self(num(ZERO));
    lemma_zero_value();
    reveal(F32::spec_plus);
}

/// What is carried over from the growth of germs is less than a germ, or at most one.
pub proof fn law_carried_germs(env: Env, c: Cell, p: disease::Powers)
    requires
        num(ONE).neg().le(c.disease_growth_accumulated_error),
        c.disease_growth_accumulated_error.le(num(ONE)),
    ensures
        ({
            let e = disease::grown(env, c, p).disease_growth_accumulated_error;
            num(ONE).neg().le(e) && e.le(num(ONE))
        }),
{
    if let Some(d) = disease::thriving(env, c) {
        let f = disease::growth(env, d, c, p);
        if f.is_finite() {
            number_laws::law_fraction_is_small(f);
        }
    }
}

/// The smallest of three numbers is no more than the first.
pub proof fn lemma_smallest(x: F32, y: F32, z: F32)
    requires
        !x.is_nan(),
    ensures
        x.min(y).min(z).le(x),
{
}

/// What is left of a mass is not negative where no more than that is taken away.
pub proof fn lemma_rest(mass: F32, amount: F32)
    requires
        mass.is_finite(),
        amount.le(mass),
        num(ZERO).le(amount),
    ensures
        num(ZERO).le(mass.minus(amount)),
        mass.minus(amount).is_finite(),
{
    lemma_zero_value();
    number_laws::law_sum_is_rounded(mass, amount.neg());
    number_laws::law_minus_makes_no_larger(mass, amount);
    number_laws::law_order_is_by_value(amount, mass);
    lemma_neg_is_opposite(amount);
    number_laws::law_rounded_exact(num(ZERO));
    number_laws::law_rounded_monotone(0, mass.value() + amount.neg().value());
}

/// A liquid never lets more fall than it has.
pub proof fn law_fall_leaves_no_debt(env: Env, s: State, cell: int)
    requires
        liquid_flow::movable(env, s, cell),
        s.cells[cell].mass.is_finite(),
        num(ZERO).le(s.cells[cell].mass),
    ensures
        num(ZERO).le(liquid_flow::fallen(env, s, cell).mass),
        liquid_flow::fallen(env, s, cell).mass.is_finite(),
{
    reveal(liquid_flow::fallen);
    let below = cell - env.width;
    let c = s.cells[cell];
    let b = s.cells[below];
    let p = env.elements.spec_liquid_phase(b.element_idx);
    let d = env.elements.spec_liquid(c.element_idx)->0;
    let amount = liquid_flow::fall_amount(
        d,
        c.mass,
        if p == LIQUID {
            b.mass
        } else {
            num(ZERO)
        },
    );
    let gap = c.mass.times(num(constants::COMPRESSION)).max(d.max_mass).minus(
        if p == LIQUID {
            b.mass
        } else {
            num(ZERO)
        },
    );
    let room = if gap.lt(num(ZERO)) {
        num(ZERO)
    } else {
        gap
    };
    lemma_smallest(c.mass, d.viscosity, room.times(num(constants::HALF)));
    if num(ZERO).lt(amount) {
        lemma_rest(c.mass, amount);
    }
}

/// A liquid never lets more flow sideways than it has left.
pub proof fn law_spread_leaves_no_debt(
    env: Env,
    s: State,
    cell: int,
    dx: int,
    mass: F32,
    count: i32,
)
    requires
        mass.is_finite(),
        num(ZERO).le(mass),
    ensures
        num(ZERO).le(liquid_flow::spread(env, s, cell, dx, mass, count).mass),
        liquid_flow::spread(env, s, cell, dx, mass, count).mass.is_finite(),
{
    reveal(liquid_flow::spread);
    let d = env.elements.spec_liquid(s.cells[cell].element_idx)->0;
    let q = mass.minus(liquid_flow::held_at(env, s, cell + dx)).times(num(constants::QUARTER));
    let amount = mass.min(d.viscosity).min(q);
    lemma_smallest(mass, d.viscosity, q);
    if num(ZERO).lt(amount) {
        lemma_rest(mass, amount);
    }
}

/// Radiation changes nothing but radiation.
pub proof fn law_radiation_touches_nothing_else(env: Env, s: State, b: RegionBounds, cosmic: F32)
    requires
        s.updated.len() == env.cell_count(),
    ensures
        radiation::same_matter(s, radiation::irradiated(env, s, b, cosmic)),
{
    if radiation::radiating(env, s, b) {
        radiation::lemma_irradiated(env, s, b, cosmic);
    }
}

/// Only liquids are shown in the textures of liquids.
pub proof fn law_only_liquids_are_shown(
    env: Env,
    s: State,
    t: property_texture::Textures,
    fullness: Seq<F32>,
    cell: int,
)
    requires
        match env.elements.spec_property_texture(s.updated[cell].element_idx) {
            Some(d) => phase(d.state) != LIQUID,
            None => true,
        },
    ensures
        property_texture::liquid_pixel(env, s, t, fullness, cell)
            == (property_texture::LiquidPixel { liquid: 0, data: 0, material: 0 }),
{
}

/// The sky of a world is shown in full light, and nothing else changes with it.
pub proof fn law_sky_is_bright(
    t: property_texture::Textures,
    sun: Seq<u8>,
    w: sim_data::WorldOffsetData,
    g: int,
)
    requires
        0 <= g < sun.len(),
    ensures
        ({
            let start = sunlight::world_pixel(t, w, sunlight::spec_side(w.height) - 1, 0);
            let lit = sunlight::sky_shown(t, sun, w)[g];
            if start <= g < start + sunlight::spec_side(w.width) {
                lit == sunlight::FULL_LIGHT
            } else {
                lit == sun[g]
            }
        }),
{
}

/// What sublimates into a cell that holds the same gas never fills it beyond its limit.
pub proof fn law_sublimation_keeps_to_the_limit(
    env: Env,
    s: State,
    cell: int,
    n: int,
    d: ElementPostProcessData,
    amount: F32,
    rotation: F32,
)
    requires
        0 <= cell < s.updated.len(),
        0 <= n < s.updated.len(),
        cell != n,
        num(ZERO).le(s.updated[cell].mass),
        s.updated[cell].mass.le(num(SUBLIMATE_LIMIT)),
        num(ZERO).le(amount.times(d.sublimate_efficiency)),
    ensures
        sublimation::given_to_same(env, s, cell, n, d, amount, rotation).updated[cell].mass.le(
            num(SUBLIMATE_LIMIT),
        ),
{
    lemma_within_limit(s.updated[cell].mass, amount.times(d.sublimate_efficiency));
}

/// A cell that gains what it has room for keeps to its limit.
proof fn lemma_within_limit(mass: F32, gain: F32)
    requires
        num(ZERO).le(mass),
        mass.le(num(SUBLIMATE_LIMIT)),
        num(ZERO).le(gain),
    ensures
        ({
            let room = num(SUBLIMATE_LIMIT).minus(mass);
            let got = if room.lt(gain) {
                room
            } else {
                gain
            };
            mass.plus(got).le(num(SUBLIMATE_LIMIT))
        }),
{
    let top = num(SUBLIMATE_LIMIT);
    let room = top.minus(mass);
    lemma_zero_value();
    number_laws::law_sum_is_rounded(top, mass.neg());
    number_laws::law_minus_makes_no_larger(top, mass);
    lemma_neg_is_opposite(mass);
    number_laws::law_order_is_by_value(mass, top);
    number_laws::law_order_is_by_value(num(ZERO), mass);
    let n = (top.value() - mass.value()) as nat;
    number_laws::law_rounded_exact(num(ZERO));
    number_laws::law_rounded_monotone(0, n as int);
    let got = if room.lt(gain) {
        room
    } else {
        gain
    };
    number_laws::law_sum_is_rounded(mass, got);
    number_laws::law_order_is_by_value(got, room);
    lemma_room(mass, room);
    let v = mass.value() + got.value();
    let w = mass.value() + room.value();
    number_laws::law_rounded_monotone(v, w);
}

/// A cell with as much more as it has room for is at its limit at most.
proof fn lemma_room(mass: F32, room: F32)
    requires
        num(ZERO).le(mass),
        mass.le(num(SUBLIMATE_LIMIT)),
        mass.is_finite(),
        num(ZERO).le(room),
        room.is_finite(),
        room.rank() == number_laws::rounded(num(SUBLIMATE_LIMIT).value() - mass.value()),
        mass.value() <= num(SUBLIMATE_LIMIT).value(),
    ensures
        number_laws::rounded(mass.value() + room.value()) <= num(SUBLIMATE_LIMIT).rank(),
{
    let top = num(SUBLIMATE_LIMIT).value();
    let n = (top - mass.value()) as nat;
    lemma2_to64();
    lemma_zero_value();
    number_laws::law_order_is_by_value(num(ZERO), mass);
    number_laws::law_order_is_by_value(num(ZERO), room);
    assert(rounding::exponent(SUBLIMATE_LIMIT as nat) == 126);
    assert(rounding::significand(SUBLIMATE_LIMIT as nat) == 0xe6_6666);
    let p = pow2(126);
    assert(top == 0xe6_6666 * p);
    lemma_pow2_pos(126);
    lemma_pow2_adds(24, 126);
    lemma_pow2_adds(23, 126);
    let k = rounding::grid_exponent(n, 1);
    rounding::lemma_grid_exponent_bounds(n, 1);
    if k > 126 {
        if 23 + k > 150 {
            lemma_pow2_strictly_increases(150, (23 + k) as nat);
        }
        assert(n < 0x100_0000 * p) by (nonlinear_arith)
            requires
                n <= 0xe6_6666 * p,
                p > 0,
        ;
        assert(false);
    }
    if k < 126 {
        lemma_pow2_strictly_increases(k, 126);
    }
    number_laws::law_rounding_error(n);
    let w = (mass.value() + room.value()) as nat;
    assert(room.value() == rounding::units(rounding::round_mag(n, 1)));
    assert(2 * w <= 2 * top + p);
    let h = pow2(125);
    rounding::lemma_pow2_step(125);
    assert(p == 2 * h);
    let limit = (top + h) as nat;
    number_laws::law_round_monotone(w, limit, 1);
    assert(limit < 1 * pow2(150) && limit >= 1 * pow2(149)) by (nonlinear_arith)
        requires
            limit == 0xe6_6666 * p + h,
            p == 2 * h,
            h > 0,
            pow2(150) == 0x100_0000 * p,
            pow2(149) == 0x80_0000 * p,
    ;
    rounding::lemma_grid_exponent_is(limit, 1, 126);
    vstd::arithmetic::div_mod::lemma_fundamental_div_mod_converse(
        limit as int,
        p as int,
        0xe6_6666,
        h as int,
    );
    assert(1 * p == p);
    assert(rounding::nearest_even(limit, 1 * p) == 0xe6_6666);
}

} // verus!
