//! What holds where germs pass between cells.
use crate::cell::Cell;
use crate::cell::NO_DISEASE;
use crate::constants::EIGHTH;
use crate::constants::ONE;
use crate::constants::ZERO;
use crate::disease;
use crate::element::NO_PHASE;
use crate::germs::DiseaseTable;
use crate::laws;
use crate::number::num;
use crate::number::F32;
use crate::number_laws;
use crate::rounding;
use crate::sim_data::Env;
use crate::sim_data::State;
use vstd::arithmetic::power2::*;
use vstd::prelude::*;

verus! {

/// Rounding at most doubles a whole number of units.
proof fn lemma_at_most_doubled(n: nat)
    requires
        rounding::round_mag(n, 1) < rounding::INFINITE,
    ensures
        rounding::units(rounding::round_mag(n, 1)) <= 2 * n,
{
    number_laws::law_rounding_error(n);
    let k = rounding::grid_exponent(n, 1);
    rounding::lemma_grid_exponent_bounds(n, 1);
    lemma2_to64();
    if k > 0 {
        lemma_pow2_adds(23, k);
        let p = pow2(k);
        assert(n >= p) by (nonlinear_arith)
            requires
                n >= 1 * (0x80_0000 * p),
                p >= 0,
        ;
    }
}

/// Of two magnitudes the larger stands for no fewer units.
proof fn lemma_units_monotone(a: nat, b: nat)
    requires
        a <= b,
    ensures
        rounding::units(a) <= rounding::units(b),
{
    if a < b {
        number_laws::law_units_strictly_monotone(a, b);
    }
}

/// An eighth of a part of a number of germs is at most half of them.
proof fn lemma_eighth_of_germs(scale: F32, d: i32)
    requires
        num(ZERO).le(scale),
        scale.le(num(ONE)),
        d > 0,
    ensures
        ({
            let z = scale.times(F32::from_i32(d)).times(num(EIGHTH));
            &&& z.is_finite()
            &&& num(ZERO).le(z)
            &&& 2 * z.whole() <= d
        }),
{
    let x = F32::from_i32(d);
    laws::lemma_positive_integer(d);
    number_laws::law_times_commutes(scale, x);
    number_laws::law_part_of_whole(x, scale);
    let y = scale.times(x);
    number_laws::law_part_of_whole(y, num(EIGHTH));
    let z = y.times(num(EIGHTH));
    lemma2_to64();
    lemma_pow2_adds(23, 123);
    lemma_pow2_adds(3, 146);
    lemma_pow2_adds(1, 146);
    lemma_pow2_adds(2, 146);
    lemma_pow2_pos(146);
    let e = pow2(146);
    assert(rounding::exponent(EIGHTH as nat) == 123);
    assert(rounding::significand(EIGHTH as nat) == 0x80_0000);
    assert(rounding::units(EIGHTH as nat) == e);
    let p = pow2(149);
    assert(p == 8 * e);
    let ux = rounding::units(x.mag() as nat);
    let uy = rounding::units(y.mag() as nat);
    let n = (d * p) as nat;
    assert(ux <= 2 * n) by {
        reveal(F32::spec_from_i32);
        lemma_at_most_doubled(n);
    }
    lemma_units_monotone(y.mag() as nat, x.mag() as nat);
    rounding::lemma_round_mag_scaled(uy, 8, e);
    let top = (2 * d * e) as nat;
    assert(2 * n == top * 8) by (nonlinear_arith)
        requires
            n == d * p,
            p == 8 * e,
            top == 2 * d * e,
    ;
    number_laws::law_round_monotone(uy, top * 8, 8);
    rounding::lemma_round_mag_scaled(top, 1, 8);
    let m = rounding::round_mag(uy, 8);
    assert(z.mag() == m && !z.is_nan()) by {
        reveal(F32::spec_times);
    }
    lemma_top(top, d);
    lemma_at_most_doubled(top);
    lemma_units_monotone(m, rounding::round_mag(top, 1));
    let uz = rounding::units(z.mag() as nat);
    assert(uz <= 4 * d * e) by (nonlinear_arith)
        requires
            uz <= 2 * top,
            top == 2 * d * e,
    ;
    let w = z.whole();
    vstd::arithmetic::div_mod::lemma_fundamental_div_mod(uz as int, p as int);
    assert(2 * w <= d) by (nonlinear_arith)
        requires
            p * w <= uz,
            uz <= 4 * d * e,
            p == 8 * e,
            e > 0,
    ;
}

/// An eighth of a number of germs is far from infinite.
proof fn lemma_top(top: nat, d: i32)
    requires
        d > 0,
        top == 2 * d * pow2(146),
    ensures
        rounding::round_mag(top, 1) < rounding::INFINITE,
{
    lemma2_to64();
    lemma_pow2_adds(32, 146);
    lemma_pow2_adds(23, 155);
    let e = pow2(146);
    let m: nat = 0x4e00_0000;
    assert(rounding::exponent(m) == 155);
    assert(rounding::significand(m) == 0x80_0000);
    assert(top <= 0x1_0000_0000 * e) by (nonlinear_arith)
        requires
            top == 2 * d * e,
            d <= 0x7fff_ffff,
            e >= 0,
    ;
    rounding::lemma_round_mag_exact(m);
    number_laws::law_round_monotone(top, rounding::units(m), 1);
}

/// A negated factor negates a product of finite numbers.
proof fn lemma_times_opposite(x: F32, y: F32)
    requires
        x.is_finite(),
        y.is_finite(),
    ensures
        x.times(y.neg()) == x.times(y).neg(),
        x.neg().times(y) == x.times(y).neg(),
{
    assert(x.neg().mag() == x.mag());
    assert(y.neg().mag() == y.mag());
    reveal(F32::spec_times);
    let m = rounding::round_mag(
        rounding::units(x.mag() as nat) * rounding::units(y.mag() as nat),
        pow2(149),
    );
    assert(m <= rounding::INFINITE);
}

/// As many germs leave whichever way the difference is taken.
proof fn lemma_leaving(table: DiseaseTable, c: Cell, d: i32)
    requires
        num(ZERO).le(disease::diffusion_scale(table, c)),
        disease::diffusion_scale(table, c).le(num(ONE)),
        d > 0,
    ensures
        0 <= disease::leaving(table, c, d),
        2 * disease::leaving(table, c, d) <= d,
        disease::leaving(table, c, (-d) as i32) == -disease::leaving(table, c, d),
{
    let scale = disease::diffusion_scale(table, c);
    let x = F32::from_i32(d);
    let y = scale.times(x);
    let z = y.times(num(EIGHTH));
    lemma_eighth_of_germs(scale, d);
    laws::lemma_positive_integer(d);
    number_laws::law_times_commutes(scale, x);
    number_laws::law_part_of_whole(x, scale);
    lemma_times_opposite(scale, x);
    lemma_times_opposite(y, num(EIGHTH));
    assert(F32::from_i32((-d) as i32) == x.neg()) by {
        reveal(F32::spec_from_i32);
        assert(rounding::round_mag((d * pow2(149)) as nat, 1) <= rounding::INFINITE);
    }
    assert(z.neg().mag() == z.mag());
    if z.rank() == 0 {
        laws::lemma_whole_zero(z);
    }
    reveal(F32::to_range);
}

/// No germs leave where there is no difference.
proof fn lemma_none_leave(table: DiseaseTable, c: Cell)
    requires
        num(ZERO).le(disease::diffusion_scale(table, c)),
        disease::diffusion_scale(table, c).le(num(ONE)),
    ensures
        disease::leaving(table, c, 0) == 0,
{
    let scale = disease::diffusion_scale(table, c);
    let x = F32::from_i32(0);
    number_laws::law_integer_round_trip(0);
    laws::lemma_zero_value();
    lemma_pow2_pos(149);
    number_laws::law_round_zero(1);
    assert(x == num(ZERO)) by {
        reveal(F32::spec_from_i32);
        assert(0 * pow2(149) == 0);
    }
    number_laws::law_times_commutes(scale, x);
    laws::lemma_product_sign(x, scale);
    let y = scale.times(x);
    laws::lemma_product_sign(y, num(EIGHTH));
    let z = y.times(num(EIGHTH));
    laws::lemma_whole_zero(z);
    reveal(F32::to_range);
}

/// Whether two different cells hold germs of one kind that may pass between them: they are
/// there, their elements are of one phase, and both buffers agree on their germs.
pub open spec fn share_germs(env: Env, s: State, a: int, b: int) -> bool {
    let p = env.elements.spec_post_phase(s.cells[a].element_idx);
    &&& 0 <= a < s.cells.len()
    &&& 0 <= b < s.cells.len()
    &&& s.updated.len() == s.cells.len()
    &&& a != b
    &&& env.diseases is Some
    &&& p != NO_PHASE
    &&& p == env.elements.spec_post_phase(s.cells[b].element_idx)
    &&& s.cells[a].disease_idx == s.cells[b].disease_idx
    &&& s.cells[a].disease_idx != NO_DISEASE
    &&& s.cells[a].disease_count > 0
    &&& s.cells[b].disease_count > 0
    &&& s.updated[a].disease_idx == s.cells[a].disease_idx
    &&& s.updated[b].disease_idx == s.cells[b].disease_idx
    &&& s.updated[a].disease_count == s.cells[a].disease_count
    &&& s.updated[b].disease_count == s.cells[b].disease_count
}

/// How many germs pass from the cell with more of them to the cell with fewer: an eighth of the
/// difference, as far as they spread, rounded towards zero.
pub open spec fn passing_germs(env: Env, s: State, more: int, fewer: int) -> i32 {
    disease::leaving(
        env.diseases->0,
        s.cells[more],
        (s.cells[more].disease_count - s.cells[fewer].disease_count) as i32,
    )
}

/// The state after `n` germs have passed from one cell to another, and nothing else.
pub open spec fn germs_passed(s: State, more: int, fewer: int, n: i32) -> State {
    let t = s.put(
        more,
        Cell { disease_count: (s.updated[more].disease_count - n) as i32, ..s.updated[more] },
    );
    t.put(
        fewer,
        Cell { disease_count: (s.updated[fewer].disease_count + n) as i32, ..s.updated[fewer] },
    )
}

/// Germs of one kind pass from the cell with more of them to the cell with fewer: what one loses
/// the other gains, nothing else changes, the cell with more never ends up with fewer, and it is
/// the same whichever of the two is named first.
pub proof fn law_germs_even_out(env: Env, s: State, more: int, fewer: int)
    requires
        share_germs(env, s, more, fewer),
        s.cells[more].disease_count >= s.cells[fewer].disease_count,
        num(ZERO).le(disease::diffusion_scale(env.diseases->0, s.cells[more])),
        disease::diffusion_scale(env.diseases->0, s.cells[more]).le(num(ONE)),
        s.cells[more].disease_count == s.cells[fewer].disease_count ==> num(ZERO).le(
            disease::diffusion_scale(env.diseases->0, s.cells[fewer]),
        ) && disease::diffusion_scale(env.diseases->0, s.cells[fewer]).le(num(ONE)),
    ensures
        ({
            let n = passing_germs(env, s, more, fewer);
            &&& 0 <= n
            &&& s.cells[fewer].disease_count + n <= s.cells[more].disease_count - n
            &&& disease::spread_between(env, s, more, fewer) == germs_passed(s, more, fewer, n)
            &&& disease::spread_between(env, s, fewer, more) == germs_passed(s, more, fewer, n)
        }),
{
    let table = env.diseases->0;
    let a = s.cells[more];
    let b = s.cells[fewer];
    let d = (a.disease_count - b.disease_count) as i32;
    let n = passing_germs(env, s, more, fewer);
    if d > 0 {
        lemma_leaving(table, a, d);
        assert(b.disease_count.wrapping_sub(a.disease_count) == -d);
        assert(a.disease_count.wrapping_sub(b.disease_count) == d);
    } else {
        lemma_none_leave(table, a);
        lemma_none_leave(table, b);
    }
    let r = germs_passed(s, more, fewer, n);
    let t = disease::spread_between(env, s, more, fewer);
    let u = disease::spread_between(env, s, fewer, more);
    assert(disease::germ_flow(table, a, b) == Some((a.disease_idx, (-n) as i32)));
    assert(disease::germ_flow(table, b, a) == Some((a.disease_idx, n)));
    assert(0i32.wrapping_sub(n) == -n);
    assert(0i32.wrapping_sub((-n) as i32) == n);
    assert(t.updated =~= r.updated);
    assert(u.updated =~= r.updated);
}

} // verus!
