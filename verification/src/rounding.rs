//! Rounding of exact non-negative rationals to the 32-bit binary floating-point grid.
//!
//! Every finite value of the format is a whole number of *units*, a unit being two to the
//! power of minus 149. A magnitude (the low 31 bits of an encoding) with field `k` above its
//! 23 low bits stands for `q * 2^k` units; see [`units`].
use vstd::arithmetic::div_mod::*;
use vstd::arithmetic::mul::*;
use vstd::arithmetic::power2::*;
use vstd::prelude::*;

verus! {

/// One step of the exponent field.
pub const FIELD: u32 = 0x0080_0000;

/// The magnitude of infinity; every smaller magnitude is finite.
pub const INFINITE: u32 = 0x7f80_0000;

/// The power of two by which a magnitude's significand is scaled.
pub open spec fn exponent(mag: nat) -> nat {
    if mag < FIELD {
        0
    } else {
        (mag / FIELD as nat - 1) as nat
    }
}

/// The integer significand of a magnitude, hidden bit included.
pub open spec fn significand(mag: nat) -> nat {
    if mag < FIELD {
        mag
    } else {
        FIELD as nat + mag % FIELD as nat
    }
}

/// The exact value of a finite magnitude, counted in units.
pub open spec fn units(mag: nat) -> nat {
    significand(mag) * pow2(exponent(mag))
}

/// The integer nearest to `n / d`; a tie goes to the even neighbour.
pub open spec fn nearest_even(n: nat, d: nat) -> nat {
    let q = n / d;
    let r = n % d;
    if 2 * r < d {
        q
    } else if 2 * r > d {
        q + 1
    } else if q % 2 == 0 {
        q
    } else {
        q + 1
    }
}

/// The least `k` with `n / d < 2^(24 + k)`: the spacing of the grid at `n / d` is `2^k`.
pub open spec fn grid_exponent(n: nat, d: nat) -> nat
    decreases n / d,
{
    if d == 0 || n < d * pow2(24) {
        0
    } else {
        proof {
            lemma_grid_exponent_decreases(n, d);
        }
        1 + grid_exponent(n, 2 * d)
    }
}

/// The magnitude nearest to `n / d` units, ties to even; infinity past the largest finite one.
pub open spec fn round_mag(n: nat, d: nat) -> nat {
    let k = grid_exponent(n, d);
    let mag = k * FIELD as nat + nearest_even(n, d * pow2(k));
    if mag < INFINITE {
        mag
    } else {
        INFINITE as nat
    }
}

pub proof fn lemma_grid_exponent_decreases(n: nat, d: nat)
    requires
        d > 0,
        n >= d * pow2(24),
    ensures
        n / (2 * d) < n / d,
{
    lemma2_to64();
    assert(n / d >= 1) by (nonlinear_arith)
        requires
            n >= d * 0x1000000,
            d > 0,
    ;
    lemma_div_denominator(n as int, d as int, 2);
    assert(d * 2 == 2 * d);
    assert((n / d) / 2 < n / d);
}

/// A power of two is positive, and doubles with its exponent.
pub proof fn lemma_pow2_step(e: nat)
    ensures
        pow2(e) > 0,
        pow2(e + 1) == 2 * pow2(e),
{
    lemma_pow2_pos(e);
    lemma_pow2_unfold(e + 1);
}

/// `grid_exponent` is the only `k` whose binade holds `n / d`.
pub proof fn lemma_grid_exponent_is(n: nat, d: nat, k: nat)
    requires
        d > 0,
        n < d * pow2(24 + k),
        k == 0 || n >= d * pow2((23 + k) as nat),
    ensures
        grid_exponent(n, d) == k,
    decreases k,
{
    if k == 0 {
    } else {
        let j: nat = (k - 1) as nat;
        lemma_pow2_step(24 + j);
        lemma_pow2_step(23 + j);
        assert(24 + j + 1 == 24 + k);
        assert(23 + j + 1 == 23 + k);
        assert(d * pow2(24 + k) == (2 * d) * pow2(24 + j)) by (nonlinear_arith)
            requires
                pow2(24 + k) == 2 * pow2(24 + j),
        ;
        assert(d * pow2(23 + k) == (2 * d) * pow2(23 + j)) by (nonlinear_arith)
            requires
                pow2(23 + k) == 2 * pow2(23 + j),
        ;
        lemma_grid_exponent_is(n, 2 * d, j);
        if 24 < 23 + k {
            lemma_pow2_strictly_increases(24, (23 + k) as nat);
        }
        assert(pow2(24) <= pow2((23 + k) as nat));
        lemma_mul_inequality(pow2(24) as int, pow2((23 + k) as nat) as int, d as int);
        lemma_mul_is_commutative(pow2(24) as int, d as int);
        lemma_mul_is_commutative(pow2((23 + k) as nat) as int, d as int);
        assert(n >= d * pow2(24));
    }
}

/// Every positive rational lies in the binade of its `grid_exponent`.
pub proof fn lemma_grid_exponent_bounds(n: nat, d: nat)
    requires
        d > 0,
    ensures
        n < d * pow2(24 + grid_exponent(n, d)),
        grid_exponent(n, d) > 0 ==> n >= d * pow2((23 + grid_exponent(n, d)) as nat),
    decreases n / d,
{
    if n < d * pow2(24) {
    } else {
        lemma_grid_exponent_decreases(n, d);
        lemma_grid_exponent_bounds(n, 2 * d);
        let j = grid_exponent(n, 2 * d);
        lemma_pow2_step(24 + j);
        lemma_pow2_step(23 + j);
        assert(d * pow2(24 + j + 1) == (2 * d) * pow2(24 + j)) by (nonlinear_arith)
            requires
                pow2(24 + j + 1) == 2 * pow2(24 + j),
        ;
        assert(d * pow2(23 + j + 1) == (2 * d) * pow2(23 + j)) by (nonlinear_arith)
            requires
                pow2(23 + j + 1) == 2 * pow2(23 + j),
        ;
        assert(24 + j + 1 == 24 + grid_exponent(n, d));
        assert(23 + j + 1 == 23 + grid_exponent(n, d));
        if j == 0 {
            assert(pow2(23 + j + 1) == pow2(24));
        }
    }
}

/// Scaling numerator and denominator alike does not move the nearest integer.
pub proof fn lemma_nearest_even_scaled(n: nat, d: nat, c: nat)
    requires
        d > 0,
        c > 0,
    ensures
        nearest_even(n * c, d * c) == nearest_even(n, d),
{
    let q = n / d;
    let r = n % d;
    lemma_fundamental_div_mod(n as int, d as int);
    assert(n * c == q * (d * c) + r * c && r * c < d * c && d * c > 0) by (nonlinear_arith)
        requires
            n == d * q + r,
            r < d,
            c > 0,
            d > 0,
    ;
    lemma_fundamental_div_mod_converse((n * c) as int, (d * c) as int, q as int, (r * c) as int);
    assert((2 * (r * c) < d * c) == (2 * r < d) && (2 * (r * c) > d * c) == (2 * r > d))
        by (nonlinear_arith)
        requires
            c > 0,
    ;
}

/// An exact multiple is its own nearest integer.
pub proof fn lemma_nearest_even_exact(q: nat, d: nat)
    requires
        d > 0,
    ensures
        nearest_even(q * d, d) == q,
{
    lemma_fundamental_div_mod_converse((q * d) as int, d as int, q as int, 0);
}

/// Rounding depends on the ratio alone.
pub proof fn lemma_round_mag_scaled(n: nat, d: nat, c: nat)
    requires
        d > 0,
        c > 0,
    ensures
        round_mag(n * c, d * c) == round_mag(n, d),
{
    let k = grid_exponent(n, d);
    lemma_grid_exponent_bounds(n, d);
    assert(d * c > 0) by (nonlinear_arith)
        requires
            d > 0,
            c > 0,
    ;
    let hi = pow2(24 + k);
    let lo = pow2((23 + k) as nat);
    assert(n * c < (d * c) * hi) by (nonlinear_arith)
        requires
            n < d * hi,
            c > 0,
    ;
    if k > 0 {
        assert(n * c >= (d * c) * lo) by (nonlinear_arith)
            requires
                n >= d * lo,
                c > 0,
        ;
    }
    lemma_grid_exponent_is(n * c, d * c, k);
    lemma_pow2_pos(k);
    assert(d * pow2(k) > 0) by (nonlinear_arith)
        requires
            d > 0,
            pow2(k) > 0,
    ;
    lemma_nearest_even_scaled(n, d * pow2(k), c);
    assert((d * c) * pow2(k) == (d * pow2(k)) * c) by (nonlinear_arith);
}

/// The fields of a magnitude put together again.
pub proof fn lemma_fields(mag: nat)
    ensures
        mag == exponent(mag) * FIELD as nat + significand(mag),
        significand(mag) < 2 * FIELD,
        exponent(mag) > 0 ==> significand(mag) >= FIELD,
        mag < INFINITE ==> exponent(mag) <= 253,
{
}

/// A finite magnitude is its own rounding.
pub proof fn lemma_round_mag_exact(mag: nat)
    requires
        mag < INFINITE,
    ensures
        round_mag(units(mag), 1) == mag,
{
    let k = exponent(mag);
    let q = significand(mag);
    lemma_fields(mag);
    lemma2_to64();
    lemma_pow2_pos(k);
    lemma_pow2_adds(24, k);
    lemma_pow2_adds(23, k);
    assert(q * pow2(k) < pow2(24) * pow2(k)) by (nonlinear_arith)
        requires
            q < pow2(24),
            pow2(k) > 0,
    ;
    if k > 0 {
        assert(q * pow2(k) >= pow2(23) * pow2(k)) by (nonlinear_arith)
            requires
                q >= pow2(23),
        ;
    }
    assert(1 * pow2(24 + k) == pow2(24 + k));
    assert(1 * pow2((23 + k) as nat) == pow2((23 + k) as nat));
    lemma_grid_exponent_is(units(mag), 1, k);
    lemma_nearest_even_exact(q, pow2(k));
}

/// A summand far below the last place of a normal magnitude is absorbed by rounding.
pub proof fn lemma_absorbed(mag: nat, tiny: nat, add: bool)
    requires
        FIELD <= mag < INFINITE,
        exponent(mag) >= 42,
        tiny < pow2((exponent(mag) - 41) as nat),
    ensures
        round_mag((if add { units(mag) + tiny } else { (units(mag) - tiny) as nat }), 1) == mag,
        tiny < units(mag),
{
    let k = exponent(mag);
    let q = significand(mag);
    let p = pow2(k);
    lemma_fields(mag);
    lemma2_to64();
    lemma2_to64_rest();
    lemma_pow2_pos(k);
    lemma_pow2_adds((k - 41) as nat, 41);
    lemma_pow2_pos((k - 41) as nat);
    assert(4 * tiny < p) by (nonlinear_arith)
        requires
            tiny < pow2((k - 41) as nat),
            p == pow2((k - 41) as nat) * pow2(41),
            pow2(41) == 0x200_0000_0000,
    ;
    lemma_pow2_adds(24, k);
    lemma_pow2_adds(23, k);
    assert(1 * pow2(24 + k) == pow2(24 + k));
    assert(1 * pow2((23 + k) as nat) == pow2((23 + k) as nat));
    assert(q * p >= pow2(23) * p) by (nonlinear_arith)
        requires
            q >= pow2(23),
    ;
    if tiny == 0 {
        lemma_round_mag_exact(mag);
    } else if add {
        let n = units(mag) + tiny;
        assert(n < pow2(24) * p) by (nonlinear_arith)
            requires
                n == q * p + tiny,
                tiny < p,
                q + 1 <= pow2(24),
        ;
        lemma_grid_exponent_is(n, 1, k);
        lemma_fundamental_div_mod_converse(n as int, p as int, q as int, tiny as int);
    } else if q > FIELD {
        let n = (units(mag) - tiny) as nat;
        assert(n >= pow2(23) * p && n == (q - 1) * p + (p - tiny)) by (nonlinear_arith)
            requires
                n == q * p - tiny,
                tiny < p,
                q >= pow2(23) + 1,
        ;
        assert(n < pow2(24) * p) by (nonlinear_arith)
            requires
                n < q * p,
                q <= pow2(24),
                p > 0,
        ;
        lemma_grid_exponent_is(n, 1, k);
        lemma_fundamental_div_mod_converse(n as int, p as int, q - 1, p - tiny);
    } else {
        let n = (units(mag) - tiny) as nat;
        let h: nat = (k - 1) as nat;
        lemma_pow2_step(h);
        let p2 = pow2(h);
        assert(p == 2 * p2);
        lemma_pow2_adds(24, h);
        lemma_pow2_adds(23, h);
        assert(1 * pow2(24 + h) == pow2(24 + h));
        assert(1 * pow2((23 + h) as nat) == pow2((23 + h) as nat));
        let top: nat = 0x1000000;
        assert(n == (top - 1) * p2 + (p2 - tiny) && n < pow2(24) * p2 && n >= pow2(23) * p2)
            by (nonlinear_arith)
            requires
                n == q * p - tiny,
                q == 0x800000,
                p == 2 * p2,
                2 * tiny < p2,
                tiny > 0,
                top == 0x1000000,
                pow2(24) == 0x1000000,
                pow2(23) == 0x800000,
        ;
        lemma_grid_exponent_is(n, 1, h);
        lemma_fundamental_div_mod_converse(n as int, p2 as int, top - 1, p2 - tiny);
    }
}

} // verus!
