//! 32-bit binary floating-point numbers, kept as their encodings.
//!
//! The world's quantities (masses, temperatures, flows) are single-precision numbers. This
//! module computes with them on integers: each operation is stated as the exact result
//! rounded to the nearest representable value, ties to even.
use crate::rounding;
use crate::rounding::FIELD;
use crate::rounding::INFINITE;
use vstd::arithmetic::div_mod::*;
use vstd::arithmetic::power2::*;
use vstd::prelude::*;

verus! {

/// The sign bit.
pub const SIGN: u32 = 0x8000_0000;

/// The encoding of the canonical not-a-number.
pub const NAN_BITS: u32 = 0x7fc0_0000;

/// A single-precision number, given by its 32-bit encoding.
#[derive(Clone, Copy, Debug)]
pub struct F32 {
    pub bits: u32,
}

/// The number with the given encoding.
pub open spec fn spec_num(bits: u32) -> F32 {
    F32 { bits }
}

/// The number with the given encoding.
#[verifier::when_used_as_spec(spec_num)]
pub fn num(bits: u32) -> (x: F32)
    ensures
        x == spec_num(bits),
{
    F32 { bits }
}

/// The number with the given sign and magnitude.
pub open spec fn with_sign(negative: bool, mag: nat) -> F32 {
    F32 {
        bits: (if negative {
            SIGN + mag
        } else {
            mag as int
        }) as u32,
    }
}

/// The integer `v`, cut off at the bounds.
pub open spec fn saturate(v: int, lo: int, hi: int) -> int {
    if v < lo {
        lo
    } else if v > hi {
        hi
    } else {
        v
    }
}

/// The number with the given sign and magnitude.
fn signed(negative: bool, mag: u32) -> (r: F32)
    requires
        mag < SIGN,
    ensures
        r == with_sign(negative, mag as nat),
{
    if negative {
        F32 { bits: SIGN + mag }
    } else {
        F32 { bits: mag }
    }
}

/// The scale of a magnitude's significand.
fn exponent_of(mag: u32) -> (k: u32)
    ensures
        k == rounding::exponent(mag as nat),
        k <= 511,
{
    if mag < FIELD {
        0
    } else {
        mag / FIELD - 1
    }
}

/// The significand of a magnitude.
fn significand_of(mag: u32) -> (q: u32)
    ensures
        q == rounding::significand(mag as nat),
        q < 0x0100_0000,
{
    if mag < FIELD {
        mag
    } else {
        FIELD + mag % FIELD
    }
}

/// The numerator of `m * 2^e` units.
pub open spec fn scaled_num(m: nat, e: int) -> nat {
    if e >= 0 {
        m * pow2(e as nat)
    } else {
        m
    }
}

/// The denominator of `m * 2^e` units.
pub open spec fn scaled_den(e: int) -> nat {
    if e >= 0 {
        1
    } else {
        pow2((-e) as nat)
    }
}

proof fn lemma_pow2_126()
    ensures
        pow2(126) == 0x4000_0000_0000_0000_0000_0000_0000_0000,
        pow2(127) == 0x8000_0000_0000_0000_0000_0000_0000_0000,
{
    lemma2_to64();
    lemma2_to64_rest();
    lemma_pow2_adds(63, 63);
    rounding::lemma_pow2_step(126);
    assert(0x8000_0000_0000_0000 * 0x8000_0000_0000_0000
        == 0x4000_0000_0000_0000_0000_0000_0000_0000) by (nonlinear_arith);
}

proof fn lemma_pow2_monotone(a: nat, b: nat)
    requires
        a <= b,
    ensures
        0 < pow2(a) <= pow2(b),
{
    lemma_pow2_pos(a);
    if a < b {
        lemma_pow2_strictly_increases(a, b);
    }
}

proof fn lemma_small_u128(v: int)
    requires
        -0x1_0000_0000 <= v <= 0x1_0000_0000,
    ensures
        v < 0 ==> -v < pow2(126),
        v < pow2(126),
{
    lemma_pow2_126();
}

/// Two to the power of `t`.
fn power(t: u32) -> (p: u128)
    requires
        t <= 127,
    ensures
        p == pow2(t as nat),
{
    let mut p: u128 = 1;
    let mut i: u32 = 0;
    proof {
        lemma2_to64();
    }
    while i < t
        invariant
            i <= t <= 127,
            p == pow2(i as nat),
        decreases t - i,
    {
        proof {
            rounding::lemma_pow2_step(i as nat);
            lemma_pow2_126();
            lemma_pow2_monotone(i as nat + 1, 127);
        }
        p = p * 2;
        i = i + 1;
    }
    p
}

/// The number of binary digits of `m`.
fn bit_length(m: u128) -> (n: u32)
    requires
        m < pow2(126),
    ensures
        n <= 126,
        m < pow2(n as nat),
        n > 0 ==> m >= pow2((n - 1) as nat),
{
    let mut p: u128 = 1;
    let mut n: u32 = 0;
    proof {
        lemma2_to64();
    }
    while p <= m
        invariant
            m < pow2(126),
            n <= 126,
            p == pow2(n as nat),
            n > 0 ==> m >= pow2((n - 1) as nat),
        decreases 126 - n,
    {
        proof {
            lemma_pow2_126();
            rounding::lemma_pow2_step(n as nat);
            if n >= 126 {
                lemma_pow2_monotone(126, n as nat);
            }
        }
        p = p * 2;
        n = n + 1;
    }
    n
}

/// The quotient of `m` and `2^t`, rounded to the nearest integer, ties to even.
fn shift_nearest(m: u128, t: u32) -> (q: u128)
    requires
        m < pow2(126),
        0 < t <= 600,
    ensures
        q == rounding::nearest_even(m as nat, pow2(t as nat)),
{
    if t > 126 {
        proof {
            rounding::lemma_pow2_step((t - 1) as nat);
            lemma_pow2_monotone(126, (t - 1) as nat);
            lemma_fundamental_div_mod_converse(m as int, pow2(t as nat) as int, 0, m as int);
        }
        return 0;
    }
    let p: u128 = power(t);
    proof {
        lemma_pow2_126();
        lemma_pow2_monotone(t as nat, 126);
        lemma_pow2_monotone(1, t as nat);
        lemma2_to64();
    }
    let q: u128 = m / p;
    let r: u128 = m % p;
    assert(q <= m) by (nonlinear_arith)
        requires
            q == m / p,
            p >= 1,
    ;
    if 2 * r < p {
        q
    } else if 2 * r > p {
        q + 1
    } else if q % 2 == 0 {
        q
    } else {
        q + 1
    }
}

/// The encoding of `k * 2^23 + q`, or infinity.
fn pack(negative: bool, k: u32, q: u128) -> (r: F32)
    requires
        k <= 700,
        q <= 0x0100_0000,
    ensures
        r == with_sign(
            negative,
            if k * FIELD + q < INFINITE {
                (k * FIELD + q) as nat
            } else {
                INFINITE as nat
            },
        ),
{
    assert(0 <= k * FIELD <= 700 * 0x0080_0000) by (nonlinear_arith)
        requires
            0 <= k <= 700,
            FIELD == 0x0080_0000,
    ;
    let mag: u64 = k as u64 * FIELD as u64 + q as u64;
    if mag < INFINITE as u64 {
        signed(negative, mag as u32)
    } else {
        signed(negative, INFINITE)
    }
}

proof fn lemma_round_zero(d: nat)
    requires
        d > 0,
    ensures
        rounding::round_mag(0, d) == 0,
{
    lemma2_to64();
    assert(0 < d * pow2(24)) by (nonlinear_arith)
        requires
            d > 0,
            pow2(24) > 0,
    ;
    assert(rounding::grid_exponent(0, d) == 0);
    rounding::lemma_nearest_even_exact(0, d);
    assert(d * pow2(0) == d) by (nonlinear_arith)
        requires
            pow2(0) == 1,
    ;
}

/// What rounding `m * 2^e` comes to once the right shift `t` is known.
proof fn lemma_round_pack(m: nat, e: int, t: int, len: nat)
    requires
        m > 0,
        len > 0,
        m < pow2(len),
        m >= pow2((len - 1) as nat),
        t == (if len - 24 > -e {
            len - 24
        } else {
            -e
        }),
    ensures
        t + e >= 0,
        t <= 0 ==> rounding::round_mag(scaled_num(m, e), scaled_den(e)) == ({
            let mag = (t + e) as nat * FIELD as nat + m * pow2((-t) as nat);
            if mag < INFINITE {
                mag
            } else {
                INFINITE as nat
            }
        }),
        t > 0 ==> rounding::round_mag(scaled_num(m, e), scaled_den(e)) == ({
            let mag = (t + e) as nat * FIELD as nat + rounding::nearest_even(m, pow2(t as nat));
            if mag < INFINITE {
                mag
            } else {
                INFINITE as nat
            }
        }),
        t <= 0 ==> m * pow2((-t) as nat) < 0x0100_0000,
        t > 0 ==> m < pow2((24 + t) as nat),
{
    let k: nat = (t + e) as nat;
    let n = scaled_num(m, e);
    let d = scaled_den(e);
    lemma_pow2_monotone(len, (24 + t) as nat);
    assert(m < pow2((24 + t) as nat));
    if e >= 0 {
        let c = pow2(e as nat);
        lemma_pow2_pos(e as nat);
        lemma_pow2_adds((24 + t) as nat, e as nat);
        assert((24 + t) as nat + e as nat == 24 + k);
        assert(m * c < pow2((24 + t) as nat) * c) by (nonlinear_arith)
            requires
                m < pow2((24 + t) as nat),
                c > 0,
        ;
        if k > 0 {
            assert(23 + t == len - 1);
            lemma_pow2_adds((23 + t) as nat, e as nat);
            assert((23 + t) as nat + e as nat == 23 + k);
            assert(m * c >= pow2((23 + t) as nat) * c) by (nonlinear_arith)
                requires
                    m >= pow2((23 + t) as nat),
            ;
        }
        rounding::lemma_grid_exponent_is(n, d, k);
        lemma_pow2_pos(k);
        if t <= 0 {
            lemma_pow2_adds((-t) as nat, k);
            assert((-t) as nat + k == e as nat);
            assert(n == (m * pow2((-t) as nat)) * pow2(k)) by (nonlinear_arith)
                requires
                    n == m * c,
                    c == pow2((-t) as nat) * pow2(k),
            ;
            rounding::lemma_nearest_even_exact(m * pow2((-t) as nat), pow2(k));
        } else {
            lemma_pow2_adds(t as nat, e as nat);
            lemma_pow2_pos(t as nat);
            rounding::lemma_nearest_even_scaled(m, pow2(t as nat), c);
        }
    } else {
        lemma_pow2_pos((-e) as nat);
        lemma_pow2_adds((-e) as nat, 24 + k);
        assert((-e) as nat + (24 + k) == (24 + t) as nat);
        if k > 0 {
            assert(23 + t == len - 1);
            lemma_pow2_adds((-e) as nat, (23 + k) as nat);
            assert((-e) as nat + (23 + k) as nat == (23 + t) as nat);
        }
        rounding::lemma_grid_exponent_is(n, d, k);
        lemma_pow2_adds((-e) as nat, k);
        assert((-e) as nat + k == t as nat);
    }
    if t <= 0 {
        lemma_pow2_adds((24 + t) as nat, (-t) as nat);
        lemma_pow2_pos((-t) as nat);
        lemma2_to64();
        assert((24 + t) as nat + (-t) as nat == 24);
        assert(m * pow2((-t) as nat) < pow2((24 + t) as nat) * pow2((-t) as nat))
            by (nonlinear_arith)
            requires
                m < pow2((24 + t) as nat),
                pow2((-t) as nat) > 0,
        ;
    }
}

proof fn lemma_nearest_even_bound(m: nat, t: nat)
    requires
        m < pow2(24 + t),
    ensures
        rounding::nearest_even(m, pow2(t)) <= 0x0100_0000,
{
    lemma_pow2_pos(t);
    lemma_pow2_adds(24, t);
    lemma2_to64();
    let p = pow2(t);
    assert(m / p < 0x0100_0000) by (nonlinear_arith)
        requires
            m < 0x0100_0000 * p,
            p > 0,
    ;
}

/// `m * 2^e` units, rounded.
fn round_pack(negative: bool, m: u128, e: i32) -> (r: F32)
    requires
        m < pow2(126),
        -500 <= e <= 500,
    ensures
        r == with_sign(
            negative,
            rounding::round_mag(scaled_num(m as nat, e as int), scaled_den(e as int)),
        ),
{
    if m == 0 {
        proof {
            lemma_pow2_pos((-e) as nat);
            lemma_round_zero(scaled_den(e as int));
            assert(0 * pow2(e as nat) == 0);
        }
        return signed(negative, 0);
    }
    let len: u32 = bit_length(m);
    proof {
        lemma2_to64();
        assert(len > 0);
    }
    let t: i32 = if len as i32 - 24 > -e {
        len as i32 - 24
    } else {
        -e
    };
    proof {
        lemma_round_pack(m as nat, e as int, t as int, len as nat);
    }
    let k: u32 = (t + e) as u32;
    if t <= 0 {
        let p: u128 = power((-t) as u32);
        assert(m * p < 0x0100_0000);
        let q: u128 = m * p;
        pack(negative, k, q)
    } else {
        let q: u128 = shift_nearest(m, t as u32);
        proof {
            lemma_nearest_even_bound(m as nat, t as nat);
        }
        pack(negative, k, q)
    }
}

/// The sum of two finite numbers, the first of at least the second's scale.
fn add_finite(x: F32, y: F32) -> (r: F32)
    requires
        x.is_finite(),
        y.is_finite(),
        rounding::exponent(x.mag() as nat) >= rounding::exponent(y.mag() as nat),
    ensures
        r == x.spec_plus(y),
        r == y.spec_plus(x),
{
    proof {
        reveal(F32::spec_plus);
    }
    let kx: u32 = exponent_of(x.mag());
    let ky: u32 = exponent_of(y.mag());
    let qx: u32 = significand_of(x.mag());
    let qy: u32 = significand_of(y.mag());
    let gap: u32 = kx - ky;
    proof {
        rounding::lemma_fields(x.mag() as nat);
        rounding::lemma_fields(y.mag() as nat);
    }
    if gap > 66 {
        proof {
            lemma_add_absorbed(x, y);
        }
        return x;
    }
    let p: u128 = power(gap);
    let ghost c = pow2(ky as nat);
    proof {
        lemma2_to64();
        lemma2_to64_rest();
        lemma_pow2_monotone(gap as nat, 66);
        lemma_pow2_adds(64, 2);
        lemma_pow2_126();
        assert(0 <= qx * p < 0x1000_0000_0000_0000_0000_0000_0000) by (nonlinear_arith)
            requires
                0 <= qx < 0x0100_0000,
                0 <= p <= 0x4_0000_0000_0000_0000,
        ;
        lemma_pow2_adds(gap as nat, ky as nat);
        lemma_pow2_pos(ky as nat);
        assert(rounding::units(x.mag() as nat) == (qx * p) * c) by (nonlinear_arith)
            requires
                rounding::units(x.mag() as nat) == qx * pow2(kx as nat),
                pow2(kx as nat) == p * c,
        ;
    }
    let a: u128 = qx as u128 * p;
    let b: u128 = qy as u128;
    let ghost v = x.value() + y.value();
    if x.is_negative() == y.is_negative() {
        proof {
            assert((a + b) * c == a * c + b * c) by (nonlinear_arith);
            if a + b > 0 {
                assert((a + b) * c > 0) by (nonlinear_arith)
                    requires
                        a + b > 0,
                        c > 0,
                ;
            } else {
                lemma_round_zero(1);
                assert((a + b) * c == 0) by (nonlinear_arith)
                    requires
                        a + b == 0,
                ;
            }
        }
        round_pack(x.is_negative(), a + b, ky as i32)
    } else if a == b {
        proof {
            assert(v == 0);
        }
        signed(false, 0)
    } else if a > b {
        proof {
            assert((a - b) * c == a * c - b * c) by (nonlinear_arith);
            assert((a - b) * c > 0) by (nonlinear_arith)
                requires
                    a > b,
                    c > 0,
            ;
        }
        round_pack(x.is_negative(), a - b, ky as i32)
    } else {
        proof {
            assert((b - a) * c == b * c - a * c) by (nonlinear_arith);
            assert((b - a) * c > 0) by (nonlinear_arith)
                requires
                    b > a,
                    c > 0,
            ;
        }
        round_pack(y.is_negative(), b - a, ky as i32)
    }
}

proof fn lemma_add_absorbed(x: F32, y: F32)
    requires
        x.is_finite(),
        y.is_finite(),
        rounding::exponent(x.mag() as nat) > rounding::exponent(y.mag() as nat) + 66,
    ensures
        x.spec_plus(y) == x,
        y.spec_plus(x) == x,
{
    reveal(F32::spec_plus);
    let mx = x.mag() as nat;
    let my = y.mag() as nat;
    let kx = rounding::exponent(mx);
    let ky = rounding::exponent(my);
    let tiny = rounding::units(my);
    rounding::lemma_fields(mx);
    rounding::lemma_fields(my);
    lemma2_to64();
    lemma_pow2_pos(ky);
    lemma_pow2_adds(24, ky);
    assert(tiny < pow2(24) * pow2(ky)) by (nonlinear_arith)
        requires
            tiny == rounding::significand(my) * pow2(ky),
            rounding::significand(my) < pow2(24),
            pow2(ky) > 0,
    ;
    lemma_pow2_monotone(24 + ky, (kx - 41) as nat);
    rounding::lemma_absorbed(mx, tiny, true);
    rounding::lemma_absorbed(mx, tiny, false);
    let v = x.value() + y.value();
    if x.is_negative() == y.is_negative() {
        assert(v == if x.is_negative() {
            -(rounding::units(mx) + tiny)
        } else {
            (rounding::units(mx) + tiny) as int
        });
    } else {
        assert(v == if x.is_negative() {
            -(rounding::units(mx) - tiny)
        } else {
            rounding::units(mx) - tiny
        });
    }
}

/// The product of two finite magnitudes, signed.
fn mul_finite(negative: bool, x: u32, y: u32) -> (r: F32)
    requires
        x < INFINITE,
        y < INFINITE,
    ensures
        r == with_sign(
            negative,
            rounding::round_mag(
                rounding::units(x as nat) * rounding::units(y as nat),
                pow2(149),
            ),
        ),
{
    let kx: u32 = exponent_of(x);
    let ky: u32 = exponent_of(y);
    let qx: u32 = significand_of(x);
    let qy: u32 = significand_of(y);
    assert(qx * qy < 0x1_0000_0000_0000) by (nonlinear_arith)
        requires
            qx < 0x0100_0000,
            qy < 0x0100_0000,
    ;
    let m: u128 = qx as u128 * qy as u128;
    let e: i32 = kx as i32 + ky as i32 - 149;
    proof {
        lemma_pow2_126();
        let n = rounding::units(x as nat) * rounding::units(y as nat);
        let c = pow2((kx + ky) as nat);
        lemma_pow2_adds(kx as nat, ky as nat);
        assert(n == m * c) by (nonlinear_arith)
            requires
                n == (qx * pow2(kx as nat)) * (qy * pow2(ky as nat)),
                m == qx * qy,
                c == pow2(kx as nat) * pow2(ky as nat),
        ;
        lemma_pow2_pos(149);
        lemma_pow2_pos((kx + ky) as nat);
        if e >= 0 {
            lemma_pow2_adds(e as nat, 149);
            assert(n == (m * pow2(e as nat)) * pow2(149)) by (nonlinear_arith)
                requires
                    n == m * c,
                    c == pow2(e as nat) * pow2(149),
            ;
            rounding::lemma_round_mag_scaled((m * pow2(e as nat)) as nat, 1, pow2(149));
        } else {
            lemma_pow2_adds((-e) as nat, (kx + ky) as nat);
            lemma_pow2_pos((-e) as nat);
            rounding::lemma_round_mag_scaled(m as nat, pow2((-e) as nat), c);
        }
    }
    round_pack(negative, m, e)
}

/// What a rounded quotient comes to: `a / b` is `n / (d * 2^k)`.
proof fn lemma_quotient(n: nat, d: nat, k: nat, a: nat, b: nat, c: nat)
    requires
        d > 0,
        b > 0,
        c > 0,
        n == a * c,
        d * pow2(k) == b * c,
        a < b * 0x0100_0000,
        k > 0 ==> a >= b * 0x0080_0000,
    ensures
        rounding::round_mag(n, d) == ({
            let mag = k * FIELD as nat + rounding::nearest_even(a, b);
            if mag < INFINITE {
                mag
            } else {
                INFINITE as nat
            }
        }),
        rounding::nearest_even(a, b) <= 0x0100_0000,
{
    lemma2_to64();
    lemma_pow2_adds(24, k);
    lemma_pow2_adds(23, k);
    assert(n < d * pow2(24 + k)) by (nonlinear_arith)
        requires
            n == a * c,
            d * pow2(k) == b * c,
            a < b * 0x0100_0000,
            c > 0,
            pow2(24 + k) == 0x0100_0000 * pow2(k),
    ;
    if k > 0 {
        assert(n >= d * pow2((23 + k) as nat)) by (nonlinear_arith)
            requires
                n == a * c,
                d * pow2(k) == b * c,
                a >= b * 0x0080_0000,
                pow2((23 + k) as nat) == 0x0080_0000 * pow2(k),
        ;
    }
    rounding::lemma_grid_exponent_is(n, d, k);
    rounding::lemma_nearest_even_scaled(a, b, c);
    assert(a / b < 0x0100_0000) by (nonlinear_arith)
        requires
            a < b * 0x0100_0000,
            b > 0,
    ;
}

/// The quotient of two finite magnitudes, signed.
fn div_finite(negative: bool, x: u32, y: u32) -> (r: F32)
    requires
        x < INFINITE,
        0 < y < INFINITE,
    ensures
        r == with_sign(
            negative,
            rounding::round_mag(
                rounding::units(x as nat) * pow2(149),
                rounding::units(y as nat),
            ),
        ),
{
    let kx: u32 = exponent_of(x);
    let ky: u32 = exponent_of(y);
    let qx: u32 = significand_of(x);
    let qy: u32 = significand_of(y);
    let ghost n = rounding::units(x as nat) * pow2(149);
    let ghost d = rounding::units(y as nat);
    proof {
        rounding::lemma_fields(x as nat);
        rounding::lemma_fields(y as nat);
        lemma_pow2_pos(ky as nat);
        assert(d > 0) by (nonlinear_arith)
            requires
                d == qy * pow2(ky as nat),
                qy > 0,
                pow2(ky as nat) > 0,
        ;
    }
    if qx == 0 {
        proof {
            assert(n == 0) by (nonlinear_arith)
                requires
                    n == (qx * pow2(kx as nat)) * pow2(149),
                    qx == 0,
            ;
            lemma_round_zero(d);
        }
        return signed(negative, 0);
    }
    let w: i32 = kx as i32 + 149 - ky as i32;
    proof {
        lemma_pow2_adds(kx as nat, 149);
        assert(n == qx * pow2((kx + 149) as nat)) by (nonlinear_arith)
            requires
                n == (qx * pow2(kx as nat)) * pow2(149),
                pow2((kx + 149) as nat) == pow2(kx as nat) * pow2(149),
        ;
    }
    if w < 0 {
        let s: u32 = (-w) as u32;
        if s > 102 {
            proof {
                // The exponents of finite magnitudes lie in 0..=253.
                assert(s <= 104);
                lemma_pow2_adds(s as nat, (kx + 149) as nat);
                lemma_pow2_pos((kx + 149) as nat);
                lemma_pow2_pos(s as nat);
                lemma2_to64();
                lemma2_to64_rest();
                lemma_pow2_monotone(63, s as nat);
                let b = (qy * pow2(s as nat)) as nat;
                assert(b >= 0x8000_0000_0000_0000) by (nonlinear_arith)
                    requires
                        b == qy * pow2(s as nat),
                        qy >= 1,
                        pow2(s as nat) >= 0x8000_0000_0000_0000,
                ;
                assert(d * pow2(0) == b * pow2((kx + 149) as nat)) by (nonlinear_arith)
                    requires
                        d == qy * pow2(ky as nat),
                        pow2(0) == 1,
                        b == qy * pow2(s as nat),
                        pow2(ky as nat) == pow2(s as nat) * pow2((kx + 149) as nat),
                ;
                lemma_quotient(n, d, 0, qx as nat, b, pow2((kx + 149) as nat));
                lemma_fundamental_div_mod_converse(qx as int, b as int, 0, qx as int);
            }
            return signed(negative, 0);
        }
        let p: u128 = power(s);
        proof {
            lemma_pow2_monotone(s as nat, 102);
            lemma_pow2_126();
            lemma_pow2_adds(24, 102);
            lemma2_to64();
            assert(0 < qy * p < 0x4000_0000_0000_0000_0000_0000_0000_0000) by (nonlinear_arith)
                requires
                    0 < qy < 0x0100_0000,
                    0 < p <= pow2(102),
                    0x0100_0000 * pow2(102) == 0x4000_0000_0000_0000_0000_0000_0000_0000,
            ;
            lemma_pow2_adds(s as nat, (kx + 149) as nat);
            lemma_pow2_pos((kx + 149) as nat);
            assert(d * pow2(0) == (qy * p) * pow2((kx + 149) as nat)) by (nonlinear_arith)
                requires
                    d == qy * pow2(ky as nat),
                    pow2(0) == 1,
                    pow2(ky as nat) == p * pow2((kx + 149) as nat),
            ;
            assert(qx < (qy * p) * 0x0100_0000) by (nonlinear_arith)
                requires
                    qx < 0x0100_0000,
                    qy * p >= 1,
            ;
            lemma_quotient(n, d, 0, qx as nat, (qy * p) as nat, pow2((kx + 149) as nat));
        }
        let b: u128 = qy as u128 * p;
        let q: u128 = divide_nearest(qx as u128, b);
        pack(negative, 0, q)
    } else {
        let top: u64 = qy as u64 * 0x0100_0000;
        let mut a: u64 = qx as u64;
        let mut t: u32 = 0;
        proof {
            lemma2_to64();
        }
        while t < w as u32 && 2 * a < top
            invariant
                t <= w,
                0 <= w <= 402,
                qx <= a < top,
                top == qy * 0x0100_0000,
                0 < qy < 0x0100_0000,
                a == qx * pow2(t as nat),
            decreases w - t,
        {
            proof {
                rounding::lemma_pow2_step(t as nat);
                assert(2 * a == qx * pow2((t + 1) as nat)) by (nonlinear_arith)
                    requires
                        a == qx * pow2(t as nat),
                        pow2((t + 1) as nat) == 2 * pow2(t as nat),
                ;
            }
            a = a * 2;
            t = t + 1;
        }
        let k: u32 = w as u32 - t;
        proof {
            // n / (d * 2^k) is a / qy, both scaled by 2^(ky + k).
            let c = pow2((ky + k) as nat);
            lemma_pow2_adds(ky as nat, k as nat);
            lemma_pow2_pos((ky + k) as nat);
            lemma_pow2_adds(t as nat, (ky + k) as nat);
            assert(t as nat + (ky + k) as nat == (kx + 149) as nat);
            assert(n == a * c) by (nonlinear_arith)
                requires
                    n == qx * pow2((kx + 149) as nat),
                    pow2((kx + 149) as nat) == pow2(t as nat) * c,
                    a == qx * pow2(t as nat),
            ;
            assert(d * pow2(k as nat) == qy * c) by (nonlinear_arith)
                requires
                    d == qy * pow2(ky as nat),
                    c == pow2(ky as nat) * pow2(k as nat),
            ;
            lemma_quotient(n, d, k as nat, a as nat, qy as nat, c);
            lemma_pow2_126();
        }
        let q: u128 = divide_nearest(a as u128, qy as u128);
        pack(negative, k, q)
    }
}

/// `a / b`, rounded to the nearest integer, ties to even.
fn divide_nearest(a: u128, b: u128) -> (q: u128)
    requires
        0 < b < pow2(126),
        a < pow2(126),
    ensures
        q == rounding::nearest_even(a as nat, b as nat),
{
    proof {
        lemma_pow2_126();
    }
    let q: u128 = a / b;
    let r: u128 = a % b;
    assert(q <= a) by (nonlinear_arith)
        requires
            q == a / b,
            b >= 1,
    ;
    if 2 * r < b {
        q
    } else if 2 * r > b {
        q + 1
    } else if q % 2 == 0 {
        q
    } else {
        q + 1
    }
}

/// The integer part of a finite magnitude, or some number past `2^31` where it is at least
/// that.
fn whole_capped(mag: u32) -> (v: u32)
    requires
        mag < INFINITE,
    ensures
        rounding::units(mag as nat) / pow2(149) < SIGN ==> v == rounding::units(mag as nat)
            / pow2(149),
        rounding::units(mag as nat) / pow2(149) >= SIGN ==> v >= SIGN,
{
    let k: u32 = exponent_of(mag);
    let q: u32 = significand_of(mag);
    let ghost n = rounding::units(mag as nat);
    proof {
        rounding::lemma_fields(mag as nat);
        lemma2_to64();
        lemma_pow2_pos(149);
    }
    if k >= 149 {
        let s: u32 = k - 149;
        proof {
            lemma_pow2_adds(s as nat, 149);
            assert(n == (q * pow2(s as nat)) * pow2(149)) by (nonlinear_arith)
                requires
                    n == q * pow2(k as nat),
                    pow2(k as nat) == pow2(s as nat) * pow2(149),
            ;
            lemma_fundamental_div_mod_converse(
                n as int,
                pow2(149) as int,
                q * pow2(s as nat),
                0,
            );
        }
        if s > 8 {
            proof {
                lemma_pow2_monotone(8, s as nat);
                assert(q * pow2(s as nat) >= 0x8000_0000) by (nonlinear_arith)
                    requires
                        q >= 0x0080_0000,
                        pow2(s as nat) >= 256,
                ;
            }
            return SIGN;
        }
        let p: u128 = power(s);
        proof {
            lemma_pow2_monotone(s as nat, 8);
            assert(q * p < 0x1_0000_0000) by (nonlinear_arith)
                requires
                    q < 0x0100_0000,
                    p <= 256,
            ;
        }
        (q as u64 * p as u64) as u32
    } else {
        let s: u32 = 149 - k;
        proof {
            lemma_pow2_adds(s as nat, k as nat);
            lemma_pow2_pos(s as nat);
            lemma_pow2_pos(k as nat);
        }
        if s > 24 {
            proof {
                lemma_pow2_monotone(24, s as nat);
                assert(n < pow2(149)) by (nonlinear_arith)
                    requires
                        n == q * pow2(k as nat),
                        pow2(149) == pow2(s as nat) * pow2(k as nat),
                        q < pow2(s as nat),
                        pow2(k as nat) > 0,
                ;
                lemma_fundamental_div_mod_converse(n as int, pow2(149) as int, 0, n as int);
            }
            return 0;
        }
        let p: u128 = power(s);
        proof {
            lemma_pow2_monotone(s as nat, 24);
            let c = pow2(k as nat);
            let h: int = (q as int) / (p as int);
            let r: int = (q as int) % (p as int);
            vstd::arithmetic::div_mod::lemma_fundamental_div_mod(q as int, p as int);
            assert(n == h * pow2(149) + r * c && 0 <= r * c < pow2(149)) by (nonlinear_arith)
                requires
                    n == q * c,
                    pow2(149) == p * c,
                    q == p * h + r,
                    0 <= r < p,
                    c > 0,
            ;
            lemma_fundamental_div_mod_converse(n as int, pow2(149) as int, h, r * c);
            assert(h <= q) by (nonlinear_arith)
                requires
                    q == p * h + r,
                    r >= 0,
                    p >= 1,
                    h >= 0 || h < 0,
            ;
        }
        q / p as u32
    }
}

/// The integer part of a finite number, with its sign.
fn trunc_finite(x: F32) -> (r: F32)
    requires
        x.is_finite(),
    ensures
        r == x.spec_trunc(),
{
    proof {
        reveal(F32::spec_trunc);
    }
    let mag: u32 = x.mag();
    let k: u32 = exponent_of(mag);
    proof {
        rounding::lemma_fields(mag as nat);
        lemma_pow2_126();
    }
    if k >= 149 {
        proof {
            let n = rounding::units(mag as nat);
            let q = rounding::significand(mag as nat);
            lemma_pow2_pos(149);
            lemma_pow2_adds((k - 149) as nat, 149);
            let h = q * pow2((k - 149) as nat);
            assert(n == h * pow2(149)) by (nonlinear_arith)
                requires
                    n == q * pow2(k as nat),
                    pow2(k as nat) == pow2((k - 149) as nat) * pow2(149),
                    h == q * pow2((k - 149) as nat),
            ;
            lemma_fundamental_div_mod_converse(n as int, pow2(149) as int, h as int, 0);
            rounding::lemma_round_mag_exact(mag as nat);
        }
        return x;
    }
    let v: u32 = whole_capped(mag);
    proof {
        let n = rounding::units(mag as nat);
        let q = rounding::significand(mag as nat);
        lemma_pow2_pos(149);
        lemma_pow2_pos(k as nat);
        lemma_pow2_monotone(k as nat, 148);
        rounding::lemma_pow2_step(148);
        assert(n < 0x0100_0000 * pow2(149)) by (nonlinear_arith)
            requires
                n == q * pow2(k as nat),
                q < 0x0100_0000,
                pow2(k as nat) <= pow2(148),
                pow2(149) == 2 * pow2(148),
                pow2(148) > 0,
        ;
        assert(n / pow2(149) < 0x0100_0000) by (nonlinear_arith)
            requires
                n < 0x0100_0000 * pow2(149),
                pow2(149) > 0,
        ;
    }
    round_pack(x.is_negative(), v as u128, 149)
}

impl F32 {
    pub open spec fn spec_is_negative(self) -> bool {
        self.bits >= SIGN
    }

    /// Whether the sign bit is set.
    #[verifier::when_used_as_spec(spec_is_negative)]
    pub fn is_negative(self) -> (b: bool)
        ensures
            b == self.spec_is_negative(),
    {
        self.bits >= SIGN
    }

    pub open spec fn spec_mag(self) -> u32 {
        if self.bits >= SIGN {
            (self.bits - SIGN) as u32
        } else {
            self.bits
        }
    }

    /// The encoding without its sign bit.
    #[verifier::when_used_as_spec(spec_mag)]
    pub fn mag(self) -> (m: u32)
        ensures
            m == self.spec_mag(),
            m < SIGN,
    {
        if self.bits >= SIGN {
            self.bits - SIGN
        } else {
            self.bits
        }
    }

    pub open spec fn spec_is_nan(self) -> bool {
        self.spec_mag() > INFINITE
    }

    #[verifier::when_used_as_spec(spec_is_nan)]
    pub fn is_nan(self) -> (b: bool)
        ensures
            b == self.spec_is_nan(),
    {
        self.mag() > INFINITE
    }

    pub open spec fn spec_is_infinite(self) -> bool {
        self.spec_mag() == INFINITE
    }

    #[verifier::when_used_as_spec(spec_is_infinite)]
    pub fn is_infinite(self) -> (b: bool)
        ensures
            b == self.spec_is_infinite(),
    {
        self.mag() == INFINITE
    }

    pub open spec fn spec_is_finite(self) -> bool {
        self.spec_mag() < INFINITE
    }

    #[verifier::when_used_as_spec(spec_is_finite)]
    pub fn is_finite(self) -> (b: bool)
        ensures
            b == self.spec_is_finite(),
    {
        self.mag() < INFINITE
    }

    pub open spec fn spec_is_zero(self) -> bool {
        self.spec_mag() == 0
    }

    #[verifier::when_used_as_spec(spec_is_zero)]
    pub fn is_zero(self) -> (b: bool)
        ensures
            b == self.spec_is_zero(),
    {
        self.mag() == 0
    }

    /// The exact value of a finite number, counted in units of `2^-149`.
    pub open spec fn value(self) -> int {
        if self.spec_is_negative() {
            -(rounding::units(self.spec_mag() as nat) as int)
        } else {
            rounding::units(self.spec_mag() as nat) as int
        }
    }

    /// The position of a number that is not NaN in the order of all of them; both zeros are
    /// at 0.
    pub open spec fn rank(self) -> int {
        if self.spec_is_negative() {
            -(self.spec_mag() as int)
        } else {
            self.spec_mag() as int
        }
    }

    pub open spec fn spec_neg(self) -> F32 {
        with_sign(!self.spec_is_negative(), self.spec_mag() as nat)
    }

    /// `-self`.
    #[verifier::when_used_as_spec(spec_neg)]
    pub fn neg(self) -> (r: F32)
        ensures
            r == self.spec_neg(),
    {
        let m: u32 = self.mag();
        if self.is_negative() {
            F32 { bits: m }
        } else {
            F32 { bits: SIGN + m }
        }
    }

    pub open spec fn spec_abs(self) -> F32 {
        F32 { bits: self.spec_mag() }
    }

    /// The magnitude with a plus sign.
    #[verifier::when_used_as_spec(spec_abs)]
    pub fn abs(self) -> (r: F32)
        ensures
            r == self.spec_abs(),
    {
        F32 { bits: self.mag() }
    }

    pub open spec fn spec_lt(self, other: F32) -> bool {
        !self.spec_is_nan() && !other.spec_is_nan() && self.rank() < other.rank()
    }

    /// `self < other`; false with NaN on either side.
    #[verifier::when_used_as_spec(spec_lt)]
    pub fn lt(self, other: F32) -> (b: bool)
        ensures
            b == self.spec_lt(other),
    {
        if self.is_nan() || other.is_nan() {
            return false;
        }
        let a: u32 = self.mag();
        let b: u32 = other.mag();
        if self.is_negative() {
            if other.is_negative() {
                b < a
            } else {
                a > 0 || b > 0
            }
        } else if other.is_negative() {
            false
        } else {
            a < b
        }
    }

    pub open spec fn spec_le(self, other: F32) -> bool {
        !self.spec_is_nan() && !other.spec_is_nan() && self.rank() <= other.rank()
    }

    /// `self <= other`; false with NaN on either side.
    #[verifier::when_used_as_spec(spec_le)]
    pub fn le(self, other: F32) -> (b: bool)
        ensures
            b == self.spec_le(other),
    {
        !self.is_nan() && !other.is_nan() && !other.lt(self)
    }

    pub open spec fn spec_same(self, other: F32) -> bool {
        !self.spec_is_nan() && !other.spec_is_nan() && self.rank() == other.rank()
    }

    /// Numeric equality: both zeros are equal, NaN is equal to nothing.
    #[verifier::when_used_as_spec(spec_same)]
    pub fn same(self, other: F32) -> (b: bool)
        ensures
            b == self.spec_same(other),
    {
        self.le(other) && other.le(self)
    }

    pub open spec fn spec_min(self, other: F32) -> F32 {
        if self.spec_is_nan() || other.spec_lt(self) {
            other
        } else {
            self
        }
    }

    /// The smaller of the two; the other one where one is NaN.
    #[verifier::when_used_as_spec(spec_min)]
    pub fn min(self, other: F32) -> (r: F32)
        ensures
            r == self.spec_min(other),
    {
        if self.is_nan() || other.lt(self) {
            other
        } else {
            self
        }
    }

    pub open spec fn spec_max(self, other: F32) -> F32 {
        if self.spec_is_nan() || self.spec_lt(other) {
            other
        } else {
            self
        }
    }

    /// The larger of the two; the other one where one is NaN.
    #[verifier::when_used_as_spec(spec_max)]
    pub fn max(self, other: F32) -> (r: F32)
        ensures
            r == self.spec_max(other),
    {
        if self.is_nan() || self.lt(other) {
            other
        } else {
            self
        }
    }

    pub open spec fn spec_clamp(self, lo: F32, hi: F32) -> F32 {
        let x = if self.spec_lt(lo) {
            lo
        } else {
            self
        };
        if hi.spec_lt(x) {
            hi
        } else {
            x
        }
    }

    /// `self`, cut off below at `lo` and then above at `hi`; NaN stays.
    #[verifier::when_used_as_spec(spec_clamp)]
    pub fn clamp(self, lo: F32, hi: F32) -> (r: F32)
        ensures
            r == self.spec_clamp(lo, hi),
    {
        let x = if self.lt(lo) {
            lo
        } else {
            self
        };
        if hi.lt(x) {
            hi
        } else {
            x
        }
    }

    #[verifier::opaque]
    pub open spec fn spec_plus(self, other: F32) -> F32 {
        if self.spec_is_nan() || other.spec_is_nan() {
            F32 { bits: NAN_BITS }
        } else if self.spec_is_infinite() {
            if other.spec_is_infinite() && self.spec_is_negative() != other.spec_is_negative() {
                F32 { bits: NAN_BITS }
            } else {
                self
            }
        } else if other.spec_is_infinite() {
            other
        } else {
            let v = self.value() + other.value();
            if v == 0 {
                with_sign(self.spec_is_negative() && other.spec_is_negative(), 0)
            } else if v < 0 {
                with_sign(true, rounding::round_mag((-v) as nat, 1))
            } else {
                with_sign(false, rounding::round_mag(v as nat, 1))
            }
        }
    }

    /// `self + other`, the exact sum rounded.
    #[verifier::when_used_as_spec(spec_plus)]
    pub fn plus(self, other: F32) -> (r: F32)
        ensures
            r == self.spec_plus(other),
    {
        proof {
            reveal(F32::spec_plus);
        }
        if self.is_nan() || other.is_nan() {
            return F32 { bits: NAN_BITS };
        }
        if self.is_infinite() {
            if other.is_infinite() && self.is_negative() != other.is_negative() {
                return F32 { bits: NAN_BITS };
            }
            return self;
        }
        if other.is_infinite() {
            return other;
        }
        if exponent_of(self.mag()) >= exponent_of(other.mag()) {
            add_finite(self, other)
        } else {
            add_finite(other, self)
        }
    }

    pub open spec fn spec_minus(self, other: F32) -> F32 {
        self.spec_plus(other.spec_neg())
    }

    /// `self - other`, the exact difference rounded.
    #[verifier::when_used_as_spec(spec_minus)]
    pub fn minus(self, other: F32) -> (r: F32)
        ensures
            r == self.spec_minus(other),
    {
        self.plus(other.neg())
    }

    #[verifier::opaque]
    pub open spec fn spec_times(self, other: F32) -> F32 {
        let negative = self.spec_is_negative() != other.spec_is_negative();
        if self.spec_is_nan() || other.spec_is_nan() {
            F32 { bits: NAN_BITS }
        } else if self.spec_is_infinite() || other.spec_is_infinite() {
            if self.spec_is_zero() || other.spec_is_zero() {
                F32 { bits: NAN_BITS }
            } else {
                with_sign(negative, INFINITE as nat)
            }
        } else {
            with_sign(
                negative,
                rounding::round_mag(
                    rounding::units(self.spec_mag() as nat) * rounding::units(
                        other.spec_mag() as nat,
                    ),
                    pow2(149),
                ),
            )
        }
    }

    /// `self * other`, the exact product rounded.
    #[verifier::when_used_as_spec(spec_times)]
    pub fn times(self, other: F32) -> (r: F32)
        ensures
            r == self.spec_times(other),
    {
        proof {
            reveal(F32::spec_times);
        }
        let negative = self.is_negative() != other.is_negative();
        if self.is_nan() || other.is_nan() {
            return F32 { bits: NAN_BITS };
        }
        if self.is_infinite() || other.is_infinite() {
            if self.is_zero() || other.is_zero() {
                return F32 { bits: NAN_BITS };
            }
            return signed(negative, INFINITE);
        }
        mul_finite(negative, self.mag(), other.mag())
    }

    #[verifier::opaque]
    pub open spec fn spec_over(self, other: F32) -> F32 {
        let negative = self.spec_is_negative() != other.spec_is_negative();
        if self.spec_is_nan() || other.spec_is_nan() {
            F32 { bits: NAN_BITS }
        } else if self.spec_is_infinite() {
            if other.spec_is_infinite() {
                F32 { bits: NAN_BITS }
            } else {
                with_sign(negative, INFINITE as nat)
            }
        } else if other.spec_is_infinite() {
            with_sign(negative, 0)
        } else if other.spec_is_zero() {
            if self.spec_is_zero() {
                F32 { bits: NAN_BITS }
            } else {
                with_sign(negative, INFINITE as nat)
            }
        } else {
            with_sign(
                negative,
                rounding::round_mag(
                    rounding::units(self.spec_mag() as nat) * pow2(149),
                    rounding::units(other.spec_mag() as nat),
                ),
            )
        }
    }

    /// `self / other`, the exact quotient rounded.
    #[verifier::when_used_as_spec(spec_over)]
    pub fn over(self, other: F32) -> (r: F32)
        ensures
            r == self.spec_over(other),
    {
        proof {
            reveal(F32::spec_over);
        }
        let negative = self.is_negative() != other.is_negative();
        if self.is_nan() || other.is_nan() {
            return F32 { bits: NAN_BITS };
        }
        if self.is_infinite() {
            if other.is_infinite() {
                return F32 { bits: NAN_BITS };
            }
            return signed(negative, INFINITE);
        }
        if other.is_infinite() {
            return signed(negative, 0);
        }
        if other.is_zero() {
            if self.is_zero() {
                return F32 { bits: NAN_BITS };
            }
            return signed(negative, INFINITE);
        }
        div_finite(negative, self.mag(), other.mag())
    }

    /// The integer part of a finite number's magnitude.
    pub open spec fn whole(self) -> nat {
        rounding::units(self.spec_mag() as nat) / pow2(149)
    }

    /// The integer part of a number, cut off at the bounds; 0 for NaN.
    #[verifier::opaque]
    pub open spec fn to_range(self, lo: int, hi: int) -> int {
        if self.spec_is_nan() {
            0
        } else if self.spec_is_infinite() {
            if self.spec_is_negative() {
                lo
            } else {
                hi
            }
        } else if self.spec_is_negative() {
            saturate(-(self.whole() as int), lo, hi)
        } else {
            saturate(self.whole() as int, lo, hi)
        }
    }

    pub open spec fn spec_to_i32(self) -> i32 {
        self.to_range(i32::MIN as int, i32::MAX as int) as i32
    }

    /// The integer part, cut off at the ends of `i32`; 0 for NaN.
    #[verifier::when_used_as_spec(spec_to_i32)]
    pub fn to_i32(self) -> (v: i32)
        ensures
            v == self.spec_to_i32(),
            v == self.to_range(i32::MIN as int, i32::MAX as int),
    {
        proof {
            reveal(F32::to_range);
        }
        if self.is_nan() {
            return 0;
        }
        let cap: u32 = if self.is_infinite() {
            SIGN
        } else {
            whole_capped(self.mag())
        };
        if self.is_negative() {
            if cap >= SIGN {
                i32::MIN
            } else {
                -(cap as i32)
            }
        } else if cap >= SIGN {
            i32::MAX
        } else {
            cap as i32
        }
    }

    pub open spec fn spec_to_u8(self) -> u8 {
        self.to_range(0, 255) as u8
    }

    /// The integer part, cut off at the ends of `u8`; 0 for NaN.
    #[verifier::when_used_as_spec(spec_to_u8)]
    pub fn to_u8(self) -> (v: u8)
        ensures
            v == self.spec_to_u8(),
            v == self.to_range(0, 255),
    {
        proof {
            reveal(F32::to_range);
        }
        if self.is_nan() || self.is_negative() {
            return 0;
        }
        let cap: u32 = if self.is_infinite() {
            SIGN
        } else {
            whole_capped(self.mag())
        };
        if cap > 255 {
            255
        } else {
            cap as u8
        }
    }

    #[verifier::opaque]
    pub open spec fn spec_from_i32(v: i32) -> F32 {
        if v < 0 {
            with_sign(true, rounding::round_mag((-(v as int)) as nat * pow2(149), 1))
        } else {
            with_sign(false, rounding::round_mag(v as nat * pow2(149), 1))
        }
    }

    /// The integer `v`, rounded.
    #[verifier::when_used_as_spec(spec_from_i32)]
    pub fn from_i32(v: i32) -> (r: F32)
        ensures
            r == Self::spec_from_i32(v),
    {
        proof {
            reveal(F32::spec_from_i32);
        }
        proof {
            lemma_small_u128(v as int);
        }
        if v < 0 {
            round_pack(true, (-(v as i64)) as u128, 149)
        } else {
            round_pack(false, v as u128, 149)
        }
    }

    #[verifier::opaque]
    pub open spec fn spec_trunc(self) -> F32 {
        if self.spec_is_finite() {
            with_sign(self.spec_is_negative(), rounding::round_mag(self.whole() * pow2(149), 1))
        } else {
            self
        }
    }

    /// The integer part of a finite number, with its sign.
    #[verifier::when_used_as_spec(spec_trunc)]
    pub fn trunc(self) -> (r: F32)
        ensures
            r == self.spec_trunc(),
    {
        proof {
            reveal(F32::spec_trunc);
        }
        if !self.is_finite() {
            return self;
        }
        trunc_finite(self)
    }
}

} // verus!
