//! What the constants are.
use crate::constants::ALMOST_ONE;
use crate::constants::BYTE_MAX;
use crate::constants::BYTE_STEP;
use crate::constants::CENTI;
use crate::constants::COMPRESSION;
use crate::constants::DUMP_SHARE;
use crate::constants::EIGHTH;
use crate::constants::FIFTH;
use crate::constants::FIFTIETH;
use crate::constants::HALF;
use crate::constants::HALF_TURN;
use crate::constants::INFINITY;
use crate::constants::LEAST_NORMAL;
use crate::constants::MAX_RADIATION;
use crate::constants::MILLI;
use crate::constants::MINUS_EIGHTH;
use crate::constants::MINUS_QUARTER_TURN;
use crate::constants::MINUS_THREE_TENTHS;
use crate::constants::NANO;
use crate::constants::NINE_TENTHS;
use crate::constants::ONE;
use crate::constants::QUARTER;
use crate::constants::QUARTER_TURN;
use crate::constants::RANDOM_SCALE;
use crate::constants::SUBLIMATE_LIMIT;
use crate::constants::TENTH;
use crate::constants::THOUSAND;
use crate::constants::THREE;
use crate::constants::THREE_HALVES;
use crate::constants::THREE_QUARTERS;
use crate::constants::THREE_TENTHS;
use crate::constants::THREE_TWENTIETHS;
use crate::constants::TWO;
use crate::constants::WALL_RESISTANCE;
use crate::constants::ZERO;
use crate::number::num;
use crate::number::F32;
use crate::rounding;
use vstd::arithmetic::power2::*;
use vstd::prelude::*;

verus! {

/// Whether a number is a ratio of integers, up to one part in a million.
pub open spec fn is_about(x: F32, a: int, b: int) -> bool {
    let goal = a * pow2(149);
    &&& x.is_finite()
    &&& -goal <= 0x10_0000 * (b * x.value() - goal) <= goal
}

proof fn lemma_about(bits: u32, e: nat, q: int, a: int, b: int)
    requires
        0x80_0000 <= bits < 0x7f80_0000,
        bits == (e + 1) * 0x80_0000 + (q - 0x80_0000),
        0x80_0000 <= q < 0x100_0000,
        e <= 149,
        149 - e <= 62,
        a >= 0,
        b >= 0,
        ({
            let k = a * pow2((149 - e) as nat);
            -k <= 0x10_0000 * (b * q - k) <= k
        }),
    ensures
        is_about(num(bits), a, b),
{
    let x = num(bits);
    let m = x.mag() as nat;
    assert(m == bits);
    assert(rounding::exponent(m) == e);
    assert(rounding::significand(m) == q);
    let p = pow2(e) as int;
    let r = pow2((149 - e) as nat) as int;
    lemma_pow2_pos(e);
    lemma_pow2_adds((149 - e) as nat, e);
    let k = a * r;
    let d = b * q - k;
    assert(a * pow2(149) == k * p) by (nonlinear_arith)
        requires
            pow2(149) == r * p,
            k == a * r,
    ;
    assert(x.value() == q * p);
    assert(b * (q * p) - k * p == d * p) by (nonlinear_arith)
        requires
            d == b * q - k,
    ;
    assert(-(k * p) <= 0x10_0000 * (d * p) <= k * p) by (nonlinear_arith)
        requires
            -k <= 0x10_0000 * d <= k,
            p > 0,
    ;
}

/// The constants are what their names say, up to one part in a million.
pub proof fn law_constants()
    ensures
        num(ZERO).value() == 0,
        !num(ZERO).is_negative(),
        is_about(num(ONE), 1, 1),
        is_about(num(TWO), 2, 1),
        is_about(num(THREE), 3, 1),
        is_about(num(QUARTER), 1, 4),
        is_about(num(HALF), 1, 2),
        is_about(num(EIGHTH), 1, 8),
        is_about(num(CENTI), 1, 100),
        is_about(num(MILLI), 1, 1000),
        is_about(num(NANO), 1, 1000000000),
        is_about(num(FIFTH), 1, 5),
        is_about(num(FIFTIETH), 1, 50),
        is_about(num(TENTH), 1, 10),
        is_about(num(THREE_TWENTIETHS), 3, 20),
        is_about(num(THREE_QUARTERS), 3, 4),
        is_about(num(THREE_TENTHS), 3, 10),
        is_about(num(NINE_TENTHS), 9, 10),
        is_about(num(ALMOST_ONE), 99, 100),
        is_about(num(COMPRESSION), 101, 100),
        is_about(num(THREE_HALVES), 3, 2),
        is_about(num(SUBLIMATE_LIMIT), 9, 5),
        is_about(num(THOUSAND), 1000, 1),
        is_about(num(DUMP_SHARE), 100, 201),
        is_about(num(RANDOM_SCALE), 1, 32767),
        is_about(num(WALL_RESISTANCE), 1, 10),
        is_about(num(HALF_TURN), 180, 1),
        is_about(num(QUARTER_TURN), 90, 1),
        is_about(num(BYTE_MAX), 255, 1),
        is_about(num(BYTE_STEP), 1, 255),
        is_about(num(MAX_RADIATION), 9000000, 1),
        num(MINUS_EIGHTH) == num(EIGHTH).neg(),
        num(MINUS_THREE_TENTHS) == num(THREE_TENTHS).neg(),
        num(MINUS_QUARTER_TURN) == num(QUARTER_TURN).neg(),
        num(INFINITY).is_finite() == false && !num(INFINITY).is_nan(),
        !num(INFINITY).is_negative(),
        num(LEAST_NORMAL).value() == 0x80_0000,
{
    lemma2_to64();
    lemma2_to64_rest();
    crate::laws::lemma_zero_value();
    lemma_about(ONE, 126, 8388608, 1, 1);
    lemma_about(TWO, 127, 8388608, 2, 1);
    lemma_about(THREE, 127, 12582912, 3, 1);
    lemma_about(QUARTER, 124, 8388608, 1, 4);
    lemma_about(HALF, 125, 8388608, 1, 2);
    lemma_about(EIGHTH, 123, 8388608, 1, 8);
    lemma_about(CENTI, 119, 10737418, 1, 100);
    lemma_about(MILLI, 116, 8589935, 1, 1000);
    lemma_about(NANO, 96, 9007199, 1, 1000000000);
    lemma_about(FIFTH, 123, 13421773, 1, 5);
    lemma_about(FIFTIETH, 120, 10737418, 1, 50);
    lemma_about(TENTH, 122, 13421773, 1, 10);
    lemma_about(THREE_TWENTIETHS, 123, 10066330, 3, 20);
    lemma_about(THREE_QUARTERS, 125, 12582912, 3, 4);
    lemma_about(THREE_TENTHS, 124, 10066330, 3, 10);
    lemma_about(NINE_TENTHS, 125, 15099494, 9, 10);
    lemma_about(ALMOST_ONE, 125, 16609444, 99, 100);
    lemma_about(COMPRESSION, 126, 8472494, 101, 100);
    lemma_about(THREE_HALVES, 126, 12582912, 3, 2);
    lemma_about(SUBLIMATE_LIMIT, 126, 15099494, 9, 5);
    lemma_about(THOUSAND, 135, 16384000, 1000, 1);
    lemma_about(DUMP_SHARE, 124, 16693747, 100, 201);
    lemma_about(RANDOM_SCALE, 111, 8388864, 1, 32767);
    lemma_about(WALL_RESISTANCE, 122, 13421776, 1, 10);
    lemma_about(HALF_TURN, 133, 11796480, 180, 1);
    lemma_about(QUARTER_TURN, 132, 11796480, 90, 1);
    lemma_about(BYTE_MAX, 133, 16711680, 255, 1);
    lemma_about(BYTE_STEP, 118, 8421505, 1, 255);
    lemma_about(MAX_RADIATION, 149, 9000000, 9000000, 1);
    assert(rounding::exponent(LEAST_NORMAL as nat) == 0);
    assert(rounding::significand(LEAST_NORMAL as nat) == 0x80_0000);
}

} // verus!
