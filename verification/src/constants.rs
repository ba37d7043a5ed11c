//! The numbers of the physical rules, as encodings of single-precision values.
use vstd::prelude::*;

verus! {

/// `+0`.
pub const ZERO: u32 = 0;

pub const ONE: u32 = 0x3f80_0000;

pub const TWO: u32 = 0x4000_0000;

pub const THREE: u32 = 0x4040_0000;

/// One quarter.
pub const QUARTER: u32 = 0x3e80_0000;

/// One half.
pub const HALF: u32 = 0x3f00_0000;

/// One eighth: the share of a cell that pressure moves in one step.
pub const EIGHTH: u32 = 0x3e00_0000;

/// Minus one eighth.
pub const MINUS_EIGHTH: u32 = 0xbe00_0000;

/// One hundredth.
pub const CENTI: u32 = 0x3c23_d70a;

/// One thousandth.
pub const MILLI: u32 = 0x3a83_126f;

/// One thousand-millionth: a gas of less mass evaporates.
pub const NANO: u32 = 0x3089_705f;

/// One fifth: the length of a step in seconds.
pub const FIFTH: u32 = 0x3e4c_cccd;

/// One fiftieth.
pub const FIFTIETH: u32 = 0x3ca3_d70a;

/// One tenth.
pub const TENTH: u32 = 0x3dcc_cccd;

/// Three twentieths.
pub const THREE_TWENTIETHS: u32 = 0x3e19_999a;

/// Three quarters.
pub const THREE_QUARTERS: u32 = 0x3f40_0000;

/// Three tenths.
pub const THREE_TENTHS: u32 = 0x3e99_999a;

/// Minus three tenths.
pub const MINUS_THREE_TENTHS: u32 = 0xbe99_999a;

/// Nine tenths.
pub const NINE_TENTHS: u32 = 0x3f66_6666;

/// Ninety-nine hundredths.
pub const ALMOST_ONE: u32 = 0x3f7d_70a4;

/// A hundred and one hundredths: how far a full cell may be compressed by the one above it.
pub const COMPRESSION: u32 = 0x3f81_47ae;

/// Three halves.
pub const THREE_HALVES: u32 = 0x3fc0_0000;

/// Nine fifths: the most gas that sublimation leaves in a cell.
pub const SUBLIMATE_LIMIT: u32 = 0x3fe6_6666;

/// One thousand.
pub const THOUSAND: u32 = 0x447a_0000;

/// The least positive normal number.
pub const LEAST_NORMAL: u32 = 0x0080_0000;

/// The share of an overfull cell that is dumped onto its neighbour, one part in 2.01.
pub const DUMP_SHARE: u32 = 0x3efe_b9f3;

/// One part in 32767.
pub const RANDOM_SCALE: u32 = 0x3800_0100;

/// The resistance of a wall beside that of its material.
pub const WALL_RESISTANCE: u32 = 0x3dcc_ccd0;

/// A hundred and eighty degrees.
pub const HALF_TURN: u32 = 0x4334_0000;

/// Ninety degrees.
pub const QUARTER_TURN: u32 = 0x42b4_0000;

/// Minus ninety degrees.
pub const MINUS_QUARTER_TURN: u32 = 0xc2b4_0000;

/// Two hundred and fifty-five.
pub const BYTE_MAX: u32 = 0x437f_0000;

/// One part in 255.
pub const BYTE_STEP: u32 = 0x3b80_8081;

/// Nine million: the most radiation that a cell holds.
pub const MAX_RADIATION: u32 = 0x4b09_5440;

/// Positive infinity.
pub const INFINITY: u32 = 0x7f80_0000;

} // verus!
