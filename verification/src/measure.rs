//! Lengths, times and angles, as far as they are only compared.
//!
//! A measure is the place of a number among all numbers that a double can hold:
//! it is negative below zero, zero for both zeros, and the greater of two
//! numbers has the greater measure. What is only compared is carried as a
//! measure, so that the comparing is exact.
use vstd::prelude::*;

verus! {

/// The measure of the double with these bits: the bits behind the sign, with
/// the sign.
pub open spec fn ranked(bits: u64) -> int {
    if bits < 0x8000_0000_0000_0000 {
        bits as int
    } else {
        0x8000_0000_0000_0000 - bits
    }
}

/// The measure of a double that is a number, from its bits.
pub fn rank(bits: u64) -> (r: i64)
    ensures
        r == ranked(bits),
{
    if bits < 0x8000_0000_0000_0000 {
        bits as i64
    } else {
        -((bits - 0x8000_0000_0000_0000) as i64)
    }
}

/// A number and the same number below zero have opposite measures, and both
/// zeros have the measure nought.
pub proof fn measures_are_symmetric(bits: u64)
    requires
        bits < 0x8000_0000_0000_0000,
    ensures
        ranked((bits + 0x8000_0000_0000_0000) as u64) == -ranked(bits),
        ranked(0) == 0,
        ranked(0x8000_0000_0000_0000) == 0,
{
}

pub const TENTH: i64 = 0x3fb9_9999_9999_999a;

pub const HALF: i64 = 0x3fe0_0000_0000_0000;

pub const ONE: i64 = 0x3ff0_0000_0000_0000;

pub const TWO: i64 = 0x4000_0000_0000_0000;

pub const FIVE: i64 = 0x4014_0000_0000_0000;

pub const TEN: i64 = 0x4024_0000_0000_0000;

pub const FIFTEEN: i64 = 0x402e_0000_0000_0000;

pub const EIGHTEEN: i64 = 0x4032_0000_0000_0000;

pub const TWENTY: i64 = 0x4034_0000_0000_0000;

pub const TWENTY_FIVE: i64 = 0x4039_0000_0000_0000;

pub const THIRTY: i64 = 0x403e_0000_0000_0000;

pub const THIRTY_SIX: i64 = 0x4042_0000_0000_0000;

pub const FORTY_FIVE: i64 = 0x4046_8000_0000_0000;

pub const HUNDRED: i64 = 0x4059_0000_0000_0000;


/// The measure of a whole number: one step of the exponent for each doubling,
/// and behind it what the number has over the last power of two, out of as many
/// parts as that leaves.
pub open spec fn of_whole(n: int) -> int {
    if n < 2 {
        1023 * 0x10_0000_0000_0000 + (n - 1) * 0x10_0000_0000_0000
    } else if n < 4 {
        1024 * 0x10_0000_0000_0000 + (n - 2) * 0x8_0000_0000_0000
    } else if n < 8 {
        1025 * 0x10_0000_0000_0000 + (n - 4) * 0x4_0000_0000_0000
    } else if n < 16 {
        1026 * 0x10_0000_0000_0000 + (n - 8) * 0x2_0000_0000_0000
    } else if n < 32 {
        1027 * 0x10_0000_0000_0000 + (n - 16) * 0x1_0000_0000_0000
    } else if n < 64 {
        1028 * 0x10_0000_0000_0000 + (n - 32) * 0x8000_0000_0000
    } else if n < 128 {
        1029 * 0x10_0000_0000_0000 + (n - 64) * 0x4000_0000_0000
    } else if n < 256 {
        1030 * 0x10_0000_0000_0000 + (n - 128) * 0x2000_0000_0000
    } else if n < 512 {
        1031 * 0x10_0000_0000_0000 + (n - 256) * 0x1000_0000_0000
    } else if n < 1024 {
        1032 * 0x10_0000_0000_0000 + (n - 512) * 0x800_0000_0000
    } else if n < 2048 {
        1033 * 0x10_0000_0000_0000 + (n - 1024) * 0x400_0000_0000
    } else if n < 4096 {
        1034 * 0x10_0000_0000_0000 + (n - 2048) * 0x200_0000_0000
    } else if n < 8192 {
        1035 * 0x10_0000_0000_0000 + (n - 4096) * 0x100_0000_0000
    } else {
        1036 * 0x10_0000_0000_0000 + (n - 8192) * 0x80_0000_0000
    }
}

/// The greater of two whole numbers has the greater measure.
pub proof fn whole_measures_ascend(a: int, b: int)
    requires
        1 <= a < b < 16384,
    ensures
        0 < of_whole(a) < of_whole(b),
{
}

/// Each of the lengths and times that are compared with has the measure of the
/// number that it is named for.
pub proof fn the_named_measures()
    ensures
        ONE == of_whole(1),
        TWO == of_whole(2),
        FIVE == of_whole(5),
        TEN == of_whole(10),
        FIFTEEN == of_whole(15),
        EIGHTEEN == of_whole(18),
        TWENTY == of_whole(20),
        TWENTY_FIVE == of_whole(25),
        THIRTY == of_whole(30),
        THIRTY_SIX == of_whole(36),
        FORTY_FIVE == of_whole(45),
        HUNDRED == of_whole(100),
        HALF == of_whole(1) - 0x10_0000_0000_0000,
        // Of all the numbers that a double holds this is the nearest to a tenth.
        -5 <= 10 * (0x10_0000_0000_0000 + TENTH % 0x10_0000_0000_0000) - 0x100_0000_0000_0000 <= 5,
        TENTH / 0x10_0000_0000_0000 == 1023 - 4,
{
}

/// Above zero a measure is the bits themselves, so that more is more; below
/// zero it is less the more the bits say.
pub proof fn measures_are_ordered(a: u64, b: u64)
    requires
        a < b,
    ensures
        b < 0x8000_0000_0000_0000 ==> ranked(a) < ranked(b),
        a >= 0x8000_0000_0000_0000 ==> ranked(b) < ranked(a),
        a < 0x8000_0000_0000_0000 <= b ==> ranked(b) <= ranked(a),
        a < 0x8000_0000_0000_0000 ==> ranked(a) == a,
{
}

} // verus!
