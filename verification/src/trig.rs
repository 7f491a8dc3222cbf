use vstd::prelude::*;

verus! {

use vstd::arithmetic::div_mod::{
    lemma_div_is_ordered, lemma_div_is_ordered_by_denominator, lemma_div_multiples_vanish,
};
use vstd::arithmetic::mul::lemma_mul_upper_bound;

/// One in Q30 fixed point.
pub const Q30: u64 = 0x4000_0000;

/// A quarter turn (half pi radians) in Q30.
pub const HALF_PI_Q30: u64 = 1686629713;

/// A quarter turn in Q32 turn units.
pub const QUARTER_TURN_Q32: u32 = 0x4000_0000;

/// For `0 <= a` and `0 <= b <= c`, scaling `a` by `b/c` does not grow it.
proof fn lemma_mul_div_le(a: int, b: int, c: int)
    requires
        0 <= a,
        0 <= b <= c,
        0 < c,
    ensures
        0 <= (a * b) / c <= a,
{
    lemma_mul_upper_bound(a, a, b, c);
    lemma_div_is_ordered(a * b, a * c, c);
    lemma_div_multiples_vanish(a, c);
    vstd::arithmetic::mul::lemma_mul_nonnegative(a, b);
    vstd::arithmetic::div_mod::lemma_div_pos_is_pos(a * b, c);
}

/// The sine of an angle `x` in `[0, half pi]`, both in Q30, by a Horner
/// evaluation of the odd Taylor series through the eleventh power, the
/// result clamped to one.
pub open spec fn spec_sin_quarter_q30(x: int) -> int {
    let x2 = (x * x) / (Q30 as int);
    let t1 = Q30 - x2 / 110;
    let t2 = Q30 - ((x2 * t1) / (Q30 as int)) / 72;
    let t3 = Q30 - ((x2 * t2) / (Q30 as int)) / 42;
    let t4 = Q30 - ((x2 * t3) / (Q30 as int)) / 20;
    let t5 = Q30 - ((x2 * t4) / (Q30 as int)) / 6;
    let s = (x * t5) / (Q30 as int);
    if s > Q30 {
        Q30 as int
    } else {
        s
    }
}

fn sin_quarter_q30(x: u64) -> (r: u64)
    requires
        x <= HALF_PI_Q30,
    ensures
        r as int == spec_sin_quarter_q30(x as int),
        r <= Q30,
{
    proof {
        lemma_mul_upper_bound(x as int, HALF_PI_Q30 as int, x as int, HALF_PI_Q30 as int);
        lemma_div_is_ordered(
            (x * x) as int,
            (HALF_PI_Q30 * HALF_PI_Q30) as int,
            Q30 as int,
        );
        vstd::arithmetic::mul::lemma_mul_nonnegative(x as int, x as int);
        vstd::arithmetic::div_mod::lemma_div_pos_is_pos((x * x) as int, Q30 as int);
    }
    let x2 = (x * x) / Q30;
    assert(x2 <= 2649443366);
    proof {
        lemma_div_is_ordered(x2 as int, 2649443366, 110);
    }
    let t1 = Q30 - x2 / 110;
    proof {
        lemma_mul_div_le(x2 as int, t1 as int, Q30 as int);
        lemma_mul_upper_bound(x2 as int, 2649443366, t1 as int, Q30 as int);
        lemma_div_is_ordered((x2 as int * t1 as int) / (Q30 as int), 2649443366, 72);
    }
    let t2 = Q30 - (x2 * t1 / Q30) / 72;
    proof {
        lemma_mul_div_le(x2 as int, t2 as int, Q30 as int);
        lemma_mul_upper_bound(x2 as int, 2649443366, t2 as int, Q30 as int);
        lemma_div_is_ordered((x2 as int * t2 as int) / (Q30 as int), 2649443366, 42);
    }
    let t3 = Q30 - (x2 * t2 / Q30) / 42;
    proof {
        lemma_mul_div_le(x2 as int, t3 as int, Q30 as int);
        lemma_mul_upper_bound(x2 as int, 2649443366, t3 as int, Q30 as int);
        lemma_div_is_ordered((x2 as int * t3 as int) / (Q30 as int), 2649443366, 20);
    }
    let t4 = Q30 - (x2 * t3 / Q30) / 20;
    proof {
        lemma_mul_div_le(x2 as int, t4 as int, Q30 as int);
        lemma_mul_upper_bound(x2 as int, 2649443366, t4 as int, Q30 as int);
        lemma_div_is_ordered((x2 as int * t4 as int) / (Q30 as int), 2649443366, 6);
    }
    let t5 = Q30 - (x2 * t4 / Q30) / 6;
    proof {
        lemma_mul_div_le(x as int, t5 as int, Q30 as int);
        lemma_mul_upper_bound(x as int, HALF_PI_Q30 as int, t5 as int, Q30 as int);
    }
    let s = (x * t5) / Q30;
    if s > Q30 {
        Q30
    } else {
        s
    }
}

/// Division of a signed value by a positive divisor, truncating toward
/// zero, as the hardware division of the executable code does.
pub open spec fn spec_div_trunc(v: int, d: int) -> int {
    if v >= 0 {
        v / d
    } else {
        -((-v) / d)
    }
}

/// Truncating division of a signed value by a positive divisor.
pub fn div_trunc_i64(v: i64, d: u64) -> (r: i64)
    requires
        1 <= d,
        i64::MIN < v,
    ensures
        r as int == spec_div_trunc(v as int, d as int),
        v >= 0 ==> 0 <= r <= v,
        v < 0 ==> v <= r <= 0,
{
    if v >= 0 {
        proof {
            vstd::arithmetic::div_mod::lemma_div_pos_is_pos(v as int, d as int);
            vstd::arithmetic::div_mod::lemma_div_basics(v as int);
            lemma_div_is_ordered_by_denominator(v as int, 1, d as int);
        }
        ((v as u64) / d) as i64
    } else {
        proof {
            vstd::arithmetic::div_mod::lemma_div_pos_is_pos((-v) as int, d as int);
            vstd::arithmetic::div_mod::lemma_div_basics((-v) as int);
            lemma_div_is_ordered_by_denominator((-v) as int, 1, d as int);
        }
        -((((-v) as u64) / d) as i64)
    }
}

/// The sine of a phase given as a binary fraction of a turn (Q32), in Q30,
/// by quarter-wave symmetry around [`spec_sin_quarter_q30`].
pub open spec fn spec_sin_turn_q30(t: int) -> int {
    let quad = t / (QUARTER_TURN_Q32 as int);
    let r = t % (QUARTER_TURN_Q32 as int);
    let x = (r * (HALF_PI_Q30 as int)) / (Q30 as int);
    if quad == 0 {
        spec_sin_quarter_q30(x)
    } else if quad == 1 {
        spec_sin_quarter_q30(HALF_PI_Q30 - x)
    } else if quad == 2 {
        -spec_sin_quarter_q30(x)
    } else {
        -spec_sin_quarter_q30(HALF_PI_Q30 - x)
    }
}

pub fn sin_turn_q30(t: u32) -> (r: i64)
    ensures
        r as int == spec_sin_turn_q30(t as int),
        -(Q30 as int) <= r as int <= Q30 as int,
{
    let quad = t / QUARTER_TURN_Q32;
    let rem = t % QUARTER_TURN_Q32;
    proof {
        lemma_mul_upper_bound(rem as int, (QUARTER_TURN_Q32 - 1) as int, HALF_PI_Q30 as int, HALF_PI_Q30 as int);
        lemma_div_is_ordered(
            (rem as u64 * HALF_PI_Q30) as int,
            ((QUARTER_TURN_Q32 - 1) as u64 * HALF_PI_Q30) as int,
            Q30 as int,
        );
        vstd::arithmetic::mul::lemma_mul_nonnegative(rem as int, HALF_PI_Q30 as int);
        vstd::arithmetic::div_mod::lemma_div_pos_is_pos((rem as u64 * HALF_PI_Q30) as int, Q30 as int);
    }
    let x = (rem as u64 * HALF_PI_Q30) / Q30;
    assert(x <= HALF_PI_Q30);
    if quad == 0 {
        sin_quarter_q30(x) as i64
    } else if quad == 1 {
        sin_quarter_q30(HALF_PI_Q30 - x) as i64
    } else if quad == 2 {
        -(sin_quarter_q30(x) as i64)
    } else {
        assert(quad == 3);
        -(sin_quarter_q30(HALF_PI_Q30 - x) as i64)
    }
}

/// The cosine of a phase in Q32 turn units, in Q30: the sine a quarter
/// turn later.
pub open spec fn spec_cos_turn_q30(t: int) -> int {
    spec_sin_turn_q30((t + QUARTER_TURN_Q32) % 0x1_0000_0000)
}

pub fn cos_turn_q30(t: u32) -> (r: i64)
    ensures
        r as int == spec_cos_turn_q30(t as int),
        -(Q30 as int) <= r as int <= Q30 as int,
{
    let shifted = t.wrapping_add(QUARTER_TURN_Q32);
    proof {
        assert(shifted as int == (t as int + QUARTER_TURN_Q32 as int) % 0x1_0000_0000int);
    }
    sin_turn_q30(shifted)
}

/// The sine of a phase in Q32 turn units as a 16-bit PCM sample: the Q30
/// value scaled down to Q15 and clamped to the `i16` range.
pub open spec fn spec_sin_turn_q15(t: int) -> i16 {
    let v = spec_sin_turn_q30(t);
    let m = if v >= 0 {
        v / 32768
    } else {
        -((-v) / 32768)
    };
    if m > 32767 {
        32767i16
    } else if m < -32767 {
        -32767i16
    } else {
        m as i16
    }
}

pub fn sin_turn_q15(t: u32) -> (r: i16)
    ensures
        r == spec_sin_turn_q15(t as int),
        -32767 <= r <= 32767,
{
    let v = sin_turn_q30(t);
    let m: i64 = if v >= 0 {
        proof {
            vstd::arithmetic::div_mod::lemma_div_pos_is_pos(v as int, 32768int);
            lemma_div_is_ordered(v as int, Q30 as int, 32768int);
        }
        ((v as u64) / 32768) as i64
    } else {
        proof {
            vstd::arithmetic::div_mod::lemma_div_pos_is_pos((-v) as int, 32768int);
            lemma_div_is_ordered((-v) as int, Q30 as int, 32768int);
        }
        -((((-v) as u64) / 32768) as i64)
    };
    if m > 32767 {
        32767
    } else if m < -32767 {
        -32767
    } else {
        m as i16
    }
}

} // verus!
