use vstd::prelude::*;

verus! {

use crate::trig::{div_trunc_i64, spec_div_trunc};
use vstd::arithmetic::div_mod::{lemma_div_is_ordered, lemma_div_multiples_vanish};
use vstd::arithmetic::mul::{lemma_mul_inequality, lemma_mul_upper_bound};

/// The seed the noise generator always starts from, so replacement noise
/// is reproducible.
pub const NOISE_SEED: u32 = 0x1234_5678;

/// One xorshift step.
pub open spec fn spec_xorshift(x: u32) -> u32 {
    let a = x ^ (x << 13);
    let b = a ^ (a >> 17);
    b ^ (b << 5)
}

/// A 32-bit xorshift pseudo-random generator; deterministic for a given
/// seed, not cryptographic.
pub struct XorShift32 {
    /// The generator state, never zero.
    pub state: u32,
}

impl XorShift32 {
    /// Seed the generator; a zero seed is replaced by a fixed nonzero one.
    pub fn new(seed: u32) -> (r: Self)
        ensures
            r.state == if seed == 0 {
                0xA5A5_1234u32
            } else {
                seed
            },
    {
        let state = if seed == 0 {
            0xA5A5_1234
        } else {
            seed
        };
        XorShift32 { state }
    }

    /// Produce the next value and advance the state.
    pub fn next_u32(&mut self) -> (r: u32)
        ensures
            r == spec_xorshift(old(self).state),
            final(self).state == r,
    {
        let mut x = self.state;
        x = x ^ (x << 13u32);
        x = x ^ (x >> 17u32);
        x = x ^ (x << 5u32);
        self.state = x;
        x
    }
}

/// The integer square root: the greatest `r` with `r * r <= n`.
pub open spec fn spec_isqrt(n: int) -> int
    decreases n,
{
    if n < 1 {
        0
    } else {
        let r = spec_isqrt(n - 1);
        if (r + 1) * (r + 1) <= n {
            r + 1
        } else {
            r
        }
    }
}

/// The defining bounds of [`spec_isqrt`].
pub proof fn lemma_isqrt_bounds(n: int)
    requires
        0 <= n,
    ensures
        0 <= spec_isqrt(n),
        spec_isqrt(n) * spec_isqrt(n) <= n,
        n < (spec_isqrt(n) + 1) * (spec_isqrt(n) + 1),
    decreases n,
{
    if n >= 1 {
        lemma_isqrt_bounds(n - 1);
        let r = spec_isqrt(n - 1);
        if (r + 1) * (r + 1) <= n {
            assert((r + 2) * (r + 2) > n) by (nonlinear_arith)
                requires
                    0 <= r,
                    n <= (r + 1) * (r + 1),
            ;
        }
    }
}

/// Any value meeting the bounds is the integer square root.
proof fn lemma_isqrt_unique(n: int, r: int)
    requires
        0 <= n,
        0 <= r,
        r * r <= n,
        n < (r + 1) * (r + 1),
    ensures
        r == spec_isqrt(n),
{
    lemma_isqrt_bounds(n);
    let s = spec_isqrt(n);
    if r < s {
        assert((r + 1) * (r + 1) <= s * s) by (nonlinear_arith)
            requires
                0 <= r,
                r + 1 <= s,
        ;
    }
    if s < r {
        assert((s + 1) * (s + 1) <= r * r) by (nonlinear_arith)
            requires
                0 <= s,
                s + 1 <= r,
        ;
    }
}

/// Integer square root by binary search.
fn isqrt_u64(n: u64) -> (r: u64)
    requires
        n <= 0x4000_0000_0000_0000,
    ensures
        r as int == spec_isqrt(n as int),
        r <= 0x8000_0000,
{
    let mut lo: u64 = 0;
    let mut hi: u64 = 0x8000_0000;
    while lo < hi
        invariant
            lo <= hi <= 0x8000_0000,
            n <= 0x4000_0000_0000_0000,
            lo * lo <= n,
            n < (hi + 1) * (hi + 1),
        decreases hi - lo,
    {
        let mid = lo + (hi - lo + 1) / 2;
        assert(mid * mid <= 0x8000_0000i64 as u64 * 0x8000_0000u64) by (nonlinear_arith)
            requires
                mid <= 0x8000_0000u64,
        ;
        if mid * mid <= n {
            lo = mid;
        } else {
            hi = mid - 1;
        }
    }
    proof {
        lemma_isqrt_unique(n as int, lo as int);
    }
    lo
}

/// The root-mean-square of one window in Q15: the integer square root of
/// the mean of the squared samples.
pub open spec fn spec_window_rms(samples: Seq<i16>, start: int, window_len: int) -> int {
    spec_isqrt(spec_sum_sq(samples, start, window_len) / window_len)
}

/// The sum of the squares of `len` samples from `start`.
pub open spec fn spec_sum_sq(samples: Seq<i16>, start: int, len: int) -> int
    decreases len,
{
    if len <= 0 {
        0
    } else {
        spec_sum_sq(samples, start, len - 1) + (samples[start + len - 1] as int) * (samples[start
            + len - 1] as int)
    }
}

proof fn lemma_sum_sq_bound(samples: Seq<i16>, start: int, len: int)
    requires
        0 <= len,
    ensures
        0 <= spec_sum_sq(samples, start, len) <= len * 0x4000_0000,
    decreases len,
{
    if len > 0 {
        lemma_sum_sq_bound(samples, start, len - 1);
        let x = samples[start + len - 1] as int;
        assert(0 <= x * x <= 0x4000_0000) by (nonlinear_arith)
            requires
                -0x8000 <= x <= 0x7FFF,
        ;
        assert((len - 1) * 0x4000_0000 + 0x4000_0000 == len * 0x4000_0000) by (nonlinear_arith);
    }
}

/// The minimum window RMS over the whole-window steps of one segment,
/// folded onto a running minimum (`None` for none yet).
pub open spec fn spec_min_rms_segment(
    samples: Seq<i16>,
    start: int,
    end: int,
    window_len: int,
    current: Option<int>,
    steps: int,
) -> Option<int>
    decreases steps,
{
    if steps <= 0 {
        current
    } else {
        let prev = spec_min_rms_segment(samples, start, end, window_len, current, steps - 1);
        let rms = spec_window_rms(samples, start + (steps - 1) * window_len, window_len);
        match prev {
            Some(m) => Some(
                if rms < m {
                    rms
                } else {
                    m
                },
            ),
            None => Some(rms),
        }
    }
}

/// How many whole windows fit in a segment.
pub open spec fn spec_segment_steps(start: int, end: int, window_len: int) -> int {
    if end <= start || end - start < window_len {
        0
    } else {
        (end - start) / window_len
    }
}

fn min_rms_segment(
    samples: &Vec<i16>,
    start: usize,
    end: usize,
    window_len: usize,
    current_min: Option<u64>,
) -> (r: Option<u64>)
    requires
        1 <= window_len <= 0x1_0000_0000,
        end <= samples@.len(),
        current_min matches Some(m) ==> m <= 32768,
    ensures
        ({
            let cm = match current_min {
                Some(m) => Some(m as int),
                None => None,
            };
            let rm = spec_min_rms_segment(
                samples@,
                start as int,
                end as int,
                window_len as int,
                cm,
                spec_segment_steps(start as int, end as int, window_len as int),
            );
            match r {
                Some(v) => rm == Some(v as int) && v <= 32768,
                None => rm is None,
            }
        }),
{
    if end <= start || end - start < window_len {
        return current_min;
    }
    let steps = (end - start) / window_len;
    proof {
        vstd::arithmetic::div_mod::lemma_fundamental_div_mod((end - start) as int, window_len as int);
        vstd::arithmetic::div_mod::lemma_mod_bound((end - start) as int, window_len as int);
        assert(window_len as int * steps as int == steps as int * window_len as int)
            by (nonlinear_arith);
    }
    let mut k: usize = 0;
    let mut cur = current_min;
    while k < steps
        invariant
            1 <= window_len <= 0x1_0000_0000,
            end <= samples@.len(),
            steps == (end - start) as int / window_len as int,
            steps * window_len <= end - start,
            k <= steps,
            cur matches Some(m) ==> m <= 32768,
            ({
                let cm0 = match current_min {
                    Some(m) => Some(m as int),
                    None => None,
                };
                let want = spec_min_rms_segment(
                    samples@,
                    start as int,
                    end as int,
                    window_len as int,
                    cm0,
                    k as int,
                );
                match cur {
                    Some(v) => want == Some(v as int),
                    None => want is None,
                }
            }),
        decreases steps - k,
    {
        proof {
            lemma_mul_inequality(k as int + 1, steps as int, window_len as int);
            assert((k as int + 1) * window_len as int == k as int * window_len as int
                + window_len as int) by (nonlinear_arith);
            vstd::arithmetic::mul::lemma_mul_nonnegative(k as int, window_len as int);
        }
        let wstart = start + k * window_len;
        let mut j: usize = 0;
        let mut sum_sq: u64 = 0;
        while j < window_len
            invariant
                1 <= window_len <= 0x1_0000_0000,
                end <= samples@.len(),
                wstart + window_len <= end,
                j <= window_len,
                sum_sq as int == spec_sum_sq(samples@, wstart as int, j as int),
                sum_sq as int <= j as int * 0x4000_0000,
            decreases window_len - j,
        {
            let x = samples[wstart + j] as i64;
            assert(0 <= x * x <= 0x4000_0000) by (nonlinear_arith)
                requires
                    -0x8000 <= x <= 0x7FFF,
            ;
            let sq = (x * x) as u64;
            proof {
                assert(j as int * 0x4000_0000 + 0x4000_0000 == (j as int + 1) * 0x4000_0000)
                    by (nonlinear_arith);
            }
            sum_sq = sum_sq + sq;
            j = j + 1;
        }
        let mean = sum_sq / (window_len as u64);
        assert(mean <= 0x4000_0000) by {
            lemma_div_is_ordered(sum_sq as int, window_len as int * 0x4000_0000, window_len as int);
            lemma_div_multiples_vanish(0x4000_0000int, window_len as int);
            assert(window_len as int * 0x4000_0000 == 0x4000_0000int * window_len as int)
                by (nonlinear_arith);
        }
        let rms = isqrt_u64(mean);
        assert(rms <= 32768) by {
            lemma_isqrt_bounds(mean as int);
            if spec_isqrt(mean as int) > 32768 {
                assert(32769 * 32769 <= spec_isqrt(mean as int) * spec_isqrt(mean as int))
                    by (nonlinear_arith)
                    requires
                        32769 <= spec_isqrt(mean as int),
                ;
            }
        }
        cur = match cur {
            Some(m) => Some(
                if rms < m {
                    rms
                } else {
                    m
                },
            ),
            None => Some(rms),
        };
        k = k + 1;
    }
    cur
}

/// The ambient floor folded over the stretches outside the given ranges
/// and then the tail, exactly as [`estimate_floor`] walks them.
pub open spec fn spec_floor_fold(
    samples: Seq<i16>,
    ranges: Seq<(usize, usize)>,
    window_len: int,
    i: int,
) -> (int, Option<int>)
    decreases i,
{
    if i <= 0 {
        (0, None)
    } else {
        let (pos, cur) = spec_floor_fold(samples, ranges, window_len, i - 1);
        let r = ranges[i - 1];
        let cur2 = if pos < r.0 {
            spec_min_rms_segment(
                samples,
                pos,
                r.0 as int,
                window_len,
                cur,
                spec_segment_steps(pos, r.0 as int, window_len),
            )
        } else {
            cur
        };
        (r.1 as int, cur2)
    }
}

/// What [`estimate_floor`] returns: the minimum window RMS over all
/// samples outside the ranges, a conservative (not average) estimate,
/// or zero when no whole window lies outside them.
pub open spec fn spec_estimate_floor(
    samples: Seq<i16>,
    ranges: Seq<(usize, usize)>,
    window_len: int,
) -> int {
    if window_len <= 0 {
        0
    } else {
        let (pos, cur) = spec_floor_fold(samples, ranges, window_len, ranges.len() as int);
        let fin = if pos < samples.len() {
            spec_min_rms_segment(
                samples,
                pos,
                samples.len() as int,
                window_len,
                cur,
                spec_segment_steps(pos, samples.len() as int, window_len),
            )
        } else {
            cur
        };
        match fin {
            Some(m) => m,
            None => 0,
        }
    }
}

/// Estimate the ambient noise floor of a message outside all detected
/// tone ranges: the global minimum RMS over fixed-length windows, in
/// Q15. Zero when the window length is zero or nothing lies outside
/// the ranges.
pub fn estimate_floor(samples: &Vec<i16>, ranges: &Vec<(usize, usize)>, window_len: usize) -> (r:
    u16)
    requires
        window_len <= 0x1_0000_0000,
        forall|i: int|
            0 <= i < ranges@.len() ==> (#[trigger] ranges@[i]).0 <= ranges@[i].1 <= samples@.len(),
    ensures
        r as int == spec_estimate_floor(samples@, ranges@, window_len as int),
        r <= 32768,
{
    if window_len == 0 {
        return 0;
    }
    let mut min_rms: Option<u64> = None;
    let mut pos: usize = 0;
    let mut i: usize = 0;
    while i < ranges.len()
        invariant
            1 <= window_len <= 0x1_0000_0000,
            forall|k: int|
                0 <= k < ranges@.len() ==> (#[trigger] ranges@[k]).0 <= ranges@[k].1
                    <= samples@.len(),
            i <= ranges@.len(),
            min_rms matches Some(m) ==> m <= 32768,
            ({
                let fold = spec_floor_fold(samples@, ranges@, window_len as int, i as int);
                &&& pos as int == fold.0
                &&& (match min_rms {
                    Some(v) => fold.1 == Some(v as int),
                    None => fold.1 is None,
                })
            }),
        decreases ranges@.len() - i,
    {
        let (rs, re) = ranges[i];
        if pos < rs {
            min_rms = min_rms_segment(samples, pos, rs, window_len, min_rms);
        }
        pos = re;
        i = i + 1;
    }
    let fin = if pos < samples.len() {
        min_rms_segment(samples, pos, samples.len(), window_len, min_rms)
    } else {
        min_rms
    };
    let out: u64 = match fin {
        Some(m) => m,
        None => 0,
    };
    out as u16
}


/// Two pi in Q16, for the low-pass coefficient.
pub const TAU_Q16: u64 = 411775;

/// The one-pole low-pass coefficient in Q15 for a sample rate and a
/// cutoff frequency: `dt / (rc + dt)` with `rc = 1 / (tau * cutoff)`,
/// the cutoff floored at one hertz.
pub open spec fn spec_alpha_q15(sample_rate_hz: int, cutoff_hz: int) -> int {
    let fc = if cutoff_hz < 1 {
        1
    } else {
        cutoff_hz
    };
    let tfc = (TAU_Q16 as int) * fc;
    let den = sample_rate_hz * 65536 + tfc;
    (tfc * 32768) / den
}

fn alpha_q15(sample_rate_hz: u32, cutoff_hz: u32) -> (r: u16)
    requires
        1 <= sample_rate_hz,
    ensures
        r as int == spec_alpha_q15(sample_rate_hz as int, cutoff_hz as int),
        r <= 32768,
{
    let fc: u64 = if cutoff_hz < 1 {
        1
    } else {
        cutoff_hz as u64
    };
    proof {
        lemma_mul_upper_bound(TAU_Q16 as int, TAU_Q16 as int, fc as int, 0xFFFF_FFFFint);
        vstd::arithmetic::mul::lemma_mul_nonnegative(TAU_Q16 as int, fc as int);
    }
    let tfc: u64 = TAU_Q16 * fc;
    let den: u64 = (sample_rate_hz as u64) * 65536 + tfc;
    let num: u128 = (tfc as u128) * 32768;
    let alpha = (num / (den as u128)) as u64;
    proof {
        let t = tfc as int;
        let d = den as int;
        lemma_mul_inequality(t, d, 32768);
        assert(t * 32768 <= d * 32768);
        lemma_div_is_ordered(t * 32768, d * 32768, d);
        lemma_div_multiples_vanish(32768int, d);
        assert(d * 32768 == 32768 * d) by (nonlinear_arith);
        vstd::arithmetic::mul::lemma_mul_nonnegative(t, 32768int);
        vstd::arithmetic::div_mod::lemma_div_pos_is_pos(t * 32768, d);
    }
    alpha as u16
}

/// The generator state and running sum after `k` draws, each draw
/// contributing its top twelve bits.
pub open spec fn spec_draw_sum(rng: u32, k: int) -> (u32, int)
    decreases k,
{
    if k <= 0 {
        (rng, 0)
    } else {
        let prev = spec_draw_sum(rng, k - 1);
        let v = spec_xorshift(prev.0);
        (v, prev.1 + (v as int) / 0x10_0000)
    }
}

/// One noise sample: twelve uniform draws summed and centered stand in
/// for a Gaussian deviate, scaled to the floor level and passed through
/// the one-pole low-pass; returns the new generator state and filter
/// state.
pub open spec fn spec_noise_step(rng: u32, z: int, level: int, alpha: int) -> (u32, int) {
    let drawn = spec_draw_sum(rng, 12);
    let centered = drawn.1 - 24570;
    let scaled = spec_div_trunc(centered * level, 4096);
    let z2 = z + spec_div_trunc(alpha * (scaled - z), 32768);
    (drawn.0, z2)
}

/// Generator and filter state after `k` noise samples, from the fixed
/// seed and a settled filter.
pub open spec fn spec_noise_state(level: int, alpha: int, k: int) -> (u32, int)
    decreases k,
{
    if k <= 0 {
        (NOISE_SEED, 0)
    } else {
        let prev = spec_noise_state(level, alpha, k - 1);
        spec_noise_step(prev.0, prev.1, level, alpha)
    }
}

/// A filter state clamped to the sample range.
pub open spec fn spec_clamp_i16(v: int) -> i16 {
    if v > 32767 {
        32767i16
    } else if v < -32768 {
        -32768i16
    } else {
        v as i16
    }
}

/// The `k`-th replacement noise sample at a floor level and low-pass
/// coefficient.
pub open spec fn spec_noise_sample(level: int, alpha: int, k: int) -> i16 {
    spec_clamp_i16(spec_noise_state(level, alpha, k + 1).1)
}

/// The low-pass state stays between its old value and its input.
proof fn lemma_lp_step_bound(z: int, x: int, alpha: int, b: int)
    requires
        -b <= z <= b,
        -b <= x <= b,
        0 <= alpha <= 32768,
        0 <= b,
    ensures
        -b <= z + spec_div_trunc(alpha * (x - z), 32768) <= b,
{
    let d = x - z;
    let t = spec_div_trunc(alpha * d, 32768);
    if d >= 0 {
        lemma_mul_inequality(alpha, 32768, d);
        assert(alpha * d <= 32768 * d);
        lemma_div_is_ordered(alpha * d, 32768 * d, 32768);
        lemma_div_multiples_vanish(d, 32768int);
        assert(32768 * d == d * 32768) by (nonlinear_arith);
        vstd::arithmetic::mul::lemma_mul_nonnegative(alpha, d);
        vstd::arithmetic::div_mod::lemma_div_pos_is_pos(alpha * d, 32768int);
        assert(0 <= t <= d);
    } else {
        lemma_mul_inequality(alpha, 32768, -d);
        assert(alpha * (-d) <= 32768 * (-d));
        lemma_div_is_ordered(alpha * (-d), 32768 * (-d), 32768);
        lemma_div_multiples_vanish(-d, 32768int);
        assert(32768 * (-d) == (-d) * 32768) by (nonlinear_arith);
        vstd::arithmetic::mul::lemma_mul_nonnegative(alpha, -d);
        vstd::arithmetic::div_mod::lemma_div_pos_is_pos(alpha * (-d), 32768int);
        assert(alpha * d == -(alpha * (-d))) by (nonlinear_arith);
        assert(d <= t <= 0);
    }
}

/// Fill `samples[start..end]` with reproducible band-limited noise at
/// the given floor level: a deterministic xorshift generator drives an
/// approximately Gaussian deviate per sample, scaled to the level and
/// smoothed by a one-pole low-pass at the cutoff frequency, so
/// suppressed tones are inaudible but the recording sounds continuous.
/// Samples outside the range are untouched.
pub fn fill_band_limited_gaussian_noise(
    samples: &mut Vec<i16>,
    start: usize,
    end: usize,
    level: u16,
    sample_rate_hz: u32,
    cutoff_hz: u32,
)
    requires
        start <= end <= old(samples)@.len(),
        level <= 32768,
        1 <= sample_rate_hz,
    ensures
        final(samples)@.len() == old(samples)@.len(),
        forall|j: int|
            0 <= j < old(samples)@.len() && !(start <= j < end) ==> final(samples)@[j] == old(
                samples,
            )@[j],
        forall|k: int|
            0 <= k < end - start ==> final(samples)@[start + k] == spec_noise_sample(
                level as int,
                spec_alpha_q15(sample_rate_hz as int, cutoff_hz as int),
                k,
            ),
{
    let alpha = alpha_q15(sample_rate_hz, cutoff_hz);
    let mut rng: u32 = NOISE_SEED;
    let mut z: i64 = 0;
    let mut k: usize = 0;
    let count = end - start;
    while k < count
        invariant
            start + count <= samples@.len(),
            count == end - start,
            samples@.len() == old(samples)@.len(),
            k <= count,
            level <= 32768,
            alpha <= 32768,
            alpha as int == spec_alpha_q15(sample_rate_hz as int, cutoff_hz as int),
            (rng, z as int) == spec_noise_state(level as int, alpha as int, k as int),
            -0x40000 <= z <= 0x40000,
            forall|j: int|
                0 <= j < samples@.len() && !(start <= j < start + k) ==> samples@[j] == old(
                    samples,
                )@[j],
            forall|j: int|
                0 <= j < k ==> samples@[start + j] == spec_noise_sample(
                    level as int,
                    alpha as int,
                    j,
                ),
        decreases count - k,
    {
        let mut sum: u32 = 0;
        let mut d: usize = 0;
        while d < 12
            invariant
                d <= 12,
                sum <= d * 4095,
                (rng, sum as int) == spec_draw_sum(
                    spec_noise_state(level as int, alpha as int, k as int).0,
                    d as int,
                ),
            decreases 12 - d,
        {
            rng = rng ^ (rng << 13u32);
            rng = rng ^ (rng >> 17u32);
            rng = rng ^ (rng << 5u32);
            sum = sum + rng / 0x10_0000;
            d = d + 1;
        }
        let centered: i64 = (sum as i64) - 24570;
        assert(-24570 * 32768 <= centered * (level as i64) <= 24570 * 32768i64)
            by (nonlinear_arith)
            requires
                -24570 <= centered <= 24570,
                0 <= level <= 32768,
        ;
        let scaled = div_trunc_i64(centered * (level as i64), 4096);
        assert(-0x40000 <= scaled <= 0x40000) by {
            lemma_div_multiples_vanish(0x40000int, 4096int);
            if centered * (level as i64) >= 0 {
                lemma_div_is_ordered(
                    (centered * (level as i64)) as int,
                    0x40000int * 4096int,
                    4096int,
                );
            } else {
                lemma_div_is_ordered(
                    (-(centered * (level as i64))) as int,
                    0x40000int * 4096int,
                    4096int,
                );
            }
        }
        assert(-32768i64 * 0x80000 <= (alpha as i64) * (scaled - z) <= 32768i64 * 0x80000)
            by (nonlinear_arith)
            requires
                0 <= alpha <= 32768,
                -0x80000 <= scaled - z <= 0x80000i64,
        ;
        let t = div_trunc_i64((alpha as i64) * (scaled - z), 32768);
        proof {
            lemma_lp_step_bound(z as int, scaled as int, alpha as int, 0x40000);
        }
        z = z + t;
        let out: i16 = if z > 32767 {
            32767
        } else if z < -32768 {
            -32768
        } else {
            z as i16
        };
        samples.set(start + k, out);
        k = k + 1;
    }
}


} // verus!
