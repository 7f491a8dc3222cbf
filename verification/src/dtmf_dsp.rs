use vstd::prelude::*;

verus! {

use crate::trig::{cos_turn_q30, div_trunc_i64, spec_cos_turn_q30, spec_div_trunc, Q30};
use vstd::arithmetic::div_mod::{lemma_div_is_ordered, lemma_div_multiples_vanish};

/// The number of DTMF target frequencies: four row tones, four column tones.
pub const TOTAL_BINS: usize = 8;

/// Filter states are clamped to this magnitude; with 16-bit input samples
/// and windows up to a second they stay far below it.
pub const STATE_CLAMP: i64 = 0x8000_0000;

/// Default peak dominance ratio in Q8: the strongest tone of a group must
/// be at least six times the runner-up.
pub const DEFAULT_PEAK_RATIO_Q8: u32 = 1536;

/// Default twist tolerance in Q8: the row and column powers may differ by
/// at most a factor of about 15.85, i.e. 12 dB.
pub const DEFAULT_TWIST_RATIO_Q8: u32 = 4057;

/// The DTMF target frequency of a bin: rows first, then columns.
pub open spec fn spec_dtmf_freq(i: int) -> u32 {
    if i == 0 {
        697
    } else if i == 1 {
        770
    } else if i == 2 {
        852
    } else if i == 3 {
        941
    } else if i == 4 {
        1209
    } else if i == 5 {
        1336
    } else if i == 6 {
        1477
    } else {
        1633
    }
}

fn dtmf_freq(i: usize) -> (r: u32)
    requires
        i < TOTAL_BINS,
    ensures
        r == spec_dtmf_freq(i as int),
{
    if i == 0 {
        697
    } else if i == 1 {
        770
    } else if i == 2 {
        852
    } else if i == 3 {
        941
    } else if i == 4 {
        1209
    } else if i == 5 {
        1336
    } else if i == 6 {
        1477
    } else {
        1633
    }
}

/// The key at a row/column intersection of the fixed 4 by 4 layout.
pub open spec fn spec_dtmf_key(row: int, col: int) -> char {
    if row == 0 {
        if col == 0 {
            '1'
        } else if col == 1 {
            '2'
        } else if col == 2 {
            '3'
        } else {
            'A'
        }
    } else if row == 1 {
        if col == 0 {
            '4'
        } else if col == 1 {
            '5'
        } else if col == 2 {
            '6'
        } else {
            'B'
        }
    } else if row == 2 {
        if col == 0 {
            '7'
        } else if col == 1 {
            '8'
        } else if col == 2 {
            '9'
        } else {
            'C'
        }
    } else {
        if col == 0 {
            '*'
        } else if col == 1 {
            '0'
        } else if col == 2 {
            '#'
        } else {
            'D'
        }
    }
}

fn dtmf_key(row: usize, col: usize) -> (r: char)
    requires
        row < 4,
        col < 4,
    ensures
        r == spec_dtmf_key(row as int, col as int),
{
    if row == 0 {
        if col == 0 {
            '1'
        } else if col == 1 {
            '2'
        } else if col == 2 {
            '3'
        } else {
            'A'
        }
    } else if row == 1 {
        if col == 0 {
            '4'
        } else if col == 1 {
            '5'
        } else if col == 2 {
            '6'
        } else {
            'B'
        }
    } else if row == 2 {
        if col == 0 {
            '7'
        } else if col == 1 {
            '8'
        } else if col == 2 {
            '9'
        } else {
            'C'
        }
    } else {
        if col == 0 {
            '*'
        } else if col == 1 {
            '0'
        } else if col == 2 {
            '#'
        } else {
            'D'
        }
    }
}

/// The Goertzel coefficient for a target frequency at a sample rate:
/// twice the cosine of the frequency as a fraction of a turn, in Q30.
pub open spec fn spec_coeff(sample_rate_hz: int, freq_hz: int) -> int {
    2 * spec_cos_turn_q30(((freq_hz % sample_rate_hz) * 0x1_0000_0000) / sample_rate_hz)
}

/// A filter state clamped to the working range.
pub open spec fn spec_clamp(v: int) -> int {
    if v > STATE_CLAMP {
        STATE_CLAMP as int
    } else if v < -STATE_CLAMP {
        -(STATE_CLAMP as int)
    } else {
        v
    }
}

/// One step of the two-pole Goertzel recursion on one bin.
pub open spec fn spec_goertzel_step(c: int, s1: int, s2: int, x: int) -> int {
    spec_clamp(x + spec_div_trunc(c * s1, Q30 as int) - s2)
}

/// The bin state `(s1, s2)` after feeding the first `i` samples of `xs`
/// from the state `(s1, s2)`.
pub open spec fn spec_feed_bin(c: int, s1: int, s2: int, xs: Seq<i16>, i: int) -> (int, int)
    decreases i,
{
    if i <= 0 {
        (s1, s2)
    } else {
        let (p1, p2) = spec_feed_bin(c, s1, s2, xs, i - 1);
        (spec_goertzel_step(c, p1, p2, xs[i - 1] as int), p1)
    }
}

/// The magnitude-squared score of one bin from its two final states,
/// both scaled down to keep the products in range.
pub open spec fn spec_mag(c: int, s1: int, s2: int) -> int {
    let m1 = spec_div_trunc(s1, 1024);
    let m2 = spec_div_trunc(s2, 1024);
    m1 * m1 + m2 * m2 - spec_div_trunc(c * m1, Q30 as int) * m2
}

/// The strongest and second-strongest values of a sequence, exactly as
/// the single left-to-right pass of [`top_two`] finds them: the index and
/// value of the first maximum, and the best value seen outside it, with
/// `i64::MIN` standing for none.
pub open spec fn spec_top_two_fold(values: Seq<i64>, i: int) -> (int, int, int)
    decreases i,
{
    if i <= 1 {
        (0, values[0] as int, i64::MIN as int)
    } else {
        let (mi, mv, nv) = spec_top_two_fold(values, i - 1);
        let v = values[i - 1] as int;
        if v > mv {
            (i - 1, v, mv)
        } else if v > nv {
            (mi, mv, v)
        } else {
            (mi, mv, nv)
        }
    }
}

pub open spec fn spec_top_two(values: Seq<i64>) -> Option<(int, int, int)> {
    if values.len() == 0 {
        None
    } else {
        let (mi, mv, nv) = spec_top_two_fold(values, values.len() as int);
        if nv == i64::MIN {
            None
        } else {
            Some((mi, mv, nv))
        }
    }
}

/// Find the strongest and second-strongest values in one pass: the index
/// and value of the first maximum, and the largest value at any other
/// index. `None` when the slice is empty or every other value is the
/// smallest representable one.
pub fn top_two(values: &[i64]) -> (r: Option<(usize, i64, i64)>)
    ensures
        match r {
            Some((mi, mv, nv)) => spec_top_two(values@) == Some((mi as int, mv as int, nv as int)),
            None => spec_top_two(values@) is None,
        },
{
    if values.len() == 0 {
        return None;
    }
    let mut max_i: usize = 0;
    let mut max_v: i64 = values[0];
    let mut next_v: i64 = i64::MIN;
    let mut i: usize = 1;
    while i < values.len()
        invariant
            1 <= i <= values@.len(),
            values@.len() <= usize::MAX,
            (max_i as int, max_v as int, next_v as int) == spec_top_two_fold(values@, i as int),
            max_i < i,
        decreases values@.len() - i,
    {
        let v = values[i];
        if v > max_v {
            next_v = max_v;
            max_v = v;
            max_i = i;
        } else if v > next_v {
            next_v = v;
        }
        i = i + 1;
    }
    if next_v == i64::MIN {
        return None;
    }
    Some((max_i, max_v, next_v))
}

/// Law: what [`top_two`] reports is the maximum of the sequence (at the
/// first index attaining it), and the best value among all other indices.
pub proof fn lemma_top_two_is_max(values: Seq<i64>, i: int)
    requires
        1 <= i <= values.len(),
    ensures
        ({
            let (mi, mv, nv) = spec_top_two_fold(values, i);
            &&& 0 <= mi < i
            &&& values[mi] == mv
            &&& forall|j: int| 0 <= j < mi ==> values[j] < mv
            &&& forall|j: int| #![auto] 0 <= j < i ==> values[j] <= mv
            &&& forall|j: int| #![auto] 0 <= j < i && j != mi ==> values[j] <= nv
            &&& (nv > i64::MIN ==> exists|j: int|
                0 <= j < i && j != mi && values[j] == nv)
        }),
    decreases i,
{
    if i > 1 {
        lemma_top_two_is_max(values, i - 1);
    }
}

/// The decision over eight bin scores: rows are bins 0 to 3, columns 4
/// to 7. The strongest row must dominate the runner-up row by the peak
/// ratio, likewise for columns; both winners must be positive, and their
/// powers must be within the twist ratio of each other. Then the key is
/// the row/column intersection.
pub open spec fn spec_detect(mags: Seq<i64>, peak_q8: int, twist_q8: int) -> Option<char> {
    let rows = mags.subrange(0, 4);
    let cols = mags.subrange(4, 8);
    match (spec_top_two(rows), spec_top_two(cols)) {
        (Some((li, lp, ln)), Some((hi, hp, hn))) => {
            if lp * 256 < ln * peak_q8 || hp * 256 < hn * peak_q8 {
                None
            } else if lp <= 0 || hp <= 0 {
                None
            } else if hp * 256 > lp * twist_q8 || lp * 256 > hp * twist_q8 {
                None
            } else {
                Some(spec_dtmf_key(li, hi))
            }
        },
        _ => None,
    }
}

/// DTMF detector: eight single-bin Goertzel filters over one fixed
/// accumulation window of `n` samples; extra samples beyond the window
/// are ignored until [`reset`](Self::reset).
pub struct DtmfDetector {
    /// Window length in samples, at least one.
    pub n: usize,
    /// Q30 Goertzel coefficients, one per target frequency.
    pub coeffs: Vec<i64>,
    /// Peak dominance threshold in Q8.
    pub peak_ratio_q8: u32,
    /// Twist tolerance as a power ratio in Q8.
    pub twist_ratio_q8: u32,
    /// Newest filter state per bin.
    pub s1: Vec<i64>,
    /// Second-newest filter state per bin.
    pub s2: Vec<i64>,
    /// Samples consumed of the current window.
    pub samples_seen: usize,
}

impl DtmfDetector {
    pub open spec fn wf(&self) -> bool {
        &&& self.coeffs@.len() == TOTAL_BINS
        &&& self.peak_ratio_q8 <= 65536
        &&& self.twist_ratio_q8 <= 65536
        &&& self.s1@.len() == TOTAL_BINS
        &&& self.s2@.len() == TOTAL_BINS
        &&& self.n >= 1
        &&& forall|b: int|
            0 <= b < TOTAL_BINS ==> -2 * (Q30 as int) <= #[trigger] self.coeffs@[b] <= 2 * (
            Q30 as int)
        &&& forall|b: int|
            0 <= b < TOTAL_BINS ==> -(STATE_CLAMP as int) <= #[trigger] self.s1@[b] <= (
            STATE_CLAMP as int)
        &&& forall|b: int|
            0 <= b < TOTAL_BINS ==> -(STATE_CLAMP as int) <= #[trigger] self.s2@[b] <= (
            STATE_CLAMP as int)
    }

    /// The eight bin scores of the current state.
    pub open spec fn spec_mags(&self) -> Seq<i64> {
        Seq::new(TOTAL_BINS as nat, |b: int| spec_mag(self.coeffs@[b] as int, self.s1@[b] as int, self.s2@[b] as int) as i64)
    }

    /// Create a detector with the default thresholds.
    pub fn new(sample_rate_hz: u32, n: usize) -> (r: Self)
        requires
            1 <= sample_rate_hz,
        ensures
            r.wf(),
            r.n == if n < 1 { 1int } else { n as int },
            r.samples_seen == 0,
            r.peak_ratio_q8 == DEFAULT_PEAK_RATIO_Q8,
            r.twist_ratio_q8 == DEFAULT_TWIST_RATIO_Q8,
            forall|b: int|
                0 <= b < TOTAL_BINS ==> #[trigger] r.coeffs@[b] as int == spec_coeff(
                    sample_rate_hz as int,
                    spec_dtmf_freq(b) as int,
                ),
            forall|b: int| 0 <= b < TOTAL_BINS ==> #[trigger] r.s1@[b] == 0,
            forall|b: int| 0 <= b < TOTAL_BINS ==> #[trigger] r.s2@[b] == 0,
    {
        Self::with_thresholds(sample_rate_hz, n, DEFAULT_PEAK_RATIO_Q8, DEFAULT_TWIST_RATIO_Q8)
    }

    /// Create a detector with custom peak dominance and twist thresholds,
    /// both power ratios in Q8.
    pub fn with_thresholds(sample_rate_hz: u32, n: usize, peak_ratio_q8: u32, twist_ratio_q8: u32) -> (r: Self)
        requires
            1 <= sample_rate_hz,
            peak_ratio_q8 <= 65536,
            twist_ratio_q8 <= 65536,
        ensures
            r.wf(),
            r.n == if n < 1 { 1int } else { n as int },
            r.samples_seen == 0,
            r.peak_ratio_q8 == peak_ratio_q8,
            r.twist_ratio_q8 == twist_ratio_q8,
            forall|b: int|
                0 <= b < TOTAL_BINS ==> #[trigger] r.coeffs@[b] as int == spec_coeff(
                    sample_rate_hz as int,
                    spec_dtmf_freq(b) as int,
                ),
            forall|b: int| 0 <= b < TOTAL_BINS ==> #[trigger] r.s1@[b] == 0,
            forall|b: int| 0 <= b < TOTAL_BINS ==> #[trigger] r.s2@[b] == 0,
    {
        let mut coeffs: Vec<i64> = Vec::new();
        let mut s1: Vec<i64> = Vec::new();
        let mut s2: Vec<i64> = Vec::new();
        let mut b: usize = 0;
        while b < TOTAL_BINS
            invariant
                b <= TOTAL_BINS,
                1 <= sample_rate_hz,
                coeffs@.len() == b,
                s1@.len() == b,
                s2@.len() == b,
                forall|i: int|
                    0 <= i < b ==> #[trigger] coeffs@[i] as int == spec_coeff(
                        sample_rate_hz as int,
                        spec_dtmf_freq(i) as int,
                    ),
                forall|i: int|
                    0 <= i < b ==> -2 * (Q30 as int) <= #[trigger] coeffs@[i] <= 2 * (Q30 as int),
                forall|i: int| 0 <= i < b ==> #[trigger] s1@[i] == 0,
                forall|i: int| 0 <= i < b ==> #[trigger] s2@[i] == 0,
            decreases TOTAL_BINS - b,
        {
            let f = dtmf_freq(b);
            let rem = (f as u64) % (sample_rate_hz as u64);
            proof {
                let fsi = sample_rate_hz as int;
                let remi = rem as int;
                assert(remi * 0x1_0000_0000int <= (fsi - 1) * 0x1_0000_0000int)
                    by (nonlinear_arith)
                    requires
                        remi <= fsi - 1,
                ;
                assert((fsi - 1) * 0x1_0000_0000int <= fsi * 0x1_0000_0000int - 0x1_0000_0000int)
                    by (nonlinear_arith);
                assert(fsi * 0xFFFF_FFFFint + (fsi - 1) == fsi * 0x1_0000_0000int - 1)
                    by (nonlinear_arith);
                vstd::arithmetic::div_mod::lemma_div_multiples_vanish_fancy(
                    0xFFFF_FFFFint,
                    fsi - 1,
                    fsi,
                );
                lemma_div_is_ordered(remi * 0x1_0000_0000int, fsi * 0x1_0000_0000int - 1, fsi);
                vstd::arithmetic::mul::lemma_mul_nonnegative(remi, 0x1_0000_0000int);
                vstd::arithmetic::div_mod::lemma_div_pos_is_pos(remi * 0x1_0000_0000int, fsi);
            }
            let t_q32 = ((rem * 0x1_0000_0000u64) / (sample_rate_hz as u64)) as u32;
            let c = 2 * cos_turn_q30(t_q32);
            coeffs.push(c);
            s1.push(0);
            s2.push(0);
            b = b + 1;
        }
        DtmfDetector {
            n: if n < 1 {
                1
            } else {
                n
            },
            coeffs,
            peak_ratio_q8,
            twist_ratio_q8,
            s1,
            s2,
            samples_seen: 0,
        }
    }

    /// Zero the filter states for a new accumulation window.
    pub fn reset(&mut self)
        requires
            old(self).wf(),
        ensures
            final(self).wf(),
            final(self).n == old(self).n,
            final(self).coeffs == old(self).coeffs,
            final(self).peak_ratio_q8 == old(self).peak_ratio_q8,
            final(self).twist_ratio_q8 == old(self).twist_ratio_q8,
            final(self).samples_seen == 0,
            forall|b: int| 0 <= b < TOTAL_BINS ==> #[trigger] final(self).s1@[b] == 0,
            forall|b: int| 0 <= b < TOTAL_BINS ==> #[trigger] final(self).s2@[b] == 0,
    {
        let mut b: usize = 0;
        while b < TOTAL_BINS
            invariant
                old(self).wf(),
                b <= TOTAL_BINS,
                self.n == old(self).n,
                self.coeffs == old(self).coeffs,
                self.peak_ratio_q8 == old(self).peak_ratio_q8,
                self.twist_ratio_q8 == old(self).twist_ratio_q8,
                self.samples_seen == old(self).samples_seen,
                self.s1@.len() == TOTAL_BINS,
                self.s2@.len() == TOTAL_BINS,
                forall|i: int| 0 <= i < b ==> #[trigger] self.s1@[i] == 0,
                forall|i: int| 0 <= i < b ==> #[trigger] self.s2@[i] == 0,
                forall|i: int|
                    0 <= i < TOTAL_BINS ==> -(STATE_CLAMP as int) <= #[trigger] self.s1@[i] <= (
                    STATE_CLAMP as int),
                forall|i: int|
                    0 <= i < TOTAL_BINS ==> -(STATE_CLAMP as int) <= #[trigger] self.s2@[i] <= (
                    STATE_CLAMP as int),
            decreases TOTAL_BINS - b,
        {
            self.s1.set(b, 0);
            self.s2.set(b, 0);
            b = b + 1;
        }
        self.samples_seen = 0;
    }
}


/// How many samples of a push the open window still accepts.
pub open spec fn spec_feed_consumed(seen: int, n: int, len: int) -> int {
    if seen >= n {
        0
    } else if len < n - seen {
        len
    } else {
        n - seen
    }
}

/// A bound on the bin scores, wide enough for the threshold products.
pub const MAG_BOUND: i64 = 0x2000_0000_0000;

impl DtmfDetector {
    /// Run the two-pole recursion on every bin over `samples[from..to]`,
    /// consuming at most what the window still accepts.
    pub fn feed_range(&mut self, samples: &[i16], from: usize, to: usize)
        requires
            old(self).wf(),
            from <= to <= samples@.len(),
        ensures
            final(self).wf(),
            final(self).n == old(self).n,
            final(self).coeffs == old(self).coeffs,
            final(self).peak_ratio_q8 == old(self).peak_ratio_q8,
            final(self).twist_ratio_q8 == old(self).twist_ratio_q8,
            ({
                let window = samples@.subrange(from as int, to as int);
                let consumed = spec_feed_consumed(
                    old(self).samples_seen as int,
                    old(self).n as int,
                    window.len() as int,
                );
                &&& final(self).samples_seen == old(self).samples_seen + consumed
                &&& forall|b: int|
                    0 <= b < TOTAL_BINS ==> (
                    #[trigger] final(self).s1@[b] as int,
                    final(self).s2@[b] as int,
                ) == spec_feed_bin(
                    old(self).coeffs@[b] as int,
                    old(self).s1@[b] as int,
                    old(self).s2@[b] as int,
                    window,
                    consumed,
                )
            }),
    {
        let ghost window = samples@.subrange(from as int, to as int);
        if self.samples_seen >= self.n {
            return ;
        }
        let remaining = self.n - self.samples_seen;
        let len = to - from;
        let take = if len < remaining {
            len
        } else {
            remaining
        };
        let mut j: usize = 0;
        while j < take
            invariant
                old(self).wf(),
                self.wf(),
                j <= take,
                from <= to <= samples@.len(),
                window == samples@.subrange(from as int, to as int),
                take <= to - from,
                take == spec_feed_consumed(
                    old(self).samples_seen as int,
                    old(self).n as int,
                    window.len() as int,
                ),
                self.n == old(self).n,
                self.coeffs == old(self).coeffs,
                self.peak_ratio_q8 == old(self).peak_ratio_q8,
                self.twist_ratio_q8 == old(self).twist_ratio_q8,
                self.samples_seen == old(self).samples_seen,
                forall|b: int|
                    0 <= b < TOTAL_BINS ==> (
                    #[trigger] self.s1@[b] as int,
                    self.s2@[b] as int,
                ) == spec_feed_bin(
                    old(self).coeffs@[b] as int,
                    old(self).s1@[b] as int,
                    old(self).s2@[b] as int,
                    window,
                    j as int,
                ),
            decreases take - j,
        {
            let x = samples[from + j];
            proof {
                assert(x == window[j as int]);
            }
            let mut b: usize = 0;
            while b < TOTAL_BINS
                invariant
                    old(self).wf(),
                    self.wf(),
                    b <= TOTAL_BINS,
                    j < take,
                    from <= to <= samples@.len(),
                    window == samples@.subrange(from as int, to as int),
                    take <= to - from,
                    x == window[j as int],
                    self.n == old(self).n,
                    self.coeffs == old(self).coeffs,
                    self.peak_ratio_q8 == old(self).peak_ratio_q8,
                    self.twist_ratio_q8 == old(self).twist_ratio_q8,
                    self.samples_seen == old(self).samples_seen,
                    forall|i: int|
                        0 <= i < b ==> (#[trigger] self.s1@[i] as int, self.s2@[i] as int)
                            == spec_feed_bin(
                            old(self).coeffs@[i] as int,
                            old(self).s1@[i] as int,
                            old(self).s2@[i] as int,
                            window,
                            j as int + 1,
                        ),
                    forall|i: int|
                        b <= i < TOTAL_BINS ==> (#[trigger] self.s1@[i] as int, self.s2@[i] as int)
                            == spec_feed_bin(
                            old(self).coeffs@[i] as int,
                            old(self).s1@[i] as int,
                            old(self).s2@[i] as int,
                            window,
                            j as int,
                        ),
                decreases TOTAL_BINS - b,
            {
                let c = self.coeffs[b];
                let s1b = self.s1[b];
                let s2b = self.s2[b];
                assert(-(0x8000_0000i64 * 0x8000_0000i64) <= c * s1b <= 0x8000_0000i64
                    * 0x8000_0000i64)
                    by (nonlinear_arith)
                    requires
                        -0x8000_0000i64 <= c <= 0x8000_0000i64,
                        -0x8000_0000i64 <= s1b <= 0x8000_0000i64,
                ;
                let prod = c * s1b;
                let q = div_trunc_i64(prod, Q30);
                assert(-0x1_0000_0000i64 <= q <= 0x1_0000_0000i64) by {
                    lemma_div_multiples_vanish(0x1_0000_0000int, Q30 as int);
                    if prod >= 0 {
                        lemma_div_is_ordered(prod as int, 0x1_0000_0000int * (Q30 as int), Q30 as int);
                    } else {
                        lemma_div_is_ordered((-prod) as int, 0x1_0000_0000int * (Q30 as int), Q30 as int);
                    }
                }
                let raw = (x as i64) + q - s2b;
                let s0 = if raw > STATE_CLAMP {
                    STATE_CLAMP
                } else if raw < -STATE_CLAMP {
                    -STATE_CLAMP
                } else {
                    raw
                };
                self.s2.set(b, s1b);
                self.s1.set(b, s0);
                b = b + 1;
            }
            j = j + 1;
        }
        self.samples_seen = self.samples_seen + take;
    }

    /// Feed samples into the detector accumulators, up to `n` in total
    /// across calls; extra samples are silently ignored.
    pub fn feed(&mut self, samples: &[i16])
        requires
            old(self).wf(),
        ensures
            final(self).wf(),
            final(self).n == old(self).n,
            final(self).coeffs == old(self).coeffs,
            final(self).peak_ratio_q8 == old(self).peak_ratio_q8,
            final(self).twist_ratio_q8 == old(self).twist_ratio_q8,
            ({
                let consumed = spec_feed_consumed(
                    old(self).samples_seen as int,
                    old(self).n as int,
                    samples@.len() as int,
                );
                &&& final(self).samples_seen == old(self).samples_seen + consumed
                &&& forall|b: int|
                    0 <= b < TOTAL_BINS ==> (
                    #[trigger] final(self).s1@[b] as int,
                    final(self).s2@[b] as int,
                ) == spec_feed_bin(
                    old(self).coeffs@[b] as int,
                    old(self).s1@[b] as int,
                    old(self).s2@[b] as int,
                    samples@,
                    consumed,
                )
            }),
    {
        let n = samples.len();
        self.feed_range(samples, 0, n);
        proof {
            assert(samples@.subrange(0, n as int) =~= samples@);
        }
    }

    /// Score every bin and decide: the strongest row and column tone must
    /// each dominate their runner-up by the peak ratio, both must be
    /// positive, and their powers must lie within the twist ratio; then
    /// the detected key is their intersection in the fixed layout.
    pub fn finish(&self) -> (r: Option<char>)
        requires
            self.wf(),
        ensures
            r == spec_detect(
                self.spec_mags(),
                self.peak_ratio_q8 as int,
                self.twist_ratio_q8 as int,
            ),
    {
        let mut rows: Vec<i64> = Vec::new();
        let mut cols: Vec<i64> = Vec::new();
        let mut b: usize = 0;
        while b < TOTAL_BINS
            invariant
                self.wf(),
                b <= TOTAL_BINS,
                rows@.len() == if b < 4 { b as int } else { 4int },
                cols@.len() == if b < 4 { 0int } else { b - 4 },
                forall|k: int|
                    0 <= k < rows@.len() ==> #[trigger] rows@[k] == self.spec_mags()[k],
                forall|k: int|
                    0 <= k < cols@.len() ==> #[trigger] cols@[k] == self.spec_mags()[k + 4],
                forall|k: int|
                    0 <= k < rows@.len() ==> -MAG_BOUND <= #[trigger] rows@[k] <= MAG_BOUND,
                forall|k: int|
                    0 <= k < cols@.len() ==> -MAG_BOUND <= #[trigger] cols@[k] <= MAG_BOUND,
            decreases TOTAL_BINS - b,
        {
            let c = self.coeffs[b];
            let m1 = div_trunc_i64(self.s1[b], 1024);
            let m2 = div_trunc_i64(self.s2[b], 1024);
            assert(-0x20_0000i64 <= m1 <= 0x20_0000i64 && -0x20_0000i64 <= m2 <= 0x20_0000i64)
                by {
                lemma_div_multiples_vanish(0x20_0000int, 1024int);
                if self.s1@[b as int] >= 0 {
                    lemma_div_is_ordered(self.s1@[b as int] as int, 0x20_0000int * 1024int, 1024int);
                } else {
                    lemma_div_is_ordered(-(self.s1@[b as int] as int), 0x20_0000int * 1024int, 1024int);
                }
                if self.s2@[b as int] >= 0 {
                    lemma_div_is_ordered(self.s2@[b as int] as int, 0x20_0000int * 1024int, 1024int);
                } else {
                    lemma_div_is_ordered(-(self.s2@[b as int] as int), 0x20_0000int * 1024int, 1024int);
                }
            }
            assert(-(0x8000_0000i64 * 0x20_0000i64) <= c * m1 <= 0x8000_0000i64 * 0x20_0000i64)
                by (nonlinear_arith)
                requires
                    -0x8000_0000i64 <= c <= 0x8000_0000i64,
                    -0x20_0000i64 <= m1 <= 0x20_0000i64,
            ;
            let cq = div_trunc_i64(c * m1, Q30);
            assert(-0x40_0000i64 <= cq <= 0x40_0000i64) by {
                lemma_div_multiples_vanish(0x40_0000int, Q30 as int);
                if c * m1 >= 0 {
                    lemma_div_is_ordered((c * m1) as int, 0x40_0000int * (Q30 as int), Q30 as int);
                } else {
                    lemma_div_is_ordered(-((c * m1) as int), 0x40_0000int * (Q30 as int), Q30 as int);
                }
            }
            assert(0 <= m1 * m1 <= 0x20_0000i64 * 0x20_0000i64 && 0 <= m2 * m2 <= 0x20_0000i64
                * 0x20_0000i64 && -(0x40_0000i64 * 0x20_0000i64) <= cq * m2 <= 0x40_0000i64
                * 0x20_0000i64)
                by (nonlinear_arith)
                requires
                    -0x20_0000i64 <= m1 <= 0x20_0000i64,
                    -0x20_0000i64 <= m2 <= 0x20_0000i64,
                    -0x40_0000i64 <= cq <= 0x40_0000i64,
            ;
            let mag = m1 * m1 + m2 * m2 - cq * m2;
            if b < 4 {
                rows.push(mag);
            } else {
                cols.push(mag);
            }
            b = b + 1;
        }
        let rt = top_two(rows.as_slice());
        let ct = top_two(cols.as_slice());
        proof {
            assert(rows@ =~= self.spec_mags().subrange(0, 4));
            assert(cols@ =~= self.spec_mags().subrange(4, 8));
        }
        let (li, lp, ln) = match rt {
            Some(t) => t,
            None => {
                return None;
            },
        };
        let (hi, hp, hn) = match ct {
            Some(t) => t,
            None => {
                return None;
            },
        };
        proof {
            lemma_top_two_is_max(rows@, 4);
            lemma_top_two_is_max(cols@, 4);
        }
        assert(-MAG_BOUND <= lp <= MAG_BOUND && -MAG_BOUND <= ln <= MAG_BOUND && -MAG_BOUND <= hp
            <= MAG_BOUND && -MAG_BOUND <= hn <= MAG_BOUND);
        let pr = self.peak_ratio_q8 as i64;
        let tw = self.twist_ratio_q8 as i64;
        assert(-(MAG_BOUND * 65536i64) <= ln * pr <= MAG_BOUND * 65536i64 && -(MAG_BOUND
            * 65536i64) <= hn * pr <= MAG_BOUND * 65536i64 && -(MAG_BOUND * 65536i64) <= lp * tw
            <= MAG_BOUND * 65536i64 && -(MAG_BOUND * 65536i64) <= hp * tw <= MAG_BOUND * 65536i64)
            by (nonlinear_arith)
            requires
                -MAG_BOUND <= lp <= MAG_BOUND,
                -MAG_BOUND <= ln <= MAG_BOUND,
                -MAG_BOUND <= hp <= MAG_BOUND,
                -MAG_BOUND <= hn <= MAG_BOUND,
                0 <= pr <= 65536i64,
                0 <= tw <= 65536i64,
        ;
        if lp * 256 < ln * pr || hp * 256 < hn * pr {
            return None;
        }
        if lp <= 0 || hp <= 0 {
            return None;
        }
        if hp * 256 > lp * tw || lp * 256 > hp * tw {
            return None;
        }
        Some(dtmf_key(li, hi))
    }

    /// One-shot detection over a single whole window: `None` unless the
    /// slice is exactly one window long, else the decision over it from
    /// a fresh state.
    pub fn detect_frame(&mut self, samples: &[i16]) -> (r: Option<char>)
        requires
            old(self).wf(),
        ensures
            final(self).wf(),
            final(self).n == old(self).n,
            final(self).coeffs == old(self).coeffs,
            final(self).peak_ratio_q8 == old(self).peak_ratio_q8,
            final(self).twist_ratio_q8 == old(self).twist_ratio_q8,
            samples@.len() != old(self).n ==> r is None && *final(self) == *old(self),
            samples@.len() == old(self).n ==> r == spec_detect_frame(
                old(self).coeffs@,
                old(self).n as int,
                old(self).peak_ratio_q8 as int,
                old(self).twist_ratio_q8 as int,
                samples@,
            ),
    {
        if samples.len() != self.n {
            return None;
        }
        self.reset();
        self.feed(samples);
        let r = self.finish();
        proof {
            assert(self.spec_mags() =~= Seq::new(
                TOTAL_BINS as nat,
                |b: int|
                    spec_mag(
                        old(self).coeffs@[b] as int,
                        spec_feed_bin(
                            old(self).coeffs@[b] as int,
                            0,
                            0,
                            samples@,
                            old(self).n as int,
                        ).0,
                        spec_feed_bin(
                            old(self).coeffs@[b] as int,
                            0,
                            0,
                            samples@,
                            old(self).n as int,
                        ).1,
                    ) as i64,
            ));
        }
        r
    }
}

/// The decision [`detect_frame`](DtmfDetector::detect_frame) reaches on
/// one whole window fed from a fresh state.
pub open spec fn spec_detect_frame(
    coeffs: Seq<i64>,
    n: int,
    peak_q8: int,
    twist_q8: int,
    samples: Seq<i16>,
) -> Option<char> {
    spec_detect(
        Seq::new(
            TOTAL_BINS as nat,
            |b: int|
                spec_mag(
                    coeffs[b] as int,
                    spec_feed_bin(coeffs[b] as int, 0, 0, samples, n).0,
                    spec_feed_bin(coeffs[b] as int, 0, 0, samples, n).1,
                ) as i64,
        ),
        peak_q8,
        twist_q8,
    )
}


} // verus!
