use vstd::prelude::*;

verus! {

use crate::trig::{div_trunc_i64, sin_turn_q15, spec_div_trunc, spec_sin_turn_q15};

/// Length of the sine table: one full turn.
pub const TABLE_LEN: usize = 4096;

/// One table index step in Q32 turn units.
pub const TURN_PER_ENTRY_Q32: u32 = 0x10_0000;

/// The phase modulus: one full turn in Q32 table-index units.
pub const PHASE_MOD: u64 = 0x1000_0000_0000;

/// What one period of the sine table holds at entry `i`.
pub open spec fn spec_table_entry(i: int) -> i16 {
    spec_sin_turn_q15(i * TURN_PER_ENTRY_Q32)
}

/// The per-sample phase increment, in Q32 table-index units, for a tone
/// frequency at a sample rate: `freq * TABLE_LEN * 2^32 / rate`, wrapped
/// to one turn.
pub open spec fn spec_phase_inc(sample_rate_hz: int, tone_freq_hz: int) -> int {
    ((tone_freq_hz * PHASE_MOD) / sample_rate_hz) % (PHASE_MOD as int)
}

/// The oscillator's output at a phase: linear interpolation between the
/// two bracketing sine-table entries, in Q15.
pub open spec fn spec_osc_value(phase: int) -> int {
    let idx = phase / 0x1_0000_0000;
    let frac = phase % 0x1_0000_0000;
    let t0 = spec_table_entry(idx) as int;
    let t1 = spec_table_entry((idx + 1) % (TABLE_LEN as int)) as int;
    spec_div_trunc(t0 * (0x1_0000_0000 - frac) + t1 * frac, 0x1_0000_0000)
}

/// A band-limited sine tone source: one immutable table of one period,
/// a phase and a fixed per-sample increment, both in Q32 table-index
/// units. The phase is wrapped after every advance and never grows
/// without bound.
pub struct SineOscillator {
    /// One period of a sine wave, `TABLE_LEN` Q15 samples.
    pub table: Vec<i16>,
    /// Current phase in Q32 table-index units, always below [`PHASE_MOD`].
    pub phase_q32: u64,
    /// Per-sample phase increment, always below [`PHASE_MOD`].
    pub inc_q32: u64,
}

impl SineOscillator {
    /// The table holds the sine period and the phases are wrapped.
    pub open spec fn wf(&self) -> bool {
        &&& self.table@.len() == TABLE_LEN
        &&& forall|i: int| 0 <= i < TABLE_LEN ==> self.table@[i] == spec_table_entry(i)
        &&& self.phase_q32 < PHASE_MOD
        &&& self.inc_q32 < PHASE_MOD
    }

    /// Build an oscillator at phase zero for the given tone.
    pub fn new(sample_rate_hz: u32, tone_freq_hz: u32) -> (r: Self)
        requires
            1 <= sample_rate_hz,
        ensures
            r.wf(),
            r.phase_q32 == 0,
            r.inc_q32 as int == spec_phase_inc(sample_rate_hz as int, tone_freq_hz as int),
    {
        let inc_wide: u128 = ((tone_freq_hz as u128) * (PHASE_MOD as u128)) / (
        sample_rate_hz as u128);
        let inc = (inc_wide % (PHASE_MOD as u128)) as u64;
        let mut table: Vec<i16> = Vec::new();
        let mut i: usize = 0;
        while i < TABLE_LEN
            invariant
                i <= TABLE_LEN,
                table@.len() == i,
                forall|j: int| 0 <= j < i ==> table@[j] == spec_table_entry(j),
            decreases TABLE_LEN - i,
        {
            let entry = sin_turn_q15((i as u32) * TURN_PER_ENTRY_Q32);
            table.push(entry);
            i = i + 1;
        }
        SineOscillator { table, phase_q32: 0, inc_q32: inc }
    }

    /// Advance the phase by `n` samples without producing output, so a
    /// silent stretch stays phase-consistent with a continuous tone.
    pub fn advance(&mut self, n: usize)
        requires
            old(self).wf(),
        ensures
            final(self).wf(),
            final(self).table == old(self).table,
            final(self).inc_q32 == old(self).inc_q32,
            final(self).phase_q32 as int == (old(self).phase_q32 + old(self).inc_q32 * n) % (
            PHASE_MOD as int),
    {
        proof {
            vstd::arithmetic::mul::lemma_mul_upper_bound(
                self.inc_q32 as int,
                (PHASE_MOD - 1) as int,
                n as int,
                u64::MAX as int,
            );
        }
        let total = (self.phase_q32 as u128) + (self.inc_q32 as u128) * (n as u128);
        self.phase_q32 = (total % (PHASE_MOD as u128)) as u64;
    }

    /// Produce the sample at the current phase and advance by one sample.
    pub fn next(&mut self) -> (r: i16)
        requires
            old(self).wf(),
        ensures
            final(self).wf(),
            final(self).table == old(self).table,
            final(self).inc_q32 == old(self).inc_q32,
            final(self).phase_q32 as int == (old(self).phase_q32 + old(self).inc_q32) % (
            PHASE_MOD as int),
            r as int == spec_osc_value(old(self).phase_q32 as int),
    {
        let idx = (self.phase_q32 / 0x1_0000_0000) as usize;
        let frac = (self.phase_q32 % 0x1_0000_0000) as i64;
        assert(idx < TABLE_LEN) by {
            vstd::arithmetic::div_mod::lemma_div_is_ordered(
                self.phase_q32 as int,
                (PHASE_MOD - 1) as int,
                0x1_0000_0000,
            );
        }
        let idx2 = if idx + 1 == TABLE_LEN {
            0
        } else {
            idx + 1
        };
        assert(idx2 as int == (idx + 1) % (TABLE_LEN as int));
        let t0 = self.table[idx] as i64;
        let t1 = self.table[idx2] as i64;
        proof {
            assert(self.table@[idx as int] == spec_table_entry(idx as int));
            assert(self.table@[idx2 as int] == spec_table_entry(idx2 as int));
        }
        let a: i64 = 0x1_0000_0000i64 - frac;
        assert(-32768 * 0x1_0000_0000i64 <= t0 * a <= 32767 * 0x1_0000_0000i64)
            by (nonlinear_arith)
            requires
                -32768 <= t0 <= 32767,
                0 <= a <= 0x1_0000_0000i64,
        ;
        assert(-32768 * 0x1_0000_0000i64 <= t1 * frac <= 32767 * 0x1_0000_0000i64)
            by (nonlinear_arith)
            requires
                -32768 <= t1 <= 32767,
                0 <= frac < 0x1_0000_0000i64,
        ;
        let num = t0 * a + t1 * frac;
        assert(-32768 * 0x1_0000_0000i64 <= num <= 32767 * 0x1_0000_0000i64)
            by (nonlinear_arith)
            requires
                -32768 <= t0 <= 32767,
                -32768 <= t1 <= 32767,
                0 <= a,
                0 <= frac,
                a + frac == 0x1_0000_0000i64,
                num == t0 * a + t1 * frac,
        ;
        let r64 = div_trunc_i64(num, 0x1_0000_0000);
        assert(-32768 <= r64 <= 32767) by {
            vstd::arithmetic::div_mod::lemma_div_multiples_vanish(32767int, 0x1_0000_0000int);
            vstd::arithmetic::div_mod::lemma_div_multiples_vanish(32768int, 0x1_0000_0000int);
            if num >= 0 {
                vstd::arithmetic::div_mod::lemma_div_is_ordered(
                    num as int,
                    32767int * 0x1_0000_0000int,
                    0x1_0000_0000,
                );
            } else {
                vstd::arithmetic::div_mod::lemma_div_is_ordered(
                    (-num) as int,
                    32768int * 0x1_0000_0000int,
                    0x1_0000_0000,
                );
            }
        }
        let ghost inc0 = self.inc_q32 as int;
        self.advance(1);
        proof {
            assert(inc0 * 1 == inc0) by (nonlinear_arith);
        }
        r64 as i16
    }

    /// Return the phase to zero, as at construction.
    pub fn reset(&mut self)
        requires
            old(self).wf(),
        ensures
            final(self).wf(),
            final(self).table == old(self).table,
            final(self).inc_q32 == old(self).inc_q32,
            final(self).phase_q32 == 0,
    {
        self.phase_q32 = 0;
    }
}

} // verus!
