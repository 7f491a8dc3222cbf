use vstd::prelude::*;

verus! {

use crate::encode::{encode_units, spec_encode, EncodeError};
use crate::oscillator::{spec_osc_value, spec_phase_inc, SineOscillator, PHASE_MOD};
use crate::trig::{div_trunc_i64, spec_div_trunc};
use vstd::arithmetic::div_mod::{
    lemma_add_mod_noop, lemma_div_is_ordered, lemma_div_multiples_vanish,
    lemma_div_multiples_vanish_fancy, lemma_fundamental_div_mod, lemma_small_mod,
};
use vstd::arithmetic::mul::lemma_mul_inequality;

/// Samples per Morse unit for a sample rate and a words-per-minute speed:
/// one word is 50 units (PARIS standard), so one unit lasts
/// `60 / (wpm * 50)` seconds; the count is rounded to the nearest sample
/// and floored at one.
pub open spec fn spec_unit_samples(sample_rate_hz: int, wpm: int) -> int {
    let num = sample_rate_hz * 60;
    let den = wpm * 50;
    let rounded = (2 * num + den) / (2 * den);
    if rounded < 1 {
        1
    } else {
        rounded
    }
}

/// An oscillator output scaled by a Q15 level, truncating toward zero.
pub open spec fn spec_scaled(v: int, level: int) -> int {
    spec_div_trunc(v * level, 32768)
}

/// The `j`-th sample modulated from a unit sequence: a scaled oscillator
/// output inside a tone unit, an exact zero inside a gap unit, with the
/// oscillator phase running uninterrupted through both.
pub open spec fn spec_cw_sample(
    phase0: int,
    inc: int,
    level: int,
    unit_samples: int,
    units: Seq<bool>,
    j: int,
) -> int {
    if units[j / unit_samples] {
        spec_scaled(spec_osc_value((phase0 + inc * j) % (PHASE_MOD as int)), level)
    } else {
        0
    }
}

/// How many whole units fit both the unit sequence and the buffer.
pub open spec fn spec_consumed(n_units: int, out_len: int, unit_samples: int) -> int {
    let fit = out_len / unit_samples;
    if n_units < fit {
        n_units
    } else {
        fit
    }
}

/// Advancing the phase by one more sample, starting from `m` samples
/// after `p0`, lands at `m + 1` samples after `p0`.
proof fn lemma_phase_step(p0: int, inc: int, m: int)
    requires
        0 <= p0,
        0 <= inc < PHASE_MOD,
        0 <= m,
    ensures
        ((p0 + inc * m) % (PHASE_MOD as int) + inc) % (PHASE_MOD as int) == (p0 + inc * (m + 1))
            % (PHASE_MOD as int),
{
    let m_mod = PHASE_MOD as int;
    lemma_add_mod_noop(p0 + inc * m, inc, m_mod);
    lemma_small_mod(inc as nat, PHASE_MOD as nat);
    assert(inc * (m + 1) == inc * m + inc) by (nonlinear_arith);
}

fn scale_q15(v: i16, level: u16) -> (r: i16)
    requires
        level <= 32768,
    ensures
        r as int == spec_scaled(v as int, level as int),
{
    assert(-32768int * 32768int <= (v as int) * (level as int) <= 32767int * 32768int)
        by (nonlinear_arith)
        requires
            -32768 <= v <= 32767,
            0 <= level <= 32768,
    ;
    let num = (v as i64) * (level as i64);
    let r64 = div_trunc_i64(num, 32768);
    assert(-32768 <= r64 <= 32767) by {
        lemma_div_multiples_vanish(32767int, 32768int);
        lemma_div_multiples_vanish(32768int, 32768int);
        if num >= 0 {
            lemma_div_is_ordered(num as int, 32767int * 32768int, 32768int);
        } else {
            lemma_div_is_ordered((-num) as int, 32768int * 32768int, 32768int);
        }
    }
    r64 as i16
}

/// Modulates Morse timing units into 16-bit PCM tone and silence.
pub struct CwModulator {
    /// Samples per Morse unit, at least one.
    pub unit_samples: usize,
    /// The tone source; its phase advances once per output sample, tone
    /// or gap alike.
    pub osc: SineOscillator,
    /// Output amplitude in Q15 (32768 = full scale).
    pub level_q15: u16,
}

impl CwModulator {
    pub open spec fn wf(&self) -> bool {
        &&& self.osc.wf()
        &&& self.unit_samples >= 1
        &&& self.level_q15 <= 32768
    }

    /// The sample this modulator would put at index `j` of a modulation
    /// of `units` starting now.
    pub open spec fn sample_at(&self, units: Seq<bool>, j: int) -> int {
        spec_cw_sample(
            self.osc.phase_q32 as int,
            self.osc.inc_q32 as int,
            self.level_q15 as int,
            self.unit_samples as int,
            units,
            j,
        )
    }

    /// Create a CW modulator for the given sample rate, tone frequency,
    /// words-per-minute speed, and Q15 output level.
    pub fn new(sample_rate_hz: u32, tone_freq_hz: u32, wpm: u32, level_q15: u16) -> (r: Self)
        requires
            1 <= sample_rate_hz,
            1 <= wpm,
            level_q15 <= 32768,
            spec_unit_samples(sample_rate_hz as int, wpm as int) <= usize::MAX,
        ensures
            r.wf(),
            r.unit_samples as int == spec_unit_samples(sample_rate_hz as int, wpm as int),
            r.level_q15 == level_q15,
            r.osc.phase_q32 == 0,
            r.osc.inc_q32 as int == spec_phase_inc(sample_rate_hz as int, tone_freq_hz as int),
    {
        let num: u64 = (sample_rate_hz as u64) * 60;
        let den: u64 = (wpm as u64) * 50;
        let rounded = (2 * num + den) / (2 * den);
        let unit_samples: u64 = if rounded < 1 {
            1
        } else {
            rounded
        };
        CwModulator {
            unit_samples: unit_samples as usize,
            osc: SineOscillator::new(sample_rate_hz, tone_freq_hz),
            level_q15,
        }
    }

    /// Fill a buffer with samples from the given Morse units, consuming
    /// whole units from the front as long as a full unit still fits.
    /// Returns the number of samples written, always a whole multiple of
    /// [`unit_samples`](Self::unit_samples): `unit_samples` scaled tone
    /// samples for a tone unit, `unit_samples` exact zeros for a gap
    /// unit. The oscillator phase advances once per written sample
    /// whether the unit is tone or gap, so the tone stays phase-continuous
    /// across gaps; the rest of the buffer is untouched.
    pub fn modulate(&mut self, units: &[bool], out: &mut Vec<i16>) -> (written: usize)
        requires
            old(self).wf(),
        ensures
            final(self).wf(),
            final(self).unit_samples == old(self).unit_samples,
            final(self).level_q15 == old(self).level_q15,
            final(self).osc.table == old(self).osc.table,
            final(self).osc.inc_q32 == old(self).osc.inc_q32,
            final(out)@.len() == old(out)@.len(),
            written as int == old(self).unit_samples as int * spec_consumed(
                units@.len() as int,
                old(out)@.len() as int,
                old(self).unit_samples as int,
            ),
            written % old(self).unit_samples == 0,
            forall|j: int|
                0 <= j < written ==> final(out)@[j] == old(self).sample_at(units@, j),
            forall|j: int|
                written <= j < old(out)@.len() ==> final(out)@[j] == old(out)@[j],
            final(self).osc.phase_q32 as int == (old(self).osc.phase_q32 + old(
                self,
            ).osc.inc_q32 * written) % (PHASE_MOD as int),
    {
        let us = self.unit_samples;
        let ghost phase0 = self.osc.phase_q32 as int;
        let ghost inc = self.osc.inc_q32 as int;
        let ghost level = self.level_q15 as int;
        let fit = out.len() / us;
        let n_units = if units.len() < fit {
            units.len()
        } else {
            fit
        };
        proof {
            lemma_fundamental_div_mod(out@.len() as int, us as int);
            vstd::arithmetic::div_mod::lemma_mod_bound(out@.len() as int, us as int);
            assert(us as int * fit as int == fit as int * us as int) by (nonlinear_arith);
            assert(fit as int * us as int <= out@.len());
            lemma_mul_inequality(n_units as int, fit as int, us as int);
            assert(n_units as int * us as int <= out@.len());
            lemma_small_mod(old(self).osc.phase_q32 as nat, PHASE_MOD as nat);
            assert(inc * (0int * us as int) == 0) by (nonlinear_arith);
        }
        let mut c: usize = 0;
        while c < n_units
            invariant
                old(self).wf(),
                self.wf(),
                us == self.unit_samples && us == old(self).unit_samples,
                us >= 1,
                self.level_q15 == old(self).level_q15,
                self.osc.table == old(self).osc.table,
                self.osc.inc_q32 == old(self).osc.inc_q32,
                phase0 == old(self).osc.phase_q32 as int,
                inc == old(self).osc.inc_q32 as int,
                level == old(self).level_q15 as int,
                n_units as int == spec_consumed(units@.len() as int, old(out)@.len() as int, us as int),
                n_units <= units@.len(),
                c <= n_units,
                n_units as int * us as int <= old(out)@.len(),
                out@.len() == old(out)@.len(),
                out@.len() <= usize::MAX,
                self.osc.phase_q32 as int == (phase0 + inc * (c as int * us as int)) % (
                PHASE_MOD as int),
                forall|j: int|
                    0 <= j < c as int * us as int ==> out@[j] == spec_cw_sample(
                        phase0,
                        inc,
                        level,
                        us as int,
                        units@,
                        j,
                    ),
                forall|j: int|
                    c as int * us as int <= j < out@.len() ==> out@[j] == old(out)@[j],
            decreases n_units - c,
        {
            proof {
                lemma_mul_inequality(c as int + 1, n_units as int, us as int);
                assert((c as int + 1) * us as int == c as int * us as int + us as int)
                    by (nonlinear_arith);
                vstd::arithmetic::mul::lemma_mul_nonnegative(c as int, us as int);
            }
            let gate = units[c];
            let offset = c * us;
            let mut k: usize = 0;
            while k < us
                invariant
                    old(self).wf(),
                    self.wf(),
                    us == self.unit_samples && us == old(self).unit_samples,
                    us >= 1,
                    self.level_q15 == old(self).level_q15,
                    self.osc.table == old(self).osc.table,
                    self.osc.inc_q32 == old(self).osc.inc_q32,
                    phase0 == old(self).osc.phase_q32 as int,
                    inc == old(self).osc.inc_q32 as int,
                    level == old(self).level_q15 as int,
                    k <= us,
                    c < n_units,
                    n_units <= units@.len(),
                    offset == c as int * us as int,
                    offset + us <= out@.len(),
                    out@.len() == old(out)@.len(),
                    out@.len() <= usize::MAX,
                    gate == units@[c as int],
                    self.osc.phase_q32 as int == (phase0 + inc * (offset + k)) % (
                    PHASE_MOD as int),
                    forall|j: int|
                        0 <= j < offset + k ==> out@[j] == spec_cw_sample(
                            phase0,
                            inc,
                            level,
                            us as int,
                            units@,
                            j,
                        ),
                    forall|j: int|
                        offset + k <= j < out@.len() ==> out@[j] == old(out)@[j],
                decreases us - k,
            {
                let ghost m = offset + k;
                if gate {
                    let v = self.osc.next();
                    let s = scale_q15(v, self.level_q15);
                    out.set(offset + k, s);
                } else {
                    self.osc.advance(1);
                    proof {
                        assert(inc * 1int == inc) by (nonlinear_arith);
                    }
                    out.set(offset + k, 0);
                }
                k = k + 1;
                proof {
                    lemma_phase_step(phase0, inc, m as int);
                    lemma_div_multiples_vanish_fancy(c as int, k as int - 1, us as int);
                    assert(us as int * c as int == c as int * us as int) by (nonlinear_arith);
                    assert((m as int) / (us as int) == c as int);
                    assert(out@[m as int] == spec_cw_sample(
                        phase0,
                        inc,
                        level,
                        us as int,
                        units@,
                        m as int,
                    ));
                }
            }
            c = c + 1;
        }
        proof {
            vstd::arithmetic::mul::lemma_mul_nonnegative(c as int, us as int);
            vstd::arithmetic::div_mod::lemma_mod_multiples_basic(c as int, us as int);
        }
        c * us
    }

    /// Reset the oscillator phase, so the next transmission starts at
    /// phase zero rather than mid-waveform.
    pub fn reset_phase(&mut self)
        requires
            old(self).wf(),
        ensures
            final(self).wf(),
            final(self).unit_samples == old(self).unit_samples,
            final(self).level_q15 == old(self).level_q15,
            final(self).osc.table == old(self).osc.table,
            final(self).osc.inc_q32 == old(self).osc.inc_q32,
            final(self).osc.phase_q32 == 0,
    {
        self.osc.reset();
    }

    /// The number of samples per Morse unit.
    pub fn unit_samples(&self) -> (r: usize)
        ensures
            r == self.unit_samples,
    {
        self.unit_samples
    }
}

/// Render a callsign once as CW audio: encode it to timing units and
/// modulate every unit, starting at oscillator phase zero. Returns the
/// encoder's error unchanged if the callsign cannot be encoded.
pub fn pre_modulate_callsign(
    callsign: &str,
    sample_rate_hz: u32,
    tone_freq_hz: u32,
    wpm: u32,
    level_q15: u16,
) -> (r: Result<Vec<i16>, EncodeError>)
    requires
        1 <= sample_rate_hz,
        1 <= wpm,
        level_q15 <= 32768,
        spec_unit_samples(sample_rate_hz as int, wpm as int) <= usize::MAX,
        (spec_encode(callsign@) matches Ok(u) ==> u.len() * spec_unit_samples(
            sample_rate_hz as int,
            wpm as int,
        ) <= usize::MAX),
    ensures
        ({
            let us = spec_unit_samples(sample_rate_hz as int, wpm as int);
            let inc = spec_phase_inc(sample_rate_hz as int, tone_freq_hz as int);
            match r {
                Ok(samples) => spec_encode(callsign@) matches Ok(u) && samples@.len() == u.len()
                    * us && (forall|j: int|
                    0 <= j < samples@.len() ==> samples@[j] as int == spec_cw_sample(
                        0,
                        inc,
                        level_q15 as int,
                        us,
                        u,
                        j,
                    )),
                Err(e) => spec_encode(callsign@) == Err::<Seq<bool>, EncodeError>(e),
            }
        }),
{
    let units = match encode_units(callsign) {
        Ok(units) => units,
        Err(e) => {
            return Err(e);
        },
    };
    let mut modulator = CwModulator::new(sample_rate_hz, tone_freq_hz, wpm, level_q15);
    let us = modulator.unit_samples();
    let total = units.len() * us;
    let mut out: Vec<i16> = Vec::new();
    while out.len() < total
        invariant
            out@.len() <= total,
        decreases total - out@.len(),
    {
        out.push(0i16);
    }
    proof {
        lemma_div_multiples_vanish(units@.len() as int, us as int);
        assert(units@.len() as int * us as int == us as int * units@.len() as int)
            by (nonlinear_arith);
    }
    let written = modulator.modulate(units.as_slice(), &mut out);
    assert(written == total);
    Ok(out)
}

} // verus!
