use vstd::prelude::*;

verus! {

use crate::debounce::KeyEvent;
use crate::noise::{
    estimate_floor, fill_band_limited_gaussian_noise, spec_alpha_q15, spec_estimate_floor,
    spec_noise_sample,
};

/// The fixed sample rate of the whole system.
pub const SAMPLE_RATE_HZ: u32 = 48000;

/// Lead-in silence before every transmission: 0.2 seconds.
pub const TX_LEAD_SAMPLES: usize = 9600;

/// Hang-time silence after every transmission: one second.
pub const TX_HANG_SAMPLES: usize = 48000;

/// Silence between the message and the station ID: one second.
pub const PRE_CALLSIGN_GAP_SAMPLES: usize = 48000;

/// A station ID is due this many samples after the last one: nine
/// minutes of sample time.
pub const ID_INTERVAL_SAMPLES: u64 = 25_920_000;

/// An idle conversation triggers an ID after this many samples: thirty
/// seconds of sample time.
pub const ID_IDLE_SAMPLES: u64 = 1_440_000;

/// Key events further apart than this belong to different command
/// sequences: two seconds of sample time.
pub const DTMF_COMMAND_GAP_SAMPLES: u64 = 96_000;

/// The window for the ambient floor estimate: twenty milliseconds.
pub const NOISE_WINDOW_SAMPLES: usize = 960;

/// The low-pass cutoff for replacement noise.
pub const NOISE_CUTOFF_HZ: u32 = 3000;

/// The CW ID tone frequency.
pub const CW_TONE_FREQ_HZ: u32 = 700;

/// The CW ID keying speed in words per minute.
pub const CW_WPM: u32 = 20;

/// The CW ID amplitude: 20 dB below full scale, in Q15.
pub const CW_LEVEL_Q15: u16 = 3277;

/// A contiguous burst of captured audio: its samples and the absolute
/// stream position one past its last sample.
pub struct TimedChunk {
    /// 16-bit PCM samples.
    pub samples: Vec<i16>,
    /// Absolute sample index of the chunk's last sample, plus one; a
    /// monotonically increasing counter since stream start.
    pub end_sample: u64,
}

/// Where the control loop stands between messages.
#[derive(Debug, Clone, Copy, PartialEq, Eq, Structural)]
pub enum RepeaterState {
    /// No conversation in progress: wait for the next message without a
    /// bound.
    Idle,
    /// A conversation is in progress: wait with the idle-ID timeout,
    /// because an ID may be due once the channel falls silent.
    MidConversation,
}

/// What a transmission did: whether the station ID was appended, and
/// the absolute sample position at which the transmission ends.
pub struct TransmitResult {
    /// Whether the callsign was sent, so the ID clock restarts.
    pub sent_callsign: bool,
    /// The message's end position plus the transmitted length.
    pub transmission_end_sample: u64,
}

/// Addition on the sample clock, stopping at the top of the range.
pub open spec fn spec_sat_add(a: int, b: int) -> int {
    if a + b > u64::MAX {
        u64::MAX as int
    } else {
        a + b
    }
}

/// Subtraction on the sample clock, stopping at zero.
pub open spec fn spec_sat_sub(a: int, b: int) -> int {
    if a - b < 0 {
        0
    } else {
        a - b
    }
}

fn sat_add(a: u64, b: u64) -> (r: u64)
    ensures
        r as int == spec_sat_add(a as int, b as int),
{
    if a > u64::MAX - b {
        u64::MAX
    } else {
        a + b
    }
}

fn sat_sub(a: u64, b: u64) -> (r: u64)
    ensures
        r as int == spec_sat_sub(a as int, b as int),
{
    if a < b {
        0
    } else {
        a - b
    }
}

/// A run of silence.
pub open spec fn spec_zeros(n: int) -> Seq<i16> {
    Seq::new(n as nat, |i: int| 0i16)
}

fn push_zeros(v: &mut Vec<i16>, n: usize)
    requires
        old(v)@.len() + n <= usize::MAX,
    ensures
        final(v)@ == old(v)@ + spec_zeros(n as int),
{
    let mut j: usize = 0;
    while j < n
        invariant
            j <= n,
            v@ =~= old(v)@ + spec_zeros(j as int),
            v@.len() == old(v)@.len() + j,
        decreases n - j,
    {
        v.push(0i16);
        j = j + 1;
        assert(v@ =~= old(v)@ + spec_zeros(j as int));
    }
    assert(v@ =~= old(v)@ + spec_zeros(n as int));
}

fn push_slice(v: &mut Vec<i16>, s: &[i16])
    requires
        old(v)@.len() + s@.len() <= usize::MAX,
    ensures
        final(v)@ == old(v)@ + s@,
{
    let mut j: usize = 0;
    while j < s.len()
        invariant
            j <= s@.len(),
            v@ =~= old(v)@ + s@.subrange(0, j as int),
            v@.len() == old(v)@.len() + j,
        decreases s@.len() - j,
    {
        let x = s[j];
        v.push(x);
        j = j + 1;
        assert(v@ =~= old(v)@ + s@.subrange(0, j as int));
    }
    assert(v@ =~= old(v)@ + s@);
}

/// Extend a message with a later chunk: the true inter-chunk gap,
/// computed from absolute sample positions, is written out as explicit
/// zeros, so one logical message spans discontiguous capture bursts.
pub fn merge_chunk(message: &mut TimedChunk, next: TimedChunk)
    requires
        ({
            let next_start = spec_sat_sub(next.end_sample as int, next.samples@.len() as int);
            let gap = spec_sat_sub(next_start, old(message).end_sample as int);
            old(message).samples@.len() + gap + next.samples@.len() <= usize::MAX
        }),
    ensures
        ({
            let next_start = spec_sat_sub(next.end_sample as int, next.samples@.len() as int);
            let gap = spec_sat_sub(next_start, old(message).end_sample as int);
            &&& final(message).samples@ == old(message).samples@ + spec_zeros(gap)
                + next.samples@
            &&& final(message).end_sample == next.end_sample
        }),
{
    let next_len = next.samples.len();
    let next_start = sat_sub(next.end_sample, next_len as u64);
    let last_end = message.end_sample;
    let gap = sat_sub(next_start, last_end);
    push_zeros(&mut message.samples, gap as usize);
    push_slice(&mut message.samples, next.samples.as_slice());
    message.end_sample = next.end_sample;
}

/// The length of a transmission: lead-in silence, the message, then, if
/// the station ID goes out, the pre-ID gap and the callsign audio, and
/// finally the hang-time silence.
pub open spec fn spec_transmit_len(message_len: int, callsign_len: int, include_callsign: bool)
    -> int {
    TX_LEAD_SAMPLES + message_len + if include_callsign {
        PRE_CALLSIGN_GAP_SAMPLES + callsign_len
    } else {
        0
    } + TX_HANG_SAMPLES
}

/// The number of samples a transmission of a message of `message_len`
/// samples will occupy, with or without the station ID appended.
pub fn transmit_len(message_len: usize, callsign_len: usize, include_callsign: bool) -> (r: usize)
    requires
        spec_transmit_len(message_len as int, callsign_len as int, include_callsign)
            <= usize::MAX,
    ensures
        r as int == spec_transmit_len(message_len as int, callsign_len as int, include_callsign),
{
    let gap_and_callsign = if include_callsign {
        PRE_CALLSIGN_GAP_SAMPLES + callsign_len
    } else {
        0
    };
    TX_LEAD_SAMPLES + message_len + gap_and_callsign + TX_HANG_SAMPLES
}

/// What a transmit buffer holds.
pub open spec fn spec_transmit_buffer(
    message: Seq<i16>,
    callsign: Seq<i16>,
    include_callsign: bool,
) -> Seq<i16> {
    spec_zeros(TX_LEAD_SAMPLES as int) + message + (if include_callsign {
        spec_zeros(PRE_CALLSIGN_GAP_SAMPLES as int) + callsign
    } else {
        Seq::empty()
    }) + spec_zeros(TX_HANG_SAMPLES as int)
}

/// Assemble a transmit buffer: lead-in silence, the message samples,
/// then, only if the ID is due, the pre-ID gap and the pre-rendered
/// callsign audio, and finally the hang-time silence.
pub fn build_transmit_message(
    message: &[i16],
    callsign_samples: &[i16],
    include_callsign: bool,
) -> (r: Vec<i16>)
    requires
        spec_transmit_len(message@.len() as int, callsign_samples@.len() as int, include_callsign)
            <= usize::MAX,
    ensures
        r@ == spec_transmit_buffer(message@, callsign_samples@, include_callsign),
        r@.len() == spec_transmit_len(
            message@.len() as int,
            callsign_samples@.len() as int,
            include_callsign,
        ),
{
    let mut out: Vec<i16> = Vec::new();
    push_zeros(&mut out, TX_LEAD_SAMPLES);
    push_slice(&mut out, message);
    if include_callsign {
        push_zeros(&mut out, PRE_CALLSIGN_GAP_SAMPLES);
        push_slice(&mut out, callsign_samples);
    }
    push_zeros(&mut out, TX_HANG_SAMPLES);
    proof {
        assert(out@ =~= spec_transmit_buffer(message@, callsign_samples@, include_callsign));
    }
    out
}

/// The transmit buffer for a bare station ID, as sent when an idle
/// conversation times out.
pub fn transmit_callsign(callsign_samples: &[i16]) -> (r: Vec<i16>)
    requires
        spec_transmit_len(0, callsign_samples@.len() as int, true) <= usize::MAX,
    ensures
        r@ == spec_transmit_buffer(Seq::empty(), callsign_samples@, true),
{
    let r = build_transmit_message(&[], callsign_samples, true);
    proof {
        assert(r@ =~= spec_transmit_buffer(Seq::empty(), callsign_samples@, true));
    }
    r
}

/// Whether a transmission ending this message must carry the station
/// ID: always when no ID was ever sent, else when the message's end
/// plus an ID-less transmission would reach the next ID deadline.
pub open spec fn spec_id_due(message_end: int, base_len: int, last_id: Option<u64>) -> bool {
    match last_id {
        Some(last) => spec_sat_add(message_end, base_len) >= spec_sat_add(
            last as int,
            ID_INTERVAL_SAMPLES as int,
        ),
        None => true,
    }
}

/// Plan the transmission of a message: decide whether the station ID is
/// due, assemble the transmit buffer accordingly, and report the
/// decision together with the absolute sample position at which the
/// transmission will end.
pub fn transmit_message(
    message: &TimedChunk,
    callsign_samples: &[i16],
    last_id: Option<u64>,
) -> (r: (Vec<i16>, TransmitResult))
    requires
        spec_transmit_len(message.samples@.len() as int, callsign_samples@.len() as int, true)
            <= usize::MAX,
    ensures
        ({
            let base_len = spec_transmit_len(
                message.samples@.len() as int,
                callsign_samples@.len() as int,
                false,
            );
            let due = spec_id_due(message.end_sample as int, base_len, last_id);
            &&& r.0@ == spec_transmit_buffer(message.samples@, callsign_samples@, due)
            &&& r.1.sent_callsign == due
            &&& r.1.transmission_end_sample as int == spec_sat_add(
                message.end_sample as int,
                r.0@.len() as int,
            )
        }),
{
    let base_len = transmit_len(message.samples.len(), callsign_samples.len(), false);
    let will_expire = match last_id {
        Some(last) => {
            let due = sat_add(last, ID_INTERVAL_SAMPLES);
            sat_add(message.end_sample, base_len as u64) >= due
        },
        None => true,
    };
    let out = build_transmit_message(message.samples.as_slice(), callsign_samples, will_expire);
    let out_len = out.len();
    let end = sat_add(message.end_sample, out_len as u64);
    (out, TransmitResult { sent_callsign: will_expire, transmission_end_sample: end })
}

/// The idle-timeout action: when a conversation times out with a prior
/// message on record, a bare station ID goes out, and the ID clock is
/// set to the idle deadline plus the transmitted length; with no prior
/// message nothing happens.
pub fn idle_timeout_transmission(
    last_message_end: Option<u64>,
    callsign_samples: &[i16],
) -> (r: Option<(Vec<i16>, u64)>)
    requires
        spec_transmit_len(0, callsign_samples@.len() as int, true) <= usize::MAX,
    ensures
        match last_message_end {
            Some(end) => r matches Some(p) && p.0@ == spec_transmit_buffer(
                Seq::empty(),
                callsign_samples@,
                true,
            ) && p.1 as int == spec_sat_add(
                spec_sat_add(end as int, ID_IDLE_SAMPLES as int),
                p.0@.len() as int,
            ),
            None => r is None,
        },
{
    match last_message_end {
        Some(end) => {
            let now = sat_add(end, ID_IDLE_SAMPLES);
            let out = transmit_callsign(callsign_samples);
            let out_len = out.len();
            let new_last_id = sat_add(now, out_len as u64);
            Some((out, new_last_id))
        },
        None => None,
    }
}

/// The sample ranges a set of key events covers within a message of
/// `len` samples: events starting at or past the end are dropped, ends
/// are clamped to the last sample, and each range is half-open.
pub open spec fn spec_collect_ranges(len: int, events: Seq<KeyEvent>, i: int) -> Seq<
    (usize, usize),
>
    decreases i,
{
    if i <= 0 {
        Seq::empty()
    } else {
        let p = spec_collect_ranges(len, events, i - 1);
        let e = events[i - 1];
        if e.start_sample >= len {
            p
        } else {
            let end = if e.end_sample as int > len - 1 {
                len - 1
            } else {
                e.end_sample as int
            };
            p.push((e.start_sample as usize, (end + 1) as usize))
        }
    }
}

/// Clamp key events to a message: each event inside the message becomes
/// the half-open sample range it covers.
pub fn collect_event_ranges(len: usize, events: &[KeyEvent]) -> (r: Vec<(usize, usize)>)
    ensures
        r@ == spec_collect_ranges(len as int, events@, events@.len() as int),
        forall|k: int| 0 <= k < r@.len() ==> (#[trigger] r@[k]).0 < len && r@[k].1 <= len,
{
    let mut out: Vec<(usize, usize)> = Vec::new();
    let mut i: usize = 0;
    while i < events.len()
        invariant
            i <= events@.len(),
            out@ == spec_collect_ranges(len as int, events@, i as int),
            forall|k: int| 0 <= k < out@.len() ==> (#[trigger] out@[k]).0 < len && out@[k].1 <= len,
        decreases events@.len() - i,
    {
        let e = events[i];
        if e.start_sample < len as u64 {
            let end = if e.end_sample > (len - 1) as u64 {
                (len - 1) as u64
            } else {
                e.end_sample
            };
            out.push((e.start_sample as usize, (end + 1) as usize));
        }
        i = i + 1;
    }
    out
}

/// Where a stable insertion puts a new range: after every kept element
/// whose start does not exceed the new one.
pub open spec fn spec_ins_pos(s: Seq<(usize, usize)>, x: (usize, usize), k: int) -> int
    decreases k,
{
    if k <= 0 {
        0
    } else if s[k - 1].0 > x.0 {
        spec_ins_pos(s, x, k - 1)
    } else {
        k
    }
}

/// One stable insertion by range start.
pub open spec fn spec_insert_range(s: Seq<(usize, usize)>, x: (usize, usize)) -> Seq<
    (usize, usize),
> {
    let p = spec_ins_pos(s, x, s.len() as int);
    s.subrange(0, p) + seq![x] + s.subrange(p, s.len() as int)
}

/// The ranges sorted by start with a stable insertion sort.
pub open spec fn spec_sort_ranges(s: Seq<(usize, usize)>, i: int) -> Seq<(usize, usize)>
    decreases i,
{
    if i <= 0 {
        Seq::empty()
    } else {
        spec_insert_range(spec_sort_ranges(s, i - 1), s[i - 1])
    }
}

/// Insertion keeps every property the elements already had.
proof fn lemma_insert_preserves(
    s: Seq<(usize, usize)>,
    x: (usize, usize),
    p: spec_fn((usize, usize)) -> bool,
)
    requires
        forall|i: int| 0 <= i < s.len() ==> p(#[trigger] s[i]),
        p(x),
    ensures
        forall|i: int|
            0 <= i < spec_insert_range(s, x).len() ==> p(#[trigger] spec_insert_range(s, x)[i]),
{
    lemma_ins_pos_range(s, x, s.len() as int);
}

/// The insertion position is within the sequence.
proof fn lemma_ins_pos_range(s: Seq<(usize, usize)>, x: (usize, usize), k: int)
    requires
        0 <= k <= s.len(),
    ensures
        0 <= spec_ins_pos(s, x, k) <= k,
    decreases k,
{
    if k > 0 {
        lemma_ins_pos_range(s, x, k - 1);
    }
}

/// Sorting keeps every property the elements already had.
proof fn lemma_sort_preserves(s: Seq<(usize, usize)>, i: int, p: spec_fn((usize, usize)) -> bool)
    requires
        0 <= i <= s.len(),
        forall|k: int| 0 <= k < s.len() ==> p(#[trigger] s[k]),
    ensures
        forall|k: int|
            0 <= k < spec_sort_ranges(s, i).len() ==> p(#[trigger] spec_sort_ranges(s, i)[k]),
    decreases i,
{
    if i > 0 {
        lemma_sort_preserves(s, i - 1, p);
        lemma_insert_preserves(spec_sort_ranges(s, i - 1), s[i - 1], p);
    }
}

/// Ranges in nondecreasing order of start.
pub open spec fn spec_ranges_sorted(s: Seq<(usize, usize)>) -> bool {
    forall|i: int, j: int| 0 <= i < j < s.len() ==> (#[trigger] s[i]).0 <= (#[trigger] s[j]).0
}

/// Everything at or after the insertion position starts later than the
/// inserted range; the element just before it does not.
proof fn lemma_ins_pos_props(s: Seq<(usize, usize)>, x: (usize, usize), k: int)
    requires
        0 <= k <= s.len(),
    ensures
        forall|j: int| spec_ins_pos(s, x, k) <= j < k ==> (#[trigger] s[j]).0 > x.0,
        spec_ins_pos(s, x, k) > 0 ==> s[spec_ins_pos(s, x, k) - 1].0 <= x.0,
    decreases k,
{
    if k > 0 {
        lemma_ins_pos_props(s, x, k - 1);
    }
}

/// Law: inserting into a sorted run keeps it sorted.
proof fn lemma_insert_range_sorted(s: Seq<(usize, usize)>, x: (usize, usize))
    requires
        spec_ranges_sorted(s),
    ensures
        spec_ranges_sorted(spec_insert_range(s, x)),
{
    lemma_ins_pos_range(s, x, s.len() as int);
    lemma_ins_pos_props(s, x, s.len() as int);
}

/// Law: the stable insertion sort leaves the ranges in nondecreasing
/// order of start.
pub proof fn lemma_sort_ranges_sorted(s: Seq<(usize, usize)>, i: int)
    requires
        0 <= i <= s.len(),
    ensures
        spec_ranges_sorted(spec_sort_ranges(s, i)),
    decreases i,
{
    if i > 0 {
        lemma_sort_ranges_sorted(s, i - 1);
        lemma_insert_range_sorted(spec_sort_ranges(s, i - 1), s[i - 1]);
    }
}

fn sort_ranges(v: &Vec<(usize, usize)>) -> (r: Vec<(usize, usize)>)
    ensures
        r@ == spec_sort_ranges(v@, v@.len() as int),
{
    let mut out: Vec<(usize, usize)> = Vec::new();
    let mut i: usize = 0;
    while i < v.len()
        invariant
            i <= v@.len(),
            out@ == spec_sort_ranges(v@, i as int),
        decreases v@.len() - i,
    {
        let x = v[i];
        let mut k: usize = out.len();
        while k > 0 && out[k - 1].0 > x.0
            invariant
                k <= out@.len(),
                spec_ins_pos(out@, x, out@.len() as int) == spec_ins_pos(out@, x, k as int),
            decreases k,
        {
            k = k - 1;
        }
        let ghost before = out@;
        proof {
            lemma_ins_pos_range(before, x, k as int);
            assert(spec_ins_pos(before, x, before.len() as int) == k as int);
        }
        out.insert(k, x);
        proof {
            assert(out@ =~= before.subrange(0, k as int) + seq![x] + before.subrange(
                k as int,
                before.len() as int,
            ));
            assert(out@ == spec_insert_range(before, x));
        }
        i = i + 1;
    }
    out
}


/// Collected ranges are well formed whenever the events are: each event
/// covers a forward range.
proof fn lemma_collect_wf(len: int, events: Seq<KeyEvent>, i: int)
    requires
        0 <= len <= usize::MAX,
        0 <= i <= events.len(),
        forall|k: int|
            0 <= k < events.len() ==> (#[trigger] events[k]).start_sample <= events[k].end_sample,
    ensures
        forall|k: int|
            0 <= k < spec_collect_ranges(len, events, i).len() ==> ((
            #[trigger] spec_collect_ranges(len, events, i)[k]).0
                <= spec_collect_ranges(len, events, i)[k].1 <= len),
    decreases i,
{
    if i > 0 {
        lemma_collect_wf(len, events, i - 1);
        let prev = spec_collect_ranges(len, events, i - 1);
        let cur = spec_collect_ranges(len, events, i);
        let e = events[i - 1];
        assert(e.start_sample <= e.end_sample);
        assert forall|k: int| 0 <= k < cur.len() implies ((#[trigger] cur[k]).0 <= cur[k].1
            <= len) by {
            if k < prev.len() {
                assert(cur[k] == prev[k]);
            }
        }
    }
}

/// A message with its detected tone ranges overwritten by replacement
/// noise after `i` of the sorted ranges have been filled.
pub open spec fn spec_apply_fill(s: Seq<i16>, start: int, end: int, level: int, alpha: int) -> Seq<
    i16,
> {
    Seq::new(
        s.len(),
        |j: int|
            if start <= j < end {
                spec_noise_sample(level, alpha, j - start)
            } else {
                s[j]
            },
    )
}

pub open spec fn spec_fill_ranges(
    s: Seq<i16>,
    ranges: Seq<(usize, usize)>,
    level: int,
    alpha: int,
    i: int,
) -> Seq<i16>
    decreases i,
{
    if i <= 0 {
        s
    } else {
        let prev = spec_fill_ranges(s, ranges, level, alpha, i - 1);
        spec_apply_fill(prev, ranges[i - 1].0 as int, ranges[i - 1].1 as int, level, alpha)
    }
}

/// What suppressing the tones does to a message: the event ranges are
/// clamped to the message, sorted by start, the ambient floor is
/// estimated outside them, and each range is overwritten in order with
/// reproducible band-limited noise at that floor.
pub open spec fn spec_suppress(s: Seq<i16>, events: Seq<KeyEvent>) -> Seq<i16> {
    if events.len() == 0 {
        s
    } else {
        let ranges = spec_collect_ranges(s.len() as int, events, events.len() as int);
        if ranges.len() == 0 {
            s
        } else {
            let sorted = spec_sort_ranges(ranges, ranges.len() as int);
            let level = spec_estimate_floor(s, sorted, NOISE_WINDOW_SAMPLES as int);
            let alpha = spec_alpha_q15(SAMPLE_RATE_HZ as int, NOISE_CUTOFF_HZ as int);
            spec_fill_ranges(s, sorted, level, alpha, sorted.len() as int)
        }
    }
}

/// Overwrite every detected tone's sample range with synthesized noise
/// matched to the local ambient floor, silencing command tones before
/// retransmission without leaving a perceptible dropout.
pub fn suppress_dtmf(samples: &mut Vec<i16>, events: &[KeyEvent])
    requires
        forall|k: int|
            0 <= k < events@.len() ==> (#[trigger] events@[k]).start_sample
                <= events@[k].end_sample,
    ensures
        final(samples)@ == spec_suppress(old(samples)@, events@),
{
    if events.len() == 0 {
        return ;
    }
    let ranges = collect_event_ranges(samples.len(), events);
    if ranges.len() == 0 {
        return ;
    }
    let total = samples.len();
    let sorted = sort_ranges(&ranges);
    let ghost wf_range = |r: (usize, usize)| r.0 <= r.1 <= old(samples)@.len();
    proof {
        assert(samples@.len() == total);
        lemma_collect_wf(samples@.len() as int, events@, events@.len() as int);
        lemma_sort_preserves(ranges@, ranges@.len() as int, wf_range);
    }
    let level = estimate_floor(samples, &sorted, NOISE_WINDOW_SAMPLES);
    let ghost alpha = spec_alpha_q15(SAMPLE_RATE_HZ as int, NOISE_CUTOFF_HZ as int);
    let mut i: usize = 0;
    while i < sorted.len()
        invariant
            i <= sorted@.len(),
            samples@.len() == old(samples)@.len(),
            forall|k: int| 0 <= k < sorted@.len() ==> wf_range(#[trigger] sorted@[k]),
            wf_range == (|r: (usize, usize)| r.0 <= r.1 <= old(samples)@.len()),
            level <= 32768,
            alpha == spec_alpha_q15(SAMPLE_RATE_HZ as int, NOISE_CUTOFF_HZ as int),
            samples@ == spec_fill_ranges(
                old(samples)@,
                sorted@,
                level as int,
                alpha,
                i as int,
            ),
        decreases sorted@.len() - i,
    {
        let (start, end) = sorted[i];
        fill_band_limited_gaussian_noise(
            samples,
            start,
            end,
            level,
            SAMPLE_RATE_HZ,
            NOISE_CUTOFF_HZ,
        );
        i = i + 1;
        proof {
            assert(samples@ =~= spec_fill_ranges(
                old(samples)@,
                sorted@,
                level as int,
                alpha,
                i as int,
            ));
        }
    }
    proof {
        assert(samples@ == spec_suppress(old(samples)@, events@));
    }
}

/// The split of a run of key events into command sequences after the
/// first `i` events: the finished sequences, the one being built, and
/// the absolute end position of the last event seen.
pub open spec fn spec_split_fold(events: Seq<KeyEvent>, message_start: int, i: int) -> (
    Seq<Seq<char>>,
    Seq<char>,
    Option<int>,
)
    decreases i,
{
    if i <= 0 {
        (Seq::empty(), Seq::empty(), None)
    } else {
        let prev = spec_split_fold(events, message_start, i - 1);
        let e = events[i - 1];
        let abs_end = spec_sat_add(message_start, e.end_sample as int);
        let split = match prev.2 {
            Some(last) => spec_sat_sub(abs_end, last) > DTMF_COMMAND_GAP_SAMPLES
                && prev.1.len() > 0,
            None => false,
        };
        let seqs = if split {
            prev.0.push(prev.1)
        } else {
            prev.0
        };
        let cur = if split {
            Seq::empty().push(e.key)
        } else {
            prev.1.push(e.key)
        };
        (seqs, cur, Some(abs_end))
    }
}

/// What [`split_dtmf_sequences`] returns: the keys in event order,
/// split wherever two consecutive events lie further apart than the
/// command gap, with no empty sequences.
pub open spec fn spec_split_sequences(events: Seq<KeyEvent>, message_start: int) -> Seq<
    Seq<char>,
> {
    let fold = spec_split_fold(events, message_start, events.len() as int);
    if fold.1.len() > 0 {
        fold.0.push(fold.1)
    } else {
        fold.0
    }
}

/// Build time-ordered digit sequences from key events by splitting on
/// gaps exceeding the command gap threshold; positions are made
/// absolute by the message's start position.
pub fn split_dtmf_sequences(events: &[KeyEvent], message_start: u64) -> (r: Vec<Vec<char>>)
    ensures
        r@.len() == spec_split_sequences(events@, message_start as int).len(),
        forall|i: int|
            0 <= i < r@.len() ==> (#[trigger] r@[i])@ == spec_split_sequences(
                events@,
                message_start as int,
            )[i],
{
    let mut sequences: Vec<Vec<char>> = Vec::new();
    let mut current: Vec<char> = Vec::new();
    let mut last_end: Option<u64> = None;
    let mut i: usize = 0;
    while i < events.len()
        invariant
            i <= events@.len(),
            ({
                let fold = spec_split_fold(events@, message_start as int, i as int);
                &&& sequences@.len() == fold.0.len()
                &&& (forall|k: int|
                    0 <= k < sequences@.len() ==> (#[trigger] sequences@[k])@ == fold.0[k])
                &&& current@ == fold.1
                &&& (match last_end {
                    Some(l) => fold.2 == Some(l as int),
                    None => fold.2 is None,
                })
            }),
        decreases events@.len() - i,
    {
        let e = events[i];
        let abs_end = sat_add(message_start, e.end_sample);
        match last_end {
            Some(last) => {
                if sat_sub(abs_end, last) > DTMF_COMMAND_GAP_SAMPLES && current.len() > 0 {
                    sequences.push(current);
                    current = Vec::new();
                }
            },
            None => {},
        }
        current.push(e.key);
        last_end = Some(abs_end);
        i = i + 1;
    }
    if current.len() > 0 {
        sequences.push(current);
    }
    sequences
}

/// Whether a sequence holds two consecutive hash keys.
pub open spec fn spec_has_double_hash(s: Seq<char>) -> bool {
    exists|k: int| 0 <= k && k + 1 < s.len() && #[trigger] s[k] == '#' && s[k + 1] == '#'
}

/// Whether any command sequence holds the replay command, the literal
/// `##`.
pub fn has_replay_command(sequences: &Vec<Vec<char>>) -> (r: bool)
    ensures
        r == exists|i: int|
            0 <= i < sequences@.len() && spec_has_double_hash((#[trigger] sequences@[i])@),
{
    let mut i: usize = 0;
    while i < sequences.len()
        invariant
            i <= sequences@.len(),
            forall|k: int|
                0 <= k < i ==> !spec_has_double_hash((#[trigger] sequences@[k])@),
        decreases sequences@.len() - i,
    {
        let s = &sequences[i];
        if s.len() >= 2 {
            let mut k: usize = 0;
            while k + 1 < s.len()
                invariant
                    s@.len() >= 2,
                    s@.len() <= usize::MAX,
                    k + 1 <= s@.len(),
                    s@ == sequences@[i as int]@,
                    i < sequences@.len(),
                    forall|j: int| 0 <= j && j + 1 < k + 1 ==> !(#[trigger] s@[j] == '#' && s@[j + 1] == '#'),
                decreases s@.len() - k,
            {
                if s[k] == '#' && s[k + 1] == '#' {
                    return true;
                }
                k = k + 1;
            }
        }
        i = i + 1;
    }
    false
}


} // verus!
