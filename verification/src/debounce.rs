use vstd::prelude::*;

verus! {

use crate::dtmf_dsp::{
    spec_detect_frame, spec_feed_bin, DtmfDetector, DEFAULT_PEAK_RATIO_Q8, DEFAULT_TWIST_RATIO_Q8,
    TOTAL_BINS,
};

/// A debounced key press: the resolved key and the sample positions,
/// relative to the pushed stream, of the first and last frame in which
/// it was seen.
#[derive(Debug, Clone, Copy, PartialEq, Eq, Structural)]
pub struct KeyEvent {
    /// One of the sixteen DTMF keys.
    pub key: char,
    /// Sample index of the first frame's first sample.
    pub start_sample: u64,
    /// Sample index of the last detected frame's last sample.
    pub end_sample: u64,
}

/// The fixed enumeration order of the sixteen keys, used to break ties
/// in the majority vote; `-1` for any other character.
pub open spec fn spec_key_index(c: char) -> int {
    if c == '1' {
        0
    } else if c == '2' {
        1
    } else if c == '3' {
        2
    } else if c == 'A' {
        3
    } else if c == '4' {
        4
    } else if c == '5' {
        5
    } else if c == '6' {
        6
    } else if c == 'B' {
        7
    } else if c == '7' {
        8
    } else if c == '8' {
        9
    } else if c == '9' {
        10
    } else if c == 'C' {
        11
    } else if c == '*' {
        12
    } else if c == '0' {
        13
    } else if c == '#' {
        14
    } else if c == 'D' {
        15
    } else {
        -1
    }
}

/// Whether a character is one of the sixteen DTMF keys.
pub open spec fn spec_is_dtmf_key(c: char) -> bool {
    spec_key_index(c) >= 0
}

/// The key at a position of the fixed enumeration order.
pub open spec fn spec_key_of_index(i: int) -> char {
    if i == 0 {
        '1'
    } else if i == 1 {
        '2'
    } else if i == 2 {
        '3'
    } else if i == 3 {
        'A'
    } else if i == 4 {
        '4'
    } else if i == 5 {
        '5'
    } else if i == 6 {
        '6'
    } else if i == 7 {
        'B'
    } else if i == 8 {
        '7'
    } else if i == 9 {
        '8'
    } else if i == 10 {
        '9'
    } else if i == 11 {
        'C'
    } else if i == 12 {
        '*'
    } else if i == 13 {
        '0'
    } else if i == 14 {
        '#'
    } else {
        'D'
    }
}

fn key_index(c: char) -> (r: i32)
    ensures
        r as int == spec_key_index(c),
{
    if c == '1' {
        0
    } else if c == '2' {
        1
    } else if c == '3' {
        2
    } else if c == 'A' {
        3
    } else if c == '4' {
        4
    } else if c == '5' {
        5
    } else if c == '6' {
        6
    } else if c == 'B' {
        7
    } else if c == '7' {
        8
    } else if c == '8' {
        9
    } else if c == '9' {
        10
    } else if c == 'C' {
        11
    } else if c == '*' {
        12
    } else if c == '0' {
        13
    } else if c == '#' {
        14
    } else if c == 'D' {
        15
    } else {
        -1
    }
}

fn key_of_index(i: usize) -> (r: char)
    requires
        i < 16,
    ensures
        r == spec_key_of_index(i as int),
{
    if i == 0 {
        '1'
    } else if i == 1 {
        '2'
    } else if i == 2 {
        '3'
    } else if i == 3 {
        'A'
    } else if i == 4 {
        '4'
    } else if i == 5 {
        '5'
    } else if i == 6 {
        '6'
    } else if i == 7 {
        'B'
    } else if i == 8 {
        '7'
    } else if i == 9 {
        '8'
    } else if i == 10 {
        '9'
    } else if i == 11 {
        'C'
    } else if i == 12 {
        '*'
    } else if i == 13 {
        '0'
    } else if i == 14 {
        '#'
    } else {
        'D'
    }
}

/// How often a character occurs in a history.
pub open spec fn spec_count(h: Seq<char>, c: char) -> nat
    decreases h.len(),
{
    if h.len() == 0 {
        0
    } else {
        spec_count(h.drop_last(), c) + if h.last() == c {
            1nat
        } else {
            0nat
        }
    }
}

/// The running best of the majority scan over the first `i` positions of
/// the key enumeration: the winning index (`-1` for none yet) and its
/// count. A later index wins only with a strictly greater count, so ties
/// go to the lowest index.
pub open spec fn spec_best_key(h: Seq<char>, i: int) -> (int, int)
    decreases i,
{
    if i <= 0 {
        (-1, 0)
    } else {
        let (bi, bv) = spec_best_key(h, i - 1);
        let v = spec_count(h, spec_key_of_index(i - 1)) as int;
        if v > bv {
            (i - 1, v)
        } else {
            (bi, bv)
        }
    }
}

/// The majority key of a history: the key with the most occurrences,
/// ties broken by the fixed enumeration order; `None` when no key
/// occurs at all.
pub open spec fn spec_majority(h: Seq<char>) -> Option<char> {
    let (bi, bv) = spec_best_key(h, 16);
    if bi < 0 {
        None
    } else {
        Some(spec_key_of_index(bi))
    }
}

/// Counting distributes over appending one element.
proof fn lemma_count_push(h: Seq<char>, x: char, c: char)
    ensures
        spec_count(h.push(x), c) == spec_count(h, c) + if x == c {
            1int
        } else {
            0int
        },
{
    assert(h.push(x).drop_last() =~= h);
    assert(h.push(x).last() == x);
}

/// Resolve the majority key across a run of detected frames: the key
/// seen most often wins, ties going to the lowest position in the fixed
/// order `1 2 3 A 4 5 6 B 7 8 9 C * 0 # D`. `None` only for an empty
/// history.
pub fn most_common_key(history: &Vec<char>) -> (r: Option<char>)
    requires
        forall|i: int| 0 <= i < history@.len() ==> spec_is_dtmf_key(#[trigger] history@[i]),
    ensures
        r == spec_majority(history@),
{
    let mut counts: Vec<usize> = Vec::new();
    let mut i: usize = 0;
    while i < 16
        invariant
            i <= 16,
            counts@.len() == i,
            forall|k: int| 0 <= k < i ==> #[trigger] counts@[k] == 0,
        decreases 16 - i,
    {
        counts.push(0);
        i = i + 1;
    }
    let n = history.len();
    let mut j: usize = 0;
    while j < n
        invariant
            forall|i2: int|
                0 <= i2 < history@.len() ==> spec_is_dtmf_key(#[trigger] history@[i2]),
            j <= history@.len(),
            n == history@.len(),
            counts@.len() == 16,
            forall|k: int|
                0 <= k < 16 ==> #[trigger] counts@[k] as int == spec_count(
                    history@.take(j as int),
                    spec_key_of_index(k),
                ),
            forall|k: int| 0 <= k < 16 ==> #[trigger] counts@[k] <= j,
        decreases history@.len() - j,
    {
        let ch = history[j];
        let idx = key_index(ch) as usize;
        let cur = counts[idx];
        counts.set(idx, cur + 1);
        j = j + 1;
        proof {
            assert forall|k: int| 0 <= k < 16 implies #[trigger] counts@[k] as int == spec_count(
                history@.take(j as int),
                spec_key_of_index(k),
            ) by {
                assert(history@.take(j as int) =~= history@.take(j as int - 1).push(
                    history@[j as int - 1],
                ));
                lemma_count_push(
                    history@.take(j as int - 1),
                    history@[j as int - 1],
                    spec_key_of_index(k),
                );
            }
        }
    }
    proof {
        assert(history@.take(history@.len() as int) =~= history@);
    }
    let mut best_i: i32 = -1;
    let mut best_v: usize = 0;
    let mut k: usize = 0;
    while k < 16
        invariant
            k <= 16,
            counts@.len() == 16,
            forall|k2: int|
                0 <= k2 < 16 ==> #[trigger] counts@[k2] as int == spec_count(
                    history@,
                    spec_key_of_index(k2),
                ),
            (best_i as int, best_v as int) == spec_best_key(history@, k as int),
            best_i < k,
            -1 <= best_i,
        decreases 16 - k,
    {
        let v = counts[k];
        if v > best_v {
            best_v = v;
            best_i = k as i32;
        }
        k = k + 1;
    }
    if best_i < 0 {
        None
    } else {
        Some(key_of_index(best_i as usize))
    }
}

/// Two different characters cannot together occur more often than the
/// history is long.
proof fn lemma_count_pair_bound(h: Seq<char>, a: char, b: char)
    requires
        a != b,
    ensures
        spec_count(h, a) + spec_count(h, b) <= h.len(),
    decreases h.len(),
{
    if h.len() > 0 {
        lemma_count_pair_bound(h.drop_last(), a, b);
    }
}

/// The winner of the majority scan holds the largest count, at the
/// lowest index among equals.
proof fn lemma_best_key_is_max(h: Seq<char>, i: int)
    requires
        0 <= i <= 16,
    ensures
        -1 <= spec_best_key(h, i).0 < i,
        spec_best_key(h, i).0 >= 0 ==> spec_best_key(h, i).1 == spec_count(
            h,
            spec_key_of_index(spec_best_key(h, i).0),
        ) && spec_best_key(h, i).1 > 0,
        spec_best_key(h, i).0 == -1 ==> spec_best_key(h, i).1 == 0,
        forall|k: int|
            0 <= k < i ==> spec_count(h, spec_key_of_index(k)) as int <= spec_best_key(h, i).1,
        forall|k: int|
            0 <= k < spec_best_key(h, i).0 ==> spec_count(h, spec_key_of_index(k)) as int + 1
                <= spec_best_key(h, i).1,
    decreases i,
{
    if i > 0 {
        lemma_best_key_is_max(h, i - 1);
    }
}

/// Law: a history in which one key fills all but one position resolves
/// to that key, as long as at least two other positions support it.
pub proof fn lemma_majority_survives_flicker(h: Seq<char>, k: char)
    requires
        spec_is_dtmf_key(k),
        h.len() >= 3,
        spec_count(h, k) == h.len() - 1,
        forall|i: int| 0 <= i < h.len() ==> spec_is_dtmf_key(#[trigger] h[i]),
    ensures
        spec_majority(h) == Some(k),
{
    let ki = spec_key_index(k);
    assert(spec_key_of_index(ki) == k);
    assert forall|j: int| 0 <= j < 16 && j != ki implies spec_count(h, spec_key_of_index(j))
        < spec_count(h, k) by {
        lemma_count_pair_bound(h, k, spec_key_of_index(j));
    }
    lemma_best_key_is_max(h, 16);
    let (bi, bv) = spec_best_key(h, 16);
    assert(spec_count(h, k) as int <= bv);
    assert(bi >= 0);
    if bi != ki {
        assert(spec_count(h, spec_key_of_index(bi)) < spec_count(h, k));
    }
}


/// The debouncer's tracking state between frames, as the contracts and
/// laws speak of it.
#[verifier::ext_equal]
pub struct DebounceState {
    /// The tentative key, if a press is being tracked.
    pub current: Option<char>,
    /// Consecutive frames without any detection since the last one.
    pub gap_frames: int,
    /// First sample of the frame that started the tentative press.
    pub start: u64,
    /// Last sample of the last frame with a detection.
    pub last: u64,
    /// Every per-frame detection of the tentative press, in order.
    pub history: Seq<char>,
}

/// A debounce state the machine can actually be in.
pub open spec fn spec_state_wf(st: DebounceState, min_gap_frames: int) -> bool {
    &&& 0 <= st.gap_frames < min_gap_frames
    &&& (st.current is Some <==> st.history.len() > 0)
    &&& forall|i: int| 0 <= i < st.history.len() ==> spec_is_dtmf_key(#[trigger] st.history[i])
}

/// The state a fresh debouncer starts in.
pub open spec fn spec_idle_state() -> DebounceState {
    DebounceState {
        current: None,
        gap_frames: 0,
        start: 0,
        last: 0,
        history: Seq::empty(),
    }
}

/// One frame folded through the debounce machine.
///
/// A detected key extends the tentative press (starting one if none is
/// active) and clears the release counter, whatever the key, since a
/// single flicker to another key is resolved later by majority. An
/// empty frame counts toward the release; when `min_gap_frames` is
/// reached the press is committed as one event, provided it lasted at
/// least `min_press_frames` frames, and the tracking state is cleared
/// either way.
pub open spec fn spec_consume_frame(
    st: DebounceState,
    detected: Option<char>,
    frame_start: u64,
    frame_end: u64,
    min_press_frames: int,
    min_gap_frames: int,
) -> (DebounceState, Option<KeyEvent>) {
    match detected {
        Some(ch) => (
            DebounceState {
                current: if st.current is None {
                    Some(ch)
                } else {
                    st.current
                },
                start: if st.current is None {
                    frame_start
                } else {
                    st.start
                },
                last: frame_end,
                gap_frames: 0,
                history: st.history.push(ch),
            },
            None,
        ),
        None => {
            if st.current is Some {
                let g = st.gap_frames + 1;
                if g >= min_gap_frames {
                    let ev = if st.history.len() >= min_press_frames {
                        match spec_majority(st.history) {
                            Some(k) => Some(
                                KeyEvent { key: k, start_sample: st.start, end_sample: st.last },
                            ),
                            None => None,
                        }
                    } else {
                        None
                    };
                    (
                        DebounceState {
                            current: None,
                            gap_frames: 0,
                            start: st.start,
                            last: st.last,
                            history: Seq::empty(),
                        },
                        ev,
                    )
                } else {
                    (DebounceState { gap_frames: g, ..st }, None)
                }
            } else {
                (st, None)
            }
        },
    }
}

/// Stateful DTMF debouncer: partitions a pushed sample stream into
/// fixed-length frames, runs one full detector window per frame, and
/// folds the per-frame results through the debounce machine.
pub struct DtmfDebouncer {
    /// Samples per frame, at least one.
    pub frame_len: usize,
    /// Frames a press must last to be committed.
    pub min_press_frames: usize,
    /// Empty frames that confirm a release.
    pub min_gap_frames: usize,
    /// Samples of a partial frame carried to the next push.
    pub samples_in_frame: usize,
    /// The tentative key.
    pub current: Option<char>,
    /// Consecutive empty frames since the last detection.
    pub gap_frames: usize,
    /// First sample of the tentative press.
    pub current_start: u64,
    /// Last sample of the last detected frame.
    pub current_last: u64,
    /// Per-frame detections of the tentative press.
    pub current_history: Vec<char>,
    /// The per-frame tone detector; its window is one frame.
    pub detector: DtmfDetector,
}

impl DtmfDebouncer {
    pub open spec fn wf(&self) -> bool {
        &&& self.frame_len >= 1
        &&& self.min_press_frames >= 1
        &&& self.min_gap_frames >= 1
        &&& self.samples_in_frame < self.frame_len
        &&& self.detector.wf()
        &&& self.detector.n == self.frame_len
        &&& self.detector.samples_seen == self.samples_in_frame
        &&& spec_state_wf(self.st(), self.min_gap_frames as int)
    }

    /// The tracking state of the debounce machine.
    pub open spec fn st(&self) -> DebounceState {
        DebounceState {
            current: self.current,
            gap_frames: self.gap_frames as int,
            start: self.current_start,
            last: self.current_last,
            history: self.current_history@,
        }
    }

    /// No partial frame is pending and the detector is mid-window clean.
    pub open spec fn spec_fresh_window(&self) -> bool {
        &&& self.samples_in_frame == 0
        &&& forall|b: int| 0 <= b < TOTAL_BINS ==> #[trigger] self.detector.s1@[b] == 0
        &&& forall|b: int| 0 <= b < TOTAL_BINS ==> #[trigger] self.detector.s2@[b] == 0
    }

    /// Create a builder with default settings for a sample rate.
    pub fn builder(sample_rate_hz: u32) -> (r: DtmfDebouncerBuilder)
        requires
            1 <= sample_rate_hz,
            spec_ms_to_samples(30, sample_rate_hz as int) <= usize::MAX,
        ensures
            r.sample_rate_hz == sample_rate_hz,
            r.frame_samples as int == spec_ms_to_samples(30, sample_rate_hz as int),
            r.min_press_frames == 2,
            r.min_gap_frames == 3,
            r.detector is None,
    {
        DtmfDebouncerBuilder::new(sample_rate_hz)
    }

    /// Clear all tracking state and the detector window, so debounce
    /// state never leaks across unrelated audio bursts.
    pub fn reset(&mut self)
        requires
            old(self).wf(),
        ensures
            final(self).wf(),
            final(self).frame_len == old(self).frame_len,
            final(self).min_press_frames == old(self).min_press_frames,
            final(self).min_gap_frames == old(self).min_gap_frames,
            final(self).detector.n == old(self).detector.n,
            final(self).detector.coeffs == old(self).detector.coeffs,
            final(self).detector.peak_ratio_q8 == old(self).detector.peak_ratio_q8,
            final(self).detector.twist_ratio_q8 == old(self).detector.twist_ratio_q8,
            final(self).st() == spec_idle_state(),
            final(self).spec_fresh_window(),
    {
        self.samples_in_frame = 0;
        self.current = None;
        self.gap_frames = 0;
        self.current_start = 0;
        self.current_last = 0;
        self.current_history = Vec::new();
        self.detector.reset();
        proof {
            assert(self.st() =~= spec_idle_state());
        }
    }

    /// Fold one frame result into the tracking state, appending the
    /// committed event, if any, to `events`.
    fn consume_frame(
        &mut self,
        detected: Option<char>,
        frame_start: u64,
        frame_end: u64,
        events: &mut Vec<KeyEvent>,
    )
        requires
            old(self).wf(),
            detected matches Some(ch) ==> spec_is_dtmf_key(ch),
        ensures
            final(self).wf(),
            final(self).frame_len == old(self).frame_len,
            final(self).min_press_frames == old(self).min_press_frames,
            final(self).min_gap_frames == old(self).min_gap_frames,
            final(self).samples_in_frame == old(self).samples_in_frame,
            final(self).detector == old(self).detector,
            ({
                let (st2, ev) = spec_consume_frame(
                    old(self).st(),
                    detected,
                    frame_start,
                    frame_end,
                    old(self).min_press_frames as int,
                    old(self).min_gap_frames as int,
                );
                &&& final(self).st() == st2
                &&& final(events)@ == if ev is Some {
                    old(events)@.push(ev.unwrap())
                } else {
                    old(events)@
                }
            }),
    {
        match detected {
            Some(ch) => {
                if self.current.is_none() {
                    self.current = Some(ch);
                    self.current_start = frame_start;
                }
                self.current_history.push(ch);
                self.current_last = frame_end;
                self.gap_frames = 0;
                proof {
                    let (st2, ev) = spec_consume_frame(
                        old(self).st(),
                        detected,
                        frame_start,
                        frame_end,
                        old(self).min_press_frames as int,
                        old(self).min_gap_frames as int,
                    );
                    assert(self.st() =~= st2);
                }
            },
            None => {
                if self.current.is_some() {
                    self.gap_frames = self.gap_frames + 1;
                    if self.gap_frames >= self.min_gap_frames {
                        if self.current_history.len() >= self.min_press_frames {
                            match most_common_key(&self.current_history) {
                                Some(resolved) => {
                                    events.push(
                                        KeyEvent {
                                            key: resolved,
                                            start_sample: self.current_start,
                                            end_sample: self.current_last,
                                        },
                                    );
                                },
                                None => {},
                            }
                        }
                        self.current = None;
                        self.gap_frames = 0;
                        self.current_history = Vec::new();
                    }
                }
                proof {
                    let (st2, ev) = spec_consume_frame(
                        old(self).st(),
                        detected,
                        frame_start,
                        frame_end,
                        old(self).min_press_frames as int,
                        old(self).min_gap_frames as int,
                    );
                    assert(self.st() =~= st2);
                }
            },
        }
    }
}

/// Samples in a span of milliseconds at a sample rate, rounded to the
/// nearest sample and floored at one.
pub open spec fn spec_ms_to_samples(ms: int, sample_rate_hz: int) -> int {
    let rounded = (2 * (sample_rate_hz * ms) + 1000) / 2000;
    if rounded < 1 {
        1
    } else {
        rounded
    }
}

fn ms_to_samples(ms: u32, sample_rate_hz: u32) -> (r: u64)
    ensures
        r as int == spec_ms_to_samples(ms as int, sample_rate_hz as int),
{
    assert(0 <= (sample_rate_hz as int) * (ms as int) <= 0xFFFF_FFFFint * 0xFFFF_FFFFint)
        by (nonlinear_arith)
        requires
            0 <= sample_rate_hz <= 0xFFFF_FFFFu32,
            0 <= ms <= 0xFFFF_FFFFu32,
    ;
    let prod = (sample_rate_hz as u64) * (ms as u64);
    let rounded = (2 * (prod as u128) + 1000) / 2000;
    let rounded = rounded as u64;
    proof {
        vstd::arithmetic::div_mod::lemma_div_is_ordered(
            2 * (prod as int) + 1000,
            2int * 0xFFFF_FFFF_FFFF_FFFFint + 1000int,
            2000,
        );
    }
    if rounded < 1 {
        1
    } else {
        rounded
    }
}

/// Builder for configuring a [`DtmfDebouncer`].
pub struct DtmfDebouncerBuilder {
    /// Sample rate the debouncer will run at.
    pub sample_rate_hz: u32,
    /// Frame length in samples.
    pub frame_samples: usize,
    /// Frames a press must last.
    pub min_press_frames: usize,
    /// Empty frames that confirm a release.
    pub min_gap_frames: usize,
    /// A custom detector, if any.
    pub detector: Option<DtmfDetector>,
}

impl DtmfDebouncerBuilder {
    /// Create a builder with defaults for the given sample rate: 30 ms
    /// frames, two frames to accept a press, three to confirm a release.
    pub fn new(sample_rate_hz: u32) -> (r: Self)
        requires
            1 <= sample_rate_hz,
            spec_ms_to_samples(30, sample_rate_hz as int) <= usize::MAX,
        ensures
            r.sample_rate_hz == sample_rate_hz,
            r.frame_samples as int == spec_ms_to_samples(30, sample_rate_hz as int),
            r.min_press_frames == 2,
            r.min_gap_frames == 3,
            r.detector is None,
    {
        DtmfDebouncerBuilder {
            sample_rate_hz,
            frame_samples: ms_to_samples(30, sample_rate_hz) as usize,
            min_press_frames: 2,
            min_gap_frames: 3,
            detector: None,
        }
    }

    /// Set the frame length in milliseconds.
    pub fn frame_ms(self, frame_ms: u32) -> (r: Self)
        requires
            spec_ms_to_samples(frame_ms as int, self.sample_rate_hz as int) <= usize::MAX,
        ensures
            r.frame_samples as int == spec_ms_to_samples(
                frame_ms as int,
                self.sample_rate_hz as int,
            ),
            r.sample_rate_hz == self.sample_rate_hz,
            r.min_press_frames == self.min_press_frames,
            r.min_gap_frames == self.min_gap_frames,
            r.detector == self.detector,
    {
        let samples = ms_to_samples(frame_ms, self.sample_rate_hz) as usize;
        DtmfDebouncerBuilder { frame_samples: samples, ..self }
    }

    /// Set the frame length in samples, floored at one.
    pub fn frame_samples(self, frame_samples: usize) -> (r: Self)
        ensures
            r.frame_samples == if frame_samples < 1 {
                1int
            } else {
                frame_samples as int
            },
            r.sample_rate_hz == self.sample_rate_hz,
            r.min_press_frames == self.min_press_frames,
            r.min_gap_frames == self.min_gap_frames,
            r.detector == self.detector,
    {
        DtmfDebouncerBuilder {
            frame_samples: if frame_samples < 1 {
                1
            } else {
                frame_samples
            },
            ..self
        }
    }

    /// Set the minimum number of frames required to accept a key.
    pub fn min_press_frames(self, frames: usize) -> (r: Self)
        ensures
            r.min_press_frames == if frames < 1 {
                1int
            } else {
                frames as int
            },
            r.sample_rate_hz == self.sample_rate_hz,
            r.frame_samples == self.frame_samples,
            r.min_gap_frames == self.min_gap_frames,
            r.detector == self.detector,
    {
        DtmfDebouncerBuilder {
            min_press_frames: if frames < 1 {
                1
            } else {
                frames
            },
            ..self
        }
    }

    /// Set the minimum number of empty frames required to release a key.
    pub fn min_gap_frames(self, frames: usize) -> (r: Self)
        ensures
            r.min_gap_frames == if frames < 1 {
                1int
            } else {
                frames as int
            },
            r.sample_rate_hz == self.sample_rate_hz,
            r.frame_samples == self.frame_samples,
            r.min_press_frames == self.min_press_frames,
            r.detector == self.detector,
    {
        DtmfDebouncerBuilder {
            min_gap_frames: if frames < 1 {
                1
            } else {
                frames
            },
            ..self
        }
    }

    /// Provide a custom detector; its window must be one frame and it
    /// must not have consumed any samples yet.
    pub fn detector(self, detector: DtmfDetector) -> (r: Self)
        ensures
            r.detector == Some(detector),
            r.sample_rate_hz == self.sample_rate_hz,
            r.frame_samples == self.frame_samples,
            r.min_press_frames == self.min_press_frames,
            r.min_gap_frames == self.min_gap_frames,
    {
        DtmfDebouncerBuilder { detector: Some(detector), ..self }
    }

    /// Build the debouncer in the idle state.
    pub fn build(self) -> (r: DtmfDebouncer)
        requires
            1 <= self.sample_rate_hz,
            self.frame_samples >= 1,
            self.detector matches Some(d) ==> d.wf() && d.n == self.frame_samples
                && d.samples_seen == 0 && (forall|b: int|
                0 <= b < TOTAL_BINS ==> #[trigger] d.s1@[b] == 0) && (forall|b: int|
                0 <= b < TOTAL_BINS ==> #[trigger] d.s2@[b] == 0),
        ensures
            r.wf(),
            r.frame_len == self.frame_samples,
            r.min_press_frames == if self.min_press_frames < 1 {
                1int
            } else {
                self.min_press_frames as int
            },
            r.min_gap_frames == if self.min_gap_frames < 1 {
                1int
            } else {
                self.min_gap_frames as int
            },
            r.st() == spec_idle_state(),
            r.spec_fresh_window(),
            self.detector matches Some(d) ==> r.detector == d,
            self.detector is None ==> r.detector.peak_ratio_q8 == DEFAULT_PEAK_RATIO_Q8
                && r.detector.twist_ratio_q8 == DEFAULT_TWIST_RATIO_Q8 && (forall|b: int|
                0 <= b < TOTAL_BINS ==> #[trigger] r.detector.coeffs@[b] as int
                    == crate::dtmf_dsp::spec_coeff(
                    self.sample_rate_hz as int,
                    crate::dtmf_dsp::spec_dtmf_freq(b) as int,
                )),
    {
        let frame_len = self.frame_samples;
        let detector = match self.detector {
            Some(d) => d,
            None => DtmfDetector::new(self.sample_rate_hz, frame_len),
        };
        let r = DtmfDebouncer {
            frame_len,
            min_press_frames: if self.min_press_frames < 1 {
                1
            } else {
                self.min_press_frames
            },
            min_gap_frames: if self.min_gap_frames < 1 {
                1
            } else {
                self.min_gap_frames
            },
            samples_in_frame: 0,
            current: None,
            gap_frames: 0,
            current_start: 0,
            current_last: 0,
            current_history: Vec::new(),
            detector,
        };
        proof {
            assert(r.st() =~= spec_idle_state());
        }
        r
    }
}



/// Folds in one bin's state over a consecutive range being split at `b`.
proof fn lemma_feed_bin_prefix_eq(c: int, s1: int, s2: int, xs: Seq<i16>, ys: Seq<i16>, i: int)
    requires
        i <= xs.len(),
        i <= ys.len(),
        forall|j: int| 0 <= j < i ==> xs[j] == ys[j],
    ensures
        spec_feed_bin(c, s1, s2, xs, i) == spec_feed_bin(c, s1, s2, ys, i),
    decreases i,
{
    if i > 0 {
        lemma_feed_bin_prefix_eq(c, s1, s2, xs, ys, i - 1);
    }
}

/// Feeding a range in two pieces reaches the same bin state as feeding
/// it whole.
proof fn lemma_feed_bin_concat(c: int, s1: int, s2: int, xs: Seq<i16>, a: int, b: int, e: int)
    requires
        0 <= a <= b <= e <= xs.len(),
    ensures
        ({
            let mid = spec_feed_bin(c, s1, s2, xs.subrange(a, b), b - a);
            spec_feed_bin(c, mid.0, mid.1, xs.subrange(b, e), e - b) == spec_feed_bin(
                c,
                s1,
                s2,
                xs.subrange(a, e),
                e - a,
            )
        }),
    decreases e - b,
{
    let mid = spec_feed_bin(c, s1, s2, xs.subrange(a, b), b - a);
    if e == b {
        assert(xs.subrange(a, b) =~= xs.subrange(a, e));
    } else {
        lemma_feed_bin_concat(c, s1, s2, xs, a, b, e - 1);
        lemma_feed_bin_prefix_eq(c, mid.0, mid.1, xs.subrange(b, e), xs.subrange(b, e - 1), e - 1
            - b);
        lemma_feed_bin_prefix_eq(c, s1, s2, xs.subrange(a, e), xs.subrange(a, e - 1), e - 1 - a);
        assert(xs.subrange(b, e)[e - 1 - b] == xs[e - 1]);
        assert(xs.subrange(a, e)[e - 1 - a] == xs[e - 1]);
    }
}

/// A decision of [`spec_detect`] is always one of the sixteen keys.
proof fn lemma_detect_is_key(mags: Seq<i64>, pr: int, tw: int)
    requires
        mags.len() == 8,
    ensures
        crate::dtmf_dsp::spec_detect(mags, pr, tw) matches Some(k) ==> spec_is_dtmf_key(k),
{
    let rows = mags.subrange(0, 4);
    let cols = mags.subrange(4, 8);
    if crate::dtmf_dsp::spec_detect(mags, pr, tw) is Some {
        crate::dtmf_dsp::lemma_top_two_is_max(rows, 4);
        crate::dtmf_dsp::lemma_top_two_is_max(cols, 4);
    }
}

/// The state and committed events after the first `f` whole frames of a
/// pushed stream: frame `g` covers samples `g * frame_len` up to the
/// next multiple, its detection is the detector's decision over exactly
/// those samples from a fresh window, and the results are folded
/// through [`spec_consume_frame`].
pub open spec fn spec_frames(
    st: DebounceState,
    samples: Seq<i16>,
    coeffs: Seq<i64>,
    frame_len: int,
    pr: int,
    tw: int,
    mpf: int,
    mgf: int,
    f: int,
) -> (DebounceState, Seq<KeyEvent>)
    decreases f,
{
    if f <= 0 {
        (st, Seq::empty())
    } else {
        let prev = spec_frames(st, samples, coeffs, frame_len, pr, tw, mpf, mgf, f - 1);
        let detected = spec_detect_frame(
            coeffs,
            frame_len,
            pr,
            tw,
            samples.subrange((f - 1) * frame_len, f * frame_len),
        );
        let step = spec_consume_frame(
            prev.0,
            detected,
            ((f - 1) * frame_len) as u64,
            (f * frame_len - 1) as u64,
            mpf,
            mgf,
        );
        (
            step.0,
            if step.1 is Some {
                prev.1.push(step.1.unwrap())
            } else {
                prev.1
            },
        )
    }
}

impl DtmfDebouncer {
    /// Feed samples and return the key events committed along the way.
    ///
    /// The stream is cut into fixed-length frames (a partial frame is
    /// carried to the next push), one full detector window runs per
    /// frame, and the per-frame results drive the debounce machine.
    /// Event positions are sample indices relative to this push. When
    /// called with no partial frame pending, the result is exactly the
    /// frame fold of [`spec_frames`].
    pub fn push(&mut self, samples: &[i16]) -> (events: Vec<KeyEvent>)
        requires
            old(self).wf(),
        ensures
            final(self).wf(),
            final(self).frame_len == old(self).frame_len,
            final(self).min_press_frames == old(self).min_press_frames,
            final(self).min_gap_frames == old(self).min_gap_frames,
            final(self).detector.n == old(self).detector.n,
            final(self).detector.coeffs == old(self).detector.coeffs,
            final(self).detector.peak_ratio_q8 == old(self).detector.peak_ratio_q8,
            final(self).detector.twist_ratio_q8 == old(self).detector.twist_ratio_q8,
            final(self).samples_in_frame as int == (old(self).samples_in_frame + samples@.len())
                % (old(self).frame_len as int),
            old(self).spec_fresh_window() ==> ({
                let run = spec_frames(
                    old(self).st(),
                    samples@,
                    old(self).detector.coeffs@,
                    old(self).frame_len as int,
                    old(self).detector.peak_ratio_q8 as int,
                    old(self).detector.twist_ratio_q8 as int,
                    old(self).min_press_frames as int,
                    old(self).min_gap_frames as int,
                    samples@.len() as int / (old(self).frame_len as int),
                );
                &&& final(self).st() == run.0
                &&& events@ == run.1
            }),
    {
        let mut events: Vec<KeyEvent> = Vec::new();
        let len = samples.len();
        let l = self.frame_len;
        let ghost fresh = old(self).spec_fresh_window();
        let ghost coeffs = old(self).detector.coeffs@;
        let ghost pr = old(self).detector.peak_ratio_q8 as int;
        let ghost tw = old(self).detector.twist_ratio_q8 as int;
        let ghost mpf = old(self).min_press_frames as int;
        let ghost mgf = old(self).min_gap_frames as int;
        let ghost st0 = old(self).st();
        let mut pos: usize = 0;
        let ghost mut g: int = 0;
        proof {
            vstd::arithmetic::div_mod::lemma_small_mod(
                old(self).samples_in_frame as nat,
                l as nat,
            );
        }
        while pos < len
            invariant
                old(self).wf(),
                self.wf(),
                l == self.frame_len,
                l == old(self).frame_len,
                self.min_press_frames == old(self).min_press_frames,
                self.min_gap_frames == old(self).min_gap_frames,
                self.detector.n == old(self).detector.n,
                self.detector.coeffs == old(self).detector.coeffs,
                self.detector.peak_ratio_q8 == old(self).detector.peak_ratio_q8,
                self.detector.twist_ratio_q8 == old(self).detector.twist_ratio_q8,
                coeffs == old(self).detector.coeffs@,
                pr == old(self).detector.peak_ratio_q8 as int,
                tw == old(self).detector.twist_ratio_q8 as int,
                mpf == old(self).min_press_frames as int,
                mgf == old(self).min_gap_frames as int,
                st0 == old(self).st(),
                fresh == old(self).spec_fresh_window(),
                pos <= len,
                len == samples@.len(),
                self.samples_in_frame as int == (old(self).samples_in_frame + pos) % (l as int),
                fresh ==> 0 <= g && pos == g * l + self.samples_in_frame,
                fresh ==> (self.samples_in_frame == 0 || pos == len),
                fresh ==> self.st() == spec_frames(
                    st0,
                    samples@,
                    coeffs,
                    l as int,
                    pr,
                    tw,
                    mpf,
                    mgf,
                    g,
                ).0,
                fresh ==> events@ == spec_frames(
                    st0,
                    samples@,
                    coeffs,
                    l as int,
                    pr,
                    tw,
                    mpf,
                    mgf,
                    g,
                ).1,
                fresh ==> forall|b: int|
                    0 <= b < TOTAL_BINS ==> (
                    #[trigger] self.detector.s1@[b] as int,
                    self.detector.s2@[b] as int,
                ) == spec_feed_bin(
                    coeffs[b] as int,
                    0,
                    0,
                    samples@.subrange(g * l, pos as int),
                    self.samples_in_frame as int,
                ),
            decreases len - pos,
        {
            let to_frame_end = l - self.samples_in_frame;
            let take = if to_frame_end < len - pos {
                to_frame_end
            } else {
                len - pos
            };
            let ghost sif0 = self.samples_in_frame as int;
            self.detector.feed_range(samples, pos, pos + take);
            proof {
                if fresh {
                    assert forall|b: int| 0 <= b < TOTAL_BINS implies (
                        #[trigger] self.detector.s1@[b] as int,
                        self.detector.s2@[b] as int,
                    ) == spec_feed_bin(
                        coeffs[b] as int,
                        0,
                        0,
                        samples@.subrange(g * l, pos as int + take as int),
                        sif0 + take,
                    ) by {
                        lemma_feed_bin_concat(
                            coeffs[b] as int,
                            0,
                            0,
                            samples@,
                            g * l,
                            pos as int,
                            pos as int + take as int,
                        );
                    }
                }
            }
            if self.samples_in_frame + take == l {
                let detected = self.detector.finish();
                proof {
                    if fresh {
                        assert(pos as int + take as int == (g + 1) * l) by (nonlinear_arith)
                            requires
                                pos as int == g * l + sif0,
                                take as int == l as int - sif0,
                        ;
                        assert(self.detector.spec_mags() =~= Seq::new(
                            TOTAL_BINS as nat,
                            |b: int|
                                crate::dtmf_dsp::spec_mag(
                                    coeffs[b] as int,
                                    spec_feed_bin(
                                        coeffs[b] as int,
                                        0,
                                        0,
                                        samples@.subrange(g * l, (g + 1) * l),
                                        l as int,
                                    ).0,
                                    spec_feed_bin(
                                        coeffs[b] as int,
                                        0,
                                        0,
                                        samples@.subrange(g * l, (g + 1) * l),
                                        l as int,
                                    ).1,
                                ) as i64,
                        ));
                        assert(detected == spec_detect_frame(
                            coeffs,
                            l as int,
                            pr,
                            tw,
                            samples@.subrange(g * l, (g + 1) * l),
                        ));
                    }
                    lemma_detect_is_key(
                        self.detector.spec_mags(),
                        self.detector.peak_ratio_q8 as int,
                        self.detector.twist_ratio_q8 as int,
                    );
                }
                self.detector.reset();
                self.samples_in_frame = 0;
                let end_idx = pos + take;
                let frame_end = (end_idx as u64) - 1;
                let frame_start = if end_idx >= l {
                    (end_idx - l) as u64
                } else {
                    0
                };
                self.consume_frame(detected, frame_start, frame_end, &mut events);
                proof {
                    if fresh {
                        assert(end_idx as int == (g + 1) * l) by (nonlinear_arith)
                            requires
                                pos as int == g * l + sif0,
                                take as int == l as int - sif0,
                                end_idx as int == pos as int + take as int,
                        ;
                        assert(g * l >= 0) by (nonlinear_arith)
                            requires
                                g >= 0,
                                l >= 1,
                        ;
                        assert(frame_start as int == g * l);
                        assert(frame_end as int == (g + 1) * l - 1);
                        g = g + 1;
                    }
                }
            } else {
                self.samples_in_frame = self.samples_in_frame + take;
            }
            pos = pos + take;
            proof {
                let li = l as int;
                let base = old(self).samples_in_frame as int + (pos - take);
                vstd::arithmetic::div_mod::lemma_add_mod_noop(base, take as int, li);
                if take == l {
                    vstd::arithmetic::div_mod::lemma_mod_self_0(li);
                    vstd::arithmetic::div_mod::lemma_small_mod(sif0 as nat, l as nat);
                } else {
                    vstd::arithmetic::div_mod::lemma_small_mod(take as nat, l as nat);
                    if sif0 + take == l {
                        vstd::arithmetic::div_mod::lemma_mod_self_0(li);
                    } else {
                        vstd::arithmetic::div_mod::lemma_small_mod((sif0 + take) as nat, l as nat);
                    }
                }
            }
        }
        proof {
            if fresh {
                vstd::arithmetic::div_mod::lemma_div_multiples_vanish_fancy(
                    g,
                    self.samples_in_frame as int,
                    l as int,
                );
                assert(l as int * g == g * l) by (nonlinear_arith);
                assert(len as int / (l as int) == g);
            }
        }
        events
    }
}



/// The debounce machine folded over a run of frame results; the `i`-th
/// frame carries the positions `starts[i]` and `ends[i]`.
pub open spec fn spec_debounce_run(
    st: DebounceState,
    results: Seq<Option<char>>,
    starts: Seq<u64>,
    ends: Seq<u64>,
    mpf: int,
    mgf: int,
    i: int,
) -> (DebounceState, Seq<KeyEvent>)
    decreases i,
{
    if i <= 0 {
        (st, Seq::empty())
    } else {
        let prev = spec_debounce_run(st, results, starts, ends, mpf, mgf, i - 1);
        let step = spec_consume_frame(prev.0, results[i - 1], starts[i - 1], ends[i - 1], mpf, mgf);
        (
            step.0,
            if step.1 is Some {
                prev.1.push(step.1.unwrap())
            } else {
                prev.1
            },
        )
    }
}

/// While every frame detects some key, the machine only accumulates: the
/// history grows by one per frame, no event is committed, and the press
/// keeps the start position of its first frame.
proof fn lemma_run_all_detected(
    st: DebounceState,
    results: Seq<Option<char>>,
    starts: Seq<u64>,
    ends: Seq<u64>,
    mpf: int,
    mgf: int,
    i: int,
)
    requires
        0 <= i <= results.len(),
        i <= starts.len(),
        i <= ends.len(),
        forall|j: int| 0 <= j < i ==> (#[trigger] results[j]) is Some,
    ensures
        ({
            let run = spec_debounce_run(st, results, starts, ends, mpf, mgf, i);
            &&& run.1 =~= Seq::<KeyEvent>::empty()
            &&& run.0.history.len() == st.history.len() + i
            &&& (i > 0 ==> run.0.current is Some && run.0.gap_frames == 0)
            &&& (st.current is Some ==> run.0.current == st.current && run.0.start == st.start)
        }),
    decreases i,
{
    if i > 0 {
        lemma_run_all_detected(st, results, starts, ends, mpf, mgf, i - 1);
    }
}

/// Law: a key present for fewer frames than the minimum press length,
/// followed by enough silent frames, comes and goes without a single
/// event: the short burst is debounced away and the machine is idle
/// again.
pub proof fn lemma_short_press_emits_nothing(
    results: Seq<Option<char>>,
    starts: Seq<u64>,
    ends: Seq<u64>,
    mpf: int,
    mgf: int,
    p: int,
)
    requires
        1 <= mpf,
        1 <= mgf,
        0 <= p < mpf,
        results.len() >= p,
        starts.len() == results.len(),
        ends.len() == results.len(),
        forall|j: int| 0 <= j < p ==> (#[trigger] results[j]) is Some,
        forall|j: int| p <= j < results.len() ==> (#[trigger] results[j]) is None,
    ensures
        spec_debounce_run(
            spec_idle_state(),
            results,
            starts,
            ends,
            mpf,
            mgf,
            results.len() as int,
        ).1 =~= Seq::<KeyEvent>::empty(),
{
    lemma_run_all_detected(spec_idle_state(), results, starts, ends, mpf, mgf, p);
    lemma_silence_after_short(spec_idle_state(), results, starts, ends, mpf, mgf, p, results.len() as int);
}

/// After a press shorter than the minimum, silent frames commit nothing:
/// the release gap runs out, the too-short history is discarded, and
/// the machine stays clear.
proof fn lemma_silence_after_short(
    st: DebounceState,
    results: Seq<Option<char>>,
    starts: Seq<u64>,
    ends: Seq<u64>,
    mpf: int,
    mgf: int,
    p: int,
    i: int,
)
    requires
        1 <= mpf,
        1 <= mgf,
        0 <= p <= i <= results.len(),
        i <= starts.len(),
        i <= ends.len(),
        forall|j: int| p <= j < results.len() ==> (#[trigger] results[j]) is None,
        spec_debounce_run(st, results, starts, ends, mpf, mgf, p).0.history.len() < mpf,
        spec_debounce_run(st, results, starts, ends, mpf, mgf, p).0.gap_frames >= 0,
    ensures
        ({
            let run = spec_debounce_run(st, results, starts, ends, mpf, mgf, i);
            &&& run.1 =~= spec_debounce_run(st, results, starts, ends, mpf, mgf, p).1
            &&& run.0.history.len() <= spec_debounce_run(
                st,
                results,
                starts,
                ends,
                mpf,
                mgf,
                p,
            ).0.history.len()
            &&& run.0.gap_frames >= 0
        }),
    decreases i - p,
{
    if i > p {
        lemma_silence_after_short(st, results, starts, ends, mpf, mgf, p, i - 1);
    }
}

/// Law: a key released for fewer than the minimum gap frames and then
/// seen again is not split into two events: no event is committed during
/// the short gap, and the re-detected frame continues the same press,
/// with the original start position and the history grown across the
/// gap.
pub proof fn lemma_short_gap_does_not_split(
    st: DebounceState,
    results: Seq<Option<char>>,
    starts: Seq<u64>,
    ends: Seq<u64>,
    mpf: int,
    mgf: int,
    q: int,
)
    requires
        1 <= mpf,
        1 <= mgf,
        st.current is Some,
        st.gap_frames == 0,
        0 <= q,
        q + 1 <= results.len(),
        q + 1 <= starts.len(),
        q + 1 <= ends.len(),
        q < mgf,
        forall|j: int| 0 <= j < q ==> (#[trigger] results[j]) is None,
        results[q] is Some,
    ensures
        ({
            let run = spec_debounce_run(st, results, starts, ends, mpf, mgf, q + 1);
            &&& run.1 =~= Seq::<KeyEvent>::empty()
            &&& run.0.current == st.current
            &&& run.0.start == st.start
            &&& run.0.gap_frames == 0
            &&& run.0.history == st.history.push(results[q].unwrap())
        }),
{
    lemma_short_gap_keeps_press(st, results, starts, ends, mpf, mgf, q);
}

/// Silent frames short of the release threshold only count the gap.
proof fn lemma_short_gap_keeps_press(
    st: DebounceState,
    results: Seq<Option<char>>,
    starts: Seq<u64>,
    ends: Seq<u64>,
    mpf: int,
    mgf: int,
    i: int,
)
    requires
        1 <= mgf,
        st.current is Some,
        st.gap_frames == 0,
        0 <= i <= results.len(),
        i <= starts.len(),
        i <= ends.len(),
        i < mgf,
        forall|j: int| 0 <= j < i ==> (#[trigger] results[j]) is None,
    ensures
        ({
            let run = spec_debounce_run(st, results, starts, ends, mpf, mgf, i);
            &&& run.1 =~= Seq::<KeyEvent>::empty()
            &&& run.0 == DebounceState { gap_frames: i, ..st }
        }),
    decreases i,
{
    if i > 0 {
        lemma_short_gap_keeps_press(st, results, starts, ends, mpf, mgf, i - 1);
        let prev = spec_debounce_run(st, results, starts, ends, mpf, mgf, i - 1);
        assert(prev.0 =~= DebounceState { gap_frames: i - 1, ..st });
    }
}



/// The frame fold of a push is exactly the debounce machine run over
/// the per-frame detector decisions, at the frame positions.
pub proof fn lemma_frames_are_a_run(
    st: DebounceState,
    samples: Seq<i16>,
    coeffs: Seq<i64>,
    frame_len: int,
    pr: int,
    tw: int,
    mpf: int,
    mgf: int,
    f: int,
)
    requires
        0 <= f,
        frame_len >= 1,
    ensures
        ({
            let results = Seq::new(
                f as nat,
                |g: int|
                    spec_detect_frame(
                        coeffs,
                        frame_len,
                        pr,
                        tw,
                        samples.subrange(g * frame_len, (g + 1) * frame_len),
                    ),
            );
            let starts = Seq::new(f as nat, |g: int| (g * frame_len) as u64);
            let ends = Seq::new(f as nat, |g: int| ((g + 1) * frame_len - 1) as u64);
            spec_frames(st, samples, coeffs, frame_len, pr, tw, mpf, mgf, f)
                == spec_debounce_run(st, results, starts, ends, mpf, mgf, f)
        }),
    decreases f,
{
    if f > 0 {
        lemma_frames_are_a_run(st, samples, coeffs, frame_len, pr, tw, mpf, mgf, f - 1);
        let results = Seq::new(
            f as nat,
            |g: int|
                spec_detect_frame(
                    coeffs,
                    frame_len,
                    pr,
                    tw,
                    samples.subrange(g * frame_len, (g + 1) * frame_len),
                ),
        );
        let starts = Seq::new(f as nat, |g: int| (g * frame_len) as u64);
        let ends = Seq::new(f as nat, |g: int| ((g + 1) * frame_len - 1) as u64);
        let results1 = Seq::new(
            (f - 1) as nat,
            |g: int|
                spec_detect_frame(
                    coeffs,
                    frame_len,
                    pr,
                    tw,
                    samples.subrange(g * frame_len, (g + 1) * frame_len),
                ),
        );
        let starts1 = Seq::new((f - 1) as nat, |g: int| (g * frame_len) as u64);
        let ends1 = Seq::new((f - 1) as nat, |g: int| ((g + 1) * frame_len - 1) as u64);
        lemma_run_prefix_eq(st, results, results1, starts, starts1, ends, ends1, mpf, mgf, f - 1);
    }
}

/// A debounce run depends only on the frames it actually reads.
proof fn lemma_run_prefix_eq(
    st: DebounceState,
    results: Seq<Option<char>>,
    results2: Seq<Option<char>>,
    starts: Seq<u64>,
    starts2: Seq<u64>,
    ends: Seq<u64>,
    ends2: Seq<u64>,
    mpf: int,
    mgf: int,
    i: int,
)
    requires
        forall|j: int| 0 <= j < i ==> #[trigger] results[j] == results2[j],
        forall|j: int| 0 <= j < i ==> #[trigger] starts[j] == starts2[j],
        forall|j: int| 0 <= j < i ==> #[trigger] ends[j] == ends2[j],
    ensures
        spec_debounce_run(st, results, starts, ends, mpf, mgf, i) == spec_debounce_run(
            st,
            results2,
            starts2,
            ends2,
            mpf,
            mgf,
            i,
        ),
    decreases i,
{
    if i > 0 {
        lemma_run_prefix_eq(st, results, results2, starts, starts2, ends, ends2, mpf, mgf, i - 1);
    }
}



/// Law: every event a frame fold from an idle start commits covers a
/// forward span: its start is the first sample of its first frame, its
/// end the last sample of a frame no earlier.
pub proof fn lemma_frames_events_wf(
    st: DebounceState,
    samples: Seq<i16>,
    coeffs: Seq<i64>,
    frame_len: int,
    pr: int,
    tw: int,
    mpf: int,
    mgf: int,
    f: int,
)
    requires
        0 <= f,
        frame_len >= 1,
        f * frame_len <= u64::MAX,
        st.current is None,
    ensures
        ({
            let run = spec_frames(st, samples, coeffs, frame_len, pr, tw, mpf, mgf, f);
            &&& (run.0.current is Some ==> run.0.start <= run.0.last < f * frame_len)
            &&& forall|k: int|
                0 <= k < run.1.len() ==> (#[trigger] run.1[k]).start_sample
                    <= run.1[k].end_sample
        }),
    decreases f,
{
    if f > 0 {
        assert((f - 1) * frame_len >= 0) by (nonlinear_arith)
            requires
                f >= 1,
                frame_len >= 1,
        ;
        assert((f - 1) * frame_len + frame_len == f * frame_len) by (nonlinear_arith);
        lemma_frames_events_wf(st, samples, coeffs, frame_len, pr, tw, mpf, mgf, f - 1);
        let prev = spec_frames(st, samples, coeffs, frame_len, pr, tw, mpf, mgf, f - 1);
        if prev.0.current is Some {
            assert(prev.0.start <= prev.0.last < (f - 1) * frame_len);
        }
    }
}


} // verus!
