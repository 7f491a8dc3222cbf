use meshcq::{most_common_key, top_two, DtmfDebouncer, DtmfDetector, KeyEvent};

const FRAME: usize = 1440;

fn tone(freqs: &[f64], n: usize, amp: f64) -> Vec<i16> {
    (0..n)
        .map(|k| {
            let v: f64 = freqs
                .iter()
                .map(|f| amp * (2.0 * std::f64::consts::PI * f * k as f64 / 48000.0).sin())
                .sum();
            (v * 32767.0).round().clamp(-32768.0, 32767.0) as i16
        })
        .collect()
}

#[test]
fn detector_finds_key_one() {
    let mut d = DtmfDetector::new(48000, FRAME);
    d.feed(&tone(&[697.0, 1209.0], FRAME, 0.4));
    assert_eq!(d.finish(), Some('1'));
}

#[test]
fn detector_finds_all_sixteen_keys() {
    let rows = [697.0, 770.0, 852.0, 941.0];
    let cols = [1209.0, 1336.0, 1477.0, 1633.0];
    let keys = [
        ['1', '2', '3', 'A'],
        ['4', '5', '6', 'B'],
        ['7', '8', '9', 'C'],
        ['*', '0', '#', 'D'],
    ];
    let mut d = DtmfDetector::new(48000, FRAME);
    for r in 0..4 {
        for c in 0..4 {
            d.reset();
            d.feed(&tone(&[rows[r], cols[c]], FRAME, 0.4));
            assert_eq!(d.finish(), Some(keys[r][c]), "row {} col {}", r, c);
        }
    }
}

#[test]
fn detector_rejects_silence_and_noise() {
    let mut d = DtmfDetector::new(48000, FRAME);
    d.feed(&vec![0i16; FRAME]);
    assert_eq!(d.finish(), None);
    // weak wideband noise from a little congruential generator
    let mut state: u32 = 1;
    let noise: Vec<i16> = (0..FRAME)
        .map(|_| {
            state = state.wrapping_mul(1103515245).wrapping_add(12345);
            ((state >> 16) as i16 % 300) - 150
        })
        .collect();
    d.reset();
    d.feed(&noise);
    assert_eq!(d.finish(), None);
}

#[test]
fn detector_rejects_two_tones_from_one_row() {
    let mut d = DtmfDetector::new(48000, FRAME);
    d.feed(&tone(&[697.0, 770.0], FRAME, 0.4));
    assert_eq!(d.finish(), None);
}

#[test]
fn detector_tolerates_moderate_twist_only() {
    let within = |db: f64| {
        let a = 0.3;
        let b = a * 10f64.powf(-db / 20.0);
        let samples: Vec<i16> = (0..FRAME)
            .map(|k| {
                let t = k as f64 / 48000.0;
                let v = a * (2.0 * std::f64::consts::PI * 697.0 * t).sin()
                    + b * (2.0 * std::f64::consts::PI * 1209.0 * t).sin();
                (v * 32767.0).round() as i16
            })
            .collect();
        let mut d = DtmfDetector::new(48000, FRAME);
        d.feed(&samples);
        d.finish()
    };
    assert_eq!(within(10.0), Some('1'));
    assert_eq!(within(14.0), None);
}

#[test]
fn detector_window_ignores_extra_samples() {
    let mut d = DtmfDetector::new(48000, FRAME);
    d.feed(&tone(&[697.0, 1209.0], FRAME, 0.4));
    // the window is closed: pure silence afterwards changes nothing
    d.feed(&vec![0i16; FRAME]);
    assert_eq!(d.finish(), Some('1'));
}

#[test]
fn top_two_reports_first_maximum_and_runner_up() {
    assert_eq!(top_two(&[5, 3, 5, 1]), Some((0, 5, 5)));
    assert_eq!(top_two(&[3, 9, 4, 2]), Some((1, 9, 4)));
    assert_eq!(top_two(&[]), None);
    assert_eq!(top_two(&[7]), None);
}

#[test]
fn majority_vote_prefers_count_then_fixed_order() {
    assert_eq!(most_common_key(&vec!['3', '3', '9']), Some('3'));
    assert_eq!(most_common_key(&vec!['9', '3', '9']), Some('9'));
    // a tie goes to the earlier key in the order 1 2 3 A 4 5 6 B 7 8 9 C * 0 # D
    assert_eq!(most_common_key(&vec!['2', '1']), Some('1'));
    assert_eq!(most_common_key(&vec!['0', '*']), Some('*'));
    assert_eq!(most_common_key(&Vec::new()), None);
}

fn push_frames(debouncer: &mut DtmfDebouncer, stream: &mut Vec<i16>, frames: &[Option<char>]) {
    let _ = debouncer;
    for f in frames {
        match f {
            Some('1') => stream.extend(tone(&[697.0, 1209.0], FRAME, 0.4)),
            Some('2') => stream.extend(tone(&[697.0, 1336.0], FRAME, 0.4)),
            Some(_) => panic!("unsupported key"),
            None => stream.extend(vec![0i16; FRAME]),
        }
    }
}

#[test]
fn debouncer_commits_a_sustained_press_once() {
    let mut d = DtmfDebouncer::builder(48000).build();
    let mut stream = Vec::new();
    push_frames(&mut d, &mut stream, &[Some('1'), Some('1'), Some('1'), None, None, None]);
    let events = d.push(&stream);
    assert_eq!(
        events,
        vec![KeyEvent { key: '1', start_sample: 0, end_sample: 3 * FRAME as u64 - 1 }]
    );
}

#[test]
fn debouncer_drops_presses_shorter_than_minimum() {
    let mut d = DtmfDebouncer::builder(48000).build();
    let mut stream = Vec::new();
    push_frames(&mut d, &mut stream, &[Some('1'), None, None, None, None]);
    assert_eq!(d.push(&stream), Vec::new());
}

#[test]
fn debouncer_resolves_single_flicker_by_majority() {
    let mut d = DtmfDebouncer::builder(48000).build();
    let mut stream = Vec::new();
    push_frames(
        &mut d,
        &mut stream,
        &[Some('1'), Some('2'), Some('1'), None, None, None],
    );
    let events = d.push(&stream);
    assert_eq!(events.len(), 1);
    assert_eq!(events[0].key, '1');
}

#[test]
fn debouncer_does_not_split_on_a_short_release() {
    let mut d = DtmfDebouncer::builder(48000).build();
    let mut stream = Vec::new();
    // two silent frames are fewer than the three that confirm a release
    push_frames(
        &mut d,
        &mut stream,
        &[Some('1'), Some('1'), None, None, Some('1'), Some('1'), None, None, None],
    );
    let events = d.push(&stream);
    assert_eq!(events.len(), 1);
    assert_eq!(events[0].key, '1');
    assert_eq!(events[0].start_sample, 0);
    assert_eq!(events[0].end_sample, 6 * FRAME as u64 - 1);
}

#[test]
fn debouncer_reset_clears_pending_state() {
    let mut d = DtmfDebouncer::builder(48000).build();
    let mut stream = Vec::new();
    push_frames(&mut d, &mut stream, &[Some('1'), Some('1')]);
    assert_eq!(d.push(&stream), Vec::new());
    d.reset();
    // after the reset the earlier press must not be committed
    let silence = vec![0i16; 3 * FRAME];
    assert_eq!(d.push(&silence), Vec::new());
}

#[test]
fn debouncer_builder_settings_take_effect() {
    let mut d = DtmfDebouncer::builder(48000)
        .frame_samples(FRAME)
        .min_press_frames(4)
        .min_gap_frames(1)
        .build();
    let mut stream = Vec::new();
    push_frames(&mut d, &mut stream, &[Some('1'), Some('1'), Some('1'), None]);
    // three frames fall short of the raised minimum
    assert_eq!(d.push(&stream), Vec::new());
}
