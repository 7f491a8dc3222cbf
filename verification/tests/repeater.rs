use meshcq::{
    build_transmit_message, collect_event_ranges, estimate_floor, has_replay_command,
    idle_timeout_transmission, merge_chunk, split_dtmf_sequences, suppress_dtmf,
    transmit_callsign, transmit_len, transmit_message, KeyEvent, TimedChunk,
};

const LEAD: usize = 9600;
const HANG: usize = 48000;
const PRE_ID_GAP: usize = 48000;
const ID_INTERVAL: u64 = 25_920_000;

#[test]
fn merge_fills_the_exact_gap_with_zeros() {
    let mut message = TimedChunk { samples: vec![1, 2, 3], end_sample: 103 };
    let next = TimedChunk { samples: vec![4, 5], end_sample: 110 };
    // next starts at 108, so five zero samples cover 103..108
    merge_chunk(&mut message, next);
    assert_eq!(message.samples, vec![1, 2, 3, 0, 0, 0, 0, 0, 4, 5]);
    assert_eq!(message.end_sample, 110);
}

#[test]
fn merge_of_contiguous_chunks_adds_no_zeros() {
    let mut message = TimedChunk { samples: vec![1, 2], end_sample: 50 };
    let next = TimedChunk { samples: vec![3, 4], end_sample: 52 };
    merge_chunk(&mut message, next);
    assert_eq!(message.samples, vec![1, 2, 3, 4]);
    assert_eq!(message.end_sample, 52);
}

#[test]
fn transmit_len_adds_the_fixed_silences() {
    assert_eq!(transmit_len(100, 7, false), LEAD + 100 + HANG);
    assert_eq!(transmit_len(100, 7, true), LEAD + 100 + PRE_ID_GAP + 7 + HANG);
}

#[test]
fn transmit_buffer_layout_is_exact() {
    let message = [5i16, 6, 7];
    let callsign = [9i16, 9];
    let without = build_transmit_message(&message, &callsign, false);
    assert_eq!(without.len(), LEAD + 3 + HANG);
    assert!(without[..LEAD].iter().all(|&s| s == 0));
    assert_eq!(&without[LEAD..LEAD + 3], &message);
    assert!(without[LEAD + 3..].iter().all(|&s| s == 0));

    let with = build_transmit_message(&message, &callsign, true);
    assert_eq!(with.len(), LEAD + 3 + PRE_ID_GAP + 2 + HANG);
    assert_eq!(&with[LEAD..LEAD + 3], &message);
    assert!(with[LEAD + 3..LEAD + 3 + PRE_ID_GAP].iter().all(|&s| s == 0));
    assert_eq!(&with[LEAD + 3 + PRE_ID_GAP..LEAD + 3 + PRE_ID_GAP + 2], &callsign);
    assert!(with[LEAD + 3 + PRE_ID_GAP + 2..].iter().all(|&s| s == 0));
}

#[test]
fn id_is_due_exactly_when_the_deadline_is_reached() {
    let callsign = [9i16; 10];
    let base_len = (LEAD + HANG) as u64;
    // a transmission whose provisional end stays one sample short of the
    // deadline carries no ID
    let early = TimedChunk { samples: Vec::new(), end_sample: ID_INTERVAL - base_len - 1 };
    let (buf, result) = transmit_message(&early, &callsign, Some(0));
    assert!(!result.sent_callsign);
    assert_eq!(buf.len(), LEAD + HANG);
    assert_eq!(result.transmission_end_sample, early.end_sample + buf.len() as u64);

    // reaching the deadline forces the ID
    let late = TimedChunk { samples: Vec::new(), end_sample: ID_INTERVAL - base_len };
    let (buf, result) = transmit_message(&late, &callsign, Some(0));
    assert!(result.sent_callsign);
    assert_eq!(buf.len(), LEAD + PRE_ID_GAP + 10 + HANG);
}

#[test]
fn first_transmission_always_sends_the_id() {
    let message = TimedChunk { samples: vec![1], end_sample: 10 };
    let (_, result) = transmit_message(&message, &[2i16; 4], None);
    assert!(result.sent_callsign);
}

#[test]
fn callsign_only_transmission_has_id_layout() {
    let callsign = [3i16; 5];
    let buf = transmit_callsign(&callsign);
    assert_eq!(buf.len(), LEAD + PRE_ID_GAP + 5 + HANG);
    assert_eq!(&buf[LEAD + PRE_ID_GAP..LEAD + PRE_ID_GAP + 5], &callsign);
}

#[test]
fn idle_timeout_sends_id_only_after_a_message() {
    assert!(idle_timeout_transmission(None, &[1i16; 3]).is_none());
    let (buf, new_last_id) = idle_timeout_transmission(Some(1000), &[1i16; 3]).unwrap();
    assert_eq!(buf.len(), LEAD + PRE_ID_GAP + 3 + HANG);
    assert_eq!(new_last_id, 1000 + 1_440_000 + buf.len() as u64);
}

#[test]
fn event_ranges_are_clamped_to_the_message() {
    let events = [
        KeyEvent { key: '1', start_sample: 2, end_sample: 4 },
        KeyEvent { key: '2', start_sample: 8, end_sample: 100 },
        KeyEvent { key: '3', start_sample: 10, end_sample: 12 },
    ];
    let ranges = collect_event_ranges(10, &events);
    assert_eq!(ranges, vec![(2, 5), (8, 10)]);
}

#[test]
fn sequences_split_on_the_command_gap() {
    let events = [
        KeyEvent { key: '1', start_sample: 0, end_sample: 10 },
        KeyEvent { key: '2', start_sample: 50, end_sample: 60 },
        KeyEvent { key: '3', start_sample: 96_100, end_sample: 96_200 },
    ];
    // 96_200 - 60 exceeds the two-second gap of 96_000 samples
    let sequences = split_dtmf_sequences(&events, 0);
    assert_eq!(sequences, vec![vec!['1', '2'], vec!['3']]);
    // without the long pause everything is one sequence
    let events = [
        KeyEvent { key: '1', start_sample: 0, end_sample: 10 },
        KeyEvent { key: '2', start_sample: 96_000, end_sample: 96_010 },
    ];
    assert_eq!(split_dtmf_sequences(&events, 0), vec![vec!['1', '2']]);
}

#[test]
fn replay_command_needs_adjacent_hashes() {
    assert!(has_replay_command(&vec![vec!['1', '#', '#']]));
    assert!(has_replay_command(&vec![vec!['#', '#', '5']]));
    assert!(!has_replay_command(&vec![vec!['#', '1', '#']]));
    assert!(!has_replay_command(&vec![vec!['#'], vec!['#']]));
    assert!(!has_replay_command(&Vec::new()));
}

#[test]
fn floor_estimate_of_constant_signal_is_its_amplitude() {
    let samples = vec![1000i16; 2000];
    assert_eq!(estimate_floor(&samples, &Vec::new(), 960), 1000);
    let silence = vec![0i16; 2000];
    assert_eq!(estimate_floor(&silence, &Vec::new(), 960), 0);
    // ranges covering everything leave no window to measure
    assert_eq!(estimate_floor(&samples, &vec![(0usize, 2000usize)], 960), 0);
    assert_eq!(estimate_floor(&samples, &Vec::new(), 0), 0);
}

#[test]
fn floor_estimate_takes_the_minimum_window() {
    let mut samples = vec![1000i16; 960];
    samples.extend(vec![10i16; 960]);
    assert_eq!(estimate_floor(&samples, &Vec::new(), 960), 10);
}

#[test]
fn suppression_replaces_only_the_tone_ranges() {
    let mut samples = vec![100i16; 4000];
    let original = samples.clone();
    let events = [KeyEvent { key: '#', start_sample: 1000, end_sample: 1999 }];
    suppress_dtmf(&mut samples, &events);
    assert_eq!(samples.len(), original.len());
    assert_eq!(&samples[..1000], &original[..1000]);
    assert_eq!(&samples[2000..], &original[2000..]);
    assert_ne!(&samples[1000..2000], &original[1000..2000]);
    // the replacement is deterministic
    let mut again = original.clone();
    suppress_dtmf(&mut again, &events);
    assert_eq!(again, samples);
}

#[test]
fn suppression_without_events_changes_nothing() {
    let mut samples = vec![7i16; 100];
    suppress_dtmf(&mut samples, &[]);
    assert_eq!(samples, vec![7i16; 100]);
}
