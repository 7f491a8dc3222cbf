use meshcq::{encode_units, pre_modulate_callsign, CwModulator, EncodeError};

fn units(pattern: &str) -> Vec<bool> {
    // pattern written as dots and dashes, one silent unit between marks
    let mut out = Vec::new();
    let mut first = true;
    for mark in pattern.chars() {
        if !first {
            out.push(false);
        }
        match mark {
            '.' => out.push(true),
            '-' => {
                out.push(true);
                out.push(true);
                out.push(true);
            }
            _ => panic!("bad pattern"),
        }
        first = false;
    }
    out
}

#[test]
fn encode_single_letter() {
    assert_eq!(encode_units("A"), Ok(units(".-")));
    assert_eq!(encode_units("E"), Ok(units(".")));
    assert_eq!(encode_units("T"), Ok(units("-")));
}

#[test]
fn encode_is_case_insensitive() {
    assert_eq!(encode_units("a"), encode_units("A"));
    assert_eq!(encode_units("sos"), encode_units("SOS"));
}

#[test]
fn encode_sos_has_standard_gaps() {
    let mut expected = units("...");
    expected.extend([false; 3]);
    expected.extend(units("---"));
    expected.extend([false; 3]);
    expected.extend(units("..."));
    let got = encode_units("SOS").expect("encode");
    assert_eq!(got.len(), 27);
    assert_eq!(got, expected);
}

#[test]
fn encode_word_gap_is_seven_units() {
    let mut expected = units(".");
    expected.extend([false; 7]);
    expected.extend(units("."));
    assert_eq!(encode_units("E E"), Ok(expected.clone()));
    // runs of whitespace collapse and leading whitespace is silent
    assert_eq!(encode_units("  E   E"), Ok(expected.clone()));
    // whitespace after a symbol closes the word even at the end
    let mut trailing = expected;
    trailing.extend([false; 7]);
    assert_eq!(encode_units("E E "), Ok(trailing));
}

#[test]
fn encode_prosign_fuses_letters() {
    let mut expected = units(".-");
    expected.extend([false; 3]);
    let mut prosign = units(".-");
    prosign.push(false);
    prosign.extend(units(".-."));
    expected.extend(prosign.clone());
    expected.extend([false; 3]);
    expected.extend(units("-..."));
    assert_eq!(encode_units("A<AR>B"), Ok(expected));
    assert_eq!(encode_units("<AR>"), Ok(prosign));
}

#[test]
fn encode_unknown_symbol_fails() {
    assert_eq!(encode_units("{"), Err(EncodeError::UnknownSymbol('{')));
    assert_eq!(encode_units("A{"), Err(EncodeError::UnknownSymbol('{')));
}

#[test]
fn encode_bracket_errors() {
    assert_eq!(encode_units("<AR"), Err(EncodeError::UnterminatedProsign(0)));
    assert_eq!(encode_units("AB<KN"), Err(EncodeError::UnterminatedProsign(2)));
    assert_eq!(encode_units(">"), Err(EncodeError::UnknownSymbol('>')));
    assert_eq!(encode_units("<<"), Err(EncodeError::UnknownSymbol('<')));
}

#[test]
fn modulator_unit_samples_follow_paris_standard() {
    // one word is 50 units; at 20 wpm and 48 kHz one unit is 2880 samples
    let m = CwModulator::new(48000, 700, 20, 32768);
    assert_eq!(m.unit_samples(), 2880);
    let m = CwModulator::new(48000, 700, 7000, 32768);
    assert_eq!(m.unit_samples(), 8);
}

#[test]
fn modulate_writes_whole_units_only() {
    let mut m = CwModulator::new(48000, 700, 20, 32768);
    let units = [true, false, true];
    let mut out = vec![0i16; 2880 * 2 + 100];
    let written = m.modulate(&units, &mut out);
    assert_eq!(written, 2880 * 2);
    assert_eq!(written % m.unit_samples(), 0);
    // a short buffer takes nothing
    let mut tiny = vec![0i16; 2879];
    let mut m2 = CwModulator::new(48000, 700, 20, 32768);
    assert_eq!(m2.modulate(&units, &mut tiny), 0);
}

#[test]
fn modulate_gap_units_are_exact_zeros() {
    let mut m = CwModulator::new(48000, 700, 20, 16384);
    let units = [true, false];
    let mut out = vec![7i16; 2880 * 2];
    let written = m.modulate(&units, &mut out);
    assert_eq!(written, 2880 * 2);
    assert!(out[2880..5760].iter().all(|&s| s == 0));
    // the tone unit is not silent
    assert!(out[..2880].iter().any(|&s| s != 0));
}

#[test]
fn modulate_keeps_phase_across_gaps() {
    let mut tone_gap = CwModulator::new(48000, 700, 20, 32768);
    let mut continuous = CwModulator::new(48000, 700, 20, 32768);
    let mut out = vec![0i16; 2880 * 2];
    tone_gap.modulate(&[true, false], &mut out);
    continuous.modulate(&[true, true], &mut out);
    assert_eq!(tone_gap.osc.phase_q32, continuous.osc.phase_q32);
    tone_gap.reset_phase();
    assert_eq!(tone_gap.osc.phase_q32, 0);
}

#[test]
fn oscillator_tracks_reference_sine() {
    let mut m = CwModulator::new(48000, 700, 20, 32768);
    let mut out = vec![0i16; 2880];
    m.modulate(&[true], &mut out);
    for (k, &s) in out.iter().enumerate() {
        let expected = (2.0 * std::f64::consts::PI * 700.0 * k as f64 / 48000.0).sin();
        let got = s as f64 / 32768.0;
        assert!((got - expected).abs() < 2e-3, "sample {}: {} vs {}", k, got, expected);
    }
}

#[test]
fn pre_modulate_callsign_renders_every_unit() {
    let units = encode_units("K1ABC").expect("encode");
    let samples = pre_modulate_callsign("K1ABC", 48000, 700, 20, 3277).expect("modulate");
    assert_eq!(samples.len(), units.len() * 2880);
    let err = pre_modulate_callsign("K1{", 48000, 700, 20, 3277).unwrap_err();
    assert_eq!(err, EncodeError::UnknownSymbol('{'));
}
