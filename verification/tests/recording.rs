use meshcq::{
    build_opus_head, build_opus_tags, latest_ogg_name, opus_frame, recording_filename,
    OfdmModulator, XorShift32,
};

#[test]
fn opus_head_bytes_are_exact() {
    let head = build_opus_head(48000, 1, 0);
    let mut expected = b"OpusHead".to_vec();
    expected.push(1);
    expected.push(1);
    expected.extend([0, 0]);
    expected.extend(48000u32.to_le_bytes());
    expected.extend([0, 0]);
    expected.push(0);
    assert_eq!(head, expected);
    assert_eq!(head.len(), 19);
}

#[test]
fn opus_head_encodes_preskip_and_rate() {
    let head = build_opus_head(0x0408_0201, 2, 0x0102);
    assert_eq!(head[9], 2);
    assert_eq!(&head[10..12], &[0x02, 0x01]);
    assert_eq!(&head[12..16], &[0x01, 0x02, 0x08, 0x04]);
}

#[test]
fn opus_tags_bytes_are_exact() {
    let tags = build_opus_tags("abc", "T7");
    let mut expected = b"OpusTags".to_vec();
    expected.extend(3u32.to_le_bytes());
    expected.extend(b"abc");
    expected.extend(1u32.to_le_bytes());
    expected.extend(12u32.to_le_bytes());
    expected.extend(b"TIMESTAMP=T7");
    assert_eq!(tags, expected);
}

#[test]
fn latest_recording_is_the_greatest_ogg_name() {
    let names: Vec<Vec<u8>> = ["msg-1.ogg", "msg-3.ogg", "msg-2.ogg", "notes.txt"]
        .iter()
        .map(|s| s.as_bytes().to_vec())
        .collect();
    assert_eq!(latest_ogg_name(&names), Some(1));
    let none: Vec<Vec<u8>> = vec![b"notes.txt".to_vec()];
    assert_eq!(latest_ogg_name(&none), None);
    assert_eq!(latest_ogg_name(&Vec::new()), None);
    // of two equal names the first is kept
    let dup: Vec<Vec<u8>> = vec![b"a.ogg".to_vec(), b"a.ogg".to_vec()];
    assert_eq!(latest_ogg_name(&dup), Some(0));
}

#[test]
fn recording_filename_formats_the_capture_time() {
    assert_eq!(recording_filename(0, 0), "msg-1970-01-01-000000.0000Z.ogg");
    // 2001-09-09T01:46:40 UTC
    assert_eq!(
        recording_filename(1_000_000_000, 123_400_000),
        "msg-2001-09-09-014640.1234Z.ogg"
    );
}

#[test]
fn opus_frames_are_padded_with_zeros() {
    let samples = [1i16, 2, 3, 4, 5];
    let frame = opus_frame(&samples, 3, 2);
    assert_eq!(frame.len(), 960);
    assert_eq!(&frame[..2], &[4, 5]);
    assert!(frame[2..].iter().all(|&s| s == 0));
}

#[test]
fn ofdm_modulator_has_the_default_geometry() {
    let m = OfdmModulator::new();
    assert_eq!(m.nfft, 2048);
    assert_eq!(m.active_bins, 104);
    assert_eq!(m.cp_len, 256);
    assert_eq!(m.symbol_len(), 2048 + 256);
    let d = OfdmModulator::default();
    assert_eq!(d.nfft, 2048);
}

#[test]
fn xorshift_is_reproducible_and_avoids_zero() {
    let mut a = XorShift32::new(0x1234_5678);
    let mut b = XorShift32::new(0x1234_5678);
    let first = a.next_u32();
    assert_eq!(first, b.next_u32());
    assert_ne!(first, a.next_u32());
    let mut z = XorShift32::new(0);
    assert_eq!(z.state, 0xA5A5_1234);
    assert_ne!(z.next_u32(), 0);
}
