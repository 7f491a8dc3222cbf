//! Core logic of a simplex repeater for amateur radio: a Morse (CW)
//! text-to-tone encoder and modulator, a Goertzel-based DTMF detector and
//! debouncer, message assembly and transmission planning driven by a
//! monotonic sample clock, noise synthesis for suppressing command tones,
//! and the byte-level helpers of the recording store.
//!
//! All audio is carried as 16-bit PCM samples (`i16`, full scale = 32767)
//! and all timing is expressed in sample counts at 48 kHz, never in wall
//! clock time.

mod debounce;
mod dtmf_dsp;
mod encode;
mod modulator;
mod noise;
mod ofdm;
mod oscillator;
mod recording;
mod repeater;
mod trig;

pub use debounce::{most_common_key, DtmfDebouncer, DtmfDebouncerBuilder, KeyEvent};
pub use dtmf_dsp::{top_two, DtmfDetector};
pub use encode::{encode_units, EncodeError};
pub use modulator::{pre_modulate_callsign, CwModulator};
pub use noise::{estimate_floor, fill_band_limited_gaussian_noise, XorShift32};
pub use ofdm::OfdmModulator;
pub use oscillator::SineOscillator;
pub use recording::{
    build_opus_head, build_opus_tags, latest_ogg_name, opus_frame, recording_filename,
};
pub use repeater::{
    build_transmit_message, collect_event_ranges, has_replay_command, idle_timeout_transmission,
    merge_chunk, split_dtmf_sequences, suppress_dtmf, transmit_callsign, transmit_len,
    transmit_message, RepeaterState, TimedChunk, TransmitResult,
};
