use lattice_core::framework::animation::timing::{
    timing_kind, transport_position, TimingKind, MidiClock, MtcDecoder, MtcRate, CLOCK, CONTINUE, MTC_QUARTER_FRAME,
    PULSES_PER_QUARTER_NOTE, SONG_POSITION, START, STOP, TICKS_PER_QUARTER_NOTE,
};

fn beats(clock: &MidiClock) -> f32 {
    let offset = clock.clock_count() as f32 / PULSES_PER_QUARTER_NOTE as f32;
    if clock.follow_song_position_messages() {
        clock.song_position() as f32 / TICKS_PER_QUARTER_NOTE as f32 + offset
    } else {
        offset
    }
}

#[test]
fn timing_test_midi_timing_beats() {
    let mut timing = MidiClock::new(true);

    // Simulate receiving SPP message for bar 44
    timing.resync(44 * 4 * TICKS_PER_QUARTER_NOTE, 0);

    // Each bar is 4 beats, so bar 44 starts at beat 176
    assert_eq!(beats(&timing), 176.0);
}

#[test]
fn clock_pulses_count_quarter_notes() {
    let mut clock = MidiClock::new(true);
    for _ in 0..48 {
        clock.handle_message(&[CLOCK]);
    }
    assert_eq!(clock.clock_count(), 48);
    assert_eq!(beats(&clock), 2.0);
    clock.handle_message(&[CONTINUE]);
    clock.handle_message(&[STOP]);
    clock.handle_message(&[]);
    assert_eq!(clock.clock_count(), 48);
    clock.handle_message(&[START]);
    assert_eq!(clock.clock_count(), 0);
}

#[test]
fn song_position_pointer_sets_ticks() {
    let mut clock = MidiClock::new(true);
    clock.handle_message(&[CLOCK]);
    // 0x10 + (0x01 << 7) = 144 sixteenths = 36 beats
    clock.handle_message(&[SONG_POSITION, 0x10, 0x01]);
    assert_eq!(clock.song_position(), 144 * 240);
    assert_eq!(clock.clock_count(), 0);
    assert_eq!(beats(&clock), 36.0);
}

#[test]
fn song_position_pointer_ignored_when_not_followed() {
    let mut clock = MidiClock::new(false);
    assert!(clock.is_complete(&[SONG_POSITION]));
    clock.handle_message(&[SONG_POSITION, 0x10, 0x01]);
    assert_eq!(clock.song_position(), 0);
    let followed = MidiClock::new(true);
    assert!(!followed.is_complete(&[SONG_POSITION, 1]));
    assert!(followed.is_complete(&[SONG_POSITION, 1, 2]));
}

#[test]
fn clock_count_wraps() {
    let mut clock = MidiClock::new(true);
    clock.resync(0, u32::MAX);
    clock.handle_message(&[CLOCK]);
    assert_eq!(clock.clock_count(), 0);
}

fn quarter(piece: u8, nibble: u8) -> [u8; 2] {
    [MTC_QUARTER_FRAME, piece * 16 + nibble]
}

#[test]
fn mtc_full_frame_sets_time() {
    let mut mtc = MtcDecoder::new();
    // 01:02:03:04 at 25 fps (rate code 1)
    let pieces = [(0, 4), (1, 0), (2, 3), (3, 0), (4, 2), (5, 0), (6, 1)];
    for (p, n) in pieces {
        assert_eq!(mtc.handle_message(&quarter(p, n)), None);
    }
    assert_eq!(mtc.handle_message(&quarter(7, 1 << 2)), Some(MtcRate::Fps25));
    assert_eq!(mtc.time(), (1, 2, 3, 4));
}

#[test]
fn mtc_hours_take_bit_four_from_last_piece() {
    let mut mtc = MtcDecoder::new();
    mtc.handle_message(&quarter(6, 0x7));
    assert_eq!(mtc.handle_message(&quarter(7, 0b1101)), Some(MtcRate::Fps30));
    assert_eq!(mtc.time().0, 0x17);
}

#[test]
fn mtc_nibbles_assemble_bytes() {
    let mut mtc = MtcDecoder::new();
    mtc.handle_message(&quarter(0, 0xB));
    mtc.handle_message(&quarter(1, 0x1));
    mtc.handle_message(&quarter(2, 0xB));
    mtc.handle_message(&quarter(3, 0x3));
    assert_eq!(mtc.time(), (0, 0, 0x3B, 0x1B));
    assert_eq!(mtc.handle_message(&[0xF8, 0x01]), None);
    assert_eq!(mtc.handle_message(&[MTC_QUARTER_FRAME]), None);
    assert_eq!(mtc.time(), (0, 0, 0x3B, 0x1B));
}

#[test]
fn mtc_rate_codes() {
    let mut mtc = MtcDecoder::new();
    assert_eq!(mtc.handle_message(&quarter(7, 0)), Some(MtcRate::Fps24));
    assert_eq!(mtc.handle_message(&quarter(7, 8)), Some(MtcRate::Fps2997Drop));
}

#[test]
fn osc_transport_counts_from_zero() {
    assert_eq!(transport_position(1, 3, 2), (true, 2, 1));
    assert_eq!(transport_position(0, 1, 1), (false, 0, 0));
}

#[test]
fn timing_kinds_by_argument() {
    assert_eq!(timing_kind("osc"), TimingKind::Osc);
    assert_eq!(timing_kind("midi"), TimingKind::Midi);
    assert_eq!(timing_kind("hybrid"), TimingKind::Hybrid);
    assert_eq!(timing_kind("frame"), TimingKind::Frame);
    assert_eq!(timing_kind("MIDI"), TimingKind::Frame);
}
