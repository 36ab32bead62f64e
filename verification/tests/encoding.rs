use core::cmp::Ordering;
use sfx::notes::{
    ChannelMode, DutyCycleMode, Frequency, MusicNote, PanMode, TONE_NOTE_MODE, TONE_PAN_LEFT,
    TONE_PAN_RIGHT, TONE_PULSE2,
};

fn pulse_note(start: Frequency, end: Frequency) -> MusicNote {
    MusicNote::new(
        ChannelMode::Pulse(DutyCycleMode::OneFourth),
        start,
        end,
        4,  // sustain
        1,  // release
        3,  // decay
        2,  // attack
        30, // sustain volume
        80, // attack volume
        PanMode::Left,
    )
}

#[test]
fn frequency_encodes_hertz() {
    assert_eq!(u32::from(Frequency::Hertz(440)), 440);
}

#[test]
fn frequency_encodes_midi_note() {
    assert_eq!(u32::from(Frequency::MIDINote(60, 0)), 60);
}

#[test]
fn frequency_encodes_zero() {
    assert_eq!(u32::from(Frequency::Zero), 0);
}

#[test]
fn frequency_encodes_midi_bend_above_note() {
    assert_eq!(u32::from(Frequency::MIDINote(60, 2)), (2 << 8) | 60);
}

#[test]
fn play_packs_the_four_words() {
    let note = pulse_note(Frequency::Hertz(100), Frequency::Hertz(200));
    let cmd = note.play(0);
    assert_eq!(cmd.frequency, (200 << 16) | 100);
    assert_eq!(cmd.duration, (2 << 24) | (3 << 16) | (1 << 8) | 4);
    assert_eq!(cmd.volume, (80 << 8) | 30);
    // One-fourth duty (4), first pulse channel (0), pan left (16).
    assert_eq!(cmd.flags, 4 | TONE_PAN_LEFT);
}

#[test]
fn play_sets_note_mode_for_midi_start() {
    let note = pulse_note(Frequency::MIDINote(60, 0), Frequency::Zero);
    let cmd = note.play(0);
    assert_eq!(cmd.flags & TONE_NOTE_MODE, TONE_NOTE_MODE);
    let hertz = pulse_note(Frequency::Hertz(60), Frequency::Zero);
    assert_eq!(hertz.play(0).flags & TONE_NOTE_MODE, 0);
}

#[test]
fn play_selects_second_pulse_slot() {
    let note = pulse_note(Frequency::Hertz(100), Frequency::Hertz(100));
    assert_eq!(note.play(1).flags & TONE_PULSE2, TONE_PULSE2);
    assert_eq!(note.play(0).flags & TONE_PULSE2, 0);
}

#[test]
fn play_flags_triangle_and_noise() {
    let triangle = MusicNote::new(
        ChannelMode::Triangle,
        Frequency::Hertz(220),
        Frequency::Hertz(220),
        0,
        0,
        0,
        0,
        50,
        50,
        PanMode::Center,
    );
    assert_eq!(triangle.play(0).flags, 2);
    let noise = MusicNote::new(
        ChannelMode::Noise,
        Frequency::Hertz(220),
        Frequency::Hertz(220),
        0,
        0,
        0,
        0,
        50,
        50,
        PanMode::Right,
    );
    assert_eq!(noise.play(0).flags, 3 | TONE_PAN_RIGHT);
}

#[test]
fn duty_cycle_flags_are_distinct() {
    let duties = [
        (DutyCycleMode::OneEighth, 0),
        (DutyCycleMode::OneFourth, 4),
        (DutyCycleMode::OneHalf, 8),
        (DutyCycleMode::ThreeFourths, 12),
    ];
    for (duty, flag) in duties {
        let note = MusicNote::new(
            ChannelMode::Pulse(duty),
            Frequency::Hertz(100),
            Frequency::Hertz(100),
            0,
            0,
            0,
            0,
            50,
            50,
            PanMode::Center,
        );
        assert_eq!(note.play(0).flags, flag);
    }
}

#[test]
fn active_duration_sums_all_four_phases() {
    let note = pulse_note(Frequency::Hertz(100), Frequency::Hertz(100));
    // attack 2 + decay 3 + sustain 4 + release 1
    assert_eq!(note.active_duration(), 10);
}

#[test]
fn hertz_compare_by_value() {
    assert_eq!(
        Frequency::Hertz(100).partial_cmp(&Frequency::Hertz(200)),
        Some(Ordering::Less)
    );
    assert_eq!(
        Frequency::Hertz(200).partial_cmp(&Frequency::Hertz(200)),
        Some(Ordering::Equal)
    );
    assert_eq!(
        Frequency::Hertz(201).partial_cmp(&Frequency::Hertz(200)),
        Some(Ordering::Greater)
    );
}

#[test]
fn midi_notes_compare_by_packed_value() {
    // (1 << 8) | 60 = 316 against (0 << 8) | 100 = 100.
    assert_eq!(
        Frequency::MIDINote(60, 1).partial_cmp(&Frequency::MIDINote(100, 0)),
        Some(Ordering::Greater)
    );
    assert_eq!(
        Frequency::MIDINote(60, 0).partial_cmp(&Frequency::MIDINote(61, 0)),
        Some(Ordering::Less)
    );
    assert_eq!(
        Frequency::MIDINote(60, 1).partial_cmp(&Frequency::MIDINote(60, 1)),
        Some(Ordering::Equal)
    );
}

#[test]
fn cross_kind_compare_is_undefined() {
    assert_eq!(
        Frequency::Hertz(100).partial_cmp(&Frequency::MIDINote(100, 0)),
        None
    );
    assert_eq!(Frequency::Zero.partial_cmp(&Frequency::Zero), None);
    assert_eq!(Frequency::Zero.partial_cmp(&Frequency::Hertz(0)), None);
}
