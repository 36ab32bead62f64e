//! Music events and the bit-exact encoding of their hardware parameters.

use vstd::prelude::*;

verus! {

use core::cmp::Ordering;

/// Channel-type flag: first pulse channel.
pub const TONE_PULSE1: u32 = 0;
/// Channel-type flag: second pulse channel.
pub const TONE_PULSE2: u32 = 1;
/// Channel-type flag: triangle channel.
pub const TONE_TRIANGLE: u32 = 2;
/// Channel-type flag: noise channel.
pub const TONE_NOISE: u32 = 3;
/// Duty-cycle flag: one eighth.
pub const TONE_MODE1: u32 = 0;
/// Duty-cycle flag: one fourth.
pub const TONE_MODE2: u32 = 4;
/// Duty-cycle flag: one half.
pub const TONE_MODE3: u32 = 8;
/// Duty-cycle flag: three fourths.
pub const TONE_MODE4: u32 = 12;
/// Pan flag: left speaker only.
pub const TONE_PAN_LEFT: u32 = 16;
/// Pan flag: right speaker only.
pub const TONE_PAN_RIGHT: u32 = 32;
/// Flag marking the frequency word as a note number rather than hertz.
pub const TONE_NOTE_MODE: u32 = 64;

/// The four duty-cycle ratios a pulse channel offers.
#[derive(Clone, Copy, PartialEq, Eq, Structural, Debug)]
pub enum DutyCycleMode {
    OneEighth,
    OneFourth,
    OneHalf,
    ThreeFourths,
}

/// Which physical channel category an event targets.
#[derive(Clone, Copy, PartialEq, Eq, Structural, Debug)]
pub enum ChannelMode {
    Pulse(DutyCycleMode),
    Triangle,
    Noise,
}

/// A pitch: silence, a raw frequency in hertz, or a MIDI note number with a
/// pitch-bend byte.
#[derive(Clone, Copy, PartialEq, Eq, Structural, Debug)]
pub enum Frequency {
    Zero,
    Hertz(u16),
    MIDINote(u8, u8),
}

/// Stereo placement of an event.
#[derive(Clone, Copy, PartialEq, Eq, Structural, Debug)]
pub enum PanMode {
    Center,
    Left,
    Right,
}

/// The 16-bit hardware encoding of a pitch: hertz as the raw value, a MIDI
/// note as the bend byte over the note byte, silence as zero.
pub open spec fn frequency_bits(f: Frequency) -> u32 {
    match f {
        Frequency::Zero => 0,
        Frequency::Hertz(hz) => hz as u32,
        Frequency::MIDINote(note, bend) => ((bend as u32) << 8) | (note as u32),
    }
}

impl From<Frequency> for u32 {
    fn from(value: Frequency) -> (r: u32) {
        match value {
            Frequency::Zero => 0,
            Frequency::Hertz(hz) => hz as u32,
            Frequency::MIDINote(note, bend) => ((bend as u32) << 8) | (note as u32),
        }
    }
}

impl vstd::std_specs::convert::FromSpecImpl<Frequency> for u32 {
    open spec fn obeys_from_spec() -> bool {
        true
    }

    open spec fn from_spec(v: Frequency) -> u32 {
        frequency_bits(v)
    }
}

/// The order of two pitches: defined only within one variant kind, by the
/// packed hardware value; comparison across kinds (or with silence) is
/// undefined.
pub open spec fn frequency_order(a: Frequency, b: Frequency) -> Option<Ordering> {
    match (a, b) {
        (Frequency::Hertz(_), Frequency::Hertz(_)) => Some(
            value_order(frequency_bits(a) as int, frequency_bits(b) as int),
        ),
        (Frequency::MIDINote(_, _), Frequency::MIDINote(_, _)) => Some(
            value_order(frequency_bits(a) as int, frequency_bits(b) as int),
        ),
        _ => None,
    }
}

/// The order of two integers, as an `Ordering`.
pub open spec fn value_order(x: int, y: int) -> Ordering {
    if x < y {
        Ordering::Less
    } else if x == y {
        Ordering::Equal
    } else {
        Ordering::Greater
    }
}

impl PartialOrd for Frequency {
    fn partial_cmp(&self, other: &Self) -> (r: Option<Ordering>) {
        match (self, other) {
            (Frequency::Hertz(_), Frequency::Hertz(_))
            | (Frequency::MIDINote(_, _), Frequency::MIDINote(_, _)) => {
                let x: u32 = u32::from(*self);
                let y: u32 = u32::from(*other);
                if x < y {
                    Some(Ordering::Less)
                } else if x == y {
                    Some(Ordering::Equal)
                } else {
                    Some(Ordering::Greater)
                }
            },
            _ => None,
        }
    }
}

impl vstd::std_specs::cmp::PartialOrdSpecImpl for Frequency {
    open spec fn obeys_partial_cmp_spec() -> bool {
        true
    }

    open spec fn partial_cmp_spec(&self, other: &Self) -> Option<Ordering> {
        frequency_order(*self, *other)
    }
}

/// One immutable sound event: a channel, a start and end pitch (the two
/// differ for a portamento), the four envelope phase durations in ticks, the
/// two envelope volume levels, and a stereo placement.
#[derive(Clone, Copy, PartialEq, Eq, Structural, Debug)]
pub struct MusicNote {
    pub channel_mode: ChannelMode,
    pub frequency_start: Frequency,
    pub frequency_end: Frequency,
    pub duration_sustain: u8,
    pub duration_release: u8,
    pub duration_decay: u8,
    pub duration_attack: u8,
    pub volume_sustain: u8,
    pub volume_attack: u8,
    pub pan_mode: PanMode,
}

/// One hardware tone command: the four packed parameter words exactly as the
/// synthesizer register interface takes them.
#[derive(Clone, Copy, PartialEq, Eq, Structural, Debug)]
pub struct ToneCommand {
    pub frequency: u32,
    pub duration: u32,
    pub volume: u32,
    pub flags: u32,
}

/// The packed frequency word: the end pitch in the upper 16 bits, the start
/// pitch in the lower 16 bits.
pub open spec fn note_frequency_word(n: MusicNote) -> u32 {
    (frequency_bits(n.frequency_end) << 16) | frequency_bits(n.frequency_start)
}

/// The packed duration word: attack, decay, release, sustain, one byte each
/// from the top down.
pub open spec fn note_duration_word(n: MusicNote) -> u32 {
    ((n.duration_attack as u32) << 24) | ((n.duration_decay as u32) << 16)
        | ((n.duration_release as u32) << 8) | (n.duration_sustain as u32)
}

/// The packed volume word: attack volume over sustain volume.
pub open spec fn note_volume_word(n: MusicNote) -> u32 {
    ((n.volume_attack as u32) << 8) | (n.volume_sustain as u32)
}

/// The flags word: channel type (with duty cycle and pulse slot for pulse
/// events), pan placement, and the note-mode bit exactly when the start
/// pitch is a MIDI note.
pub open spec fn note_flags_word(n: MusicNote, pulse_channel_id: u8) -> u32 {
    (match n.channel_mode {
        ChannelMode::Noise => TONE_NOISE,
        ChannelMode::Triangle => TONE_TRIANGLE,
        ChannelMode::Pulse(duty_cycle) => (match duty_cycle {
            DutyCycleMode::OneEighth => TONE_MODE1,
            DutyCycleMode::OneFourth => TONE_MODE2,
            DutyCycleMode::OneHalf => TONE_MODE3,
            DutyCycleMode::ThreeFourths => TONE_MODE4,
        }) | (if pulse_channel_id == 0 {
            TONE_PULSE1
        } else {
            TONE_PULSE2
        }),
    }) | (match n.pan_mode {
        PanMode::Center => 0,
        PanMode::Left => TONE_PAN_LEFT,
        PanMode::Right => TONE_PAN_RIGHT,
    }) | (match n.frequency_start {
        Frequency::MIDINote(_, _) => TONE_NOTE_MODE,
        _ => 0,
    })
}

/// The full tone command an event encodes to, given the pulse slot it was
/// assigned.
pub open spec fn note_command(n: MusicNote, pulse_channel_id: u8) -> ToneCommand {
    ToneCommand {
        frequency: note_frequency_word(n),
        duration: note_duration_word(n),
        volume: note_volume_word(n),
        flags: note_flags_word(n, pulse_channel_id),
    }
}

/// The number of ticks an event stays the current item: the sum of all four
/// envelope phase durations, each counted even when zero.
pub open spec fn note_active_duration(n: MusicNote) -> int {
    n.duration_attack as int + n.duration_decay as int + n.duration_release as int
        + n.duration_sustain as int
}

impl MusicNote {
    /// Builds an event from its parts, in the order the fields are declared.
    pub fn new(
        channel_mode: ChannelMode,
        frequency_start: Frequency,
        frequency_end: Frequency,
        duration_sustain: u8,
        duration_release: u8,
        duration_decay: u8,
        duration_attack: u8,
        volume_sustain: u8,
        volume_attack: u8,
        pan_mode: PanMode,
    ) -> (r: Self)
        ensures
            r == (MusicNote {
                channel_mode,
                frequency_start,
                frequency_end,
                duration_sustain,
                duration_release,
                duration_decay,
                duration_attack,
                volume_sustain,
                volume_attack,
                pan_mode,
            }),
    {
        Self {
            channel_mode,
            frequency_start,
            frequency_end,
            duration_sustain,
            duration_release,
            duration_decay,
            duration_attack,
            volume_sustain,
            volume_attack,
            pan_mode,
        }
    }

    /// Encodes this event into the tone command for the given pulse slot
    /// (ignored for triangle and noise events). The caller issues the
    /// command to the hardware.
    pub fn play(&self, pulse_channel_id: u8) -> (cmd: ToneCommand)
        ensures
            cmd == note_command(*self, pulse_channel_id),
    {
        let f: u32 = (u32::from(self.frequency_end) << 16) | u32::from(self.frequency_start);
        let d: u32 = ((self.duration_attack as u32) << 24) | ((self.duration_decay as u32) << 16)
            | ((self.duration_release as u32) << 8) | (self.duration_sustain as u32);
        let v: u32 = ((self.volume_attack as u32) << 8) | (self.volume_sustain as u32);
        let flags: u32 = (match self.channel_mode {
            ChannelMode::Noise => TONE_NOISE,
            ChannelMode::Triangle => TONE_TRIANGLE,
            ChannelMode::Pulse(duty_cycle) => {
                let pulse_flag: u32 = if pulse_channel_id == 0 {
                    TONE_PULSE1
                } else {
                    TONE_PULSE2
                };
                let mode_flag: u32 = match duty_cycle {
                    DutyCycleMode::OneEighth => TONE_MODE1,
                    DutyCycleMode::OneFourth => TONE_MODE2,
                    DutyCycleMode::OneHalf => TONE_MODE3,
                    DutyCycleMode::ThreeFourths => TONE_MODE4,
                };
                mode_flag | pulse_flag
            },
        }) | (match self.pan_mode {
            PanMode::Center => 0,
            PanMode::Left => TONE_PAN_LEFT,
            PanMode::Right => TONE_PAN_RIGHT,
        }) | (match self.frequency_start {
            Frequency::MIDINote(_, _) => TONE_NOTE_MODE,
            _ => 0,
        });
        ToneCommand { frequency: f, duration: d, volume: v, flags }
    }

    /// The number of ticks this event stays the current item.
    pub fn active_duration(&self) -> (d: u32)
        ensures
            d as int == note_active_duration(*self),
    {
        self.duration_attack as u32 + self.duration_decay as u32 + self.duration_release as u32
            + self.duration_sustain as u32
    }
}

} // verus!
