use sfx::notes::{ChannelMode, DutyCycleMode, Frequency, MusicNote, PanMode};
use sfx::player::{ChannelKind, SoundPlayer};
use sfx::tracks::{Rest, Track, TrackItem, TrackProgress};

fn note_with(mode: ChannelMode, hz: u16, attack: u8, decay: u8, sustain: u8, release: u8) -> MusicNote {
    MusicNote::new(
        mode,
        Frequency::Hertz(hz),
        Frequency::Hertz(hz),
        sustain,
        release,
        decay,
        attack,
        40,
        90,
        PanMode::Center,
    )
}

fn pulse_note(hz: u16) -> MusicNote {
    note_with(ChannelMode::Pulse(DutyCycleMode::OneHalf), hz, 2, 3, 4, 1)
}

fn track_of(items: Vec<TrackItem>) -> Track {
    Track { items, priority: 0 }
}

#[test]
fn new_player_is_empty() {
    let player = SoundPlayer::new();
    assert_eq!(player.active_count(), 0);
    assert_eq!(player.next_play_id(), 1);
    assert_eq!(player.channel_owner(ChannelKind::Pulse), 0);
    assert_eq!(player.channel_owner(ChannelKind::Triangle), 0);
    assert_eq!(player.channel_owner(ChannelKind::Noise), 0);
}

#[test]
fn play_hands_out_increasing_ids() {
    let mut player = SoundPlayer::new();
    let track = track_of(vec![TrackItem::Rest(Rest { duration: 3 })]);
    let first = player.play(&track);
    let second = player.play(&track);
    assert_eq!(first, 1);
    assert_eq!(second, 2);
    assert_eq!(player.active_count(), 2);
    assert!(player.is_active(first));
    assert!(player.is_active(second));
}

#[test]
fn playback_removed_after_exact_tick_count() {
    // One note with envelope sum 10 and one rest of 5: item 0 starts on
    // tick 1, and removal comes 2 + 15 ticks after enqueue.
    let mut player = SoundPlayer::new();
    let track = track_of(vec![
        TrackItem::Note(pulse_note(100)),
        TrackItem::Rest(Rest { duration: 5 }),
    ]);
    let id = player.play(&track);
    for _tick in 1..=17 {
        player.update();
        assert!(player.is_active(id));
    }
    player.update();
    assert!(!player.is_active(id));
    assert_eq!(player.active_count(), 0);
}

#[test]
fn delayed_playback_fires_on_tick_after_delay() {
    // A delay of 3 is consumed by decrements on ticks 1 to 3; the first
    // command fires on tick 4, not tick 3.
    let mut player = SoundPlayer::new();
    let track = track_of(vec![TrackItem::Note(pulse_note(440))]);
    let id = player.play_after_delay(&track, 3);
    for _tick in 1..=3 {
        let cmds = player.update();
        assert_eq!(cmds.len(), 0);
        assert!(player.is_active(id));
    }
    let cmds = player.update();
    assert_eq!(cmds.len(), 1);
    assert_eq!(cmds[0].frequency, (440 << 16) | 440);
    assert_eq!(player.channel_owner(ChannelKind::Pulse), id);
}

#[test]
fn undelayed_playback_fires_on_first_tick() {
    let mut player = SoundPlayer::new();
    let track = track_of(vec![TrackItem::Note(pulse_note(440))]);
    let id = player.play(&track);
    let cmds = player.update();
    assert_eq!(cmds.len(), 1);
    assert_eq!(player.channel_owner(ChannelKind::Pulse), id);
}

#[test]
fn contending_pulse_tracks_both_issue_and_last_owns() {
    let mut player = SoundPlayer::new();
    let first_track = track_of(vec![TrackItem::Note(pulse_note(100))]);
    let second_track = track_of(vec![TrackItem::Note(pulse_note(200))]);
    let first = player.play(&first_track);
    let second = player.play(&second_track);
    let cmds = player.update();
    // Both contenders issue a command; the one processed last owns the
    // channel.
    assert_eq!(cmds.len(), 2);
    assert_eq!(cmds[0].frequency, (100 << 16) | 100);
    assert_eq!(cmds[1].frequency, (200 << 16) | 200);
    assert_ne!(player.channel_owner(ChannelKind::Pulse), first);
    assert_eq!(player.channel_owner(ChannelKind::Pulse), second);
}

#[test]
fn cursor_at_item_count_has_no_current_item() {
    let track = track_of(vec![TrackItem::Note(pulse_note(100))]);
    let progress = TrackProgress {
        track,
        current_item_index: Some(1),
        current_item_time_remaining: 0,
    };
    assert!(progress.current_item().is_none());
}

#[test]
fn cursor_unset_or_in_bounds() {
    let track = track_of(vec![TrackItem::Rest(Rest { duration: 7 })]);
    let unset = TrackProgress {
        track: track_of(vec![TrackItem::Rest(Rest { duration: 7 })]),
        current_item_index: None,
        current_item_time_remaining: 0,
    };
    assert!(unset.current_item().is_none());
    let on_item = TrackProgress {
        track,
        current_item_index: Some(0),
        current_item_time_remaining: 0,
    };
    assert_eq!(
        on_item.current_item(),
        Some(TrackItem::Rest(Rest { duration: 7 }))
    );
}

#[test]
fn empty_track_is_removed_without_any_command() {
    let mut player = SoundPlayer::new();
    let track = track_of(vec![]);
    let id = player.play(&track);
    let cmds = player.update();
    assert_eq!(cmds.len(), 0);
    assert!(!player.is_active(id));
    assert_eq!(player.channel_owner(ChannelKind::Pulse), 0);
}

#[test]
fn stop_after_finish_reports_not_found() {
    let mut player = SoundPlayer::new();
    let track = track_of(vec![]);
    let id = player.play(&track);
    player.update();
    assert!(!player.is_active(id));
    assert!(!player.stop(id));
    // The player keeps working afterwards.
    let again = player.play(&track_of(vec![TrackItem::Note(pulse_note(100))]));
    assert!(player.is_active(again));
    assert_eq!(player.update().len(), 1);
}

#[test]
fn stop_unknown_id_reports_not_found() {
    let mut player = SoundPlayer::new();
    assert!(!player.stop(999));
}

#[test]
fn stop_active_playback_removes_it() {
    let mut player = SoundPlayer::new();
    let track = track_of(vec![TrackItem::Note(pulse_note(100))]);
    let id = player.play(&track);
    let other = player.play(&track);
    assert!(player.stop(id));
    assert!(!player.is_active(id));
    assert!(player.is_active(other));
    assert_eq!(player.active_count(), 1);
    assert!(!player.stop(id));
}

#[test]
fn categories_issue_in_pulse_noise_triangle_order() {
    let mut player = SoundPlayer::new();
    let triangle = note_with(ChannelMode::Triangle, 111, 0, 0, 1, 0);
    let noise = note_with(ChannelMode::Noise, 222, 0, 0, 1, 0);
    let pulse = pulse_note(333);
    let triangle_id = player.play(&track_of(vec![TrackItem::Note(triangle)]));
    let noise_id = player.play(&track_of(vec![TrackItem::Note(noise)]));
    let pulse_id = player.play(&track_of(vec![TrackItem::Note(pulse)]));
    let cmds = player.update();
    assert_eq!(cmds.len(), 3);
    assert_eq!(cmds[0].frequency, (333 << 16) | 333);
    assert_eq!(cmds[1].frequency, (222 << 16) | 222);
    assert_eq!(cmds[2].frequency, (111 << 16) | 111);
    assert_eq!(player.channel_owner(ChannelKind::Pulse), pulse_id);
    assert_eq!(player.channel_owner(ChannelKind::Noise), noise_id);
    assert_eq!(player.channel_owner(ChannelKind::Triangle), triangle_id);
}

#[test]
fn owners_keep_last_writer_while_nothing_fires() {
    let mut player = SoundPlayer::new();
    let id = player.play(&track_of(vec![TrackItem::Note(pulse_note(100))]));
    player.update();
    assert_eq!(player.channel_owner(ChannelKind::Pulse), id);
    // The envelope runs for 10 further ticks with no new event.
    for _tick in 0..10 {
        let cmds = player.update();
        assert_eq!(cmds.len(), 0);
        assert_eq!(player.channel_owner(ChannelKind::Pulse), id);
    }
}

#[test]
fn envelope_holds_cursor_for_its_full_sum() {
    // Two notes; the first has envelope sum 10, so the second fires on
    // tick 12: ticks 2 to 11 count the envelope down, tick 12 advances.
    let mut player = SoundPlayer::new();
    let track = track_of(vec![
        TrackItem::Note(pulse_note(100)),
        TrackItem::Note(pulse_note(200)),
    ]);
    player.play(&track);
    let cmds = player.update();
    assert_eq!(cmds.len(), 1);
    for _tick in 2..=11 {
        assert_eq!(player.update().len(), 0);
    }
    let cmds = player.update();
    assert_eq!(cmds.len(), 1);
    assert_eq!(cmds[0].frequency, (200 << 16) | 200);
}

#[test]
fn zero_duration_note_fires_then_expires() {
    let mut player = SoundPlayer::new();
    let zero = note_with(ChannelMode::Pulse(DutyCycleMode::OneHalf), 150, 0, 0, 0, 0);
    let id = player.play(&track_of(vec![TrackItem::Note(zero)]));
    let cmds = player.update();
    assert_eq!(cmds.len(), 1);
    assert!(player.is_active(id));
    let cmds = player.update();
    assert_eq!(cmds.len(), 0);
    assert!(!player.is_active(id));
}

#[test]
fn rest_only_track_never_issues_commands() {
    let mut player = SoundPlayer::new();
    let track = track_of(vec![
        TrackItem::Rest(Rest { duration: 2 }),
        TrackItem::Rest(Rest { duration: 0 }),
    ]);
    let id = player.play(&track);
    // Lifetime: 1 + 2 + (2 + 0) = 5 ticks.
    for _tick in 1..=4 {
        assert_eq!(player.update().len(), 0);
        assert!(player.is_active(id));
    }
    assert_eq!(player.update().len(), 0);
    assert!(!player.is_active(id));
}

#[test]
fn second_pulse_slot_is_never_targeted_by_the_player() {
    // Every pulse command the player issues goes to pulse slot 0: the
    // second-pulse flag bit stays clear.
    let mut player = SoundPlayer::new();
    player.play(&track_of(vec![TrackItem::Note(pulse_note(100))]));
    player.play(&track_of(vec![TrackItem::Note(pulse_note(200))]));
    let cmds = player.update();
    assert_eq!(cmds.len(), 2);
    for cmd in cmds {
        assert_eq!(cmd.flags & 1, 0);
    }
}
