//! The sound player: the per-tick scheduler over all active playbacks.

use vstd::prelude::*;

verus! {

use crate::notes::{ChannelMode, MusicNote, ToneCommand, note_active_duration, note_command};
use crate::tracks::{Track, TrackItem, TrackProgress};

/// The three physical channel categories contention is resolved within.
#[derive(Clone, Copy, PartialEq, Eq, Structural, Debug)]
pub enum ChannelKind {
    Pulse,
    Triangle,
    Noise,
}

/// The category an event's channel mode belongs to.
pub open spec fn kind_of(m: ChannelMode) -> ChannelKind {
    match m {
        ChannelMode::Pulse(_) => ChannelKind::Pulse,
        ChannelMode::Triangle => ChannelKind::Triangle,
        ChannelMode::Noise => ChannelKind::Noise,
    }
}

/// The mathematical state of one playback: its identifier, the items and
/// priority of the track it reads, the cursor index and the ticks left
/// before the next item begins.
#[verifier::ext_equal]
pub struct EntryModel {
    pub id: u32,
    pub items: Seq<TrackItem>,
    pub priority: u32,
    pub index: Option<int>,
    pub remaining: int,
}

/// The mathematical state of the whole player: the active playbacks in their
/// processing order, the next identifier to hand out, and the identifier last
/// written to each physical channel.
#[verifier::ext_equal]
pub struct PlayerModel {
    pub entries: Seq<EntryModel>,
    pub id_seed: u32,
    pub channel_pulse_1_id: u32,
    pub channel_pulse_2_id: u32,
    pub channel_triangle_id: u32,
    pub channel_noise_id: u32,
}

/// The model of one stored playback record.
pub open spec fn entry_model(e: (u32, TrackProgress)) -> EntryModel {
    EntryModel {
        id: e.0,
        items: e.1.track.items@,
        priority: e.1.track.priority,
        index: match e.1.current_item_index {
            None => None,
            Some(i) => Some(i as int),
        },
        remaining: e.1.current_item_time_remaining as int,
    }
}

/// The models of a stored playback sequence, in order.
pub open spec fn entries_view(v: Seq<(u32, TrackProgress)>) -> Seq<EntryModel> {
    v.map_values(|e: (u32, TrackProgress)| entry_model(e))
}

/// A playback state the player keeps between ticks: a cursor index, once
/// set, is in bounds (an entry whose cursor ran off the end is removed in
/// the same tick that moved it there), and the identifier was handed out.
pub open spec fn entry_inv(e: EntryModel) -> bool {
    &&& match e.index {
        None => true,
        Some(i) => 0 <= i < e.items.len(),
    }
    &&& e.remaining >= 0
    &&& 1 <= e.id
}

/// The player invariant: identifiers are at least 1, below the seed, and
/// pairwise distinct, and every playback satisfies its own invariant.
pub open spec fn player_inv(m: PlayerModel) -> bool {
    &&& 1 <= m.id_seed
    &&& forall|i: int| 0 <= i < m.entries.len() ==> entry_inv(#[trigger] m.entries[i])
    &&& forall|i: int| 0 <= i < m.entries.len() ==> (#[trigger] m.entries[i].id) < m.id_seed
    &&& forall|i: int, k: int|
        0 <= i < k < m.entries.len() ==> (#[trigger] m.entries[i].id) != (#[trigger] m.entries[k].id)
}

/// Whether some playback with this identifier is registered.
pub open spec fn contains_id(s: Seq<EntryModel>, play_id: u32) -> bool {
    exists|i: int| 0 <= i < s.len() && s[i].id == play_id
}

/// The playback sequence with every record of this identifier removed, order
/// kept.
pub open spec fn remove_id(s: Seq<EntryModel>, play_id: u32) -> Seq<EntryModel>
    decreases s.len(),
{
    if s.len() == 0 {
        Seq::empty()
    } else {
        remove_id(s.drop_last(), play_id) + if s.last().id == play_id {
            Seq::empty()
        } else {
            seq![s.last()]
        }
    }
}

/// The index of the item a tick would move this cursor to: 0 when no index
/// is set, else one past the current index.
pub open spec fn next_index(e: EntryModel) -> int {
    match e.index {
        None => 0,
        Some(i) => i + 1,
    }
}

/// Whether a tick removes this playback: its wait is over and the cursor
/// moves past the last item.
pub open spec fn entry_finished(e: EntryModel) -> bool {
    e.remaining == 0 && next_index(e) >= e.items.len()
}

/// The event this playback starts this tick, if any: its wait is over and
/// the cursor moves onto a note.
pub open spec fn entry_fired_note(e: EntryModel) -> Option<MusicNote> {
    if e.remaining == 0 && next_index(e) < e.items.len() {
        match e.items[next_index(e)] {
            TrackItem::Note(n) => Some(n),
            TrackItem::Rest(_) => None,
        }
    } else {
        None
    }
}

/// One tick of one playback: a positive wait is decremented and nothing else
/// happens; otherwise the cursor advances, and the wait becomes the new
/// item's duration (the full envelope sum for a note, the rest length for a
/// rest). A cursor that moves past the end leaves the record unchanged but
/// out of bounds; `step_entries` drops such a record.
pub open spec fn tick_entry(e: EntryModel) -> EntryModel {
    if e.remaining > 0 {
        EntryModel { remaining: e.remaining - 1, ..e }
    } else {
        let i = next_index(e);
        if i >= e.items.len() {
            EntryModel { index: Some(i), ..e }
        } else {
            match e.items[i] {
                TrackItem::Note(n) => EntryModel {
                    index: Some(i),
                    remaining: note_active_duration(n),
                    ..e
                },
                TrackItem::Rest(r) => EntryModel {
                    index: Some(i),
                    remaining: r.duration as int,
                    ..e
                },
            }
        }
    }
}

/// One tick of the whole registry: every playback ticked, finished ones
/// removed, order kept.
pub open spec fn step_entries(s: Seq<EntryModel>) -> Seq<EntryModel>
    decreases s.len(),
{
    if s.len() == 0 {
        Seq::empty()
    } else {
        step_entries(s.drop_last()) + if entry_finished(s.last()) {
            Seq::empty()
        } else {
            seq![tick_entry(s.last())]
        }
    }
}

/// The playbacks that start an event of this category this tick, in
/// processing order, each with the note it starts.
pub open spec fn fired(s: Seq<EntryModel>, k: ChannelKind) -> Seq<(u32, MusicNote)>
    decreases s.len(),
{
    if s.len() == 0 {
        Seq::empty()
    } else {
        fired(s.drop_last(), k) + match entry_fired_note(s.last()) {
            Some(n) => if kind_of(n.channel_mode) == k {
                seq![(s.last().id, n)]
            } else {
                Seq::empty()
            },
            None => Seq::empty(),
        }
    }
}

/// The tone commands for a category's fired events, in order. Every pulse
/// event is dispatched to pulse slot 0; the second pulse channel is never
/// targeted (a known gap kept as observed, not a design goal).
pub open spec fn commands_for(list: Seq<(u32, MusicNote)>) -> Seq<ToneCommand> {
    list.map_values(|pr: (u32, MusicNote)| note_command(pr.1, 0))
}

/// All tone commands one tick issues: the pulse events, then the noise
/// events, then the triangle events, each bucket in processing order. When
/// several playbacks fire on one category in one tick every one of them
/// issues a command; the hardware keeps the last write.
pub open spec fn tick_commands(s: Seq<EntryModel>) -> Seq<ToneCommand> {
    commands_for(fired(s, ChannelKind::Pulse)) + commands_for(fired(s, ChannelKind::Noise))
        + commands_for(fired(s, ChannelKind::Triangle))
}

/// The identifier recorded as a channel's owner after a tick: the last
/// playback of the category's bucket, or the old owner when none fired.
pub open spec fn owner_after(s: Seq<EntryModel>, k: ChannelKind, old_id: u32) -> u32 {
    if fired(s, k).len() == 0 {
        old_id
    } else {
        fired(s, k).last().0
    }
}

/// The scheduler. It owns every active playback, advances them once per
/// frame tick, resolves per-category channel contention by last write, and
/// returns the hardware tone commands the caller must issue.
#[derive(Debug)]
pub struct SoundPlayer {
    tracks: Vec<(u32, TrackProgress)>,
    id_seed: u32,
    channel_pulse_1_id: u32,
    channel_pulse_2_id: u32,
    channel_triangle_id: u32,
    channel_noise_id: u32,
}

impl View for SoundPlayer {
    type V = PlayerModel;

    closed spec fn view(&self) -> PlayerModel {
        PlayerModel {
            entries: entries_view(self.tracks@),
            id_seed: self.id_seed,
            channel_pulse_1_id: self.channel_pulse_1_id,
            channel_pulse_2_id: self.channel_pulse_2_id,
            channel_triangle_id: self.channel_triangle_id,
            channel_noise_id: self.channel_noise_id,
        }
    }
}

impl SoundPlayer {
    /// The player invariant, established by `new` and kept by every
    /// operation.
    pub open spec fn wf(&self) -> bool {
        player_inv(self@)
    }

    /// A fresh player: no playbacks, identifiers starting at 1, every
    /// channel owner 0 (an identifier never handed out).
    pub fn new() -> (r: Self)
        ensures
            r.wf(),
            r@.entries =~= Seq::<EntryModel>::empty(),
            r@.id_seed == 1,
            r@.channel_pulse_1_id == 0,
            r@.channel_pulse_2_id == 0,
            r@.channel_triangle_id == 0,
            r@.channel_noise_id == 0,
    {
        Self {
            tracks: Vec::new(),
            id_seed: 1,
            channel_noise_id: 0,
            channel_triangle_id: 0,
            channel_pulse_1_id: 0,
            channel_pulse_2_id: 0,
        }
    }

    /// Registers a playback of the track that begins on the next tick;
    /// equivalent to `play_after_delay` with no delay.
    pub fn play(&mut self, track: &Track) -> (play_id: u32)
        requires
            old(self).wf(),
            old(self)@.id_seed < u32::MAX,
        ensures
            final(self).wf(),
            play_id == old(self)@.id_seed,
            final(self)@.id_seed == old(self)@.id_seed + 1,
            final(self)@.entries =~= old(self)@.entries.push(
                EntryModel {
                    id: play_id,
                    items: track.items@,
                    priority: track.priority,
                    index: None,
                    remaining: 0,
                },
            ),
            final(self)@.channel_pulse_1_id == old(self)@.channel_pulse_1_id,
            final(self)@.channel_pulse_2_id == old(self)@.channel_pulse_2_id,
            final(self)@.channel_triangle_id == old(self)@.channel_triangle_id,
            final(self)@.channel_noise_id == old(self)@.channel_noise_id,
    {
        self.play_after_delay(track, 0)
    }

    /// Registers a playback of the track: hands out the next identifier
    /// (identifiers are never reused within a player's lifetime) and stores
    /// a cursor with no current item and the given wait in ticks. No
    /// hardware effect occurs before `update` processes the new record.
    ///
    /// The identifier counter is 32 bits wide and must not wrap, so a
    /// player accepts fewer than `u32::MAX` registrations over its life.
    pub fn play_after_delay(&mut self, track: &Track, delay: u32) -> (play_id: u32)
        requires
            old(self).wf(),
            old(self)@.id_seed < u32::MAX,
        ensures
            final(self).wf(),
            play_id == old(self)@.id_seed,
            final(self)@.id_seed == old(self)@.id_seed + 1,
            final(self)@.entries =~= old(self)@.entries.push(
                EntryModel {
                    id: play_id,
                    items: track.items@,
                    priority: track.priority,
                    index: None,
                    remaining: delay as int,
                },
            ),
            final(self)@.channel_pulse_1_id == old(self)@.channel_pulse_1_id,
            final(self)@.channel_pulse_2_id == old(self)@.channel_pulse_2_id,
            final(self)@.channel_triangle_id == old(self)@.channel_triangle_id,
            final(self)@.channel_noise_id == old(self)@.channel_noise_id,
    {
        let play_id: u32 = self.id_seed;
        self.id_seed = self.id_seed + 1;
        let mut items: Vec<TrackItem> = Vec::new();
        let mut i: usize = 0;
        while i < track.items.len()
            invariant
                i <= track.items@.len(),
                items@ =~= track.items@.take(i as int),
            decreases track.items@.len() - i,
        {
            items.push(track.items[i]);
            i = i + 1;
        }
        proof {
            assert(items@ =~= track.items@);
        }
        let ghost m0 = self@;
        self.tracks.push(
            (
                play_id,
                TrackProgress {
                    track: Track { items, priority: track.priority },
                    current_item_index: None,
                    current_item_time_remaining: delay,
                },
            ),
        );
        proof {
            let e = EntryModel {
                id: play_id,
                items: track.items@,
                priority: track.priority,
                index: None,
                remaining: delay as int,
            };
            assert(self@.entries =~= m0.entries.push(e));
            assert forall|i: int| 0 <= i < self@.entries.len() implies entry_inv(
                #[trigger] self@.entries[i],
            ) && self@.entries[i].id < self@.id_seed by {
                if i < m0.entries.len() {
                    assert(self@.entries[i] == m0.entries[i]);
                    assert(entry_inv(m0.entries[i]));
                } else {
                    assert(self@.entries[i] == e);
                }
            }
            assert forall|i: int, k: int| 0 <= i < k < self@.entries.len() implies (
            #[trigger] self@.entries[i].id) != (#[trigger] self@.entries[k].id) by {
                if k < m0.entries.len() {
                    assert(m0.entries[i].id != m0.entries[k].id);
                } else {
                    assert(self@.entries[k] == e);
                    assert(m0.entries[i].id < m0.id_seed);
                }
            }
        }
        play_id
    }

    /// One frame tick. Every playback's clock is advanced: a waiting one
    /// counts down, any other moves to its next item, collecting the started
    /// notes per channel category and dropping the playbacks that ran off
    /// their tracks (removal is deferred past the whole pass). Then the
    /// pulse, noise and triangle buckets, in that fixed order, each issue
    /// one tone command per started note and record the last starter as the
    /// category's channel owner — last write wins, priority is never
    /// consulted. The returned commands must be issued to the hardware in
    /// order.
    pub fn update(&mut self) -> (cmds: Vec<ToneCommand>)
        requires
            old(self).wf(),
        ensures
            final(self).wf(),
            final(self)@.entries =~= step_entries(old(self)@.entries),
            cmds@ =~= tick_commands(old(self)@.entries),
            final(self)@.id_seed == old(self)@.id_seed,
            final(self)@.channel_pulse_1_id == owner_after(
                old(self)@.entries,
                ChannelKind::Pulse,
                old(self)@.channel_pulse_1_id,
            ),
            final(self)@.channel_pulse_2_id == old(self)@.channel_pulse_2_id,
            final(self)@.channel_noise_id == owner_after(
                old(self)@.entries,
                ChannelKind::Noise,
                old(self)@.channel_noise_id,
            ),
            final(self)@.channel_triangle_id == owner_after(
                old(self)@.entries,
                ChannelKind::Triangle,
                old(self)@.channel_triangle_id,
            ),
    {
        let ghost m0 = self@;
        let ghost s0 = self@.entries;
        let mut kept: Vec<(u32, TrackProgress)> = Vec::new();
        let mut pulse_fired: Vec<(u32, MusicNote)> = Vec::new();
        let mut noise_fired: Vec<(u32, MusicNote)> = Vec::new();
        let mut triangle_fired: Vec<(u32, MusicNote)> = Vec::new();
        let ghost mut j: int = 0;
        proof {
            assert(entries_view(self.tracks@) =~= s0.skip(0));
        }
        while self.tracks.len() > 0
            invariant
                0 <= j <= s0.len(),
                s0 == m0.entries,
                player_inv(m0),
                entries_view(self.tracks@) =~= s0.skip(j),
                entries_view(kept@) =~= step_entries(s0.take(j)),
                pulse_fired@ =~= fired(s0.take(j), ChannelKind::Pulse),
                noise_fired@ =~= fired(s0.take(j), ChannelKind::Noise),
                triangle_fired@ =~= fired(s0.take(j), ChannelKind::Triangle),
                self@.id_seed == m0.id_seed,
                self@.channel_pulse_1_id == m0.channel_pulse_1_id,
                self@.channel_pulse_2_id == m0.channel_pulse_2_id,
                self@.channel_triangle_id == m0.channel_triangle_id,
                self@.channel_noise_id == m0.channel_noise_id,
            decreases self.tracks@.len(),
        {
            proof {
                assert(entries_view(self.tracks@).len() == self.tracks@.len());
                assert(s0.skip(j).len() == s0.len() - j);
                assert(j < s0.len());
                assert(entries_view(self.tracks@)[0] == entry_model(self.tracks@[0]));
                assert(s0.skip(j)[0] == s0[j]);
            }
            let ghost v_before = self.tracks@;
            let pair = self.tracks.remove(0);
            let id: u32 = pair.0;
            let mut p = pair.1;
            let ghost e = s0[j];
            proof {
                assert(pair == v_before[0]);
                assert(entry_model(pair) == e);
                assert(entry_inv(e));
                assert(entries_view(self.tracks@) =~= s0.skip(j + 1)) by {
                    assert(self.tracks@ =~= v_before.subrange(1, v_before.len() as int));
                    assert forall|w: int| 0 <= w < self.tracks@.len() implies #[trigger] entries_view(
                        self.tracks@,
                    )[w] == s0.skip(j + 1)[w] by {
                        assert(entries_view(self.tracks@)[w] == entry_model(self.tracks@[w]));
                        assert(self.tracks@[w] == v_before[w + 1]);
                        assert(entries_view(v_before)[w + 1] == entry_model(v_before[w + 1]));
                        assert(s0.skip(j)[w + 1] == s0[j + 1 + w]);
                    }
                }
                j = j + 1;
                assert(s0.take(j).len() == j);
                assert(s0.take(j).drop_last() =~= s0.take(j - 1));
                assert(s0.take(j).last() == e);
            }
            if p.current_item_time_remaining > 0 {
                p.current_item_time_remaining = p.current_item_time_remaining - 1;
                let ghost kept_before = kept@;
                kept.push((id, p));
                proof {
                    assert(!entry_finished(e));
                    assert(entry_fired_note(e) == None::<MusicNote>);
                    assert(entry_model((id, p)) =~= tick_entry(e));
                    assert(entries_view(kept@) =~= entries_view(kept_before).push(
                        entry_model((id, p)),
                    ));
                    assert(entries_view(kept@) =~= step_entries(s0.take(j)));
                    assert(pulse_fired@ =~= fired(s0.take(j), ChannelKind::Pulse));
                    assert(noise_fired@ =~= fired(s0.take(j), ChannelKind::Noise));
                    assert(triangle_fired@ =~= fired(s0.take(j), ChannelKind::Triangle));
                }
            } else {
                let track_len: usize = p.track.items.len();
                let next: usize = match p.current_item_index {
                    None => 0,
                    Some(ix) => {
                        proof {
                            assert(e.index == Some(ix as int));
                            assert(ix < track_len);
                        }
                        ix + 1
                    },
                };
                p.current_item_index = Some(next);
                proof {
                    assert(next as int == next_index(e));
                }
                if next >= track_len {
                    // This playback ran off its track: it is dropped from the
                    // rebuilt registry, which defers the removal past the pass.
                    proof {
                        assert(entry_finished(e));
                        assert(entry_fired_note(e) == None::<MusicNote>);
                        assert(entries_view(kept@) =~= step_entries(s0.take(j)));
                        assert(pulse_fired@ =~= fired(s0.take(j), ChannelKind::Pulse));
                        assert(noise_fired@ =~= fired(s0.take(j), ChannelKind::Noise));
                        assert(triangle_fired@ =~= fired(s0.take(j), ChannelKind::Triangle));
                    }
                } else {
                    let item = p.track.items[next];
                    proof {
                        assert(item == e.items[next_index(e)]);
                        assert(!entry_finished(e));
                    }
                    match item {
                        TrackItem::Note(note) => {
                            p.current_item_time_remaining = note.duration_attack as u32
                                + note.duration_decay as u32 + note.duration_release as u32
                                + note.duration_sustain as u32;
                            proof {
                                assert(entry_fired_note(e) == Some(note));
                            }
                            let ghost pulse_before = pulse_fired@;
                            let ghost noise_before = noise_fired@;
                            let ghost triangle_before = triangle_fired@;
                            match note.channel_mode {
                                ChannelMode::Pulse(_) => pulse_fired.push((id, note)),
                                ChannelMode::Triangle => triangle_fired.push((id, note)),
                                ChannelMode::Noise => noise_fired.push((id, note)),
                            }
                            let ghost kept_before = kept@;
                            kept.push((id, p));
                            proof {
                                assert(entry_model((id, p)) =~= tick_entry(e));
                                assert(entries_view(kept@) =~= entries_view(kept_before).push(
                                    entry_model((id, p)),
                                ));
                                assert(entries_view(kept@) =~= step_entries(s0.take(j)));
                                match kind_of(note.channel_mode) {
                                    ChannelKind::Pulse => {
                                        assert(pulse_fired@ =~= pulse_before.push((id, note)));
                                    },
                                    ChannelKind::Triangle => {
                                        assert(triangle_fired@ =~= triangle_before.push(
                                            (id, note),
                                        ));
                                    },
                                    ChannelKind::Noise => {
                                        assert(noise_fired@ =~= noise_before.push((id, note)));
                                    },
                                }
                                assert(pulse_fired@ =~= fired(s0.take(j), ChannelKind::Pulse));
                                assert(noise_fired@ =~= fired(s0.take(j), ChannelKind::Noise));
                                assert(triangle_fired@ =~= fired(
                                    s0.take(j),
                                    ChannelKind::Triangle,
                                ));
                            }
                        },
                        TrackItem::Rest(rest) => {
                            p.current_item_time_remaining = rest.duration as u32;
                            let ghost kept_before = kept@;
                            kept.push((id, p));
                            proof {
                                assert(entry_fired_note(e) == None::<MusicNote>);
                                assert(entry_model((id, p)) =~= tick_entry(e));
                                assert(entries_view(kept@) =~= entries_view(kept_before).push(
                                    entry_model((id, p)),
                                ));
                                assert(entries_view(kept@) =~= step_entries(s0.take(j)));
                                assert(pulse_fired@ =~= fired(s0.take(j), ChannelKind::Pulse));
                                assert(noise_fired@ =~= fired(s0.take(j), ChannelKind::Noise));
                                assert(triangle_fired@ =~= fired(
                                    s0.take(j),
                                    ChannelKind::Triangle,
                                ));
                            }
                        },
                    }
                }
            }
        }
        proof {
            assert(entries_view(self.tracks@).len() == self.tracks@.len());
            assert(j == s0.len());
            assert(s0.take(j) =~= s0);
        }
        self.tracks = kept;
        proof {
            assert(self@.entries =~= step_entries(s0));
            lemma_step_entries_inv(s0, m0.id_seed);
        }
        let (pulse_owner, mut cmds) = issue_fired(&pulse_fired, self.channel_pulse_1_id);
        self.channel_pulse_1_id = pulse_owner;
        let (noise_owner, mut noise_cmds) = issue_fired(&noise_fired, self.channel_noise_id);
        self.channel_noise_id = noise_owner;
        cmds.append(&mut noise_cmds);
        let (triangle_owner, mut triangle_cmds) = issue_fired(
            &triangle_fired,
            self.channel_triangle_id,
        );
        self.channel_triangle_id = triangle_owner;
        cmds.append(&mut triangle_cmds);
        proof {
            assert(cmds@ =~= tick_commands(s0));
        }
        cmds
    }

    /// Removes the playback with this identifier, returning whether one was
    /// registered. Stopping an identifier that already finished (or was
    /// never handed out) is an expected occurrence and reports `false`.
    pub fn stop(&mut self, play_id: u32) -> (found: bool)
        requires
            old(self).wf(),
        ensures
            final(self).wf(),
            found == contains_id(old(self)@.entries, play_id),
            final(self)@.entries =~= remove_id(old(self)@.entries, play_id),
            final(self)@.id_seed == old(self)@.id_seed,
            final(self)@.channel_pulse_1_id == old(self)@.channel_pulse_1_id,
            final(self)@.channel_pulse_2_id == old(self)@.channel_pulse_2_id,
            final(self)@.channel_triangle_id == old(self)@.channel_triangle_id,
            final(self)@.channel_noise_id == old(self)@.channel_noise_id,
    {
        let ghost m0 = self@;
        let ghost s0 = self@.entries;
        let mut kept: Vec<(u32, TrackProgress)> = Vec::new();
        let mut found = false;
        let ghost mut j: int = 0;
        proof {
            assert(entries_view(self.tracks@) =~= s0.skip(0));
        }
        while self.tracks.len() > 0
            invariant
                0 <= j <= s0.len(),
                entries_view(self.tracks@) =~= s0.skip(j),
                entries_view(kept@) =~= remove_id(s0.take(j), play_id),
                found == contains_id(s0.take(j), play_id),
                self@.id_seed == m0.id_seed,
                self@.channel_pulse_1_id == m0.channel_pulse_1_id,
                self@.channel_pulse_2_id == m0.channel_pulse_2_id,
                self@.channel_triangle_id == m0.channel_triangle_id,
                self@.channel_noise_id == m0.channel_noise_id,
            decreases self.tracks@.len(),
        {
            proof {
                assert(entries_view(self.tracks@).len() == self.tracks@.len());
                assert(s0.skip(j).len() == s0.len() - j);
                assert(j < s0.len());
                assert(entries_view(self.tracks@)[0] == entry_model(self.tracks@[0]));
                assert(s0.skip(j)[0] == s0[j]);
            }
            let ghost v_before = self.tracks@;
            let pair = self.tracks.remove(0);
            proof {
                assert(pair == v_before[0]);
                assert(entry_model(pair) == s0[j]);
                assert(entries_view(self.tracks@) =~= s0.skip(j + 1)) by {
                    assert(self.tracks@ =~= v_before.subrange(1, v_before.len() as int));
                    assert forall|w: int| 0 <= w < self.tracks@.len() implies #[trigger] entries_view(
                        self.tracks@,
                    )[w] == s0.skip(j + 1)[w] by {
                        assert(entries_view(self.tracks@)[w] == entry_model(self.tracks@[w]));
                        assert(self.tracks@[w] == v_before[w + 1]);
                        assert(entries_view(v_before)[w + 1] == entry_model(v_before[w + 1]));
                        assert(s0.skip(j)[w + 1] == s0[j + 1 + w]);
                    }
                }
                j = j + 1;
                assert(s0.take(j).len() == j);
                assert(s0.take(j).drop_last() =~= s0.take(j - 1));
                assert(s0.take(j).last() == s0[j - 1]);
                assert(remove_id(s0.take(j), play_id) == remove_id(s0.take(j - 1), play_id)
                    + if s0[j - 1].id == play_id {
                    Seq::<EntryModel>::empty()
                } else {
                    seq![s0[j - 1]]
                });
            }
            if pair.0 == play_id {
                found = true;
                proof {
                    assert(s0.take(j)[j - 1].id == play_id);
                    assert(contains_id(s0.take(j), play_id));
                    assert(entries_view(kept@) =~= remove_id(s0.take(j), play_id));
                }
            } else {
                let ghost kept_before = kept@;
                kept.push(pair);
                proof {
                    assert(entries_view(kept@) =~= entries_view(kept_before).push(
                        entry_model(pair),
                    ));
                    assert(entries_view(kept@) =~= remove_id(s0.take(j), play_id));
                    if contains_id(s0.take(j - 1), play_id) {
                        let w = choose|w: int|
                            0 <= w < s0.take(j - 1).len() && (#[trigger] s0.take(j - 1)[w].id)
                                == play_id;
                        assert(s0.take(j)[w].id == play_id);
                        assert(contains_id(s0.take(j), play_id));
                    }
                    if contains_id(s0.take(j), play_id) {
                        let w = choose|w: int|
                            0 <= w < s0.take(j).len() && (#[trigger] s0.take(j)[w].id) == play_id;
                        assert(w != j - 1);
                        assert(s0.take(j - 1)[w].id == play_id);
                        assert(contains_id(s0.take(j - 1), play_id));
                    }
                }
            }
        }
        proof {
            assert(j == s0.len());
            assert(s0.take(j) =~= s0);
            lemma_remove_id_inv(s0, play_id, m0.id_seed);
        }
        self.tracks = kept;
        proof {
            assert(self@.entries =~= remove_id(s0, play_id));
            assert forall|i: int| 0 <= i < self@.entries.len() implies entry_inv(
                #[trigger] self@.entries[i],
            ) by {
                assert(entry_inv(remove_id(s0, play_id)[i]));
            }
        }
        found
    }

    /// The identifier the next registration will receive. The counter is
    /// 32 bits wide and never reused, so a caller can see from this value
    /// whether another registration is possible.
    pub fn next_play_id(&self) -> (id: u32)
        ensures
            id == self@.id_seed,
    {
        self.id_seed
    }

    /// How many playbacks are registered.
    pub fn active_count(&self) -> (n: usize)
        ensures
            n == self@.entries.len(),
    {
        self.tracks.len()
    }

    /// Whether the playback with this identifier is still registered.
    pub fn is_active(&self, play_id: u32) -> (r: bool)
        ensures
            r == contains_id(self@.entries, play_id),
    {
        let ghost s = self@.entries;
        let mut i: usize = 0;
        while i < self.tracks.len()
            invariant
                0 <= i <= s.len(),
                s == entries_view(self.tracks@),
                forall|k: int| 0 <= k < i ==> s[k].id != play_id,
            decreases s.len() - i,
        {
            let found_here: bool = self.tracks[i].0 == play_id;
            if found_here {
                proof {
                    assert(s[i as int].id == play_id);
                }
                return true;
            }
            i = i + 1;
        }
        false
    }

    /// The identifier last written to the given category's channel; pulse
    /// events only ever target the first pulse channel.
    pub fn channel_owner(&self, kind: ChannelKind) -> (id: u32)
        ensures
            id == match kind {
                ChannelKind::Pulse => self@.channel_pulse_1_id,
                ChannelKind::Triangle => self@.channel_triangle_id,
                ChannelKind::Noise => self@.channel_noise_id,
            },
    {
        match kind {
            ChannelKind::Pulse => self.channel_pulse_1_id,
            ChannelKind::Triangle => self.channel_triangle_id,
            ChannelKind::Noise => self.channel_noise_id,
        }
    }
}

/// Issues one category's bucket: encodes each started note for pulse slot 0
/// in bucket order and returns the resulting commands together with the new
/// channel owner — the last starter, or the old owner when the bucket is
/// empty.
fn issue_fired(list: &Vec<(u32, MusicNote)>, owner: u32) -> (r: (u32, Vec<ToneCommand>))
    ensures
        r.1@ =~= commands_for(list@),
        r.0 == if list@.len() == 0 {
            owner
        } else {
            list@.last().0
        },
{
    let mut cmds: Vec<ToneCommand> = Vec::new();
    let mut cur: u32 = owner;
    let mut k: usize = 0;
    while k < list.len()
        invariant
            0 <= k <= list@.len(),
            cmds@.len() == k,
            forall|m: int| 0 <= m < k ==> cmds@[m] == note_command(list@[m].1, 0),
            cur == if k == 0 {
                owner
            } else {
                list@[k - 1].0
            },
        decreases list@.len() - k,
    {
        let pr = list[k];
        cur = pr.0;
        cmds.push(pr.1.play(0));
        k = k + 1;
    }
    proof {
        assert(cmds@ =~= commands_for(list@));
    }
    (cur, cmds)
}

/// A tick keeps every surviving playback's identifier and keeps each cursor
/// in bounds, so the player invariant survives `update`.
proof fn lemma_step_entries_inv(s: Seq<EntryModel>, seed: u32)
    requires
        forall|i: int| 0 <= i < s.len() ==> entry_inv(#[trigger] s[i]),
        forall|i: int| 0 <= i < s.len() ==> (#[trigger] s[i].id) < seed,
        forall|i: int, k: int| 0 <= i < k < s.len() ==> (#[trigger] s[i].id) != (#[trigger] s[k].id),
    ensures
        forall|i: int|
            0 <= i < step_entries(s).len() ==> entry_inv(#[trigger] step_entries(s)[i]),
        forall|i: int|
            0 <= i < step_entries(s).len() ==> (#[trigger] step_entries(s)[i].id) < seed,
        forall|i: int, k: int|
            0 <= i < k < step_entries(s).len() ==> (#[trigger] step_entries(s)[i].id)
                != (#[trigger] step_entries(s)[k].id),
        forall|i: int|
            0 <= i < step_entries(s).len() ==> exists|w: int|
                0 <= w < s.len() && (#[trigger] step_entries(s)[i].id) == s[w].id,
    decreases s.len(),
{
    if s.len() > 0 {
        lemma_step_entries_inv(s.drop_last(), seed);
        let r0 = step_entries(s.drop_last());
        let r = step_entries(s);
        let e = s.last();
        assert(e == s[s.len() - 1]);
        if !entry_finished(e) {
            assert(entry_inv(tick_entry(e)));
            assert(r[r.len() - 1] == tick_entry(e));
        }
        assert forall|i: int| 0 <= i < r.len() implies exists|w: int|
            0 <= w < s.len() && (#[trigger] r[i].id) == s[w].id by {
            if i < r0.len() {
                let w = choose|w: int|
                    0 <= w < s.drop_last().len() && r0[i].id == (#[trigger] s.drop_last()[w].id);
                assert(r[i].id == s[w].id);
            } else {
                assert(r[i].id == s[s.len() - 1].id);
            }
        }
        assert forall|i: int, k: int| 0 <= i < k < r.len() implies r[i].id != r[k].id by {
            if k < r0.len() {
                assert(r0[i].id != r0[k].id);
            } else {
                let w = choose|w: int|
                    0 <= w < s.drop_last().len() && r0[i].id == (#[trigger] s.drop_last()[w].id);
                assert(r[k].id == s[s.len() - 1].id);
                assert(s[w].id != s[s.len() - 1].id);
            }
        }
    }
}

/// Removing an identifier keeps every surviving record as it was, so the
/// player invariant survives `stop`.
proof fn lemma_remove_id_inv(s: Seq<EntryModel>, play_id: u32, seed: u32)
    requires
        forall|i: int| 0 <= i < s.len() ==> entry_inv(#[trigger] s[i]),
        forall|i: int| 0 <= i < s.len() ==> (#[trigger] s[i].id) < seed,
        forall|i: int, k: int| 0 <= i < k < s.len() ==> (#[trigger] s[i].id) != (#[trigger] s[k].id),
    ensures
        forall|i: int|
            0 <= i < remove_id(s, play_id).len() ==> entry_inv(#[trigger] remove_id(s, play_id)[i]),
        forall|i: int|
            0 <= i < remove_id(s, play_id).len() ==> (#[trigger] remove_id(s, play_id)[i].id) < seed,
        forall|i: int, k: int|
            0 <= i < k < remove_id(s, play_id).len() ==> (#[trigger] remove_id(s, play_id)[i].id)
                != (#[trigger] remove_id(s, play_id)[k].id),
        forall|i: int|
            0 <= i < remove_id(s, play_id).len() ==> exists|w: int|
                0 <= w < s.len() && #[trigger] remove_id(s, play_id)[i] == s[w],
    decreases s.len(),
{
    if s.len() > 0 {
        lemma_remove_id_inv(s.drop_last(), play_id, seed);
        let r0 = remove_id(s.drop_last(), play_id);
        let r = remove_id(s, play_id);
        assert forall|i: int| 0 <= i < r.len() implies exists|w: int|
            0 <= w < s.len() && #[trigger] r[i] == s[w] by {
            if i < r0.len() {
                let w = choose|w: int|
                    0 <= w < s.drop_last().len() && r0[i] == (#[trigger] s.drop_last()[w]);
                assert(r[i] == s[w]);
            } else {
                assert(r[i] == s.last());
                assert(r[i] == s[s.len() - 1]);
            }
        }
        assert forall|i: int, k: int| 0 <= i < k < r.len() implies r[i].id != r[k].id by {
            if k < r0.len() {
                assert(r0[i].id != r0[k].id);
            } else {
                let w = choose|w: int|
                    0 <= w < s.drop_last().len() && r0[i] == (#[trigger] s.drop_last()[w]);
                assert(r[k] == s.last());
                assert(s[w].id != s[s.len() - 1].id);
            }
        }
    }
}

} // verus!
