//! Laws of the scheduler that relate several operations: how long a playback
//! lives, when a delayed playback first fires, and what happens to a cursor
//! that runs off its track.

use vstd::prelude::*;

verus! {

use crate::notes::{MusicNote, ToneCommand, note_active_duration};
use crate::tracks::{TrackItem, TrackProgress, current_item_of};
use crate::player::{
    ChannelKind, EntryModel, commands_for, entry_finished, entry_fired_note, fired, next_index,
    step_entries, tick_commands, tick_entry,
};

/// The number of ticks one item occupies once started: the full envelope sum
/// for a note, the rest length for a rest.
pub open spec fn item_duration(it: TrackItem) -> int {
    match it {
        TrackItem::Note(n) => note_active_duration(n),
        TrackItem::Rest(r) => r.duration as int,
    }
}

/// The summed durations of the items from position `i` on.
pub open spec fn total_duration_from(items: Seq<TrackItem>, i: int) -> int
    decreases items.len() - i,
{
    if i < 0 || i >= items.len() {
        0
    } else {
        item_duration(items[i]) + total_duration_from(items, i + 1)
    }
}

/// The summed durations of all items of a track.
pub open spec fn total_duration(items: Seq<TrackItem>) -> int {
    total_duration_from(items, 0)
}

/// The state of one playback after `k` further ticks (while it stays
/// registered).
pub open spec fn iterate_entry(e: EntryModel, k: nat) -> EntryModel
    decreases k,
{
    if k == 0 {
        e
    } else {
        iterate_entry(tick_entry(e), (k - 1) as nat)
    }
}

/// Whether a playback is still registered after `k` further ticks: none of
/// the first `k` ticks removes it.
pub open spec fn survives(e: EntryModel, k: nat) -> bool
    decreases k,
{
    if k == 0 {
        true
    } else {
        !entry_finished(e) && survives(tick_entry(e), (k - 1) as nat)
    }
}

/// Item durations are non-negative, so every duration sum is.
proof fn lemma_total_duration_nonneg(items: Seq<TrackItem>, i: int)
    ensures
        total_duration_from(items, i) >= 0,
    decreases items.len() - i,
{
    if 0 <= i < items.len() {
        lemma_total_duration_nonneg(items, i + 1);
    }
}

/// The tick, counted from a playback's registration with no delay, during
/// which it is removed: one tick starts each of the `n` items (including the
/// final tick that moves the cursor off the end) and each started item then
/// holds the cursor for its full duration.
pub open spec fn playback_lifetime(items: Seq<TrackItem>) -> int {
    1 + items.len() + total_duration(items)
}

/// A playback that survives `a` ticks, and then `b` more from where it
/// stands, survives `a + b`.
proof fn lemma_survives_add(e: EntryModel, a: nat, b: nat)
    requires
        survives(e, a),
        survives(iterate_entry(e, a), b),
    ensures
        survives(e, a + b),
    decreases a,
{
    if a > 0 {
        lemma_survives_add(tick_entry(e), (a - 1) as nat, b);
    }
}

/// A playback that survives `a + b` ticks survives the first `a`, and then
/// `b` more from where it stands.
proof fn lemma_survives_split(e: EntryModel, a: nat, b: nat)
    requires
        survives(e, a + b),
    ensures
        survives(e, a),
        survives(iterate_entry(e, a), b),
    decreases a,
{
    if a > 0 {
        lemma_survives_split(tick_entry(e), (a - 1) as nat, b);
    }
}

/// While the wait is positive each tick only decrements it: after `k` ticks,
/// `k` at most the wait, only the wait has changed, and the playback
/// survived.
proof fn lemma_countdown(e: EntryModel, k: nat)
    requires
        k <= e.remaining,
    ensures
        iterate_entry(e, k) == (EntryModel { remaining: e.remaining - k, ..e }),
        survives(e, k),
    decreases k,
{
    if k == 0 {
        assert(iterate_entry(e, 0) == e);
        assert(e =~= (EntryModel { remaining: e.remaining - 0, ..e }));
    } else {
        assert(!entry_finished(e));
        assert(tick_entry(e) == (EntryModel { remaining: e.remaining - 1, ..e }));
        lemma_countdown(tick_entry(e), (k - 1) as nat);
        assert((EntryModel { remaining: e.remaining - 1 - (k - 1), ..e }) =~= (EntryModel {
            remaining: e.remaining - k,
            ..e
        }));
    }
}

/// From a cursor standing on item `i` with its wait just expired, removal
/// comes exactly after one tick per remaining item plus the durations of the
/// items after `i`.
proof fn lemma_lifetime_from_item(items: Seq<TrackItem>, i: int, e: EntryModel)
    requires
        0 <= i < items.len(),
        e.items == items,
        e.index == Some(i),
        e.remaining == 0,
    ensures
        survives(e, (items.len() - i + total_duration_from(items, i + 1) - 1) as nat),
        !survives(e, (items.len() - i + total_duration_from(items, i + 1)) as nat),
    decreases items.len() - i,
{
    let life = items.len() - i + total_duration_from(items, i + 1);
    lemma_total_duration_nonneg(items, i + 1);
    lemma_total_duration_nonneg(items, i + 2);
    if i + 1 >= items.len() {
        assert(total_duration_from(items, i + 1) == 0);
        assert(life == 1);
        assert(entry_finished(e));
    } else {
        let d = item_duration(items[i + 1]);
        assert(!entry_finished(e));
        let e1 = tick_entry(e);
        assert(e1.items == items && e1.index == Some(i + 1) && e1.remaining == d);
        lemma_countdown(e1, d as nat);
        let e2 = iterate_entry(e1, d as nat);
        assert(e2.items == items && e2.index == Some(i + 1) && e2.remaining == 0);
        lemma_lifetime_from_item(items, i + 1, e2);
        let life2 = items.len() - (i + 1) + total_duration_from(items, i + 2);
        assert(life == 1 + d + life2);
        assert(survives(tick_entry(e), 0));
        assert(survives(e, 1));
        assert(iterate_entry(e, 1) == e1) by {
            assert(iterate_entry(tick_entry(e), 0) == tick_entry(e));
        }
        // Survival through the next item's start, its countdown, and the
        // lives of the items after it.
        lemma_survives_add(e1, d as nat, (life2 - 1) as nat);
        lemma_survives_add(e, 1, (d + life2 - 1) as nat);
        // No further survival: a tick past that point would outlive the
        // recursive bound.
        if survives(e, life as nat) {
            lemma_survives_split(e, 1, (d + life2) as nat);
            lemma_survives_split(e1, d as nat, life2 as nat);
            assert(false);
        }
    }
}

/// Law: a playback enqueued with no delay on a track of items with durations
/// `d1 ... dn` is removed during one exact tick: the one that starts item 0
/// is tick 1, each started item then holds the cursor for its duration, and
/// the cursor's move off the end — `n + d1 + ... + dn` ticks after the first
/// — removes the playback; it is registered through every earlier tick.
pub proof fn lemma_playback_lifetime(e: EntryModel)
    requires
        e.index == None::<int>,
        e.remaining == 0,
    ensures
        survives(e, (playback_lifetime(e.items) - 1) as nat),
        !survives(e, playback_lifetime(e.items) as nat),
{
    let items = e.items;
    let n = items.len() as int;
    if n == 0 {
        assert(entry_finished(e));
        assert(playback_lifetime(items) == 1);
    } else {
        let d0 = item_duration(items[0]);
        assert(!entry_finished(e));
        let e1 = tick_entry(e);
        assert(e1.items == items && e1.index == Some(0int) && e1.remaining == d0);
        lemma_countdown(e1, d0 as nat);
        let e2 = iterate_entry(e1, d0 as nat);
        assert(e2.items == items && e2.index == Some(0int) && e2.remaining == 0);
        lemma_lifetime_from_item(items, 0, e2);
        let life2 = n + total_duration_from(items, 1);
        assert(playback_lifetime(items) == 1 + d0 + life2);
        lemma_total_duration_nonneg(items, 0);
        lemma_total_duration_nonneg(items, 1);
        assert(survives(tick_entry(e), 0));
        assert(survives(e, 1));
        assert(iterate_entry(e, 1) == e1) by {
            assert(iterate_entry(tick_entry(e), 0) == tick_entry(e));
        }
        lemma_survives_add(e1, d0 as nat, (life2 - 1) as nat);
        lemma_survives_add(e, 1, (d0 + life2 - 1) as nat);
        if survives(e, playback_lifetime(items) as nat) {
            lemma_survives_split(e, 1, (d0 + life2) as nat);
            lemma_survives_split(e1, d0 as nat, life2 as nat);
            assert(false);
        }
    }
}

/// Law: a playback enqueued with a positive delay `d` fires its first
/// event's channel command on tick `d + 1` exactly, counted from the
/// registration — the first `d` ticks are consumed by the
/// decrement-before-advance of the wait and fire nothing.
pub proof fn lemma_delayed_first_fire(e: EntryModel, n: MusicNote)
    requires
        e.index == None::<int>,
        e.remaining > 0,
        0 < e.items.len(),
        e.items[0] == TrackItem::Note(n),
    ensures
        forall|k: int|
            0 <= k < e.remaining ==> entry_fired_note(#[trigger] iterate_entry(e, k as nat))
                == None::<MusicNote>,
        entry_fired_note(iterate_entry(e, e.remaining as nat)) == Some(n),
{
    assert forall|k: int| 0 <= k < e.remaining implies entry_fired_note(
        #[trigger] iterate_entry(e, k as nat),
    ) == None::<MusicNote> by {
        lemma_countdown(e, k as nat);
        assert(iterate_entry(e, k as nat).remaining == e.remaining - k > 0);
    }
    lemma_countdown(e, e.remaining as nat);
    let ef = iterate_entry(e, e.remaining as nat);
    assert(ef.remaining == 0 && ef.index == None::<int> && ef.items == e.items);
    assert(next_index(ef) == 0);
    assert(entry_fired_note(ef) == Some(n));
}

/// Law: a cursor standing at or past the item count yields no current item —
/// an index exactly equal to the item count is out of bounds, not the last
/// item.
pub proof fn lemma_out_of_range_cursor(p: TrackProgress, i: usize)
    requires
        p.current_item_index == Some(i),
        i >= p.track.items@.len(),
    ensures
        current_item_of(p) == None::<TrackItem>,
{
}

/// Law: a playback whose wait is over and whose cursor moves past the end is
/// removed by the tick that moves it there and contributes no hardware
/// command to that tick.
pub proof fn lemma_finished_entry_drops(e: EntryModel)
    requires
        entry_finished(e),
    ensures
        entry_fired_note(e) == None::<MusicNote>,
        step_entries(seq![e]) =~= Seq::<EntryModel>::empty(),
        tick_commands(seq![e]) =~= Seq::<ToneCommand>::empty(),
{
    let s = seq![e];
    assert(s.drop_last() =~= Seq::<EntryModel>::empty());
    assert(s.last() == e);
    assert(step_entries(Seq::<EntryModel>::empty()) == Seq::<EntryModel>::empty());
    assert(fired(Seq::<EntryModel>::empty(), ChannelKind::Pulse) == Seq::<(u32, MusicNote)>::empty());
    assert(fired(Seq::<EntryModel>::empty(), ChannelKind::Noise) == Seq::<(u32, MusicNote)>::empty());
    assert(fired(Seq::<EntryModel>::empty(), ChannelKind::Triangle) == Seq::<(
        u32,
        MusicNote,
    )>::empty());
    assert(fired(s, ChannelKind::Pulse) =~= Seq::<(u32, MusicNote)>::empty());
    assert(fired(s, ChannelKind::Noise) =~= Seq::<(u32, MusicNote)>::empty());
    assert(fired(s, ChannelKind::Triangle) =~= Seq::<(u32, MusicNote)>::empty());
    assert(commands_for(Seq::<(u32, MusicNote)>::empty()) =~= Seq::<ToneCommand>::empty());
}

/// The registry after `k` ticks: `step_entries` applied `k` times, as `k`
/// `update` calls leave it.
pub open spec fn run_entries(s: Seq<EntryModel>, k: nat) -> Seq<EntryModel>
    decreases k,
{
    if k == 0 {
        s
    } else {
        run_entries(step_entries(s), (k - 1) as nat)
    }
}

/// An empty registry stays empty.
proof fn lemma_run_empty(k: nat)
    ensures
        run_entries(Seq::<EntryModel>::empty(), k) =~= Seq::<EntryModel>::empty(),
    decreases k,
{
    if k > 0 {
        assert(step_entries(Seq::<EntryModel>::empty()) == Seq::<EntryModel>::empty());
        lemma_run_empty((k - 1) as nat);
    }
}

/// Ticking a playback never changes its identifier.
proof fn lemma_iterate_keeps_id(e: EntryModel, k: nat)
    ensures
        iterate_entry(e, k).id == e.id,
    decreases k,
{
    if k > 0 {
        lemma_iterate_keeps_id(tick_entry(e), (k - 1) as nat);
    }
}

/// A registry holding a single playback, run for `k` ticks, holds exactly
/// its iterated state while it survives and is empty once it does not.
pub proof fn lemma_singleton_run(e: EntryModel, k: nat)
    ensures
        run_entries(seq![e], k) =~= if survives(e, k) {
            seq![iterate_entry(e, k)]
        } else {
            Seq::<EntryModel>::empty()
        },
    decreases k,
{
    if k > 0 {
        lemma_step_singleton(e);
        if entry_finished(e) {
            lemma_run_empty((k - 1) as nat);
        } else {
            lemma_singleton_run(tick_entry(e), (k - 1) as nat);
        }
    }
}

/// The commands of a tick on a registry holding a single playback: exactly
/// the one command of the note it starts, or none.
pub proof fn lemma_singleton_commands(e: EntryModel)
    ensures
        tick_commands(seq![e]) =~= match entry_fired_note(e) {
            Some(n) => seq![crate::notes::note_command(n, 0)],
            None => Seq::<ToneCommand>::empty(),
        },
{
    let s = seq![e];
    assert(s.drop_last() =~= Seq::<EntryModel>::empty());
    assert(s.last() == e);
    assert(fired(Seq::<EntryModel>::empty(), ChannelKind::Pulse) == Seq::<(u32, MusicNote)>::empty());
    assert(fired(Seq::<EntryModel>::empty(), ChannelKind::Noise) == Seq::<(u32, MusicNote)>::empty());
    assert(fired(Seq::<EntryModel>::empty(), ChannelKind::Triangle) == Seq::<(
        u32,
        MusicNote,
    )>::empty());
    assert(commands_for(Seq::<(u32, MusicNote)>::empty()) =~= Seq::<ToneCommand>::empty());
    match entry_fired_note(e) {
        Some(n) => {
            let pair = (e.id, n);
            assert(commands_for(seq![pair]) =~= seq![crate::notes::note_command(n, 0)]);
            match crate::player::kind_of(n.channel_mode) {
                ChannelKind::Pulse => {
                    assert(fired(s, ChannelKind::Pulse) =~= seq![pair]);
                    assert(fired(s, ChannelKind::Noise) =~= Seq::<(u32, MusicNote)>::empty());
                    assert(fired(s, ChannelKind::Triangle) =~= Seq::<(u32, MusicNote)>::empty());
                },
                ChannelKind::Noise => {
                    assert(fired(s, ChannelKind::Pulse) =~= Seq::<(u32, MusicNote)>::empty());
                    assert(fired(s, ChannelKind::Noise) =~= seq![pair]);
                    assert(fired(s, ChannelKind::Triangle) =~= Seq::<(u32, MusicNote)>::empty());
                },
                ChannelKind::Triangle => {
                    assert(fired(s, ChannelKind::Pulse) =~= Seq::<(u32, MusicNote)>::empty());
                    assert(fired(s, ChannelKind::Noise) =~= Seq::<(u32, MusicNote)>::empty());
                    assert(fired(s, ChannelKind::Triangle) =~= seq![pair]);
                },
            }
        },
        None => {
            assert(fired(s, ChannelKind::Pulse) =~= Seq::<(u32, MusicNote)>::empty());
            assert(fired(s, ChannelKind::Noise) =~= Seq::<(u32, MusicNote)>::empty());
            assert(fired(s, ChannelKind::Triangle) =~= Seq::<(u32, MusicNote)>::empty());
        },
    }
}

/// Law, at the player: a registry holding one fresh, undelayed playback
/// still holds it (under its identifier) after every run shorter than its
/// lifetime and is empty from the lifetime on — removal comes during one
/// exact tick.
pub proof fn lemma_singleton_player_lifetime(e: EntryModel, k: nat)
    requires
        e.index == None::<int>,
        e.remaining == 0,
    ensures
        k < playback_lifetime(e.items) ==> run_entries(seq![e], k).len() == 1 && run_entries(
            seq![e],
            k,
        )[0].id == e.id,
        k >= playback_lifetime(e.items) ==> run_entries(seq![e], k).len() == 0,
{
    let life = playback_lifetime(e.items);
    lemma_total_duration_nonneg(e.items, 0);
    lemma_playback_lifetime(e);
    lemma_singleton_run(e, k);
    if k < life {
        lemma_survives_split(e, k, (life - 1 - k) as nat);
        lemma_iterate_keeps_id(e, k);
    } else {
        if survives(e, k) {
            lemma_survives_split(e, life as nat, (k - life) as nat);
            assert(false);
        }
    }
}

/// Law, at the player: a registry holding one playback of a track that
/// opens with a note, enqueued behind a positive delay `d`, issues no
/// command during the first `d` ticks and issues that note's command on
/// tick `d + 1` exactly.
pub proof fn lemma_delayed_singleton_commands(e: EntryModel, n: MusicNote, k: nat)
    requires
        e.index == None::<int>,
        e.remaining > 0,
        0 < e.items.len(),
        e.items[0] == TrackItem::Note(n),
    ensures
        k < e.remaining ==> tick_commands(run_entries(seq![e], k)) =~= Seq::<ToneCommand>::empty(),
        k == e.remaining ==> tick_commands(run_entries(seq![e], k)) =~= seq![
            crate::notes::note_command(n, 0),
        ],
{
    if k <= e.remaining {
        lemma_delayed_first_fire(e, n);
        lemma_countdown(e, k);
        lemma_singleton_run(e, k);
        lemma_singleton_commands(iterate_entry(e, k));
    }
}

/// How one tick acts on a registry holding a single playback: the playback
/// is removed if finished, else replaced by its ticked state. Together with
/// `iterate_entry` this carries the per-playback laws to repeated `update`
/// calls on the player.
pub proof fn lemma_step_singleton(e: EntryModel)
    ensures
        step_entries(seq![e]) =~= if entry_finished(e) {
            Seq::<EntryModel>::empty()
        } else {
            seq![tick_entry(e)]
        },
{
    let s = seq![e];
    assert(s.drop_last() =~= Seq::<EntryModel>::empty());
    assert(s.last() == e);
    assert(step_entries(Seq::<EntryModel>::empty()) == Seq::<EntryModel>::empty());
}

} // verus!
