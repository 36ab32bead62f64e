//! Tracks: ordered sequences of notes and rests, and the per-playback cursor
//! over one of them.

use vstd::prelude::*;

verus! {

use crate::notes::MusicNote;

/// A pause of the given number of ticks.
#[derive(Clone, Copy, PartialEq, Eq, PartialOrd, Ord, Structural, Debug)]
pub struct Rest {
    pub duration: u8,
}

/// One element of a track: a sound event or a pause.
#[derive(Clone, Copy, PartialEq, Eq, Structural, Debug)]
pub enum TrackItem {
    Note(MusicNote),
    Rest(Rest),
}

/// An immutable ordered sequence of track items. A track can be played any
/// number of times concurrently; every playback reads the same items. The
/// priority value is reserved: the scheduler never consults it and resolves
/// contention by last write instead.
#[derive(Clone, PartialEq, Eq, Debug)]
pub struct Track {
    pub items: Vec<TrackItem>,
    pub priority: u32,
}

/// The mutable cursor of one playback over a track: the index of the current
/// item (`None` before the first tick has started item 0) and the ticks left
/// before the next item begins.
#[derive(Debug)]
pub struct TrackProgress {
    pub track: Track,
    pub current_item_index: Option<usize>,
    pub current_item_time_remaining: u32,
}

/// The item under the cursor, or `None` when no index is set or the index has
/// run off the end. An index exactly equal to the item count is already out
/// of bounds.
pub open spec fn current_item_of(p: TrackProgress) -> Option<TrackItem> {
    match p.current_item_index {
        None => None,
        Some(i) => if i >= p.track.items@.len() {
            None
        } else {
            Some(p.track.items@[i as int])
        },
    }
}

impl TrackProgress {
    /// The item under the cursor; `None` when no index is set or the index
    /// is out of bounds (an index equal to the item count is out of bounds,
    /// not the last item).
    pub fn current_item(&self) -> (r: Option<TrackItem>)
        ensures
            r == current_item_of(*self),
    {
        match self.current_item_index {
            None => None,
            Some(i) => {
                if i >= self.track.items.len() {
                    None
                } else {
                    Some(self.track.items[i])
                }
            },
        }
    }
}

} // verus!
