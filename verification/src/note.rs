//! The note event variant and its payload fields.

use crate::id::Id;
use crate::ticks::Ticks;
use vstd::prelude::*;

verus! {

/// How hard a note is struck: an opaque bounded byte with no semantic
/// validation beyond its range.
#[derive(Clone, Copy, Debug, PartialEq, Eq, PartialOrd, Ord, Structural)]
pub struct Velocity(u8);

impl View for Velocity {
    type V = u8;

    closed spec fn view(&self) -> u8 {
        self.0
    }
}

impl Velocity {
    pub fn new(value: u8) -> (r: Self)
        ensures
            r@ == value,
    {
        Velocity(value)
    }

    pub fn as_u8(&self) -> (r: u8)
        ensures
            r == self@,
    {
        self.0
    }
}

/// Which pitch a note names: an opaque bounded byte, like [`Velocity`].
#[derive(Clone, Copy, Debug, PartialEq, Eq, PartialOrd, Ord, Structural)]
pub struct NoteNumber(u8);

impl View for NoteNumber {
    type V = u8;

    closed spec fn view(&self) -> u8 {
        self.0
    }
}

impl NoteNumber {
    pub fn new(value: u8) -> (r: Self)
        ensures
            r@ == value,
    {
        NoteNumber(value)
    }

    pub fn as_u8(&self) -> (r: u8)
        ensures
            r == self@,
    {
        self.0
    }
}

/// A stored note: a timed record owned by exactly one track.
#[derive(Clone, Copy, Debug, PartialEq, Eq, Structural)]
pub struct Note {
    /// Immutable after creation; unique across the whole song.
    pub id: Id,
    /// Start time.
    pub ticks: Ticks,
    /// How long the note sounds; `ticks + duration` must stay in the tick
    /// domain.
    pub duration: Ticks,
    pub velocity: Velocity,
    pub note_number: NoteNumber,
    /// The owning track; always names a track present in the song.
    pub track_id: Id,
}

/// The fields of a note to be created: everything but the id, which the
/// store mints.
#[derive(Clone, Copy, Debug)]
pub struct NoteInput {
    pub ticks: Ticks,
    pub duration: Ticks,
    pub velocity: Velocity,
    pub note_number: NoteNumber,
    pub track_id: Id,
}

/// A sparse replacement for a stored note: the id it names, plus overrides
/// for exactly the fields that are present; absent fields keep their old
/// value.
#[derive(Clone, Copy, Debug)]
pub struct NoteUpdater {
    pub id: Id,
    pub ticks: Option<Ticks>,
    pub duration: Option<Ticks>,
    pub velocity: Option<Velocity>,
    pub note_number: Option<NoteNumber>,
    pub track_id: Option<Id>,
}

/// The note that applying `updater` to `note` describes: the same id, each
/// present field replaced, each absent field kept.
pub open spec fn spec_note_with_updater(note: Note, updater: NoteUpdater) -> Note {
    Note {
        id: note.id,
        ticks: if updater.ticks is Some { updater.ticks->0 } else { note.ticks },
        duration: if updater.duration is Some { updater.duration->0 } else { note.duration },
        velocity: if updater.velocity is Some { updater.velocity->0 } else { note.velocity },
        note_number: if updater.note_number is Some { updater.note_number->0 } else { note.note_number },
        track_id: if updater.track_id is Some { updater.track_id->0 } else { note.track_id },
    }
}

impl Note {
    /// A new note equal to this one except for the fields the updater
    /// explicitly carries; pure, the original is untouched.
    pub fn clone_with_updater(&self, updater: NoteUpdater) -> (r: Note)
        requires
            updater.id == self.id,
        ensures
            r == spec_note_with_updater(*self, updater),
    {
        Note {
            id: self.id,
            ticks: match updater.ticks {
                Some(t) => t,
                None => self.ticks,
            },
            duration: match updater.duration {
                Some(d) => d,
                None => self.duration,
            },
            velocity: match updater.velocity {
                Some(v) => v,
                None => self.velocity,
            },
            note_number: match updater.note_number {
                Some(n) => n,
                None => self.note_number,
            },
            track_id: match updater.track_id {
                Some(t) => t,
                None => self.track_id,
            },
        }
    }
}

} // verus!
