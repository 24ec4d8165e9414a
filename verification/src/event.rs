//! The event tagged union.
//!
//! An [`Event`] is a closed sum type with one case today, `Note`, shaped so a
//! future case can be added without touching its consumers beyond an explicit
//! pattern match.

use crate::id::Id;
use crate::note::{Note, NoteInput, NoteUpdater, spec_note_with_updater};
use crate::ticks::Ticks;
use vstd::prelude::*;

verus! {

/// The open set of event kinds the wire shape discriminates on.
#[derive(Clone, Copy, Debug, PartialEq, Eq, Structural)]
pub enum EventKind {
    Note,
}

/// A stored event: a timed, owned record with a start tick, an optional
/// duration and a variant-specific payload.
#[derive(Clone, Copy, Debug, PartialEq, Eq, Structural)]
pub enum Event {
    Note(Note),
}

/// The fields of an event to be created, without the id the store mints.
#[derive(Clone, Copy, Debug)]
pub enum EventInput {
    Note(NoteInput),
}

/// A sparse replacement for a stored event: an id plus overrides for the
/// fields that are present.
#[derive(Clone, Copy, Debug)]
pub enum EventUpdater {
    Note(NoteUpdater),
}

/// The event that applying `updater` to `event` describes.
pub open spec fn spec_event_with_updater(event: Event, updater: EventUpdater) -> Event {
    match (event, updater) {
        (Event::Note(note), EventUpdater::Note(note_updater)) => Event::Note(
            spec_note_with_updater(note, note_updater),
        ),
    }
}

impl Event {
    pub open spec fn spec_id(self) -> Id {
        match self {
            Event::Note(note) => note.id,
        }
    }

    pub open spec fn spec_ticks(self) -> int {
        match self {
            Event::Note(note) => note.ticks@ as int,
        }
    }

    pub open spec fn spec_duration(self) -> Option<Ticks> {
        match self {
            Event::Note(note) => Some(note.duration),
        }
    }

    /// Where the event stops sounding: start plus duration for events that
    /// carry one, the start tick itself otherwise.
    pub open spec fn spec_end(self) -> int {
        match self.spec_duration() {
            Some(duration) => self.spec_ticks() + duration@ as int,
            None => self.spec_ticks(),
        }
    }

    pub open spec fn spec_track_id(self) -> Id {
        match self {
            Event::Note(note) => note.track_id,
        }
    }

    /// A new event built from an input, under the identifier the store
    /// minted for it. Never fails.
    pub fn from_input(input: EventInput, id: Id) -> (r: Event)
        ensures
            r == spec_event_from_input(input, id),
    {
        match input {
            EventInput::Note(note_input) => Event::Note(
                Note {
                    id,
                    ticks: note_input.ticks,
                    duration: note_input.duration,
                    velocity: note_input.velocity,
                    note_number: note_input.note_number,
                    track_id: note_input.track_id,
                },
            ),
        }
    }

    /// A new event equal to this one except for the fields the updater
    /// explicitly carries; pure.
    pub fn clone_with_updater(&self, updater: EventUpdater) -> (r: Event)
        requires
            updater.spec_id() == self.spec_id(),
        ensures
            r == spec_event_with_updater(*self, updater),
    {
        match (self, updater) {
            (Event::Note(note), EventUpdater::Note(note_updater)) => Event::Note(
                note.clone_with_updater(note_updater),
            ),
        }
    }

    pub fn get_id(&self) -> (r: Id)
        ensures
            r == self.spec_id(),
    {
        match self {
            Event::Note(note) => note.id,
        }
    }

    pub fn get_kind(&self) -> (r: EventKind)
        ensures
            r == EventKind::Note,
    {
        match self {
            Event::Note(_) => EventKind::Note,
        }
    }

    pub fn get_ticks(&self) -> (r: Ticks)
        ensures
            r@ as int == self.spec_ticks(),
    {
        match self {
            Event::Note(note) => note.ticks,
        }
    }

    pub fn get_duration(&self) -> (r: Option<Ticks>)
        ensures
            r == self.spec_duration(),
    {
        match self {
            Event::Note(note) => Some(note.duration),
        }
    }

    pub fn get_track_id(&self) -> (r: Id)
        ensures
            r == self.spec_track_id(),
    {
        match self {
            Event::Note(note) => note.track_id,
        }
    }
}

/// The event that building from `input` under `id` describes.
pub open spec fn spec_event_from_input(input: EventInput, id: Id) -> Event {
    match input {
        EventInput::Note(note_input) => Event::Note(
            Note {
                id,
                ticks: note_input.ticks,
                duration: note_input.duration,
                velocity: note_input.velocity,
                note_number: note_input.note_number,
                track_id: note_input.track_id,
            },
        ),
    }
}

impl EventInput {
    /// The track the new event will belong to.
    pub open spec fn spec_track_id(self) -> Id {
        match self {
            EventInput::Note(note_input) => note_input.track_id,
        }
    }

    /// Where the event built from this input will stop sounding. Keeping this
    /// inside the tick domain is the caller's duty.
    pub open spec fn spec_end(self) -> int {
        match self {
            EventInput::Note(note_input) => note_input.ticks@ + note_input.duration@,
        }
    }

    pub fn get_track_id(&self) -> (r: Id)
        ensures
            r == self.spec_track_id(),
    {
        match self {
            EventInput::Note(note_input) => note_input.track_id,
        }
    }
}

impl EventUpdater {
    /// The stored event this updater names.
    pub open spec fn spec_id(self) -> Id {
        match self {
            EventUpdater::Note(note_updater) => note_updater.id,
        }
    }

    pub fn get_id(&self) -> (r: Id)
        ensures
            r == self.spec_id(),
    {
        match self {
            EventUpdater::Note(note_updater) => note_updater.id,
        }
    }
}

} // verus!
