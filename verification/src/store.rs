//! The store handle a host hands around: at most one active song, and the
//! whole operation set over it.
//!
//! Every operation that needs an active song answers `PreconditionViolated`
//! when none was created or set; otherwise it is the corresponding song
//! operation, with its contract.

use crate::error::StoreError;
use crate::event::{Event, EventInput, EventUpdater, spec_event_with_updater};
use crate::id::Id;
use crate::song::{
    GetEventsFilter, Song, spec_add_event_post, spec_filter_ids, spec_query_post,
    spec_remove_event_post, spec_remove_track_post, spec_update_event_post,
};
use crate::ticks::Ticks;
use crate::track::Track;
use vstd::prelude::*;

verus! {

/// An explicit store value owned by the caller; no process-wide instance
/// exists. It starts with no song.
#[derive(Debug)]
pub struct Store {
    song: Option<Song>,
}

impl Store {
    pub closed spec fn spec_song(self) -> Option<Song> {
        self.song
    }

    /// The store's invariant: whatever song it holds is well-formed.
    pub open spec fn wf(self) -> bool {
        self.spec_song() matches Some(s) ==> s.wf()
    }

    pub fn new() -> (r: Store)
        ensures
            r.spec_song() is None,
            r.wf(),
    {
        Store { song: None }
    }

    pub fn get_song(&self) -> (r: &Option<Song>)
        ensures
            *r == self.spec_song(),
    {
        &self.song
    }

    /// Replaces whatever was active with a fresh empty song.
    pub fn create_song(&mut self, title: String, ppq: u32)
        ensures
            final(self).wf(),
            final(self).spec_song() matches Some(s) && s.spec_title() == title@ && s.spec_ppq()
                == ppq && s.spec_end_of_song() == 0 && s.spec_tracks() == Seq::<Track>::empty(),
    {
        self.song = Some(Song::new(title, ppq));
    }

    /// Replaces whatever was active with a caller-supplied song value.
    pub fn set_song(&mut self, song: Song)
        requires
            song.wf(),
        ensures
            final(self).wf(),
            final(self).spec_song() == Some(song),
    {
        self.song = Some(song);
    }

    pub fn clear_song(&mut self)
        ensures
            final(self).wf(),
            final(self).spec_song() is None,
    {
        self.song = None;
    }

    pub fn get_track(&self, track_id: &Id) -> (r: Result<Option<&Track>, StoreError>)
        ensures
            r is Err <==> self.spec_song() is None,
            r matches Err(e) ==> e == StoreError::PreconditionViolated,
            r matches Ok(t) ==> {
                let s = self.spec_song()->0;
                &&& (t is Some <==> s.song_has_track(*track_id))
                &&& (t matches Some(tr) ==> tr.spec_id() == *track_id && s.spec_tracks().contains(
                    *tr,
                ))
            },
    {
        match &self.song {
            None => Err(StoreError::PreconditionViolated),
            Some(song) => Ok(song.get_track(track_id)),
        }
    }

    pub fn get_tracks(&self) -> (r: Result<&Vec<Track>, StoreError>)
        ensures
            r is Err <==> self.spec_song() is None,
            r matches Err(e) ==> e == StoreError::PreconditionViolated,
            r matches Ok(ts) ==> ts@ == self.spec_song()->0.spec_tracks(),
    {
        match &self.song {
            None => Err(StoreError::PreconditionViolated),
            Some(song) => Ok(song.get_tracks()),
        }
    }

    /// Appends a new empty track to the active song; see
    /// [`Song::add_empty_track`].
    pub fn add_track(&mut self) -> (r: Result<Id, StoreError>)
        requires
            old(self).wf(),
        ensures
            final(self).wf(),
            r == Err::<Id, StoreError>(StoreError::PreconditionViolated) <==> old(
                self,
            ).spec_song() is None,
            old(self).spec_song() is None ==> *final(self) == *old(self),
            r matches Err(e) ==> *final(self) == *old(self) && (e == StoreError::PreconditionViolated
                || e == StoreError::InvariantViolation),
            r matches Ok(id) ==> {
                let s0 = old(self).spec_song()->0;
                let s1 = final(self).spec_song()->0;
                &&& final(self).spec_song() is Some
                &&& !s0.song_has_track(id)
                &&& s1.song_has_track(id)
                &&& s1.spec_tracks().len() == s0.spec_tracks().len() + 1
                &&& forall|j: int|
                    0 <= j < s0.spec_tracks().len() ==> s1.spec_tracks()[j] == s0.spec_tracks()[j]
                &&& s1.spec_tracks().last().spec_id() == id
                &&& s1.spec_tracks().last().spec_events() == Seq::<Event>::empty()
                &&& s1.spec_title() == s0.spec_title()
                &&& s1.spec_ppq() == s0.spec_ppq()
                &&& s1.spec_end_of_song() == s0.spec_end_of_song()
            },
    {
        match &mut self.song {
            None => Err(StoreError::PreconditionViolated),
            Some(song) => song.add_empty_track(),
        }
    }

    /// Removes the named track and every event it owned; see
    /// [`Song::remove_track`].
    pub fn remove_track(&mut self, track_id: &Id) -> (r: Result<(), StoreError>)
        requires
            old(self).wf(),
        ensures
            final(self).wf(),
            r == Err::<(), StoreError>(StoreError::PreconditionViolated) <==> old(
                self,
            ).spec_song() is None,
            r matches Err(e) ==> *final(self) == *old(self) && (e == StoreError::PreconditionViolated
                || e == StoreError::NotFound),
            old(self).spec_song() matches Some(s0) ==> {
                &&& (r == Err::<(), StoreError>(StoreError::NotFound) <==> !s0.song_has_track(
                    *track_id,
                ))
                &&& (r is Ok ==> final(self).spec_song() is Some && spec_remove_track_post(
                    s0,
                    final(self).spec_song()->0,
                    *track_id,
                ))
            },
    {
        match &mut self.song {
            None => Err(StoreError::PreconditionViolated),
            Some(song) => song.remove_track(track_id),
        }
    }

    pub fn get_event(&self, event_id: &Id) -> (r: Result<Option<Event>, StoreError>)
        requires
            self.wf(),
        ensures
            r is Err <==> self.spec_song() is None,
            r matches Err(e) ==> e == StoreError::PreconditionViolated,
            r matches Ok(ev) ==> ev == self.spec_song()->0.spec_get_event(*event_id),
    {
        match &self.song {
            None => Err(StoreError::PreconditionViolated),
            Some(song) => Ok(song.get_event(event_id)),
        }
    }

    /// Every event the filter selects, in time order; see
    /// [`Song::get_events`].
    pub fn get_events(&self, filter: Option<GetEventsFilter>) -> (r: Result<Vec<Event>, StoreError>)
        requires
            self.wf(),
        ensures
            r is Err <==> self.spec_song() is None,
            r matches Err(e) ==> e == StoreError::PreconditionViolated,
            r matches Ok(v) ==> spec_query_post(
                self.spec_song()->0,
                spec_filter_ids(filter),
                None,
                v@,
            ),
    {
        match &self.song {
            None => Err(StoreError::PreconditionViolated),
            Some(song) => Ok(song.get_events(filter)),
        }
    }

    /// Every event sounding in (or starting in) the half-open tick window,
    /// in time order; see [`Song::get_events_in_ticks_range`].
    pub fn get_events_in_ticks_range(
        &self,
        start_ticks: Ticks,
        end_ticks: Ticks,
        within_duration: bool,
        filter: Option<GetEventsFilter>,
    ) -> (r: Result<Vec<Event>, StoreError>)
        requires
            self.wf(),
        ensures
            r is Err <==> self.spec_song() is None,
            r matches Err(e) ==> e == StoreError::PreconditionViolated,
            r matches Ok(v) ==> spec_query_post(
                self.spec_song()->0,
                spec_filter_ids(filter),
                Some((start_ticks@ as int, end_ticks@ as int, within_duration)),
                v@,
            ),
    {
        match &self.song {
            None => Err(StoreError::PreconditionViolated),
            Some(song) => Ok(
                song.get_events_in_ticks_range(start_ticks, end_ticks, within_duration, filter),
            ),
        }
    }

    /// Mints an identifier and stores the event built from the input; see
    /// [`Song::add_event`].
    pub fn add_event(&mut self, input: EventInput) -> (r: Result<Event, StoreError>)
        requires
            old(self).wf(),
            input.spec_end() <= u32::MAX,
        ensures
            final(self).wf(),
            r == Err::<Event, StoreError>(StoreError::PreconditionViolated) <==> old(
                self,
            ).spec_song() is None,
            r matches Err(e) ==> *final(self) == *old(self) && (e == StoreError::PreconditionViolated
                || e == StoreError::NotFound || e == StoreError::InvariantViolation),
            old(self).spec_song() matches Some(s0) ==> {
                &&& (r == Err::<Event, StoreError>(StoreError::NotFound) <==> !s0.song_has_track(
                    input.spec_track_id(),
                ))
                &&& (r matches Ok(ev) ==> final(self).spec_song() is Some && spec_add_event_post(
                    s0,
                    final(self).spec_song()->0,
                    input,
                    ev.spec_id(),
                    ev,
                ))
            },
    {
        match &mut self.song {
            None => Err(StoreError::PreconditionViolated),
            Some(song) => song.add_event(input),
        }
    }

    /// Replaces the stored event an updater names; see
    /// [`Song::update_event`].
    pub fn update_event(&mut self, updater: EventUpdater) -> (r: Result<Event, StoreError>)
        requires
            old(self).wf(),
            (old(self).spec_song() is Some && old(self).spec_song()->0.song_has_event(
                updater.spec_id(),
            )) ==> spec_event_with_updater(
                old(self).spec_song()->0.spec_song_event(updater.spec_id()),
                updater,
            ).spec_end() <= u32::MAX,
        ensures
            final(self).wf(),
            r == Err::<Event, StoreError>(StoreError::PreconditionViolated) <==> old(
                self,
            ).spec_song() is None,
            r matches Err(e) ==> *final(self) == *old(self) && (e == StoreError::PreconditionViolated
                || e == StoreError::NotFound),
            old(self).spec_song() matches Some(s0) ==> {
                &&& (r is Ok <==> (s0.song_has_event(updater.spec_id()) && s0.song_has_track(
                    spec_event_with_updater(
                        s0.spec_song_event(updater.spec_id()),
                        updater,
                    ).spec_track_id(),
                )))
                &&& (r matches Ok(ev) ==> final(self).spec_song() is Some
                    && spec_update_event_post(s0, final(self).spec_song()->0, updater, ev))
            },
    {
        match &mut self.song {
            None => Err(StoreError::PreconditionViolated),
            Some(song) => song.update_event(updater),
        }
    }

    /// Removes the named event from its owning track; see
    /// [`Song::remove_event`].
    pub fn remove_event(&mut self, event_id: &Id) -> (r: Result<(), StoreError>)
        requires
            old(self).wf(),
        ensures
            final(self).wf(),
            r == Err::<(), StoreError>(StoreError::PreconditionViolated) <==> old(
                self,
            ).spec_song() is None,
            r matches Err(e) ==> *final(self) == *old(self) && (e == StoreError::PreconditionViolated
                || e == StoreError::NotFound),
            old(self).spec_song() matches Some(s0) ==> {
                &&& (r is Ok <==> s0.song_has_event(*event_id))
                &&& (r is Ok ==> final(self).spec_song() is Some && spec_remove_event_post(
                    s0,
                    final(self).spec_song()->0,
                    *event_id,
                ))
            },
    {
        match &mut self.song {
            None => Err(StoreError::PreconditionViolated),
            Some(song) => song.remove_event(event_id),
        }
    }
}

} // verus!
