//! The song: the top-level aggregate owning the ordered track sequence and,
//! through it, every event.
//!
//! All mutation routes through one owning track, so the per-track order and
//! the cross-track id invariants hold after every operation. Queries read the
//! tracks' sorted sequences and, when more than one track answers, combine
//! them with the multi-stream merge.

use crate::error::StoreError;
use crate::event::{Event, EventInput, EventUpdater, spec_event_from_input, spec_event_with_updater};
use crate::id::Id;
use crate::merge::merge_events_each_track;
use crate::order::{
    all_of_track, event_with_id, has_event_id, id_among, id_index, lemma_id_index_of,
    lemma_range_events_of_track, of_track, range_events, sorted_by_ticks,
};
use crate::ticks::Ticks;
use crate::track::Track;
use vstd::prelude::*;

verus! {

/// Narrows a whole-song query to the tracks it names; `track_ids: None`
/// leaves the query unfiltered. A track id that names no track contributes
/// nothing; an id named twice counts once.
#[derive(Debug)]
pub struct GetEventsFilter {
    pub track_ids: Option<Vec<Id>>,
}

/// The track ids a filter asks for, if it narrows the query at all.
pub open spec fn spec_filter_ids(filter: Option<GetEventsFilter>) -> Option<Seq<Id>> {
    match filter {
        None => None,
        Some(f) => match f.track_ids {
            None => None,
            Some(v) => Some(v@),
        },
    }
}

/// The slice of a track's events a query reads: the whole sequence, or the
/// given window's selection of it.
pub open spec fn spec_window(s: Seq<Event>, window: Option<(int, int, bool)>) -> Seq<Event> {
    match window {
        None => s,
        Some((start, end, within_duration)) => range_events(s, start, end, within_duration),
    }
}

/// The query window an executable query hands around, read as mathematical
/// bounds.
pub open spec fn spec_window_of(window: Option<(Ticks, Ticks, bool)>) -> Option<(int, int, bool)> {
    match window {
        None => None,
        Some((start, end, within_duration)) => Some(
            (start@ as int, end@ as int, within_duration),
        ),
    }
}

/// The tracks are each well-formed, carry pairwise distinct identifiers, and
/// own pairwise disjoint sets of event identifiers.
pub open spec fn spec_tracks_wf(tracks: Seq<Track>) -> bool {
    &&& forall|i: int| 0 <= i < tracks.len() ==> (#[trigger] tracks[i]).wf()
    &&& forall|i: int, j: int|
        #![trigger tracks[i].spec_id(), tracks[j].spec_id()]
        0 <= i < j < tracks.len() ==> tracks[i].spec_id() != tracks[j].spec_id()
    &&& forall|i: int, j: int, eid: Id|
        #![trigger has_event_id(tracks[i].spec_events(), eid), has_event_id(tracks[j].spec_events(), eid)]
        0 <= i < tracks.len() && 0 <= j < tracks.len() && i != j ==> !(has_event_id(
            tracks[i].spec_events(),
            eid,
        ) && has_event_id(tracks[j].spec_events(), eid))
}

/// What a successful track removal leaves behind: the named track is gone —
/// and with it, every event it owned — while the other tracks keep their
/// order.
pub open spec fn spec_remove_track_post(s0: Song, s1: Song, track_id: Id) -> bool {
    &&& s1.wf()
    &&& !s1.song_has_track(track_id)
    &&& exists|i: int|
        0 <= i < s0.spec_tracks().len() && (#[trigger] s0.spec_tracks()[i]).spec_id() == track_id
            && s1.spec_tracks() == s0.spec_tracks().remove(i)
}

/// What a successful event insertion leaves behind: the song now owns `ev` —
/// built from `input` under the fresh identifier `id` — in the track the
/// input names, at the place in that track its start tick asks for, and owns
/// nothing else it did not own before.
pub open spec fn spec_add_event_post(s0: Song, s1: Song, input: EventInput, id: Id, ev: Event) -> bool {
    &&& ev == spec_event_from_input(input, id)
    &&& !s0.song_has_event(id)
    &&& s1.wf()
    &&& s1.song_has_event(id)
    &&& s1.spec_get_event(id) == Some(ev)
    &&& forall|e: Event| s1.song_contains_event(e) <==> (s0.song_contains_event(e) || e == ev)
    &&& forall|eid: Id| s1.song_has_event(eid) <==> (s0.song_has_event(eid) || eid == id)
    &&& s1.spec_tracks().len() == s0.spec_tracks().len()
    &&& forall|j: int|
        0 <= j < s0.spec_tracks().len() ==> (#[trigger] s1.spec_tracks()[j]).spec_id()
            == s0.spec_tracks()[j].spec_id()
    &&& exists|ti: int|
        0 <= ti < s0.spec_tracks().len() && (#[trigger] s0.spec_tracks()[ti]).spec_id()
            == input.spec_track_id() && (forall|j: int|
            0 <= j < s0.spec_tracks().len() && j != ti ==> s1.spec_tracks()[j]
                == s0.spec_tracks()[j]) && (exists|k: int|
            0 <= k <= s0.spec_tracks()[ti].spec_events().len() && s1.spec_tracks()[ti].spec_events()
                == s0.spec_tracks()[ti].spec_events().insert(k, ev))
}

/// What a successful event removal leaves behind: the named event is gone,
/// everything else the song owned stays where it stood.
pub open spec fn spec_remove_event_post(s0: Song, s1: Song, event_id: Id) -> bool {
    &&& s1.wf()
    &&& !s1.song_has_event(event_id)
    &&& forall|eid: Id| eid != event_id ==> (s1.song_has_event(eid) <==> s0.song_has_event(eid))
    &&& forall|e: Event|
        s1.song_contains_event(e) <==> (s0.song_contains_event(e) && e.spec_id() != event_id)
    &&& s1.spec_tracks().len() == s0.spec_tracks().len()
    &&& forall|j: int|
        0 <= j < s0.spec_tracks().len() ==> (#[trigger] s1.spec_tracks()[j]).spec_id()
            == s0.spec_tracks()[j].spec_id()
}

/// What a successful event update leaves behind: the stored event the updater
/// names is replaced — same identifier, present fields overridden, absent
/// fields kept — and re-housed under its (possibly new) owning track;
/// everything else the song owned stays.
pub open spec fn spec_update_event_post(s0: Song, s1: Song, updater: EventUpdater, new_ev: Event) -> bool {
    let old_ev = s0.spec_song_event(updater.spec_id());
    &&& new_ev == spec_event_with_updater(old_ev, updater)
    &&& s1.wf()
    &&& s1.spec_get_event(updater.spec_id()) == Some(new_ev)
    &&& forall|e: Event|
        s1.song_contains_event(e) <==> ((s0.song_contains_event(e) && e != old_ev) || e == new_ev)
    &&& forall|eid: Id| s1.song_has_event(eid) <==> s0.song_has_event(eid)
    &&& s1.spec_tracks().len() == s0.spec_tracks().len()
    &&& forall|j: int|
        0 <= j < s0.spec_tracks().len() ==> (#[trigger] s1.spec_tracks()[j]).spec_id()
            == s0.spec_tracks()[j].spec_id()
}

/// What a query answers, over the tracks a filter selects (`sel: None`
/// selects the whole song) and under an optional range window: a sequence in
/// non-decreasing start-tick order holding each selected track's windowed
/// slice exactly, in that track's own order, and nothing else.
pub open spec fn spec_query_post(
    s: Song,
    sel: Option<Seq<Id>>,
    w: Option<(int, int, bool)>,
    r: Seq<Event>,
) -> bool {
    &&& sorted_by_ticks(r)
    &&& (sel is None ==> {
        &&& forall|i: int|
            0 <= i < s.spec_tracks().len() ==> of_track(
                r,
                (#[trigger] s.spec_tracks()[i]).spec_id(),
            ) == spec_window(s.spec_tracks()[i].spec_events(), w)
        &&& forall|t: int|
            0 <= t < r.len() ==> s.song_has_track((#[trigger] r[t]).spec_track_id())
        &&& forall|t1: int, t2: int|
            #![trigger r[t1], r[t2]]
            0 <= t1 < t2 < r.len() && r[t1].spec_ticks() == r[t2].spec_ticks()
                ==> s.spec_track_at(r[t1].spec_track_id()) <= s.spec_track_at(
                r[t2].spec_track_id(),
            )
    })
    &&& (sel matches Some(ids) ==> {
        &&& forall|j: int, i: int|
            0 <= j < ids.len() && 0 <= i < s.spec_tracks().len() && (
            #[trigger] s.spec_tracks()[i]).spec_id() == (#[trigger] ids[j]) ==> of_track(
                r,
                ids[j],
            ) == spec_window(s.spec_tracks()[i].spec_events(), w)
        &&& forall|t: int|
            0 <= t < r.len() ==> id_among(ids, (#[trigger] r[t]).spec_track_id())
                && s.song_has_track((#[trigger] r[t]).spec_track_id())
    })
}

/// The top-level aggregate: a title, the tick resolution, a caller-managed
/// end-of-song marker, and the ordered track sequence that owns every event.
#[derive(Debug)]
pub struct Song {
    title: String,
    ppq: u32,
    end_of_song: Ticks,
    tracks: Vec<Track>,
}

impl Song {
    pub closed spec fn spec_title(self) -> Seq<char> {
        self.title@
    }

    pub closed spec fn spec_ppq(self) -> u32 {
        self.ppq
    }

    pub closed spec fn spec_end_of_song(self) -> u32 {
        self.end_of_song@
    }

    pub closed spec fn spec_tracks(self) -> Seq<Track> {
        self.tracks@
    }

    /// The song's invariant.
    pub open spec fn wf(self) -> bool {
        spec_tracks_wf(self.spec_tracks())
    }

    /// Where the named track stands in the track sequence, where it does.
    pub open spec fn spec_track_at(self, track_id: Id) -> int {
        choose|i: int|
            0 <= i < self.spec_tracks().len() && (#[trigger] self.spec_tracks()[i]).spec_id()
                == track_id
    }

    /// A track with this identifier is present.
    pub open spec fn song_has_track(self, track_id: Id) -> bool {
        exists|i: int|
            0 <= i < self.spec_tracks().len() && (#[trigger] self.spec_tracks()[i]).spec_id()
                == track_id
    }

    /// An event with this identifier is owned by some track.
    pub open spec fn song_has_event(self, event_id: Id) -> bool {
        exists|i: int|
            0 <= i < self.spec_tracks().len() && has_event_id(
                (#[trigger] self.spec_tracks()[i]).spec_events(),
                event_id,
            )
    }

    /// This exact event value is owned by some track.
    pub open spec fn song_contains_event(self, e: Event) -> bool {
        exists|i: int|
            0 <= i < self.spec_tracks().len() && (#[trigger] self.spec_tracks()[i]).spec_events().contains(
                e,
            )
    }

    /// The event a present identifier names.
    pub open spec fn spec_song_event(self, event_id: Id) -> Event {
        let i = choose|i: int|
            0 <= i < self.spec_tracks().len() && has_event_id(
                (#[trigger] self.spec_tracks()[i]).spec_events(),
                event_id,
            );
        event_with_id(self.spec_tracks()[i].spec_events(), event_id)
    }

    /// What looking an event up by id answers.
    pub open spec fn spec_get_event(self, event_id: Id) -> Option<Event> {
        if self.song_has_event(event_id) {
            Some(self.spec_song_event(event_id))
        } else {
            None
        }
    }

    /// A new song is created empty: no tracks, end-of-song at zero.
    pub fn new(title: String, ppq: u32) -> (r: Song)
        ensures
            r.wf(),
            r.spec_title() == title@,
            r.spec_ppq() == ppq,
            r.spec_end_of_song() == 0,
            r.spec_tracks() == Seq::<Track>::empty(),
    {
        Song { title, ppq, end_of_song: Ticks::new(0), tracks: Vec::new() }
    }

    pub fn get_title(&self) -> (r: String)
        ensures
            r@ == self.spec_title(),
    {
        self.title.clone()
    }

    pub fn set_title(&mut self, title: String)
        ensures
            final(self).spec_title() == title@,
            final(self).spec_ppq() == old(self).spec_ppq(),
            final(self).spec_end_of_song() == old(self).spec_end_of_song(),
            final(self).spec_tracks() == old(self).spec_tracks(),
    {
        self.title = title;
    }

    pub fn get_ppq(&self) -> (r: u32)
        ensures
            r == self.spec_ppq(),
    {
        self.ppq
    }

    pub fn set_ppq(&mut self, ppq: u32)
        ensures
            final(self).spec_ppq() == ppq,
            final(self).spec_title() == old(self).spec_title(),
            final(self).spec_end_of_song() == old(self).spec_end_of_song(),
            final(self).spec_tracks() == old(self).spec_tracks(),
    {
        self.ppq = ppq;
    }

    pub fn get_end_of_song(&self) -> (r: Ticks)
        ensures
            r@ == self.spec_end_of_song(),
    {
        self.end_of_song
    }

    pub fn set_end_of_song(&mut self, end_of_song: Ticks)
        ensures
            final(self).spec_end_of_song() == end_of_song@,
            final(self).spec_title() == old(self).spec_title(),
            final(self).spec_ppq() == old(self).spec_ppq(),
            final(self).spec_tracks() == old(self).spec_tracks(),
    {
        self.end_of_song = end_of_song;
    }

    /// Where the named track stands in the track sequence, if anywhere.
    fn find_track_index(&self, track_id: &Id) -> (r: Option<usize>)
        ensures
            r is Some <==> self.song_has_track(*track_id),
            r matches Some(i) ==> 0 <= i < self.spec_tracks().len()
                && self.spec_tracks()[i as int].spec_id() == *track_id,
    {
        let n = self.tracks.len();
        let mut i: usize = 0;
        while i < n
            invariant
                n == self.spec_tracks().len(),
                0 <= i <= n,
                forall|j: int|
                    0 <= j < i ==> (#[trigger] self.spec_tracks()[j]).spec_id() != *track_id,
            decreases n - i,
        {
            if self.tracks[i].get_id() == *track_id {
                return Some(i);
            }
            i = i + 1;
        }
        None
    }

    /// Looks one track up by id; total, answers absence with `None`.
    pub fn get_track(&self, track_id: &Id) -> (r: Option<&Track>)
        ensures
            r is Some <==> self.song_has_track(*track_id),
            r matches Some(t) ==> t.spec_id() == *track_id && self.spec_tracks().contains(*t),
    {
        match self.find_track_index(track_id) {
            Some(i) => {
                let t = &self.tracks[i];
                proof {
                    assert(self.spec_tracks()[i as int] == *t);
                }
                Some(t)
            },
            None => None,
        }
    }

    /// The tracks in their caller-visible order.
    pub fn get_tracks(&self) -> (r: &Vec<Track>)
        ensures
            r@ == self.spec_tracks(),
    {
        &self.tracks
    }

    /// Appends a new empty track under the given identifier. Deterministic:
    /// succeeds exactly when the identifier is not already a track's — else
    /// `InvariantViolation`, with the song unchanged.
    pub fn add_empty_track_with_id(&mut self, id: Id) -> (r: Result<Id, StoreError>)
        requires
            old(self).wf(),
        ensures
            final(self).spec_title() == old(self).spec_title(),
            final(self).spec_ppq() == old(self).spec_ppq(),
            final(self).spec_end_of_song() == old(self).spec_end_of_song(),
            r is Err <==> old(self).song_has_track(id),
            r matches Err(e) ==> e == StoreError::InvariantViolation && *final(self) == *old(self),
            r matches Ok(out) ==> {
                &&& out == id
                &&& final(self).wf()
                &&& !old(self).song_has_track(id)
                &&& final(self).song_has_track(id)
                &&& final(self).spec_tracks().len() == old(self).spec_tracks().len() + 1
                &&& forall|j: int|
                    0 <= j < old(self).spec_tracks().len() ==> final(self).spec_tracks()[j] == old(self).spec_tracks()[j]
                &&& final(self).spec_tracks().last().spec_id() == id
                &&& final(self).spec_tracks().last().spec_events() == Seq::<Event>::empty()
            },
    {
        if self.find_track_index(&id).is_some() {
            return Err(StoreError::InvariantViolation);
        }
        let track = Track::new(id, None);
        proof {
            assert(track.spec_events() =~= Seq::<Event>::empty()) by {
                vstd::seq_lib::to_multiset_len(track.spec_events());
                vstd::seq_lib::to_multiset_len(Seq::<Event>::empty());
            }
        }
        let ghost s0 = self.tracks@;
        self.tracks.push(track);
        proof {
            let s1 = self.tracks@;
            assert(s1 == s0.push(track));
            assert(spec_tracks_wf(s1)) by {
                assert forall|i: int| 0 <= i < s1.len() implies (#[trigger] s1[i]).wf() by {
                    if i < s0.len() {
                        assert(s1[i] == s0[i]);
                    }
                }
                assert forall|i: int, j: int|
                    #![trigger s1[i].spec_id(), s1[j].spec_id()]
                    0 <= i < j < s1.len() implies s1[i].spec_id() != s1[j].spec_id() by {
                    if j < s0.len() {
                        assert(s1[i] == s0[i] && s1[j] == s0[j]);
                    } else {
                        assert(s1[i] == s0[i] && s1[j] == track);
                        assert(!old(self).song_has_track(id));
                    }
                }
                assert forall|i: int, j: int, eid: Id|
                    #![trigger has_event_id(s1[i].spec_events(), eid), has_event_id(s1[j].spec_events(), eid)]
                    0 <= i < s1.len() && 0 <= j < s1.len() && i != j implies !(has_event_id(
                    s1[i].spec_events(),
                    eid,
                ) && has_event_id(s1[j].spec_events(), eid)) by {
                    if i == s0.len() {
                        assert(s1[i] == track);
                        assert(!has_event_id(track.spec_events(), eid));
                    } else if j == s0.len() {
                        assert(s1[j] == track);
                        assert(!has_event_id(track.spec_events(), eid));
                    } else {
                        assert(s1[i] == s0[i] && s1[j] == s0[j]);
                    }
                }
            }
            assert(s1[s1.len() - 1] == track);
        }
        Ok(id)
    }

    /// Appends a new empty track under a freshly minted identifier and
    /// answers it. The only failure is the store refusing to reuse an
    /// identifier it already holds, which would break uniqueness: the song is
    /// then unchanged.
    pub fn add_empty_track(&mut self) -> (r: Result<Id, StoreError>)
        requires
            old(self).wf(),
        ensures
            final(self).spec_title() == old(self).spec_title(),
            final(self).spec_ppq() == old(self).spec_ppq(),
            final(self).spec_end_of_song() == old(self).spec_end_of_song(),
            r matches Err(e) ==> e == StoreError::InvariantViolation && *final(self) == *old(self),
            r matches Ok(id) ==> {
                &&& final(self).wf()
                &&& !old(self).song_has_track(id)
                &&& final(self).song_has_track(id)
                &&& final(self).spec_tracks().len() == old(self).spec_tracks().len() + 1
                &&& forall|j: int|
                    0 <= j < old(self).spec_tracks().len() ==> final(self).spec_tracks()[j] == old(self).spec_tracks()[j]
                &&& final(self).spec_tracks().last().spec_id() == id
                &&& final(self).spec_tracks().last().spec_events() == Seq::<Event>::empty()
            },
    {
        let id = Id::new();
        self.add_empty_track_with_id(id)
    }

    /// Removes the named track and, with it, every event it owned, as one
    /// step; the other tracks keep their order. Absence is answered with
    /// `NotFound` and the song unchanged.
    pub fn remove_track(&mut self, track_id: &Id) -> (r: Result<(), StoreError>)
        requires
            old(self).wf(),
        ensures
            final(self).spec_title() == old(self).spec_title(),
            final(self).spec_ppq() == old(self).spec_ppq(),
            final(self).spec_end_of_song() == old(self).spec_end_of_song(),
            r is Ok <==> old(self).song_has_track(*track_id),
            r matches Err(e) ==> e == StoreError::NotFound && *final(self) == *old(self),
            r is Ok ==> spec_remove_track_post(*old(self), *final(self), *track_id),
    {
        match self.find_track_index(track_id) {
            None => Err(StoreError::NotFound),
            Some(i) => {
                let ghost s0 = self.tracks@;
                let ghost k = i as int;
                let _removed = self.tracks.remove(i);
                proof {
                    let s1 = self.tracks@;
                    assert(s1 == s0.remove(k));
                    s0.remove_ensures(k);
                    assert(spec_tracks_wf(s1)) by {
                        assert forall|a: int| 0 <= a < s1.len() implies (#[trigger] s1[a]).wf() by {
                            let sa = if a < k { a } else { a + 1 };
                            assert(s1[a] == s0[sa]);
                        }
                        assert forall|a: int, b: int|
                            #![trigger s1[a].spec_id(), s1[b].spec_id()]
                            0 <= a < b < s1.len() implies s1[a].spec_id() != s1[b].spec_id() by {
                            let sa = if a < k { a } else { a + 1 };
                            let sb = if b < k { b } else { b + 1 };
                            assert(s1[a] == s0[sa] && s1[b] == s0[sb]);
                        }
                        assert forall|a: int, b: int, eid: Id|
                            #![trigger has_event_id(s1[a].spec_events(), eid), has_event_id(s1[b].spec_events(), eid)]
                            0 <= a < s1.len() && 0 <= b < s1.len() && a != b implies !(has_event_id(
                            s1[a].spec_events(),
                            eid,
                        ) && has_event_id(s1[b].spec_events(), eid)) by {
                            let sa = if a < k { a } else { a + 1 };
                            let sb = if b < k { b } else { b + 1 };
                            assert(s1[a] == s0[sa] && s1[b] == s0[sb]);
                        }
                    }
                    assert(!self.song_has_track(*track_id)) by {
                        if self.song_has_track(*track_id) {
                            let a = choose|a: int|
                                0 <= a < s1.len() && (#[trigger] s1[a]).spec_id() == *track_id;
                            let sa = if a < k { a } else { a + 1 };
                            assert(s1[a] == s0[sa]);
                            assert(s0[sa].spec_id() == s0[k].spec_id());
                        }
                    }
                    assert(old(self).spec_tracks()[k].spec_id() == *track_id);
                }
                Ok(())
            },
        }
    }

    /// Looks one event up by id anywhere in the song; total, answers absence
    /// with `None`.
    pub fn get_event(&self, event_id: &Id) -> (r: Option<Event>)
        requires
            self.wf(),
        ensures
            r == self.spec_get_event(*event_id),
            r is Some <==> self.song_has_event(*event_id),
            r matches Some(e) ==> e.spec_id() == *event_id && self.song_contains_event(e),
    {
        let n = self.tracks.len();
        let mut i: usize = 0;
        while i < n
            invariant
                n == self.spec_tracks().len(),
                self.wf(),
                0 <= i <= n,
                forall|j: int|
                    0 <= j < i ==> !has_event_id(
                        (#[trigger] self.spec_tracks()[j]).spec_events(),
                        *event_id,
                    ),
            decreases n - i,
        {
            match self.tracks[i].get_event(event_id) {
                Some(e) => {
                    proof {
                        let tracks = self.spec_tracks();
                        assert(has_event_id(tracks[i as int].spec_events(), *event_id));
                        assert(self.song_has_event(*event_id));
                        let ci = choose|ci: int|
                            0 <= ci < tracks.len() && has_event_id(
                                (#[trigger] tracks[ci]).spec_events(),
                                *event_id,
                            );
                        assert(ci == i as int);
                        let s = tracks[i as int].spec_events();
                        let cj = choose|cj: int|
                            0 <= cj < s.len() && (#[trigger] s[cj]).spec_id() == *event_id;
                        let ej = choose|ej: int| 0 <= ej < s.len() && s[ej] == e;
                        assert(s[ej].spec_id() == *event_id);
                        assert(cj == ej) by {
                            if cj != ej {
                                assert(s[cj].spec_id() != s[ej].spec_id());
                            }
                        }
                        assert(event_with_id(s, *event_id) == e);
                    }
                    return Some(e);
                },
                None => {},
            }
            i = i + 1;
        }
        None
    }

    /// Where the track owning the named event stands, if anywhere.
    fn find_event_track_index(&self, event_id: &Id) -> (r: Option<usize>)
        ensures
            r is Some <==> self.song_has_event(*event_id),
            r matches Some(i) ==> 0 <= i < self.spec_tracks().len() && has_event_id(
                self.spec_tracks()[i as int].spec_events(),
                *event_id,
            ),
    {
        let n = self.tracks.len();
        let mut i: usize = 0;
        while i < n
            invariant
                n == self.spec_tracks().len(),
                0 <= i <= n,
                forall|j: int|
                    0 <= j < i ==> !has_event_id(
                        (#[trigger] self.spec_tracks()[j]).spec_events(),
                        *event_id,
                    ),
            decreases n - i,
        {
            if self.tracks[i].get_event(event_id).is_some() {
                return Some(i);
            }
            i = i + 1;
        }
        None
    }

    /// Builds an event from the input under the given identifier and stores
    /// it in its owning track. Deterministic: succeeds exactly when the input
    /// names a present track — else `NotFound` — and the identifier is not in
    /// use — else `InvariantViolation`; on failure the song is unchanged.
    #[verifier::rlimit(60)]
    pub fn add_event_with_id(&mut self, input: EventInput, id: Id) -> (r: Result<
        Event,
        StoreError,
    >)
        requires
            old(self).wf(),
            input.spec_end() <= u32::MAX,
        ensures
            final(self).spec_title() == old(self).spec_title(),
            final(self).spec_ppq() == old(self).spec_ppq(),
            final(self).spec_end_of_song() == old(self).spec_end_of_song(),
            r matches Err(e) ==> *final(self) == *old(self) && (e == StoreError::NotFound || e
                == StoreError::InvariantViolation),
            (r == Err::<Event, StoreError>(StoreError::NotFound)) <==> !old(self).song_has_track(
                input.spec_track_id(),
            ),
            old(self).song_has_track(input.spec_track_id()) ==> ((r == Err::<Event, StoreError>(
                StoreError::InvariantViolation,
            )) <==> old(self).song_has_event(id)),
            r matches Ok(ev) ==> spec_add_event_post(*old(self), *final(self), input, id, ev),
    {
        let track_id = input.get_track_id();
        let ti = match self.find_track_index(&track_id) {
            Some(ti) => ti,
            None => {
                return Err(StoreError::NotFound);
            },
        };
        if self.find_event_track_index(&id).is_some() {
            return Err(StoreError::InvariantViolation);
        }
        let ev = Event::from_input(input, id);
        let ghost s0 = self.tracks@;
        let ghost t0 = s0[ti as int];
        proof {
            assert(!has_event_id(t0.spec_events(), id)) by {
                if has_event_id(t0.spec_events(), id) {
                    assert(old(self).song_has_event(id));
                }
            }
        }
        let tr = &mut self.tracks[ti];
        tr.add_event(ev);
        proof {
            let s1 = self.tracks@;
            let tn = s1[ti as int];
            assert(s1 == s0.update(ti as int, tn));
            let k = choose|k: int|
                0 <= k <= t0.spec_events().len() && tn.spec_events() == t0.spec_events().insert(
                    k,
                    ev,
                ) && (forall|j: int|
                    0 <= j < k ==> (#[trigger] t0.spec_events()[j]).spec_ticks()
                        <= ev.spec_ticks()) && (forall|j: int|
                    k <= j < t0.spec_events().len() ==> (#[trigger] t0.spec_events()[j]).spec_ticks()
                        > ev.spec_ticks());
            crate::order::lemma_insert_contains(t0.spec_events(), k, ev);
            assert forall|j: int| 0 <= j < s1.len() && j != ti as int implies s1[j] == s0[j] by {}
            assert(spec_tracks_wf(s1)) by {
                assert forall|a: int| 0 <= a < s1.len() implies (#[trigger] s1[a]).wf() by {
                    if a != ti as int {
                        assert(s1[a] == s0[a]);
                    }
                }
                assert forall|a: int, b: int|
                    #![trigger s1[a].spec_id(), s1[b].spec_id()]
                    0 <= a < b < s1.len() implies s1[a].spec_id() != s1[b].spec_id() by {
                    assert(s1[a].spec_id() == s0[a].spec_id());
                    assert(s1[b].spec_id() == s0[b].spec_id());
                }
                assert forall|a: int, b: int, eid: Id|
                    #![trigger has_event_id(s1[a].spec_events(), eid), has_event_id(s1[b].spec_events(), eid)]
                    0 <= a < s1.len() && 0 <= b < s1.len() && a != b implies !(has_event_id(
                    s1[a].spec_events(),
                    eid,
                ) && has_event_id(s1[b].spec_events(), eid)) by {
                    if has_event_id(s1[a].spec_events(), eid) && has_event_id(
                        s1[b].spec_events(),
                        eid,
                    ) {
                        if a == ti as int {
                            assert(has_event_id(t0.spec_events(), eid) || eid == id);
                            assert(s1[b] == s0[b]);
                            if eid == id {
                                assert(old(self).song_has_event(id));
                            } else {
                                assert(has_event_id(s0[a].spec_events(), eid));
                            }
                        } else if b == ti as int {
                            assert(has_event_id(t0.spec_events(), eid) || eid == id);
                            assert(s1[a] == s0[a]);
                            if eid == id {
                                assert(old(self).song_has_event(id));
                            } else {
                                assert(has_event_id(s0[b].spec_events(), eid));
                            }
                        } else {
                            assert(s1[a] == s0[a] && s1[b] == s0[b]);
                        }
                    }
                }
            }
            assert(self.song_has_event(id)) by {
                assert(has_event_id(tn.spec_events(), id));
                assert(has_event_id((self.spec_tracks()[ti as int]).spec_events(), id));
            }
            assert forall|eid: Id| self.song_has_event(eid) implies (old(self).song_has_event(eid)
                || eid == id) by {
                let a = choose|a: int|
                    0 <= a < s1.len() && has_event_id((#[trigger] s1[a]).spec_events(), eid);
                if a != ti as int {
                    assert(s1[a] == s0[a]);
                    assert(old(self).song_has_event(eid));
                } else {
                    if eid != id {
                        assert(has_event_id(s0[a].spec_events(), eid));
                        assert(old(self).song_has_event(eid));
                    }
                }
            }
            assert forall|eid: Id| (old(self).song_has_event(eid) || eid == id) implies
                self.song_has_event(eid) by {
                if old(self).song_has_event(eid) {
                    let a = choose|a: int|
                        0 <= a < s0.len() && has_event_id((#[trigger] s0[a]).spec_events(), eid);
                    if a == ti as int {
                        assert(has_event_id(tn.spec_events(), eid));
                    } else {
                        assert(s1[a] == s0[a]);
                        assert(has_event_id(s1[a].spec_events(), eid));
                    }
                }
            }
            assert forall|e: Event| self.song_contains_event(e) implies (old(self).song_contains_event(e) || e == ev) by {
                let a = choose|a: int|
                    0 <= a < s1.len() && (#[trigger] s1[a]).spec_events().contains(e);
                if a != ti as int {
                    assert(s1[a] == s0[a]);
                } else {
                    assert(t0.spec_events().contains(e) || e == ev);
                    if e != ev {
                        assert(s0[a].spec_events().contains(e));
                    }
                }
            }
            assert forall|e: Event| (old(self).song_contains_event(e) || e == ev) implies
                self.song_contains_event(e) by {
                if old(self).song_contains_event(e) {
                    let a = choose|a: int|
                        0 <= a < s0.len() && (#[trigger] s0[a]).spec_events().contains(e);
                    if a == ti as int {
                        assert(tn.spec_events().contains(e));
                    } else {
                        assert(s1[a] == s0[a]);
                        assert(s1[a].spec_events().contains(e));
                    }
                } else {
                    assert(tn.spec_events().contains(ev));
                    assert(s1[ti as int].spec_events().contains(ev));
                }
            }
            lemma_contained_event_with_id(*self, id, ev);
            assert(old(self).spec_tracks()[ti as int].spec_id() == input.spec_track_id());
            assert(spec_add_event_post(*old(self), *self, input, id, ev));
        }
        Ok(ev)
    }

    /// Mints a fresh identifier and stores the event built from the input.
    /// `NotFound` reports exactly an input naming no present track; should
    /// the minted identifier already be in use, the operation aborts with
    /// `InvariantViolation` rather than break id uniqueness.
    pub fn add_event(&mut self, input: EventInput) -> (r: Result<Event, StoreError>)
        requires
            old(self).wf(),
            input.spec_end() <= u32::MAX,
        ensures
            final(self).spec_title() == old(self).spec_title(),
            final(self).spec_ppq() == old(self).spec_ppq(),
            final(self).spec_end_of_song() == old(self).spec_end_of_song(),
            r matches Err(e) ==> *final(self) == *old(self) && (e == StoreError::NotFound || e
                == StoreError::InvariantViolation),
            (r == Err::<Event, StoreError>(StoreError::NotFound)) <==> !old(self).song_has_track(
                input.spec_track_id(),
            ),
            r matches Ok(ev) ==> spec_add_event_post(
                *old(self),
                *final(self),
                input,
                ev.spec_id(),
                ev,
            ),
    {
        let id = Id::new();
        self.add_event_with_id(input, id)
    }

    /// Removes the named event from its owning track; every other event
    /// stays. Absence anywhere in the song is answered with `NotFound` and
    /// the song unchanged.
    pub fn remove_event(&mut self, event_id: &Id) -> (r: Result<(), StoreError>)
        requires
            old(self).wf(),
        ensures
            final(self).spec_title() == old(self).spec_title(),
            final(self).spec_ppq() == old(self).spec_ppq(),
            final(self).spec_end_of_song() == old(self).spec_end_of_song(),
            r is Ok <==> old(self).song_has_event(*event_id),
            r matches Err(e) ==> e == StoreError::NotFound && *final(self) == *old(self),
            r is Ok ==> spec_remove_event_post(*old(self), *final(self), *event_id),
    {
        let ti = match self.find_event_track_index(event_id) {
            Some(ti) => ti,
            None => {
                return Err(StoreError::NotFound);
            },
        };
        let ghost s0 = self.tracks@;
        let ghost t0 = s0[ti as int];
        let tr = &mut self.tracks[ti];
        let removed = tr.remove_event(event_id);
        proof {
            let s1 = self.tracks@;
            let tn = s1[ti as int];
            assert(s1 == s0.update(ti as int, tn));
            assert(removed is Ok);
        }
        match removed {
            Err(_) => Err(StoreError::NotFound),
            Ok(old_ev) => {
                proof {
                    let s1 = self.tracks@;
                    let tn = s1[ti as int];
                    let k = choose|k: int|
                        0 <= k < t0.spec_events().len() && t0.spec_events()[k] == old_ev
                            && tn.spec_events() == t0.spec_events().remove(k);
                    crate::order::lemma_remove_contains(t0.spec_events(), k);
                    assert(spec_tracks_wf(s1)) by {
                        assert forall|a: int| 0 <= a < s1.len() implies (#[trigger] s1[a]).wf() by {
                            if a != ti as int {
                                assert(s1[a] == s0[a]);
                            }
                        }
                        assert forall|a: int, b: int|
                            #![trigger s1[a].spec_id(), s1[b].spec_id()]
                            0 <= a < b < s1.len() implies s1[a].spec_id() != s1[b].spec_id() by {
                            assert(s1[a].spec_id() == s0[a].spec_id());
                            assert(s1[b].spec_id() == s0[b].spec_id());
                        }
                        assert forall|a: int, b: int, eid: Id|
                            #![trigger has_event_id(s1[a].spec_events(), eid), has_event_id(s1[b].spec_events(), eid)]
                            0 <= a < s1.len() && 0 <= b < s1.len() && a != b implies !(has_event_id(
                            s1[a].spec_events(),
                            eid,
                        ) && has_event_id(s1[b].spec_events(), eid)) by {
                            if has_event_id(s1[a].spec_events(), eid) && has_event_id(
                                s1[b].spec_events(),
                                eid,
                            ) {
                                if a == ti as int {
                                    assert(has_event_id(s0[a].spec_events(), eid));
                                    assert(s1[b] == s0[b]);
                                } else if b == ti as int {
                                    assert(has_event_id(s0[b].spec_events(), eid));
                                    assert(s1[a] == s0[a]);
                                } else {
                                    assert(s1[a] == s0[a] && s1[b] == s0[b]);
                                }
                            }
                        }
                    }
                    assert(!self.song_has_event(*event_id)) by {
                        if self.song_has_event(*event_id) {
                            let a = choose|a: int|
                                0 <= a < s1.len() && has_event_id(
                                    (#[trigger] s1[a]).spec_events(),
                                    *event_id,
                                );
                            if a == ti as int {
                                assert(!has_event_id(tn.spec_events(), *event_id));
                            } else {
                                assert(s1[a] == s0[a]);
                                assert(has_event_id(s0[a].spec_events(), *event_id));
                                assert(has_event_id(s0[ti as int].spec_events(), *event_id));
                            }
                        }
                    }
                    assert forall|eid: Id| eid != *event_id implies (self.song_has_event(eid)
                        <==> old(self).song_has_event(eid)) by {
                        if self.song_has_event(eid) {
                            let a = choose|a: int|
                                0 <= a < s1.len() && has_event_id(
                                    (#[trigger] s1[a]).spec_events(),
                                    eid,
                                );
                            if a == ti as int {
                                assert(has_event_id(s0[a].spec_events(), eid));
                            } else {
                                assert(s1[a] == s0[a]);
                            }
                            assert(old(self).song_has_event(eid));
                        }
                        if old(self).song_has_event(eid) {
                            let a = choose|a: int|
                                0 <= a < s0.len() && has_event_id(
                                    (#[trigger] s0[a]).spec_events(),
                                    eid,
                                );
                            if a == ti as int {
                                assert(has_event_id(tn.spec_events(), eid));
                            } else {
                                assert(s1[a] == s0[a]);
                                assert(has_event_id(s1[a].spec_events(), eid));
                            }
                        }
                    }
                    assert(old_ev.spec_id() == *event_id);
                    assert forall|e: Event| self.song_contains_event(e) implies (old(self).song_contains_event(e) && e.spec_id() != *event_id) by {
                        let a = choose|a: int|
                            0 <= a < s1.len() && (#[trigger] s1[a]).spec_events().contains(e);
                        if a == ti as int {
                            assert(t0.spec_events().contains(e) && e != old_ev);
                            assert(s0[a].spec_events().contains(e));
                            assert(e.spec_id() != *event_id) by {
                                if e.spec_id() == *event_id {
                                    let x = choose|x: int|
                                        0 <= x < tn.spec_events().len() && tn.spec_events()[x] == e;
                                    assert(has_event_id(tn.spec_events(), *event_id));
                                }
                            }
                        } else {
                            assert(s1[a] == s0[a]);
                            assert(e.spec_id() != *event_id) by {
                                if e.spec_id() == *event_id {
                                    let x = choose|x: int|
                                        0 <= x < s0[a].spec_events().len()
                                            && s0[a].spec_events()[x] == e;
                                    assert(has_event_id(s0[a].spec_events(), *event_id));
                                    assert(has_event_id(s0[ti as int].spec_events(), *event_id));
                                }
                            }
                        }
                    }
                    assert forall|e: Event| (old(self).song_contains_event(e) && e.spec_id()
                        != *event_id) implies self.song_contains_event(e) by {
                        let a = choose|a: int|
                            0 <= a < s0.len() && (#[trigger] s0[a]).spec_events().contains(e);
                        if a == ti as int {
                            assert(e != old_ev);
                            assert(tn.spec_events().contains(e));
                        } else {
                            assert(s1[a] == s0[a]);
                            assert(s1[a].spec_events().contains(e));
                        }
                    }
                    assert(spec_remove_event_post(*old(self), *self, *event_id));
                }
                Ok(())
            },
        }
    }

    /// Replaces the stored event the updater names — a pure functional
    /// replace computed by [`Event::clone_with_updater`], removed and
    /// reinserted as one step across the owning tracks. `NotFound` reports an
    /// updater naming no stored event, or one moving the event to a track
    /// that does not exist; either way the song is unchanged.
    #[verifier::rlimit(60)]
    pub fn update_event(&mut self, updater: EventUpdater) -> (r: Result<Event, StoreError>)
        requires
            old(self).wf(),
            old(self).song_has_event(updater.spec_id()) ==> spec_event_with_updater(
                old(self).spec_song_event(updater.spec_id()),
                updater,
            ).spec_end() <= u32::MAX,
        ensures
            final(self).spec_title() == old(self).spec_title(),
            final(self).spec_ppq() == old(self).spec_ppq(),
            final(self).spec_end_of_song() == old(self).spec_end_of_song(),
            r matches Err(e) ==> e == StoreError::NotFound && *final(self) == *old(self),
            r is Ok <==> (old(self).song_has_event(updater.spec_id()) && old(self).song_has_track(
                spec_event_with_updater(
                    old(self).spec_song_event(updater.spec_id()),
                    updater,
                ).spec_track_id(),
            )),
            r matches Ok(ev) ==> spec_update_event_post(*old(self), *final(self), updater, ev),
    {
        let id = updater.get_id();
        let oi = match self.find_event_track_index(&id) {
            Some(oi) => oi,
            None => {
                return Err(StoreError::NotFound);
            },
        };
        let old_ev = match self.tracks[oi].get_event(&id) {
            Some(e) => e,
            None => {
                proof {
                    assert(false);
                }
                return Err(StoreError::NotFound);
            },
        };
        proof {
            assert(self.song_contains_event(old_ev)) by {
                assert(self.spec_tracks()[oi as int].spec_events().contains(old_ev));
            }
            lemma_contained_event_with_id(*self, id, old_ev);
            assert(self.spec_song_event(id) == old_ev);
        }
        let new_ev = old_ev.clone_with_updater(updater);
        let new_track_id = new_ev.get_track_id();
        let ti = match self.find_track_index(&new_track_id) {
            Some(ti) => ti,
            None => {
                return Err(StoreError::NotFound);
            },
        };
        let ghost s0 = self.tracks@;
        let ghost t_owner = s0[oi as int];
        let tr = &mut self.tracks[oi];
        let removed = tr.remove_event(&id);
        proof {
            assert(removed is Ok);
        }
        match removed {
            Err(_) => {
                proof {
                    assert(false);
                }
                Err(StoreError::NotFound)
            },
            Ok(removed_ev) => {
                let ghost sm = self.tracks@;
                let ghost t_mid = sm[oi as int];
                proof {
                    assert(sm == s0.update(oi as int, t_mid));
                    // The removed event is the one the updater names.
                    assert(removed_ev == old_ev) by {
                        let ka = choose|ka: int|
                            0 <= ka < t_owner.spec_events().len() && t_owner.spec_events()[ka]
                                == removed_ev && t_mid.spec_events() == t_owner.spec_events().remove(
                                ka,
                            );
                        let kb = choose|kb: int|
                            0 <= kb < t_owner.spec_events().len() && t_owner.spec_events()[kb]
                                == old_ev;
                        if ka != kb {
                            assert(t_owner.spec_events()[ka].spec_id()
                                != t_owner.spec_events()[kb].spec_id());
                        }
                    }
                    lemma_tracks_wf_after_track_change(s0, sm, oi as int, id);
                    assert(!has_event_id(t_mid.spec_events(), id));
                    assert forall|j: int|
                        0 <= j < sm.len() && j != ti as int implies !has_event_id(
                        (#[trigger] sm[j]).spec_events(),
                        id,
                    ) by {
                        if j != oi as int {
                            assert(sm[j] == s0[j]);
                            assert(!(has_event_id(s0[j].spec_events(), id) && has_event_id(
                                s0[oi as int].spec_events(),
                                id,
                            )));
                        }
                    }
                    assert(sm[ti as int].spec_id() == new_ev.spec_track_id());
                    assert(!has_event_id(sm[ti as int].spec_events(), new_ev.spec_id())) by {
                        if ti == oi {
                        } else {
                            assert(sm[ti as int] == s0[ti as int]);
                            assert(!(has_event_id(s0[ti as int].spec_events(), id) && has_event_id(
                                s0[oi as int].spec_events(),
                                id,
                            )));
                        }
                    }
                }
                let tr2 = &mut self.tracks[ti];
                tr2.add_event(new_ev);
                proof {
                    let s1 = self.tracks@;
                    let t_new = s1[ti as int];
                    assert(s1 == sm.update(ti as int, t_new));
                    let kk = choose|kk: int|
                        0 <= kk <= sm[ti as int].spec_events().len() && t_new.spec_events()
                            == sm[ti as int].spec_events().insert(kk, new_ev);
                    crate::order::lemma_insert_contains(sm[ti as int].spec_events(), kk, new_ev);
                    let krem = choose|krem: int|
                        0 <= krem < t_owner.spec_events().len() && t_owner.spec_events()[krem]
                            == old_ev && t_mid.spec_events() == t_owner.spec_events().remove(krem);
                    crate::order::lemma_remove_contains(t_owner.spec_events(), krem);
                    lemma_tracks_wf_after_track_change(sm, s1, ti as int, id);
                    // Every event identifier the song held, it still holds.
                    assert forall|eid: Id| self.song_has_event(eid) implies old(
                        self,
                    ).song_has_event(eid) by {
                        let a = choose|a: int|
                            0 <= a < s1.len() && has_event_id((#[trigger] s1[a]).spec_events(), eid);
                        if a == ti as int {
                            assert(has_event_id(sm[a].spec_events(), eid) || eid == id);
                            if eid == id {
                                assert(has_event_id(s0[oi as int].spec_events(), id));
                            } else if a == oi as int {
                                assert(has_event_id(t_owner.spec_events(), eid));
                            } else {
                                assert(sm[a] == s0[a]);
                            }
                        } else if a == oi as int {
                            assert(s1[a] == sm[a]);
                            assert(has_event_id(t_owner.spec_events(), eid));
                        } else {
                            assert(s1[a] == s0[a]);
                        }
                    }
                    assert forall|eid: Id| old(self).song_has_event(eid) implies
                        self.song_has_event(eid) by {
                        let a = choose|a: int|
                            0 <= a < s0.len() && has_event_id((#[trigger] s0[a]).spec_events(), eid);
                        if eid == id {
                            assert(has_event_id(t_new.spec_events(), id));
                            assert(has_event_id(
                                (self.spec_tracks()[ti as int]).spec_events(),
                                id,
                            ));
                        } else if a == oi as int {
                            assert(has_event_id(t_mid.spec_events(), eid));
                            if ti == oi {
                                assert(has_event_id(t_new.spec_events(), eid));
                                assert(has_event_id(
                                    (self.spec_tracks()[ti as int]).spec_events(),
                                    eid,
                                ));
                            } else {
                                assert(s1[a] == sm[a]);
                                assert(has_event_id(
                                    (self.spec_tracks()[a]).spec_events(),
                                    eid,
                                ));
                            }
                        } else if a == ti as int {
                            assert(sm[a] == s0[a]);
                            assert(has_event_id(t_new.spec_events(), eid));
                            assert(has_event_id(
                                (self.spec_tracks()[ti as int]).spec_events(),
                                eid,
                            ));
                        } else {
                            assert(s1[a] == s0[a]);
                            assert(has_event_id((self.spec_tracks()[a]).spec_events(), eid));
                        }
                    }
                    // The stored content changed by exactly one replacement.
                    assert forall|e: Event| self.song_contains_event(e) implies ((old(
                        self,
                    ).song_contains_event(e) && e != old_ev) || e == new_ev) by {
                        let a = choose|a: int|
                            0 <= a < s1.len() && (#[trigger] s1[a]).spec_events().contains(e);
                        if e != new_ev {
                            if a == ti as int {
                                assert(sm[ti as int].spec_events().contains(e));
                                if a == oi as int {
                                    assert(t_owner.spec_events().contains(e) && e != old_ev);
                                    assert(s0[a].spec_events().contains(e));
                                } else {
                                    assert(sm[a] == s0[a]);
                                    assert(s0[a].spec_events().contains(e));
                                    assert(e != old_ev) by {
                                        if e == old_ev {
                                            let x = choose|x: int|
                                                0 <= x < s0[a].spec_events().len()
                                                    && s0[a].spec_events()[x] == e;
                                            assert(has_event_id(s0[a].spec_events(), id));
                                            assert(has_event_id(s0[oi as int].spec_events(), id));
                                        }
                                    }
                                }
                            } else if a == oi as int {
                                assert(s1[a] == sm[a]);
                                assert(t_mid.spec_events().contains(e));
                                assert(t_owner.spec_events().contains(e) && e != old_ev);
                                assert(s0[a].spec_events().contains(e));
                            } else {
                                assert(s1[a] == s0[a]);
                                assert(e != old_ev) by {
                                    if e == old_ev {
                                        let x = choose|x: int|
                                            0 <= x < s0[a].spec_events().len()
                                                && s0[a].spec_events()[x] == e;
                                        assert(has_event_id(s0[a].spec_events(), id));
                                        assert(has_event_id(s0[oi as int].spec_events(), id));
                                    }
                                }
                            }
                        }
                    }
                    assert forall|e: Event| ((old(self).song_contains_event(e) && e != old_ev) || e
                        == new_ev) implies self.song_contains_event(e) by {
                        if e == new_ev {
                            assert(t_new.spec_events().contains(new_ev));
                            assert((self.spec_tracks()[ti as int]).spec_events().contains(e));
                        } else {
                            let a = choose|a: int|
                                0 <= a < s0.len() && (#[trigger] s0[a]).spec_events().contains(e);
                            if a == oi as int {
                                assert(t_mid.spec_events().contains(e));
                                if ti == oi {
                                    assert(t_new.spec_events().contains(e));
                                } else {
                                    assert(s1[a] == sm[a]);
                                    assert(s1[a].spec_events().contains(e));
                                }
                            } else if a == ti as int {
                                assert(sm[a] == s0[a]);
                                assert(t_new.spec_events().contains(e));
                            } else {
                                assert(s1[a] == s0[a]);
                                assert(s1[a].spec_events().contains(e));
                            }
                        }
                    }
                    assert(self.song_contains_event(new_ev)) by {
                        assert(t_new.spec_events().contains(new_ev));
                        assert((self.spec_tracks()[ti as int]).spec_events().contains(new_ev));
                    }
                    lemma_contained_event_with_id(*self, id, new_ev);
                    assert(spec_update_event_post(*old(self), *self, updater, new_ev));
                }
                Ok(new_ev)
            },
        }
    }

    /// The distinct requested ids that name present tracks, in request order:
    /// an absent id contributes nothing, a repeated id counts once.
    fn select_track_ids(&self, requested: &Vec<Id>) -> (r: Vec<Id>)
        ensures
            forall|a: int, b: int| 0 <= a < b < r@.len() ==> r@[a] != r@[b],
            forall|m: int| 0 <= m < r@.len() ==> self.song_has_track(#[trigger] r@[m]),
            forall|m: int| 0 <= m < r@.len() ==> id_among(requested@, #[trigger] r@[m]),
            forall|j: int|
                0 <= j < requested@.len() && self.song_has_track(#[trigger] requested@[j])
                    ==> id_among(r@, requested@[j]),
    {
        let n = requested.len();
        let mut sel: Vec<Id> = Vec::new();
        let mut j: usize = 0;
        while j < n
            invariant
                n == requested@.len(),
                0 <= j <= n,
                forall|a: int, b: int| 0 <= a < b < sel@.len() ==> sel@[a] != sel@[b],
                forall|m: int| 0 <= m < sel@.len() ==> self.song_has_track(#[trigger] sel@[m]),
                forall|m: int| 0 <= m < sel@.len() ==> id_among(requested@, #[trigger] sel@[m]),
                forall|j2: int|
                    0 <= j2 < j && self.song_has_track(#[trigger] requested@[j2]) ==> id_among(
                        sel@,
                        requested@[j2],
                    ),
            decreases n - j,
        {
            let ghost sel_entry = sel@;
            let cand = requested[j];
            let sl = sel.len();
            let mut dup = false;
            let mut m: usize = 0;
            while m < sl
                invariant
                    sl == sel@.len(),
                    sel@ == sel_entry,
                    0 <= m <= sl,
                    dup ==> exists|m2: int| 0 <= m2 < sel@.len() && (#[trigger] sel@[m2]) == cand,
                    !dup ==> forall|m2: int| 0 <= m2 < m ==> (#[trigger] sel@[m2]) != cand,
                decreases sl - m,
            {
                if sel[m] == cand {
                    dup = true;
                }
                m = m + 1;
            }
            let mut present = false;
            if !dup {
                present = self.find_track_index(&cand).is_some();
                if present {
                    sel.push(cand);
                }
            }
            j = j + 1;
            proof {
                if !dup && present {
                    assert(sel@ == sel_entry.push(cand));
                    assert(sel@[sel_entry.len() as int] == cand);
                } else {
                    assert(sel@ == sel_entry);
                }
                assert forall|m2: int| 0 <= m2 < sel@.len() implies id_among(
                    requested@,
                    #[trigger] sel@[m2],
                ) by {
                    if m2 < sel_entry.len() {
                        assert(sel@[m2] == sel_entry[m2]);
                        assert(id_among(requested@, sel_entry[m2]));
                    } else {
                        assert(sel@[m2] == cand);
                        assert(requested@[j - 1] == cand);
                    }
                }
                assert forall|m2: int| 0 <= m2 < sel@.len() implies self.song_has_track(
                    #[trigger] sel@[m2],
                ) by {
                    if m2 < sel_entry.len() {
                        assert(sel@[m2] == sel_entry[m2]);
                        assert(self.song_has_track(sel_entry[m2]));
                    } else {
                        assert(sel@[m2] == cand);
                    }
                }
                assert forall|j2: int|
                    0 <= j2 < j && self.song_has_track(#[trigger] requested@[j2]) implies id_among(
                    sel@,
                    requested@[j2],
                ) by {
                    if j2 == j - 1 {
                        if dup {
                            let m2 = choose|m2: int|
                                0 <= m2 < sel_entry.len() && (#[trigger] sel_entry[m2]) == cand;
                            assert(sel@[m2] == requested@[j2]);
                        } else {
                            assert(present);
                            assert(sel@[sel_entry.len() as int] == requested@[j2]);
                        }
                    } else {
                        assert(id_among(sel_entry, requested@[j2]));
                        let m2 = choose|m2: int|
                            0 <= m2 < sel_entry.len() && sel_entry[m2] == requested@[j2];
                        assert(sel@[m2] == requested@[j2]);
                    }
                }
            }
        }
        sel
    }

    /// This event list is what a query window reads from the present track
    /// the id names.
    spec fn list_for_track(self, track_id: Id, l: Seq<Event>, w: Option<(int, int, bool)>) -> bool {
        exists|i: int|
            0 <= i < self.spec_tracks().len() && (#[trigger] self.spec_tracks()[i]).spec_id()
                == track_id && l == spec_window(self.spec_tracks()[i].spec_events(), w)
    }

    /// One time-ordered event list per selected track: the whole track, or
    /// its slice under the given query window.
    fn collect_track_events(&self, sel: &Vec<Id>, window: Option<(Ticks, Ticks, bool)>) -> (lists:
        Vec<Vec<Event>>)
        requires
            self.wf(),
            forall|m: int| 0 <= m < sel@.len() ==> self.song_has_track(#[trigger] sel@[m]),
        ensures
            lists@.len() == sel@.len(),
            forall|m: int|
                0 <= m < sel@.len() ==> self.list_for_track(
                    sel@[m],
                    (#[trigger] lists@[m])@,
                    spec_window_of(window),
                ),
            forall|m: int| 0 <= m < lists@.len() ==> sorted_by_ticks((#[trigger] lists@[m])@),
            forall|m: int| 0 <= m < lists@.len() ==> all_of_track((#[trigger] lists@[m])@, sel@[m]),
    {
        let n = sel.len();
        let mut lists: Vec<Vec<Event>> = Vec::new();
        let mut m: usize = 0;
        while m < n
            invariant
                n == sel@.len(),
                0 <= m <= n,
                self.wf(),
                forall|m2: int| 0 <= m2 < n ==> self.song_has_track(#[trigger] sel@[m2]),
                lists@.len() == m,
                forall|m2: int|
                    0 <= m2 < m ==> self.list_for_track(
                        sel@[m2],
                        (#[trigger] lists@[m2])@,
                        spec_window_of(window),
                    ),
                forall|m2: int| 0 <= m2 < m ==> sorted_by_ticks((#[trigger] lists@[m2])@),
                forall|m2: int| 0 <= m2 < m ==> all_of_track((#[trigger] lists@[m2])@, sel@[m2]),
            decreases n - m,
        {
            let tid = sel[m];
            let i = match self.find_track_index(&tid) {
                Some(i) => i,
                None => {
                    proof {
                        assert(false);
                    }
                    return lists;
                },
            };
            let track = &self.tracks[i];
            proof {
                assert(self.spec_tracks()[i as int].wf());
            }
            let events = match window {
                None => track.get_events(),
                Some((start_ticks, end_ticks, within_duration)) => track.get_events_in_ticks_range(
                    start_ticks,
                    end_ticks,
                    within_duration,
                ),
            };
            proof {
                let tr = self.spec_tracks()[i as int];
                assert(events@ == spec_window(tr.spec_events(), spec_window_of(window)));
                assert(sorted_by_ticks(events@));
                assert(all_of_track(events@, tid)) by {
                    match spec_window_of(window) {
                        None => {},
                        Some((lo, hi, w)) => {
                            lemma_range_events_of_track(tr.spec_events(), tid, lo, hi, w);
                        },
                    }
                }
            }
            let ghost lists0 = lists@;
            lists.push(events);
            proof {
                assert(lists@ == lists0.push(events));
                assert(lists@[m as int] == events);
                assert(self.list_for_track(sel@[m as int], events@, spec_window_of(window)));
                assert forall|m2: int| 0 <= m2 < m + 1 implies self.list_for_track(
                    sel@[m2],
                    (#[trigger] lists@[m2])@,
                    spec_window_of(window),
                ) by {
                    if m2 < m {
                        assert(lists@[m2] == lists0[m2]);
                        assert(self.list_for_track(
                            sel@[m2],
                            lists0[m2]@,
                            spec_window_of(window),
                        ));
                    }
                }
            }
            m = m + 1;
        }
        lists
    }

    /// Merges the selected tracks' (possibly windowed) event lists into one
    /// time-ordered sequence.
    fn query_merged(&self, sel: &Vec<Id>, window: Option<(Ticks, Ticks, bool)>) -> (r: Vec<Event>)
        requires
            self.wf(),
            forall|a: int, b: int| 0 <= a < b < sel@.len() ==> sel@[a] != sel@[b],
            forall|m: int| 0 <= m < sel@.len() ==> self.song_has_track(#[trigger] sel@[m]),
        ensures
            sorted_by_ticks(r@),
            forall|m: int, i: int|
                0 <= m < sel@.len() && 0 <= i < self.spec_tracks().len() && (
                #[trigger] self.spec_tracks()[i]).spec_id() == (#[trigger] sel@[m]) ==> of_track(
                    r@,
                    sel@[m],
                ) == spec_window(self.spec_tracks()[i].spec_events(), spec_window_of(window)),
            forall|t: int|
                0 <= t < r@.len() ==> id_among(sel@, (#[trigger] r@[t]).spec_track_id()),
            forall|t1: int, t2: int|
                #![trigger r@[t1], r@[t2]]
                0 <= t1 < t2 < r@.len() && r@[t1].spec_ticks() == r@[t2].spec_ticks()
                    ==> id_index(sel@, r@[t1].spec_track_id()) <= id_index(
                    sel@,
                    r@[t2].spec_track_id(),
                ),
    {
        let lists = self.collect_track_events(sel, window);
        let out = merge_events_each_track(lists, Ghost(sel@));
        proof {
            assert forall|m: int, i: int|
                0 <= m < sel@.len() && 0 <= i < self.spec_tracks().len() && (
                #[trigger] self.spec_tracks()[i]).spec_id() == (#[trigger] sel@[m]) implies of_track(
                out@,
                sel@[m],
            ) == spec_window(self.spec_tracks()[i].spec_events(), spec_window_of(window)) by {
                assert(self.list_for_track(sel@[m], lists@[m]@, spec_window_of(window)));
                let i2 = choose|i2: int|
                    0 <= i2 < self.spec_tracks().len() && (#[trigger] self.spec_tracks()[i2]).spec_id()
                        == sel@[m] && lists@[m]@ == spec_window(
                        self.spec_tracks()[i2].spec_events(),
                        spec_window_of(window),
                    );
                assert(i2 == i) by {
                    if i2 != i {
                        assert(self.spec_tracks()[i2].spec_id() != self.spec_tracks()[i].spec_id());
                    }
                }
                assert(of_track(out@, sel@[m]) == lists@[m]@);
            }
        }
        out
    }

    /// Every present track's identifier, in track order.
    fn all_track_ids(&self) -> (r: Vec<Id>)
        requires
            self.wf(),
        ensures
            r@.len() == self.spec_tracks().len(),
            forall|i: int|
                0 <= i < r@.len() ==> r@[i] == (#[trigger] self.spec_tracks()[i]).spec_id(),
    {
        let n = self.tracks.len();
        let mut ids: Vec<Id> = Vec::new();
        let mut i: usize = 0;
        while i < n
            invariant
                n == self.spec_tracks().len(),
                0 <= i <= n,
                ids@.len() == i,
                forall|i2: int|
                    0 <= i2 < i ==> ids@[i2] == (#[trigger] self.spec_tracks()[i2]).spec_id(),
            decreases n - i,
        {
            ids.push(self.tracks[i].get_id());
            i = i + 1;
        }
        ids
    }

    /// One whole-song, time-ordered view under a query window.
    fn query_all(&self, window: Option<(Ticks, Ticks, bool)>) -> (r: Vec<Event>)
        requires
            self.wf(),
        ensures
            sorted_by_ticks(r@),
            forall|i: int|
                0 <= i < self.spec_tracks().len() ==> of_track(
                    r@,
                    (#[trigger] self.spec_tracks()[i]).spec_id(),
                ) == spec_window(self.spec_tracks()[i].spec_events(), spec_window_of(window)),
            forall|t: int|
                0 <= t < r@.len() ==> self.song_has_track((#[trigger] r@[t]).spec_track_id()),
            forall|t1: int, t2: int|
                #![trigger r@[t1], r@[t2]]
                0 <= t1 < t2 < r@.len() && r@[t1].spec_ticks() == r@[t2].spec_ticks()
                    ==> self.spec_track_at(r@[t1].spec_track_id()) <= self.spec_track_at(
                    r@[t2].spec_track_id(),
                ),
    {
        let ids = self.all_track_ids();
        proof {
            assert forall|m: int| 0 <= m < ids@.len() implies self.song_has_track(
                #[trigger] ids@[m],
            ) by {
                assert(ids@[m] == self.spec_tracks()[m].spec_id());
            }
            assert forall|a: int, b: int| 0 <= a < b < ids@.len() implies ids@[a] != ids@[b] by {
                assert(ids@[a] == self.spec_tracks()[a].spec_id());
                assert(ids@[b] == self.spec_tracks()[b].spec_id());
            }
        }
        let out = self.query_merged(&ids, window);
        proof {
            assert forall|i: int| 0 <= i < self.spec_tracks().len() implies of_track(
                out@,
                (#[trigger] self.spec_tracks()[i]).spec_id(),
            ) == spec_window(self.spec_tracks()[i].spec_events(), spec_window_of(window)) by {
                assert(ids@[i] == self.spec_tracks()[i].spec_id());
            }
            assert forall|t: int| 0 <= t < out@.len() implies self.song_has_track(
                (#[trigger] out@[t]).spec_track_id(),
            ) by {
                assert(id_among(ids@, out@[t].spec_track_id()));
                let m = choose|m: int|
                    0 <= m < ids@.len() && ids@[m] == out@[t].spec_track_id();
                assert(self.song_has_track(ids@[m]));
            }
            // On the whole-song listing, the position an event's track takes
            // in the track sequence is where its id first stands among all
            // track ids, so the merge's tie rule carries over.
            assert forall|t: int|
                0 <= t < out@.len() implies self.spec_track_at(
                (#[trigger] out@[t]).spec_track_id(),
            ) == id_index(ids@, out@[t].spec_track_id()) by {
                let tid = out@[t].spec_track_id();
                assert(self.song_has_track(tid));
                let c = self.spec_track_at(tid);
                assert(0 <= c < self.spec_tracks().len() && self.spec_tracks()[c].spec_id()
                    == tid);
                assert(ids@[c] == tid);
                lemma_id_index_of(ids@, c);
            }
        }
        out
    }

    /// The events a filter selects, under a query window, merged in time
    /// order. The windowed slice of each selected track appears exactly, and
    /// nothing else does.
    fn query_filtered(&self, requested: Vec<Id>, window: Option<(Ticks, Ticks, bool)>) -> (r: Vec<
        Event,
    >)
        requires
            self.wf(),
        ensures
            sorted_by_ticks(r@),
            forall|j: int, i: int|
                0 <= j < requested@.len() && 0 <= i < self.spec_tracks().len() && (
                #[trigger] self.spec_tracks()[i]).spec_id() == (#[trigger] requested@[j])
                    ==> of_track(r@, requested@[j]) == spec_window(
                    self.spec_tracks()[i].spec_events(),
                    spec_window_of(window),
                ),
            forall|t: int|
                0 <= t < r@.len() ==> id_among(requested@, (#[trigger] r@[t]).spec_track_id())
                    && self.song_has_track((#[trigger] r@[t]).spec_track_id()),
    {
        let sel = self.select_track_ids(&requested);
        let out = self.query_merged(&sel, window);
        proof {
            assert forall|j: int, i: int|
                0 <= j < requested@.len() && 0 <= i < self.spec_tracks().len() && (
                #[trigger] self.spec_tracks()[i]).spec_id() == (
                #[trigger] requested@[j]) implies of_track(out@, requested@[j]) == spec_window(
                self.spec_tracks()[i].spec_events(),
                spec_window_of(window),
            ) by {
                assert(self.song_has_track(requested@[j]));
                assert(id_among(sel@, requested@[j]));
                let m = choose|m: int| 0 <= m < sel@.len() && sel@[m] == requested@[j];
                assert(of_track(out@, sel@[m]) == spec_window(
                    self.spec_tracks()[i].spec_events(),
                    spec_window_of(window),
                ));
            }
            assert forall|t: int| 0 <= t < out@.len() implies id_among(
                requested@,
                (#[trigger] out@[t]).spec_track_id(),
            ) && self.song_has_track((#[trigger] out@[t]).spec_track_id()) by {
                assert(id_among(sel@, out@[t].spec_track_id()));
                let m = choose|m: int|
                    0 <= m < sel@.len() && sel@[m] == out@[t].spec_track_id();
                assert(id_among(requested@, sel@[m]));
                assert(self.song_has_track(sel@[m]));
            }
        }
        out
    }

    /// All events the filter selects — the whole song when no filter narrows
    /// it — in non-decreasing start-tick order. Each selected track's events
    /// appear exactly and keep their track order; ties across tracks go to
    /// the earlier selected track.
    pub fn get_events(&self, filter: Option<GetEventsFilter>) -> (r: Vec<Event>)
        requires
            self.wf(),
        ensures
            spec_query_post(*self, spec_filter_ids(filter), None, r@),
    {
        let r = match filter {
            Some(f) => match f.track_ids {
                Some(ids) => self.query_filtered(ids, None),
                None => self.query_all(None),
            },
            None => self.query_all(None),
        };
        proof {
            assert(spec_query_post(*self, spec_filter_ids(filter), None, r@));
        }
        r
    }

    /// The events a range query selects over the half-open window
    /// `[start_ticks, end_ticks)` — those starting inside the window and,
    /// when `within_duration` is set, those begun earlier and still sounding
    /// at `start_ticks` — for the filtered tracks (the whole song without a
    /// filter), in non-decreasing start-tick order.
    pub fn get_events_in_ticks_range(
        &self,
        start_ticks: Ticks,
        end_ticks: Ticks,
        within_duration: bool,
        filter: Option<GetEventsFilter>,
    ) -> (r: Vec<Event>)
        requires
            self.wf(),
        ensures
            spec_query_post(
                *self,
                spec_filter_ids(filter),
                Some((start_ticks@ as int, end_ticks@ as int, within_duration)),
                r@,
            ),
    {
        let window = Some((start_ticks, end_ticks, within_duration));
        let r = match filter {
            Some(f) => match f.track_ids {
                Some(ids) => self.query_filtered(ids, window),
                None => self.query_all(window),
            },
            None => self.query_all(window),
        };
        proof {
            assert(spec_query_post(
                *self,
                spec_filter_ids(filter),
                Some((start_ticks@ as int, end_ticks@ as int, within_duration)),
                r@,
            ));
        }
        r
    }
}

/// Changing one track in place preserves the song invariant, provided the
/// changed track is itself well-formed, keeps its identifier, and introduces
/// no event identifier beyond its old ones and one (`fresh_id`) that no other
/// track holds.
proof fn lemma_tracks_wf_after_track_change(s0: Seq<Track>, s1: Seq<Track>, ti: int, fresh_id: Id)
    requires
        spec_tracks_wf(s0),
        0 <= ti < s0.len(),
        s1.len() == s0.len(),
        forall|j: int| 0 <= j < s0.len() && j != ti ==> s1[j] == s0[j],
        s1[ti].wf(),
        s1[ti].spec_id() == s0[ti].spec_id(),
        forall|eid: Id|
            has_event_id(s1[ti].spec_events(), eid) ==> has_event_id(s0[ti].spec_events(), eid)
                || eid == fresh_id,
        forall|j: int|
            0 <= j < s0.len() && j != ti ==> !has_event_id(
                (#[trigger] s0[j]).spec_events(),
                fresh_id,
            ),
    ensures
        spec_tracks_wf(s1),
{
    assert forall|a: int| 0 <= a < s1.len() implies (#[trigger] s1[a]).wf() by {
        if a != ti {
            assert(s1[a] == s0[a]);
        }
    }
    assert forall|a: int, b: int|
        #![trigger s1[a].spec_id(), s1[b].spec_id()]
        0 <= a < b < s1.len() implies s1[a].spec_id() != s1[b].spec_id() by {
        assert(s1[a].spec_id() == s0[a].spec_id());
        assert(s1[b].spec_id() == s0[b].spec_id());
    }
    assert forall|a: int, b: int, eid: Id|
        #![trigger has_event_id(s1[a].spec_events(), eid), has_event_id(s1[b].spec_events(), eid)]
        0 <= a < s1.len() && 0 <= b < s1.len() && a != b implies !(has_event_id(
        s1[a].spec_events(),
        eid,
    ) && has_event_id(s1[b].spec_events(), eid)) by {
        if has_event_id(s1[a].spec_events(), eid) && has_event_id(s1[b].spec_events(), eid) {
            if a == ti {
                assert(s1[b] == s0[b]);
                assert(has_event_id(s0[ti].spec_events(), eid) || eid == fresh_id);
                if eid == fresh_id {
                    assert(!has_event_id(s0[b].spec_events(), fresh_id));
                } else {
                    assert(has_event_id(s0[a].spec_events(), eid));
                }
            } else if b == ti {
                assert(s1[a] == s0[a]);
                assert(has_event_id(s0[ti].spec_events(), eid) || eid == fresh_id);
                if eid == fresh_id {
                    assert(!has_event_id(s0[a].spec_events(), fresh_id));
                } else {
                    assert(has_event_id(s0[b].spec_events(), eid));
                }
            } else {
                assert(s1[a] == s0[a] && s1[b] == s0[b]);
            }
        }
    }
}

/// In a well-formed song any owned event with a given identifier is the one
/// [`Song::spec_song_event`] names: identifiers pin events down.
pub proof fn lemma_contained_event_with_id(s: Song, id: Id, e: Event)
    requires
        s.wf(),
        s.song_contains_event(e),
        e.spec_id() == id,
    ensures
        s.song_has_event(id),
        s.spec_get_event(id) == Some(e),
{
    let tracks = s.spec_tracks();
    let i = choose|i: int| 0 <= i < tracks.len() && (#[trigger] tracks[i]).spec_events().contains(e);
    let je = choose|je: int|
        0 <= je < tracks[i].spec_events().len() && tracks[i].spec_events()[je] == e;
    assert(has_event_id(tracks[i].spec_events(), id)) by {
        assert(tracks[i].spec_events()[je].spec_id() == id);
    }
    assert(s.song_has_event(id));
    let ci = choose|ci: int|
        0 <= ci < tracks.len() && has_event_id((#[trigger] tracks[ci]).spec_events(), id);
    assert(ci == i) by {
        if ci != i {
            assert(!(has_event_id(tracks[ci].spec_events(), id) && has_event_id(
                tracks[i].spec_events(),
                id,
            )));
        }
    }
    let sq = tracks[i].spec_events();
    let cj = choose|cj: int| 0 <= cj < sq.len() && (#[trigger] sq[cj]).spec_id() == id;
    assert(cj == je) by {
        if cj != je {
            assert(sq[cj].spec_id() != sq[je].spec_id());
        }
    }
    assert(event_with_id(sq, id) == e);
}

} // verus!
