//! The store's cross-operation guarantees, each stated and proved once over
//! the spec functions the operations' own contracts use.

use crate::event::{Event, EventInput, EventUpdater, spec_event_from_input};
use crate::id::Id;
use crate::note::Note;
use crate::order::{
    has_event_id, id_among, lemma_of_track_identity, lemma_of_track_membership,
    lemma_range_events_membership, of_track, sorted_by_ticks, unique_event_ids,
};
use crate::song::{
    Song, spec_add_event_post, spec_query_post, spec_remove_event_post, spec_remove_track_post,
    spec_update_event_post, spec_window,
};
use crate::track::Track;
use vstd::prelude::*;

verus! {

/// Law: whatever insertions and removals built a well-formed track, its
/// whole-track listing — which [`Track::get_events`] returns — stands in
/// non-decreasing start-tick order, with exactly one entry per owned event:
/// as many entries as owned events, no identifier twice.
pub proof fn law_sorted_events_shape(t: Track, listing: Seq<Event>)
    requires
        t.wf(),
        listing == t.spec_events(),
    ensures
        sorted_by_ticks(listing),
        listing.len() == t.spec_events().len(),
        unique_event_ids(listing),
{
}

/// Law: looking an event up right after it was stored answers exactly the
/// stored event — the input's timing and payload fields, under the
/// store-minted identifier.
pub proof fn law_add_then_get(s0: Song, s1: Song, input: EventInput, id: Id, ev: Event)
    requires
        s0.wf(),
        spec_add_event_post(s0, s1, input, id, ev),
    ensures
        s1.spec_get_event(id) == Some(ev),
        ev == spec_event_from_input(input, id),
        input matches EventInput::Note(ni) ==> ev == Event::Note(
            Note {
                id,
                ticks: ni.ticks,
                duration: ni.duration,
                velocity: ni.velocity,
                note_number: ni.note_number,
                track_id: ni.track_id,
            },
        ),
{
}

/// Law: an update preserves the identifier and every field absent from the
/// updater, and replaces exactly the fields the updater carries.
pub proof fn law_update_field_semantics(s0: Song, s1: Song, updater: EventUpdater, new_ev: Event)
    requires
        s0.wf(),
        spec_update_event_post(s0, s1, updater, new_ev),
    ensures
        new_ev.spec_id() == s0.spec_song_event(updater.spec_id()).spec_id(),
        ({
            let old_ev = s0.spec_song_event(updater.spec_id());
            match (old_ev, updater, new_ev) {
                (Event::Note(on), EventUpdater::Note(nu), Event::Note(rn)) => {
                    &&& rn.id == on.id
                    &&& rn.ticks == (if nu.ticks is Some {
                        nu.ticks->0
                    } else {
                        on.ticks
                    })
                    &&& rn.duration == (if nu.duration is Some {
                        nu.duration->0
                    } else {
                        on.duration
                    })
                    &&& rn.velocity == (if nu.velocity is Some {
                        nu.velocity->0
                    } else {
                        on.velocity
                    })
                    &&& rn.note_number == (if nu.note_number is Some {
                        nu.note_number->0
                    } else {
                        on.note_number
                    })
                    &&& rn.track_id == (if nu.track_id is Some {
                        nu.track_id->0
                    } else {
                        on.track_id
                    })
                },
            }
        }),
{
}

/// Law: every event a query answers is owned by the song it was asked of.
pub proof fn law_query_events_owned(
    s: Song,
    sel: Option<Seq<Id>>,
    w: Option<(int, int, bool)>,
    r: Seq<Event>,
    t: int,
)
    requires
        s.wf(),
        spec_query_post(s, sel, w, r),
        0 <= t < r.len(),
    ensures
        s.song_contains_event(r[t]),
        s.song_has_event(r[t].spec_id()),
{
    let tid = r[t].spec_track_id();
    assert(s.song_has_track(tid));
    let i = choose|i: int|
        0 <= i < s.spec_tracks().len() && (#[trigger] s.spec_tracks()[i]).spec_id() == tid;
    let slice = spec_window(s.spec_tracks()[i].spec_events(), w);
    assert(of_track(r, tid) == slice) by {
        match sel {
            None => {},
            Some(ids) => {
                assert(id_among(ids, tid));
                let j = choose|j: int| 0 <= j < ids.len() && ids[j] == tid;
            },
        }
    }
    lemma_of_track_membership(r, tid);
    assert(slice.contains(r[t]));
    assert(s.spec_tracks()[i].spec_events().contains(r[t])) by {
        match w {
            None => {},
            Some((lo, hi, within)) => {
                lemma_range_events_membership(s.spec_tracks()[i].spec_events(), lo, hi, within);
                let k = choose|k: int| 0 <= k < slice.len() && slice[k] == r[t];
            },
        }
    }
    assert(s.song_contains_event(r[t]));
    let je = choose|je: int|
        0 <= je < s.spec_tracks()[i].spec_events().len() && s.spec_tracks()[i].spec_events()[je]
            == r[t];
    assert(has_event_id(s.spec_tracks()[i].spec_events(), r[t].spec_id())) by {
        assert(s.spec_tracks()[i].spec_events()[je].spec_id() == r[t].spec_id());
    }
    assert(s.song_has_event(r[t].spec_id()));
}

/// Law: after an event is removed, looking its identifier up answers absence,
/// and the identifier appears in no subsequent range or unfiltered query
/// result.
pub proof fn law_removed_event_absent(
    s0: Song,
    s1: Song,
    event_id: Id,
    sel: Option<Seq<Id>>,
    w: Option<(int, int, bool)>,
    r: Seq<Event>,
)
    requires
        s0.wf(),
        spec_remove_event_post(s0, s1, event_id),
        spec_query_post(s1, sel, w, r),
    ensures
        s1.spec_get_event(event_id) is None,
        !has_event_id(r, event_id),
{
    assert(!has_event_id(r, event_id)) by {
        if has_event_id(r, event_id) {
            let t = choose|t: int| 0 <= t < r.len() && (#[trigger] r[t]).spec_id() == event_id;
            law_query_events_owned(s1, sel, w, r, t);
            assert(s1.song_has_event(event_id));
        }
    }
}

/// Law: removing a track removes every event it owned: afterwards each such
/// identifier answers absence and appears in no query result.
pub proof fn law_removed_track_events_absent(
    s0: Song,
    s1: Song,
    track_id: Id,
    event_id: Id,
    sel: Option<Seq<Id>>,
    w: Option<(int, int, bool)>,
    r: Seq<Event>,
)
    requires
        s0.wf(),
        s0.song_has_track(track_id),
        spec_remove_track_post(s0, s1, track_id),
        has_event_id(s0.spec_tracks()[s0.spec_track_at(track_id)].spec_events(), event_id),
        spec_query_post(s1, sel, w, r),
    ensures
        !s1.song_has_event(event_id),
        s1.spec_get_event(event_id) is None,
        !has_event_id(r, event_id),
{
    let tracks0 = s0.spec_tracks();
    let tracks1 = s1.spec_tracks();
    let owner = s0.spec_track_at(track_id);
    assert(0 <= owner < tracks0.len() && tracks0[owner].spec_id() == track_id);
    let k = choose|k: int|
        0 <= k < tracks0.len() && (#[trigger] tracks0[k]).spec_id() == track_id && tracks1
            == tracks0.remove(k);
    assert(k == owner) by {
        if k != owner {
            assert(tracks0[k].spec_id() != tracks0[owner].spec_id());
        }
    }
    tracks0.remove_ensures(k);
    assert(!s1.song_has_event(event_id)) by {
        if s1.song_has_event(event_id) {
            let a = choose|a: int|
                0 <= a < tracks1.len() && has_event_id(
                    (#[trigger] tracks1[a]).spec_events(),
                    event_id,
                );
            let sa = if a < k {
                a
            } else {
                a + 1
            };
            assert(tracks1[a] == tracks0[sa]);
            assert(!(has_event_id(tracks0[sa].spec_events(), event_id) && has_event_id(
                tracks0[k].spec_events(),
                event_id,
            )));
        }
    }
    assert(!has_event_id(r, event_id)) by {
        if has_event_id(r, event_id) {
            let t = choose|t: int| 0 <= t < r.len() && (#[trigger] r[t]).spec_id() == event_id;
            law_query_events_owned(s1, sel, w, r, t);
        }
    }
}

/// Law: a query filtered to one present track answers exactly the time-order
/// restriction of the unfiltered query to that track's events — a correctly
/// ordered subsequence of the whole-song result.
pub proof fn law_filtered_is_restriction(s: Song, track_id: Id, whole: Seq<Event>, narrowed: Seq<Event>)
    requires
        s.wf(),
        s.song_has_track(track_id),
        spec_query_post(s, None, None, whole),
        spec_query_post(s, Some(seq![track_id]), None, narrowed),
    ensures
        narrowed == of_track(whole, track_id),
        sorted_by_ticks(narrowed),
{
    let i = choose|i: int|
        0 <= i < s.spec_tracks().len() && (#[trigger] s.spec_tracks()[i]).spec_id() == track_id;
    let ids = seq![track_id];
    assert(ids[0] == track_id);
    assert(of_track(whole, track_id) == s.spec_tracks()[i].spec_events());
    assert(of_track(narrowed, track_id) == s.spec_tracks()[i].spec_events());
    assert forall|t: int| 0 <= t < narrowed.len() implies (#[trigger] narrowed[t]).spec_track_id()
        == track_id by {
        assert(id_among(ids, narrowed[t].spec_track_id()));
        let j = choose|j: int| 0 <= j < ids.len() && ids[j] == narrowed[t].spec_track_id();
        assert(j == 0);
    }
    lemma_of_track_identity(narrowed, track_id);
}

} // verus!
