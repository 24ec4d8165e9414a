//! A track: one lane of the song, owning a disjoint subset of its events.
//!
//! A track holds its events as a sequence in non-decreasing start-tick order —
//! the materialized form of a start-tick index — so the whole-track view is
//! already sorted and range queries walk it once in time order. Events that
//! share a start tick stand in insertion order, a deterministic tie-break this
//! library guarantees on purpose.

use crate::error::StoreError;
use crate::event::Event;
use crate::id::Id;
use crate::order::{
    all_of_track, ends_in_domain, has_event_id, in_range, lemma_range_events_push, range_events,
    sorted_by_ticks, unique_event_ids,
};
use crate::ticks::Ticks;
use vstd::prelude::*;

verus! {

/// One lane of the song. Its identifier is immutable; every owned event's
/// `track_id` names it.
#[derive(Debug)]
pub struct Track {
    id: Id,
    events: Vec<Event>,
}

impl Track {
    pub closed spec fn spec_id(self) -> Id {
        self.id
    }

    /// The owned events, in the order they are held.
    pub closed spec fn spec_events(self) -> Seq<Event> {
        self.events@
    }

    /// The track's invariant: events stand in non-decreasing start-tick
    /// order, carry pairwise distinct identifiers, all name this track as
    /// their owner, and end inside the tick domain.
    pub open spec fn wf(self) -> bool {
        &&& sorted_by_ticks(self.spec_events())
        &&& unique_event_ids(self.spec_events())
        &&& all_of_track(self.spec_events(), self.spec_id())
        &&& ends_in_domain(self.spec_events())
    }

    pub fn get_id(&self) -> (r: Id)
        ensures
            r == self.spec_id(),
    {
        self.id
    }

    /// A new track under the given identifier, holding exactly the given
    /// events (or none). The events must already be a plausible content for
    /// one track: distinct ids, owned by this track, ends in the tick domain.
    pub fn new(id: Id, events: Option<Vec<Event>>) -> (r: Track)
        requires
            events matches Some(v) ==> unique_event_ids(v@) && all_of_track(v@, id)
                && ends_in_domain(v@),
        ensures
            r.wf(),
            r.spec_id() == id,
            r.spec_events().to_multiset() == match events {
                Some(v) => v@.to_multiset(),
                None => Seq::<Event>::empty().to_multiset(),
            },
            forall|eid: Id|
                has_event_id(r.spec_events(), eid) <==> match events {
                    Some(v) => has_event_id(v@, eid),
                    None => false,
                },
    {
        broadcast use vstd::seq_lib::group_to_multiset_ensures;

        let mut track = Track { id, events: Vec::new() };
        match events {
            None => track,
            Some(v) => {
                let n = v.len();
                let mut i: usize = 0;
                while i < n
                    invariant
                        n == v@.len(),
                        0 <= i <= n,
                        track.wf(),
                        track.spec_id() == id,
                        unique_event_ids(v@),
                        all_of_track(v@, id),
                        ends_in_domain(v@),
                        track.spec_events().to_multiset() == v@.take(i as int).to_multiset(),
                        forall|eid: Id|
                            has_event_id(track.spec_events(), eid) <==> has_event_id(
                                v@.take(i as int),
                                eid,
                            ),
                    decreases n - i,
                {
                    let e = v[i];
                    proof {
                        assert(v@[i as int].spec_end() <= u32::MAX);
                        assert(v@[i as int].spec_track_id() == id);
                        assert(!has_event_id(track.spec_events(), e.spec_id())) by {
                            if has_event_id(v@.take(i as int), e.spec_id()) {
                                let j = choose|j: int|
                                    0 <= j < v@.take(i as int).len() && v@.take(i as int)[j].spec_id()
                                        == e.spec_id();
                                assert(v@[j].spec_id() == v@[i as int].spec_id());
                            }
                        }
                    }
                    track.add_event(e);
                    proof {
                        assert(v@.take(i as int + 1) =~= v@.take(i as int).push(v@[i as int]));
                        vstd::seq_lib::to_multiset_build(v@.take(i as int), e);
                        assert forall|eid: Id| has_event_id(v@.take(i as int + 1), eid) implies
                            has_event_id(track.spec_events(), eid) by {
                            let j = choose|j: int|
                                0 <= j < v@.take(i as int + 1).len() && (#[trigger] v@.take(
                                    i as int + 1,
                                )[j]).spec_id() == eid;
                            if j < i as int {
                                assert(v@.take(i as int)[j].spec_id() == eid);
                            }
                        }
                        assert forall|eid: Id| has_event_id(track.spec_events(), eid) implies
                            has_event_id(v@.take(i as int + 1), eid) by {
                            if has_event_id(v@.take(i as int), eid) {
                                let j = choose|j: int|
                                    0 <= j < v@.take(i as int).len() && (#[trigger] v@.take(
                                        i as int,
                                    )[j]).spec_id() == eid;
                                assert(v@.take(i as int + 1)[j].spec_id() == eid);
                            } else {
                                assert(eid == e.spec_id());
                                assert(v@.take(i as int + 1)[i as int].spec_id() == eid);
                            }
                        }
                    }
                    i = i + 1;
                }
                proof {
                    assert(v@.take(n as int) =~= v@);
                }
                track
            },
        }
    }

    /// Looks one event up by id; total, answers absence with `None`.
    pub fn get_event(&self, event_id: &Id) -> (r: Option<Event>)
        ensures
            r is Some <==> has_event_id(self.spec_events(), *event_id),
            r matches Some(e) ==> e.spec_id() == *event_id && self.spec_events().contains(e),
    {
        let n = self.events.len();
        let mut i: usize = 0;
        while i < n
            invariant
                n == self.spec_events().len(),
                0 <= i <= n,
                forall|j: int| 0 <= j < i ==> (#[trigger] self.spec_events()[j]).spec_id() != *event_id,
            decreases n - i,
        {
            if self.events[i].get_id() == *event_id {
                return Some(self.events[i]);
            }
            i = i + 1;
        }
        None
    }

    /// The whole track in non-decreasing start-tick order, with one entry for
    /// every owned event; events sharing a tick keep their insertion order.
    pub fn get_events(&self) -> (r: Vec<Event>)
        ensures
            r@ == self.spec_events(),
            self.wf() ==> sorted_by_ticks(r@),
    {
        let n = self.events.len();
        let mut out: Vec<Event> = Vec::new();
        let mut i: usize = 0;
        while i < n
            invariant
                n == self.spec_events().len(),
                0 <= i <= n,
                out@ == self.spec_events().take(i as int),
            decreases n - i,
        {
            out.push(self.events[i]);
            proof {
                assert(self.spec_events().take(i as int + 1) =~= self.spec_events().take(
                    i as int,
                ).push(self.spec_events()[i as int]));
            }
            i = i + 1;
        }
        proof {
            assert(self.spec_events().take(n as int) =~= self.spec_events());
        }
        out
    }

    /// Answers a range query over the half-open window `[start_ticks,
    /// end_ticks)`: the owned events that start inside the window and — when
    /// `within_duration` is set — those that started earlier but are still
    /// sounding at `start_ticks`, all in non-decreasing start-tick order.
    pub fn get_events_in_ticks_range(
        &self,
        start_ticks: Ticks,
        end_ticks: Ticks,
        within_duration: bool,
    ) -> (r: Vec<Event>)
        requires
            self.wf(),
        ensures
            r@ == range_events(
                self.spec_events(),
                start_ticks@ as int,
                end_ticks@ as int,
                within_duration,
            ),
            sorted_by_ticks(r@),
    {
        let ghost s = self.spec_events();
        let ghost lo = start_ticks@ as int;
        let ghost hi = end_ticks@ as int;
        let start = start_ticks.as_u32();
        let end = end_ticks.as_u32();
        let n = self.events.len();
        let mut out: Vec<Event> = Vec::new();
        let mut i: usize = 0;
        while i < n
            invariant
                n == s.len(),
                s == self.spec_events(),
                self.wf(),
                lo == start_ticks@ as int,
                hi == end_ticks@ as int,
                start == start_ticks@,
                end == end_ticks@,
                0 <= i <= n,
                out@ == range_events(s.take(i as int), lo, hi, within_duration),
            decreases n - i,
        {
            let e = self.events[i];
            let t = e.get_ticks().as_u32();
            let selected: bool = if start <= t && t < end {
                true
            } else if within_duration && t < start {
                match e.get_duration() {
                    Some(d) => {
                        proof {
                            assert(s[i as int].spec_end() <= u32::MAX);
                        }
                        t + d.as_u32() > start
                    },
                    None => false,
                }
            } else {
                false
            };
            proof {
                assert(selected == in_range(s[i as int], lo, hi, within_duration));
                assert(s.take(i as int + 1) =~= s.take(i as int).push(s[i as int]));
                lemma_range_events_push(s.take(i as int), lo, hi, within_duration, s[i as int]);
            }
            if selected {
                out.push(e);
            }
            i = i + 1;
        }
        proof {
            assert(s.take(n as int) =~= s);
            crate::order::lemma_range_events_sorted(s, lo, hi, within_duration);
        }
        out
    }

    /// Inserts a freshly built event the caller guarantees is owned by this
    /// track, carries an unused identifier, and ends inside the tick domain.
    /// The event takes the place its start tick asks for: after every event
    /// with an equal or earlier start, before every later one.
    pub fn add_event(&mut self, event: Event)
        requires
            old(self).wf(),
            event.spec_track_id() == old(self).spec_id(),
            !has_event_id(old(self).spec_events(), event.spec_id()),
            event.spec_end() <= u32::MAX,
        ensures
            final(self).wf(),
            final(self).spec_id() == old(self).spec_id(),
            final(self).spec_events().len() == old(self).spec_events().len() + 1,
            final(self).spec_events().to_multiset() == old(self).spec_events().to_multiset().insert(
                event,
            ),
            forall|eid: Id|
                has_event_id(final(self).spec_events(), eid) <==> (has_event_id(
                    old(self).spec_events(),
                    eid,
                ) || eid == event.spec_id()),
            exists|k: int|
                0 <= k <= old(self).spec_events().len() && final(self).spec_events() == old(self).spec_events().insert(k, event) && (forall|j: int|
                    0 <= j < k ==> (#[trigger] old(self).spec_events()[j]).spec_ticks()
                        <= event.spec_ticks()) && (forall|j: int|
                    k <= j < old(self).spec_events().len() ==> (#[trigger] old(self).spec_events()[j]).spec_ticks() > event.spec_ticks()),
    {
        let ghost s = self.events@;
        let n = self.events.len();
        let t = event.get_ticks().as_u32();
        let mut i: usize = 0;
        loop
            invariant
                n == s.len(),
                s == self.events@,
                self.wf(),
                t as int == event.spec_ticks(),
                0 <= i <= n,
                forall|j: int| 0 <= j < i ==> (#[trigger] s[j]).spec_ticks() <= event.spec_ticks(),
            ensures
                0 <= i <= n,
                s == self.events@,
                forall|j: int| 0 <= j < i ==> (#[trigger] s[j]).spec_ticks() <= event.spec_ticks(),
                forall|j: int| i <= j < n ==> (#[trigger] s[j]).spec_ticks() > event.spec_ticks(),
            decreases n - i,
        {
            if i >= n {
                break ;
            }
            if self.events[i].get_ticks().as_u32() > t {
                proof {
                    assert forall|j: int| i <= j < n implies (#[trigger] s[j]).spec_ticks()
                        > event.spec_ticks() by {
                        assert(s[i as int].spec_ticks() <= s[j].spec_ticks());
                    }
                }
                break ;
            }
            i = i + 1;
        }
        let ghost k = i as int;
        self.events.insert(i, event);
        proof {
            let u = self.events@;
            assert(u == s.insert(k, event));
            s.insert_ensures(k, event);
            vstd::seq_lib::to_multiset_insert(s, k, event);
            assert(sorted_by_ticks(u)) by {
                assert forall|a: int, b: int|
                    #![trigger u[a].spec_ticks(), u[b].spec_ticks()]
                    0 <= a < b < u.len() implies u[a].spec_ticks() <= u[b].spec_ticks() by {
                    if a < k && b < k {
                        assert(u[a] == s[a] && u[b] == s[b]);
                    } else if a < k && b == k {
                        assert(u[a] == s[a]);
                    } else if a < k && b > k {
                        assert(u[a] == s[a] && u[b] == s[b - 1]);
                        if b - 1 < k {
                        } else {
                            assert(s[b - 1].spec_ticks() > event.spec_ticks());
                        }
                    } else if a == k && b > k {
                        assert(u[b] == s[b - 1]);
                        assert(s[b - 1].spec_ticks() > event.spec_ticks());
                    } else {
                        assert(u[a] == s[a - 1] && u[b] == s[b - 1]);
                    }
                }
            }
            assert(unique_event_ids(u)) by {
                assert forall|a: int, b: int|
                    #![trigger u[a].spec_id(), u[b].spec_id()]
                    0 <= a < b < u.len() implies u[a].spec_id() != u[b].spec_id() by {
                    if a != k && b != k {
                        let sa = if a < k { a } else { a - 1 };
                        let sb = if b < k { b } else { b - 1 };
                        assert(u[a] == s[sa] && u[b] == s[sb]);
                    } else if a == k {
                        assert(u[b] == s[b - 1]);
                        assert(!has_event_id(s, event.spec_id()));
                        assert(s[b - 1].spec_id() != event.spec_id());
                    } else {
                        assert(u[a] == s[a]);
                        assert(s[a].spec_id() != event.spec_id());
                    }
                }
            }
            assert(all_of_track(u, self.id)) by {
                assert forall|j: int| 0 <= j < u.len() implies (#[trigger] u[j]).spec_track_id()
                    == self.id by {
                    if j < k {
                        assert(u[j] == s[j]);
                    } else if j == k {
                    } else {
                        assert(u[j] == s[j - 1]);
                    }
                }
            }
            assert(ends_in_domain(u)) by {
                assert forall|j: int| 0 <= j < u.len() implies (#[trigger] u[j]).spec_end()
                    <= u32::MAX by {
                    if j < k {
                        assert(u[j] == s[j]);
                    } else if j == k {
                    } else {
                        assert(u[j] == s[j - 1]);
                    }
                }
            }
            assert forall|eid: Id| has_event_id(u, eid) implies (has_event_id(s, eid) || eid
                == event.spec_id()) by {
                let j = choose|j: int| 0 <= j < u.len() && u[j].spec_id() == eid;
                if j < k {
                    assert(u[j] == s[j]);
                } else if j > k {
                    assert(u[j] == s[j - 1]);
                }
            }
            assert forall|eid: Id| (has_event_id(s, eid) || eid == event.spec_id()) implies
                has_event_id(u, eid) by {
                if has_event_id(s, eid) {
                    let j = choose|j: int| 0 <= j < s.len() && s[j].spec_id() == eid;
                    if j < k {
                        assert(u[j] == s[j]);
                    } else {
                        assert(u[j + 1] == s[j]);
                    }
                } else {
                    assert(u[k].spec_id() == eid);
                }
            }
        }
    }

    /// Removes the named event from the track; the other events keep their
    /// order. Absence is answered with `NotFound` and the track unchanged.
    pub fn remove_event(&mut self, event_id: &Id) -> (r: Result<Event, StoreError>)
        requires
            old(self).wf(),
        ensures
            r is Ok <==> has_event_id(old(self).spec_events(), *event_id),
            r matches Err(e) ==> e == StoreError::NotFound && *final(self) == *old(self),
            r matches Ok(ev) ==> {
                &&& ev.spec_id() == *event_id
                &&& final(self).wf()
                &&& final(self).spec_id() == old(self).spec_id()
                &&& final(self).spec_events().len() == old(self).spec_events().len() - 1
                &&& exists|k: int|
                    0 <= k < old(self).spec_events().len() && old(self).spec_events()[k] == ev
                        && final(self).spec_events() == old(self).spec_events().remove(k)
                &&& final(self).spec_events().to_multiset() == old(self).spec_events().to_multiset().remove(ev)
                &&& !has_event_id(final(self).spec_events(), *event_id)
                &&& forall|eid: Id|
                    eid != *event_id ==> (has_event_id(final(self).spec_events(), eid)
                        <==> has_event_id(old(self).spec_events(), eid))
            },
    {
        broadcast use vstd::seq_lib::group_to_multiset_ensures;

        let ghost s = self.events@;
        let n = self.events.len();
        let mut i: usize = 0;
        while i < n
            invariant
                n == s.len(),
                s == old(self).spec_events(),
                *self == *old(self),
                self.wf(),
                0 <= i <= n,
                forall|j: int| 0 <= j < i ==> (#[trigger] s[j]).spec_id() != *event_id,
            decreases n - i,
        {
            if self.events[i].get_id() == *event_id {
                let ghost k = i as int;
                proof {
                    assert(s[k].spec_id() == *event_id);
                }
                let ev = self.events.remove(i);
                proof {
                    let u = self.events@;
                    assert(u == s.remove(k));
                    s.remove_ensures(k);
                    assert(s[k] == ev);
                    vstd::seq_lib::to_multiset_remove(s, k);
                    assert(sorted_by_ticks(u)) by {
                        assert forall|a: int, b: int|
                            #![trigger u[a].spec_ticks(), u[b].spec_ticks()]
                            0 <= a < b < u.len() implies u[a].spec_ticks() <= u[b].spec_ticks() by {
                            let sa = if a < k { a } else { a + 1 };
                            let sb = if b < k { b } else { b + 1 };
                            assert(u[a] == s[sa] && u[b] == s[sb]);
                        }
                    }
                    assert(unique_event_ids(u)) by {
                        assert forall|a: int, b: int|
                            #![trigger u[a].spec_id(), u[b].spec_id()]
                            0 <= a < b < u.len() implies u[a].spec_id() != u[b].spec_id() by {
                            let sa = if a < k { a } else { a + 1 };
                            let sb = if b < k { b } else { b + 1 };
                            assert(u[a] == s[sa] && u[b] == s[sb]);
                        }
                    }
                    assert(all_of_track(u, self.id) && ends_in_domain(u)) by {
                        assert forall|j: int| 0 <= j < u.len() implies (#[trigger] u[j]).spec_track_id()
                            == self.id && u[j].spec_end() <= u32::MAX by {
                            let sj = if j < k { j } else { j + 1 };
                            assert(u[j] == s[sj]);
                        }
                    }
                    assert(!has_event_id(u, *event_id)) by {
                        if has_event_id(u, *event_id) {
                            let j = choose|j: int| 0 <= j < u.len() && u[j].spec_id() == *event_id;
                            let sj = if j < k { j } else { j + 1 };
                            assert(u[j] == s[sj]);
                            assert(s[sj].spec_id() == s[k].spec_id());
                        }
                    }
                    assert forall|eid: Id| eid != *event_id implies (has_event_id(u, eid)
                        <==> has_event_id(s, eid)) by {
                        if has_event_id(u, eid) {
                            let j = choose|j: int| 0 <= j < u.len() && u[j].spec_id() == eid;
                            let sj = if j < k { j } else { j + 1 };
                            assert(u[j] == s[sj]);
                        }
                        if has_event_id(s, eid) {
                            let j = choose|j: int| 0 <= j < s.len() && s[j].spec_id() == eid;
                            if j < k {
                                assert(u[j] == s[j]);
                            } else if j > k {
                                assert(u[j - 1] == s[j]);
                            }
                        }
                    }
                }
                return Ok(ev);
            }
            i = i + 1;
        }
        Err(StoreError::NotFound)
    }
}

} // verus!
