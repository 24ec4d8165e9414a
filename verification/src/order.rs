//! Spec-level vocabulary for sequences of events: time order, id uniqueness,
//! track ownership, and the range/overlap selection that queries answer.

use crate::event::Event;
use crate::id::Id;
use vstd::prelude::*;

verus! {

/// The events appear in non-decreasing start-tick order.
pub open spec fn sorted_by_ticks(s: Seq<Event>) -> bool {
    forall|i: int, j: int|
        #![trigger s[i].spec_ticks(), s[j].spec_ticks()]
        0 <= i < j < s.len() ==> s[i].spec_ticks() <= s[j].spec_ticks()
}

/// No two events share an identifier.
pub open spec fn unique_event_ids(s: Seq<Event>) -> bool {
    forall|i: int, j: int|
        #![trigger s[i].spec_id(), s[j].spec_id()]
        0 <= i < j < s.len() ==> s[i].spec_id() != s[j].spec_id()
}

/// Some event in the sequence carries this identifier.
pub open spec fn has_event_id(s: Seq<Event>, id: Id) -> bool {
    exists|i: int| 0 <= i < s.len() && (#[trigger] s[i]).spec_id() == id
}

/// Every event in the sequence belongs to this track.
pub open spec fn all_of_track(s: Seq<Event>, track_id: Id) -> bool {
    forall|i: int| 0 <= i < s.len() ==> (#[trigger] s[i]).spec_track_id() == track_id
}

/// Every event's end tick stays inside the tick domain.
pub open spec fn ends_in_domain(s: Seq<Event>) -> bool {
    forall|i: int| 0 <= i < s.len() ==> (#[trigger] s[i]).spec_end() <= u32::MAX
}

/// The event began strictly before `start` and is still sounding when the
/// window opens: its end tick lies strictly beyond `start` (an event ending
/// exactly at `start` is finished and excluded). Only events that carry a
/// duration can sustain.
pub open spec fn sustains_at(e: Event, start: int) -> bool {
    &&& e.spec_ticks() < start
    &&& e.spec_duration() is Some
    &&& e.spec_end() > start
}

/// Whether a range query over the half-open window `[start, end)` selects
/// the event: either it starts inside the window, or — when
/// `within_duration` is asked for — it is sustaining at `start`.
pub open spec fn in_range(e: Event, start: int, end: int, within_duration: bool) -> bool {
    (start <= e.spec_ticks() && e.spec_ticks() < end) || (within_duration && sustains_at(e, start))
}

/// The subsequence of events a range query selects, in the order they stand.
pub open spec fn range_events(s: Seq<Event>, start: int, end: int, within_duration: bool) -> Seq<
    Event,
>
    decreases s.len(),
{
    if s.len() == 0 {
        Seq::empty()
    } else {
        let rest = range_events(s.drop_last(), start, end, within_duration);
        if in_range(s.last(), start, end, within_duration) {
            rest.push(s.last())
        } else {
            rest
        }
    }
}

/// The subsequence of events owned by one track, in the order they stand.
pub open spec fn of_track(s: Seq<Event>, track_id: Id) -> Seq<Event>
    decreases s.len(),
{
    if s.len() == 0 {
        Seq::empty()
    } else {
        let rest = of_track(s.drop_last(), track_id);
        if s.last().spec_track_id() == track_id {
            rest.push(s.last())
        } else {
            rest
        }
    }
}

/// The identifier is one of those the sequence lists.
pub open spec fn id_among(ids: Seq<Id>, x: Id) -> bool {
    exists|j: int| 0 <= j < ids.len() && ids[j] == x
}

/// Where an identifier first stands in a listing of identifiers.
pub open spec fn id_index(ids: Seq<Id>, x: Id) -> int
    decreases ids.len(),
{
    if ids.len() == 0 {
        0
    } else if ids[0] == x {
        0
    } else {
        1 + id_index(ids.drop_first(), x)
    }
}

/// In a listing of distinct identifiers, each one stands exactly where it is
/// listed.
pub proof fn lemma_id_index_of(ids: Seq<Id>, j: int)
    requires
        0 <= j < ids.len(),
        forall|a: int, b: int| 0 <= a < b < ids.len() ==> ids[a] != ids[b],
    ensures
        id_index(ids, ids[j]) == j,
    decreases j,
{
    if j > 0 {
        assert(ids[0] != ids[j]);
        let rest = ids.drop_first();
        assert(rest[j - 1] == ids[j]);
        assert forall|a: int, b: int| 0 <= a < b < rest.len() implies rest[a] != rest[b] by {
            assert(rest[a] == ids[a + 1]);
            assert(rest[b] == ids[b + 1]);
        }
        lemma_id_index_of(rest, j - 1);
    }
}

/// The event of the sequence that carries this identifier, where one does.
pub open spec fn event_with_id(s: Seq<Event>, id: Id) -> Event {
    s[choose|j: int| 0 <= j < s.len() && (#[trigger] s[j]).spec_id() == id]
}

/// Appending one event extends a track restriction by that event exactly
/// when the event belongs to the track.
pub proof fn lemma_of_track_push(s: Seq<Event>, track_id: Id, e: Event)
    ensures
        of_track(s.push(e), track_id) == if e.spec_track_id() == track_id {
            of_track(s, track_id).push(e)
        } else {
            of_track(s, track_id)
        },
{
    assert(s.push(e).drop_last() =~= s);
    assert(s.push(e).last() == e);
}

/// Appending one event extends a range selection by that event exactly when
/// the window selects it.
pub proof fn lemma_range_events_push(
    s: Seq<Event>,
    start: int,
    end: int,
    within_duration: bool,
    e: Event,
)
    ensures
        range_events(s.push(e), start, end, within_duration) == if in_range(
            e,
            start,
            end,
            within_duration,
        ) {
            range_events(s, start, end, within_duration).push(e)
        } else {
            range_events(s, start, end, within_duration)
        },
{
    assert(s.push(e).drop_last() =~= s);
    assert(s.push(e).last() == e);
}

/// A track restriction holds exactly the events of the sequence that belong
/// to the track.
pub proof fn lemma_of_track_membership(s: Seq<Event>, track_id: Id)
    ensures
        forall|k: int|
            0 <= k < of_track(s, track_id).len() ==> s.contains(#[trigger] of_track(s, track_id)[k])
                && of_track(s, track_id)[k].spec_track_id() == track_id,
        forall|i: int|
            0 <= i < s.len() && (#[trigger] s[i]).spec_track_id() == track_id ==> of_track(
                s,
                track_id,
            ).contains(s[i]),
        of_track(s, track_id).len() <= s.len(),
    decreases s.len(),
{
    broadcast use vstd::seq_lib::lemma_seq_contains_after_push;

    if s.len() > 0 {
        let prefix = s.drop_last();
        let rest = of_track(prefix, track_id);
        let out = of_track(s, track_id);
        lemma_of_track_membership(prefix, track_id);
        assert forall|k: int| 0 <= k < out.len() implies s.contains(#[trigger] out[k])
            && out[k].spec_track_id() == track_id by {
            if k < rest.len() {
                assert(prefix.contains(rest[k]));
                let m = choose|m: int| 0 <= m < prefix.len() && prefix[m] == rest[k];
                assert(s[m] == rest[k]);
                assert(out[k] == rest[k]);
            } else {
                assert(out[k] == s.last());
                assert(s[s.len() - 1] == s.last());
            }
        }
        assert forall|i: int|
            0 <= i < s.len() && (#[trigger] s[i]).spec_track_id() == track_id implies out.contains(
            s[i],
        ) by {
            if i < s.len() - 1 {
                assert(prefix[i] == s[i]);
                assert(rest.contains(s[i]));
            } else {
                assert(out.last() == s.last());
                assert(out[out.len() - 1] == s[i]);
            }
        }
    }
}

/// A range selection holds exactly the events of the sequence that the
/// window selects.
pub proof fn lemma_range_events_membership(
    s: Seq<Event>,
    start: int,
    end: int,
    within_duration: bool,
)
    ensures
        forall|k: int|
            0 <= k < range_events(s, start, end, within_duration).len() ==> s.contains(
                #[trigger] range_events(s, start, end, within_duration)[k],
            ) && in_range(
                range_events(s, start, end, within_duration)[k],
                start,
                end,
                within_duration,
            ),
        forall|i: int|
            0 <= i < s.len() && in_range(#[trigger] s[i], start, end, within_duration)
                ==> range_events(s, start, end, within_duration).contains(s[i]),
        range_events(s, start, end, within_duration).len() <= s.len(),
    decreases s.len(),
{
    broadcast use vstd::seq_lib::lemma_seq_contains_after_push;

    if s.len() > 0 {
        let prefix = s.drop_last();
        let rest = range_events(prefix, start, end, within_duration);
        let out = range_events(s, start, end, within_duration);
        lemma_range_events_membership(prefix, start, end, within_duration);
        assert forall|k: int| 0 <= k < out.len() implies s.contains(#[trigger] out[k]) && in_range(
            out[k],
            start,
            end,
            within_duration,
        ) by {
            if k < rest.len() {
                assert(prefix.contains(rest[k]));
                let m = choose|m: int| 0 <= m < prefix.len() && prefix[m] == rest[k];
                assert(s[m] == rest[k]);
                assert(out[k] == rest[k]);
            } else {
                assert(out[k] == s.last());
                assert(s[s.len() - 1] == s.last());
            }
        }
        assert forall|i: int|
            0 <= i < s.len() && in_range(
                #[trigger] s[i],
                start,
                end,
                within_duration,
            ) implies out.contains(s[i]) by {
            if i < s.len() - 1 {
                assert(prefix[i] == s[i]);
                assert(rest.contains(s[i]));
            } else {
                assert(out.last() == s.last());
                assert(out[out.len() - 1] == s[i]);
            }
        }
    }
}

/// Selecting over a window keeps a sequence's time order.
pub proof fn lemma_range_events_sorted(s: Seq<Event>, start: int, end: int, within_duration: bool)
    requires
        sorted_by_ticks(s),
    ensures
        sorted_by_ticks(range_events(s, start, end, within_duration)),
    decreases s.len(),
{
    if s.len() > 0 {
        let prefix = s.drop_last();
        let rest = range_events(prefix, start, end, within_duration);
        let out = range_events(s, start, end, within_duration);
        assert(sorted_by_ticks(prefix)) by {
            assert forall|i: int, j: int|
                #![trigger prefix[i].spec_ticks(), prefix[j].spec_ticks()]
                0 <= i < j < prefix.len() implies prefix[i].spec_ticks()
                <= prefix[j].spec_ticks() by {
                assert(prefix[i] == s[i]);
                assert(prefix[j] == s[j]);
            }
        }
        lemma_range_events_sorted(prefix, start, end, within_duration);
        if in_range(s.last(), start, end, within_duration) {
            lemma_range_events_membership(prefix, start, end, within_duration);
            assert forall|i: int, j: int|
                #![trigger out[i].spec_ticks(), out[j].spec_ticks()]
                0 <= i < j < out.len() implies out[i].spec_ticks() <= out[j].spec_ticks() by {
                if j < out.len() - 1 {
                    assert(out[i] == rest[i]);
                    assert(out[j] == rest[j]);
                } else {
                    assert(out[j] == s.last());
                    if i < rest.len() {
                        assert(out[i] == rest[i]);
                        assert(prefix.contains(rest[i]));
                        let m = choose|m: int| 0 <= m < prefix.len() && prefix[m] == rest[i];
                        assert(s[m] == rest[i]);
                        assert(s[m].spec_ticks() <= s[s.len() - 1].spec_ticks());
                        assert(s.last() == s[s.len() - 1]);
                    }
                }
            }
        }
    }
}

/// Selecting over a window keeps every event with its owning track.
pub proof fn lemma_range_events_of_track(
    s: Seq<Event>,
    track_id: Id,
    start: int,
    end: int,
    within_duration: bool,
)
    requires
        all_of_track(s, track_id),
    ensures
        all_of_track(range_events(s, start, end, within_duration), track_id),
{
    let out = range_events(s, start, end, within_duration);
    lemma_range_events_membership(s, start, end, within_duration);
    assert forall|k: int| 0 <= k < out.len() implies (#[trigger] out[k]).spec_track_id()
        == track_id by {
        assert(s.contains(out[k]));
        let m = choose|m: int| 0 <= m < s.len() && s[m] == out[k];
        assert(s[m].spec_track_id() == track_id);
    }
}

/// Restricting a sequence to a track it wholly belongs to changes nothing.
pub proof fn lemma_of_track_identity(s: Seq<Event>, track_id: Id)
    requires
        all_of_track(s, track_id),
    ensures
        of_track(s, track_id) == s,
    decreases s.len(),
{
    if s.len() > 0 {
        let prefix = s.drop_last();
        assert(all_of_track(prefix, track_id)) by {
            assert forall|i: int| 0 <= i < prefix.len() implies (#[trigger] prefix[i]).spec_track_id()
                == track_id by {
                assert(prefix[i] == s[i]);
            }
        }
        lemma_of_track_identity(prefix, track_id);
        assert(s[s.len() - 1].spec_track_id() == track_id);
        assert(of_track(s, track_id) =~= s);
    }
}

/// Inserting an event anywhere adds exactly that event value to what the
/// sequence holds.
pub proof fn lemma_insert_contains(s: Seq<Event>, k: int, e: Event)
    requires
        0 <= k <= s.len(),
    ensures
        forall|x: Event| s.insert(k, e).contains(x) <==> (s.contains(x) || x == e),
{
    s.insert_ensures(k, e);
    let t = s.insert(k, e);
    assert forall|x: Event| t.contains(x) implies (s.contains(x) || x == e) by {
        let j = choose|j: int| 0 <= j < t.len() && t[j] == x;
        if j < k {
            assert(s[j] == x);
        } else if j > k {
            assert(s[j - 1] == x);
        }
    }
    assert forall|x: Event| (s.contains(x) || x == e) implies t.contains(x) by {
        if s.contains(x) {
            let j = choose|j: int| 0 <= j < s.len() && s[j] == x;
            if j < k {
                assert(t[j] == x);
            } else {
                assert(t[j + 1] == x);
            }
        } else {
            assert(t[k] == x);
        }
    }
}

/// Removing the event at one index takes exactly that event value out of a
/// sequence whose events carry distinct identifiers.
pub proof fn lemma_remove_contains(s: Seq<Event>, k: int)
    requires
        0 <= k < s.len(),
        unique_event_ids(s),
    ensures
        forall|x: Event| s.remove(k).contains(x) <==> (s.contains(x) && x != s[k]),
{
    s.remove_ensures(k);
    let t = s.remove(k);
    assert forall|x: Event| t.contains(x) implies (s.contains(x) && x != s[k]) by {
        let j = choose|j: int| 0 <= j < t.len() && t[j] == x;
        let sj = if j < k {
            j
        } else {
            j + 1
        };
        assert(s[sj] == x);
        assert(x != s[k]) by {
            if x == s[k] {
                assert(s[sj].spec_id() == s[k].spec_id());
            }
        }
    }
    assert forall|x: Event| (s.contains(x) && x != s[k]) implies t.contains(x) by {
        let j = choose|j: int| 0 <= j < s.len() && s[j] == x;
        if j < k {
            assert(t[j] == x);
        } else {
            assert(t[j - 1] == x);
        }
    }
}

} // verus!
