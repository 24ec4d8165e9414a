//! The multi-stream merge engine: combines several independently time-sorted
//! event sequences — one per selected track — into one globally time-sorted
//! sequence.
//!
//! The algorithm is a selection merge: each round scans the current head of
//! every input, emits the first head with the minimum start tick, and
//! advances that input. Ties across inputs therefore go to the earlier input,
//! and each input's own order is kept — the merged result restricted to one
//! track is exactly that track's input.

use crate::event::Event;
use crate::id::Id;
use crate::order::{
    all_of_track, id_among, id_index, lemma_id_index_of, lemma_of_track_push, of_track,
    sorted_by_ticks,
};
use vstd::prelude::*;

verus! {

/// How many events the first `n` inputs still hold beyond their consumed
/// prefixes.
pub open spec fn remaining_events(lists: Seq<Vec<Event>>, pos: Seq<usize>, n: int) -> int
    decreases n,
{
    if n <= 0 {
        0
    } else {
        remaining_events(lists, pos, n - 1) + (lists[n - 1]@.len() - pos[n - 1])
    }
}

proof fn lemma_remaining_events_nonneg(lists: Seq<Vec<Event>>, pos: Seq<usize>, n: int)
    requires
        n <= lists.len(),
        n <= pos.len(),
        forall|m: int| 0 <= m < n ==> pos[m] <= (#[trigger] lists[m])@.len(),
    ensures
        remaining_events(lists, pos, n) >= 0,
    decreases n,
{
    if n > 0 {
        lemma_remaining_events_nonneg(lists, pos, n - 1);
    }
}

proof fn lemma_remaining_events_step(
    lists: Seq<Vec<Event>>,
    pos0: Seq<usize>,
    pos1: Seq<usize>,
    j: int,
    n: int,
)
    requires
        0 <= j < n,
        n <= lists.len(),
        n <= pos0.len(),
        n <= pos1.len(),
        forall|m: int| 0 <= m < n && m != j ==> pos1[m] == pos0[m],
        pos1[j] == pos0[j] + 1,
    ensures
        remaining_events(lists, pos1, n) == remaining_events(lists, pos0, n) - 1,
    decreases n,
{
    if j == n - 1 {
        lemma_remaining_events_agree(lists, pos0, pos1, n - 1);
    } else {
        lemma_remaining_events_step(lists, pos0, pos1, j, n - 1);
    }
}

proof fn lemma_remaining_events_agree(
    lists: Seq<Vec<Event>>,
    pos0: Seq<usize>,
    pos1: Seq<usize>,
    n: int,
)
    requires
        n <= lists.len(),
        n <= pos0.len(),
        n <= pos1.len(),
        forall|m: int| 0 <= m < n ==> pos1[m] == pos0[m],
    ensures
        remaining_events(lists, pos1, n) == remaining_events(lists, pos0, n),
    decreases n,
{
    if n > 0 {
        lemma_remaining_events_agree(lists, pos0, pos1, n - 1);
    }
}

/// Merges the given per-track sequences, each sorted by start tick and wholly
/// owned by its own track, into one sequence sorted by start tick. Each
/// input's internal order is kept: the result restricted to input `m`'s track
/// is input `m` itself. Ties across inputs go to the earlier input.
#[verifier::rlimit(80)]
pub(crate) fn merge_events_each_track(lists: Vec<Vec<Event>>, Ghost(ids): Ghost<Seq<Id>>) -> (r:
    Vec<Event>)
    requires
        ids.len() == lists@.len(),
        forall|m: int| 0 <= m < lists@.len() ==> sorted_by_ticks((#[trigger] lists@[m])@),
        forall|m: int| 0 <= m < lists@.len() ==> all_of_track((#[trigger] lists@[m])@, ids[m]),
        forall|a: int, b: int| 0 <= a < b < ids.len() ==> ids[a] != ids[b],
    ensures
        sorted_by_ticks(r@),
        forall|m: int|
            0 <= m < lists@.len() ==> #[trigger] of_track(r@, ids[m]) == lists@[m]@,
        forall|t: int| 0 <= t < r@.len() ==> id_among(ids, (#[trigger] r@[t]).spec_track_id()),
        forall|t1: int, t2: int|
            #![trigger r@[t1], r@[t2]]
            0 <= t1 < t2 < r@.len() && r@[t1].spec_ticks() == r@[t2].spec_ticks() ==> id_index(
                ids,
                r@[t1].spec_track_id(),
            ) <= id_index(ids, r@[t2].spec_track_id()),
{
    let k = lists.len();
    let mut pos: Vec<usize> = Vec::new();
    let mut z: usize = 0;
    while z < k
        invariant
            0 <= z <= k,
            pos@.len() == z,
            forall|m: int| 0 <= m < z ==> pos@[m] == 0,
        decreases k - z,
    {
        pos.push(0);
        z = z + 1;
    }
    let mut out: Vec<Event> = Vec::new();
    proof {
        assert forall|m: int| 0 <= m < k implies #[trigger] of_track(out@, ids[m]) == lists@[m]@.take(
            pos@[m] as int,
        ) by {
            assert(lists@[m]@.take(0) =~= Seq::<Event>::empty());
            assert(of_track(out@, ids[m]) == Seq::<Event>::empty());
        }
        lemma_remaining_events_nonneg(lists@, pos@, k as int);
    }
    loop
        invariant
            k == lists@.len(),
            ids.len() == k,
            pos@.len() == k,
            forall|m: int| 0 <= m < k ==> sorted_by_ticks((#[trigger] lists@[m])@),
            forall|m: int| 0 <= m < k ==> all_of_track((#[trigger] lists@[m])@, ids[m]),
            forall|a: int, b: int| 0 <= a < b < ids.len() ==> ids[a] != ids[b],
            forall|m: int| 0 <= m < k ==> (#[trigger] pos@[m]) <= lists@[m]@.len(),
            sorted_by_ticks(out@),
            forall|m: int|
                0 <= m < k && (#[trigger] pos@[m]) < lists@[m]@.len() && out@.len() > 0
                    ==> out@.last().spec_ticks() <= lists@[m]@[pos@[m] as int].spec_ticks(),
            forall|m: int|
                0 <= m < k ==> #[trigger] of_track(out@, ids[m]) == lists@[m]@.take(pos@[m] as int),
            forall|t: int|
                0 <= t < out@.len() ==> id_among(ids, (#[trigger] out@[t]).spec_track_id()),
            forall|t1: int, t2: int|
                #![trigger out@[t1], out@[t2]]
                0 <= t1 < t2 < out@.len() && out@[t1].spec_ticks() == out@[t2].spec_ticks()
                    ==> id_index(ids, out@[t1].spec_track_id()) <= id_index(
                    ids,
                    out@[t2].spec_track_id(),
                ),
            forall|m: int, x: int|
                #![trigger pos@[m], out@[x]]
                0 <= m < k && pos@[m] < lists@[m]@.len() && 0 <= x < out@.len() && id_index(
                    ids,
                    out@[x].spec_track_id(),
                ) > m ==> lists@[m]@[pos@[m] as int].spec_ticks() > out@[x].spec_ticks(),
        ensures
            sorted_by_ticks(out@),
            pos@.len() == k,
            forall|m: int| 0 <= m < k ==> (#[trigger] pos@[m]) == lists@[m]@.len(),
            forall|m: int|
                0 <= m < k ==> #[trigger] of_track(out@, ids[m]) == lists@[m]@.take(pos@[m] as int),
            forall|t: int|
                0 <= t < out@.len() ==> id_among(ids, (#[trigger] out@[t]).spec_track_id()),
            forall|t1: int, t2: int|
                #![trigger out@[t1], out@[t2]]
                0 <= t1 < t2 < out@.len() && out@[t1].spec_ticks() == out@[t2].spec_ticks()
                    ==> id_index(ids, out@[t1].spec_track_id()) <= id_index(
                    ids,
                    out@[t2].spec_track_id(),
                ),
        decreases remaining_events(lists@, pos@, k as int),
    {
        let mut best: usize = k;
        let mut best_ticks: u32 = 0;
        let mut i: usize = 0;
        while i < k
            invariant
                k == lists@.len(),
                pos@.len() == k,
                forall|m: int| 0 <= m < k ==> (#[trigger] pos@[m]) <= lists@[m]@.len(),
                0 <= i <= k,
                best <= k,
                best == k ==> forall|m: int|
                    0 <= m < i ==> (#[trigger] pos@[m]) >= lists@[m]@.len(),
                best < k ==> best < i && pos@[best as int] < lists@[best as int]@.len()
                    && best_ticks as int == lists@[best as int]@[pos@[best as int] as int].spec_ticks(),
                best < k ==> forall|m: int|
                    0 <= m < i && (#[trigger] pos@[m]) < lists@[m]@.len() ==> best_ticks as int
                        <= lists@[m]@[pos@[m] as int].spec_ticks(),
                best < k ==> forall|m: int|
                    0 <= m < best && (#[trigger] pos@[m]) < lists@[m]@.len() ==> (
                    best_ticks as int) < lists@[m]@[pos@[m] as int].spec_ticks(),
            decreases k - i,
        {
            if pos[i] < lists[i].len() {
                let row = &lists[i];
                let t = row[pos[i]].get_ticks().as_u32();
                if best == k || t < best_ticks {
                    best = i;
                    best_ticks = t;
                }
            }
            i = i + 1;
        }
        if best == k {
            proof {
                assert forall|m: int| 0 <= m < k implies (#[trigger] pos@[m]) == lists@[m]@.len() by {
                    assert(pos@[m] >= lists@[m]@.len());
                }
            }
            break ;
        }
        let ghost prev_out = out@;
        let ghost prev_pos = pos@;
        let row = &lists[best];
        let p = pos[best];
        let row_len = row.len();
        proof {
            assert(p < row_len);
        }
        let e = row[p];
        out.push(e);
        pos[best] = p + 1;
        proof {
            let b = best as int;
            let pb = p as int;
            assert(e == lists@[b]@[pb]);
            assert(e.spec_track_id() == ids[b]);
            assert(e.spec_ticks() == best_ticks as int);
            assert(out@ == prev_out.push(e));
            // The new element keeps the output sorted: everything already
            // emitted is at or before the minimum remaining head.
            assert(sorted_by_ticks(out@)) by {
                assert forall|x: int, y: int|
                    #![trigger out@[x].spec_ticks(), out@[y].spec_ticks()]
                    0 <= x < y < out@.len() implies out@[x].spec_ticks() <= out@[y].spec_ticks() by {
                    if y < prev_out.len() {
                        assert(out@[x] == prev_out[x] && out@[y] == prev_out[y]);
                    } else {
                        assert(out@[y] == e);
                        assert(out@[x] == prev_out[x]);
                        if prev_out.len() > 0 {
                            assert(prev_out[x].spec_ticks() <= prev_out[prev_out.len()
                                - 1].spec_ticks());
                            assert(prev_out.last().spec_ticks() <= e.spec_ticks());
                        }
                    }
                }
            }
            // Each track restriction of the output tracks its consumed prefix.
            assert forall|m: int| 0 <= m < k implies #[trigger] of_track(out@, ids[m])
                == lists@[m]@.take(pos@[m] as int) by {
                lemma_of_track_push(prev_out, ids[m], e);
                if m == b {
                    assert(lists@[b]@.take(pb + 1) =~= lists@[b]@.take(pb).push(e));
                } else {
                    if m < b {
                        assert(ids[m] != ids[b]);
                    } else {
                        assert(ids[b] != ids[m]);
                    }
                    assert(pos@[m] == prev_pos[m]);
                }
            }
            // Every emitted event belongs to one of the selected tracks.
            assert forall|t: int| 0 <= t < out@.len() implies id_among(
                ids,
                (#[trigger] out@[t]).spec_track_id(),
            ) by {
                if t < prev_out.len() {
                    assert(out@[t] == prev_out[t]);
                    assert(id_among(ids, prev_out[t].spec_track_id()));
                } else {
                    assert(out@[t].spec_track_id() == ids[b]);
                }
            }
            // The emitted head stays at or before every remaining head.
            assert forall|m: int|
                0 <= m < k && (#[trigger] pos@[m]) < lists@[m]@.len() && out@.len()
                    > 0 implies out@.last().spec_ticks() <= lists@[m]@[pos@[m] as int].spec_ticks() by {
                assert(out@.last() == e);
                if m == b {
                    assert(lists@[b]@[pb].spec_ticks() <= lists@[b]@[pb + 1].spec_ticks());
                } else {
                    assert(prev_pos[m] == pos@[m]);
                }
            }
            lemma_id_index_of(ids, b);
            assert(id_index(ids, e.spec_track_id()) == b);
            // Ties go to the earlier input: nothing already emitted at this
            // very tick came from a later input, else that input's head — the
            // event just taken — would have stood strictly past the tick.
            assert forall|t1: int, t2: int|
                #![trigger out@[t1], out@[t2]]
                0 <= t1 < t2 < out@.len() && out@[t1].spec_ticks()
                    == out@[t2].spec_ticks() implies id_index(ids, out@[t1].spec_track_id())
                <= id_index(ids, out@[t2].spec_track_id()) by {
                if t2 < prev_out.len() {
                    assert(out@[t1] == prev_out[t1] && out@[t2] == prev_out[t2]);
                } else {
                    assert(out@[t2] == e);
                    assert(out@[t1] == prev_out[t1]);
                    if id_index(ids, prev_out[t1].spec_track_id()) > b {
                        assert(prev_pos[b] < lists@[b]@.len());
                        assert(lists@[b]@[prev_pos[b] as int].spec_ticks()
                            > prev_out[t1].spec_ticks());
                    }
                }
            }
            // The strict head bound holds again: earlier inputs' heads stay
            // strictly past the new element, and the advanced input's head
            // stays past everything behind its old head.
            assert forall|m: int, x: int|
                #![trigger pos@[m], out@[x]]
                0 <= m < k && pos@[m] < lists@[m]@.len() && 0 <= x < out@.len() && id_index(
                    ids,
                    out@[x].spec_track_id(),
                ) > m implies lists@[m]@[pos@[m] as int].spec_ticks() > out@[x].spec_ticks() by {
                if x < prev_out.len() {
                    assert(out@[x] == prev_out[x]);
                    if m == b {
                        assert(prev_pos[b] < lists@[b]@.len());
                        assert(lists@[b]@[prev_pos[b] as int].spec_ticks()
                            > prev_out[x].spec_ticks());
                        assert(lists@[b]@[prev_pos[b] as int].spec_ticks()
                            <= lists@[b]@[pos@[b] as int].spec_ticks());
                    } else {
                        assert(pos@[m] == prev_pos[m]);
                    }
                } else {
                    assert(out@[x] == e);
                    assert(m < b);
                    assert(pos@[m] == prev_pos[m]);
                    assert((best_ticks as int) < lists@[m]@[prev_pos[m] as int].spec_ticks());
                }
            }
            lemma_remaining_events_step(lists@, prev_pos, pos@, b, k as int);
            lemma_remaining_events_nonneg(lists@, pos@, k as int);
        }
    }
    proof {
        assert forall|m: int| 0 <= m < lists@.len() implies #[trigger] of_track(out@, ids[m])
            == lists@[m]@ by {
            assert(lists@[m]@.take(pos@[m] as int) =~= lists@[m]@);
        }
    }
    out
}

} // verus!
