//! Properties of the filter that hold across all inputs and sequences of calls, stated
//! over the model that the filter's contracts use.
use vstd::prelude::*;

use crate::entry::{TimeToLive, TimestampedMessage};
use crate::model::{
    can_count, holds, index_of, is_live, lemma_filter_within, lemma_live_can_count,
    lemma_live_well_ordered,
    lemma_recorded_well_ordered, live_at, prior_sightings, recorded, well_ordered,
};

verus! {

/// After an insertion a filter with a capacity holds at most that many messages.
pub proof fn lemma_insert_within_capacity<M>(
    s: Seq<TimestampedMessage<M>>,
    clock: u64,
    capacity: Option<usize>,
    ttl: Option<TimeToLive>,
    m: M,
    now: u64,
)
    requires
        well_ordered(s, clock, capacity),
        clock <= now,
    ensures
        capacity matches Some(c) ==> recorded(live_at(s, now, ttl), m, now, capacity).len() <= c,
{
    let l = live_at(s, now, ttl);
    lemma_live_well_ordered(s, clock, capacity, now, ttl);
    if holds(l, m) {
        assert(recorded(l, m, now, capacity).len() == l.len());
    }
}

/// A message whose every entry is older than the time to live at `now` is no longer
/// counted: a query finds it absent, and an insertion reports it as never seen.
pub proof fn lemma_expired_not_counted<M>(s: Seq<TimestampedMessage<M>>, ttl: TimeToLive, m: M, now: u64)
    requires
        forall|i: int| 0 <= i < s.len() && #[trigger] s[i].message == m ==> now - s[i].refreshed_at > ttl.nanos,
    ensures
        !holds(live_at(s, now, Some(ttl)), m),
        prior_sightings(live_at(s, now, Some(ttl)), m) == 0,
{
    let pred = |e: TimestampedMessage<M>| is_live(e, now, Some(ttl));
    let l = live_at(s, now, Some(ttl));
    lemma_filter_within(s, pred);
    broadcast use vstd::seq_lib::group_filter_ensures;
    if holds(l, m) {
        let i = choose|i: int| 0 <= i < l.len() && #[trigger] l[i].message == m;
        assert(pred(l[i]));
        assert(s.contains(l[i]));
        let j = choose|j: int| 0 <= j < s.len() && s[j] == l[i];
        assert(s[j].message == m);
    }
}

/// Inserting a message that is held and live keeps the number of entries, raises its
/// count by one, reports the old count plus one, and moves it to the back with its age
/// restarted; the other entries keep their order.
pub proof fn lemma_reinsert_refreshes<M>(
    s: Seq<TimestampedMessage<M>>,
    clock: u64,
    capacity: Option<usize>,
    ttl: Option<TimeToLive>,
    m: M,
    now: u64,
)
    requires
        well_ordered(s, clock, capacity),
        clock <= now,
        can_count(s, m),
        holds(live_at(s, now, ttl), m),
    ensures
        ({
            let l = live_at(s, now, ttl);
            let i = index_of(l, m);
            let r = recorded(l, m, now, capacity);
            &&& 0 <= i < l.len()
            &&& r.len() == l.len()
            &&& r.last() == TimestampedMessage { message: m, refreshed_at: now, count: (l[i].count + 1) as usize }
            &&& l[i].count + 1 <= usize::MAX
            &&& r.drop_last() == l.remove(i)
            &&& prior_sightings(l, m) == l[i].count + 1
        }),
{
    let l = live_at(s, now, ttl);
    lemma_live_can_count(s, m, now, ttl);
    let i = index_of(l, m);
    assert(recorded(l, m, now, capacity).drop_last() =~= l.remove(i));
}

/// When a new message meets a full filter, the entry that leaves is the first in line,
/// which is the one inserted or refreshed longest ago; below capacity nothing leaves.
pub proof fn lemma_fifo_eviction<M>(
    s: Seq<TimestampedMessage<M>>,
    clock: u64,
    capacity: usize,
    ttl: Option<TimeToLive>,
    m: M,
    now: u64,
)
    requires
        well_ordered(s, clock, Some(capacity)),
        clock <= now,
        !holds(live_at(s, now, ttl), m),
    ensures
        ({
            let l = live_at(s, now, ttl);
            let p = l.push(TimestampedMessage { message: m, refreshed_at: now, count: 0 });
            &&& l.len() == capacity ==> recorded(l, m, now, Some(capacity)) == p.drop_first()
            &&& l.len() == capacity ==> forall|j: int| 0 <= j < p.len() ==> p[0].refreshed_at <= #[trigger] p[j].refreshed_at
            &&& l.len() < capacity ==> recorded(l, m, now, Some(capacity)) == p
        }),
{
    let l = live_at(s, now, ttl);
    lemma_live_well_ordered(s, clock, Some(capacity), now, ttl);
    let p = l.push(TimestampedMessage { message: m, refreshed_at: now, count: 0 });
    assert forall|j: int| 0 <= j < p.len() implies p[0].refreshed_at <= #[trigger] p[j].refreshed_at by {
        if l.len() > 0 && j < l.len() {
            assert(l[0].refreshed_at <= l[j].refreshed_at);
        }
    }
}

/// A fresh message is reported as seen zero times, then once, then twice, while it stays
/// live between the insertions and the capacity is not zero.
pub proof fn lemma_counts_sightings<M>(
    s: Seq<TimestampedMessage<M>>,
    clock: u64,
    capacity: Option<usize>,
    ttl: Option<TimeToLive>,
    m: M,
    t1: u64,
    t2: u64,
    t3: u64,
)
    requires
        well_ordered(s, clock, capacity),
        clock <= t1 <= t2 <= t3,
        !holds(live_at(s, t1, ttl), m),
        capacity != Some(0usize),
        ttl matches Some(t) ==> t2 - t1 <= t.nanos && t3 - t2 <= t.nanos,
    ensures
        ({
            let s1 = recorded(live_at(s, t1, ttl), m, t1, capacity);
            let s2 = recorded(live_at(s1, t2, ttl), m, t2, capacity);
            &&& prior_sightings(live_at(s, t1, ttl), m) == 0
            &&& prior_sightings(live_at(s1, t2, ttl), m) == 1
            &&& prior_sightings(live_at(s2, t3, ttl), m) == 2
        }),
{
    let l0 = live_at(s, t1, ttl);
    lemma_live_well_ordered(s, clock, capacity, t1, ttl);
    assert(can_count(l0, m));
    lemma_recorded_well_ordered(l0, m, t1, capacity);
    let s1 = recorded(l0, m, t1, capacity);
    let p = l0.push(TimestampedMessage { message: m, refreshed_at: t1, count: 0 });
    assert(s1.len() > 0 && s1.last() == p.last());
    lemma_newest_counted(s1, t1, capacity, ttl, t2);
    lemma_live_well_ordered(s1, t1, capacity, t2, ttl);
    let l1 = live_at(s1, t2, ttl);
    assert(can_count(l1, m));
    lemma_recorded_well_ordered(l1, m, t2, capacity);
    let s2 = recorded(l1, m, t2, capacity);
    lemma_newest_counted(s2, t2, capacity, ttl, t3);
}

/// The newest entry of well-ordered entries, while live, is found with its own count.
proof fn lemma_newest_counted<M>(
    s: Seq<TimestampedMessage<M>>,
    clock: u64,
    capacity: Option<usize>,
    ttl: Option<TimeToLive>,
    now: u64,
)
    requires
        well_ordered(s, clock, capacity),
        clock <= now,
        s.len() > 0,
        is_live(s.last(), now, ttl),
    ensures
        holds(live_at(s, now, ttl), s.last().message),
        prior_sightings(live_at(s, now, ttl), s.last().message) == s.last().count + 1,
{
    let pred = |e: TimestampedMessage<M>| is_live(e, now, ttl);
    let l = live_at(s, now, ttl);
    let m = s.last().message;
    s.lemma_filter_contains(pred, s.len() - 1);
    let k = choose|k: int| 0 <= k < l.len() && l[k] == s.last();
    assert(l[k].message == m);
    lemma_filter_within(s, pred);
    let i = index_of(l, m);
    assert(s.contains(l[i]));
    let j = choose|j: int| 0 <= j < s.len() && s[j] == l[i];
    assert(s[j].message == s[s.len() - 1].message);
}

} // verus!
