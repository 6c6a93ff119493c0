//! The mathematical model of a filter's contents: a sequence of entries, oldest first.
use vstd::prelude::*;

use crate::entry::{TimeToLive, TimestampedMessage};

verus! {

/// Whether `e` is still within its time to live at clock reading `now`. Its age is the
/// time since its last insertion; it expires once that age exceeds the time to live.
pub open spec fn is_live<M>(e: TimestampedMessage<M>, now: u64, ttl: Option<TimeToLive>) -> bool {
    match ttl {
        Some(t) => now - e.refreshed_at <= t.nanos,
        None => true,
    }
}

/// The entries of `s` that are live at `now`, in their order.
pub open spec fn live_at<M>(s: Seq<TimestampedMessage<M>>, now: u64, ttl: Option<TimeToLive>) -> Seq<
    TimestampedMessage<M>,
> {
    s.filter(|e: TimestampedMessage<M>| is_live(e, now, ttl))
}

/// Whether some entry of `s` holds `m`.
pub open spec fn holds<M>(s: Seq<TimestampedMessage<M>>, m: M) -> bool {
    exists|i: int| 0 <= i < s.len() && #[trigger] s[i].message == m
}

/// The position of the entry of `s` that holds `m` (meaningful where `holds(s, m)`).
pub open spec fn index_of<M>(s: Seq<TimestampedMessage<M>>, m: M) -> int {
    choose|i: int| 0 <= i < s.len() && #[trigger] s[i].message == m
}

/// How many times `m` was inserted into `s` before: zero where no entry holds it.
pub open spec fn prior_sightings<M>(s: Seq<TimestampedMessage<M>>, m: M) -> int {
    if holds(s, m) {
        s[index_of(s, m)].count + 1
    } else {
        0
    }
}

/// `s` with its oldest entry dropped where it holds more than `capacity` entries.
pub open spec fn trimmed<M>(s: Seq<TimestampedMessage<M>>, capacity: Option<usize>) -> Seq<
    TimestampedMessage<M>,
> {
    match capacity {
        Some(c) => if s.len() > c {
            s.drop_first()
        } else {
            s
        },
        None => s,
    }
}

/// The entries after `m` is inserted at `now` into the live entries `s`: a message already
/// held moves to the back with its count raised by one; a new one is appended with count
/// zero, and then the oldest entry goes where the capacity is exceeded.
pub open spec fn recorded<M>(
    s: Seq<TimestampedMessage<M>>,
    m: M,
    now: u64,
    capacity: Option<usize>,
) -> Seq<TimestampedMessage<M>> {
    if holds(s, m) {
        let i = index_of(s, m);
        s.remove(i).push(TimestampedMessage { message: m, refreshed_at: now, count: (s[i].count + 1) as usize })
    } else {
        trimmed(s.push(TimestampedMessage { message: m, refreshed_at: now, count: 0 }), capacity)
    }
}

/// Whether every entry of `s` that holds `m` can count one more sighting.
pub open spec fn can_count<M>(s: Seq<TimestampedMessage<M>>, m: M) -> bool {
    forall|i: int| 0 <= i < s.len() && #[trigger] s[i].message == m ==> s[i].count < usize::MAX
}

/// The shape that a filter's entries keep: no message twice, ordered from the oldest
/// insertion to the newest, none newer than `clock`, and no more than `capacity` of them.
pub open spec fn well_ordered<M>(s: Seq<TimestampedMessage<M>>, clock: u64, capacity: Option<usize>) -> bool {
    &&& forall|i: int, j: int| 0 <= i < j < s.len() ==> #[trigger] s[i].message != #[trigger] s[j].message
    &&& forall|i: int, j: int| 0 <= i <= j < s.len() ==> #[trigger] s[i].refreshed_at <= #[trigger] s[j].refreshed_at
    &&& forall|i: int| 0 <= i < s.len() ==> #[trigger] s[i].refreshed_at <= clock
    &&& capacity matches Some(c) ==> s.len() <= c
}

/// Filtering a sequence whose first `k` elements fail `pred` and whose others pass it
/// leaves the elements from `k` on.
pub proof fn lemma_filter_suffix<A>(s: Seq<A>, pred: spec_fn(A) -> bool, k: int)
    requires
        0 <= k <= s.len(),
        forall|i: int| 0 <= i < k ==> !pred(#[trigger] s[i]),
        forall|i: int| k <= i < s.len() ==> pred(#[trigger] s[i]),
    ensures
        s.filter(pred) == s.subrange(k, s.len() as int),
    decreases s.len(),
{
    reveal(Seq::filter);
    if s.len() > 0 {
        let d = s.drop_last();
        if k < s.len() {
            lemma_filter_suffix(d, pred, k);
            assert(s.subrange(k, s.len() as int) =~= d.subrange(k, d.len() as int).push(s.last()));
        } else {
            lemma_filter_suffix(d, pred, k - 1);
            assert(s.subrange(k, s.len() as int) =~= Seq::<A>::empty());
        }
    } else {
        assert(s.subrange(k, s.len() as int) =~= s);
    }
}

/// Every element of a filtered sequence is an element of the sequence.
pub proof fn lemma_filter_within<A>(s: Seq<A>, pred: spec_fn(A) -> bool)
    ensures
        forall|i: int| 0 <= i < s.filter(pred).len() ==> s.contains(#[trigger] s.filter(pred)[i]),
    decreases s.len(),
{
    reveal(Seq::filter);
    if s.len() > 0 {
        let d = s.drop_last();
        lemma_filter_within(d, pred);
        assert forall|i: int| 0 <= i < s.filter(pred).len() implies s.contains(#[trigger] s.filter(pred)[i]) by {
            if i < d.filter(pred).len() {
                let j = choose|j: int| 0 <= j < d.len() && d[j] == d.filter(pred)[i];
                assert(s[j] == s.filter(pred)[i]);
            } else {
                assert(s[s.len() - 1] == s.filter(pred)[i]);
            }
        }
    }
}

/// A message that can count one more sighting still can once expired entries are gone.
pub proof fn lemma_live_can_count<M>(s: Seq<TimestampedMessage<M>>, m: M, now: u64, ttl: Option<TimeToLive>)
    requires
        can_count(s, m),
    ensures
        can_count(live_at(s, now, ttl), m),
{
    let pred = |e: TimestampedMessage<M>| is_live(e, now, ttl);
    lemma_filter_within(s, pred);
    let l = live_at(s, now, ttl);
    assert forall|i: int| 0 <= i < l.len() && #[trigger] l[i].message == m implies l[i].count < usize::MAX by {
        assert(s.contains(l[i]));
        let j = choose|j: int| 0 <= j < s.len() && s[j] == l[i];
        assert(s[j].message == m);
    }
}

/// Expiry keeps a suffix of well-ordered entries: those from the first live one on.
pub proof fn lemma_live_suffix<M>(
    s: Seq<TimestampedMessage<M>>,
    clock: u64,
    capacity: Option<usize>,
    now: u64,
    ttl: Option<TimeToLive>,
    k: int,
)
    requires
        well_ordered(s, clock, capacity),
        clock <= now,
        0 <= k <= s.len(),
        forall|i: int| 0 <= i < k ==> !is_live(#[trigger] s[i], now, ttl),
        k < s.len() ==> is_live(s[k], now, ttl),
    ensures
        live_at(s, now, ttl) == s.subrange(k, s.len() as int),
        well_ordered(live_at(s, now, ttl), now, capacity),
{
    let pred = |e: TimestampedMessage<M>| is_live(e, now, ttl);
    assert forall|i: int| k <= i < s.len() implies pred(#[trigger] s[i]) by {
        assert(s[k].refreshed_at <= s[i].refreshed_at);
    }
    lemma_filter_suffix(s, pred, k);
    let r = s.subrange(k, s.len() as int);
    assert forall|i: int, j: int| 0 <= i < j < r.len() implies #[trigger] r[i].message != #[trigger] r[j].message by {
        assert(r[i] == s[i + k] && r[j] == s[j + k]);
    }
    assert forall|i: int, j: int| 0 <= i <= j < r.len() implies #[trigger] r[i].refreshed_at <= #[trigger] r[j].refreshed_at by {
        assert(r[i] == s[i + k] && r[j] == s[j + k]);
    }
}

/// Inserting into well-ordered live entries keeps them well ordered, with the clock at the
/// time of the insertion.
pub proof fn lemma_recorded_well_ordered<M>(
    s: Seq<TimestampedMessage<M>>,
    m: M,
    now: u64,
    capacity: Option<usize>,
)
    requires
        well_ordered(s, now, capacity),
        can_count(s, m),
    ensures
        well_ordered(recorded(s, m, now, capacity), now, capacity),
{
    let e = TimestampedMessage { message: m, refreshed_at: now, count: 0usize };
    if holds(s, m) {
        let i = index_of(s, m);
        let r = s.remove(i);
        assert forall|a: int, b: int| 0 <= a < b < r.len() implies #[trigger] r[a].message != #[trigger] r[b].message by {
            let a2 = if a < i { a } else { a + 1 };
            let b2 = if b < i { b } else { b + 1 };
            assert(r[a] == s[a2] && r[b] == s[b2]);
        }
        assert forall|a: int, b: int| 0 <= a <= b < r.len() implies #[trigger] r[a].refreshed_at <= #[trigger] r[b].refreshed_at by {
            let a2 = if a < i { a } else { a + 1 };
            let b2 = if b < i { b } else { b + 1 };
            assert(r[a] == s[a2] && r[b] == s[b2]);
        }
        assert forall|a: int| 0 <= a < r.len() implies #[trigger] r[a].message != m by {
            let a2 = if a < i { a } else { a + 1 };
            assert(r[a] == s[a2]);
        }
        assert forall|a: int| 0 <= a < r.len() implies #[trigger] r[a].refreshed_at <= now by {
            let a2 = if a < i { a } else { a + 1 };
            assert(r[a] == s[a2]);
        }
    } else {
        let p = s.push(e);
        assert forall|a: int| 0 <= a < p.len() implies #[trigger] p[a].refreshed_at <= now by {}
        if capacity matches Some(c) && p.len() > c {
            let d = p.drop_first();
            assert forall|a: int, b: int| 0 <= a < b < d.len() implies #[trigger] d[a].message != #[trigger] d[b].message by {
                assert(d[a] == p[a + 1] && d[b] == p[b + 1]);
            }
            assert forall|a: int, b: int| 0 <= a <= b < d.len() implies #[trigger] d[a].refreshed_at <= #[trigger] d[b].refreshed_at by {
                assert(d[a] == p[a + 1] && d[b] == p[b + 1]);
            }
            assert forall|a: int| 0 <= a < d.len() implies #[trigger] d[a].refreshed_at <= now by {
                assert(d[a] == p[a + 1]);
            }
        }
    }
}

/// The live entries of well-ordered entries are well ordered, with the clock at `now`.
pub proof fn lemma_live_well_ordered<M>(
    s: Seq<TimestampedMessage<M>>,
    clock: u64,
    capacity: Option<usize>,
    now: u64,
    ttl: Option<TimeToLive>,
)
    requires
        well_ordered(s, clock, capacity),
        clock <= now,
    ensures
        well_ordered(live_at(s, now, ttl), now, capacity),
{
    lemma_live_from(s, clock, capacity, now, ttl, 0);
}

/// Searches from `k` on for the first live entry, past a prefix known to have expired.
proof fn lemma_live_from<M>(
    s: Seq<TimestampedMessage<M>>,
    clock: u64,
    capacity: Option<usize>,
    now: u64,
    ttl: Option<TimeToLive>,
    k: int,
)
    requires
        well_ordered(s, clock, capacity),
        clock <= now,
        0 <= k <= s.len(),
        forall|i: int| 0 <= i < k ==> !is_live(#[trigger] s[i], now, ttl),
    ensures
        well_ordered(live_at(s, now, ttl), now, capacity),
    decreases s.len() - k,
{
    if k < s.len() && !is_live(s[k], now, ttl) {
        lemma_live_from(s, clock, capacity, now, ttl, k + 1);
    } else {
        lemma_live_suffix(s, clock, capacity, now, ttl, k);
    }
}

} // verus!
