//! The filter: a FIFO of timestamped messages, bounded by count, by age, or both.
use vstd::prelude::*;
use vstd::laws_eq::obeys_concrete_eq;

use crate::clock::clock_reading;
use crate::entry::{TimeToLive, TimestampedMessage};
use crate::model::{
    can_count, holds, index_of, is_live, lemma_live_can_count, lemma_live_suffix,
    lemma_recorded_well_ordered, live_at, prior_sightings, recorded, trimmed, well_ordered,
};

verus! {

/// A filter of previously seen messages. It forgets a message once its time to live has
/// passed since its last insertion, and drops the oldest message when a new one would
/// exceed its capacity.
///
/// Every operation takes a clock reading in nanoseconds: the `_at` methods are handed one,
/// the others read the monotonic clock. A reading earlier than one the filter has already
/// seen is taken as that one, so that the entries stay in order of insertion.
pub struct MessageFilter<Message> {
    entries: Vec<TimestampedMessage<Message>>,
    capacity: Option<usize>,
    time_to_live: Option<TimeToLive>,
    clock: u64,
}

impl<Message> View for MessageFilter<Message> {
    type V = Seq<TimestampedMessage<Message>>;

    /// The entries, oldest first.
    closed spec fn view(&self) -> Seq<TimestampedMessage<Message>> {
        self.entries@
    }
}

impl<Message: PartialEq> MessageFilter<Message> {
    /// The bound on the number of entries, if any.
    pub closed spec fn spec_capacity(&self) -> Option<usize> {
        self.capacity
    }

    /// The time to live of an entry, if any.
    pub closed spec fn spec_time_to_live(&self) -> Option<TimeToLive> {
        self.time_to_live
    }

    /// The latest clock reading the filter has seen.
    pub closed spec fn spec_clock(&self) -> u64 {
        self.clock
    }

    /// The clock reading that an operation handed `now` works with.
    pub open spec fn moment(&self, now: u64) -> u64 {
        if now < self.spec_clock() {
            self.spec_clock()
        } else {
            now
        }
    }

    /// The entries that are live at the moment of reading `now`.
    pub open spec fn live(&self, now: u64) -> Seq<TimestampedMessage<Message>> {
        live_at(self@, self.moment(now), self.spec_time_to_live())
    }

    /// The filter's invariant: the message type's `==` is plain equality, and the entries
    /// are well ordered under the filter's clock and capacity.
    pub open spec fn wf(&self) -> bool {
        &&& obeys_concrete_eq::<Message>()
        &&& well_ordered(self@, self.spec_clock(), self.spec_capacity())
    }

    /// A filter that holds at most `capacity` messages and never expires them.
    pub fn with_capacity(capacity: usize) -> (r: MessageFilter<Message>)
        requires
            obeys_concrete_eq::<Message>(),
        ensures
            r.wf(),
            r@ == Seq::<TimestampedMessage<Message>>::empty(),
            r.spec_clock() == 0,
            r.spec_capacity() == Some(capacity),
            r.spec_time_to_live() == None::<TimeToLive>,
    {
        MessageFilter { entries: Vec::new(), capacity: Some(capacity), time_to_live: None, clock: 0 }
    }

    /// A filter that forgets each message `time_to_live` after its last insertion, with no
    /// bound on their number.
    pub fn with_expiry_duration(time_to_live: TimeToLive) -> (r: MessageFilter<Message>)
        requires
            obeys_concrete_eq::<Message>(),
        ensures
            r.wf(),
            r@ == Seq::<TimestampedMessage<Message>>::empty(),
            r.spec_clock() == 0,
            r.spec_capacity() == None::<usize>,
            r.spec_time_to_live() == Some(time_to_live),
    {
        MessageFilter { entries: Vec::new(), capacity: None, time_to_live: Some(time_to_live), clock: 0 }
    }

    /// A filter bounded both by `capacity` and by `time_to_live`.
    pub fn with_expiry_duration_and_capacity(time_to_live: TimeToLive, capacity: usize) -> (r:
        MessageFilter<Message>)
        requires
            obeys_concrete_eq::<Message>(),
        ensures
            r.wf(),
            r@ == Seq::<TimestampedMessage<Message>>::empty(),
            r.spec_clock() == 0,
            r.spec_capacity() == Some(capacity),
            r.spec_time_to_live() == Some(time_to_live),
    {
        MessageFilter {
            entries: Vec::new(),
            capacity: Some(capacity),
            time_to_live: Some(time_to_live),
            clock: 0,
        }
    }

    /// The bound on the number of messages, if any.
    pub fn capacity(&self) -> (r: Option<usize>)
        ensures
            r == self.spec_capacity(),
    {
        self.capacity
    }

    /// The time to live of a message, if any.
    pub fn time_to_live(&self) -> (r: Option<TimeToLive>)
        ensures
            r == self.spec_time_to_live(),
    {
        self.time_to_live
    }

    /// Moves the clock to the moment of `now` and drops every entry that has expired then.
    fn remove_expired(&mut self, now: u64)
        requires
            old(self).wf(),
        ensures
            final(self).wf(),
            final(self)@ == old(self).live(now),
            final(self).spec_clock() == old(self).moment(now),
            final(self).spec_capacity() == old(self).spec_capacity(),
            final(self).spec_time_to_live() == old(self).spec_time_to_live(),
    {
        let now = if now < self.clock {
            self.clock
        } else {
            now
        };
        let ghost s = self.entries@;
        let mut at: usize = 0;
        if let Some(ttl) = self.time_to_live {
            // The entries run from oldest to newest: the expired ones form a prefix.
            while at < self.entries.len() && now - self.entries[at].refreshed_at > ttl.nanos
                invariant
                    self.entries@ == s,
                    well_ordered(s, self.clock, self.capacity),
                    self.clock <= now,
                    self.time_to_live == Some(ttl),
                    at <= s.len(),
                    forall|i: int| 0 <= i < at ==> !is_live(#[trigger] s[i], now, self.time_to_live),
                decreases s.len() - at,
            {
                at = at + 1;
            }
        }
        proof {
            lemma_live_suffix(s, self.clock, self.capacity, now, self.time_to_live, at as int);
        }
        self.entries = self.entries.split_off(at);
        self.clock = now;
    }

    /// The position of the entry that holds `message`, if any.
    fn position(&self, message: &Message) -> (r: Option<usize>)
        requires
            obeys_concrete_eq::<Message>(),
        ensures
            r matches Some(i) ==> i < self@.len() && self@[i as int].message == *message,
            r matches Some(i) ==> forall|j: int| 0 <= j < i ==> #[trigger] self@[j].message != *message,
            r is None <==> !holds(self@, *message),
    {
        proof {
            reveal(obeys_concrete_eq);
        }
        let mut i: usize = 0;
        while i < self.entries.len()
            invariant
                obeys_concrete_eq::<Message>(),
                i <= self@.len(),
                forall|j: int| 0 <= j < i ==> #[trigger] self@[j].message != *message,
            decreases self@.len() - i,
        {
            proof {
                reveal(obeys_concrete_eq);
            }
            if self.entries[i].message == *message {
                return Some(i);
            }
            i = i + 1;
        }
        None
    }

    /// Drops the oldest entry where the entries exceed the capacity.
    fn remove_excess(&mut self)
        ensures
            final(self)@ == trimmed(old(self)@, old(self).spec_capacity()),
            final(self).spec_clock() == old(self).spec_clock(),
            final(self).spec_capacity() == old(self).spec_capacity(),
            final(self).spec_time_to_live() == old(self).spec_time_to_live(),
    {
        if let Some(capacity) = self.capacity {
            if self.entries.len() > capacity {
                let _ = self.entries.remove(0);
                proof {
                    assert(self.entries@ =~= old(self).entries@.drop_first());
                }
            }
        }
    }

    /// Inserts `message` at clock reading `now` and returns how many times it was inserted
    /// before since it last left the filter.
    ///
    /// Expired messages go first. A message still held moves to the back of the queue,
    /// its age restarts and its count rises by one. A new message is appended with count
    /// zero, after which the oldest message goes if the capacity is exceeded.
    pub fn insert_at(&mut self, message: Message, now: u64) -> (r: usize)
        requires
            old(self).wf(),
            can_count(old(self)@, message),
        ensures
            final(self).wf(),
            final(self)@ == recorded(
                old(self).live(now),
                message,
                old(self).moment(now),
                old(self).spec_capacity(),
            ),
            r == prior_sightings(old(self).live(now), message),
            final(self).spec_clock() == old(self).moment(now),
            final(self).spec_capacity() == old(self).spec_capacity(),
            final(self).spec_time_to_live() == old(self).spec_time_to_live(),
    {
        proof {
            lemma_live_can_count(old(self)@, message, old(self).moment(now), old(self).spec_time_to_live());
        }
        self.remove_expired(now);
        let now = self.clock;
        let ghost s = self.entries@;
        proof {
            reveal(obeys_concrete_eq);
            lemma_recorded_well_ordered(s, message, now, self.capacity);
        }
        let found = self.position(&message);
        if let Some(i) = found {
            proof {
                assert(holds(s, message));
                assert(index_of(s, message) == i);
            }
            let mut entry = self.entries.remove(i);
            entry.update_expiry_point(now);
            let count = entry.increment_count();
            self.entries.push(entry);
            count
        } else {
            proof {
                assert(!holds(s, message));
            }
            self.entries.push(TimestampedMessage::new(message, now));
            self.remove_excess();
            0
        }
    }

    /// Inserts `message` at the current clock reading; see `insert_at`.
    pub fn insert(&mut self, message: Message) -> (r: usize)
        requires
            old(self).wf(),
            can_count(old(self)@, message),
        ensures
            final(self).wf(),
            old(self).spec_clock() <= final(self).spec_clock(),
            final(self)@ == recorded(
                old(self).live(final(self).spec_clock()),
                message,
                final(self).spec_clock(),
                old(self).spec_capacity(),
            ),
            r == prior_sightings(old(self).live(final(self).spec_clock()), message),
            final(self).spec_capacity() == old(self).spec_capacity(),
            final(self).spec_time_to_live() == old(self).spec_time_to_live(),
    {
        let now = clock_reading();
        self.insert_at(message, now)
    }

    /// Drops the messages expired at clock reading `now`, then tells whether `message` is
    /// held. Counts and positions stay as they are.
    pub fn contains_at(&mut self, message: &Message, now: u64) -> (r: bool)
        requires
            old(self).wf(),
        ensures
            final(self).wf(),
            final(self)@ == old(self).live(now),
            r == holds(old(self).live(now), *message),
            final(self).spec_clock() == old(self).moment(now),
            final(self).spec_capacity() == old(self).spec_capacity(),
            final(self).spec_time_to_live() == old(self).spec_time_to_live(),
    {
        self.remove_expired(now);
        self.position(message).is_some()
    }

    /// Drops the expired messages at the current clock reading, then tells whether
    /// `message` is held; see `contains_at`.
    pub fn contains(&mut self, message: &Message) -> (r: bool)
        requires
            old(self).wf(),
        ensures
            final(self).wf(),
            old(self).spec_clock() <= final(self).spec_clock(),
            final(self)@ == old(self).live(final(self).spec_clock()),
            r == holds(old(self).live(final(self).spec_clock()), *message),
            final(self).spec_capacity() == old(self).spec_capacity(),
            final(self).spec_time_to_live() == old(self).spec_time_to_live(),
    {
        let now = clock_reading();
        self.contains_at(message, now)
    }

    /// Drops the messages expired at clock reading `now`, then returns how many are left.
    pub fn len_at(&mut self, now: u64) -> (r: usize)
        requires
            old(self).wf(),
        ensures
            final(self).wf(),
            final(self)@ == old(self).live(now),
            r == old(self).live(now).len(),
            final(self).spec_clock() == old(self).moment(now),
            final(self).spec_capacity() == old(self).spec_capacity(),
            final(self).spec_time_to_live() == old(self).spec_time_to_live(),
    {
        self.remove_expired(now);
        self.entries.len()
    }

    /// Drops the expired messages at the current clock reading, then returns how many are
    /// left; see `len_at`.
    pub fn len(&mut self) -> (r: usize)
        requires
            old(self).wf(),
        ensures
            final(self).wf(),
            old(self).spec_clock() <= final(self).spec_clock(),
            final(self)@ == old(self).live(final(self).spec_clock()),
            r == old(self).live(final(self).spec_clock()).len(),
            final(self).spec_capacity() == old(self).spec_capacity(),
            final(self).spec_time_to_live() == old(self).spec_time_to_live(),
    {
        let now = clock_reading();
        self.len_at(now)
    }

    /// Drops the expired messages at the current clock reading, then tells whether none
    /// is left.
    pub fn is_empty(&mut self) -> (r: bool)
        requires
            old(self).wf(),
        ensures
            final(self).wf(),
            old(self).spec_clock() <= final(self).spec_clock(),
            final(self)@ == old(self).live(final(self).spec_clock()),
            r == (old(self).live(final(self).spec_clock()).len() == 0),
            final(self).spec_capacity() == old(self).spec_capacity(),
            final(self).spec_time_to_live() == old(self).spec_time_to_live(),
    {
        self.len() == 0
    }
}

} // verus!
