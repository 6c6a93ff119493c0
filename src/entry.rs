use vstd::prelude::*;

verus! {

/// Nanoseconds in one millisecond.
pub const NANOS_PER_MILLI: u64 = 1_000_000;

/// How long a message stays in a filter after it was last inserted, in nanoseconds.
#[derive(Clone, Copy, Debug, PartialEq, Eq, Structural)]
pub struct TimeToLive {
    pub nanos: u64,
}

impl TimeToLive {
    /// A time to live of `millis` milliseconds.
    pub fn from_millis(millis: u64) -> (r: TimeToLive)
        requires
            millis <= u64::MAX / NANOS_PER_MILLI,
        ensures
            r.nanos == millis * NANOS_PER_MILLI,
    {
        TimeToLive { nanos: millis * NANOS_PER_MILLI }
    }
}

/// One message held by a filter, with the clock reading of its last insertion and the
/// number of times it was inserted before that.
pub struct TimestampedMessage<Message> {
    pub message: Message,
    /// Clock reading, in nanoseconds, of the last insertion; its age counts from here.
    pub refreshed_at: u64,
    /// How many copies of this message have been seen before the last one.
    pub count: usize,
}

impl<Message> TimestampedMessage<Message> {
    /// A message first seen at `now`.
    pub fn new(message: Message, now: u64) -> (r: TimestampedMessage<Message>)
        ensures
            r.message == message,
            r.refreshed_at == now,
            r.count == 0,
    {
        TimestampedMessage { message, refreshed_at: now, count: 0 }
    }

    /// Restarts the message's age at `now`, which moves its expiry point to `now` plus the
    /// time to live.
    pub fn update_expiry_point(&mut self, now: u64)
        ensures
            final(self).message == old(self).message,
            final(self).refreshed_at == now,
            final(self).count == old(self).count,
    {
        self.refreshed_at = now;
    }

    /// Increments the counter and returns its new value.
    pub fn increment_count(&mut self) -> (r: usize)
        requires
            old(self).count < usize::MAX,
        ensures
            final(self).message == old(self).message,
            final(self).refreshed_at == old(self).refreshed_at,
            final(self).count == old(self).count + 1,
            r == final(self).count,
    {
        self.count += 1;
        self.count
    }
}

} // verus!
