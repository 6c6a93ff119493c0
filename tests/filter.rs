use message_filter::{MessageFilter, TimeToLive, TimestampedMessage};
use rand::Rng;

const MS: u64 = 1_000_000;

#[derive(PartialEq, PartialOrd, Ord, Clone, Eq, Hash)]
struct Temp {
    id: Vec<u8>,
}

impl Temp {
    fn new() -> Temp {
        let mut rng = rand::thread_rng();
        Temp { id: (0..64).map(|_| rng.gen_range(0u8..255)).collect() }
    }
}

#[test]
fn size_only() {
    let size = rand::random::<u8>() as usize + 1;
    let mut msg_filter = MessageFilter::<usize>::with_capacity(size);
    assert!(msg_filter.time_to_live().is_none());
    assert_eq!(Some(size), msg_filter.capacity());

    // Add `size` messages - all should be added.
    for i in 0..size {
        assert_eq!(msg_filter.len(), i);
        assert_eq!(0, msg_filter.insert(i));
        assert_eq!(msg_filter.len(), i + 1);
    }

    // Check all added messages remain.
    assert!((0..size).all(|index| msg_filter.contains(&index)));

    // Add further messages - all should be added, each time pushing out the oldest message.
    for i in size..1000 {
        assert_eq!(0, msg_filter.insert(i));
        assert_eq!(msg_filter.len(), size);
        assert!(msg_filter.contains(&i));
        if size > 1 {
            assert!(msg_filter.contains(&(i - 1)));
            assert!(msg_filter.contains(&(i - size + 1)));
        }
        assert!(!msg_filter.contains(&(i - size)));
    }
}

#[test]
fn time_only() {
    let millis = rand::thread_rng().gen_range(50u64..150);
    let time_to_live = TimeToLive::from_millis(millis);
    let mut msg_filter = MessageFilter::<usize>::with_expiry_duration(time_to_live);
    assert_eq!(Some(time_to_live), msg_filter.time_to_live());
    assert_eq!(None, msg_filter.capacity());

    let mut now: u64 = 1_000 * MS;

    // Add 10 messages - all should be added.
    for i in 0..10 {
        assert_eq!(0, msg_filter.insert_at(i, now));
        assert!(msg_filter.contains_at(&i, now));
    }
    assert_eq!(msg_filter.len_at(now), 10);

    // Let the added messages expire.
    now += (millis + 10) * MS;

    // Add a new message which should cause the expired values to be removed.
    assert_eq!(0, msg_filter.insert_at(11, now));
    assert!(msg_filter.contains_at(&11, now));
    assert_eq!(msg_filter.len_at(now), 1);

    // Check we can add the initial messages again.
    for i in 0..10 {
        assert_eq!(msg_filter.len_at(now), i + 1);
        assert_eq!(0, msg_filter.insert_at(i, now));
        assert!(msg_filter.contains_at(&i, now));
        assert_eq!(msg_filter.len_at(now), i + 2);
    }
}

#[test]
fn time_and_size() {
    let size = rand::random::<u8>() as usize + 1;
    let millis = rand::thread_rng().gen_range(50u64..150);
    let time_to_live = TimeToLive::from_millis(millis);
    let mut msg_filter =
        MessageFilter::<usize>::with_expiry_duration_and_capacity(time_to_live, size);
    assert_eq!(Some(time_to_live), msg_filter.time_to_live());
    assert_eq!(Some(size), msg_filter.capacity());

    let mut now: u64 = 1_000 * MS;

    for i in 0..1000 {
        // Check `size` has not been exceeded.
        if i < size {
            assert_eq!(msg_filter.len_at(now), i);
        } else {
            assert_eq!(msg_filter.len_at(now), size);
        }

        // Add a new message and check that it has been added successfully.
        assert_eq!(0, msg_filter.insert_at(i, now));
        assert!(msg_filter.contains_at(&i, now));

        // Check `size` has not been exceeded.
        if i < size {
            assert_eq!(msg_filter.len_at(now), i + 1);
        } else {
            assert_eq!(msg_filter.len_at(now), size);
        }
    }

    // Let the added messages expire.
    now += (millis + 10) * MS;

    // Check for the last message, which should cause all the values to be removed.
    assert!(!msg_filter.contains_at(&1000, now));
    assert_eq!(msg_filter.len_at(now), 0);
}

#[test]
fn time_size_struct_value() {
    let size = rand::random::<u8>() as usize + 1;
    let millis = rand::thread_rng().gen_range(50u64..150);
    let time_to_live = TimeToLive::from_millis(millis);
    let mut msg_filter =
        MessageFilter::<Temp>::with_expiry_duration_and_capacity(time_to_live, size);
    assert_eq!(Some(time_to_live), msg_filter.time_to_live());
    assert_eq!(Some(size), msg_filter.capacity());

    let mut now: u64 = 1_000 * MS;

    for i in 0..1000 {
        // Check `size` has not been exceeded.
        if i < size {
            assert_eq!(msg_filter.len_at(now), i);
        } else {
            assert_eq!(msg_filter.len_at(now), size);
        }

        // Add a new message and check that it has been added successfully.
        let temp = Temp::new();
        assert_eq!(0, msg_filter.insert_at(temp.clone(), now));
        assert!(msg_filter.contains_at(&temp, now));

        // Check `size` has not been exceeded.
        if i < size {
            assert_eq!(msg_filter.len_at(now), i + 1);
        } else {
            assert_eq!(msg_filter.len_at(now), size);
        }
    }

    // Let the added messages expire.
    now += (millis + 10) * MS;

    // Add a new message which should cause the expired values to be removed.
    let temp = Temp::new();
    assert_eq!(0, msg_filter.insert_at(temp.clone(), now));
    assert_eq!(msg_filter.len_at(now), 1);
    assert!(msg_filter.contains_at(&temp, now));
}

#[test]
fn add_duplicate() {
    // Re-adding a message to a capacity-based filter moves it to the back of the queue.
    let size = 3;
    let mut capacity_filter = MessageFilter::<usize>::with_capacity(size);

    // Add `size` messages - all should be added.
    for i in 0..size {
        assert_eq!(0, capacity_filter.insert(i));
    }

    // Check all added messages remain.
    assert!((0..size).all(|index| capacity_filter.contains(&index)));

    // Add "0" again.
    assert_eq!(1, capacity_filter.insert(0));

    // Add "3" and check it's pushed out "1".
    assert_eq!(0, capacity_filter.insert(3));
    assert!(capacity_filter.contains(&0));
    assert!(!capacity_filter.contains(&1));
    assert!(capacity_filter.contains(&2));
    assert!(capacity_filter.contains(&3));

    // Re-adding a message to a time-based filter restarts its age.
    let millis: u64 = 200;
    let time_to_live = TimeToLive::from_millis(millis);
    let mut time_filter = MessageFilter::<usize>::with_expiry_duration(time_to_live);
    let mut now: u64 = 1_000 * MS;

    // Add "0".
    assert_eq!(0, time_filter.insert_at(0, now));

    // Wait for half the expiry time and re-add "0".
    let step = (millis / 2 + 10) * MS;
    now += step;
    assert_eq!(1, time_filter.insert_at(0, now));

    // Wait for another half of the expiry time and check it's not been removed.
    now += step;
    assert!(time_filter.contains_at(&0, now));

    // Wait for another half of the expiry time and check it's been removed.
    now += step;
    assert!(!time_filter.contains_at(&0, now));
}

#[test]
fn capacity_three_evicts_oldest() {
    let mut f = MessageFilter::<char>::with_capacity(3);
    for c in ['A', 'B', 'C', 'D'] {
        assert_eq!(0, f.insert(c));
    }
    assert_eq!(f.len(), 3);
    assert!(!f.contains(&'A'));
    assert!(f.contains(&'B'));
    assert!(f.contains(&'D'));
}

#[test]
fn reinsert_moves_to_back_before_eviction() {
    let mut f = MessageFilter::<char>::with_capacity(3);
    for c in ['A', 'B', 'C'] {
        assert_eq!(0, f.insert(c));
    }
    assert_eq!(1, f.insert('A'));
    assert_eq!(f.len(), 3);
    assert_eq!(0, f.insert('D'));
    assert!(!f.contains(&'B'));
    assert!(f.contains(&'A'));
    assert!(f.contains(&'C'));
    assert!(f.contains(&'D'));
}

#[test]
fn expired_message_is_gone() {
    let mut f = MessageFilter::<char>::with_expiry_duration(TimeToLive::from_millis(100));
    assert_eq!(0, f.insert_at('X', 0));
    assert!(!f.contains_at(&'X', 150 * MS));
    assert_eq!(f.len_at(150 * MS), 0);
}

#[test]
fn refresh_keeps_message_past_first_deadline() {
    let mut f = MessageFilter::<char>::with_expiry_duration(TimeToLive::from_millis(200));
    assert_eq!(0, f.insert_at('X', 0));
    assert_eq!(1, f.insert_at('X', 110 * MS));
    assert!(f.contains_at(&'X', 220 * MS));
    assert!(!f.contains_at(&'X', 430 * MS));
}

#[test]
fn counts_each_sighting() {
    let mut f = MessageFilter::<u32>::with_capacity(4);
    assert_eq!(0, f.insert(9));
    assert_eq!(1, f.insert(9));
    assert_eq!(2, f.insert(9));
    assert_eq!(f.len(), 1);
}

#[test]
fn age_equal_to_time_to_live_is_kept() {
    let mut f = MessageFilter::<u32>::with_expiry_duration(TimeToLive::from_millis(100));
    assert_eq!(0, f.insert_at(1, 5));
    assert!(f.contains_at(&1, 5 + 100 * MS));
    assert!(!f.contains_at(&1, 5 + 100 * MS + 1));
}

#[test]
fn expiry_restarts_count() {
    let mut f = MessageFilter::<u32>::with_expiry_duration(TimeToLive::from_millis(10));
    assert_eq!(0, f.insert_at(1, 0));
    assert_eq!(1, f.insert_at(1, 5 * MS));
    assert_eq!(0, f.insert_at(1, 20 * MS));
}

#[test]
fn zero_capacity_keeps_nothing() {
    let mut f = MessageFilter::<u32>::with_capacity(0);
    assert_eq!(0, f.insert(1));
    assert_eq!(0, f.insert(1));
    assert!(!f.contains(&1));
    assert_eq!(f.len(), 0);
    assert!(f.is_empty());
}

#[test]
fn expiry_before_capacity() {
    let ttl = TimeToLive::from_millis(50);
    let mut f = MessageFilter::<u32>::with_expiry_duration_and_capacity(ttl, 2);
    assert_eq!(0, f.insert_at(1, 0));
    assert_eq!(0, f.insert_at(2, 10 * MS));
    // At 55 ms message 1 has expired, so 3 fits without pushing out 2.
    assert_eq!(0, f.insert_at(3, 55 * MS));
    assert!(f.contains_at(&2, 55 * MS));
    assert!(f.contains_at(&3, 55 * MS));
    assert_eq!(f.len_at(55 * MS), 2);
    // Now the filter is full: 4 pushes out 2, the oldest.
    assert_eq!(0, f.insert_at(4, 56 * MS));
    assert!(!f.contains_at(&2, 56 * MS));
    assert!(f.contains_at(&3, 56 * MS));
    assert!(f.contains_at(&4, 56 * MS));
}

#[test]
fn earlier_reading_is_taken_as_latest() {
    let mut f = MessageFilter::<u32>::with_expiry_duration(TimeToLive::from_millis(10));
    assert_eq!(0, f.insert_at(1, 100 * MS));
    // A reading from before is taken as 100 ms: the message is still live.
    assert!(f.contains_at(&1, 0));
    assert_eq!(0, f.insert_at(2, 0));
    // At 105 ms both are live; at 111 ms both have expired.
    assert_eq!(f.len_at(105 * MS), 2);
    assert_eq!(f.len_at(111 * MS), 0);
}

#[test]
fn fresh_filters_are_empty() {
    let mut a = MessageFilter::<u32>::with_capacity(5);
    let mut b = MessageFilter::<u32>::with_expiry_duration(TimeToLive::from_millis(10_000));
    assert!(a.is_empty());
    assert!(b.is_empty());
    assert_eq!(0, b.insert(3));
    assert!(!b.is_empty());
    assert_eq!(b.len(), 1);
}

#[test]
fn time_to_live_in_nanoseconds() {
    assert_eq!(TimeToLive::from_millis(150).nanos, 150_000_000);
    assert_eq!(TimeToLive::from_millis(0).nanos, 0);
}

#[test]
fn entry_methods() {
    let mut e = TimestampedMessage::new('q', 7);
    assert_eq!(e.count, 0);
    assert_eq!(e.refreshed_at, 7);
    e.update_expiry_point(30);
    assert_eq!(e.refreshed_at, 30);
    assert_eq!(e.increment_count(), 1);
    assert_eq!(e.increment_count(), 2);
    assert_eq!(e.message, 'q');
}
