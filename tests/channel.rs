use fremkit::channel::{Channel, WaitStep};

#[test]
fn unbounded_test_channel_length() {
    let mut c: Channel<u32> = Channel::new();

    assert_eq!(c.len(), 0);
    assert!(c.is_empty());

    c.push(1);

    assert_eq!(c.len(), 1);
    assert!(!c.is_empty());
}

#[test]
fn unbounded_test_channel_increase() {
    let mut c = Channel::with_log_capacity(2);

    assert_eq!(c.len(), 0);

    for i in 0..21 {
        c.push(i);
    }

    assert_eq!(c.len(), 21);
    assert_eq!(c.segment_count(), 11);

    for i in 0..21 {
        assert_eq!(c.get(i), Some(&i));
    }

    assert_eq!(c.get(22), None);
}

#[test]
fn channel_with_capacity_grows_like_with_log_capacity() {
    let mut c = Channel::with_capacity(2);

    for i in 0..21 {
        c.push(i);
    }

    assert_eq!(c.len(), 21);
    assert_eq!(c.segment_count(), 11);
    assert_eq!(c.get(20), Some(&20));
}

#[test]
fn channel_basic_unbounded_scenario() {
    let mut ch = Channel::with_log_capacity(2);

    for (k, v) in (100..=104).enumerate() {
        assert_eq!(ch.push(v), k);
    }

    assert_eq!(ch.len(), 5);
    assert_eq!(ch.segment_count(), 3);
    for (k, v) in (100..=104).enumerate() {
        assert_eq!(ch.get(k), Some(&v));
    }
    assert_eq!(ch.get(5), None);
}

#[test]
fn channel_segment_count_rounds_up() {
    let mut ch = Channel::with_log_capacity(3);

    assert_eq!(ch.segment_count(), 1);
    for n in 1..=10usize {
        ch.push(n);
        assert_eq!(ch.segment_count(), (n + 2) / 3);
    }
}

#[test]
fn channel_zero_capacity_is_raised_to_one() {
    let mut ch = Channel::with_log_capacity(0);

    assert_eq!(ch.log_capacity(), 1);
    ch.push('a');
    ch.push('b');
    assert_eq!(ch.segment_count(), 2);
    assert_eq!(ch.get(1), Some(&'b'));
}

#[test]
fn channel_default_capacity() {
    let ch: Channel<u8> = Channel::new();

    assert_eq!(ch.log_capacity(), 1024);
    assert_eq!(ch.segment_count(), 1);
}

#[test]
fn channel_segment_boundary() {
    let c = 4;
    let mut ch = Channel::with_log_capacity(c);

    for v in 0..(2 * c) {
        ch.push(v * 10);
    }

    let first = ch.segment(0).unwrap();
    let second = ch.segment(1).unwrap();
    assert_eq!(first.get(c - 1), Some(&((c - 1) * 10)));
    assert_eq!(second.get(0), Some(&(c * 10)));
    assert_eq!(ch.get(c - 1), Some(&((c - 1) * 10)));
    assert_eq!(ch.get(c), Some(&(c * 10)));
    assert!(ch.segment(2).is_none());
}

#[test]
fn channel_iter_is_finite() {
    let mut ch = Channel::with_log_capacity(2);

    ch.push('x');
    ch.push('y');
    ch.push('z');

    let mut it = ch.iter();
    assert_eq!(it.next(), Some(&'x'));
    assert_eq!(it.next(), Some(&'y'));
    assert_eq!(it.next(), Some(&'z'));
    assert_eq!(it.next(), None);
    assert_eq!(it.next(), None);
}

#[test]
fn channel_values_walk_the_prefix() {
    let mut ch = Channel::with_log_capacity(3);
    let produced: Vec<u64> = vec![5, 1, 4, 1, 5, 9, 2];

    for v in &produced {
        ch.push(*v);
    }

    let read: Vec<u64> = ch.values().into_iter().copied().collect();
    assert_eq!(read, produced);
}

#[test]
fn channel_two_readers_agree() {
    let mut ch = Channel::with_log_capacity(2);

    for v in 0..7u32 {
        ch.push(v * v);
    }

    let a: Vec<u32> = ch.values().into_iter().copied().collect();
    let mut b = Vec::new();
    let mut it = ch.iter();
    while let Some(v) = it.next() {
        b.push(*v);
    }
    assert_eq!(a, b);
}

#[test]
fn channel_values_stay_after_growth() {
    let mut ch = Channel::with_log_capacity(2);

    ch.push(String::from("first"));
    let seen = ch.get(0).cloned();
    for i in 0..50 {
        ch.push(format!("v{}", i));
    }
    assert_eq!(ch.get(0).cloned(), seen);
    assert_eq!(ch.get(50), Some(&String::from("v49")));
}

#[test]
fn channel_wait_for_ready_and_pending() {
    let mut ch = Channel::with_log_capacity(2);

    let ticket = match ch.wait_for(0) {
        WaitStep::Pending(t) => t,
        WaitStep::Ready(_) => panic!("an empty channel had a value"),
    };
    assert_eq!(ch.waiters(), 1);
    assert!(!ch.is_woken(ticket));

    ch.push('x');

    assert!(ch.is_woken(ticket));
    assert_eq!(ch.waiters(), 0);
    match ch.wait_for(0) {
        WaitStep::Ready(v) => assert_eq!(*v, 'x'),
        WaitStep::Pending(_) => panic!("a pushed value was not found"),
    }
    assert_eq!(ch.waiters(), 0);
}

#[test]
fn channel_push_before_wait_needs_no_wait() {
    let mut ch = Channel::new();

    ch.push(7u8);

    match ch.wait_for(0) {
        WaitStep::Ready(v) => assert_eq!(*v, 7),
        WaitStep::Pending(_) => panic!("the reader armed a wait for a present value"),
    }
    assert_eq!(ch.waiters(), 0);
}
