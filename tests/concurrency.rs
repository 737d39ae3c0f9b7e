//! Interleavings of several parties, each operation one atomic step.

use fremkit::channel::{Channel, WaitStep};
use fremkit::log::Log;

/// Every order of `a` steps of one party and `b` steps of another, as a
/// list of party numbers.
fn interleavings(a: usize, b: usize) -> Vec<Vec<u8>> {
    if a == 0 {
        return vec![vec![1; b]];
    }
    if b == 0 {
        return vec![vec![0; a]];
    }
    let mut out = Vec::new();
    for mut rest in interleavings(a - 1, b) {
        rest.insert(0, 0);
        out.push(rest);
    }
    for mut rest in interleavings(a, b - 1) {
        rest.insert(0, 1);
        out.push(rest);
    }
    out
}

fn check_eventual_consistency(order: &[u8]) {
    let mut vec = Log::new(2);
    let values = ['a', 'b'];
    let mut step = [0usize; 2];
    let mut seen = [[None, None]; 2];

    for &party in order {
        let p = party as usize;
        match step[p] {
            0 => {
                vec.push(values[p]).unwrap();
            }
            1 => seen[p][0] = vec.get(0).cloned(),
            _ => seen[p][1] = vec.get(1).cloned(),
        }
        step[p] += 1;
    }

    let [[x0h1, x1h1], [x0h2, x1h2]] = seen;
    let (x0, x1) = (vec.get(0).cloned(), vec.get(1).cloned());

    match (x0h1, x1h1, x0h2, x1h2) {
        (None, None, _, _) | (_, _, None, None) => {
            assert!(false, "1|2: (Read your own write)");
        }
        (None, Some(_), None, Some(_)) => {
            assert!(false, "1: (Read your own write)");
        }
        (Some(_), None, Some(_), None) => {
            assert!(false, "2: (Read your own write)");
        }
        (None, Some(_), Some(_), None) => {
            assert!(false, "(Observed state are global)");
        }

        (Some(a), None, None, Some(d)) => {
            assert_eq!(Some(a), x0, "a == x0 (Observed state are immutable)");
            assert_eq!(Some(d), x1, "d == x1 (Observed state are immutable)");
        }
        (None, Some(b), Some(c), Some(d)) => {
            assert_eq!(b, d, "b == d (Observed state are in-order)");
            assert_eq!(Some(b), x1, "b == x1 (Observed state are immutable)");
            assert_eq!(Some(c), x0, "c == x0 (Observed state are immutable)");
            assert_eq!(Some(d), x1, "d == x1 (Observed state are immutable)");
        }
        (Some(a), None, Some(c), Some(d)) => {
            assert_eq!(a, c, "a == c (Observed state are in-order)");
            assert_eq!(Some(a), x0, "a == x0 (Observed state are immutable)");
            assert_eq!(Some(c), x0, "c == x0 (Observed state are immutable)");
            assert_eq!(Some(d), x1, "d == x1 (Observed state are immutable)");
        }
        (Some(a), Some(b), Some(c), None) => {
            assert_eq!(a, c, "a == c (Observed state are in-order)");
            assert_eq!(Some(a), x0, "a == x0 (Observed state are immutable)");
            assert_eq!(Some(b), x1, "b == x1 (Observed state are immutable)");
            assert_eq!(Some(c), x0, "c == x0 (Observed state are immutable)");
        }
        (Some(a), Some(b), None, Some(d)) => {
            assert_eq!(b, d, "b == d (Observed state are in-order)");
            assert_eq!(Some(a), x0, "a == x0 (Observed state are immutable)");
            assert_eq!(Some(b), x1, "b == x1 (Observed state are immutable)");
            assert_eq!(Some(d), x1, "d == x1 (Observed state are immutable)");
        }
        (Some(a), Some(b), Some(c), Some(d)) => {
            assert_eq!(a, c, "a == c");
            assert_eq!(b, d, "b == d");
            assert_eq!(Some(a), x0, "a == x0 (Observed state are immutable)");
            assert_eq!(Some(b), x1, "b == x1 (Observed state are immutable)");
            assert_eq!(Some(c), x0, "c == x0 (Observed state are immutable)");
            assert_eq!(Some(d), x1, "d == x1 (Observed state are immutable)");
        }
    }

    let pair = [x0, x1];

    assert!(
        pair == [Some('a'), Some('b')] || pair == [Some('b'), Some('a')],
        "final state is always complete."
    );
}

#[test]
fn bounded_test_eventual_consistency() {
    let orders = interleavings(3, 3);
    assert_eq!(orders.len(), 20);
    for order in &orders {
        check_eventual_consistency(order);
    }
}

/// A reader that walks indices 0..n with `wait_for`, one step at a time.
struct Reader {
    next: usize,
    ticket: Option<u64>,
    seen: Vec<u32>,
}

impl Reader {
    /// One step: sleep on while the ticket is not released, else ask again.
    fn step(&mut self, ch: &mut Channel<u32>) {
        if let Some(t) = self.ticket {
            if !ch.is_woken(t) {
                return;
            }
            self.ticket = None;
        }
        match ch.wait_for(self.next) {
            WaitStep::Ready(v) => {
                self.seen.push(*v);
                self.next += 1;
            }
            WaitStep::Pending(t) => self.ticket = Some(t),
        }
    }
}

/// `count` orders of `a` steps of one party and `b` of another, drawn with a
/// fixed linear congruential generator.
fn sampled_interleavings(a: usize, b: usize, count: usize) -> Vec<Vec<u8>> {
    let mut seed: u64 = 0x2545_f491_4f6c_dd1d;
    let mut out = Vec::new();
    for _ in 0..count {
        let (mut left_a, mut left_b) = (a, b);
        let mut order = Vec::new();
        while left_a + left_b > 0 {
            seed = seed.wrapping_mul(6364136223846793005).wrapping_add(1442695040888963407);
            let pick = (seed >> 33) as usize % (left_a + left_b);
            if pick < left_a {
                order.push(0);
                left_a -= 1;
            } else {
                order.push(1);
                left_b -= 1;
            }
        }
        out.push(order);
    }
    out
}

#[test]
fn unbounded_test_channel() {
    for order in sampled_interleavings(10, 30, 2000) {
        let mut ch: Channel<u32> = Channel::new();
        let mut pushed = 0u32;
        let mut reader = Reader { next: 0, ticket: None, seen: Vec::new() };

        for party in order {
            if party == 0 {
                ch.push(pushed);
                pushed += 1;
            } else {
                reader.step(&mut ch);
            }
        }
        while reader.next < 10 {
            reader.step(&mut ch);
        }

        assert_eq!(reader.seen, (0..10).collect::<Vec<u32>>());
    }
}

#[test]
fn channel_reader_first_is_woken_by_push() {
    let mut ch: Channel<char> = Channel::new();

    let ticket = match ch.wait_for(0) {
        WaitStep::Pending(t) => t,
        WaitStep::Ready(_) => panic!("an empty channel had a value"),
    };
    assert!(!ch.is_woken(ticket));

    ch.push('x');

    assert!(ch.is_woken(ticket));
    match ch.wait_for(0) {
        WaitStep::Ready(v) => assert_eq!(*v, 'x'),
        WaitStep::Pending(_) => panic!("the pushed value was not there"),
    }
}

#[test]
fn channel_two_producers_every_value_once() {
    let mut ch: Channel<u64> = Channel::with_log_capacity(128);
    let mut next = [0u64, 1000u64];

    for k in 0..2000u64 {
        let p = ((k * 7919) % 3 % 2) as usize;
        let p = if next[p] == [1000, 2000][p] { 1 - p } else { p };
        ch.push(next[p]);
        next[p] += 1;
    }

    assert_eq!(ch.len(), 2000);
    let mut values: Vec<u64> = (0..2000).map(|i| *ch.get(i).unwrap()).collect();
    values.sort();
    assert_eq!(values, (0..2000).collect::<Vec<u64>>());
}
