//! The bounded `Log`: a fixed number of slots, each written at most once.

use vstd::prelude::*;

verus! {

/// Error returned by a push on a full log: it hands the rejected value back.
#[derive(Debug)]
pub enum LogError<T> {
    /// The log is full; the value was not stored.
    LogCapacityExceeded(T),
}

/// An append-only log of at most `capacity` items.
///
/// `reserved` is the reservation counter: every push takes the next token
/// from it, and the token is the slot the value goes to. Tokens at or past
/// the capacity are refused, and the counter is never decreased.
pub struct Log<T> {
    capacity: usize,
    reserved: usize,
    items: Vec<T>,
}

impl<T> View for Log<T> {
    type V = Seq<T>;

    /// The values that were stored, in the order of their tokens.
    closed spec fn view(&self) -> Seq<T> {
        self.items@
    }
}

/// The capacity that a log made with `requested` slots has: never less than 1.
pub open spec fn effective_capacity(requested: usize) -> nat {
    if requested == 0 { 1 } else { requested as nat }
}

impl<T> Log<T> {
    /// The number of slots of the log.
    pub closed spec fn spec_capacity(&self) -> nat {
        self.capacity as nat
    }

    /// The reservation counter: how many pushes were attempted, up to `usize::MAX`.
    pub closed spec fn spec_reserved(&self) -> nat {
        self.reserved as nat
    }

    /// Well-formedness: at least one slot; the stored values are exactly the
    /// tokens below both the counter and the capacity.
    pub closed spec fn wf(&self) -> bool {
        &&& self.capacity >= 1
        &&& self.items@.len() <= self.capacity
        &&& self.items@.len() == if self.reserved < self.capacity {
            self.reserved as nat
        } else {
            self.capacity as nat
        }
    }

    /// A well-formed log holds no more values than it has slots, and at least one slot.
    pub proof fn lemma_len_bound(&self)
        requires
            self.wf(),
        ensures
            self@.len() <= self.spec_capacity(),
            self.spec_capacity() >= 1,
    {
    }

    /// Whether the log is full.
    pub open spec fn spec_is_full(&self) -> bool {
        self@.len() >= self.spec_capacity()
    }

    /// What one push does: the capacity stays; the counter moves on; a full
    /// log refuses the value and hands it back; any other log stores it at the
    /// token, which is the number of values stored before.
    pub open spec fn push_step(&self, next: &Log<T>, value: T, r: Result<usize, LogError<T>>) -> bool {
        &&& next.spec_capacity() == self.spec_capacity()
        &&& next.spec_reserved() == if self.spec_reserved() < usize::MAX {
            self.spec_reserved() + 1
        } else {
            self.spec_reserved()
        }
        &&& self.spec_is_full() ==> r == Err::<usize, LogError<T>>(LogError::LogCapacityExceeded(value))
            && next@ == self@
        &&& !self.spec_is_full() ==> r == Ok::<usize, LogError<T>>(self@.len() as usize) && next@
            == self@.push(value)
    }

    /// Makes an empty log of `capacity` slots; a capacity of 0 is raised to 1.
    pub fn new(capacity: usize) -> (r: Self)
        ensures
            r.wf(),
            r@ == Seq::<T>::empty(),
            r.spec_capacity() == effective_capacity(capacity),
            r.spec_reserved() == 0,
    {
        let capacity: usize = if capacity == 0 { 1 } else { capacity };
        Log { capacity, reserved: 0, items: Vec::with_capacity(capacity) }
    }

    /// The number of values stored; never more than the capacity.
    pub fn len(&self) -> (r: usize)
        requires
            self.wf(),
        ensures
            r == self@.len(),
            r <= self.spec_capacity(),
    {
        if self.reserved < self.capacity {
            self.reserved
        } else {
            self.capacity
        }
    }

    /// The number of slots.
    pub fn capacity(&self) -> (r: usize)
        ensures
            r == self.spec_capacity(),
    {
        self.capacity
    }

    /// Whether no value is stored.
    pub fn is_empty(&self) -> (r: bool)
        requires
            self.wf(),
        ensures
            r == (self@.len() == 0),
    {
        self.len() == 0
    }

    /// The value at `index`, or `None` when no value was stored there.
    pub fn get(&self, index: usize) -> (r: Option<&T>)
        requires
            self.wf(),
        ensures
            r == (if index < self@.len() { Some(&self@[index as int]) } else { None }),
    {
        if index >= self.len() {
            return None;
        }
        Some(&self.items[index])
    }

    /// Takes the next token and stores `value` in its slot.
    ///
    /// On success the token is returned: it is the number of values that were
    /// stored before. When the log is full the value comes back in the error,
    /// and the stored values stay as they were.
    pub fn push(&mut self, value: T) -> (r: Result<usize, LogError<T>>)
        requires
            old(self).wf(),
        ensures
            final(self).wf(),
            old(self).push_step(final(self), value, r),
    {
        let token = self.reserved;
        self.reserved = self.reserved.saturating_add(1);
        if token >= self.capacity {
            return Err(LogError::LogCapacityExceeded(value));
        }
        self.items.push(value);
        Ok(token)
    }

    /// An iterator over the stored values, from index 0 on.
    pub fn iter(&self) -> (r: LogReaderIterator<'_, T>)
        requires
            self.wf(),
        ensures
            r.log() == self,
            r.position() == 0,
    {
        LogReaderIterator { idx: 0, log: self }
    }
}

/// Reads a log at increasing indices and stops at the first one with no value.
pub struct LogReaderIterator<'a, T> {
    idx: usize,
    log: &'a Log<T>,
}

impl<'a, T> LogReaderIterator<'a, T> {
    /// The log read.
    pub closed spec fn log(&self) -> &'a Log<T> {
        self.log
    }

    /// The index of the next value handed out.
    pub closed spec fn position(&self) -> nat {
        self.idx as nat
    }

    /// The value at the current index, then a step to the next index.
    pub fn next(&mut self) -> (r: Option<&'a T>)
        requires
            old(self).log().wf(),
        ensures
            final(self).log() == old(self).log(),
            r == (if old(self).position() < old(self).log()@.len() {
                Some(&old(self).log()@[old(self).position() as int])
            } else {
                None
            }),
            final(self).position() == if old(self).position() < old(self).log()@.len() {
                old(self).position() + 1
            } else {
                old(self).position()
            },
    {
        let r = self.log.get(self.idx);
        if r.is_some() {
            proof {
                self.log.lemma_len_bound();
            }
            self.idx = self.idx + 1;
        }
        r
    }
}

/// Of any run of pushes on a fresh log of capacity `C`, the first `C`
/// succeed at indices 0, 1, ... and every later one is refused with its own
/// value handed back.
pub proof fn lemma_capacity_bound<T>(
    logs: Seq<Log<T>>,
    values: Seq<T>,
    results: Seq<Result<usize, LogError<T>>>,
)
    requires
        logs.len() == values.len() + 1,
        results.len() == values.len(),
        logs[0].wf(),
        logs[0]@.len() == 0,
        forall|i: int|
            0 <= i < values.len() ==> #[trigger] logs[i].push_step(&logs[i + 1], values[i], results[i]),
    ensures
        forall|i: int|
            0 <= i < values.len() && i < logs[0].spec_capacity() ==> #[trigger] results[i]
                == Ok::<usize, LogError<T>>(i as usize),
        forall|i: int|
            0 <= i < values.len() && i >= logs[0].spec_capacity() ==> #[trigger] results[i]
                == Err::<usize, LogError<T>>(LogError::LogCapacityExceeded(values[i])),
        forall|i: int|
            0 <= i < logs.len() ==> (#[trigger] logs[i])@.len() == if i < logs[0].spec_capacity() {
                i as nat
            } else {
                logs[0].spec_capacity()
            },
    decreases values.len(),
{
    let cap = logs[0].spec_capacity();
    if values.len() > 0 {
        let n = values.len() - 1;
        lemma_capacity_bound(logs.subrange(0, n + 1), values.subrange(0, n), results.subrange(0, n));
        assert forall|i: int| 0 <= i <= n implies #[trigger] logs[i].spec_capacity() == cap by {
            lemma_capacity_stays(logs, values, results, i);
        }
        assert(logs.subrange(0, n + 1)[n] == logs[n]);
        assert(logs[n]@.len() == if n < cap { n as nat } else { cap });
        assert(logs[n].push_step(&logs[n + 1], values[n], results[n]));
        assert forall|i: int| 0 <= i < logs.len() implies (#[trigger] logs[i])@.len() == if i < cap {
            i as nat
        } else {
            cap
        } by {
            if i <= n {
                assert(logs.subrange(0, n + 1)[i] == logs[i]);
            }
        }
        assert forall|i: int| 0 <= i < values.len() && i < cap implies #[trigger] results[i]
            == Ok::<usize, LogError<T>>(i as usize) by {
            if i < n {
                assert(results.subrange(0, n)[i] == results[i]);
            }
        }
        assert forall|i: int| 0 <= i < values.len() && i >= cap implies #[trigger] results[i]
            == Err::<usize, LogError<T>>(LogError::LogCapacityExceeded(values[i])) by {
            if i < n {
                assert(results.subrange(0, n)[i] == results[i]);
                assert(values.subrange(0, n)[i] == values[i]);
            }
        }
    }
}

proof fn lemma_capacity_stays<T>(
    logs: Seq<Log<T>>,
    values: Seq<T>,
    results: Seq<Result<usize, LogError<T>>>,
    i: int,
)
    requires
        logs.len() == values.len() + 1,
        results.len() == values.len(),
        forall|j: int|
            0 <= j < values.len() ==> #[trigger] logs[j].push_step(&logs[j + 1], values[j], results[j]),
        0 <= i < logs.len(),
    ensures
        logs[i].spec_capacity() == logs[0].spec_capacity(),
    decreases i,
{
    if i > 0 {
        lemma_capacity_stays(logs, values, results, i - 1);
        let j = i - 1;
        assert(logs[j].push_step(&logs[j + 1], values[j], results[j]));
        assert(j + 1 == i);
    }
}

} // verus!
