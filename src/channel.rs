//! The unbounded `Channel`: a list of bounded logs of one segment capacity,
//! with a notifier that each push pulses.
//!
//! The value pushed k-th is stored in segment `k / C` at position `k % C`,
//! where `C` is the segment capacity. A new segment is appended only to take
//! a push that the full tail refused, so every segment but the last is full
//! and the last one is empty only while it is the first.

use vstd::prelude::*;
use crate::list::List;
use crate::log::{Log, LogError};
use crate::notifier::Notifier;

verus! {

/// The segment capacity of a channel made with `Channel::new`.
pub const DEFAULT_LOG_CAPACITY: usize = 1024;

/// What a reader waiting for an index is told.
pub enum WaitStep<V> {
    /// The value is there.
    Ready(V),
    /// The value is not there yet; a wait is armed with this ticket.
    Pending(u64),
}

/// The number of segments that a channel of segment capacity `c` holding
/// `n` values has: `n / c` rounded up, and at least one.
pub open spec fn segment_count(n: nat, c: nat) -> nat
    recommends
        c > 0,
{
    if n == 0 { 1 } else { ((n + c - 1) as nat / c) as nat }
}

/// An unbounded, append-only broadcast log.
pub struct Channel<T> {
    log_capacity: usize,
    logs: List<Log<T>>,
    notifier: Notifier,
    contents: Ghost<Seq<T>>,
}

impl<T> View for Channel<T> {
    type V = Seq<T>;

    /// Every value pushed, at its global index.
    closed spec fn view(&self) -> Seq<T> {
        self.contents@
    }
}

proof fn lemma_index_split(k: int, c: int, n: int, m: int)
    requires
        c > 0,
        n >= 1,
        0 <= m <= c,
        0 <= k,
    ensures
        k < (n - 1) * c + m <==> (k / c < n - 1 || (k / c == n - 1 && k % c < m)),
        0 <= k % c < c,
        k / c >= 0,
{
    let q = k / c;
    let r = k % c;
    assert(k == q * c + r && 0 <= r < c && q >= 0) by (nonlinear_arith)
        requires
            c > 0,
            k >= 0,
            q == k / c,
            r == k % c,
    ;
    if q < n - 1 {
        assert(q * c + r < (n - 1) * c) by (nonlinear_arith)
            requires
                q < n - 1,
                r < c,
                c > 0,
        ;
    } else if q == n - 1 {
    } else {
        assert(q * c + r >= (n - 1) * c + c) by (nonlinear_arith)
            requires
                q >= n,
                r >= 0,
                c > 0,
        ;
    }
}

proof fn lemma_index_of(q: int, c: int, r: int)
    requires
        c > 0,
        q >= 0,
        0 <= r < c,
    ensures
        (q * c + r) / c == q,
        (q * c + r) % c == r,
{
    vstd::arithmetic::div_mod::lemma_fundamental_div_mod_converse(q * c + r, c, q, r);
}

impl<T> Channel<T> {
    /// The segment capacity.
    pub closed spec fn spec_log_capacity(&self) -> nat {
        self.log_capacity as nat
    }

    /// The segments, as bounded logs.
    pub closed spec fn segments(&self) -> Seq<Log<T>> {
        self.logs@
    }

    /// The notifier state of the channel.
    pub closed spec fn spec_notifier(&self) -> Notifier {
        self.notifier
    }

    /// Well-formedness: every segment has the channel's capacity; all but the
    /// last are full, and the last is empty only when it is the only one; the
    /// value at global index `k` is in segment `k / C` at position `k % C`.
    pub closed spec fn wf(&self) -> bool {
        let c = self.log_capacity as int;
        let n = self.logs@.len() as int;
        &&& c >= 1
        &&& n >= 1
        &&& self.logs.wf()
        &&& forall|s: int|
            0 <= s < n ==> (#[trigger] self.logs@[s]).wf() && self.logs@[s].spec_capacity() == c
        &&& forall|s: int| 0 <= s < n - 1 ==> (#[trigger] self.logs@[s])@.len() == c
        &&& n >= 2 ==> self.logs@[n - 1]@.len() >= 1
        &&& self.contents@.len() == (n - 1) * c + self.logs@[n - 1]@.len()
        &&& self.contents@.len() <= usize::MAX
        &&& forall|k: int|
            0 <= k < self.contents@.len() ==> #[trigger] self.contents@[k] == self.logs@[k
                / c]@[k % c]
    }

    /// What one `wait_for(index)` does: the values stay; a present value is
    /// handed out and nothing is armed; for an absent one a wait is armed with
    /// the notifier's current number as its ticket.
    pub open spec fn wait_step(&self, next: &Channel<T>, index: usize, r: WaitStep<&T>) -> bool {
        &&& next@ == self@
        &&& next.spec_log_capacity() == self.spec_log_capacity()
        &&& index < self@.len() ==> r == WaitStep::Ready(&self@[index as int])
            && next.spec_notifier() == self.spec_notifier()
        &&& index >= self@.len() ==> r == WaitStep::<&T>::Pending(
            self.spec_notifier().spec_generation(),
        ) && self.spec_notifier().armed(&next.spec_notifier())
    }

    /// What one `push(value)` returning `r` does: the value is appended at
    /// index `r`, the number of values before, and the notifier moves on.
    pub open spec fn push_step(&self, next: &Channel<T>, value: T, r: usize) -> bool {
        &&& r == self@.len()
        &&& next@ == self@.push(value)
        &&& next.spec_log_capacity() == self.spec_log_capacity()
        &&& self.spec_notifier().notified(&next.spec_notifier())
    }

    /// Makes an empty channel whose segments hold 1024 values each.
    pub fn new() -> (r: Self)
        ensures
            r.wf(),
            r@ == Seq::<T>::empty(),
            r.spec_log_capacity() == DEFAULT_LOG_CAPACITY,
            r.segments().len() == 1,
    {
        Self::with_log_capacity(DEFAULT_LOG_CAPACITY)
    }

    /// Makes an empty channel whose segments hold `log_capacity` values each;
    /// a capacity of 0 is raised to 1.
    pub fn with_log_capacity(log_capacity: usize) -> (r: Self)
        ensures
            r.wf(),
            r@ == Seq::<T>::empty(),
            r.spec_log_capacity() == crate::log::effective_capacity(log_capacity),
            r.segments().len() == 1,
    {
        let first: Log<T> = Log::new(log_capacity);
        let log_capacity = first.capacity();
        let logs = List::new(first);
        Channel { log_capacity, logs, notifier: Notifier::new(), contents: Ghost(Seq::empty()) }
    }

    /// The same as `with_log_capacity`.
    pub fn with_capacity(log_capacity: usize) -> (r: Self)
        ensures
            r.wf(),
            r@ == Seq::<T>::empty(),
            r.spec_log_capacity() == crate::log::effective_capacity(log_capacity),
            r.segments().len() == 1,
    {
        Self::with_log_capacity(log_capacity)
    }

    /// The segment capacity.
    pub fn log_capacity(&self) -> (r: usize)
        ensures
            r == self.spec_log_capacity(),
    {
        self.log_capacity
    }

    /// The number of segments.
    pub fn segment_count(&self) -> (r: usize)
        requires
            self.wf(),
        ensures
            r == self.segments().len(),
    {
        self.logs.len()
    }

    /// The number of values pushed.
    pub fn len(&self) -> (r: usize)
        requires
            self.wf(),
        ensures
            r == self@.len(),
    {
        let n = self.logs.len();
        let m = self.logs.tail().len();
        proof {
            let c = self.log_capacity as int;
            assert((n - 1) * c <= (n - 1) * c + m);
        }
        (n - 1) * self.log_capacity + m
    }

    /// Whether no value was pushed.
    pub fn is_empty(&self) -> (r: bool)
        requires
            self.wf(),
        ensures
            r == (self@.len() == 0),
    {
        self.len() == 0
    }

    /// The value at global index `index`, or `None` if it was not pushed yet.
    pub fn get(&self, index: usize) -> (r: Option<&T>)
        requires
            self.wf(),
        ensures
            r == (if index < self@.len() { Some(&self@[index as int]) } else { None }),
    {
        let c = self.log_capacity;
        proof {
            let n = self.logs@.len() as int;
            self.logs@[n - 1].lemma_len_bound();
            lemma_index_split(index as int, c as int, n, self.logs@[n - 1]@.len() as int);
        }
        match self.logs.get(index / c) {
            None => None,
            Some(log) => log.get(index % c),
        }
    }

    /// Appends `value` and notifies every waiter; returns its global index,
    /// the number of values pushed before.
    ///
    /// When the tail segment is full, a new segment is appended to take it.
    pub fn push(&mut self, value: T) -> (r: usize)
        requires
            old(self).wf(),
            old(self)@.len() < usize::MAX,
        ensures
            final(self).wf(),
            old(self).push_step(final(self), value, r),
    {
        let ghost v = value;
        let ghost c = self.log_capacity as int;
        let ghost n0 = self.logs@.len() as int;
        let ghost logs0 = self.logs@;
        let ghost len0 = self.contents@.len() as int;
        let ghost m0 = logs0[n0 - 1]@.len() as int;
        proof {
            logs0[n0 - 1].lemma_len_bound();
        }
        let before = self.logs.len() - 1;
        let idx = match self.logs.tail_mut().push(value) {
            Ok(local) => {
                proof {
                    assert(local == m0);
                    lemma_index_of(n0 - 1, c, local as int);
                    assert forall|k: int| 0 <= k < len0 implies #[trigger] self.contents@[k]
                        == self.logs@[k / c]@[k % c] by {
                        lemma_index_split(k, c, n0, m0);
                        if k / c < n0 - 1 {
                            assert(self.logs@[k / c] == logs0[k / c]);
                        }
                    }
                    assert forall|s: int| 0 <= s < n0 - 1 implies (#[trigger] self.logs@[s])@.len()
                        == c by {
                        assert(self.logs@[s] == logs0[s]);
                    }
                    assert((n0 - 1) * c + local <= len0);
                }
                before * self.log_capacity + local
            },
            Err(LogError::LogCapacityExceeded(value)) => {
                let ghost mid = self.logs@;
                proof {
                    logs0[n0 - 1].lemma_len_bound();
                    assert(m0 == c);
                    assert(mid[n0 - 1]@ == logs0[n0 - 1]@);
                    assert(n0 * c == (n0 - 1) * c + c) by (nonlinear_arith);
                    assert(n0 <= n0 * c) by (nonlinear_arith)
                        requires
                            c >= 1,
                            n0 >= 1,
                    ;
                }
                let fresh: Log<T> = Log::new(self.log_capacity);
                self.logs.append(fresh);
                match self.logs.tail_mut().push(value) {
                    Ok(local) => {
                        proof {
                            assert(local == 0);
                            lemma_index_of(n0, c, 0);
                            assert forall|k: int| 0 <= k < len0 implies #[trigger] self.contents@[k]
                                == self.logs@[k / c]@[k % c] by {
                                lemma_index_split(k, c, n0, c);
                                assert(self.logs@[k / c] == mid[k / c]);
                                if k / c < n0 - 1 {
                                    assert(mid[k / c] == logs0[k / c]);
                                }
                            }
                            assert forall|s: int| 0 <= s < n0 implies (#[trigger] self.logs@[s])@.len()
                                == c by {
                                assert(self.logs@[s] == mid[s]);
                                if s < n0 - 1 {
                                    assert(mid[s] == logs0[s]);
                                }
                            }
                            assert forall|s: int| 0 <= s < n0 + 1 implies (#[trigger] self.logs@[s]).wf()
                                && self.logs@[s].spec_capacity() == c by {
                                if s < n0 {
                                    assert(self.logs@[s] == mid[s]);
                                    if s < n0 - 1 {
                                        assert(mid[s] == logs0[s]);
                                    }
                                }
                            }
                        }
                        (before + 1) * self.log_capacity + local
                    },
                    Err(LogError::LogCapacityExceeded(_)) => {
                        proof {
                            assert(false);
                        }
                        vstd::pervasive::unreached()
                    },
                }
            },
        };
        self.contents = Ghost(self.contents@.push(v));
        self.notifier.notify();
        idx
    }

    /// Tests whether the value at `index` is there and, when it is not, arms
    /// a wait on the channel's notifier in the same step.
    ///
    /// A caller that gets `Pending(ticket)` sleeps until the notifier has
    /// moved past the ticket, then asks again.
    pub fn wait_for(&mut self, index: usize) -> (r: WaitStep<&T>)
        requires
            old(self).wf(),
        ensures
            final(self).wf(),
            old(self).wait_step(final(self), index, r),
    {
        let blocked = self.len() <= index;
        match self.notifier.wait_if(blocked) {
            Some(ticket) => WaitStep::Pending(ticket),
            None => {
                match self.get(index) {
                    Some(v) => WaitStep::Ready(v),
                    None => {
                        proof {
                            assert(false);
                        }
                        vstd::pervasive::unreached()
                    },
                }
            },
        }
    }

    /// Whether a reader holding `ticket` has been released by a push since.
    pub fn is_woken(&self, ticket: u64) -> (r: bool)
        ensures
            r == self.spec_notifier().spec_woken(ticket),
    {
        self.notifier.is_woken(ticket)
    }

    /// The number of readers that armed a wait since the last push.
    pub fn waiters(&self) -> (r: usize)
        ensures
            r == self.spec_notifier().spec_count(),
    {
        self.notifier.count()
    }

    /// The segment at position `s`, or `None` past the last one.
    pub fn segment(&self, s: usize) -> (r: Option<&Log<T>>)
        requires
            self.wf(),
        ensures
            r == (if s < self.segments().len() { Some(&self.segments()[s as int]) } else { None }),
    {
        self.logs.get(s)
    }

    /// Every value, read at indices 0, 1, ... until the first index with none.
    pub fn values(&self) -> (r: Vec<&T>)
        requires
            self.wf(),
        ensures
            r@.len() == self@.len(),
            forall|k: int| 0 <= k < r@.len() ==> *r@[k] == self@[k],
    {
        let mut out: Vec<&T> = Vec::new();
        let mut k: usize = 0;
        loop
            invariant
                self.wf(),
                k == out@.len(),
                k <= self@.len(),
                forall|j: int| 0 <= j < k ==> *out@[j] == self@[j],
            decreases self@.len() - k,
        {
            match self.get(k) {
                None => {
                    return out;
                },
                Some(v) => {
                    out.push(v);
                    k = k + 1;
                },
            }
        }
    }

    /// A finite iterator: the values from index 0 up to the last one pushed.
    pub fn iter(&self) -> (r: ChannelIterator<'_, T>)
        requires
            self.wf(),
        ensures
            r.channel() == self,
            r.position() == 0,
    {
        ChannelIterator { idx: 0, channel: self }
    }
}

impl<T> Default for Channel<T> {
    fn default() -> (r: Self)
        ensures
            r.wf(),
            r@ == Seq::<T>::empty(),
            r.spec_log_capacity() == DEFAULT_LOG_CAPACITY,
    {
        Self::new()
    }
}

/// Reads a channel at increasing indices and stops at the first one with no value.
pub struct ChannelIterator<'a, T> {
    idx: usize,
    channel: &'a Channel<T>,
}

impl<'a, T> ChannelIterator<'a, T> {
    /// The channel read.
    pub closed spec fn channel(&self) -> &'a Channel<T> {
        self.channel
    }

    /// The index of the next value handed out.
    pub closed spec fn position(&self) -> nat {
        self.idx as nat
    }

    /// The value at the current index, then a step to the next index.
    pub fn next(&mut self) -> (r: Option<&'a T>)
        requires
            old(self).channel().wf(),
        ensures
            final(self).channel() == old(self).channel(),
            r == (if old(self).position() < old(self).channel()@.len() {
                Some(&old(self).channel()@[old(self).position() as int])
            } else {
                None
            }),
            final(self).position() == if old(self).position() < old(self).channel()@.len() {
                old(self).position() + 1
            } else {
                old(self).position()
            },
    {
        let r = self.channel.get(self.idx);
        if r.is_some() {
            self.idx = self.idx + 1;
        }
        r
    }
}

/// Of any run of pushes on a channel, the k-th push gets the index equal to
/// the number of values that were there before it; each state holds the
/// first values followed by those pushed so far, in order; and a value read
/// at an index in one state is read at that index in every later state.
pub proof fn lemma_push_history<T>(chans: Seq<Channel<T>>, values: Seq<T>, indices: Seq<usize>)
    requires
        chans.len() == values.len() + 1,
        indices.len() == values.len(),
        forall|i: int|
            0 <= i < values.len() ==> #[trigger] chans[i].push_step(
                &chans[i + 1],
                values[i],
                indices[i],
            ),
    ensures
        forall|i: int| 0 <= i < indices.len() ==> #[trigger] indices[i] == chans[0]@.len() + i,
        forall|i: int|
            0 <= i < chans.len() ==> #[trigger] chans[i]@ == chans[0]@ + values.subrange(0, i),
        forall|i: int, j: int, k: int|
            0 <= i <= j < chans.len() && 0 <= k < chans[i]@.len() ==> k < chans[j]@.len()
                && #[trigger] chans[j]@[k] == #[trigger] chans[i]@[k],
    decreases values.len(),
{
    if values.len() > 0 {
        let n = values.len() - 1;
        let pc = chans.subrange(0, n + 1);
        let pv = values.subrange(0, n);
        let pi = indices.subrange(0, n);
        assert forall|i: int| 0 <= i < pv.len() implies #[trigger] pc[i].push_step(
            &pc[i + 1],
            pv[i],
            pi[i],
        ) by {
            assert(pc[i] == chans[i] && pc[i + 1] == chans[i + 1]);
            assert(pv[i] == values[i] && pi[i] == indices[i]);
        }
        lemma_push_history(pc, pv, pi);
        assert forall|i: int| 0 <= i < chans.len() implies #[trigger] chans[i]@ == chans[0]@
            + values.subrange(0, i) by {
            if i <= n {
                assert(pc[i] == chans[i]);
                assert(pv.subrange(0, i) =~= values.subrange(0, i));
            } else {
                assert(pc[n] == chans[n]);
                assert(pv.subrange(0, n) =~= values.subrange(0, n));
                assert(chans[n].push_step(&chans[n + 1], values[n], indices[n]));
                assert(values.subrange(0, i) =~= values.subrange(0, n).push(values[n]));
                assert(chans[i]@ =~= chans[0]@ + values.subrange(0, i));
            }
        }
        assert forall|i: int| 0 <= i < indices.len() implies #[trigger] indices[i] == chans[0]@.len()
            + i by {
            if i < n {
                assert(pi[i] == indices[i]);
            } else {
                assert(chans[n].push_step(&chans[n + 1], values[n], indices[n]));
                assert(chans[n]@ == chans[0]@ + values.subrange(0, n));
            }
        }
        assert forall|i: int, j: int, k: int|
            0 <= i <= j < chans.len() && 0 <= k < chans[i]@.len() implies k < chans[j]@.len()
            && #[trigger] chans[j]@[k] == #[trigger] chans[i]@[k] by {
            assert(chans[i]@ == chans[0]@ + values.subrange(0, i));
            assert(chans[j]@ == chans[0]@ + values.subrange(0, j));
            if k >= chans[0]@.len() {
                assert(values.subrange(0, j)[k - chans[0]@.len()] == values.subrange(0, i)[k
                    - chans[0]@.len()]);
            }
        }
    } else {
        assert forall|i: int| 0 <= i < chans.len() implies #[trigger] chans[i]@ == chans[0]@
            + values.subrange(0, i) by {
            assert(chans[0]@ + values.subrange(0, 0) =~= chans[0]@);
        }
    }
}

/// Once a push has returned index `k`, the channel holds at least `k + 1`
/// values and the pushed one is at `k`.
pub proof fn lemma_push_len<T>(before: Channel<T>, after: Channel<T>, value: T, k: usize)
    requires
        before.push_step(&after, value, k),
    ensures
        after@.len() >= k + 1,
        after@[k as int] == value,
{
}

/// A reader told `Ready` by `wait_for` gets the value that `get` returns at
/// that index, and that value stays there through any later pushes.
pub proof fn lemma_wait_matches_get<T>(
    before: Channel<T>,
    after: Channel<T>,
    later: Channel<T>,
    index: usize,
    v: &T,
)
    requires
        before.wait_step(&after, index, WaitStep::Ready(v)),
        after@.is_prefix_of(later@),
    ensures
        index < after@.len(),
        *v == after@[index as int],
        *v == later@[index as int],
{
    if index >= before@.len() {
        assert(WaitStep::Ready(v) != WaitStep::<&T>::Pending(before.spec_notifier().spec_generation()));
    }
}

/// A channel of `n` values and segment capacity `C` has `n / C` segments,
/// rounded up, and at least one.
pub proof fn lemma_segment_count<T>(c: Channel<T>)
    requires
        c.wf(),
    ensures
        c.segments().len() == segment_count(c@.len(), c.spec_log_capacity()),
{
    let cap = c.log_capacity as int;
    let n = c.logs@.len() as int;
    let m = c.logs@[n - 1]@.len() as int;
    c.logs@[n - 1].lemma_len_bound();
    if c@.len() > 0 {
        if n == 1 {
            assert((n - 1) * cap == 0) by (nonlinear_arith)
                requires
                    n == 1,
            ;
            assert(m >= 1);
        }
        assert((n - 1) * cap + m + cap - 1 == n * cap + (m - 1)) by (nonlinear_arith);
        lemma_index_of(n, cap, m - 1);
    }
}

/// The value at global index `k` is in segment `k / C`, at position `k % C`.
pub proof fn lemma_segment_position<T>(c: Channel<T>, k: int)
    requires
        c.wf(),
        0 <= k < c@.len(),
    ensures
        k / (c.spec_log_capacity() as int) < c.segments().len(),
        k % (c.spec_log_capacity() as int) < c.segments()[k / (c.spec_log_capacity() as int)]@.len(),
        c@[k] == c.segments()[k / (c.spec_log_capacity() as int)]@[k % (
        c.spec_log_capacity() as int)],
{
    let cap = c.log_capacity as int;
    let n = c.logs@.len() as int;
    c.logs@[n - 1].lemma_len_bound();
    lemma_index_split(k, cap, n, c.logs@[n - 1]@.len() as int);
}

/// No lost wakeup, reader first: a reader that finds index 0 of an empty
/// channel absent arms a wait; the push that follows releases it, and its
/// next `wait_for` hands out the pushed value.
pub proof fn lemma_no_lost_wakeup_reader_first<T>(
    c0: Channel<T>,
    c1: Channel<T>,
    c2: Channel<T>,
    c3: Channel<T>,
    first: WaitStep<&T>,
    second: WaitStep<&T>,
    value: T,
    k: usize,
)
    requires
        c0@.len() == 0,
        c0.wait_step(&c1, 0, first),
        c1.push_step(&c2, value, k),
        c2.wait_step(&c3, 0, second),
    ensures
        first == WaitStep::<&T>::Pending(c0.spec_notifier().spec_generation()),
        c2.spec_notifier().spec_woken(c0.spec_notifier().spec_generation()),
        second == WaitStep::Ready(&value),
{
    crate::notifier::lemma_notify_releases(
        c0.spec_notifier(),
        c1.spec_notifier(),
        c2.spec_notifier(),
        c0.spec_notifier().spec_generation(),
    );
}

/// No lost wakeup, producer first: a reader that comes after the push finds
/// the value at once and arms no wait.
pub proof fn lemma_no_lost_wakeup_producer_first<T>(
    c0: Channel<T>,
    c1: Channel<T>,
    c2: Channel<T>,
    step: WaitStep<&T>,
    value: T,
    k: usize,
)
    requires
        c0@.len() == 0,
        c0.push_step(&c1, value, k),
        c1.wait_step(&c2, 0, step),
    ensures
        step == WaitStep::Ready(&value),
        c2.spec_notifier() == c1.spec_notifier(),
{
}

} // verus!
