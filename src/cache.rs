//! A small lookup cache from logical indices to node slots.

use vstd::prelude::*;

verus! {

/// The number of entries that a cache holds.
pub const CACHE_SIZE: usize = 32;

/// The first entry for `key` in `entries`, read from the front.
pub open spec fn lookup(entries: Seq<Option<(usize, usize)>>, key: usize) -> Option<usize>
    decreases entries.len(),
{
    if entries.len() == 0 {
        None
    } else {
        match entries[0] {
            Some(e) => if e.0 == key {
                Some(e.1)
            } else {
                lookup(entries.drop_first(), key)
            },
            None => lookup(entries.drop_first(), key),
        }
    }
}

/// A fixed number of `(key, value)` entries, overwritten in turn by a rolling cursor.
///
/// The cache is advisory: a miss only means that the caller has to look the
/// key up the slow way.
pub struct Cache {
    store: Vec<Option<(usize, usize)>>,
    cur: usize,
}

impl View for Cache {
    type V = Seq<Option<(usize, usize)>>;

    closed spec fn view(&self) -> Seq<Option<(usize, usize)>> {
        self.store@
    }
}

impl Cache {
    /// The position that the next `put` overwrites.
    pub closed spec fn cursor(&self) -> nat {
        self.cur as nat
    }

    /// Well-formedness: the full number of entries, and the cursor on one of them.
    pub open spec fn wf(&self) -> bool {
        &&& self@.len() == CACHE_SIZE
        &&& self.cursor() < CACHE_SIZE
    }

    /// Makes a cache whose only entry binds key 0 to `first`.
    pub fn new(first: usize) -> (r: Cache)
        ensures
            r.wf(),
            r@ == Seq::new(CACHE_SIZE as nat, |i: int| None::<(usize, usize)>).update(
                0,
                Some((0usize, first)),
            ),
            r.cursor() == 1,
    {
        let mut store: Vec<Option<(usize, usize)>> = Vec::with_capacity(CACHE_SIZE);
        let mut i: usize = 0;
        while i < CACHE_SIZE
            invariant
                i <= CACHE_SIZE,
                store@ == Seq::new(i as nat, |j: int| None::<(usize, usize)>),
            decreases CACHE_SIZE - i,
        {
            store.push(None);
            i = i + 1;
        }
        let mut cache = Cache { store, cur: 0 };
        cache.put(0, first);
        cache
    }

    /// Records that `key` maps to `value`, in place of the oldest entry.
    pub fn put(&mut self, key: usize, value: usize)
        requires
            old(self).wf(),
        ensures
            final(self).wf(),
            final(self)@ == old(self)@.update(old(self).cursor() as int, Some((key, value))),
            final(self).cursor() == (old(self).cursor() + 1) % (CACHE_SIZE as nat),
    {
        let cur = self.cur;
        self.store.set(cur, Some((key, value)));
        self.cur = (cur + 1) % CACHE_SIZE;
    }

    /// The value of the first entry for `key`, if there is one.
    pub fn get(&self, key: usize) -> (r: Option<usize>)
        requires
            self.wf(),
        ensures
            r == lookup(self@, key),
    {
        let mut i: usize = 0;
        assert(self@.subrange(0, CACHE_SIZE as int) =~= self@);
        while i < CACHE_SIZE
            invariant
                self.wf(),
                i <= CACHE_SIZE,
                lookup(self@, key) == lookup(self@.subrange(i as int, CACHE_SIZE as int), key),
            decreases CACHE_SIZE - i,
        {
            let ghost rest = self@.subrange(i as int, CACHE_SIZE as int);
            assert(rest.drop_first() =~= self@.subrange(i + 1, CACHE_SIZE as int));
            if let Some(e) = self.store[i] {
                if e.0 == key {
                    return Some(e.1);
                }
            }
            i = i + 1;
        }
        None
    }
}

} // verus!
