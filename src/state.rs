//! `State`: the service's state, one channel of values per key, with a version.

use vstd::prelude::*;
use crate::channel::Channel;
use crate::snapshot::{Snapshot, checksum_of, version_checksum};

verus! {

/// One channel of string values per key, and the number of puts applied.
pub struct State {
    data: Vec<(String, Channel<String>)>,
    version: u32,
    entries: Ghost<Map<Seq<char>, Seq<String>>>,
}

impl View for State {
    type V = Map<Seq<char>, Seq<String>>;

    /// The values put under each key, in order.
    closed spec fn view(&self) -> Map<Seq<char>, Seq<String>> {
        self.entries@
    }
}

/// The values under `key` in `m`: none for an absent key.
pub open spec fn values_of(m: Map<Seq<char>, Seq<String>>, key: Seq<char>) -> Seq<String> {
    if m.contains_key(key) { m[key] } else { Seq::empty() }
}

/// The current value of each key: the last one put, for keys that have one.
pub open spec fn current_values(m: Map<Seq<char>, Seq<String>>) -> Map<Seq<char>, Seq<char>> {
    Map::new(|k: Seq<char>| m.contains_key(k) && m[k].len() > 0, |k: Seq<char>| m[k].last()@)
}

impl State {
    /// The number of puts applied.
    pub closed spec fn spec_version(&self) -> u32 {
        self.version
    }

    /// Well-formedness: each key once, each channel well formed, and the
    /// channels hold exactly the view.
    pub closed spec fn wf(&self) -> bool {
        &&& forall|i: int, j: int|
            0 <= i < j < self.data@.len() ==> (#[trigger] self.data@[i]).0@
                != (#[trigger] self.data@[j]).0@
        &&& forall|i: int|
            0 <= i < self.data@.len() ==> (#[trigger] self.data@[i]).1.wf()
                && self.entries@.contains_key(self.data@[i].0@) && self.entries@[self.data@[i].0@]
                == self.data@[i].1@
        &&& forall|k: Seq<char>|
            #[trigger] self.entries@.contains_key(k) ==> exists|i: int|
                0 <= i < self.data@.len() && (#[trigger] self.data@[i]).0@ == k
    }

    /// No key, version 0.
    pub fn new() -> (r: Self)
        ensures
            r.wf(),
            r@ == Map::<Seq<char>, Seq<String>>::empty(),
            r.spec_version() == 0,
    {
        State { data: Vec::new(), version: 0, entries: Ghost(Map::empty()) }
    }

    /// `v` followed by the version in decimal.
    pub fn checksum(&self) -> (r: String)
        ensures
            r@ == checksum_of(self.spec_version()),
    {
        version_checksum(self.version)
    }

    /// The position of `key` in `data`, if it is there.
    fn find(&self, key: &String) -> (r: Option<usize>)
        requires
            self.wf(),
        ensures
            r matches Some(i) ==> i < self.data@.len() && self.data@[i as int].0@ == key@,
            r.is_none() ==> !self@.contains_key(key@),
    {
        let mut i: usize = 0;
        while i < self.data.len()
            invariant
                self.wf(),
                i <= self.data@.len(),
                forall|j: int| 0 <= j < i ==> (#[trigger] self.data@[j]).0@ != key@,
            decreases self.data@.len() - i,
        {
            if self.data[i].0 == *key {
                return Some(i);
            }
            i = i + 1;
        }
        proof {
            if self@.contains_key(key@) {
                let a = choose|a: int| 0 <= a < self.data@.len() && (#[trigger] self.data@[a]).0@ == key@;
                assert(self.data@[a].0@ == key@);
            }
        }
        None
    }

    /// Appends `val` to the channel of `key`, made empty if the key is new;
    /// returns the value's index there.
    fn append_value(&mut self, key: &String, val: String) -> (r: usize)
        requires
            old(self).wf(),
            values_of(old(self)@, key@).len() < usize::MAX,
        ensures
            final(self).wf(),
            r == values_of(old(self)@, key@).len(),
            final(self)@ == old(self)@.insert(key@, values_of(old(self)@, key@).push(val)),
            final(self).spec_version() == old(self).spec_version(),
    {
        let ghost v = val;
        let ghost old_data = self.data@;
        let ghost old_entries = self.entries@;
        let i = match self.find(key) {
            Some(i) => i,
            None => {
                self.data.push((key.clone(), Channel::new()));
                self.entries = Ghost(self.entries@.insert(key@, Seq::empty()));
                self.data.len() - 1
            },
        };
        let ghost mid_data = self.data@;
        let ghost mid_entries = self.entries@;
        proof {
            assert(mid_data[i as int].0@ == key@);
            assert(mid_entries[key@] == values_of(old_entries, key@));
            assert(mid_data[i as int].1@ == values_of(old_entries, key@));
            assert(mid_data[i as int].1.wf());
        }
        let idx = self.data[i].1.push(val);
        self.entries = Ghost(self.entries@.insert(key@, values_of(old_entries, key@).push(v)));
        proof {
            let n = self.data@.len();
            assert(self.data@[i as int].0@ == key@);
            assert forall|a: int, b: int| 0 <= a < b < n implies (#[trigger] self.data@[a]).0@
                != (#[trigger] self.data@[b]).0@ by {
                if a < old_data.len() && b < old_data.len() {
                    assert(mid_data[a] == old_data[a] && mid_data[b] == old_data[b]);
                }
                assert(self.data@[a].0@ == mid_data[a].0@);
                assert(self.data@[b].0@ == mid_data[b].0@);
            }
            assert forall|a: int| 0 <= a < n implies (#[trigger] self.data@[a]).1.wf()
                && self.entries@.contains_key(self.data@[a].0@) && self.entries@[self.data@[a].0@]
                == self.data@[a].1@ by {
                if a != i {
                    assert(self.data@[a] == mid_data[a]);
                    assert(mid_data[a] == old_data[a]);
                    assert(old_data[a].0@ != key@);
                }
            }
            assert forall|k: Seq<char>| #[trigger] self.entries@.contains_key(k) implies exists|a: int|
                0 <= a < n && (#[trigger] self.data@[a]).0@ == k by {
                if k == key@ {
                    assert(self.data@[i as int].0@ == k);
                } else {
                    assert(old_entries.contains_key(k));
                    let a = choose|a: int| 0 <= a < old_data.len() && (#[trigger] old_data[a]).0@ == k;
                    assert(mid_data[a] == old_data[a]);
                    assert(self.data@[a].0@ == k);
                }
            }
        }
        idx
    }

    fn set_version(&mut self, version: u32)
        requires
            old(self).wf(),
        ensures
            final(self).wf(),
            final(self)@ == old(self)@,
            final(self).spec_version() == version,
    {
        self.version = version;
        proof {
            assert forall|k: Seq<char>| #[trigger] self.entries@.contains_key(k) implies exists|a: int|
                0 <= a < self.data@.len() && (#[trigger] self.data@[a]).0@ == k by {
                assert(old(self).entries@.contains_key(k));
                let a = choose|a: int|
                    0 <= a < old(self).data@.len() && (#[trigger] old(self).data@[a]).0@ == k;
                assert(self.data@[a].0@ == k);
            }
            assert forall|a: int| 0 <= a < self.data@.len() implies (#[trigger] self.data@[a]).1.wf()
                && self.entries@.contains_key(self.data@[a].0@) && self.entries@[self.data@[a].0@]
                == self.data@[a].1@ by {
                assert(self.data@[a] == old(self).data@[a]);
            }
        }
    }

    /// Appends `val` to the channel of `key`, made empty if the key is new,
    /// and moves the version on by one; returns the value's index there.
    pub fn put(&mut self, key: &String, val: String) -> (r: usize)
        requires
            old(self).wf(),
            old(self).spec_version() < u32::MAX,
            values_of(old(self)@, key@).len() < usize::MAX,
        ensures
            final(self).wf(),
            r == values_of(old(self)@, key@).len(),
            final(self)@ == old(self)@.insert(key@, values_of(old(self)@, key@).push(val)),
            final(self).spec_version() == old(self).spec_version() + 1,
    {
        let idx = self.append_value(key, val);
        let v = self.version + 1;
        self.set_version(v);
        idx
    }

    /// A state whose channel for each key of `snapshot` holds its value
    /// alone, at the snapshot's version.
    pub fn from_snapshot(snapshot: &Snapshot) -> (r: State)
        requires
            snapshot.wf(),
        ensures
            r.wf(),
            r.spec_version() == snapshot.spec_version(),
            r@.dom() == snapshot@.dom(),
            forall|k: Seq<char>|
                #[trigger] r@.contains_key(k) ==> r@[k].len() == 1 && r@[k][0]@ == snapshot@[k],
    {
        let entries = snapshot.entries();
        let mut state = State::new();
        let mut i: usize = 0;
        while i < entries.len()
            invariant
                state.wf(),
                i <= entries@.len(),
                forall|a: int|
                    0 <= a < entries@.len() ==> snapshot@.contains_key((#[trigger] entries@[a]).0@)
                        && snapshot@[entries@[a].0@] == entries@[a].1@,
                forall|k: Seq<char>|
                    #[trigger] snapshot@.contains_key(k) ==> exists|a: int|
                        0 <= a < entries@.len() && (#[trigger] entries@[a]).0@ == k,
                forall|a: int, b: int|
                    0 <= a < b < entries@.len() ==> (#[trigger] entries@[a]).0@ != (
                    #[trigger] entries@[b]).0@,
                forall|k: Seq<char>|
                    #[trigger] state@.contains_key(k) <==> exists|a: int|
                        0 <= a < i && (#[trigger] entries@[a]).0@ == k,
                forall|k: Seq<char>|
                    #[trigger] state@.contains_key(k) ==> state@[k].len() == 1 && state@[k][0]@
                        == snapshot@[k],
            decreases entries@.len() - i,
        {
            let ghost before = state@;
            let ghost key = entries@[i as int].0@;
            proof {
                if before.contains_key(key) {
                    let a = choose|a: int| 0 <= a < i && (#[trigger] entries@[a]).0@ == key;
                    assert(entries@[a].0@ != entries@[i as int].0@);
                }
                assert(values_of(before, key) == Seq::<String>::empty());
            }
            let val = entries[i].1.clone();
            state.append_value(&entries[i].0, val);
            proof {
                assert forall|k: Seq<char>| #[trigger] state@.contains_key(k) <==> exists|a: int|
                    0 <= a < i + 1 && (#[trigger] entries@[a]).0@ == k by {
                    if k == key {
                        assert(entries@[i as int].0@ == k);
                    } else if before.contains_key(k) {
                        let a = choose|a: int| 0 <= a < i && (#[trigger] entries@[a]).0@ == k;
                        assert(entries@[a].0@ == k);
                    }
                }
            }
            i = i + 1;
        }
        state.set_version(snapshot.version());
        proof {
            assert forall|k: Seq<char>| #[trigger] snapshot@.contains_key(k) implies state@.contains_key(k) by {
                let a = choose|a: int| 0 <= a < entries@.len() && (#[trigger] entries@[a]).0@ == k;
                assert(entries@[a].0@ == k);
            }
            assert forall|k: Seq<char>| #[trigger] state@.contains_key(k) implies snapshot@.contains_key(k) by {
                let a = choose|a: int| 0 <= a < entries@.len() && (#[trigger] entries@[a]).0@ == k;
                assert(entries@[a].0@ == k);
            }
            assert(state@.dom() =~= snapshot@.dom());
        }
        state
    }

    /// A copy of the value at `idx` of the channel of `key`, if there is one.
    pub fn get(&self, key: &String, idx: usize) -> (r: Option<String>)
        requires
            self.wf(),
        ensures
            r == (if idx < values_of(self@, key@).len() {
                Some(values_of(self@, key@)[idx as int])
            } else {
                None::<String>
            }),
    {
        match self.find(key) {
            None => None,
            Some(i) => match self.data[i].1.get(idx) {
                Some(v) => Some(v.clone()),
                None => None,
            },
        }
    }

    /// A snapshot of the current state: the last value of each key, at the same version.
    pub fn snapshot(&self) -> (r: Snapshot)
        requires
            self.wf(),
        ensures
            r.wf(),
            r@ == current_values(self@),
            r.spec_version() == self.spec_version(),
    {
        let mut snap = Snapshot::new();
        let mut i: usize = 0;
        while i < self.data.len()
            invariant
                self.wf(),
                snap.wf(),
                i <= self.data@.len(),
                forall|k: Seq<char>|
                    #[trigger] snap@.contains_key(k) <==> exists|j: int|
                        0 <= j < i && (#[trigger] self.data@[j]).0@ == k && self.data@[j].1@.len()
                            > 0,
                forall|k: Seq<char>|
                    #[trigger] snap@.contains_key(k) ==> self@.contains_key(k) && snap@[k]
                        == self@[k].last()@,
            decreases self.data@.len() - i,
        {
            let entry = &self.data[i];
            let n = entry.1.len();
            if n > 0 {
                let last = entry.1.get(n - 1).unwrap();
                let ghost before = snap@;
                snap.insert(&entry.0, last);
                proof {
                    assert(self@.contains_key(entry.0@));
                    assert forall|k: Seq<char>| #[trigger] snap@.contains_key(k) <==> exists|j: int|
                        0 <= j < i + 1 && (#[trigger] self.data@[j]).0@ == k && self.data@[j].1@.len()
                            > 0 by {
                        if k == entry.0@ {
                            assert(self.data@[i as int].0@ == k);
                        } else if before.contains_key(k) {
                            let j = choose|j: int|
                                0 <= j < i && (#[trigger] self.data@[j]).0@ == k && self.data@[j].1@.len()
                                    > 0;
                            assert(self.data@[j].0@ == k);
                        }
                    }
                }
            } else {
                proof {
                    assert forall|k: Seq<char>| #[trigger] snap@.contains_key(k) <==> exists|j: int|
                        0 <= j < i + 1 && (#[trigger] self.data@[j]).0@ == k && self.data@[j].1@.len()
                            > 0 by {
                        if snap@.contains_key(k) {
                            let j = choose|j: int|
                                0 <= j < i && (#[trigger] self.data@[j]).0@ == k && self.data@[j].1@.len()
                                    > 0;
                            assert(self.data@[j].0@ == k);
                        }
                    }
                }
            }
            i = i + 1;
        }
        snap.set_version(self.version);
        proof {
            assert forall|k: Seq<char>| #[trigger] current_values(self@).contains_key(k) implies snap@.contains_key(k) by {
                let j = choose|j: int| 0 <= j < self.data@.len() && (#[trigger] self.data@[j]).0@ == k;
                assert(self.data@[j].0@ == k);
            }
            assert(snap@ =~= current_values(self@));
        }
        snap
    }
}

} // verus!
