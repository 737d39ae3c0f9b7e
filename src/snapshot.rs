//! `Snapshot`: a copy of the key/value state of the service, with a version.

use vstd::prelude::*;
use vstd::string::*;
use crate::protocol::{Command, Message};

verus! {

/// The decimal digit for `d`, which is below 10.
pub open spec fn digit_char(d: nat) -> char {
    if d == 0 { '0' }
    else if d == 1 { '1' }
    else if d == 2 { '2' }
    else if d == 3 { '3' }
    else if d == 4 { '4' }
    else if d == 5 { '5' }
    else if d == 6 { '6' }
    else if d == 7 { '7' }
    else if d == 8 { '8' }
    else { '9' }
}

/// The decimal notation of `n`, without sign or leading zeros.
pub open spec fn decimal(n: nat) -> Seq<char>
    decreases n,
{
    if n < 10 {
        seq![digit_char(n)]
    } else {
        decimal(n / 10).push(digit_char(n % 10))
    }
}

/// The checksum of a state at `version`: the letter `v` and the version in decimal.
pub open spec fn checksum_of(version: u32) -> Seq<char> {
    seq!['v'] + decimal(version as nat)
}

/// Relies on `u32`'s `Display` (through `to_string`): the decimal notation of `n`.
#[verifier::external_body]
pub(crate) fn to_decimal(n: u32) -> (r: String)
    ensures
        r@ == decimal(n as nat),
{
    n.to_string()
}

/// The checksum of a state at `version`.
pub fn version_checksum(version: u32) -> (r: String)
    ensures
        r@ == checksum_of(version),
{
    let digits = to_decimal(version);
    let mut r = String::from_str("v");
    proof {
        reveal_strlit("v");
    }
    r.append(digits.as_str());
    r
}

/// A copy of the current state: the last value put under each key, and the
/// number of updates applied.
pub struct Snapshot {
    data: Vec<(String, String)>,
    pub version: u32,
    entries: Ghost<Map<Seq<char>, Seq<char>>>,
}

impl View for Snapshot {
    type V = Map<Seq<char>, Seq<char>>;

    /// The value of each key.
    closed spec fn view(&self) -> Map<Seq<char>, Seq<char>> {
        self.entries@
    }
}

impl Snapshot {
    /// The number of updates applied.
    pub closed spec fn spec_version(&self) -> u32 {
        self.version
    }

    /// Well-formedness: each key once in `data`, and `data` holds exactly the view.
    pub closed spec fn wf(&self) -> bool {
        &&& forall|i: int, j: int|
            0 <= i < j < self.data@.len() ==> (#[trigger] self.data@[i]).0@
                != (#[trigger] self.data@[j]).0@
        &&& forall|i: int|
            0 <= i < self.data@.len() ==> self.entries@.contains_key((#[trigger] self.data@[i]).0@)
                && self.entries@[self.data@[i].0@] == self.data@[i].1@
        &&& forall|k: Seq<char>|
            #[trigger] self.entries@.contains_key(k) ==> exists|i: int|
                0 <= i < self.data@.len() && (#[trigger] self.data@[i]).0@ == k
    }

    /// An empty state at version 0.
    pub fn new() -> (r: Self)
        ensures
            r.wf(),
            r@ == Map::<Seq<char>, Seq<char>>::empty(),
            r.spec_version() == 0,
    {
        Snapshot { data: Vec::new(), version: 0, entries: Ghost(Map::empty()) }
    }

    /// The number of updates applied.
    pub fn version(&self) -> (r: u32)
        ensures
            r == self.spec_version(),
    {
        self.version
    }

    /// The checksum of the state: `v` followed by the version in decimal.
    pub fn checksum(&self) -> (r: String)
        ensures
            r@ == checksum_of(self.spec_version()),
    {
        version_checksum(self.version)
    }

    /// The value under `key`, if any.
    pub fn get(&self, key: &String) -> (r: Option<&String>)
        requires
            self.wf(),
        ensures
            r matches Some(v) ==> self@.contains_key(key@) && v@ == self@[key@],
            r.is_none() ==> !self@.contains_key(key@),
    {
        let mut i: usize = 0;
        while i < self.data.len()
            invariant
                self.wf(),
                i <= self.data@.len(),
                forall|j: int| 0 <= j < i ==> (#[trigger] self.data@[j]).0@ != key@,
            decreases self.data@.len() - i,
        {
            if self.data[i].0 == *key {
                return Some(&self.data[i].1);
            }
            i = i + 1;
        }
        None
    }

    /// Every key with its value, each key once.
    pub fn entries(&self) -> (r: &Vec<(String, String)>)
        requires
            self.wf(),
        ensures
            forall|i: int|
                0 <= i < r@.len() ==> self@.contains_key((#[trigger] r@[i]).0@) && self@[r@[i].0@]
                    == r@[i].1@,
            forall|k: Seq<char>|
                #[trigger] self@.contains_key(k) ==> exists|i: int|
                    0 <= i < r@.len() && (#[trigger] r@[i]).0@ == k,
            forall|i: int, j: int|
                0 <= i < j < r@.len() ==> (#[trigger] r@[i]).0@ != (#[trigger] r@[j]).0@,
    {
        &self.data
    }

    /// Sets `key` to `val`, in place of any value it had.
    pub(crate) fn insert(&mut self, key: &String, val: &String)
        requires
            old(self).wf(),
        ensures
            final(self).wf(),
            final(self)@ == old(self)@.insert(key@, val@),
            final(self).spec_version() == old(self).spec_version(),
    {
        let mut i: usize = 0;
        while i < self.data.len()
            invariant
                self.wf(),
                i <= self.data@.len(),
                forall|j: int| 0 <= j < i ==> (#[trigger] self.data@[j]).0@ != key@,
            ensures
                i <= self.data@.len(),
                forall|j: int| 0 <= j < i ==> (#[trigger] self.data@[j]).0@ != key@,
                i < self.data@.len() ==> self.data@[i as int].0@ == key@,
            decreases self.data@.len() - i,
        {
            if self.data[i].0 == *key {
                break;
            }
            i = i + 1;
        }
        let ghost old_data = self.data@;
        let ghost old_entries = self.entries@;
        if i < self.data.len() {
            self.data.set(i, (key.clone(), val.clone()));
        } else {
            self.data.push((key.clone(), val.clone()));
        }
        self.entries = Ghost(self.entries@.insert(key@, val@));
        proof {
            let n = self.data@.len();
            assert forall|a: int, b: int| 0 <= a < b < n implies (#[trigger] self.data@[a]).0@
                != (#[trigger] self.data@[b]).0@ by {
                if a != i && b != i {
                    assert(self.data@[a] == old_data[a] && self.data@[b] == old_data[b]);
                } else if a == i {
                    assert(self.data@[b] == old_data[b]);
                    if i < old_data.len() {
                        assert(old_data[b].0@ != old_data[a].0@);
                    }
                } else {
                    assert(self.data@[a] == old_data[a]);
                    if i < old_data.len() {
                        assert(old_data[a].0@ != old_data[b].0@);
                    }
                }
            }
            assert forall|a: int| 0 <= a < n implies self.entries@.contains_key(
                (#[trigger] self.data@[a]).0@,
            ) && self.entries@[self.data@[a].0@] == self.data@[a].1@ by {
                if a != i {
                    assert(self.data@[a] == old_data[a]);
                }
            }
            assert forall|k: Seq<char>| #[trigger] self.entries@.contains_key(k) implies exists|a: int|
                0 <= a < n && (#[trigger] self.data@[a]).0@ == k by {
                if k == key@ {
                    assert(self.data@[i as int].0@ == k);
                } else {
                    assert(old_entries.contains_key(k));
                    let a = choose|a: int| 0 <= a < old_data.len() && (#[trigger] old_data[a]).0@ == k;
                    assert(a != i || i == old_data.len());
                    assert(self.data@[a] == old_data[a]);
                }
            }
        }
    }

    pub(crate) fn set_version(&mut self, version: u32)
        requires
            old(self).wf(),
        ensures
            final(self).wf(),
            final(self)@ == old(self)@,
            final(self).spec_version() == version,
    {
        self.version = version;
        proof {
            assert forall|k: Seq<char>| #[trigger] self.entries@.contains_key(k) implies exists|a: int|
                0 <= a < self.data@.len() && (#[trigger] self.data@[a]).0@ == k by {
                assert(old(self).entries@.contains_key(k));
                let a = choose|a: int|
                    0 <= a < old(self).data@.len() && (#[trigger] old(self).data@[a]).0@ == k;
                assert(self.data@[a].0@ == k);
            }
        }
    }

    fn bump_version(&mut self)
        requires
            old(self).wf(),
            old(self).spec_version() < u32::MAX,
        ensures
            final(self).wf(),
            final(self)@ == old(self)@,
            final(self).spec_version() == old(self).spec_version() + 1,
    {
        self.version = self.version + 1;
        proof {
            assert forall|k: Seq<char>| #[trigger] self.entries@.contains_key(k) implies exists|a: int|
                0 <= a < self.data@.len() && (#[trigger] self.data@[a]).0@ == k by {
                assert(old(self).entries@.contains_key(k));
                assert(self.data@ == old(self).data@);
                let a = choose|a: int|
                    0 <= a < old(self).data@.len() && (#[trigger] old(self).data@[a]).0@ == k;
                assert(self.data@[a].0@ == k);
            }
        }
    }

    /// Applies a command: a put sets its key to its value and moves the
    /// version on by one; a get changes nothing.
    pub fn update(&mut self, command: &Command)
        requires
            old(self).wf(),
            old(self).spec_version() < u32::MAX,
        ensures
            final(self).wf(),
            match *command {
                Command::Put { key, val } => final(self)@ == old(self)@.insert(key@, val@)
                    && final(self).spec_version() == old(self).spec_version() + 1,
                Command::Get { .. } => final(self)@ == old(self)@ && final(self).spec_version()
                    == old(self).spec_version(),
            },
    {
        match command {
            Command::Put { key, val } => {
                self.bump_version();
                self.insert(key, val);
            },
            Command::Get { .. } => {},
        }
    }

    /// Applies a broadcast message: a state update sets its key to its value
    /// and moves the version on by one; a heartbeat changes nothing.
    pub fn update_msg(&mut self, message: &Message)
        requires
            old(self).wf(),
            old(self).spec_version() < u32::MAX,
        ensures
            final(self).wf(),
            match *message {
                Message::StateUpdated { key, val } => final(self)@ == old(self)@.insert(key@, val@)
                    && final(self).spec_version() == old(self).spec_version() + 1,
                Message::Heartbeat => final(self)@ == old(self)@ && final(self).spec_version()
                    == old(self).spec_version(),
            },
    {
        match message {
            Message::StateUpdated { key, val } => {
                self.bump_version();
                self.insert(key, val);
            },
            Message::Heartbeat => {},
        }
    }
}

} // verus!
