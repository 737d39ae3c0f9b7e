//! The append-only `List`: a singly linked chain of nodes that only grows at its tail.
//!
//! Nodes live in an arena and are addressed by their slot there. A slot is
//! never freed nor reused while the list lives, so a slot once read stays
//! valid, and the link of the last node is written exactly once, when the
//! next node is appended.

use vstd::prelude::*;
use crate::cache::{Cache, CACHE_SIZE, lookup};

verus! {

/// One node of the chain: a value and the slot of the node after it.
struct Node<E> {
    value: E,
    next: Option<usize>,
}

/// An append-only list, never empty, with a lookup cache for `get`.
pub struct List<E> {
    nodes: Vec<Node<E>>,
    head: usize,
    tail: usize,
    cache: Cache,
}

impl<E> View for List<E> {
    type V = Seq<E>;

    /// The values of the list, from head to tail.
    closed spec fn view(&self) -> Seq<E> {
        self.nodes@.map_values(|n: Node<E>| n.value)
    }
}

impl<E> List<E> {
    /// Well-formedness: the chain runs from the head through every slot in
    /// order to the tail, and each cache entry binds an index to its own node.
    pub closed spec fn wf(&self) -> bool {
        &&& self.nodes@.len() >= 1
        &&& self.head == 0
        &&& self.tail == self.nodes@.len() - 1
        &&& forall|i: int|
            0 <= i < self.nodes@.len() ==> (#[trigger] self.nodes@[i]).next == if i + 1
                < self.nodes@.len() {
                Some((i + 1) as usize)
            } else {
                None::<usize>
            }
        &&& self.cache.wf()
        &&& forall|j: int|
            0 <= j < CACHE_SIZE ==> match #[trigger] self.cache@[j] {
                Some(e) => e.0 < self.nodes@.len() && e.1 == e.0,
                None => true,
            }
    }

    proof fn lemma_lookup_valid(entries: Seq<Option<(usize, usize)>>, key: usize, n: nat)
        requires
            forall|j: int|
                0 <= j < entries.len() ==> match #[trigger] entries[j] {
                    Some(e) => e.0 < n && e.1 == e.0,
                    None => true,
                },
        ensures
            lookup(entries, key) matches Some(s) ==> s == key && key < n,
        decreases entries.len(),
    {
        if entries.len() > 0 {
            let rest = entries.drop_first();
            assert forall|j: int| 0 <= j < rest.len() implies match #[trigger] rest[j] {
                Some(e) => e.0 < n && e.1 == e.0,
                None => true,
            } by {
                assert(rest[j] == entries[j + 1]);
            }
            Self::lemma_lookup_valid(rest, key, n);
        }
    }

    /// Makes a list that holds `value` alone.
    pub fn new(value: E) -> (r: Self)
        ensures
            r.wf(),
            r@ == seq![value],
    {
        let mut nodes: Vec<Node<E>> = Vec::new();
        nodes.push(Node { value, next: None });
        let r = List { nodes, head: 0, tail: 0, cache: Cache::new(0) };
        assert(r@ =~= seq![value]);
        r
    }

    /// The number of values in the list.
    pub fn len(&self) -> (r: usize)
        requires
            self.wf(),
        ensures
            r == self@.len(),
            r >= 1,
    {
        self.nodes.len()
    }

    /// Whether the list holds no value; never true, as a list starts with one.
    pub fn is_empty(&self) -> (r: bool)
        requires
            self.wf(),
        ensures
            r == (self@.len() == 0),
            !r,
    {
        self.len() == 0
    }

    /// Links a new node holding `value` after the tail, and makes it the tail.
    pub fn append(&mut self, value: E)
        requires
            old(self).wf(),
            old(self)@.len() < usize::MAX,
        ensures
            final(self).wf(),
            final(self)@ == old(self)@.push(value),
    {
        let slot = self.nodes.len();
        self.nodes.push(Node { value, next: None });
        let t = self.tail;
        self.nodes[t].next = Some(slot);
        self.tail = slot;
        self.cache.put(slot, slot);
        proof {
            let n = self.nodes@.len();
            assert forall|i: int| 0 <= i < n implies (#[trigger] self.nodes@[i]).next == if i + 1
                < n {
                Some((i + 1) as usize)
            } else {
                None::<usize>
            } by {
                if i < t {
                    assert(self.nodes@[i] == old(self).nodes@[i]);
                }
            }
            assert(self@ =~= old(self)@.push(value));
        }
    }

    /// The value at `index`, or `None` past the tail.
    ///
    /// The cache is consulted first; on a miss the chain is walked from the head.
    pub fn get(&self, index: usize) -> (r: Option<&E>)
        requires
            self.wf(),
        ensures
            r == (if index < self@.len() { Some(&self@[index as int]) } else { None }),
    {
        if let Some(slot) = self.cache.get(index) {
            proof {
                Self::lemma_lookup_valid(self.cache@, index, self.nodes@.len());
            }
            return Some(&self.nodes[slot].value);
        }
        let mut cur: usize = self.head;
        let mut i: usize = 0;
        while i < index
            invariant
                self.wf(),
                i <= index,
                cur == i,
                cur < self.nodes@.len(),
            decreases index - i,
        {
            match self.nodes[cur].next {
                None => {
                    return None;
                },
                Some(n) => {
                    cur = n;
                },
            }
            i = i + 1;
        }
        Some(&self.nodes[cur].value)
    }

    /// The last value of the list.
    pub fn tail(&self) -> (r: &E)
        requires
            self.wf(),
        ensures
            *r == self@.last(),
    {
        &self.nodes[self.tail].value
    }

    /// The last value of the list, to be changed in place.
    pub fn tail_mut(&mut self) -> (r: &mut E)
        requires
            old(self).wf(),
        ensures
            *r == old(self)@.last(),
            final(self).wf(),
            final(self)@ == old(self)@.update(old(self)@.len() - 1, *final(r)),
    {
        let t = self.tail;
        &mut self.nodes[t].value
    }

    /// An iterator over the values, from head to tail.
    pub fn iter(&self) -> (r: ListIterator<'_, E>)
        requires
            self.wf(),
        ensures
            r.wf(),
            r.position() == 0,
            r.list() == self,
    {
        ListIterator { list: self, cursor: Some(self.head) }
    }
}

/// Walks a list from head to tail by following the links.
pub struct ListIterator<'a, E> {
    list: &'a List<E>,
    cursor: Option<usize>,
}

impl<'a, E> ListIterator<'a, E> {
    /// The list walked.
    pub closed spec fn list(&self) -> &'a List<E> {
        self.list
    }

    /// The index of the next value handed out; the list's length once done.
    pub closed spec fn position(&self) -> nat {
        match self.cursor {
            Some(c) => c as nat,
            None => self.list@.len(),
        }
    }

    /// Well-formedness: the list is well formed and the cursor, if any, is one of its slots.
    pub closed spec fn wf(&self) -> bool {
        &&& self.list.wf()
        &&& self.cursor matches Some(c) ==> c < self.list@.len()
    }

    /// The value at the current position, then a step to the next node.
    pub fn next(&mut self) -> (r: Option<&'a E>)
        requires
            old(self).wf(),
        ensures
            final(self).wf(),
            final(self).list() == old(self).list(),
            r == (if old(self).position() < old(self).list()@.len() {
                Some(&old(self).list()@[old(self).position() as int])
            } else {
                None
            }),
            final(self).position() == if old(self).position() < old(self).list()@.len() {
                old(self).position() + 1
            } else {
                old(self).position()
            },
    {
        match self.cursor {
            None => None,
            Some(c) => {
                let node = &self.list.nodes[c];
                self.cursor = node.next;
                Some(&node.value)
            },
        }
    }
}

} // verus!
