//! Dense maps keyed by typed indices, ranges of indices and maps with gaps.

use crate::index::IndexRef;
use std::marker::PhantomData;
use vstd::prelude::*;

verus! {

/// A dense map: the keys are the numbers from zero on, in the order in which
/// the entries were pushed.
#[derive(Debug)]
pub struct IndexedMap<K: IndexRef, D> {
    data: Vec<D>,
    keys: PhantomData<K>,
}

impl<K: IndexRef, D> View for IndexedMap<K, D> {
    type V = Seq<D>;

    closed spec fn view(&self) -> Seq<D> {
        self.data@
    }
}

impl<K: IndexRef, D> IndexedMap<K, D> {
    /// The number of entries fits in a word.
    pub proof fn len_fits(&self)
        ensures
            self@.len() <= usize::MAX,
    {
        assert(self.data.len() == self.data@.len());
    }

    /// A map without entries.
    pub fn new() -> (map: Self)
        ensures
            map@ == Seq::<D>::empty(),
    {
        IndexedMap { data: Vec::new(), keys: PhantomData }
    }

    /// A map without entries, with room for some.
    pub fn with_capacity(capacity: usize) -> (map: Self)
        ensures
            map@ == Seq::<D>::empty(),
    {
        IndexedMap { data: Vec::with_capacity(capacity), keys: PhantomData }
    }

    /// A map of the given entries.
    pub fn from_vec(data: Vec<D>) -> (map: Self)
        ensures
            map@ == data@,
    {
        IndexedMap { data, keys: PhantomData }
    }

    /// The number of entries.
    pub fn len(&self) -> (len: usize)
        ensures
            len == self@.len(),
    {
        self.data.len()
    }

    /// The key that the next entry will get.
    pub fn peek_next_idx(&self) -> (key: K)
        ensures
            key.at() == self@.len(),
    {
        K::new(self.data.len())
    }

    /// Adds an entry under the next key and returns that key.
    pub fn push(&mut self, item: D) -> (key: K)
        ensures
            key.at() == old(self)@.len(),
            final(self)@ == old(self)@.push(item),
    {
        let key = self.peek_next_idx();
        self.data.push(item);
        key
    }

    /// The entry under a key.
    pub fn get(&self, key: K) -> (item: &D)
        requires
            0 <= key.at() < self@.len(),
        ensures
            *item == self@[key.at()],
    {
        &self.data[key.index()]
    }

    /// The entry under a key, to be changed.
    pub fn get_mut(&mut self, key: K) -> (item: &mut D)
        requires
            0 <= key.at() < old(self)@.len(),
        ensures
            *item == old(self)@[key.at()],
            final(self)@ == old(self)@.update(key.at(), *final(item)),
    {
        &mut self.data[key.index()]
    }

    /// Replaces the entry under a key.
    pub fn set(&mut self, key: K, item: D)
        requires
            0 <= key.at() < old(self)@.len(),
        ensures
            final(self)@ == old(self)@.update(key.at(), item),
    {
        self.data[key.index()] = item;
    }
}

/// The indices from `start` up to, but not including, `end`.
#[derive(Debug)]
pub struct IndexRange<I: IndexRef> {
    pub start: I,
    pub end: I,
}

impl<I: IndexRef> Clone for IndexRange<I> {
    fn clone(&self) -> (copy: Self)
        ensures
            copy == *self,
    {
        *self
    }
}

impl<I: IndexRef> Copy for IndexRange<I> {

}

impl<I: IndexRef> IndexRange<I> {
    /// The number of indices.
    pub open spec fn len(&self) -> nat {
        if self.start.at() <= self.end.at() {
            (self.end.at() - self.start.at()) as nat
        } else {
            0
        }
    }

    /// Whether the index with the given number is in the range.
    pub open spec fn has(&self, number: int) -> bool {
        self.start.at() <= number < self.end.at()
    }

    /// The range between two indices.
    pub fn new(start: I, end: I) -> (range: Self)
        ensures
            range == (IndexRange { start, end }),
    {
        IndexRange { start, end }
    }

    /// The number of indices in the range.
    pub fn size(&self) -> (size: usize)
        ensures
            size == self.len(),
    {
        let start: usize = self.start.index();
        let end: usize = self.end.index();
        if start <= end {
            end - start
        } else {
            0
        }
    }

    /// Whether an index is in the range.
    pub fn contains(&self, candidate: I) -> (answer: bool)
        ensures
            answer == self.has(candidate.at()),
    {
        self.start.index() <= candidate.index() && candidate.index() < self.end.index()
    }
}

/// A map from some of the numbers below `count`, kept in the order in which
/// its entries were added.
#[derive(Debug)]
pub struct OffsetMap<K: IndexRef, D> {
    pub entries: Vec<(K, D)>,
    pub count: usize,
}

impl<K: IndexRef, D> View for OffsetMap<K, D> {
    type V = Seq<(K, D)>;

    open spec fn view(&self) -> Seq<(K, D)> {
        self.entries@
    }
}

impl<K: IndexRef, D> OffsetMap<K, D> {
    /// Whether there is an entry under the key with the given number.
    pub open spec fn has_key(&self, number: int) -> bool {
        exists|i: int| 0 <= i < self@.len() && (#[trigger] self@[i]).0.at() == number
    }

    /// The first entry under the key with the given number.
    pub open spec fn lookup(&self, number: int) -> D {
        self@[choose|i: int|
            0 <= i < self@.len() && (#[trigger] self@[i]).0.at() == number && forall|j: int|
                0 <= j < i ==> (#[trigger] self@[j]).0.at() != number].1
    }

    /// How many numbers the map spans, the skipped ones included.
    pub fn count(&self) -> (count: usize)
        ensures
            count == self.count,
    {
        self.count
    }

    /// The number of entries.
    pub fn len(&self) -> (len: usize)
        ensures
            len == self@.len(),
    {
        self.entries.len()
    }

    /// The entry under a key, if there is one.
    pub fn find(&self, key: K) -> (item: Option<&D>)
        ensures
            match item {
                Some(d) => self.has_key(key.at()) && *d == self.lookup(key.at()),
                None => !self.has_key(key.at()),
            },
    {
        let len: usize = self.entries.len();
        for i in 0..len
            invariant
                len == self.entries@.len(),
                forall|j: int| 0 <= j < i ==> (#[trigger] self@[j]).0.at() != key.at(),
        {
            if self.entries[i].0.index() == key.index() {
                assert(self@[i as int].0.at() == key.at());
                return Some(self.get(key));
            }
            assert(self@[i as int].0.at() != key.at());
        }
        None
    }

    /// The entry under a key.
    pub fn get(&self, key: K) -> (item: &D)
        requires
            self.has_key(key.at()),
        ensures
            *item == self.lookup(key.at()),
    {
        let len: usize = self.entries.len();
        let mut i: usize = 0;
        while self.entries[i].0.index() != key.index()
            invariant
                i < len == self.entries@.len(),
                self.has_key(key.at()),
                forall|j: int| 0 <= j < i ==> (#[trigger] self@[j]).0.at() != key.at(),
            decreases len - i,
        {
            assert(self@[i as int].0.at() != key.at());
            i = i + 1;
        }
        assert(self@[i as int].0.at() == key.at());
        &self.entries[i].1
    }
}

/// Looking up a key finds an entry with that key, and of several the one that
/// was added first.
pub proof fn lookup_finds_the_first_entry<K: IndexRef, D>(map: OffsetMap<K, D>, i: int)
    requires
        0 <= i < map@.len(),
        forall|j: int| 0 <= j < i ==> (#[trigger] map@[j]).0.at() != map@[i].0.at(),
    ensures
        map.has_key(map@[i].0.at()),
        map.lookup(map@[i].0.at()) == map@[i].1,
{
    let number = map@[i].0.at();
    assert(map@[i].0.at() == number);
    let k = choose|k: int|
        0 <= k < map@.len() && (#[trigger] map@[k]).0.at() == number && forall|j: int|
            0 <= j < k ==> (#[trigger] map@[j]).0.at() != number;
    assert(0 <= k < map@.len() && map@[k].0.at() == number && forall|j: int|
        0 <= j < k ==> (#[trigger] map@[j]).0.at() != number);
    if k < i {
        assert(map@[k].0.at() != number);
    } else if i < k {
        assert(map@[i].0.at() != number);
    }
}

/// A range has as many indices as there are numbers from its start on up to, but
/// not including, its end.
pub proof fn ranges_are_counted<I: IndexRef>(range: IndexRange<I>, number: int)
    ensures
        range.start.at() <= range.end.at() ==> range.len() == range.end.at() - range.start.at(),
        range.start.at() > range.end.at() ==> range.len() == 0,
        range.has(number) <==> range.start.at() <= number && number < range.end.at(),
        range.has(number) ==> range.len() > 0,
{
}

} // verus!
