use vstd::prelude::*;

verus! {

/// How many page textures the viewer keeps resident.
pub const TEXTURE_CACHE_CAPACITY: usize = 4;

/// `key` is held by one of `entries`.
pub open spec fn holds_key<T>(entries: Seq<(usize, T)>, key: usize) -> bool {
    exists|i: int| 0 <= i < entries.len() && #[trigger] entries[i].0 == key
}

/// No key appears twice in `entries`.
pub open spec fn keys_unique<T>(entries: Seq<(usize, T)>) -> bool {
    forall|i: int, j: int|
        0 <= i < j < entries.len() ==> #[trigger] entries[i].0 != #[trigger] entries[j].0
}

/// What `insert(key, value)` leaves in a cache that held `entries`, bounded by
/// `capacity`: a present key has its value replaced where it stands; a new
/// key goes last, and if that makes one entry too many, the first (oldest
/// inserted) entry leaves.
pub open spec fn inserted<T>(entries: Seq<(usize, T)>, capacity: nat, key: usize, value: T) -> Seq<
    (usize, T),
> {
    if holds_key(entries, key) {
        let i = choose|i: int| 0 <= i < entries.len() && #[trigger] entries[i].0 == key;
        entries.update(i, (key, value))
    } else if entries.len() + 1 > capacity {
        entries.push((key, value)).drop_first()
    } else {
        entries.push((key, value))
    }
}

/// A cache of at most `capacity` values keyed by index, that evicts in
/// insertion order: looking an entry up never renews it.
pub struct FifoCache<T> {
    capacity: usize,
    /// Oldest first.
    entries: Vec<(usize, T)>,
}

impl<T> View for FifoCache<T> {
    type V = Seq<(usize, T)>;

    /// The resident entries, oldest inserted first.
    closed spec fn view(&self) -> Seq<(usize, T)> {
        self.entries@
    }
}

impl<T> FifoCache<T> {
    pub closed spec fn spec_capacity(&self) -> nat {
        self.capacity as nat
    }

    pub closed spec fn wf(&self) -> bool {
        &&& self.entries@.len() <= self.capacity
        &&& keys_unique(self.entries@)
    }

    pub fn new(capacity: usize) -> (r: FifoCache<T>)
        ensures
            r.wf(),
            r@ == Seq::<(usize, T)>::empty(),
            r.spec_capacity() == capacity,
    {
        FifoCache { capacity, entries: Vec::new() }
    }

    pub fn capacity(&self) -> (r: usize)
        ensures
            r == self.spec_capacity(),
    {
        self.capacity
    }

    pub fn len(&self) -> (r: usize)
        ensures
            r == self@.len(),
    {
        self.entries.len()
    }

    fn position(&self, key: usize) -> (r: Option<usize>)
        ensures
            r is None <==> !holds_key(self@, key),
            r matches Some(i) ==> i < self@.len() && self@[i as int].0 == key,
    {
        let mut i: usize = 0;
        while i < self.entries.len()
            invariant
                i <= self@.len(),
                forall|j: int| 0 <= j < i ==> #[trigger] self@[j].0 != key,
            decreases self@.len() - i,
        {
            if self.entries[i].0 == key {
                return Some(i);
            }
            i += 1;
        }
        None
    }

    pub fn contains_key(&self, key: usize) -> (r: bool)
        ensures
            r == holds_key(self@, key),
    {
        self.position(key).is_some()
    }

    /// The value held for `key`; the order of eviction is left as it was.
    pub fn get(&self, key: usize) -> (r: Option<&T>)
        requires
            self.wf(),
        ensures
            r is None <==> !holds_key(self@, key),
            forall|i: int|
                0 <= i < self@.len() && #[trigger] self@[i].0 == key ==> r == Some(&self@[i].1),
    {
        match self.position(key) {
            Some(i) => Some(&self.entries[i].1),
            None => None,
        }
    }

    /// Stores `value` under `key`. Returns the key evicted to stay within
    /// capacity, if one was.
    pub fn insert(&mut self, key: usize, value: T) -> (r: Option<usize>)
        requires
            old(self).wf(),
        ensures
            final(self).wf(),
            final(self).spec_capacity() == old(self).spec_capacity(),
            final(self)@ == inserted(old(self)@, old(self).spec_capacity(), key, value),
            r == (if !holds_key(old(self)@, key) && old(self)@.len() + 1 > old(self).spec_capacity() {
                Some(old(self)@.push((key, value))[0].0)
            } else {
                None
            }),
    {
        let ghost old_entries = self.entries@;
        match self.position(key) {
            Some(i) => {
                self.entries.set(i, (key, value));
                proof {
                    let j = choose|j: int| 0 <= j < old_entries.len() && #[trigger] old_entries[j].0 == key;
                    assert(j == i);
                    assert(self.entries@ =~= old_entries.update(i as int, (key, value)));
                }
                None
            },
            None => {
                self.entries.push((key, value));
                if self.entries.len() > self.capacity {
                    let (evicted, _) = self.entries.remove(0);
                    assert(self.entries@ =~= old_entries.push((key, value)).drop_first());
                    Some(evicted)
                } else {
                    None
                }
            },
        }
    }

    /// Empties the cache.
    pub fn clear(&mut self)
        requires
            old(self).wf(),
        ensures
            final(self).wf(),
            final(self)@ == Seq::<(usize, T)>::empty(),
            final(self).spec_capacity() == old(self).spec_capacity(),
    {
        self.entries.clear();
    }
}

/// A cache never holds more than its capacity.
pub proof fn lemma_cache_within_capacity<T>(cache: FifoCache<T>)
    requires
        cache.wf(),
    ensures
        cache@.len() <= cache.spec_capacity(),
{
}

} // verus!
