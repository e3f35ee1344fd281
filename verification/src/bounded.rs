//! A vector that refuses to grow beyond a fixed number of elements.
use vstd::prelude::*;

verus! {

#[derive(Debug, PartialEq, Eq)]
pub struct BoundedVec<T, const MAX: usize> {
    inner: Vec<T>,
}

/// What one push leaves of the elements `s` of a vector that holds at most
/// `max`: the item is appended while there is room, else nothing changes.
pub open spec fn push_bounded<T>(s: Seq<T>, item: T, max: nat) -> Seq<T> {
    if s.len() < max {
        s.push(item)
    } else {
        s
    }
}

/// The items pushed one after the other.
pub open spec fn push_all<T>(s: Seq<T>, items: Seq<T>, max: nat) -> Seq<T>
    decreases items.len(),
{
    if items.len() == 0 {
        s
    } else {
        push_bounded(push_all(s, items.drop_last(), max), items.last(), max)
    }
}

/// How many of `k` pushed items fit into `room` free places.
pub open spec fn kept(k: nat, room: int) -> int {
    if k <= room {
        k as int
    } else {
        room
    }
}

/// A run of pushes keeps the items that fit, in the order they were
/// pushed, and drops the rest: from elements `s` within the limit, the
/// result is `s` followed by the first items, as many as there is room for,
/// so that its length is the smaller of the two counts.
pub proof fn lemma_push_all<T>(s: Seq<T>, items: Seq<T>, max: nat)
    requires
        s.len() <= max,
    ensures
        push_all(s, items, max) == s + items.take(kept(items.len(), max - s.len())),
        push_all(s, items, max).len() == kept(s.len() + items.len(), max as int),
    decreases items.len(),
{
    if items.len() > 0 {
        let k = items.len();
        let room = max - s.len();
        let before = items.drop_last();
        lemma_push_all(s, before, max);
        if k - 1 < room {
            assert(items.take(k as int) =~= before.take((k - 1) as int).push(items.last()));
            assert(s + items.take(k as int) =~= (s + before.take((k - 1) as int)).push(items.last()));
        } else {
            assert(items.take(room) =~= before.take(room));
        }
    } else {
        assert(s + items.take(0) =~= s);
    }
}

/// From an empty vector, `k` pushes leave the first `min(k, max)` items.
pub proof fn lemma_push_all_from_empty<T>(items: Seq<T>, max: nat)
    ensures
        push_all(Seq::<T>::empty(), items, max) == items.take(kept(items.len(), max as int)),
        push_all(Seq::<T>::empty(), items, max).len() == kept(items.len(), max as int),
{
    lemma_push_all(Seq::<T>::empty(), items, max);
    assert(Seq::<T>::empty() + items.take(kept(items.len(), max as int)) =~= items.take(
        kept(items.len(), max as int),
    ));
}

impl<T, const MAX: usize> View for BoundedVec<T, MAX> {
    type V = Seq<T>;

    closed spec fn view(&self) -> Seq<T> {
        self.inner@
    }
}

impl<T, const MAX: usize> BoundedVec<T, MAX> {
    /// The vector holds at most `MAX` elements.
    pub open spec fn wf(&self) -> bool {
        self@.len() <= MAX
    }

    pub fn new() -> (r: Self)
        ensures
            r@ == Seq::<T>::empty(),
            r.wf(),
    {
        BoundedVec { inner: Vec::new() }
    }

    pub fn with_capacity(capacity: u32) -> (r: Self)
        ensures
            r@ == Seq::<T>::empty(),
            r.wf(),
    {
        BoundedVec { inner: Vec::with_capacity(capacity as usize) }
    }

    /// Appends `item` unless the vector is full; tells whether it did.
    pub fn push(&mut self, item: T) -> (r: bool)
        ensures
            r == (old(self)@.len() < MAX),
            final(self)@ == push_bounded(old(self)@, item, MAX as nat),
            r ==> final(self)@ == old(self)@.push(item),
            !r ==> final(self)@ == old(self)@,
            old(self).wf() ==> final(self).wf(),
    {
        if self.inner.len() >= MAX {
            return false;
        }
        self.inner.push(item);
        true
    }

    /// The number of elements, as a `u32` (truncated when it does not fit).
    pub fn len(&self) -> (r: u32)
        ensures
            r == self@.len() as u32,
    {
        self.inner.len() as u32
    }

    /// The number of elements.
    pub fn len_usize(&self) -> (r: usize)
        ensures
            r == self@.len(),
    {
        self.inner.len()
    }

    pub fn as_slice(&self) -> (r: &[T])
        ensures
            r@ == self@,
    {
        self.inner.as_slice()
    }

    pub fn get(&self, i: usize) -> (r: &T)
        requires
            i < self@.len(),
        ensures
            *r == self@[i as int],
    {
        &self.inner[i]
    }

    /// Takes the elements out, leaving the vector empty.
    pub fn take(&mut self) -> (r: Vec<T>)
        ensures
            r@ == old(self)@,
            final(self)@ == Seq::<T>::empty(),
    {
        let mut out = Vec::new();
        core::mem::swap(&mut out, &mut self.inner);
        out
    }

    /// A bounded vector over the elements of `inner`, which must be within
    /// the bound.
    pub fn from_vec(inner: Vec<T>) -> (r: Self)
        requires
            inner@.len() <= MAX,
        ensures
            r@ == inner@,
            r.wf(),
    {
        BoundedVec { inner }
    }
}

impl<T, const MAX: usize> core::ops::Deref for BoundedVec<T, MAX> {
    type Target = Vec<T>;

    fn deref(&self) -> (r: &Vec<T>)
        ensures
            r@ == self@,
    {
        &self.inner
    }
}

impl<T, const MAX: usize> Default for BoundedVec<T, MAX> {
    fn default() -> (r: Self)
        ensures
            r@ == Seq::<T>::empty(),
    {
        BoundedVec { inner: Vec::new() }
    }
}

} // verus!
