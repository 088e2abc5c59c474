//! A sparse, unbounded sequence.
//!
//! Every index of a `SparseVec` can be read: an index that was never written
//! reads as empty. Writing past the populated length pads the gap with empty
//! slots, so that the slots keep their relative order under insertion and
//! removal.

use vstd::prelude::*;

verus! {

/// The slot at index `i` of `s`: empty outside the populated length.
pub open spec fn at<T>(s: Seq<Option<T>>, i: int) -> Option<T> {
    if 0 <= i < s.len() {
        s[i]
    } else {
        None
    }
}

/// `s`, extended with empty slots up to the length `n` where it is shorter.
pub open spec fn padded<T>(s: Seq<Option<T>>, n: int) -> Seq<Option<T>> {
    if n <= s.len() {
        s
    } else {
        s + Seq::new((n - s.len()) as nat, |k: int| None)
    }
}

/// `s` after an insertion of `value` at index `i`: the slots from `i` on move
/// right by one, and a gap between the populated length and `i` is filled with
/// empty slots.
pub open spec fn inserted<T>(s: Seq<Option<T>>, i: int, value: T) -> Seq<Option<T>> {
    padded(s, i).insert(i, Some(value))
}

/// `s` after a removal at index `i`: the slots behind `i` move left by one.
/// Nothing changes where `i` lies outside the populated length.
pub open spec fn removed<T>(s: Seq<Option<T>>, i: int) -> Seq<Option<T>> {
    if 0 <= i < s.len() {
        s.remove(i)
    } else {
        s
    }
}

/// A growable sequence of slots, each empty or holding a value.
pub struct SparseVec<T> {
    items: Vec<Option<T>>,
}

impl<T> View for SparseVec<T> {
    type V = Seq<Option<T>>;

    closed spec fn view(&self) -> Seq<Option<T>> {
        self.items@
    }
}

impl<T> SparseVec<T> {
    /// The sequence without any slot.
    pub fn new() -> (s: Self)
        ensures
            s@ == Seq::<Option<T>>::empty(),
    {
        SparseVec { items: Vec::new() }
    }

    /// The populated length fits the machine's index type.
    pub proof fn lemma_len_fits(&self)
        ensures
            self@.len() <= usize::MAX,
    {
        assert(self.items.len() == self.items@.len());
    }

    /// The populated length: one more than the highest index written.
    pub fn len(&self) -> (n: usize)
        ensures
            n == self@.len(),
    {
        self.items.len()
    }

    /// The value at index `i`, if there is one.
    pub fn get(&self, i: usize) -> (r: Option<&T>)
        ensures
            r == match at(self@, i as int) {
                Some(v) => Some(&v),
                None => None,
            },
    {
        if i < self.items.len() {
            self.items[i].as_ref()
        } else {
            None
        }
    }

    /// The slot at index `i`: empty where `i` lies past the populated length.
    pub fn slot(&self, i: usize) -> (r: &Option<T>)
        ensures
            *r == at(self@, i as int),
    {
        if i < self.items.len() {
            &self.items[i]
        } else {
            &None
        }
    }

    /// A mutable reference to the value at index `i`, if there is one. The
    /// sequence keeps its shape; only that value can change.
    pub fn get_mut(&mut self, i: usize) -> (r: Option<&mut T>)
        ensures
            match r {
                Some(p) => {
                    &&& at(old(self)@, i as int) == Some(*p)
                    &&& final(self)@ == old(self)@.update(i as int, Some(*final(p)))
                },
                None => {
                    &&& at(old(self)@, i as int) is None
                    &&& final(self)@ == old(self)@
                },
            },
    {
        if i < self.items.len() {
            self.items[i].as_mut()
        } else {
            None
        }
    }

    /// A mutable reference to the slot at index `i`. Where `i` lies past the
    /// populated length, the sequence is first padded with empty slots up to
    /// and including `i`.
    pub fn slot_mut(&mut self, i: usize) -> (r: &mut Option<T>)
        ensures
            *r == at(old(self)@, i as int),
            final(self)@ == padded(old(self)@, i + 1).update(i as int, *final(r)),
    {
        while self.items.len() <= i
            invariant
                self.items@ == padded(old(self)@, self.items@.len() as int),
                old(self)@.len() <= self.items@.len(),
                self.items@.len() <= i + 1 || self.items@.len() == old(self)@.len(),
            decreases i + 1 - self.items@.len(),
        {
            self.items.push(None);
            assert(self.items@ =~= padded(old(self)@, self.items@.len() as int));
        }
        &mut self.items[i]
    }

    /// Inserts `value` at index `i`.
    pub fn insert(&mut self, i: usize, value: T)
        ensures
            final(self)@ == inserted(old(self)@, i as int, value),
    {
        while self.items.len() < i
            invariant
                self.items@ == padded(old(self)@, self.items@.len() as int),
                old(self)@.len() <= self.items@.len(),
                self.items@.len() <= i || self.items@.len() == old(self)@.len(),
            decreases i - self.items@.len(),
        {
            self.items.push(None);
            assert(self.items@ =~= padded(old(self)@, self.items@.len() as int));
        }
        self.items.insert(i, Some(value));
    }

    /// Removes the slot at index `i` and returns the value it held, if any.
    pub fn remove(&mut self, i: usize) -> (r: Option<T>)
        ensures
            r == at(old(self)@, i as int),
            final(self)@ == removed(old(self)@, i as int),
    {
        if i < self.items.len() {
            self.items.remove(i)
        } else {
            None
        }
    }

    /// An iterator over the slots in order, the empty ones included.
    pub fn iter(&self) -> (it: std::slice::Iter<'_, Option<T>>)
        ensures
            vstd::std_specs::slice::into_iter_elts(it) == self@,
    {
        self.items.iter()
    }

    /// Appends one slot, empty or not.
    pub fn push(&mut self, slot: Option<T>)
        ensures
            final(self)@ == old(self)@.push(slot),
    {
        self.items.push(slot);
    }
}

} // verus!
