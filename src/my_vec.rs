//! The growable buffer.

use crate::growth::{
    INITIAL_CAPACITY, capacity_after_growths, is_reachable_capacity, lemma_next_capacity_reachable,
    next_capacity,
};
use vstd::prelude::*;

verus! {

/// A growable buffer of `T`.
///
/// Storage is a region of `capacity` slots; the first `len` of them hold
/// live values and the rest are empty.
pub struct MyVec<T> {
    slots: Vec<Option<T>>,
    len: usize,
}

impl<T> MyVec<T> {
    #[verifier::type_invariant]
    spec fn well_formed(self) -> bool {
        &&& self.len <= self.slots@.len()
        &&& is_reachable_capacity(self.slots@.len())
        &&& forall|i: int| 0 <= i < self.len ==> (#[trigger] self.slots@[i]) is Some
        &&& forall|i: int| self.len <= i < self.slots@.len() ==> (#[trigger] self.slots@[i]) is None
    }

    /// Number of slots in the current storage region.
    pub closed spec fn spec_capacity(&self) -> nat {
        self.slots@.len()
    }

    /// Creates an empty buffer; no storage is allocated.
    pub fn new() -> (r: Self)
        ensures
            r@ == Seq::<T>::empty(),
            r.spec_capacity() == 0,
    {
        assert(capacity_after_growths(0) == 0);
        MyVec { slots: Vec::new(), len: 0 }
    }

    /// A fresh region of `cap` empty slots.
    fn allocate_raw(cap: usize) -> (r: Vec<Option<T>>)
        requires
            cap > 0,
        ensures
            r@.len() == cap,
            forall|i: int| 0 <= i < cap ==> (#[trigger] r@[i]) is None,
    {
        let mut region: Vec<Option<T>> = Vec::with_capacity(cap);
        let mut n: usize = 0;
        while n < cap
            invariant
                n <= cap,
                region@.len() == n,
                forall|i: int| 0 <= i < n ==> (#[trigger] region@[i]) is None,
            decreases cap - n,
        {
            region.push(None);
            n = n + 1;
        }
        region
    }

    /// Replaces the storage by a region of the next capacity, relocating
    /// the live values to the same slots of the new region.
    fn grow(&mut self)
        requires
            next_capacity(old(self).spec_capacity()) <= usize::MAX,
        ensures
            final(self)@ == old(self)@,
            final(self).spec_capacity() == next_capacity(old(self).spec_capacity()),
    {
        proof {
            use_type_invariant(&*self);
        }
        let new_cap: usize = if self.slots.len() == 0 {
            INITIAL_CAPACITY
        } else {
            self.slots.len() * 2
        };
        let mut new_slots = Self::allocate_raw(new_cap);

        let mut current = MyVec::new();
        std::mem::swap(self, &mut current);
        proof {
            use_type_invariant(&current);
        }
        let ghost live = current@;
        let MyVec { slots: mut old_slots, len } = current;
        let ghost old_cap = old_slots@.len();

        let mut i: usize = 0;
        while i < len
            invariant
                len <= old_cap < new_cap,
                i <= len,
                new_slots@.len() == new_cap,
                old_slots@.len() == old_cap,
                live.len() == len,
                forall|j: int| 0 <= j < i ==> (#[trigger] new_slots@[j]) == Some(live[j]),
                forall|j: int| i <= j < new_cap ==> (#[trigger] new_slots@[j]) is None,
                forall|j: int| i <= j < len ==> (#[trigger] old_slots@[j]) == Some(live[j]),
            decreases len - i,
        {
            let value = old_slots[i].take();
            new_slots.set(i, value);
            i = i + 1;
        }
        proof {
            lemma_next_capacity_reachable(old_cap);
        }
        *self = MyVec { slots: new_slots, len };
        assert(self@ =~= live);
    }

    /// Appends `new_elem` after the live values, growing the storage first
    /// when it is full.
    pub fn push_back(&mut self, new_elem: T)
        requires
            old(self)@.len() < old(self).spec_capacity() || next_capacity(
                old(self).spec_capacity(),
            ) <= usize::MAX,
        ensures
            final(self)@ == old(self)@.push(new_elem),
            forall|i: int|
                0 <= i < old(self)@.len() ==> #[trigger] final(self)@[i] == old(self)@[i],
            final(self).spec_capacity() == if old(self)@.len() == old(self).spec_capacity() {
                next_capacity(old(self).spec_capacity())
            } else {
                old(self).spec_capacity()
            },
    {
        proof {
            use_type_invariant(&*self);
        }
        if self.len >= self.slots.len() {
            self.grow();
        }
        let mut current = MyVec::new();
        std::mem::swap(self, &mut current);
        proof {
            use_type_invariant(&current);
        }
        let ghost live = current@;
        let MyVec { slots: mut slots, len } = current;
        slots.set(len, Some(new_elem));
        *self = MyVec { slots, len: len + 1 };
        assert(self@ =~= live.push(new_elem));
    }

    /// The live value at `index`, or `None` when `index` is not below the
    /// number of live values.
    pub fn get(&self, index: usize) -> (r: Option<&T>)
        ensures
            r is Some <==> index < self@.len(),
            r matches Some(x) ==> *x == self@[index as int],
    {
        proof {
            use_type_invariant(self);
        }
        if index >= self.len {
            return None;
        }
        self.slots[index].as_ref()
    }

    /// Mutable access to the live value at `index`, or `None` when `index`
    /// is not below the number of live values. Writing through the result
    /// changes that value alone.
    pub fn get_mut(&mut self, index: usize) -> (r: Option<&mut T>)
        ensures
            r is Some <==> index < old(self)@.len(),
            r matches Some(x) ==> {
                &&& *x == old(self)@[index as int]
                &&& final(self)@ == old(self)@.update(index as int, *final(x))
                &&& final(self).spec_capacity() == old(self).spec_capacity()
            },
            r is None ==> *final(self) == *old(self),
    {
        proof {
            use_type_invariant(&*self);
        }
        if index >= self.len {
            return None;
        }
        occupied_slot_mut(&mut self.slots, index)
    }

    /// Number of live values.
    pub fn len(&self) -> (r: usize)
        ensures
            r == self@.len(),
    {
        self.len
    }

    /// Number of slots in the current storage region. It is zero or a
    /// capacity reached by growing from empty, and never below the number
    /// of live values.
    pub fn capacity(&self) -> (r: usize)
        ensures
            r == self.spec_capacity(),
            is_reachable_capacity(r as nat),
            self@.len() <= r,
    {
        proof {
            use_type_invariant(self);
        }
        self.slots.len()
    }

    /// Whether the buffer holds no live value.
    pub fn is_empty(&self) -> (r: bool)
        ensures
            r == (self@.len() == 0),
    {
        self.len == 0
    }
}

/// Mutable access to the value in the occupied slot `index`; the slot stays
/// occupied whatever is written through the result.
fn occupied_slot_mut<T>(slots: &mut Vec<Option<T>>, index: usize) -> (r: Option<&mut T>)
    requires
        index < old(slots)@.len(),
        old(slots)@[index as int] is Some,
    ensures
        r matches Some(x) && *x == old(slots)@[index as int]->0,
        final(slots)@ == old(slots)@.update(index as int, Some(*final(r->0))),
    no_unwind
{
    match &mut slots[index] {
        Some(x) => Some(x),
        None => None,
    }
}

impl<T> View for MyVec<T> {
    type V = Seq<T>;

    /// The live values, in slot order.
    closed spec fn view(&self) -> Seq<T> {
        Seq::new(self.len as nat, |i: int| self.slots@[i]->0)
    }
}

/// The live values of a buffer holding `start` after `push_back` of each of
/// `values`, in order.
pub open spec fn appended<T>(start: Seq<T>, values: Seq<T>) -> Seq<T>
    decreases values.len(),
{
    if values.len() == 0 {
        start
    } else {
        appended(start, values.drop_last()).push(values.last())
    }
}

/// Appending values one after another to an empty buffer yields exactly
/// those values, in the order they were appended; when they are distinct,
/// each of them is held once.
pub proof fn lemma_appends_reproduce<T>(values: Seq<T>)
    ensures
        appended(Seq::empty(), values) == values,
        appended(Seq::empty(), values).len() == values.len(),
        forall|i: int|
            0 <= i < values.len() ==> #[trigger] appended(Seq::empty(), values)[i] == values[i],
        values.no_duplicates() ==> appended(Seq::empty(), values).no_duplicates(),
    decreases values.len(),
{
    if values.len() > 0 {
        lemma_appends_reproduce(values.drop_last());
        assert(values.drop_last().push(values.last()) =~= values);
    }
}

} // verus!
