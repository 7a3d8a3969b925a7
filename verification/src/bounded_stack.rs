//! A stack that holds at most a fixed number of items and forgets the oldest.

use vstd::prelude::*;

verus! {

/// This data structure provides operations on a stack with a fixed capacity such that push is O(n), pop is O(1).
/// The inefficient O(n) push is acceptable since n is small, and since this vector implementation allocates memory
/// only once, it is much preferred over a linked list implementation.
#[derive(Debug)]
pub struct BoundedStack<T> {
    items: Vec<T>,
    capacity: usize,
}

/// The items after pushing `item` on a stack of capacity `capacity` that holds
/// `items`: at capacity the oldest item goes first.
pub open spec fn pushed<T>(items: Seq<T>, capacity: nat, item: T) -> Seq<T> {
    if items.len() == capacity {
        items.drop_first().push(item)
    } else {
        items.push(item)
    }
}

impl<T> View for BoundedStack<T> {
    type V = Seq<T>;

    /// The items, oldest first.
    closed spec fn view(&self) -> Seq<T> {
        self.items@
    }
}

impl<T> BoundedStack<T> {
    /// The most items the stack holds.
    pub closed spec fn limit(&self) -> nat {
        self.capacity as nat
    }

    #[verifier::type_invariant]
    closed spec fn within_capacity(&self) -> bool {
        &&& self.capacity > 0
        &&& self.items@.len() <= self.capacity
    }

    pub fn new(capacity: usize) -> (s: Self)
        requires
            capacity > 0,
        ensures
            s@ == Seq::<T>::empty(),
            s.limit() == capacity,
    {
        Self { items: Vec::with_capacity(capacity), capacity }
    }

    /// If capacity would be exceeded, first delete the oldest item to make room,
    /// and then push the new item on top of stack.
    pub fn push(&mut self, item: T)
        ensures
            final(self)@ == pushed(old(self)@, old(self).limit(), item),
            final(self).limit() == old(self).limit(),
            final(self)@.len() <= final(self).limit(),
    {
        proof {
            use_type_invariant(&*self);
        }
        let mut items = Vec::new();
        std::mem::swap(&mut items, &mut self.items);
        if items.len() == self.capacity {
            items.remove(0);
        }
        items.push(item);
        assert(items@ =~= pushed(old(self)@, old(self).limit(), item));
        self.items = items;
    }

    /// Remove and get the newest item on top of stack.
    pub fn pop(&mut self) -> (r: Option<T>)
        ensures
            old(self)@.len() == 0 ==> r is None && final(self)@ == old(self)@,
            old(self)@.len() > 0 ==> r == Some(old(self)@.last()) && final(self)@ == old(self)@.drop_last(),
            final(self).limit() == old(self).limit(),
    {
        proof {
            use_type_invariant(&*self);
        }
        let mut items = Vec::new();
        std::mem::swap(&mut items, &mut self.items);
        let r = items.pop();
        self.items = items;
        r
    }

    /// Empty the stack.
    pub fn clear(&mut self)
        ensures
            final(self)@ == Seq::<T>::empty(),
            final(self).limit() == old(self).limit(),
    {
        proof {
            use_type_invariant(&*self);
        }
        let mut items = Vec::new();
        std::mem::swap(&mut items, &mut self.items);
        items.clear();
        self.items = items;
    }

    /// The items, oldest first.
    pub fn items(&self) -> (r: &Vec<T>)
        ensures
            r@ == self@,
    {
        &self.items
    }
}

/// After a push the newest item is on top, the stack holds no more than its
/// capacity, and a pop gives back the pushed item and leaves what the push
/// kept: everything before, or everything but the oldest when it was full.
pub proof fn lemma_push_then_pop<T>(items: Seq<T>, capacity: nat, item: T)
    requires
        capacity > 0,
        items.len() <= capacity,
    ensures
        pushed(items, capacity, item).len() <= capacity,
        pushed(items, capacity, item).last() == item,
        pushed(items, capacity, item).drop_last() == if items.len() == capacity {
            items.drop_first()
        } else {
            items
        },
{
    assert(pushed(items, capacity, item).drop_last() =~= if items.len() == capacity {
        items.drop_first()
    } else {
        items
    });
}

/// A push keeps the newest items: those pushed before, the item last, cut to
/// the capacity from the oldest side.
pub proof fn lemma_push_keeps_newest<T>(items: Seq<T>, capacity: nat, item: T)
    requires
        capacity > 0,
        items.len() <= capacity,
    ensures
        pushed(items, capacity, item) == items.push(item).subrange(
            items.push(item).len() - pushed(items, capacity, item).len(),
            items.push(item).len() as int,
        ),
{
    assert(pushed(items, capacity, item) =~= items.push(item).subrange(
        items.push(item).len() - pushed(items, capacity, item).len(),
        items.push(item).len() as int,
    ));
}

} // verus!
