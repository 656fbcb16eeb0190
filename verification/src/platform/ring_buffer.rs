//! Fixed-capacity FIFO that drops the newest item when full.

use vstd::prelude::*;

verus! {

proof fn lemma_advance(h: int, k: int, n: int)
    requires
        0 <= h,
        0 <= k,
        0 < n,
    ensures
        (k + (h + 1) % n) % n == (h + (k + 1)) % n,
        ((h + k) % n + 1) % n == (h + k + 1) % n,
{
    vstd::arithmetic::div_mod::lemma_add_mod_noop_right(k, h + 1, n);
    vstd::arithmetic::div_mod::lemma_add_mod_noop_right(1, h + k, n);
}

proof fn lemma_distinct(h: int, i: int, j: int, n: int)
    requires
        0 <= h,
        0 <= i < j < n,
    ensures
        (h + i) % n != (h + j) % n,
{
    vstd::arithmetic::div_mod::lemma_mod_equivalence(h + j, h + i, n);
    vstd::arithmetic::div_mod::lemma_small_mod((j - i) as nat, n as nat);
}

pub struct RingBuffer<T: Copy, const N: usize> {
    items: [Option<T>; N],
    head: usize,
    tail: usize,
    len: usize,
    dropped: usize,
}

impl<T: Copy, const N: usize> View for RingBuffer<T, N> {
    type V = Seq<T>;

    /// The queued items, oldest first.
    closed spec fn view(&self) -> Seq<T> {
        Seq::new(self.len as nat, |k: int| self.items@[(self.head + k) % (N as int)].unwrap())
    }
}

impl<T: Copy, const N: usize> RingBuffer<T, N> {
    #[verifier::type_invariant]
    spec fn inv(self) -> bool {
        &&& N > 0
        &&& self.head < N
        &&& self.len <= N
        &&& self.tail == (self.head + self.len) % (N as int)
        &&& forall|k: int| 0 <= k < self.len ==> (#[trigger] self.items@[(self.head + k) % (N as int)]) is Some
    }

    /// How many pushes were refused because the buffer was full.
    pub closed spec fn spec_dropped(&self) -> usize {
        self.dropped
    }

    /// An empty buffer.
    pub fn new() -> (buffer: RingBuffer<T, N>)
        requires
            N > 0,
        ensures
            buffer@ == Seq::<T>::empty(),
            buffer.spec_dropped() == 0,
    {
        proof { vstd::arithmetic::div_mod::lemma_small_mod(0, N as nat); }
        let buffer = RingBuffer { items: [None; N], head: 0, tail: 0, len: 0, dropped: 0 };
        assert(buffer@ =~= Seq::<T>::empty());
        buffer
    }

    /// Appends `item`; when the buffer is full the item is dropped and counted.
    pub fn push(&mut self, item: T)
        ensures
            final(self)@ == pushed(old(self)@, item, N as int),
            old(self)@.len() < N ==> final(self)@ == old(self)@.push(item)
                && final(self).spec_dropped() == old(self).spec_dropped(),
            old(self)@.len() == N ==> final(self)@ == old(self)@
                && final(self).spec_dropped() == (if old(self).spec_dropped() == usize::MAX {
                    usize::MAX
                } else {
                    (old(self).spec_dropped() + 1) as usize
                }),
    {
        proof { use_type_invariant(&*self); }
        if self.len == N {
            self.dropped = self.dropped.saturating_add(1);
            return;
        }
        let ghost before = self@;
        let mut items = self.items;
        items[self.tail] = Some(item);
        let tail = (self.tail + 1) % N;
        let len = self.len + 1;
        assert forall|k: int| 0 <= k < len implies (#[trigger] items@[(self.head + k) % (N as int)]) is Some by {
            if k < self.len {
                lemma_distinct(self.head as int, k, self.len as int, N as int);
            }
        }
        proof { lemma_advance(self.head as int, self.len as int, N as int); }
        *self = RingBuffer { items, head: self.head, tail, len, dropped: self.dropped };
        assert forall|k: int| 0 <= k < len implies #[trigger] self@[k] == before.push(item)[k] by {
            if k < len - 1 {
                lemma_distinct(self.head as int, k, len - 1, N as int);
            }
        }
        assert(self@ =~= before.push(item));
    }

    /// Removes and returns the oldest item.
    pub fn pop(&mut self) -> (item: Option<T>)
        ensures
            old(self)@.len() == 0 ==> item.is_none() && final(self)@ == old(self)@,
            old(self)@.len() > 0 ==> item == Some(old(self)@[0]) && final(self)@ == old(self)@.drop_first(),
            final(self).spec_dropped() == old(self).spec_dropped(),
    {
        proof { use_type_invariant(&*self); }
        if self.len == 0 {
            return None;
        }
        let ghost before = self@;
        let old_head = self.head;
        let mut items = self.items;
        let item = items[self.head];
        proof { vstd::arithmetic::div_mod::lemma_small_mod(self.head as nat, N as nat); }
        assert(self.head == (self.head + 0) % (N as int));
        items[self.head] = None;
        let head = (self.head + 1) % N;
        let len = self.len - 1;
        assert forall|k: int| 0 <= k < len implies (#[trigger] items@[(head + k) % (N as int)]) is Some by {
            lemma_advance(self.head as int, k, N as int);
            lemma_distinct(self.head as int, 0, k + 1, N as int);
        }
        proof { lemma_advance(self.head as int, len as int, N as int); }
        assert((len + head) % (N as int) == (head + len) % (N as int));
        *self = RingBuffer { items, head, tail: self.tail, len, dropped: self.dropped };
        assert forall|k: int| 0 <= k < len implies #[trigger] self@[k] == before.drop_first()[k] by {
            lemma_advance(old_head as int, k, N as int);
            assert((head + k) % (N as int) == (k + head) % (N as int));
        }
        assert(self@ =~= before.drop_first());
        item
    }

    /// How many pushes were refused because the buffer was full.
    pub fn dropped(&self) -> (dropped: usize)
        ensures
            dropped == self.spec_dropped(),
    {
        self.dropped
    }
}

/// The queue after pushing `item` into a buffer of `capacity` items: the
/// item is appended, or dropped when the buffer is full.
pub open spec fn pushed<T>(queued: Seq<T>, item: T, capacity: int) -> Seq<T> {
    if queued.len() < capacity {
        queued.push(item)
    } else {
        queued
    }
}

/// The queue after pushing each of `items` in turn.
pub open spec fn pushed_all<T>(queued: Seq<T>, items: Seq<T>, capacity: int) -> Seq<T>
    decreases items.len(),
{
    if items.len() == 0 {
        queued
    } else {
        pushed(pushed_all(queued, items.drop_last(), capacity), items.last(), capacity)
    }
}

/// First in, first out: pushes that fit are all kept, behind what was
/// already queued, so pops hand the items back in the order they were
/// pushed.
pub proof fn pushes_that_fit_come_out_in_order<T>(queued: Seq<T>, items: Seq<T>, capacity: int)
    requires
        queued.len() + items.len() <= capacity,
    ensures
        pushed_all(queued, items, capacity) == queued + items,
    decreases items.len(),
{
    if items.len() > 0 {
        pushes_that_fit_come_out_in_order(queued, items.drop_last(), capacity);
        assert(queued + items.drop_last() + seq![items.last()] =~= queued + items);
        assert((queued + items.drop_last()).push(items.last()) =~= queued + items);
    }
}

/// A full buffer keeps what it holds: every later push is dropped.
pub proof fn a_full_buffer_drops_new_items<T>(queued: Seq<T>, items: Seq<T>, capacity: int)
    requires
        queued.len() >= capacity,
    ensures
        pushed_all(queued, items, capacity) == queued,
    decreases items.len(),
{
    if items.len() > 0 {
        a_full_buffer_drops_new_items(queued, items.drop_last(), capacity);
    }
}

} // verus!
