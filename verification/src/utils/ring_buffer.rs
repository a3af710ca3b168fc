//! A rolling window of values.

use vstd::prelude::*;

verus! {

/// Fixed-size ring buffer for maintaining a rolling window of values.
/// When full, new values overwrite the oldest entry.
#[derive(Debug, Clone)]
pub struct RingBuffer<T> {
    buf: Vec<Option<T>>,
    head: usize,
    len: usize,
    capacity: usize,
}

/// The slot that is `i` places after `start` in a ring of `capacity` slots.
spec fn slot_after(start: int, i: int, capacity: int) -> int {
    if start + i < capacity {
        start + i
    } else {
        start + i - capacity
    }
}

spec fn window<T>(buf: Seq<Option<T>>, start: int, len: int) -> Seq<T> {
    Seq::new(len as nat, |i: int| buf[slot_after(start, i, buf.len() as int)]->Some_0)
}

spec fn window_filled<T>(buf: Seq<Option<T>>, start: int, len: int) -> bool {
    forall|i: int|
        0 <= i < len ==> (#[trigger] buf[slot_after(start, i, buf.len() as int)]) is Some
}

impl<T> View for RingBuffer<T> {
    /// The values held, from oldest to newest.
    type V = Seq<T>;

    closed spec fn view(&self) -> Seq<T> {
        window(self.buf@, self.start(), self.len as int)
    }
}

impl<T> RingBuffer<T> {
    spec fn start(&self) -> int {
        if self.len < self.capacity {
            0
        } else {
            self.head as int
        }
    }

    /// How many values the window can hold.
    pub closed spec fn room(&self) -> nat {
        self.capacity as nat
    }

    pub closed spec fn wf(&self) -> bool {
        &&& self.buf@.len() == self.capacity
        &&& self.len <= self.capacity
        &&& self.head < self.capacity || (self.head == 0 && self.capacity == 0)
        &&& self.len < self.capacity ==> self.head == self.len
        &&& window_filled(self.buf@, self.start(), self.len as int)
    }

    /// No more values are held than there is room for.
    pub proof fn lemma_fits(&self)
        requires
            self.wf(),
        ensures
            self@.len() <= self.room(),
    {
    }
}

impl<T: Clone> RingBuffer<T> {
    pub fn new(capacity: usize) -> (r: Self)
        ensures
            r.wf(),
            r@ == Seq::<T>::empty(),
            r.room() == capacity,
    {
        let mut buf: Vec<Option<T>> = Vec::new();
        let mut i: usize = 0;
        while i < capacity
            invariant
                i <= capacity,
                buf@.len() == i,
            decreases capacity - i,
        {
            buf.push(None);
            i = i + 1;
        }
        let r = RingBuffer { buf, head: 0, len: 0, capacity };
        assert(r@ =~= Seq::<T>::empty());
        r
    }

    /// Adds a value; the oldest one leaves a full buffer.
    pub fn push(&mut self, value: T)
        requires
            old(self).wf(),
            old(self).room() > 0,
        ensures
            final(self).wf(),
            final(self).room() == old(self).room(),
            final(self)@ == if old(self)@.len() < old(self).room() {
                old(self)@.push(value)
            } else {
                old(self)@.drop_first().push(value)
            },
    {
        let ghost before = *self;
        let at: usize = self.head;
        self.buf.set(at, Some(value));
        self.head = if at + 1 == self.capacity { 0 } else { at + 1 };
        if self.len < self.capacity {
            self.len = self.len + 1;
        }
        proof {
            let cap = self.capacity as int;
            assert forall|i: int| 0 <= i < self.len implies (#[trigger] self.buf@[slot_after(
                self.start(),
                i,
                cap,
            )]) is Some by {
                let j = slot_after(self.start(), i, cap);
                if before.len < before.capacity {
                    if i < before.len {
                        assert(before.buf@[slot_after(0, i, cap)] is Some);
                    }
                } else if j != at {
                    assert(j == slot_after(before.start(), i + 1, cap));
                    assert(before.buf@[slot_after(before.start(), i + 1, cap)] is Some);
                }
            }
            let expected = if before.len < before.capacity {
                before@.push(value)
            } else {
                before@.drop_first().push(value)
            };
            assert(self@.len() == expected.len());
            assert forall|i: int| 0 <= i < self@.len() implies self@[i] == expected[i] by {
                let j = slot_after(self.start(), i, cap);
                if before.len == before.capacity && j != at {
                    assert(j == slot_after(before.start(), i + 1, cap));
                }
            }
            assert(self@ =~= expected);
        }
    }

    pub fn len(&self) -> (r: usize)
        ensures
            r == self@.len(),
    {
        self.len
    }

    pub fn is_empty(&self) -> (r: bool)
        ensures
            r == (self@.len() == 0),
    {
        self.len == 0
    }

    pub fn is_full(&self) -> (r: bool)
        ensures
            r == (self@.len() == self.room()),
    {
        self.len == self.capacity
    }

    /// Returns the most recently pushed item.
    pub fn latest(&self) -> (r: Option<&T>)
        requires
            self.wf(),
        ensures
            r == if self@.len() == 0 { None } else { Some(&self@.last()) },
    {
        if self.len == 0 {
            return None;
        }
        let idx: usize = if self.head == 0 { self.capacity - 1 } else { self.head - 1 };
        assert(idx == slot_after(self.start(), self.len - 1, self.capacity as int));
        assert(self.buf@[slot_after(self.start(), self.len - 1, self.buf@.len() as int)] is Some);
        self.buf[idx].as_ref()
    }

    /// Returns the oldest item in the buffer.
    pub fn oldest(&self) -> (r: Option<&T>)
        requires
            self.wf(),
        ensures
            r == if self@.len() == 0 { None } else { Some(&self@.first()) },
    {
        if self.len == 0 {
            return None;
        }
        let idx: usize = if self.len < self.capacity { 0 } else { self.head };
        assert(idx == slot_after(self.start(), 0, self.capacity as int));
        assert(self.buf@[slot_after(self.start(), 0, self.buf@.len() as int)] is Some);
        self.buf[idx].as_ref()
    }

    /// Iterates from oldest to newest.
    pub fn iter(&self) -> (r: RingBufferIter<'_, T>)
        requires
            self.wf(),
        ensures
            r.wf(),
            r@ == self@,
    {
        let start: usize = if self.len < self.capacity { 0 } else { self.head };
        let r = RingBufferIter {
            buf: &self.buf,
            start,
            count: 0,
            len: self.len,
            capacity: self.capacity,
        };
        assert(r@ =~= self@);
        r
    }

    pub fn clear(&mut self)
        requires
            old(self).wf(),
        ensures
            final(self).wf(),
            final(self).room() == old(self).room(),
            final(self)@ == Seq::<T>::empty(),
    {
        let mut i: usize = 0;
        let ghost cap = self.capacity;
        while i < self.buf.len()
            invariant
                i <= self.buf@.len(),
                self.buf@.len() == cap,
                self.capacity == cap,
            decreases self.buf@.len() - i,
        {
            self.buf.set(i, None);
            i = i + 1;
        }
        self.head = 0;
        self.len = 0;
        assert(self@ =~= Seq::<T>::empty());
    }
}

/// Walks a ring buffer from the oldest value to the newest.
pub struct RingBufferIter<'a, T> {
    buf: &'a Vec<Option<T>>,
    start: usize,
    count: usize,
    len: usize,
    capacity: usize,
}

impl<'a, T> View for RingBufferIter<'a, T> {
    /// The values still to come.
    type V = Seq<T>;

    closed spec fn view(&self) -> Seq<T> {
        window(self.buf@, self.start as int, self.len as int).skip(self.count as int)
    }
}

impl<'a, T> RingBufferIter<'a, T> {
    pub closed spec fn wf(&self) -> bool {
        &&& self.buf@.len() == self.capacity
        &&& self.count <= self.len <= self.capacity
        &&& self.start < self.capacity || self.capacity == 0
        &&& window_filled(self.buf@, self.start as int, self.len as int)
    }

    pub fn next(&mut self) -> (r: Option<&'a T>)
        requires
            old(self).wf(),
        ensures
            final(self).wf(),
            old(self)@.len() == 0 ==> r is None && final(self)@ == old(self)@,
            old(self)@.len() > 0 ==> r == Some(&old(self)@.first()) && final(self)@
                == old(self)@.drop_first(),
    {
        if self.count >= self.len {
            return None;
        }
        let ghost before = *self;
        let room: usize = self.capacity - self.start;
        let idx: usize = if self.count < room {
            self.start + self.count
        } else {
            self.count - room
        };
        assert(idx == slot_after(self.start as int, self.count as int, self.buf@.len() as int));
        assert(self.buf@[slot_after(
            self.start as int,
            self.count as int,
            self.buf@.len() as int,
        )] is Some);
        self.count = self.count + 1;
        assert(self@ =~= before@.drop_first());
        self.buf[idx].as_ref()
    }

    /// The values still to come, in order.
    pub fn collect(self) -> (r: Vec<&'a T>)
        requires
            self.wf(),
        ensures
            r@.len() == self@.len(),
            forall|i: int| 0 <= i < r@.len() ==> *(#[trigger] r@[i]) == self@[i],
    {
        let mut rest = self;
        let mut out: Vec<&'a T> = Vec::new();
        while rest.count < rest.len
            invariant
                rest.wf(),
                out@.len() + rest@.len() == self@.len(),
                rest@ == self@.skip(out@.len() as int),
                forall|i: int| 0 <= i < out@.len() ==> *(#[trigger] out@[i]) == self@[i],
            decreases rest.len - rest.count,
        {
            let ghost k = out@.len() as int;
            if let Some(item) = rest.next() {
                assert(*item == self@[k]);
                out.push(item);
            }
            assert(rest@ =~= self@.skip(k + 1));
        }
        out
    }
}

/// The newest of some values, no more than there is room for.
pub open spec fn newest<T>(values: Seq<T>, room: nat) -> Seq<T> {
    if values.len() <= room {
        values
    } else {
        values.skip(values.len() - room)
    }
}

/// A rolling window holds the newest of all values ever added: adding one to a
/// window of the newest values, where the oldest leaves a full window, gives
/// the newest values again.
pub proof fn lemma_window_rolls<T>(values: Seq<T>, room: nat, value: T)
    requires
        room > 0,
    ensures
        newest(values, room).len() <= room,
        newest(values.push(value), room) == if newest(values, room).len() < room {
            newest(values, room).push(value)
        } else {
            newest(values, room).drop_first().push(value)
        },
{
    let before = newest(values, room);
    let after = newest(values.push(value), room);
    if before.len() < room {
        assert(after =~= before.push(value));
    } else {
        assert(after =~= before.drop_first().push(value));
    }
}

} // verus!
