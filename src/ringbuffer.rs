use vstd::prelude::*;

verus! {

/// A fixed-capacity queue over a buffer that wraps around, handing out
/// contiguous chunks for writing and reading.
pub struct RingBuffer<T> {
    buf: Vec<T>,
    start: usize,
    length: usize,
}

impl<T> RingBuffer<T> {
    /// Index of the `i`-th slot after `start`, wrapping once around the buffer.
    spec fn slot(&self, i: int) -> int {
        let k = self.start + i;
        if k < self.buf@.len() {
            k
        } else {
            k - self.buf@.len()
        }
    }

    pub closed spec fn wf(&self) -> bool {
        &&& self.length <= self.buf@.len()
        &&& (self.start < self.buf@.len() || (self.buf@.len() == 0 && self.start == 0))
    }

    /// How many items the buffer holds at most.
    pub closed spec fn capacity(&self) -> nat {
        self.buf@.len()
    }

    /// How many items the next contiguous free chunk has room for.
    pub closed spec fn writeable_chunk_len(&self) -> nat {
        if self.length < self.buf@.len() {
            let b = self.slot(self.length as int);
            if self.start > b {
                (self.start - b) as nat
            } else {
                (self.buf@.len() - b) as nat
            }
        } else {
            0
        }
    }

    /// How many items the next contiguous filled chunk holds.
    pub closed spec fn readable_chunk_len(&self) -> nat {
        if self.start + self.length <= self.buf@.len() {
            self.length as nat
        } else {
            (self.buf@.len() - self.start) as nat
        }
    }

    /// A well-formed buffer holds at most its capacity; the next free chunk
    /// fits in the room left and is non-empty while there is room; the next
    /// filled chunk is no longer than the contents and non-empty while there
    /// are any.
    pub proof fn lemma_bounds(&self)
        requires
            self.wf(),
        ensures
            self@.len() <= self.capacity(),
            self.writeable_chunk_len() <= self.capacity() - self@.len(),
            self@.len() < self.capacity() ==> self.writeable_chunk_len() > 0,
            self@.len() == self.capacity() ==> self.writeable_chunk_len() == 0,
            self.readable_chunk_len() <= self@.len(),
            self@.len() > 0 ==> self.readable_chunk_len() > 0,
    {
    }

    /// An empty queue over `buf`, whose contents are overwritten as it fills.
    pub fn new(buf: Vec<T>) -> (r: Self)
        ensures
            r.wf(),
            r@ == Seq::<T>::empty(),
            r.capacity() == buf@.len(),
    {
        let r = RingBuffer { buf, start: 0, length: 0 };
        assert(r@ =~= Seq::<T>::empty());
        r
    }

    /// How many items are queued.
    pub fn len(&self) -> (r: usize)
        ensures
            r == self@.len(),
            self.wf() ==> r <= self.capacity(),
    {
        self.length
    }
}

impl<T> View for RingBuffer<T> {
    type V = Seq<T>;

    /// The queued items, oldest first.
    closed spec fn view(&self) -> Seq<T> {
        Seq::new(self.length as nat, |i: int| self.buf@[self.slot(i)])
    }
}

impl<T: Copy> RingBuffer<T> {
    /// Appends as much of `data` as fits in the next contiguous free chunk,
    /// and says how much that was.
    pub fn with_next_writeable_chunk(&mut self, data: &[T]) -> (n: usize)
        requires
            old(self).wf(),
        ensures
            final(self).wf(),
            final(self).capacity() == old(self).capacity(),
            n == vstd::math::min(data@.len() as int, old(self).writeable_chunk_len() as int),
            final(self)@ == old(self)@ + data@.take(n as int),
            old(self)@.len() < old(self).capacity() && data@.len() > 0 ==> n > 0,
            n <= old(self).capacity() - old(self)@.len(),
            old(self)@.len() == old(self).capacity() ==> n == 0,
            final(self)@.len() == old(self)@.len() + n <= final(self).capacity(),
    {
        let cap = self.buf.len();
        if self.length >= cap {
            assert(data@.take(0) =~= Seq::<T>::empty());
            assert(self@ =~= self@ + data@.take(0));
            return 0;
        }
        let begin = if self.length < cap - self.start {
            self.start + self.length
        } else {
            self.length - (cap - self.start)
        };
        let end = if self.start > begin {
            self.start
        } else {
            cap
        };
        let room = end - begin;
        let n = if data.len() < room {
            data.len()
        } else {
            room
        };
        let ghost old_self = *self;
        let mut j: usize = 0;
        while j < n
            invariant
                j <= n <= room,
                room == end - begin,
                begin < end <= cap,
                cap == self.buf@.len(),
                n <= data@.len(),
                old_self.wf(),
                old_self.buf@.len() == cap,
                self.start == old_self.start,
                self.length == old_self.length,
                self.length < cap,
                begin == old_self.slot(old_self.length as int),
                end == if old_self.start > begin { old_self.start as int } else { cap as int },
                forall|i: int|
                    0 <= i < cap && !(begin <= i < begin + j) ==> self.buf@[i]
                        == old_self.buf@[i],
                forall|i: int| 0 <= i < j ==> self.buf@[begin + i] == data@[i],
            decreases n - j,
        {
            self.buf[begin + j] = data[j];
            j += 1;
        }
        self.length = self.length + n;
        assert(self@ =~= old_self@ + data@.take(n as int)) by {
            assert forall|i: int| 0 <= i < self.length implies self@[i] == (old_self@ + data@.take(
                n as int,
            ))[i] by {
                if i < old_self.length {
                    assert(self.slot(i) == old_self.slot(i));
                    assert(!(begin <= old_self.slot(i) < begin + n));
                } else {
                    assert(self.slot(i) == begin + (i - old_self.length));
                }
            }
        }
        n
    }

    /// Removes up to `max` items from the next contiguous filled chunk and
    /// returns them, oldest first.
    pub fn with_next_readable_chunk(&mut self, max: usize) -> (r: Vec<T>)
        requires
            old(self).wf(),
        ensures
            final(self).wf(),
            final(self).capacity() == old(self).capacity(),
            r@.len() == vstd::math::min(max as int, old(self).readable_chunk_len() as int),
            r@ == old(self)@.take(r@.len() as int),
            final(self)@ == old(self)@.skip(r@.len() as int),
            old(self)@.len() > 0 && max > 0 ==> r@.len() > 0,
            r@.len() <= old(self)@.len(),
            old(self)@.len() == 0 ==> r@.len() == 0,
            final(self)@.len() == old(self)@.len() - r@.len(),
    {
        let cap = self.buf.len();
        let avail = if self.length <= cap - self.start {
            self.length
        } else {
            cap - self.start
        };
        let k = if max < avail {
            max
        } else {
            avail
        };
        let ghost old_self = *self;
        let mut out: Vec<T> = Vec::new();
        let mut j: usize = 0;
        while j < k
            invariant
                j <= k <= avail,
                avail <= self.length,
                self.start + avail <= cap,
                *self == old_self,
                old_self.wf(),
                cap == self.buf@.len(),
                out@.len() == j,
                forall|i: int| 0 <= i < j ==> out@[i] == old_self@[i],
            decreases k - j,
        {
            out.push(self.buf[self.start + j]);
            assert(old_self.slot(j as int) == self.start + j);
            j += 1;
        }
        let next = self.start + k;
        self.start = if next < cap {
            next
        } else {
            0
        };
        self.length = self.length - k;
        assert(out@ =~= old_self@.take(k as int));
        assert(self@ =~= old_self@.skip(k as int)) by {
            assert forall|i: int| 0 <= i < self.length implies self@[i] == old_self@[k + i] by {
                assert(self.slot(i) == old_self.slot(k + i));
            }
        }
        out
    }
}

} // verus!
