//! A byte-oriented circular buffer over a borrowed backing slice.
use vstd::prelude::*;

use crate::bytes::{copy_part, overlay};

verus! {

/// A circular buffer: a read head and a length; the write position (`tail`) is
/// derived. Producers fill it with [`write`](RingBuffer::write), or through the
/// contiguous [`writable`](RingBuffer::writable) region in up to two passes;
/// consumers drain it with [`read`](RingBuffer::read), or through
/// [`readable`](RingBuffer::readable).
pub struct RingBuffer<'a> {
    buf: &'a mut [u8],
    head: usize,
    len: usize,
}

/// The slot `i` places behind `head`, going round at `capacity`.
pub open spec fn slot(head: int, i: int, capacity: int) -> int {
    if head + i < capacity {
        head + i
    } else {
        head + i - capacity
    }
}

/// The smaller of two lengths.
pub open spec fn min(a: int, b: int) -> int {
    if a <= b {
        a
    } else {
        b
    }
}

impl<'a> View for RingBuffer<'a> {
    type V = Seq<u8>;

    /// The stored bytes, oldest first.
    closed spec fn view(&self) -> Seq<u8> {
        self.round().take(self.len as int)
    }
}

impl<'a> RingBuffer<'a> {
    /// All slots, from the head once round.
    spec fn round(&self) -> Seq<u8> {
        Seq::new(
            self.buf@.len(),
            |i: int| self.buf@[slot(self.head as int, i, self.buf@.len() as int)],
        )
    }

    /// The bytes in the free slots, in the order in which they are next written.
    pub closed spec fn spare(&self) -> Seq<u8> {
        self.round().skip(self.len as int)
    }

    pub closed spec fn wf(&self) -> bool {
        &&& self.len <= self.buf@.len()
        &&& self.head < self.buf@.len() || self.head == 0
    }

    /// The number of slots.
    pub open spec fn slots(&self) -> nat {
        self@.len() + self.spare().len()
    }

    /// The read position: the slot that is read next.
    pub closed spec fn read_at(&self) -> int {
        self.head as int
    }

    /// The write position: the slot that is written next.
    pub open spec fn write_at(&self) -> int {
        slot(self.read_at(), self@.len() as int, self.slots() as int)
    }

    /// The length of the first free run, before the write position goes round.
    pub open spec fn write_run(&self) -> int {
        min(self.spare().len() as int, self.slots() - self.write_at())
    }

    /// The length of the first stored run, before the read position goes round.
    pub open spec fn read_run(&self) -> int {
        min(self@.len() as int, self.slots() - self.read_at())
    }

    pub fn new(buf: &'a mut [u8]) -> (ring: Self)
        ensures
            ring.wf(),
            ring@ == Seq::<u8>::empty(),
            ring.spare() == old(buf)@,
            ring.read_at() == 0,
    {
        let ring = RingBuffer { buf, head: 0, len: 0 };
        proof {
            assert(ring.round() =~= old(buf)@);
            assert(ring.round().skip(0) =~= old(buf)@);
        }
        ring
    }

    pub fn capacity(&self) -> (n: usize)
        requires
            self.wf(),
        ensures
            n == self.slots(),
    {
        self.buf.len()
    }

    pub fn len(&self) -> (n: usize)
        requires
            self.wf(),
        ensures
            n == self@.len(),
    {
        self.len
    }

    pub fn free(&self) -> (n: usize)
        requires
            self.wf(),
        ensures
            n == self.spare().len(),
    {
        self.capacity() - self.len
    }

    /// The slot that is written next.
    fn tail(&self) -> (t: usize)
        requires
            self.wf(),
        ensures
            t == self.write_at(),
            self.slots() > 0 ==> t < self.slots(),
    {
        let cap = self.capacity();
        if self.len >= cap - self.head {
            self.len - (cap - self.head)
        } else {
            self.head + self.len
        }
    }

    /// The largest contiguous run of free space available for writing right now.
    ///
    /// Because the buffer wraps, this may be shorter than
    /// [`free`](RingBuffer::free); call repeatedly (with
    /// [`advance_write`](RingBuffer::advance_write) in between) to fill the rest.
    pub fn writable(&mut self) -> (run: &mut [u8])
        requires
            old(self).wf(),
        ensures
            run@.len() == old(self).write_run(),
            run@.len() <= old(self).spare().len(),
            old(self).spare().len() > 0 ==> run@.len() > 0,
            run@ == old(self).spare().take(run@.len() as int),
            final(run)@.len() == run@.len() ==> {
                &&& final(self).wf()
                &&& final(self)@ == old(self)@
                &&& final(self).spare() == final(run)@ + old(self).spare().skip(run@.len() as int)
                &&& final(self).read_at() == old(self).read_at()
            },
    {
        if self.free() == 0 {
            let (none, _) = self.buf.split_at_mut(0);
            return none;
        }
        let cap = self.capacity();
        let tail = self.tail();
        // When the data does not wrap (tail >= head), free space runs from
        // `tail` to the end of the slice; otherwise it runs `tail..head`.
        let end = if tail >= self.head {
            cap
        } else {
            self.head
        };
        let (_, rest) = self.buf.split_at_mut(tail);
        let (run, _) = rest.split_at_mut(end - tail);
        run
    }

    /// Commit `n` bytes previously written into the
    /// [`writable`](RingBuffer::writable) region. Once all of that region is
    /// committed, the next one is all the space that is left: two passes always
    /// fill the buffer.
    pub fn advance_write(&mut self, n: usize)
        requires
            old(self).wf(),
            n <= old(self).spare().len(),
        ensures
            final(self).wf(),
            final(self)@ == old(self)@ + old(self).spare().take(n as int),
            final(self).spare() == old(self).spare().skip(n as int),
            final(self).read_at() == old(self).read_at(),
            n == old(self).write_run() ==> final(self).write_run() == final(self).spare().len(),
    {
        let cap = self.capacity();
        assert(self.len + n <= cap);
        self.len = self.len + n;
        proof {
            let r = self.round();
            assert(r == old(self).round());
            assert(self@ =~= old(self)@ + old(self).spare().take(n as int));
            assert(self.spare() =~= old(self).spare().skip(n as int));
        }
    }

    /// Copy up to `src.len()` bytes into the buffer, returning the number
    /// actually stored (which is `min(src.len(), self.free())`).
    pub fn write(&mut self, src: &[u8]) -> (written: usize)
        requires
            old(self).wf(),
        ensures
            final(self).wf(),
            written == min(src@.len() as int, old(self).spare().len() as int),
            final(self)@ == old(self)@ + src@.take(written as int),
            final(self).spare() == old(self).spare().skip(written as int),
            final(self).read_at() == old(self).read_at(),
    {
        let cap = self.capacity();
        let given = src.len();
        let mut written: usize = 0;
        proof {
            assert(self@ =~= old(self)@ + src@.take(0));
            assert(self.spare() =~= old(self).spare().skip(0));
        }
        while written < given && self.len < cap
            invariant
                self.wf(),
                cap == self.buf@.len(),
                given == src@.len(),
                written <= given,
                written <= old(self).spare().len(),
                self.head == old(self).head,
                self.spare() == old(self).spare().skip(written as int),
                self@ == old(self)@ + src@.take(written as int),
            decreases given - written,
        {
            let ghost before = *self;
            let tail = self.tail();
            // Length of the contiguous free run starting at `tail`.
            let run = if cap - self.len <= cap - tail {
                cap - self.len
            } else {
                cap - tail
            };
            let n = if run <= given - written {
                run
            } else {
                given - written
            };
            copy_part(self.buf, tail, src, written, n);
            let ghost part = src@.subrange(written as int, written + n);
            let ghost round = overlay(before.round(), before.len as int, part);
            assert(self.round() =~= round);
            self.len = self.len + n;
            proof {
                assert(self.round() == round);
                assert(self@ =~= before@ + part);
                assert(src@.take(written as int) + part =~= src@.take(written + n));
                assert(self.spare() =~= before.spare().skip(n as int));
            }
            written = written + n;
            proof {
                assert(self@ =~= old(self)@ + src@.take(written as int));
                assert(self.spare() =~= old(self).spare().skip(written as int));
            }
        }
        written
    }

    /// The largest contiguous run of stored data available for reading right
    /// now. Because the buffer wraps, this may be shorter than
    /// [`len`](RingBuffer::len); call repeatedly (with
    /// [`advance_read`](RingBuffer::advance_read) in between) to drain the rest.
    pub fn readable(&self) -> (run: &[u8])
        requires
            self.wf(),
        ensures
            run@.len() == self.read_run(),
            self@.len() > 0 ==> run@.len() > 0,
            run@.len() <= self@.len(),
            run@ == self@.take(run@.len() as int),
    {
        if self.len == 0 {
            let run = &self.buf[0..0];
            assert(run@ =~= self@.take(0));
            return run;
        }
        let cap = self.capacity();
        let run = if self.len <= cap - self.head {
            self.len
        } else {
            cap - self.head
        };
        let part = &self.buf[self.head..self.head + run];
        assert(part@ =~= self@.take(run as int));
        part
    }

    /// Discard `n` bytes previously taken from the
    /// [`readable`](RingBuffer::readable) region. Once all of that region is
    /// discarded, the next one is all the data that is left: two passes always
    /// drain the buffer.
    pub fn advance_read(&mut self, n: usize)
        requires
            old(self).wf(),
            n <= old(self)@.len(),
        ensures
            final(self).wf(),
            final(self)@ == old(self)@.skip(n as int),
            final(self).spare() == old(self).spare() + old(self)@.take(n as int),
            final(self).read_at() == slot(old(self).read_at(), n as int, old(self).slots() as int),
            n == old(self).read_run() ==> final(self).read_run() == final(self)@.len(),
    {
        let cap = self.capacity();
        self.head = if n >= cap - self.head {
            n - (cap - self.head)
        } else {
            self.head + n
        };
        self.len = self.len - n;
        proof {
            assert(self@ =~= old(self)@.skip(n as int));
            assert(self.spare() =~= old(self).spare() + old(self)@.take(n as int));
        }
    }

    /// Copy out up to `dst.len()` bytes, returning the number actually copied
    /// (which is `min(dst.len(), self.len())`).
    pub fn read(&mut self, dst: &mut [u8]) -> (copied: usize)
        requires
            old(self).wf(),
        ensures
            final(self).wf(),
            copied == min(old(dst)@.len() as int, old(self)@.len() as int),
            final(dst)@ == overlay(old(dst)@, 0, old(self)@.take(copied as int)),
            final(self)@ == old(self)@.skip(copied as int),
            final(self).spare() == old(self).spare() + old(self)@.take(copied as int),
            final(self).read_at() == slot(
                old(self).read_at(),
                copied as int,
                old(self).slots() as int,
            ),
    {
        let room = dst.len();
        let mut copied: usize = 0;
        proof {
            assert(dst@ =~= overlay(old(dst)@, 0, old(self)@.take(0)));
            assert(old(self)@.skip(0) =~= old(self)@);
            assert(old(self).spare() + old(self)@.take(0) =~= old(self).spare());
        }
        while copied < room && self.len > 0
            invariant
                self.wf(),
                room == dst@.len(),
                room == old(dst)@.len(),
                copied <= room,
                copied <= old(self)@.len(),
                old(self).wf(),
                self.slots() == old(self).slots(),
                self.head == slot(
                    old(self).read_at(),
                    copied as int,
                    old(self).slots() as int,
                ),
                self@ == old(self)@.skip(copied as int),
                self.spare() == old(self).spare() + old(self)@.take(copied as int),
                dst@ == overlay(old(dst)@, 0, old(self)@.take(copied as int)),
            decreases room - copied,
        {
            // The contiguous readable run starting at `head`.
            let run = self.readable();
            let n = if run.len() <= room - copied {
                run.len()
            } else {
                room - copied
            };
            copy_part(dst, copied, run, 0, n);
            let ghost before = *self;
            self.advance_read(n);
            proof {
                let all = old(self)@;
                assert(before@.take(n as int) =~= all.subrange(copied as int, copied + n));
                assert(all.take(copied as int) + before@.take(n as int) =~= all.take(copied + n));
                assert(self@ =~= all.skip(copied + n));
                assert(self.spare() =~= old(self).spare() + all.take(copied + n));
                assert(dst@ =~= overlay(old(dst)@, 0, all.take(copied + n)));
            }
            copied = copied + n;
        }
        copied
    }

    /// Copy out up to `dst.len()` bytes without consuming them, returning the
    /// number copied.
    pub fn peek(&self, dst: &mut [u8]) -> (copied: usize)
        requires
            self.wf(),
        ensures
            copied == min(old(dst)@.len() as int, self@.len() as int),
            final(dst)@ == overlay(old(dst)@, 0, self@.take(copied as int)),
    {
        let cap = self.capacity();
        let room = dst.len();
        let n = if room <= self.len {
            room
        } else {
            self.len
        };
        if n == 0 {
            assert(dst@ =~= overlay(old(dst)@, 0, self@.take(0)));
            return 0;
        }
        let first = if n <= cap - self.head {
            n
        } else {
            cap - self.head
        };
        copy_part(dst, 0, self.buf, self.head, first);
        copy_part(dst, first, self.buf, 0, n - first);
        assert(dst@ =~= overlay(old(dst)@, 0, self@.take(n as int)));
        n
    }
}

} // verus!
