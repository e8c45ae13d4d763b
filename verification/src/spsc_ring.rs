//! The byte ring between one producer and one consumer, with a count of the
//! frames that stand complete in it.
//!
//! - **rx ring**: produced by the chip-servicing side, consumed by the
//!   application through a socket's `read`.
//! - **tx ring**: produced by the application through `write`, consumed by the
//!   chip-servicing side.
//!
//! The buffer is installed once, when the socket is opened; until then the ring
//! has no capacity and every `read` and `write` moves nothing.
use vstd::prelude::*;

use crate::bytes::overlay;
use crate::ring_buffer::{min, RingBuffer};

verus! {

/// What a ring holds.
#[verifier::ext_equal]
pub struct RingState {
    /// The stored bytes, oldest first.
    pub bytes: Seq<u8>,
    /// How many bytes the ring can hold.
    pub slots: nat,
    /// How many frames are complete.
    pub frames: usize,
}

impl RingState {
    /// A ring without a buffer.
    pub open spec fn none() -> RingState {
        RingState { bytes: Seq::empty(), slots: 0, frames: 0 }
    }

    /// An empty ring that holds `slots` bytes.
    pub open spec fn empty(slots: nat) -> RingState {
        RingState { bytes: Seq::empty(), slots, frames: 0 }
    }

    /// The room left.
    pub open spec fn free(self) -> int {
        self.slots - self.bytes.len()
    }

    /// After as much of `src` as fits was put in.
    pub open spec fn put(self, src: Seq<u8>) -> RingState {
        RingState { bytes: self.bytes + src.take(min(src.len() as int, self.free())), ..self }
    }

    /// After up to `n` bytes were taken out.
    pub open spec fn taken(self, n: int) -> RingState {
        RingState { bytes: self.bytes.skip(min(n, self.bytes.len() as int)), ..self }
    }

    /// After one more frame was declared complete.
    pub open spec fn committed(self) -> RingState {
        RingState {
            frames: if self.frames == usize::MAX {
                0
            } else {
                (self.frames + 1) as usize
            },
            ..self
        }
    }

    /// After one frame was declared gone.
    pub open spec fn released(self) -> RingState {
        RingState {
            frames: if self.frames == 0 {
                usize::MAX
            } else {
                (self.frames - 1) as usize
            },
            ..self
        }
    }

    /// After everything was dropped.
    pub open spec fn cleared(self) -> RingState {
        RingState::empty(self.slots)
    }
}

/// Something that is done to a ring.
pub enum RingOp {
    /// As much of `src` as fits is put in.
    Put { src: Seq<u8> },
    /// Up to `n` bytes are taken out.
    Take { n: nat },
}

/// A ring after `op`.
pub open spec fn stepped(ring: RingState, op: RingOp) -> RingState {
    match op {
        RingOp::Put { src } => ring.put(src),
        RingOp::Take { n } => ring.taken(n as int),
    }
}

/// A ring after all of `ops`.
pub open spec fn played(ring: RingState, ops: Seq<RingOp>) -> RingState
    decreases ops.len(),
{
    if ops.len() == 0 {
        ring
    } else {
        stepped(played(ring, ops.drop_last()), ops.last())
    }
}

/// All bytes that `ops` put into the ring, in order.
pub open spec fn accepted(ring: RingState, ops: Seq<RingOp>) -> Seq<u8>
    decreases ops.len(),
{
    if ops.len() == 0 {
        Seq::empty()
    } else {
        let before = played(ring, ops.drop_last());
        accepted(ring, ops.drop_last()) + (match ops.last() {
            RingOp::Put { src } => src.take(min(src.len() as int, before.free())),
            RingOp::Take { n } => Seq::empty(),
        })
    }
}

/// All bytes that `ops` took out of the ring, in order.
pub open spec fn given(ring: RingState, ops: Seq<RingOp>) -> Seq<u8>
    decreases ops.len(),
{
    if ops.len() == 0 {
        Seq::empty()
    } else {
        let before = played(ring, ops.drop_last());
        given(ring, ops.drop_last()) + (match ops.last() {
            RingOp::Put { src } => Seq::empty(),
            RingOp::Take { n } => before.bytes.take(min(n as int, before.bytes.len() as int)),
        })
    }
}

/// Bytes come out in the order in which they went in, none twice and none lost,
/// however writes and reads are interleaved and however often the ring wraps:
/// what was in the ring and went in is what came out and is still in.
pub proof fn law_stream_order(ring: RingState, ops: Seq<RingOp>)
    requires
        ring.free() >= 0,
    ensures
        ring.bytes + accepted(ring, ops) == given(ring, ops) + played(ring, ops).bytes,
        played(ring, ops).free() >= 0,
        played(ring, ops).slots == ring.slots,
    decreases ops.len(),
{
    if ops.len() == 0 {
        assert(ring.bytes + accepted(ring, ops) =~= given(ring, ops) + played(ring, ops).bytes);
    } else {
        let fewer = ops.drop_last();
        law_stream_order(ring, fewer);
        let before = played(ring, fewer);
        match ops.last() {
            RingOp::Put { src } => {
                let part = src.take(min(src.len() as int, before.free()));
                assert(ring.bytes + accepted(ring, ops) =~= (ring.bytes + accepted(ring, fewer))
                    + part);
                assert(given(ring, ops) =~= given(ring, fewer));
                assert(given(ring, ops) + played(ring, ops).bytes =~= (given(ring, fewer)
                    + before.bytes) + part);
            },
            RingOp::Take { n } => {
                let k = min(n as int, before.bytes.len() as int);
                assert(before.bytes =~= before.bytes.take(k) + before.bytes.skip(k));
                assert(ring.bytes + accepted(ring, ops) =~= ring.bytes + accepted(ring, fewer));
                assert(given(ring, ops) + played(ring, ops).bytes =~= given(ring, fewer)
                    + before.bytes);
            },
        }
    }
}

/// A byte ring with a frame counter.
pub struct SpscRing<'a> {
    ring: RingBuffer<'a>,
    frames: usize,
}

impl<'a> View for SpscRing<'a> {
    type V = RingState;

    closed spec fn view(&self) -> RingState {
        RingState { bytes: self.ring@, slots: self.ring.slots(), frames: self.frames }
    }
}

impl<'a> SpscRing<'a> {
    pub closed spec fn wf(&self) -> bool {
        self.ring.wf()
    }

    /// The stored bytes never exceed the slots.
    pub proof fn lemma_bounds(&self)
        requires
            self.wf(),
        ensures
            self@.bytes.len() <= self@.slots,
    {
    }

    /// An empty ring with no backing storage. [`install`](SpscRing::install)
    /// gives it a buffer.
    pub fn new() -> (ring: Self)
        ensures
            ring.wf(),
            ring@ == RingState::none(),
    {
        SpscRing { ring: RingBuffer::new(&mut []), frames: 0 }
    }

    /// Install the backing buffer (once, at socket open).
    pub fn install(&mut self, buf: &'a mut [u8])
        ensures
            final(self).wf(),
            final(self)@ == RingState::empty(old(buf)@.len()),
    {
        self.ring = RingBuffer::new(buf);
        self.frames = 0;
    }

    pub fn capacity(&self) -> (n: usize)
        requires
            self.wf(),
        ensures
            n == self@.slots,
    {
        self.ring.capacity()
    }

    /// Bytes currently stored (available to read).
    pub fn len(&self) -> (n: usize)
        requires
            self.wf(),
        ensures
            n == self@.bytes.len(),
            n <= self@.slots,
    {
        self.ring.len()
    }

    /// Free space currently available to write.
    pub fn free(&self) -> (n: usize)
        requires
            self.wf(),
        ensures
            n == self@.free(),
    {
        self.ring.free()
    }

    /// Producer: copy up to `src.len()` bytes in, returning the number stored
    /// (`min(src.len(), free())`).
    pub fn write(&mut self, src: &[u8]) -> (n: usize)
        requires
            old(self).wf(),
        ensures
            final(self).wf(),
            n == min(src@.len() as int, old(self)@.free()),
            final(self)@ == old(self)@.put(src@),
    {
        self.ring.write(src)
    }

    /// Consumer: copy up to `dst.len()` bytes out, returning the number taken
    /// (`min(dst.len(), len())`).
    pub fn read(&mut self, dst: &mut [u8]) -> (n: usize)
        requires
            old(self).wf(),
        ensures
            final(self).wf(),
            n == min(old(dst)@.len() as int, old(self)@.bytes.len() as int),
            final(dst)@ == overlay(old(dst)@, 0, old(self)@.bytes.take(n as int)),
            final(self)@ == old(self)@.taken(old(dst)@.len() as int),
    {
        self.ring.read(dst)
    }

    /// Copy up to `dst.len()` bytes out but leave them in the ring, returning
    /// the number copied.
    pub fn peek(&self, dst: &mut [u8]) -> (n: usize)
        requires
            self.wf(),
        ensures
            n == min(old(dst)@.len() as int, self@.bytes.len() as int),
            final(dst)@ == overlay(old(dst)@, 0, self@.bytes.take(n as int)),
    {
        self.ring.peek(dst)
    }

    /// How many complete frames the ring holds.
    pub fn frames(&self) -> (n: usize)
        ensures
            n == self@.frames,
    {
        self.frames
    }

    /// Producer: all bytes of one more frame are in the ring.
    pub fn commit_frame(&mut self)
        requires
            old(self).wf(),
        ensures
            final(self).wf(),
            final(self)@ == old(self)@.committed(),
    {
        self.frames = self.frames.wrapping_add(1);
    }

    /// Consumer: all bytes of the oldest frame are out of the ring.
    pub fn release_frame(&mut self)
        requires
            old(self).wf(),
        ensures
            final(self).wf(),
            final(self)@ == old(self)@.released(),
    {
        self.frames = self.frames.wrapping_sub(1);
    }

    /// Drop everything that is stored.
    pub fn clear(&mut self)
        requires
            old(self).wf(),
        ensures
            final(self).wf(),
            final(self)@ == old(self)@.cleared(),
    {
        let stored = self.ring.len();
        if stored > 0 {
            self.ring.advance_read(stored);
        }
        self.frames = 0;
        assert(self@ =~= old(self)@.cleared());
    }
}

} // verus!
