//! An echo service on a TCP socket: whatever arrives is sent back.
//!
//! `write` only takes what the tx ring has room for, so what was read but not yet
//! accepted is carried over and retried. Dropping it instead would truncate the
//! stream.
use vstd::prelude::*;

use crate::ring_buffer::min;
use crate::socket::{BackendState, SocketStatus};
use crate::spi_dma::SpiDmaDevice;
use crate::spsc_ring::RingState;
use crate::tcp_socket::{reconnected, TcpSocket};
use crate::w6100::{ChipState, SlotState, W6100};

verus! {

/// The echo service, with what is carried over.
pub struct Echo<'b> {
    buf: &'b mut [u8],
    /// Bytes staged in `buf`.
    len: usize,
    /// Bytes of `buf[..len]` already written out.
    off: usize,
}

/// The status that a slot shows to a TCP handle.
pub open spec fn shown_status(slot: SlotState) -> SocketStatus {
    match slot.backend.state {
        BackendState::Tcp(tcp) => tcp.shown(),
        _ => SocketStatus::Closed,
    }
}

/// The stream that is still to be sent back: what is carried over, then what has
/// been received.
pub open spec fn outstanding(carry: Seq<u8>, slot: SlotState) -> Seq<u8> {
    carry + slot.rings.rx.bytes
}

/// Whether `after` is `before` with the first `n` bytes of the outstanding stream
/// moved to the tx ring and the rest still outstanding. Nothing gets into the rx
/// ring.
pub open spec fn moved(
    before: ChipState,
    carry: Seq<u8>,
    after: ChipState,
    left: Seq<u8>,
    i: int,
    n: int,
) -> bool {
    let slot = before.sockets[i];
    let rings = after.sockets[i].rings;
    let stream = outstanding(carry, slot);
    &&& after == before.with_slot(i, after.sockets[i])
    &&& after.sockets[i] == SlotState { rings, ..slot }
    &&& rings.tx == RingState {
        bytes: slot.rings.tx.bytes + stream.take(n),
        ..slot.rings.tx
    }
    &&& rings.rx == RingState { bytes: rings.rx.bytes, ..slot.rings.rx }
    &&& rings.rx.bytes.len() <= slot.rings.rx.bytes.len()
    &&& outstanding(left, after.sockets[i]) == stream.skip(n)
}

impl<'b> Echo<'b> {
    pub closed spec fn wf(&self) -> bool {
        &&& self.off <= self.len <= self.buf@.len()
        &&& self.buf@.len() > 0
    }

    /// What was read but not yet accepted by the tx ring.
    pub closed spec fn carry(&self) -> Seq<u8> {
        self.buf@.subrange(self.off as int, self.len as int)
    }

    /// A service that reads at most `buf.len()` bytes at a time.
    pub fn new(buf: &'b mut [u8]) -> (echo: Self)
        requires
            old(buf)@.len() > 0,
        ensures
            echo.wf(),
            echo.carry() == Seq::<u8>::empty(),
    {
        let echo = Echo { buf, len: 0, off: 0 };
        assert(echo.carry() =~= Seq::empty());
        echo
    }

    /// Move on the outstanding stream once: refill if the previous chunk is fully
    /// written, then write. Gives the number of bytes that were accepted.
    fn shift<'a, D: SpiDmaDevice>(&mut self, sock: &TcpSocket, chip: &mut W6100<'a, D>) -> (n: usize)
        requires
            old(self).wf(),
            old(chip).wf(),
        ensures
            final(self).wf(),
            final(chip).wf(),
            final(chip).link() == old(chip).link(),
            ({
                let slot = old(chip)@.sockets[sock.slot() as int];
                let stream = outstanding(old(self).carry(), slot);
                &&& n <= stream.len()
                &&& n <= slot.rings.tx.free()
                &&& n == 0 ==> stream.len() == 0 || slot.rings.tx.free() == 0
            }),
            moved(
                old(chip)@,
                old(self).carry(),
                final(chip)@,
                final(self).carry(),
                sock.slot() as int,
                n as int,
            ),
    {
        let slot = sock.index();
        let ghost i = slot as int;
        let ghost before = chip@;
        let ghost stream = outstanding(self.carry(), before.sockets[i]);
        proof {
            chip.lemma_slots();
            chip.lemma_rings(i);
            assert(stream.skip(0) =~= stream);
            assert(stream.take(0) =~= Seq::<u8>::empty());
        }
        if self.off == self.len {
            let got = sock.read(chip, self.buf);
            self.len = match got {
                Ok(n) => n,
                Err(_) => 0,
            };
            self.off = 0;
            proof {
                assert(outstanding(self.carry(), chip@.sockets[i]) =~= stream);
            }
            if self.len == 0 {
                assert(chip@.sockets[i].rings.tx =~= RingState {
                    bytes: before.sockets[i].rings.tx.bytes + stream.take(0),
                    ..before.sockets[i].rings.tx
                });
                return 0;
            }
        }
        let ghost carry = self.carry();
        let sent = sock.write(chip, &self.buf[self.off..self.len]);
        let n = match sent {
            Ok(n) => n,
            Err(_) => 0,
        };
        self.off = self.off + n;
        proof {
            assert(carry.take(n as int) =~= stream.take(n as int));
            assert(self.carry() =~= carry.skip(n as int));
            assert(outstanding(self.carry(), chip@.sockets[i]) =~= stream.skip(n as int));
            assert(chip@.sockets =~= before.sockets.update(i, chip@.sockets[i]));
        }
        n
    }

    /// Send back as much as possible: keep going until the rx ring is empty or the
    /// tx ring is full. Nothing that was read is ever lost to a full tx ring.
    pub fn drain<'a, D: SpiDmaDevice>(&mut self, sock: &TcpSocket, chip: &mut W6100<'a, D>)
        requires
            old(self).wf(),
            old(chip).wf(),
        ensures
            final(self).wf(),
            final(chip).wf(),
            final(chip).link() == old(chip).link(),
            ({
                let slot = old(chip)@.sockets[sock.slot() as int];
                moved(
                    old(chip)@,
                    old(self).carry(),
                    final(chip)@,
                    final(self).carry(),
                    sock.slot() as int,
                    min(
                        outstanding(old(self).carry(), slot).len() as int,
                        slot.rings.tx.free(),
                    ),
                )
            }),
    {
        let slot = sock.index();
        let ghost i = slot as int;
        let ghost before = chip@;
        let ghost stream = outstanding(self.carry(), before.sockets[i]);
        let ghost mut sum: int = 0;
        proof {
            chip.lemma_slots();
            chip.lemma_rings(i);
            assert(stream.skip(0) =~= stream);
            assert(stream.take(0) =~= Seq::<u8>::empty());
            assert(before.sockets =~= before.sockets.update(i, before.sockets[i]));
            assert(before.sockets[i].rings.tx =~= RingState {
                bytes: before.sockets[i].rings.tx.bytes + stream.take(0),
                ..before.sockets[i].rings.tx
            });
        }
        loop
            invariant
                self.wf(),
                chip.wf(),
                chip.link() == old(chip).link(),
                i == sock.slot() < 8,
                before == old(chip)@,
                before.sockets.len() == 8,
                stream == outstanding(old(self).carry(), before.sockets[i]),
                0 <= sum <= stream.len(),
                sum <= before.sockets[i].rings.tx.free(),
                moved(before, old(self).carry(), chip@, self.carry(), i, sum),
            ensures
                sum == stream.len() || sum == before.sockets[i].rings.tx.free(),
            decreases stream.len() - sum,
        {
            let n = self.shift(sock, chip);
            proof {
                assert(stream.skip(sum).skip(n as int) =~= stream.skip(sum + n));
                assert(stream.take(sum) + stream.skip(sum).take(n as int) =~= stream.take(sum + n));
                assert(chip@.sockets =~= before.sockets.update(i, chip@.sockets[i]));
                assert(before.sockets[i].rings.tx.bytes + stream.take(sum) + stream.skip(sum).take(
                    n as int,
                ) =~= before.sockets[i].rings.tx.bytes + stream.take(sum + n));
                sum = sum + n;
            }
            if n == 0 {
                break;
            }
        }
    }

    /// Look after the connection once: send back what arrived while it is
    /// established, and make it ready for the next client once it is over.
    /// Whether it is established is reported.
    pub fn step<'a, D: SpiDmaDevice>(
        &mut self,
        sock: &TcpSocket,
        chip: &mut W6100<'a, D>,
    ) -> (connected: bool)
        requires
            old(self).wf(),
            old(chip).wf(),
        ensures
            final(self).wf(),
            final(chip).wf(),
            final(chip).link() == old(chip).link(),
            ({
                let i = sock.slot() as int;
                let slot = old(chip)@.sockets[i];
                let status = shown_status(slot);
                if slot.busy {
                    &&& !connected
                    &&& final(chip)@ == old(chip)@
                    &&& final(self).carry() == old(self).carry()
                } else if status == SocketStatus::Established {
                    &&& connected
                    &&& moved(
                        old(chip)@,
                        old(self).carry(),
                        final(chip)@,
                        final(self).carry(),
                        i,
                        min(
                            outstanding(old(self).carry(), slot).len() as int,
                            slot.rings.tx.free(),
                        ),
                    )
                } else if status == SocketStatus::Closed || status == SocketStatus::Timeout || status
                    == SocketStatus::Error {
                    &&& !connected
                    &&& final(chip)@ == reconnected(old(chip)@, i)
                    &&& final(self).carry() == Seq::<u8>::empty()
                } else {
                    &&& !connected
                    &&& final(chip)@ == old(chip)@
                    &&& final(self).carry() == old(self).carry()
                }
            }),
    {
        let status = sock.status(chip);
        match status {
            Ok(SocketStatus::Established) => {
                self.drain(sock, chip);
                true
            },
            // Client disconnected (or the attempt failed); re-arm to accept the
            // next connection.
            Ok(SocketStatus::Closed) | Ok(SocketStatus::Timeout) | Ok(SocketStatus::Error) => {
                // Drop any half-echoed carry-over from the old connection so it
                // cannot bleed into the next client.
                self.len = 0;
                self.off = 0;
                let _ = sock.reconnect(chip);
                assert(self.carry() =~= Seq::empty());
                false
            },
            _ => false,
        }
    }
}

/// Nothing is lost and nothing is reordered: what was to be sent before and what
/// was outstanding is what is to be sent after and what is outstanding still.
pub proof fn law_echo_lossless(
    before: ChipState,
    carry: Seq<u8>,
    after: ChipState,
    left: Seq<u8>,
    i: int,
    n: int,
)
    requires
        moved(before, carry, after, left, i, n),
        0 <= i < before.sockets.len(),
        0 <= n <= outstanding(carry, before.sockets[i]).len(),
    ensures
        before.sockets[i].rings.tx.bytes + outstanding(carry, before.sockets[i])
            == after.sockets[i].rings.tx.bytes + outstanding(left, after.sockets[i]),
{
    let stream = outstanding(carry, before.sockets[i]);
    let tx = before.sockets[i].rings.tx.bytes;
    assert(tx + stream =~= (tx + stream.take(n)) + stream.skip(n));
}

} // verus!
