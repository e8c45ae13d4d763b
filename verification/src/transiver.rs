//! Register and buffer access to the chip over the SPI transport.
use vstd::prelude::*;

use crate::access::{
    airborne, batch_outcome, events_of, lands, lemma_orderly_push, orderly, reply, since, sound,
    status, takes_off, Access, Request, HEADER,
};
use crate::address::{
    create_header, delay_request, header_of, read_request, start_read_request, start_write_request,
    write_request, Address,
};
use crate::batch::{exec_transaction, filled, lemma_frame_reply, ops_of, paired, Operation};
use crate::bus::{error_of, received_of, Op};
use crate::bytes::{
    be16, be32, clear_part, copy_at, from_be16, from_be32, overlay, u16_from_be, u16_to_be,
    u32_from_be, u32_to_be, zeros,
};
use crate::error::{DriverError, Error};
use crate::ring_buffer::min;
use crate::spi_dma::{BusEvent, Completion, DmaBuffers, SpiDmaDevice, SpiDmaTransaction};
use crate::spsc_ring::SpscRing;

verus! {

enum DmaState<D: SpiDmaDevice> {
    Pending,
    Idle { dev: D, scratch_buffers: DmaBuffers },
    InFlight(D::Transaction),
}

/// The chip's registers and buffers, reached over the SPI transport. Owns the
/// device and the scratch buffers; while a started transfer is on its way it
/// owns the bus, and every other access would have to wait.
pub struct Transceiver<D: SpiDmaDevice> {
    state: DmaState<D>,
    log: Ghost<Seq<Access>>,
    origin: Ghost<Seq<BusEvent>>,
    flight: Ghost<int>,
}

impl<D: SpiDmaDevice> Transceiver<D> {
    /// All accesses made so far.
    pub closed spec fn log(&self) -> Seq<Access> {
        self.log@
    }

    /// What had happened on the bus before the first access.
    pub closed spec fn origin(&self) -> Seq<BusEvent> {
        self.origin@
    }

    /// All that has happened on the bus.
    pub closed spec fn trace(&self) -> Seq<BusEvent> {
        match self.state {
            DmaState::Pending => Seq::empty(),
            DmaState::Idle { dev, scratch_buffers } => dev.trace(),
            DmaState::InFlight(transaction) => transaction.device().trace(),
        }
    }

    /// The size of the scratch buffers.
    pub closed spec fn capacity(&self) -> nat {
        match self.state {
            DmaState::Pending => 0,
            DmaState::Idle { dev, scratch_buffers } => scratch_buffers.rx@.len(),
            DmaState::InFlight(transaction) => transaction.rx().len(),
        }
    }

    /// Whether no transfer is on its way.
    pub closed spec fn is_idle(&self) -> bool {
        self.state is Idle
    }

    /// The payload that the transfer on its way captures.
    pub closed spec fn window(&self) -> Seq<u8> {
        match self.state {
            DmaState::InFlight(transaction) => transaction.rx().subrange(
                HEADER as int,
                transaction.size() as int,
            ),
            _ => Seq::empty(),
        }
    }

    /// Which access started the transfer on its way.
    pub closed spec fn flight(&self) -> int {
        self.flight@
    }

    /// The record accounts for everything on the bus, and a transfer on its way
    /// is one that the record shows.
    pub closed spec fn wf(&self) -> bool {
        &&& forall|i: int| 0 <= i < self.log@.len() ==> sound(#[trigger] self.log@[i], self.capacity())
        &&& self.trace() == self.origin@ + events_of(self.log@)
        &&& orderly(self.log@)
        &&& airborne(self.log@) == !(self.state is Idle)
        &&& match self.state {
            DmaState::Pending => false,
            DmaState::Idle { dev, scratch_buffers } => scratch_buffers.rx@.len()
                == scratch_buffers.tx@.len(),
            DmaState::InFlight(transaction) => {
                &&& transaction.tx().len() == transaction.rx().len()
                &&& HEADER <= transaction.size() <= transaction.rx().len()
                &&& 0 <= self.flight@ < self.log@.len()
                &&& takes_off(self.log@[self.flight@])
                &&& self.log@[self.flight@].events.len() == 1
                &&& self.log@[self.flight@].events[0] is Transfer
                &&& self.log@[self.flight@].events[0]->Transfer_miso.skip(HEADER as int)
                    == self.window()
            },
        }
    }

    /// The same device behind the same buffers, and the same transfer on its
    /// way, if any.
    pub open spec fn same_link(&self, other: &Self) -> bool {
        &&& self.capacity() == other.capacity()
        &&& self.origin() == other.origin()
        &&& self.is_idle() == other.is_idle()
        &&& !self.is_idle() ==> self.window() == other.window() && self.flight() == other.flight()
    }

    /// `after` is this with one more access, which asked for `request`. It would
    /// have had to wait exactly if a transfer was on its way.
    pub open spec fn stepped(&self, after: &Self, request: Request) -> bool {
        &&& after.wf()
        &&& after.log() == self.log().push(after.log().last())
        &&& after.log().last().request == request
        &&& (after.log().last().outcome == Err::<Seq<Seq<u8>>, Error>(Error::WouldBlock))
            == !self.is_idle()
    }

    /// The accesses that were made on the way to `after`.
    pub open spec fn did(&self, after: &Self) -> Seq<Access> {
        since(self.log(), after.log())
    }

    /// `after` is this with accesses made on top; nothing recorded is lost.
    pub open spec fn advanced(&self, after: &Self) -> bool {
        &&& after.wf()
        &&& after.log() =~= self.log() + self.did(after)
        &&& after.capacity() == self.capacity()
        &&& after.origin() == self.origin()
    }

    /// Each access in the record is what its request does on the bus.
    pub proof fn lemma_sound(&self, i: int)
        requires
            self.wf(),
            0 <= i < self.log().len(),
        ensures
            sound(self.log()[i], self.capacity()),
    {
    }

    /// The record accounts for all that has happened on the bus.
    pub proof fn law_record_complete(&self)
        requires
            self.wf(),
        ensures
            self.trace() == self.origin() + events_of(self.log()),
    {
    }

    /// The record tells whether a transfer is on its way.
    pub proof fn law_bus_owned_now(&self)
        requires
            self.wf(),
        ensures
            airborne(self.log()) == !self.is_idle(),
    {
    }

    /// There is at most one transfer on its way, and it owns the bus: until it has
    /// ended, nothing else happens there, and every access would have to wait.
    pub proof fn law_bus_owned(&self, i: int)
        requires
            self.wf(),
            0 <= i < self.log().len(),
        ensures
            airborne(self.log()) == !self.is_idle(),
            airborne(self.log().take(i)) && !lands(self.log()[i]) ==> {
                &&& self.log()[i].outcome == Err::<Seq<Seq<u8>>, Error>(Error::WouldBlock)
                &&& self.log()[i].events.len() == 0
            },
            !airborne(self.log().take(i)) ==> !lands(self.log()[i]),
    {
        self.lemma_sound(i);
    }

    /// What the transfer on its way captures is what came in, behind the header, with
    /// the access that started it.
    pub proof fn law_window_captured(&self)
        requires
            self.wf(),
            !self.is_idle(),
        ensures
            0 <= self.flight() < self.log().len(),
            takes_off(self.log()[self.flight()]),
            self.log()[self.flight()].events.len() == 1,
            self.log()[self.flight()].events[0] is Transfer,
            self.window() == self.log()[self.flight()].events[0]->Transfer_miso.skip(
                HEADER as int,
            ),
    {
    }

    /// Whether the last access started a transfer, which is now on its way and
    /// captures what comes in with that access.
    pub open spec fn just_launched(&self) -> bool {
        &&& !self.is_idle()
        &&& self.log().len() > 0
        &&& self.flight() == self.log().len() - 1
        &&& takes_off(self.log().last())
        &&& self.log().last().events.len() == 1
        &&& self.log().last().events[0] is Transfer
        &&& self.window() == self.log().last().events[0]->Transfer_miso.skip(HEADER as int)
    }

    /// Take over the device and the scratch buffers.
    pub fn new(dev: D, scratch_buffers: DmaBuffers) -> (trans: Self)
        requires
            scratch_buffers.rx@.len() == scratch_buffers.tx@.len(),
        ensures
            trans.wf(),
            trans.is_idle(),
            trans.log() == Seq::<Access>::empty(),
            trans.origin() == dev.trace(),
            trans.capacity() == old(scratch_buffers.rx)@.len(),
    {
        let ghost origin = dev.trace();
        proof {
            assert(origin =~= origin + events_of(Seq::<Access>::empty()));
        }
        Transceiver {
            state: DmaState::Idle { dev, scratch_buffers },
            log: Ghost(Seq::empty()),
            origin: Ghost(origin),
            flight: Ghost(0),
        }
    }

    /// Carry out a batch of operations and wait for the end of it.
    pub fn transaction(&mut self, operations: &mut [Operation<'_>]) -> (r: Result<(), Error>)
        requires
            old(self).wf(),
            forall|i: int|
                0 <= i < old(operations)@.len() ==> paired(#[trigger] old(operations)@[i]),
        ensures
            old(self).same_link(final(self)),
            old(self).stepped(final(self), Request::Batch { ops: ops_of(old(operations)@) }),
            r == status(final(self).log().last()),
            final(operations)@.len() == old(operations)@.len(),
            forall|i: int|
                #![trigger final(operations)@[i]]
                0 <= i < old(operations)@.len() ==> {
                    let incoming = if old(self).is_idle() {
                        received_of(
                            ops_of(old(operations)@),
                            0,
                            old(self).capacity(),
                            final(self).log().last().events,
                            i,
                        )
                    } else {
                        None
                    };
                    match (old(operations)@[i], final(operations)@[i]) {
                        (Operation::Read(x), Operation::Read(y)) => final(x)@ == final(y)@ && y@
                            == filled(incoming, x@),
                        (Operation::Write(x), Operation::Write(y)) => x@ == y@,
                        (Operation::Transfer(x, v), Operation::Transfer(y, w)) => final(x)@
                            == final(y)@ && y@ == filled(incoming, x@) && v@ == w@,
                        (Operation::TransferInPlace(x), Operation::TransferInPlace(y)) => final(x)@
                            == final(y)@ && y@ == filled(incoming, x@),
                        (Operation::DelayNs(m), Operation::DelayNs(n)) => m == n,
                        _ => false,
                    }
                },
    {
        let ghost ops = ops_of(operations@);
        let ghost capacity = self.capacity();
        let ghost trace = self.trace();
        let mut state = DmaState::Pending;
        core::mem::swap(&mut self.state, &mut state);

        let (dev, scratch_buffers) = match state {
            DmaState::Idle { dev, scratch_buffers } => (dev, scratch_buffers),
            _ => {
                core::mem::swap(&mut self.state, &mut state);
                assert(trace =~= trace + Seq::<BusEvent>::empty());
                self.record(
                    Ghost(Request::Batch { ops }),
                    Ghost(Err(Error::WouldBlock)),
                    Ghost(Seq::empty()),
                    Ghost(trace),
                );
                return Err(Error::WouldBlock);
            },
        };

        let (dev, scratch_buffers, error) = exec_transaction(dev, scratch_buffers, operations);
        let ghost events = dev.trace().skip(trace.len() as int);
        self.state = DmaState::Idle { dev, scratch_buffers };
        assert(dev.trace() =~= trace + events);
        self.record(
            Ghost(Request::Batch { ops }),
            Ghost(batch_outcome(ops, capacity, events)),
            Ghost(events),
            Ghost(trace),
        );

        match error {
            Some(e) => Err(Error::Other(e)),
            None => Ok(()),
        }
    }

    /// Read `data.len()` bytes at `addr`.
    pub fn read(&mut self, addr: &Address, data: &mut [u8]) -> (r: Result<(), Error>)
        requires
            old(self).wf(),
        ensures
            old(self).same_link(final(self)),
            old(self).stepped(final(self), read_request(*addr, old(data)@.len())),
            r == status(final(self).log().last()),
            final(data)@ == (match r {
                Ok(()) => reply(final(self).log().last()),
                Err(_) => old(data)@,
            }),
            final(data)@.len() == old(data)@.len(),
    {
        let ghost given = data@;
        let header = create_header(addr, false);
        let mut operations = [Operation::Write(&header), Operation::Read(data)];
        let ghost ops = ops_of(operations@);
        proof {
            assert(ops =~= seq![
                Op::Write { data: header_of(*addr, false) },
                Op::Read { len: given.len() },
            ]);
        }
        let r = self.transaction(&mut operations);
        proof {
            assert(operations@[1] is Read);
            let access = self.log().last();
            if access.outcome != Err::<Seq<Seq<u8>>, Error>(Error::WouldBlock) {
                self.lemma_sound(self.log().len() - 1);
                lemma_frame_reply(ops, self.capacity(), access.events);
            }
        }
        r
    }

    /// Write `data` at `addr`.
    pub fn write(&mut self, addr: &Address, data: &[u8]) -> (r: Result<(), Error>)
        requires
            old(self).wf(),
        ensures
            old(self).same_link(final(self)),
            old(self).stepped(final(self), write_request(*addr, data@)),
            r == status(final(self).log().last()),
    {
        let header = create_header(addr, true);
        let mut operations = [Operation::Write(&header), Operation::Write(data)];
        proof {
            assert(ops_of(operations@) =~= seq![
                Op::Write { data: header_of(*addr, true) },
                Op::Write { data: data@ },
            ]);
        }
        self.transaction(&mut operations)
    }

    /// Pause on the device for `ns` nanoseconds. That never fails, but would have
    /// to wait while a transfer is on its way.
    pub fn delay(&mut self, ns: u32) -> (r: Result<(), Error>)
        requires
            old(self).wf(),
        ensures
            old(self).same_link(final(self)),
            old(self).stepped(final(self), delay_request(ns)),
            r == status(final(self).log().last()),
            r == (if old(self).is_idle() {
                Ok::<(), Error>(())
            } else {
                Err(Error::WouldBlock)
            }),
    {
        let mut operations = [Operation::DelayNs(ns)];
        let ghost ops = seq![Op::Delay { ns }];
        proof {
            assert(ops_of(operations@) =~= ops);
        }
        let r = self.transaction(&mut operations);
        proof {
            self.lemma_sound(self.log().len() - 1);
            reveal_with_fuel(error_of, 2);
        }
        r
    }

    pub fn read_u8(&mut self, addr: &Address) -> (r: Result<u8, Error>)
        requires
            old(self).wf(),
        ensures
            old(self).same_link(final(self)),
            old(self).stepped(final(self), read_request(*addr, 1)),
            r == (match final(self).log().last().outcome {
                Ok(_) => Ok(reply(final(self).log().last())[0]),
                Err(e) => Err::<u8, Error>(e),
            }),
    {
        let mut buf = [0u8; 1];
        match self.read(addr, &mut buf) {
            Ok(()) => Ok(buf[0]),
            Err(e) => Err(e),
        }
    }

    pub fn read_u16(&mut self, addr: &Address) -> (r: Result<u16, Error>)
        requires
            old(self).wf(),
        ensures
            old(self).same_link(final(self)),
            old(self).stepped(final(self), read_request(*addr, 2)),
            r == (match final(self).log().last().outcome {
                Ok(_) => Ok(from_be16(reply(final(self).log().last()))),
                Err(e) => Err::<u16, Error>(e),
            }),
    {
        let mut buf = [0u8; 2];
        match self.read(addr, &mut buf) {
            Ok(()) => {
                assert(buf@ =~= seq![buf[0], buf[1]]);
                Ok(u16_from_be(buf[0], buf[1]))
            },
            Err(e) => Err(e),
        }
    }

    pub fn read_u32(&mut self, addr: &Address) -> (r: Result<u32, Error>)
        requires
            old(self).wf(),
        ensures
            old(self).same_link(final(self)),
            old(self).stepped(final(self), read_request(*addr, 4)),
            r == (match final(self).log().last().outcome {
                Ok(_) => Ok(from_be32(reply(final(self).log().last()))),
                Err(e) => Err::<u32, Error>(e),
            }),
    {
        let mut buf = [0u8; 4];
        match self.read(addr, &mut buf) {
            Ok(()) => {
                assert(buf@ =~= seq![buf[0], buf[1], buf[2], buf[3]]);
                Ok(u32_from_be(buf[0], buf[1], buf[2], buf[3]))
            },
            Err(e) => Err(e),
        }
    }

    pub fn write_u8(&mut self, addr: &Address, value: u8) -> (r: Result<(), Error>)
        requires
            old(self).wf(),
        ensures
            old(self).same_link(final(self)),
            old(self).stepped(final(self), write_request(*addr, seq![value])),
            r == status(final(self).log().last()),
    {
        let buf = [value];
        assert(buf@ =~= seq![value]);
        self.write(addr, &buf)
    }

    pub fn write_u16(&mut self, addr: &Address, value: u16) -> (r: Result<(), Error>)
        requires
            old(self).wf(),
        ensures
            old(self).same_link(final(self)),
            old(self).stepped(final(self), write_request(*addr, be16(value))),
            r == status(final(self).log().last()),
    {
        let buf = u16_to_be(value);
        self.write(addr, &buf)
    }

    pub fn write_u32(&mut self, addr: &Address, value: u32) -> (r: Result<(), Error>)
        requires
            old(self).wf(),
        ensures
            old(self).same_link(final(self)),
            old(self).stepped(final(self), write_request(*addr, be32(value))),
            r == status(final(self).log().last()),
    {
        let buf = u32_to_be(value);
        self.write(addr, &buf)
    }

    /// `after` is this with a transfer of `request` started, unless that failed
    /// or would have had to wait.
    pub open spec fn launched(&self, after: &Self, request: Request) -> bool {
        &&& self.stepped(after, request)
        &&& after.capacity() == self.capacity()
        &&& after.origin() == self.origin()
        &&& match after.log().last().outcome {
            Ok(_) => {
                &&& !after.is_idle()
                &&& after.flight() == self.log().len()
                &&& after.window() == after.log().last().events[0]->Transfer_miso.skip(
                    HEADER as int,
                )
            },
            Err(_) => self.same_link(after),
        }
    }

    /// Start to read `len` bytes at `addr`, without waiting for them. An
    /// interrupt reports the end; [`finish_read`](Transceiver::finish_read) then
    /// gives the bytes.
    pub fn start_read(&mut self, addr: &Address, len: usize) -> (r: Result<(), Error>)
        requires
            old(self).wf(),
        ensures
            old(self).launched(final(self), start_read_request(*addr, len as nat)),
            r == status(final(self).log().last()),
            r is Ok ==> final(self).window().len() == len,
    {
        let ghost request = start_read_request(*addr, len as nat);
        let ghost trace = self.trace();
        let mut state = DmaState::Pending;
        core::mem::swap(&mut self.state, &mut state);

        let (dev, mut scratch) = match state {
            DmaState::Idle { dev, scratch_buffers } => (dev, scratch_buffers),
            _ => {
                core::mem::swap(&mut self.state, &mut state);
                self.record(
                    Ghost(request),
                    Ghost(Err(Error::WouldBlock)),
                    Ghost(Seq::empty()),
                    Ghost(trace),
                );
                return Err(Error::WouldBlock);
            },
        };

        let room = scratch.tx.len();
        if room < HEADER || room - HEADER < len {
            self.state = DmaState::Idle { dev, scratch_buffers: scratch };
            self.record(
                Ghost(request),
                Ghost(Err(Error::Other(DriverError::ScratchBufferOverrun))),
                Ghost(Seq::empty()),
                Ghost(trace),
            );
            return Err(Error::Other(DriverError::ScratchBufferOverrun));
        }
        let header = create_header(addr, false);
        copy_at(scratch.tx, 0, &header);
        clear_part(scratch.tx, HEADER, len);
        scratch.len = HEADER + len;
        proof {
            assert(scratch.tx@.take(HEADER + len) =~= header_of(*addr, false) + zeros(len as nat));
        }
        self.launch(dev, scratch, Ghost(request), Ghost(trace))
    }

    /// Start to write the next `len` bytes of `ring` at `addr`, without waiting
    /// for the end of it. The bytes leave the ring at once.
    pub fn start_write(&mut self, addr: &Address, ring: &mut SpscRing<'_>, len: usize) -> (r: Result<
        (),
        Error,
    >)
        requires
            old(self).wf(),
            old(ring).wf(),
        ensures
            old(self).launched(
                final(self),
                start_write_request(*addr, padded(old(ring)@.bytes, len as nat)),
            ),
            r == status(final(self).log().last()),
            final(ring).wf(),
            final(ring)@ == (if drained(final(self).log().last()) {
                old(ring)@.taken(len as int)
            } else {
                old(ring)@
            }),
    {
        let ghost data = padded(ring@.bytes, len as nat);
        let ghost request = start_write_request(*addr, data);
        let ghost trace = self.trace();
        let mut state = DmaState::Pending;
        core::mem::swap(&mut self.state, &mut state);

        let (dev, mut scratch) = match state {
            DmaState::Idle { dev, scratch_buffers } => (dev, scratch_buffers),
            _ => {
                core::mem::swap(&mut self.state, &mut state);
                self.record(
                    Ghost(request),
                    Ghost(Err(Error::WouldBlock)),
                    Ghost(Seq::empty()),
                    Ghost(trace),
                );
                return Err(Error::WouldBlock);
            },
        };

        let room = scratch.tx.len();
        if room < HEADER || room - HEADER < len {
            self.state = DmaState::Idle { dev, scratch_buffers: scratch };
            self.record(
                Ghost(request),
                Ghost(Err(Error::Other(DriverError::ScratchBufferOverrun))),
                Ghost(Seq::empty()),
                Ghost(trace),
            );
            return Err(Error::Other(DriverError::ScratchBufferOverrun));
        }
        let header = create_header(addr, true);
        copy_at(scratch.tx, 0, &header);
        clear_part(scratch.tx, HEADER, len);
        {
            let (_, rest) = scratch.tx.split_at_mut(HEADER);
            let (payload, _) = rest.split_at_mut(len);
            let _ = ring.read(payload);
        }
        scratch.len = HEADER + len;
        proof {
            assert(scratch.tx@.take(HEADER + len) =~= header_of(*addr, true) + data);
        }
        self.launch(dev, scratch, Ghost(request), Ghost(trace))
    }

    /// Hand the staged frame to the device and keep the transfer.
    fn launch(
        &mut self,
        dev: D,
        scratch: DmaBuffers,
        Ghost(request): Ghost<Request>,
        Ghost(trace): Ghost<Seq<BusEvent>>,
    ) -> (r: Result<(), Error>)
        requires
            HEADER <= scratch.len <= scratch.tx@.len(),
            scratch.rx@.len() == scratch.tx@.len(),
            dev.trace() == trace,
            trace == old(self).origin@ + events_of(old(self).log@),
            orderly(old(self).log@),
            !airborne(old(self).log@),
            forall|i: int|
                0 <= i < old(self).log@.len() ==> sound(
                    #[trigger] old(self).log@[i],
                    scratch.rx@.len(),
                ),
            match request {
                Request::StartRead { header, len } => header + zeros(len) == scratch.tx@.take(
                    scratch.len as int,
                ),
                Request::StartWrite { header, data } => header + data == scratch.tx@.take(
                    scratch.len as int,
                ),
                _ => false,
            },
        ensures
            final(self).wf(),
            final(self).capacity() == old(scratch.rx)@.len(),
            final(self).origin() == old(self).origin(),
            final(self).log() == old(self).log().push(final(self).log().last()),
            final(self).log().last().request == request,
            final(self).log().last().outcome != Err::<Seq<Seq<u8>>, Error>(Error::WouldBlock),
            r == status(final(self).log().last()),
            drained(final(self).log().last()),
            final(self).is_idle() == (r is Err),
            r is Ok ==> {
                &&& final(self).flight() == old(self).log().len()
                &&& final(self).window()
                    == final(self).log().last().events[0]->Transfer_miso.skip(HEADER as int)
                &&& final(self).window().len() == scratch.len - HEADER
            },
    {
        let ghost mosi = scratch.tx@.take(scratch.len as int);
        match dev.transceive(scratch, Completion::Interrupt) {
            Ok(transaction) => {
                let ghost miso = transaction.rx().take(scratch.len as int);
                self.state = DmaState::InFlight(transaction);
                let ghost event = BusEvent::Transfer {
                    mosi,
                    miso,
                    completion: Completion::Interrupt,
                };
                let ghost events = seq![event];
                assert(trace.push(event) =~= trace + events);
                self.flight = Ghost(self.log@.len() as int);
                self.record(
                    Ghost(request),
                    Ghost(Ok(Seq::empty())),
                    Ghost(events),
                    Ghost(trace),
                );
                assert(miso.skip(HEADER as int) =~= self.window());
                Ok(())
            },
            Err((_, dev, scratch_buffers)) => {
                self.state = DmaState::Idle { dev, scratch_buffers };
                let ghost event = BusEvent::Fault { mosi, completion: Completion::Interrupt };
                let ghost events = seq![event];
                assert(trace.push(event) =~= trace + events);
                self.record(
                    Ghost(request),
                    Ghost(Err(Error::Other(DriverError::SpiError))),
                    Ghost(events),
                    Ghost(trace),
                );
                Err(Error::Other(DriverError::SpiError))
            },
        }
    }

    /// Write an access that did `events` after `trace` into the record.
    fn record(
        &mut self,
        Ghost(request): Ghost<Request>,
        Ghost(outcome): Ghost<Result<Seq<Seq<u8>>, Error>>,
        Ghost(events): Ghost<Seq<BusEvent>>,
        Ghost(trace): Ghost<Seq<BusEvent>>,
    )
        requires
            trace == old(self).origin@ + events_of(old(self).log@),
            old(self).trace() == trace + events,
        ensures
            final(self).state == old(self).state,
            final(self).origin == old(self).origin,
            final(self).flight == old(self).flight,
            final(self).log@ == old(self).log@.push(Access { request, outcome, events }),
            final(self).trace() == final(self).origin@ + events_of(final(self).log@),
            ({
                let access = Access { request, outcome, events };
                let log = old(self).log@;
                &&& airborne(final(self).log@) == (takes_off(access) || (!lands(access) && airborne(
                    log,
                )))
                &&& orderly(log) && (if airborne(log) {
                    lands(access) || outcome == Err::<Seq<Seq<u8>>, Error>(Error::WouldBlock)
                } else {
                    !lands(access)
                }) ==> orderly(final(self).log@)
            }),
    {
        let ghost access = Access { request, outcome, events };
        proof {
            lemma_events_push(self.log@, access);
            lemma_orderly_push(self.log@, access);
        }
        self.log = Ghost(self.log@.push(access));
        assert(self.trace() =~= self.origin@ + events_of(self.log@));
    }

    /// Wait for the end of the transfer on its way and free the bus.
    fn settle(&mut self, Ghost(request): Ghost<Request>) -> (ended: bool)
        requires
            old(self).wf(),
            request is Finish || request is Abort,
        ensures
            ended == !old(self).is_idle(),
            final(self).wf(),
            final(self).is_idle(),
            final(self).capacity() == old(self).capacity(),
            final(self).origin() == old(self).origin(),
            ended ==> {
                &&& final(self).log() == old(self).log().push(final(self).log().last())
                &&& final(self).log().last().request == request
                &&& final(self).log().last().outcome == Ok::<Seq<Seq<u8>>, Error>(
                    seq![old(self).window()],
                )
                &&& final(self).state->scratch_buffers.rx@.subrange(
                    HEADER as int,
                    final(self).state->scratch_buffers.len as int,
                ) == old(self).window()
                &&& HEADER <= final(self).state->scratch_buffers.len
                    <= final(self).state->scratch_buffers.rx@.len()
            },
            !ended ==> *final(self) == *old(self),
    {
        let ghost trace = self.trace();
        let ghost window = self.window();
        let mut state = DmaState::Pending;
        core::mem::swap(&mut self.state, &mut state);
        match state {
            DmaState::InFlight(transaction) => {
                let (dev, scratch_buffers) = transaction.wait();
                self.state = DmaState::Idle { dev, scratch_buffers };
                let ghost captured = seq![window];
                assert(trace =~= trace + Seq::<BusEvent>::empty());
                self.record(
                    Ghost(request),
                    Ghost(Ok(captured)),
                    Ghost(Seq::empty()),
                    Ghost(trace),
                );
                true
            },
            _ => {
                core::mem::swap(&mut self.state, &mut state);
                false
            },
        }
    }

    /// `after` is this with the transfer on its way ended.
    pub open spec fn settled(&self, after: &Self, request: Request) -> bool {
        &&& after.wf()
        &&& after.is_idle()
        &&& after.capacity() == self.capacity()
        &&& after.origin() == self.origin()
        &&& if self.is_idle() {
            after.log() == self.log()
        } else {
            &&& after.log() == self.log().push(after.log().last())
            &&& after.log().last().request == request
            &&& after.log().last().outcome == Ok::<Seq<Seq<u8>>, Error>(seq![self.window()])
        }
    }

    /// End the started transfer and give the payload it captured; `None` if no
    /// transfer was on its way.
    pub fn finish_read(&mut self) -> (window: Option<&[u8]>)
        requires
            old(self).wf(),
        ensures
            old(self).settled(final(self), Request::Finish),
            match window {
                Some(bytes) => !old(self).is_idle() && bytes@ == old(self).window(),
                None => old(self).is_idle(),
            },
    {
        if !self.settle(Ghost(Request::Finish)) {
            return None;
        }
        match &self.state {
            DmaState::Idle { dev, scratch_buffers } => Some(
                &scratch_buffers.rx[HEADER..scratch_buffers.len],
            ),
            _ => None,
        }
    }

    /// End the started transfer. Says whether one was on its way.
    pub fn finish_write(&mut self) -> (ended: bool)
        requires
            old(self).wf(),
        ensures
            old(self).settled(final(self), Request::Finish),
            ended == !old(self).is_idle(),
    {
        self.settle(Ghost(Request::Finish))
    }

    /// Tear down the started transfer, if any, and drop what it captured.
    pub fn abort(&mut self)
        requires
            old(self).wf(),
        ensures
            old(self).settled(final(self), Request::Abort),
    {
        let _ = self.settle(Ghost(Request::Abort));
    }
}

/// Whether an access that starts to write got as far as taking the data out of
/// the ring: it did not if it would have had to wait or does not fit.
pub open spec fn drained(access: Access) -> bool {
    match access.outcome {
        Ok(_) => true,
        Err(e) => e == Error::Other(DriverError::SpiError),
    }
}

/// The first `len` bytes of `bytes`, with zeros for those that are missing.
pub open spec fn padded(bytes: Seq<u8>, len: nat) -> Seq<u8> {
    overlay(zeros(len), 0, bytes.take(min(len as int, bytes.len() as int)))
}

/// Recording an access adds what it did on the bus.
proof fn lemma_events_push(log: Seq<Access>, access: Access)
    ensures
        events_of(log.push(access)) == events_of(log) + access.events,
{
    assert(log.push(access).drop_last() =~= log);
}

} // verus!
