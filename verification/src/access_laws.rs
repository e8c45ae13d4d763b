//! What a recorded access did on the bus.
use vstd::prelude::*;

use crate::access::{carried_out, ended, passed, reply, sound, Access, Request, HEADER};
use crate::address::{
    header_of, read_request, start_read_request, start_write_request, write_request, Address,
};
use crate::batch::lemma_frame_reply;
use crate::bus::{
    chunk_end, error_of, follows, op_len, op_staged, received_of, staged, wire_len, Op,
};
use crate::bytes::zeros;
use crate::error::{DriverError, Error};
use crate::spi_dma::{BusEvent, Completion, SpiDmaDevice};
use crate::transiver::Transceiver;

verus! {

/// A read that fits the scratch buffers is one transfer on the bus: the header
/// goes out first, and what comes in behind it is the reply. If the transfer
/// cannot be started, that is the error.
pub proof fn law_read_is_one_transfer(access: Access, capacity: nat, addr: Address, len: nat)
    requires
        sound(access, capacity),
        access.request == read_request(addr, len),
        access.outcome != Err::<Seq<Seq<u8>>, Error>(Error::WouldBlock),
        HEADER + len <= capacity,
    ensures
        access.events.len() == 1,
        match access.events[0] {
            BusEvent::Transfer { mosi, miso, completion } => {
                &&& mosi.len() == HEADER + len
                &&& mosi.take(HEADER as int) == header_of(addr, false)
                &&& miso.len() == mosi.len()
                &&& completion == Completion::Poll
                &&& access.outcome is Ok
                &&& reply(access) == miso.skip(HEADER as int)
            },
            BusEvent::Fault { mosi, completion } => {
                &&& mosi.len() == HEADER + len
                &&& mosi.take(HEADER as int) == header_of(addr, false)
                &&& access.outcome == Err::<Seq<Seq<u8>>, Error>(
                    Error::Other(DriverError::SpiError),
                )
            },
            BusEvent::Delay { ns } => false,
        },
{
    let ops = access.request->ops;
    lemma_one_chunk(ops, capacity, access.events);
    assert(op_staged(ops, 0, 0, staged_by(access.events[0])));
    if access.events[0] is Transfer {
        let miso = access.events[0]->Transfer_miso;
        assert(reply(access) =~= miso.skip(HEADER as int));
    }
}

/// A read that succeeded brought in as many bytes as it asked for.
pub proof fn law_reply_length(access: Access, capacity: nat, addr: Address, len: nat)
    requires
        sound(access, capacity),
        access.request == read_request(addr, len),
        access.outcome is Ok,
    ensures
        reply(access).len() == len,
{
    lemma_frame_reply(access.request->ops, capacity, access.events);
}

/// A transfer that is started is one on the bus, whose end an interrupt reports: the
/// header goes out first, and behind it the data, or nothing but zeros to read. If it
/// cannot be started, or does not fit, that is the error.
pub proof fn law_start_is_one_transfer(
    access: Access,
    capacity: nat,
    addr: Address,
    write: bool,
    data: Seq<u8>,
)
    requires
        sound(access, capacity),
        access.request == (if write {
            start_write_request(addr, data)
        } else {
            start_read_request(addr, data.len())
        }),
        !write ==> data == zeros(data.len()),
        access.outcome != Err::<Seq<Seq<u8>>, Error>(Error::WouldBlock),
    ensures
        3 + data.len() > capacity ==> access.events.len() == 0 && access.outcome == Err::<
            Seq<Seq<u8>>,
            Error,
        >(Error::Other(DriverError::ScratchBufferOverrun)),
        3 + data.len() <= capacity ==> access.events.len() == 1 && match access.events[0] {
            BusEvent::Transfer { mosi, miso, completion } => {
                &&& mosi == header_of(addr, write) + data
                &&& miso.len() == mosi.len()
                &&& completion == Completion::Interrupt
                &&& access.outcome is Ok
            },
            BusEvent::Fault { mosi, completion } => {
                &&& mosi == header_of(addr, write) + data
                &&& completion == Completion::Interrupt
                &&& access.outcome == Err::<Seq<Seq<u8>>, Error>(
                    Error::Other(DriverError::SpiError),
                )
            },
            BusEvent::Delay { ns } => false,
        },
{
}

/// A write that fits the scratch buffers is one transfer on the bus: the header
/// goes out first, and the data right behind it. If the transfer cannot be
/// started, that is the error.
pub proof fn law_write_is_one_transfer(access: Access, capacity: nat, addr: Address, data: Seq<u8>)
    requires
        sound(access, capacity),
        access.request == write_request(addr, data),
        access.outcome != Err::<Seq<Seq<u8>>, Error>(Error::WouldBlock),
        HEADER + data.len() <= capacity,
    ensures
        access.events.len() == 1,
        match access.events[0] {
            BusEvent::Transfer { mosi, miso, completion } => {
                &&& mosi == header_of(addr, true) + data
                &&& completion == Completion::Poll
                &&& access.outcome is Ok
            },
            BusEvent::Fault { mosi, completion } => {
                &&& mosi == header_of(addr, true) + data
                &&& access.outcome == Err::<Seq<Seq<u8>>, Error>(
                    Error::Other(DriverError::SpiError),
                )
            },
            BusEvent::Delay { ns } => false,
        },
{
    let ops = access.request->ops;
    lemma_one_chunk(ops, capacity, access.events);
    let mosi = staged_by(access.events[0]);
    assert(op_staged(ops, 0, 0, mosi));
    assert(op_staged(ops, 0, 1, mosi));
    assert(mosi =~= mosi.subrange(0, 3) + mosi.subrange(3, mosi.len() as int));
}

/// What an event put on the bus.
pub open spec fn staged_by(event: BusEvent) -> Seq<u8> {
    match event {
        BusEvent::Transfer { mosi, miso, completion } => mosi,
        BusEvent::Fault { mosi, completion } => mosi,
        BusEvent::Delay { ns } => Seq::empty(),
    }
}

/// Two operations that fit together go out in one transfer.
proof fn lemma_one_chunk(ops: Seq<Op>, capacity: nat, events: Seq<BusEvent>)
    requires
        ops.len() == 2,
        ops[0] is Write,
        op_len(ops[0]) == HEADER,
        !(ops[1] is Delay),
        HEADER + op_len(ops[1]) <= capacity,
        follows(ops, 0, capacity, events),
    ensures
        wire_len(ops, 0, 0) == 0,
        wire_len(ops, 0, 1) == HEADER,
        wire_len(ops, 0, 2) == HEADER + op_len(ops[1]),
        events.len() == 1,
        events[0] is Transfer || events[0] is Fault,
        staged(ops, 0, 2, staged_by(events[0])),
        events[0] is Transfer ==> {
            &&& events[0]->Transfer_completion == Completion::Poll
            &&& events[0]->Transfer_miso.len() == HEADER + op_len(ops[1])
            &&& error_of(ops, 0, capacity, events) is None
            &&& received_of(ops, 0, capacity, events, 1) == Some(
                events[0]->Transfer_miso.subrange(HEADER as int, HEADER + op_len(ops[1])),
            )
        },
        events[0] is Fault ==> error_of(ops, 0, capacity, events) == Some(DriverError::SpiError),
{
    reveal_with_fuel(chunk_end, 4);
    reveal_with_fuel(wire_len, 4);
    reveal_with_fuel(follows, 3);
    reveal_with_fuel(error_of, 3);
    reveal_with_fuel(received_of, 3);
}

/// Accesses that are made one after the other stop at the first that fails, and that is
/// the error. Otherwise all of them are made, and each succeeds.
pub proof fn law_stops_at_first_failure(wanted: Seq<Request>, done: Seq<Access>, i: int)
    requires
        carried_out(wanted, done),
        0 <= i < done.len(),
    ensures
        done.len() <= wanted.len(),
        done[i].request == wanted[i],
        done[i].outcome is Err ==> {
            &&& i == done.len() - 1
            &&& ended(done) == Err::<(), Error>(done[i].outcome->Err_0)
        },
        done.last().outcome is Ok ==> done.len() == wanted.len() && ended(done) == Ok::<
            (),
            Error,
        >(()),
        passed(done, (i + 1) as nat) == (done[i].outcome is Ok),
{
}

/// An access has to wait exactly if a transfer is on its way, and does nothing on the bus
/// then. A transfer that was started takes the bus; ending it gives the bus back, together
/// with what came in behind the header.
pub proof fn law_transfer_life<D: SpiDmaDevice>(
    before: &Transceiver<D>,
    mid: &Transceiver<D>,
    after: &Transceiver<D>,
    request: Request,
)
    requires
        before.launched(mid, request),
        mid.settled(after, Request::Finish),
    ensures
        mid.log().len() == before.log().len() + 1,
        mid.log().last().request == request,
        after.is_idle(),
        !before.is_idle() ==> {
            &&& mid.log().last().outcome == Err::<Seq<Seq<u8>>, Error>(Error::WouldBlock)
            &&& mid.log().last().events.len() == 0
        },
        before.is_idle() ==> {
            let started = mid.log().last();
            &&& started.outcome != Err::<Seq<Seq<u8>>, Error>(Error::WouldBlock)
            &&& mid.is_idle() == (started.outcome is Err)
            &&& started.outcome is Ok ==> {
                &&& after.log().len() == mid.log().len() + 1
                &&& after.log().last().request == Request::Finish
                &&& reply_of_end(after.log().last()) == started.events[0]->Transfer_miso.skip(3)
            }
            &&& started.outcome is Err ==> after.log() == mid.log()
        },
{
    mid.lemma_sound(mid.log().len() - 1);
}

/// What came in with a transfer that ended.
pub open spec fn reply_of_end(access: Access) -> Seq<u8> {
    access.outcome->Ok_0[0]
}

} // verus!
