//! The record of what the driver asked of the chip and what came of it.
//!
//! Every contract of the driver speaks of this record: the accesses that a call
//! makes, in order, each with its outcome. [`sound`] ties an access to the bus.
use vstd::prelude::*;

use crate::bus::{error_of, follows, received_of, Op};
use crate::bytes::zeros;
use crate::error::{DriverError, Error};
use crate::spi_dma::{BusEvent, Completion};

verus! {

/// The length of the command header in front of every frame.
pub const HEADER: usize = 3;

/// What was asked for.
pub enum Request {
    /// A batch of operations, carried out at once.
    Batch { ops: Seq<Op> },
    /// A transfer that reads `len` bytes behind `header`, started only.
    StartRead { header: Seq<u8>, len: nat },
    /// A transfer that writes `data` behind `header`, started only.
    StartWrite { header: Seq<u8>, data: Seq<u8> },
    /// The end of the transfer on its way, with what it captured.
    Finish,
    /// The end of the transfer on its way, with what it captured dropped.
    Abort,
}

/// One access: what was asked for, how it ended and what it did on the bus. In
/// the good case the outcome holds, for each part of the request, the bytes
/// that came in for it.
pub struct Access {
    pub request: Request,
    pub outcome: Result<Seq<Seq<u8>>, Error>,
    pub events: Seq<BusEvent>,
}

/// What came in for each operation of a batch.
pub open spec fn batch_replies(ops: Seq<Op>, capacity: nat, events: Seq<BusEvent>) -> Seq<Seq<u8>> {
    Seq::new(
        ops.len(),
        |i: int|
            match received_of(ops, 0, capacity, events, i) {
                Some(bytes) => bytes,
                None => Seq::empty(),
            },
    )
}

/// The outcome of a batch that did `events` on the bus.
pub open spec fn batch_outcome(ops: Seq<Op>, capacity: nat, events: Seq<BusEvent>) -> Result<
    Seq<Seq<u8>>,
    Error,
> {
    match error_of(ops, 0, capacity, events) {
        Some(e) => Err(Error::Other(e)),
        None => Ok(batch_replies(ops, capacity, events)),
    }
}

/// Whether starting a transfer of `mosi` ended in `outcome` and did `events`.
pub open spec fn start_sound(
    mosi: Seq<u8>,
    capacity: nat,
    outcome: Result<Seq<Seq<u8>>, Error>,
    events: Seq<BusEvent>,
) -> bool {
    if mosi.len() > capacity {
        &&& outcome == Err::<Seq<Seq<u8>>, Error>(Error::Other(DriverError::ScratchBufferOverrun))
        &&& events.len() == 0
    } else {
        events.len() == 1 && match events[0] {
            BusEvent::Transfer { mosi: sent, miso, completion } => {
                &&& sent == mosi
                &&& miso.len() == mosi.len()
                &&& completion == Completion::Interrupt
                &&& outcome == Ok::<Seq<Seq<u8>>, Error>(Seq::empty())
            },
            BusEvent::Fault { mosi: sent, completion } => {
                &&& sent == mosi
                &&& completion == Completion::Interrupt
                &&& outcome == Err::<Seq<Seq<u8>>, Error>(Error::Other(DriverError::SpiError))
            },
            BusEvent::Delay { ns } => false,
        }
    }
}

/// Whether an access is what its request does on a bus with scratch buffers of
/// `capacity` bytes. An access that would have to wait does nothing.
pub open spec fn sound(access: Access, capacity: nat) -> bool {
    if access.outcome == Err::<Seq<Seq<u8>>, Error>(Error::WouldBlock) {
        access.events.len() == 0
    } else {
        match access.request {
            Request::Batch { ops } => {
                &&& follows(ops, 0, capacity, access.events)
                &&& access.outcome == batch_outcome(ops, capacity, access.events)
            },
            Request::StartRead { header, len } => start_sound(
                header + zeros(len),
                capacity,
                access.outcome,
                access.events,
            ),
            Request::StartWrite { header, data } => start_sound(
                header + data,
                capacity,
                access.outcome,
                access.events,
            ),
            Request::Finish => access.outcome is Ok && access.events.len() == 0,
            Request::Abort => access.outcome is Ok && access.events.len() == 0,
        }
    }
}

/// What a run of accesses did on the bus.
pub open spec fn events_of(log: Seq<Access>) -> Seq<BusEvent>
    decreases log.len(),
{
    if log.len() == 0 {
        Seq::empty()
    } else {
        events_of(log.drop_last()) + log.last().events
    }
}

/// Whether an access left a transfer on its way.
pub open spec fn takes_off(access: Access) -> bool {
    (access.request is StartRead || access.request is StartWrite) && access.outcome is Ok
}

/// Whether an access ended the transfer on its way.
pub open spec fn lands(access: Access) -> bool {
    access.request is Finish || access.request is Abort
}

/// Whether a transfer is on its way after the accesses `log`.
pub open spec fn airborne(log: Seq<Access>) -> bool
    decreases log.len(),
{
    if log.len() == 0 {
        false
    } else if takes_off(log.last()) {
        true
    } else if lands(log.last()) {
        false
    } else {
        airborne(log.drop_last())
    }
}

/// Whether the bus is left alone while a transfer is on its way: until the
/// transfer has ended, every access would have to wait. And only a transfer that
/// is on its way is ended.
pub open spec fn orderly(log: Seq<Access>) -> bool {
    forall|i: int|
        #![trigger log[i]]
        0 <= i < log.len() ==> if airborne(log.take(i)) {
            lands(log[i]) || log[i].outcome == Err::<Seq<Seq<u8>>, Error>(Error::WouldBlock)
        } else {
            !lands(log[i])
        }
}

/// One access more.
pub proof fn lemma_orderly_push(log: Seq<Access>, access: Access)
    ensures
        airborne(log.push(access)) == (takes_off(access) || (!lands(access) && airborne(log))),
        orderly(log) && (if airborne(log) {
            lands(access) || access.outcome == Err::<Seq<Seq<u8>>, Error>(Error::WouldBlock)
        } else {
            !lands(access)
        }) ==> orderly(log.push(access)),
{
    let grown = log.push(access);
    assert(grown.drop_last() =~= log);
    assert forall|i: int| 0 <= i < log.len() implies #[trigger] grown[i] == log[i] && grown.take(i)
        == log.take(i) by {
        assert(grown.take(i) =~= log.take(i));
    }
    assert(grown.take(log.len() as int) =~= log);
}

/// The bytes that a register or buffer read brought in.
pub open spec fn reply(access: Access) -> Seq<u8> {
    access.outcome->Ok_0[1]
}

/// How an access ended, without what came in.
pub open spec fn status(access: Access) -> Result<(), Error> {
    match access.outcome {
        Ok(_) => Ok(()),
        Err(e) => Err(e),
    }
}

/// The accesses that took the record from `before` to `after`.
pub open spec fn since(before: Seq<Access>, after: Seq<Access>) -> Seq<Access> {
    after.skip(before.len() as int)
}

/// The last access failed, so nothing came after it.
pub open spec fn failed(done: Seq<Access>) -> bool {
    done.len() > 0 && done.last().outcome is Err
}

/// The error that the last access failed with.
pub open spec fn failure(done: Seq<Access>) -> Error {
    done.last().outcome->Err_0
}

/// The outcome of accesses that are made one after the other until one fails,
/// and of the conclusion that is drawn once all of them succeeded.
pub open spec fn concluded<T>(done: Seq<Access>, conclusion: Result<T, Error>) -> Result<T, Error> {
    if failed(done) {
        Err(failure(done))
    } else {
        conclusion
    }
}

/// The outcome of accesses that are made one after the other until one fails.
pub open spec fn ended(done: Seq<Access>) -> Result<(), Error> {
    concluded(done, Ok(()))
}

/// The first `n` accesses succeeded.
pub open spec fn passed(done: Seq<Access>, n: nat) -> bool {
    done.len() > n || (done.len() == n && !failed(done))
}

/// `done` is `wanted` carried out in order, all of it or up to and with the
/// first access that failed.
pub open spec fn carried_out(wanted: Seq<Request>, done: Seq<Access>) -> bool {
    &&& done.len() <= wanted.len()
    &&& forall|i: int| 0 <= i < done.len() ==> (#[trigger] done[i]).request == wanted[i]
    &&& forall|i: int| 0 <= i < done.len() - 1 ==> (#[trigger] done[i]).outcome is Ok
    &&& done.len() < wanted.len() ==> failed(done)
}

/// What is carried out in two parts is carried out as a whole.
pub proof fn lemma_carried_out_on(first: Seq<Request>, second: Seq<Request>, done: Seq<Access>)
    requires
        done.len() >= first.len(),
        carried_out(first, done.take(first.len() as int)),
        passed(done.take(first.len() as int), first.len()),
        carried_out(second, done.skip(first.len() as int)),
    ensures
        carried_out(first + second, done),
        passed(done, first.len()),
        failed(done) == failed(done.skip(first.len() as int)),
        failed(done) ==> failure(done) == failure(done.skip(first.len() as int)),
{
    let k = first.len() as int;
    assert forall|i: int| 0 <= i < done.len() implies (#[trigger] done[i]).request == (first
        + second)[i] by {
        if i < k {
            assert(done.take(k)[i].request == first[i]);
        } else {
            assert(done.skip(k)[i - k].request == second[i - k]);
        }
    }
    assert forall|i: int| 0 <= i < done.len() - 1 implies (#[trigger] done[i]).outcome is Ok by {
        if i < k {
            assert(done.take(k)[i] == done[i]);
        } else {
            assert(done.skip(k)[i - k] == done[i]);
        }
    }
    if done.len() > k {
        assert(done.skip(k).last() == done.last());
    } else if k > 0 {
        assert(done.take(k).last() == done.last());
    }
}

/// What fails in its first part goes no further.
pub proof fn lemma_carried_out_fails(first: Seq<Request>, second: Seq<Request>, done: Seq<Access>)
    requires
        carried_out(first, done),
        failed(done),
    ensures
        carried_out(first + second, done),
{
}

} // verus!
