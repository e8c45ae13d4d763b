//! What a batch of SPI operations does on the bus, stated on plain values.
//!
//! A batch is carried out in chunks: as many operations as fit the scratch
//! buffers together go out in one transfer, a delay is carried out on its own,
//! and an operation that does not fit by itself ends the batch.
use vstd::prelude::*;

use crate::error::DriverError;
use crate::spi_dma::{BusEvent, Completion};

verus! {

/// An SPI operation without its buffers.
pub enum Op {
    /// Receive `len` bytes; what goes out meanwhile does not matter.
    Read { len: nat },
    /// Send `data`; what comes in meanwhile is dropped.
    Write { data: Seq<u8> },
    /// Send `data` and receive as many bytes.
    Exchange { data: Seq<u8> },
    /// Pause.
    Delay { ns: u32 },
}

/// The bytes an operation occupies on the bus.
pub open spec fn op_len(op: Op) -> nat {
    match op {
        Op::Read { len } => len,
        Op::Write { data } => data.len(),
        Op::Exchange { data } => data.len(),
        Op::Delay { ns } => 0,
    }
}

/// The bytes that the operations `from..to` occupy together.
pub open spec fn wire_len(ops: Seq<Op>, from: int, to: int) -> nat
    decreases to - from,
{
    if from >= to {
        0
    } else {
        wire_len(ops, from, to - 1) + op_len(ops[to - 1])
    }
}

/// The end of the chunk that starts at `from`: operations are added while they
/// fit `capacity` bytes and no delay comes in between. `used` bytes of the
/// chunk are taken already.
pub open spec fn chunk_end(ops: Seq<Op>, from: int, used: nat, capacity: nat) -> int
    decreases ops.len() - from,
{
    if from >= ops.len() || ops[from] is Delay || used + op_len(ops[from]) > capacity {
        from
    } else {
        chunk_end(ops, from + 1, used + op_len(ops[from]), capacity)
    }
}

/// Whether `mosi` is what the chunk `from..to` puts on the bus: each operation
/// that sends data has it in its place. Read operations leave their place open.
pub open spec fn staged(ops: Seq<Op>, from: int, to: int, mosi: Seq<u8>) -> bool {
    &&& mosi.len() == wire_len(ops, from, to)
    &&& forall|i: int| from <= i < to ==> #[trigger] op_staged(ops, from, i, mosi)
}

/// Whether the data that operation `i` sends stands in its place in `mosi`,
/// behind that of the operations from `from` on.
pub open spec fn op_staged(ops: Seq<Op>, from: int, i: int, mosi: Seq<u8>) -> bool {
    let at = wire_len(ops, from, i) as int;
    match ops[i] {
        Op::Write { data } => mosi.subrange(at, at + data.len()) == data,
        Op::Exchange { data } => mosi.subrange(at, at + data.len()) == data,
        _ => true,
    }
}

/// Whether `events` is what carrying out the operations from `from` on does on
/// the bus.
pub open spec fn follows(ops: Seq<Op>, from: int, capacity: nat, events: Seq<BusEvent>) -> bool
    decreases ops.len() - from,
{
    if from < 0 || from >= ops.len() {
        events.len() == 0
    } else {
        proof {
            lemma_chunk_end_bounds(ops, from, 0, capacity);
        }
        let to = chunk_end(ops, from, 0, capacity);
        if to <= from {
            match ops[from] {
                Op::Delay { ns } => {
                    &&& events.len() > 0
                    &&& events[0] == BusEvent::Delay { ns }
                    &&& follows(ops, from + 1, capacity, events.skip(1))
                },
                _ => events.len() == 0,
            }
        } else {
            events.len() > 0 && match events[0] {
                BusEvent::Transfer { mosi, miso, completion } => {
                    &&& completion == Completion::Poll
                    &&& staged(ops, from, to, mosi)
                    &&& miso.len() == mosi.len()
                    &&& follows(ops, to, capacity, events.skip(1))
                },
                BusEvent::Fault { mosi, completion } => {
                    &&& completion == Completion::Poll
                    &&& staged(ops, from, to, mosi)
                    &&& events.len() == 1
                },
                BusEvent::Delay { ns } => false,
            }
        }
    }
}

/// The error that the operations from `from` on end in, given what happened.
pub open spec fn error_of(ops: Seq<Op>, from: int, capacity: nat, events: Seq<BusEvent>) -> Option<
    DriverError,
>
    decreases ops.len() - from,
{
    if from < 0 || from >= ops.len() {
        None
    } else {
        proof {
            lemma_chunk_end_bounds(ops, from, 0, capacity);
        }
        let to = chunk_end(ops, from, 0, capacity);
        if to <= from {
            if ops[from] is Delay {
                error_of(ops, from + 1, capacity, events.skip(1))
            } else {
                Some(DriverError::ScratchBufferOverrun)
            }
        } else if events[0] is Fault {
            Some(DriverError::SpiError)
        } else {
            error_of(ops, to, capacity, events.skip(1))
        }
    }
}

/// What came in while operation `i` was on the bus, given what happened from
/// operation `from` on; `None` if it never got there.
pub open spec fn received_of(
    ops: Seq<Op>,
    from: int,
    capacity: nat,
    events: Seq<BusEvent>,
    i: int,
) -> Option<Seq<u8>>
    decreases ops.len() - from,
{
    if from < 0 || from >= ops.len() {
        None
    } else {
        proof {
            lemma_chunk_end_bounds(ops, from, 0, capacity);
        }
        let to = chunk_end(ops, from, 0, capacity);
        if to <= from {
            if ops[from] is Delay {
                received_of(ops, from + 1, capacity, events.skip(1), i)
            } else {
                None
            }
        } else {
            match events[0] {
                BusEvent::Transfer { mosi, miso, completion } => if from <= i < to {
                    let at = wire_len(ops, from, i) as int;
                    Some(miso.subrange(at, at + op_len(ops[i])))
                } else {
                    received_of(ops, to, capacity, events.skip(1), i)
                },
                _ => None,
            }
        }
    }
}

/// A chunk never goes past the end.
pub proof fn lemma_chunk_end_bounds(ops: Seq<Op>, from: int, used: nat, capacity: nat)
    requires
        0 <= from <= ops.len(),
    ensures
        from <= chunk_end(ops, from, used, capacity) <= ops.len(),
    decreases ops.len() - from,
{
    if !(from >= ops.len() || ops[from] is Delay || used + op_len(ops[from]) > capacity) {
        lemma_chunk_end_bounds(ops, from + 1, used + op_len(ops[from]), capacity);
    }
}

/// A chunk stops short of an operation that does not fit by itself.
proof fn lemma_chunk_end_oversized(ops: Seq<Op>, from: int, used: nat, capacity: nat, i: int)
    requires
        0 <= from <= i < ops.len(),
        op_len(ops[i]) > capacity,
    ensures
        chunk_end(ops, from, used, capacity) <= i,
    decreases i - from,
{
    if from < i && !(ops[from] is Delay) && used + op_len(ops[from]) <= capacity {
        lemma_chunk_end_oversized(ops, from + 1, used + op_len(ops[from]), capacity, i);
    }
}

/// No transfer failed to start.
pub open spec fn no_fault(events: Seq<BusEvent>) -> bool {
    forall|k: int| 0 <= k < events.len() ==> !(#[trigger] events[k] is Fault)
}

/// An operation that does not fit the scratch buffers by itself makes the batch
/// fail, with that as the error unless a transfer failed to start before.
pub proof fn law_oversized_fails(
    ops: Seq<Op>,
    from: int,
    capacity: nat,
    events: Seq<BusEvent>,
    i: int,
)
    requires
        0 <= from <= i < ops.len(),
        op_len(ops[i]) > capacity,
        follows(ops, from, capacity, events),
    ensures
        error_of(ops, from, capacity, events) is Some,
        no_fault(events) ==> error_of(ops, from, capacity, events) == Some(
            DriverError::ScratchBufferOverrun,
        ),
    decreases ops.len() - from,
{
    lemma_chunk_end_bounds(ops, from, 0, capacity);
    lemma_chunk_end_oversized(ops, from, 0, capacity, i);
    let to = chunk_end(ops, from, 0, capacity);
    if to <= from {
        if ops[from] is Delay {
            law_oversized_fails(ops, from + 1, capacity, events.skip(1), i);
        }
    } else if !(events[0] is Fault) {
        law_oversized_fails(ops, to, capacity, events.skip(1), i);
    }
}

/// A batch of which every operation fits the scratch buffers succeeds, unless a
/// transfer fails to start: then that is the error.
pub proof fn law_fitting_succeeds(ops: Seq<Op>, from: int, capacity: nat, events: Seq<BusEvent>)
    requires
        0 <= from <= ops.len(),
        forall|i: int| from <= i < ops.len() ==> op_len(#[trigger] ops[i]) <= capacity,
        follows(ops, from, capacity, events),
    ensures
        error_of(ops, from, capacity, events) == (if no_fault(events) {
            None
        } else {
            Some(DriverError::SpiError)
        }),
    decreases ops.len() - from,
{
    if from < ops.len() {
        lemma_chunk_end_bounds(ops, from, 0, capacity);
        let to = chunk_end(ops, from, 0, capacity);
        assert(op_len(ops[from]) <= capacity);
        lemma_chunk_end_bounds(ops, from + 1, op_len(ops[from]), capacity);
        if to <= from {
            law_fitting_succeeds(ops, from + 1, capacity, events.skip(1));
            lemma_no_fault_rest(events);
        } else if !(events[0] is Fault) {
            law_fitting_succeeds(ops, to, capacity, events.skip(1));
            lemma_no_fault_rest(events);
        }
    }
}

/// A first event that is no fault does not matter.
proof fn lemma_no_fault_rest(events: Seq<BusEvent>)
    requires
        events.len() > 0,
        !(events[0] is Fault),
    ensures
        no_fault(events) == no_fault(events.skip(1)),
{
    let rest = events.skip(1);
    if no_fault(rest) {
        assert forall|k: int| 0 <= k < events.len() implies !(#[trigger] events[k] is Fault) by {
            if k > 0 {
                assert(rest[k - 1] == events[k]);
            }
        }
    }
    if no_fault(events) {
        assert forall|k: int| 0 <= k < rest.len() implies !(#[trigger] rest[k] is Fault) by {
            assert(events[k + 1] == rest[k]);
        }
    }
}

/// `done` is what carrying out the operations up to `index` did on the bus, and
/// `got` what came in for each of them: whatever happens from there on, the
/// batch as a whole is judged by that.
pub open spec fn reached(
    ops: Seq<Op>,
    capacity: nat,
    done: Seq<BusEvent>,
    index: int,
    got: Seq<Option<Seq<u8>>>,
) -> bool {
    &&& got.len() == index
    &&& forall|rest: Seq<BusEvent>| #[trigger]
        follows(ops, index, capacity, rest) == follows(ops, 0, capacity, done + rest)
    &&& forall|rest: Seq<BusEvent>| #[trigger]
        error_of(ops, index, capacity, rest) == error_of(ops, 0, capacity, done + rest)
    &&& forall|rest: Seq<BusEvent>, i: int|
        index <= i ==> #[trigger] received_of(ops, index, capacity, rest, i) == received_of(
            ops,
            0,
            capacity,
            done + rest,
            i,
        )
    &&& forall|rest: Seq<BusEvent>, i: int|
        0 <= i < index ==> #[trigger] received_of(ops, 0, capacity, done + rest, i) == got[i]
}

/// What comes in for each operation of the chunk `from..to` when `miso` does.
pub open spec fn windows(ops: Seq<Op>, from: int, to: int, miso: Seq<u8>) -> Seq<Option<Seq<u8>>> {
    Seq::new(
        (to - from) as nat,
        |k: int|
            {
                let at = wire_len(ops, from, from + k) as int;
                Some(miso.subrange(at, at + op_len(ops[from + k])))
            },
    )
}

/// Nothing done yet.
pub proof fn lemma_reached_start(ops: Seq<Op>, capacity: nat)
    ensures
        reached(ops, capacity, Seq::empty(), 0, Seq::empty()),
{
    assert forall|rest: Seq<BusEvent>| #[trigger] follows(ops, 0, capacity, rest) == follows(
        ops,
        0,
        capacity,
        Seq::<BusEvent>::empty() + rest,
    ) by {
        assert(Seq::<BusEvent>::empty() + rest =~= rest);
    }
    assert forall|rest: Seq<BusEvent>| #[trigger] error_of(ops, 0, capacity, rest) == error_of(
        ops,
        0,
        capacity,
        Seq::<BusEvent>::empty() + rest,
    ) by {
        assert(Seq::<BusEvent>::empty() + rest =~= rest);
    }
    assert forall|rest: Seq<BusEvent>, i: int|
        0 <= i implies #[trigger] received_of(ops, 0, capacity, rest, i) == received_of(
        ops,
        0,
        capacity,
        Seq::<BusEvent>::empty() + rest,
        i,
    ) by {
        assert(Seq::<BusEvent>::empty() + rest =~= rest);
    }
}

/// One more event takes the batch from `index` to `next`.
proof fn lemma_reached_push(
    ops: Seq<Op>,
    capacity: nat,
    done: Seq<BusEvent>,
    index: int,
    got: Seq<Option<Seq<u8>>>,
    event: BusEvent,
    next: int,
    more: Seq<Option<Seq<u8>>>,
)
    requires
        reached(ops, capacity, done, index, got),
        0 <= index < next,
        more.len() == next - index,
        forall|rest: Seq<BusEvent>|
            follows(ops, index, capacity, #[trigger] (seq![event] + rest)) == follows(
                ops,
                next,
                capacity,
                rest,
            ),
        forall|rest: Seq<BusEvent>|
            error_of(ops, index, capacity, #[trigger] (seq![event] + rest)) == error_of(
                ops,
                next,
                capacity,
                rest,
            ),
        forall|rest: Seq<BusEvent>, i: int|
            #[trigger] received_of(ops, index, capacity, seq![event] + rest, i) == (if index <= i
                < next {
                more[i - index]
            } else {
                received_of(ops, next, capacity, rest, i)
            }),
    ensures
        reached(ops, capacity, done.push(event), next, got + more),
{
    let now = done.push(event);
    assert forall|rest: Seq<BusEvent>| #[trigger] follows(ops, next, capacity, rest) == follows(
        ops,
        0,
        capacity,
        now + rest,
    ) by {
        assert(now + rest =~= done + (seq![event] + rest));
        assert(follows(ops, index, capacity, seq![event] + rest) == follows(
            ops,
            0,
            capacity,
            done + (seq![event] + rest),
        ));
    }
    assert forall|rest: Seq<BusEvent>| #[trigger] error_of(ops, next, capacity, rest) == error_of(
        ops,
        0,
        capacity,
        now + rest,
    ) by {
        assert(now + rest =~= done + (seq![event] + rest));
        assert(error_of(ops, index, capacity, seq![event] + rest) == error_of(
            ops,
            0,
            capacity,
            done + (seq![event] + rest),
        ));
    }
    assert forall|rest: Seq<BusEvent>, i: int|
        next <= i implies #[trigger] received_of(ops, next, capacity, rest, i) == received_of(
        ops,
        0,
        capacity,
        now + rest,
        i,
    ) by {
        assert(now + rest =~= done + (seq![event] + rest));
        assert(received_of(ops, index, capacity, seq![event] + rest, i) == received_of(
            ops,
            0,
            capacity,
            done + (seq![event] + rest),
            i,
        ));
    }
    assert forall|rest: Seq<BusEvent>, i: int| 0 <= i < next implies #[trigger] received_of(
        ops,
        0,
        capacity,
        now + rest,
        i,
    ) == (got + more)[i] by {
        assert(now + rest =~= done + (seq![event] + rest));
        if i < index {
            assert(received_of(ops, 0, capacity, done + (seq![event] + rest), i) == got[i]);
        } else {
            assert(received_of(ops, index, capacity, seq![event] + rest, i) == received_of(
                ops,
                0,
                capacity,
                done + (seq![event] + rest),
                i,
            ));
        }
    }
}

/// A delay was carried out.
pub proof fn lemma_reached_delay(
    ops: Seq<Op>,
    capacity: nat,
    done: Seq<BusEvent>,
    index: int,
    got: Seq<Option<Seq<u8>>>,
)
    requires
        reached(ops, capacity, done, index, got),
        0 <= index < ops.len(),
        ops[index] is Delay,
    ensures
        reached(
            ops,
            capacity,
            done.push(BusEvent::Delay { ns: ops[index]->Delay_ns }),
            index + 1,
            got.push(None),
        ),
{
    let event = BusEvent::Delay { ns: ops[index]->Delay_ns };
    assert(chunk_end(ops, index, 0, capacity) == index);
    assert forall|rest: Seq<BusEvent>|
        follows(ops, index, capacity, #[trigger] (seq![event] + rest)) == follows(
            ops,
            index + 1,
            capacity,
            rest,
        ) by {
        assert((seq![event] + rest).skip(1) =~= rest);
    }
    assert forall|rest: Seq<BusEvent>|
        error_of(ops, index, capacity, #[trigger] (seq![event] + rest)) == error_of(
            ops,
            index + 1,
            capacity,
            rest,
        ) by {
        assert((seq![event] + rest).skip(1) =~= rest);
    }
    let more = seq![None::<Seq<u8>>];
    assert forall|rest: Seq<BusEvent>, i: int| #[trigger]
        received_of(ops, index, capacity, seq![event] + rest, i) == (if index <= i < index + 1 {
            more[i - index]
        } else {
            received_of(ops, index + 1, capacity, rest, i)
        }) by {
        assert((seq![event] + rest).skip(1) =~= rest);
        if i == index {
            lemma_not_received(ops, index + 1, capacity, rest, i);
        }
    }
    lemma_reached_push(ops, capacity, done, index, got, event, index + 1, more);
    assert(got + more =~= got.push(None));
}

/// An operation that lies behind receives nothing more.
proof fn lemma_not_received(ops: Seq<Op>, from: int, capacity: nat, events: Seq<BusEvent>, i: int)
    requires
        i < from,
    ensures
        received_of(ops, from, capacity, events, i) is None,
    decreases ops.len() - from,
{
    if 0 <= from < ops.len() {
        lemma_chunk_end_bounds(ops, from, 0, capacity);
        let to = chunk_end(ops, from, 0, capacity);
        if to <= from {
            if ops[from] is Delay {
                lemma_not_received(ops, from + 1, capacity, events.skip(1), i);
            }
        } else {
            lemma_not_received(ops, to, capacity, events.skip(1), i);
        }
    }
}

/// A chunk was transferred.
pub proof fn lemma_reached_transfer(
    ops: Seq<Op>,
    capacity: nat,
    done: Seq<BusEvent>,
    index: int,
    got: Seq<Option<Seq<u8>>>,
    mosi: Seq<u8>,
    miso: Seq<u8>,
)
    requires
        reached(ops, capacity, done, index, got),
        0 <= index < ops.len(),
        chunk_end(ops, index, 0, capacity) > index,
        staged(ops, index, chunk_end(ops, index, 0, capacity), mosi),
        miso.len() == mosi.len(),
    ensures
        reached(
            ops,
            capacity,
            done.push(BusEvent::Transfer { mosi, miso, completion: Completion::Poll }),
            chunk_end(ops, index, 0, capacity),
            got + windows(ops, index, chunk_end(ops, index, 0, capacity), miso),
        ),
{
    let event = BusEvent::Transfer { mosi, miso, completion: Completion::Poll };
    let to = chunk_end(ops, index, 0, capacity);
    let more = windows(ops, index, to, miso);
    assert forall|rest: Seq<BusEvent>|
        follows(ops, index, capacity, #[trigger] (seq![event] + rest)) == follows(
            ops,
            to,
            capacity,
            rest,
        ) by {
        assert((seq![event] + rest).skip(1) =~= rest);
    }
    assert forall|rest: Seq<BusEvent>|
        error_of(ops, index, capacity, #[trigger] (seq![event] + rest)) == error_of(
            ops,
            to,
            capacity,
            rest,
        ) by {
        assert((seq![event] + rest).skip(1) =~= rest);
    }
    assert forall|rest: Seq<BusEvent>, i: int| #[trigger]
        received_of(ops, index, capacity, seq![event] + rest, i) == (if index <= i < to {
            more[i - index]
        } else {
            received_of(ops, to, capacity, rest, i)
        }) by {
        assert((seq![event] + rest).skip(1) =~= rest);
    }
    lemma_reached_push(ops, capacity, done, index, got, event, to, more);
}

} // verus!
