//! Batches of SPI operations, carried out chunk by chunk.
use vstd::prelude::*;

use crate::bus::{
    chunk_end, error_of, follows, lemma_reached_delay, lemma_reached_start, lemma_reached_transfer,
    op_len, op_staged, reached, received_of, staged, windows, wire_len, Op,
};
use crate::bytes::{copy_at, copy_part, overlay};
use crate::error::DriverError;
use crate::spi_dma::{BusEvent, Completion, DmaBuffers, SpiDmaDevice, SpiDmaTransaction};

verus! {

/// One SPI operation with its buffers.
pub enum Operation<'a> {
    /// Fill the buffer with what comes in.
    Read(&'a mut [u8]),
    /// Send the buffer.
    Write(&'a [u8]),
    /// Send the second buffer while filling the first; both have one length.
    Transfer(&'a mut [u8], &'a [u8]),
    /// Send the buffer and replace it with what comes in.
    TransferInPlace(&'a mut [u8]),
    /// Pause for so many nanoseconds.
    DelayNs(u32),
}

/// What an operation does on the bus.
pub open spec fn op_of(op: Operation<'_>) -> Op {
    match op {
        Operation::Read(items) => Op::Read { len: items@.len() },
        Operation::Write(items) => Op::Write { data: items@ },
        Operation::Transfer(_, items) => Op::Exchange { data: items@ },
        Operation::TransferInPlace(items) => Op::Exchange { data: items@ },
        Operation::DelayNs(ns) => Op::Delay { ns },
    }
}

/// What a batch of operations does on the bus.
pub open spec fn ops_of(operations: Seq<Operation<'_>>) -> Seq<Op> {
    Seq::new(operations.len(), |i: int| op_of(operations[i]))
}

/// A transfer receives as many bytes as it sends.
pub open spec fn paired(op: Operation<'_>) -> bool {
    match op {
        Operation::Transfer(read, write) => read@.len() == write@.len(),
        _ => true,
    }
}

/// The contents of a buffer that received `incoming`, if it received anything.
pub open spec fn filled(incoming: Option<Seq<u8>>, before: Seq<u8>) -> Seq<u8> {
    match incoming {
        Some(bytes) => bytes,
        None => before,
    }
}

/// Lay the outgoing bytes of a chunk of operations into `tx`. Gives the end of
/// the chunk and the number of bytes it occupies.
fn stage(
    operations: &[Operation<'_>],
    from: usize,
    tx: &mut [u8],
    Ghost(ops): Ghost<Seq<Op>>,
) -> (chunk: (usize, usize))
    requires
        from < operations@.len(),
        ops.len() == operations@.len(),
        forall|i: int| from <= i < ops.len() ==> op_of(#[trigger] operations@[i]) == ops[i],
    ensures
        final(tx)@.len() == old(tx)@.len(),
        from <= chunk.0 <= ops.len(),
        chunk.0 == chunk_end(ops, from as int, 0, old(tx)@.len()),
        chunk.1 == wire_len(ops, from as int, chunk.0 as int),
        chunk.1 <= old(tx)@.len(),
        staged(ops, from as int, chunk.0 as int, final(tx)@.take(chunk.1 as int)),
{
    let room = tx.len();
    let count = operations.len();
    let mut index = from;
    let mut offset: usize = 0;

    while index < count
        invariant_except_break
            chunk_end(ops, from as int, 0, room as nat) == chunk_end(
                ops,
                index as int,
                offset as nat,
                room as nat,
            ),
        invariant
            from <= index <= count,
            count == operations@.len(),
            ops.len() == operations@.len(),
            forall|i: int| from <= i < ops.len() ==> op_of(#[trigger] operations@[i]) == ops[i],
            room == tx@.len(),
            room == old(tx)@.len(),
            offset <= room,
            offset == wire_len(ops, from as int, index as int),
            staged(ops, from as int, index as int, tx@.take(offset as int)),
        ensures
            index == chunk_end(ops, from as int, 0, room as nat),
        decreases count - index,
    {
        assert(op_of(operations@[index as int]) == ops[index as int]);
        let ghost before = tx@;
        let size: usize;
        match &operations[index] {
            Operation::Read(items) => {
                size = items.len();
                if size > room - offset {
                    break;
                }
            },
            Operation::Write(items) | Operation::Transfer(_, items) => {
                size = items.len();
                if size > room - offset {
                    break;
                }
                copy_at(tx, offset, items);
            },
            Operation::TransferInPlace(items) => {
                size = items.len();
                if size > room - offset {
                    break;
                }
                copy_at(tx, offset, items);
            },
            Operation::DelayNs(_) => {
                break;
            },
        }
        proof {
            lemma_staged_grow(ops, from as int, index as int, before, tx@, offset as int);
        }
        offset = offset + size;
        index = index + 1;
    }
    (index, offset)
}

/// Hand out to the chunk `from..to` what came in while it was on the bus.
fn deliver(
    operations: &mut [Operation<'_>],
    from: usize,
    to: usize,
    rx: &[u8],
    Ghost(ops): Ghost<Seq<Op>>,
)
    requires
        from <= to <= old(operations)@.len(),
        ops.len() == old(operations)@.len(),
        forall|i: int|
            from <= i < to ==> op_of(#[trigger] old(operations)@[i]) == ops[i] && paired(
                old(operations)@[i],
            ),
        wire_len(ops, from as int, to as int) <= rx@.len(),
    ensures
        final(operations)@.len() == old(operations)@.len(),
        forall|i: int|
            0 <= i < ops.len() && !(from <= i < to) ==> #[trigger] final(operations)@[i]
                == old(operations)@[i],
        forall|i: int|
            #![trigger final(operations)@[i]]
            from <= i < to ==> {
                let at = wire_len(ops, from as int, i) as int;
                let bytes = rx@.subrange(at, at + op_len(ops[i]));
                match (old(operations)@[i], final(operations)@[i]) {
                    (Operation::Read(x), Operation::Read(y)) => final(x)@ == final(y)@ && y@
                        == bytes,
                    (Operation::Write(x), Operation::Write(y)) => x@ == y@,
                    (Operation::Transfer(x, v), Operation::Transfer(y, w)) => final(x)@
                        == final(y)@ && y@ == bytes && v@ == w@,
                    (Operation::TransferInPlace(x), Operation::TransferInPlace(y)) => final(x)@
                        == final(y)@ && y@ == bytes,
                    (Operation::DelayNs(m), Operation::DelayNs(n)) => m == n,
                    _ => false,
                }
            },
{
    let mut index = from;
    let mut offset: usize = 0;

    let room = rx.len();
    while index < to
        invariant
            from <= index <= to <= operations@.len(),
            operations@.len() == old(operations)@.len(),
            ops.len() == old(operations)@.len(),
            offset == wire_len(ops, from as int, index as int),
            wire_len(ops, from as int, to as int) <= room == rx@.len(),
            forall|i: int|
                from <= i < to ==> op_of(#[trigger] old(operations)@[i]) == ops[i] && paired(
                    old(operations)@[i],
                ),
            forall|i: int|
                0 <= i < ops.len() && !(from <= i < index) ==> #[trigger] operations@[i]
                    == old(operations)@[i],
            forall|i: int|
                #![trigger operations@[i]]
                from <= i < index ==> {
                    let at = wire_len(ops, from as int, i) as int;
                    let bytes = rx@.subrange(at, at + op_len(ops[i]));
                    match (old(operations)@[i], operations@[i]) {
                        (Operation::Read(x), Operation::Read(y)) => final(x)@ == final(y)@ && y@
                            == bytes,
                        (Operation::Write(x), Operation::Write(y)) => x@ == y@,
                        (Operation::Transfer(x, v), Operation::Transfer(y, w)) => final(x)@
                            == final(y)@ && y@ == bytes && v@ == w@,
                        (Operation::TransferInPlace(x), Operation::TransferInPlace(y)) => final(x)@
                            == final(y)@ && y@ == bytes,
                        (Operation::DelayNs(m), Operation::DelayNs(n)) => m == n,
                        _ => false,
                    }
                },
        decreases to - index,
    {
        proof {
            lemma_wire_len_monotone(ops, from as int, index + 1, to as int);
            assert(op_of(old(operations)@[index as int]) == ops[index as int]);
            assert(operations@[index as int] == old(operations)@[index as int]);
        }
        let ghost before = operations@;
        match &mut operations[index] {
            Operation::Read(items) => {
                let size = items.len();
                copy_part(items, 0, rx, offset, size);
                proof {
                    assert(items@ =~= rx@.subrange(offset as int, offset + size));
                }
                offset = offset + size;
            },
            Operation::Transfer(items, _) => {
                let size = items.len();
                copy_part(items, 0, rx, offset, size);
                proof {
                    assert(items@ =~= rx@.subrange(offset as int, offset + size));
                }
                offset = offset + size;
            },
            Operation::TransferInPlace(items) => {
                let size = items.len();
                copy_part(items, 0, rx, offset, size);
                proof {
                    assert(items@ =~= rx@.subrange(offset as int, offset + size));
                }
                offset = offset + size;
            },
            // A write still clocks bytes onto the bus, so it takes its place in
            // what came in as well.
            Operation::Write(items) => {
                offset = offset + items.len();
            },
            Operation::DelayNs(_) => {},
        }
        assert(forall|i: int|
            0 <= i < ops.len() && i != index ==> #[trigger] operations@[i] == before[i]);
        index = index + 1;
    }
}

/// Carry out `operations` on `dev`, chunk by chunk.
pub(crate) fn exec_transaction<D: SpiDmaDevice>(
    dev: D,
    scratch_buffers: DmaBuffers,
    operations: &mut [Operation<'_>],
) -> (done: (D, DmaBuffers, Option<DriverError>))
    requires
        scratch_buffers.rx@.len() == scratch_buffers.tx@.len(),
        forall|i: int| 0 <= i < old(operations)@.len() ==> paired(#[trigger] old(operations)@[i]),
    ensures
        done.1.rx@.len() == old(scratch_buffers.rx)@.len(),
        done.1.tx@.len() == old(scratch_buffers.rx)@.len(),
        dev.trace().len() <= done.0.trace().len(),
        done.0.trace().take(dev.trace().len() as int) == dev.trace(),
        final(operations)@.len() == old(operations)@.len(),
        ({
            let ops = ops_of(old(operations)@);
            let capacity = old(scratch_buffers.rx)@.len();
            let events = done.0.trace().skip(dev.trace().len() as int);
            &&& follows(ops, 0, capacity, events)
            &&& done.2 == error_of(ops, 0, capacity, events)
            &&& forall|i: int|
                #![trigger final(operations)@[i]]
                0 <= i < ops.len() ==> {
                    let incoming = received_of(ops, 0, capacity, events, i);
                    match (old(operations)@[i], final(operations)@[i]) {
                        (Operation::Read(x), Operation::Read(y)) => final(x)@ == final(y)@ && y@
                            == filled(incoming, x@),
                        (Operation::Write(x), Operation::Write(y)) => x@ == y@,
                        (Operation::Transfer(x, v), Operation::Transfer(y, w)) => final(x)@
                            == final(y)@ && y@ == filled(incoming, x@) && v@ == w@,
                        (Operation::TransferInPlace(x), Operation::TransferInPlace(y)) => final(x)@
                            == final(y)@ && y@ == filled(incoming, x@),
                        (Operation::DelayNs(m), Operation::DelayNs(n)) => m == n,
                        _ => false,
                    }
                }
        }),
{
    let ghost ops = ops_of(operations@);
    let ghost capacity = scratch_buffers.rx@.len();
    let ghost origin = dev.trace();
    let ghost mut events: Seq<BusEvent> = Seq::empty();
    let ghost mut got: Seq<Option<Seq<u8>>> = Seq::empty();

    let mut index: usize = 0;
    let mut scratch = scratch_buffers;
    let mut bus = dev;
    let count = operations.len();

    proof {
        lemma_reached_start(ops, capacity);
        assert(bus.trace() =~= origin + events);
    }

    while index < count
        invariant
            index <= count,
            count == operations@.len(),
            count == old(operations)@.len(),
            ops == ops_of(old(operations)@),
            capacity == scratch_buffers.rx@.len(),
            origin == dev.trace(),
            scratch.rx@.len() == capacity,
            scratch.tx@.len() == capacity,
            bus.trace() == origin + events,
            reached(ops, capacity, events, index as int, got),
            forall|i: int|
                0 <= i < old(operations)@.len() ==> paired(#[trigger] old(operations)@[i]),
            forall|i: int|
                index <= i < count ==> #[trigger] operations@[i] == old(operations)@[i],
            forall|i: int|
                #![trigger operations@[i]]
                0 <= i < index ==> match (old(operations)@[i], operations@[i]) {
                    (Operation::Read(x), Operation::Read(y)) => final(x)@ == final(y)@ && y@
                        == filled(got[i], x@),
                    (Operation::Write(x), Operation::Write(y)) => x@ == y@,
                    (Operation::Transfer(x, v), Operation::Transfer(y, w)) => final(x)@ == final(y)@
                        && y@ == filled(got[i], x@) && v@ == w@,
                    (Operation::TransferInPlace(x), Operation::TransferInPlace(y)) => final(x)@
                        == final(y)@ && y@ == filled(got[i], x@),
                    (Operation::DelayNs(m), Operation::DelayNs(n)) => m == n,
                    _ => false,
                },
        decreases count - index,
    {
        let start_index = index;
        let (end, offset) = stage(operations, start_index, scratch.tx, Ghost(ops));

        if end == start_index {
            match &operations[index] {
                Operation::DelayNs(ns) => {
                    bus.delay_ns(*ns);
                    proof {
                        assert(ops[index as int] == op_of(old(operations)@[index as int]));
                        lemma_reached_delay(ops, capacity, events, index as int, got);
                        let event = BusEvent::Delay { ns: *ns };
                        assert(bus.trace() =~= origin + events.push(event));
                        events = events.push(event);
                        got = got.push(None);
                    }
                    index = index + 1;
                    continue ;
                },
                _ => {
                    proof {
                        let rest = Seq::<BusEvent>::empty();
                        assert(ops[index as int] == op_of(old(operations)@[index as int]));
                        assert(events + rest =~= events);
                        assert(follows(ops, index as int, capacity, rest));
                        assert(error_of(ops, index as int, capacity, rest) == Some(
                            DriverError::ScratchBufferOverrun,
                        ));
                        assert forall|i: int|
                            0 <= i < ops.len() implies #[trigger] received_of(
                            ops,
                            0,
                            capacity,
                            events,
                            i,
                        ) == (if i < index {
                            got[i]
                        } else {
                            None
                        }) by {
                            if i < index {
                                assert(received_of(ops, 0, capacity, events + rest, i) == got[i]);
                            } else {
                                assert(received_of(ops, index as int, capacity, rest, i) is None);
                            }
                        }
                        assert(bus.trace().skip(origin.len() as int) =~= events);
                        assert(bus.trace().take(origin.len() as int) =~= origin);
                    }
                    return (bus, scratch, Some(DriverError::ScratchBufferOverrun));
                },
            }
        }
        index = end;
        scratch.len = offset;
        let ghost mosi = scratch.tx@.take(offset as int);
        match bus.transceive(scratch, Completion::Poll) {
            Ok(transaction) => {
                let ghost miso = transaction.rx().take(offset as int);
                let (next_dev, next_buffers) = transaction.wait();
                bus = next_dev;
                scratch = next_buffers;
                proof {
                    lemma_reached_transfer(
                        ops,
                        capacity,
                        events,
                        start_index as int,
                        got,
                        mosi,
                        miso,
                    );
                    let event = BusEvent::Transfer { mosi, miso, completion: Completion::Poll };
                    assert(bus.trace() =~= origin + events.push(event));
                    events = events.push(event);
                    got = got + windows(ops, start_index as int, end as int, miso);
                }
            },
            Err((_, bus, buffers)) => {
                proof {
                    let event = BusEvent::Fault { mosi, completion: Completion::Poll };
                    let rest = seq![event];
                    assert(follows(ops, start_index as int, capacity, rest));
                    assert(error_of(ops, start_index as int, capacity, rest) == Some(
                        DriverError::SpiError,
                    ));
                    assert(bus.trace() =~= origin + (events + rest));
                    assert forall|i: int| 0 <= i < ops.len() implies #[trigger] received_of(
                        ops,
                        0,
                        capacity,
                        events + rest,
                        i,
                    ) == (if i < start_index {
                        got[i]
                    } else {
                        None
                    }) by {
                        if i >= start_index {
                            assert(received_of(ops, start_index as int, capacity, rest, i) is None);
                        }
                    }
                    assert(bus.trace().skip(origin.len() as int) =~= events + rest);
                    assert(bus.trace().take(origin.len() as int) =~= origin);
                }
                return (bus, buffers, Some(DriverError::SpiError));
            },
        }
        deliver(operations, start_index, index, scratch.rx, Ghost(ops));
        proof {
            assert forall|i: int|
                #![trigger operations@[i]]
                start_index <= i < index implies operations@[i] == operations@[i] && filled(
                got[i],
                Seq::empty(),
            ) == {
                let at = wire_len(ops, start_index as int, i) as int;
                scratch.rx@.subrange(at, at + op_len(ops[i]))
            } by {
                let at = wire_len(ops, start_index as int, i) as int;
                lemma_wire_len_monotone(ops, start_index as int, i + 1, index as int);
                assert(scratch.rx@.take(offset as int).subrange(at, at + op_len(ops[i]))
                    =~= scratch.rx@.subrange(at, at + op_len(ops[i])));
            }
        }
    }
    proof {
        let rest = Seq::<BusEvent>::empty();
        assert(events + rest =~= events);
        assert(follows(ops, index as int, capacity, rest));
        assert(error_of(ops, index as int, capacity, rest) is None);
        assert forall|i: int| 0 <= i < ops.len() implies #[trigger] received_of(
            ops,
            0,
            capacity,
            events,
            i,
        ) == got[i] by {
            assert(received_of(ops, 0, capacity, events + rest, i) == got[i]);
        }
        assert(bus.trace().skip(origin.len() as int) =~= events);
        assert(bus.trace().take(origin.len() as int) =~= origin);
    }
    (bus, scratch, None)
}

/// In a frame of a header and a payload, the payload gets its reply exactly if
/// nothing fails.
pub proof fn lemma_frame_reply(ops: Seq<Op>, capacity: nat, events: Seq<BusEvent>)
    requires
        ops.len() == 2,
        ops[0] is Write,
        !(ops[1] is Delay),
        follows(ops, 0, capacity, events),
    ensures
        (received_of(ops, 0, capacity, events, 1) is Some) == (error_of(ops, 0, capacity, events)
            is None),
        received_of(ops, 0, capacity, events, 1) is Some ==> received_of(
            ops,
            0,
            capacity,
            events,
            1,
        )->0.len() == op_len(ops[1]),
{
    reveal_with_fuel(chunk_end, 3);
    reveal_with_fuel(wire_len, 4);
    reveal_with_fuel(follows, 3);
    reveal_with_fuel(error_of, 3);
    reveal_with_fuel(received_of, 3);
}

/// Staging one more operation behind the others.
proof fn lemma_staged_grow(
    ops: Seq<Op>,
    from: int,
    index: int,
    before: Seq<u8>,
    after: Seq<u8>,
    offset: int,
)
    requires
        from <= index < ops.len(),
        offset == wire_len(ops, from, index),
        offset + op_len(ops[index]) <= before.len(),
        staged(ops, from, index, before.take(offset)),
        after == (match ops[index] {
            Op::Write { data } => overlay(before, offset, data),
            Op::Exchange { data } => overlay(before, offset, data),
            _ => before,
        }),
    ensures
        staged(ops, from, index + 1, after.take(offset + op_len(ops[index]))),
{
    let grown = after.take(offset + op_len(ops[index]));
    match ops[index] {
        Op::Write { data } => assert(grown.subrange(offset, offset + data.len()) =~= data),
        Op::Exchange { data } => assert(grown.subrange(offset, offset + data.len()) =~= data),
        _ => {},
    }
    assert forall|i: int| from <= i < index + 1 implies #[trigger] op_staged(ops, from, i, grown) by {
        if i < index {
            let at = wire_len(ops, from, i) as int;
            lemma_wire_len_monotone(ops, from, i + 1, index);
            assert(op_staged(ops, from, i, before.take(offset)));
            match ops[i] {
                Op::Write { data } => assert(grown.subrange(at, at + data.len()) =~= before.take(
                    offset,
                ).subrange(at, at + data.len())),
                Op::Exchange { data } => assert(grown.subrange(at, at + data.len())
                    =~= before.take(offset).subrange(at, at + data.len())),
                _ => {},
            }
        }
    }
}

/// Adding operations never shortens a run.
proof fn lemma_wire_len_monotone(ops: Seq<Op>, from: int, mid: int, to: int)
    requires
        from <= mid <= to,
    ensures
        wire_len(ops, from, mid) <= wire_len(ops, from, to),
    decreases to - mid,
{
    if mid < to {
        lemma_wire_len_monotone(ops, from, mid, to - 1);
    }
}

} // verus!
