//! What a batch of SPI operations does on the bus as a whole, however it is cut into
//! transfers.
use vstd::prelude::*;

use crate::access::{sound, Access, Request};
use crate::bus::{
    chunk_end, error_of, follows, lemma_chunk_end_bounds, op_len, op_staged, received_of, wire_len,
    Op,
};
use crate::error::{DriverError, Error};
use crate::spi_dma::{BusEvent, Completion};

verus! {

/// All that went out, in order.
pub open spec fn all_sent(events: Seq<BusEvent>) -> Seq<u8>
    decreases events.len(),
{
    if events.len() == 0 {
        Seq::empty()
    } else {
        (match events[0] {
            BusEvent::Transfer { mosi, miso, completion } => mosi,
            _ => Seq::empty(),
        }) + all_sent(events.skip(1))
    }
}

/// All that came in, in order.
pub open spec fn all_received(events: Seq<BusEvent>) -> Seq<u8>
    decreases events.len(),
{
    if events.len() == 0 {
        Seq::empty()
    } else {
        (match events[0] {
            BusEvent::Transfer { mosi, miso, completion } => miso,
            _ => Seq::empty(),
        }) + all_received(events.skip(1))
    }
}

/// How many bytes the operation occupies, in its own terms.
pub open spec fn weight(op: Op) -> nat {
    match op {
        Op::Read { len } => len,
        Op::Write { data } => data.len(),
        Op::Exchange { data } => data.len(),
        Op::Delay { ns } => 0,
    }
}

/// Where operation `i` starts, behind those from `from` on.
pub open spec fn place(ops: Seq<Op>, from: int, i: int) -> nat
    decreases i - from,
{
    if from >= i {
        0
    } else {
        weight(ops[from]) + place(ops, from + 1, i)
    }
}

/// Places add up.
proof fn lemma_place(ops: Seq<Op>, from: int, mid: int, i: int)
    requires
        from <= mid <= i,
    ensures
        place(ops, from, i) == place(ops, from, mid) + place(ops, mid, i),
    decreases mid - from,
{
    if from < mid {
        lemma_place(ops, from + 1, mid, i);
    }
}

/// The two ways of adding up agree.
proof fn lemma_wire_len(ops: Seq<Op>, from: int, to: int)
    ensures
        wire_len(ops, from, to) == place(ops, from, to),
    decreases to - from,
{
    if from < to {
        lemma_wire_len(ops, from, to - 1);
        lemma_place(ops, from, to - 1, to);
        assert(place(ops, to - 1, to) == weight(ops[to - 1]) + place(ops, to, to));
    }
}

/// Whether operation `i` sent its data from `at` on.
pub open spec fn sent_at(op: Op, out: Seq<u8>, at: int) -> bool {
    match op {
        Op::Write { data } => out.subrange(at, at + data.len()) == data,
        Op::Exchange { data } => out.subrange(at, at + data.len()) == data,
        _ => true,
    }
}

/// A batch that succeeds puts its operations on the bus in order, one right behind the
/// other, and nothing else: each sends its data from its place on, and what comes in
/// at that place is what it receives.
pub proof fn law_batch_in_order(
    ops: Seq<Op>,
    from: int,
    capacity: nat,
    events: Seq<BusEvent>,
    i: int,
)
    requires
        0 <= from <= i < ops.len(),
        follows(ops, from, capacity, events),
        error_of(ops, from, capacity, events) is None,
    ensures
        all_sent(events).len() == place(ops, from, ops.len() as int),
        all_received(events).len() == place(ops, from, ops.len() as int),
        ({
            let at = place(ops, from, i) as int;
            &&& at + weight(ops[i]) <= all_sent(events).len()
            &&& sent_at(ops[i], all_sent(events), at)
            &&& !(ops[i] is Delay) ==> received_of(ops, from, capacity, events, i) == Some(
                all_received(events).subrange(at, at + weight(ops[i])),
            )
        }),
    decreases ops.len() - from,
{
    let n = ops.len() as int;
    let to = chunk_end(ops, from, 0, capacity);
    lemma_chunk_end_bounds(ops, from, 0, capacity);
    let rest = events.skip(1);
    let at = place(ops, from, i) as int;
    lemma_place(ops, from, i, n);
    assert(place(ops, i, n) == weight(ops[i]) + place(ops, i + 1, n));
    if to <= from {
        lemma_batch_len(ops, from + 1, capacity, rest);
        assert(all_sent(events) =~= all_sent(rest));
        assert(all_received(events) =~= all_received(rest));
        if i > from {
            law_batch_in_order(ops, from + 1, capacity, rest, i);
        }
    } else {
        let mosi = events[0]->Transfer_mosi;
        let miso = events[0]->Transfer_miso;
        lemma_wire_len(ops, from, to);
        lemma_place(ops, from, to, n);
        lemma_batch_len(ops, to, capacity, rest);
        let out = all_sent(events);
        let inc = all_received(events);
        assert(out == mosi + all_sent(rest));
        assert(inc == miso + all_received(rest));
        if i < to {
            lemma_wire_len(ops, from, i);
            lemma_place(ops, from, i, to);
            assert(place(ops, i, to) == weight(ops[i]) + place(ops, i + 1, to));
            assert(op_staged(ops, from, i, mosi));
            assert(out.subrange(at, at + weight(ops[i])) =~= mosi.subrange(
                at,
                at + weight(ops[i]),
            ));
            assert(inc.subrange(at, at + weight(ops[i])) =~= miso.subrange(
                at,
                at + weight(ops[i]),
            ));
        } else {
            law_batch_in_order(ops, to, capacity, rest, i);
            lemma_place(ops, from, to, i);
            let sub = place(ops, to, i) as int;
            assert(out.subrange(at, at + weight(ops[i])) =~= all_sent(rest).subrange(
                sub,
                sub + weight(ops[i]),
            ));
            assert(inc.subrange(at, at + weight(ops[i])) =~= all_received(rest).subrange(
                sub,
                sub + weight(ops[i]),
            ));
        }
    }
}

/// As many bytes go out, and come in, as the operations occupy.
proof fn lemma_batch_len(ops: Seq<Op>, from: int, capacity: nat, events: Seq<BusEvent>)
    requires
        0 <= from <= ops.len(),
        follows(ops, from, capacity, events),
        error_of(ops, from, capacity, events) is None,
    ensures
        all_sent(events).len() == place(ops, from, ops.len() as int),
        all_received(events).len() == place(ops, from, ops.len() as int),
    decreases ops.len() - from,
{
    if from < ops.len() {
        let to = chunk_end(ops, from, 0, capacity);
        lemma_chunk_end_bounds(ops, from, 0, capacity);
        if to <= from {
            lemma_batch_len(ops, from + 1, capacity, events.skip(1));
        } else {
            lemma_wire_len(ops, from, to);
            lemma_place(ops, from, to, ops.len() as int);
            lemma_batch_len(ops, to, capacity, events.skip(1));
        }
    }
}

/// A pause takes place behind all operations before it and ahead of all after it.
pub proof fn law_pause_in_place(
    ops: Seq<Op>,
    from: int,
    capacity: nat,
    events: Seq<BusEvent>,
    i: int,
)
    requires
        0 <= from <= i < ops.len(),
        ops[i] is Delay,
        follows(ops, from, capacity, events),
        error_of(ops, from, capacity, events) is None,
    ensures
        exists|e: int|
            0 <= e < events.len() && events[e] == (BusEvent::Delay { ns: ops[i]->ns })
                && #[trigger] all_sent(events.take(e)).len() == place(ops, from, i),
    decreases ops.len() - from,
{
    let to = chunk_end(ops, from, 0, capacity);
    lemma_chunk_end_bounds(ops, from, 0, capacity);
    let rest = events.skip(1);
    if to <= from {
        if i == from {
            assert(events.take(0).len() == 0);
            assert(all_sent(events.take(0)).len() == 0);
        } else {
            law_pause_in_place(ops, from + 1, capacity, rest, i);
            let e = choose|e: int|
                0 <= e < rest.len() && rest[e] == (BusEvent::Delay { ns: ops[i]->ns })
                    && #[trigger] all_sent(rest.take(e)).len() == place(ops, from + 1, i);
            assert(events.take(e + 1).skip(1) =~= rest.take(e));
            assert(all_sent(events.take(e + 1)).len() == place(ops, from, i));
        }
    } else {
        lemma_chunk_no_delay(ops, from, 0, capacity, i);
        law_pause_in_place(ops, to, capacity, rest, i);
        let e = choose|e: int|
            0 <= e < rest.len() && rest[e] == (BusEvent::Delay { ns: ops[i]->ns })
                && #[trigger] all_sent(rest.take(e)).len() == place(ops, to, i);
        assert(events.take(e + 1).skip(1) =~= rest.take(e));
        assert(events.take(e + 1)[0] == events[0]);
        lemma_wire_len(ops, from, to);
        lemma_place(ops, from, to, i);
        assert(all_sent(events.take(e + 1)).len() == place(ops, from, i));
    }
}

/// A chunk stops short of a pause.
proof fn lemma_chunk_no_delay(ops: Seq<Op>, from: int, used: nat, capacity: nat, i: int)
    requires
        0 <= from <= i < ops.len(),
        ops[i] is Delay,
    ensures
        chunk_end(ops, from, used, capacity) <= i,
    decreases i - from,
{
    if from < i && !(ops[from] is Delay) && used + op_len(ops[from]) <= capacity {
        lemma_chunk_no_delay(ops, from + 1, used + op_len(ops[from]), capacity, i);
    }
}

/// A batch without pauses that fits the scratch buffers together is one transfer: the
/// device stays selected from its first operation to its last.
pub proof fn law_small_batch_is_one_transfer(
    ops: Seq<Op>,
    capacity: nat,
    events: Seq<BusEvent>,
)
    requires
        ops.len() > 0,
        forall|i: int| 0 <= i < ops.len() ==> !(#[trigger] ops[i] is Delay),
        place(ops, 0, ops.len() as int) <= capacity,
        follows(ops, 0, capacity, events),
    ensures
        events.len() == 1,
        match events[0] {
            BusEvent::Transfer { mosi, miso, completion } => {
                &&& mosi.len() == place(ops, 0, ops.len() as int)
                &&& completion == Completion::Poll
                &&& error_of(ops, 0, capacity, events) is None
            },
            BusEvent::Fault { mosi, completion } => error_of(ops, 0, capacity, events) == Some(
                DriverError::SpiError,
            ),
            BusEvent::Delay { ns } => false,
        },
{
    reveal_with_fuel(follows, 2);
    reveal_with_fuel(error_of, 2);
    lemma_chunk_all(ops, 0, 0, capacity);
    lemma_wire_len(ops, 0, ops.len() as int);
}

/// What fits together is one chunk.
proof fn lemma_chunk_all(ops: Seq<Op>, from: int, used: nat, capacity: nat)
    requires
        0 <= from <= ops.len(),
        forall|i: int| 0 <= i < ops.len() ==> !(#[trigger] ops[i] is Delay),
        used + place(ops, from, ops.len() as int) <= capacity,
    ensures
        chunk_end(ops, from, used, capacity) == ops.len(),
    decreases ops.len() - from,
{
    if from < ops.len() {
        assert(!(ops[from] is Delay));
        lemma_chunk_all(ops, from + 1, used + op_len(ops[from]), capacity);
    }
}

/// A batch succeeds exactly if each of its operations fits the scratch buffers and no
/// transfer fails. A failed transfer is the last thing on the bus. A batch that fails for
/// want of room has carried out all operations ahead of the first that does not fit, and
/// no other.
pub proof fn law_batch_errors(ops: Seq<Op>, from: int, capacity: nat, events: Seq<BusEvent>)
    requires
        0 <= from <= ops.len(),
        follows(ops, from, capacity, events),
    ensures
        match error_of(ops, from, capacity, events) {
            None => {
                &&& forall|i: int| from <= i < ops.len() ==> weight(#[trigger] ops[i]) <= capacity
                &&& forall|e: int| 0 <= e < events.len() ==> !(#[trigger] events[e] is Fault)
            },
            Some(DriverError::SpiError) => {
                &&& events.len() > 0
                &&& events.last() is Fault
                &&& forall|e: int| 0 <= e < events.len() - 1 ==> !(#[trigger] events[e] is Fault)
            },
            Some(e) => {
                &&& e == DriverError::ScratchBufferOverrun
                &&& forall|e: int| 0 <= e < events.len() ==> !(#[trigger] events[e] is Fault)
                &&& exists|i: int|
                    {
                        &&& from <= i < ops.len()
                        &&& weight(#[trigger] ops[i]) > capacity
                        &&& forall|j: int| from <= j < i ==> weight(#[trigger] ops[j]) <= capacity
                        &&& all_sent(events).len() == place(ops, from, i)
                    }
            },
        },
    decreases ops.len() - from,
{
    if from < ops.len() {
        let to = chunk_end(ops, from, 0, capacity);
        lemma_chunk_end_bounds(ops, from, 0, capacity);
        let rest = events.skip(1);
        if to <= from && !(ops[from] is Delay) {
            lemma_chunk_end_bounds(ops, from + 1, op_len(ops[from]), capacity);
            assert(weight(ops[from]) > capacity);
        } else if to > from && events[0] is Fault {
            assert(events.last() == events[0]);
        } else {
            let next = if to <= from {
                from + 1
            } else {
                to
            };
            law_batch_errors(ops, next, capacity, rest);
            lemma_chunk_fits(ops, from, 0, capacity);
            assert forall|e: int| 1 <= e < events.len() implies #[trigger] events[e] == rest[e
                - 1] by {}
            let error = error_of(ops, next, capacity, rest);
            if error is Some && error->0 != DriverError::SpiError {
                let i = choose|i: int|
                    {
                        &&& next <= i < ops.len()
                        &&& weight(#[trigger] ops[i]) > capacity
                        &&& forall|j: int| next <= j < i ==> weight(#[trigger] ops[j]) <= capacity
                        &&& all_sent(rest).len() == place(ops, next, i)
                    };
                lemma_wire_len(ops, from, to);
                lemma_place(ops, from, next, i);
                assert(place(ops, from, from + 1) == weight(ops[from]) + place(
                    ops,
                    from + 1,
                    from + 1,
                ));
                assert(all_sent(events).len() == place(ops, from, i));
                assert(weight(ops[i]) > capacity);
            } else if error is Some {
                assert(events.last() == rest.last());
            }
        }
    }
}

/// Each operation of a chunk fits by itself.
proof fn lemma_chunk_fits(ops: Seq<Op>, from: int, used: nat, capacity: nat)
    requires
        0 <= from <= ops.len(),
    ensures
        forall|j: int|
            from <= j < chunk_end(ops, from, used, capacity) ==> weight(#[trigger] ops[j])
                <= capacity,
    decreases ops.len() - from,
{
    if from < ops.len() && !(ops[from] is Delay) && used + op_len(ops[from]) <= capacity {
        lemma_chunk_fits(ops, from + 1, used + op_len(ops[from]), capacity);
    }
}

/// The outcome of a batch is what its operations received, each in its place, or the
/// error that it ended in. One that would have to wait does nothing.
pub proof fn law_batch_outcome(access: Access, capacity: nat, ops: Seq<Op>, i: int)
    requires
        sound(access, capacity),
        access.request == (Request::Batch { ops }),
        0 <= i < ops.len(),
    ensures
        match access.outcome {
            Ok(replies) => {
                let at = place(ops, 0, i) as int;
                &&& replies.len() == ops.len()
                &&& !(ops[i] is Delay) ==> replies[i] == all_received(access.events).subrange(
                    at,
                    at + weight(ops[i]),
                )
                &&& sent_at(ops[i], all_sent(access.events), at)
            },
            Err(Error::WouldBlock) => access.events.len() == 0,
            Err(Error::Other(e)) => error_of(ops, 0, capacity, access.events) == Some(e),
        },
{
    if access.outcome is Ok {
        law_batch_in_order(ops, 0, capacity, access.events, i);
    }
}

} // verus!
