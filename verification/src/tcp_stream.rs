//! What goes out of a TCP socket: the staged bytes, in order.
use vstd::prelude::*;

use crate::access::{carried_out, failed, passed, Access, Request};
use crate::address::{control_byte, law_block_codes, law_header_fields, Address, BlockAddress};
use crate::bus::Op;
use crate::ring_buffer::min;
use crate::socket::{RingsState, SocketStatus};
use crate::socket_common::{
    byte, command, reports, status_register, word, SocketCommand, SocketStatusRegister, IR_TIMEOUT,
};
use crate::tcp_laws::law_flush_in_order;
use crate::tcp_socket::{
    chunk_writes, flush_tick, move_tick, receive_len, receive_tick, transmit_len, transmit_tick,
    TcpSocketState, FLUSH_CHUNK,
};
use crate::transiver::drained;

verus! {

/// Whether a header selects the chip's TX buffer of `block` for writing.
pub open spec fn selects_tx(block: BlockAddress, header: Seq<u8>) -> bool {
    header.len() == 3 && header[2] == control_byte(block.tx, true)
}

/// The data that an access handed over for the chip's TX buffer of `block`. Data
/// that is handed over has left the ring, whether or not the transfer succeeds.
pub open spec fn handed(block: BlockAddress, access: Access) -> Seq<u8> {
    match access.request {
        Request::StartWrite { header, data } => if selects_tx(block, header) && drained(access) {
            data
        } else {
            Seq::empty()
        },
        Request::Batch { ops } => if ops.len() == 2 {
            match (ops[0], ops[1]) {
                (Op::Write { data: header }, Op::Write { data }) => if selects_tx(block, header) {
                    data
                } else {
                    Seq::empty()
                },
                _ => Seq::empty(),
            }
        } else {
            Seq::empty()
        },
        _ => Seq::empty(),
    }
}

/// All that the accesses `done` handed over, in order.
pub open spec fn handed_by(block: BlockAddress, done: Seq<Access>) -> Seq<u8>
    decreases done.len(),
{
    if done.len() == 0 {
        Seq::empty()
    } else {
        handed_by(block, done.drop_last()) + handed(block, done.last())
    }
}

/// Whether a request has nothing to do with the chip's TX buffer of `block`.
pub open spec fn aside(block: BlockAddress, request: Request) -> bool {
    match request {
        Request::StartWrite { header, data } => false,
        Request::Batch { ops } => ops.len() == 2 && match (ops[0], ops[1]) {
            (Op::Write { data: header }, Op::Write { data }) => !selects_tx(block, header),
            _ => true,
        },
        _ => true,
    }
}

/// Accesses in two parts hand over in two parts.
proof fn lemma_handed_parts(block: BlockAddress, done: Seq<Access>, k: int)
    requires
        0 <= k <= done.len(),
    ensures
        handed_by(block, done) == handed_by(block, done.take(k)) + handed_by(block, done.skip(k)),
    decreases done.len(),
{
    if k == done.len() {
        assert(done.take(k) =~= done);
        assert(done.skip(k) =~= Seq::<Access>::empty());
        assert(handed_by(block, done) =~= handed_by(block, done) + Seq::<u8>::empty());
    } else {
        lemma_handed_parts(block, done.drop_last(), k);
        assert(done.drop_last().take(k) =~= done.take(k));
        assert(done.drop_last().skip(k) =~= done.skip(k).drop_last());
        assert(done.skip(k).last() == done.last());
        assert(handed_by(block, done) =~= handed_by(block, done.take(k)) + (handed_by(
            block,
            done.skip(k).drop_last(),
        ) + handed(block, done.last())));
    }
}

/// Accesses that have nothing to do with the TX buffer hand nothing over.
proof fn lemma_handed_none(block: BlockAddress, done: Seq<Access>)
    requires
        forall|i: int| 0 <= i < done.len() ==> aside(block, (#[trigger] done[i]).request),
    ensures
        handed_by(block, done) == Seq::<u8>::empty(),
    decreases done.len(),
{
    if done.len() > 0 {
        assert forall|i: int| 0 <= i < done.drop_last().len() implies aside(
            block,
            (#[trigger] done.drop_last()[i]).request,
        ) by {
            assert(done.drop_last()[i] == done[i]);
        }
        lemma_handed_none(block, done.drop_last());
        assert(aside(block, done[done.len() - 1].request));
        assert(handed_by(block, done) =~= Seq::<u8>::empty());
    }
}

/// The registers of a socket are no part of its TX buffer.
proof fn lemma_registers_aside(block: BlockAddress)
    requires
        block.reg != block.tx,
    ensures
        control_byte(block.reg, true) != control_byte(block.tx, true),
{
    law_block_codes(block.reg, block.tx);
}

/// A transmit hands over exactly what leaves the ring.
proof fn lemma_transmit_handed(block: BlockAddress, rings: RingsState, done: Seq<Access>)
    requires
        block.reg != block.tx,
        carried_out(transmit_tick(block, rings, done).script, done),
    ensures
        rings.tx.bytes == handed_by(block, done) + transmit_tick(block, rings, done).rings.tx.bytes,
{
    lemma_registers_aside(block);
    assert(rings.tx.bytes =~= Seq::<u8>::empty() + rings.tx.bytes);
    if done.len() == 3 {
        let n = transmit_len(rings, done);
        let front = done.take(2);
        assert(done.drop_last() =~= front);
        lemma_handed_none(block, front);
        law_header_fields(Address { address: word(done[1]), block: block.tx }, true);
        assert(rings.tx.bytes =~= rings.tx.bytes.take(n) + rings.tx.bytes.skip(n));
        assert(handed_by(block, done) =~= handed(block, done[2]));
    } else {
        lemma_handed_none(block, done);
    }
}

/// A receive hands nothing over.
proof fn lemma_receive_handed(block: BlockAddress, rings: RingsState, done: Seq<Access>)
    requires
        carried_out(receive_tick(block, rings, done).script, done),
    ensures
        handed_by(block, done) == Seq::<u8>::empty(),
{
    lemma_handed_none(block, done);
}

/// Moving data hands over exactly what leaves the tx ring.
proof fn lemma_move_handed(block: BlockAddress, rings: RingsState, done: Seq<Access>)
    requires
        block.reg != block.tx,
        carried_out(move_tick(block, rings, done).script, done),
    ensures
        rings.tx.bytes == handed_by(block, done) + move_tick(block, rings, done).rings.tx.bytes,
        move_tick(block, rings, done).rings.rx == rings.rx,
{
    assert(rings.tx.bytes =~= Seq::<u8>::empty() + rings.tx.bytes);
    if passed(done, 1) && receive_len(rings, done) <= 0 {
        let rest = done.skip(1);
        let tx = transmit_tick(block, rings, rest);
        lemma_carried_out_rest(move_tick(block, rings, done).script, 1, done);
        assert(move_tick(block, rings, done).script.skip(1) =~= tx.script);
        lemma_transmit_handed(block, rings, rest);
        lemma_handed_parts(block, done, 1);
        lemma_handed_none(block, done.take(1));
        assert(handed_by(block, done) =~= handed_by(block, rest));
    } else {
        lemma_receive_handed(block, rings, done);
    }
}

/// The rest of a script is carried out by the rest of the accesses.
pub proof fn lemma_carried_out_rest(script: Seq<Request>, k: int, done: Seq<Access>)
    requires
        0 <= k <= script.len(),
        k <= done.len(),
        carried_out(script, done),
    ensures
        k < done.len() || !failed(done) ==> carried_out(script.skip(k), done.skip(k)),
        k < done.len() ==> failed(done.skip(k)) == failed(done),
{
    let rest = done.skip(k);
    assert forall|i: int| 0 <= i < rest.len() implies (#[trigger] rest[i]).request == script.skip(
        k,
    )[i] by {
        assert(rest[i] == done[i + k]);
    }
    assert forall|i: int| 0 <= i < rest.len() - 1 implies (#[trigger] rest[i]).outcome is Ok by {
        assert(rest[i] == done[i + k]);
    }
    if k < done.len() {
        assert(rest.last() == done.last());
    }
}

/// The chunks of a flush hand over the staged bytes, as far as they get.
proof fn lemma_chunks_handed(block: BlockAddress, pointer: u16, data: Seq<u8>, done: Seq<Access>)
    requires
        done.len() <= chunk_writes(block, pointer, data).len(),
        forall|i: int|
            0 <= i < done.len() ==> (#[trigger] done[i]).request == chunk_writes(
                block,
                pointer,
                data,
            )[i],
    ensures
        handed_by(block, done) == data.take(min(data.len() as int, FLUSH_CHUNK * done.len())),
    decreases done.len(),
{
    if done.len() == 0 {
        assert(data.take(0) =~= Seq::<u8>::empty());
    } else {
        let i = done.len() - 1;
        let from = FLUSH_CHUNK * i;
        let to = min(from + FLUSH_CHUNK, data.len() as int);
        lemma_chunks_handed(block, pointer, data, done.drop_last());
        law_flush_in_order(block, pointer, data, i);
        law_header_fields(
            Address { address: crate::socket::ahead(pointer, from), block: block.tx },
            true,
        );
        assert(handed(block, done.last()) == data.subrange(from, to));
        assert(data.take(from) + data.subrange(from, to) =~= data.take(to));
    }
}

/// A flush, and the disconnect behind it, hand over exactly what leaves the ring.
proof fn lemma_flush_handed(block: BlockAddress, rings: RingsState, done: Seq<Access>)
    requires
        block.reg != block.tx,
        carried_out(
            flush_tick(block, rings, done).script.push(command(block, SocketCommand::Disconnect)),
            done,
        ),
    ensures
        rings.tx.bytes == handed_by(block, done) + flush_tick(block, rings, done).rings.tx.bytes,
{
    let n = transmit_len(rings, done);
    lemma_registers_aside(block);
    assert(rings.tx.bytes =~= Seq::<u8>::empty() + rings.tx.bytes);
    if rings.tx.bytes.len() > 0 && passed(done, 1) && n > 0 && done.len() > 2 {
        let pointer = word(done[1]);
        let data = rings.tx.bytes.take(n);
        let chunks = chunk_writes(block, pointer, data);
        let c = chunks.len() as int;
        let q = min(done.len() - 2, c);
        let script = flush_tick(block, rings, done).script.push(
            command(block, SocketCommand::Disconnect),
        );
        let front = done.take(2);
        let middle = done.skip(2).take(q);
        let back = done.skip(2).skip(q);
        lemma_handed_parts(block, done, 2);
        lemma_handed_parts(block, done.skip(2), q);
        lemma_handed_none(block, front);
        assert forall|i: int| 0 <= i < middle.len() implies (#[trigger] middle[i]).request
            == chunks[i] by {
            assert(middle[i] == done[i + 2]);
            assert(script[i + 2] == chunks[i]);
        }
        lemma_chunks_handed(block, pointer, data, middle);
        assert forall|i: int| 0 <= i < back.len() implies aside(block, (#[trigger] back[i]).request) by {
            assert(back[i] == done[i + 2 + q]);
            assert(script[i + 2 + q] == script[c + 2 + i]);
        }
        lemma_handed_none(block, back);
        if c > 0 {
            law_flush_in_order(block, pointer, data, c - 1);
        }
        let k = min(n, FLUSH_CHUNK * q);
        assert(k == min(n, FLUSH_CHUNK * (done.len() - 2)));
        assert(handed_by(block, done) =~= data.take(k));
        assert(rings.tx.bytes =~= data.take(k) + rings.tx.bytes.skip(k));
    } else {
        lemma_handed_none(block, done);
    }
}

/// Leaving a connection hands over exactly what leaves the ring.
proof fn lemma_leave_handed(
    state: TcpSocketState,
    block: BlockAddress,
    rings: RingsState,
    done: Seq<Access>,
)
    requires
        block.reg != block.tx,
        carried_out(state.leave_tick(block, rings, done).script, done),
    ensures
        rings.tx.bytes == handed_by(block, done) + state.leave_tick(
            block,
            rings,
            done,
        ).rings.tx.bytes,
        state.leave_tick(block, rings, done).rings.rx == rings.rx,
{
    lemma_registers_aside(block);
    if !passed(done, 1) || receive_len(rings, done) > 0 || rings.tx.bytes.len() > 0
        || rings.rx.bytes.len() > 0 {
        lemma_move_handed(block, rings, done);
    } else {
        lemma_handed_none(block, done);
        assert(rings.tx.bytes =~= Seq::<u8>::empty() + rings.tx.bytes);
    }
}

/// A tick of an established connection hands over exactly what leaves the ring.
proof fn lemma_established_handed(
    state: TcpSocketState,
    block: BlockAddress,
    rings: RingsState,
    done: Seq<Access>,
)
    requires
        block.reg != block.tx,
        carried_out(state.established_tick(block, rings, done).script, done),
    ensures
        rings.tx.bytes == handed_by(block, done) + state.established_tick(
            block,
            rings,
            done,
        ).rings.tx.bytes,
        state.established_tick(block, rings, done).rings.rx == rings.rx,
{
    lemma_registers_aside(block);
    assert(rings.tx.bytes =~= Seq::<u8>::empty() + rings.tx.bytes);
    let asked = TcpSocketState::watch_script(block, done);
    let k = asked.len() as int;
    let script = state.established_tick(block, rings, done).script;
    if passed(done, 1) && !reports(byte(done[0]), IR_TIMEOUT) && passed(done, asked.len()) && (
    status_register(byte(done[k - 1])) == SocketStatusRegister::Established || status_register(
        byte(done[k - 1]),
    ) == SocketStatusRegister::CloseWait) {
        let rest = done.skip(k);
        lemma_carried_out_rest(script, k, done);
        lemma_handed_parts(block, done, k);
        lemma_handed_none(block, done.take(k));
        assert(handed_by(block, done) =~= handed_by(block, rest));
        if status_register(byte(done[k - 1])) == SocketStatusRegister::Established {
            assert(script.skip(k) =~= move_tick(block, rings, rest).script);
            lemma_move_handed(block, rings, rest);
        } else {
            assert(script.skip(k) =~= state.leave_tick(block, rings, rest).script);
            lemma_leave_handed(state, block, rings, rest);
        }
    } else {
        lemma_handed_none(block, done);
    }
}

/// The staged bytes of a connection go to the chip in the order in which they
/// were staged, none twice and none left out: whatever a tick does and wherever
/// it fails, what was staged is what it handed over and what is still staged.
/// What was received is not touched.
#[verifier::rlimit(40)]
#[verifier::spinoff_prover]
pub proof fn law_staged_bytes_leave_in_order(
    state: TcpSocketState,
    block: BlockAddress,
    rings: RingsState,
    done: Seq<Access>,
)
    requires
        block.reg != block.tx,
        carried_out(state.run_tick(block, rings, done).script, done),
    ensures
        rings.tx.bytes == handed_by(block, done) + state.run_tick(
            block,
            rings,
            done,
        ).rings.tx.bytes,
        state.run_tick(block, rings, done).rings.rx == rings.rx,
{
    lemma_registers_aside(block);
    assert(rings.tx.bytes =~= Seq::<u8>::empty() + rings.tx.bytes);
    if state.close_requested && state.status == SocketStatus::Established {
        lemma_flush_handed(block, rings, done);
    } else if !state.close_requested && state.status == SocketStatus::Established {
        lemma_established_handed(state, block, rings, done);
    } else {
        lemma_handed_none(block, done);
    }
}

} // verus!
