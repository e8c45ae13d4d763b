//! What holds of a TCP socket whatever the chip answers.
use vstd::prelude::*;

use crate::access::{carried_out, failed, Access, Request};
use crate::address::{start_write_request, write_request, Address, BlockAddress};
use crate::error::Error;
use crate::ring_buffer::min;
use crate::socket::{
    ahead, lemma_ahead_twice, lemma_ahead_zero, BulkAction, BulkKind, RingsState, SocketStatus,
};
use crate::socket_common::{
    byte, command, reports, status_register, word, SocketCommand, SocketStatusRegister, IR_TIMEOUT,
};
use crate::tcp_socket::{
    chunk_writes, move_tick, receive_tick, transmit_tick, TcpSocketState, FLUSH_CHUNK,
};

verus! {

/// A receive never asks for more than the chip has, nor for more than the rx ring
/// has room for: what does not fit stays on the chip.
pub proof fn law_receive_fits(block: BlockAddress, rings: RingsState, done: Seq<Access>)
    requires
        carried_out(receive_tick(block, rings, done).script, done),
    ensures
        receive_tick(block, rings, done).rings == rings,
        match receive_tick(block, rings, done).result {
            Ok(BulkAction::Started { kind, pointer, len }) => {
                &&& kind == BulkKind::Receive
                &&& pointer == word(done[1])
                &&& 0 < len <= word(done[0])
                &&& len <= rings.rx.free()
            },
            _ => true,
        },
{
}

/// A transmit that was started sends exactly the oldest staged bytes, and exactly
/// those have left the ring.
pub proof fn law_transmit_exact(block: BlockAddress, rings: RingsState, done: Seq<Access>)
    requires
        carried_out(transmit_tick(block, rings, done).script, done),
        transmit_tick(block, rings, done).result is Ok,
    ensures
        match transmit_tick(block, rings, done).result {
            Ok(BulkAction::Started { kind, pointer, len }) => {
                &&& kind == BulkKind::Transmit
                &&& 0 < len <= rings.tx.bytes.len()
                &&& done.last().request == start_write_request(
                    Address { address: pointer, block: block.tx },
                    rings.tx.bytes.take(len as int),
                )
                &&& rings.tx.bytes == rings.tx.bytes.take(len as int) + transmit_tick(
                    block,
                    rings,
                    done,
                ).rings.tx.bytes
            },
            _ => transmit_tick(block, rings, done).rings == rings,
        },
{
    if let Ok(BulkAction::Started { kind, pointer, len }) = transmit_tick(block, rings, done).result {
        assert(rings.tx.bytes =~= rings.tx.bytes.take(len as int) + rings.tx.bytes.skip(len as int));
    }
}

/// A flush writes the staged bytes in order, without gaps: the `i`-th chunk
/// stands right behind the ones before it, in the data and on the chip.
pub proof fn law_flush_in_order(block: BlockAddress, pointer: u16, data: Seq<u8>, i: int)
    requires
        0 <= i < chunk_writes(block, pointer, data).len(),
    ensures
        ({
            let from = FLUSH_CHUNK * i;
            let to = min(from + FLUSH_CHUNK, data.len() as int);
            &&& from < to
            &&& chunk_writes(block, pointer, data)[i] == write_request(
                Address { address: ahead(pointer, from), block: block.tx },
                data.subrange(from, to),
            )
            &&& i == chunk_writes(block, pointer, data).len() - 1 ==> to == data.len()
        }),
    decreases i,
{
    let n = min(FLUSH_CHUNK as int, data.len() as int);
    let rest = data.skip(n);
    let tail = chunk_writes(block, ahead(pointer, n), rest);
    assert(chunk_writes(block, pointer, data).skip(1) =~= tail);
    if i == 0 {
        lemma_ahead_zero(pointer);
        assert(data.take(n) =~= data.subrange(0, n));
        if tail.len() == 0 && rest.len() > 0 {
            assert(chunk_writes(block, ahead(pointer, n), rest).len() > 0);
        }
    } else {
        law_flush_in_order(block, ahead(pointer, n), rest, i - 1);
        let from = FLUSH_CHUNK * i;
        let to = min(from + FLUSH_CHUNK, data.len() as int);
        lemma_ahead_twice(pointer, n, FLUSH_CHUNK * (i - 1));
        assert(rest.subrange(from - n, to - n) =~= data.subrange(from, to));
        assert(chunk_writes(block, pointer, data)[i] == tail[i - 1]);
    }
}

/// A close request is always heard. If no access fails, a socket that is live or
/// coming up is closing afterwards, the live one after a graceful disconnect.
pub proof fn law_close_lands(
    state: TcpSocketState,
    block: BlockAddress,
    rings: RingsState,
    done: Seq<Access>,
)
    requires
        state.close_requested,
        carried_out(state.run_tick(block, rings, done).script, done),
    ensures
        !state.run_tick(block, rings, done).state.close_requested,
        !failed(done) && !state.is_over() && !state.is_closing() ==> {
            &&& state.run_tick(block, rings, done).state.status == SocketStatus::Closing
            &&& done.last().request == command(
                block,
                if state.status == SocketStatus::Established {
                    SocketCommand::Disconnect
                } else {
                    SocketCommand::Close
                },
            )
        },
        state.is_over() || state.is_closing() ==> {
            &&& done.len() == 0
            &&& state.run_tick(block, rings, done).state.status == state.status
        },
{
}

/// Nothing is asked of the chip for a connection that is over.
pub proof fn law_over_is_quiet(
    state: TcpSocketState,
    block: BlockAddress,
    rings: RingsState,
    done: Seq<Access>,
)
    requires
        state.is_over(),
        !state.close_requested,
    ensures
        state.run_tick(block, rings, done).script == Seq::<Request>::empty(),
        state.run_tick(block, rings, done).state == state,
        state.run_tick(block, rings, done).rings == rings,
{
}

/// A tick never fails: it either ends well or would have to wait. An error is
/// kept, and from then on the socket shows it, until it is armed again.
pub proof fn law_error_shows(
    state: TcpSocketState,
    block: BlockAddress,
    rings: RingsState,
    done: Seq<Access>,
)
    ensures
        state.run_tick(block, rings, done).result is Ok || state.run_tick(
            block,
            rings,
            done,
        ).result == Err::<BulkAction, Error>(Error::WouldBlock),
        match state.handler_tick(block, rings, done).result {
            Err(Error::Other(e)) => {
                &&& state.run_tick(block, rings, done).state.pending_error == Some(Error::Other(e))
                &&& state.run_tick(block, rings, done).state.shown() == SocketStatus::Error
            },
            _ => state.run_tick(block, rings, done).state.pending_error == state.pending_error,
        },
        state.pending_error is Some ==> state.run_tick(block, rings, done).state.shown()
            == SocketStatus::Error,
        state.rearmed().shown() == SocketStatus::Init,
{
}

/// The role and the ports of a socket never change.
pub proof fn law_mode_kept(
    state: TcpSocketState,
    block: BlockAddress,
    rings: RingsState,
    done: Seq<Access>,
)
    ensures
        state.run_tick(block, rings, done).state.mode == state.mode,
        state.rearmed().mode == state.mode,
{
}

/// A timeout that the chip reports while connecting or connected ends, once the
/// chip has closed the socket, as a timeout.
pub proof fn law_timeout_ends_as_timeout(
    state: TcpSocketState,
    block: BlockAddress,
    rings: RingsState,
    done: Seq<Access>,
    after: Seq<Access>,
)
    requires
        !state.close_requested,
        carried_out(state.run_tick(block, rings, done).script, done),
        !failed(done),
        state.status == SocketStatus::Established && reports(byte(done[0]), IR_TIMEOUT) || (
        state.status == SocketStatus::Connecting && byte(done[0]) == 0 && reports(
            byte(done[1]),
            IR_TIMEOUT,
        )),
        ({
            let closing = state.run_tick(block, rings, done).state;
            carried_out(closing.run_tick(block, rings, after).script, after)
        }),
        !failed(after),
        status_register(byte(after[0])) == SocketStatusRegister::Closed,
    ensures
        ({
            let closing = state.run_tick(block, rings, done).state;
            &&& closing.status == SocketStatus::ClosingDueToTimeout
            &&& closing.run_tick(block, rings, after).state.status == SocketStatus::Timeout
        }),
{
}

/// Data is received before any is sent: a tick that moves data transmits only if
/// there was nothing to receive or no room for it.
pub proof fn law_receive_first(block: BlockAddress, rings: RingsState, done: Seq<Access>)
    requires
        carried_out(move_tick(block, rings, done).script, done),
    ensures
        match move_tick(block, rings, done).result {
            Ok(BulkAction::Started { kind: BulkKind::Transmit, pointer, len }) => word(done[0]) == 0
                || rings.rx.free() <= 0,
            _ => true,
        },
{
}

} // verus!
