//! A socket speaks only to its own blocks of the chip.
use vstd::prelude::*;

use crate::access::{Access, Request};
use crate::address::{
    block_code, law_header_fields, read_request, start_read_request, start_write_request,
    write_request, Address, BlockAddress,
};
use crate::bus::Op;
use crate::ring_buffer::min;
use crate::socket::{ahead, BackendState, RingsState, SocketBackend, SocketStatus};
use crate::socket_common::word;
use crate::tcp_socket::{
    chunk_writes, flush_tick, move_tick, transmit_len, TcpSocketState, FLUSH_CHUNK,
};
use crate::udp_socket::{receive_tick, transmit_tick, UdpSocketState};

verus! {

/// The header that a request starts with, if it speaks to the chip at all.
pub open spec fn header_in(request: Request) -> Option<Seq<u8>> {
    match request {
        Request::Batch { ops } => if ops.len() == 2 {
            match ops[0] {
                Op::Write { data } => Some(data),
                _ => None,
            }
        } else {
            None
        },
        Request::StartRead { header, len } => Some(header),
        Request::StartWrite { header, data } => Some(header),
        _ => None,
    }
}

/// Whether a request speaks to one of the blocks of a socket.
pub open spec fn speaks_to(block: BlockAddress, request: Request) -> bool {
    match header_in(request) {
        Some(header) => {
            let code = header[2] / 8;
            code == block_code(block.reg) || code == block_code(block.tx) || code == block_code(
                block.rx,
            )
        },
        None => false,
    }
}

/// Whether all of a script speaks to the blocks of a socket.
pub open spec fn keeps_to(block: BlockAddress, script: Seq<Request>) -> bool {
    forall|k: int| 0 <= k < script.len() ==> speaks_to(block, #[trigger] script[k])
}

/// What is asked of the blocks of a socket speaks to them.
proof fn lemma_own_requests(block: BlockAddress)
    ensures
        forall|address: u16, len: nat|
            speaks_to(block, #[trigger] read_request(Address { address, block: block.reg }, len)),
        forall|address: u16, len: nat|
            speaks_to(block, #[trigger] read_request(Address { address, block: block.rx }, len)),
        forall|address: u16, data: Seq<u8>|
            speaks_to(block, #[trigger] write_request(Address { address, block: block.reg }, data)),
        forall|address: u16, data: Seq<u8>|
            speaks_to(block, #[trigger] write_request(Address { address, block: block.tx }, data)),
        forall|address: u16, len: nat|
            speaks_to(
                block,
                #[trigger] start_read_request(Address { address, block: block.rx }, len),
            ),
        forall|address: u16, data: Seq<u8>|
            speaks_to(
                block,
                #[trigger] start_write_request(Address { address, block: block.tx }, data),
            ),
{
    assert forall|address: u16, len: nat|
        speaks_to(
            block,
            #[trigger] read_request(Address { address, block: block.reg }, len),
        ) by {
        law_header_fields(Address { address, block: block.reg }, false);
    }
    assert forall|address: u16, len: nat|
        speaks_to(
            block,
            #[trigger] read_request(Address { address, block: block.rx }, len),
        ) by {
        law_header_fields(Address { address, block: block.rx }, false);
    }
    assert forall|address: u16, data: Seq<u8>|
        speaks_to(
            block,
            #[trigger] write_request(Address { address, block: block.reg }, data),
        ) by {
        law_header_fields(Address { address, block: block.reg }, true);
    }
    assert forall|address: u16, data: Seq<u8>|
        speaks_to(
            block,
            #[trigger] write_request(Address { address, block: block.tx }, data),
        ) by {
        law_header_fields(Address { address, block: block.tx }, true);
    }
    assert forall|address: u16, len: nat|
        speaks_to(
            block,
            #[trigger] start_read_request(Address { address, block: block.rx }, len),
        ) by {
        law_header_fields(Address { address, block: block.rx }, false);
    }
    assert forall|address: u16, data: Seq<u8>|
        speaks_to(
            block,
            #[trigger] start_write_request(Address { address, block: block.tx }, data),
        ) by {
        law_header_fields(Address { address, block: block.tx }, true);
    }
}

/// A write in chunks speaks to the TX buffer.
proof fn lemma_own_chunks(block: BlockAddress, pointer: u16, data: Seq<u8>)
    ensures
        keeps_to(block, chunk_writes(block, pointer, data)),
    decreases data.len(),
{
    lemma_own_requests(block);
    if data.len() > 0 {
        let n = min(FLUSH_CHUNK as int, data.len() as int);
        lemma_own_chunks(block, ahead(pointer, n), data.skip(n));
    }
}

/// A flush speaks to the socket's own blocks.
proof fn lemma_own_flush(block: BlockAddress, rings: RingsState, done: Seq<Access>)
    ensures
        keeps_to(block, flush_tick(block, rings, done).script),
{
    lemma_own_requests(block);
    let n = transmit_len(rings, done);
    lemma_own_chunks(block, word(done[1]), rings.tx.bytes.take(n));
}

/// Moving data speaks to the socket's own blocks.
proof fn lemma_own_move(block: BlockAddress, rings: RingsState, done: Seq<Access>)
    ensures
        keeps_to(block, move_tick(block, rings, done).script),
{
    lemma_own_requests(block);
}

/// A tick of an established connection speaks to its own blocks.
proof fn lemma_own_established(
    state: TcpSocketState,
    block: BlockAddress,
    rings: RingsState,
    done: Seq<Access>,
)
    ensures
        keeps_to(block, state.established_tick(block, rings, done).script),
{
    lemma_own_requests(block);
    let asked = TcpSocketState::watch_script(block, done);
    lemma_own_move(block, rings, done.skip(asked.len() as int));
}

/// A tick of a connection that is coming up or going down speaks to its own
/// blocks.
proof fn lemma_own_turns(state: TcpSocketState, block: BlockAddress, done: Seq<Access>)
    ensures
        keeps_to(block, state.init_tick(block, done).script),
        keeps_to(block, state.opening_tick(block, done).script),
        keeps_to(block, state.connecting_tick(block, done).script),
        keeps_to(block, state.listening_tick(block, done).script),
        keeps_to(block, state.closing_tick(block, done).script),
{
    lemma_own_requests(block);
}

/// A tick of a connection speaks to its own blocks.
proof fn lemma_own_tcp(
    state: TcpSocketState,
    block: BlockAddress,
    rings: RingsState,
    done: Seq<Access>,
)
    ensures
        keeps_to(block, state.run_tick(block, rings, done).script),
{
    if state.close_requested {
        lemma_own_requests(block);
        lemma_own_flush(block, rings, done);
    } else {
        lemma_own_turns(state, block, done);
        lemma_own_established(state, block, rings, done);
    }
}

/// A tick of a bound socket speaks to its own blocks.
#[verifier::rlimit(40)]
#[verifier::spinoff_prover]
proof fn lemma_own_udp(
    state: UdpSocketState,
    block: BlockAddress,
    rings: RingsState,
    done: Seq<Access>,
)
    ensures
        keeps_to(block, state.run_tick(block, rings, done).script),
{
    lemma_own_requests(block);
    if !state.close_requested && state.status == SocketStatus::Established {
        let asked = UdpSocketState::watch_script(block, done);
        let rest = done.skip(asked.len() as int);
        let rx = receive_tick(block, rings, rest);
        assert(keeps_to(block, asked));
        assert(keeps_to(block, rx.script));
        lemma_own_transmit(block, rx.rings, rest.skip(rx.script.len() as int));
    }
}

/// An attempt to transmit a datagram speaks to the socket's own blocks.
proof fn lemma_own_transmit(block: BlockAddress, rings: RingsState, done: Seq<Access>)
    ensures
        keeps_to(block, transmit_tick(block, rings, done).script),
{
    lemma_own_requests(block);
}

/// A socket speaks only to its own blocks of the chip, whatever protocol occupies
/// it and whatever the chip answers.
pub proof fn law_own_blocks(backend: SocketBackend, rings: RingsState, done: Seq<Access>)
    ensures
        keeps_to(backend.block, backend.run_tick(rings, done).script),
{
    match backend.state {
        BackendState::Free => {},
        BackendState::Tcp(tcp) => lemma_own_tcp(tcp, backend.block, rings, done),
        BackendState::Udp(udp) => lemma_own_udp(udp, backend.block, rings, done),
    }
}

} // verus!
