//! Facts about single ticks that the chip's invariant rests on.
use vstd::prelude::*;

use crate::access::{carried_out, lands, Access};
use crate::address::BlockAddress;
use crate::error::Error;
use crate::frame::has_room;
use crate::socket::{BackendState, BulkAction, BulkKind, RingsState, SocketBackend, SocketStatus};
use crate::tcp_socket::TcpSocketState;
use crate::udp_socket::UdpSocketState;

verus! {

/// Whether the rx ring has room for what a transfer of `kind` and `len` brings.
pub open spec fn fits(rings: RingsState, kind: BulkKind, len: usize) -> bool {
    match kind {
        BulkKind::Receive => rings.rx.free() >= len,
        BulkKind::ReceiveDatagram { src_ip, src_port } => has_room(rings.rx, len as nat),
        BulkKind::Transmit => true,
    }
}

/// A connection that starts a transfer is live, and what comes in fits.
#[verifier::rlimit(30)]
#[verifier::spinoff_prover]
pub proof fn lemma_tcp_started(
    state: TcpSocketState,
    block: BlockAddress,
    rings: RingsState,
    done: Seq<Access>,
)
    requires
        carried_out(state.run_tick(block, rings, done).script, done),
    ensures
        match state.run_tick(block, rings, done).result {
            Ok(BulkAction::Started { kind, pointer, len }) => {
                &&& !state.run_tick(block, rings, done).state.is_over()
                &&& fits(state.run_tick(block, rings, done).rings, kind, len)
            },
            _ => true,
        },
{
}

/// A bound socket that starts a transfer is live, and what comes in fits.
pub proof fn lemma_udp_started(
    state: UdpSocketState,
    block: BlockAddress,
    rings: RingsState,
    done: Seq<Access>,
)
    requires
        carried_out(state.run_tick(block, rings, done).script, done),
    ensures
        match state.run_tick(block, rings, done).result {
            Ok(BulkAction::Started { kind, pointer, len }) => {
                &&& !state.run_tick(block, rings, done).state.is_over()
                &&& fits(state.run_tick(block, rings, done).rings, kind, len)
            },
            _ => true,
        },
{
}

/// A socket that starts a transfer is live, and what comes in fits.
pub proof fn lemma_started(backend: SocketBackend, rings: RingsState, done: Seq<Access>)
    requires
        carried_out(backend.run_tick(rings, done).script, done),
    ensures
        match backend.run_tick(rings, done).result {
            Ok(BulkAction::Started { kind, pointer, len }) => {
                &&& !backend.run_tick(rings, done).state.is_over()
                &&& fits(backend.run_tick(rings, done).rings, kind, len)
            },
            _ => true,
        },
{
    match backend.state {
        BackendState::Free => {},
        BackendState::Tcp(tcp) => lemma_tcp_started(tcp, backend.block, rings, done),
        BackendState::Udp(udp) => lemma_udp_started(udp, backend.block, rings, done),
    }
}

/// No tick of a connection ends a transfer.
#[verifier::rlimit(30)]
#[verifier::spinoff_prover]
proof fn lemma_tcp_first_request(
    state: TcpSocketState,
    block: BlockAddress,
    rings: RingsState,
    done: Seq<Access>,
)
    requires
        carried_out(state.run_tick(block, rings, done).script, done),
        done.len() > 0,
    ensures
        done[0].request is Batch,
{
    let script = state.handler_tick(block, rings, done).script;
    assert(done[0].request == script[0]);
    if state.close_requested {
        assert(script[0] is Batch);
    } else {
        match state.status {
            SocketStatus::Init => {
                assert(script[0] is Batch);
            },
            SocketStatus::Opening => {
                assert(script[0] is Batch);
            },
            SocketStatus::Connecting => {
                assert(script[0] is Batch);
            },
            SocketStatus::Established => {
                assert(script[0] is Batch);
            },
            SocketStatus::Listening => {
                assert(script[0] is Batch);
            },
            _ => {
                assert(script[0] is Batch);
            },
        }
    }
}

/// No tick of a bound socket ends a transfer.
proof fn lemma_udp_first_request(
    state: UdpSocketState,
    block: BlockAddress,
    rings: RingsState,
    done: Seq<Access>,
)
    requires
        carried_out(state.run_tick(block, rings, done).script, done),
        done.len() > 0,
    ensures
        done[0].request is Batch,
{
    let script = state.handler_tick(block, rings, done).script;
    assert(done[0].request == script[0]);
    if state.close_requested {
        assert(script[0] is Batch);
    } else if state.status == SocketStatus::Established {
        assert(script[0] == UdpSocketState::watch_script(block, done)[0]);
    } else {
        assert(script[0] is Batch);
    }
}

/// No tick ends a transfer.
pub proof fn lemma_first_request(backend: SocketBackend, rings: RingsState, done: Seq<Access>)
    requires
        carried_out(backend.run_tick(rings, done).script, done),
    ensures
        done.len() > 0 ==> !lands(done[0]),
{
    if done.len() > 0 {
        match backend.state {
            BackendState::Free => {},
            BackendState::Tcp(tcp) => lemma_tcp_first_request(tcp, backend.block, rings, done),
            BackendState::Udp(udp) => lemma_udp_first_request(udp, backend.block, rings, done),
        }
    }
}

/// Accesses of a tick that found the bus taken: the first one would have had to
/// wait, and it is the last.
pub open spec fn blocked(done: Seq<Access>) -> bool {
    done.len() > 0 ==> done[0].outcome == Err::<Seq<Seq<u8>>, Error>(Error::WouldBlock)
}

/// A live connection stays live while the bus is taken, and nothing is received.
pub proof fn lemma_tcp_blocked(
    state: TcpSocketState,
    block: BlockAddress,
    rings: RingsState,
    done: Seq<Access>,
)
    requires
        carried_out(state.run_tick(block, rings, done).script, done),
        blocked(done),
    ensures
        !state.is_over() ==> !state.run_tick(block, rings, done).state.is_over(),
        state.run_tick(block, rings, done).rings.rx == rings.rx,
{
    if done.len() > 1 {
        assert(done[0].outcome is Ok);
    }
}

/// A live bound socket stays live while the bus is taken, and nothing is received.
pub proof fn lemma_udp_blocked(
    state: UdpSocketState,
    block: BlockAddress,
    rings: RingsState,
    done: Seq<Access>,
)
    requires
        carried_out(state.run_tick(block, rings, done).script, done),
        blocked(done),
    ensures
        !state.is_over() ==> !state.run_tick(block, rings, done).state.is_over(),
        state.run_tick(block, rings, done).rings.rx == rings.rx,
{
    if done.len() > 1 {
        assert(done[0].outcome is Ok);
    }
}

/// A live socket stays live while the bus is taken, and nothing is received.
pub proof fn lemma_blocked(backend: SocketBackend, rings: RingsState, done: Seq<Access>)
    requires
        carried_out(backend.run_tick(rings, done).script, done),
        blocked(done),
    ensures
        !backend.is_over() ==> !backend.run_tick(rings, done).state.is_over(),
        backend.run_tick(rings, done).rings.rx == rings.rx,
{
    match backend.state {
        BackendState::Free => {},
        BackendState::Tcp(tcp) => lemma_tcp_blocked(tcp, backend.block, rings, done),
        BackendState::Udp(udp) => lemma_udp_blocked(udp, backend.block, rings, done),
    }
}

} // verus!
