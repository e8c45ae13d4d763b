//! What a TCP socket does, tick by tick, in the chip's own numbers: which accesses
//! follow which answers, and what becomes of the connection.
use vstd::prelude::*;

use crate::access::{carried_out, failed, failure, Access};
use crate::address::{write_request, Address, BlockAddress};
use crate::error::{DriverError, Error};
use crate::socket::{ahead, BulkAction, BulkKind, RingsState, SocketStatus};
use crate::socket_common::write16;
use crate::talk::{
    clears, draws, feeds, further, number, octet, orders, reads, writes16, writes32, writes8,
};
use crate::tcp_laws::law_flush_in_order;
use crate::tcp_socket::{chunk_writes, TcpMode, TcpSocketState};

verus! {

/// Whether a tick made the accesses `done`, all of which succeeded.
pub open spec fn ticked(
    state: TcpSocketState,
    block: BlockAddress,
    rings: RingsState,
    done: Seq<Access>,
) -> bool {
    carried_out(state.run_tick(block, rings, done).script, done) && !failed(done)
}

/// Whether a tick left everything as it was and started nothing.
pub open spec fn idled(
    state: TcpSocketState,
    block: BlockAddress,
    rings: RingsState,
    done: Seq<Access>,
) -> bool {
    became(state, block, rings, done, state.status)
}

/// Whether a tick changed nothing but the status, and started nothing.
pub open spec fn became(
    state: TcpSocketState,
    block: BlockAddress,
    rings: RingsState,
    done: Seq<Access>,
    status: SocketStatus,
) -> bool {
    let tick = state.run_tick(block, rings, done);
    &&& tick.state == TcpSocketState { status, ..state }
    &&& tick.rings == rings
    &&& tick.result == Ok::<BulkAction, Error>(BulkAction::Nothing)
}

/// Whether a tick gave up on a chip that answers what it cannot: after `n` accesses
/// the socket is closed, and the error is kept.
pub open spec fn gave_up(
    state: TcpSocketState,
    block: BlockAddress,
    rings: RingsState,
    done: Seq<Access>,
    n: int,
) -> bool {
    let tick = state.run_tick(block, rings, done);
    &&& done.len() == n + 1
    &&& orders(done[n], block, 0x10)
    &&& tick.state == TcpSocketState {
        status: SocketStatus::ClosingDueToError,
        pending_error: Some(Error::Other(DriverError::UnexpectedResponse)),
        ..state
    }
    &&& tick.rings == rings
    &&& tick.result == Ok::<BulkAction, Error>(BulkAction::Nothing)
}

/// A socket that is to be opened is set up for TCP over IPv4 with its interrupts
/// cleared and enabled, gets its own port, and is opened.
pub proof fn law_set_up(
    state: TcpSocketState,
    block: BlockAddress,
    rings: RingsState,
    done: Seq<Access>,
)
    requires
        state.status == SocketStatus::Init,
        !state.close_requested,
        ticked(state, block, rings, done),
    ensures
        done.len() == 5,
        writes8(done[0], block, 0x0000, 0x01),
        clears(done[1], block, 0xFF),
        writes8(done[2], block, 0x0024, 0xFF),
        match state.mode {
            TcpMode::Connect { dst_addr, dst_port, src_port } => writes16(
                done[3],
                block,
                0x0114,
                src_port,
            ),
            TcpMode::Listen { src_port } => writes16(done[3], block, 0x0114, src_port),
        },
        orders(done[4], block, 0x01),
        became(state, block, rings, done, SocketStatus::Opening),
{
}

/// A socket that was opened waits until the chip has taken the command and is ready;
/// an outgoing connection is then told its peer and connects, any other listens. A
/// chip that is ready for something else is given up.
pub proof fn law_opening_proceeds(
    state: TcpSocketState,
    block: BlockAddress,
    rings: RingsState,
    done: Seq<Access>,
)
    requires
        state.status == SocketStatus::Opening,
        !state.close_requested,
        ticked(state, block, rings, done),
    ensures
        done.len() > 0,
        reads(done[0], block, 0x0010, 1),
        octet(done[0]) != 0 ==> done.len() == 1 && idled(state, block, rings, done),
        octet(done[0]) == 0 ==> {
            &&& done.len() > 1
            &&& reads(done[1], block, 0x0030, 1)
            &&& octet(done[1]) == 0x13 ==> match state.mode {
                TcpMode::Connect { dst_addr, dst_port, src_port } => {
                    &&& done.len() == 5
                    &&& writes32(done[2], block, 0x0120, dst_addr)
                    &&& writes16(done[3], block, 0x0140, dst_port)
                    &&& orders(done[4], block, 0x04)
                    &&& became(state, block, rings, done, SocketStatus::Connecting)
                },
                TcpMode::Listen { src_port } => {
                    &&& done.len() == 3
                    &&& orders(done[2], block, 0x02)
                    &&& became(state, block, rings, done, SocketStatus::Listening)
                },
            }
            &&& octet(done[1]) == 0x00 ==> done.len() == 2 && idled(state, block, rings, done)
            &&& octet(done[1]) != 0x13 && octet(done[1]) != 0x00 ==> gave_up(
                state,
                block,
                rings,
                done,
                2,
            )
        },
{
}

/// An outgoing connection waits for its handshake as long as the chip is on it
/// (`SOCK_INIT` or `SOCK_SYNSENT`). It stands once the chip says so, is over if the
/// chip closed it, and a timeout ends it. A chip in any other state is given up.
pub proof fn law_connecting_proceeds(
    state: TcpSocketState,
    block: BlockAddress,
    rings: RingsState,
    done: Seq<Access>,
)
    requires
        state.status == SocketStatus::Connecting,
        !state.close_requested,
        ticked(state, block, rings, done),
    ensures
        done.len() > 0,
        reads(done[0], block, 0x0010, 1),
        octet(done[0]) != 0 ==> done.len() == 1 && idled(state, block, rings, done),
        octet(done[0]) == 0 ==> {
            let ir = octet(done[1]);
            let sr = octet(done[2]);
            &&& done.len() > 1
            &&& reads(done[1], block, 0x0020, 1)
            &&& ir & 0x08 != 0 ==> {
                &&& done.len() == 4
                &&& clears(done[2], block, 0x08)
                &&& orders(done[3], block, 0x10)
                &&& became(state, block, rings, done, SocketStatus::ClosingDueToTimeout)
            }
            &&& ir & 0x08 == 0 ==> {
                &&& done.len() > 2
                &&& reads(done[2], block, 0x0030, 1)
                &&& sr == 0x13 || sr == 0x15 ==> done.len() == 3 && idled(
                    state,
                    block,
                    rings,
                    done,
                )
                &&& sr == 0x17 ==> {
                    &&& done.len() == 4
                    &&& clears(done[3], block, 0x01)
                    &&& became(state, block, rings, done, SocketStatus::Established)
                }
                &&& sr == 0x00 ==> done.len() == 3 && became(
                    state,
                    block,
                    rings,
                    done,
                    SocketStatus::Closed,
                )
                &&& sr != 0x13 && sr != 0x15 && sr != 0x17 && sr != 0x00 ==> gave_up(
                    state,
                    block,
                    rings,
                    done,
                    3,
                )
            }
        },
{
    let ir = octet(done[1]);
    assert(ir & 0x08u8 == 0x08u8 || ir & 0x08u8 == 0u8) by (bit_vector);
}

/// A listening socket waits as long as no client is there or its handshake is on its
/// way (`SOCK_LISTEN` or `SOCK_SYNRECV`). The connection stands once the chip says so,
/// also if the client has closed its side already. A chip in any other state is given
/// up.
pub proof fn law_listening_proceeds(
    state: TcpSocketState,
    block: BlockAddress,
    rings: RingsState,
    done: Seq<Access>,
)
    requires
        state.status == SocketStatus::Listening,
        !state.close_requested,
        ticked(state, block, rings, done),
    ensures
        done.len() > 0,
        reads(done[0], block, 0x0010, 1),
        octet(done[0]) != 0 ==> done.len() == 1 && idled(state, block, rings, done),
        octet(done[0]) == 0 ==> {
            let sr = octet(done[1]);
            &&& done.len() > 1
            &&& reads(done[1], block, 0x0030, 1)
            &&& sr == 0x14 || sr == 0x16 ==> done.len() == 2 && idled(state, block, rings, done)
            &&& sr == 0x17 || sr == 0x1C ==> {
                &&& done.len() == 3
                &&& clears(done[2], block, 0x01)
                &&& became(state, block, rings, done, SocketStatus::Established)
            }
            &&& sr == 0x00 ==> {
                &&& done.len() == 3
                &&& clears(done[2], block, 0x08)
                &&& became(state, block, rings, done, SocketStatus::Closed)
            }
            &&& sr != 0x14 && sr != 0x16 && sr != 0x17 && sr != 0x1C && sr != 0x00 ==> gave_up(
                state,
                block,
                rings,
                done,
                2,
            )
        },
{
}

/// A socket that is being closed waits until the chip has closed it; how it ends says
/// why it was closed.
pub proof fn law_closing_ends(
    state: TcpSocketState,
    block: BlockAddress,
    rings: RingsState,
    done: Seq<Access>,
)
    requires
        !state.close_requested,
        ticked(state, block, rings, done),
    ensures
        state.status == SocketStatus::Closing || state.status == SocketStatus::ClosingDueToError
            || state.status == SocketStatus::ClosingDueToTimeout ==> {
            &&& done.len() == 1
            &&& reads(done[0], block, 0x0030, 1)
            &&& octet(done[0]) != 0x00 ==> idled(state, block, rings, done)
        },
        state.status == SocketStatus::Closing && octet(done[0]) == 0x00 ==> became(
            state,
            block,
            rings,
            done,
            SocketStatus::Closed,
        ),
        state.status == SocketStatus::ClosingDueToError && octet(done[0]) == 0x00 ==> became(
            state,
            block,
            rings,
            done,
            SocketStatus::Error,
        ),
        state.status == SocketStatus::ClosingDueToTimeout && octet(done[0]) == 0x00 ==> became(
            state,
            block,
            rings,
            done,
            SocketStatus::Timeout,
        ),
        state.status == SocketStatus::Closed || state.status == SocketStatus::Error
            || state.status == SocketStatus::Timeout ==> {
            &&& done.len() == 0
            &&& idled(state, block, rings, done)
        },
{
}

/// How many accesses a tick of an established connection makes before it moves data:
/// one more if the peer's FIN is to be acknowledged.
pub open spec fn watch_len(done: Seq<Access>) -> int {
    if octet(done[0]) & 0x02 != 0 {
        3
    } else {
        2
    }
}

/// An established connection is watched: a timeout ends it, the peer's FIN is
/// acknowledged, a connection that the chip has closed is over, and a chip that can
/// be in no such state is given up.
#[verifier::rlimit(40)]
#[verifier::spinoff_prover]
pub proof fn law_connection_watched(
    state: TcpSocketState,
    block: BlockAddress,
    rings: RingsState,
    done: Seq<Access>,
)
    requires
        state.status == SocketStatus::Established,
        !state.close_requested,
        ticked(state, block, rings, done),
    ensures
        done.len() > 0,
        reads(done[0], block, 0x0020, 1),
        octet(done[0]) & 0x08 != 0 ==> {
            &&& done.len() == 3
            &&& clears(done[1], block, 0x08)
            &&& orders(done[2], block, 0x10)
            &&& became(state, block, rings, done, SocketStatus::ClosingDueToTimeout)
        },
        octet(done[0]) & 0x08 == 0 ==> {
            let k = watch_len(done);
            let sr = octet(done[k - 1]);
            &&& done.len() >= k
            &&& k == 3 ==> clears(done[1], block, 0x02)
            &&& reads(done[k - 1], block, 0x0030, 1)
            &&& sr == 0x00 ==> done.len() == k && became(
                state,
                block,
                rings,
                done,
                SocketStatus::Closed,
            )
            &&& sr != 0x17 && sr != 0x1C && sr != 0x00 ==> gave_up(state, block, rings, done, k)
        },
{
    lemma_interrupt_bits(octet(done[0]));
}

/// An interrupt is reported or it is not.
proof fn lemma_interrupt_bits(ir: u8)
    ensures
        ir & 0x08 == 0x08 || ir & 0x08 == 0,
        ir & 0x02 == 0x02 || ir & 0x02 == 0,
{
    assert(ir & 0x08u8 == 0x08u8 || ir & 0x08u8 == 0u8) by (bit_vector);
    assert(ir & 0x02u8 == 0x02u8 || ir & 0x02u8 == 0u8) by (bit_vector);
}

/// The smaller of two amounts.
pub open spec fn least(a: int, b: int) -> int {
    if a < b {
        a
    } else {
        b
    }
}

/// How many of `available` bytes the rx ring has room for.
pub open spec fn takes_in(rings: RingsState, available: u16) -> int {
    least(available as int, rings.rx.slots - rings.rx.bytes.len())
}

/// How many of the staged bytes the chip has room for.
pub open spec fn sends_out(rings: RingsState, free: u16) -> int {
    least(rings.tx.bytes.len() as int, free as int)
}

/// Whether the accesses `m` look for received data and start to move as much of it
/// as the rx ring has room for, from where the chip's read pointer stands.
pub open spec fn receives(
    block: BlockAddress,
    rings: RingsState,
    m: Seq<Access>,
    left: RingsState,
    result: Result<BulkAction, Error>,
) -> bool {
    let n = takes_in(rings, number(m[0]));
    &&& m.len() == 3
    &&& reads(m[1], block, 0x0228, 2)
    &&& draws(m[2], block, number(m[1]), n as nat)
    &&& left == rings
    &&& result == Ok::<BulkAction, Error>(
        BulkAction::Started { kind: BulkKind::Receive, pointer: number(m[1]), len: n as usize },
    )
}

/// Whether the accesses `m`, of which the first looked for received data, start to
/// move as many of the staged bytes as the chip has room for, to where its write
/// pointer stands; those bytes leave the ring. If the chip has no room, nothing is
/// moved.
pub open spec fn transmits(
    block: BlockAddress,
    rings: RingsState,
    m: Seq<Access>,
    left: RingsState,
    result: Result<BulkAction, Error>,
) -> bool {
    let n = sends_out(rings, number(m[1]));
    &&& m.len() > 1
    &&& reads(m[1], block, 0x0204, 2)
    &&& n == 0 ==> {
        &&& m.len() == 2
        &&& left == rings
        &&& result == Ok::<BulkAction, Error>(BulkAction::Nothing)
    }
    &&& n > 0 ==> {
        &&& m.len() == 4
        &&& reads(m[2], block, 0x020C, 2)
        &&& feeds(m[3], block, number(m[2]), rings.tx.bytes.take(n))
        &&& left.rx == rings.rx
        &&& left.tx.bytes == rings.tx.bytes.skip(n)
        &&& left.tx.slots == rings.tx.slots
        &&& left.tx.frames == rings.tx.frames
        &&& result == Ok::<BulkAction, Error>(
            BulkAction::Started { kind: BulkKind::Transmit, pointer: number(m[2]), len: n as usize },
        )
    }
}

/// A connection that stands moves data: what the chip has received goes first, as far
/// as the rx ring has room; if there is none of that, staged bytes go out as far as
/// the chip has room. The connection goes on standing.
#[verifier::rlimit(40)]
#[verifier::spinoff_prover]
pub proof fn law_connection_moves_data(
    state: TcpSocketState,
    block: BlockAddress,
    rings: RingsState,
    done: Seq<Access>,
)
    requires
        state.status == SocketStatus::Established,
        !state.close_requested,
        ticked(state, block, rings, done),
        octet(done[0]) & 0x08 == 0,
        octet(done[watch_len(done) - 1]) == 0x17,
    ensures
        ({
            let tick = state.run_tick(block, rings, done);
            let m = done.skip(watch_len(done));
            &&& tick.state == state
            &&& m.len() > 0
            &&& reads(m[0], block, 0x0224, 2)
            &&& if takes_in(rings, number(m[0])) > 0 {
                receives(block, rings, m, tick.rings, tick.result)
            } else if rings.tx.bytes.len() > 0 {
                transmits(block, rings, m, tick.rings, tick.result)
            } else {
                m.len() == 1 && idled(state, block, rings, done)
            }
        }),
{
    lemma_interrupt_bits(octet(done[0]));
    let m = done.skip(watch_len(done));
    assert(m.len() > 1 ==> m.skip(1)[0] == m[1]);
}

/// A connection whose peer has sent its last byte is drained first: as long as
/// anything can be received, or is staged, or has not been read, data is moved as on
/// any other connection and it goes on standing. Only once both rings and the chip's
/// RX buffer are empty does this side disconnect too.
#[verifier::rlimit(60)]
#[verifier::spinoff_prover]
pub proof fn law_peer_close_answered(
    state: TcpSocketState,
    block: BlockAddress,
    rings: RingsState,
    done: Seq<Access>,
)
    requires
        state.status == SocketStatus::Established,
        !state.close_requested,
        ticked(state, block, rings, done),
        octet(done[0]) & 0x08 == 0,
        octet(done[watch_len(done) - 1]) == 0x1C,
    ensures
        ({
            let tick = state.run_tick(block, rings, done);
            let m = done.skip(watch_len(done));
            &&& m.len() > 0
            &&& reads(m[0], block, 0x0224, 2)
            &&& if takes_in(rings, number(m[0])) > 0 {
                tick.state == state && receives(block, rings, m, tick.rings, tick.result)
            } else if rings.tx.bytes.len() > 0 {
                tick.state == state && transmits(block, rings, m, tick.rings, tick.result)
            } else if rings.rx.bytes.len() > 0 {
                m.len() == 1 && idled(state, block, rings, done)
            } else {
                &&& m.len() > 1
                &&& reads(m[1], block, 0x0224, 2)
                &&& number(m[1]) != 0 ==> m.len() == 2 && idled(state, block, rings, done)
                &&& number(m[1]) == 0 ==> {
                    &&& m.len() == 3
                    &&& orders(m[2], block, 0x08)
                    &&& became(state, block, rings, done, SocketStatus::Closing)
                }
            }
        }),
{
    lemma_interrupt_bits(octet(done[0]));
    let m = done.skip(watch_len(done));
    assert(m.len() > 1 ==> m.skip(1)[0] == m[1]);
}

/// A close request is acted on at once. A connection that stands is flushed first:
/// as many staged bytes as the chip has room for are written to its TX buffer, in
/// order and without gaps, in pieces of at most 64 bytes; the write pointer is moved
/// past them and they are sent; and only then does this side disconnect.
#[verifier::rlimit(40)]
#[verifier::spinoff_prover]
pub proof fn law_close_flushes(
    state: TcpSocketState,
    block: BlockAddress,
    rings: RingsState,
    done: Seq<Access>,
)
    requires
        state.status == SocketStatus::Established,
        state.close_requested,
        ticked(state, block, rings, done),
    ensures
        ({
            let tick = state.run_tick(block, rings, done);
            let staged = rings.tx.bytes;
            let n = sends_out(rings, number(done[0]));
            let pieces = (n + 63) / 64;
            let at = number(done[1]);
            &&& tick.state == (TcpSocketState {
                status: SocketStatus::Closing,
                close_requested: false,
                ..state
            })
            &&& tick.result == Ok::<BulkAction, Error>(BulkAction::Nothing)
            &&& tick.rings.rx == rings.rx
            &&& done.len() > 0
            &&& orders(done.last(), block, 0x08)
            &&& staged.len() == 0 ==> done.len() == 1 && tick.rings == rings
            &&& staged.len() > 0 ==> done.len() > 1 && reads(done[0], block, 0x0204, 2)
            &&& staged.len() > 0 && n == 0 ==> done.len() == 2 && tick.rings == rings
            &&& staged.len() > 0 && n > 0 ==> {
                &&& done.len() == pieces + 5
                &&& reads(done[1], block, 0x020C, 2)
                &&& forall|j: int|
                    0 <= j < pieces ==> (#[trigger] done[j + 2]).request == write_request(
                        Address { address: further(at, 64 * j), block: block.tx },
                        staged.subrange(64 * j, least(64 * j + 64, n)),
                    )
                &&& writes16(done[pieces + 2], block, 0x020C, further(at, n))
                &&& orders(done[pieces + 3], block, 0x20)
                &&& tick.rings.tx.bytes == staged.skip(n)
                &&& tick.rings.tx.slots == rings.tx.slots
                &&& tick.rings.tx.frames == rings.tx.frames
            }
        }),
{
    let tick = state.run_tick(block, rings, done);
    let staged = rings.tx.bytes;
    let n = sends_out(rings, number(done[0]));
    if staged.len() > 0 && n > 0 {
        let at = number(done[1]);
        let data = staged.take(n);
        let chunks = chunk_writes(block, at, data);
        let pieces = (n + 63) / 64;
        reveal(ahead);
        lemma_pieces(block, at, data);
        assert(chunks.len() == pieces);
        assert forall|j: int| 0 <= j < pieces implies (#[trigger] done[j + 2]).request
            == write_request(
            Address { address: further(at, 64 * j), block: block.tx },
            staged.subrange(64 * j, least(64 * j + 64, n)),
        ) by {
            law_flush_in_order(block, at, data, j);
            assert(tick.script[j + 2] == chunks[j]);
            assert(data.subrange(64 * j, least(64 * j + 64, n)) =~= staged.subrange(
                64 * j,
                least(64 * j + 64, n),
            ));
        }
        assert(tick.script[pieces + 2] == write16(block, 0x020C, ahead(at, n)));
        assert(least(n, 64 * (done.len() - 2)) == n);
    }
}

/// As many pieces as it takes.
proof fn lemma_pieces(block: BlockAddress, at: u16, data: Seq<u8>)
    ensures
        chunk_writes(block, at, data).len() == (data.len() + 63) / 64,
    decreases data.len(),
{
    if data.len() > 0 {
        let n = least(64, data.len() as int);
        lemma_pieces(block, ahead(at, n), data.skip(n));
    }
}

/// A close request ends a socket that is still coming up at once, and finds nothing to
/// do on one that is on its way down or over.
pub proof fn law_close_aborts(
    state: TcpSocketState,
    block: BlockAddress,
    rings: RingsState,
    done: Seq<Access>,
)
    requires
        state.close_requested,
        ticked(state, block, rings, done),
    ensures
        ({
            let tick = state.run_tick(block, rings, done);
            let heard = TcpSocketState { close_requested: false, ..state };
            match state.status {
                SocketStatus::Init
                | SocketStatus::Opening
                | SocketStatus::Connecting
                | SocketStatus::Listening => {
                    &&& done.len() == 1
                    &&& orders(done[0], block, 0x10)
                    &&& tick.state == (TcpSocketState { status: SocketStatus::Closing, ..heard })
                    &&& tick.rings == rings
                    &&& tick.result == Ok::<BulkAction, Error>(BulkAction::Nothing)
                },
                SocketStatus::Established => true,
                _ => {
                    &&& done.len() == 0
                    &&& tick.state == heard
                    &&& tick.rings == rings
                    &&& tick.result == Ok::<BulkAction, Error>(BulkAction::Nothing)
                },
            }
        }),
{
}

/// A tick that an access fails in changes nothing about the connection, except that a
/// handshake that was seen to be done counts. Having to wait is reported, any other
/// error is kept; the tick itself does not fail. A close request is heard even so.
#[verifier::rlimit(60)]
#[verifier::spinoff_prover]
pub proof fn law_failed_tick(
    state: TcpSocketState,
    block: BlockAddress,
    rings: RingsState,
    done: Seq<Access>,
)
    requires
        carried_out(state.run_tick(block, rings, done).script, done),
        failed(done),
    ensures
        ({
            let tick = state.run_tick(block, rings, done);
            let shaken = !state.close_requested && match state.status {
                SocketStatus::Connecting => done.len() == 4 && octet(done[1]) & 0x08 == 0 && octet(
                    done[2],
                ) == 0x17,
                SocketStatus::Listening => done.len() == 3 && (octet(done[1]) == 0x17 || octet(
                    done[1],
                ) == 0x1C),
                _ => false,
            };
            &&& tick.state.mode == state.mode
            &&& !tick.state.close_requested
            &&& tick.state.status == (if shaken {
                SocketStatus::Established
            } else {
                state.status
            })
            &&& tick.rings.rx == rings.rx
            &&& match failure(done) {
                Error::WouldBlock => {
                    &&& tick.result == Err::<BulkAction, Error>(Error::WouldBlock)
                    &&& tick.state.pending_error == state.pending_error
                },
                Error::Other(e) => {
                    &&& tick.result == Ok::<BulkAction, Error>(BulkAction::Nothing)
                    &&& tick.state.pending_error == Some(Error::Other(e))
                },
            }
        }),
{
    lemma_interrupt_bits(octet(done[1]));
    if state.close_requested && state.status == SocketStatus::Established {
        lemma_pieces(block, number(done[1]), rings.tx.bytes.take(sends_out(rings, number(done[0]))));
    }
}

/// Staged bytes leave the ring only for the chip, also if an access fails. A piece of a
/// flush has left once its write was tried, and what a transfer was to move has left if
/// the bus failed it; a transfer that has to wait or does not fit moves nothing.
#[verifier::rlimit(60)]
#[verifier::spinoff_prover]
pub proof fn law_failed_tick_keeps_staged(
    state: TcpSocketState,
    block: BlockAddress,
    rings: RingsState,
    done: Seq<Access>,
)
    requires
        carried_out(state.run_tick(block, rings, done).script, done),
        failed(done),
        rings.tx.bytes.len() <= rings.tx.slots,
    ensures
        ({
            let tick = state.run_tick(block, rings, done);
            let staged = rings.tx.bytes;
            let k = watch_len(done);
            &&& tick.rings.tx.slots == rings.tx.slots
            &&& tick.rings.tx.frames == rings.tx.frames
            &&& tick.rings.tx.bytes == (if state.status != SocketStatus::Established {
                staged
            } else if state.close_requested {
                if staged.len() > 0 && done.len() > 2 {
                    staged.skip(least(sends_out(rings, number(done[0])), 64 * (done.len() - 2)))
                } else {
                    staged
                }
            } else if done.len() == k + 4 && failure(done) == Error::Other(DriverError::SpiError) {
                staged.skip(sends_out(rings, number(done[k + 1])))
            } else {
                staged
            })
        }),
{
    let tick = state.run_tick(block, rings, done);
    lemma_interrupt_bits(octet(done[0]));
    assert(rings.tx.bytes.skip(0) =~= rings.tx.bytes);
    let k = watch_len(done);
    let m = done.skip(k);
    if state.status == SocketStatus::Established && !state.close_requested && done.len() > k {
        assert(m.last() == done.last());
        if m.len() > 1 {
            assert(m.skip(1)[0] == m[1]);
            assert(m.skip(1).last() == done.last());
        }
    }
}

} // verus!
