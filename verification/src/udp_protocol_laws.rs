//! What a UDP socket does, tick by tick, in the chip's own numbers: which accesses
//! follow which answers, and what becomes of the datagrams.
use vstd::prelude::*;

use crate::access::{carried_out, failed, failure, reply, Access};
use crate::address::{read_request, Address, BlockAddress};
use crate::bytes::from_be16;
use crate::error::{DriverError, Error};
use crate::frame::{
    frame_header_of, frame_peer, holds, law_datagram_queued, law_datagram_taken, Datagram,
    SocketAddr,
};
use crate::socket::{ahead, BulkAction, BulkKind, RingsState, SocketStatus};
use crate::spsc_ring::RingState;
use crate::talk::{
    clears, draws, feeds, further, number, octet, orders, reads, writes16, writes32, writes8,
};
use crate::tcp_stream::lemma_carried_out_rest;
use crate::transiver::padded;
use crate::udp_socket::{
    packet_len, packet_peer, receive_tick, staged_header, transmit_tick, UdpSocketState,
};

verus! {

/// Whether a tick made the accesses `done`, all of which succeeded.
pub open spec fn ticked(
    state: UdpSocketState,
    block: BlockAddress,
    rings: RingsState,
    done: Seq<Access>,
) -> bool {
    carried_out(state.run_tick(block, rings, done).script, done) && !failed(done)
}

/// Whether a tick changed nothing but the status, and started nothing.
pub open spec fn became(
    state: UdpSocketState,
    block: BlockAddress,
    rings: RingsState,
    done: Seq<Access>,
    status: SocketStatus,
) -> bool {
    let tick = state.run_tick(block, rings, done);
    &&& tick.state == UdpSocketState { status, ..state }
    &&& tick.rings == rings
    &&& tick.result == Ok::<BulkAction, Error>(BulkAction::Nothing)
}

/// A socket that is to be opened is set up for UDP over IPv4 with its interrupts
/// cleared and enabled, gets its own port, and is opened.
pub proof fn law_set_up(
    state: UdpSocketState,
    block: BlockAddress,
    rings: RingsState,
    done: Seq<Access>,
)
    requires
        state.status == SocketStatus::Init,
        !state.close_requested,
        ticked(state, block, rings, done),
    ensures
        done.len() == 5,
        writes8(done[0], block, 0x0000, 0x02),
        clears(done[1], block, 0xFF),
        writes8(done[2], block, 0x0024, 0xFF),
        writes16(done[3], block, 0x0114, state.src_port),
        orders(done[4], block, 0x01),
        became(state, block, rings, done, SocketStatus::Opening),
{
}

/// A socket that was opened waits until the chip has taken the command and is ready
/// for datagrams. A chip that is ready for something else is given up.
pub proof fn law_opening_proceeds(
    state: UdpSocketState,
    block: BlockAddress,
    rings: RingsState,
    done: Seq<Access>,
)
    requires
        state.status == SocketStatus::Opening,
        !state.close_requested,
        ticked(state, block, rings, done),
    ensures
        done.len() > 0,
        reads(done[0], block, 0x0010, 1),
        octet(done[0]) != 0 ==> done.len() == 1 && became(
            state,
            block,
            rings,
            done,
            SocketStatus::Opening,
        ),
        octet(done[0]) == 0 ==> {
            let tick = state.run_tick(block, rings, done);
            &&& done.len() > 1
            &&& reads(done[1], block, 0x0030, 1)
            &&& octet(done[1]) == 0x22 ==> done.len() == 2 && became(
                state,
                block,
                rings,
                done,
                SocketStatus::Established,
            )
            &&& octet(done[1]) == 0x00 ==> done.len() == 2 && became(
                state,
                block,
                rings,
                done,
                SocketStatus::Opening,
            )
            &&& octet(done[1]) != 0x22 && octet(done[1]) != 0x00 ==> {
                &&& done.len() == 3
                &&& orders(done[2], block, 0x10)
                &&& tick.state == (UdpSocketState {
                    status: SocketStatus::ClosingDueToError,
                    pending_error: Some(Error::Other(DriverError::UnexpectedResponse)),
                    ..state
                })
                &&& tick.rings == rings
                &&& tick.result == Ok::<BulkAction, Error>(BulkAction::Nothing)
            }
        },
{
}

/// A socket that is being closed waits until the chip has closed it; how it ends says
/// why it was closed. Nothing is asked for one that is over, or in a state that only a
/// connection can be in.
pub proof fn law_closing_ends(
    state: UdpSocketState,
    block: BlockAddress,
    rings: RingsState,
    done: Seq<Access>,
)
    requires
        !state.close_requested,
        ticked(state, block, rings, done),
    ensures
        state.status == SocketStatus::Closing || state.status == SocketStatus::ClosingDueToError
            || state.status == SocketStatus::ClosingDueToTimeout ==> {
            &&& done.len() == 1
            &&& reads(done[0], block, 0x0030, 1)
            &&& octet(done[0]) != 0x00 ==> became(state, block, rings, done, state.status)
        },
        state.status == SocketStatus::Closing && octet(done[0]) == 0x00 ==> became(
            state,
            block,
            rings,
            done,
            SocketStatus::Closed,
        ),
        state.status == SocketStatus::ClosingDueToError && octet(done[0]) == 0x00 ==> became(
            state,
            block,
            rings,
            done,
            SocketStatus::Error,
        ),
        state.status == SocketStatus::ClosingDueToTimeout && octet(done[0]) == 0x00 ==> became(
            state,
            block,
            rings,
            done,
            SocketStatus::Timeout,
        ),
        state.status == SocketStatus::Closed || state.status == SocketStatus::Error
            || state.status == SocketStatus::Timeout || state.status == SocketStatus::Connecting
            || state.status == SocketStatus::Listening ==> {
            &&& done.len() == 0
            &&& became(state, block, rings, done, state.status)
        },
{
}

/// A close request closes a socket at once, whatever it is doing, and finds nothing to
/// do on one that is on its way down or over.
pub proof fn law_close_acts(
    state: UdpSocketState,
    block: BlockAddress,
    rings: RingsState,
    done: Seq<Access>,
)
    requires
        state.close_requested,
        ticked(state, block, rings, done),
    ensures
        ({
            let tick = state.run_tick(block, rings, done);
            let heard = UdpSocketState { close_requested: false, ..state };
            &&& tick.rings == rings
            &&& tick.result == Ok::<BulkAction, Error>(BulkAction::Nothing)
            &&& match state.status {
                SocketStatus::Init
                | SocketStatus::Opening
                | SocketStatus::Connecting
                | SocketStatus::Listening
                | SocketStatus::Established => {
                    &&& done.len() == 1
                    &&& orders(done[0], block, 0x10)
                    &&& tick.state == (UdpSocketState { status: SocketStatus::Closing, ..heard })
                },
                _ => done.len() == 0 && tick.state == heard,
            }
        }),
{
}

/// A tick that an access fails in changes nothing about the socket. Having to wait is
/// reported, any other error is kept; the tick itself does not fail. A close request
/// is heard even so.
#[verifier::rlimit(60)]
#[verifier::spinoff_prover]
pub proof fn law_failed_tick(
    state: UdpSocketState,
    block: BlockAddress,
    rings: RingsState,
    done: Seq<Access>,
)
    requires
        carried_out(state.run_tick(block, rings, done).script, done),
        failed(done),
    ensures
        ({
            let tick = state.run_tick(block, rings, done);
            &&& tick.state.src_port == state.src_port
            &&& !tick.state.close_requested
            &&& tick.state.status == state.status
            &&& match failure(done) {
                Error::WouldBlock => {
                    &&& tick.result == Err::<BulkAction, Error>(Error::WouldBlock)
                    &&& tick.state.pending_error == state.pending_error
                },
                Error::Other(e) => {
                    &&& tick.result == Ok::<BulkAction, Error>(BulkAction::Nothing)
                    &&& tick.state.pending_error == Some(Error::Other(e))
                },
            }
        }),
{
    let k = watch_len(done);
    lemma_interrupt_bits(octet(done[0]));
    if done.len() > k {
        assert(done.skip(k).last() == done.last());
        let m = done.skip(k);
        let r = receive_tick(block, rings, m).script.len() as int;
        if m.len() > r {
            assert(m.skip(r).last() == done.last());
            if m.len() > r + 1 {
                assert(m.skip(r).skip(1).last() == done.last());
            }
        }
    }
}

/// An interrupt is reported or it is not.
proof fn lemma_interrupt_bits(ir: u8)
    ensures
        ir & 0x08 == 0x08 || ir & 0x08 == 0,
{
    assert(ir & 0x08u8 == 0x08u8 || ir & 0x08u8 == 0u8) by (bit_vector);
}

/// How many accesses a tick of an open socket makes before it moves datagrams: one
/// more if a timeout is to be acknowledged.
pub open spec fn watch_len(done: Seq<Access>) -> int {
    if octet(done[0]) & 0x08 != 0 {
        2
    } else {
        1
    }
}

/// The payload length of the packet that the chip has in front: the low eleven bits
/// of the first two bytes.
pub open spec fn packet_size(head: Seq<u8>) -> int {
    (head[0] % 8) * 256 + head[1]
}

/// The sender of that packet.
pub open spec fn packet_sender(head: Seq<u8>) -> SocketAddr {
    SocketAddr {
        ip: (head[2] * 0x100_0000 + head[3] * 0x1_0000 + head[4] * 256 + head[5]) as u32,
        port: (head[6] * 256 + head[7]) as u16,
    }
}

/// The room left in a ring.
pub open spec fn room(ring: RingState) -> int {
    ring.slots - ring.bytes.len()
}

/// Whether the packet in front is all there and its frame fits into the rx ring now.
pub open spec fn fits_now(rings: RingsState, m: Seq<Access>) -> bool {
    &&& number(m[0]) >= 8
    &&& number(m[0]) >= 8 + packet_size(reply(m[2]))
    &&& room(rings.rx) >= 8 + packet_size(reply(m[2]))
}

/// Whether the packet in front is all there but larger than the whole rx ring.
pub open spec fn never_fits(rings: RingsState, m: Seq<Access>) -> bool {
    &&& number(m[0]) >= 8
    &&& number(m[0]) >= 8 + packet_size(reply(m[2]))
    &&& rings.rx.slots < 8 + packet_size(reply(m[2]))
}

/// How many accesses looking for a packet takes, if no payload is fetched: the packet
/// is looked at if its header is there, and acknowledged if it is done with.
pub open spec fn look_len(rings: RingsState, m: Seq<Access>) -> int {
    if number(m[0]) < 8 {
        1
    } else if never_fits(rings, m) || fits_now(rings, m) {
        6
    } else {
        3
    }
}

/// Whether a payload is fetched.
pub open spec fn fetches_payload(rings: RingsState, m: Seq<Access>) -> bool {
    fits_now(rings, m) && packet_size(reply(m[2])) > 0
}

/// Whether the three accesses from `m[3]` on acknowledge `n` bytes from `at` on.
pub open spec fn acknowledges(block: BlockAddress, m: Seq<Access>, at: u16, n: int) -> bool {
    &&& writes16(m[3], block, 0x0228, further(at, n))
    &&& orders(m[4], block, 0x40)
    &&& clears(m[5], block, 0x04)
}

/// An open socket looks for a packet first. One that is all there and fits the rx ring
/// is taken in: its payload is fetched from behind the header, and it comes from the
/// sender that the header names. A packet without a payload is taken in at once, and
/// one that can never fit is skipped; both are acknowledged. Any other is left alone.
#[verifier::rlimit(80)]
#[verifier::spinoff_prover]
pub proof fn law_packet_taken_in(
    state: UdpSocketState,
    block: BlockAddress,
    rings: RingsState,
    done: Seq<Access>,
)
    requires
        state.status == SocketStatus::Established,
        !state.close_requested,
        ticked(state, block, rings, done),
        rings.rx.bytes.len() <= rings.rx.slots,
        done.len() > watch_len(done) + 2 && number(done[watch_len(done)]) >= 8 ==> reply(
            done[watch_len(done) + 2],
        ).len() == 8,
    ensures
        ({
            let tick = state.run_tick(block, rings, done);
            let k = watch_len(done);
            let m = done.skip(k);
            let at = number(m[1]);
            let n = packet_size(reply(m[2]));
            let from = packet_sender(reply(m[2]));
            &&& tick.state == state
            &&& done.len() > k
            &&& reads(done[0], block, 0x0020, 1)
            &&& k == 2 ==> clears(done[1], block, 0x08)
            &&& reads(m[0], block, 0x0224, 2)
            &&& number(m[0]) >= 8 ==> {
                &&& m.len() >= 3
                &&& reads(m[1], block, 0x0228, 2)
                &&& m[2].request == read_request(Address { address: at, block: block.rx }, 8)
            }
            &&& fetches_payload(rings, m) ==> {
                &&& m.len() == 4
                &&& draws(m[3], block, further(at, 8), n as nat)
                &&& tick.rings == rings
                &&& tick.result == Ok::<BulkAction, Error>(
                    BulkAction::Started {
                        kind: BulkKind::ReceiveDatagram { src_ip: from.ip, src_port: from.port },
                        pointer: further(at, 8),
                        len: n as usize,
                    },
                )
            }
            &&& !fetches_payload(rings, m) ==> m.len() >= look_len(rings, m)
            &&& fits_now(rings, m) && n == 0 ==> acknowledges(block, m, at, 8)
            &&& never_fits(rings, m) ==> acknowledges(block, m, at, 8 + n)
            &&& !fits_now(rings, m) ==> tick.rings.rx == rings.rx
            &&& !(tick.result matches Ok(BulkAction::Started { kind: BulkKind::Receive, .. }))
            &&& tick.result matches Ok(
                BulkAction::Started { kind: BulkKind::ReceiveDatagram { .. }, .. },
            ) ==> fetches_payload(rings, m)
        }),
{
    let k = watch_len(done);
    let m = done.skip(k);
    lemma_interrupt_bits(octet(done[0]));
    if m.len() > 2 && number(m[0]) >= 8 {
        lemma_packet(reply(m[2]));
    }
    reveal(ahead);
}

/// What the header of a packet says.
proof fn lemma_packet(head: Seq<u8>)
    requires
        head.len() == 8,
    ensures
        packet_len(head) == packet_size(head),
        packet_peer(head) == packet_sender(head),
{
    let w = from_be16(head.subrange(0, 2));
    assert(w & 0x07FF == w % 2048) by (bit_vector);
    assert(w == head[0] * 256 + head[1]);
    assert(head.subrange(2, 6) =~= seq![head[2], head[3], head[4], head[5]]);
    assert(head.subrange(6, 8) =~= seq![head[6], head[7]]);
}

/// Whether the accesses `m` send the oldest of the datagrams `ds`, or start to, if the
/// chip has room for all of it: it goes to its peer, whole, and leaves the queue. A
/// datagram that the chip has no room for stays where it is.
pub open spec fn sends_oldest(
    block: BlockAddress,
    ds: Seq<Datagram>,
    m: Seq<Access>,
    before: RingState,
    after: RingState,
    result: Result<BulkAction, Error>,
) -> bool {
    let payload = ds[0].payload;
    &&& m.len() > 0
    &&& reads(m[0], block, 0x0204, 2)
    &&& number(m[0]) < payload.len() ==> {
        &&& m.len() == 1
        &&& after == before
        &&& result == Ok::<BulkAction, Error>(BulkAction::Nothing)
    }
    &&& number(m[0]) >= payload.len() ==> {
        &&& m.len() >= 4
        &&& writes32(m[1], block, 0x0120, ds[0].peer.ip)
        &&& writes16(m[2], block, 0x0140, ds[0].peer.port)
        &&& holds(after, ds.drop_first())
        &&& payload.len() == 0 ==> {
            &&& m.len() == 4
            &&& orders(m[3], block, 0x20)
            &&& result == Ok::<BulkAction, Error>(BulkAction::Nothing)
        }
        &&& payload.len() > 0 ==> {
            &&& m.len() == 5
            &&& reads(m[3], block, 0x020C, 2)
            &&& feeds(m[4], block, number(m[3]), payload)
            &&& result == Ok::<BulkAction, Error>(
                BulkAction::Started {
                    kind: BulkKind::Transmit,
                    pointer: number(m[3]),
                    len: payload.len() as usize,
                },
            )
        }
    }
}

/// An attempt to transmit sends the oldest datagram.
proof fn lemma_transmit_sends(
    block: BlockAddress,
    rings: RingsState,
    m: Seq<Access>,
    ds: Seq<Datagram>,
)
    requires
        carried_out(transmit_tick(block, rings, m).script, m),
        !failed(m),
        holds(rings.tx, ds),
        ds.len() > 0,
    ensures
        ({
            let tick = transmit_tick(block, rings, m);
            sends_oldest(block, ds, m, rings.tx, tick.rings.tx, tick.result)
        }),
        transmit_tick(block, rings, m).rings.rx == rings.rx,
{
    let tx = rings.tx;
    let d = ds[0];
    law_datagram_taken(tx, ds);
    let h = staged_header(tx);
    assert(h =~= tx.bytes.take(8));
    assert(h.subrange(0, 2) =~= tx.bytes.subrange(0, 2));
    assert(h.subrange(2, 6) =~= tx.bytes.subrange(2, 6));
    assert(h.subrange(6, 8) =~= tx.bytes.subrange(6, 8));
    let opened = tx.taken(8);
    assert(padded(opened.bytes, d.payload.len()) =~= d.payload);
    assert(opened.taken(d.payload.len() as int).bytes =~= tx.taken(
        (8 + d.payload.len()) as int,
    ).bytes);
    if number(m[0]) >= d.payload.len() {
        let rest = m.skip(1);
        assert(rest[0] == m[1] && rest[1] == m[2]);
        assert(d.payload.len() == 0 ==> rest[2] == m[3]);
        assert(d.payload.len() > 0 ==> rest[2] == m[3] && rest[3] == m[4]);
    }
}

/// On every tick of an open socket that does not start to fetch a payload, the oldest
/// staged datagram goes out if the chip has room for it, whatever the rx ring holds.
/// Without one, nothing more is asked.
#[verifier::rlimit(100)]
#[verifier::spinoff_prover]
pub proof fn law_staged_datagram_sent(
    state: UdpSocketState,
    block: BlockAddress,
    rings: RingsState,
    done: Seq<Access>,
    ds: Seq<Datagram>,
)
    requires
        state.status == SocketStatus::Established,
        !state.close_requested,
        ticked(state, block, rings, done),
        rings.rx.bytes.len() <= rings.rx.slots,
        done.len() > watch_len(done) + 2 && number(done[watch_len(done)]) >= 8 ==> reply(
            done[watch_len(done) + 2],
        ).len() == 8,
        holds(rings.tx, ds),
        !fetches_payload(rings, done.skip(watch_len(done))),
    ensures
        ({
            let tick = state.run_tick(block, rings, done);
            let m = done.skip(watch_len(done));
            let rest = m.skip(look_len(rings, m));
            &&& m.len() >= look_len(rings, m)
            &&& ds.len() > 0 ==> sends_oldest(
                block,
                ds,
                rest,
                rings.tx,
                tick.rings.tx,
                tick.result,
            )
            &&& ds.len() == 0 ==> {
                &&& rest.len() == 0
                &&& tick.rings.tx == rings.tx
                &&& tick.result == Ok::<BulkAction, Error>(BulkAction::Nothing)
            }
        }),
{
    let k = watch_len(done);
    let m = done.skip(k);
    lemma_interrupt_bits(octet(done[0]));
    if m.len() > 2 && number(m[0]) >= 8 {
        lemma_packet(reply(m[2]));
    }
    let rx = receive_tick(block, rings, m);
    let r = look_len(rings, m);
    assert(rx.script.len() == r);
    let rest = m.skip(r);
    let tx = transmit_tick(block, rx.rings, rest);
    let script = state.run_tick(block, rings, done).script;
    lemma_carried_out_rest(script, k + r, done);
    assert(done.skip(k + r) =~= rest);
    assert(script.skip(k + r) =~= tx.script);
    if ds.len() > 0 {
        lemma_transmit_sends(block, rx.rings, rest, ds);
    }
}

/// A packet without a payload joins the end of the queue as an empty datagram from its
/// sender, once it was looked at, also if it cannot be acknowledged; any other packet
/// leaves the queue as it is, until its payload has arrived.
#[verifier::rlimit(80)]
#[verifier::spinoff_prover]
pub proof fn law_empty_packet_queued(
    state: UdpSocketState,
    block: BlockAddress,
    rings: RingsState,
    done: Seq<Access>,
    ds: Seq<Datagram>,
)
    requires
        state.status == SocketStatus::Established,
        !state.close_requested,
        carried_out(state.run_tick(block, rings, done).script, done),
        rings.rx.bytes.len() <= rings.rx.slots,
        rings.rx.frames < usize::MAX,
        done.len() > watch_len(done) + 2 && number(done[watch_len(done)]) >= 8 ==> reply(
            done[watch_len(done) + 2],
        ).len() == 8,
        holds(rings.rx, ds),
    ensures
        ({
            let tick = state.run_tick(block, rings, done);
            let m = done.skip(watch_len(done));
            let head = reply(m[2]);
            if done.len() > watch_len(done) + 3 && fits_now(rings, m) && packet_size(head) == 0 {
                holds(
                    tick.rings.rx,
                    ds.push(Datagram { peer: packet_sender(head), payload: Seq::empty() }),
                )
            } else {
                tick.rings.rx == rings.rx
            }
        }),
{
    let m = done.skip(watch_len(done));
    lemma_tick_receives(state, block, rings, done);
    if done.len() > watch_len(done) {
        lemma_receive_queues(block, rings, m, ds);
    }
}

/// A tick does to the rx ring what its attempt to receive does.
#[verifier::rlimit(60)]
#[verifier::spinoff_prover]
proof fn lemma_tick_receives(
    state: UdpSocketState,
    block: BlockAddress,
    rings: RingsState,
    done: Seq<Access>,
)
    requires
        state.status == SocketStatus::Established,
        !state.close_requested,
        carried_out(state.run_tick(block, rings, done).script, done),
    ensures
        ({
            let m = done.skip(watch_len(done));
            let rx = receive_tick(block, rings, m);
            let after = state.run_tick(block, rings, done).rings.rx;
            &&& done.len() > watch_len(done) ==> after == rx.rings.rx
            &&& done.len() > watch_len(done) && !failed(m) ==> m.len() >= rx.script.len()
            &&& done.len() <= watch_len(done) ==> after == rings.rx
        }),
{
    lemma_interrupt_bits(octet(done[0]));
    if done.len() > watch_len(done) {
        assert(done.skip(watch_len(done)).last() == done.last());
    }
}

/// An attempt to receive queues an empty packet, once it was looked at.
proof fn lemma_receive_queues(
    block: BlockAddress,
    rings: RingsState,
    m: Seq<Access>,
    ds: Seq<Datagram>,
)
    requires
        m.len() > 0,
        rings.rx.bytes.len() <= rings.rx.slots,
        rings.rx.frames < usize::MAX,
        m.len() > 2 && number(m[0]) >= 8 ==> reply(m[2]).len() == 8,
        holds(rings.rx, ds),
        !failed(m) ==> m.len() >= receive_tick(block, rings, m).script.len(),
    ensures
        ({
            let after = receive_tick(block, rings, m).rings.rx;
            let head = reply(m[2]);
            if m.len() > 3 && fits_now(rings, m) && packet_size(head) == 0 {
                holds(
                    after,
                    ds.push(Datagram { peer: packet_sender(head), payload: Seq::empty() }),
                )
            } else {
                after == rings.rx
            }
        }),
{
    if m.len() > 2 && number(m[0]) >= 8 {
        let peer = packet_sender(reply(m[2]));
        lemma_packet(reply(m[2]));
        if fits_now(rings, m) && packet_size(reply(m[2])) == 0 {
            let d = Datagram { peer, payload: Seq::empty() };
            law_datagram_queued(rings.rx, ds, d);
            let header = frame_header_of(0, peer);
            assert(rings.rx.put(header).put(Seq::<u8>::empty()).bytes =~= rings.rx.put(
                header,
            ).bytes);
        }
    }
}

/// A staged datagram leaves the queue only to be sent: a tick that addresses nobody
/// leaves the tx ring as it is, also if an access fails.
#[verifier::rlimit(80)]
#[verifier::spinoff_prover]
pub proof fn law_unsent_datagrams_stay(
    state: UdpSocketState,
    block: BlockAddress,
    rings: RingsState,
    done: Seq<Access>,
)
    requires
        carried_out(state.run_tick(block, rings, done).script, done),
        forall|i: int, ip: u32|
            #![trigger writes32(done[i], block, 0x0120, ip)]
            0 <= i < done.len() ==> !writes32(done[i], block, 0x0120, ip),
    ensures
        state.run_tick(block, rings, done).rings.tx == rings.tx,
{
    let tick = state.run_tick(block, rings, done);
    let k = UdpSocketState::watch_script(block, done).len() as int;
    if tick.rings.tx != rings.tx {
        let m = done.skip(k);
        let rx = receive_tick(block, rings, m);
        let r = rx.script.len() as int;
        let rest = m.skip(r);
        let tx = transmit_tick(block, rx.rings, rest);
        let peer = frame_peer(staged_header(rings.tx));
        let i = k + r + 1;
        assert(rest[0] == done[k + r]);
        assert(tick.script.len() > i);
        if done.len() <= i {
            assert(failed(done));
            assert(rest.last() == done.last());
            assert(false);
        }
        assert(tick.script[i] == tx.script[1]);
        assert(writes32(done[i], block, 0x0120, peer.ip));
    }
}

/// Once the chip was told whom a datagram goes to, the datagram has left the queue, also
/// if an access fails: it is not sent twice.
#[verifier::rlimit(100)]
#[verifier::spinoff_prover]
pub proof fn law_addressed_datagram_leaves(
    state: UdpSocketState,
    block: BlockAddress,
    rings: RingsState,
    done: Seq<Access>,
    ds: Seq<Datagram>,
)
    requires
        state.status == SocketStatus::Established,
        !state.close_requested,
        carried_out(state.run_tick(block, rings, done).script, done),
        rings.rx.bytes.len() <= rings.rx.slots,
        number(done[watch_len(done)]) >= 8 ==> reply(done[watch_len(done) + 2]).len() == 8,
        holds(rings.tx, ds),
        done.len() > watch_len(done) + look_len(rings, done.skip(watch_len(done))) + 1,
    ensures
        ds.len() > 0,
        holds(state.run_tick(block, rings, done).rings.tx, ds.drop_first()),
        ({
            let k = watch_len(done) + look_len(rings, done.skip(watch_len(done)));
            &&& number(done[k]) >= ds[0].payload.len()
            &&& writes32(done[k + 1], block, 0x0120, ds[0].peer.ip)
        }),
{
    let k = watch_len(done);
    let m = done.skip(k);
    lemma_interrupt_bits(octet(done[0]));
    if number(m[0]) >= 8 {
        lemma_packet(reply(m[2]));
    }
    let rx = receive_tick(block, rings, m);
    let r = look_len(rings, m);
    assert(rx.script.len() == r);
    let rest = m.skip(r);
    let tx = transmit_tick(block, rx.rings, rest);
    let tick = state.run_tick(block, rings, done);
    assert(rest[0] == done[k + r] && rest[1] == done[k + r + 1]);
    assert(tick.script[k + r + 1] == tx.script[1]);
    law_datagram_taken(rings.tx, ds);
    let h = staged_header(rings.tx);
    assert(h =~= rings.tx.bytes.take(8));
    assert(h.subrange(0, 2) =~= rings.tx.bytes.subrange(0, 2));
    assert(h.subrange(2, 6) =~= rings.tx.bytes.subrange(2, 6));
    let n = ds[0].payload.len() as int;
    assert(rings.tx.taken(8).taken(n).bytes =~= rings.tx.taken(8 + n).bytes);
}

} // verus!
