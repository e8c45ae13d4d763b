//! What holds of a UDP socket whatever the chip answers.
use vstd::prelude::*;

use crate::access::{carried_out, failed, passed, reply, Access};
use crate::address::{start_write_request, Address, BlockAddress};
use crate::error::Error;
use crate::frame::{
    frame_header_of, has_room, holds, law_datagram_queued, law_datagram_taken, Datagram, SocketAddr,
    FRAME_HEADER,
};
use crate::socket::{ahead, BulkAction, BulkKind, RingsState, SocketStatus};
use crate::socket_common::{
    command, word, write16, write32, SocketCommand, SN_DIPR0, SN_DPORTR0, SN_RX_RD0,
};
use crate::transiver::padded;
use crate::udp_socket::{
    fetches, packet_len, packet_peer, receive_tick, staged_header, transmit_tick, verdict,
    UdpSocketState, PACKINFO, PACKINFO_LEN_MASK,
};

verus! {

/// A payload that is fetched is all there, and its whole frame fits the rx ring
/// at that time.
pub proof fn law_fetch_fits(block: BlockAddress, rings: RingsState, done: Seq<Access>)
    requires
        carried_out(receive_tick(block, rings, done).script, done),
    ensures
        match receive_tick(block, rings, done).result {
            Ok(BulkAction::Started { kind, pointer, len }) => {
                let head = reply(done[2]);
                &&& kind == BulkKind::ReceiveDatagram {
                    src_ip: packet_peer(head).ip,
                    src_port: packet_peer(head).port,
                }
                &&& len == packet_len(head)
                &&& 0 < len <= PACKINFO_LEN_MASK
                &&& PACKINFO + len <= word(done[0])
                &&& has_room(rings.rx, len as nat)
                &&& pointer == ahead(word(done[1]), PACKINFO as int)
            },
            _ => true,
        },
{
    let w = crate::bytes::from_be16(reply(done[2]).subrange(0, 2));
    assert(w & 0x07FF <= 0x07FF) by (bit_vector);
}

/// A datagram that has to wait is left on the chip as it is: the tick only looked.
pub proof fn law_waiting_datagram_stays(block: BlockAddress, rings: RingsState, done: Seq<Access>)
    requires
        carried_out(receive_tick(block, rings, done).script, done),
        passed(done, 3),
        word(done[0]) >= PACKINFO,
        verdict(word(done[0]), packet_len(reply(done[2])), rings.rx) is Wait,
    ensures
        done.len() == 3,
        receive_tick(block, rings, done).rings == rings,
        receive_tick(block, rings, done).result == Ok::<BulkAction, Error>(BulkAction::Nothing),
{
}

/// A datagram that can never be delivered does not block the ones behind it: the
/// chip's pointer is moved past all of it, and the rings stay as they are.
pub proof fn law_oversized_datagram_skipped(
    block: BlockAddress,
    rings: RingsState,
    done: Seq<Access>,
)
    requires
        carried_out(receive_tick(block, rings, done).script, done),
        !failed(done),
        passed(done, 3),
        word(done[0]) >= PACKINFO + packet_len(reply(done[2])),
        FRAME_HEADER + packet_len(reply(done[2])) > rings.rx.slots,
    ensures
        done.len() == 6,
        done[3].request == write16(
            block,
            SN_RX_RD0,
            ahead(word(done[1]), PACKINFO + packet_len(reply(done[2]))),
        ),
        done[4].request == command(block, SocketCommand::Receive),
        receive_tick(block, rings, done).rings == rings,
{
}

/// An empty datagram is queued like any other.
pub proof fn law_empty_datagram_queued(
    block: BlockAddress,
    rings: RingsState,
    done: Seq<Access>,
    ds: Seq<Datagram>,
)
    requires
        carried_out(receive_tick(block, rings, done).script, done),
        passed(done, 3),
        word(done[0]) >= PACKINFO,
        verdict(word(done[0]), packet_len(reply(done[2])), rings.rx) is Empty,
        holds(rings.rx, ds),
        rings.rx.frames < usize::MAX,
    ensures
        holds(
            receive_tick(block, rings, done).rings.rx,
            ds.push(Datagram { peer: packet_peer(reply(done[2])), payload: Seq::empty() }),
        ),
{
    let peer = packet_peer(reply(done[2]));
    let d = Datagram { peer, payload: Seq::empty() };
    law_datagram_queued(rings.rx, ds, d);
    let header = frame_header_of(0, peer);
    assert(rings.rx.put(header).put(Seq::<u8>::empty()).bytes =~= rings.rx.put(header).bytes);
}

/// A datagram that the chip has room for goes to its peer, whole: the oldest
/// datagram leaves the tx ring, and the rest of the queue stays. What fails on the
/// way costs that datagram alone.
pub proof fn law_datagram_transmitted(
    block: BlockAddress,
    rings: RingsState,
    done: Seq<Access>,
    ds: Seq<Datagram>,
)
    requires
        carried_out(transmit_tick(block, rings, done).script, done),
        passed(done, 1),
        holds(rings.tx, ds),
        ds.len() > 0,
        word(done[0]) >= ds[0].payload.len(),
    ensures
        holds(transmit_tick(block, rings, done).rings.tx, ds.drop_first()),
        done.len() > 1 ==> done[1].request == write32(block, SN_DIPR0, ds[0].peer.ip),
        done.len() > 2 ==> done[2].request == write16(block, SN_DPORTR0, ds[0].peer.port),
        ds[0].payload.len() == 0 ==> {
            &&& done.len() > 3 ==> done[3].request == command(block, SocketCommand::Send)
            &&& !failed(done) ==> done.len() == 4
        },
        ds[0].payload.len() > 0 ==> {
            &&& done.len() > 4 ==> done[4].request == start_write_request(
                Address { address: word(done[3]), block: block.tx },
                ds[0].payload,
            )
            &&& !failed(done) ==> done.len() == 5
        },
{
    let tx = rings.tx;
    let d = ds[0];
    law_datagram_taken(tx, ds);
    let h = staged_header(tx);
    assert(h =~= tx.bytes.take(8));
    assert(h.subrange(0, 2) =~= tx.bytes.subrange(0, 2));
    assert(h.subrange(2, 6) =~= tx.bytes.subrange(2, 6));
    assert(h.subrange(6, 8) =~= tx.bytes.subrange(6, 8));
    let opened = tx.taken(FRAME_HEADER as int);
    assert(padded(opened.bytes, d.payload.len()) =~= d.payload);
    assert(opened.taken(d.payload.len() as int).bytes =~= tx.taken(
        FRAME_HEADER + d.payload.len(),
    ).bytes);
}

/// A tick never tears the queue of staged datagrams, wherever it fails: it leaves
/// it alone, or takes the oldest datagram out of it.
pub proof fn law_staged_queue_kept(
    state: UdpSocketState,
    block: BlockAddress,
    rings: RingsState,
    done: Seq<Access>,
    ds: Seq<Datagram>,
)
    requires
        carried_out(state.run_tick(block, rings, done).script, done),
        holds(rings.tx, ds),
    ensures
        state.run_tick(block, rings, done).rings.tx == rings.tx || (ds.len() > 0 && holds(
            state.run_tick(block, rings, done).rings.tx,
            ds.drop_first(),
        )),
{
    if !state.close_requested && state.status == SocketStatus::Established {
        let asked = UdpSocketState::watch_script(block, done);
        let k = asked.len() as int;
        if passed(done, asked.len()) {
            let rest = done.skip(k);
            let rx = receive_tick(block, rings, rest);
            let m = rx.script.len() as int;
            if passed(rest, rx.script.len()) && !fetches(rings, rest) {
                lemma_transmit_kept(block, rx.rings, rest.skip(m), ds);
            }
        }
    }
}

/// An attempt to transmit leaves the queue alone, or takes the oldest datagram out
/// of it.
proof fn lemma_transmit_kept(
    block: BlockAddress,
    rings: RingsState,
    done: Seq<Access>,
    ds: Seq<Datagram>,
)
    requires
        holds(rings.tx, ds),
    ensures
        transmit_tick(block, rings, done).rings.tx == rings.tx || (ds.len() > 0 && holds(
            transmit_tick(block, rings, done).rings.tx,
            ds.drop_first(),
        )),
{
    if ds.len() > 0 {
        let tx = rings.tx;
        law_datagram_taken(tx, ds);
        let h = staged_header(tx);
        assert(h.subrange(0, 2) =~= tx.bytes.subrange(0, 2));
        let opened = tx.taken(FRAME_HEADER as int);
        assert(opened.taken(ds[0].payload.len() as int).bytes =~= tx.taken(
            FRAME_HEADER + ds[0].payload.len(),
        ).bytes);
    }
}

/// A datagram that the chip has no room for stays queued.
pub proof fn law_datagram_waits_for_room(
    block: BlockAddress,
    rings: RingsState,
    done: Seq<Access>,
    ds: Seq<Datagram>,
)
    requires
        carried_out(transmit_tick(block, rings, done).script, done),
        passed(done, 1),
        holds(rings.tx, ds),
        ds.len() > 0,
        word(done[0]) < ds[0].payload.len(),
    ensures
        transmit_tick(block, rings, done).rings == rings,
        transmit_tick(block, rings, done).result == Ok::<BulkAction, Error>(BulkAction::Nothing),
        done.len() == 1,
{
    law_datagram_taken(rings.tx, ds);
    let h = staged_header(rings.tx);
    assert(h.subrange(0, 2) =~= rings.tx.bytes.subrange(0, 2));
}

/// A tick never tears the queue of received datagrams: it leaves it alone, or puts
/// one empty datagram behind it.
pub proof fn law_received_queue_kept(
    state: UdpSocketState,
    block: BlockAddress,
    rings: RingsState,
    done: Seq<Access>,
    ds: Seq<Datagram>,
)
    requires
        carried_out(state.run_tick(block, rings, done).script, done),
        holds(rings.rx, ds),
        rings.rx.frames < usize::MAX,
        rings.rx.free() >= 0,
    ensures
        state.run_tick(block, rings, done).rings.rx == rings.rx || exists|peer: SocketAddr|
            holds(
                state.run_tick(block, rings, done).rings.rx,
                #[trigger] ds.push(Datagram { peer, payload: Seq::empty() }),
            ),
{
    if !state.close_requested && state.status == SocketStatus::Established {
        let asked = UdpSocketState::watch_script(block, done);
        let k = asked.len() as int;
        if passed(done, asked.len()) {
            let rest = done.skip(k);
            let rx = receive_tick(block, rings, rest);
            if rx.rings.rx != rings.rx {
                let peer = packet_peer(reply(rest[2]));
                let d = Datagram { peer, payload: Seq::empty() };
                law_datagram_queued(rings.rx, ds, d);
                let header = frame_header_of(0, peer);
                assert(rings.rx.put(header).put(Seq::<u8>::empty()).bytes =~= rings.rx.put(
                    header,
                ).bytes);
                assert(holds(rx.rings.rx, ds.push(d)));
            }
        }
    }
}

/// A close request is always heard, and if no access fails, a socket that is not
/// closed yet is closing afterwards.
pub proof fn law_close_lands(
    state: UdpSocketState,
    block: BlockAddress,
    rings: RingsState,
    done: Seq<Access>,
)
    requires
        state.close_requested,
        carried_out(state.run_tick(block, rings, done).script, done),
    ensures
        !state.run_tick(block, rings, done).state.close_requested,
        state.run_tick(block, rings, done).rings == rings,
        !failed(done) && !state.is_over() && !state.is_closing() ==> {
            &&& state.run_tick(block, rings, done).state.status == SocketStatus::Closing
            &&& done.last().request == command(block, SocketCommand::Close)
        },
{
}

/// A tick never fails: it either ends well or would have to wait. An error is
/// kept, and from then on the socket shows it, until it is armed again.
pub proof fn law_error_shows(
    state: UdpSocketState,
    block: BlockAddress,
    rings: RingsState,
    done: Seq<Access>,
)
    ensures
        state.run_tick(block, rings, done).result is Ok || state.run_tick(
            block,
            rings,
            done,
        ).result == Err::<BulkAction, Error>(Error::WouldBlock),
        match state.handler_tick(block, rings, done).result {
            Err(Error::Other(e)) => {
                &&& state.run_tick(block, rings, done).state.pending_error == Some(Error::Other(e))
                &&& state.run_tick(block, rings, done).state.shown() == SocketStatus::Error
            },
            _ => state.run_tick(block, rings, done).state.pending_error == state.pending_error,
        },
        state.pending_error is Some ==> state.run_tick(block, rings, done).state.shown()
            == SocketStatus::Error,
        state.rearmed().shown() == SocketStatus::Init,
{
}

/// The port of a socket never changes, and it never enters a state that only a
/// connection can be in.
pub proof fn law_bound_state(
    state: UdpSocketState,
    block: BlockAddress,
    rings: RingsState,
    done: Seq<Access>,
)
    requires
        state.status != SocketStatus::Connecting,
        state.status != SocketStatus::Listening,
    ensures
        state.run_tick(block, rings, done).state.src_port == state.src_port,
        state.run_tick(block, rings, done).state.status != SocketStatus::Connecting,
        state.run_tick(block, rings, done).state.status != SocketStatus::Listening,
{
}

} // verus!
