//! What holds of the chip's driver as a whole, whatever the chip answers.
use vstd::prelude::*;

use crate::access::{carried_out, Access};
use crate::error::Error;
use crate::frame::{holds, law_datagram_queued, Datagram, SocketAddr};
use crate::socket::{BackendState, RingsState, SocketBackend};
use crate::socket_common::byte;
use crate::tcp_socket::reconnected as tcp_reconnected;
use crate::udp_socket::reconnected as udp_reconnected;
use crate::w6100::{
    claimed, delivered, first_claimable, joined, landed, network_script, phy_up, ran, reset_result,
    reset_script, reset_slots, resets_script, round, serviced, slot_tick, socket_block, started_by,
    BulkOp, ChipState, NetworkConfig, Serviced, SlotState,
};

verus! {

/// Every socket has blocks of its own.
pub proof fn law_blocks_distinct(i: int, j: int)
    requires
        0 <= i < j < 8,
    ensures
        socket_block(i).reg != socket_block(j).reg,
        socket_block(i).tx != socket_block(j).tx,
        socket_block(i).rx != socket_block(j).rx,
{
}

/// The search for a claimable socket skips those that are not.
proof fn lemma_claimable_behind(slots: Seq<SlotState>, from: int, n: int)
    requires
        0 <= from <= n < slots.len(),
        forall|j: int| from <= j <= n ==> !(#[trigger] slots[j]).claimable(),
    ensures
        first_claimable(slots, from) > n,
    decreases n - from,
{
    assert(!slots[from].claimable());
    if from < n {
        lemma_claimable_behind(slots, from + 1, n);
    } else {
        lemma_claimable_bounds(slots, from + 1);
    }
}

/// The search for a claimable socket goes forward.
proof fn lemma_claimable_bounds(slots: Seq<SlotState>, from: int)
    requires
        0 <= from <= slots.len(),
    ensures
        from <= first_claimable(slots, from) <= slots.len(),
        forall|j: int| from <= j < first_claimable(slots, from) ==> !(#[trigger] slots[j]).claimable(),
    decreases slots.len() - from,
{
    if from < slots.len() && !slots[from].claimable() {
        lemma_claimable_bounds(slots, from + 1);
    }
}

/// No socket is handed out twice: one that was claimed is not claimable until it
/// is given back, and all others stay as they are.
pub proof fn law_claim_exclusive(chip: ChipState, state: BackendState, rx: nat, tx: nat)
    requires
        !(state is Free),
        first_claimable(chip.sockets, 0) < chip.sockets.len(),
    ensures
        ({
            let n = first_claimable(chip.sockets, 0);
            let after = claimed(chip, state, rx, tx);
            &&& first_claimable(after.sockets, 0) > n
            &&& forall|j: int|
                0 <= j < chip.sockets.len() && j != n ==> #[trigger] after.sockets[j]
                    == chip.sockets[j]
        }),
{
    let n = first_claimable(chip.sockets, 0);
    let after = claimed(chip, state, rx, tx);
    lemma_claimable_bounds(chip.sockets, 0);
    assert forall|j: int| 0 <= j <= n implies !(#[trigger] after.sockets[j]).claimable() by {
        if j < n {
            assert(!chip.sockets[j].claimable());
        }
    }
    lemma_claimable_behind(after.sockets, 0, n);
}

/// While a bulk transfer is on its way, a background step does not touch the bus
/// and changes nothing.
pub proof fn law_service_defers(
    before: ChipState,
    done: Seq<Access>,
    after: ChipState,
    r: Result<Serviced, Error>,
)
    requires
        serviced(before, done, after, r),
        before.bulk is Some,
    ensures
        done.len() == 0,
        after == before,
        r == Ok::<Serviced, Error>(Serviced::Done),
{
}

/// A round leaves no socket out: unless it starts a bulk transfer, every socket that
/// is not held elsewhere has its tick.
pub proof fn law_round_complete(before: ChipState, done: Seq<Access>, after: ChipState)
    requires
        ran(before, done, after),
        before.bulk is None,
        after.bulk is None,
    ensures
        exists|parts: Seq<Seq<Access>>|
            #![trigger joined(parts)]
            {
                &&& done == joined(parts)
                &&& parts.len() == before.sockets.len()
                &&& forall|i: int|
                    0 <= i < parts.len() ==> {
                        let tick = slot_tick(before.sockets[i], #[trigger] parts[i]);
                        carried_out(tick.script, parts[i]) && after.sockets[i] == tick.state
                    }
            },
{
    let parts = choose|parts: Seq<Seq<Access>>|
        {
            &&& done == joined(parts)
            &&& #[trigger] round(before.sockets, parts, after.sockets)
            &&& after == before.with_slots(after.sockets).with_bulk(
                match started_by(before.sockets, parts) {
                    Some(bulk) => Some(bulk),
                    None => before.bulk,
                },
            )
        };
    assert(parts.len() == before.sockets.len());
}

/// A loss of the link is reported once: by the first step that sees it, which
/// does nothing else. Later steps only look for the link to come back.
pub proof fn law_link_loss_reported_once(
    before: ChipState,
    done: Seq<Access>,
    after: ChipState,
    r: Result<Serviced, Error>,
    done2: Seq<Access>,
    after2: ChipState,
    r2: Result<Serviced, Error>,
)
    requires
        before.bulk is None,
        before.link_up,
        serviced(before, done, after, r),
        done[0].outcome is Ok,
        !phy_up(byte(done[0])),
        serviced(after, done2, after2, r2),
        done2[0].outcome is Ok,
        !phy_up(byte(done2[0])),
    ensures
        r == Ok::<Serviced, Error>(Serviced::LinkLost),
        after == (ChipState { link_up: false, ..before }),
        r2 == Ok::<Serviced, Error>(Serviced::Done),
        after2 == after,
        done.len() == 1,
        done2.len() == 1,
{
}

/// Settings that are pending are applied by the first step that sees a link and
/// gets through, and only once.
#[verifier::rlimit(30)]
#[verifier::spinoff_prover]
pub proof fn law_config_applied(
    before: ChipState,
    done: Seq<Access>,
    after: ChipState,
    r: Result<Serviced, Error>,
    config: NetworkConfig,
)
    requires
        before.bulk is None,
        before.config == Some(config),
        before.config_dirty,
        serviced(before, done, after, r),
        done[0].outcome is Ok,
        phy_up(byte(done[0])),
    ensures
        after.config == Some(config),
        after.link_up,
        r is Ok ==> {
            &&& !after.config_dirty
            &&& carried_out(
                network_script(before.mac, config.ip, config.gateway, config.subnet),
                done.skip(1).take(6),
            )
        },
        r is Err ==> after.config_dirty,
{
}

/// After a reset that succeeded, every socket in use will be opened again, and
/// every one whose handle was given back is free.
pub proof fn law_reset_rearms(slots: Seq<SlotState>, done: Seq<Access>, j: int)
    requires
        carried_out(reset_script(slots, done), done),
        reset_result(slots, done) is Ok,
        0 <= j < slots.len(),
    ensures
        reset_slots(slots, done, 5)[j] == slots[j].with(slots[j].backend.after_reset()),
        slots[j].backend.release_requested ==> reset_slots(slots, done, 5)[j].backend.state is Free,
        !slots[j].backend.release_requested ==> match slots[j].backend.state {
            BackendState::Free => reset_slots(slots, done, 5)[j].backend.state is Free,
            BackendState::Tcp(tcp) => reset_slots(slots, done, 5)[j].backend.state
                == BackendState::Tcp(tcp.rearmed()),
            BackendState::Udp(udp) => reset_slots(slots, done, 5)[j].backend.state
                == BackendState::Udp(udp.rearmed()),
        },
{
    reveal(resets_script);
}

/// A socket whose handle was given back comes free as soon as its protocol has
/// come to its end, and keeps its blocks.
pub proof fn law_released_socket_comes_free(
    backend: SocketBackend,
    rings: RingsState,
    done: Seq<Access>,
)
    ensures
        backend.after_release().release_requested,
        backend.run_tick(rings, done).state.block == backend.block,
        backend.release_requested && backend.run_tick(rings, done).state.is_over()
            ==> backend.run_tick(rings, done).state.state is Free,
        !backend.release_requested && !(backend.state is Free) ==> !(backend.run_tick(
            rings,
            done,
        ).state.state is Free),
{
}

/// A datagram that was fetched joins the end of the queue, whole and with its
/// sender, if there is still room for it and the socket was not re-armed since.
pub proof fn law_fetched_datagram_queued(
    bulk: BulkOp,
    rings: RingsState,
    window: Seq<u8>,
    ds: Seq<Datagram>,
)
    requires
        bulk.kind is ReceiveDatagram,
        !bulk.stale,
        holds(rings.rx, ds),
        crate::frame::has_room(rings.rx, window.len()),
        rings.rx.frames < usize::MAX,
    ensures
        holds(
            delivered(bulk, rings, window).rx,
            ds.push(
                Datagram {
                    peer: SocketAddr { ip: bulk.kind->src_ip, port: bulk.kind->src_port },
                    payload: window,
                },
            ),
        ),
{
    law_datagram_queued(
        rings.rx,
        ds,
        Datagram {
            peer: SocketAddr { ip: bulk.kind->src_ip, port: bulk.kind->src_port },
            payload: window,
        },
    );
}

/// A session starts with empty rings: what a transfer of the session before still
/// brings in after the socket was re-armed does not get into them.
pub proof fn law_rearmed_starts_clean(chip: ChipState, i: int, window: Seq<u8>)
    requires
        0 <= i < chip.sockets.len(),
        chip.bulk matches Some(bulk) && bulk.socket == i,
    ensures
        chip.sockets[i].backend.state is Tcp ==> {
            let armed = tcp_reconnected(chip, i);
            &&& armed.bulk is Some
            &&& landed(armed, armed.bulk->0, window).sockets[i] == armed.sockets[i]
            &&& armed.sockets[i].rings.rx.bytes.len() == 0
            &&& armed.sockets[i].rings.tx.bytes.len() == 0
        },
        chip.sockets[i].backend.state is Udp ==> {
            let armed = udp_reconnected(chip, i);
            &&& armed.bulk is Some
            &&& landed(armed, armed.bulk->0, window).sockets[i] == armed.sockets[i]
            &&& armed.sockets[i].rings.rx.bytes.len() == 0
            &&& armed.sockets[i].rings.tx.bytes.len() == 0
        },
{
}

/// The end of a transfer touches no protocol state, and no rings but those of the
/// socket that started it.
pub proof fn law_landing_leaves_protocols(chip: ChipState, bulk: BulkOp, window: Seq<u8>, j: int)
    requires
        bulk.socket < chip.sockets.len(),
        0 <= j < chip.sockets.len(),
    ensures
        landed(chip, bulk, window).bulk is None,
        landed(chip, bulk, window).sockets[j].backend == chip.sockets[j].backend,
        j != bulk.socket ==> landed(chip, bulk, window).sockets[j] == chip.sockets[j],
{
}

} // verus!
