//! What goes through the driver and the chip together: a peer that talks to an
//! echo service gets back what it sent.
use vstd::prelude::*;

use crate::access::{carried_out, failed, passed, Access, Request, HEADER};
use crate::address::{block_code, law_header_fields, read_request, write_request, BlockAddress};
use crate::bytes::{be16, law_be16_round_trip};
use crate::echo::{law_echo_lossless, moved, outstanding};
use crate::error::Error;
use crate::own_blocks::{law_own_blocks, speaks_to};
use crate::socket::{ahead, BackendState, BulkAction, BulkKind, RingsState, SocketStatus};
use crate::socket_common::{
    byte, clear, command, command_code, read16, read8, reg, reports, status_register, word, write16,
    SocketCommand, SocketStatusRegister, IR_DISCON, IR_RECV, IR_TIMEOUT, SN_CR, SN_IR, SN_IRCLR,
    SN_RX_RD0, SN_RX_RSR0, SN_SR, SN_TX_FSR0, SN_TX_WR0,
};
use crate::spi_dma::SpiDmaDevice;
use crate::tcp_socket::{move_tick, receive_len, transmit_len, transmit_tick, TcpSocketState};
use crate::tcp_stream::lemma_carried_out_rest;
use crate::w6100::{
    commit_script, common, completed, joined, landed, linked, network_script, pending_config,
    phy_up, ran, round, serviced, slot_tick, socket_block, started_by, BulkOp, ChipState,
    NetworkConfig, Serviced, SlotState, W6100,
};
use crate::wire::{lemma_distance, Wire};

verus! {

/// Whether a connection stands and nobody wants it to end.
pub open spec fn stands(tcp: TcpSocketState) -> bool {
    &&& tcp.status == SocketStatus::Established
    &&& !tcp.close_requested
    &&& tcp.pending_error is None
}

/// Whether the chip's pointers are at rest: what was read is acknowledged, and what
/// was handed over is sent.
pub open spec fn at_rest(wire: Wire) -> bool {
    &&& wire.rx_pointer == wire.rx_at
    &&& wire.tx_pointer == wire.tx_at
    &&& wire.waiting.len() < 0x1_0000
}

/// What moving data over a chip at rest comes to.
pub open spec fn moves(
    wire: Wire,
    rings: RingsState,
    done: Seq<Access>,
    after: Wire,
    result: Result<BulkAction, Error>,
    left: RingsState,
) -> bool {
    match result {
        Ok(BulkAction::Started { kind: BulkKind::Receive, pointer, len }) => {
            &&& pointer == wire.rx_at
            &&& len <= wire.waiting.len()
            &&& len <= rings.rx.free()
            &&& done.len() > 0
            &&& done.last().events[0]->Transfer_miso.skip(HEADER as int) == wire.waiting.take(
                len as int,
            )
            &&& after == wire
            &&& left == rings
        },
        Ok(BulkAction::Started { kind: BulkKind::Transmit, pointer, len }) => {
            &&& pointer == wire.tx_at
            &&& len < 0x1_0000
            &&& len <= rings.tx.bytes.len()
            &&& done.len() > 0
            &&& after == (Wire { memory: after.memory, ..wire })
            &&& after.staged(wire.tx_at, len as nat) == rings.tx.bytes.take(len as int)
            &&& left == (RingsState { tx: rings.tx.taken(len as int), ..rings })
        },
        Ok(BulkAction::Nothing) => after == wire && left == rings,
        _ => false,
    }
}

/// Accesses that were all answered succeeded, so all of the script was carried out.
proof fn lemma_all_done(wire: Wire, block: BlockAddress, script: Seq<Request>, done: Seq<Access>)
    requires
        carried_out(script, done),
        wire.answered(block, done),
    ensures
        !failed(done),
        done.len() == script.len(),
        forall|k: int| 0 <= k < done.len() ==> (#[trigger] done[k]).outcome is Ok,
        forall|n: nat| n <= done.len() ==> passed(done, n),
{
    reveal(Wire::answered);
    assert forall|k: int| 0 <= k < done.len() implies (#[trigger] done[k]).outcome is Ok by {
        assert(wire.after_all(block, done.take(k)).answers(block, done[k]));
    }
}

/// The first access is answered out of the state that the chip is in.
proof fn lemma_first_answer(wire: Wire, block: BlockAddress, done: Seq<Access>)
    requires
        wire.answered(block, done),
        done.len() > 0,
    ensures
        wire.answers(block, done[0]),
{
    reveal(Wire::answered);
    assert(done.take(0).len() == 0);
    assert(wire.after_all(block, done.take(0)) == wire);
}

/// Moving data, over a chip at rest.
proof fn lemma_move(wire: Wire, block: BlockAddress, rings: RingsState, done: Seq<Access>)
    requires
        block.reg != block.tx,
        block.reg != block.rx,
        at_rest(wire),
        carried_out(move_tick(block, rings, done).script, done),
        wire.answered(block, done),
    ensures
        ({
            let tick = move_tick(block, rings, done);
            moves(wire, rings, done, wire.after_all(block, done), tick.result, tick.rings)
        }),
{
    let tick = move_tick(block, rings, done);
    lemma_all_done(wire, block, tick.script, done);
    assert(done[0].request == read16(block, SN_RX_RSR0));
    lemma_first_answer(wire, block, done);
    wire.lemma_read(block, SN_RX_RSR0, 2);
    wire.lemma_read(block, SN_RX_RD0, 2);
    wire.lemma_read(block, SN_TX_FSR0, 2);
    wire.lemma_read(block, SN_TX_WR0, 2);
    if receive_len(rings, done) > 0 {
        let n = receive_len(rings, done);
        assert(done.len() == 3);
        wire.lemma_captured(block, word(done[1]), n as nat);
        wire.lemma_quiet(block, done);
        wire.lemma_received(n as nat);
    } else {
        lemma_transmit(wire, block, rings, done);
    }
}

/// Transmitting, over a chip at rest.
proof fn lemma_transmit(wire: Wire, block: BlockAddress, rings: RingsState, done: Seq<Access>)
    requires
        block.reg != block.tx,
        at_rest(wire),
        carried_out(move_tick(block, rings, done).script, done),
        wire.answered(block, done),
        receive_len(rings, done) <= 0,
    ensures
        ({
            let tick = move_tick(block, rings, done);
            moves(wire, rings, done, wire.after_all(block, done), tick.result, tick.rings)
        }),
{
    let tick = move_tick(block, rings, done);
    let rest = done.skip(1);
    let n = transmit_len(rings, rest);
    lemma_all_done(wire, block, tick.script, done);
    wire.lemma_read(block, SN_RX_RSR0, 2);
    wire.lemma_read(block, SN_TX_FSR0, 2);
    wire.lemma_read(block, SN_TX_WR0, 2);
    assert(tick.script == seq![read16(block, SN_RX_RSR0)] + transmit_tick(block, rings, rest).script);
    if rings.tx.bytes.len() == 0 || n <= 0 {
        wire.lemma_quiet(block, done);
    } else {
        assert(done.len() == 4);
        let front = done.take(3);
        let pointer = word(done[2]);
        let data = rings.tx.bytes.take(n);
        assert(front[0] == done[0] && front[1] == done[1] && front[2] == done[2]);
        wire.lemma_parts(block, done, 3);
        wire.lemma_quiet(block, front);
        assert(wire.answers(block, front[2]));
        wire.lemma_stored(block, pointer, data);
        assert(done.drop_last() =~= front);
    }
}

/// What a tick of a connection that stands asks first changes nothing and tells
/// that it stands.
#[verifier::rlimit(40)]
#[verifier::spinoff_prover]
proof fn lemma_watch(wire: Wire, block: BlockAddress, done: Seq<Access>)
    requires
        block.reg != block.tx,
        wire.answered(block, done),
        done.len() > 0,
        done[0].request == read8(block, SN_IR),
        ({
            let asked = TcpSocketState::watch_script(block, done);
            !reports(byte(done[0]), IR_TIMEOUT) ==> {
                &&& done.len() >= asked.len()
                &&& forall|j: int| 0 <= j < asked.len() ==> (#[trigger] done[j]).request == asked[j]
            }
        }),
    ensures
        ({
            let k = TcpSocketState::watch_script(block, done).len() as int;
            &&& !reports(byte(done[0]), IR_TIMEOUT)
            &&& status_register(byte(done[k - 1])) == SocketStatusRegister::Established
            &&& wire.after_all(block, done) == wire.after_all(block, done.skip(k))
            &&& wire.answered(block, done.skip(k))
        }),
{
    let asked = TcpSocketState::watch_script(block, done);
    let k = asked.len() as int;
    lemma_first_answer(wire, block, done);
    wire.lemma_read(block, SN_IR, 1);
    wire.lemma_read(block, SN_SR, 1);
    wire.lemma_told(block, SN_IRCLR, seq![IR_DISCON]);
    assert(!reports(byte(done[0]), IR_TIMEOUT));
    let front = done.take(k);
    assert forall|j: int| 0 <= j < front.len() implies wire.after(
        block,
        (#[trigger] front[j]).request,
    ) == wire by {
        assert(front[j] == done[j]);
        assert(front[j].request == asked[j]);
    }
    wire.lemma_parts(block, done, k);
    wire.lemma_quiet(block, front);
    assert(wire.answers(block, front[k - 1]));
    assert(front[k - 1] == done[k - 1]);
}

/// A tick of a connection starts with asking for the interrupts, and if there was no
/// timeout, with looking how it stands.
proof fn lemma_tick_front(
    tcp: TcpSocketState,
    block: BlockAddress,
    rings: RingsState,
    done: Seq<Access>,
)
    requires
        carried_out(tcp.established_tick(block, rings, done).script, done),
        !failed(done),
    ensures
        done.len() > 0,
        done[0].request == read8(block, SN_IR),
        ({
            let asked = TcpSocketState::watch_script(block, done);
            !reports(byte(done[0]), IR_TIMEOUT) ==> {
                &&& done.len() >= asked.len()
                &&& forall|j: int| 0 <= j < asked.len() ==> (#[trigger] done[j]).request == asked[j]
            }
        }),
{
    let asked = TcpSocketState::watch_script(block, done);
    let script = tcp.established_tick(block, rings, done).script;
    assert(script[0] == read8(block, SN_IR));
    if !reports(byte(done[0]), IR_TIMEOUT) {
        assert(script.take(asked.len() as int) =~= asked);
        assert forall|j: int| 0 <= j < asked.len() implies (#[trigger] done[j]).request
            == asked[j] by {
            assert(script.take(asked.len() as int)[j] == script[j]);
        }
    }
}

/// A tick of a connection that stands, over a chip at rest: it goes on standing.
proof fn lemma_tick(
    tcp: TcpSocketState,
    wire: Wire,
    block: BlockAddress,
    rings: RingsState,
    done: Seq<Access>,
)
    requires
        block.reg != block.tx,
        block.reg != block.rx,
        stands(tcp),
        at_rest(wire),
        carried_out(tcp.run_tick(block, rings, done).script, done),
        wire.answered(block, done),
    ensures
        ({
            let tick = tcp.run_tick(block, rings, done);
            &&& tick.state == tcp
            &&& moves(wire, rings, done, wire.after_all(block, done), tick.result, tick.rings)
        }),
{
    let tick = tcp.established_tick(block, rings, done);
    let asked = TcpSocketState::watch_script(block, done);
    let k = asked.len() as int;
    lemma_all_done(wire, block, tick.script, done);
    lemma_tick_front(tcp, block, rings, done);
    lemma_watch(wire, block, done);
    let rest = done.skip(k);
    lemma_carried_out_rest(tick.script, k, done);
    assert(tick.script.skip(k) =~= move_tick(block, rings, rest).script);
    lemma_move(wire, block, rings, rest);
    if rest.len() > 0 {
        assert(rest.last() == done.last());
    }
}

/// The codes of the blocks of socket `i`.
proof fn lemma_codes(i: int)
    requires
        0 <= i < 8,
    ensures
        block_code(socket_block(i).reg) == 4 * i + 1,
        block_code(socket_block(i).tx) == 4 * i + 2,
        block_code(socket_block(i).rx) == 4 * i + 3,
        socket_block(i).reg != socket_block(i).tx,
        socket_block(i).reg != socket_block(i).rx,
{
}

/// What speaks to the blocks of one socket does not speak to those of another.
proof fn lemma_other_socket(i: int, j: int, request: Request)
    requires
        0 <= i < 8,
        0 <= j < 8,
        i != j,
        speaks_to(socket_block(j), request),
    ensures
        !speaks_to(socket_block(i), request),
{
    lemma_codes(i);
    lemma_codes(j);
}

/// Whether the accesses `done` do not speak to the blocks of socket `i`.
pub open spec fn elsewhere(i: int, done: Seq<Access>) -> bool {
    forall|k: int|
        0 <= k < done.len() ==> !speaks_to(socket_block(i), (#[trigger] done[k]).request)
}

/// Accesses that do not speak to a socket change nothing for it.
proof fn lemma_elsewhere(i: int, wire: Wire, done: Seq<Access>)
    requires
        elsewhere(i, done),
    ensures
        wire.after_all(socket_block(i), done) == wire,
{
    assert forall|k: int| 0 <= k < done.len() implies wire.after(
        socket_block(i),
        (#[trigger] done[k]).request,
    ) == wire by {
        wire.lemma_elsewhere(socket_block(i), done[k].request);
    }
    wire.lemma_quiet(socket_block(i), done);
}

/// A tick of another socket does not speak to this one.
proof fn lemma_other_tick(i: int, j: int, slot: SlotState, done: Seq<Access>)
    requires
        0 <= i < 8,
        0 <= j < 8,
        i != j,
        slot.backend.block == socket_block(j),
        carried_out(slot_tick(slot, done).script, done),
    ensures
        elsewhere(i, done),
        slot_tick(slot, done).state.backend.block == socket_block(j),
{
    if !slot.busy {
        law_own_blocks(slot.backend, slot.rings, done);
        let script = slot.backend.run_tick(slot.rings, done).script;
        assert forall|k: int| 0 <= k < done.len() implies !speaks_to(
            socket_block(i),
            (#[trigger] done[k]).request,
        ) by {
            assert(speaks_to(socket_block(j), script[k]));
            lemma_other_socket(i, j, script[k]);
        }
    }
}

/// What a round does to a socket's end on the chip is what that socket's own tick
/// does.
proof fn lemma_joined(i: int, wire: Wire, parts: Seq<Seq<Access>>)
    requires
        0 <= i < 8,
        wire.answered(socket_block(i), joined(parts)),
        forall|j: int|
            0 <= j < parts.len() && j != i ==> elsewhere(i, #[trigger] parts[j]),
    ensures
        wire.after_all(socket_block(i), joined(parts)) == (if i < parts.len() {
            wire.after_all(socket_block(i), parts[i])
        } else {
            wire
        }),
        i < parts.len() ==> wire.answered(socket_block(i), parts[i]),
    decreases parts.len(),
{
    let block = socket_block(i);
    if parts.len() > 0 {
        let front = joined(parts.drop_last());
        let last = parts.last();
        let n = front.len() as int;
        let done = joined(parts);
        assert(done.take(n) =~= front);
        assert(done.skip(n) =~= last);
        wire.lemma_parts(block, done, n);
        assert forall|j: int| 0 <= j < parts.drop_last().len() && j != i implies elsewhere(
            i,
            #[trigger] parts.drop_last()[j],
        ) by {
            assert(parts.drop_last()[j] == parts[j]);
        }
        lemma_joined(i, wire, parts.drop_last());
        if i != parts.len() - 1 {
            assert(elsewhere(i, parts[parts.len() - 1]));
            lemma_elsewhere(i, wire.after_all(block, front), last);
        }
    }
}

/// An echo service, the driver, the chip's end of the connection and the peer.
pub struct World {
    /// The driver.
    pub chip: ChipState,
    /// What the transfer on its way captures.
    pub window: Seq<u8>,
    /// The chip's end of the connection.
    pub wire: Wire,
    /// What the echo service carries over.
    pub carry: Seq<u8>,
    /// All that the peer has sent.
    pub offered: Seq<u8>,
}

/// Something that happens.
pub enum Step {
    /// The peer sends.
    Offer { bytes: Seq<u8> },
    /// The driver does a background step.
    Service { done: Seq<Access>, r: Result<Serviced, Error> },
    /// The driver finishes the transfer on its way.
    Complete { done: Seq<Access>, r: Result<Serviced, Error> },
    /// The echo service moves `n` bytes on.
    Drain { n: int },
}

/// What the transfer captures that the last of the accesses `done` started.
pub open spec fn launched_window(done: Seq<Access>) -> Seq<u8> {
    done.last().events[0]->Transfer_miso.skip(HEADER as int)
}

/// Whether `step` takes `before` to `after`, for an echo service on socket `i` and a
/// chip on which every access succeeds.
pub open spec fn happens(i: int, before: World, step: Step, after: World) -> bool {
    let block = socket_block(i);
    match step {
        Step::Offer { bytes } => {
            &&& before.wire.waiting.len() + bytes.len() < 0x1_0000
            &&& after == (World {
                wire: Wire { waiting: before.wire.waiting + bytes, ..before.wire },
                offered: before.offered + bytes,
                ..before
            })
        },
        Step::Service { done, r } => {
            &&& serviced(before.chip, done, after.chip, r)
            &&& before.wire.answered(block, done)
            &&& after == (World {
                chip: after.chip,
                window: after.window,
                wire: before.wire.after_all(block, done),
                ..before
            })
            &&& after.chip.bulk is Some ==> after.window == (if before.chip.bulk is None {
                launched_window(done)
            } else {
                before.window
            })
        },
        Step::Complete { done, r } => {
            &&& completed(before.chip, before.window, done, after.chip, r)
            &&& before.wire.answered(block, done)
            &&& after == (World {
                chip: after.chip,
                window: after.window,
                wire: before.wire.after_all(block, done),
                ..before
            })
            &&& after.chip.bulk is Some ==> after.window == launched_window(done)
        },
        Step::Drain { n } => {
            &&& 0 <= n <= outstanding(before.carry, before.chip.sockets[i]).len()
            &&& moved(before.chip, before.carry, after.chip, after.carry, i, n)
            &&& after == (World { chip: after.chip, carry: after.carry, ..before })
        },
    }
}

/// What was handed to the chip for the peer and is not sent yet.
pub open spec fn handed_over(i: int, w: World) -> Seq<u8> {
    match w.chip.bulk {
        Some(bulk) => if bulk.socket == i && bulk.kind == BulkKind::Transmit {
            w.wire.staged(w.wire.tx_at, bulk.len as nat)
        } else {
            Seq::empty()
        },
        None => Seq::empty(),
    }
}

/// All that has not reached the peer yet, in the order in which it will: what the
/// chip is to send, what is staged, what the echo service has read, what has been
/// received and what the chip still holds.
pub open spec fn pending(i: int, w: World) -> Seq<u8> {
    let rings = w.chip.sockets[i].rings;
    handed_over(i, w) + rings.tx.bytes + w.carry + rings.rx.bytes + w.wire.waiting
}

/// Whether the connection on socket `i` stands.
pub open spec fn connected(i: int, w: World) -> bool {
    let slot = w.chip.sockets[i];
    &&& 0 <= i < 8
    &&& w.chip.sockets.len() == 8
    &&& forall|j: int|
        0 <= j < 8 ==> (#[trigger] w.chip.sockets[j]).backend.block == socket_block(j)
    &&& !slot.busy
    &&& !slot.backend.release_requested
    &&& slot.backend.state matches BackendState::Tcp(tcp) && stands(tcp)
    &&& at_rest(w.wire)
}

/// Whether a transfer on its way is what the chip's end of the connection says.
pub open spec fn in_step(i: int, w: World) -> bool {
    match w.chip.bulk {
        None => true,
        Some(bulk) => {
            &&& bulk.socket < 8
            &&& bulk.block == socket_block(bulk.socket as int)
            &&& bulk.socket == i ==> match bulk.kind {
                BulkKind::Receive => {
                    &&& !bulk.stale
                    &&& bulk.pointer == w.wire.rx_at
                    &&& bulk.len <= w.wire.waiting.len()
                    &&& bulk.len <= w.chip.sockets[i].rings.rx.free()
                    &&& w.window == w.wire.waiting.take(bulk.len as int)
                },
                BulkKind::Transmit => {
                    &&& bulk.pointer == w.wire.tx_at
                    &&& bulk.len < 0x1_0000
                },
                BulkKind::ReceiveDatagram { .. } => false,
            }
        },
    }
}

/// Whether the connection stands and every byte that the peer has sent either has
/// gone back or is still on its way back, all in the order in which they were sent.
pub open spec fn lossless(i: int, w: World) -> bool {
    &&& connected(i, w)
    &&& in_step(i, w)
    &&& w.wire.sent + pending(i, w) == w.offered
}

/// The world after the driver made the accesses `done` and came to `chip`.
pub open spec fn driven(i: int, before: World, done: Seq<Access>, chip: ChipState) -> World {
    World {
        chip,
        window: if before.chip.bulk is None && chip.bulk is Some {
            launched_window(done)
        } else {
            before.window
        },
        wire: before.wire.after_all(socket_block(i), done),
        ..before
    }
}

/// A tick of the echo service's socket keeps the stream whole.
proof fn lemma_own_tick(i: int, w: World, part: Seq<Access>)
    requires
        lossless(i, w),
        carried_out(slot_tick(w.chip.sockets[i], part).script, part),
        w.wire.answered(socket_block(i), part),
    ensures
        ({
            let slot = w.chip.sockets[i];
            let tick = slot_tick(slot, part);
            &&& tick.state == (SlotState { rings: tick.rings, ..slot })
            &&& moves(
                w.wire,
                slot.rings,
                part,
                w.wire.after_all(socket_block(i), part),
                tick.result,
                tick.rings,
            )
        }),
{
    let slot = w.chip.sockets[i];
    lemma_codes(i);
    lemma_tick(slot.backend.state->Tcp_0, w.wire, socket_block(i), slot.rings, part);
}

/// All that a round does, short of what the echo service's own socket does, leaves
/// that socket alone.
proof fn lemma_round(
    i: int,
    w: World,
    parts: Seq<Seq<Access>>,
    after: Seq<SlotState>,
)
    requires
        lossless(i, w),
        round(w.chip.sockets, parts, after),
        w.wire.answered(socket_block(i), joined(parts)),
    ensures
        after.len() == 8,
        forall|j: int| 0 <= j < 8 ==> (#[trigger] after[j]).backend.block == socket_block(j),
        i >= parts.len() ==> {
            &&& w.wire.after_all(socket_block(i), joined(parts)) == w.wire
            &&& after[i] == w.chip.sockets[i]
        },
        i < parts.len() ==> {
            let slot = w.chip.sockets[i];
            let tick = slot_tick(slot, parts[i]);
            &&& after[i] == tick.state
            &&& tick.state == (SlotState { rings: tick.rings, ..slot })
            &&& moves(
                w.wire,
                slot.rings,
                parts[i],
                w.wire.after_all(socket_block(i), joined(parts)),
                tick.result,
                tick.rings,
            )
        },
{
    let slots = w.chip.sockets;
    assert forall|j: int| 0 <= j < parts.len() && j != i implies elsewhere(
        i,
        #[trigger] parts[j],
    ) by {
        lemma_other_tick(i, j, slots[j], parts[j]);
    }
    lemma_joined(i, w.wire, parts);
    if i < parts.len() {
        assert(carried_out(slot_tick(slots[i], parts[i]).script, parts[i]));
        lemma_own_tick(i, w, parts[i]);
    }
    assert forall|j: int| 0 <= j < 8 implies (#[trigger] after[j]).backend.block == socket_block(
        j,
    ) by {
        assert(slots[j].backend.block == socket_block(j));
        if j < parts.len() {
            assert(after[j] == slot_tick(slots[j], parts[j]).state);
            if j != i {
                lemma_other_tick(i, j, slots[j], parts[j]);
            }
        }
    }
}

/// The last of the accesses of a round is the last one of its last part.
proof fn lemma_joined_last(parts: Seq<Seq<Access>>)
    requires
        parts.len() > 0,
        parts.last().len() > 0,
    ensures
        joined(parts).len() > 0,
        joined(parts).last() == parts.last().last(),
{
}

/// A round keeps the stream whole.
proof fn lemma_ran(i: int, w: World, done: Seq<Access>, chip: ChipState)
    requires
        lossless(i, w),
        w.chip.bulk is None,
        ran(w.chip, done, chip),
        w.wire.answered(socket_block(i), done),
    ensures
        lossless(i, driven(i, w, done, chip)),
        chip.bulk matches Some(bulk) && bulk.socket == i ==> done.len() > 0,
{
    let parts = choose|parts: Seq<Seq<Access>>|
        {
            &&& done == joined(parts)
            &&& #[trigger] round(w.chip.sockets, parts, chip.sockets)
            &&& chip == w.chip.with_slots(chip.sockets).with_bulk(
                match started_by(w.chip.sockets, parts) {
                    Some(bulk) => Some(bulk),
                    None => w.chip.bulk,
                },
            )
        };
    lemma_round(i, w, parts, chip.sockets);
    let after = driven(i, w, done, chip);
    let last = parts.len() - 1;
    let rings = w.chip.sockets[i].rings;
    assert(w.chip.sockets[last].backend.block == socket_block(last));
    if i == last {
        let tick = slot_tick(w.chip.sockets[i], parts[i]);
        match tick.result {
            Ok(BulkAction::Started { kind, pointer, len }) => {
                lemma_joined_last(parts);
                if kind == BulkKind::Transmit {
                    let tx = rings.tx.bytes;
                    assert(tx =~= tx.take(len as int) + tx.skip(len as int));
                    assert(after.wire.sent + pending(i, after) =~= w.wire.sent + pending(i, w));
                } else {
                    assert(after.wire.sent + pending(i, after) =~= w.wire.sent + pending(i, w));
                }
            },
            _ => {
                assert(after.wire.sent + pending(i, after) =~= w.wire.sent + pending(i, w));
            },
        }
    } else {
        if i < parts.len() {
            assert(!crate::w6100::starts(w.chip.sockets[i], parts[i]));
        }
        assert(after.wire.sent + pending(i, after) =~= w.wire.sent + pending(i, w));
    }
}

/// The common registers are no part of a socket.
proof fn lemma_common(i: int)
    requires
        0 <= i < 8,
    ensures
        forall|address: u16, len: nat|
            !speaks_to(socket_block(i), #[trigger] read_request(common(address), len)),
        forall|address: u16, data: Seq<u8>|
            !speaks_to(socket_block(i), #[trigger] write_request(common(address), data)),
{
    lemma_codes(i);
    assert forall|address: u16, len: nat|
        !speaks_to(socket_block(i), #[trigger] read_request(common(address), len)) by {
        law_header_fields(common(address), false);
    }
    assert forall|address: u16, data: Seq<u8>|
        !speaks_to(socket_block(i), #[trigger] write_request(common(address), data)) by {
        law_header_fields(common(address), true);
    }
}

/// Accesses in two parts, of which the first does not speak to the socket.
proof fn lemma_front_elsewhere(i: int, wire: Wire, done: Seq<Access>, n: int)
    requires
        0 <= n <= done.len(),
        elsewhere(i, done.take(n)),
        wire.answered(socket_block(i), done),
    ensures
        wire.answered(socket_block(i), done.take(n)),
        wire.answered(socket_block(i), done.skip(n)),
        wire.after_all(socket_block(i), done) == wire.after_all(socket_block(i), done.skip(n)),
{
    wire.lemma_parts(socket_block(i), done, n);
    lemma_elsewhere(i, wire, done.take(n));
}

/// Applying the network settings does not speak to a socket.
proof fn lemma_network_elsewhere(
    i: int,
    mac: Seq<u8>,
    ip: u32,
    gateway: u32,
    mask: u32,
    done: Seq<Access>,
)
    requires
        0 <= i < 8,
        carried_out(network_script(mac, ip, gateway, mask), done),
    ensures
        elsewhere(i, done),
{
    let script = network_script(mac, ip, gateway, mask);
    lemma_common(i);
    assert forall|k: int| 0 <= k < done.len() implies !speaks_to(
        socket_block(i),
        (#[trigger] done[k]).request,
    ) by {
        assert(done[k].request == script[k]);
    }
}

/// What keeps the stream whole also does so behind `n` accesses that do not speak to
/// the socket.
proof fn lemma_behind_elsewhere(
    i: int,
    w: World,
    seen: World,
    done: Seq<Access>,
    n: int,
    chip: ChipState,
)
    requires
        0 <= n <= done.len(),
        w.chip.bulk is None,
        seen == (World { chip: seen.chip, ..w }),
        seen.chip.bulk is None,
        w.wire.after_all(socket_block(i), done) == w.wire.after_all(
            socket_block(i),
            done.skip(n),
        ),
        lossless(i, driven(i, seen, done.skip(n), chip)),
        chip.bulk matches Some(bulk) && bulk.socket == i ==> done.skip(n).len() > 0,
    ensures
        lossless(i, driven(i, w, done, chip)),
{
    let rest = done.skip(n);
    if rest.len() > 0 {
        assert(rest.last() == done.last());
    }
    let there = driven(i, seen, rest, chip);
    let here = driven(i, w, done, chip);
    assert(here == (World { window: here.window, ..there }));
    assert(pending(i, here) == pending(i, there));
}

/// The stream does not depend on the link or on the network settings.
proof fn lemma_settings_aside(i: int, w: World, chip: ChipState)
    requires
        lossless(i, w),
        chip.sockets == w.chip.sockets,
        chip.bulk == w.chip.bulk,
    ensures
        lossless(i, World { chip, ..w }),
{
    assert(pending(i, World { chip, ..w }) == pending(i, w));
}

/// Applying the network settings and the round behind it keep the stream whole.
proof fn lemma_configured(
    i: int,
    w: World,
    config: NetworkConfig,
    done: Seq<Access>,
    chip: ChipState,
)
    requires
        lossless(i, w),
        w.chip.bulk is None,
        done.len() >= 6,
        carried_out(
            network_script(w.chip.mac, config.ip, config.gateway, config.subnet),
            done.take(6),
        ),
        ran((ChipState { config_dirty: false, ..w.chip }), done.skip(6), chip),
        w.wire.answered(socket_block(i), done),
    ensures
        lossless(i, driven(i, w, done, chip)),
        chip.bulk matches Some(bulk) && bulk.socket == i ==> done.len() > 0,
{
    let seen = World { chip: ChipState { config_dirty: false, ..w.chip }, ..w };
    lemma_network_elsewhere(
        i,
        w.chip.mac,
        config.ip,
        config.gateway,
        config.subnet,
        done.take(6),
    );
    lemma_front_elsewhere(i, w.wire, done, 6);
    lemma_settings_aside(i, w, seen.chip);
    lemma_ran(i, seen, done.skip(6), chip);
    lemma_behind_elsewhere(i, w, seen, done, 6, chip);
}

/// What is done for a chip with a link keeps the stream whole.
#[verifier::rlimit(30)]
#[verifier::spinoff_prover]
proof fn lemma_linked(
    i: int,
    w: World,
    done: Seq<Access>,
    chip: ChipState,
    r: Result<Serviced, Error>,
)
    requires
        lossless(i, w),
        w.chip.bulk is None,
        linked(w.chip, done, chip, r),
        w.wire.answered(socket_block(i), done),
    ensures
        lossless(i, driven(i, w, done, chip)),
        chip.bulk matches Some(bulk) && bulk.socket == i ==> done.len() > 0,
{
    match pending_config(w.chip) {
        Some(config) => {
            let script = network_script(w.chip.mac, config.ip, config.gateway, config.subnet);
            assert(script.len() == 6);
            if done.len() < 6 || failed(done.take(6)) {
                lemma_all_done(w.wire, socket_block(i), script, done);
                assert(done.take(6) =~= done);
                assert(false);
            } else {
                lemma_configured(i, w, config, done, chip);
            }
        },
        None => {
            lemma_ran(i, w, done, chip);
        },
    }
}

/// A background step keeps the stream whole.
#[verifier::rlimit(30)]
#[verifier::spinoff_prover]
proof fn lemma_serviced(
    i: int,
    w: World,
    done: Seq<Access>,
    chip: ChipState,
    r: Result<Serviced, Error>,
)
    requires
        lossless(i, w),
        serviced(w.chip, done, chip, r),
        w.wire.answered(socket_block(i), done),
    ensures
        lossless(i, driven(i, w, done, chip)),
        w.chip.bulk is None ==> (chip.bulk matches Some(bulk) && bulk.socket == i ==> done.len() > 0),
{
    if w.chip.bulk is None {
        lemma_common(i);
        let front = done.take(1);
        assert(front[0] == done[0]);
        lemma_front_elsewhere(i, w.wire, done, 1);
        let up = phy_up(byte(done[0]));
        let seen = World { chip: ChipState { link_up: up, ..w.chip }, ..w };
        lemma_settings_aside(i, w, seen.chip);
        if done[0].outcome is Ok && up {
            lemma_linked(i, seen, done.skip(1), chip, r);
            lemma_behind_elsewhere(i, w, seen, done, 1, chip);
        } else {
            assert(done.skip(1) =~= Seq::<Access>::empty());
        }
    } else {
        assert(done =~= Seq::<Access>::empty());
    }
}

/// One access more.
proof fn lemma_next(wire: Wire, block: BlockAddress, done: Seq<Access>, k: int)
    requires
        0 <= k < done.len(),
    ensures
        wire.after_all(block, done.take(0)) == wire,
        wire.after_all(block, done.take(k + 1)) == wire.after_all(block, done.take(k)).after(
            block,
            done[k].request,
        ),
{
    assert(done.take(k + 1).drop_last() =~= done.take(k));
    assert(done.take(k + 1).last() == done[k]);
}

/// Acknowledging what was received, over a chip at rest: the chip gives it up.
proof fn lemma_acknowledged(wire: Wire, block: BlockAddress, len: int, done: Seq<Access>)
    requires
        block.reg != block.tx,
        at_rest(wire),
        0 <= len <= wire.waiting.len(),
        done.len() == 4,
        done[0].request == Request::Finish,
        done[1].request == write16(block, SN_RX_RD0, ahead(wire.rx_at, len)),
        done[2].request == command(block, SocketCommand::Receive),
        done[3].request == clear(block, IR_RECV),
    ensures
        wire.after_all(block, done) == (Wire {
            waiting: wire.waiting.skip(len),
            rx_at: ahead(wire.rx_at, len),
            rx_pointer: ahead(wire.rx_at, len),
            ..wire
        }),
{
    let end = ahead(wire.rx_at, len);
    lemma_distance(wire.rx_at, len);
    law_be16_round_trip(end);
    lemma_next(wire, block, done, 0);
    lemma_next(wire, block, done, 1);
    lemma_next(wire, block, done, 2);
    lemma_next(wire, block, done, 3);
    assert(done.take(4) =~= done);
    let moved = Wire { rx_pointer: end, ..wire };
    let given = Wire { waiting: wire.waiting.skip(len), rx_at: end, ..moved };
    wire.lemma_told(block, SN_RX_RD0, be16(end));
    moved.lemma_told(block, SN_CR, seq![command_code(SocketCommand::Receive)]);
    given.lemma_told(block, SN_IRCLR, seq![IR_RECV]);
}

/// Sending what was handed over, over a chip at rest.
proof fn lemma_sent(wire: Wire, block: BlockAddress, len: int, done: Seq<Access>)
    requires
        block.reg != block.tx,
        at_rest(wire),
        0 <= len < 0x1_0000,
        done.len() == 3,
        done[0].request == Request::Finish,
        done[1].request == write16(block, SN_TX_WR0, ahead(wire.tx_at, len)),
        done[2].request == command(block, SocketCommand::Send),
    ensures
        wire.after_all(block, done) == (Wire {
            sent: wire.sent + wire.staged(wire.tx_at, len as nat),
            tx_at: ahead(wire.tx_at, len),
            tx_pointer: ahead(wire.tx_at, len),
            ..wire
        }),
{
    let end = ahead(wire.tx_at, len);
    lemma_distance(wire.tx_at, len);
    law_be16_round_trip(end);
    lemma_next(wire, block, done, 0);
    lemma_next(wire, block, done, 1);
    lemma_next(wire, block, done, 2);
    assert(done.take(3) =~= done);
    let moved = Wire { tx_pointer: end, ..wire };
    assert(moved.staged(wire.tx_at, len as nat) =~= wire.staged(wire.tx_at, len as nat));
    wire.lemma_told(block, SN_TX_WR0, be16(end));
    moved.lemma_told(block, SN_CR, seq![command_code(SocketCommand::Send)]);
}

/// What ends a transfer of another socket does not speak to this one.
proof fn lemma_commit_elsewhere(i: int, bulk: BulkOp, done: Seq<Access>)
    requires
        0 <= i < 8,
        bulk.socket < 8,
        bulk.socket != i,
        bulk.block == socket_block(bulk.socket as int),
        carried_out(seq![Request::Finish] + commit_script(bulk), done),
    ensures
        elsewhere(i, done),
{
    let script = seq![Request::Finish] + commit_script(bulk);
    let j = bulk.socket as int;
    assert forall|k: int| 0 <= k < done.len() implies !speaks_to(
        socket_block(i),
        (#[trigger] done[k]).request,
    ) by {
        if k > 0 {
            assert(script[k] == commit_script(bulk)[k - 1]);
            lemma_register_requests(j);
            assert(speaks_to(socket_block(j), script[k]));
            lemma_other_socket(i, j, script[k]);
        }
    }
}

/// What is written to the registers of a socket speaks to it.
proof fn lemma_register_requests(j: int)
    ensures
        forall|address: u16, data: Seq<u8>|
            speaks_to(
                socket_block(j),
                #[trigger] write_request(reg(socket_block(j), address), data),
            ),
{
    assert forall|address: u16, data: Seq<u8>|
        speaks_to(
            socket_block(j),
            #[trigger] write_request(reg(socket_block(j), address), data),
        ) by {
        law_header_fields(reg(socket_block(j), address), true);
    }
}

/// The end of a transfer keeps the stream whole.
proof fn lemma_landed(i: int, w: World, bulk: BulkOp, done: Seq<Access>)
    requires
        lossless(i, w),
        w.chip.bulk == Some(bulk),
        carried_out(seq![Request::Finish] + commit_script(bulk), done),
        w.wire.answered(socket_block(i), done),
    ensures
        lossless(
            i,
            World {
                chip: landed(w.chip, bulk, w.window),
                wire: w.wire.after_all(socket_block(i), done),
                ..w
            },
        ),
{
    let block = socket_block(i);
    let script = seq![Request::Finish] + commit_script(bulk);
    let after = World {
        chip: landed(w.chip, bulk, w.window),
        wire: w.wire.after_all(block, done),
        ..w
    };
    let rx = w.chip.sockets[i].rings.rx.bytes;
    lemma_all_done(w.wire, block, script, done);
    lemma_codes(i);
    assert forall|j: int| 0 <= j < 8 implies (#[trigger] after.chip.sockets[j]).backend.block
        == socket_block(j) by {
        assert(w.chip.sockets[j].backend.block == socket_block(j));
    }
    if bulk.socket != i {
        lemma_commit_elsewhere(i, bulk, done);
        lemma_elsewhere(i, w.wire, done);
        assert(after.wire.sent + pending(i, after) =~= w.wire.sent + pending(i, w));
    } else if bulk.kind == BulkKind::Transmit {
        assert(done[1].request == script[1] && done[2].request == script[2]);
        lemma_sent(w.wire, block, bulk.len as int, done);
        assert(after.wire.sent + pending(i, after) =~= w.wire.sent + pending(i, w));
    } else {
        let len = bulk.len as int;
        let waiting = w.wire.waiting;
        assert(done[1].request == script[1] && done[2].request == script[2] && done[3].request
            == script[3]);
        lemma_acknowledged(w.wire, block, len, done);
        assert(w.window.take(len) =~= w.window);
        assert(after.chip.sockets[i].rings.rx.bytes =~= rx + w.window);
        assert(waiting =~= waiting.take(len) + waiting.skip(len));
        assert(after.wire.sent + pending(i, after) =~= w.wire.sent + pending(i, w));
    }
}

/// Finishing a transfer, and the background step behind it, keep the stream whole.
proof fn lemma_completed(
    i: int,
    w: World,
    done: Seq<Access>,
    chip: ChipState,
    r: Result<Serviced, Error>,
)
    requires
        lossless(i, w),
        completed(w.chip, w.window, done, chip, r),
        w.wire.answered(socket_block(i), done),
    ensures
        lossless(
            i,
            World {
                chip,
                window: if chip.bulk is Some {
                    launched_window(done)
                } else {
                    w.window
                },
                wire: w.wire.after_all(socket_block(i), done),
                ..w
            },
        ),
{
    let block = socket_block(i);
    match w.chip.bulk {
        None => {
            assert(done =~= Seq::<Access>::empty());
        },
        Some(bulk) => {
            let script = seq![Request::Finish] + commit_script(bulk);
            let n = script.len() as int;
            if done.len() < n || failed(done.take(n)) {
                lemma_all_done(w.wire, block, script, done);
                assert(done.take(n) =~= done);
                assert(false);
            } else {
                let rest = done.skip(n);
                let mid = World {
                    chip: landed(w.chip, bulk, w.window),
                    wire: w.wire.after_all(block, done.take(n)),
                    ..w
                };
                w.wire.lemma_parts(block, done, n);
                lemma_landed(i, w, bulk, done.take(n));
                lemma_serviced(i, mid, rest, chip, r);
                if rest.len() > 0 {
                    assert(rest.last() == done.last());
                }
                let there = driven(i, mid, rest, chip);
                let here = World {
                    chip,
                    window: if chip.bulk is Some {
                        launched_window(done)
                    } else {
                        w.window
                    },
                    wire: w.wire.after_all(block, done),
                    ..w
                };
                assert(here == (World { window: here.window, ..there }));
                assert(pending(i, here) == pending(i, there));
            }
        },
    }
}

/// The echo service keeps the stream whole.
proof fn lemma_drained(i: int, w: World, chip: ChipState, carry: Seq<u8>, n: int)
    requires
        lossless(i, w),
        0 <= n <= outstanding(w.carry, w.chip.sockets[i]).len(),
        moved(w.chip, w.carry, chip, carry, i, n),
    ensures
        lossless(i, World { chip, carry, ..w }),
{
    let after = World { chip, carry, ..w };
    let slot = w.chip.sockets[i];
    law_echo_lossless(w.chip, w.carry, chip, carry, i, n);
    let front = w.wire.sent + handed_over(i, w);
    let before_stream = slot.rings.tx.bytes + outstanding(w.carry, slot);
    let after_stream = chip.sockets[i].rings.tx.bytes + outstanding(carry, chip.sockets[i]);
    assert(handed_over(i, after) == handed_over(i, w));
    assert(w.wire.sent + pending(i, w) =~= front + before_stream + w.wire.waiting);
    assert(after.wire.sent + pending(i, after) =~= front + after_stream + w.wire.waiting);
    assert forall|j: int| 0 <= j < 8 implies (#[trigger] chip.sockets[j]).backend.block
        == socket_block(j) by {
        assert(w.chip.sockets[j].backend.block == socket_block(j));
    }
}

/// What the peer sends joins the end of the stream.
proof fn lemma_offered(i: int, w: World, bytes: Seq<u8>)
    requires
        lossless(i, w),
        w.wire.waiting.len() + bytes.len() < 0x1_0000,
    ensures
        lossless(
            i,
            World {
                wire: Wire { waiting: w.wire.waiting + bytes, ..w.wire },
                offered: w.offered + bytes,
                ..w
            },
        ),
{
    let wire = Wire { waiting: w.wire.waiting + bytes, ..w.wire };
    let after = World { wire, offered: w.offered + bytes, ..w };
    assert(handed_over(i, after) =~= handed_over(i, w));
    assert(after.wire.sent + pending(i, after) =~= w.wire.sent + pending(i, w) + bytes);
    if let Some(bulk) = w.chip.bulk {
        if bulk.socket == i && bulk.kind == BulkKind::Receive {
            assert(wire.waiting.take(bulk.len as int) =~= w.wire.waiting.take(bulk.len as int));
        }
    }
}

/// Without a transfer on its way there is nothing to capture.
proof fn lemma_window_aside(i: int, w: World, after: World)
    requires
        lossless(i, w),
        after == (World { window: after.window, ..w }),
        after.chip.bulk is Some ==> after.window == w.window,
    ensures
        lossless(i, after),
{
    assert(pending(i, after) == pending(i, w));
}

/// Whatever happens, short of a failing access, every byte that the peer has sent
/// has gone back to it or is on its way back, in order: none is lost, repeated or
/// mixed up, and the connection stands.
pub proof fn law_stream_kept(i: int, before: World, step: Step, after: World)
    requires
        lossless(i, before),
        happens(i, before, step, after),
    ensures
        lossless(i, after),
{
    match step {
        Step::Offer { bytes } => lemma_offered(i, before, bytes),
        Step::Service { done, r } => {
            lemma_serviced(i, before, done, after.chip, r);
            lemma_window_aside(i, driven(i, before, done, after.chip), after);
        },
        Step::Complete { done, r } => {
            lemma_completed(i, before, done, after.chip, r);
            let window = if after.chip.bulk is Some {
                launched_window(done)
            } else {
                before.window
            };
            lemma_window_aside(i, World { window, ..after }, after);
        },
        Step::Drain { n } => lemma_drained(i, before, after.chip, after.carry, n),
    }
}

/// A peer that talks to an echo service gets back what it sent, however it cuts its
/// bytes into pieces and however the steps of the driver, of the chip's interrupts
/// and of the service follow one another: what has come back is the beginning of
/// what was sent, and once nothing is pending it is all of it.
pub proof fn law_echo_comes_back(i: int, worlds: Seq<World>, steps: Seq<Step>)
    requires
        worlds.len() == steps.len() + 1,
        lossless(i, worlds[0]),
        forall|k: int|
            0 <= k < steps.len() ==> happens(i, worlds[k], #[trigger] steps[k], worlds[k + 1]),
    ensures
        ({
            let last = worlds.last();
            &&& lossless(i, last)
            &&& last.wire.sent.len() <= last.offered.len()
            &&& last.wire.sent == last.offered.take(last.wire.sent.len() as int)
            &&& pending(i, last).len() == 0 ==> last.wire.sent == last.offered
        }),
    decreases steps.len(),
{
    let last = worlds.last();
    if steps.len() > 0 {
        let n = steps.len() - 1;
        let front = worlds.drop_last();
        assert forall|k: int| 0 <= k < steps.drop_last().len() implies happens(
            i,
            front[k],
            #[trigger] steps.drop_last()[k],
            front[k + 1],
        ) by {
            assert(steps.drop_last()[k] == steps[k]);
        }
        law_echo_comes_back(i, front, steps.drop_last());
        assert(happens(i, worlds[n], steps[n], worlds[n + 1]));
        law_stream_kept(i, worlds[n], steps[n], last);
    }
    let sent = last.wire.sent;
    assert((sent + pending(i, last)).take(sent.len() as int) =~= sent);
    if pending(i, last).len() == 0 {
        assert(sent + pending(i, last) =~= sent);
    }
}

/// A connection that has just come up is such a stream: nothing has been received,
/// staged or sent yet.
pub proof fn law_echo_starts(i: int, w: World)
    requires
        connected(i, w),
        w.chip.bulk is None,
        w.chip.sockets[i].rings.rx.bytes.len() == 0,
        w.chip.sockets[i].rings.tx.bytes.len() == 0,
        w.carry.len() == 0,
        w.wire.sent.len() == 0,
        w.wire.waiting == w.offered,
    ensures
        lossless(i, w),
{
    assert(w.wire.sent + pending(i, w) =~= w.offered);
}

/// The world around a driver.
pub open spec fn world_of<D: SpiDmaDevice>(
    chip: &W6100<'_, D>,
    wire: Wire,
    carry: Seq<u8>,
    offered: Seq<u8>,
) -> World {
    World { chip: chip@, window: chip.link().window(), wire, carry, offered }
}

/// A transfer that was just started is the last of the accesses that were made.
proof fn lemma_launched<D: SpiDmaDevice>(before: &W6100<'_, D>, after: &W6100<'_, D>)
    requires
        before.wf(),
        before.led_to(after),
        before@.bulk is None,
        after.link().just_launched(),
    ensures
        after.link().window() == launched_window(before.did(after)),
{
    let log = before.link().log();
    let done = before.did(after);
    before.law_bulk_noted();
    before.link().law_bus_owned_now();
    after.link().law_bus_owned_now();
    if done.len() == 0 {
        assert(after.link().log() =~= log);
    } else {
        assert(done.last() == after.link().log().last());
    }
}

/// What `service` promises is a step of such a world, for a chip that answers every
/// access.
pub proof fn law_service_is_step<D: SpiDmaDevice>(
    i: int,
    before: &W6100<'_, D>,
    after: &W6100<'_, D>,
    r: Result<Serviced, Error>,
    wire: Wire,
    carry: Seq<u8>,
    offered: Seq<u8>,
)
    requires
        before.wf(),
        before.led_to(after),
        serviced(before@, before.did(after), after@, r),
        before@.bulk is None && after@.bulk is Some ==> after.link().just_launched(),
        before@.bulk is Some ==> *after == *before,
        wire.answered(socket_block(i), before.did(after)),
    ensures
        happens(
            i,
            world_of(before, wire, carry, offered),
            Step::Service { done: before.did(after), r },
            world_of(
                after,
                wire.after_all(socket_block(i), before.did(after)),
                carry,
                offered,
            ),
        ),
{
    if before@.bulk is None && after@.bulk is Some {
        lemma_launched(before, after);
    }
}

/// What `dma_complete` promises is a step of such a world, for a chip that answers
/// every access.
pub proof fn law_complete_is_step<D: SpiDmaDevice>(
    i: int,
    before: &W6100<'_, D>,
    after: &W6100<'_, D>,
    r: Result<Serviced, Error>,
    wire: Wire,
    carry: Seq<u8>,
    offered: Seq<u8>,
)
    requires
        before.wf(),
        before.led_to(after),
        completed(before@, before.link().window(), before.did(after), after@, r),
        after@.bulk is Some ==> after.link().just_launched(),
        wire.answered(socket_block(i), before.did(after)),
    ensures
        happens(
            i,
            world_of(before, wire, carry, offered),
            Step::Complete { done: before.did(after), r },
            world_of(
                after,
                wire.after_all(socket_block(i), before.did(after)),
                carry,
                offered,
            ),
        ),
{
    if after@.bulk is Some {
        let done = before.did(after);
        if done.len() > 0 {
            assert(done.last() == after.link().log().last());
        }
    }
}

/// What the echo service promises while its connection stands is a step of such a
/// world.
pub proof fn law_drain_is_step<D: SpiDmaDevice>(
    i: int,
    before: &W6100<'_, D>,
    after: &W6100<'_, D>,
    wire: Wire,
    carry: Seq<u8>,
    left: Seq<u8>,
    offered: Seq<u8>,
    n: int,
)
    requires
        after.link() == before.link(),
        moved(before@, carry, after@, left, i, n),
        0 <= n <= outstanding(carry, before@.sockets[i]).len(),
    ensures
        happens(
            i,
            world_of(before, wire, carry, offered),
            Step::Drain { n },
            world_of(after, wire, left, offered),
        ),
{
}

} // verus!
