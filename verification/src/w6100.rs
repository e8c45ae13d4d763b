//! The chip: its identity and network settings, its eight sockets, and the one
//! bulk transfer that may be on its way.
use vstd::prelude::*;

use crate::access::{
    carried_out, concluded, ended, failed, failure, lands, lemma_carried_out_fails, passed,
    takes_off, Access, Request, HEADER,
};
use crate::address::{
    delay_request, read_request, write_request, Address, BlockAddress, BlockSelectionBits,
};
use crate::atomic_cell::{AtomicCell, AtomicMutLock};
use crate::error::{DriverError, Error};
use crate::frame::{framed, has_room, put_frame, SocketAddr};
use crate::socket::{
    advance, ahead, lemma_behind, BackendState, BulkAction, BulkKind, RingsState, Socket,
    SocketBackend, SocketRings, SocketStatus, Tick,
};
use crate::socket_common::{
    byte, clear_interrupts, command, init_script, send_sock_command, set_rx_read_pointer,
    set_tx_write_pointer, word, write16, SocketCommand, SocketProtocolMode, IR_RECV, SN_TX_WR0,
};
use crate::spi_dma::{DmaBuffers, SpiDmaDevice};
use crate::spsc_ring::RingState;
use crate::tcp_socket::{TcpMode, TcpSocket, TcpSocketState};
use crate::tick_facts::{fits, lemma_blocked, lemma_first_request, lemma_started};
use crate::transiver::Transceiver;
use crate::udp_socket::{received_script, UdpSocket, UdpSocketState};

verus! {

/// Chip Identification Register.
pub const CIDR: u16 = 0x0000;

/// Version Register.
pub const VER: u16 = 0x0002;

/// System Config Register 1.
pub const SYCR1: u16 = 0x2005;

/// Socket Interrupt Mask Register.
pub const SIMR: u16 = 0x2114;

/// PHY Status Register.
pub const PHYSR: u16 = 0x3000;

/// Source Hardware Address Register (MAC address).
pub const SHAR: u16 = 0x4120;

/// Gateway IP Address Register.
pub const GAR: u16 = 0x4130;

/// Subnet Mask Register.
pub const SUBR: u16 = 0x4134;

/// IPv4 Source Address Register.
pub const SIPR: u16 = 0x4138;

/// Chip Lock Register.
pub const CHPLCKR: u16 = 0x41F4;

/// Network Lock Register.
pub const NETLCKR: u16 = 0x41F5;

/// What the chip identifies itself as.
pub const CHIP_ID: u16 = 0x6100;

/// The version of the chip that this driver knows.
pub const CHIP_VERSION: u16 = 0x4661;

/// How long the reset line is held low, in nanoseconds.
pub const RESET_HOLD_NS: u32 = 1_000_000;

/// The PHY status bit that reports a missing cable.
pub const PHY_CABLE_OFF: u8 = 0b1000_0000;

/// The PHY status bit that reports a link.
pub const PHY_LINK_UP: u8 = 0b0000_0001;

/// IPv4 addressing applied to the chip. Set at runtime (statically by the
/// application, or later by a DHCP client) rather than at initialization.
#[derive(Debug, Clone, Copy, PartialEq, Eq, Structural)]
pub struct NetworkConfig {
    pub ip: u32,
    pub gateway: u32,
    pub subnet: u32,
}

/// The bulk transfer that is on its way.
#[derive(Debug, Clone, Copy, PartialEq, Eq, Structural)]
pub struct BulkOp {
    /// Which socket started it.
    pub socket: usize,
    pub kind: BulkKind,
    pub block: BlockAddress,
    /// Chip-side buffer pointer the transfer started at.
    pub pointer: u16,
    /// Payload length in bytes.
    pub len: usize,
    /// The socket was re-armed since: what comes in belongs to the old session and
    /// is dropped.
    pub stale: bool,
}

/// How a background step ended.
#[derive(Debug, Clone, Copy, PartialEq, Eq, Structural)]
pub enum Serviced {
    Done,
    /// The link has just gone down: the chip wants to be reset.
    LinkLost,
}

/// What one socket of the chip is in.
#[verifier::ext_equal]
pub struct SlotState {
    pub backend: SocketBackend,
    /// Whether the protocol state is held elsewhere.
    pub busy: bool,
    pub rings: RingsState,
}

impl SlotState {
    /// This with another protocol state.
    pub open spec fn with(self, backend: SocketBackend) -> SlotState {
        SlotState { backend, ..self }
    }

    /// Whether the slot can be claimed right now.
    pub open spec fn claimable(self) -> bool {
        !self.busy && self.backend.state is Free
    }
}

/// What the chip's driver is in.
#[verifier::ext_equal]
pub struct ChipState {
    pub mac: Seq<u8>,
    pub config: Option<NetworkConfig>,
    pub config_dirty: bool,
    pub link_up: bool,
    pub sockets: Seq<SlotState>,
    pub bulk: Option<BulkOp>,
}

impl ChipState {
    /// This with another state of socket `i`.
    pub open spec fn with_slot(self, i: int, slot: SlotState) -> ChipState {
        ChipState { sockets: self.sockets.update(i, slot), ..self }
    }

    /// This with another bulk transfer on its way.
    pub open spec fn with_bulk(self, bulk: Option<BulkOp>) -> ChipState {
        ChipState { bulk, ..self }
    }

    /// This with the bulk transfer on its way marked as stale, if socket `i`
    /// started it.
    pub open spec fn disowned(self, i: int) -> ChipState {
        match self.bulk {
            Some(bulk) => if bulk.socket == i {
                self.with_bulk(Some(BulkOp { stale: true, ..bulk }))
            } else {
                self
            },
            None => self,
        }
    }

    /// This with other states of the sockets.
    pub open spec fn with_slots(self, sockets: Seq<SlotState>) -> ChipState {
        ChipState { sockets, ..self }
    }
}

/// A common register.
pub open spec fn common(address: u16) -> Address {
    Address { address, block: BlockSelectionBits::CommonRegister }
}

fn register(address: u16) -> (at: Address)
    ensures
        at == common(address),
{
    Address { address, block: BlockSelectionBits::CommonRegister }
}

/// Resetting the first `n` sockets, one after the other.
#[verifier::opaque]
pub open spec fn resets_script(slots: Seq<SlotState>, n: int) -> Seq<Request> {
    Seq::new(
        (3 * n) as nat,
        |k: int| init_script(slots[k / 3].backend.block, SocketProtocolMode::Closed)[k % 3],
    )
}

/// The first socket that is held elsewhere, or the number of sockets.
pub open spec fn first_busy(slots: Seq<SlotState>, from: int) -> int
    decreases slots.len() - from,
{
    if from >= slots.len() || slots[from].busy {
        from
    } else {
        first_busy(slots, from + 1)
    }
}

/// Enabling the interrupts of all sockets and the full clock.
pub open spec fn enable_script() -> Seq<Request> {
    seq![
        write_request(common(CHPLCKR), seq![0xCEu8]),
        write_request(common(SYCR1), seq![0b1000_0000u8]),
        write_request(common(CHPLCKR), seq![0x00u8]),
        write_request(common(SIMR), seq![0xFFu8]),
    ]
}

/// Closing all sockets, as far as none is held elsewhere, and enabling the
/// interrupts.
pub open spec fn bring_up_script(slots: Seq<SlotState>) -> Seq<Request> {
    let n = first_busy(slots, 0);
    if n < slots.len() {
        resets_script(slots, n)
    } else {
        resets_script(slots, n) + enable_script()
    }
}

/// What is asked of the chip after its reset line went up: who it is; if that
/// is as expected, all sockets are closed and the interrupts are enabled.
pub open spec fn reset_script(slots: Seq<SlotState>, done: Seq<Access>) -> Seq<Request> {
    let who = seq![read_request(common(CIDR), 2), read_request(common(VER), 2)];
    if !passed(done, 1) || word(done[0]) != CHIP_ID {
        who.take(1)
    } else if !passed(done, 2) || word(done[1]) != CHIP_VERSION {
        who
    } else {
        who + bring_up_script(slots)
    }
}

/// How that ends.
pub open spec fn reset_result(slots: Seq<SlotState>, done: Seq<Access>) -> Result<(), Error> {
    concluded(
        done,
        if word(done[0]) != CHIP_ID || word(done[1]) != CHIP_VERSION {
            Err(Error::Other(DriverError::UnexpectedResponse))
        } else if first_busy(slots, 0) < slots.len() {
            Err(Error::WouldBlock)
        } else {
            Ok(())
        },
    )
}

/// The sockets after that: those that were closed will be opened again, or are
/// free if their handle was given back. The first socket is closed after
/// `first` accesses.
pub open spec fn reset_slots(slots: Seq<SlotState>, done: Seq<Access>, first: nat) -> Seq<
    SlotState,
> {
    Seq::new(
        slots.len(),
        |j: int|
            if j < first_busy(slots, 0) && passed(done, (3 * j + first) as nat) {
                slots[j].with(slots[j].backend.after_reset())
            } else {
                slots[j]
            },
    )
}

/// The first socket that can be claimed, or the number of sockets.
pub open spec fn first_claimable(slots: Seq<SlotState>, from: int) -> int
    decreases slots.len() - from,
{
    if from >= slots.len() || slots[from].claimable() {
        from
    } else {
        first_claimable(slots, from + 1)
    }
}

/// The chip after its first claimable socket, if any, was claimed for `state`
/// with empty rings of the given sizes.
pub open spec fn claimed(chip: ChipState, state: BackendState, rx: nat, tx: nat) -> ChipState {
    let n = first_claimable(chip.sockets, 0);
    if n < chip.sockets.len() {
        chip.with_slot(
            n,
            SlotState {
                backend: SocketBackend {
                    block: chip.sockets[n].backend.block,
                    state,
                    release_requested: false,
                },
                busy: false,
                rings: RingsState { rx: RingState::empty(rx), tx: RingState::empty(tx) },
            },
        )
    } else {
        chip
    }
}

/// One tick of a socket. One that is held elsewhere is skipped.
pub open spec fn slot_tick(slot: SlotState, done: Seq<Access>) -> Tick<SlotState> {
    if slot.busy {
        Tick {
            script: Seq::empty(),
            state: slot,
            rings: slot.rings,
            result: Ok(BulkAction::Nothing),
        }
    } else {
        let tick = slot.backend.run_tick(slot.rings, done);
        tick.with(SlotState { backend: tick.state, busy: false, rings: tick.rings })
    }
}

/// Whether a tick started a bulk transfer.
pub open spec fn starts(slot: SlotState, done: Seq<Access>) -> bool {
    slot_tick(slot, done).result matches Ok(BulkAction::Started { .. })
}

/// All accesses of some parts, in order.
pub open spec fn joined(parts: Seq<Seq<Access>>) -> Seq<Access>
    decreases parts.len(),
{
    if parts.len() == 0 {
        Seq::empty()
    } else {
        joined(parts.drop_last()) + parts.last()
    }
}

/// What the sockets `before` become by a round in which socket `i` made the
/// accesses `parts[i]`. A round goes through the sockets in order and ends early
/// if one of them starts a bulk transfer.
pub open spec fn round(before: Seq<SlotState>, parts: Seq<Seq<Access>>, after: Seq<SlotState>) -> bool {
    &&& parts.len() <= before.len() == after.len()
    &&& forall|i: int|
        0 <= i < parts.len() ==> {
            let tick = slot_tick(before[i], #[trigger] parts[i]);
            carried_out(tick.script, parts[i]) && after[i] == tick.state
        }
    &&& forall|i: int| parts.len() <= i < after.len() ==> #[trigger] after[i] == before[i]
    &&& forall|i: int|
        0 <= i < parts.len() - 1 ==> !starts(before[i], #[trigger] parts[i])
    &&& parts.len() < before.len() ==> parts.len() > 0 && starts(
        before[parts.len() - 1],
        parts.last(),
    )
}

/// The bulk transfer that a round leaves on its way, if it started one.
pub open spec fn started_by(before: Seq<SlotState>, parts: Seq<Seq<Access>>) -> Option<BulkOp> {
    let last = parts.len() - 1;
    match slot_tick(before[last], parts[last]).result {
        Ok(BulkAction::Started { kind, pointer, len }) => Some(
            BulkOp {
                socket: last as usize,
                kind,
                block: before[last].backend.block,
                pointer,
                len,
                stale: false,
            },
        ),
        _ => None,
    }
}

/// Whether the accesses `done` are a round that took the chip from `before` to
/// `after`.
pub open spec fn ran(before: ChipState, done: Seq<Access>, after: ChipState) -> bool {
    exists|parts: Seq<Seq<Access>>|
        {
            &&& done == joined(parts)
            &&& #[trigger] round(before.sockets, parts, after.sockets)
            &&& after == before.with_slots(after.sockets).with_bulk(
                match started_by(before.sockets, parts) {
                    Some(bulk) => Some(bulk),
                    None => before.bulk,
                },
            )
        }
}

/// The network settings that are to be applied.
pub open spec fn pending_config(chip: ChipState) -> Option<NetworkConfig> {
    if chip.config_dirty {
        chip.config
    } else {
        None
    }
}

/// Whether the accesses `done` are what a chip with a link does in the
/// background: settings that are pending are applied, then there is a round.
pub open spec fn linked(
    before: ChipState,
    done: Seq<Access>,
    after: ChipState,
    r: Result<Serviced, Error>,
) -> bool {
    match pending_config(before) {
        Some(config) => {
            let script = network_script(before.mac, config.ip, config.gateway, config.subnet);
            if done.len() < script.len() || failed(done.take(script.len() as int)) {
                &&& carried_out(script, done)
                &&& r == Err::<Serviced, Error>(failure(done))
                &&& after == before
            } else {
                &&& carried_out(script, done.take(script.len() as int))
                &&& ran(
                    (ChipState { config_dirty: false, ..before }),
                    done.skip(script.len() as int),
                    after,
                )
                &&& r == Ok::<Serviced, Error>(Serviced::Done)
            }
        },
        None => ran(before, done, after) && r == Ok::<Serviced, Error>(Serviced::Done),
    }
}

/// Whether the accesses `done` are a background step that took the chip from
/// `before` to `after`. While a bulk transfer is on its way nothing is done.
pub open spec fn serviced(
    before: ChipState,
    done: Seq<Access>,
    after: ChipState,
    r: Result<Serviced, Error>,
) -> bool {
    if before.bulk is Some {
        &&& done.len() == 0
        &&& r == Ok::<Serviced, Error>(Serviced::Done)
        &&& after == before
    } else {
        let up = phy_up(byte(done[0]));
        let seen = ChipState { link_up: up, ..before };
        &&& done.len() > 0
        &&& done[0].request == read_request(common(PHYSR), 1)
        &&& match done[0].outcome {
            Err(e) => {
                &&& done.len() == 1
                &&& r == Err::<Serviced, Error>(e)
                &&& after == before
            },
            Ok(_) if up => linked(seen, done.skip(1), after, r),
            Ok(_) => {
                &&& done.len() == 1
                &&& r == Ok::<Serviced, Error>(
                    if before.link_up {
                        Serviced::LinkLost
                    } else {
                        Serviced::Done
                    },
                )
                &&& after == seen
            },
        }
    }
}

/// What a finished transfer does to the rings: what came in is put into the rx
/// ring, a datagram as a frame and only if all of it fits. What came in for a
/// socket that was re-armed since is dropped.
pub open spec fn delivered(bulk: BulkOp, rings: RingsState, window: Seq<u8>) -> RingsState {
    if bulk.stale {
        rings
    } else {
        match bulk.kind {
            BulkKind::Receive => RingsState { rx: rings.rx.put(window), ..rings },
            BulkKind::ReceiveDatagram { src_ip, src_port } => if has_room(
                rings.rx,
                window.len(),
            ) {
                RingsState {
                    rx: framed(rings.rx, SocketAddr { ip: src_ip, port: src_port }, window),
                    ..rings
                }
            } else {
                rings
            },
            BulkKind::Transmit => rings,
        }
    }
}

/// What a finished transfer asks of the chip: its pointer is moved past what was
/// moved, and the chip is told.
pub open spec fn commit_script(bulk: BulkOp) -> Seq<Request> {
    let end = ahead(bulk.pointer, bulk.len as int);
    match bulk.kind {
        BulkKind::Transmit => seq![
            write16(bulk.block, SN_TX_WR0, end),
            command(bulk.block, SocketCommand::Send),
        ],
        _ => received_script(bulk.block, end),
    }
}

/// The chip once the transfer `bulk` has ended, with what came in put into the rx
/// ring. No protocol state is touched.
pub open spec fn landed(chip: ChipState, bulk: BulkOp, window: Seq<u8>) -> ChipState {
    let slot = chip.sockets[bulk.socket as int];
    chip.with_slot(
        bulk.socket as int,
        SlotState { rings: delivered(bulk, slot.rings, window), ..slot },
    ).with_bulk(None)
}

/// Whether the accesses `done` finish the bulk transfer of `before`, which
/// captured `window`, and then do a background step. Without a transfer on its
/// way nothing is done.
pub open spec fn completed(
    before: ChipState,
    window: Seq<u8>,
    done: Seq<Access>,
    after: ChipState,
    r: Result<Serviced, Error>,
) -> bool {
    match before.bulk {
        None => {
            &&& done.len() == 0
            &&& r == Ok::<Serviced, Error>(Serviced::Done)
            &&& after == before
        },
        Some(bulk) => {
            let script = seq![Request::Finish] + commit_script(bulk);
            let n = script.len() as int;
            let mid = landed(before, bulk, window);
            if done.len() < n || failed(done.take(n)) {
                &&& carried_out(script, done)
                &&& r == Err::<Serviced, Error>(failure(done))
                &&& after == mid
            } else {
                &&& carried_out(script, done.take(n))
                &&& serviced(mid, done.skip(n), after, r)
            }
        },
    }
}

/// Applying the network settings, between an unlock and a lock.
pub open spec fn network_script(mac: Seq<u8>, ip: u32, gateway: u32, mask: u32) -> Seq<Request> {
    seq![
        write_request(common(NETLCKR), seq![0x3Au8]),
        write_request(common(SHAR), mac),
        write_request(common(SIPR), crate::bytes::be32(ip)),
        write_request(common(GAR), crate::bytes::be32(gateway)),
        write_request(common(SUBR), crate::bytes::be32(mask)),
        write_request(common(NETLCKR), seq![0xC5u8]),
    ]
}

/// Whether a PHY status reports a cable and a link.
pub open spec fn phy_up(status: u8) -> bool {
    status & PHY_CABLE_OFF == 0 && status & PHY_LINK_UP == PHY_LINK_UP
}

/// The chip's driver: it owns the link to the chip and all protocol state.
pub struct W6100<'a, D: SpiDmaDevice> {
    transceiver: Transceiver<D>,
    mac: [u8; 6],
    // Network addressing: `None` until provided at runtime. `service` (re)applies
    // it to the chip whenever it is set or the link comes back up.
    config: Option<NetworkConfig>,
    config_dirty: bool,
    link_up: bool,
    sockets: [Socket<'a>; 8],
    bulk: Option<BulkOp>,
}

/// The search for a busy socket goes on behind one that is not.
proof fn lemma_first_busy(slots: Seq<SlotState>, i: int)
    requires
        0 <= i <= slots.len(),
    ensures
        i < slots.len() && slots[i].busy ==> first_busy(slots, i) == i,
        i < slots.len() && !slots[i].busy ==> first_busy(slots, i) == first_busy(slots, i + 1),
        i <= first_busy(slots, i) <= slots.len(),
    decreases slots.len() - i,
{
    if i < slots.len() {
        lemma_first_busy(slots, i + 1);
    }
}

/// Once all sockets are closed, what comes after does not change them.
proof fn lemma_reset_slots_on(slots: Seq<SlotState>, done: Seq<Access>, more: Seq<Access>)
    requires
        first_busy(slots, 0) == slots.len(),
        done.len() == 3 * slots.len(),
        passed(done, done.len()),
        passed(more, done.len()),
    ensures
        reset_slots(slots, done, 3) == reset_slots(slots, more, 3),
{
    assert(reset_slots(slots, done, 3) =~= reset_slots(slots, more, 3));
}

/// While a transfer is on its way, the first access that does not end it would
/// have to wait.
proof fn lemma_taken_bus<D: SpiDmaDevice>(before: &Transceiver<D>, after: &Transceiver<D>)
    requires
        before.wf(),
        before.advanced(after),
        !before.is_idle(),
    ensures
        before.did(after).len() > 0 && !lands(before.did(after)[0]) ==> before.did(after)[0].outcome
            == Err::<Seq<Seq<u8>>, Error>(Error::WouldBlock),
{
    let n = before.log().len() as int;
    if before.did(after).len() > 0 {
        before.law_bus_owned_now();
        after.law_bus_owned(n);
        assert(after.log().take(n) =~= before.log());
        assert(before.did(after)[0] == after.log()[n]);
    }
}

/// A claimable socket that was found is claimable, and the search stays within
/// the sockets.
proof fn lemma_first_claimable(slots: Seq<SlotState>, i: int)
    requires
        0 <= i <= slots.len(),
    ensures
        i <= first_claimable(slots, i) <= slots.len(),
        first_claimable(slots, i) < slots.len() ==> slots[first_claimable(slots, i)].claimable(),
    decreases slots.len() - i,
{
    if i < slots.len() {
        lemma_first_claimable(slots, i + 1);
    }
}

/// Resetting one socket more.
proof fn lemma_resets_step(slots: Seq<SlotState>, i: int)
    requires
        0 <= i < slots.len(),
    ensures
        resets_script(slots, 0) == Seq::<Request>::empty(),
        resets_script(slots, i + 1) == resets_script(slots, i) + init_script(
            slots[i].backend.block,
            SocketProtocolMode::Closed,
        ),
{
    reveal(resets_script);
    assert(resets_script(slots, 0) =~= Seq::<Request>::empty());
    assert(resets_script(slots, i + 1) =~= resets_script(slots, i) + init_script(
        slots[i].backend.block,
        SocketProtocolMode::Closed,
    ));
}

/// Resetting some sockets starts with resetting fewer.
proof fn lemma_resets_prefix(slots: Seq<SlotState>, i: int, n: int)
    requires
        0 <= i <= n <= slots.len(),
    ensures
        resets_script(slots, i).len() == 3 * i,
        resets_script(slots, n).len() == 3 * n,
        resets_script(slots, n) == resets_script(slots, i) + resets_script(slots, n).skip(3 * i),
{
    reveal(resets_script);
    assert(resets_script(slots, n) =~= resets_script(slots, i) + resets_script(slots, n).skip(3 * i));
}

/// What a socket is in.
pub open spec fn slot_of(socket: Socket<'_>) -> SlotState {
    SlotState {
        backend: socket.backend@,
        busy: socket.backend.is_busy(),
        rings: socket.rings@,
    }
}

/// Whether a socket waits for the transfer `bulk`: it is in use, and what comes in
/// fits its rx ring.
pub open spec fn awaits(slot: SlotState, bulk: BulkOp) -> bool {
    !slot.backend.is_over() && fits(slot.rings, bulk.kind, bulk.len)
}

/// Whether a socket that waits for a transfer before also does after.
pub open spec fn keeps_waiting(before: SlotState, after: SlotState) -> bool {
    ||| before.backend.is_over()
    ||| !after.backend.is_over() && after.rings.rx.free() >= before.rings.rx.free()
}

/// An unoccupied socket behind `block`.
pub open spec fn fresh_slot(block: BlockAddress) -> SlotState {
    SlotState {
        backend: SocketBackend { block, state: BackendState::Free, release_requested: false },
        busy: false,
        rings: RingsState { rx: RingState::none(), tx: RingState::none() },
    }
}

/// The blocks of socket `i`.
pub open spec fn socket_block(i: int) -> BlockAddress {
    if i == 0 {
        BlockAddress {
            reg: BlockSelectionBits::Socket0Register,
            tx: BlockSelectionBits::Socket0TxBuffer,
            rx: BlockSelectionBits::Socket0RxBuffer,
        }
    } else if i == 1 {
        BlockAddress {
            reg: BlockSelectionBits::Socket1Register,
            tx: BlockSelectionBits::Socket1TxBuffer,
            rx: BlockSelectionBits::Socket1RxBuffer,
        }
    } else if i == 2 {
        BlockAddress {
            reg: BlockSelectionBits::Socket2Register,
            tx: BlockSelectionBits::Socket2TxBuffer,
            rx: BlockSelectionBits::Socket2RxBuffer,
        }
    } else if i == 3 {
        BlockAddress {
            reg: BlockSelectionBits::Socket3Register,
            tx: BlockSelectionBits::Socket3TxBuffer,
            rx: BlockSelectionBits::Socket3RxBuffer,
        }
    } else if i == 4 {
        BlockAddress {
            reg: BlockSelectionBits::Socket4Register,
            tx: BlockSelectionBits::Socket4TxBuffer,
            rx: BlockSelectionBits::Socket4RxBuffer,
        }
    } else if i == 5 {
        BlockAddress {
            reg: BlockSelectionBits::Socket5Register,
            tx: BlockSelectionBits::Socket5TxBuffer,
            rx: BlockSelectionBits::Socket5RxBuffer,
        }
    } else if i == 6 {
        BlockAddress {
            reg: BlockSelectionBits::Socket6Register,
            tx: BlockSelectionBits::Socket6TxBuffer,
            rx: BlockSelectionBits::Socket6RxBuffer,
        }
    } else {
        BlockAddress {
            reg: BlockSelectionBits::Socket7Register,
            tx: BlockSelectionBits::Socket7TxBuffer,
            rx: BlockSelectionBits::Socket7RxBuffer,
        }
    }
}

/// Build one unoccupied socket for the given register/buffer block selectors.
fn backend_cell<'a>(
    reg: BlockSelectionBits,
    tx: BlockSelectionBits,
    rx: BlockSelectionBits,
) -> (socket: Socket<'a>)
    ensures
        slot_of(socket) == fresh_slot(BlockAddress { reg, tx, rx }),
        socket.rings.wf(),
{
    Socket {
        backend: AtomicCell::new(SocketBackend::new(BlockAddress { reg, tx, rx })),
        rings: SocketRings::new(),
    }
}

impl<'a, D: SpiDmaDevice> View for W6100<'a, D> {
    type V = ChipState;

    closed spec fn view(&self) -> ChipState {
        ChipState {
            mac: self.mac@,
            config: self.config,
            config_dirty: self.config_dirty,
            link_up: self.link_up,
            sockets: Seq::new(8, |i: int| slot_of(self.sockets[i])),
            bulk: self.bulk,
        }
    }
}

impl<'a, D: SpiDmaDevice> W6100<'a, D> {
    /// The link to the chip, with the record of all accesses.
    pub closed spec fn link(&self) -> Transceiver<D> {
        self.transceiver
    }

    /// A transfer is on its way exactly if one is noted, what it captures is as
    /// long as noted, and the socket that started it waits for it.
    pub closed spec fn wf(&self) -> bool {
        &&& self.transceiver.wf()
        &&& forall|i: int| 0 <= i < 8 ==> (#[trigger] self.sockets[i]).rings.wf()
        &&& match self.bulk {
            Some(bulk) => {
                &&& !self.transceiver.is_idle()
                &&& bulk.socket < 8
                &&& bulk.kind != BulkKind::Transmit ==> self.transceiver.window().len() == bulk.len
                &&& awaits(slot_of(self.sockets[bulk.socket as int]), bulk)
            },
            None => self.transceiver.is_idle(),
        }
    }

    /// The accesses that were made on the way to `after`.
    pub open spec fn did(&self, after: &Self) -> Seq<Access> {
        self.link().did(&after.link())
    }

    /// `after` is this, later: nothing recorded is lost.
    pub open spec fn led_to(&self, after: &Self) -> bool {
        after.wf() && self.link().advanced(&after.link())
    }

    /// The chip has eight sockets.
    pub proof fn lemma_slots(&self)
        ensures
            self@.sockets.len() == 8,
    {
    }

    /// A ring never holds more than it has room for.
    pub proof fn lemma_rings(&self, i: int)
        requires
            self.wf(),
            0 <= i < 8,
        ensures
            self@.sockets[i].rings.rx.free() >= 0,
            self@.sockets[i].rings.tx.free() >= 0,
    {
        assert(self.sockets[i].rings.wf());
        self.sockets[i].rings.rx.lemma_bounds();
        self.sockets[i].rings.tx.lemma_bounds();
    }

    /// A transfer is on its way exactly if one is noted.
    pub proof fn law_bulk_noted(&self)
        requires
            self.wf(),
        ensures
            self.link().wf(),
            self@.bulk is Some == !self.link().is_idle(),
    {
    }

    /// What a transfer on its way brings in is what came in with the access that
    /// started it, and as long as noted.
    pub proof fn law_payload_captured(&self)
        requires
            self.wf(),
            self@.bulk is Some,
        ensures
            ({
                let link = self.link();
                let bulk = self@.bulk->0;
                &&& !link.is_idle()
                &&& 0 <= link.flight() < link.log().len()
                &&& takes_off(link.log()[link.flight()])
                &&& link.window() == link.log()[link.flight()].events[0]->Transfer_miso.skip(
                    HEADER as int,
                )
                &&& bulk.kind != BulkKind::Transmit ==> link.window().len() == bulk.len
            }),
    {
        self.transceiver.law_window_captured();
    }

    /// What a transfer on its way brings in always arrives whole, whatever was done
    /// since it was started short of re-arming the socket: the bytes of a stream
    /// behind those in the rx ring, and a datagram as one frame.
    pub proof fn law_payload_arrives_whole(&self)
        requires
            self.wf(),
            self@.bulk is Some,
            !self@.bulk->0.stale,
        ensures
            ({
                let bulk = self@.bulk->0;
                let rings = self@.sockets[bulk.socket as int].rings;
                let window = self.link().window();
                let after = delivered(bulk, rings, window);
                match bulk.kind {
                    BulkKind::Receive => {
                        &&& window.len() == bulk.len
                        &&& after.rx.bytes == rings.rx.bytes + window
                    },
                    BulkKind::ReceiveDatagram { src_ip, src_port } => {
                        &&& window.len() == bulk.len
                        &&& after.rx == framed(
                            rings.rx,
                            SocketAddr { ip: src_ip, port: src_port },
                            window,
                        )
                    },
                    BulkKind::Transmit => after == rings,
                }
            }),
    {
        let window = self.link().window();
        assert(window.take(window.len() as int) =~= window);
    }

    /// Take over the device and the scratch buffers. The chip itself is not
    /// touched: it is to be reset first.
    pub fn new(spi: D, scratch_buffers: DmaBuffers, mac: [u8; 6]) -> (chip: Self)
        requires
            scratch_buffers.rx@.len() == scratch_buffers.tx@.len(),
        ensures
            chip.wf(),
            chip@ == (ChipState {
                mac: mac@,
                config: None,
                config_dirty: false,
                link_up: false,
                sockets: Seq::new(8, |i: int| fresh_slot(socket_block(i))),
                bulk: None,
            }),
            chip.link().log() == Seq::<Access>::empty(),
            chip.link().origin() == spi.trace(),
            chip.link().capacity() == old(scratch_buffers.rx)@.len(),
    {
        let chip = W6100 {
            transceiver: Transceiver::new(spi, scratch_buffers),
            mac,
            config: None,
            config_dirty: false,
            link_up: false,
            sockets: [
                backend_cell(
                    BlockSelectionBits::Socket0Register,
                    BlockSelectionBits::Socket0TxBuffer,
                    BlockSelectionBits::Socket0RxBuffer,
                ),
                backend_cell(
                    BlockSelectionBits::Socket1Register,
                    BlockSelectionBits::Socket1TxBuffer,
                    BlockSelectionBits::Socket1RxBuffer,
                ),
                backend_cell(
                    BlockSelectionBits::Socket2Register,
                    BlockSelectionBits::Socket2TxBuffer,
                    BlockSelectionBits::Socket2RxBuffer,
                ),
                backend_cell(
                    BlockSelectionBits::Socket3Register,
                    BlockSelectionBits::Socket3TxBuffer,
                    BlockSelectionBits::Socket3RxBuffer,
                ),
                backend_cell(
                    BlockSelectionBits::Socket4Register,
                    BlockSelectionBits::Socket4TxBuffer,
                    BlockSelectionBits::Socket4RxBuffer,
                ),
                backend_cell(
                    BlockSelectionBits::Socket5Register,
                    BlockSelectionBits::Socket5TxBuffer,
                    BlockSelectionBits::Socket5RxBuffer,
                ),
                backend_cell(
                    BlockSelectionBits::Socket6Register,
                    BlockSelectionBits::Socket6TxBuffer,
                    BlockSelectionBits::Socket6RxBuffer,
                ),
                backend_cell(
                    BlockSelectionBits::Socket7Register,
                    BlockSelectionBits::Socket7TxBuffer,
                    BlockSelectionBits::Socket7RxBuffer,
                ),
            ],
            bulk: None,
        };
        assert(chip@.sockets =~= Seq::new(8, |i: int| fresh_slot(socket_block(i))));
        chip
    }

    /// The first half of a reset, after an attempt to drive the reset line low:
    /// `line_low` tells whether that worked. A transfer on its way is torn down,
    /// and the line is held for a while.
    pub fn begin_reset(&mut self, line_low: bool) -> (r: Result<(), Error>)
        requires
            old(self).wf(),
        ensures
            old(self).led_to(final(self)),
            !line_low ==> {
                &&& r == Err::<(), Error>(Error::Other(DriverError::PinError))
                &&& *final(self) == *old(self)
            },
            line_low ==> {
                let done = old(self).did(final(self));
                &&& carried_out(
                    (if old(self)@.bulk is Some {
                        seq![Request::Abort]
                    } else {
                        Seq::empty()
                    }).push(delay_request(RESET_HOLD_NS)),
                    done,
                )
                &&& !failed(done)
                &&& r == Ok::<(), Error>(())
                &&& final(self)@ == (ChipState { bulk: None, ..old(self)@ })
            },
    {
        if !line_low {
            return Err(Error::Other(DriverError::PinError));
        }
        self.transceiver.abort();
        self.bulk = None;
        let held = self.transceiver.delay(RESET_HOLD_NS);
        assert(self@.sockets =~= old(self)@.sockets);
        held
    }

    /// The second half of a reset, after an attempt to drive the reset line high:
    /// `line_high` tells whether that worked. The chip identifies itself, and all
    /// sockets are closed; those that are in use will be opened again.
    pub fn reset(&mut self, line_high: bool) -> (r: Result<(), Error>)
        requires
            old(self).wf(),
        ensures
            old(self).led_to(final(self)),
            !line_high ==> {
                &&& r == Err::<(), Error>(Error::Other(DriverError::PinError))
                &&& *final(self) == *old(self)
            },
            line_high ==> {
                let done = old(self).did(final(self));
                let slots = old(self)@.sockets;
                &&& carried_out(reset_script(slots, done), done)
                &&& r == reset_result(slots, done)
                &&& final(self)@ == old(self)@.with_slots(reset_slots(slots, done, 5))
            },
    {
        if !line_high {
            return Err(Error::Other(DriverError::PinError));
        }
        if self.transceiver.read_u16(&register(CIDR))? != CHIP_ID {
            return Err(Error::Other(DriverError::UnexpectedResponse));
        }
        if self.transceiver.read_u16(&register(VER))? != CHIP_VERSION {
            return Err(Error::Other(DriverError::UnexpectedResponse));
        }
        let ghost mid = *self;
        let ghost who = seq![read_request(common(CIDR), 2), read_request(common(VER), 2)];
        let up = self.bring_up();
        proof {
            lemma_behind(
                &old(self).link(),
                &mid.link(),
                &self.link(),
                who,
                bring_up_script(old(self)@.sockets),
            );
            lemma_first_busy(old(self)@.sockets, 0);
            assert(self@.sockets =~= reset_slots(old(self)@.sockets, old(self).did(self), 5));
        }
        up
    }

    /// Close all sockets and enable the interrupts.
    #[verifier::rlimit(30)]
    #[verifier::spinoff_prover]
    fn bring_up(&mut self) -> (r: Result<(), Error>)
        requires
            old(self).wf(),
        ensures
            old(self).led_to(final(self)),
            ({
                let done = old(self).did(final(self));
                let slots = old(self)@.sockets;
                &&& carried_out(bring_up_script(slots), done)
                &&& r == concluded(
                    done,
                    if first_busy(slots, 0) < slots.len() {
                        Err(Error::WouldBlock)
                    } else {
                        Ok(())
                    },
                )
                &&& final(self)@ == old(self)@.with_slots(reset_slots(slots, done, 3))
            }),
    {
        let ghost slots = self@.sockets;
        let ghost n = first_busy(slots, 0);
        proof {
            lemma_first_busy(slots, 0);
            lemma_resets_prefix(slots, n, n);
        }
        let closed = self.close_sockets();
        let ghost first = old(self).did(self);
        if closed.is_err() {
            proof {
                if n == slots.len() {
                    lemma_carried_out_fails(resets_script(slots, n), enable_script(), first);
                }
            }
            return closed;
        }
        let ghost mid = *self;
        let enabled = self.enable();
        proof {
            assert(bring_up_script(slots) == resets_script(slots, n) + enable_script());
            lemma_behind(
                &old(self).link(),
                &mid.link(),
                &self.link(),
                resets_script(slots, n),
                enable_script(),
            );
            lemma_reset_slots_on(slots, old(self).did(&mid), old(self).did(self));
        }
        enabled
    }

    /// Enable the interrupts of all sockets.
    fn enable(&mut self) -> (r: Result<(), Error>)
        requires
            old(self).wf(),
        ensures
            old(self).led_to(final(self)),
            carried_out(enable_script(), old(self).did(final(self))),
            r == ended(old(self).did(final(self))),
            final(self)@ == old(self)@,
    {
        // Unlock SYSR registers
        self.transceiver.write_u8(&register(CHPLCKR), 0xCE)?;
        // Enable interrupts, clock-select 100Mhz
        self.transceiver.write_u8(&register(SYCR1), 0b1000_0000)?;
        // Lock SYSR registers
        self.transceiver.write_u8(&register(CHPLCKR), 0x00)?;

        // Route every socket's interrupts to the INT pin.
        self.transceiver.write_u8(&register(SIMR), 0xFF)?;

        Ok(())
    }

    /// Force all sockets back to CLOSED, as far as none is held elsewhere.
    #[verifier::rlimit(30)]
    #[verifier::spinoff_prover]
    fn close_sockets(&mut self) -> (r: Result<(), Error>)
        requires
            old(self).wf(),
        ensures
            old(self).led_to(final(self)),
            ({
                let done = old(self).did(final(self));
                let slots = old(self)@.sockets;
                let n = first_busy(slots, 0);
                &&& carried_out(resets_script(slots, n), done)
                &&& r == concluded(
                    done,
                    if n < slots.len() {
                        Err(Error::WouldBlock)
                    } else {
                        Ok(())
                    },
                )
                &&& final(self)@ == old(self)@.with_slots(reset_slots(slots, done, 3))
            }),
    {
        let ghost slots = self@.sockets;
        let mut i: usize = 0;
        proof {
            lemma_resets_step(slots, 0);
        }
        while i < 8
            invariant
                i <= 8,
                slots == old(self)@.sockets,
                slots.len() == 8,
                first_busy(slots, 0) == first_busy(slots, i as int),
                old(self).led_to(self),
                carried_out(resets_script(slots, i as int), old(self).did(self)),
                old(self).did(self).len() == 3 * i,
                !failed(old(self).did(self)),
                self@ == old(self)@.with_slots(self@.sockets),
                self@.sockets.len() == 8,
                forall|j: int|
                    0 <= j < i ==> #[trigger] self@.sockets[j] == slots[j].with(
                        slots[j].backend.after_reset(),
                    ),
                forall|j: int| i <= j < 8 ==> #[trigger] self@.sockets[j] == slots[j],
            decreases 8 - i,
        {
            let ghost mid = *self;
            let ghost close = init_script(slots[i as int].backend.block, SocketProtocolMode::Closed);
            let closed = self.close_socket(i);
            proof {
                lemma_first_busy(slots, i as int);
                if !slots[i as int].busy {
                    lemma_resets_step(slots, i as int);
                    lemma_behind(
                        &old(self).link(),
                        &mid.link(),
                        &self.link(),
                        resets_script(slots, i as int),
                        close,
                    );
                }
            }
            if closed.is_err() {
                proof {
                    let done = old(self).did(self);
                    let n = first_busy(slots, 0);
                    if !slots[i as int].busy {
                        lemma_first_busy(slots, i + 1);
                        lemma_resets_prefix(slots, i + 1, n);
                        lemma_carried_out_fails(
                            resets_script(slots, i + 1),
                            resets_script(slots, n).skip(3 * (i + 1)),
                            done,
                        );
                    }
                    assert(self@.sockets =~= reset_slots(slots, done, 3));
                }
                return closed;
            }
            i = i + 1;
        }
        proof {
            assert(self@.sockets =~= reset_slots(slots, old(self).did(self), 3));
        }
        Ok(())
    }

    /// Force one socket back to CLOSED, unless it is held elsewhere.
    fn close_socket(&mut self, i: usize) -> (r: Result<(), Error>)
        requires
            old(self).wf(),
            i < 8,
        ensures
            old(self).led_to(final(self)),
            ({
                let done = old(self).did(final(self));
                let slot = old(self)@.sockets[i as int];
                if slot.busy {
                    &&& done.len() == 0
                    &&& r == Err::<(), Error>(Error::WouldBlock)
                    &&& final(self)@ == old(self)@
                } else {
                    &&& carried_out(init_script(slot.backend.block, SocketProtocolMode::Closed), done)
                    &&& r == ended(done)
                    &&& final(self)@ == old(self)@.with_slot(
                        i as int,
                        if r is Ok {
                            slot.with(slot.backend.after_reset())
                        } else {
                            slot
                        },
                    )
                }
            }),
    {
        let r = match self.sockets[i].backend.lock_mut() {
            Ok(mut guard) => guard.as_mut().reset(&mut self.transceiver),
            Err(held) => Err(Error::from(held)),
        };
        assert(self@.sockets =~= old(self)@.sockets.update(i as int, slot_of(self.sockets[i as int])));
        proof {
            if old(self).bulk is Some {
                lemma_taken_bus(&old(self).transceiver, &self.transceiver);
            }
        }
        r
    }

    /// Apply the network settings to the chip.
    pub fn setup_network(&mut self, source_addr: u32, gateway_address: u32, mask: u32) -> (r: Result<
        (),
        Error,
    >)
        requires
            old(self).wf(),
        ensures
            old(self).led_to(final(self)),
            carried_out(
                network_script(old(self)@.mac, source_addr, gateway_address, mask),
                old(self).did(final(self)),
            ),
            r == ended(old(self).did(final(self))),
            final(self)@ == old(self)@,
    {
        // Unlock network settings
        self.transceiver.write_u8(&register(NETLCKR), 0x3A)?;

        self.transceiver.write(&register(SHAR), &self.mac)?;
        self.transceiver.write_u32(&register(SIPR), source_addr)?;
        self.transceiver.write_u32(&register(GAR), gateway_address)?;
        self.transceiver.write_u32(&register(SUBR), mask)?;

        // Lock network settings
        self.transceiver.write_u8(&register(NETLCKR), 0xC5)?;

        Ok(())
    }

    /// Ask the chip whether the PHY has a link.
    pub fn is_link_up(&mut self) -> (r: Result<bool, Error>)
        requires
            old(self).wf(),
        ensures
            old(self).led_to(final(self)),
            ({
                let done = old(self).did(final(self));
                &&& carried_out(seq![read_request(common(PHYSR), 1)], done)
                &&& r == concluded(done, Ok(phy_up(byte(done[0]))))
            }),
            final(self)@ == old(self)@,
    {
        let status = self.transceiver.read_u8(&register(PHYSR))?;

        Ok(status & PHY_CABLE_OFF == 0 && status & PHY_LINK_UP == PHY_LINK_UP)
    }

    /// Drive one socket for one tick, unless it is held elsewhere, and note the
    /// bulk transfer that it started.
    fn run_socket(&mut self, i: usize) -> (r: Result<BulkAction, Error>)
        requires
            old(self).wf(),
            i < 8,
        ensures
            old(self).led_to(final(self)),
            ({
                let done = old(self).did(final(self));
                let slot = old(self)@.sockets[i as int];
                let tick = slot_tick(slot, done);
                &&& carried_out(tick.script, done)
                &&& r == tick.result
                &&& final(self)@ == old(self)@.with_slot(i as int, tick.state).with_bulk(
                    match r {
                        Ok(BulkAction::Started { kind, pointer, len }) => Some(
                            BulkOp {
                                socket: i,
                                kind,
                                block: slot.backend.block,
                                pointer,
                                len,
                                stale: false,
                            },
                        ),
                        _ => old(self)@.bulk,
                    },
                )
            }),
            r is Ok && r->Ok_0 is Started ==> final(self).link().just_launched(),
    {
        let socket = &mut self.sockets[i];
        let r = match socket.backend.lock_mut() {
            Ok(mut guard) => {
                let block = guard.as_mut().block();
                let ticked = guard.as_mut().run(&mut self.transceiver, &mut socket.rings);
                if let Ok(BulkAction::Started { kind, pointer, len }) = ticked {
                    self.bulk = Some(
                        BulkOp { socket: i, kind, block, pointer, len, stale: false },
                    );
                }
                ticked
            },
            // A socket currently held elsewhere is skipped this tick.
            Err(_) => Ok(BulkAction::Nothing),
        };
        assert(self@.sockets =~= old(self)@.sockets.update(i as int, slot_of(self.sockets[i as int])));
        proof {
            let slot = old(self)@.sockets[i as int];
            let done = old(self).did(self);
            if r is Ok && r->Ok_0 is Started {
                self.transceiver.law_window_captured();
            }
            if !slot.busy {
                lemma_started(slot.backend, slot.rings, done);
                if old(self).bulk is Some {
                    lemma_taken_bus(&old(self).transceiver, &self.transceiver);
                    lemma_first_request(slot.backend, slot.rings, done);
                    lemma_blocked(slot.backend, slot.rings, done);
                }
            }
        }
        r
    }

    /// Drive every socket for one tick, until one of them starts a bulk transfer.
    /// A socket that would have to wait is left for the next round.
    #[verifier::rlimit(30)]
    #[verifier::spinoff_prover]
    pub fn run(&mut self) -> (r: Result<(), Error>)
        requires
            old(self).wf(),
        ensures
            old(self).led_to(final(self)),
            ran(old(self)@, old(self).did(final(self)), final(self)@),
            old(self)@.bulk is None && final(self)@.bulk is Some
                ==> final(self).link().just_launched(),
            r == Ok::<(), Error>(()),
    {
        let ghost before = self@;
        let ghost mut parts: Seq<Seq<Access>> = Seq::empty();
        let mut i: usize = 0;
        while i < 8
            invariant
                i <= 8,
                before == old(self)@,
                before.sockets.len() == 8,
                parts.len() == i,
                old(self).led_to(self),
                old(self).did(self) == joined(parts),
                self@ == before.with_slots(self@.sockets),
                self@.sockets.len() == 8,
                forall|j: int|
                    0 <= j < i ==> {
                        let tick = slot_tick(before.sockets[j], #[trigger] parts[j]);
                        carried_out(tick.script, parts[j]) && self@.sockets[j] == tick.state
                    },
                forall|j: int| i <= j < 8 ==> #[trigger] self@.sockets[j] == before.sockets[j],
                forall|j: int| 0 <= j < i ==> !starts(before.sockets[j], #[trigger] parts[j]),
            decreases 8 - i,
        {
            let ghost mid = *self;
            let ticked = self.run_socket(i);
            proof {
                let part = mid.did(self);
                let grown = parts.push(part);
                assert(grown.drop_last() =~= parts);
                assert(old(self).did(self) =~= joined(grown));
                parts = grown;
            }
            match ticked {
                Ok(BulkAction::Started { .. }) => {
                    assert(round(before.sockets, parts, self@.sockets));
                    return Ok(());
                },
                Ok(BulkAction::Nothing) => {},
                Err(Error::WouldBlock) => {},
                Err(e) => {
                    return Err(e);
                },
            }
            i = i + 1;
        }
        assert(round(before.sockets, parts, self@.sockets));
        Ok(())
    }

    /// Provide (or replace) the IPv4 addressing. Non-blocking and SPI-free: the
    /// config is staged and applied to the chip by the next `service` tick. This
    /// is the integration point for a static setup at startup or a DHCP client
    /// handing over a lease.
    pub fn set_network_config(&mut self, config: NetworkConfig) -> (r: Result<(), Error>)
        requires
            old(self).wf(),
        ensures
            final(self).wf(),
            final(self).link() == old(self).link(),
            final(self)@ == (ChipState { config: Some(config), config_dirty: true, ..old(self)@ }),
            r == Ok::<(), Error>(()),
    {
        self.config = Some(config);
        self.config_dirty = true;
        assert(self@.sockets =~= old(self)@.sockets);

        Ok(())
    }

    /// The addressing that was provided last.
    pub fn network_config(&self) -> (config: Option<NetworkConfig>)
        ensures
            config == self@.config,
    {
        self.config
    }

    /// The PHY link state most recently observed by `service` (cached, no SPI).
    /// Use this from the application thread instead of `is_link_up`, which polls
    /// the chip over the bus.
    pub fn link_up(&self) -> (up: bool)
        ensures
            up == self@.link_up,
    {
        self.link_up
    }

    /// One background step: manage the PHY link, apply any pending network
    /// configuration, then drive every socket. If the link has just gone down the
    /// chip wants to be reset: that is reported, and
    /// [`begin_reset`](W6100::begin_reset) and
    /// [`reset_after_link_loss`](W6100::reset_after_link_loss) do it. While a bulk
    /// transfer is on its way the bus is not touched. Non-blocking.
    pub fn service(&mut self) -> (r: Result<Serviced, Error>)
        requires
            old(self).wf(),
        ensures
            old(self).led_to(final(self)),
            serviced(old(self)@, old(self).did(final(self)), final(self)@, r),
            old(self)@.bulk is None && final(self)@.bulk is Some
                ==> final(self).link().just_launched(),
            old(self)@.bulk is Some ==> *final(self) == *old(self),
    {
        if self.bulk.is_some() {
            return Ok(Serviced::Done);
        }
        let up = self.is_link_up()?;
        let was_up = self.link_up;
        self.link_up = up;
        assert(self@.sockets =~= old(self)@.sockets);

        if !up {
            if was_up {
                return Ok(Serviced::LinkLost);
            }
            return Ok(Serviced::Done);
        }
        let ghost mid = *self;
        let r = self.drive();
        proof {
            assert(old(self).did(self).skip(1) =~= mid.did(self));
            assert(old(self).did(self)[0] == old(self).did(&mid)[0]);
        }
        r
    }

    /// Apply any pending network configuration, then drive every socket.
    #[verifier::rlimit(30)]
    #[verifier::spinoff_prover]
    fn drive(&mut self) -> (r: Result<Serviced, Error>)
        requires
            old(self).wf(),
        ensures
            old(self).led_to(final(self)),
            linked(old(self)@, old(self).did(final(self)), final(self)@, r),
            old(self)@.bulk is None && final(self)@.bulk is Some
                ==> final(self).link().just_launched(),
    {
        // Apply pending network configuration once there is some. Until then the
        // chip stays at 0.0.0.0 (e.g. waiting for DHCP).
        if self.config_dirty {
            if let Some(config) = self.network_config() {
                let applied = self.setup_network(config.ip, config.gateway, config.subnet);
                proof {
                    let done = old(self).did(self);
                    if done.len() == 6 {
                        assert(done.take(6) =~= done);
                    }
                }
                applied?;
                self.config_dirty = false;
                assert(self@.sockets =~= old(self)@.sockets);
                let ghost mid = *self;
                let _ = self.run();
                proof {
                    assert(old(self).did(self).take(6) =~= old(self).did(&mid));
                    assert(old(self).did(self).skip(6) =~= mid.did(self));
                }
                return Ok(Serviced::Done);
            }
        }
        let _ = self.run();

        Ok(Serviced::Done)
    }

    /// The second half of a reset after the link went down. Network settings are
    /// wiped by the reset, so they are applied again on the way back up.
    pub fn reset_after_link_loss(&mut self, line_high: bool) -> (r: Result<(), Error>)
        requires
            old(self).wf(),
        ensures
            old(self).led_to(final(self)),
            !line_high ==> {
                &&& r == Err::<(), Error>(Error::Other(DriverError::PinError))
                &&& *final(self) == *old(self)
            },
            line_high ==> {
                let done = old(self).did(final(self));
                let slots = old(self)@.sockets;
                &&& carried_out(reset_script(slots, done), done)
                &&& r == reset_result(slots, done)
                &&& final(self)@ == (ChipState {
                    config_dirty: r is Ok || old(self)@.config_dirty,
                    ..old(self)@.with_slots(reset_slots(slots, done, 5))
                })
            },
    {
        self.reset(line_high)?;
        self.config_dirty = true;
        assert(self@.sockets =~= reset_slots(old(self)@.sockets, old(self).did(self), 5));

        Ok(())
    }

    /// Finish the bulk transfer on its way, after its interrupt: put what came in
    /// into the rx ring, unless the socket was re-armed since, and commit the
    /// chip-side pointer. Then do a background step. The protocol state of the socket is not touched.
    pub fn dma_complete(&mut self) -> (r: Result<Serviced, Error>)
        requires
            old(self).wf(),
        ensures
            old(self).led_to(final(self)),
            completed(
                old(self)@,
                old(self).link().window(),
                old(self).did(final(self)),
                final(self)@,
                r,
            ),
            final(self)@.bulk is Some ==> final(self).link().just_launched(),
    {
        let bulk = match self.bulk {
            Some(bulk) => bulk,
            None => {
                return Ok(Serviced::Done);
            },
        };
        let committed = self.commit(bulk);
        let ghost script = seq![Request::Finish] + commit_script(bulk);
        proof {
            let done = old(self).did(self);
            if done.len() == script.len() {
                assert(done.take(script.len() as int) =~= done);
            }
        }
        committed?;
        let ghost mid = *self;
        let r = self.service();
        proof {
            assert(old(self).did(self).take(script.len() as int) =~= old(self).did(&mid));
            assert(old(self).did(self).skip(script.len() as int) =~= mid.did(self));
        }
        r
    }

    /// End the transfer `bulk`, which is the one on its way.
    fn commit(&mut self, bulk: BulkOp) -> (r: Result<(), Error>)
        requires
            old(self).wf(),
            old(self)@.bulk == Some(bulk),
        ensures
            old(self).led_to(final(self)),
            carried_out(
                seq![Request::Finish] + commit_script(bulk),
                old(self).did(final(self)),
            ),
            r == ended(old(self).did(final(self))),
            final(self)@ == landed(old(self)@, bulk, old(self).link().window()),
    {
        self.land(bulk);
        let ghost mid = *self;
        let committed = commit_pointer(&bulk, &mut self.transceiver);
        proof {
            lemma_behind(
                &old(self).link(),
                &mid.link(),
                &self.link(),
                seq![Request::Finish],
                commit_script(bulk),
            );
            assert(self@.sockets =~= mid@.sockets);
        }
        committed
    }

    /// End the transfer `bulk` on the bus and put what came in into the rx ring.
    fn land(&mut self, bulk: BulkOp)
        requires
            old(self).wf(),
            old(self)@.bulk == Some(bulk),
        ensures
            old(self).led_to(final(self)),
            old(self).did(final(self)).len() == 1,
            old(self).did(final(self))[0].request == Request::Finish,
            old(self).did(final(self))[0].outcome is Ok,
            final(self)@ == landed(old(self)@, bulk, old(self).link().window()),
    {
        self.bulk = None;
        let socket = &mut self.sockets[bulk.socket];
        match bulk.kind {
            BulkKind::Receive => {
                if let Some(window) = self.transceiver.finish_read() {
                    if !bulk.stale {
                        let _ = socket.rings.rx.write(window);
                    }
                }
            },
            BulkKind::ReceiveDatagram { src_ip, src_port } => {
                if let Some(window) = self.transceiver.finish_read() {
                    if !bulk.stale {
                        let _ = put_frame(
                            &mut socket.rings.rx,
                            SocketAddr { ip: src_ip, port: src_port },
                            window,
                        );
                    }
                }
            },
            BulkKind::Transmit => {
                let _ = self.transceiver.finish_write();
            },
        }
        assert(self@.sockets =~= old(self)@.sockets.update(
            bulk.socket as int,
            slot_of(self.sockets[bulk.socket as int]),
        ));
    }

    /// The socket in slot `i`.
    pub(crate) fn socket_mut(&mut self, i: usize) -> (socket: &mut Socket<'a>)
        requires
            old(self).wf(),
            i < 8,
        ensures
            old(self)@.sockets.len() == 8,
            slot_of(*socket) == old(self)@.sockets[i as int],
            socket.rings.wf(),
            final(self)@ == old(self)@.with_slot(i as int, slot_of(*final(socket))),
            final(self).link() == old(self).link(),
            final(socket).rings.wf() && keeps_waiting(slot_of(*socket), slot_of(*final(socket)))
                ==> final(self).wf(),
    {
        &mut self.sockets[i]
    }

    /// Mark the transfer on its way as stale, if the socket in slot `i` started it.
    pub(crate) fn disown(&mut self, i: usize)
        requires
            old(self).wf(),
        ensures
            final(self).wf(),
            final(self)@ == old(self)@.disowned(i as int),
            final(self).link() == old(self).link(),
    {
        if let Some(bulk) = self.bulk {
            if bulk.socket == i {
                self.bulk = Some(BulkOp { stale: true, ..bulk });
            }
        }
        assert(self@.sockets =~= old(self)@.sockets);
    }

    /// The first slot that can be claimed.
    fn find_free(&mut self) -> (r: Option<usize>)
        requires
            old(self).wf(),
        ensures
            final(self).wf(),
            final(self)@ == old(self)@,
            final(self).link() == old(self).link(),
            match r {
                Some(i) => i < 8 && i == first_claimable(old(self)@.sockets, 0),
                None => first_claimable(old(self)@.sockets, 0) == 8,
            },
    {
        let mut i: usize = 0;
        while i < 8
            invariant
                i <= 8,
                self.wf(),
                self@ == old(self)@,
                self@.sockets.len() == 8,
                self.link() == old(self).link(),
                first_claimable(old(self)@.sockets, 0) == first_claimable(
                    old(self)@.sockets,
                    i as int,
                ),
            decreases 8 - i,
        {
            let ghost mid = *self;
            let socket = self.socket_mut(i);
            let free = match socket.backend.lock_mut() {
                Ok(mut guard) => guard.as_mut().is_free(),
                Err(_) => false,
            };
            assert(self@.sockets =~= mid@.sockets);
            if free {
                return Some(i);
            }
            i = i + 1;
        }
        None
    }

    /// Open a TCP socket that actively connects to `addr:port` from `src_port`.
    /// Allocates a free hardware socket and stages the buffers; the actual chip
    /// `OPEN`/`CONNECT` happens on the next `run`. Returns a handle for I/O.
    pub fn open_tcp_connect(
        &mut self,
        addr: u32,
        port: u16,
        src_port: u16,
        rx: &'a mut [u8],
        tx: &'a mut [u8],
    ) -> (r: Result<TcpSocket, Error>)
        requires
            old(self).wf(),
        ensures
            final(self).wf(),
            final(self).link() == old(self).link(),
            final(self)@ == claimed(
                old(self)@,
                BackendState::Tcp(
                    (TcpSocketState {
                        mode: TcpMode::Connect { dst_addr: addr, dst_port: port, src_port },
                        status: SocketStatus::Init,
                        pending_error: None,
                        close_requested: false,
                    }),
                ),
                old(rx)@.len(),
                old(tx)@.len(),
            ),
            match r {
                Ok(handle) => handle.slot() < 8 && handle.slot() == first_claimable(
                    old(self)@.sockets,
                    0,
                ),
                Err(e) => e == Error::WouldBlock && first_claimable(old(self)@.sockets, 0) == 8,
            },
    {
        self.open_tcp(TcpSocketState::connect(addr, port, src_port), rx, tx)
    }

    /// Open a TCP socket that passively listens on `port`. As with
    /// [`open_tcp_connect`](W6100::open_tcp_connect), the chip work is deferred to
    /// `run`.
    pub fn open_tcp_listen(&mut self, port: u16, rx: &'a mut [u8], tx: &'a mut [u8]) -> (r: Result<
        TcpSocket,
        Error,
    >)
        requires
            old(self).wf(),
        ensures
            final(self).wf(),
            final(self).link() == old(self).link(),
            final(self)@ == claimed(
                old(self)@,
                BackendState::Tcp(
                    (TcpSocketState {
                        mode: TcpMode::Listen { src_port: port },
                        status: SocketStatus::Init,
                        pending_error: None,
                        close_requested: false,
                    }),
                ),
                old(rx)@.len(),
                old(tx)@.len(),
            ),
            match r {
                Ok(handle) => handle.slot() < 8 && handle.slot() == first_claimable(
                    old(self)@.sockets,
                    0,
                ),
                Err(e) => e == Error::WouldBlock && first_claimable(old(self)@.sockets, 0) == 8,
            },
    {
        self.open_tcp(TcpSocketState::listen(port), rx, tx)
    }

    /// Claim a slot for the state machine `tcp`.
    fn open_tcp(&mut self, tcp: TcpSocketState, rx: &'a mut [u8], tx: &'a mut [u8]) -> (r: Result<
        TcpSocket,
        Error,
    >)
        requires
            old(self).wf(),
        ensures
            final(self).wf(),
            final(self).link() == old(self).link(),
            final(self)@ == claimed(
                old(self)@,
                BackendState::Tcp(tcp),
                old(rx)@.len(),
                old(tx)@.len(),
            ),
            match r {
                Ok(handle) => handle.slot() < 8 && handle.slot() == first_claimable(
                    old(self)@.sockets,
                    0,
                ),
                Err(e) => e == Error::WouldBlock && first_claimable(old(self)@.sockets, 0) == 8,
            },
    {
        let i = match self.find_free() {
            Some(i) => i,
            None => {
                return Err(Error::WouldBlock);
            },
        };
        proof {
            lemma_first_claimable(old(self)@.sockets, 0);
        }
        let socket = self.socket_mut(i);
        match socket.backend.lock_mut() {
            Ok(mut guard) => {
                let _ = guard.as_mut().claim_tcp(tcp);
            },
            Err(held) => {
                return Err(Error::from(held));
            },
        }
        socket.rings.install(rx, tx);
        Ok(TcpSocket::new(i))
    }

    /// Open a UDP socket bound to `src_port`. As with
    /// [`open_tcp_connect`](W6100::open_tcp_connect), the chip work is deferred to
    /// `run`.
    pub fn open_udp(&mut self, src_port: u16, rx: &'a mut [u8], tx: &'a mut [u8]) -> (r: Result<
        UdpSocket,
        Error,
    >)
        requires
            old(self).wf(),
        ensures
            final(self).wf(),
            final(self).link() == old(self).link(),
            final(self)@ == claimed(
                old(self)@,
                BackendState::Udp(
                    (UdpSocketState {
                        src_port,
                        status: SocketStatus::Init,
                        pending_error: None,
                        close_requested: false,
                    }),
                ),
                old(rx)@.len(),
                old(tx)@.len(),
            ),
            match r {
                Ok(handle) => handle.slot() < 8 && handle.slot() == first_claimable(
                    old(self)@.sockets,
                    0,
                ),
                Err(e) => e == Error::WouldBlock && first_claimable(old(self)@.sockets, 0) == 8,
            },
    {
        let i = match self.find_free() {
            Some(i) => i,
            None => {
                return Err(Error::WouldBlock);
            },
        };
        proof {
            lemma_first_claimable(old(self)@.sockets, 0);
        }
        let socket = self.socket_mut(i);
        match socket.backend.lock_mut() {
            Ok(mut guard) => {
                let _ = guard.as_mut().claim_udp(UdpSocketState::bind(src_port));
            },
            Err(held) => {
                return Err(Error::from(held));
            },
        }
        socket.rings.install(rx, tx);
        Ok(UdpSocket::new(i))
    }
}

/// Move the chip's pointer past what the transfer `bulk` moved, and tell the chip.
fn commit_pointer<D: SpiDmaDevice>(bulk: &BulkOp, trans: &mut Transceiver<D>) -> (r: Result<
    (),
    Error,
>)
    requires
        old(trans).wf(),
    ensures
        old(trans).advanced(final(trans)),
        old(trans).same_link(final(trans)),
        carried_out(commit_script(*bulk), old(trans).did(final(trans))),
        r == ended(old(trans).did(final(trans))),
{
    let end = advance(bulk.pointer, bulk.len);
    match bulk.kind {
        BulkKind::Transmit => {
            set_tx_write_pointer(&bulk.block, trans, end)?;
            send_sock_command(&bulk.block, trans, SocketCommand::Send)?;
        },
        _ => {
            set_rx_read_pointer(&bulk.block, trans, end)?;
            send_sock_command(&bulk.block, trans, SocketCommand::Receive)?;
            clear_interrupts(&bulk.block, trans, IR_RECV)?;
        },
    }
    Ok(())
}

} // verus!
