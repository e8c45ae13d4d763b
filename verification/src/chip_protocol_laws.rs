//! What the driver does with the chip as a whole, in the chip's own numbers.
use vstd::prelude::*;

use crate::access::{carried_out, failed, failure, Access, Request};
use crate::address::{block_code, read_request, write_request, Address, BlockSelectionBits};
use crate::error::{DriverError, Error};
use crate::frame::{framed, SocketAddr};
use crate::socket::{
    ahead, BackendState, BulkAction, BulkKind, RingsState, SocketBackend, SocketStatus,
};
use crate::socket_common::{
    command_code, init_script, mode_code, reports, status_register, SocketCommand,
    SocketProtocolMode, SocketStatusRegister, IR_ALL, IR_CON, IR_DISCON, IR_RECV, IR_SENDOK,
    IR_TIMEOUT,
};
use crate::talk::{clears, further, number, octet, orders, writes16, writes8};
use crate::tcp_socket::TcpSocketState;
use crate::udp_socket::UdpSocketState;
use crate::w6100::{
    claimed, commit_script, completed, enable_script, first_busy, first_claimable, joined, landed,
    phy_up, ran, reset_result, reset_script, reset_slots, resets_script, round, serviced,
    slot_tick, socket_block, started_by, starts, BulkOp, ChipState, NetworkConfig, Serviced,
    SlotState,
};

verus! {

/// Whether an access reads `len` bytes of a common register.
pub open spec fn asks(access: Access, address: u16, len: nat) -> bool {
    access.request == read_request(
        Address { address, block: BlockSelectionBits::CommonRegister },
        len,
    )
}

/// Whether an access writes `data` to a common register.
pub open spec fn tells(access: Access, address: u16, data: Seq<u8>) -> bool {
    access.request == write_request(
        Address { address, block: BlockSelectionBits::CommonRegister },
        data,
    )
}

/// A number of four bytes, most significant byte first.
pub open spec fn four(value: u32) -> Seq<u8> {
    seq![
        (value / 0x100_0000) as u8,
        (value / 0x1_0000 % 256) as u8,
        (value / 256 % 256) as u8,
        (value % 256) as u8,
    ]
}

/// The common registers are block 0, and the registers, the TX buffer and the RX
/// buffer of socket `i` are the blocks `4 * i + 1` to `4 * i + 3`.
pub proof fn law_block_numbers(i: int)
    requires
        0 <= i < 8,
    ensures
        block_code(BlockSelectionBits::CommonRegister) == 0,
        block_code(socket_block(i).reg) == 4 * i + 1,
        block_code(socket_block(i).tx) == 4 * i + 2,
        block_code(socket_block(i).rx) == 4 * i + 3,
{
}

/// The commands as the chip numbers them.
pub proof fn law_command_numbers()
    ensures
        command_code(SocketCommand::Open) == 0x01,
        command_code(SocketCommand::Listen) == 0x02,
        command_code(SocketCommand::Connect) == 0x04,
        command_code(SocketCommand::Connect6) == 0x84,
        command_code(SocketCommand::Disconnect) == 0x08,
        command_code(SocketCommand::Close) == 0x10,
        command_code(SocketCommand::Send) == 0x20,
        command_code(SocketCommand::Send6) == 0xA0,
        command_code(SocketCommand::SendKeep) == 0x22,
        command_code(SocketCommand::Receive) == 0x40,
{
}

/// The protocols as the chip numbers them.
pub proof fn law_mode_numbers()
    ensures
        mode_code(SocketProtocolMode::Closed) == 0,
        mode_code(SocketProtocolMode::Tcp4) == 1,
        mode_code(SocketProtocolMode::Udp4) == 2,
        mode_code(SocketProtocolMode::IpRaw4) == 3,
        mode_code(SocketProtocolMode::MacRaw) == 7,
        mode_code(SocketProtocolMode::Tcp6) == 9,
        mode_code(SocketProtocolMode::Udp6) == 10,
        mode_code(SocketProtocolMode::IpRaw6) == 11,
        mode_code(SocketProtocolMode::TcpDual) == 13,
        mode_code(SocketProtocolMode::UdpDual) == 14,
{
}

/// The interrupts of a socket are a bit each, and one is reported if its bit is set.
pub proof fn law_interrupt_bits(ir: u8)
    ensures
        reports(ir, IR_CON) == (ir % 2 == 1),
        reports(ir, IR_DISCON) == (ir / 2 % 2 == 1),
        reports(ir, IR_RECV) == (ir / 4 % 2 == 1),
        reports(ir, IR_TIMEOUT) == (ir / 8 % 2 == 1),
        reports(ir, IR_SENDOK) == (ir / 16 % 2 == 1),
        IR_ALL == 31,
{
    assert((ir & 0b1u8 == 0b1u8) == (ir % 2 == 1)) by (bit_vector);
    assert((ir & 0b10u8 == 0b10u8) == (ir / 2 % 2 == 1)) by (bit_vector);
    assert((ir & 0b100u8 == 0b100u8) == (ir / 4 % 2 == 1)) by (bit_vector);
    assert((ir & 0b1000u8 == 0b1000u8) == (ir / 8 % 2 == 1)) by (bit_vector);
    assert((ir & 0b1_0000u8 == 0b1_0000u8) == (ir / 16 % 2 == 1)) by (bit_vector);
}

/// The states of a socket as the chip numbers them.
pub proof fn law_status_numbers(value: u8)
    ensures
        (status_register(value) == SocketStatusRegister::Closed) == (value == 0x00),
        (status_register(value) == SocketStatusRegister::Init) == (value == 0x13),
        (status_register(value) == SocketStatusRegister::Listen) == (value == 0x14),
        (status_register(value) == SocketStatusRegister::Synsent) == (value == 0x15),
        (status_register(value) == SocketStatusRegister::Synrecv) == (value == 0x16),
        (status_register(value) == SocketStatusRegister::Established) == (value == 0x17),
        (status_register(value) == SocketStatusRegister::FinWait) == (value == 0x18),
        (status_register(value) == SocketStatusRegister::TimeWait) == (value == 0x1B),
        (status_register(value) == SocketStatusRegister::CloseWait) == (value == 0x1C),
        (status_register(value) == SocketStatusRegister::LastAck) == (value == 0x1D),
        (status_register(value) == SocketStatusRegister::Udp) == (value == 0x22),
        (status_register(value) == SocketStatusRegister::Ipraw) == (value == 0x32),
        (status_register(value) == SocketStatusRegister::Ipraw6) == (value == 0x33),
        (status_register(value) == SocketStatusRegister::Macraw) == (value == 0x42),
{
}

/// There is a link exactly if the PHY reports one, in its lowest bit, and no missing
/// cable, in its highest.
pub proof fn law_link_bits(status: u8)
    ensures
        phy_up(status) == (status % 2 == 1 && status < 128),
{
    assert((status & 0b1000_0000u8 == 0u8) == (status < 128)) by (bit_vector);
    assert((status & 1u8 == 1u8) == (status % 2 == 1)) by (bit_vector);
}

/// Whether the three accesses from `done[at]` on close socket `j` on the chip.
pub open spec fn closes(done: Seq<Access>, at: int, j: int) -> bool {
    &&& writes8(done[at], socket_block(j), 0x0000, 0x00)
    &&& clears(done[at + 1], socket_block(j), 0xFF)
    &&& writes8(done[at + 2], socket_block(j), 0x0024, 0xFF)
}

/// Whether a slot is as it was before a reset, but to be opened anew, or free if its
/// handle was given back.
pub open spec fn rearmed(before: SlotState, after: SlotState) -> bool {
    &&& after.busy == before.busy
    &&& after.rings == before.rings
    &&& after.backend.block == before.backend.block
    &&& !after.backend.release_requested
    &&& if before.backend.release_requested {
        after.backend.state is Free
    } else {
        match before.backend.state {
            BackendState::Free => after.backend.state is Free,
            BackendState::Tcp(tcp) => after.backend.state == BackendState::Tcp(
                TcpSocketState {
                    status: SocketStatus::Init,
                    pending_error: None,
                    close_requested: false,
                    ..tcp
                },
            ),
            BackendState::Udp(udp) => after.backend.state == BackendState::Udp(
                UdpSocketState {
                    status: SocketStatus::Init,
                    pending_error: None,
                    close_requested: false,
                    ..udp
                },
            ),
        }
    }
}

/// A reset asks the chip who it is and gives it up if it is not the one that this
/// driver knows. Then it closes all eight sockets, selects the clock between an unlock
/// and a lock, and enables the interrupts of all sockets; every socket is to be opened
/// anew.
#[verifier::rlimit(60)]
#[verifier::spinoff_prover]
pub proof fn law_reset_steps(slots: Seq<SlotState>, done: Seq<Access>)
    requires
        slots.len() == 8,
        forall|j: int| 0 <= j < 8 ==> (#[trigger] slots[j]).backend.block == socket_block(j),
        forall|j: int| 0 <= j < 8 ==> !(#[trigger] slots[j]).busy,
        carried_out(reset_script(slots, done), done),
        !failed(done),
    ensures
        done.len() > 0,
        asks(done[0], 0x0000, 2),
        number(done[0]) != 0x6100 ==> {
            &&& done.len() == 1
            &&& reset_result(slots, done) == Err::<(), Error>(
                Error::Other(DriverError::UnexpectedResponse),
            )
            &&& reset_slots(slots, done, 5) == slots
        },
        number(done[0]) == 0x6100 ==> done.len() > 1 && asks(done[1], 0x0002, 2),
        number(done[0]) == 0x6100 && number(done[1]) != 0x4661 ==> {
            &&& done.len() == 2
            &&& reset_result(slots, done) == Err::<(), Error>(
                Error::Other(DriverError::UnexpectedResponse),
            )
            &&& reset_slots(slots, done, 5) == slots
        },
        number(done[0]) == 0x6100 && number(done[1]) == 0x4661 ==> {
            &&& done.len() == 30
            &&& forall|j: int| 0 <= j < 8 ==> #[trigger] closes(done, 3 * j + 2, j)
            &&& tells(done[26], 0x41F4, seq![0xCEu8])
            &&& tells(done[27], 0x2005, seq![0x80u8])
            &&& tells(done[28], 0x41F4, seq![0x00u8])
            &&& tells(done[29], 0x2114, seq![0xFFu8])
            &&& reset_result(slots, done) == Ok::<(), Error>(())
            &&& forall|j: int|
                0 <= j < 8 ==> rearmed(slots[j], #[trigger] reset_slots(slots, done, 5)[j])
        },
{
    lemma_none_busy(slots, 0);
    if number(done[0]) == 0x6100 && number(done[1]) == 0x4661 {
        let script = reset_script(slots, done);
        reveal(resets_script);
        assert forall|j: int| 0 <= j < 8 implies #[trigger] closes(done, 3 * j + 2, j) by {
            let block = slots[j].backend.block;
            assert(block == socket_block(j));
            let init = init_script(block, SocketProtocolMode::Closed);
            assert(script[3 * j + 2] == init[0]);
            assert(script[3 * j + 3] == init[1]);
            assert(script[3 * j + 4] == init[2]);
        }
        assert(script[26] == enable_script()[0]);
        assert(script[27] == enable_script()[1]);
        assert(script[28] == enable_script()[2]);
        assert(script[29] == enable_script()[3]);
    } else {
        assert(reset_slots(slots, done, 5) =~= slots);
    }
}

/// If no socket is held elsewhere, none is found.
proof fn lemma_none_busy(slots: Seq<SlotState>, from: int)
    requires
        0 <= from <= slots.len(),
        forall|j: int| 0 <= j < slots.len() ==> !(#[trigger] slots[j]).busy,
    ensures
        first_busy(slots, from) == slots.len(),
    decreases slots.len() - from,
{
    if from < slots.len() {
        lemma_none_busy(slots, from + 1);
    }
}

/// A reset cannot go past a socket that is held elsewhere: those in front of it are
/// closed, it and those behind it are left alone, and the reset is to be tried again.
#[verifier::rlimit(60)]
#[verifier::spinoff_prover]
pub proof fn law_reset_held(slots: Seq<SlotState>, done: Seq<Access>, n: int)
    requires
        slots.len() == 8,
        forall|j: int| 0 <= j < 8 ==> (#[trigger] slots[j]).backend.block == socket_block(j),
        0 <= n < 8,
        slots[n].busy,
        forall|j: int| 0 <= j < n ==> !(#[trigger] slots[j]).busy,
        carried_out(reset_script(slots, done), done),
        !failed(done),
        number(done[0]) == 0x6100,
        number(done[1]) == 0x4661,
    ensures
        done.len() == 2 + 3 * n,
        forall|j: int| 0 <= j < n ==> #[trigger] closes(done, 3 * j + 2, j),
        reset_result(slots, done) == Err::<(), Error>(Error::WouldBlock),
        forall|j: int| 0 <= j < n ==> rearmed(slots[j], #[trigger] reset_slots(slots, done, 5)[j]),
        forall|j: int| n <= j < 8 ==> #[trigger] reset_slots(slots, done, 5)[j] == slots[j],
{
    lemma_first_busy(slots, 0, n);
    let script = reset_script(slots, done);
    reveal(resets_script);
    assert forall|j: int| 0 <= j < n implies #[trigger] closes(done, 3 * j + 2, j) by {
        let block = slots[j].backend.block;
        assert(block == socket_block(j));
        let init = init_script(block, SocketProtocolMode::Closed);
        assert(script[3 * j + 2] == init[0]);
        assert(script[3 * j + 3] == init[1]);
        assert(script[3 * j + 4] == init[2]);
    }
}

/// The search for a held socket stops at the first one.
proof fn lemma_first_busy(slots: Seq<SlotState>, from: int, n: int)
    requires
        0 <= from <= n < slots.len(),
        slots[n].busy,
        forall|j: int| 0 <= j < n ==> !(#[trigger] slots[j]).busy,
    ensures
        first_busy(slots, from) == n,
    decreases n - from,
{
    if from < n {
        lemma_first_busy(slots, from + 1, n);
    }
}

/// What ran into an error in the middle of a reset leaves the sockets that were not
/// reached as they are.
pub proof fn law_reset_cut_short(slots: Seq<SlotState>, done: Seq<Access>, j: int)
    requires
        0 <= j < slots.len(),
        done.len() < 3 * j + 5 || (done.len() == 3 * j + 5 && failed(done)),
    ensures
        reset_slots(slots, done, 5)[j] == slots[j],
        failed(done) ==> reset_result(slots, done) == Err::<(), Error>(failure(done)),
{
}

/// What ran into an error in the middle of a reset has closed the sockets that were
/// reached: they are to be opened anew.
pub proof fn law_reset_reached(slots: Seq<SlotState>, done: Seq<Access>, j: int)
    requires
        0 <= j < slots.len(),
        forall|i: int| 0 <= i <= j ==> !(#[trigger] slots[i]).busy,
        done.len() > 3 * j + 5,
    ensures
        rearmed(slots[j], reset_slots(slots, done, 5)[j]),
{
    lemma_busy_behind(slots, 0, j);
}

/// A held socket is looked for behind those that are not held.
proof fn lemma_busy_behind(slots: Seq<SlotState>, from: int, j: int)
    requires
        0 <= from <= j + 1 <= slots.len(),
        forall|i: int| 0 <= i <= j ==> !(#[trigger] slots[i]).busy,
    ensures
        first_busy(slots, from) > j,
    decreases slots.len() - from,
{
    if from <= j {
        lemma_busy_behind(slots, from + 1, j);
    } else if from < slots.len() && !slots[from].busy {
        lemma_busy_on(slots, from + 1);
    }
}

/// The search goes on only.
proof fn lemma_busy_on(slots: Seq<SlotState>, from: int)
    ensures
        first_busy(slots, from) >= from,
    decreases slots.len() - from,
{
    if !(from >= slots.len() || slots[from].busy) {
        lemma_busy_on(slots, from + 1);
    }
}

/// Whether six accesses from `done[at]` on apply the network settings: the addresses
/// are written between an unlock and a lock.
pub open spec fn applies(done: Seq<Access>, at: int, mac: Seq<u8>, config: NetworkConfig) -> bool {
    &&& tells(done[at], 0x41F5, seq![0x3Au8])
    &&& tells(done[at + 1], 0x4120, mac)
    &&& tells(done[at + 2], 0x4138, four(config.ip))
    &&& tells(done[at + 3], 0x4130, four(config.gateway))
    &&& tells(done[at + 4], 0x4134, four(config.subnet))
    &&& tells(done[at + 5], 0x41F5, seq![0xC5u8])
}

/// A background step looks at the link first. Without one nothing else is done; its
/// loss is reported once.
pub proof fn law_service_needs_link(
    before: ChipState,
    done: Seq<Access>,
    after: ChipState,
    r: Result<Serviced, Error>,
)
    requires
        serviced(before, done, after, r),
        before.bulk is None,
    ensures
        done.len() > 0,
        asks(done[0], 0x3000, 1),
        match done[0].outcome {
            Err(e) => done.len() == 1 && r == Err::<Serviced, Error>(e) && after == before,
            Ok(_) => {
                let up = octet(done[0]) % 2 == 1 && octet(done[0]) < 128;
                &&& after.link_up == up
                &&& !up ==> {
                    &&& done.len() == 1
                    &&& r == Ok::<Serviced, Error>(
                        if before.link_up {
                            Serviced::LinkLost
                        } else {
                            Serviced::Done
                        },
                    )
                    &&& after == (ChipState { link_up: false, ..before })
                }
            },
        },
{
    law_link_bits(octet(done[0]));
}

/// With a link, settings that are pending are applied, and then every socket gets its
/// tick. If the settings cannot be applied they stay pending, and that is the error.
pub proof fn law_service_drives(
    before: ChipState,
    done: Seq<Access>,
    after: ChipState,
    r: Result<Serviced, Error>,
)
    requires
        serviced(before, done, after, r),
        before.bulk is None,
        done[0].outcome is Ok,
        octet(done[0]) % 2 == 1,
        octet(done[0]) < 128,
    ensures
        ({
            let seen = ChipState { link_up: true, ..before };
            if before.config_dirty && before.config is Some {
                if done.len() < 7 || failed(done.take(7)) {
                    &&& r == Err::<Serviced, Error>(failure(done))
                    &&& failed(done)
                    &&& after == seen
                } else {
                    &&& applies(done, 1, before.mac, before.config->0)
                    &&& ran((ChipState { config_dirty: false, ..seen }), done.skip(7), after)
                    &&& r == Ok::<Serviced, Error>(Serviced::Done)
                }
            } else {
                ran(seen, done.skip(1), after) && r == Ok::<Serviced, Error>(Serviced::Done)
            }
        }),
{
    law_link_bits(octet(done[0]));
    let rest = done.skip(1);
    if before.config_dirty && before.config is Some {
        assert(rest.len() > 0 ==> rest.last() == done.last());
        if done.len() >= 7 {
            assert(done.take(7).last() == rest.take(6).last());
            assert(rest.skip(6) =~= done.skip(7));
            assert(forall|k: int| 0 <= k < 6 ==> #[trigger] rest.take(6)[k] == done[k + 1]);
            assert(rest.take(6)[0] == done[1] && rest.take(6)[1] == done[2] && rest.take(6)[2]
                == done[3] && rest.take(6)[3] == done[4] && rest.take(6)[4] == done[5] && rest.take(
                6,
            )[5] == done[6]);
        }
    }
}

/// Settings that cannot be applied are written as far as that goes, in the same order.
pub proof fn law_settings_cut_short(
    before: ChipState,
    done: Seq<Access>,
    after: ChipState,
    r: Result<Serviced, Error>,
    config: NetworkConfig,
)
    requires
        serviced(before, done, after, r),
        before.bulk is None,
        done[0].outcome is Ok,
        octet(done[0]) % 2 == 1,
        octet(done[0]) < 128,
        before.config_dirty,
        before.config == Some(config),
        done.len() < 7 || failed(done.take(7)),
    ensures
        1 < done.len() <= 7,
        tells(done[1], 0x41F5, seq![0x3Au8]),
        done.len() > 2 ==> tells(done[2], 0x4120, before.mac),
        done.len() > 3 ==> tells(done[3], 0x4138, four(config.ip)),
        done.len() > 4 ==> tells(done[4], 0x4130, four(config.gateway)),
        done.len() > 5 ==> tells(done[5], 0x4134, four(config.subnet)),
        done.len() > 6 ==> tells(done[6], 0x41F5, seq![0xC5u8]),
{
    law_link_bits(octet(done[0]));
    let rest = done.skip(1);
    if done.len() >= 7 {
        assert(done.take(7).last() == rest.take(6).last());
    }
    assert(forall|k: int| 0 <= k < rest.len() ==> #[trigger] rest[k] == done[k + 1]);
    assert(rest[0] == done[1]);
    assert(rest.len() > 1 ==> rest[1] == done[2]);
    assert(rest.len() > 2 ==> rest[2] == done[3]);
    assert(rest.len() > 3 ==> rest[3] == done[4]);
    assert(rest.len() > 4 ==> rest[4] == done[5]);
    assert(rest.len() > 5 ==> rest[5] == done[6]);
}

/// Whether the accesses `part` are one tick of a slot. One that is held elsewhere is
/// skipped.
pub open spec fn takes_turn(
    before: SlotState,
    part: Seq<Access>,
    after: SlotState,
    result: Result<BulkAction, Error>,
) -> bool {
    if before.busy {
        part.len() == 0 && after == before && result == Ok::<BulkAction, Error>(BulkAction::Nothing)
    } else {
        let tick = before.backend.run_tick(before.rings, part);
        &&& carried_out(tick.script, part)
        &&& after.backend == tick.state
        &&& after.rings == tick.rings
        &&& !after.busy
        &&& result == tick.result
    }
}

/// A round gives the sockets their ticks in order, each of them one, until one of them
/// starts a bulk transfer, which is noted with all that is needed to end it. The
/// sockets behind that one stay as they are; without a transfer there are none.
pub proof fn law_round_order(before: ChipState, done: Seq<Access>, after: ChipState)
    requires
        ran(before, done, after),
        before.sockets.len() > 0,
        before.sockets.len() <= 8,
    ensures
        exists|parts: Seq<Seq<Access>>, results: Seq<Result<BulkAction, Error>>|
            #![trigger joined(parts), results.len()]
            {
                let last = parts.len() - 1;
                &&& done == joined(parts)
                &&& 0 < parts.len() <= before.sockets.len() == after.sockets.len()
                &&& results.len() == parts.len()
                &&& forall|i: int|
                    0 <= i < parts.len() ==> takes_turn(
                        before.sockets[i],
                        #[trigger] parts[i],
                        after.sockets[i],
                        results[i],
                    )
                &&& forall|i: int|
                    0 <= i < last ==> !(#[trigger] results[i] matches Ok(
                        BulkAction::Started { .. },
                    ))
                &&& forall|i: int|
                    parts.len() <= i < after.sockets.len() ==> #[trigger] after.sockets[i]
                        == before.sockets[i]
                &&& match results[last] {
                    Ok(BulkAction::Started { kind, pointer, len }) => after.bulk == Some(
                        BulkOp {
                            socket: last as usize,
                            kind,
                            block: before.sockets[last].backend.block,
                            pointer,
                            len,
                            stale: false,
                        },
                    ),
                    _ => parts.len() == before.sockets.len() && after.bulk == before.bulk,
                }
                &&& after.mac == before.mac
                &&& after.config == before.config
                &&& after.config_dirty == before.config_dirty
                &&& after.link_up == before.link_up
            },
{
    let parts = choose|parts: Seq<Seq<Access>>|
        {
            &&& done == joined(parts)
            &&& #[trigger] round(before.sockets, parts, after.sockets)
            &&& after == before.with_slots(after.sockets).with_bulk(
                match started_by(before.sockets, parts) {
                    Some(bulk) => Some(bulk),
                    None => before.bulk,
                },
            )
        };
    let results = Seq::new(
        parts.len(),
        |i: int| slot_tick(before.sockets[i], parts[i]).result,
    );
    assert(joined(parts) == done && results.len() == parts.len());
    assert forall|i: int| 0 <= i < parts.len() implies takes_turn(
        before.sockets[i],
        #[trigger] parts[i],
        after.sockets[i],
        results[i],
    ) by {
        assert(carried_out(slot_tick(before.sockets[i], parts[i]).script, parts[i]));
    }
    assert forall|i: int| 0 <= i < parts.len() - 1 implies !(#[trigger] results[i] matches Ok(
        BulkAction::Started { .. },
    )) by {
        assert(!starts(before.sockets[i], parts[i]));
    }
}

/// A slot is driven by the protocol that occupies it, on the blocks that are its own.
/// It comes free once its handle was given back and its protocol has come to its end,
/// and not before.
pub proof fn law_slot_driven(backend: SocketBackend, rings: RingsState, done: Seq<Access>)
    ensures
        ({
            let tick = backend.run_tick(rings, done);
            &&& tick.state.block == backend.block
            &&& match backend.state {
                BackendState::Free => {
                    &&& tick.script.len() == 0
                    &&& tick.state.state is Free
                    &&& tick.rings == rings
                    &&& tick.result == Ok::<BulkAction, Error>(BulkAction::Nothing)
                },
                BackendState::Tcp(tcp) => {
                    let own = tcp.run_tick(backend.block, rings, done);
                    let over = own.state.status == SocketStatus::Closed || own.state.status
                        == SocketStatus::Error || own.state.status == SocketStatus::Timeout;
                    &&& tick.script == own.script
                    &&& tick.rings == own.rings
                    &&& tick.result == own.result
                    &&& if backend.release_requested && over {
                        tick.state.state is Free && !tick.state.release_requested
                    } else {
                        &&& tick.state.state == BackendState::Tcp(own.state)
                        &&& tick.state.release_requested == backend.release_requested
                    }
                },
                BackendState::Udp(udp) => {
                    let own = udp.run_tick(backend.block, rings, done);
                    let over = own.state.status == SocketStatus::Closed || own.state.status
                        == SocketStatus::Error || own.state.status == SocketStatus::Timeout;
                    &&& tick.script == own.script
                    &&& tick.rings == own.rings
                    &&& tick.result == own.result
                    &&& if backend.release_requested && over {
                        tick.state.state is Free && !tick.state.release_requested
                    } else {
                        &&& tick.state.state == BackendState::Udp(own.state)
                        &&& tick.state.release_requested == backend.release_requested
                    }
                },
            }
        }),
{
}

/// A slot whose handle was given back is to be closed and then to come free.
pub proof fn law_given_back(backend: SocketBackend)
    ensures
        backend.after_release().release_requested,
        backend.after_release().block == backend.block,
        match backend.state {
            BackendState::Free => backend.after_release().state is Free,
            BackendState::Tcp(tcp) => backend.after_release().state == BackendState::Tcp(
                TcpSocketState { close_requested: true, ..tcp },
            ),
            BackendState::Udp(udp) => backend.after_release().state == BackendState::Udp(
                UdpSocketState { close_requested: true, ..udp },
            ),
        },
{
}

/// Opening takes the first socket that is free and not held elsewhere, with empty rings
/// of the sizes that were given, and leaves all others alone. Only if there is none is
/// nothing taken.
pub proof fn law_lowest_free_socket_claimed(
    chip: ChipState,
    state: BackendState,
    rx: nat,
    tx: nat,
    i: int,
)
    requires
        0 <= i <= chip.sockets.len(),
        forall|j: int|
            0 <= j < i ==> (#[trigger] chip.sockets[j]).busy || !(chip.sockets[j].backend.state
                is Free),
        i < chip.sockets.len() ==> !chip.sockets[i].busy && chip.sockets[i].backend.state is Free,
    ensures
        first_claimable(chip.sockets, 0) == i,
        i == chip.sockets.len() ==> claimed(chip, state, rx, tx) == chip,
        i < chip.sockets.len() ==> {
            let after = claimed(chip, state, rx, tx);
            let slot = after.sockets[i];
            &&& after.sockets.len() == chip.sockets.len()
            &&& forall|j: int|
                0 <= j < chip.sockets.len() && j != i ==> #[trigger] after.sockets[j]
                    == chip.sockets[j]
            &&& slot.backend.state == state
            &&& slot.backend.block == chip.sockets[i].backend.block
            &&& !slot.backend.release_requested
            &&& !slot.busy
            &&& slot.rings.rx.bytes.len() == 0 && slot.rings.rx.slots == rx
                && slot.rings.rx.frames == 0
            &&& slot.rings.tx.bytes.len() == 0 && slot.rings.tx.slots == tx
                && slot.rings.tx.frames == 0
            &&& after.bulk == chip.bulk
            &&& after.config == chip.config
            &&& after.config_dirty == chip.config_dirty
            &&& after.link_up == chip.link_up
            &&& after.mac == chip.mac
        },
{
    lemma_first_free(chip.sockets, 0, i);
}

/// The search for a free socket stops at the first one.
proof fn lemma_first_free(slots: Seq<SlotState>, from: int, i: int)
    requires
        0 <= from <= i <= slots.len(),
        forall|j: int|
            0 <= j < i ==> (#[trigger] slots[j]).busy || !(slots[j].backend.state is Free),
        i < slots.len() ==> !slots[i].busy && slots[i].backend.state is Free,
    ensures
        first_claimable(slots, from) == i,
    decreases i - from,
{
    if from < i {
        assert(slots[from].busy || !(slots[from].backend.state is Free));
        lemma_first_free(slots, from + 1, i);
    }
}

/// What ends a bulk transfer: the chip's pointer is moved past what was moved. What was
/// received is acknowledged and its interrupt cleared, what was handed over is sent.
/// Then there is a background step. If any of this fails, that is the error, and the
/// transfer is over all the same.
pub proof fn law_transfer_ended(
    before: ChipState,
    window: Seq<u8>,
    done: Seq<Access>,
    after: ChipState,
    r: Result<Serviced, Error>,
    bulk: BulkOp,
)
    requires
        completed(before, window, done, after, r),
        before.bulk == Some(bulk),
    ensures
        ({
            let n = if bulk.kind == BulkKind::Transmit {
                3
            } else {
                4int
            };
            let end = further(bulk.pointer, bulk.len as int);
            let mid = landed(before, bulk, window);
            &&& done.len() > 0
            &&& done[0].request == Request::Finish
            &&& bulk.kind == BulkKind::Transmit ==> {
                &&& done.len() > 1 ==> writes16(done[1], bulk.block, 0x020C, end)
                &&& done.len() > 2 ==> orders(done[2], bulk.block, 0x20)
            }
            &&& bulk.kind != BulkKind::Transmit ==> {
                &&& done.len() > 1 ==> writes16(done[1], bulk.block, 0x0228, end)
                &&& done.len() > 2 ==> orders(done[2], bulk.block, 0x40)
                &&& done.len() > 3 ==> clears(done[3], bulk.block, 0x04)
            }
            &&& if done.len() < n || failed(done.take(n)) {
                &&& failed(done)
                &&& r == Err::<Serviced, Error>(failure(done))
                &&& after == mid
            } else {
                serviced(mid, done.skip(n), after, r)
            }
        }),
{
    reveal(ahead);
    let script = seq![Request::Finish] + commit_script(bulk);
    let n = script.len() as int;
    if done.len() >= n && !failed(done.take(n)) {
        assert(forall|k: int| 0 <= k < n ==> #[trigger] done.take(n)[k] == done[k]);
        assert(done.take(n)[0] == done[0] && done.take(n)[1] == done[1] && done.take(n)[2]
            == done[2]);
        if n == 4 {
            assert(done.take(n)[3] == done[3]);
        }
    } else if done.len() >= n {
        assert(done.take(n) =~= done);
    }
}

/// The report of an end without a transfer on its way is passed over.
pub proof fn law_stray_end_ignored(
    before: ChipState,
    window: Seq<u8>,
    done: Seq<Access>,
    after: ChipState,
    r: Result<Serviced, Error>,
)
    requires
        completed(before, window, done, after, r),
        before.bulk is None,
    ensures
        done.len() == 0,
        after == before,
        r == Ok::<Serviced, Error>(Serviced::Done),
{
}

/// What came in goes to the socket that asked for it and to no other: the bytes of a
/// stream behind those in its rx ring, as many as fit, and a datagram as one frame, if
/// all of it fits. Nothing goes to a socket that was re-armed since.
pub proof fn law_delivery(chip: ChipState, bulk: BulkOp, window: Seq<u8>)
    requires
        bulk.socket < chip.sockets.len(),
    ensures
        ({
            let i = bulk.socket as int;
            let after = landed(chip, bulk, window);
            let old = chip.sockets[i].rings.rx;
            let new = after.sockets[i].rings.rx;
            let room = old.slots - old.bytes.len();
            &&& after.bulk is None
            &&& after.sockets.len() == chip.sockets.len()
            &&& forall|j: int|
                0 <= j < chip.sockets.len() && j != i ==> #[trigger] after.sockets[j]
                    == chip.sockets[j]
            &&& after.sockets[i].backend == chip.sockets[i].backend
            &&& after.sockets[i].busy == chip.sockets[i].busy
            &&& after.sockets[i].rings.tx == chip.sockets[i].rings.tx
            &&& bulk.stale || bulk.kind == BulkKind::Transmit ==> new == old
            &&& !bulk.stale && bulk.kind == BulkKind::Receive && window.len() <= room ==> {
                &&& new.bytes == old.bytes + window
                &&& new.slots == old.slots
                &&& new.frames == old.frames
            }
            &&& !bulk.stale ==> match bulk.kind {
                BulkKind::ReceiveDatagram { src_ip, src_port } => new == (if window.len() <= 0xFFFF
                    && 8 + window.len() <= room {
                    framed(old, SocketAddr { ip: src_ip, port: src_port }, window)
                } else {
                    old
                }),
                _ => true,
            }
            &&& after.config == chip.config
            &&& after.config_dirty == chip.config_dirty
            &&& after.link_up == chip.link_up
            &&& after.mac == chip.mac
        }),
{
    let old = chip.sockets[bulk.socket as int].rings.rx;
    if window.len() <= old.slots - old.bytes.len() {
        assert(window.take(window.len() as int) =~= window);
    }
}

} // verus!
