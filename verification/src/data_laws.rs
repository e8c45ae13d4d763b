//! What the small parts are: numbers as bytes, rings, frames and states.
use vstd::prelude::*;

use crate::access::{Access, Request};
use crate::address::{delay_request, BlockAddress};
use crate::batch::{filled, ops_of, Operation};
use crate::bus::Op;
use crate::bytes::{be16, be32, from_be16, from_be32, overlay, zeros};
use crate::echo::{moved, outstanding, shown_status};
use crate::error::{DriverError, Error};
use crate::frame::{
    first_payload, frame_header_of, frame_len, frame_peer, framed, has_frame, has_room, unframed,
    SocketAddr,
};
use crate::ring_buffer::{min, RingBuffer};
use crate::socket::{ahead, BackendState, SocketStatus};
use crate::spi_ops::{sent_by, span};
use crate::spsc_ring::RingState;
use crate::tcp_socket::{reconnected as tcp_reconnected, TcpSocketState};
use crate::transiver::{drained, padded};
use crate::udp_socket::{reconnected as udp_reconnected, UdpSocketState};
use crate::w6100::{fresh_slot, BulkOp, ChipState, SlotState, RESET_HOLD_NS};

verus! {

/// A number is written with its most significant byte first, and read the same way.
pub proof fn law_numbers_as_bytes(x: u16, y: u32, s: Seq<u8>)
    ensures
        be16(x).len() == 2,
        be16(x)[0] == x / 256,
        be16(x)[1] == x % 256,
        be32(y).len() == 4,
        be32(y)[0] == y / 0x100_0000,
        be32(y)[1] == y / 0x1_0000 % 256,
        be32(y)[2] == y / 256 % 256,
        be32(y)[3] == y % 256,
        from_be16(s) == s[0] * 256 + s[1],
        from_be32(s) == s[0] * 0x100_0000 + s[1] * 0x1_0000 + s[2] * 256 + s[3],
{
}

/// A buffer pointer that is moved on wraps at 64 KiB.
pub proof fn law_pointer_wraps(pointer: u16, n: int)
    requires
        0 <= n < 0x1_0000,
    ensures
        pointer + n < 0x1_0000 ==> ahead(pointer, n) == pointer + n,
        pointer + n >= 0x1_0000 ==> ahead(pointer, n) == pointer + n - 0x1_0000,
{
    reveal(ahead);
}

/// Laying bytes over others changes those at their place and no others.
pub proof fn law_overlay(below: Seq<u8>, at: int, above: Seq<u8>, k: int)
    requires
        0 <= at,
        at + above.len() <= below.len(),
        0 <= k < below.len(),
    ensures
        overlay(below, at, above).len() == below.len(),
        overlay(below, at, above)[k] == (if at <= k < at + above.len() {
            above[k - at]
        } else {
            below[k]
        }),
{
}

/// A ring takes as much as it has room for, at its end, and gives the oldest bytes
/// first. Clearing it leaves it as it was when it was new.
pub proof fn law_ring_moves(ring: RingState, src: Seq<u8>, n: int)
    requires
        ring.bytes.len() <= ring.slots,
        0 <= n,
    ensures
        ring.free() == ring.slots - ring.bytes.len(),
        src.len() <= ring.slots - ring.bytes.len() ==> ring.put(src).bytes == ring.bytes + src,
        src.len() > ring.slots - ring.bytes.len() ==> ring.put(src).bytes == ring.bytes + src.take(
            ring.slots - ring.bytes.len(),
        ),
        ring.put(src).slots == ring.slots,
        ring.put(src).frames == ring.frames,
        n <= ring.bytes.len() ==> ring.taken(n).bytes == ring.bytes.skip(n),
        n > ring.bytes.len() ==> ring.taken(n).bytes.len() == 0,
        ring.taken(n).slots == ring.slots,
        ring.taken(n).frames == ring.frames,
        ring.cleared().bytes.len() == 0,
        ring.cleared().slots == ring.slots,
        ring.cleared().frames == 0,
        RingState::empty(ring.slots) == ring.cleared(),
        RingState::none().slots == 0,
        RingState::none().bytes.len() == 0,
        RingState::none().frames == 0,
{
    if src.len() <= ring.slots - ring.bytes.len() {
        assert(src.take(src.len() as int) =~= src);
    }
}

/// A run of free slots reaches up to the end of the buffer or up to the oldest byte, and
/// a run of stored bytes up to the end of the buffer or up to the newest byte, whichever
/// comes first.
pub proof fn law_runs(ring: &RingBuffer<'_>)
    requires
        0 <= ring.read_at() <= ring.slots(),
    ensures
        ({
            let head = ring.read_at();
            let len = ring@.len() as int;
            let slots = ring.slots() as int;
            &&& slots == len + ring.spare().len()
            &&& head + len < slots ==> ring.write_at() == head + len && ring.write_run() == slots
                - head - len
            &&& head + len >= slots ==> ring.write_at() == head + len - slots && ring.write_run()
                == slots - len
            &&& head + len <= slots ==> ring.read_run() == len
            &&& head + len > slots ==> ring.read_run() == slots - head
        }),
{
}

/// The frames of a ring are counted one by one.
pub proof fn law_frames_counted(ring: RingState)
    ensures
        ring.frames < usize::MAX ==> ring.committed().frames == ring.frames + 1,
        ring.frames > 0 ==> ring.released().frames == ring.frames - 1,
        ring.committed().bytes == ring.bytes && ring.committed().slots == ring.slots,
        ring.released().bytes == ring.bytes && ring.released().slots == ring.slots,
        ring.committed().released() == ring,
{
}

/// A ring has room for a frame exactly if eight bytes more than its payload are free
/// and the payload is at most 65535 bytes long.
pub proof fn law_frame_room(ring: RingState, len: nat)
    ensures
        has_room(ring, len) == (len <= 65535 && ring.slots - ring.bytes.len() >= 8 + len),
{
}

/// A ring starts with a complete frame exactly if it counts one and all bytes that its
/// first two bytes call for are there.
pub proof fn law_frame_complete(ring: RingState)
    ensures
        has_frame(ring) == (ring.frames > 0 && ring.bytes.len() >= 8 && ring.bytes.len() >= 8
            + ring.bytes[0] * 256 + ring.bytes[1]),
{
    if ring.bytes.len() >= 8 {
        assert(ring.bytes.subrange(0, 2) =~= seq![ring.bytes[0], ring.bytes[1]]);
    }
}

/// Bytes that are missing are sent as zeros; bytes that are there are sent as they are.
pub proof fn law_padding(bytes: Seq<u8>, len: nat)
    ensures
        padded(bytes, len).len() == len,
        len <= bytes.len() ==> padded(bytes, len) == bytes.take(len as int),
        len > bytes.len() ==> padded(bytes, len) == bytes + Seq::new(
            (len - bytes.len()) as nat,
            |i: int| 0u8,
        ),
{
    if len <= bytes.len() {
        assert(padded(bytes, len) =~= bytes.take(len as int));
    } else {
        assert(padded(bytes, len) =~= bytes + Seq::new(
            (len - bytes.len()) as nat,
            |i: int| 0u8,
        ));
    }
}

/// Staged bytes stay in the ring if the transfer would have to wait or does not fit the
/// scratch buffers, and have left it otherwise.
pub proof fn law_staged_leave(access: Access)
    ensures
        access.outcome is Ok ==> drained(access),
        access.outcome == Err::<Seq<Seq<u8>>, Error>(Error::WouldBlock) ==> !drained(access),
        access.outcome == Err::<Seq<Seq<u8>>, Error>(
            Error::Other(DriverError::ScratchBufferOverrun),
        ) ==> !drained(access),
        access.outcome == Err::<Seq<Seq<u8>>, Error>(Error::Other(DriverError::SpiError))
            ==> drained(access),
{
}

/// A socket shows its kept error, or else how far it has come. It is over exactly if it
/// is closed, timed out or failed. Re-arming takes it back to its beginning and forgets
/// the error and a close request.
pub proof fn law_states(tcp: TcpSocketState, udp: UdpSocketState)
    ensures
        tcp.shown() == (if tcp.pending_error is Some {
            SocketStatus::Error
        } else {
            tcp.status
        }),
        udp.shown() == (if udp.pending_error is Some {
            SocketStatus::Error
        } else {
            udp.status
        }),
        tcp.is_over() == (tcp.status == SocketStatus::Closed || tcp.status == SocketStatus::Error
            || tcp.status == SocketStatus::Timeout),
        udp.is_over() == (udp.status == SocketStatus::Closed || udp.status == SocketStatus::Error
            || udp.status == SocketStatus::Timeout),
        tcp.is_closing() == (tcp.status == SocketStatus::Closing || tcp.status
            == SocketStatus::ClosingDueToError || tcp.status == SocketStatus::ClosingDueToTimeout),
        udp.is_closing() == (udp.status == SocketStatus::Closing || udp.status
            == SocketStatus::ClosingDueToError || udp.status == SocketStatus::ClosingDueToTimeout),
        tcp.rearmed() == (TcpSocketState {
            mode: tcp.mode,
            status: SocketStatus::Init,
            pending_error: None,
            close_requested: false,
        }),
        udp.rearmed() == (UdpSocketState {
            src_port: udp.src_port,
            status: SocketStatus::Init,
            pending_error: None,
            close_requested: false,
        }),
{
}

/// A handle shows the state of a connection, and `Closed` if the slot is in use for
/// something else.
pub proof fn law_handle_shows(slot: SlotState)
    ensures
        match slot.backend.state {
            BackendState::Tcp(tcp) => shown_status(slot) == (if tcp.pending_error is Some {
                SocketStatus::Error
            } else {
                tcp.status
            }),
            _ => shown_status(slot) == SocketStatus::Closed,
        },
{
}

/// Reconnecting takes a socket back to its beginning, with empty rings, and drops what
/// a transfer of its own still brings in. It touches nothing else.
pub proof fn law_reconnect(chip: ChipState, i: int, j: int)
    requires
        0 <= i < chip.sockets.len(),
        0 <= j < chip.sockets.len(),
    ensures
        ({
            let slot = chip.sockets[i];
            let (after, own) = match slot.backend.state {
                BackendState::Tcp(tcp) => (
                    tcp_reconnected(chip, i),
                    tcp_reconnected(chip, i).sockets[i].backend.state == BackendState::Tcp(
                        TcpSocketState {
                            mode: tcp.mode,
                            status: SocketStatus::Init,
                            pending_error: None,
                            close_requested: false,
                        },
                    ),
                ),
                BackendState::Udp(udp) => (
                    udp_reconnected(chip, i),
                    udp_reconnected(chip, i).sockets[i].backend.state == BackendState::Udp(
                        UdpSocketState {
                            src_port: udp.src_port,
                            status: SocketStatus::Init,
                            pending_error: None,
                            close_requested: false,
                        },
                    ),
                ),
                BackendState::Free => (chip, true),
            };
            &&& own
            &&& after.sockets.len() == chip.sockets.len()
            &&& j != i ==> after.sockets[j] == chip.sockets[j]
            &&& after.sockets[i].backend.block == slot.backend.block
            &&& after.sockets[i].backend.release_requested == slot.backend.release_requested
            &&& !(slot.backend.state is Free) ==> {
                &&& after.sockets[i].rings.rx.bytes.len() == 0
                &&& after.sockets[i].rings.tx.bytes.len() == 0
                &&& after.sockets[i].rings.rx.frames == 0
                &&& after.sockets[i].rings.tx.frames == 0
                &&& after.sockets[i].rings.rx.slots == slot.rings.rx.slots
                &&& after.sockets[i].rings.tx.slots == slot.rings.tx.slots
                &&& after.bulk == match chip.bulk {
                    Some(bulk) => Some(
                        BulkOp { stale: bulk.stale || bulk.socket == i, ..bulk },
                    ),
                    None => None,
                }
            }
            &&& after.config == chip.config
            &&& after.config_dirty == chip.config_dirty
            &&& after.link_up == chip.link_up
            &&& after.mac == chip.mac
        }),
        !(chip.sockets[i].backend.state is Tcp) ==> tcp_reconnected(chip, i) == chip,
        !(chip.sockets[i].backend.state is Udp) ==> udp_reconnected(chip, i) == chip,
{
}

/// An operation sends its data, and zeros for what it only receives; it takes as many
/// bytes as it sends or receives, whichever is more.
pub proof fn law_operation_sends(op: Operation<'_>)
    ensures
        sent_by(op).len() == span(op),
        match op {
            Operation::Read(items) => span(op) == items@.len() && forall|k: int|
                0 <= k < span(op) ==> #[trigger] sent_by(op)[k] == 0,
            Operation::Write(items) => sent_by(op) == items@,
            Operation::Transfer(read, write) => {
                &&& span(op) >= read@.len()
                &&& span(op) >= write@.len()
                &&& span(op) == read@.len() || span(op) == write@.len()
                &&& forall|k: int|
                    0 <= k < span(op) ==> #[trigger] sent_by(op)[k] == (if k < write@.len() {
                        write@[k]
                    } else {
                        0
                    })
            },
            Operation::TransferInPlace(items) => sent_by(op) == items@,
            Operation::DelayNs(ns) => span(op) == 0,
        },
{
}

/// An operation puts its data on the bus, in a batch as by itself, and a buffer that
/// received nothing keeps what it held.
pub proof fn law_operation_on_bus(
    operations: Seq<Operation<'_>>,
    i: int,
    incoming: Option<Seq<u8>>,
    before: Seq<u8>,
)
    requires
        0 <= i < operations.len(),
    ensures
        ops_of(operations).len() == operations.len(),
        match operations[i] {
            Operation::Read(items) => ops_of(operations)[i] == (Op::Read { len: items@.len() }),
            Operation::Write(items) => ops_of(operations)[i] == (Op::Write { data: items@ }),
            Operation::Transfer(read, write) => ops_of(operations)[i] == (Op::Exchange {
                data: write@,
            }),
            Operation::TransferInPlace(items) => ops_of(operations)[i] == (Op::Exchange {
                data: items@,
            }),
            Operation::DelayNs(ns) => ops_of(operations)[i] == (Op::Delay { ns }),
        },
        incoming is None ==> filled(incoming, before) == before,
        incoming is Some ==> filled(incoming, before) == incoming->0,
{
}

/// The stream that an echo service has yet to send back is what it carries over, and
/// behind it what was received.
pub proof fn law_outstanding(carry: Seq<u8>, slot: SlotState)
    ensures
        outstanding(carry, slot).take(carry.len() as int) == carry,
        outstanding(carry, slot).skip(carry.len() as int) == slot.rings.rx.bytes,
{
    assert(outstanding(carry, slot).take(carry.len() as int) =~= carry);
    assert(outstanding(carry, slot).skip(carry.len() as int) =~= slot.rings.rx.bytes);
}

/// Zeros are zeros, and the smaller of two is one of them.
pub proof fn law_zeros_and_min(n: nat, k: int, a: int, b: int)
    requires
        0 <= k < n,
    ensures
        zeros(n).len() == n,
        zeros(n)[k] == 0,
        min(a, b) <= a,
        min(a, b) <= b,
        min(a, b) == a || min(a, b) == b,
{
}

/// A frame is the length of its payload, the address and the port of its peer and the
/// payload, in this order, at the end of the ring.
pub proof fn law_frame_layout(ring: RingState, peer: SocketAddr, payload: Seq<u8>)
    requires
        payload.len() <= 65535,
        8 + payload.len() <= ring.slots - ring.bytes.len(),
        ring.frames < usize::MAX,
    ensures
        ({
            let after = framed(ring, peer, payload);
            &&& after.bytes == ring.bytes + seq![
                (payload.len() / 256) as u8,
                (payload.len() % 256) as u8,
                (peer.ip / 0x100_0000) as u8,
                (peer.ip / 0x1_0000 % 256) as u8,
                (peer.ip / 256 % 256) as u8,
                (peer.ip % 256) as u8,
                (peer.port / 256) as u8,
                (peer.port % 256) as u8,
            ] + payload
            &&& after.slots == ring.slots
            &&& after.frames == ring.frames + 1
        }),
{
    let header = frame_header_of(payload.len() as u16, peer);
    assert(header.take(8) =~= header);
    assert(payload.take(payload.len() as int) =~= payload);
    let len = payload.len() as u16;
    assert(len / 256 == payload.len() / 256 && len % 256 == payload.len() % 256);
    assert(header =~= seq![
        (payload.len() / 256) as u8,
        (payload.len() % 256) as u8,
        (peer.ip / 0x100_0000) as u8,
        (peer.ip / 0x1_0000 % 256) as u8,
        (peer.ip / 256 % 256) as u8,
        (peer.ip % 256) as u8,
        (peer.port / 256) as u8,
        (peer.port % 256) as u8,
    ]);
}

/// What a ring starts with is read as a frame of this layout, and taking it out removes
/// just that frame.
pub proof fn law_frame_read(ring: RingState)
    requires
        ring.bytes.len() <= ring.slots,
        ring.frames > 0,
        ring.bytes.len() >= 8 + ring.bytes[0] * 256 + ring.bytes[1],
    ensures
        ({
            let b = ring.bytes;
            let len = b[0] * 256 + b[1];
            &&& frame_len(b) == len
            &&& frame_peer(b).ip == b[2] * 0x100_0000 + b[3] * 0x1_0000 + b[4] * 256 + b[5]
            &&& frame_peer(b).port == b[6] * 256 + b[7]
            &&& first_payload(ring) == b.subrange(8, 8 + len)
            &&& unframed(ring).bytes == b.skip(8 + len)
            &&& unframed(ring).slots == ring.slots
            &&& unframed(ring).frames == ring.frames - 1
        }),
{
    let b = ring.bytes;
    assert(b.subrange(0, 2) =~= seq![b[0], b[1]]);
    assert(b.subrange(2, 6) =~= seq![b[2], b[3], b[4], b[5]]);
    assert(b.subrange(6, 8) =~= seq![b[6], b[7]]);
}

/// Sending back takes from the front of the outstanding stream and appends to what is
/// staged; what was not taken is still outstanding, in order, and no other socket is
/// touched.
pub proof fn law_moved(
    before: ChipState,
    carry: Seq<u8>,
    after: ChipState,
    left: Seq<u8>,
    i: int,
    j: int,
    n: int,
)
    requires
        moved(before, carry, after, left, i, n),
        0 <= i < before.sockets.len(),
        0 <= j < before.sockets.len(),
        0 <= n <= carry.len() + before.sockets[i].rings.rx.bytes.len(),
    ensures
        ({
            let old = before.sockets[i];
            let new = after.sockets[i];
            let sent = new.rings.tx.bytes.skip(old.rings.tx.bytes.len() as int);
            &&& new.rings.tx.bytes.take(old.rings.tx.bytes.len() as int) == old.rings.tx.bytes
            &&& sent.len() == n
            &&& sent + left + new.rings.rx.bytes == carry + old.rings.rx.bytes
            &&& new.backend == old.backend
            &&& new.busy == old.busy
            &&& j != i ==> after.sockets[j] == before.sockets[j]
            &&& after.bulk == before.bulk
            &&& after.config == before.config
            &&& after.config_dirty == before.config_dirty
            &&& after.link_up == before.link_up
        }),
{
    let old = before.sockets[i];
    let new = after.sockets[i];
    let stream = carry + old.rings.rx.bytes;
    let sent = new.rings.tx.bytes.skip(old.rings.tx.bytes.len() as int);
    assert(new.rings.tx.bytes.take(old.rings.tx.bytes.len() as int) =~= old.rings.tx.bytes);
    assert(sent =~= stream.take(n));
    assert(left + new.rings.rx.bytes =~= stream.skip(n));
    assert(sent + left + new.rings.rx.bytes =~= sent + (left + new.rings.rx.bytes));
    assert(stream.take(n) + stream.skip(n) =~= stream);
}

/// The reset line is held low for a millisecond, and a pause is a batch of its own that
/// puts nothing on the bus.
pub proof fn law_reset_hold(ns: u32)
    ensures
        RESET_HOLD_NS == 1_000_000,
        delay_request(ns) == (Request::Batch { ops: seq![Op::Delay { ns }] }),
{
}

/// A socket that nobody has opened is free, can be claimed and has no rings.
pub proof fn law_fresh_slot(block: BlockAddress)
    ensures
        ({
            let slot = fresh_slot(block);
            &&& slot.backend.block == block
            &&& slot.backend.state is Free
            &&& !slot.backend.release_requested
            &&& slot.claimable()
            &&& slot.rings.rx.slots == 0 && slot.rings.tx.slots == 0
            &&& slot.rings.rx.bytes.len() == 0 && slot.rings.tx.bytes.len() == 0
        }),
{
}

} // verus!
