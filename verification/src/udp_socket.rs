//! The UDP (datagram) protocol state machine.
//!
//! There is no connection: once opened, the socket sits in `Established` (chip
//! status `SOCK_UDP`) and moves datagrams in both directions until closed. The
//! datagrams are kept in the socket's rings as frames (see [`crate::frame`]).
//!
//! **The chip's per-packet header** (RX): in UDP mode the chip prepends a PACKINFO
//! header to each received datagram in its RX buffer. For a UDP4 socket it is
//! **8 bytes**:
//!
//! ```text
//!   bytes 0..2 : u16 big-endian: top 5 bits = packet-info flags
//!                (IPv6 / BRD-ALL / MUL / LLA), low 11 bits = UDP data length
//!   bytes 2..6 : peer IPv4 address
//!   bytes 6..8 : peer port
//! ```
use vstd::prelude::*;

use crate::access::{carried_out, concluded, failed, passed, reply, Access, Request};
use crate::address::{read_request, start_read_request, start_write_request, Address, BlockAddress};
use crate::atomic_cell::AtomicMutLock;
use crate::bytes::{from_be16, from_be32, overlay, u16_from_be, u32_from_be};
use crate::error::{DriverError, Error};
use crate::frame::{
    discard, first_payload, frame_header, frame_header_of, frame_len, frame_peer, framed, has_frame,
    has_room, parse_frame_header, put_frame, take_frame, unframed, SocketAddr, FRAME_HEADER,
};
use crate::ring_buffer::min;
use crate::socket::{
    advance, ahead, handed_over, lemma_behind, BackendState, BulkAction, BulkKind, RingsState,
    SocketBackend, SocketRings, SocketStatus, Tick, Turn,
};
use crate::socket_common::{
    byte, clear, clear_interrupts, command, get_interrupts, get_rx_read_pointer,
    get_rx_received_size, get_tx_free_size, get_tx_write_pointer, init_script, init_socket,
    is_command_pending, read16, read8, read_rx_buffer, read_status, reports, send_sock_command,
    set_dst_port, set_ipv4_dst_addr, set_rx_read_pointer, set_src_port, start_read_rx_buffer,
    start_write_tx_buffer, status_register, word, write16, write32, SocketCommand,
    SocketProtocolMode, SocketStatusRegister, IR_RECV, IR_TIMEOUT, SN_CR, SN_DIPR0, SN_DPORTR0,
    SN_IR, SN_PORTR0, SN_RX_RD0, SN_RX_RSR0, SN_SR, SN_TX_FSR0, SN_TX_WR0,
};
use crate::spi_dma::SpiDmaDevice;
use crate::spsc_ring::{RingState, SpscRing};
use crate::transiver::{padded, Transceiver};
use crate::w6100::{ChipState, SlotState, W6100};

verus! {

/// The length of the chip's per-packet header.
pub const PACKINFO: usize = 8;

/// Mask selecting the 11-bit UDP data length from the first word of the
/// per-packet header.
pub const PACKINFO_LEN_MASK: u16 = 0x07FF;

/// The payload length that the per-packet header gives.
pub open spec fn packet_len(head: Seq<u8>) -> u16 {
    from_be16(head.subrange(0, 2)) & PACKINFO_LEN_MASK
}

/// The sender that the per-packet header gives.
pub open spec fn packet_peer(head: Seq<u8>) -> SocketAddr {
    SocketAddr { ip: from_be32(head.subrange(2, 6)), port: from_be16(head.subrange(6, 8)) }
}

/// The UDP protocol state machine. It holds only protocol state: the datagrams
/// are in the socket's rings.
#[derive(Debug, Clone, Copy, PartialEq, Eq, Structural)]
pub struct UdpSocketState {
    pub src_port: u16,
    pub status: SocketStatus,
    pub pending_error: Option<Error>,
    /// Set by the handle's `close`; acted on by the next tick.
    pub close_requested: bool,
}

/// What becomes of the datagram that the chip has in front.
pub enum Verdict {
    /// Not all of it is there, or the ring has no room right now: it stays on
    /// the chip.
    Wait,
    /// Its frame is larger than the whole ring, so it can never be delivered:
    /// it is skipped.
    Drop,
    /// It has no payload: its frame goes into the ring right away.
    Empty,
    /// Its payload is fetched.
    Fetch,
}

/// What becomes of a datagram of `len` payload bytes, of which the chip has
/// `available` bytes with the header.
pub open spec fn verdict(available: u16, len: u16, rx: RingState) -> Verdict {
    if available < PACKINFO + len {
        Verdict::Wait
    } else if FRAME_HEADER + len > rx.slots {
        Verdict::Drop
    } else if rx.free() < FRAME_HEADER + len {
        Verdict::Wait
    } else if len == 0 {
        Verdict::Empty
    } else {
        Verdict::Fetch
    }
}

/// Moving the chip's read pointer past what was taken.
pub open spec fn received_script(block: BlockAddress, pointer: u16) -> Seq<Request> {
    seq![
        write16(block, SN_RX_RD0, pointer),
        command(block, SocketCommand::Receive),
        clear(block, IR_RECV),
    ]
}

/// Whether an attempt to receive starts to fetch a payload.
pub open spec fn fetches(rings: RingsState, done: Seq<Access>) -> bool {
    &&& passed(done, 3)
    &&& word(done[0]) >= PACKINFO
    &&& verdict(word(done[0]), packet_len(reply(done[2])), rings.rx) is Fetch
}

/// One attempt to receive a datagram.
pub open spec fn receive_tick(block: BlockAddress, rings: RingsState, done: Seq<Access>) -> Tick<()> {
    let start = word(done[1]);
    let len = packet_len(reply(done[2]));
    let peer = packet_peer(reply(done[2]));
    let looked = seq![
        read16(block, SN_RX_RSR0),
        read16(block, SN_RX_RD0),
        read_request(Address { address: start, block: block.rx }, PACKINFO as nat),
    ];
    let nothing = concluded(done, Ok(BulkAction::Nothing));
    if !passed(done, 1) || word(done[0]) < PACKINFO {
        Tick { script: seq![read16(block, SN_RX_RSR0)], state: (), rings, result: nothing }
    } else if !passed(done, 3) {
        Tick { script: looked, state: (), rings, result: nothing }
    } else {
        match verdict(word(done[0]), len, rings.rx) {
            Verdict::Wait => Tick { script: looked, state: (), rings, result: nothing },
            Verdict::Drop => Tick {
                script: looked + received_script(block, ahead(start, PACKINFO + len)),
                state: (),
                rings,
                result: nothing,
            },
            Verdict::Empty => Tick {
                script: looked + received_script(block, ahead(start, PACKINFO as int)),
                state: (),
                rings: RingsState { rx: rings.rx.put(frame_header_of(0, peer)).committed(), ..rings },
                result: nothing,
            },
            Verdict::Fetch => Tick {
                script: looked.push(
                    start_read_request(
                        Address { address: ahead(start, PACKINFO as int), block: block.rx },
                        len as nat,
                    ),
                ),
                state: (),
                rings,
                result: concluded(
                    done,
                    Ok(
                        BulkAction::Started {
                            kind: BulkKind::ReceiveDatagram { src_ip: peer.ip, src_port: peer.port },
                            pointer: ahead(start, PACKINFO as int),
                            len: len as usize,
                        },
                    ),
                ),
            },
        }
    }
}

/// The header of the datagram that is staged first.
pub open spec fn staged_header(tx: RingState) -> Seq<u8> {
    padded(tx.bytes, FRAME_HEADER as nat)
}

/// Sending a datagram of `len` payload bytes to `peer`, with the payload at the
/// front of `bytes`. An empty one is sent at once, of any other the transfer to
/// the chip is started.
pub open spec fn send_turn(
    block: BlockAddress,
    bytes: Seq<u8>,
    len: u16,
    peer: SocketAddr,
    done: Seq<Access>,
) -> Turn<()> {
    let addressed = seq![
        write32(block, SN_DIPR0, peer.ip),
        write16(block, SN_DPORTR0, peer.port),
    ];
    let pointer = word(done[2]);
    if len == 0 {
        Turn {
            script: addressed.push(command(block, SocketCommand::Send)),
            state: (),
            result: concluded(done, Ok(BulkAction::Nothing)),
        }
    } else {
        Turn {
            script: addressed + seq![
                read16(block, SN_TX_WR0),
                start_write_request(
                    Address { address: pointer, block: block.tx },
                    padded(bytes, len as nat),
                ),
            ],
            state: (),
            result: concluded(
                done,
                Ok(BulkAction::Started { kind: BulkKind::Transmit, pointer, len: len as usize }),
            ),
        }
    }
}

/// One attempt to transmit a datagram. It stays in the ring while the chip has
/// no room for all of it. Once there is room it leaves the ring, header and
/// payload, whatever comes of the attempt.
pub open spec fn transmit_tick(block: BlockAddress, rings: RingsState, done: Seq<Access>) -> Tick<()> {
    let len = frame_len(staged_header(rings.tx));
    let peer = frame_peer(staged_header(rings.tx));
    let opened = rings.tx.taken(FRAME_HEADER as int);
    let asked = seq![read16(block, SN_TX_FSR0)];
    if rings.tx.frames == 0 {
        Tick { script: Seq::empty(), state: (), rings, result: Ok(BulkAction::Nothing) }
    } else if !passed(done, 1) || word(done[0]) < len {
        Tick {
            script: asked,
            state: (),
            rings,
            result: concluded(done, Ok(BulkAction::Nothing)),
        }
    } else {
        send_turn(block, opened.bytes, len, peer, done.skip(1)).beside(
            RingsState { tx: opened.taken(len as int).released(), ..rings },
        ).behind(asked)
    }
}

/// One attempt to move a datagram, either way: only if none is fetched is there
/// an attempt to transmit.
pub open spec fn move_tick(block: BlockAddress, rings: RingsState, done: Seq<Access>) -> Tick<()> {
    let rx = receive_tick(block, rings, done);
    if passed(done, rx.script.len()) && !fetches(rings, done) {
        transmit_tick(block, rx.rings, done.skip(rx.script.len() as int)).behind(rx.script)
    } else {
        rx
    }
}

impl UdpSocketState {
    /// This with another status.
    pub open spec fn at(self, status: SocketStatus) -> UdpSocketState {
        UdpSocketState { status, ..self }
    }

    /// A tick that asks `script` and ends in this state.
    pub open spec fn idle_tick(self, script: Seq<Request>, done: Seq<Access>) -> Turn<
        UdpSocketState,
    > {
        Turn { script, state: self, result: concluded(done, Ok(BulkAction::Nothing)) }
    }

    /// A tick that acts on a close request. There is no graceful shutdown.
    pub open spec fn close_tick(self, block: BlockAddress, done: Seq<Access>) -> Turn<
        UdpSocketState,
    > {
        let heard = UdpSocketState { close_requested: false, ..self };
        if self.is_over() || self.is_closing() {
            Turn { script: Seq::empty(), state: heard, result: Ok(BulkAction::Nothing) }
        } else {
            let state = if passed(done, 1) {
                heard.at(SocketStatus::Closing)
            } else {
                heard
            };
            state.idle_tick(seq![command(block, SocketCommand::Close)], done)
        }
    }

    /// The first tick: the socket is set up for UDP and opened.
    pub open spec fn init_tick(self, block: BlockAddress, done: Seq<Access>) -> Turn<
        UdpSocketState,
    > {
        let state = if passed(done, 5) {
            self.at(SocketStatus::Opening)
        } else {
            self
        };
        state.idle_tick(
            init_script(block, SocketProtocolMode::Udp4) + seq![
                write16(block, SN_PORTR0, self.src_port),
                command(block, SocketCommand::Open),
            ],
            done,
        )
    }

    /// A tick that waits for `OPEN` to take effect.
    pub open spec fn opening_tick(self, block: BlockAddress, done: Seq<Access>) -> Turn<
        UdpSocketState,
    > {
        let asked = seq![read8(block, SN_CR), read8(block, SN_SR)];
        if byte(done[0]) != 0 || !passed(done, 1) {
            self.idle_tick(seq![read8(block, SN_CR)], done)
        } else if !passed(done, 2) {
            self.idle_tick(asked, done)
        } else {
            match status_register(byte(done[1])) {
                SocketStatusRegister::Udp => self.at(SocketStatus::Established).idle_tick(
                    asked,
                    done,
                ),
                SocketStatusRegister::Closed => self.idle_tick(asked, done),
                _ => Turn {
                    script: asked.push(command(block, SocketCommand::Close)),
                    state: if passed(done, 3) {
                        self.at(SocketStatus::ClosingDueToError)
                    } else {
                        self
                    },
                    result: concluded(done, Err(Error::Other(DriverError::UnexpectedResponse))),
                },
            }
        }
    }

    /// What a tick of an open socket asks first: a timeout, which cost some
    /// datagram but not the socket, is acknowledged.
    pub open spec fn watch_script(block: BlockAddress, done: Seq<Access>) -> Seq<Request> {
        if passed(done, 1) && reports(byte(done[0]), IR_TIMEOUT) {
            seq![read8(block, SN_IR), clear(block, IR_TIMEOUT)]
        } else {
            seq![read8(block, SN_IR)]
        }
    }

    /// A tick of an open socket.
    pub open spec fn established_tick(
        self,
        block: BlockAddress,
        rings: RingsState,
        done: Seq<Access>,
    ) -> Tick<UdpSocketState> {
        let asked = Self::watch_script(block, done);
        if !passed(done, asked.len()) {
            self.idle_tick(asked, done).beside(rings)
        } else {
            move_tick(block, rings, done.skip(asked.len() as int)).with(self).behind(asked)
        }
    }

    /// A tick that waits for the end of a close.
    pub open spec fn closing_tick(self, block: BlockAddress, done: Seq<Access>) -> Turn<
        UdpSocketState,
    > {
        let state = if passed(done, 1) && status_register(byte(done[0]))
            == SocketStatusRegister::Closed {
            match self.status {
                SocketStatus::ClosingDueToError => self.at(SocketStatus::Error),
                SocketStatus::ClosingDueToTimeout => self.at(SocketStatus::Timeout),
                _ => self.at(SocketStatus::Closed),
            }
        } else {
            self
        };
        state.idle_tick(seq![read8(block, SN_SR)], done)
    }

    /// A tick of the handler that the state calls for.
    pub open spec fn handler_tick(
        self,
        block: BlockAddress,
        rings: RingsState,
        done: Seq<Access>,
    ) -> Tick<UdpSocketState> {
        if self.close_requested {
            self.close_tick(block, done).beside(rings)
        } else {
            match self.status {
                SocketStatus::Init => self.init_tick(block, done).beside(rings),
                SocketStatus::Opening => self.opening_tick(block, done).beside(rings),
                SocketStatus::Established => self.established_tick(block, rings, done),
                SocketStatus::ClosingDueToError
                | SocketStatus::ClosingDueToTimeout
                | SocketStatus::Closing => self.closing_tick(block, done).beside(rings),
                SocketStatus::Connecting
                | SocketStatus::Listening
                | SocketStatus::Timeout
                | SocketStatus::Closed
                | SocketStatus::Error => Tick {
                    script: Seq::empty(),
                    state: self,
                    rings,
                    result: Ok(BulkAction::Nothing),
                },
            }
        }
    }

    /// One tick. An error, other than having to wait, is kept and not reported.
    pub open spec fn run_tick(
        self,
        block: BlockAddress,
        rings: RingsState,
        done: Seq<Access>,
    ) -> Tick<UdpSocketState> {
        let tick = self.handler_tick(block, rings, done);
        match tick.result {
            Err(Error::Other(e)) => Tick {
                state: UdpSocketState { pending_error: Some(Error::Other(e)), ..tick.state },
                result: Ok(BulkAction::Nothing),
                ..tick
            },
            _ => tick,
        }
    }

    /// The status that the handle shows: a kept error goes first.
    pub open spec fn shown(self) -> SocketStatus {
        if self.pending_error is Some {
            SocketStatus::Error
        } else {
            self.status
        }
    }

    /// This, ready to be opened on the chip again.
    pub open spec fn rearmed(self) -> UdpSocketState {
        UdpSocketState {
            status: SocketStatus::Init,
            pending_error: None,
            close_requested: false,
            ..self
        }
    }

    /// Whether the socket is closed for good.
    pub open spec fn is_over(self) -> bool {
        ||| self.status == SocketStatus::Closed
        ||| self.status == SocketStatus::Error
        ||| self.status == SocketStatus::Timeout
    }

    /// Whether the socket is on its way down.
    pub open spec fn is_closing(self) -> bool {
        ||| self.status == SocketStatus::ClosingDueToError
        ||| self.status == SocketStatus::ClosingDueToTimeout
        ||| self.status == SocketStatus::Closing
    }

    /// A socket that will be bound to `src_port`.
    pub fn bind(src_port: u16) -> (state: Self)
        ensures
            state == (UdpSocketState {
                src_port,
                status: SocketStatus::Init,
                pending_error: None,
                close_requested: false,
            }),
    {
        UdpSocketState {
            src_port,
            status: SocketStatus::Init,
            pending_error: None,
            close_requested: false,
        }
    }

    /// The status to show. `Established` means "open and usable" (bound); there
    /// is no peer connection to report.
    pub fn status(&self) -> (status: SocketStatus)
        ensures
            status == self.shown(),
    {
        if self.pending_error.is_some() {
            SocketStatus::Error
        } else {
            self.status
        }
    }

    /// Re-arm so the next `run` re-opens the socket on the chip (after a
    /// link-loss reset).
    pub fn rearm(&mut self)
        ensures
            *final(self) == old(self).rearmed(),
    {
        self.status = SocketStatus::Init;
        self.pending_error = None;
        self.close_requested = false;
    }

    /// Request a close on the next `run` tick.
    pub fn request_close(&mut self)
        ensures
            *final(self) == (UdpSocketState { close_requested: true, ..*old(self) }),
    {
        self.close_requested = true;
    }

    /// Whether the socket has reached a terminal (closed) state.
    pub fn is_closed(&self) -> (b: bool)
        ensures
            b == self.is_over(),
    {
        match self.status {
            SocketStatus::Closed | SocketStatus::Error | SocketStatus::Timeout => true,
            _ => false,
        }
    }

    /// If a datagram is waiting on the chip and the rx ring has room for the
    /// whole frame, read its per-packet header and **start** a DMA of just the
    /// payload. The frame (header + payload) reaches the rx ring once the DMA has
    /// finished. One datagram per call. Non-blocking.
    #[verifier::rlimit(30)]
    #[verifier::spinoff_prover]
    pub fn receive<D: SpiDmaDevice>(
        &mut self,
        block: &BlockAddress,
        trans: &mut Transceiver<D>,
        rings: &mut SocketRings<'_>,
    ) -> (r: Result<BulkAction, Error>)
        requires
            old(trans).wf(),
            old(rings).wf(),
        ensures
            ({
                let done = old(trans).did(final(trans));
                let tick = receive_tick(*block, old(rings)@, done);
                &&& carried_out(tick.script, done)
                &&& final(rings)@ == tick.rings
                &&& r == tick.result
            }),
            old(trans).advanced(final(trans)),
            handed_over(old(trans), final(trans), r),
            final(rings).wf(),
            *final(self) == *old(self),
    {
        let available = get_rx_received_size(block, trans)? as usize;
        if available < PACKINFO {
            // No complete packet header yet.
            return Ok(BulkAction::Nothing);
        }
        // Peek the chip's per-packet header (does not advance the read pointer).
        let start = get_rx_read_pointer(block, trans)?;
        let mut head = [0u8; 8];
        read_rx_buffer(block, trans, start, &mut head)?;
        let (payload_len, peer) = parse_packet_header(&head);

        // The whole datagram must be present on the chip before it is consumed.
        if available < PACKINFO + payload_len {
            return Ok(BulkAction::Nothing);
        }
        let framed_len = FRAME_HEADER + payload_len;

        // A datagram whose frame is larger than the entire ring can never be
        // delivered, so back-pressure would wedge the chip's RX buffer forever
        // (blocking every datagram behind it). Drop it instead: skip the whole
        // packet on the chip and RECV, delivering nothing.
        if framed_len > rings.rx.capacity() {
            set_rx_read_pointer(block, trans, advance(start, PACKINFO + payload_len))?;
            send_sock_command(block, trans, SocketCommand::Receive)?;
            clear_interrupts(block, trans, IR_RECV)?;
            return Ok(BulkAction::Nothing);
        }
        // The frame fits the ring in principle but not right now: leave it on the
        // chip (back-pressure) and retry once the consumer has drained some.
        if rings.rx.free() < framed_len {
            return Ok(BulkAction::Nothing);
        }
        // Empty datagrams are valid but carry no payload to DMA: stage the frame
        // right away and advance past the header.
        if payload_len == 0 {
            let _ = rings.rx.write(&frame_header(0, peer));
            rings.rx.commit_frame();

            set_rx_read_pointer(block, trans, advance(start, PACKINFO))?;
            send_sock_command(block, trans, SocketCommand::Receive)?;
            clear_interrupts(block, trans, IR_RECV)?;

            return Ok(BulkAction::Nothing);
        }
        // Payload starts right after the chip's per-packet header.
        let payload_ptr = advance(start, PACKINFO);
        start_read_rx_buffer(block, trans, payload_ptr, payload_len)?;

        Ok(
            BulkAction::Started {
                kind: BulkKind::ReceiveDatagram { src_ip: peer.ip, src_port: peer.port },
                pointer: payload_ptr,
                len: payload_len,
            },
        )
    }

    /// If a datagram is staged in the tx ring and the chip has room for it,
    /// program the destination and **start** a DMA of the payload out of the
    /// ring. The write pointer is committed and `SEND` issued once the DMA has
    /// finished. One datagram per call. Non-blocking.
    pub fn transmit<D: SpiDmaDevice>(
        &mut self,
        block: &BlockAddress,
        trans: &mut Transceiver<D>,
        rings: &mut SocketRings<'_>,
    ) -> (r: Result<BulkAction, Error>)
        requires
            old(trans).wf(),
            old(rings).wf(),
        ensures
            ({
                let done = old(trans).did(final(trans));
                let tick = transmit_tick(*block, old(rings)@, done);
                &&& carried_out(tick.script, done)
                &&& final(rings)@ == tick.rings
                &&& r == tick.result
            }),
            old(trans).advanced(final(trans)),
            handed_over(old(trans), final(trans), r),
            final(rings).wf(),
            *final(self) == *old(self),
    {
        if rings.tx.frames() == 0 {
            return Ok(BulkAction::Nothing);
        }
        // Inspect the frame header without consuming it: if the chip cannot take
        // the whole datagram this tick it stays staged.
        let mut head = [0u8; 8];
        let _ = rings.tx.peek(&mut head);
        assert(head@ =~= staged_header(rings@.tx));
        let (payload_len, dst) = parse_frame_header(&head);

        let free = get_tx_free_size(block, trans)? as usize;
        if free < payload_len {
            return Ok(BulkAction::Nothing);
        }
        // Committed to sending: whatever comes of it, the frame leaves the ring, so
        // the next one is found at the front.
        let ghost mid = *trans;
        let mut sink = [0u8; 8];
        let _ = rings.tx.read(&mut sink);
        let ghost opened = rings@.tx;
        let staged = rings.tx.len();
        let sent = self.send_datagram(block, trans, &mut rings.tx, payload_len as u16, dst);
        let handed = staged - rings.tx.len();
        if handed < payload_len {
            discard(&mut rings.tx, payload_len - handed);
        }
        rings.tx.release_frame();
        proof {
            let asked = seq![read16(*block, SN_TX_FSR0)];
            let turn = send_turn(*block, opened.bytes, payload_len as u16, dst, mid.did(trans));
            lemma_behind(old(trans), &mid, trans, asked, turn.script);
            assert(rings@.tx =~= opened.taken(payload_len as int).released());
        }
        sent
    }

    /// Send a datagram whose payload stands at the front of `tx`, or start to. If
    /// the payload is handed over, it leaves the ring.
    fn send_datagram<D: SpiDmaDevice>(
        &mut self,
        block: &BlockAddress,
        trans: &mut Transceiver<D>,
        tx: &mut SpscRing<'_>,
        len: u16,
        dst: SocketAddr,
    ) -> (r: Result<BulkAction, Error>)
        requires
            old(trans).wf(),
            old(tx).wf(),
        ensures
            ({
                let done = old(trans).did(final(trans));
                let turn = send_turn(*block, old(tx)@.bytes, len, dst, done);
                &&& carried_out(turn.script, done)
                &&& r == turn.result
            }),
            old(trans).advanced(final(trans)),
            handed_over(old(trans), final(trans), r),
            final(tx).wf(),
            final(tx)@ == old(tx)@ || final(tx)@ == old(tx)@.taken(len as int),
            *final(self) == *old(self),
    {
        set_ipv4_dst_addr(block, trans, dst.ip)?;
        set_dst_port(block, trans, dst.port)?;

        // Empty datagram: nothing to DMA, just SEND (write pointer unchanged).
        if len == 0 {
            send_sock_command(block, trans, SocketCommand::Send)?;
            return Ok(BulkAction::Nothing);
        }
        let pointer = get_tx_write_pointer(block, trans)?;
        start_write_tx_buffer(block, trans, pointer, tx, len as usize)?;

        Ok(BulkAction::Started { kind: BulkKind::Transmit, pointer, len: len as usize })
    }

    /// Act on a pending close: UDP has no graceful shutdown, so just `CLOSE` the
    /// hardware socket and let the teardown finish.
    pub fn handle_close<D: SpiDmaDevice>(
        &mut self,
        block: &BlockAddress,
        trans: &mut Transceiver<D>,
    ) -> (r: Result<BulkAction, Error>)
        requires
            old(trans).wf(),
        ensures
            ({
                let done = old(trans).did(final(trans));
                let turn = old(self).close_tick(*block, done);
                &&& carried_out(turn.script, done)
                &&& *final(self) == turn.state
                &&& r == turn.result
            }),
            old(trans).advanced(final(trans)),
            old(trans).same_link(final(trans)),
    {
        self.close_requested = false;

        match self.status {
            SocketStatus::Closed
            | SocketStatus::Error
            | SocketStatus::Timeout
            | SocketStatus::ClosingDueToError
            | SocketStatus::ClosingDueToTimeout
            | SocketStatus::Closing => Ok(BulkAction::Nothing),
            _ => {
                send_sock_command(block, trans, SocketCommand::Close)?;
                self.status = SocketStatus::Closing;

                Ok(BulkAction::Nothing)
            },
        }
    }

    /// Configure the hardware socket for UDP and issue `OPEN`. The source port
    /// must be set before `OPEN`.
    pub fn handle_init<D: SpiDmaDevice>(
        &mut self,
        block: &BlockAddress,
        trans: &mut Transceiver<D>,
    ) -> (r: Result<BulkAction, Error>)
        requires
            old(trans).wf(),
        ensures
            ({
                let done = old(trans).did(final(trans));
                let turn = old(self).init_tick(*block, done);
                &&& carried_out(turn.script, done)
                &&& *final(self) == turn.state
                &&& r == turn.result
            }),
            old(trans).advanced(final(trans)),
            old(trans).same_link(final(trans)),
    {
        init_socket(block, trans, SocketProtocolMode::Udp4)?;
        set_src_port(block, trans, self.src_port)?;

        send_sock_command(block, trans, SocketCommand::Open)?;
        self.status = SocketStatus::Opening;

        Ok(BulkAction::Nothing)
    }

    /// Wait for `OPEN` to move the socket into `SOCK_UDP`; then it is ready.
    pub fn handle_opening<D: SpiDmaDevice>(
        &mut self,
        block: &BlockAddress,
        trans: &mut Transceiver<D>,
    ) -> (r: Result<BulkAction, Error>)
        requires
            old(trans).wf(),
        ensures
            ({
                let done = old(trans).did(final(trans));
                let turn = old(self).opening_tick(*block, done);
                &&& carried_out(turn.script, done)
                &&& *final(self) == turn.state
                &&& r == turn.result
            }),
            old(trans).advanced(final(trans)),
            old(trans).same_link(final(trans)),
    {
        if is_command_pending(block, trans)? {
            return Ok(BulkAction::Nothing);
        }
        match read_status(block, trans)? {
            SocketStatusRegister::Udp => {
                self.status = SocketStatus::Established;
                Ok(BulkAction::Nothing)
            },
            // The status register may lag a tick behind the command register;
            // keep waiting.
            SocketStatusRegister::Closed => Ok(BulkAction::Nothing),
            _ => {
                send_sock_command(block, trans, SocketCommand::Close)?;
                self.status = SocketStatus::ClosingDueToError;

                Err(Error::Other(DriverError::UnexpectedResponse))
            },
        }
    }

    /// Waiting for the chip to close the socket.
    pub fn handle_closing<D: SpiDmaDevice>(
        &mut self,
        block: &BlockAddress,
        trans: &mut Transceiver<D>,
    ) -> (r: Result<BulkAction, Error>)
        requires
            old(trans).wf(),
            old(self).is_closing(),
        ensures
            ({
                let done = old(trans).did(final(trans));
                let turn = old(self).closing_tick(*block, done);
                &&& carried_out(turn.script, done)
                &&& *final(self) == turn.state
                &&& r == turn.result
            }),
            old(trans).advanced(final(trans)),
            old(trans).same_link(final(trans)),
    {
        if read_status(block, trans)? == SocketStatusRegister::Closed {
            self.status = match &self.status {
                SocketStatus::ClosingDueToError => SocketStatus::Error,
                SocketStatus::ClosingDueToTimeout => SocketStatus::Timeout,
                _ => SocketStatus::Closed,
            };
        }
        Ok(BulkAction::Nothing)
    }

    /// Drain the chip first; only if nothing started push a datagram.
    fn exchange<D: SpiDmaDevice>(
        &mut self,
        block: &BlockAddress,
        trans: &mut Transceiver<D>,
        rings: &mut SocketRings<'_>,
    ) -> (r: Result<BulkAction, Error>)
        requires
            old(trans).wf(),
            old(rings).wf(),
        ensures
            ({
                let done = old(trans).did(final(trans));
                let tick = move_tick(*block, old(rings)@, done);
                &&& carried_out(tick.script, done)
                &&& final(rings)@ == tick.rings
                &&& r == tick.result
            }),
            old(trans).advanced(final(trans)),
            handed_over(old(trans), final(trans), r),
            final(rings).wf(),
            *final(self) == *old(self),
    {
        let received = self.receive(block, trans, rings)?;
        match received {
            BulkAction::Started { .. } => Ok(received),
            BulkAction::Nothing => {
                let ghost mid = *trans;
                let ghost tick = receive_tick(*block, old(rings)@, old(trans).did(&mid));
                let sent = self.transmit(block, trans, rings);
                proof {
                    let second = transmit_tick(*block, tick.rings, mid.did(trans)).script;
                    lemma_behind(old(trans), &mid, trans, tick.script, second);
                    lemma_receive_on(*block, old(rings)@, old(trans).did(&mid), mid.did(trans));
                    assert(old(trans).did(trans) =~= old(trans).did(&mid) + mid.did(trans));
                }
                sent
            },
        }
    }

    /// Idle step for an open socket: move a datagram in either direction. A bulk
    /// receive/transmit returns `Started` (the bus is owned now, until the DMA
    /// has finished).
    #[verifier::rlimit(40)]
    #[verifier::spinoff_prover]
    pub fn handle_established<D: SpiDmaDevice>(
        &mut self,
        block: &BlockAddress,
        trans: &mut Transceiver<D>,
        rings: &mut SocketRings<'_>,
    ) -> (r: Result<BulkAction, Error>)
        requires
            old(trans).wf(),
            old(rings).wf(),
        ensures
            ({
                let done = old(trans).did(final(trans));
                let tick = old(self).established_tick(*block, old(rings)@, done);
                &&& carried_out(tick.script, done)
                &&& *final(self) == tick.state
                &&& final(rings)@ == tick.rings
                &&& r == tick.result
            }),
            old(trans).advanced(final(trans)),
            handed_over(old(trans), final(trans), r),
            final(rings).wf(),
    {
        // An ARP/send timeout drops the offending datagram but does not kill a
        // connectionless socket; just acknowledge it and carry on.
        if get_interrupts(block, trans)?.contains(IR_TIMEOUT) {
            clear_interrupts(block, trans, IR_TIMEOUT)?;
        }
        let ghost mid = *trans;
        let ghost asked = Self::watch_script(*block, old(trans).did(trans));
        let moved = self.exchange(block, trans, rings);
        proof {
            let tick = move_tick(*block, old(rings)@, mid.did(trans));
            lemma_behind(old(trans), &mid, trans, asked, tick.script);
        }
        moved
    }

    /// Advance the state machine by one non-blocking tick. A swallowed (non
    /// `WouldBlock`) error is stored and surfaced through `status`.
    pub fn run<D: SpiDmaDevice>(
        &mut self,
        block: &BlockAddress,
        trans: &mut Transceiver<D>,
        rings: &mut SocketRings<'_>,
    ) -> (r: Result<BulkAction, Error>)
        requires
            old(trans).wf(),
            old(rings).wf(),
        ensures
            ({
                let done = old(trans).did(final(trans));
                let tick = old(self).run_tick(*block, old(rings)@, done);
                &&& carried_out(tick.script, done)
                &&& *final(self) == tick.state
                &&& final(rings)@ == tick.rings
                &&& r == tick.result
            }),
            old(trans).advanced(final(trans)),
            handed_over(old(trans), final(trans), r),
            final(rings).wf(),
    {
        let result = if self.close_requested {
            self.handle_close(block, trans)
        } else {
            match self.status {
                SocketStatus::Init => self.handle_init(block, trans),
                SocketStatus::Opening => self.handle_opening(block, trans),
                SocketStatus::Established => self.handle_established(block, trans, rings),
                SocketStatus::ClosingDueToError
                | SocketStatus::ClosingDueToTimeout
                | SocketStatus::Closing => self.handle_closing(block, trans),
                // UDP never enters these TCP-only states.
                SocketStatus::Connecting
                | SocketStatus::Listening
                | SocketStatus::Timeout
                | SocketStatus::Closed
                | SocketStatus::Error => Ok(BulkAction::Nothing),
            }
        };
        match result {
            Ok(action) => Ok(action),
            Err(Error::WouldBlock) => Err(Error::WouldBlock),
            Err(e) => {
                self.pending_error = Some(e);
                Ok(BulkAction::Nothing)
            },
        }
    }
}

/// What a finished attempt to receive was is not changed by what comes after it.
proof fn lemma_receive_on(
    block: BlockAddress,
    rings: RingsState,
    done: Seq<Access>,
    more: Seq<Access>,
)
    requires
        carried_out(receive_tick(block, rings, done).script, done),
        !failed(done),
    ensures
        receive_tick(block, rings, done + more).script == receive_tick(block, rings, done).script,
        receive_tick(block, rings, done + more).rings == receive_tick(block, rings, done).rings,
        passed(done + more, done.len()),
        fetches(rings, done + more) == fetches(rings, done),
{
    let all = done + more;
    assert(all[0] == done[0]);
    if word(done[0]) >= PACKINFO {
        assert(all[1] == done[1]);
        assert(all[2] == done[2]);
    }
}

/// Read the chip's per-packet header: the payload length and the sender. The
/// first word packs flags (top 5 bits) with the length (low 11 bits); a UDP4
/// socket only receives IPv4, so the flags are masked out.
pub fn parse_packet_header(head: &[u8; 8]) -> (r: (usize, SocketAddr))
    ensures
        r.0 == packet_len(head@),
        r.0 <= PACKINFO_LEN_MASK,
        r.1 == packet_peer(head@),
{
    let word = u16_from_be(head[0], head[1]);
    let len = word & PACKINFO_LEN_MASK;
    proof {
        assert(word & 0x07FF <= 0x07FF) by (bit_vector);
        assert(head@.subrange(0, 2) =~= seq![head@[0], head@[1]]);
        assert(head@.subrange(2, 6) =~= seq![head@[2], head@[3], head@[4], head@[5]]);
        assert(head@.subrange(6, 8) =~= seq![head@[6], head@[7]]);
    }
    let ip = u32_from_be(head[2], head[3], head[4], head[5]);
    let port = u16_from_be(head[6], head[7]);
    (len as usize, SocketAddr { ip, port })
}

/// The chip after its socket `i` was re-armed, if it is in use for UDP: the rings
/// are empty, and what a transfer on its way still brings in will be dropped.
pub open spec fn reconnected(chip: ChipState, i: int) -> ChipState {
    let slot = chip.sockets[i];
    match slot.backend.state {
        BackendState::Udp(udp) => chip.with_slot(
            i,
            SlotState {
                backend: SocketBackend {
                    state: BackendState::Udp(udp.rearmed()),
                    ..slot.backend
                },
                busy: false,
                rings: RingsState { rx: slot.rings.rx.cleared(), tx: slot.rings.tx.cleared() },
            },
        ).disowned(i),
        _ => chip,
    }
}

/// A lightweight, user-facing handle to a UDP socket of the chip.
/// `recv_from`/`send_to` touch the rings; the other operations go through the
/// protocol state.
///
/// A handle must be given back with [`release`](UdpSocket::release): one that is
/// just dropped leaves its hardware socket occupied. It is only the number of a
/// slot and not tied to one chip: use it with the chip that handed it out.
pub struct UdpSocket {
    slot: usize,
}

impl UdpSocket {
    /// Which of the chip's sockets this is a handle to.
    pub closed spec fn slot(&self) -> usize {
        self.slot
    }

    /// The chip has eight sockets.
    #[verifier::type_invariant]
    spec fn in_range(self) -> bool {
        self.slot < 8
    }

    /// A handle to the socket in `slot`.
    pub(crate) fn new(slot: usize) -> (handle: Self)
        requires
            slot < 8,
        ensures
            handle.slot() == slot,
    {
        UdpSocket { slot }
    }

    /// Which of the chip's sockets this is a handle to.
    pub fn index(&self) -> (slot: usize)
        ensures
            slot == self.slot(),
            slot < 8,
    {
        proof {
            use_type_invariant(self);
        }
        self.slot
    }

    /// Receive the next buffered datagram into `dst`, returning the number of
    /// payload bytes copied and the sender's address, or `None` if none is
    /// waiting. If `dst` is smaller than the datagram the excess is discarded
    /// (UDP semantics). Non-blocking.
    pub fn recv_from<'a, D: SpiDmaDevice>(&self, chip: &mut W6100<'a, D>, dst: &mut [u8]) -> (r: Result<
        Option<(usize, SocketAddr)>,
        Error,
    >)
        requires
            old(chip).wf(),
        ensures
            final(chip).wf(),
            final(chip).link() == old(chip).link(),
            ({
                let slot = old(chip)@.sockets[self.slot() as int];
                let rx = slot.rings.rx;
                let n = min(frame_len(rx.bytes) as int, old(dst)@.len() as int);
                if has_frame(rx) {
                    &&& match r {
                        Ok(Some((copied, peer))) => copied == n && peer == frame_peer(rx.bytes),
                        _ => false,
                    }
                    &&& final(dst)@ == overlay(old(dst)@, 0, first_payload(rx).take(n))
                    &&& final(chip)@ == old(chip)@.with_slot(
                        self.slot() as int,
                        (SlotState { rings: RingsState { rx: unframed(rx), ..slot.rings }, ..slot }),
                    )
                } else {
                    &&& r == Ok::<Option<(usize, SocketAddr)>, Error>(None)
                    &&& final(dst)@ == old(dst)@
                    &&& final(chip)@ == old(chip)@
                }
            }),
    {
        proof {
            use_type_invariant(self);
        }
        let socket = chip.socket_mut(self.slot);
        let taken = take_frame(&mut socket.rings.rx, dst);
        if taken.is_none() {
            assert(chip@.sockets =~= old(chip)@.sockets);
        }
        Ok(taken)
    }

    /// Queue one datagram of `src` for transmission to `dst`, returning the
    /// number of payload bytes accepted (`src.len()` on success, `0` if the tx
    /// ring cannot currently hold the whole datagram: retry later). The datagram
    /// is sent by `run`. A datagram larger than the tx ring capacity, or longer than
    /// a frame header can spell, can never be staged and always returns `0`.
    /// Non-blocking.
    pub fn send_to<'a, D: SpiDmaDevice>(
        &self,
        chip: &mut W6100<'a, D>,
        src: &[u8],
        dst: SocketAddr,
    ) -> (r: Result<usize, Error>)
        requires
            old(chip).wf(),
        ensures
            final(chip).wf(),
            final(chip).link() == old(chip).link(),
            ({
                let slot = old(chip)@.sockets[self.slot() as int];
                if has_room(slot.rings.tx, src@.len()) {
                    &&& r is Ok && r->Ok_0 == src@.len()
                    &&& final(chip)@ == old(chip)@.with_slot(
                        self.slot() as int,
                        (SlotState {
                            rings: RingsState { tx: framed(slot.rings.tx, dst, src@), ..slot.rings },
                            ..slot
                        }),
                    )
                } else {
                    &&& r == Ok::<usize, Error>(0usize)
                    &&& final(chip)@ == old(chip)@
                }
            }),
    {
        proof {
            use_type_invariant(self);
        }
        let socket = chip.socket_mut(self.slot);
        if put_frame(&mut socket.rings.tx, dst, src) {
            Ok(src.len())
        } else {
            assert(chip@.sockets =~= old(chip)@.sockets);
            Ok(0)
        }
    }
    /// How far the socket has come; `Closed` if the slot is no longer in use for
    /// this protocol.
    pub fn status<'a, D: SpiDmaDevice>(&self, chip: &mut W6100<'a, D>) -> (r: Result<
        SocketStatus,
        Error,
    >)
        requires
            old(chip).wf(),
        ensures
            final(chip).wf(),
            final(chip)@ == old(chip)@,
            final(chip).link() == old(chip).link(),
            ({
                let slot = old(chip)@.sockets[self.slot() as int];
                r == (if slot.busy {
                    Err::<SocketStatus, Error>(Error::WouldBlock)
                } else {
                    Ok(
                        match slot.backend.state {
                            BackendState::Udp(udp) => udp.shown(),
                            _ => SocketStatus::Closed,
                        },
                    )
                })
            }),
    {
        proof {
            use_type_invariant(self);
        }
        let socket = chip.socket_mut(self.slot);
        let r = match socket.backend.lock_mut() {
            Ok(mut guard) => Ok(
                match guard.as_mut().as_udp_mut() {
                    Some(udp) => udp.status(),
                    None => SocketStatus::Closed,
                },
            ),
            Err(held) => Err(Error::from(held)),
        };
        assert(chip@.sockets =~= old(chip)@.sockets);
        r
    }

    /// Request a close of the socket. Non-blocking: the next `run` tick acts on
    /// it and the teardown completes asynchronously; poll
    /// [`status`](UdpSocket::status) for `Closed` to confirm.
    pub fn close<'a, D: SpiDmaDevice>(&self, chip: &mut W6100<'a, D>) -> (r: Result<(), Error>)
        requires
            old(chip).wf(),
        ensures
            final(chip).wf(),
            final(chip).link() == old(chip).link(),
            ({
                let slot = old(chip)@.sockets[self.slot() as int];
                if slot.busy {
                    &&& r == Err::<(), Error>(Error::WouldBlock)
                    &&& final(chip)@ == old(chip)@
                } else {
                    &&& r == Ok::<(), Error>(())
                    &&& final(chip)@ == old(chip)@.with_slot(
                        self.slot() as int,
                        match slot.backend.state {
                            BackendState::Udp(udp) => slot.with(
                                (SocketBackend {
                                    state: BackendState::Udp(
                                        (UdpSocketState { close_requested: true, ..udp }),
                                    ),
                                    ..slot.backend
                                }),
                            ),
                            _ => slot,
                        },
                    )
                }
            }),
    {
        proof {
            use_type_invariant(self);
        }
        let socket = chip.socket_mut(self.slot);
        match socket.backend.lock_mut() {
            Ok(mut guard) => {
                if let Some(udp) = guard.as_mut().as_udp_mut() {
                    udp.request_close();
                }
            },
            Err(held) => {
                assert(chip@.sockets =~= old(chip)@.sockets);
                return Err(Error::from(held));
            },
        }
        Ok(())
    }

    /// Re-arm the socket so `run` re-opens it, with empty rings. Use after a
    /// link-loss reset to bring it back up. What a transfer on its way still brings
    /// in is dropped.
    pub fn reconnect<'a, D: SpiDmaDevice>(&self, chip: &mut W6100<'a, D>) -> (r: Result<(), Error>)
        requires
            old(chip).wf(),
        ensures
            final(chip).wf(),
            final(chip).link() == old(chip).link(),
            ({
                let slot = old(chip)@.sockets[self.slot() as int];
                if slot.busy {
                    &&& r == Err::<(), Error>(Error::WouldBlock)
                    &&& final(chip)@ == old(chip)@
                } else {
                    &&& r == Ok::<(), Error>(())
                    &&& final(chip)@ == reconnected(old(chip)@, self.slot() as int)
                }
            }),
    {
        proof {
            use_type_invariant(self);
        }
        let ghost i = self.slot as int;
        let ghost before = chip@;
        let socket = chip.socket_mut(self.slot);
        let armed = match socket.backend.lock_mut() {
            Ok(mut guard) => {
                if let Some(udp) = guard.as_mut().as_udp_mut() {
                    udp.rearm();
                    // Drop anything left over from before, so the socket starts
                    // again with empty rings.
                    socket.rings.clear();
                    true
                } else {
                    false
                }
            },
            Err(held) => {
                assert(chip@.sockets =~= before.sockets);
                return Err(Error::from(held));
            },
        };
        if armed {
            chip.disown(self.slot);
        } else {
            assert(chip@.sockets =~= before.sockets);
        }
        Ok(())
    }

    /// Give the handle back: the hardware socket goes back to the pool. The slot
    /// is marked for release, so the next `run` ticks close it on the chip and
    /// then return it to `Free` for reuse. If the socket is held elsewhere right
    /// now, nothing changes.
    pub fn release<'a, D: SpiDmaDevice>(self, chip: &mut W6100<'a, D>)
        requires
            old(chip).wf(),
        ensures
            final(chip).wf(),
            final(chip).link() == old(chip).link(),
            ({
                let slot = old(chip)@.sockets[self.slot() as int];
                final(chip)@ == old(chip)@.with_slot(
                    self.slot() as int,
                    if slot.busy {
                        slot
                    } else {
                        slot.with(slot.backend.after_release())
                    },
                )
            }),
    {
        proof {
            use_type_invariant(&self);
        }
        let socket = chip.socket_mut(self.slot);
        if let Ok(mut guard) = socket.backend.lock_mut() {
            guard.as_mut().request_release();
        }
    }
}

} // verus!
