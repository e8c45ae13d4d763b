//! The TCP protocol state machine and its handle.
use vstd::prelude::*;

use crate::access::{
    carried_out, concluded, ended, failed, lemma_carried_out_fails, lemma_carried_out_on, passed,
    Access, Request,
};
use crate::address::{start_read_request, start_write_request, write_request, Address, BlockAddress};
use crate::atomic_cell::AtomicMutLock;
use crate::bytes::overlay;
use crate::error::{DriverError, Error};
use crate::ring_buffer::min;
use crate::socket::{
    advance, ahead, handed_over, lemma_ahead_twice, lemma_ahead_zero, lemma_behind, BackendState,
    BulkAction, BulkKind, RingsState, SocketBackend, SocketRings, SocketStatus, Tick, Turn,
};
use crate::socket_common::{
    byte, clear, clear_interrupts, command, get_interrupts, get_rx_read_pointer,
    get_rx_received_size, get_tx_free_size, get_tx_write_pointer, init_script, init_socket,
    is_command_pending, read16, read8, read_status, reports, send_sock_command, set_dst_port,
    set_ipv4_dst_addr, set_src_port, set_tx_write_pointer, start_read_rx_buffer,
    start_write_tx_buffer, status_register, word, write16, write32, write_tx_buffer, SocketCommand,
    SocketProtocolMode, SocketStatusRegister, IR_CON, IR_DISCON, IR_TIMEOUT, SN_CR, SN_DIPR0,
    SN_DPORTR0, SN_IR, SN_PORTR0, SN_RX_RD0, SN_RX_RSR0, SN_SR, SN_TX_FSR0, SN_TX_WR0,
};
use crate::spi_dma::SpiDmaDevice;
use crate::spsc_ring::SpscRing;
use crate::transiver::{drained, padded, Transceiver};
use crate::w6100::{ChipState, SlotState, W6100};

verus! {

/// How a connection comes about.
#[derive(Debug, Clone, Copy, PartialEq, Eq, Structural)]
pub enum TcpMode {
    Connect { dst_addr: u32, dst_port: u16, src_port: u16 },
    Listen { src_port: u16 },
}

/// The TCP protocol state machine. It holds only protocol state: the bytes of
/// the connection are in the socket's rings.
#[derive(Debug, Clone, Copy, PartialEq, Eq, Structural)]
pub struct TcpSocketState {
    pub mode: TcpMode,
    pub status: SocketStatus,
    pub pending_error: Option<Error>,
    /// Set by the handle's `close`; acted on by the next tick, which has chip
    /// access.
    pub close_requested: bool,
}

/// How many bytes a receive moves: what the chip reports, as far as the rx ring
/// has room.
pub open spec fn receive_len(rings: RingsState, done: Seq<Access>) -> int {
    min(word(done[0]) as int, rings.rx.free())
}

/// One attempt to receive. The bytes stay on the chip while the ring is full.
pub open spec fn receive_tick(block: BlockAddress, rings: RingsState, done: Seq<Access>) -> Tick<()> {
    let n = receive_len(rings, done);
    let pointer = word(done[1]);
    Tick {
        script: if passed(done, 1) && n > 0 {
            seq![
                read16(block, SN_RX_RSR0),
                read16(block, SN_RX_RD0),
                start_read_request(Address { address: pointer, block: block.rx }, n as nat),
            ]
        } else {
            seq![read16(block, SN_RX_RSR0)]
        },
        state: (),
        rings,
        result: concluded(
            done,
            Ok(
                if n > 0 {
                    BulkAction::Started { kind: BulkKind::Receive, pointer, len: n as usize }
                } else {
                    BulkAction::Nothing
                },
            ),
        ),
    }
}

/// How many bytes a transmit moves: what is staged, as far as the chip has room.
pub open spec fn transmit_len(rings: RingsState, done: Seq<Access>) -> int {
    min(rings.tx.bytes.len() as int, word(done[0]) as int)
}

/// One attempt to transmit. The bytes stay in the ring while the chip is full.
pub open spec fn transmit_tick(block: BlockAddress, rings: RingsState, done: Seq<Access>) -> Tick<()> {
    let n = transmit_len(rings, done);
    let pointer = word(done[1]);
    if rings.tx.bytes.len() == 0 {
        Tick { script: Seq::empty(), state: (), rings, result: Ok(BulkAction::Nothing) }
    } else {
        Tick {
            script: if passed(done, 1) && n > 0 {
                seq![
                    read16(block, SN_TX_FSR0),
                    read16(block, SN_TX_WR0),
                    start_write_request(
                        Address { address: pointer, block: block.tx },
                        rings.tx.bytes.take(n),
                    ),
                ]
            } else {
                seq![read16(block, SN_TX_FSR0)]
            },
            state: (),
            rings: if passed(done, 2) && done.len() == 3 && drained(done[2]) {
                RingsState { tx: rings.tx.taken(n), ..rings }
            } else {
                rings
            },
            result: concluded(
                done,
                Ok(
                    if n > 0 {
                        BulkAction::Started { kind: BulkKind::Transmit, pointer, len: n as usize }
                    } else {
                        BulkAction::Nothing
                    },
                ),
            ),
        }
    }
}

/// One attempt to move data, either way: only if nothing can be received is
/// there an attempt to transmit.
pub open spec fn move_tick(block: BlockAddress, rings: RingsState, done: Seq<Access>) -> Tick<()> {
    if passed(done, 1) && receive_len(rings, done) <= 0 {
        let tx = transmit_tick(block, rings, done.skip(1));
        Tick { script: seq![read16(block, SN_RX_RSR0)] + tx.script, ..tx }
    } else {
        receive_tick(block, rings, done)
    }
}

/// The most that a flush hands to the chip in one access.
pub const FLUSH_CHUNK: usize = 64;

/// Writing `data` to the chip's TX buffer, a chunk at a time.
pub open spec fn chunk_writes(block: BlockAddress, pointer: u16, data: Seq<u8>) -> Seq<Request>
    decreases data.len(),
{
    if data.len() == 0 {
        Seq::empty()
    } else {
        let n = min(FLUSH_CHUNK as int, data.len() as int);
        seq![write_request(Address { address: pointer, block: block.tx }, data.take(n))]
            + chunk_writes(block, ahead(pointer, n), data.skip(n))
    }
}

/// One pass that pushes out as much staged data as the chip has room for.
pub open spec fn flush_tick(block: BlockAddress, rings: RingsState, done: Seq<Access>) -> Tick<()> {
    let n = transmit_len(rings, done);
    let pointer = word(done[1]);
    if rings.tx.bytes.len() == 0 {
        Tick { script: Seq::empty(), state: (), rings, result: Ok(BulkAction::Nothing) }
    } else {
        Tick {
            script: if passed(done, 1) && n > 0 {
                seq![read16(block, SN_TX_FSR0), read16(block, SN_TX_WR0)] + chunk_writes(
                    block,
                    pointer,
                    rings.tx.bytes.take(n),
                ) + seq![
                    write16(block, SN_TX_WR0, ahead(pointer, n)),
                    command(block, SocketCommand::Send),
                ]
            } else {
                seq![read16(block, SN_TX_FSR0)]
            },
            state: (),
            // A chunk leaves the ring before it is written.
            rings: if done.len() > 2 {
                RingsState {
                    tx: rings.tx.taken(min(n, FLUSH_CHUNK * (done.len() - 2))),
                    ..rings
                }
            } else {
                rings
            },
            result: concluded(done, Ok(BulkAction::Nothing)),
        }
    }
}

/// A write of `data` in chunks starts with the write of the first chunk.
proof fn lemma_chunk_writes_step(block: BlockAddress, pointer: u16, data: Seq<u8>)
    requires
        data.len() > 0,
    ensures
        ({
            let n = min(FLUSH_CHUNK as int, data.len() as int);
            let rest = chunk_writes(block, ahead(pointer, n), data.skip(n));
            &&& chunk_writes(block, pointer, data).len() == rest.len() + 1
            &&& chunk_writes(block, pointer, data)[0] == write_request(
                Address { address: pointer, block: block.tx },
                data.take(n),
            )
            &&& chunk_writes(block, pointer, data).skip(1) == rest
        }),
{
    let n = min(FLUSH_CHUNK as int, data.len() as int);
    let rest = chunk_writes(block, ahead(pointer, n), data.skip(n));
    assert(chunk_writes(block, pointer, data).skip(1) =~= rest);
}

/// As many chunks as it takes.
proof fn lemma_chunk_writes_len(block: BlockAddress, pointer: u16, data: Seq<u8>)
    ensures
        data.len() <= FLUSH_CHUNK * chunk_writes(block, pointer, data).len(),
    decreases data.len(),
{
    if data.len() > 0 {
        let n = min(FLUSH_CHUNK as int, data.len() as int);
        lemma_chunk_writes_len(block, ahead(pointer, n), data.skip(n));
    }
}

/// What a finished flush was is not changed by what comes after it.
proof fn lemma_flush_on(block: BlockAddress, rings: RingsState, done: Seq<Access>, last: Access)
    requires
        carried_out(flush_tick(block, rings, done).script, done),
        !failed(done),
    ensures
        flush_tick(block, rings, done.push(last)).script == flush_tick(block, rings, done).script,
        flush_tick(block, rings, done.push(last)).rings == flush_tick(block, rings, done).rings,
{
    if rings.tx.bytes.len() > 0 {
        let n = transmit_len(rings, done);
        assert(done.push(last)[0] == done[0]);
        if n > 0 {
            assert(done.push(last)[1] == done[1]);
            lemma_chunk_writes_len(block, word(done[1]), rings.tx.bytes.take(n));
        }
    }
}

/// Take `n` bytes out of the ring.
fn take_chunk(ring: &mut SpscRing<'_>, dst: &mut [u8], n: usize)
    requires
        old(ring).wf(),
        n <= old(ring)@.bytes.len(),
        n <= old(dst)@.len(),
    ensures
        final(ring).wf(),
        final(ring)@ == old(ring)@.taken(n as int),
        final(dst)@.len() == old(dst)@.len(),
        final(dst)@.take(n as int) == old(ring)@.bytes.take(n as int),
{
    let (part, _) = dst.split_at_mut(n);
    let _ = ring.read(part);
}

/// Move `to_send` bytes out of the ring and into the chip's TX buffer at
/// `start`, a chunk at a time. A chunk leaves the ring before it is written.
fn write_chunks<D: SpiDmaDevice>(
    block: &BlockAddress,
    trans: &mut Transceiver<D>,
    ring: &mut SpscRing<'_>,
    start: u16,
    to_send: usize,
) -> (r: Result<u16, Error>)
    requires
        old(trans).wf(),
        old(ring).wf(),
        to_send <= old(ring)@.bytes.len(),
    ensures
        old(trans).advanced(final(trans)),
        old(trans).same_link(final(trans)),
        carried_out(
            chunk_writes(*block, start, old(ring)@.bytes.take(to_send as int)),
            old(trans).did(final(trans)),
        ),
        r == concluded(old(trans).did(final(trans)), Ok(ahead(start, to_send as int))),
        final(ring).wf(),
        final(ring)@ == old(ring)@.taken(
            min(to_send as int, FLUSH_CHUNK * old(trans).did(final(trans)).len()),
        ),
{
    let mut pointer = start;
    let mut staged: usize = 0;
    let mut tmp = [0u8; 64];
    let ghost data = ring@.bytes.take(to_send as int);
    let ghost chunks = chunk_writes(*block, start, data);
    let ghost mut written: int = 0;
    proof {
        lemma_ahead_zero(start);
        assert(chunks.skip(0) =~= chunks);
        assert(data.skip(0) =~= data);
        assert(ring@ =~= old(ring)@.taken(0));
    }
    while staged < to_send
        invariant
            tmp@.len() == 64,
            staged <= to_send <= old(ring)@.bytes.len(),
            0 <= written <= chunks.len(),
            staged == min(to_send as int, 64 * written),
            pointer == ahead(start, staged as int),
            data == old(ring)@.bytes.take(to_send as int),
            chunks == chunk_writes(*block, start, data),
            chunks.skip(written) == chunk_writes(*block, pointer, data.skip(staged as int)),
            ring.wf(),
            ring@ == old(ring)@.taken(staged as int),
            old(trans).same_link(trans),
            old(trans).advanced(trans),
            old(trans).did(trans).len() == written,
            forall|i: int|
                0 <= i < written ==> (#[trigger] old(trans).did(trans)[i]).request == chunks[i],
            forall|i: int|
                0 <= i < written ==> (#[trigger] old(trans).did(trans)[i]).outcome is Ok,
        decreases to_send - staged,
    {
        let room = to_send - staged;
        let n = if room < 64 {
            room
        } else {
            64
        };
        take_chunk(ring, &mut tmp, n);
        proof {
            lemma_ahead_twice(start, staged as int, n as int);
            let rest = data.skip(staged as int);
            lemma_chunk_writes_step(*block, pointer, rest);
            assert(rest.take(n as int) =~= tmp@.take(n as int));
            assert(rest.skip(n as int) =~= data.skip(staged + n));
            assert(chunks.skip(written)[0] == chunks[written]);
            assert(chunks.skip(written).skip(1) =~= chunks.skip(written + 1));
            assert(ring@ =~= old(ring)@.taken(staged + n));
        }
        write_tx_buffer(block, trans, pointer, &tmp.as_slice()[0..n])?;
        pointer = advance(pointer, n);
        staged = staged + n;
        proof {
            written = written + 1;
        }
    }
    Ok(pointer)
}

impl TcpSocketState {
    /// This with another status.
    pub open spec fn at(self, status: SocketStatus) -> TcpSocketState {
        TcpSocketState { status, ..self }
    }

    /// The local port.
    pub open spec fn src_port(self) -> u16 {
        match self.mode {
            TcpMode::Connect { src_port, .. } => src_port,
            TcpMode::Listen { src_port } => src_port,
        }
    }

    /// A tick that acts on a close request: a live connection is flushed and
    /// then disconnected, one that is still coming up is closed, and for one
    /// that is on its way down there is nothing to do.
    pub open spec fn close_tick(
        self,
        block: BlockAddress,
        rings: RingsState,
        done: Seq<Access>,
    ) -> Tick<TcpSocketState> {
        let heard = TcpSocketState { close_requested: false, ..self };
        match self.status {
            SocketStatus::Established => {
                let flush = flush_tick(block, rings, done);
                let script = flush.script.push(command(block, SocketCommand::Disconnect));
                Tick {
                    script,
                    state: if passed(done, script.len()) {
                        heard.at(SocketStatus::Closing)
                    } else {
                        heard
                    },
                    rings: flush.rings,
                    result: concluded(done, Ok(BulkAction::Nothing)),
                }
            },
            SocketStatus::Init
            | SocketStatus::Opening
            | SocketStatus::Connecting
            | SocketStatus::Listening => Tick {
                script: seq![command(block, SocketCommand::Close)],
                state: if passed(done, 1) {
                    heard.at(SocketStatus::Closing)
                } else {
                    heard
                },
                rings,
                result: concluded(done, Ok(BulkAction::Nothing)),
            },
            _ => Tick { script: Seq::empty(), state: heard, rings, result: Ok(BulkAction::Nothing) },
        }
    }

    /// The first tick: the socket is set up for TCP and opened.
    pub open spec fn init_tick(
        self,
        block: BlockAddress,
        done: Seq<Access>,
    ) -> Turn<TcpSocketState> {
        Turn {
            script: init_script(block, SocketProtocolMode::Tcp4) + seq![
                write16(block, SN_PORTR0, self.src_port()),
                command(block, SocketCommand::Open),
            ],
            state: if passed(done, 5) {
                self.at(SocketStatus::Opening)
            } else {
                self
            },
            result: concluded(done, Ok(BulkAction::Nothing)),
        }
    }

    /// A tick that waits for `OPEN` to take effect and then connects or listens.
    pub open spec fn opening_tick(self, block: BlockAddress, done: Seq<Access>) -> Turn<
        TcpSocketState,
    > {
        let asked = seq![read8(block, SN_CR), read8(block, SN_SR)];
        if byte(done[0]) != 0 || !passed(done, 1) {
            self.idle_tick(seq![read8(block, SN_CR)], done)
        } else if !passed(done, 2) {
            self.idle_tick(asked, done)
        } else {
            match status_register(byte(done[1])) {
                SocketStatusRegister::Init => match self.mode {
                    TcpMode::Connect { dst_addr, dst_port, .. } => {
                        let state = if passed(done, 5) {
                            self.at(SocketStatus::Connecting)
                        } else {
                            self
                        };
                        state.idle_tick(
                            asked + seq![
                                write32(block, SN_DIPR0, dst_addr),
                                write16(block, SN_DPORTR0, dst_port),
                                command(block, SocketCommand::Connect),
                            ],
                            done,
                        )
                    },
                    TcpMode::Listen { .. } => {
                        let state = if passed(done, 3) {
                            self.at(SocketStatus::Listening)
                        } else {
                            self
                        };
                        state.idle_tick(asked.push(command(block, SocketCommand::Listen)), done)
                    },
                },
                SocketStatusRegister::Closed => self.idle_tick(asked, done),
                _ => self.wrong_tick(asked, block, done),
            }
        }
    }

    /// A tick that waits for the handshake of an outgoing connection. Its end
    /// counts even if the interrupt that came with it cannot be cleared.
    pub open spec fn connecting_tick(self, block: BlockAddress, done: Seq<Access>) -> Turn<
        TcpSocketState,
    > {
        let sr = status_register(byte(done[2]));
        let asked = seq![read8(block, SN_CR), read8(block, SN_IR)];
        if byte(done[0]) != 0 || !passed(done, 1) {
            self.idle_tick(seq![read8(block, SN_CR)], done)
        } else if !passed(done, 2) {
            self.idle_tick(asked, done)
        } else if reports(byte(done[1]), IR_TIMEOUT) {
            Turn {
                script: asked + seq![
                    clear(block, IR_TIMEOUT),
                    command(block, SocketCommand::Close),
                ],
                state: if passed(done, 4) {
                    self.at(SocketStatus::ClosingDueToTimeout)
                } else {
                    self
                },
                result: concluded(done, Ok(BulkAction::Nothing)),
            }
        } else if !passed(done, 3) {
            self.idle_tick(asked.push(read8(block, SN_SR)), done)
        } else {
            let asked = asked.push(read8(block, SN_SR));
            match sr {
                SocketStatusRegister::Established => self.met_tick(asked, block, done),
                SocketStatusRegister::Synsent | SocketStatusRegister::Init => self.idle_tick(
                    asked,
                    done,
                ),
                SocketStatusRegister::Closed => self.at(SocketStatus::Closed).idle_tick(asked, done),
                _ => self.wrong_tick(asked, block, done),
            }
        }
    }

    /// A tick that waits for a client. Its arrival counts even if the interrupt
    /// that came with it cannot be cleared.
    pub open spec fn listening_tick(self, block: BlockAddress, done: Seq<Access>) -> Turn<
        TcpSocketState,
    > {
        let sr = status_register(byte(done[1]));
        let asked = seq![read8(block, SN_CR), read8(block, SN_SR)];
        if byte(done[0]) != 0 || !passed(done, 1) {
            self.idle_tick(seq![read8(block, SN_CR)], done)
        } else if !passed(done, 2) {
            self.idle_tick(asked, done)
        } else {
            match sr {
                SocketStatusRegister::Listen | SocketStatusRegister::Synrecv => self.idle_tick(
                    asked,
                    done,
                ),
                SocketStatusRegister::Established | SocketStatusRegister::CloseWait => self.met_tick(
                    asked,
                    block,
                    done,
                ),
                SocketStatusRegister::Closed => {
                    let state = if passed(done, 3) {
                        self.at(SocketStatus::Closed)
                    } else {
                        self
                    };
                    state.idle_tick(asked.push(clear(block, IR_TIMEOUT)), done)
                },
                _ => self.wrong_tick(asked, block, done),
            }
        }
    }

    /// The peer is there.
    pub open spec fn met_tick(
        self,
        asked: Seq<Request>,
        block: BlockAddress,
        done: Seq<Access>,
    ) -> Turn<TcpSocketState> {
        self.at(SocketStatus::Established).idle_tick(asked.push(clear(block, IR_CON)), done)
    }

    /// The chip is in a state that it cannot be in: the socket is closed and the
    /// tick fails.
    pub open spec fn wrong_tick(
        self,
        asked: Seq<Request>,
        block: BlockAddress,
        done: Seq<Access>,
    ) -> Turn<TcpSocketState> {
        Turn {
            script: asked.push(command(block, SocketCommand::Close)),
            state: if passed(done, asked.len() + 1) {
                self.at(SocketStatus::ClosingDueToError)
            } else {
                self
            },
            result: concluded(done, Err(Error::Other(DriverError::UnexpectedResponse))),
        }
    }

    /// A tick that waits for the end of a close.
    pub open spec fn closing_tick(self, block: BlockAddress, done: Seq<Access>) -> Turn<
        TcpSocketState,
    > {
        let state = if passed(done, 1) && status_register(byte(done[0]))
            == SocketStatusRegister::Closed {
            match self.status {
                SocketStatus::ClosingDueToError => self.at(SocketStatus::Error),
                SocketStatus::ClosingDueToTimeout => self.at(SocketStatus::Timeout),
                _ => self.at(SocketStatus::Closed),
            }
        } else {
            self
        };
        state.idle_tick(seq![read8(block, SN_SR)], done)
    }

    /// What a tick of an established connection asks first, unless there was a
    /// timeout: the peer's FIN, if any, is acknowledged.
    pub open spec fn watch_script(block: BlockAddress, done: Seq<Access>) -> Seq<Request> {
        if reports(byte(done[0]), IR_DISCON) {
            seq![read8(block, SN_IR), clear(block, IR_DISCON), read8(block, SN_SR)]
        } else {
            seq![read8(block, SN_IR), read8(block, SN_SR)]
        }
    }

    /// What is left of a tick of a connection that the peer has closed: data is
    /// moved as long as there is any, then this side closes too.
    pub open spec fn leave_tick(
        self,
        block: BlockAddress,
        rings: RingsState,
        done: Seq<Access>,
    ) -> Tick<TcpSocketState> {
        let looked = seq![read16(block, SN_RX_RSR0), read16(block, SN_RX_RSR0)];
        if !passed(done, 1) || receive_len(rings, done) > 0 || rings.tx.bytes.len() > 0
            || rings.rx.bytes.len() > 0 {
            move_tick(block, rings, done).with(self)
        } else if passed(done, 2) && word(done[1]) == 0 {
            let state = if passed(done, 3) {
                self.at(SocketStatus::Closing)
            } else {
                self
            };
            state.idle_tick(looked.push(command(block, SocketCommand::Disconnect)), done).beside(
                rings,
            )
        } else {
            self.idle_tick(looked, done).beside(rings)
        }
    }

    /// A tick of an established connection.
    pub open spec fn established_tick(
        self,
        block: BlockAddress,
        rings: RingsState,
        done: Seq<Access>,
    ) -> Tick<TcpSocketState> {
        let asked = Self::watch_script(block, done);
        if !passed(done, 1) {
            self.idle_tick(seq![read8(block, SN_IR)], done).beside(rings)
        } else if reports(byte(done[0]), IR_TIMEOUT) {
            let state = if passed(done, 3) {
                self.at(SocketStatus::ClosingDueToTimeout)
            } else {
                self
            };
            state.idle_tick(
                seq![
                    read8(block, SN_IR),
                    clear(block, IR_TIMEOUT),
                    command(block, SocketCommand::Close),
                ],
                done,
            ).beside(rings)
        } else if !passed(done, asked.len()) {
            self.idle_tick(asked, done).beside(rings)
        } else {
            match status_register(byte(done[asked.len() - 1])) {
                SocketStatusRegister::Established => move_tick(
                    block,
                    rings,
                    done.skip(asked.len() as int),
                ).with(self).behind(asked),
                SocketStatusRegister::CloseWait => self.leave_tick(
                    block,
                    rings,
                    done.skip(asked.len() as int),
                ).behind(asked),
                SocketStatusRegister::Closed => self.at(SocketStatus::Closed).idle_tick(
                    asked,
                    done,
                ).beside(rings),
                _ => self.wrong_tick(asked, block, done).beside(rings),
            }
        }
    }

    /// A tick of the handler that the state calls for.
    pub open spec fn handler_tick(
        self,
        block: BlockAddress,
        rings: RingsState,
        done: Seq<Access>,
    ) -> Tick<TcpSocketState> {
        if self.close_requested {
            self.close_tick(block, rings, done)
        } else {
            match self.status {
                SocketStatus::Init => self.init_tick(block, done).beside(rings),
                SocketStatus::Opening => self.opening_tick(block, done).beside(rings),
                SocketStatus::Connecting => self.connecting_tick(block, done).beside(rings),
                SocketStatus::Established => self.established_tick(block, rings, done),
                SocketStatus::Listening => self.listening_tick(block, done).beside(rings),
                SocketStatus::ClosingDueToError
                | SocketStatus::ClosingDueToTimeout
                | SocketStatus::Closing => self.closing_tick(block, done).beside(rings),
                SocketStatus::Timeout | SocketStatus::Closed | SocketStatus::Error => Tick {
                    script: Seq::empty(),
                    state: self,
                    rings,
                    result: Ok(BulkAction::Nothing),
                },
            }
        }
    }

    /// One tick. An error, other than having to wait, is kept and not reported.
    pub open spec fn run_tick(
        self,
        block: BlockAddress,
        rings: RingsState,
        done: Seq<Access>,
    ) -> Tick<TcpSocketState> {
        let tick = self.handler_tick(block, rings, done);
        match tick.result {
            Err(Error::Other(e)) => Tick {
                state: TcpSocketState { pending_error: Some(Error::Other(e)), ..tick.state },
                result: Ok(BulkAction::Nothing),
                ..tick
            },
            _ => tick,
        }
    }

    /// The status that the handle shows: a kept error goes first.
    pub open spec fn shown(self) -> SocketStatus {
        if self.pending_error is Some {
            SocketStatus::Error
        } else {
            self.status
        }
    }

    /// This, ready to be opened on the chip again.
    pub open spec fn rearmed(self) -> TcpSocketState {
        TcpSocketState {
            status: SocketStatus::Init,
            pending_error: None,
            close_requested: false,
            ..self
        }
    }

    /// Whether the connection is over.
    pub open spec fn is_over(self) -> bool {
        ||| self.status == SocketStatus::Closed
        ||| self.status == SocketStatus::Error
        ||| self.status == SocketStatus::Timeout
    }

    /// Whether the socket is on its way down.
    pub open spec fn is_closing(self) -> bool {
        ||| self.status == SocketStatus::ClosingDueToError
        ||| self.status == SocketStatus::ClosingDueToTimeout
        ||| self.status == SocketStatus::Closing
    }

    /// A tick that asks `script` and ends in this state.
    pub open spec fn idle_tick(
        self,
        script: Seq<Request>,
        done: Seq<Access>,
    ) -> Turn<TcpSocketState> {
        Turn { script, state: self, result: concluded(done, Ok(BulkAction::Nothing)) }
    }

    /// A socket that will connect to `addr:port` from `src_port`.
    pub fn connect(addr: u32, port: u16, src_port: u16) -> (state: Self)
        ensures
            state == (TcpSocketState {
                mode: TcpMode::Connect { dst_addr: addr, dst_port: port, src_port },
                status: SocketStatus::Init,
                pending_error: None,
                close_requested: false,
            }),
    {
        TcpSocketState {
            mode: TcpMode::Connect { dst_addr: addr, dst_port: port, src_port },
            status: SocketStatus::Init,
            pending_error: None,
            close_requested: false,
        }
    }

    /// A socket that will listen on `port`.
    pub fn listen(port: u16) -> (state: Self)
        ensures
            state == (TcpSocketState {
                mode: TcpMode::Listen { src_port: port },
                status: SocketStatus::Init,
                pending_error: None,
                close_requested: false,
            }),
    {
        TcpSocketState {
            mode: TcpMode::Listen { src_port: port },
            status: SocketStatus::Init,
            pending_error: None,
            close_requested: false,
        }
    }

    /// The status to show.
    pub fn status(&self) -> (status: SocketStatus)
        ensures
            status == self.shown(),
    {
        if self.pending_error.is_some() {
            SocketStatus::Error
        } else {
            self.status
        }
    }

    /// Re-arm the socket so the next `run` re-opens it on the chip. Used after a
    /// link-loss reset to reconnect without dropping the handle or buffers.
    pub fn rearm(&mut self)
        ensures
            *final(self) == old(self).rearmed(),
    {
        self.status = SocketStatus::Init;
        self.pending_error = None;
        self.close_requested = false;
    }

    /// Request a graceful close on the next `run` tick.
    pub fn request_close(&mut self)
        ensures
            *final(self) == (TcpSocketState { close_requested: true, ..*old(self) }),
    {
        self.close_requested = true;
    }

    /// Whether the connection has reached a terminal (closed) state.
    pub fn is_closed(&self) -> (b: bool)
        ensures
            b == self.is_over(),
    {
        match self.status {
            SocketStatus::Closed | SocketStatus::Error | SocketStatus::Timeout => true,
            _ => false,
        }
    }

    /// If the chip has received data and the rx ring has room, **start** a DMA
    /// of `min(available, ring free)` bytes from the chip. The bytes reach the
    /// ring, and the read pointer is committed, once the DMA has finished. One
    /// transfer per call. Non-blocking.
    pub fn receive<D: SpiDmaDevice>(
        &mut self,
        block: &BlockAddress,
        trans: &mut Transceiver<D>,
        rings: &SocketRings<'_>,
    ) -> (r: Result<BulkAction, Error>)
        requires
            old(trans).wf(),
            rings.wf(),
        ensures
            ({
                let done = old(trans).did(final(trans));
                let tick = receive_tick(*block, rings@, done);
                &&& carried_out(tick.script, done)
                &&& r == tick.result
            }),
            old(trans).advanced(final(trans)),
            handed_over(old(trans), final(trans), r),
            *final(self) == *old(self),
    {
        let available = get_rx_received_size(block, trans)? as usize;
        if available == 0 {
            return Ok(BulkAction::Nothing);
        }
        let free = rings.rx.free();
        let to_read = if available < free {
            available
        } else {
            free
        };
        if to_read == 0 {
            // No local room; leave the data on the chip and try again later.
            return Ok(BulkAction::Nothing);
        }
        let pointer = get_rx_read_pointer(block, trans)?;
        start_read_rx_buffer(block, trans, pointer, to_read)?;

        Ok(BulkAction::Started { kind: BulkKind::Receive, pointer, len: to_read })
    }

    /// If the tx ring has staged data and the chip has room, **start** a DMA of
    /// `min(pending, chip free)` bytes out of the ring to the chip. The write
    /// pointer is committed and `SEND` issued once the DMA has finished.
    /// Non-blocking.
    pub fn transmit<D: SpiDmaDevice>(
        &mut self,
        block: &BlockAddress,
        trans: &mut Transceiver<D>,
        rings: &mut SocketRings<'_>,
    ) -> (r: Result<BulkAction, Error>)
        requires
            old(trans).wf(),
            old(rings).wf(),
        ensures
            ({
                let done = old(trans).did(final(trans));
                let tick = transmit_tick(*block, old(rings)@, done);
                &&& carried_out(tick.script, done)
                &&& final(rings)@ == tick.rings
                &&& r == tick.result
            }),
            old(trans).advanced(final(trans)),
            handed_over(old(trans), final(trans), r),
            final(rings).wf(),
            *final(self) == *old(self),
    {
        let pending = rings.tx.len();
        if pending == 0 {
            return Ok(BulkAction::Nothing);
        }
        let free = get_tx_free_size(block, trans)? as usize;
        let to_send = if pending < free {
            pending
        } else {
            free
        };
        if to_send == 0 {
            // Chip TX buffer is full; leave the data staged and retry later.
            return Ok(BulkAction::Nothing);
        }
        let pointer = get_tx_write_pointer(block, trans)?;
        assert(padded(rings@.tx.bytes, to_send as nat) =~= rings@.tx.bytes.take(to_send as int));
        start_write_tx_buffer(block, trans, pointer, &mut rings.tx, to_send)?;

        Ok(BulkAction::Started { kind: BulkKind::Transmit, pointer, len: to_send })
    }

    /// Push as much staged tx data as fits onto the chip in one pass and `SEND`.
    /// Used by the graceful close. Bounded and blocking.
    #[verifier::rlimit(30)]
    #[verifier::spinoff_prover]
    pub fn flush_sync<D: SpiDmaDevice>(
        &mut self,
        block: &BlockAddress,
        trans: &mut Transceiver<D>,
        rings: &mut SocketRings<'_>,
    ) -> (r: Result<(), Error>)
        requires
            old(trans).wf(),
            old(rings).wf(),
        ensures
            ({
                let done = old(trans).did(final(trans));
                let tick = flush_tick(*block, old(rings)@, done);
                &&& carried_out(tick.script, done)
                &&& final(rings)@ == tick.rings
                &&& r == ended(done)
            }),
            old(trans).advanced(final(trans)),
            old(trans).same_link(final(trans)),
            final(rings).wf(),
            *final(self) == *old(self),
    {
        let pending = rings.tx.len();
        if pending == 0 {
            return Ok(());
        }
        let free = get_tx_free_size(block, trans)? as usize;
        let to_send = if pending < free {
            pending
        } else {
            free
        };
        if to_send == 0 {
            return Ok(());
        }
        let start = get_tx_write_pointer(block, trans)?;
        let ghost head = seq![read16(*block, SN_TX_FSR0), read16(*block, SN_TX_WR0)];
        let ghost chunks = chunk_writes(*block, start, rings@.tx.bytes.take(to_send as int));
        let ghost tail = seq![
            write16(*block, SN_TX_WR0, ahead(start, to_send as int)),
            command(*block, SocketCommand::Send),
        ];
        let ghost mid = *trans;
        let pointer = match write_chunks(block, trans, &mut rings.tx, start, to_send) {
            Ok(pointer) => pointer,
            Err(e) => {
                proof {
                    let done = old(trans).did(trans);
                    assert(done.skip(2) =~= mid.did(trans));
                    assert(done.take(2) =~= old(trans).did(&mid));
                    lemma_carried_out_on(head, chunks, done);
                    lemma_carried_out_fails(head + chunks, tail, done);
                }
                return Err(e);
            },
        };
        proof {
            let done = old(trans).did(trans);
            assert(done.skip(2) =~= mid.did(trans));
            assert(done.take(2) =~= old(trans).did(&mid));
            lemma_carried_out_on(head, chunks, done);
            lemma_chunk_writes_len(*block, start, old(rings)@.tx.bytes.take(to_send as int));
        }
        set_tx_write_pointer(block, trans, pointer)?;
        send_sock_command(block, trans, SocketCommand::Send)?;

        Ok(())
    }

    /// Act on a pending close request. For a live connection this sends a
    /// graceful FIN (`DISCON`) after one best-effort flush of staged tx data;
    /// for a socket still coming up it aborts with `CLOSE`. Either way the socket
    /// lands in a closing state and the teardown finishes the job.
    pub fn handle_close<D: SpiDmaDevice>(
        &mut self,
        block: &BlockAddress,
        trans: &mut Transceiver<D>,
        rings: &mut SocketRings<'_>,
    ) -> (r: Result<BulkAction, Error>)
        requires
            old(trans).wf(),
            old(rings).wf(),
        ensures
            ({
                let done = old(trans).did(final(trans));
                let tick = old(self).close_tick(*block, old(rings)@, done);
                &&& carried_out(tick.script, done)
                &&& *final(self) == tick.state
                &&& final(rings)@ == tick.rings
                &&& r == tick.result
            }),
            old(trans).advanced(final(trans)),
            old(trans).same_link(final(trans)),
            final(rings).wf(),
    {
        self.close_requested = false;

        match self.status {
            // Nothing live to tear down.
            SocketStatus::Closed
            | SocketStatus::Error
            | SocketStatus::Timeout
            | SocketStatus::ClosingDueToError
            | SocketStatus::ClosingDueToTimeout
            | SocketStatus::Closing => Ok(BulkAction::Nothing),
            // Already-staged bytes go out ahead of the FIN; anything that does
            // not fit on the chip is dropped.
            SocketStatus::Established => {
                self.flush_sync(block, trans, rings)?;
                let ghost flushed = old(trans).did(trans);
                let sent = send_sock_command(block, trans, SocketCommand::Disconnect);
                proof {
                    let last = trans.log().last();
                    lemma_flush_on(*block, old(rings)@, flushed, last);
                    assert(old(trans).did(trans) =~= flushed.push(last));
                }
                sent?;
                self.status = SocketStatus::Closing;

                Ok(BulkAction::Nothing)
            },
            // Abort a socket that is still opening/connecting/listening.
            SocketStatus::Init
            | SocketStatus::Opening
            | SocketStatus::Connecting
            | SocketStatus::Listening => {
                send_sock_command(block, trans, SocketCommand::Close)?;
                self.status = SocketStatus::Closing;

                Ok(BulkAction::Nothing)
            },
        }
    }

    /// Configure the hardware socket and issue `OPEN`. This is the first tick of
    /// a freshly opened (or re-armed) socket; the source port must be set before
    /// `OPEN`, and `CONNECT`/`LISTEN` are only valid once it reaches `SOCK_INIT`.
    pub fn handle_init<D: SpiDmaDevice>(
        &mut self,
        block: &BlockAddress,
        trans: &mut Transceiver<D>,
    ) -> (r: Result<BulkAction, Error>)
        requires
            old(trans).wf(),
        ensures
            ({
                let done = old(trans).did(final(trans));
                let tick = old(self).init_tick(*block, done);
                &&& carried_out(tick.script, done)
                &&& *final(self) == tick.state
                &&& r == tick.result
            }),
            old(trans).advanced(final(trans)),
            old(trans).same_link(final(trans)),
    {
        init_socket(block, trans, SocketProtocolMode::Tcp4)?;

        let src_port = match &self.mode {
            TcpMode::Connect { src_port, .. } => *src_port,
            TcpMode::Listen { src_port } => *src_port,
        };
        set_src_port(block, trans, src_port)?;

        send_sock_command(block, trans, SocketCommand::Open)?;
        self.status = SocketStatus::Opening;

        Ok(BulkAction::Nothing)
    }

    /// Waiting for the `OPEN` command to move the socket into `SOCK_INIT`,
    /// then issuing the protocol-specific command (`CONNECT`/`LISTEN`).
    pub fn handle_opening<D: SpiDmaDevice>(
        &mut self,
        block: &BlockAddress,
        trans: &mut Transceiver<D>,
    ) -> (r: Result<BulkAction, Error>)
        requires
            old(trans).wf(),
        ensures
            ({
                let done = old(trans).did(final(trans));
                let turn = old(self).opening_tick(*block, done);
                &&& carried_out(turn.script, done)
                &&& *final(self) == turn.state
                &&& r == turn.result
            }),
            old(trans).advanced(final(trans)),
            old(trans).same_link(final(trans)),
    {
        // `OPEN` not processed yet.
        if is_command_pending(block, trans)? {
            return Ok(BulkAction::Nothing);
        }
        match read_status(block, trans)? {
            SocketStatusRegister::Init => match &self.mode {
                TcpMode::Connect { dst_addr, dst_port, .. } => {
                    set_ipv4_dst_addr(block, trans, *dst_addr)?;
                    set_dst_port(block, trans, *dst_port)?;

                    send_sock_command(block, trans, SocketCommand::Connect)?;
                    self.status = SocketStatus::Connecting;

                    Ok(BulkAction::Nothing)
                },
                TcpMode::Listen { .. } => {
                    send_sock_command(block, trans, SocketCommand::Listen)?;
                    self.status = SocketStatus::Listening;

                    Ok(BulkAction::Nothing)
                },
            },
            // The status register may lag a tick behind the command register;
            // keep waiting.
            SocketStatusRegister::Closed => Ok(BulkAction::Nothing),
            _ => {
                send_sock_command(block, trans, SocketCommand::Close)?;
                self.status = SocketStatus::ClosingDueToError;

                Err(Error::Other(DriverError::UnexpectedResponse))
            },
        }
    }

    /// Waiting for the handshake of an outgoing connection.
    pub fn handle_connecting<D: SpiDmaDevice>(
        &mut self,
        block: &BlockAddress,
        trans: &mut Transceiver<D>,
    ) -> (r: Result<BulkAction, Error>)
        requires
            old(trans).wf(),
        ensures
            ({
                let done = old(trans).did(final(trans));
                let turn = old(self).connecting_tick(*block, done);
                &&& carried_out(turn.script, done)
                &&& *final(self) == turn.state
                &&& r == turn.result
            }),
            old(trans).advanced(final(trans)),
            old(trans).same_link(final(trans)),
    {
        if is_command_pending(block, trans)? {
            return Ok(BulkAction::Nothing);
        }
        // A connect timeout (ARP or SYN retries exhausted) is reported via the
        // TIMEOUT interrupt; the socket then falls back to SOCK_CLOSED.
        if get_interrupts(block, trans)?.contains(IR_TIMEOUT) {
            clear_interrupts(block, trans, IR_TIMEOUT)?;

            send_sock_command(block, trans, SocketCommand::Close)?;
            self.status = SocketStatus::ClosingDueToTimeout;

            return Ok(BulkAction::Nothing);
        }
        match read_status(block, trans)? {
            SocketStatusRegister::Established => {
                self.status = SocketStatus::Established;
                clear_interrupts(block, trans, IR_CON)?;

                Ok(BulkAction::Nothing)
            },
            // Handshake still in flight.
            SocketStatusRegister::Synsent | SocketStatusRegister::Init => Ok(BulkAction::Nothing),
            // Reset/refused before the timeout fired.
            SocketStatusRegister::Closed => {
                self.status = SocketStatus::Closed;

                Ok(BulkAction::Nothing)
            },
            _ => {
                send_sock_command(block, trans, SocketCommand::Close)?;
                self.status = SocketStatus::ClosingDueToError;

                Err(Error::Other(DriverError::UnexpectedResponse))
            },
        }
    }

    /// Passively waiting on a `LISTEN`ing socket for a client to connect. Once
    /// the handshake completes the socket is `SOCK_ESTABLISHED` and is handed
    /// off to the same established machinery as an outbound connection.
    pub fn handle_listening<D: SpiDmaDevice>(
        &mut self,
        block: &BlockAddress,
        trans: &mut Transceiver<D>,
    ) -> (r: Result<BulkAction, Error>)
        requires
            old(trans).wf(),
        ensures
            ({
                let done = old(trans).did(final(trans));
                let turn = old(self).listening_tick(*block, done);
                &&& carried_out(turn.script, done)
                &&& *final(self) == turn.state
                &&& r == turn.result
            }),
            old(trans).advanced(final(trans)),
            old(trans).same_link(final(trans)),
    {
        if is_command_pending(block, trans)? {
            return Ok(BulkAction::Nothing);
        }
        match read_status(block, trans)? {
            // Still waiting for a client, or the SYN handshake is in progress.
            SocketStatusRegister::Listen | SocketStatusRegister::Synrecv => Ok(BulkAction::Nothing),
            // A client connected. (Treat an immediate FIN the same: the
            // established handler drains it and tears it down next tick.)
            SocketStatusRegister::Established | SocketStatusRegister::CloseWait => {
                self.status = SocketStatus::Established;
                clear_interrupts(block, trans, IR_CON)?;

                Ok(BulkAction::Nothing)
            },
            // A half-open attempt was reset or timed out and the chip closed the
            // socket.
            SocketStatusRegister::Closed => {
                clear_interrupts(block, trans, IR_TIMEOUT)?;
                self.status = SocketStatus::Closed;

                Ok(BulkAction::Nothing)
            },
            _ => {
                send_sock_command(block, trans, SocketCommand::Close)?;
                self.status = SocketStatus::ClosingDueToError;

                Err(Error::Other(DriverError::UnexpectedResponse))
            },
        }
    }

    /// Waiting for the chip to close the socket.
    pub fn handle_closing<D: SpiDmaDevice>(
        &mut self,
        block: &BlockAddress,
        trans: &mut Transceiver<D>,
    ) -> (r: Result<BulkAction, Error>)
        requires
            old(trans).wf(),
            old(self).is_closing(),
        ensures
            ({
                let done = old(trans).did(final(trans));
                let turn = old(self).closing_tick(*block, done);
                &&& carried_out(turn.script, done)
                &&& *final(self) == turn.state
                &&& r == turn.result
            }),
            old(trans).advanced(final(trans)),
            old(trans).same_link(final(trans)),
    {
        if read_status(block, trans)? == SocketStatusRegister::Closed {
            self.status = match &self.status {
                SocketStatus::ClosingDueToError => SocketStatus::Error,
                SocketStatus::ClosingDueToTimeout => SocketStatus::Timeout,
                _ => SocketStatus::Closed,
            };
        }
        Ok(BulkAction::Nothing)
    }

    /// Receive, or else transmit.
    fn exchange<D: SpiDmaDevice>(
        &mut self,
        block: &BlockAddress,
        trans: &mut Transceiver<D>,
        rings: &mut SocketRings<'_>,
    ) -> (r: Result<BulkAction, Error>)
        requires
            old(trans).wf(),
            old(rings).wf(),
        ensures
            ({
                let done = old(trans).did(final(trans));
                let tick = move_tick(*block, old(rings)@, done);
                &&& carried_out(tick.script, done)
                &&& final(rings)@ == tick.rings
                &&& r == tick.result
            }),
            old(trans).advanced(final(trans)),
            handed_over(old(trans), final(trans), r),
            final(rings).wf(),
            *final(self) == *old(self),
    {
        let received = self.receive(block, trans, rings)?;
        match received {
            BulkAction::Started { .. } => Ok(received),
            BulkAction::Nothing => {
                let ghost mid = *trans;
                let sent = self.transmit(block, trans, rings);
                proof {
                    let done = old(trans).did(trans);
                    assert(done.skip(1) =~= mid.did(trans));
                    assert(done.take(1) =~= old(trans).did(&mid));
                    assert(done[0] == done.take(1)[0]);
                    lemma_carried_out_on(
                        seq![read16(*block, SN_RX_RSR0)],
                        transmit_tick(*block, old(rings)@, done.skip(1)).script,
                        done,
                    );
                }
                sent
            },
        }
    }

    /// Keep draining the chip's RX buffer after the peer has closed; only close
    /// this side once every byte is off the chip and out of the rings.
    fn leave<D: SpiDmaDevice>(
        &mut self,
        block: &BlockAddress,
        trans: &mut Transceiver<D>,
        rings: &mut SocketRings<'_>,
    ) -> (r: Result<BulkAction, Error>)
        requires
            old(trans).wf(),
            old(rings).wf(),
        ensures
            ({
                let done = old(trans).did(final(trans));
                let tick = old(self).leave_tick(*block, old(rings)@, done);
                &&& carried_out(tick.script, done)
                &&& *final(self) == tick.state
                &&& final(rings)@ == tick.rings
                &&& r == tick.result
            }),
            old(trans).advanced(final(trans)),
            handed_over(old(trans), final(trans), r),
            final(rings).wf(),
    {
        match self.exchange(block, trans, rings)? {
            BulkAction::Started { kind, pointer, len } => Ok(
                BulkAction::Started { kind, pointer, len },
            ),
            BulkAction::Nothing => {
                if rings.tx.len() == 0 && rings.rx.len() == 0 && get_rx_received_size(block, trans)?
                    == 0 {
                    send_sock_command(block, trans, SocketCommand::Disconnect)?;
                    self.status = SocketStatus::Closing;
                }
                Ok(BulkAction::Nothing)
            },
        }
    }

    /// Idle health-check for an established connection: watch for the failure
    /// and teardown conditions, then move data. A bulk receive/transmit returns
    /// `Started` (the bus is owned now, until the DMA has finished).
    #[verifier::rlimit(30)]
    #[verifier::spinoff_prover]
    pub fn handle_established<D: SpiDmaDevice>(
        &mut self,
        block: &BlockAddress,
        trans: &mut Transceiver<D>,
        rings: &mut SocketRings<'_>,
    ) -> (r: Result<BulkAction, Error>)
        requires
            old(trans).wf(),
            old(rings).wf(),
        ensures
            ({
                let done = old(trans).did(final(trans));
                let tick = old(self).established_tick(*block, old(rings)@, done);
                &&& carried_out(tick.script, done)
                &&& *final(self) == tick.state
                &&& final(rings)@ == tick.rings
                &&& r == tick.result
            }),
            old(trans).advanced(final(trans)),
            handed_over(old(trans), final(trans), r),
            final(rings).wf(),
    {
        let interrupts = get_interrupts(block, trans)?;

        // Retransmission / keep-alive timeout: the peer is unreachable, so the
        // connection is dead. Tear it down and report it as a timeout.
        if interrupts.contains(IR_TIMEOUT) {
            clear_interrupts(block, trans, IR_TIMEOUT)?;

            send_sock_command(block, trans, SocketCommand::Close)?;
            self.status = SocketStatus::ClosingDueToTimeout;

            return Ok(BulkAction::Nothing);
        }
        // FIN received from the peer. Acknowledge the interrupt; the status
        // register below tells how far the teardown has progressed.
        if interrupts.contains(IR_DISCON) {
            clear_interrupts(block, trans, IR_DISCON)?;
        }
        let sr = read_status(block, trans)?;
        let ghost mid = *trans;
        let ghost asked = Self::watch_script(*block, old(trans).did(trans));
        match sr {
            // Still connected and healthy: pull down any pending data first;
            // only if nothing started is staged tx data pushed.
            SocketStatusRegister::Established => {
                let moved = self.exchange(block, trans, rings);
                proof {
                    let tick = move_tick(*block, old(rings)@, mid.did(trans));
                    lemma_behind(old(trans), &mid, trans, asked, tick.script);
                }
                moved
            },
            // Peer initiated a graceful close (sent FIN).
            SocketStatusRegister::CloseWait => {
                let left = self.leave(block, trans, rings);
                proof {
                    let tick = old(self).leave_tick(*block, old(rings)@, mid.did(trans));
                    lemma_behind(old(trans), &mid, trans, asked, tick.script);
                }
                left
            },
            // Connection already fully torn down.
            SocketStatusRegister::Closed => {
                self.status = SocketStatus::Closed;

                Ok(BulkAction::Nothing)
            },
            // Any other state is unexpected for an established socket.
            _ => {
                send_sock_command(block, trans, SocketCommand::Close)?;
                self.status = SocketStatus::ClosingDueToError;

                Err(Error::Other(DriverError::UnexpectedResponse))
            },
        }
    }

    /// Advance the state machine by one non-blocking tick. A swallowed (non
    /// `WouldBlock`) error is stored and surfaced through `status`.
    pub fn run<D: SpiDmaDevice>(
        &mut self,
        block: &BlockAddress,
        trans: &mut Transceiver<D>,
        rings: &mut SocketRings<'_>,
    ) -> (r: Result<BulkAction, Error>)
        requires
            old(trans).wf(),
            old(rings).wf(),
        ensures
            ({
                let done = old(trans).did(final(trans));
                let tick = old(self).run_tick(*block, old(rings)@, done);
                &&& carried_out(tick.script, done)
                &&& *final(self) == tick.state
                &&& final(rings)@ == tick.rings
                &&& r == tick.result
            }),
            old(trans).advanced(final(trans)),
            handed_over(old(trans), final(trans), r),
            final(rings).wf(),
    {
        let result = if self.close_requested {
            self.handle_close(block, trans, rings)
        } else {
            match self.status {
                SocketStatus::Init => self.handle_init(block, trans),
                SocketStatus::Opening => self.handle_opening(block, trans),
                SocketStatus::Connecting => self.handle_connecting(block, trans),
                SocketStatus::Established => self.handle_established(block, trans, rings),
                SocketStatus::Listening => self.handle_listening(block, trans),
                SocketStatus::ClosingDueToError
                | SocketStatus::ClosingDueToTimeout
                | SocketStatus::Closing => self.handle_closing(block, trans),
                SocketStatus::Timeout | SocketStatus::Closed | SocketStatus::Error => Ok(
                    BulkAction::Nothing,
                ),
            }
        };
        match result {
            Ok(action) => Ok(action),
            Err(Error::WouldBlock) => Err(Error::WouldBlock),
            Err(e) => {
                self.pending_error = Some(e);
                Ok(BulkAction::Nothing)
            },
        }
    }
}

/// The chip after its socket `i` was re-armed, if it is in use for TCP: the rings
/// are empty, and what a transfer on its way still brings in will be dropped.
pub open spec fn reconnected(chip: ChipState, i: int) -> ChipState {
    let slot = chip.sockets[i];
    match slot.backend.state {
        BackendState::Tcp(tcp) => chip.with_slot(
            i,
            SlotState {
                backend: SocketBackend {
                    state: BackendState::Tcp(tcp.rearmed()),
                    ..slot.backend
                },
                busy: false,
                rings: RingsState { rx: slot.rings.rx.cleared(), tx: slot.rings.tx.cleared() },
            },
        ).disowned(i),
        _ => chip,
    }
}

/// A lightweight, user-facing handle to a TCP socket of the chip. `read`/`write`
/// touch the rings; the other operations go through the protocol state.
///
/// A handle must be given back with [`release`](TcpSocket::release): one that is
/// just dropped leaves its hardware socket occupied. It is only the number of a
/// slot and not tied to one chip: use it with the chip that handed it out.
pub struct TcpSocket {
    slot: usize,
}

impl TcpSocket {
    /// Which of the chip's sockets this is a handle to.
    pub closed spec fn slot(&self) -> usize {
        self.slot
    }

    /// The chip has eight sockets.
    #[verifier::type_invariant]
    spec fn in_range(self) -> bool {
        self.slot < 8
    }

    /// A handle to the socket in `slot`.
    pub(crate) fn new(slot: usize) -> (handle: Self)
        requires
            slot < 8,
        ensures
            handle.slot() == slot,
    {
        TcpSocket { slot }
    }

    /// Which of the chip's sockets this is a handle to.
    pub fn index(&self) -> (slot: usize)
        ensures
            slot == self.slot(),
            slot < 8,
    {
        proof {
            use_type_invariant(self);
        }
        self.slot
    }

    /// Drain up to `dst.len()` bytes already received and buffered locally.
    /// Returns the number copied (0 if nothing is buffered). Non-blocking.
    pub fn read<'a, D: SpiDmaDevice>(&self, chip: &mut W6100<'a, D>, dst: &mut [u8]) -> (r: Result<
        usize,
        Error,
    >)
        requires
            old(chip).wf(),
        ensures
            final(chip).wf(),
            final(chip).link() == old(chip).link(),
            ({
                let slot = old(chip)@.sockets[self.slot() as int];
                let n = min(old(dst)@.len() as int, slot.rings.rx.bytes.len() as int);
                &&& r is Ok && r->Ok_0 == n
                &&& final(dst)@ == overlay(old(dst)@, 0, slot.rings.rx.bytes.take(n))
                &&& final(chip)@ == old(chip)@.with_slot(
                    self.slot() as int,
                    (SlotState {
                        rings: RingsState { rx: slot.rings.rx.taken(n), ..slot.rings },
                        ..slot
                    }),
                )
            }),
    {
        proof {
            use_type_invariant(self);
        }
        let socket = chip.socket_mut(self.slot);
        Ok(socket.rings.rx.read(dst))
    }

    /// Queue up to `src.len()` bytes for transmission, returning the number
    /// accepted into the local tx ring. Non-blocking: the staged data is pushed
    /// onto the chip and sent by `run`.
    pub fn write<'a, D: SpiDmaDevice>(&self, chip: &mut W6100<'a, D>, src: &[u8]) -> (r: Result<
        usize,
        Error,
    >)
        requires
            old(chip).wf(),
        ensures
            final(chip).wf(),
            final(chip).link() == old(chip).link(),
            ({
                let slot = old(chip)@.sockets[self.slot() as int];
                &&& r is Ok && r->Ok_0 == min(src@.len() as int, slot.rings.tx.free())
                &&& final(chip)@ == old(chip)@.with_slot(
                    self.slot() as int,
                    (SlotState {
                        rings: RingsState { tx: slot.rings.tx.put(src@), ..slot.rings },
                        ..slot
                    }),
                )
            }),
    {
        proof {
            use_type_invariant(self);
        }
        let socket = chip.socket_mut(self.slot);
        Ok(socket.rings.tx.write(src))
    }
    /// How far the socket has come; `Closed` if the slot is no longer in use for
    /// this protocol.
    pub fn status<'a, D: SpiDmaDevice>(&self, chip: &mut W6100<'a, D>) -> (r: Result<
        SocketStatus,
        Error,
    >)
        requires
            old(chip).wf(),
        ensures
            final(chip).wf(),
            final(chip)@ == old(chip)@,
            final(chip).link() == old(chip).link(),
            ({
                let slot = old(chip)@.sockets[self.slot() as int];
                r == (if slot.busy {
                    Err::<SocketStatus, Error>(Error::WouldBlock)
                } else {
                    Ok(
                        match slot.backend.state {
                            BackendState::Tcp(tcp) => tcp.shown(),
                            _ => SocketStatus::Closed,
                        },
                    )
                })
            }),
    {
        proof {
            use_type_invariant(self);
        }
        let socket = chip.socket_mut(self.slot);
        let r = match socket.backend.lock_mut() {
            Ok(mut guard) => Ok(
                match guard.as_mut().as_tcp_mut() {
                    Some(tcp) => tcp.status(),
                    None => SocketStatus::Closed,
                },
            ),
            Err(held) => Err(Error::from(held)),
        };
        assert(chip@.sockets =~= old(chip)@.sockets);
        r
    }

    /// Request a close of the socket. Non-blocking: the next `run` tick acts on
    /// it and the teardown completes asynchronously; poll
    /// [`status`](TcpSocket::status) for `Closed` to confirm.
    pub fn close<'a, D: SpiDmaDevice>(&self, chip: &mut W6100<'a, D>) -> (r: Result<(), Error>)
        requires
            old(chip).wf(),
        ensures
            final(chip).wf(),
            final(chip).link() == old(chip).link(),
            ({
                let slot = old(chip)@.sockets[self.slot() as int];
                if slot.busy {
                    &&& r == Err::<(), Error>(Error::WouldBlock)
                    &&& final(chip)@ == old(chip)@
                } else {
                    &&& r == Ok::<(), Error>(())
                    &&& final(chip)@ == old(chip)@.with_slot(
                        self.slot() as int,
                        match slot.backend.state {
                            BackendState::Tcp(tcp) => slot.with(
                                (SocketBackend {
                                    state: BackendState::Tcp(
                                        (TcpSocketState { close_requested: true, ..tcp }),
                                    ),
                                    ..slot.backend
                                }),
                            ),
                            _ => slot,
                        },
                    )
                }
            }),
    {
        proof {
            use_type_invariant(self);
        }
        let socket = chip.socket_mut(self.slot);
        match socket.backend.lock_mut() {
            Ok(mut guard) => {
                if let Some(tcp) = guard.as_mut().as_tcp_mut() {
                    tcp.request_close();
                }
            },
            Err(held) => {
                assert(chip@.sockets =~= old(chip)@.sockets);
                return Err(Error::from(held));
            },
        }
        Ok(())
    }

    /// Re-arm the socket so `run` re-opens it, with empty rings. Use after a
    /// link-loss reset to bring it back up. What a transfer on its way still brings
    /// in is dropped.
    pub fn reconnect<'a, D: SpiDmaDevice>(&self, chip: &mut W6100<'a, D>) -> (r: Result<(), Error>)
        requires
            old(chip).wf(),
        ensures
            final(chip).wf(),
            final(chip).link() == old(chip).link(),
            ({
                let slot = old(chip)@.sockets[self.slot() as int];
                if slot.busy {
                    &&& r == Err::<(), Error>(Error::WouldBlock)
                    &&& final(chip)@ == old(chip)@
                } else {
                    &&& r == Ok::<(), Error>(())
                    &&& final(chip)@ == reconnected(old(chip)@, self.slot() as int)
                }
            }),
    {
        proof {
            use_type_invariant(self);
        }
        let ghost i = self.slot as int;
        let ghost before = chip@;
        let socket = chip.socket_mut(self.slot);
        let armed = match socket.backend.lock_mut() {
            Ok(mut guard) => {
                if let Some(tcp) = guard.as_mut().as_tcp_mut() {
                    tcp.rearm();
                    // Drop anything left over from before, so the socket starts
                    // again with empty rings.
                    socket.rings.clear();
                    true
                } else {
                    false
                }
            },
            Err(held) => {
                assert(chip@.sockets =~= before.sockets);
                return Err(Error::from(held));
            },
        };
        if armed {
            chip.disown(self.slot);
        } else {
            assert(chip@.sockets =~= before.sockets);
        }
        Ok(())
    }

    /// Give the handle back: the hardware socket goes back to the pool. The slot
    /// is marked for release, so the next `run` ticks close it on the chip and
    /// then return it to `Free` for reuse. If the socket is held elsewhere right
    /// now, nothing changes.
    pub fn release<'a, D: SpiDmaDevice>(self, chip: &mut W6100<'a, D>)
        requires
            old(chip).wf(),
        ensures
            final(chip).wf(),
            final(chip).link() == old(chip).link(),
            ({
                let slot = old(chip)@.sockets[self.slot() as int];
                final(chip)@ == old(chip)@.with_slot(
                    self.slot() as int,
                    if slot.busy {
                        slot
                    } else {
                        slot.with(slot.backend.after_release())
                    },
                )
            }),
    {
        proof {
            use_type_invariant(&self);
        }
        let socket = chip.socket_mut(self.slot);
        if let Ok(mut guard) = socket.backend.lock_mut() {
            guard.as_mut().request_release();
        }
    }
}

} // verus!
