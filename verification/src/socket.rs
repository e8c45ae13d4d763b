//! One of the chip's hardware sockets: its protocol state machine and its rings.
use vstd::prelude::*;

use crate::access::{
    carried_out, ended, failed, failure, lemma_carried_out_on, passed, Access, Request,
};
use crate::address::BlockAddress;
use crate::atomic_cell::AtomicCell;
use crate::error::Error;
use crate::socket_common::{init_script, init_socket, SocketProtocolMode};
use crate::spi_dma::SpiDmaDevice;
use crate::spsc_ring::{RingState, SpscRing};
use crate::tcp_socket::TcpSocketState;
use crate::transiver::Transceiver;
use crate::udp_socket::UdpSocketState;

verus! {

/// How far a socket has come.
#[derive(Debug, Clone, Copy, PartialEq, Eq, Structural)]
pub enum SocketStatus {
    Init,
    Opening,
    Connecting,
    Established,
    Listening,
    ClosingDueToError,
    ClosingDueToTimeout,
    Closing,
    Timeout,
    Error,
    Closed,
}

/// Which bulk payload transfer a socket kicked off this tick. Carried up to the
/// chip so it can record the in-flight context and finish it from the
/// DMA-complete interrupt.
#[derive(Debug, Clone, Copy, PartialEq, Eq, Structural)]
pub enum BulkKind {
    /// Bytes of a stream come in.
    Receive,
    /// Bytes go out.
    Transmit,
    /// The payload of a datagram comes in.
    ReceiveDatagram { src_ip: u32, src_port: u16 },
}

/// Result of advancing a socket one tick: either nothing crossed the bus
/// asynchronously, or a bulk DMA was started and now owns it.
#[derive(Debug, Clone, Copy, PartialEq, Eq, Structural)]
pub enum BulkAction {
    Nothing,
    Started {
        kind: BulkKind,
        /// Chip-side buffer pointer the transfer started at.
        pointer: u16,
        /// Payload length in bytes.
        len: usize,
    },
}

/// What a socket's two rings hold.
#[verifier::ext_equal]
pub struct RingsState {
    pub rx: RingState,
    pub tx: RingState,
}

/// What one tick of a socket comes to, given what the chip answered, where no
/// bytes move.
#[verifier::ext_equal]
pub struct Turn<S> {
    /// What is asked of the chip, in this order, until something fails.
    pub script: Seq<Request>,
    /// The protocol state afterwards.
    pub state: S,
    /// What the tick reports.
    pub result: Result<BulkAction, Error>,
}

impl<S> Turn<S> {
    /// The same as a tick that leaves the rings alone.
    pub open spec fn beside(self, rings: RingsState) -> Tick<S> {
        Tick { script: self.script, state: self.state, rings, result: self.result }
    }
}

/// What one tick of a socket comes to, given what the chip answered.
#[verifier::ext_equal]
pub struct Tick<S> {
    /// What is asked of the chip, in this order, until something fails.
    pub script: Seq<Request>,
    /// The protocol state afterwards.
    pub state: S,
    /// The rings afterwards.
    pub rings: RingsState,
    /// What the tick reports.
    pub result: Result<BulkAction, Error>,
}

impl<S> Tick<S> {
    /// The same, behind what was `asked` first.
    pub open spec fn behind(self, asked: Seq<Request>) -> Tick<S> {
        Tick { script: asked + self.script, ..self }
    }

    /// The same, with another state.
    pub open spec fn with<T>(self, state: T) -> Tick<T> {
        Tick { script: self.script, state, rings: self.rings, result: self.result }
    }
}

/// Who owns the bus after a tick: the transfer that the tick started, which is
/// the last access in the record, or whoever owned it before.
pub open spec fn handed_over<D: SpiDmaDevice>(
    before: &Transceiver<D>,
    after: &Transceiver<D>,
    result: Result<BulkAction, Error>,
) -> bool {
    match result {
        Ok(BulkAction::Started { kind, pointer, len }) => {
            &&& before.is_idle()
            &&& !after.is_idle()
            &&& after.flight() == after.log().len() - 1
            &&& kind != BulkKind::Transmit ==> after.window().len() == len
        },
        _ => before.same_link(after),
    }
}

/// Accesses from `before` to `mid` and on to `after`, seen as one run.
pub proof fn lemma_behind<D: SpiDmaDevice>(
    before: &Transceiver<D>,
    mid: &Transceiver<D>,
    after: &Transceiver<D>,
    first: Seq<Request>,
    second: Seq<Request>,
)
    requires
        before.advanced(mid),
        mid.advanced(after),
        carried_out(first, before.did(mid)),
        before.did(mid).len() == first.len(),
        passed(before.did(mid), first.len()),
        carried_out(second, mid.did(after)),
    ensures
        before.did(after).take(first.len() as int) == before.did(mid),
        before.did(after).skip(first.len() as int) == mid.did(after),
        forall|i: int| 0 <= i < first.len() ==> before.did(after)[i] == #[trigger] before.did(mid)[i],
        carried_out(first + second, before.did(after)),
        passed(before.did(after), first.len()),
        failed(before.did(after)) == failed(mid.did(after)),
        failed(mid.did(after)) ==> failure(before.did(after)) == failure(mid.did(after)),
{
    let done = before.did(after);
    assert(done.take(first.len() as int) =~= before.did(mid));
    assert(done.skip(first.len() as int) =~= mid.did(after));
    lemma_carried_out_on(first, second, done);
    assert forall|i: int| 0 <= i < first.len() implies done[i] == #[trigger] before.did(mid)[i] by {
        assert(done.take(first.len() as int)[i] == done[i]);
    }
}

/// A pointer into one of the chip's buffers, moved on by `n`. It wraps.
#[verifier::opaque]
pub open spec fn ahead(pointer: u16, n: int) -> u16 {
    ((pointer + n) % 0x1_0000) as u16
}

/// Move a pointer on.
pub fn advance(pointer: u16, n: usize) -> (moved: u16)
    ensures
        moved == ahead(pointer, n as int),
{
    reveal(ahead);
    pointer.wrapping_add((n % 0x1_0000) as u16)
}

/// Not moved.
pub proof fn lemma_ahead_zero(pointer: u16)
    ensures
        ahead(pointer, 0) == pointer,
{
    reveal(ahead);
}

/// Moving a pointer on twice moves it on by the sum.
pub proof fn lemma_ahead_twice(pointer: u16, m: int, n: int)
    requires
        0 <= m,
        0 <= n,
    ensures
        ahead(ahead(pointer, m), n) == ahead(pointer, m + n),
{
    reveal(ahead);
}

/// The local rx/tx ring pair for a hardware socket.
pub struct SocketRings<'a> {
    pub rx: SpscRing<'a>,
    pub tx: SpscRing<'a>,
}

impl<'a> View for SocketRings<'a> {
    type V = RingsState;

    open spec fn view(&self) -> RingsState {
        RingsState { rx: self.rx@, tx: self.tx@ }
    }
}

impl<'a> SocketRings<'a> {
    pub open spec fn wf(&self) -> bool {
        self.rx.wf() && self.tx.wf()
    }

    pub fn new() -> (rings: Self)
        ensures
            rings.wf(),
            rings@ == (RingsState { rx: RingState::none(), tx: RingState::none() }),
    {
        SocketRings { rx: SpscRing::new(), tx: SpscRing::new() }
    }

    /// Install the backing buffers (once, at socket open).
    pub fn install(&mut self, rx: &'a mut [u8], tx: &'a mut [u8])
        ensures
            final(self).wf(),
            final(self)@ == (RingsState {
                rx: RingState::empty(old(rx)@.len()),
                tx: RingState::empty(old(tx)@.len()),
            }),
    {
        self.rx.install(rx);
        self.tx.install(tx);
    }

    /// Drop any buffered rx/tx bytes, returning both rings to empty. Called on
    /// socket re-arm so a reconnected session starts with clean buffers rather
    /// than data left over from the previous connection.
    pub fn clear(&mut self)
        requires
            old(self).wf(),
        ensures
            final(self).wf(),
            final(self)@ == (RingsState {
                rx: old(self)@.rx.cleared(),
                tx: old(self)@.tx.cleared(),
            }),
    {
        self.rx.clear();
        self.tx.clear();
    }
}

/// The protocol-specific state machine living inside a [`SocketBackend`] slot.
#[derive(Debug, Clone, Copy, PartialEq, Eq, Structural)]
pub enum BackendState {
    Free,
    Tcp(TcpSocketState),
    Udp(UdpSocketState),
}

/// The protocol state for one hardware socket.
#[derive(Debug, Clone, Copy, PartialEq, Eq, Structural)]
pub struct SocketBackend {
    pub block: BlockAddress,
    pub state: BackendState,
    /// Set when the owning handle is given back: the slot is closed on the chip
    /// and then returned to `Free` so it can be reused.
    pub release_requested: bool,
}

/// One of the chip's eight hardware sockets: the protocol state machine behind a
/// try-lock cell, plus its rings.
pub struct Socket<'a> {
    pub backend: AtomicCell<SocketBackend>,
    pub rings: SocketRings<'a>,
}

impl SocketBackend {
    /// The state, returned to the pool if that was asked for and the protocol
    /// has come to its end.
    pub open spec fn settled(self) -> SocketBackend {
        if self.release_requested && self.is_over() {
            SocketBackend { state: BackendState::Free, release_requested: false, ..self }
        } else {
            self
        }
    }

    /// Whether the protocol has come to its end.
    pub open spec fn is_over(self) -> bool {
        match self.state {
            BackendState::Free => true,
            BackendState::Tcp(tcp) => tcp.is_over(),
            BackendState::Udp(udp) => udp.is_over(),
        }
    }

    /// One tick of whatever protocol occupies the slot.
    pub open spec fn run_tick(self, rings: RingsState, done: Seq<Access>) -> Tick<SocketBackend> {
        match self.state {
            BackendState::Free => Tick {
                script: Seq::empty(),
                state: self.settled(),
                rings,
                result: Ok(BulkAction::Nothing),
            },
            BackendState::Tcp(tcp) => {
                let tick = tcp.run_tick(self.block, rings, done);
                tick.with(
                    SocketBackend { state: BackendState::Tcp(tick.state), ..self }.settled(),
                )
            },
            BackendState::Udp(udp) => {
                let tick = udp.run_tick(self.block, rings, done);
                tick.with(
                    SocketBackend { state: BackendState::Udp(tick.state), ..self }.settled(),
                )
            },
        }
    }

    /// The state after the chip was reset: a slot pending release is free, an
    /// occupied one will be opened again.
    pub open spec fn after_reset(self) -> SocketBackend {
        if self.release_requested {
            SocketBackend { state: BackendState::Free, release_requested: false, ..self }
        } else {
            match self.state {
                BackendState::Free => self,
                BackendState::Tcp(tcp) => SocketBackend {
                    state: BackendState::Tcp(tcp.rearmed()),
                    ..self
                },
                BackendState::Udp(udp) => SocketBackend {
                    state: BackendState::Udp(udp.rearmed()),
                    ..self
                },
            }
        }
    }

    /// The state after the handle was given back.
    pub open spec fn after_release(self) -> SocketBackend {
        SocketBackend {
            release_requested: true,
            state: match self.state {
                BackendState::Free => BackendState::Free,
                BackendState::Tcp(tcp) => BackendState::Tcp(
                    TcpSocketState { close_requested: true, ..tcp },
                ),
                BackendState::Udp(udp) => BackendState::Udp(
                    UdpSocketState { close_requested: true, ..udp },
                ),
            },
            ..self
        }
    }

    /// An unoccupied slot.
    pub fn new(block: BlockAddress) -> (backend: Self)
        ensures
            backend == (SocketBackend {
                block,
                state: BackendState::Free,
                release_requested: false,
            }),
    {
        SocketBackend { block, state: BackendState::Free, release_requested: false }
    }

    /// The chip-side block selectors for this socket.
    pub fn block(&self) -> (block: BlockAddress)
        ensures
            block == self.block,
    {
        self.block
    }

    /// Whether the slot can be claimed.
    pub fn is_free(&self) -> (b: bool)
        ensures
            b == (self.state is Free),
    {
        match self.state {
            BackendState::Free => true,
            _ => false,
        }
    }

    /// Claim a free slot for a TCP socket. Returns `false` if already in use.
    pub fn claim_tcp(&mut self, tcp: TcpSocketState) -> (claimed: bool)
        ensures
            claimed == (old(self).state is Free),
            *final(self) == (if claimed {
                SocketBackend {
                    state: BackendState::Tcp(tcp),
                    release_requested: false,
                    ..*old(self)
                }
            } else {
                *old(self)
            }),
    {
        if !self.is_free() {
            return false;
        }
        self.state = BackendState::Tcp(tcp);
        self.release_requested = false;
        true
    }

    /// Claim a free slot for a UDP socket. Returns `false` if already in use.
    pub fn claim_udp(&mut self, udp: UdpSocketState) -> (claimed: bool)
        ensures
            claimed == (old(self).state is Free),
            *final(self) == (if claimed {
                SocketBackend {
                    state: BackendState::Udp(udp),
                    release_requested: false,
                    ..*old(self)
                }
            } else {
                *old(self)
            }),
    {
        if !self.is_free() {
            return false;
        }
        self.state = BackendState::Udp(udp);
        self.release_requested = false;
        true
    }

    /// The TCP state machine, if that is what occupies the slot.
    pub fn as_tcp_mut(&mut self) -> (r: Option<&mut TcpSocketState>)
        ensures
            match r {
                Some(tcp) => {
                    &&& old(self).state == BackendState::Tcp(*tcp)
                    &&& *final(self) == (SocketBackend {
                        state: BackendState::Tcp(*final(tcp)),
                        ..*old(self)
                    })
                },
                None => !(old(self).state is Tcp) && *final(self) == *old(self),
            },
    {
        match &mut self.state {
            BackendState::Tcp(tcp) => Some(tcp),
            _ => None,
        }
    }

    /// The UDP state machine, if that is what occupies the slot.
    pub fn as_udp_mut(&mut self) -> (r: Option<&mut UdpSocketState>)
        ensures
            match r {
                Some(udp) => {
                    &&& old(self).state == BackendState::Udp(*udp)
                    &&& *final(self) == (SocketBackend {
                        state: BackendState::Udp(*final(udp)),
                        ..*old(self)
                    })
                },
                None => !(old(self).state is Udp) && *final(self) == *old(self),
            },
    {
        match &mut self.state {
            BackendState::Udp(udp) => Some(udp),
            _ => None,
        }
    }

    /// Mark the slot for release (handle given back): gracefully close whatever
    /// is running so the next `run` ticks can finish teardown and free the slot.
    pub fn request_release(&mut self)
        ensures
            *final(self) == old(self).after_release(),
    {
        self.release_requested = true;

        match &mut self.state {
            BackendState::Free => {},
            BackendState::Tcp(tcp) => tcp.request_close(),
            BackendState::Udp(udp) => udp.request_close(),
        }
    }

    /// Whether the occupying protocol state machine has reached a closed state.
    pub fn is_terminal(&self) -> (b: bool)
        ensures
            b == self.is_over(),
    {
        match &self.state {
            BackendState::Free => true,
            BackendState::Tcp(tcp) => tcp.is_closed(),
            BackendState::Udp(udp) => udp.is_closed(),
        }
    }

    /// Drive whichever protocol state machine occupies this slot for one tick,
    /// then free the slot if a release was requested and teardown has finished.
    pub fn run<D: SpiDmaDevice>(
        &mut self,
        trans: &mut Transceiver<D>,
        rings: &mut SocketRings<'_>,
    ) -> (r: Result<BulkAction, Error>)
        requires
            old(trans).wf(),
            old(rings).wf(),
        ensures
            ({
                let done = old(trans).did(final(trans));
                let tick = old(self).run_tick(old(rings)@, done);
                &&& carried_out(tick.script, done)
                &&& *final(self) == tick.state
                &&& final(rings)@ == tick.rings
                &&& r == tick.result
            }),
            old(trans).advanced(final(trans)),
            handed_over(old(trans), final(trans), r),
            final(rings).wf(),
    {
        let result = match &mut self.state {
            BackendState::Free => Ok(BulkAction::Nothing),
            BackendState::Tcp(tcp) => tcp.run(&self.block, trans, rings),
            BackendState::Udp(udp) => udp.run(&self.block, trans, rings),
        };
        if self.release_requested && self.is_terminal() {
            self.state = BackendState::Free;
            self.release_requested = false;
        }
        result
    }

    /// Force the hardware socket back to CLOSED. A slot pending release is freed
    /// immediately (it is already closed on the chip); otherwise an occupied
    /// slot is re-armed so it re-opens on the next `run`.
    pub fn reset<D: SpiDmaDevice>(&mut self, trans: &mut Transceiver<D>) -> (r: Result<(), Error>)
        requires
            old(trans).wf(),
        ensures
            carried_out(
                init_script(old(self).block, SocketProtocolMode::Closed),
                old(trans).did(final(trans)),
            ),
            r == ended(old(trans).did(final(trans))),
            *final(self) == (match r {
                Ok(()) => old(self).after_reset(),
                Err(_) => *old(self),
            }),
            old(trans).advanced(final(trans)),
            old(trans).same_link(final(trans)),
    {
        init_socket(&self.block, trans, SocketProtocolMode::Closed)?;

        if self.release_requested {
            self.state = BackendState::Free;
            self.release_requested = false;
        } else {
            match &mut self.state {
                BackendState::Free => {},
                BackendState::Tcp(tcp) => tcp.rearm(),
                BackendState::Udp(udp) => udp.rearm(),
            }
        }
        Ok(())
    }
}

} // verus!
