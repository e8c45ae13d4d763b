//! A device with its output wired to its input: every byte that goes out comes
//! straight back in. It needs no hardware, so it serves to try the transport.
use vstd::prelude::*;

use crate::bytes::copy_part;
use crate::spi_dma::{BusEvent, Completion, DmaBuffers, SpiDmaDevice, SpiDmaTransaction};

verus! {

/// The device.
pub struct Loopback {
    trace: Ghost<Seq<BusEvent>>,
}

/// A transfer of the device. It is over as soon as it is started.
pub struct LoopbackTransfer {
    device: Loopback,
    buffers: DmaBuffers,
}

impl Loopback {
    /// A device on which nothing has happened yet.
    pub fn new() -> (device: Self)
        ensures
            device.trace() == Seq::<BusEvent>::empty(),
    {
        Loopback { trace: Ghost(Seq::empty()) }
    }
}

impl SpiDmaTransaction<Loopback> for LoopbackTransfer {
    closed spec fn device(&self) -> Loopback {
        self.device
    }

    closed spec fn rx(&self) -> Seq<u8> {
        self.buffers.rx@
    }

    closed spec fn tx(&self) -> Seq<u8> {
        self.buffers.tx@
    }

    closed spec fn size(&self) -> usize {
        self.buffers.len
    }

    fn wait(self) -> (done: (Loopback, DmaBuffers)) {
        (self.device, self.buffers)
    }
}

impl SpiDmaDevice for Loopback {
    type Error = ();

    type Transaction = LoopbackTransfer;

    closed spec fn trace(&self) -> Seq<BusEvent> {
        self.trace@
    }

    fn delay_ns(&mut self, ns: u32) {
        proof {
            self.trace@ = self.trace@.push(BusEvent::Delay { ns });
        }
    }

    fn transceive(self, buffers: DmaBuffers, completion: Completion) -> (started: Result<
        LoopbackTransfer,
        ((), Loopback, DmaBuffers),
    >)
        ensures
            started is Ok,
            started->Ok_0.rx().take(buffers.len as int) == old(buffers.tx)@.take(
                buffers.len as int,
            ),
    {
        let DmaBuffers { rx, tx, len } = buffers;
        copy_part(rx, 0, tx, 0, len);
        let ghost sent = tx@.take(len as int);
        let ghost event = BusEvent::Transfer { mosi: sent, miso: rx@.take(len as int), completion };
        assert(rx@.take(len as int) =~= sent);
        let device = Loopback { trace: Ghost(self.trace@.push(event)) };
        Ok(LoopbackTransfer { device, buffers: DmaBuffers { rx, tx, len } })
    }
}

} // verus!
