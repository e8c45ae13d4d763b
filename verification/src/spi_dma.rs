//! The transport that a platform supplies: full-duplex SPI transfers by DMA.
use vstd::prelude::*;

verus! {

/// The scratch buffers of one transfer: `len` bytes of `tx` go out while `len`
/// bytes come into `rx`.
pub struct DmaBuffers {
    pub rx: &'static mut [u8],
    pub tx: &'static mut [u8],
    pub len: usize,
}

/// How the end of a transfer is noticed.
#[derive(Debug, Clone, Copy, PartialEq, Eq, Structural)]
pub enum Completion {
    /// The caller waits for it right away.
    Poll,
    /// An interrupt reports it.
    Interrupt,
}

/// One thing that happened on the bus.
pub enum BusEvent {
    /// `mosi` went out and `miso` came in at the same time.
    Transfer { mosi: Seq<u8>, miso: Seq<u8>, completion: Completion },
    /// `mosi` was to go out, but the transfer could not be started.
    Fault { mosi: Seq<u8>, completion: Completion },
    /// The device paused.
    Delay { ns: u32 },
}

/// A transfer on its way.
pub trait SpiDmaTransaction<Device> {
    /// The device as it is handed back.
    closed spec fn device(&self) -> Device {
        arbitrary()
    }

    /// The receive buffer as it is handed back.
    closed spec fn rx(&self) -> Seq<u8> {
        arbitrary()
    }

    /// The transmit buffer as it is handed back.
    closed spec fn tx(&self) -> Seq<u8> {
        arbitrary()
    }

    /// The length of the transfer.
    closed spec fn size(&self) -> usize {
        arbitrary()
    }

    /// Block until the transfer is complete and hand back the device and the
    /// buffers.
    fn wait(self) -> (done: (Device, DmaBuffers))
        ensures
            done.0 == self.device(),
            done.1.rx@ == self.rx(),
            done.1.tx@ == self.tx(),
            done.1.len == self.size(),
    ;
}

/// An SPI device that moves whole buffers by DMA. A platform implements this;
/// the driver knows nothing else of the hardware.
pub trait SpiDmaDevice: Sized {
    type Error;

    type Transaction: SpiDmaTransaction<Self>;

    /// Everything that has happened on the bus through this device.
    closed spec fn trace(&self) -> Seq<BusEvent> {
        arbitrary()
    }

    /// Pause for at least `ns` nanoseconds.
    fn delay_ns(&mut self, ns: u32)
        ensures
            final(self).trace() == old(self).trace().push(BusEvent::Delay { ns }),
    ;

    /// Start one full-duplex transfer of `buffers.len` bytes. If it cannot be
    /// started, the device and the buffers come straight back.
    fn transceive(self, buffers: DmaBuffers, completion: Completion) -> (started: Result<
        Self::Transaction,
        (Self::Error, Self, DmaBuffers),
    >)
        requires
            buffers.len <= buffers.rx@.len(),
            buffers.len <= buffers.tx@.len(),
        ensures
            match started {
                Ok(transaction) => {
                    &&& transaction.size() == buffers.len
                    &&& transaction.tx() == old(buffers.tx)@
                    &&& transaction.rx().len() == old(buffers.rx)@.len()
                    &&& transaction.device().trace() == self.trace().push(
                        BusEvent::Transfer {
                            mosi: old(buffers.tx)@.take(buffers.len as int),
                            miso: transaction.rx().take(buffers.len as int),
                            completion,
                        },
                    )
                },
                Err((_, device, returned)) => {
                    &&& returned.tx@.len() == old(buffers.tx)@.len()
                    &&& returned.rx@.len() == old(buffers.rx)@.len()
                    &&& device.trace() == self.trace().push(
                        BusEvent::Fault {
                            mosi: old(buffers.tx)@.take(buffers.len as int),
                            completion,
                        },
                    )
                },
            },
    ;
}

} // verus!
