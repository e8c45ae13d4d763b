//! Register and buffer access over the SPI transport.

use std::cell::RefCell;
use std::rc::Rc;

use wiznet_rs::error::{DriverError, Error};
use wiznet_rs::loopback::Loopback;
use wiznet_rs::spi_dma::{Completion, DmaBuffers, SpiDmaDevice, SpiDmaTransaction};
use wiznet_rs::spsc_ring::SpscRing;
use wiznet_rs::address::{create_header, Address, BlockSelectionBits};
use wiznet_rs::batch::Operation;
use wiznet_rs::transiver::Transceiver;

/// What every mock transfer captures / replays.
#[derive(Default)]
struct MockLog {
    /// MOSI bytes (the active `len` window of `tx`) for each `transceive`.
    transfers: Vec<Vec<u8>>,
    /// Recorded `DelayNs` requests.
    delays: Vec<u32>,
    /// Whether transfers cannot be started.
    broken: bool,
}

/// A device that records MOSI and synthesizes a deterministic, *position-indexed*
/// MISO response: `rx[i] = i`. The value equals the buffer offset it came from.
struct MockDevice {
    log: Rc<RefCell<MockLog>>,
}

struct MockTransaction {
    dev: MockDevice,
    buffers: DmaBuffers,
}

impl SpiDmaTransaction<MockDevice> for MockTransaction {
    fn wait(self) -> (MockDevice, DmaBuffers) {
        (self.dev, self.buffers)
    }
}

impl SpiDmaDevice for MockDevice {
    type Error = ();
    type Transaction = MockTransaction;

    fn delay_ns(&mut self, ns: u32) {
        self.log.borrow_mut().delays.push(ns);
    }

    fn transceive(
        self,
        buffers: DmaBuffers,
        _completion: Completion,
    ) -> Result<Self::Transaction, (Self::Error, Self, DmaBuffers)> {
        let len = buffers.len;
        if self.log.borrow().broken {
            return Err(((), self, buffers));
        }
        self.log
            .borrow_mut()
            .transfers
            .push(buffers.tx[..len].to_vec());
        for i in 0..len {
            buffers.rx[i] = i as u8;
        }
        Ok(MockTransaction { dev: self, buffers })
    }
}

/// Leak a zeroed buffer so it satisfies the `&'static mut` in `DmaBuffers`.
fn leak(n: usize) -> &'static mut [u8] {
    vec![0u8; n].leak()
}

fn rig(scratch_len: usize) -> (Transceiver<MockDevice>, Rc<RefCell<MockLog>>) {
    let log = Rc::new(RefCell::new(MockLog::default()));
    let dev = MockDevice { log: log.clone() };
    let scratch = DmaBuffers {
        rx: leak(scratch_len),
        tx: leak(scratch_len),
        len: 0,
    };
    (Transceiver::new(dev, scratch), log)
}

const ADDR: Address = Address {
    address: 0x1234,
    block: BlockSelectionBits::CommonRegister,
};

/// A `read` must copy the payload window (`rx[3..3+N]`), not the bytes clocked in
/// under the 3-byte header.
#[test]
fn read_copies_payload_window_not_header() {
    let (mut txr, log) = rig(16);
    let mut buf = [0u8; 4];

    txr.read(&ADDR, &mut buf).unwrap();

    // rx[i] == i, header is 3 bytes => payload is rx[3..7].
    assert_eq!(buf, [3, 4, 5, 6]);

    let log = log.borrow();
    assert_eq!(log.transfers.len(), 1, "one full-duplex transfer");
    let mosi = &log.transfers[0];
    assert_eq!(mosi.len(), 3 + 4, "header + read padding");
    assert_eq!(&mosi[..2], &0x1234u16.to_be_bytes(), "address, big-endian");
    assert_eq!(mosi[2] & 0b100, 0, "RWB clear on read");
}

/// A `write` stages header + payload as MOSI, sets the RWB bit, and copies
/// nothing back.
#[test]
fn write_stages_header_and_payload() {
    let (mut txr, log) = rig(16);

    txr.write(&ADDR, &[0xAA, 0xBB]).unwrap();

    let log = log.borrow();
    let mosi = &log.transfers[0];
    assert_eq!(mosi.len(), 3 + 2);
    assert_eq!(mosi[2] & 0b100, 0b100, "RWB set on write");
    assert_eq!(&mosi[3..], &[0xAA, 0xBB]);
}

/// Primitive round-trip: `read_u16` decodes big-endian from the payload window.
/// (rx[3], rx[4]) == (3, 4) => 0x0304.
#[test]
fn read_u16_decodes_payload() {
    let (mut txr, _log) = rig(16);
    assert_eq!(txr.read_u16(&ADDR).unwrap(), 0x0304);
}

/// A batch larger than the scratch must split into multiple transfers, and the
/// read-back offset must reset per chunk. Scratch holds 4 bytes;
/// `[Write(2), Read(2), Read(2)]` packs the first two ops (offset 2+2=4), then
/// the trailing read goes in its own transfer.
#[test]
fn batch_splits_across_chunks_with_correct_offsets() {
    let (mut txr, log) = rig(4);
    let mut a = [0u8; 2];
    let mut b = [0u8; 2];

    txr.transaction(&mut [
        Operation::Write(&[0x10, 0x20]),
        Operation::Read(&mut a),
        Operation::Read(&mut b),
    ])
    .unwrap();

    // Chunk 1 = [Write(2), Read(2)] -> a reads rx[2..4] = [2, 3].
    // Chunk 2 = [Read(2)]           -> b reads rx[0..2] = [0, 1].
    assert_eq!(a, [2, 3]);
    assert_eq!(b, [0, 1]);
    assert_eq!(log.borrow().transfers.len(), 2);
}

/// A single operation that cannot fit the scratch is unsplittable and must
/// surface `ScratchBufferOverrun` rather than panic or truncate.
#[test]
fn oversized_single_op_reports_overrun() {
    let (mut txr, _log) = rig(4);
    let err = txr
        .transaction(&mut [Operation::Write(&[0; 8])])
        .unwrap_err();
    assert!(matches!(
        err,
        Error::Other(DriverError::ScratchBufferOverrun)
    ));
}

/// `DelayNs` is executed inline and never produces a bus transfer.
#[test]
fn delay_is_executed_without_transfer() {
    let (mut txr, log) = rig(16);

    txr.transaction(&mut [Operation::DelayNs(1_000)]).unwrap();

    let log = log.borrow();
    assert_eq!(log.delays, vec![1_000]);
    assert!(log.transfers.is_empty());
}

#[test]
fn header_spells_block_and_direction() {
    let addr = Address {
        address: 0x0228,
        block: BlockSelectionBits::Socket3Register,
    };
    assert_eq!(create_header(&addr, false), [0x02, 0x28, 0b011_01 << 3]);
    assert_eq!(create_header(&addr, true), [0x02, 0x28, (0b011_01 << 3) | 0b100]);
    let last = Address {
        address: 0xFFFF,
        block: BlockSelectionBits::Socket7RxBuffer,
    };
    assert_eq!(create_header(&last, true), [0xFF, 0xFF, 0xFC]);
}

#[test]
fn wide_values_are_big_endian() {
    let (mut txr, log) = rig(16);
    txr.write_u8(&ADDR, 0x11).unwrap();
    txr.write_u16(&ADDR, 0x1122).unwrap();
    txr.write_u32(&ADDR, 0x11223344).unwrap();
    assert_eq!(txr.read_u8(&ADDR).unwrap(), 3);
    assert_eq!(txr.read_u32(&ADDR).unwrap(), 0x03040506);
    let log = log.borrow();
    assert_eq!(&log.transfers[0][3..], &[0x11]);
    assert_eq!(&log.transfers[1][3..], &[0x11, 0x22]);
    assert_eq!(&log.transfers[2][3..], &[0x11, 0x22, 0x33, 0x44]);
}

#[test]
fn broken_transfer_is_reported_and_the_bus_stays_usable() {
    let (mut txr, log) = rig(16);
    log.borrow_mut().broken = true;
    let mut buf = [7u8; 2];
    assert_eq!(
        txr.read(&ADDR, &mut buf),
        Err(Error::Other(DriverError::SpiError))
    );
    assert_eq!(buf, [7, 7]);
    assert_eq!(
        txr.start_read(&ADDR, 2),
        Err(Error::Other(DriverError::SpiError))
    );
    log.borrow_mut().broken = false;
    assert_eq!(txr.read_u8(&ADDR), Ok(3));
}

/// A delay in the middle of a batch parts the transfers around it.
#[test]
fn delay_parts_a_batch() {
    let (mut txr, log) = rig(16);
    let mut a = [0u8; 1];
    txr.transaction(&mut [
        Operation::Write(&[1]),
        Operation::DelayNs(5),
        Operation::Read(&mut a),
    ])
    .unwrap();
    assert_eq!(a, [0]);
    assert_eq!(log.borrow().transfers.len(), 2);
    assert_eq!(log.borrow().delays, vec![5]);
}

#[test]
fn full_duplex_operations_swap_bytes() {
    let (mut txr, log) = rig(16);
    let mut a = [0u8; 2];
    let mut b = [8u8, 9];
    txr.transaction(&mut [
        Operation::Transfer(&mut a, &[5, 6]),
        Operation::TransferInPlace(&mut b),
    ])
    .unwrap();
    assert_eq!(a, [0, 1]);
    assert_eq!(b, [2, 3]);
    assert_eq!(log.borrow().transfers, vec![vec![5, 6, 8, 9]]);
}

/// While a transfer is on its way every other access would have to wait, and its
/// end gives the payload that it captured.
#[test]
fn started_transfer_owns_the_bus() {
    let (mut txr, log) = rig(16);
    assert_eq!(txr.start_read(&ADDR, 2), Ok(()));
    assert_eq!(txr.read_u8(&ADDR), Err(Error::WouldBlock));
    assert_eq!(txr.start_read(&ADDR, 1), Err(Error::WouldBlock));
    assert_eq!(log.borrow().transfers.len(), 1);
    assert_eq!(log.borrow().transfers[0], vec![0x12, 0x34, 0, 0, 0]);
    assert_eq!(txr.finish_read(), Some(&[3u8, 4][..]));
    assert_eq!(txr.finish_read(), None);
    assert_eq!(txr.read_u8(&ADDR), Ok(3));
}

#[test]
fn aborted_transfer_frees_the_bus() {
    let (mut txr, _log) = rig(16);
    assert_eq!(txr.start_read(&ADDR, 2), Ok(()));
    txr.abort();
    assert_eq!(txr.finish_read(), None);
    assert_eq!(txr.read_u8(&ADDR), Ok(3));
}

#[test]
fn started_write_takes_the_oldest_bytes() {
    let (mut txr, log) = rig(8);
    let mut ring = SpscRing::new();
    ring.install(leak(8));
    ring.write(&[1, 2, 3, 4]);
    assert_eq!(
        txr.start_write(&ADDR, &mut ring, 6),
        Err(Error::Other(DriverError::ScratchBufferOverrun))
    );
    assert_eq!(ring.len(), 4, "nothing is taken for a transfer that does not fit");
    assert_eq!(txr.start_write(&ADDR, &mut ring, 3), Ok(()));
    assert_eq!(ring.len(), 1);
    assert_eq!(log.borrow().transfers[0], vec![0x12, 0x34, 0b100, 1, 2, 3]);
    assert_eq!(txr.start_write(&ADDR, &mut ring, 1), Err(Error::WouldBlock));
    assert_eq!(ring.len(), 1);
    assert!(txr.finish_write());
    assert!(!txr.finish_write());
}

/// With the output wired to the input, a read gives back what went out for it:
/// the zeros of a started read, or the data of a full-duplex operation.
#[test]
fn loopback_gives_back_what_goes_out() {
    let scratch = DmaBuffers {
        rx: leak(16),
        tx: leak(16),
        len: 0,
    };
    let mut txr = Transceiver::new(Loopback::new(), scratch);
    let mut a = [0x5Au8, 0xA5, 0x3C];
    txr.transaction(&mut [Operation::TransferInPlace(&mut a)])
        .unwrap();
    assert_eq!(a, [0x5A, 0xA5, 0x3C]);
    let mut b = [0u8; 2];
    txr.transaction(&mut [Operation::Transfer(&mut b, &[1, 2])])
        .unwrap();
    assert_eq!(b, [1, 2]);
    txr.start_read(&ADDR, 3).unwrap();
    assert_eq!(txr.finish_read(), Some(&[0u8, 0, 0][..]));
    txr.delay(10).unwrap();
}
