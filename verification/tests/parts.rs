//! The small parts: cells, rings, frames, registers and single SPI operations.

use wiznet_rs::atomic_cell::{
    AtomicCell, AtomicError, AtomicLock, AtomicMutLock, AtomicRefCell, MutAtomicCellGuard,
};
use wiznet_rs::bytes::{u16_from_be, u16_to_be, u32_from_be, u32_to_be};
use wiznet_rs::error::Error;
use wiznet_rs::frame::{frame_header, parse_frame_header, put_frame, take_frame, SocketAddr};
use wiznet_rs::ring_buffer::RingBuffer;
use wiznet_rs::socket::{advance, BackendState, SocketBackend, SocketStatus};
use wiznet_rs::socket_common::{
    SocketCommand, SocketInterrupt, SocketProtocolMode, IR_ALL, IR_CON, IR_DISCON, IR_TIMEOUT,
};
use wiznet_rs::spi_ops::{collect_op, delay_cycles, stage_op};
use wiznet_rs::spsc_ring::SpscRing;
use wiznet_rs::tcp_socket::TcpSocketState;
use wiznet_rs::address::{BlockAddress, BlockSelectionBits};
use wiznet_rs::batch::Operation;
use wiznet_rs::udp_socket::{parse_packet_header, UdpSocketState};

fn leak(n: usize) -> &'static mut [u8] {
    vec![0u8; n].leak()
}

#[test]
fn cell_is_free_once_the_guard_is_gone() {
    let mut cell = AtomicCell::new(5u32);
    {
        let mut guard = cell.lock_mut().unwrap();
        *guard.as_mut() += 1;
        assert_eq!(*guard.as_ref(), 6);
    }
    assert_eq!(*cell.lock().unwrap().as_ref(), 6);
    assert!(cell.lock_mut().is_ok());
}

#[test]
fn claimed_cell_is_busy() {
    let mut cell = AtomicCell::new(5u32);
    assert_eq!(cell.try_lock_internal(), Ok(()));
    assert!(matches!(cell.lock_mut(), Err(AtomicError::Busy)));
    assert!(matches!(cell.lock(), Err(AtomicError::Busy)));
    assert_eq!(cell.try_lock_internal(), Err(AtomicError::Busy));
    cell.release();
    assert_eq!(*cell.lock().unwrap().as_ref(), 5);
}

#[test]
fn guards_can_be_narrowed() {
    let mut cell = AtomicCell::new((1u8, 2u16));
    {
        let guard: MutAtomicCellGuard<(u8, u16)> = cell.lock_mut().unwrap();
        let mut second = guard.map(|pair| &mut pair.1);
        *second.as_mut() = 9;
    }
    let guard = cell.lock().unwrap();
    let second = guard.map(|pair| &pair.1);
    assert_eq!(*second.as_ref(), 9);
    assert!(cell.lock_mut().is_ok());
}

#[test]
fn cells_around_borrowed_values() {
    let mut value = 3u8;
    {
        let mut cell = AtomicRefCell::new(&mut value);
        *cell.lock_mut().unwrap().as_mut() = 4;
        assert_eq!(*cell.lock().unwrap().as_ref(), 4);
        assert_eq!(cell.try_lock_internal(), Ok(()));
        assert!(matches!(cell.lock(), Err(AtomicError::Busy)));
        assert!(matches!(cell.lock_mut(), Err(AtomicError::Busy)));
    }
    assert_eq!(value, 4);
    let mut shared = AtomicRefCell::new(&value);
    assert_eq!(*shared.lock().unwrap().as_ref(), 4);
    assert_eq!(shared.try_lock_internal(), Ok(()));
    assert!(matches!(shared.lock(), Err(AtomicError::Busy)));
    shared.release();
    assert!(shared.lock().is_ok());
}

#[test]
fn busy_means_try_again() {
    assert_eq!(Error::from(AtomicError::Busy), Error::WouldBlock);
}

#[test]
fn ring_buffer_runs_end_at_the_seam() {
    let mut buf = [0u8; 8];
    let mut ring = RingBuffer::new(&mut buf);
    assert_eq!((ring.capacity(), ring.len(), ring.free()), (8, 0, 8));
    ring.writable()[..6].copy_from_slice(&[1, 2, 3, 4, 5, 6]);
    ring.advance_write(6);
    assert_eq!(ring.readable(), &[1, 2, 3, 4, 5, 6]);
    ring.advance_read(4);
    assert_eq!(ring.writable().len(), 2);
    assert_eq!(ring.write(&[7, 8, 9, 10]), 4);
    assert_eq!(ring.readable(), &[5, 6, 7, 8]);
    let mut out = [0u8; 8];
    assert_eq!(ring.peek(&mut out), 6);
    assert_eq!(ring.read(&mut out), 6);
    assert_eq!(&out[..6], &[5, 6, 7, 8, 9, 10]);
    assert_eq!(ring.readable().len(), 0);
}

#[test]
fn two_passes_fill_and_drain_a_ring_buffer() {
    let mut buf = [0u8; 8];
    let mut ring = RingBuffer::new(&mut buf);
    ring.advance_write(5);
    ring.advance_read(5);
    let first = ring.writable().len();
    assert_eq!(first, 3);
    ring.advance_write(first);
    let second = ring.writable().len();
    assert_eq!(second, ring.free());
    ring.advance_write(second);
    assert_eq!(ring.free(), 0);

    let first = ring.readable().len();
    assert_eq!(first, 3);
    ring.advance_read(first);
    assert_eq!(ring.readable().len(), ring.len());
    ring.advance_read(ring.readable().len());
    assert_eq!(ring.len(), 0);
}

#[test]
fn nothing_is_discarded_from_nothing() {
    let mut ring = RingBuffer::new(&mut []);
    ring.advance_read(0);
    assert_eq!((ring.len(), ring.capacity()), (0, 0));
}

#[test]
fn big_endian_both_ways() {
    assert_eq!(u16_to_be(0x1234), [0x12, 0x34]);
    assert_eq!(u16_from_be(0x12, 0x34), 0x1234);
    assert_eq!(u32_to_be(0xC0A80A01), [192, 168, 10, 1]);
    assert_eq!(u32_from_be(192, 168, 10, 1), 0xC0A80A01);
}

#[test]
fn frame_header_round_trips() {
    let addr = SocketAddr {
        ip: 0xC0A80A01,
        port: 5555,
    };
    let h = frame_header(1500, addr);
    assert_eq!(h, [0x05, 0xDC, 192, 168, 10, 1, 0x15, 0xB3]);
    assert_eq!(parse_frame_header(&h), (1500, addr));
    let h = [0xFF, 0xFE, 192, 168, 1, 2, 0x80, 0x01];
    let (len, addr) = parse_frame_header(&h);
    assert_eq!(frame_header(len as u16, addr), h);
}

#[test]
fn frames_stay_whole() {
    let a = SocketAddr { ip: 1, port: 2 };
    let b = SocketAddr { ip: 3, port: 4 };
    let mut ring = SpscRing::new();
    ring.install(leak(24));
    assert!(put_frame(&mut ring, a, &[1, 2, 3]));
    assert!(put_frame(&mut ring, b, &[4]));
    assert!(!put_frame(&mut ring, b, &[]), "20 of 24 bytes are taken");
    let mut out = [0u8; 8];
    assert_eq!(take_frame(&mut ring, &mut out), Some((3, a)));
    assert_eq!(&out[..3], &[1, 2, 3]);
    assert_eq!(take_frame(&mut ring, &mut out), Some((1, b)));
    assert_eq!(out[0], 4);
    assert_eq!(take_frame(&mut ring, &mut out), None);
}

#[test]
fn torn_frame_is_left_alone() {
    let mut ring = SpscRing::new();
    ring.install(leak(24));
    ring.write(&frame_header(4, SocketAddr { ip: 1, port: 2 }));
    ring.write(&[1, 2]);
    let mut out = [0u8; 8];
    assert_eq!(take_frame(&mut ring, &mut out), None, "not committed");
    ring.commit_frame();
    assert_eq!(take_frame(&mut ring, &mut out), None, "not complete");
    assert_eq!(ring.len(), 10);
    ring.write(&[3, 4]);
    assert!(take_frame(&mut ring, &mut out).is_some());
}

#[test]
fn packet_header_masks_its_flags() {
    let (len, peer) = parse_packet_header(&[0xFF, 0xFF, 10, 0, 0, 1, 0x12, 0x34]);
    assert_eq!(len, 0x07FF);
    assert_eq!(
        peer,
        SocketAddr {
            ip: 0x0A000001,
            port: 0x1234
        }
    );
    assert_eq!(parse_packet_header(&[0xF8, 0x05, 0, 0, 0, 0, 0, 0]).0, 5);
}

#[test]
fn pointers_wrap() {
    assert_eq!(advance(0xFFFF, 1), 0);
    assert_eq!(advance(0xFFF0, 0x20), 0x10);
    assert_eq!(advance(7, 0x1_0000), 7);
    assert_eq!(advance(advance(0xFFFF, 5), 6), advance(0xFFFF, 11));
}

#[test]
fn register_codes() {
    assert_eq!(SocketProtocolMode::Closed.bits(), 0b0000);
    assert_eq!(SocketProtocolMode::Tcp4.bits(), 0b0001);
    assert_eq!(SocketProtocolMode::Udp4.bits(), 0b0010);
    assert_eq!(SocketCommand::Open.code(), 0x01);
    assert_eq!(SocketCommand::Listen.code(), 0x02);
    assert_eq!(SocketCommand::Connect.code(), 0x04);
    assert_eq!(SocketCommand::Disconnect.code(), 0x08);
    assert_eq!(SocketCommand::Close.code(), 0x10);
    assert_eq!(SocketCommand::Send.code(), 0x20);
    assert_eq!(SocketCommand::Receive.code(), 0x40);
    assert_eq!(BlockSelectionBits::CommonRegister.bits(), 0);
    assert_eq!(BlockSelectionBits::Socket5TxBuffer.bits(), 0b101_10);
}

#[test]
fn interrupt_sets() {
    let set = SocketInterrupt::from_bits_truncate(0b1110_1010);
    assert_eq!(set.bits, 0b0_1010);
    assert!(set.contains(IR_TIMEOUT));
    assert!(set.contains(IR_DISCON));
    assert!(!set.contains(IR_CON));
    assert!(!set.contains(IR_ALL));
}

#[test]
fn single_operations_are_staged_and_collected() {
    let mut tx = [9u8; 6];
    let mut buf = [7u8; 2];
    assert_eq!(stage_op(&Operation::Read(&mut buf), &mut tx), 2);
    assert_eq!(tx, [0, 0, 9, 9, 9, 9]);
    assert_eq!(stage_op(&Operation::Write(&[1, 2, 3]), &mut tx), 3);
    assert_eq!(tx, [1, 2, 3, 9, 9, 9]);
    let mut read = [0u8; 4];
    let mut op = Operation::Transfer(&mut read, &[5]);
    assert_eq!(stage_op(&op, &mut tx), 4, "the longer of the two");
    assert_eq!(tx, [5, 0, 0, 0, 9, 9]);
    collect_op(&mut op, &[1, 2, 3, 4, 5, 6]);
    assert_eq!(read, [1, 2, 3, 4]);
    let mut both = [6u8, 7];
    let mut op = Operation::TransferInPlace(&mut both);
    assert_eq!(stage_op(&op, &mut tx), 2);
    assert_eq!(tx[..2], [6, 7]);
    collect_op(&mut op, &[8, 9, 10]);
    assert_eq!(both, [8, 9]);
    assert_eq!(stage_op(&Operation::DelayNs(5), &mut tx), 0);
}

#[test]
fn delays_in_cycles() {
    assert_eq!(delay_cycles(1_000_000, 24_000_000), 24_000);
    assert_eq!(delay_cycles(1, 24_000_000), 1, "never none");
    assert_eq!(delay_cycles(0, 24_000_000), 1);
    assert_eq!(delay_cycles(u32::MAX, u32::MAX), 1266874881);
}

#[test]
fn slots_are_claimed_released_and_told_apart() {
    let block = BlockAddress {
        reg: BlockSelectionBits::Socket0Register,
        tx: BlockSelectionBits::Socket0TxBuffer,
        rx: BlockSelectionBits::Socket0RxBuffer,
    };
    let mut backend = SocketBackend::new(block);
    assert!(backend.is_free());
    assert!(backend.is_terminal());
    assert!(backend.claim_tcp(TcpSocketState::listen(80)));
    assert!(!backend.claim_tcp(TcpSocketState::listen(81)));
    assert!(!backend.claim_udp(UdpSocketState::bind(81)));
    assert!(backend.as_udp_mut().is_none());
    backend.as_tcp_mut().unwrap().status = SocketStatus::Timeout;
    assert!(backend.is_terminal());
    backend.request_release();
    assert!(backend.release_requested);
    assert!(matches!(backend.state, BackendState::Tcp(tcp) if tcp.close_requested));
    assert_eq!(backend.block(), block);
}

#[test]
fn kept_error_is_shown_until_rearmed() {
    let mut tcp = TcpSocketState::connect(1, 2, 3);
    assert_eq!(tcp.status(), SocketStatus::Init);
    tcp.status = SocketStatus::Established;
    tcp.pending_error = Some(Error::WouldBlock);
    assert_eq!(tcp.status(), SocketStatus::Error);
    assert!(!tcp.is_closed());
    tcp.request_close();
    tcp.rearm();
    assert_eq!(tcp, TcpSocketState::connect(1, 2, 3));

    let mut udp = UdpSocketState::bind(9);
    udp.status = SocketStatus::Error;
    assert!(udp.is_closed());
    udp.request_close();
    udp.rearm();
    assert_eq!(udp, UdpSocketState::bind(9));
}
