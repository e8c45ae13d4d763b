//! The TCP and UDP state machines and the chip around them, against a model of
//! the chip whose registers the tests set by hand.

use std::cell::RefCell;
use std::collections::HashMap;
use std::rc::Rc;

use wiznet_rs::error::{DriverError, Error};
use wiznet_rs::frame::SocketAddr;
use wiznet_rs::socket::SocketStatus;
use wiznet_rs::spi_dma::{Completion, DmaBuffers, SpiDmaDevice, SpiDmaTransaction};
use wiznet_rs::w6100::{NetworkConfig, Serviced, W6100};

const SN_CR: u16 = 0x0010;
const SN_IR: u16 = 0x0020;
const SN_SR: u16 = 0x0030;
const SN_PORT: u16 = 0x0114;
const SN_DIP: u16 = 0x0120;
const SN_DPORT: u16 = 0x0140;
const SN_TX_FSR: u16 = 0x0204;
const SN_TX_WR: u16 = 0x020C;
const SN_RX_RSR: u16 = 0x0224;
const SN_RX_RD: u16 = 0x0228;
const PHYSR: u16 = 0x3000;

const SR_CLOSED: u8 = 0x00;
const SR_INIT: u8 = 0x13;
const SR_LISTEN: u8 = 0x14;
const SR_SYNSENT: u8 = 0x15;
const SR_ESTABLISHED: u8 = 0x17;
const SR_CLOSE_WAIT: u8 = 0x1C;
const SR_UDP: u8 = 0x22;

/// One write that the chip saw: block code, address, data.
type Written = (u8, u16, Vec<u8>);

/// Registers read back what was set; buffers are flat memory.
#[derive(Default)]
struct Model {
    regs: HashMap<(u8, u16), u8>,
    writes: Vec<Written>,
    frames: usize,
    broken: bool,
    delays: Vec<u32>,
}

impl Model {
    fn set8(&mut self, block: u8, at: u16, v: u8) {
        self.regs.insert((block, at), v);
    }

    fn set16(&mut self, block: u8, at: u16, v: u16) {
        let b = v.to_be_bytes();
        self.set8(block, at, b[0]);
        self.set8(block, at + 1, b[1]);
    }

    fn put(&mut self, block: u8, at: u16, data: &[u8]) {
        for (i, b) in data.iter().enumerate() {
            self.set8(block, at.wrapping_add(i as u16), *b);
        }
    }
}

struct Spi {
    model: Rc<RefCell<Model>>,
}

struct Transfer {
    dev: Spi,
    buffers: DmaBuffers,
}

impl SpiDmaTransaction<Spi> for Transfer {
    fn wait(self) -> (Spi, DmaBuffers) {
        (self.dev, self.buffers)
    }
}

impl SpiDmaDevice for Spi {
    type Error = ();
    type Transaction = Transfer;

    fn delay_ns(&mut self, ns: u32) {
        self.model.borrow_mut().delays.push(ns);
    }

    fn transceive(
        self,
        buffers: DmaBuffers,
        _completion: Completion,
    ) -> Result<Transfer, ((), Spi, DmaBuffers)> {
        let DmaBuffers { rx, tx, len } = buffers;
        if self.model.borrow().broken {
            return Err(((), self, DmaBuffers { rx, tx, len }));
        }
        {
            let mut m = self.model.borrow_mut();
            m.frames += 1;
            let at = u16::from_be_bytes([tx[0], tx[1]]);
            let block = tx[2] >> 3;
            if tx[2] & 0b100 != 0 {
                m.writes.push((block, at, tx[3..len].to_vec()));
                // The command register clears itself.
                if at != SN_CR || block & 0b11 != 0b01 {
                    let data = tx[3..len].to_vec();
                    m.put(block, at, &data);
                }
            } else {
                for i in 3..len {
                    let key = (block, at.wrapping_add(i as u16 - 3));
                    rx[i] = *m.regs.get(&key).unwrap_or(&0);
                }
            }
        }
        Ok(Transfer {
            dev: self,
            buffers: DmaBuffers { rx, tx, len },
        })
    }
}

fn leak(n: usize) -> &'static mut [u8] {
    vec![0u8; n].leak()
}

fn reg(sock: u8) -> u8 {
    sock << 2 | 0b01
}

fn txb(sock: u8) -> u8 {
    sock << 2 | 0b10
}

fn rxb(sock: u8) -> u8 {
    sock << 2 | 0b11
}

fn rig_with(scratch: usize) -> (W6100<'static, Spi>, Rc<RefCell<Model>>) {
    let model = Rc::new(RefCell::new(Model::default()));
    {
        let mut m = model.borrow_mut();
        m.set16(0, 0x0000, 0x6100);
        m.set16(0, 0x0002, 0x4661);
        m.set8(0, PHYSR, 0x01);
    }
    let buffers = DmaBuffers {
        rx: leak(scratch),
        tx: leak(scratch),
        len: 0,
    };
    let chip = W6100::new(
        Spi {
            model: model.clone(),
        },
        buffers,
        [1, 2, 3, 4, 5, 6],
    );
    (chip, model)
}

fn rig() -> (W6100<'static, Spi>, Rc<RefCell<Model>>) {
    rig_with(515)
}

/// The writes since the last look.
fn writes(model: &Rc<RefCell<Model>>) -> Vec<Written> {
    std::mem::take(&mut model.borrow_mut().writes)
}

fn set_sr(model: &Rc<RefCell<Model>>, sock: u8, sr: u8) {
    model.borrow_mut().set8(reg(sock), SN_SR, sr);
}

/// Bring a listening socket to `Established` and forget the writes so far.
fn established(
    rx: usize,
    tx: usize,
) -> (
    W6100<'static, Spi>,
    Rc<RefCell<Model>>,
    wiznet_rs::tcp_socket::TcpSocket,
) {
    let (mut chip, model) = rig();
    let sock = chip.open_tcp_listen(80, leak(rx), leak(tx)).unwrap();
    chip.run().unwrap();
    set_sr(&model, 0, SR_INIT);
    chip.run().unwrap();
    set_sr(&model, 0, SR_ESTABLISHED);
    chip.run().unwrap();
    assert_eq!(sock.status(&mut chip), Ok(SocketStatus::Established));
    writes(&model);
    (chip, model, sock)
}

// --- reset and link ---------------------------------------------------------

#[test]
fn reset_identifies_closes_and_enables() {
    let (mut chip, model) = rig();
    assert_eq!(chip.begin_reset(true), Ok(()));
    assert_eq!(model.borrow().delays, vec![1_000_000]);
    assert_eq!(chip.reset(true), Ok(()));
    let w = writes(&model);
    assert_eq!(w.len(), 8 * 3 + 4);
    assert_eq!(w[0], (reg(0), 0x0000, vec![0x00]));
    assert_eq!(w[1], (reg(0), 0x0028, vec![0xFF]));
    assert_eq!(w[2], (reg(0), 0x0024, vec![0xFF]));
    assert_eq!(w[21], (reg(7), 0x0000, vec![0x00]));
    assert_eq!(w[24], (0, 0x41F4, vec![0xCE]));
    assert_eq!(w[25], (0, 0x2005, vec![0b1000_0000]));
    assert_eq!(w[26], (0, 0x41F4, vec![0x00]));
    assert_eq!(w[27], (0, 0x2114, vec![0xFF]));
}

#[test]
fn reset_reports_the_reset_line() {
    let (mut chip, model) = rig();
    assert_eq!(
        chip.begin_reset(false),
        Err(Error::Other(DriverError::PinError))
    );
    assert_eq!(chip.reset(false), Err(Error::Other(DriverError::PinError)));
    assert_eq!(model.borrow().frames, 0);
}

#[test]
fn reset_rejects_another_chip() {
    let (mut chip, model) = rig();
    model.borrow_mut().set16(0, 0x0000, 0x5100);
    assert_eq!(
        chip.reset(true),
        Err(Error::Other(DriverError::UnexpectedResponse))
    );
    assert_eq!(model.borrow().frames, 1);
    model.borrow_mut().set16(0, 0x0000, 0x6100);
    model.borrow_mut().set16(0, 0x0002, 0x4662);
    assert_eq!(
        chip.reset(true),
        Err(Error::Other(DriverError::UnexpectedResponse))
    );
    assert_eq!(model.borrow().frames, 3);
}

#[test]
fn broken_bus_is_reported() {
    let (mut chip, model) = rig();
    model.borrow_mut().broken = true;
    assert_eq!(chip.reset(true), Err(Error::Other(DriverError::SpiError)));
    assert_eq!(chip.is_link_up(), Err(Error::Other(DriverError::SpiError)));
    assert_eq!(chip.service(), Err(Error::Other(DriverError::SpiError)));
    assert_eq!(
        chip.setup_network(1, 2, 3),
        Err(Error::Other(DriverError::SpiError))
    );
}

#[test]
fn link_needs_cable_and_link() {
    let (mut chip, model) = rig();
    for (status, up) in [(0x01, true), (0x00, false), (0x81, false), (0x80, false), (0x3F, true)] {
        model.borrow_mut().set8(0, PHYSR, status);
        assert_eq!(chip.is_link_up(), Ok(up), "{status:#x}");
    }
}

#[test]
fn network_settings_are_written_between_unlock_and_lock() {
    let (mut chip, model) = rig();
    chip.setup_network(0xC0A80A0A, 0xC0A80A01, 0xFFFFFF00).unwrap();
    assert_eq!(
        writes(&model),
        vec![
            (0, 0x41F5, vec![0x3A]),
            (0, 0x4120, vec![1, 2, 3, 4, 5, 6]),
            (0, 0x4138, vec![0xC0, 0xA8, 0x0A, 0x0A]),
            (0, 0x4130, vec![0xC0, 0xA8, 0x0A, 0x01]),
            (0, 0x4134, vec![0xFF, 0xFF, 0xFF, 0x00]),
            (0, 0x41F5, vec![0xC5]),
        ]
    );
}

#[test]
fn settings_wait_for_the_link_and_come_back_after_a_loss() {
    let (mut chip, model) = rig();
    let config = NetworkConfig {
        ip: 1,
        gateway: 2,
        subnet: 3,
    };
    assert_eq!(chip.network_config(), None);
    assert_eq!(chip.set_network_config(config), Ok(()));
    assert_eq!(chip.network_config(), Some(config));

    // No link yet: nothing but the poll.
    model.borrow_mut().set8(0, PHYSR, 0x00);
    assert_eq!(chip.service(), Ok(Serviced::Done));
    assert!(!chip.link_up());
    assert!(writes(&model).is_empty());

    // Link: applied once.
    model.borrow_mut().set8(0, PHYSR, 0x01);
    assert_eq!(chip.service(), Ok(Serviced::Done));
    assert!(chip.link_up());
    assert_eq!(writes(&model).len(), 6);
    assert_eq!(chip.service(), Ok(Serviced::Done));
    assert!(writes(&model).is_empty());

    // The loss is reported once, and the reset makes the settings pending.
    model.borrow_mut().set8(0, PHYSR, 0x80);
    assert_eq!(chip.service(), Ok(Serviced::LinkLost));
    assert_eq!(chip.service(), Ok(Serviced::Done));
    chip.begin_reset(true).unwrap();
    chip.reset_after_link_loss(true).unwrap();
    writes(&model);
    model.borrow_mut().set8(0, PHYSR, 0x01);
    assert_eq!(chip.service(), Ok(Serviced::Done));
    assert_eq!(writes(&model).len(), 6);
}

#[test]
fn failed_reset_leaves_the_settings_alone() {
    let (mut chip, model) = rig();
    model.borrow_mut().broken = true;
    assert_eq!(
        chip.reset_after_link_loss(true),
        Err(Error::Other(DriverError::SpiError))
    );
    assert_eq!(
        chip.reset_after_link_loss(false),
        Err(Error::Other(DriverError::PinError))
    );
    model.borrow_mut().broken = false;
    chip.service().unwrap();
    assert!(writes(&model).is_empty());
}

// --- opening sockets ----------------------------------------------------------

#[test]
fn eight_sockets_and_no_more() {
    let (mut chip, model) = rig();
    let mut handles = Vec::new();
    for i in 0..8u16 {
        handles.push(chip.open_tcp_listen(i, leak(4), leak(4)).unwrap());
    }
    assert!(matches!(
        chip.open_tcp_listen(9, leak(4), leak(4)),
        Err(Error::WouldBlock)
    ));
    assert!(matches!(chip.open_udp(9, leak(4), leak(4)), Err(Error::WouldBlock)));
    assert!(matches!(
        chip.open_tcp_connect(1, 2, 3, leak(4), leak(4)),
        Err(Error::WouldBlock)
    ));
    // Every socket is set up with its own port on its own block.
    chip.run().unwrap();
    let w = writes(&model);
    for i in 0..8u8 {
        assert!(w.contains(&(reg(i), SN_PORT, vec![0, i])));
        assert!(w.contains(&(reg(i), SN_CR, vec![0x01])));
    }
}

#[test]
fn given_back_socket_is_reused() {
    let (mut chip, model) = rig();
    let a = chip.open_tcp_listen(1, leak(4), leak(4)).unwrap();
    let b = chip.open_tcp_listen(2, leak(4), leak(4)).unwrap();
    chip.run().unwrap();
    a.release(&mut chip);
    // The release closes the socket on the chip first.
    writes(&model);
    chip.run().unwrap();
    assert!(writes(&model).contains(&(reg(0), SN_CR, vec![0x10])));
    chip.run().unwrap();
    let c = chip.open_udp(3, leak(4), leak(4)).unwrap();
    assert_eq!(c.status(&mut chip), Ok(SocketStatus::Init));
    assert_eq!(b.status(&mut chip), Ok(SocketStatus::Opening));
}

#[test]
fn given_back_socket_is_freed_by_a_reset() {
    let (mut chip, _model) = rig();
    let a = chip.open_tcp_listen(1, leak(4), leak(4)).unwrap();
    a.release(&mut chip);
    chip.reset(true).unwrap();
    for _ in 0..8 {
        chip.open_tcp_listen(1, leak(4), leak(4)).unwrap();
    }
}

// --- TCP ------------------------------------------------------------------------

#[test]
fn outgoing_connection_comes_up() {
    let (mut chip, model) = rig();
    let sock = chip
        .open_tcp_connect(0x0A000001, 5555, 50000, leak(8), leak(8))
        .unwrap();
    chip.run().unwrap();
    assert_eq!(
        writes(&model),
        vec![
            (reg(0), 0x0000, vec![0b0001]),
            (reg(0), 0x0028, vec![0xFF]),
            (reg(0), 0x0024, vec![0xFF]),
            (reg(0), SN_PORT, 50000u16.to_be_bytes().to_vec()),
            (reg(0), SN_CR, vec![0x01]),
        ]
    );
    assert_eq!(sock.status(&mut chip), Ok(SocketStatus::Opening));
    // The status register may lag: keep waiting.
    chip.run().unwrap();
    assert_eq!(sock.status(&mut chip), Ok(SocketStatus::Opening));
    assert!(writes(&model).is_empty());

    set_sr(&model, 0, SR_INIT);
    chip.run().unwrap();
    assert_eq!(
        writes(&model),
        vec![
            (reg(0), SN_DIP, vec![10, 0, 0, 1]),
            (reg(0), SN_DPORT, 5555u16.to_be_bytes().to_vec()),
            (reg(0), SN_CR, vec![0x04]),
        ]
    );
    assert_eq!(sock.status(&mut chip), Ok(SocketStatus::Connecting));
    set_sr(&model, 0, SR_SYNSENT);
    chip.run().unwrap();
    assert_eq!(sock.status(&mut chip), Ok(SocketStatus::Connecting));
    set_sr(&model, 0, SR_ESTABLISHED);
    chip.run().unwrap();
    assert_eq!(sock.status(&mut chip), Ok(SocketStatus::Established));
    assert_eq!(writes(&model), vec![(reg(0), 0x0028, vec![0x01])]);
}

#[test]
fn pending_command_is_waited_for() {
    let (mut chip, model) = rig();
    let sock = chip.open_tcp_listen(80, leak(8), leak(8)).unwrap();
    chip.run().unwrap();
    model.borrow_mut().set8(reg(0), SN_CR, 0x01);
    set_sr(&model, 0, SR_INIT);
    chip.run().unwrap();
    assert_eq!(sock.status(&mut chip), Ok(SocketStatus::Opening));
    model.borrow_mut().set8(reg(0), SN_CR, 0x00);
    chip.run().unwrap();
    assert_eq!(sock.status(&mut chip), Ok(SocketStatus::Listening));
    set_sr(&model, 0, SR_LISTEN);
    chip.run().unwrap();
    assert_eq!(sock.status(&mut chip), Ok(SocketStatus::Listening));
}

#[test]
fn connect_timeout_is_reported_as_timeout() {
    let (mut chip, model) = rig();
    let sock = chip
        .open_tcp_connect(1, 2, 3, leak(8), leak(8))
        .unwrap();
    chip.run().unwrap();
    set_sr(&model, 0, SR_INIT);
    chip.run().unwrap();
    writes(&model);
    model.borrow_mut().set8(reg(0), SN_IR, 0b0_1000);
    chip.run().unwrap();
    assert_eq!(sock.status(&mut chip), Ok(SocketStatus::ClosingDueToTimeout));
    assert_eq!(
        writes(&model),
        vec![
            (reg(0), 0x0028, vec![0b0_1000]),
            (reg(0), SN_CR, vec![0x10]),
        ]
    );
    // Not closed yet.
    chip.run().unwrap();
    assert_eq!(sock.status(&mut chip), Ok(SocketStatus::ClosingDueToTimeout));
    set_sr(&model, 0, SR_CLOSED);
    chip.run().unwrap();
    assert_eq!(sock.status(&mut chip), Ok(SocketStatus::Timeout));
}

#[test]
fn refused_connection_is_closed() {
    let (mut chip, model) = rig();
    let sock = chip
        .open_tcp_connect(1, 2, 3, leak(8), leak(8))
        .unwrap();
    chip.run().unwrap();
    set_sr(&model, 0, SR_INIT);
    chip.run().unwrap();
    set_sr(&model, 0, SR_CLOSED);
    chip.run().unwrap();
    assert_eq!(sock.status(&mut chip), Ok(SocketStatus::Closed));
}

#[test]
fn unexpected_state_shows_an_error_until_reconnect() {
    let (mut chip, model) = rig();
    let sock = chip.open_tcp_listen(80, leak(8), leak(8)).unwrap();
    chip.run().unwrap();
    set_sr(&model, 0, SR_UDP);
    writes(&model);
    assert_eq!(chip.run(), Ok(()));
    assert_eq!(sock.status(&mut chip), Ok(SocketStatus::Error));
    assert_eq!(writes(&model), vec![(reg(0), SN_CR, vec![0x10])]);
    sock.write(&mut chip, &[1, 2]).unwrap();
    sock.reconnect(&mut chip).unwrap();
    assert_eq!(sock.status(&mut chip), Ok(SocketStatus::Init));
    assert_eq!(sock.write(&mut chip, &[0; 20]), Ok(8), "rings are empty again");
}

#[test]
fn received_bytes_reach_the_reader() {
    let (mut chip, model, sock) = established(8, 8);
    {
        let mut m = model.borrow_mut();
        m.set16(reg(0), SN_RX_RSR, 5);
        m.set16(reg(0), SN_RX_RD, 0xFFFE);
        m.put(rxb(0), 0xFFFE, &[1, 2, 3, 4, 5]);
    }
    chip.run().unwrap();
    let mut out = [0u8; 8];
    assert_eq!(sock.read(&mut chip, &mut out), Ok(0), "still on its way");
    model.borrow_mut().set16(reg(0), SN_RX_RSR, 0);
    assert!(writes(&model).is_empty());
    chip.dma_complete().unwrap();
    // The read pointer wraps past what was taken.
    assert_eq!(
        writes(&model),
        vec![
            (reg(0), SN_RX_RD, vec![0x00, 0x03]),
            (reg(0), SN_CR, vec![0x40]),
            (reg(0), 0x0028, vec![0b0_0100]),
        ]
    );
    assert_eq!(sock.read(&mut chip, &mut out), Ok(5));
    assert_eq!(&out[..5], &[1, 2, 3, 4, 5]);
}

#[test]
fn receive_is_bounded_by_the_ring() {
    let (mut chip, model, sock) = established(4, 8);
    {
        let mut m = model.borrow_mut();
        m.set16(reg(0), SN_RX_RSR, 9);
        m.put(rxb(0), 0, &[1, 2, 3, 4, 5, 6, 7, 8, 9]);
    }
    chip.run().unwrap();
    chip.dma_complete().unwrap();
    assert_eq!(writes(&model)[0], (reg(0), SN_RX_RD, vec![0, 4]));
    // The ring is full: the rest stays on the chip.
    chip.run().unwrap();
    assert!(writes(&model).is_empty());
    let mut out = [0u8; 8];
    assert_eq!(sock.read(&mut chip, &mut out), Ok(4));
    assert_eq!(&out[..4], &[1, 2, 3, 4]);
}

#[test]
fn staged_bytes_go_out() {
    let (mut chip, model, sock) = established(8, 8);
    model.borrow_mut().set16(reg(0), SN_TX_WR, 0xFFFF);
    assert_eq!(sock.write(&mut chip, &[1, 2, 3]), Ok(3));
    // No room on the chip: they stay.
    chip.run().unwrap();
    assert!(writes(&model).is_empty());
    model.borrow_mut().set16(reg(0), SN_TX_FSR, 2);
    chip.run().unwrap();
    assert_eq!(writes(&model), vec![(txb(0), 0xFFFF, vec![1, 2])]);
    chip.dma_complete().unwrap();
    assert_eq!(
        writes(&model)[..2],
        [
            (reg(0), SN_TX_WR, vec![0x00, 0x01]),
            (reg(0), SN_CR, vec![0x20]),
        ]
    );
}

#[test]
fn bus_is_left_alone_during_a_transfer() {
    let (mut chip, model, sock) = established(8, 8);
    model.borrow_mut().set16(reg(0), SN_RX_RSR, 1);
    chip.run().unwrap();
    let frames = model.borrow().frames;
    assert_eq!(chip.service(), Ok(Serviced::Done));
    assert_eq!(chip.is_link_up(), Err(Error::WouldBlock));
    assert_eq!(chip.setup_network(1, 2, 3), Err(Error::WouldBlock));
    assert_eq!(chip.run(), Ok(()));
    assert_eq!(model.borrow().frames, frames);
    assert_eq!(sock.status(&mut chip), Ok(SocketStatus::Established));
    // A reset tears the transfer down; its end is then no news.
    chip.begin_reset(true).unwrap();
    assert_eq!(chip.dma_complete(), Ok(Serviced::Done));
    let mut out = [0u8; 8];
    assert_eq!(sock.read(&mut chip, &mut out), Ok(0));
}

#[test]
fn commit_failure_is_reported() {
    let (mut chip, model, sock) = established(8, 8);
    model.borrow_mut().set16(reg(0), SN_RX_RSR, 2);
    chip.run().unwrap();
    model.borrow_mut().broken = true;
    assert_eq!(
        chip.dma_complete(),
        Err(Error::Other(DriverError::SpiError))
    );
    model.borrow_mut().broken = false;
    let mut out = [0u8; 8];
    assert_eq!(sock.read(&mut chip, &mut out), Ok(2), "the bytes are there");
    assert_eq!(sock.status(&mut chip), Ok(SocketStatus::Established));
}

#[test]
fn peer_close_is_answered_once_everything_is_drained() {
    let (mut chip, model, sock) = established(8, 8);
    set_sr(&model, 0, SR_CLOSE_WAIT);
    model.borrow_mut().set8(reg(0), SN_IR, 0b0_0010);
    model.borrow_mut().set16(reg(0), SN_RX_RSR, 1);
    chip.run().unwrap();
    assert_eq!(writes(&model), vec![(reg(0), 0x0028, vec![0b0_0010])]);
    model.borrow_mut().set8(reg(0), SN_IR, 0);
    model.borrow_mut().set16(reg(0), SN_RX_RSR, 0);
    chip.dma_complete().unwrap();
    writes(&model);
    // The reader has not taken the byte yet.
    chip.run().unwrap();
    assert!(writes(&model).is_empty());
    assert_eq!(sock.status(&mut chip), Ok(SocketStatus::Established));
    sock.read(&mut chip, &mut [0u8; 4]).unwrap();
    chip.run().unwrap();
    assert_eq!(writes(&model), vec![(reg(0), SN_CR, vec![0x08])]);
    assert_eq!(sock.status(&mut chip), Ok(SocketStatus::Closing));
    set_sr(&model, 0, SR_CLOSED);
    chip.run().unwrap();
    assert_eq!(sock.status(&mut chip), Ok(SocketStatus::Closed));
}

#[test]
fn retransmission_timeout_closes_the_connection() {
    let (mut chip, model, sock) = established(8, 8);
    model.borrow_mut().set8(reg(0), SN_IR, 0b0_1000);
    chip.run().unwrap();
    assert_eq!(sock.status(&mut chip), Ok(SocketStatus::ClosingDueToTimeout));
    assert_eq!(
        writes(&model),
        vec![
            (reg(0), 0x0028, vec![0b0_1000]),
            (reg(0), SN_CR, vec![0x10]),
        ]
    );
}

/// A graceful close flushes in chunks of 64 bytes, moves the pointer once, sends
/// and only then disconnects.
#[test]
fn close_flushes_in_chunks() {
    let (mut chip, model, sock) = established(8, 200);
    let data: Vec<u8> = (0..150).collect();
    assert_eq!(sock.write(&mut chip, &data), Ok(150));
    {
        let mut m = model.borrow_mut();
        m.set16(reg(0), SN_TX_FSR, 140);
        m.set16(reg(0), SN_TX_WR, 0xFFF0);
    }
    sock.close(&mut chip).unwrap();
    chip.run().unwrap();
    assert_eq!(
        writes(&model),
        vec![
            (txb(0), 0xFFF0, data[..64].to_vec()),
            (txb(0), 0x0030, data[64..128].to_vec()),
            (txb(0), 0x0070, data[128..140].to_vec()),
            (reg(0), SN_TX_WR, 0x007Cu16.to_be_bytes().to_vec()),
            (reg(0), SN_CR, vec![0x20]),
            (reg(0), SN_CR, vec![0x08]),
        ]
    );
    assert_eq!(sock.status(&mut chip), Ok(SocketStatus::Closing));
}

#[test]
fn close_aborts_a_socket_that_is_coming_up() {
    let (mut chip, model) = rig();
    let sock = chip.open_tcp_listen(80, leak(8), leak(8)).unwrap();
    chip.run().unwrap();
    writes(&model);
    sock.close(&mut chip).unwrap();
    chip.run().unwrap();
    assert_eq!(writes(&model), vec![(reg(0), SN_CR, vec![0x10])]);
    assert_eq!(sock.status(&mut chip), Ok(SocketStatus::Closing));
    chip.run().unwrap();
    assert_eq!(sock.status(&mut chip), Ok(SocketStatus::Closed));
    // Over: nothing is asked of the chip any more.
    let frames = model.borrow().frames;
    chip.run().unwrap();
    sock.close(&mut chip).unwrap();
    chip.run().unwrap();
    assert_eq!(model.borrow().frames, frames);
}

#[test]
fn bus_error_is_kept_and_shown() {
    let (mut chip, model, sock) = established(8, 8);
    model.borrow_mut().broken = true;
    assert_eq!(chip.run(), Ok(()));
    assert_eq!(sock.status(&mut chip), Ok(SocketStatus::Error));
}

#[test]
fn oversized_receive_shows_an_error() {
    // Scratch buffers for 8 payload bytes, but a ring for 20.
    let (mut chip, model) = rig_with(11);
    let sock = chip.open_tcp_listen(80, leak(20), leak(8)).unwrap();
    chip.run().unwrap();
    set_sr(&model, 0, SR_INIT);
    chip.run().unwrap();
    set_sr(&model, 0, SR_ESTABLISHED);
    chip.run().unwrap();
    model.borrow_mut().set16(reg(0), SN_RX_RSR, 20);
    chip.run().unwrap();
    assert_eq!(sock.status(&mut chip), Ok(SocketStatus::Error));
}

// --- UDP ------------------------------------------------------------------------

/// Bring a UDP socket up and forget the writes so far.
fn bound(
    rx: usize,
    tx: usize,
) -> (
    W6100<'static, Spi>,
    Rc<RefCell<Model>>,
    wiznet_rs::udp_socket::UdpSocket,
) {
    let (mut chip, model) = rig();
    let sock = chip.open_udp(5353, leak(rx), leak(tx)).unwrap();
    chip.run().unwrap();
    assert_eq!(
        writes(&model),
        vec![
            (reg(0), 0x0000, vec![0b0010]),
            (reg(0), 0x0028, vec![0xFF]),
            (reg(0), 0x0024, vec![0xFF]),
            (reg(0), SN_PORT, 5353u16.to_be_bytes().to_vec()),
            (reg(0), SN_CR, vec![0x01]),
        ]
    );
    set_sr(&model, 0, SR_UDP);
    chip.run().unwrap();
    assert_eq!(sock.status(&mut chip), Ok(SocketStatus::Established));
    (chip, model, sock)
}

/// Lay a packet with its header into the chip's RX buffer at `at`.
fn packet(model: &Rc<RefCell<Model>>, at: u16, flags: u16, ip: u32, port: u16, data: &[u8]) {
    let mut bytes = Vec::new();
    bytes.extend_from_slice(&(flags << 11 | data.len() as u16).to_be_bytes());
    bytes.extend_from_slice(&ip.to_be_bytes());
    bytes.extend_from_slice(&port.to_be_bytes());
    bytes.extend_from_slice(data);
    let mut m = model.borrow_mut();
    m.put(rxb(0), at, &bytes);
    m.set16(reg(0), SN_RX_RD, at);
    m.set16(reg(0), SN_RX_RSR, bytes.len() as u16);
}

const PEER: SocketAddr = SocketAddr {
    ip: 0x0A000007,
    port: 1234,
};

#[test]
fn datagram_arrives_with_its_sender() {
    let (mut chip, model, sock) = bound(64, 64);
    let mut out = [0u8; 16];
    assert_eq!(sock.recv_from(&mut chip, &mut out), Ok(None));
    packet(&model, 0x0100, 0b10101, PEER.ip, PEER.port, &[9, 8, 7]);
    chip.run().unwrap();
    model.borrow_mut().set16(reg(0), SN_RX_RSR, 0);
    chip.dma_complete().unwrap();
    assert_eq!(
        writes(&model),
        vec![
            (reg(0), SN_RX_RD, 0x010Bu16.to_be_bytes().to_vec()),
            (reg(0), SN_CR, vec![0x40]),
            (reg(0), 0x0028, vec![0b0_0100]),
        ]
    );
    assert_eq!(sock.recv_from(&mut chip, &mut out), Ok(Some((3, PEER))));
    assert_eq!(&out[..3], &[9, 8, 7]);
    assert_eq!(sock.recv_from(&mut chip, &mut out), Ok(None));
}

#[test]
fn excess_of_a_datagram_is_discarded() {
    let (mut chip, model, sock) = bound(256, 64);
    for (i, n) in [100usize, 2].iter().enumerate() {
        packet(&model, 0, 0, PEER.ip, i as u16, &vec![i as u8; *n]);
        chip.run().unwrap();
        model.borrow_mut().set16(reg(0), SN_RX_RSR, 0);
        chip.dma_complete().unwrap();
    }
    let mut out = [0xEEu8; 4];
    let first = SocketAddr { port: 0, ..PEER };
    let second = SocketAddr { port: 1, ..PEER };
    assert_eq!(sock.recv_from(&mut chip, &mut out), Ok(Some((4, first))));
    assert_eq!(out, [0, 0, 0, 0]);
    assert_eq!(sock.recv_from(&mut chip, &mut out), Ok(Some((2, second))));
    assert_eq!(out, [1, 1, 0, 0]);
}

#[test]
fn empty_datagram_needs_no_transfer() {
    let (mut chip, model, sock) = bound(64, 64);
    packet(&model, 0xFFFC, 0, PEER.ip, PEER.port, &[]);
    chip.run().unwrap();
    assert_eq!(writes(&model)[0], (reg(0), SN_RX_RD, vec![0x00, 0x04]));
    let mut out = [0u8; 4];
    assert_eq!(sock.recv_from(&mut chip, &mut out), Ok(Some((0, PEER))));
}

#[test]
fn datagram_waits_while_the_ring_is_full_and_is_dropped_if_it_never_fits() {
    let (mut chip, model, sock) = bound(16, 64);
    packet(&model, 0, 0, PEER.ip, PEER.port, &[1, 2, 3, 4]);
    chip.run().unwrap();
    model.borrow_mut().set16(reg(0), SN_RX_RSR, 0);
    chip.dma_complete().unwrap();
    writes(&model);
    // 12 of 16 bytes are taken: the next one stays on the chip.
    packet(&model, 0x40, 0, PEER.ip, PEER.port, &[5]);
    chip.run().unwrap();
    assert!(writes(&model).is_empty());
    // Nine payload bytes can never fit: skipped, with the header.
    packet(&model, 0x80, 0, PEER.ip, PEER.port, &[0; 9]);
    chip.run().unwrap();
    assert_eq!(
        writes(&model),
        vec![
            (reg(0), SN_RX_RD, vec![0x00, 0x91]),
            (reg(0), SN_CR, vec![0x40]),
            (reg(0), 0x0028, vec![0b0_0100]),
        ]
    );
    let mut out = [0u8; 8];
    assert_eq!(sock.recv_from(&mut chip, &mut out), Ok(Some((4, PEER))));
    assert_eq!(sock.recv_from(&mut chip, &mut out), Ok(None));
}

#[test]
fn incomplete_packet_is_waited_for() {
    let (mut chip, model, _sock) = bound(64, 64);
    packet(&model, 0, 0, PEER.ip, PEER.port, &[1, 2, 3]);
    for available in [7u16, 10] {
        model.borrow_mut().set16(reg(0), SN_RX_RSR, available);
        chip.run().unwrap();
        assert!(writes(&model).is_empty());
        assert_eq!(chip.service(), Ok(Serviced::Done));
    }
}

#[test]
fn datagrams_go_out_whole_and_in_order() {
    let (mut chip, model, sock) = bound(64, 64);
    let other = SocketAddr {
        ip: 0x0A000008,
        port: 4321,
    };
    assert_eq!(sock.send_to(&mut chip, &[1, 2, 3], PEER), Ok(3));
    assert_eq!(sock.send_to(&mut chip, &[], other), Ok(0));
    assert_eq!(sock.send_to(&mut chip, &[0; 60], other), Ok(0), "does not fit");
    // The chip has no room for all of it yet.
    model.borrow_mut().set16(reg(0), SN_TX_FSR, 2);
    chip.run().unwrap();
    assert!(writes(&model).is_empty());
    model.borrow_mut().set16(reg(0), SN_TX_FSR, 2048);
    chip.run().unwrap();
    assert_eq!(
        writes(&model),
        vec![
            (reg(0), SN_DIP, vec![10, 0, 0, 7]),
            (reg(0), SN_DPORT, 1234u16.to_be_bytes().to_vec()),
            (txb(0), 0x0000, vec![1, 2, 3]),
        ]
    );
    // The end of the first one starts the next: an empty one is sent at once.
    chip.dma_complete().unwrap();
    assert_eq!(
        writes(&model),
        vec![
            (reg(0), SN_TX_WR, vec![0, 3]),
            (reg(0), SN_CR, vec![0x20]),
            (reg(0), SN_DIP, vec![10, 0, 0, 8]),
            (reg(0), SN_DPORT, 4321u16.to_be_bytes().to_vec()),
            (reg(0), SN_CR, vec![0x20]),
        ]
    );
}

#[test]
fn datagram_that_fails_leaves_whole() {
    // Scratch buffers for 8 payload bytes, so the first datagram cannot be moved.
    let (mut chip, model) = rig_with(11);
    let sock = chip.open_udp(5353, leak(64), leak(64)).unwrap();
    chip.run().unwrap();
    set_sr(&model, 0, SR_UDP);
    chip.run().unwrap();
    writes(&model);
    assert_eq!(sock.send_to(&mut chip, &[7; 20], PEER), Ok(20));
    assert_eq!(sock.send_to(&mut chip, &[1, 2, 3], PEER), Ok(3));
    model.borrow_mut().set16(reg(0), SN_TX_FSR, 2048);
    chip.run().unwrap();
    assert_eq!(sock.status(&mut chip), Ok(SocketStatus::Error));
    writes(&model);
    // The next one is found where it starts.
    chip.run().unwrap();
    assert_eq!(
        writes(&model),
        vec![
            (reg(0), SN_DIP, vec![10, 0, 0, 7]),
            (reg(0), SN_DPORT, 1234u16.to_be_bytes().to_vec()),
            (txb(0), 0x0000, vec![1, 2, 3]),
        ]
    );
}

#[test]
fn datagram_longer_than_its_header_can_spell_is_refused() {
    let (mut chip, _, sock) = bound(64, 0x2_0000);
    assert_eq!(sock.send_to(&mut chip, &vec![0; 0x1_0000], PEER), Ok(0));
    assert_eq!(sock.send_to(&mut chip, &vec![0; 0xFFFF], PEER), Ok(0xFFFF));
}

#[test]
fn rearmed_sockets_get_nothing_of_the_old_session() {
    let (mut chip, model, sock) = established(8, 8);
    {
        let mut m = model.borrow_mut();
        m.set16(reg(0), SN_RX_RSR, 5);
        m.put(rxb(0), 0, &[1, 2, 3, 4, 5]);
    }
    chip.run().unwrap();
    sock.reconnect(&mut chip).unwrap();
    chip.dma_complete().unwrap();
    assert_eq!(writes(&model)[0], (reg(0), SN_RX_RD, vec![0, 5]));
    let mut out = [0u8; 8];
    assert_eq!(sock.read(&mut chip, &mut out), Ok(0));

    let (mut chip, model, sock) = bound(64, 64);
    packet(&model, 0, 0, PEER.ip, PEER.port, &[1, 2, 3]);
    chip.run().unwrap();
    sock.reconnect(&mut chip).unwrap();
    model.borrow_mut().set16(reg(0), SN_RX_RSR, 0);
    chip.dma_complete().unwrap();
    assert_eq!(sock.recv_from(&mut chip, &mut out), Ok(None));
}

#[test]
fn send_timeout_does_not_close_a_bound_socket() {
    let (mut chip, model, sock) = bound(64, 64);
    model.borrow_mut().set8(reg(0), SN_IR, 0b0_1000);
    chip.run().unwrap();
    assert_eq!(writes(&model), vec![(reg(0), 0x0028, vec![0b0_1000])]);
    assert_eq!(sock.status(&mut chip), Ok(SocketStatus::Established));
}

#[test]
fn bound_socket_closes_and_reopens() {
    let (mut chip, model, sock) = bound(64, 64);
    sock.close(&mut chip).unwrap();
    chip.run().unwrap();
    assert_eq!(writes(&model), vec![(reg(0), SN_CR, vec![0x10])]);
    set_sr(&model, 0, SR_CLOSED);
    chip.run().unwrap();
    assert_eq!(sock.status(&mut chip), Ok(SocketStatus::Closed));
    sock.reconnect(&mut chip).unwrap();
    assert_eq!(sock.status(&mut chip), Ok(SocketStatus::Init));
    chip.run().unwrap();
    assert_eq!(sock.status(&mut chip), Ok(SocketStatus::Opening));
    // The wrong mode on the chip is an error.
    set_sr(&model, 0, SR_INIT);
    chip.run().unwrap();
    assert_eq!(sock.status(&mut chip), Ok(SocketStatus::Error));
}

#[test]
fn reset_rearms_open_sockets() {
    let (mut chip, model, sock) = bound(64, 64);
    chip.reset(true).unwrap();
    assert_eq!(sock.status(&mut chip), Ok(SocketStatus::Init));
    writes(&model);
    chip.run().unwrap();
    assert_eq!(writes(&model)[0], (reg(0), 0x0000, vec![0b0010]));
    sock.release(&mut chip);
    chip.reset(true).unwrap();
    let again = chip.open_tcp_listen(1, leak(4), leak(4)).unwrap();
    assert_eq!(again.status(&mut chip), Ok(SocketStatus::Init));
}
