//! The registers of a socket and what the driver does with each of them.
use vstd::prelude::*;

use crate::access::{carried_out, ended, reply, status, Access, Request};
use crate::address::{
    read_request, start_read_request, start_write_request, write_request, Address, BlockAddress,
};
use crate::bytes::{be16, be32, from_be16};
use crate::error::Error;
use crate::spi_dma::SpiDmaDevice;
use crate::spsc_ring::SpscRing;
use crate::transiver::{drained, padded, Transceiver};

verus! {

/// Mode Register.
pub const SN_MR: u16 = 0x0000;

/// Command Register. Clears itself once the command was taken.
pub const SN_CR: u16 = 0x0010;

/// Interrupt Register.
pub const SN_IR: u16 = 0x0020;

/// Interrupt Mask Register.
pub const SN_IMR: u16 = 0x0024;

/// Interrupt Clear Register.
pub const SN_IRCLR: u16 = 0x0028;

/// Status Register.
pub const SN_SR: u16 = 0x0030;

/// Source Port Register.
pub const SN_PORTR0: u16 = 0x0114;

/// Destination IPv4 Address Register.
pub const SN_DIPR0: u16 = 0x0120;

/// Destination Port Register.
pub const SN_DPORTR0: u16 = 0x0140;

/// TX Free Size Register.
pub const SN_TX_FSR0: u16 = 0x0204;

/// TX Write Pointer Register.
pub const SN_TX_WR0: u16 = 0x020C;

/// RX Received Size Register.
pub const SN_RX_RSR0: u16 = 0x0224;

/// RX Read Pointer Register.
pub const SN_RX_RD0: u16 = 0x0228;

/// The protocol a socket is opened for, as the mode register spells it.
#[derive(Debug, Clone, Copy, PartialEq, Eq, Structural)]
pub enum SocketProtocolMode {
    Closed,
    Tcp4,
    Udp4,
    IpRaw4,
    MacRaw,
    Tcp6,
    Udp6,
    IpRaw6,
    TcpDual,
    UdpDual,
}

/// The code of a protocol in the mode register.
pub open spec fn mode_code(mode: SocketProtocolMode) -> u8 {
    match mode {
        SocketProtocolMode::Closed => 0b0000,
        SocketProtocolMode::Tcp4 => 0b0001,
        SocketProtocolMode::Udp4 => 0b0010,
        SocketProtocolMode::IpRaw4 => 0b0011,
        SocketProtocolMode::MacRaw => 0b0111,
        SocketProtocolMode::Tcp6 => 0b1001,
        SocketProtocolMode::Udp6 => 0b1010,
        SocketProtocolMode::IpRaw6 => 0b1011,
        SocketProtocolMode::TcpDual => 0b1101,
        SocketProtocolMode::UdpDual => 0b1110,
    }
}

impl SocketProtocolMode {
    /// The code of this protocol in the mode register.
    pub fn bits(self) -> (code: u8)
        ensures
            code == mode_code(self),
    {
        match self {
            SocketProtocolMode::Closed => 0b0000,
            SocketProtocolMode::Tcp4 => 0b0001,
            SocketProtocolMode::Udp4 => 0b0010,
            SocketProtocolMode::IpRaw4 => 0b0011,
            SocketProtocolMode::MacRaw => 0b0111,
            SocketProtocolMode::Tcp6 => 0b1001,
            SocketProtocolMode::Udp6 => 0b1010,
            SocketProtocolMode::IpRaw6 => 0b1011,
            SocketProtocolMode::TcpDual => 0b1101,
            SocketProtocolMode::UdpDual => 0b1110,
        }
    }
}

/// Data was sent.
pub const IR_SENDOK: u8 = 0b1_0000;

/// A retransmission or an address lookup was given up.
pub const IR_TIMEOUT: u8 = 0b0_1000;

/// Data was received.
pub const IR_RECV: u8 = 0b0_0100;

/// The peer closes the connection.
pub const IR_DISCON: u8 = 0b0_0010;

/// The connection stands.
pub const IR_CON: u8 = 0b0_0001;

/// All interrupts of a socket.
pub const IR_ALL: u8 = 0b1_1111;

/// A set of socket interrupts.
#[derive(Debug, Clone, Copy, PartialEq, Eq, Structural)]
pub struct SocketInterrupt {
    pub bits: u8,
}

impl SocketInterrupt {
    /// The set that a register value spells, without the unused bits.
    pub fn from_bits_truncate(bits: u8) -> (set: Self)
        ensures
            set.bits == bits & IR_ALL,
    {
        SocketInterrupt { bits: bits & IR_ALL }
    }

    /// Whether all interrupts of `mask` are in the set.
    pub fn contains(&self, mask: u8) -> (b: bool)
        ensures
            b == reports(self.bits, mask),
    {
        self.bits & mask == mask
    }
}

/// Whether the interrupt register value `ir` reports `mask`.
pub open spec fn reports(ir: u8, mask: u8) -> bool {
    ir & mask == mask
}

/// Dropping the unused bits does not change what is reported.
pub proof fn lemma_truncate(ir: u8)
    ensures
        reports(ir & IR_ALL, IR_TIMEOUT) == reports(ir, IR_TIMEOUT),
        reports(ir & IR_ALL, IR_DISCON) == reports(ir, IR_DISCON),
{
    assert((ir & 0b1_1111u8) & 0b0_1000u8 == ir & 0b0_1000u8) by (bit_vector);
    assert((ir & 0b1_1111u8) & 0b0_0010u8 == ir & 0b0_0010u8) by (bit_vector);
}

/// The commands of a socket.
#[derive(Debug, Clone, Copy, PartialEq, Eq, Structural)]
pub enum SocketCommand {
    Open,
    Listen,
    Connect,
    Connect6,
    Disconnect,
    Close,
    Send,
    Send6,
    SendKeep,
    Receive,
}

/// The code of a command in the command register.
pub open spec fn command_code(command: SocketCommand) -> u8 {
    match command {
        SocketCommand::Open => 0x01,
        SocketCommand::Listen => 0x02,
        SocketCommand::Connect => 0x04,
        SocketCommand::Connect6 => 0x84,
        SocketCommand::Disconnect => 0x08,
        SocketCommand::Close => 0x10,
        SocketCommand::Send => 0x20,
        SocketCommand::Send6 => 0xA0,
        SocketCommand::SendKeep => 0x22,
        SocketCommand::Receive => 0x40,
    }
}

impl SocketCommand {
    /// The code of this command in the command register.
    pub fn code(self) -> (code: u8)
        ensures
            code == command_code(self),
    {
        match self {
            SocketCommand::Open => 0x01,
            SocketCommand::Listen => 0x02,
            SocketCommand::Connect => 0x04,
            SocketCommand::Connect6 => 0x84,
            SocketCommand::Disconnect => 0x08,
            SocketCommand::Close => 0x10,
            SocketCommand::Send => 0x20,
            SocketCommand::Send6 => 0xA0,
            SocketCommand::SendKeep => 0x22,
            SocketCommand::Receive => 0x40,
        }
    }
}

/// The state of a socket as the chip reports it.
#[derive(Debug, Clone, Copy, PartialEq, Eq, Structural)]
pub enum SocketStatusRegister {
    /// Closed.
    Closed,
    /// Opened for TCP.
    Init,
    /// Waiting for a connection request.
    Listen,
    /// Connected.
    Established,
    /// The peer has closed its side.
    CloseWait,
    /// Opened for UDP.
    Udp,
    /// Opened for raw IPv4.
    Ipraw,
    /// Opened for raw IPv6.
    Ipraw6,
    /// Opened for raw Ethernet.
    Macraw,
    /// A connection request was sent.
    Synsent,
    /// A connection request was received.
    Synrecv,
    /// Closing.
    FinWait,
    /// Closing.
    TimeWait,
    /// Closing.
    LastAck,
    /// None of these.
    Unknown,
}

/// The state that a value of the status register stands for.
pub open spec fn status_register(value: u8) -> SocketStatusRegister {
    if value == 0x00 {
        SocketStatusRegister::Closed
    } else if value == 0x13 {
        SocketStatusRegister::Init
    } else if value == 0x14 {
        SocketStatusRegister::Listen
    } else if value == 0x17 {
        SocketStatusRegister::Established
    } else if value == 0x1C {
        SocketStatusRegister::CloseWait
    } else if value == 0x22 {
        SocketStatusRegister::Udp
    } else if value == 0x32 {
        SocketStatusRegister::Ipraw
    } else if value == 0x33 {
        SocketStatusRegister::Ipraw6
    } else if value == 0x42 {
        SocketStatusRegister::Macraw
    } else if value == 0x15 {
        SocketStatusRegister::Synsent
    } else if value == 0x16 {
        SocketStatusRegister::Synrecv
    } else if value == 0x18 {
        SocketStatusRegister::FinWait
    } else if value == 0x1B {
        SocketStatusRegister::TimeWait
    } else if value == 0x1D {
        SocketStatusRegister::LastAck
    } else {
        SocketStatusRegister::Unknown
    }
}

/// The place of a register of the socket.
pub open spec fn reg(block: BlockAddress, address: u16) -> Address {
    Address { address, block: block.reg }
}

/// Reading one byte from a register.
pub open spec fn read8(block: BlockAddress, address: u16) -> Request {
    read_request(reg(block, address), 1)
}

/// Reading two bytes from a register.
pub open spec fn read16(block: BlockAddress, address: u16) -> Request {
    read_request(reg(block, address), 2)
}

/// Writing one byte to a register.
pub open spec fn write8(block: BlockAddress, address: u16, value: u8) -> Request {
    write_request(reg(block, address), seq![value])
}

/// Writing two bytes to a register.
pub open spec fn write16(block: BlockAddress, address: u16, value: u16) -> Request {
    write_request(reg(block, address), be16(value))
}

/// Writing four bytes to a register.
pub open spec fn write32(block: BlockAddress, address: u16, value: u32) -> Request {
    write_request(reg(block, address), be32(value))
}

/// Giving a command.
pub open spec fn command(block: BlockAddress, c: SocketCommand) -> Request {
    write8(block, SN_CR, command_code(c))
}

/// Clearing interrupts.
pub open spec fn clear(block: BlockAddress, mask: u8) -> Request {
    write8(block, SN_IRCLR, mask)
}

/// The byte that an access read.
pub open spec fn byte(access: Access) -> u8 {
    reply(access)[0]
}

/// The number that an access read from two bytes.
pub open spec fn word(access: Access) -> u16 {
    from_be16(reply(access))
}

/// Setting a socket up for `mode`: the mode, no interrupts pending, all enabled.
pub open spec fn init_script(block: BlockAddress, mode: SocketProtocolMode) -> Seq<Request> {
    seq![
        write8(block, SN_MR, mode_code(mode)),
        write8(block, SN_IRCLR, 0xFF),
        write8(block, SN_IMR, 0xFF),
    ]
}

pub fn init_socket<D: SpiDmaDevice>(
    block: &BlockAddress,
    trans: &mut Transceiver<D>,
    mode: SocketProtocolMode,
) -> (r: Result<(), Error>)
    requires
        old(trans).wf(),
    ensures
        old(trans).same_link(final(trans)),
        old(trans).advanced(final(trans)),
        carried_out(init_script(*block, mode), old(trans).did(final(trans))),
        r == ended(old(trans).did(final(trans))),
{
    trans.write_u8(&Address { address: SN_MR, block: block.reg }, mode.bits())?;

    // Clear interrupts
    trans.write_u8(&Address { address: SN_IRCLR, block: block.reg }, 0xFF)?;

    // Enable all interrupts
    trans.write_u8(&Address { address: SN_IMR, block: block.reg }, 0xFF)?;

    Ok(())
}

/// The interrupts that the socket reports.
pub fn get_interrupts<D: SpiDmaDevice>(
    block: &BlockAddress,
    trans: &mut Transceiver<D>,
) -> (r: Result<SocketInterrupt, Error>)
    requires
        old(trans).wf(),
    ensures
        old(trans).same_link(final(trans)),
        old(trans).stepped(final(trans), read8(*block, SN_IR)),
        match r {
            Ok(set) => {
                let ir = byte(final(trans).log().last());
                &&& final(trans).log().last().outcome is Ok
                &&& set.bits == ir & IR_ALL
                &&& reports(set.bits, IR_TIMEOUT) == reports(ir, IR_TIMEOUT)
                &&& reports(set.bits, IR_DISCON) == reports(ir, IR_DISCON)
            },
            Err(e) => final(trans).log().last().outcome == Err::<Seq<Seq<u8>>, Error>(e),
        },
{
    match trans.read_u8(&Address { address: SN_IR, block: block.reg }) {
        Ok(ir) => {
            proof {
                lemma_truncate(ir);
            }
            Ok(SocketInterrupt::from_bits_truncate(ir))
        },
        Err(e) => Err(e),
    }
}

/// Acknowledge the interrupts of `mask`.
pub fn clear_interrupts<D: SpiDmaDevice>(
    block: &BlockAddress,
    trans: &mut Transceiver<D>,
    mask: u8,
) -> (r: Result<(), Error>)
    requires
        old(trans).wf(),
    ensures
        old(trans).same_link(final(trans)),
        old(trans).stepped(final(trans), clear(*block, mask)),
        r == status(final(trans).log().last()),
{
    trans.write_u8(&Address { address: SN_IRCLR, block: block.reg }, mask)
}

pub fn set_src_port<D: SpiDmaDevice>(
    block: &BlockAddress,
    trans: &mut Transceiver<D>,
    port: u16,
) -> (r: Result<(), Error>)
    requires
        old(trans).wf(),
    ensures
        old(trans).same_link(final(trans)),
        old(trans).stepped(final(trans), write16(*block, SN_PORTR0, port)),
        r == status(final(trans).log().last()),
{
    trans.write_u16(&Address { address: SN_PORTR0, block: block.reg }, port)
}

pub fn set_dst_port<D: SpiDmaDevice>(
    block: &BlockAddress,
    trans: &mut Transceiver<D>,
    port: u16,
) -> (r: Result<(), Error>)
    requires
        old(trans).wf(),
    ensures
        old(trans).same_link(final(trans)),
        old(trans).stepped(final(trans), write16(*block, SN_DPORTR0, port)),
        r == status(final(trans).log().last()),
{
    trans.write_u16(&Address { address: SN_DPORTR0, block: block.reg }, port)
}

pub fn set_ipv4_dst_addr<D: SpiDmaDevice>(
    block: &BlockAddress,
    trans: &mut Transceiver<D>,
    address: u32,
) -> (r: Result<(), Error>)
    requires
        old(trans).wf(),
    ensures
        old(trans).same_link(final(trans)),
        old(trans).stepped(final(trans), write32(*block, SN_DIPR0, address)),
        r == status(final(trans).log().last()),
{
    trans.write_u32(&Address { address: SN_DIPR0, block: block.reg }, address)
}

pub fn send_sock_command<D: SpiDmaDevice>(
    block: &BlockAddress,
    trans: &mut Transceiver<D>,
    c: SocketCommand,
) -> (r: Result<(), Error>)
    requires
        old(trans).wf(),
    ensures
        old(trans).same_link(final(trans)),
        old(trans).stepped(final(trans), command(*block, c)),
        r == status(final(trans).log().last()),
{
    trans.write_u8(&Address { address: SN_CR, block: block.reg }, c.code())
}

/// Number of bytes currently waiting in the socket's RX buffer on the chip.
pub fn get_rx_received_size<D: SpiDmaDevice>(
    block: &BlockAddress,
    trans: &mut Transceiver<D>,
) -> (r: Result<u16, Error>)
    requires
        old(trans).wf(),
    ensures
        old(trans).same_link(final(trans)),
        old(trans).stepped(final(trans), read16(*block, SN_RX_RSR0)),
        r == (match final(trans).log().last().outcome {
            Ok(_) => Ok(word(final(trans).log().last())),
            Err(e) => Err::<u16, Error>(e),
        }),
{
    trans.read_u16(&Address { address: SN_RX_RSR0, block: block.reg })
}

/// Current RX read pointer, a free-running 16-bit offset.
pub fn get_rx_read_pointer<D: SpiDmaDevice>(
    block: &BlockAddress,
    trans: &mut Transceiver<D>,
) -> (r: Result<u16, Error>)
    requires
        old(trans).wf(),
    ensures
        old(trans).same_link(final(trans)),
        old(trans).stepped(final(trans), read16(*block, SN_RX_RD0)),
        r == (match final(trans).log().last().outcome {
            Ok(_) => Ok(word(final(trans).log().last())),
            Err(e) => Err::<u16, Error>(e),
        }),
{
    trans.read_u16(&Address { address: SN_RX_RD0, block: block.reg })
}

/// Advance the RX read pointer after consuming data.
pub fn set_rx_read_pointer<D: SpiDmaDevice>(
    block: &BlockAddress,
    trans: &mut Transceiver<D>,
    pointer: u16,
) -> (r: Result<(), Error>)
    requires
        old(trans).wf(),
    ensures
        old(trans).same_link(final(trans)),
        old(trans).stepped(final(trans), write16(*block, SN_RX_RD0, pointer)),
        r == status(final(trans).log().last()),
{
    trans.write_u16(&Address { address: SN_RX_RD0, block: block.reg }, pointer)
}

/// Number of bytes the socket's TX buffer on the chip can take.
pub fn get_tx_free_size<D: SpiDmaDevice>(
    block: &BlockAddress,
    trans: &mut Transceiver<D>,
) -> (r: Result<u16, Error>)
    requires
        old(trans).wf(),
    ensures
        old(trans).same_link(final(trans)),
        old(trans).stepped(final(trans), read16(*block, SN_TX_FSR0)),
        r == (match final(trans).log().last().outcome {
            Ok(_) => Ok(word(final(trans).log().last())),
            Err(e) => Err::<u16, Error>(e),
        }),
{
    trans.read_u16(&Address { address: SN_TX_FSR0, block: block.reg })
}

/// Current TX write pointer, a free-running 16-bit offset.
pub fn get_tx_write_pointer<D: SpiDmaDevice>(
    block: &BlockAddress,
    trans: &mut Transceiver<D>,
) -> (r: Result<u16, Error>)
    requires
        old(trans).wf(),
    ensures
        old(trans).same_link(final(trans)),
        old(trans).stepped(final(trans), read16(*block, SN_TX_WR0)),
        r == (match final(trans).log().last().outcome {
            Ok(_) => Ok(word(final(trans).log().last())),
            Err(e) => Err::<u16, Error>(e),
        }),
{
    trans.read_u16(&Address { address: SN_TX_WR0, block: block.reg })
}

/// Advance the TX write pointer after staging data.
pub fn set_tx_write_pointer<D: SpiDmaDevice>(
    block: &BlockAddress,
    trans: &mut Transceiver<D>,
    pointer: u16,
) -> (r: Result<(), Error>)
    requires
        old(trans).wf(),
    ensures
        old(trans).same_link(final(trans)),
        old(trans).stepped(final(trans), write16(*block, SN_TX_WR0, pointer)),
        r == status(final(trans).log().last()),
{
    trans.write_u16(&Address { address: SN_TX_WR0, block: block.reg }, pointer)
}

/// Burst-read `data.len()` bytes out of the socket's RX buffer starting at the
/// given pointer. The chip auto-increments and wraps within the buffer region.
pub fn read_rx_buffer<D: SpiDmaDevice>(
    block: &BlockAddress,
    trans: &mut Transceiver<D>,
    pointer: u16,
    data: &mut [u8],
) -> (r: Result<(), Error>)
    requires
        old(trans).wf(),
    ensures
        old(trans).same_link(final(trans)),
        old(trans).stepped(
            final(trans),
            read_request(Address { address: pointer, block: block.rx }, old(data)@.len()),
        ),
        r == status(final(trans).log().last()),
        final(data)@ == (match r {
            Ok(()) => reply(final(trans).log().last()),
            Err(_) => old(data)@,
        }),
        final(data)@.len() == old(data)@.len(),
{
    trans.read(&Address { address: pointer, block: block.rx }, data)
}

/// Burst-write `data` into the socket's TX buffer starting at the given pointer.
pub fn write_tx_buffer<D: SpiDmaDevice>(
    block: &BlockAddress,
    trans: &mut Transceiver<D>,
    pointer: u16,
    data: &[u8],
) -> (r: Result<(), Error>)
    requires
        old(trans).wf(),
    ensures
        old(trans).same_link(final(trans)),
        old(trans).stepped(
            final(trans),
            write_request(Address { address: pointer, block: block.tx }, data@),
        ),
        r == status(final(trans).log().last()),
{
    trans.write(&Address { address: pointer, block: block.tx }, data)
}

/// Start to burst-read `len` bytes out of the socket's RX buffer.
pub fn start_read_rx_buffer<D: SpiDmaDevice>(
    block: &BlockAddress,
    trans: &mut Transceiver<D>,
    pointer: u16,
    len: usize,
) -> (r: Result<(), Error>)
    requires
        old(trans).wf(),
    ensures
        old(trans).launched(
            final(trans),
            start_read_request(Address { address: pointer, block: block.rx }, len as nat),
        ),
        r == status(final(trans).log().last()),
        r is Ok ==> final(trans).window().len() == len,
{
    trans.start_read(&Address { address: pointer, block: block.rx }, len)
}

/// Start to burst-write the next `len` bytes of `ring` into the socket's TX
/// buffer.
pub fn start_write_tx_buffer<D: SpiDmaDevice>(
    block: &BlockAddress,
    trans: &mut Transceiver<D>,
    pointer: u16,
    ring: &mut SpscRing<'_>,
    len: usize,
) -> (r: Result<(), Error>)
    requires
        old(trans).wf(),
        old(ring).wf(),
    ensures
        old(trans).launched(
            final(trans),
            start_write_request(
                Address { address: pointer, block: block.tx },
                padded(old(ring)@.bytes, len as nat),
            ),
        ),
        r == status(final(trans).log().last()),
        final(ring).wf(),
        final(ring)@ == (if drained(final(trans).log().last()) {
            old(ring)@.taken(len as int)
        } else {
            old(ring)@
        }),
{
    trans.start_write(&Address { address: pointer, block: block.tx }, ring, len)
}

/// Whether the chip has yet to take the last command.
pub fn is_command_pending<D: SpiDmaDevice>(
    block: &BlockAddress,
    trans: &mut Transceiver<D>,
) -> (r: Result<bool, Error>)
    requires
        old(trans).wf(),
    ensures
        old(trans).same_link(final(trans)),
        old(trans).stepped(final(trans), read8(*block, SN_CR)),
        r == (match final(trans).log().last().outcome {
            Ok(_) => Ok(byte(final(trans).log().last()) != 0),
            Err(e) => Err::<bool, Error>(e),
        }),
{
    match trans.read_u8(&Address { address: SN_CR, block: block.reg }) {
        Ok(value) => Ok(value != 0),
        Err(e) => Err(e),
    }
}

/// The state that the chip reports for the socket.
pub fn read_status<D: SpiDmaDevice>(
    block: &BlockAddress,
    trans: &mut Transceiver<D>,
) -> (r: Result<SocketStatusRegister, Error>)
    requires
        old(trans).wf(),
    ensures
        old(trans).same_link(final(trans)),
        old(trans).stepped(final(trans), read8(*block, SN_SR)),
        r == (match final(trans).log().last().outcome {
            Ok(_) => Ok(status_register(byte(final(trans).log().last()))),
            Err(e) => Err::<SocketStatusRegister, Error>(e),
        }),
{
    match trans.read_u8(&Address { address: SN_SR, block: block.reg }) {
        Ok(value) => Ok(
            match value {
                0x00 => SocketStatusRegister::Closed,
                0x13 => SocketStatusRegister::Init,
                0x14 => SocketStatusRegister::Listen,
                0x17 => SocketStatusRegister::Established,
                0x1C => SocketStatusRegister::CloseWait,
                0x22 => SocketStatusRegister::Udp,
                0x32 => SocketStatusRegister::Ipraw,
                0x33 => SocketStatusRegister::Ipraw6,
                0x42 => SocketStatusRegister::Macraw,
                0x15 => SocketStatusRegister::Synsent,
                0x16 => SocketStatusRegister::Synrecv,
                0x18 => SocketStatusRegister::FinWait,
                0x1B => SocketStatusRegister::TimeWait,
                0x1D => SocketStatusRegister::LastAck,
                _ => SocketStatusRegister::Unknown,
            },
        ),
        Err(e) => Err(e),
    }
}

} // verus!
