//! The chip's address space, the header that every frame starts with, and the
//! requests that are made of the two.
use vstd::prelude::*;

use crate::access::{Request, HEADER};
use crate::bus::Op;
use crate::bytes::{be16, from_be16, u16_to_be};

verus! {

/// The blocks of the chip's address space: the common registers, and for each
/// of the eight sockets its registers and its two buffers.
#[derive(Debug, Clone, Copy, PartialEq, Eq, Structural)]
pub enum BlockSelectionBits {
    CommonRegister,
    Socket0Register,
    Socket0TxBuffer,
    Socket0RxBuffer,
    Socket1Register,
    Socket1TxBuffer,
    Socket1RxBuffer,
    Socket2Register,
    Socket2TxBuffer,
    Socket2RxBuffer,
    Socket3Register,
    Socket3TxBuffer,
    Socket3RxBuffer,
    Socket4Register,
    Socket4TxBuffer,
    Socket4RxBuffer,
    Socket5Register,
    Socket5TxBuffer,
    Socket5RxBuffer,
    Socket6Register,
    Socket6TxBuffer,
    Socket6RxBuffer,
    Socket7Register,
    Socket7TxBuffer,
    Socket7RxBuffer,
}

/// The code that selects a block.
pub open spec fn block_code(block: BlockSelectionBits) -> u8 {
    match block {
        BlockSelectionBits::CommonRegister => 0b000_00,
        BlockSelectionBits::Socket0Register => 0b000_01,
        BlockSelectionBits::Socket0TxBuffer => 0b000_10,
        BlockSelectionBits::Socket0RxBuffer => 0b000_11,
        BlockSelectionBits::Socket1Register => 0b001_01,
        BlockSelectionBits::Socket1TxBuffer => 0b001_10,
        BlockSelectionBits::Socket1RxBuffer => 0b001_11,
        BlockSelectionBits::Socket2Register => 0b010_01,
        BlockSelectionBits::Socket2TxBuffer => 0b010_10,
        BlockSelectionBits::Socket2RxBuffer => 0b010_11,
        BlockSelectionBits::Socket3Register => 0b011_01,
        BlockSelectionBits::Socket3TxBuffer => 0b011_10,
        BlockSelectionBits::Socket3RxBuffer => 0b011_11,
        BlockSelectionBits::Socket4Register => 0b100_01,
        BlockSelectionBits::Socket4TxBuffer => 0b100_10,
        BlockSelectionBits::Socket4RxBuffer => 0b100_11,
        BlockSelectionBits::Socket5Register => 0b101_01,
        BlockSelectionBits::Socket5TxBuffer => 0b101_10,
        BlockSelectionBits::Socket5RxBuffer => 0b101_11,
        BlockSelectionBits::Socket6Register => 0b110_01,
        BlockSelectionBits::Socket6TxBuffer => 0b110_10,
        BlockSelectionBits::Socket6RxBuffer => 0b110_11,
        BlockSelectionBits::Socket7Register => 0b111_01,
        BlockSelectionBits::Socket7TxBuffer => 0b111_10,
        BlockSelectionBits::Socket7RxBuffer => 0b111_11,
    }
}

impl BlockSelectionBits {
    /// The code that selects this block.
    pub fn bits(self) -> (code: u8)
        ensures
            code == block_code(self),
            code < 32,
    {
        match self {
            BlockSelectionBits::CommonRegister => 0b000_00,
            BlockSelectionBits::Socket0Register => 0b000_01,
            BlockSelectionBits::Socket0TxBuffer => 0b000_10,
            BlockSelectionBits::Socket0RxBuffer => 0b000_11,
            BlockSelectionBits::Socket1Register => 0b001_01,
            BlockSelectionBits::Socket1TxBuffer => 0b001_10,
            BlockSelectionBits::Socket1RxBuffer => 0b001_11,
            BlockSelectionBits::Socket2Register => 0b010_01,
            BlockSelectionBits::Socket2TxBuffer => 0b010_10,
            BlockSelectionBits::Socket2RxBuffer => 0b010_11,
            BlockSelectionBits::Socket3Register => 0b011_01,
            BlockSelectionBits::Socket3TxBuffer => 0b011_10,
            BlockSelectionBits::Socket3RxBuffer => 0b011_11,
            BlockSelectionBits::Socket4Register => 0b100_01,
            BlockSelectionBits::Socket4TxBuffer => 0b100_10,
            BlockSelectionBits::Socket4RxBuffer => 0b100_11,
            BlockSelectionBits::Socket5Register => 0b101_01,
            BlockSelectionBits::Socket5TxBuffer => 0b101_10,
            BlockSelectionBits::Socket5RxBuffer => 0b101_11,
            BlockSelectionBits::Socket6Register => 0b110_01,
            BlockSelectionBits::Socket6TxBuffer => 0b110_10,
            BlockSelectionBits::Socket6RxBuffer => 0b110_11,
            BlockSelectionBits::Socket7Register => 0b111_01,
            BlockSelectionBits::Socket7TxBuffer => 0b111_10,
            BlockSelectionBits::Socket7RxBuffer => 0b111_11,
        }
    }
}

/// The three blocks of one socket.
#[derive(Debug, Clone, Copy, PartialEq, Eq, Structural)]
pub struct BlockAddress {
    pub reg: BlockSelectionBits,
    pub tx: BlockSelectionBits,
    pub rx: BlockSelectionBits,
}

/// A place in the chip's address space.
#[derive(Debug, Clone, Copy, PartialEq, Eq, Structural)]
pub struct Address {
    pub address: u16,
    pub block: BlockSelectionBits,
}

/// The control byte of a frame: the block in the upper five bits, bit 2 set to
/// write, and the operation mode in the lower two bits left 0 (variable length).
pub open spec fn control_byte(block: BlockSelectionBits, write: bool) -> u8 {
    (block_code(block) * 8 + if write {
        4int
    } else {
        0
    }) as u8
}

/// The header of a frame: the address, big-endian, and the control byte.
pub open spec fn header_of(addr: Address, write: bool) -> Seq<u8> {
    be16(addr.address).push(control_byte(addr.block, write))
}

/// Build the 3-byte command header for `addr`. `write` selects the RWB bit.
pub fn create_header(addr: &Address, write: bool) -> (h: [u8; 3])
    ensures
        h@ == header_of(*addr, write),
{
    let address = u16_to_be(addr.address);
    let access: u8 = if write {
        4
    } else {
        0
    };
    let h = [address[0], address[1], addr.block.bits() * 8 + access];
    assert(h@ =~= header_of(*addr, write));
    h
}

/// A block is known by its code.
pub proof fn law_block_codes(a: BlockSelectionBits, b: BlockSelectionBits)
    ensures
        block_code(a) < 32,
        block_code(a) == block_code(b) ==> a == b,
{
}

/// The chip finds in a header what it was built from: the address in the first
/// two bytes, and in the third the block, the direction, and no operation mode.
pub proof fn law_header_fields(addr: Address, write: bool)
    ensures
        header_of(addr, write).len() == HEADER,
        from_be16(header_of(addr, write).take(2)) == addr.address,
        header_of(addr, write)[2] / 8 == block_code(addr.block),
        header_of(addr, write)[2] / 4 % 2 == (if write {
            1int
        } else {
            0
        }),
        header_of(addr, write)[2] % 4 == 0,
{
    law_block_codes(addr.block, addr.block);
    assert(header_of(addr, write).take(2) =~= be16(addr.address));
}

/// The header byte by byte: the address with its most significant byte first, the block
/// in the upper five bits of the third byte, and 4 in it for a write.
pub proof fn law_header_bytes(addr: Address, write: bool)
    ensures
        header_of(addr, write).len() == 3,
        header_of(addr, write)[0] == addr.address / 256,
        header_of(addr, write)[1] == addr.address % 256,
        header_of(addr, write)[2] == 8 * block_code(addr.block) + (if write {
            4int
        } else {
            0
        }),
{
    law_block_codes(addr.block, addr.block);
}

/// No two accesses share a header.
pub proof fn law_header_unique(a: Address, v: bool, b: Address, w: bool)
    requires
        header_of(a, v) == header_of(b, w),
    ensures
        a == b,
        v == w,
{
    law_header_fields(a, v);
    law_header_fields(b, w);
    law_block_codes(a.block, b.block);
}

/// Reading `len` bytes at `addr`.
pub open spec fn read_request(addr: Address, len: nat) -> Request {
    Request::Batch { ops: seq![Op::Write { data: header_of(addr, false) }, Op::Read { len }] }
}

/// Writing `data` at `addr`.
pub open spec fn write_request(addr: Address, data: Seq<u8>) -> Request {
    Request::Batch {
        ops: seq![Op::Write { data: header_of(addr, true) }, Op::Write { data }],
    }
}

/// Starting to read `len` bytes at `addr`.
pub open spec fn start_read_request(addr: Address, len: nat) -> Request {
    Request::StartRead { header: header_of(addr, false), len }
}

/// Starting to write `data` at `addr`.
pub open spec fn start_write_request(addr: Address, data: Seq<u8>) -> Request {
    Request::StartWrite { header: header_of(addr, true), data }
}

/// Pausing for `ns` nanoseconds.
pub open spec fn delay_request(ns: u32) -> Request {
    Request::Batch { ops: seq![Op::Delay { ns }] }
}

} // verus!
