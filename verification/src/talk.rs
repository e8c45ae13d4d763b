//! What an access says to one socket of the chip, in the chip's own numbers: the
//! laws of the two protocols are stated in these words.
use vstd::prelude::*;

use crate::access::{reply, Access};
use crate::address::{
    read_request, start_read_request, start_write_request, write_request, Address, BlockAddress,
};

verus! {

/// Whether an access reads `len` bytes of a register.
pub open spec fn reads(access: Access, block: BlockAddress, address: u16, len: nat) -> bool {
    access.request == read_request(Address { address, block: block.reg }, len)
}

/// Whether an access writes `data` to a register.
pub open spec fn writes(access: Access, block: BlockAddress, address: u16, data: Seq<u8>) -> bool {
    access.request == write_request(Address { address, block: block.reg }, data)
}

/// Whether an access writes one byte to a register.
pub open spec fn writes8(access: Access, block: BlockAddress, address: u16, value: u8) -> bool {
    writes(access, block, address, seq![value])
}

/// Whether an access writes a number of two bytes to a register, most significant
/// byte first.
pub open spec fn writes16(access: Access, block: BlockAddress, address: u16, value: u16) -> bool {
    writes(access, block, address, seq![(value / 256) as u8, (value % 256) as u8])
}

/// Whether an access writes a number of four bytes to a register, most significant
/// byte first.
pub open spec fn writes32(access: Access, block: BlockAddress, address: u16, value: u32) -> bool {
    writes(
        access,
        block,
        address,
        seq![
            (value / 0x100_0000) as u8,
            (value / 0x1_0000 % 256) as u8,
            (value / 256 % 256) as u8,
            (value % 256) as u8,
        ],
    )
}

/// Whether an access gives the socket the command `code`.
pub open spec fn orders(access: Access, block: BlockAddress, code: u8) -> bool {
    writes8(access, block, 0x0010, code)
}

/// Whether an access clears the interrupts of `mask`.
pub open spec fn clears(access: Access, block: BlockAddress, mask: u8) -> bool {
    writes8(access, block, 0x0028, mask)
}

/// Whether an access starts to move `len` bytes out of the RX buffer.
pub open spec fn draws(access: Access, block: BlockAddress, at: u16, len: nat) -> bool {
    access.request == start_read_request(Address { address: at, block: block.rx }, len)
}

/// Whether an access starts to move `data` into the TX buffer.
pub open spec fn feeds(access: Access, block: BlockAddress, at: u16, data: Seq<u8>) -> bool {
    access.request == start_write_request(Address { address: at, block: block.tx }, data)
}

/// The byte that an access brought in.
pub open spec fn octet(access: Access) -> u8 {
    reply(access)[0]
}

/// The number that an access brought in as two bytes, most significant byte first.
pub open spec fn number(access: Access) -> u16 {
    (reply(access)[0] * 256 + reply(access)[1]) as u16
}

/// A buffer pointer, `n` bytes on. Pointers wrap at 64 KiB.
pub open spec fn further(pointer: u16, n: int) -> u16 {
    ((pointer + n) % 0x1_0000) as u16
}

} // verus!
