//! The chip's end of a TCP connection, as far as bytes go: what it keeps of the
//! peer's bytes, what it was given for the peer, and how the pointers of its two
//! buffers move. The driver never sees this; its laws speak of a chip that behaves
//! so.
use vstd::prelude::*;

use crate::access::{reply, Access, Request, HEADER};
use crate::address::{
    control_byte, law_block_codes, law_header_fields, read_request, start_read_request,
    start_write_request, write_request, Address, BlockAddress,
};
use crate::bus::Op;
use crate::bytes::from_be16;
use crate::own_blocks::{header_in, speaks_to};
use crate::socket::ahead;
use crate::socket_common::{
    byte, command_code, reports, status_register, word, SocketCommand, SocketStatusRegister,
    IR_TIMEOUT, SN_CR, SN_IR, SN_RX_RD0, SN_RX_RSR0, SN_SR, SN_TX_WR0,
};

verus! {

/// How far `to` is ahead of `from` in a buffer. Pointers wrap.
pub open spec fn distance(from: u16, to: u16) -> int {
    (to - from) % 0x1_0000
}

/// A pointer that was moved on is as far ahead as it was moved.
pub proof fn lemma_distance(pointer: u16, n: int)
    requires
        0 <= n < 0x1_0000,
    ensures
        distance(pointer, ahead(pointer, n)) == n,
{
    reveal(ahead);
}

/// The chip's end of a connection.
#[verifier::ext_equal]
pub struct Wire {
    /// What the peer has sent and the driver has not acknowledged, oldest first.
    pub waiting: Seq<u8>,
    /// Where the oldest of these stands in the RX buffer.
    pub rx_at: u16,
    /// The RX read pointer as it was last written.
    pub rx_pointer: u16,
    /// Where the next byte for the peer belongs in the TX buffer.
    pub tx_at: u16,
    /// The TX write pointer as it was last written.
    pub tx_pointer: u16,
    /// The TX buffer.
    pub memory: spec_fn(u16) -> u8,
    /// What has gone out to the peer, in order.
    pub sent: Seq<u8>,
}

/// What a request writes, if it writes.
pub open spec fn data_in(request: Request) -> Option<Seq<u8>> {
    match request {
        Request::Batch { ops } => match ops[1] {
            Op::Write { data } => Some(data),
            _ => None,
        },
        Request::StartWrite { header, data } => Some(data),
        _ => None,
    }
}

/// How much a request reads.
pub open spec fn len_in(request: Request) -> nat {
    match request {
        Request::Batch { ops } => match ops[1] {
            Op::Read { len } => len,
            _ => 0,
        },
        Request::StartRead { header, len } => len,
        _ => 0,
    }
}

/// What came in with an access that reads.
pub open spec fn captured(access: Access) -> Seq<u8> {
    match access.request {
        Request::StartRead { header, len } => access.events[0]->Transfer_miso.skip(HEADER as int),
        _ => reply(access),
    }
}

impl Wire {
    /// What the RX buffer holds from `at` on.
    pub open spec fn received(self, at: u16, len: nat) -> Seq<u8> {
        Seq::new(len, |k: int| self.waiting[distance(self.rx_at, ahead(at, k))])
    }

    /// What the TX buffer holds from `at` on.
    pub open spec fn staged(self, at: u16, len: nat) -> Seq<u8> {
        Seq::new(len, |k: int| (self.memory)(ahead(at, k)))
    }

    /// After `data` was written into the TX buffer.
    pub open spec fn stored(self, at: u16, data: Seq<u8>) -> Wire {
        Wire {
            memory: |a: u16|
                if distance(at, a) < data.len() {
                    data[distance(at, a)]
                } else {
                    (self.memory)(a)
                },
            ..self
        }
    }

    /// After `data` was written to a register. `RECV` gives up what the read pointer
    /// has passed, `SEND` sends what the write pointer has passed. The other
    /// registers have no part in moving bytes.
    pub open spec fn told(self, address: u16, data: Seq<u8>) -> Wire {
        if address == SN_RX_RD0 {
            Wire { rx_pointer: from_be16(data), ..self }
        } else if address == SN_TX_WR0 {
            Wire { tx_pointer: from_be16(data), ..self }
        } else if address == SN_CR && data == seq![command_code(SocketCommand::Receive)] {
            Wire {
                waiting: self.waiting.skip(distance(self.rx_at, self.rx_pointer)),
                rx_at: self.rx_pointer,
                ..self
            }
        } else if address == SN_CR && data == seq![command_code(SocketCommand::Send)] {
            Wire {
                sent: self.sent + self.staged(
                    self.tx_at,
                    distance(self.tx_at, self.tx_pointer) as nat,
                ),
                tx_at: self.tx_pointer,
                ..self
            }
        } else {
            self
        }
    }

    /// After a request was carried out.
    pub open spec fn after(self, block: BlockAddress, request: Request) -> Wire {
        match (header_in(request), data_in(request)) {
            (Some(header), Some(data)) => {
                let at = from_be16(header.take(2));
                if header[2] == control_byte(block.tx, true) {
                    self.stored(at, data)
                } else if header[2] == control_byte(block.reg, true) {
                    self.told(at, data)
                } else {
                    self
                }
            },
            _ => self,
        }
    }

    /// Whether an access read from a register what it shows: how much is waiting,
    /// the pointers, and a connection that stands.
    pub open spec fn shows(self, address: u16, access: Access) -> bool {
        &&& address == SN_RX_RSR0 ==> word(access) == self.waiting.len()
        &&& address == SN_RX_RD0 ==> word(access) == self.rx_pointer
        &&& address == SN_TX_WR0 ==> word(access) == self.tx_pointer
        &&& address == SN_SR ==> status_register(byte(access)) == SocketStatusRegister::Established
        &&& address == SN_IR ==> !reports(byte(access), IR_TIMEOUT)
    }

    /// Whether an access succeeded and brought in what the chip has.
    pub open spec fn answers(self, block: BlockAddress, access: Access) -> bool {
        &&& access.outcome is Ok
        &&& match header_in(access.request) {
            Some(header) => {
                let at = from_be16(header.take(2));
                &&& header[2] == control_byte(block.reg, false) ==> self.shows(at, access)
                &&& header[2] == control_byte(block.rx, false) ==> captured(access)
                    == self.received(at, len_in(access.request))
            },
            None => true,
        }
    }

    /// After all of `done` was carried out.
    pub open spec fn after_all(self, block: BlockAddress, done: Seq<Access>) -> Wire
        decreases done.len(),
    {
        if done.len() == 0 {
            self
        } else {
            self.after_all(block, done.drop_last()).after(block, done.last().request)
        }
    }

    /// Whether each of the accesses `done`, made one after the other, succeeded and
    /// brought in what the chip had at that time.
    #[verifier::opaque]
    pub open spec fn answered(self, block: BlockAddress, done: Seq<Access>) -> bool {
        forall|k: int|
            0 <= k < done.len() ==> self.after_all(block, done.take(k)).answers(
                block,
                #[trigger] done[k],
            )
    }

    /// Accesses in two parts.
    pub proof fn lemma_parts(self, block: BlockAddress, done: Seq<Access>, n: int)
        requires
            0 <= n <= done.len(),
        ensures
            self.after_all(block, done) == self.after_all(block, done.take(n)).after_all(
                block,
                done.skip(n),
            ),
            self.answered(block, done) ==> {
                &&& self.answered(block, done.take(n))
                &&& self.after_all(block, done.take(n)).answered(block, done.skip(n))
            },
        decreases done.len(),
    {
        reveal(Wire::answered);
        let first = done.take(n);
        let rest = done.skip(n);
        if n == done.len() {
            assert(first =~= done);
        } else {
            self.lemma_parts(block, done.drop_last(), n);
            assert(done.drop_last().take(n) =~= first);
            assert(done.drop_last().skip(n) =~= rest.drop_last());
            assert(rest.last() == done.last());
        }
        if self.answered(block, done) {
            assert forall|k: int| 0 <= k < first.len() implies self.after_all(
                block,
                first.take(k),
            ).answers(block, #[trigger] first[k]) by {
                assert(first.take(k) =~= done.take(k));
                assert(first[k] == done[k]);
            }
            assert forall|k: int| 0 <= k < rest.len() implies self.after_all(
                block,
                first,
            ).after_all(block, rest.take(k)).answers(block, #[trigger] rest[k]) by {
                let part = done.take(n + k);
                if n + k < done.len() {
                    self.lemma_parts(block, part, n);
                    assert(part.take(n) =~= first);
                    assert(part.skip(n) =~= rest.take(k));
                }
                assert(rest[k] == done[n + k]);
            }
        }
    }

    /// Accesses that change nothing are all answered out of the same state.
    pub proof fn lemma_quiet(self, block: BlockAddress, done: Seq<Access>)
        requires
            forall|k: int|
                0 <= k < done.len() ==> self.after(block, (#[trigger] done[k]).request) == self,
        ensures
            self.after_all(block, done) == self,
            self.answered(block, done) ==> forall|k: int|
                0 <= k < done.len() ==> self.answers(block, #[trigger] done[k]),
        decreases done.len(),
    {
        reveal(Wire::answered);
        if done.len() > 0 {
            assert(done.last() == done[done.len() - 1]);
            assert forall|k: int| 0 <= k < done.drop_last().len() implies self.after(
                block,
                (#[trigger] done.drop_last()[k]).request,
            ) == self by {
                assert(done.drop_last()[k] == done[k]);
            }
            self.lemma_quiet(block, done.drop_last());
        }
        if self.answered(block, done) {
            assert forall|k: int| 0 <= k < done.len() implies self.answers(
                block,
                #[trigger] done[k],
            ) by {
                let front = done.take(k);
                assert forall|j: int| 0 <= j < front.len() implies self.after(
                    block,
                    (#[trigger] front[j]).request,
                ) == self by {
                    assert(front[j] == done[j]);
                }
                self.lemma_quiet(block, front);
            }
        }
    }

    /// What speaks to other blocks changes nothing.
    pub proof fn lemma_elsewhere(self, block: BlockAddress, request: Request)
        requires
            !speaks_to(block, request),
        ensures
            self.after(block, request) == self,
    {
        law_block_codes(block.tx, block.tx);
        law_block_codes(block.reg, block.reg);
    }

    /// Reading from a register changes nothing and gives what it shows.
    pub proof fn lemma_read(self, block: BlockAddress, address: u16, len: nat)
        ensures
            self.after(block, read_request(Address { address, block: block.reg }, len)) == self,
            forall|access: Access|
                #![trigger self.answers(block, access)]
                self.answers(block, access) && access.request == read_request(
                    Address { address, block: block.reg },
                    len,
                ) ==> self.shows(address, access),
    {
        law_header_fields(Address { address, block: block.reg }, false);
    }

    /// Writing to a register tells the chip.
    pub proof fn lemma_told(self, block: BlockAddress, address: u16, data: Seq<u8>)
        requires
            block.reg != block.tx,
        ensures
            self.after(block, write_request(Address { address, block: block.reg }, data))
                == self.told(address, data),
    {
        law_header_fields(Address { address, block: block.reg }, true);
        law_block_codes(block.reg, block.tx);
    }

    /// A read that is started changes nothing and captures what the RX buffer holds.
    pub proof fn lemma_captured(self, block: BlockAddress, at: u16, len: nat)
        requires
            block.reg != block.rx,
        ensures
            self.after(block, start_read_request(Address { address: at, block: block.rx }, len))
                == self,
            forall|access: Access|
                #![trigger self.answers(block, access)]
                self.answers(block, access) && access.request == start_read_request(
                    Address { address: at, block: block.rx },
                    len,
                ) ==> access.events[0]->Transfer_miso.skip(HEADER as int) == self.received(at, len),
    {
        law_header_fields(Address { address: at, block: block.rx }, false);
    }

    /// A write that is started fills the TX buffer.
    pub proof fn lemma_stored(self, block: BlockAddress, at: u16, data: Seq<u8>)
        requires
            data.len() < 0x1_0000,
        ensures
            self.after(block, start_write_request(Address { address: at, block: block.tx }, data))
                == self.stored(at, data),
            self.stored(at, data).staged(at, data.len()) == data,
    {
        law_header_fields(Address { address: at, block: block.tx }, true);
        let stored = self.stored(at, data);
        assert forall|k: int| 0 <= k < data.len() implies (stored.memory)(ahead(at, k)) == data[k] by {
            lemma_distance(at, k);
        }
        assert(stored.staged(at, data.len()) =~= data);
    }

    /// The RX buffer holds the oldest waiting bytes where they are said to stand.
    pub proof fn lemma_received(self, len: nat)
        requires
            len <= self.waiting.len(),
            self.waiting.len() < 0x1_0000,
        ensures
            self.received(self.rx_at, len) == self.waiting.take(len as int),
    {
        assert forall|k: int| 0 <= k < len implies self.waiting[distance(
            self.rx_at,
            ahead(self.rx_at, k),
        )] == self.waiting[k] by {
            lemma_distance(self.rx_at, k);
        }
        assert(self.received(self.rx_at, len) =~= self.waiting.take(len as int));
    }
}

} // verus!
