//! SPI operations one at a time: what a blocking SPI device puts on the bus for
//! an operation, and what it takes from it. The device itself only has to move
//! the bytes in between.
use vstd::prelude::*;

use crate::batch::Operation;
use crate::bytes::{clear_part, copy_at, copy_part, overlay, zeros};

verus! {

/// How many bytes an operation clocks.
pub open spec fn span(op: Operation<'_>) -> nat {
    match op {
        Operation::Read(items) => items@.len(),
        Operation::Write(items) => items@.len(),
        Operation::Transfer(read, write) => if read@.len() > write@.len() {
            read@.len()
        } else {
            write@.len()
        },
        Operation::TransferInPlace(items) => items@.len(),
        Operation::DelayNs(_) => 0,
    }
}

/// What an operation sends: its data, with zeros for what it only receives.
pub open spec fn sent_by(op: Operation<'_>) -> Seq<u8> {
    match op {
        Operation::Read(items) => zeros(items@.len()),
        Operation::Write(items) => items@,
        Operation::Transfer(read, write) => write@ + zeros((span(op) - write@.len()) as nat),
        Operation::TransferInPlace(items) => items@,
        Operation::DelayNs(_) => Seq::empty(),
    }
}

/// How many bytes `op` clocks.
pub fn op_span(op: &Operation<'_>) -> (n: usize)
    ensures
        n == span(*op),
{
    match op {
        Operation::Read(items) => items.len(),
        Operation::Write(items) => items.len(),
        Operation::Transfer(read, write) => if read.len() > write.len() {
            read.len()
        } else {
            write.len()
        },
        Operation::TransferInPlace(items) => items.len(),
        Operation::DelayNs(_) => 0,
    }
}

/// Lay what `op` sends into the front of `tx`. Gives the number of bytes to
/// clock.
pub fn stage_op(op: &Operation<'_>, tx: &mut [u8]) -> (n: usize)
    requires
        span(*op) <= old(tx)@.len(),
    ensures
        n == span(*op),
        sent_by(*op).len() == n,
        final(tx)@ == overlay(old(tx)@, 0, sent_by(*op)),
{
    match op {
        Operation::Read(items) => {
            let n = items.len();
            clear_part(tx, 0, n);
            n
        },
        Operation::Write(items) => {
            copy_at(tx, 0, items);
            items.len()
        },
        Operation::Transfer(read, write) => {
            let sent = write.len();
            let n = op_span(op);
            copy_at(tx, 0, write);
            clear_part(tx, sent, n - sent);
            assert(tx@ =~= overlay(old(tx)@, 0, sent_by(*op)));
            n
        },
        Operation::TransferInPlace(items) => {
            copy_at(tx, 0, items);
            items.len()
        },
        Operation::DelayNs(_) => {
            assert(tx@ =~= overlay(old(tx)@, 0, Seq::empty()));
            0
        },
    }
}

/// Give `op` what came in: the front of `rx`, as far as `op` receives.
pub fn collect_op(op: &mut Operation<'_>, rx: &[u8])
    requires
        span(*old(op)) <= rx@.len(),
    ensures
        match (*old(op), *final(op)) {
            (Operation::Read(x), Operation::Read(y)) => final(x)@ == final(y)@ && y@
                == rx@.take(x@.len() as int),
            (Operation::Write(x), Operation::Write(y)) => x@ == y@,
            (Operation::Transfer(x, v), Operation::Transfer(y, w)) => final(x)@ == final(y)@ && y@
                == rx@.take(x@.len() as int) && v@ == w@,
            (Operation::TransferInPlace(x), Operation::TransferInPlace(y)) => final(x)@
                == final(y)@ && y@ == rx@.take(x@.len() as int),
            (Operation::DelayNs(m), Operation::DelayNs(n)) => m == n,
            _ => false,
        },
{
    match op {
        Operation::Read(items) => {
            let n = items.len();
            copy_part(items, 0, rx, 0, n);
            assert(items@ =~= rx@.take(n as int));
        },
        Operation::Transfer(items, _) => {
            let n = items.len();
            copy_part(items, 0, rx, 0, n);
            assert(items@ =~= rx@.take(n as int));
        },
        Operation::TransferInPlace(items) => {
            let n = items.len();
            copy_part(items, 0, rx, 0, n);
            assert(items@ =~= rx@.take(n as int));
        },
        Operation::Write(_) => {},
        Operation::DelayNs(_) => {},
    }
}

/// How many clock cycles a pause of `ns` nanoseconds takes at `sysclk_hz`,
/// rounded down but never none. A count that does not fit wraps.
pub fn delay_cycles(ns: u32, sysclk_hz: u32) -> (cycles: u32)
    ensures
        cycles == ({
            let exact = (ns * sysclk_hz / 1_000_000_000) % 0x1_0000_0000;
            if exact == 0 {
                1
            } else {
                exact
            }
        }),
{
    proof {
        assert(ns * sysclk_hz <= 0xFFFF_FFFF * 0xFFFF_FFFF) by (nonlinear_arith)
            requires
                ns <= 0xFFFF_FFFF,
                sysclk_hz <= 0xFFFF_FFFF,
        ;
    }
    let exact = (ns as u64 * sysclk_hz as u64) / 1_000_000_000;
    let cycles = (exact % 0x1_0000_0000) as u32;
    if cycles == 0 {
        1
    } else {
        cycles
    }
}

} // verus!
