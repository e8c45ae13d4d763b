//! The errors a driver operation can end in.
use vstd::prelude::*;

use crate::atomic_cell::AtomicError;

verus! {

/// What went wrong while talking to the chip.
#[derive(Debug, Clone, Copy, PartialEq, Eq, Structural)]
pub enum DriverError {
    /// The SPI transfer could not be started.
    SpiError,
    /// The reset line could not be driven.
    PinError,
    /// A single operation does not fit the scratch buffers.
    ScratchBufferOverrun,
    /// The chip answered with a value that is not valid at this point.
    UnexpectedResponse,
}

/// The error of a non-blocking operation: either it cannot be done right now
/// (try again later), or it failed.
#[derive(Debug, Clone, Copy, PartialEq, Eq, Structural)]
pub enum Error {
    Other(DriverError),
    WouldBlock,
}

impl From<AtomicError> for Error {
    /// A cell that is held elsewhere means "try again later".
    fn from(held: AtomicError) -> (error: Error) {
        match held {
            AtomicError::Busy => Error::WouldBlock,
        }
    }
}

impl vstd::std_specs::convert::FromSpecImpl<AtomicError> for Error {
    open spec fn obeys_from_spec() -> bool {
        true
    }

    open spec fn from_spec(held: AtomicError) -> Error {
        Error::WouldBlock
    }
}

} // verus!
