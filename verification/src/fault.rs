//! What can go wrong with a descriptor or a file, as far as keylock tells it
//! apart.

use vstd::prelude::*;

verus! {

/// Why a system call failed.
#[derive(Debug, Clone, Copy, PartialEq, Eq, Structural)]
pub enum Fault {
    Interrupted,
    WouldBlock,
    /// The other side of a terminal is gone.
    HungUp,
    NotFound,
    ConnectionRefused,
    UnexpectedEof,
    Other,
}

/// The call did nothing yet and can be made again.
pub open spec fn transient(fault: Fault) -> bool {
    fault == Fault::Interrupted || fault == Fault::WouldBlock
}

/// Whether the call did nothing yet and can be made again.
pub fn retryable(fault: Fault) -> (again: bool)
    ensures
        again == transient(fault),
{
    match fault {
        Fault::Interrupted | Fault::WouldBlock => true,
        _ => false,
    }
}

} // verus!
