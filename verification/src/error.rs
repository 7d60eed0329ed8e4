//! The ways in which loading and handing over can fail.

use vstd::prelude::*;

verus! {

/// Every failure ends the boot: none of them is retried from the start.
#[derive(Clone, Copy, Debug, PartialEq, Eq, Structural)]
pub enum BootError {
    /// Fewer bytes were available than a read step needed.
    TruncatedRead,
    /// The image does not have the header it should have: the magic number is
    /// missing, or the size of a segment-table entry is not the one that goes
    /// with the image's class.
    HeaderMismatch,
    /// The addressing class is neither 32-bit nor 64-bit.
    UnsupportedClass,
    /// The image has no loadable segment.
    EmptyImage,
    /// The memory that backs the image could not be acquired.
    AllocationFailure,
    /// The firmware refused to end its boot services.
    ExitBootServicesFailure,
}

} // verus!
