//! Loading a kernel image and handing the machine over to it.
//!
//! The crate covers the four steps between firmware and kernel: decoding the
//! file header and segment table of an executable image, planning the one
//! aligned memory range that backs every loadable segment, filling that range,
//! and deciding the order of the firmware calls that end in the jump to the
//! kernel. It performs no I/O itself: the caller reads the file, acquires the
//! memory and talks to the firmware, and hands plain values to these functions.

pub mod align;
pub mod error;
pub mod header;
pub mod segment;
pub mod layout;
pub mod loader;
pub mod handoff;
