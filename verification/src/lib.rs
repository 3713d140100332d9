//! Receive path of a DMA-driven UART driver.
//!
//! The core of the crate is the double-buffered handoff protocol that passes
//! a DMA-filled ring buffer from the completion interrupt to a cooperative
//! poll loop, re-arms the engine, and exposes the drained bytes to the
//! application as a consumable window.  The protocol is verified against an
//! abstract model (`model`): every driver operation refines one model step,
//! and the model's invariants (single ownership of the buffer, the ready
//! flag implying a populated slot, and loss- and duplication-free transport)
//! are proved for every sequence of interrupt/poll interleavings.

use vstd::prelude::*;

pub mod driver;
pub mod model;
pub mod ring;

verus! {

/// Capacity of the receive ring buffer, in bytes.
pub const RING_CAPACITY: usize = 64;

/// Leading ring slots reserved before arming, required by the DMA engine
/// for its descriptor lookahead.
pub const RING_RESERVED: usize = 1;

/// Capacity of the application read window, in bytes.  Larger than the
/// ring so that bursts across several drain cycles fit before the
/// application consumes them.
pub const WINDOW_CAPACITY: usize = 1024;

} // verus!
