//! Verified core of a serial-to-frame bridge firmware.
//!
//! The library covers the logic of the serial pipeline: the bounded
//! single-producer/single-consumer byte handoff buffer, the stateful frame
//! decoding loop, the frame encoding path, the diagnostic log formatting,
//! and the periodic blink task's state machine.  Hardware access, interrupt
//! wiring and the cooperative executor live outside the library and hand it
//! plain values.

pub mod blink;
pub mod channel;
pub mod fault;
pub mod logger;
pub mod serial;
