//! The MIDI bridge of a serial port.
//!
//! On output, the guest's bytes are put together into messages, which a
//! backend sends when they are due. On input, a backend fills a ring that the
//! receiver drains.
pub mod endpoints;
pub mod framer;
pub mod input;
pub mod laws;
pub mod schedule;
pub mod sink;
pub mod trace;
