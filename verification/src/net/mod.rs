//! Host networking backends for emulated Ethernet boards.
//!
//! An emulated card owns a backend: it pushes the frames the guest transmits
//! with `send` and pulls inbound frames with `poll`. A frame is a complete
//! Ethernet frame, without its check sequence. Backends are host resources:
//! a saved state records only which one a board uses.
pub mod backend;
pub mod bridge;
pub mod gateway;
pub mod laws;
