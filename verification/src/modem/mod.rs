//! The modem's telnet layer, its scripted calls and its stored profile.
pub mod laws;
pub mod profile;
pub mod session;
pub mod telnet;
