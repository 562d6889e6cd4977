//! The MT-32: what it sends back, what its ROMs carry, and how its output is
//! paced.
//!
//! The synthesis itself is done elsewhere. Here are the messages that go to
//! the module and come from it, the songs and the version line of a control
//! ROM, the conversion from the module's rate to the mixer's, and the display.
pub mod addr;
pub mod demo;
pub mod display;
pub mod laws;
pub mod pace;
pub mod reply;
pub mod rom;
pub mod sink;
