//! Host-side logic of an Amiga emulator: netplay, networking, modem, MIDI,
//! MT-32, host paths and game packages.
pub mod bits;
pub mod bytes;
pub mod hostpath;
pub mod midi;
pub mod modem;
pub mod mt32;
pub mod net;
pub mod netplay;
pub mod package;
pub mod parallel;
pub mod pathconf;
pub mod paths;
pub mod picasso2;
pub mod ranking;
pub mod text;
