//! GGPO-style netplay for two to four players.
//!
//! Each player owns one controller port. Players past the second connect to
//! the host, which relays every port's input to every other player: guests
//! never address each other.
pub mod config;
pub mod connection;
pub mod digest;
pub mod feed;
pub mod hardware;
pub mod input;
pub mod laws;
pub mod machine;
pub mod message;
pub mod player;
pub mod report;
pub mod rollback;
pub mod session;
pub mod settings;
pub mod spectators;
pub mod swap;
pub mod timeline;
pub mod transport;
pub mod watcher;
pub mod wire;
pub mod words;
