//! Userspace NAT: a virtual gateway.
//!
//! The guest machine sees an ordinary Ethernet segment with a gateway and a
//! DNS server on it: network `10.0.2.0/24`, guest `10.0.2.15`, gateway
//! `10.0.2.2`, DNS forwarder `10.0.2.3`. Outbound IPv4 is carried by ordinary
//! host sockets.
pub mod dhcp;
pub mod dns;
pub mod engine;
pub mod frames;
pub mod laws;
pub mod tcp;
pub mod udp;
pub mod wire;
