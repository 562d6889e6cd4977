[package]
name = "copperline"
version = "0.1.0"
edition = "2021"
publish = false

[dependencies]
anyhow = "1"
libc = "0.2"
libloading = "0.8"
log = "0.4"
pcap = "2"
ringbuf = "0.4"
serde = { version = "1", features = ["derive"] }
serde_json = "1"
sha2 = "0.10"
smoltcp = { version = "0.12", default-features = false, features = ["std", "medium-ethernet", "proto-ipv4", "socket-tcp"] }
tempfile = "3"
toml = "0.8"
zip = { version = "2", default-features = false, features = ["deflate"] }
