# copperline

The parts of an Amiga emulator that stand between the emulated machine and its
host: serial MIDI, a modem with scripted calls and Telnet, a Roland MT-32's
messages and songs, a user-mode network gateway and a bridge, packages and host
paths, two boards, and rollback netplay.

- `src/` is the library. Its functions state what they return and change, and
  Verus proves it. The models are sequences, maps and small records; the laws
  that hold across several functions are the proof functions named `law_...`.
- `tests/` runs the library on concrete values.
- `app/` is ordinary Rust around it: sockets, adapters, MIDI devices, files,
  configuration and floating-point sound.

What Verus takes on trust are the calls into other crates. Each stands in a
small function of its own, with a comment that says what is claimed of the call:
packet formats in `src/net/gateway/wire.rs`, the digest in
`src/netplay/digest.rs`, the input ring in `src/midi/input.rs`, and a few
functions on text. The traits `Machine`, `Transport` and `AdapterIo` are for
users to implement; what is proved of code that calls them holds of
implementations that keep their contracts.
