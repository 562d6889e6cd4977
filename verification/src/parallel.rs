//! The parallel port's peripherals.
//!
//! A peripheral that accepts a strobed byte acknowledges it. An input
//! peripheral drives the data pins itself. The default peripheral is an
//! unplugged cable: it neither acknowledges nor drives the pins.
use vstd::prelude::*;

verus! {

/// A peripheral at the parallel port.
pub trait ParallelPort {
    /// One strobe with the current levels of the data pins. Returns whether
    /// the byte is acknowledged.
    fn strobe(&mut self, data: u8, at_cck: u64) -> bool;

    /// The data pins as an input peripheral drives them, if it does.
    fn read_data(&mut self, at_cck: u64) -> Option<u8>;

    /// Bring out what was accepted. Returns whether that worked.
    fn flush(&mut self) -> bool;
}

/// An unplugged cable.
pub struct NullParallelPort;

impl ParallelPort for NullParallelPort {
    fn strobe(&mut self, data: u8, at_cck: u64) -> (r: bool)
        ensures
            !r,
    {
        false
    }

    fn read_data(&mut self, at_cck: u64) -> (r: Option<u8>)
        ensures
            r is None,
    {
        None
    }

    fn flush(&mut self) -> (r: bool)
        ensures
            r,
    {
        true
    }
}

pub fn null_parallel_port() -> (r: NullParallelPort)
    ensures
        r == NullParallelPort,
{
    NullParallelPort
}

/// A raw capture of what a printer would get: each byte is written as it
/// comes, and acknowledged. After a write that failed nothing more is taken.
pub struct FileParallelPort {
    pub failed: bool,
}

impl FileParallelPort {
    /// A capture that has just been opened.
    pub fn create() -> (r: FileParallelPort)
        ensures
            !r.failed,
    {
        FileParallelPort { failed: false }
    }

    /// Whether a strobed byte is to be written at all.
    pub fn accepts(&self) -> (r: bool)
        ensures
            r == !self.failed,
    {
        !self.failed
    }

    /// A byte was written, or could not be. Returns whether it is
    /// acknowledged.
    pub fn wrote(&mut self, ok: bool) -> (r: bool)
        ensures
            r == (!old(self).failed && ok),
            final(self).failed == (old(self).failed || !ok),
    {
        if !ok {
            self.failed = true;
        }
        !self.failed
    }
}

} // verus!
