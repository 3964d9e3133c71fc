//! Processor I/O ports, and the accesses that the kernel asks for.
//!
//! The routines of the kernel that drive devices compute what to write; the
//! program around the library carries the writes out.

use vstd::prelude::*;

verus! {

/// An I/O port.
#[derive(Clone, Copy, PartialEq, Eq, Structural, Debug)]
pub struct Port {
    pub port: u16,
}

/// A byte to write to a port.
#[derive(Clone, Copy, PartialEq, Eq, Structural, Debug)]
pub struct PortWrite {
    pub port: u16,
    pub value: u8,
}

impl Port {
    /// The port with the number `port`.
    pub fn new(port: u16) -> (p: Port)
        ensures
            p.port == port,
    {
        Port { port }
    }

    /// The write of `value` to this port.
    pub fn write(&self, value: u8) -> (w: PortWrite)
        ensures
            w == (PortWrite { port: self.port, value }),
    {
        PortWrite { port: self.port, value }
    }
}

} // verus!
