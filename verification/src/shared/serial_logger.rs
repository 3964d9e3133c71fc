//! The logger on the first serial line.

use vstd::prelude::*;
use vstd::string::StringSliceAdditionalSpecFns;
use crate::kernel::port::PortWrite;
use crate::kernel::serial::{init_writes, sent_bytes, sent_text, SerialPort, COM1};

verus! {

/// A logger that writes to the first serial line.
pub struct SerialLogger {
    port: SerialPort,
}

impl SerialLogger {
    /// The base port of the line.
    pub closed spec fn base(&self) -> u16 {
        self.port.0
    }

    /// The logger, and the writes that set its line up.
    pub fn new() -> (r: (SerialLogger, Vec<PortWrite>))
        ensures
            r.0.base() == COM1,
            r.1@ == init_writes(COM1),
    {
        let port = SerialPort::new(COM1);
        let writes = port.init();
        (SerialLogger { port }, writes)
    }

    /// The port that takes the bytes of the log.
    pub fn data_port(&self) -> (port: u16)
        ensures
            port == self.base(),
    {
        self.port.0
    }

    /// The bytes to write to the line for the byte `data`.
    pub fn send(&mut self, data: u8) -> (bytes: Vec<u8>)
        ensures
            bytes@ == sent_bytes(data),
            final(self).base() == old(self).base(),
    {
        self.port.send(data)
    }

    /// The bytes to write to the line for a text.
    pub fn write_str(&mut self, text: &str) -> (bytes: Vec<u8>)
        ensures
            bytes@ == sent_text(text.spec_bytes()),
            final(self).base() == old(self).base(),
    {
        self.port.write_str(text.as_bytes())
    }
}

} // verus!
