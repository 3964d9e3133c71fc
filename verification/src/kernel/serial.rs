//! The serial line driver: what to write to the ports of a 16550 UART.

use vstd::prelude::*;
use crate::kernel::port::PortWrite;

verus! {

/// Line status: a byte has been received.
pub const INPUT_FULL: u8 = 1;

/// Line status: the transmitter can take a byte.
pub const OUTPUT_EMPTY: u8 = 0x20;

/// The bits of the line status that the driver knows.
pub const LINE_STATUS_BITS: u8 = 0x21;

/// The base port of the first serial line.
pub const COM1: u16 = 0x3F8;

/// Tells whether bit `n` of `input` is set. A byte has no bit from 32 on;
/// the bits 8 to 31 cannot be asked for.
pub fn get_bit_at(input: u8, n: u8) -> (set: bool)
    requires
        n < 8 || n >= 32,
    ensures
        set == (n < 8 && input & (1u8 << n) != 0),
{
    if n < 32 {
        input & (1u8 << n) != 0
    } else {
        false
    }
}

/// A serial line, by its base port.
#[derive(Clone, Copy, PartialEq, Eq, Structural, Debug)]
pub struct SerialPort(pub u16);

/// The writes that set a serial line up: interrupts off, divisor 3 for
/// 38400 bps, eight data bits, FIFO on and cleared with a 14-byte
/// watermark, the modem lines ready, interrupts on.
pub open spec fn init_writes(base: u16) -> Seq<PortWrite> {
    seq![
        PortWrite { port: (base + 1) as u16, value: 0x00 },
        PortWrite { port: (base + 3) as u16, value: 0x80 },
        PortWrite { port: base, value: 0x03 },
        PortWrite { port: (base + 1) as u16, value: 0x00 },
        PortWrite { port: (base + 3) as u16, value: 0x03 },
        PortWrite { port: (base + 2) as u16, value: 0xc7 },
        PortWrite { port: (base + 4) as u16, value: 0x0b },
        PortWrite { port: (base + 1) as u16, value: 0x01 },
    ]
}

/// The bytes that go out on the line for the byte `data`: a backspace or a
/// delete rubs the last character out with backspace, blank, backspace;
/// every other byte goes out as it is.
pub open spec fn sent_bytes(data: u8) -> Seq<u8> {
    if data == 8 || data == 0x7F {
        seq![8u8, 0x20u8, 8u8]
    } else {
        seq![data]
    }
}

/// The bytes that go out on the line for the bytes of `text`.
pub open spec fn sent_text(text: Seq<u8>) -> Seq<u8>
    decreases text.len(),
{
    if text.len() == 0 {
        Seq::empty()
    } else {
        sent_text(text.drop_last()) + sent_bytes(text.last())
    }
}

impl SerialPort {
    /// The line at the base port `base`.
    pub fn new(base: u16) -> (port: SerialPort)
        ensures
            port.0 == base,
    {
        SerialPort(base)
    }

    /// The port of the line status register.
    pub fn line_status_port(&self) -> (port: u16)
        requires
            self.0 <= 0xFFFA,
        ensures
            port == self.0 + 5,
    {
        self.0 + 5
    }

    /// The known bits of a line status read from the status port.
    pub fn line_sts(raw: u8) -> (status: u8)
        ensures
            status == raw & LINE_STATUS_BITS,
    {
        raw & LINE_STATUS_BITS
    }

    /// Tells whether a line status lets the next byte out.
    pub fn can_send(status: u8) -> (ok: bool)
        ensures
            ok == (status & OUTPUT_EMPTY == OUTPUT_EMPTY),
    {
        status & OUTPUT_EMPTY == OUTPUT_EMPTY
    }

    /// The writes that set the line up.
    pub fn init(&self) -> (writes: Vec<PortWrite>)
        requires
            self.0 <= 0xFFFA,
        ensures
            writes@ == init_writes(self.0),
    {
        let port = self.0;
        let mut writes: Vec<PortWrite> = Vec::new();
        writes.push(PortWrite { port: port + 1, value: 0x00 });
        writes.push(PortWrite { port: port + 3, value: 0x80 });
        writes.push(PortWrite { port, value: 0x03 });
        writes.push(PortWrite { port: port + 1, value: 0x00 });
        writes.push(PortWrite { port: port + 3, value: 0x03 });
        writes.push(PortWrite { port: port + 2, value: 0xc7 });
        writes.push(PortWrite { port: port + 4, value: 0x0b });
        writes.push(PortWrite { port: port + 1, value: 0x01 });
        assert(writes@ =~= init_writes(self.0));
        writes
    }

    /// The bytes to write to the line's data port for the byte `data`, each
    /// once the line status lets it out.
    pub fn send(&self, data: u8) -> (bytes: Vec<u8>)
        ensures
            bytes@ == sent_bytes(data),
    {
        let mut bytes: Vec<u8> = Vec::new();
        if data == 8 || data == 0x7F {
            bytes.push(8);
            bytes.push(0x20);
            bytes.push(8);
        } else {
            bytes.push(data);
        }
        assert(bytes@ =~= sent_bytes(data));
        bytes
    }

    /// The bytes to write to the line's data port for a text.
    pub fn write_str(&self, text: &[u8]) -> (bytes: Vec<u8>)
        ensures
            bytes@ == sent_text(text@),
    {
        let mut bytes: Vec<u8> = Vec::new();
        let mut i: usize = 0;
        assert(text@.take(0) =~= Seq::<u8>::empty());
        while i < text.len()
            invariant
                i <= text@.len(),
                bytes@ == sent_text(text@.take(i as int)),
            decreases text@.len() - i,
        {
            let data = text[i];
            let ghost before = bytes@;
            if data == 8 || data == 0x7F {
                bytes.push(8);
                bytes.push(0x20);
                bytes.push(8);
            } else {
                bytes.push(data);
            }
            assert(bytes@ =~= before + sent_bytes(data));
            assert(text@.take(i + 1).drop_last() =~= text@.take(i as int));
            i = i + 1;
        }
        assert(text@.take(i as int) =~= text@);
        bytes
    }
}

} // verus!
