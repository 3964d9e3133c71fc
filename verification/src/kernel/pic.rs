//! The pair of legacy 8259 interrupt controllers.

use vstd::prelude::*;
use crate::kernel::port::{Port, PortWrite};

verus! {

/// The command that starts the initialization of a controller.
pub const CMD_INIT: u8 = 0x11;

/// The command that acknowledges an interrupt.
pub const CMD_END_OF_INTERRUPT: u8 = 0x20;

/// The mode the controllers run in.
pub const MODE_8086: u8 = 0x01;

/// The port that is written to only to let time pass.
pub const WAIT_PORT: u16 = 0x80;

/// One controller: the first of its eight interrupt numbers and its ports.
#[derive(Clone, Copy, PartialEq, Eq, Structural, Debug)]
pub struct Pic {
    pub offset: u8,
    pub command: Port,
    pub data: Port,
}

impl Pic {
    /// This controller serves the interrupt: the number is one of the eight
    /// from `offset` on.
    pub open spec fn serves(&self, interrupt_id: u8) -> bool {
        self.offset <= interrupt_id && interrupt_id < self.offset + 8
    }

    /// Tells whether this controller serves the interrupt.
    pub fn handles_interrupt(&self, interrupt_id: u8) -> (handles: bool)
        ensures
            handles == self.serves(interrupt_id),
    {
        self.offset <= interrupt_id && (interrupt_id as u16) < self.offset as u16 + 8
    }
}

/// The two controllers, the second chained through the first.
#[derive(Clone, Copy, Debug)]
pub struct ChainedPics {
    pub pics: [Pic; 2],
}

/// The writes that initialize the pair, given the interrupt masks that were
/// read from the two data ports before: the start command, the offsets, the
/// chaining, the mode, each followed by a write to the wait port, and at the
/// end the saved masks, the first with the two lowest bits cleared.
pub open spec fn initialize_writes(offset1: u8, offset2: u8, mask1: u8, mask2: u8) -> Seq<PortWrite> {
    seq![
        PortWrite { port: 0x20, value: CMD_INIT },
        PortWrite { port: WAIT_PORT, value: 0 },
        PortWrite { port: 0xA0, value: CMD_INIT },
        PortWrite { port: WAIT_PORT, value: 0 },
        PortWrite { port: 0x21, value: offset1 },
        PortWrite { port: WAIT_PORT, value: 0 },
        PortWrite { port: 0xA1, value: offset2 },
        PortWrite { port: WAIT_PORT, value: 0 },
        PortWrite { port: 0x21, value: 4 },
        PortWrite { port: WAIT_PORT, value: 0 },
        PortWrite { port: 0xA1, value: 2 },
        PortWrite { port: WAIT_PORT, value: 0 },
        PortWrite { port: 0x21, value: MODE_8086 },
        PortWrite { port: WAIT_PORT, value: 0 },
        PortWrite { port: 0xA1, value: MODE_8086 },
        PortWrite { port: WAIT_PORT, value: 0 },
        PortWrite { port: 0x21, value: mask1 & 0b1111_1100 },
        PortWrite { port: 0xA1, value: mask2 },
    ]
}

impl ChainedPics {
    /// The pair as it sits in a PC: commands at 0x20 and 0xA0, data at 0x21
    /// and 0xA1.
    pub open spec fn standard(&self) -> bool {
        &&& self.pics@[0].command.port == 0x20
        &&& self.pics@[0].data.port == 0x21
        &&& self.pics@[1].command.port == 0xA0
        &&& self.pics@[1].data.port == 0xA1
    }

    /// The pair with the given interrupt offsets.
    pub fn new(offset1: u8, offset2: u8) -> (pics: ChainedPics)
        ensures
            pics.standard(),
            pics.pics@[0].offset == offset1,
            pics.pics@[1].offset == offset2,
    {
        ChainedPics {
            pics: [
                Pic { offset: offset1, command: Port::new(0x20), data: Port::new(0x21) },
                Pic { offset: offset2, command: Port::new(0xA0), data: Port::new(0xA1) },
            ],
        }
    }

    /// The writes that initialize the pair; `saved_masks` are the interrupt
    /// masks read from the two data ports beforehand.
    pub fn initialize(&self, saved_masks: [u8; 2]) -> (writes: Vec<PortWrite>)
        requires
            self.standard(),
        ensures
            writes@ == initialize_writes(
                self.pics@[0].offset,
                self.pics@[1].offset,
                saved_masks@[0],
                saved_masks@[1],
            ),
    {
        let wait = PortWrite { port: WAIT_PORT, value: 0 };
        let mut writes: Vec<PortWrite> = Vec::new();
        writes.push(self.pics[0].command.write(CMD_INIT));
        writes.push(wait);
        writes.push(self.pics[1].command.write(CMD_INIT));
        writes.push(wait);
        writes.push(self.pics[0].data.write(self.pics[0].offset));
        writes.push(wait);
        writes.push(self.pics[1].data.write(self.pics[1].offset));
        writes.push(wait);
        writes.push(self.pics[0].data.write(4));
        writes.push(wait);
        writes.push(self.pics[1].data.write(2));
        writes.push(wait);
        writes.push(self.pics[0].data.write(MODE_8086));
        writes.push(wait);
        writes.push(self.pics[1].data.write(MODE_8086));
        writes.push(wait);
        writes.push(self.pics[0].data.write(saved_masks[0] & 0b1111_1100));
        writes.push(self.pics[1].data.write(saved_masks[1]));
        assert(writes@ =~= initialize_writes(
            self.pics@[0].offset,
            self.pics@[1].offset,
            saved_masks@[0],
            saved_masks@[1],
        ));
        writes
    }

    /// Tells whether one of the two controllers serves the interrupt.
    pub fn handles_interrupt(&self, interrupt_id: u8) -> (handles: bool)
        ensures
            handles == (self.pics@[0].serves(interrupt_id) || self.pics@[1].serves(interrupt_id)),
    {
        self.pics[0].handles_interrupt(interrupt_id) || self.pics[1].handles_interrupt(interrupt_id)
    }

    /// The writes that acknowledge the interrupt: none where neither
    /// controller serves it; else the end-of-interrupt command to the second
    /// controller, if that one serves it, and then to the first, through
    /// which every interrupt of the second passes.
    pub fn notify_end_of_interrupt(&self, interrupt_id: u8) -> (writes: Vec<PortWrite>)
        ensures
            writes@ == (if !(self.pics@[0].serves(interrupt_id) || self.pics@[1].serves(interrupt_id)) {
                Seq::<PortWrite>::empty()
            } else if self.pics@[1].serves(interrupt_id) {
                seq![
                    PortWrite { port: self.pics@[1].command.port, value: CMD_END_OF_INTERRUPT },
                    PortWrite { port: self.pics@[0].command.port, value: CMD_END_OF_INTERRUPT },
                ]
            } else {
                seq![PortWrite { port: self.pics@[0].command.port, value: CMD_END_OF_INTERRUPT }]
            }),
    {
        let mut writes: Vec<PortWrite> = Vec::new();
        if self.handles_interrupt(interrupt_id) {
            if self.pics[1].handles_interrupt(interrupt_id) {
                writes.push(self.pics[1].command.write(CMD_END_OF_INTERRUPT));
            }
            writes.push(self.pics[0].command.write(CMD_END_OF_INTERRUPT));
        }
        writes
    }
}

} // verus!
