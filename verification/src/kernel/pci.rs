//! The configuration space of the PCI bus.

use vstd::prelude::*;

verus! {

/// The port that takes the address in the configuration space.
pub const CONFIG_ADDRESS_PORT: u16 = 0xCF8;

/// The port that holds the double word at that address.
pub const CONFIG_DATA_PORT: u16 = 0xCFC;

/// The vendor that stands for no device.
pub const NO_DEVICE: u16 = 0xFFFF;

/// The offset of the vendor in the configuration space of a function.
pub const VENDOR_OFFSET: u8 = 0x0;

/// The offset of the word that holds the programming interface.
pub const PROG_IF_OFFSET: u8 = 0x8;

/// The offset of the word that holds class and subclass.
pub const CLASS_OFFSET: u8 = 0xA;

/// The offset of the word that holds the header type.
pub const HEADER_TYPE_OFFSET: u8 = 0xE;

/// The address of the double word that holds the word at `offset` in the
/// configuration space of a function: the enable bit, the bus, the device,
/// the function, and the offset rounded down to a double word.
pub open spec fn config_address(bus: u8, device: u8, func: u8, offset: u8) -> u32 {
    ((bus as u32) << 16) | ((device as u32) << 11) | ((func as u32) << 8) | ((offset as u32) & 0xFC)
        | 0x80000000u32
}

/// The address to write to the address port for the word at `offset`.
pub fn pci_config_address(bus: u8, device: u8, func: u8, offset: u8) -> (address: u32)
    ensures
        address == config_address(bus, device, func, offset),
{
    ((bus as u32) << 16) | ((device as u32) << 11) | ((func as u32) << 8) | ((offset as u32) & 0xFC)
        | 0x80000000u32
}

proof fn lemma_word_fits(data: u32, shift: u8)
    by (bit_vector)
    ensures
        (data >> ((shift & 2) * 8)) & 0xFFFF <= 0xFFFF,
        (shift & 2) * 8 <= 16,
        shift & 2 <= 2,
{
}

/// The word at `offset` of the double word `data` read from the data port:
/// the high word for an offset in the upper half of its double word, the
/// low word otherwise.
pub fn pci_config_word(data: u32, offset: u8) -> (word: u16)
    ensures
        word == (data >> (((offset & 2) * 8) as u32)) & 0xFFFF,
{
    proof {
        lemma_word_fits(data, offset);
    }
    ((data >> (((offset & 2) * 8) as u32)) & 0xFFFF) as u16
}

/// Tells from the header type whether the device has several functions.
pub fn is_multifunction(header_type: u8) -> (multi: bool)
    ensures
        multi == (header_type & 0x80 != 0),
{
    header_type & 0x80 != 0
}

/// The name of the kind of device that a class, a subclass and a
/// programming interface stand for; empty for a kind that has no name here.
pub open spec fn device_type_name(class_code: u8, subclass: u8, prog_if: u8) -> Seq<char> {
    if class_code == 0x6 && subclass == 0x0 {
        "Host Bridge"@
    } else if class_code == 0x6 && subclass == 0x1 {
        "ISA Bridge"@
    } else if class_code == 0x3 && subclass == 0x0 {
        if prog_if == 0 {
            "VGA Controller"@
        } else if prog_if == 1 {
            "VGA 8514-Compatible Controller"@
        } else {
            "VGA Compatible Controller"@
        }
    } else if class_code == 0x2 && subclass == 0x0 {
        "Ethernet Controller"@
    } else if class_code == 0x1 && subclass == 0x1 {
        if prog_if == 0x0 {
            "IDE ISA Compatibility mode-only controller"@
        } else if prog_if == 0x5 {
            "IDE PCI native mode-only controller"@
        } else if prog_if == 0xA {
            "IDE ISA Compatibility mode controller, supports both channels switched to PCI native mode"@
        } else if prog_if == 0xF {
            "IDE PCI native mode controller, supports both channels switched to ISA compatibility mode"@
        } else if prog_if == 0x80 {
            "IDE ISA Compatibility mode-only controller, supports bus mastering"@
        } else if prog_if == 0x85 {
            "IDE PCI native mode-only controller, supports bus mastering"@
        } else if prog_if == 0x8A {
            "IDE ISA Compatibility mode controller, supports both channels switched to PCI native mode, supports bus mastering"@
        } else if prog_if == 0x8F {
            "IDE PCI native mode controller, supports both channels switched to ISA compatibility mode, supports bus mastering"@
        } else {
            "Some IDE Controller"@
        }
    } else if class_code == 0x6 && subclass == 0x80 {
        "Other bridge"@
    } else {
        ""@
    }
}

/// The name of the kind of device: see `device_type_name`.
pub fn get_device_type(class_code: u8, subclass: u8, prog_if: u8) -> (name: &'static str)
    ensures
        name@ == device_type_name(class_code, subclass, prog_if),
{
    if class_code == 0x6 && subclass == 0x0 {
        "Host Bridge"
    } else if class_code == 0x6 && subclass == 0x1 {
        "ISA Bridge"
    } else if class_code == 0x3 && subclass == 0x0 {
        if prog_if == 0 {
            "VGA Controller"
        } else if prog_if == 1 {
            "VGA 8514-Compatible Controller"
        } else {
            "VGA Compatible Controller"
        }
    } else if class_code == 0x2 && subclass == 0x0 {
        "Ethernet Controller"
    } else if class_code == 0x1 && subclass == 0x1 {
        if prog_if == 0x0 {
            "IDE ISA Compatibility mode-only controller"
        } else if prog_if == 0x5 {
            "IDE PCI native mode-only controller"
        } else if prog_if == 0xA {
            "IDE ISA Compatibility mode controller, supports both channels switched to PCI native mode"
        } else if prog_if == 0xF {
            "IDE PCI native mode controller, supports both channels switched to ISA compatibility mode"
        } else if prog_if == 0x80 {
            "IDE ISA Compatibility mode-only controller, supports bus mastering"
        } else if prog_if == 0x85 {
            "IDE PCI native mode-only controller, supports bus mastering"
        } else if prog_if == 0x8A {
            "IDE ISA Compatibility mode controller, supports both channels switched to PCI native mode, supports bus mastering"
        } else if prog_if == 0x8F {
            "IDE PCI native mode controller, supports both channels switched to ISA compatibility mode, supports bus mastering"
        } else {
            "Some IDE Controller"
        }
    } else if class_code == 0x6 && subclass == 0x80 {
        "Other bridge"
    } else {
        ""
    }
}

} // verus!
