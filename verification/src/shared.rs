//! Code shared by the loader and the kernel.

use vstd::prelude::*;

pub mod addr;
pub mod allocator;
pub mod bits;
pub mod crc;
pub mod ferr_fs;
pub mod frame_allocator;
pub mod logger;
pub mod page_table;
pub mod screen;
pub mod serial_logger;

verus! {

/// The offset at which all of physical memory is mapped: a frame at the
/// physical address `p` is visible at the virtual address `p + VIRT_MAPPING_OFFSET`.
pub const VIRT_MAPPING_OFFSET: u64 = 0x180_0000_0000;

/// The port of the emulator's exit device.
pub const QEMU_EXIT_PORT: u16 = 0xf4;

/// What the loader hands to the kernel.
#[derive(Clone, Copy)]
pub struct BootInfo {
    /// The framebuffer, at its place in the direct map.
    pub fb_info: logger::FrameBufferInfo,
    /// The physical address of the ACPI root pointer, or 0 without one.
    pub rsdp_addr: u64,
    /// The memory map.
    pub memory_map: frame_allocator::MemoryMap,
    /// The number of the first frame of the memory map's free frames that
    /// the loader has not used.
    pub memory_map_next_free_frame: usize,
}

/// How a test run ended, as the emulator's exit device is told.
#[derive(Debug, Clone, Copy, PartialEq, Eq, Structural)]
pub enum QemuExitCode {
    Success,
    Failed,
}

impl QemuExitCode {
    /// The byte that stands for the code.
    pub open spec fn code(self) -> u8 {
        match self {
            QemuExitCode::Success => 0x10,
            QemuExitCode::Failed => 0x11,
        }
    }

    /// The byte that stands for the code.
    pub fn as_u8(self) -> (code: u8)
        ensures
            code == self.code(),
    {
        match self {
            QemuExitCode::Success => 0x10,
            QemuExitCode::Failed => 0x11,
        }
    }
}

/// The write that makes the emulator exit with the code.
pub fn exit_qemu(exit_code: QemuExitCode) -> (write: crate::kernel::port::PortWrite)
    ensures
        write == (crate::kernel::port::PortWrite { port: QEMU_EXIT_PORT, value: exit_code.code() }),
{
    crate::kernel::port::PortWrite { port: QEMU_EXIT_PORT, value: exit_code.as_u8() }
}

/// A test that can be run.
pub trait Testable {
    /// Runs the test. A test that fails does not return.
    fn run(&self);
}

/// Runs the tests one after the other and returns the write that makes the
/// emulator exit with success.
pub fn test_runner<T: Testable>(tests: &[T]) -> (write: crate::kernel::port::PortWrite)
    ensures
        write == (crate::kernel::port::PortWrite {
            port: QEMU_EXIT_PORT,
            value: QemuExitCode::Success.code(),
        }),
{
    let mut i: usize = 0;
    while i < tests.len()
        invariant
            i <= tests@.len(),
        decreases tests@.len() - i,
    {
        tests[i].run();
        i = i + 1;
    }
    exit_qemu(QemuExitCode::Success)
}

/// Tells the flags register whether interrupts are enabled: bit 9, read as
/// `get_bits` reads a field.
pub fn interrupts_enabled(rflags: u64) -> (enabled: bool)
    ensures
        enabled == (bits::bit_field(rflags, 9, 10) == 1),
{
    bits::get_bits(rflags, 9..10) == 1
}

} // verus!
