//! A small x86_64 operating system, stated as a verified library.
//!
//! The crate holds the logic of a UEFI loader and of the kernel it starts:
//! address arithmetic, the physical frame allocator, the four-level page-table
//! engine, the heap, descriptor tables, ACPI and disk-format parsing, and the
//! bookkeeping of the cooperative task executor. Hardware is reached by the
//! program built around this library; here every routine works on plain values
//! and carries a contract.

pub mod kernel;
pub mod loader;
pub mod shared;
