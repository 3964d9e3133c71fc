//! The kernel's own virtual addresses, whose plain constructor refuses what
//! the checked one refuses.

use vstd::prelude::*;
use crate::shared::addr::{accepted_by_check, is_canonical, sign_extend, AddrError};

verus! {

/// A canonical virtual address.
#[derive(Clone, Copy, PartialEq, Eq, Structural, PartialOrd, Ord, Hash, Debug)]
pub struct VirtAddr(pub u64);

impl VirtAddr {
    /// Builds a canonical address from `addr` by sign extension of bit 47.
    /// Bits 48 to 63 of `addr` are dropped.
    pub fn new_truncate(addr: u64) -> (va: VirtAddr)
        ensures
            va.0 == sign_extend(addr),
            is_canonical(va.0),
    {
        VirtAddr(crate::shared::addr::VirtAddr::new(addr).0)
    }

    /// Builds a canonical address from an address whose bits 48 to 63 hold
    /// no data.
    pub fn new(addr: u64) -> (va: VirtAddr)
        requires
            accepted_by_check(addr),
        ensures
            va.0 == sign_extend(addr),
            is_canonical(va.0),
    {
        match Self::try_new(addr) {
            Ok(va) => va,
            Err(_) => VirtAddr(0),
        }
    }

    /// Builds a canonical address, or fails where bits 48 to 63 of `addr`
    /// hold data. A canonical `addr` is kept as it is; one with bits 48 to 63
    /// clear and bit 47 set is sign-extended.
    pub fn try_new(addr: u64) -> (r: Result<VirtAddr, AddrError>)
        ensures
            r is Ok <==> accepted_by_check(addr),
            r is Ok ==> r->Ok_0.0 == sign_extend(addr) && is_canonical(r->Ok_0.0),
            r is Err ==> r->Err_0 == AddrError::BadVirtualAddress,
    {
        match crate::shared::addr::VirtAddr::new_checked(addr) {
            Ok(va) => Ok(VirtAddr(va.0)),
            Err(e) => Err(e),
        }
    }

    /// The canonical address of a pointer, given as the number it holds.
    pub fn from_ptr(ptr: usize) -> (va: VirtAddr)
        requires
            accepted_by_check(ptr as u64),
        ensures
            va.0 == sign_extend(ptr as u64),
    {
        Self::new(ptr as u64)
    }

    /// The address 0.
    pub fn zero() -> (va: VirtAddr)
        ensures
            va.0 == 0,
    {
        VirtAddr(0)
    }
}

} // verus!
