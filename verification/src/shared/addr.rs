//! Physical and virtual addresses.

use vstd::prelude::*;

verus! {

/// A physical address.
#[derive(Clone, Copy, PartialEq, Eq, Structural, PartialOrd, Ord, Hash, Debug)]
pub struct PhysAddr(pub u64);

/// A virtual address. The constructors keep it canonical: bits 48 to 63 copy
/// bit 47.
#[derive(Clone, Copy, PartialEq, Eq, Structural, PartialOrd, Ord, Hash, Debug)]
pub struct VirtAddr(pub u64);

/// Why an address could not be built.
#[derive(Clone, Copy, PartialEq, Eq, Structural, Debug)]
pub enum AddrError {
    /// Bits 48 to 63 hold data: they are neither all clear nor a copy of a set bit 47.
    BadVirtualAddress,
    /// The sum does not fit in 64 bits.
    Overflow,
}

/// Bits 48 to 63 of `addr` copy bit 47.
pub open spec fn is_canonical(addr: u64) -> bool {
    addr < 0x0000_8000_0000_0000 || addr >= 0xffff_8000_0000_0000
}

/// `addr` with bits 48 to 63 replaced by copies of bit 47.
pub open spec fn sign_extend(addr: u64) -> u64 {
    let low: int = addr as int % 0x1_0000_0000_0000;
    if low < 0x8000_0000_0000 {
        low as u64
    } else {
        (low + 0xffff_0000_0000_0000) as u64
    }
}

/// Bits 48 to 63 of `addr` are all clear.
pub open spec fn high_bits_clear(addr: u64) -> bool {
    addr < 0x1_0000_0000_0000
}

/// What the checked constructor accepts: an address that is canonical already,
/// or one whose bits 48 to 63 are clear and only need the sign extension.
pub open spec fn accepted_by_check(addr: u64) -> bool {
    is_canonical(addr) || high_bits_clear(addr)
}

proof fn lemma_low_bits(addr: u64)
    by (bit_vector)
    ensures
        addr & 0x0000_8000_0000_0000 == 0 ==> addr % 0x1_0000_0000_0000 < 0x8000_0000_0000 && addr
            % 0x1_0000_0000_0000 == addr & 0x0000_ffff_ffff_ffff,
        addr & 0x0000_8000_0000_0000 != 0 ==> addr % 0x1_0000_0000_0000 >= 0x8000_0000_0000 && (addr
            % 0x1_0000_0000_0000) + 0xffff_0000_0000_0000 == addr | 0xffff_0000_0000_0000,
{
}

proof fn lemma_sign_extend_bits(addr: u64)
    ensures
        addr & 0x0000_8000_0000_0000 == 0 ==> sign_extend(addr) == addr & 0x0000_ffff_ffff_ffff,
        addr & 0x0000_8000_0000_0000 != 0 ==> sign_extend(addr) == addr | 0xffff_0000_0000_0000,
{
    lemma_low_bits(addr);
}

proof fn lemma_check_mask(addr: u64)
    by (bit_vector)
    ensures
        addr & 0xffff_8000_0000_0000 == 0 <==> addr < 0x0000_8000_0000_0000,
        addr & 0xffff_8000_0000_0000 == 0xffff_8000_0000_0000 <==> addr >= 0xffff_8000_0000_0000,
        addr & 0xffff_8000_0000_0000 == 0x0000_8000_0000_0000 <==> 0x0000_8000_0000_0000 <= addr
            < 0x1_0000_0000_0000,
{
}

proof fn lemma_low_bits_index(a: u64, b: u64)
    by (bit_vector)
    requires
        a % 0x1_0000_0000_0000 == b % 0x1_0000_0000_0000,
    ensures
        (a / 0x80_0000_0000) % 512 == (b / 0x80_0000_0000) % 512,
        (a / 0x4000_0000) % 512 == (b / 0x4000_0000) % 512,
        (a / 0x20_0000) % 512 == (b / 0x20_0000) % 512,
        (a / 0x1000) % 512 == (b / 0x1000) % 512,
        a % 4096 == b % 4096,
{
}

/// An address and its sign extension agree in every nine-bit table index and
/// in the offset inside the page.
pub proof fn lemma_sign_extend_indices(addr: u64)
    ensures
        (sign_extend(addr) / 0x80_0000_0000) % 512 == (addr / 0x80_0000_0000) % 512,
        (sign_extend(addr) / 0x4000_0000) % 512 == (addr / 0x4000_0000) % 512,
        (sign_extend(addr) / 0x20_0000) % 512 == (addr / 0x20_0000) % 512,
        (sign_extend(addr) / 0x1000) % 512 == (addr / 0x1000) % 512,
        sign_extend(addr) % 4096 == addr % 4096,
{
    lemma_sign_extend_canonical(addr);
    lemma_low_bits_index(sign_extend(addr), addr);
}

/// Sign extension gives a canonical address, leaves a canonical one alone, and
/// keeps the low 48 bits.
pub proof fn lemma_sign_extend_canonical(addr: u64)
    ensures
        is_canonical(sign_extend(addr)),
        is_canonical(addr) ==> sign_extend(addr) == addr,
        sign_extend(addr) as int % 0x1_0000_0000_0000 == addr as int % 0x1_0000_0000_0000,
        sign_extend(sign_extend(addr)) == sign_extend(addr),
{
}

/// Bits 48 to 63 of `addr`, as a number.
pub open spec fn high_bits(addr: u64) -> int {
    addr as int / 0x1_0000_0000_0000
}

/// Bit 47 of `addr` is set.
pub open spec fn bit_47(addr: u64) -> bool {
    (addr as int / 0x8000_0000_0000) % 2 == 1
}

/// What the checked constructor accepts, said of the bits: it accepts an
/// address if and only if its bits 48 to 63 are all clear, or all set, or
/// copy bit 47. This holds of every address but those whose bits 48 to 63
/// are all set over a clear bit 47, which the constructor refuses.
pub proof fn lemma_checked_constructor(addr: u64)
    requires
        !(high_bits(addr) == 0xffff && !bit_47(addr)),
    ensures
        accepted_by_check(addr) <==> (high_bits(addr) == 0 || high_bits(addr) == 0xffff || high_bits(
            addr,
        ) == (if bit_47(addr) {
            0xffffint
        } else {
            0int
        })),
{
}

/// Tells whether the checked constructor accepts the address.
pub fn accepted_by_check_addr(addr: u64) -> (accepted: bool)
    ensures
        accepted == accepted_by_check(addr),
{
    VirtAddr::new_checked(addr).is_ok()
}

impl VirtAddr {
    /// The address as a number.
    pub open spec fn value(self) -> u64 {
        self.0
    }

    /// Builds a canonical address from `addr` by sign extension of bit 47.
    /// Bits 48 to 63 of `addr` are dropped.
    pub fn new(addr: u64) -> (va: VirtAddr)
        ensures
            va.0 == sign_extend(addr),
            is_canonical(va.0),
    {
        proof {
            lemma_sign_extend_bits(addr);
            lemma_sign_extend_canonical(addr);
        }
        if addr & 0x0000_8000_0000_0000 != 0 {
            VirtAddr(addr | 0xffff_0000_0000_0000)
        } else {
            VirtAddr(addr & 0x0000_ffff_ffff_ffff)
        }
    }

    /// Builds a canonical address, or fails where bits 48 to 63 of `addr` hold
    /// data. A canonical `addr` is kept as it is; one with bits 48 to 63 clear
    /// and bit 47 set is sign-extended.
    pub fn new_checked(addr: u64) -> (r: Result<VirtAddr, AddrError>)
        ensures
            r is Ok <==> accepted_by_check(addr),
            r is Ok ==> r->Ok_0.0 == sign_extend(addr) && is_canonical(r->Ok_0.0),
            r is Err ==> r->Err_0 == AddrError::BadVirtualAddress,
    {
        proof {
            lemma_check_mask(addr);
            lemma_sign_extend_canonical(addr);
        }
        let top: u64 = addr & 0xffff_8000_0000_0000;
        if top == 0 || top == 0xffff_8000_0000_0000 {
            Ok(VirtAddr(addr))
        } else if top == 0x0000_8000_0000_0000 {
            Ok(VirtAddr::new(addr))
        } else {
            Err(AddrError::BadVirtualAddress)
        }
    }

    /// The address `offset` bytes further on, made canonical again. Fails where
    /// the sum leaves 64 bits.
    pub fn offset(&self, offset: u64) -> (r: Result<VirtAddr, AddrError>)
        ensures
            r is Ok <==> self.0 + offset <= u64::MAX,
            r is Ok ==> r->Ok_0.0 == sign_extend((self.0 + offset) as u64),
            r is Err ==> r->Err_0 == AddrError::Overflow,
    {
        match self.0.checked_add(offset) {
            Some(sum) => Ok(VirtAddr::new(sum)),
            None => Err(AddrError::Overflow),
        }
    }

    /// The canonical address of a pointer, given as the number it holds.
    pub fn from_ptr(ptr: usize) -> (va: VirtAddr)
        ensures
            va.0 == sign_extend(ptr as u64),
    {
        VirtAddr::new(ptr as u64)
    }

    /// The address 0.
    pub fn zero() -> (va: VirtAddr)
        ensures
            va.0 == 0,
    {
        VirtAddr(0)
    }

    /// The bitwise and of two addresses, made canonical.
    pub fn bit_and(self, rhs: VirtAddr) -> (va: VirtAddr)
        ensures
            va.0 == sign_extend(self.0 & rhs.0),
    {
        VirtAddr::new(self.0 & rhs.0)
    }

    /// The sum of two addresses, made canonical.
    pub fn plus(self, rhs: VirtAddr) -> (va: VirtAddr)
        requires
            self.0 + rhs.0 <= u64::MAX,
        ensures
            va.0 == sign_extend((self.0 + rhs.0) as u64),
    {
        VirtAddr::new(self.0 + rhs.0)
    }
}

} // verus!
