//! The ACPI tables that tell where the interrupt controllers are: the root
//! pointer, the extended system description table, and the multiple APIC
//! description table.
//!
//! The tables are read from bytes that the program around the library
//! copies out of physical memory.

use vstd::prelude::*;
use crate::loader::{
    map_run, mappings_kept, rest_kept, run_cause, run_mapped, run_stopped, LoadError,
};
use crate::shared::addr::{accepted_by_check, sign_extend, PhysAddr, VirtAddr};
use crate::shared::page_table::{page_base, reachable, AddressSpace};
use crate::shared::VIRT_MAPPING_OFFSET;
use crate::kernel::apic::LOCAL_APIC_SPAN;

verus! {

/// The bytes of the root pointer of ACPI 2.
pub const RSDP_SIZE: usize = 36;

/// The bytes of the root pointer that ACPI 1 knew; they have a checksum
/// of their own.
pub const RSDP_V1_SIZE: usize = 20;

/// The bytes of the header of a system description table.
pub const SDT_HEADER_SIZE: usize = 36;

/// The type of the entry of the multiple APIC description table that
/// describes an I/O APIC.
pub const MADT_IO_APIC: u8 = 1;

/// The type of the entry that describes an interrupt source override.
pub const MADT_SOURCE_OVERRIDE: u8 = 2;

/// Why the ACPI tables could not be used.
#[derive(Clone, Copy, PartialEq, Eq, Structural, Debug)]
pub enum AcpiError {
    /// There are fewer bytes than the table needs.
    TooShort,
    /// The root pointer is not of revision 2.
    UnsupportedRevision,
    /// The bytes of the root pointer that ACPI 1 knew do not sum to zero.
    Rsdp1Checksum,
    /// The bytes that ACPI 2 added to the root pointer do not sum to zero.
    Rsdp2Checksum,
    /// The bytes of the extended system description table do not sum to zero.
    XsdtChecksum,
    /// The bytes of the multiple APIC description table do not sum to zero.
    MadtChecksum,
    /// The multiple APIC description table describes no I/O APIC, or an
    /// entry of it is cut short or has no length.
    InvalidMadt,
    /// The tables tell of no local APIC.
    NoLocalApic,
    /// An address of a table or a controller cannot be reached through the
    /// direct map.
    BadAddress,
    /// The registers of a controller could not be mapped.
    Unmapped(LoadError),
}

/// The sum of the bytes.
pub open spec fn byte_sum(bytes: Seq<u8>) -> int
    decreases bytes.len(),
{
    if bytes.len() == 0 {
        0
    } else {
        byte_sum(bytes.drop_last()) + bytes.last()
    }
}

/// The sum of the bytes, as far as a byte holds it.
pub fn wrapping_sum(arr: &[u8]) -> (sum: u8)
    ensures
        sum == byte_sum(arr@) % 256,
{
    let mut sum: u8 = 0;
    let mut i: usize = 0;
    assert(arr@.take(0) =~= Seq::<u8>::empty());
    while i < arr.len()
        invariant
            i <= arr@.len(),
            sum == byte_sum(arr@.take(i as int)) % 256,
        decreases arr@.len() - i,
    {
        assert(arr@.take(i + 1).drop_last() =~= arr@.take(i as int));
        sum = sum.wrapping_add(arr[i]);
        i = i + 1;
    }
    assert(arr@.take(i as int) =~= arr@);
    sum
}

/// The number that four bytes spell, the lowest first.
pub open spec fn le_u32(bytes: Seq<u8>, at: int) -> u32 {
    (bytes[at] + bytes[at + 1] * 0x100 + bytes[at + 2] * 0x1_0000 + bytes[at + 3] * 0x100_0000) as u32
}

/// The number that eight bytes spell, the lowest first.
pub open spec fn le_u64(bytes: Seq<u8>, at: int) -> u64 {
    (le_u32(bytes, at) + le_u32(bytes, at + 4) * 0x1_0000_0000) as u64
}

/// Reads four bytes as a number, the lowest byte first.
pub fn read_u32(bytes: &[u8], at: usize) -> (value: u32)
    requires
        at + 4 <= bytes@.len(),
    ensures
        value == le_u32(bytes@, at as int),
{
    // the length, as a machine word, bounds the indices below
    let _len = bytes.len();
    bytes[at] as u32 + bytes[at + 1] as u32 * 0x100 + bytes[at + 2] as u32 * 0x1_0000 + bytes[at
        + 3] as u32 * 0x100_0000
}

/// Reads eight bytes as a number, the lowest byte first.
pub fn read_u64(bytes: &[u8], at: usize) -> (value: u64)
    requires
        at + 8 <= bytes@.len(),
    ensures
        value == le_u64(bytes@, at as int),
{
    // the length, as a machine word, bounds the indices below
    let _len = bytes.len();
    read_u32(bytes, at) as u64 + read_u32(bytes, at + 4) as u64 * 0x1_0000_0000
}

/// The physical address of the extended system description table that the
/// root pointer in `rsdp` names, or what is wrong with the root pointer:
/// too few bytes; else a revision other than 2; else the first checksum;
/// else the second.
pub open spec fn xsdt_address_of(rsdp: Seq<u8>) -> Result<u64, AcpiError> {
    if rsdp.len() < RSDP_SIZE {
        Err(AcpiError::TooShort)
    } else if rsdp[15] != 2 {
        Err(AcpiError::UnsupportedRevision)
    } else if byte_sum(rsdp.subrange(0, RSDP_V1_SIZE as int)) % 256 != 0 {
        Err(AcpiError::Rsdp1Checksum)
    } else if byte_sum(rsdp.subrange(RSDP_V1_SIZE as int, RSDP_SIZE as int)) % 256 != 0 {
        Err(AcpiError::Rsdp2Checksum)
    } else {
        Ok(le_u64(rsdp, 24))
    }
}

fn sum_range(bytes: &[u8], from: usize, to: usize) -> (sum: u8)
    requires
        from <= to <= bytes@.len(),
    ensures
        sum == byte_sum(bytes@.subrange(from as int, to as int)) % 256,
{
    let mut sum: u8 = 0;
    let mut i: usize = from;
    assert(bytes@.subrange(from as int, from as int) =~= Seq::<u8>::empty());
    while i < to
        invariant
            from <= i <= to <= bytes@.len(),
            sum == byte_sum(bytes@.subrange(from as int, i as int)) % 256,
        decreases to - i,
    {
        assert(bytes@.subrange(from as int, i + 1).drop_last() =~= bytes@.subrange(
            from as int,
            i as int,
        ));
        sum = sum.wrapping_add(bytes[i]);
        i = i + 1;
    }
    sum
}

/// Checks the root pointer and returns the physical address of the extended
/// system description table.
pub fn get_xsdt_address(rsdp: &[u8]) -> (r: Result<u64, AcpiError>)
    ensures
        r == xsdt_address_of(rsdp@),
{
    if rsdp.len() < RSDP_SIZE {
        return Err(AcpiError::TooShort);
    }
    if rsdp[15] != 2 {
        return Err(AcpiError::UnsupportedRevision);
    }
    if sum_range(rsdp, 0, RSDP_V1_SIZE) != 0 {
        return Err(AcpiError::Rsdp1Checksum);
    }
    if sum_range(rsdp, RSDP_V1_SIZE, RSDP_SIZE) != 0 {
        return Err(AcpiError::Rsdp2Checksum);
    }
    Ok(read_u64(rsdp, 24))
}

/// The virtual address at which the direct map shows the physical address
/// `phys`, where the sum is a valid virtual address.
pub fn direct_map_address(phys: PhysAddr) -> (r: Result<VirtAddr, AcpiError>)
    ensures
        r is Ok <==> phys.0 + VIRT_MAPPING_OFFSET <= u64::MAX && accepted_by_check(
            (phys.0 + VIRT_MAPPING_OFFSET) as u64,
        ),
        r is Ok ==> r->Ok_0.0 == sign_extend((phys.0 + VIRT_MAPPING_OFFSET) as u64),
        r is Err ==> r->Err_0 == AcpiError::BadAddress,
{
    match phys.0.checked_add(VIRT_MAPPING_OFFSET) {
        Some(sum) => match VirtAddr::new_checked(sum) {
            Ok(virt) => Ok(virt),
            Err(_) => Err(AcpiError::BadAddress),
        },
        None => Err(AcpiError::BadAddress),
    }
}

/// The header of a system description table.
#[derive(Clone, Copy, Debug)]
pub struct AcpiSdtHeader {
    pub signature: [u8; 4],
    pub length: u32,
    pub revision: u8,
    pub checksum: u8,
    pub oemid: [u8; 6],
    pub oem_table_id: [u8; 8],
    pub oem_revision: u32,
    pub creator_id: u32,
    pub creator_revision: u32,
}

/// The sum of the four bytes of a number.
pub open spec fn u32_byte_sum(x: u32) -> int {
    x % 256 + (x / 0x100) % 256 + (x / 0x1_0000) % 256 + (x / 0x100_0000) % 256
}

fn sum_u32(x: u32) -> (sum: u32)
    ensures
        sum == u32_byte_sum(x),
        sum <= 1020,
{
    x % 256 + (x / 0x100) % 256 + (x / 0x1_0000) % 256 + (x / 0x100_0000) % 256
}

fn sum_few(arr: &[u8]) -> (sum: u32)
    requires
        arr@.len() <= 16,
    ensures
        sum == byte_sum(arr@),
        sum <= 255 * 16,
{
    let mut sum: u32 = 0;
    let mut i: usize = 0;
    assert(arr@.take(0) =~= Seq::<u8>::empty());
    while i < arr.len()
        invariant
            i <= arr@.len() <= 16,
            sum == byte_sum(arr@.take(i as int)),
            sum <= 255 * i,
        decreases arr@.len() - i,
    {
        assert(arr@.take(i + 1).drop_last() =~= arr@.take(i as int));
        sum = sum + arr[i] as u32;
        i = i + 1;
    }
    assert(arr@.take(i as int) =~= arr@);
    sum
}

impl AcpiSdtHeader {
    /// The sum of the bytes of the header.
    pub open spec fn byte_total(&self) -> int {
        byte_sum(self.signature@) + u32_byte_sum(self.length) + self.revision + self.checksum
            + byte_sum(self.oemid@) + byte_sum(self.oem_table_id@) + u32_byte_sum(self.oem_revision)
            + u32_byte_sum(self.creator_id) + u32_byte_sum(self.creator_revision)
    }

    /// The header that the first 36 bytes of a table spell.
    pub fn parse(bytes: &[u8]) -> (r: Option<AcpiSdtHeader>)
        ensures
            r is Some <==> bytes@.len() >= SDT_HEADER_SIZE,
            r is Some ==> {
                let h = r->Some_0;
                &&& h.signature@ == bytes@.subrange(0, 4)
                &&& h.length == le_u32(bytes@, 4)
                &&& h.revision == bytes@[8]
                &&& h.checksum == bytes@[9]
                &&& h.oemid@ == bytes@.subrange(10, 16)
                &&& h.oem_table_id@ == bytes@.subrange(16, 24)
                &&& h.oem_revision == le_u32(bytes@, 24)
                &&& h.creator_id == le_u32(bytes@, 28)
                &&& h.creator_revision == le_u32(bytes@, 32)
            },
    {
        if bytes.len() < SDT_HEADER_SIZE {
            return None;
        }
        let header = AcpiSdtHeader {
            signature: [bytes[0], bytes[1], bytes[2], bytes[3]],
            length: read_u32(bytes, 4),
            revision: bytes[8],
            checksum: bytes[9],
            oemid: [bytes[10], bytes[11], bytes[12], bytes[13], bytes[14], bytes[15]],
            oem_table_id: [
                bytes[16],
                bytes[17],
                bytes[18],
                bytes[19],
                bytes[20],
                bytes[21],
                bytes[22],
                bytes[23],
            ],
            oem_revision: read_u32(bytes, 24),
            creator_id: read_u32(bytes, 28),
            creator_revision: read_u32(bytes, 32),
        };
        assert(header.signature@ =~= bytes@.subrange(0, 4));
        assert(header.oemid@ =~= bytes@.subrange(10, 16));
        assert(header.oem_table_id@ =~= bytes@.subrange(16, 24));
        Some(header)
    }

    /// The sum of the bytes of the header, as far as a byte holds it.
    pub fn get_bytes_sum(&self) -> (sum: u8)
        ensures
            sum == self.byte_total() % 256,
    {
        let total = sum_few(&self.signature) + sum_u32(self.creator_id) + sum_u32(self.length)
            + sum_few(&self.oemid) + self.revision as u32 + sum_u32(self.creator_revision) + sum_u32(
            self.oem_revision,
        ) + self.checksum as u32 + sum_few(&self.oem_table_id);
        (total % 256) as u8
    }

    /// Tells whether the table is the multiple APIC description table: its
    /// signature is `APIC`.
    pub fn is_madt(&self) -> (madt: bool)
        ensures
            madt == (self.signature@ == seq![0x41u8, 0x50u8, 0x49u8, 0x43u8]),
    {
        let madt = self.signature[0] == 0x41 && self.signature[1] == 0x50 && self.signature[2]
            == 0x49 && self.signature[3] == 0x43;
        assert(madt == (self.signature@ =~= seq![0x41u8, 0x50u8, 0x49u8, 0x43u8]));
        madt
    }
}

/// The physical addresses of the tables that the extended system
/// description table in `table` points to, or what is wrong with the table:
/// too few bytes for its header or for the length that its header tells;
/// else a checksum that is not zero.
pub open spec fn xsdt_entries_of(table: Seq<u8>) -> Result<Seq<u64>, AcpiError> {
    if table.len() < SDT_HEADER_SIZE || le_u32(table, 4) < SDT_HEADER_SIZE || table.len() < le_u32(
        table,
        4,
    ) {
        Err(AcpiError::TooShort)
    } else if byte_sum(table.subrange(0, le_u32(table, 4) as int)) % 256 != 0 {
        Err(AcpiError::XsdtChecksum)
    } else {
        Ok(
            Seq::new(
                ((le_u32(table, 4) - SDT_HEADER_SIZE) / 8) as nat,
                |k: int| le_u64(table, SDT_HEADER_SIZE + 8 * k),
            ),
        )
    }
}

/// Checks the extended system description table and returns the physical
/// addresses of the tables that it points to.
pub fn read_xsdt_entries(table: &[u8]) -> (r: Result<Vec<u64>, AcpiError>)
    ensures
        match r {
            Ok(entries) => xsdt_entries_of(table@) == Ok::<Seq<u64>, AcpiError>(entries@),
            Err(e) => xsdt_entries_of(table@) == Err::<Seq<u64>, AcpiError>(e),
        },
{
    if table.len() < SDT_HEADER_SIZE {
        return Err(AcpiError::TooShort);
    }
    let length = read_u32(table, 4) as usize;
    if length < SDT_HEADER_SIZE || table.len() < length {
        return Err(AcpiError::TooShort);
    }
    if sum_range(table, 0, length) != 0 {
        return Err(AcpiError::XsdtChecksum);
    }
    let count = (length - SDT_HEADER_SIZE) / 8;
    let mut entries: Vec<u64> = Vec::new();
    let mut k: usize = 0;
    while k < count
        invariant
            k <= count,
            count == (length - SDT_HEADER_SIZE) / 8,
            SDT_HEADER_SIZE <= length <= table@.len(),
            entries@.len() == k,
            forall|j: int| 0 <= j < k ==> #[trigger] entries@[j] == le_u64(table@, SDT_HEADER_SIZE + 8 * j),
        decreases count - k,
    {
        entries.push(read_u64(table, SDT_HEADER_SIZE + 8 * k));
        k = k + 1;
    }
    assert(entries@ =~= Seq::new(
        ((le_u32(table@, 4) - SDT_HEADER_SIZE) / 8) as nat,
        |k: int| le_u64(table@, SDT_HEADER_SIZE + 8 * k),
    ));
    Ok(entries)
}

/// The physical addresses of the two interrupt controllers.
#[derive(Clone, Copy, PartialEq, Eq, Structural, Debug)]
pub struct ApicPhysAddrs {
    pub local_apic_addr: PhysAddr,
    pub io_apic_addr: PhysAddr,
}

/// The virtual addresses of the two interrupt controllers.
#[derive(Clone, Copy, PartialEq, Eq, Structural, Debug)]
pub struct ApicAddresses {
    pub local_apic_addr: VirtAddr,
    pub io_apic_addr: VirtAddr,
}

/// What the walk over the entries of a multiple APIC description table
/// finds from the byte offset `offset` on, in the `n` bytes after the
/// header: the address of the last I/O APIC described, if any, after the
/// one found before, or `InvalidMadt` where an entry is cut short or has no
/// length. An entry starts with its type and its length; the address of an
/// I/O APIC is the 32-bit number at offset 4 of its entry.
pub open spec fn madt_walk(data: Seq<u8>, n: int, offset: int, found: Option<u32>) -> Result<
    Option<u32>,
    AcpiError,
>
    decreases (if offset < n {
        n - offset
    } else {
        0
    }),
{
    if offset < 0 || offset >= n {
        Ok(found)
    } else if offset + 2 > n || data[offset + 1] == 0 {
        Err(AcpiError::InvalidMadt)
    } else if data[offset] == MADT_IO_APIC {
        if offset + 12 > n {
            Err(AcpiError::InvalidMadt)
        } else {
            madt_walk(data, n, offset + data[offset + 1], Some(le_u32(data, offset + 4)))
        }
    } else {
        madt_walk(data, n, offset + data[offset + 1], found)
    }
}

/// What a multiple APIC description table tells, where `header` is its
/// header and `data` the bytes after it: the address of the local APIC, the
/// 32-bit number at the start of the data, and that of the last I/O APIC
/// described. Or what is wrong with the table: too few bytes; else a
/// checksum over header and data that is not zero; else what `madt_walk`
/// finds wrong, and `InvalidMadt` too where no I/O APIC is described.
pub open spec fn madt_result(header: AcpiSdtHeader, data: Seq<u8>) -> Result<ApicPhysAddrs, AcpiError> {
    let n = header.length - SDT_HEADER_SIZE;
    if n < 8 || data.len() < n {
        Err(AcpiError::TooShort)
    } else if (header.byte_total() + byte_sum(data.subrange(0, n))) % 256 != 0 {
        Err(AcpiError::MadtChecksum)
    } else {
        match madt_walk(data, n, 8, None) {
            Ok(Some(io_apic)) => Ok(
                ApicPhysAddrs {
                    local_apic_addr: PhysAddr(le_u32(data, 0) as u64),
                    io_apic_addr: PhysAddr(io_apic as u64),
                },
            ),
            Ok(None) => Err(AcpiError::InvalidMadt),
            Err(e) => Err(e),
        }
    }
}

proof fn lemma_sum_of_remainders(x: int, y: int)
    ensures
        (x % 256 + y % 256) % 256 == (x + y) % 256,
{
}

fn sums_to_zero(a: u8, b: u8, Ghost(x): Ghost<int>, Ghost(y): Ghost<int>) -> (zero: bool)
    requires
        a == x % 256,
        b == y % 256,
    ensures
        zero == ((x + y) % 256 == 0),
{
    proof {
        lemma_sum_of_remainders(x, y);
    }
    a.wrapping_add(b) == 0
}

/// Reads the multiple APIC description table: see `madt_result`.
pub fn handle_madt(header: &AcpiSdtHeader, data: &[u8]) -> (r: Result<ApicPhysAddrs, AcpiError>)
    ensures
        r == madt_result(*header, data@),
{
    if (header.length as usize) < SDT_HEADER_SIZE + 8 {
        return Err(AcpiError::TooShort);
    }
    let n: usize = header.length as usize - SDT_HEADER_SIZE;
    if data.len() < n {
        return Err(AcpiError::TooShort);
    }
    if !sums_to_zero(header.get_bytes_sum(), sum_range(data, 0, n), Ghost(header.byte_total()), Ghost(byte_sum(data@.subrange(0, n as int)))) {
        return Err(AcpiError::MadtChecksum);
    }
    let local_apic = read_u32(data, 0);
    let mut found: Option<u32> = None;
    let mut offset: usize = 8;
    while offset < n
        invariant
            8 <= offset <= n,
            n <= data@.len(),
            madt_walk(data@, n as int, 8, None) == madt_walk(data@, n as int, offset as int, found),
            madt_result(*header, data@) == (match madt_walk(data@, n as int, 8, None) {
                Ok(Some(io_apic)) => Ok::<ApicPhysAddrs, AcpiError>(
                    ApicPhysAddrs {
                        local_apic_addr: PhysAddr(local_apic as u64),
                        io_apic_addr: PhysAddr(io_apic as u64),
                    },
                ),
                Ok(None) => Err::<ApicPhysAddrs, AcpiError>(AcpiError::InvalidMadt),
                Err(e) => Err::<ApicPhysAddrs, AcpiError>(e),
            }),
        decreases n - offset,
    {
        if n - offset < 2 {
            return Err(AcpiError::InvalidMadt);
        }
        let entry_type = data[offset];
        let record_length = data[offset + 1];
        if record_length == 0 {
            return Err(AcpiError::InvalidMadt);
        }
        if entry_type == MADT_IO_APIC {
            if n - offset < 12 {
                return Err(AcpiError::InvalidMadt);
            }
            found = Some(read_u32(data, offset + 4));
        }
        if record_length as usize >= n - offset {
            assert(madt_walk(data@, n as int, offset + record_length, found) == Ok::<
                Option<u32>,
                AcpiError,
            >(found));
            assert(madt_walk(data@, n as int, n as int, found) == Ok::<Option<u32>, AcpiError>(found));
            offset = n;
        } else {
            offset = offset + record_length as usize;
        }
    }
    match found {
        Some(io_apic) => Ok(
            ApicPhysAddrs {
                local_apic_addr: PhysAddr(local_apic as u64),
                io_apic_addr: PhysAddr(io_apic as u64),
            },
        ),
        None => Err(AcpiError::InvalidMadt),
    }
}

/// Maps the registers of the two interrupt controllers into the direct map
/// and returns where they are then: the `LOCAL_APIC_SPAN` bytes from the
/// local APIC's address on, and the page of the I/O APIC.
///
/// Fails with `NoLocalApic` where the address of the local APIC is 0; with
/// `BadAddress`, before anything is mapped, where the direct map cannot
/// show the local APIC or the sum for the I/O APIC leaves 64 bits; and with
/// `Unmapped` at the first page of either that cannot be mapped, the pages
/// of the local APIC first.
pub fn read_xsdt(apic: &ApicPhysAddrs, space: &mut AddressSpace) -> (r: Result<ApicAddresses, AcpiError>)
    requires
        old(space).wf(),
    ensures
        final(space).wf(),
        final(space).root_frame() == old(space).root_frame(),
        mappings_kept(*old(space), *final(space)),
        match r {
            Ok(addrs) => {
                &&& apic.local_apic_addr.0 != 0
                &&& addrs.local_apic_addr.0 == sign_extend(
                    (apic.local_apic_addr.0 + VIRT_MAPPING_OFFSET) as u64,
                )
                &&& addrs.io_apic_addr.0 == sign_extend(
                    (apic.io_apic_addr.0 + VIRT_MAPPING_OFFSET) as u64,
                )
                &&& run_mapped(
                    *final(space),
                    apic.local_apic_addr.0,
                    VIRT_MAPPING_OFFSET,
                    LOCAL_APIC_SPAN as int / 4096,
                )
                &&& run_mapped(*final(space), page_base(apic.io_apic_addr.0), VIRT_MAPPING_OFFSET, 1)
            },
            Err(e) => if apic.local_apic_addr.0 == 0 {
                e == AcpiError::NoLocalApic
            } else if !reachable(apic.local_apic_addr.0, VIRT_MAPPING_OFFSET) || apic.io_apic_addr.0
                + VIRT_MAPPING_OFFSET > u64::MAX {
                e == AcpiError::BadAddress && final(space).cursor() == old(space).cursor()
            } else {
                &&& e is Unmapped
                &&& {
                    ||| exists|k: int|
                        0 <= k < LOCAL_APIC_SPAN as int / 4096 && #[trigger] run_stopped(
                            *old(space),
                            *final(space),
                            apic.local_apic_addr.0,
                            VIRT_MAPPING_OFFSET,
                            false,
                            k,
                            e->Unmapped_0,
                        )
                    ||| run_mapped(
                        *final(space),
                        apic.local_apic_addr.0,
                        VIRT_MAPPING_OFFSET,
                        LOCAL_APIC_SPAN as int / 4096,
                    ) && rest_kept(
                        *old(space),
                        *final(space),
                        apic.local_apic_addr.0,
                        VIRT_MAPPING_OFFSET,
                        LOCAL_APIC_SPAN as int / 4096,
                    ) && run_cause(
                        *final(space),
                        page_base(apic.io_apic_addr.0),
                        VIRT_MAPPING_OFFSET,
                        false,
                        0,
                        e->Unmapped_0,
                    )
                }
            },
        },
{
    if apic.local_apic_addr.0 == 0 {
        return Err(AcpiError::NoLocalApic);
    }
    let local = match direct_map_address(apic.local_apic_addr) {
        Ok(virt) => virt,
        Err(e) => {
            return Err(e);
        },
    };
    let io = match apic.io_apic_addr.0.checked_add(VIRT_MAPPING_OFFSET) {
        Some(sum) => VirtAddr::new(sum),
        None => {
            return Err(AcpiError::BadAddress);
        },
    };
    match map_run(space, apic.local_apic_addr.0, VIRT_MAPPING_OFFSET, LOCAL_APIC_SPAN / 4096, false) {
        Ok(()) => {},
        Err(e) => {
            return Err(AcpiError::Unmapped(e));
        },
    }
    let ghost local_mapped = *space;
    let io_frame = crate::shared::page_table::align_down_u64(apic.io_apic_addr.0);
    match map_run(space, io_frame, VIRT_MAPPING_OFFSET, 1, false) {
        Ok(()) => {},
        Err(e) => {
            return Err(AcpiError::Unmapped(e));
        },
    }
    proof {
        assert forall|i: int| 0 <= i < LOCAL_APIC_SPAN as int / 4096 implies space.translation(
            #[trigger] crate::loader::run_page(apic.local_apic_addr.0, VIRT_MAPPING_OFFSET, i),
        ) == Some(crate::loader::run_frame(apic.local_apic_addr.0, i)) by {
            let page = crate::loader::run_page(apic.local_apic_addr.0, VIRT_MAPPING_OFFSET, i);
            assert(local_mapped.translation(page) is Some);
        }
    }
    Ok(ApicAddresses { local_apic_addr: local, io_apic_addr: io })
}

} // verus!
