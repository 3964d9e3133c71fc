//! The GUID partition table of a disk.

use vstd::prelude::*;
use crate::kernel::xsdt::{le_u32, le_u64, read_u32, read_u64};
use crate::shared::crc::{calculate_crc32, crc32};

verus! {

/// The bytes of a sector.
pub const SECTOR_SIZE: usize = 512;

/// Where the first partition entry of the protective master boot record
/// starts in its sector.
pub const MBR_ENTRY_0: usize = 446;

/// The partition type that marks a protective master boot record.
pub const MBR_TYPE_GPT: u8 = 0xee;

/// The bytes of a partition entry before the partition's name.
pub const ENTRY_NAME_OFFSET: usize = 56;

/// Why a disk has no partition table that can be used.
#[derive(Debug, Clone, Copy, PartialEq, Eq, Structural)]
pub enum GptError {
    InvalidProtectiveMBR,
    InvalidPartitionTableHeader,
    InvalidTableHeaderChecksum,
    InvalidMyLbaHeader,
    InvalidEntriesArrayChecksum,
}

/// The hexadecimal digit for a number from 0 to 15, in upper case.
pub open spec fn hex_char(n: int) -> char {
    if n == 0 {
        '0'
    } else if n == 1 {
        '1'
    } else if n == 2 {
        '2'
    } else if n == 3 {
        '3'
    } else if n == 4 {
        '4'
    } else if n == 5 {
        '5'
    } else if n == 6 {
        '6'
    } else if n == 7 {
        '7'
    } else if n == 8 {
        '8'
    } else if n == 9 {
        '9'
    } else if n == 10 {
        'A'
    } else if n == 11 {
        'B'
    } else if n == 12 {
        'C'
    } else if n == 13 {
        'D'
    } else if n == 14 {
        'E'
    } else {
        'F'
    }
}

fn hex_digit(n: u8) -> (c: char)
    requires
        n < 16,
    ensures
        c == hex_char(n as int),
{
    if n == 0 {
        '0'
    } else if n == 1 {
        '1'
    } else if n == 2 {
        '2'
    } else if n == 3 {
        '3'
    } else if n == 4 {
        '4'
    } else if n == 5 {
        '5'
    } else if n == 6 {
        '6'
    } else if n == 7 {
        '7'
    } else if n == 8 {
        '8'
    } else if n == 9 {
        '9'
    } else if n == 10 {
        'A'
    } else if n == 11 {
        'B'
    } else if n == 12 {
        'C'
    } else if n == 13 {
        'D'
    } else if n == 14 {
        'E'
    } else {
        'F'
    }
}

/// Byte `i` of a GUID, the lowest first.
pub open spec fn guid_byte(guid: u128, i: int) -> u8 {
    ((guid >> ((8 * i) as u128)) & 0xff) as u8
}

/// The byte of the GUID that is written at place `k` of its text: the first
/// three groups are written with their highest byte first, the last two
/// with their lowest.
pub open spec fn guid_order(k: int) -> int {
    if k == 0 {
        3
    } else if k == 1 {
        2
    } else if k == 2 {
        1
    } else if k == 3 {
        0
    } else if k == 4 {
        5
    } else if k == 5 {
        4
    } else if k == 6 {
        7
    } else if k == 7 {
        6
    } else {
        k
    }
}

/// The text of the first `k` bytes of a GUID in their written order: two
/// hexadecimal digits each, and a dash before the bytes at the places 4, 6,
/// 8 and 10.
pub open spec fn guid_text_upto(guid: u128, k: int) -> Seq<char>
    decreases k,
{
    if k <= 0 {
        Seq::empty()
    } else {
        let byte = guid_byte(guid, guid_order(k - 1));
        let dash = if k - 1 == 4 || k - 1 == 6 || k - 1 == 8 || k - 1 == 10 {
            seq!['-']
        } else {
            Seq::empty()
        };
        guid_text_upto(guid, k - 1) + dash + seq![hex_char(byte as int / 16), hex_char(byte as int % 16)]
    }
}

/// The text of a GUID: 8, 4, 4, 4 and 12 hexadecimal digits with dashes
/// between.
pub open spec fn guid_text(guid: u128) -> Seq<char> {
    guid_text_upto(guid, 16)
}

proof fn lemma_guid_byte(guid: u128, shift: u128)
    by (bit_vector)
    ensures
        (guid >> shift) & 0xff <= 0xff,
{
}

/// `String::push`: the character joins the end of the string.
#[verifier::external_body]
fn string_push(s: &mut String, c: char)
    ensures
        final(s)@ == old(s)@.push(c),
{
    s.push(c)
}

/// The text of a GUID: see `guid_text`.
pub fn guid_to_str(guid: u128) -> (text: String)
    ensures
        text@ == guid_text(guid),
{
    let mut text = String::new();
    let mut k: usize = 0;
    while k < 16
        invariant
            k <= 16,
            text@ == guid_text_upto(guid, k as int),
        decreases 16 - k,
    {
        let index: usize = if k == 0 {
            3
        } else if k == 1 {
            2
        } else if k == 2 {
            1
        } else if k == 3 {
            0
        } else if k == 4 {
            5
        } else if k == 5 {
            4
        } else if k == 6 {
            7
        } else if k == 7 {
            6
        } else {
            k
        };
        proof {
            lemma_guid_byte(guid, (8 * index) as u128);
        }
        let byte = ((guid >> ((8 * index) as u128)) & 0xff) as u8;
        let ghost before = text@;
        if k == 4 || k == 6 || k == 8 || k == 10 {
            string_push(&mut text, '-');
        }
        string_push(&mut text, hex_digit(byte / 16));
        string_push(&mut text, hex_digit(byte % 16));
        assert(text@ =~= guid_text_upto(guid, k + 1));
        k = k + 1;
    }
    text
}

/// The sector is a protective master boot record: it ends in the boot
/// signature, and its first partition is not bootable, starts at cylinder
/// 0, head 0, sector 2, has the type of a GUID partition table, and starts
/// at the sector 1.
pub open spec fn is_protective_mbr(lba0: Seq<u8>) -> bool {
    &&& lba0.len() >= SECTOR_SIZE
    &&& lba0[510] == 0x55
    &&& lba0[511] == 0xaa
    &&& lba0[MBR_ENTRY_0 as int] == 0
    &&& lba0[MBR_ENTRY_0 + 1] == 0
    &&& lba0[MBR_ENTRY_0 + 2] == 2
    &&& lba0[MBR_ENTRY_0 + 3] == 0
    &&& lba0[MBR_ENTRY_0 + 4] == MBR_TYPE_GPT
    &&& le_u32(lba0, MBR_ENTRY_0 + 8) == 1
}

/// Checks the first sector of the disk: see `is_protective_mbr`.
pub fn check_protective_mbr(lba0: &[u8]) -> (r: Result<(), GptError>)
    ensures
        r is Ok <==> is_protective_mbr(lba0@),
        r is Err ==> r->Err_0 == GptError::InvalidProtectiveMBR,
{
    if lba0.len() < SECTOR_SIZE {
        return Err(GptError::InvalidProtectiveMBR);
    }
    if lba0[510] != 0x55 || lba0[511] != 0xaa {
        return Err(GptError::InvalidProtectiveMBR);
    }
    if lba0[MBR_ENTRY_0] != 0 || lba0[MBR_ENTRY_0 + 1] != 0 || lba0[MBR_ENTRY_0 + 2] != 2 || lba0[MBR_ENTRY_0
        + 3] != 0 || lba0[MBR_ENTRY_0 + 4] != MBR_TYPE_GPT || read_u32(lba0, MBR_ENTRY_0 + 8) != 1 {
        return Err(GptError::InvalidProtectiveMBR);
    }
    Ok(())
}

/// The header of a GUID partition table, as far as the kernel reads it.
#[derive(Debug, Clone, Copy, PartialEq, Eq, Structural)]
pub struct PartitionTableHeader {
    pub gpt_revision: u32,
    pub header_size: u32,
    pub header_checksum: u32,
    pub this_header_lba: u64,
    pub alternate_header_lba: u64,
    pub first_usable_block: u64,
    pub last_usable_block: u64,
    pub disk_guid: u128,
    pub starting_lba_of_array: u64,
    pub entries_num: u32,
    pub entry_size: u32,
    pub array_checksum: u32,
}

/// The signature of the header: `EFI PART`.
pub open spec fn efi_signature() -> Seq<u8> {
    seq![0x45u8, 0x46u8, 0x49u8, 0x20u8, 0x50u8, 0x41u8, 0x52u8, 0x54u8]
}

/// The number that sixteen bytes spell, the lowest first.
pub open spec fn le_u128(bytes: Seq<u8>, at: int) -> u128 {
    (le_u64(bytes, at) + le_u64(bytes, at + 8) * 0x1_0000_0000_0000_0000) as u128
}

/// Reads sixteen bytes as a number, the lowest byte first.
pub fn read_u128(bytes: &[u8], at: usize) -> (value: u128)
    requires
        at + 16 <= bytes@.len(),
    ensures
        value == le_u128(bytes@, at as int),
{
    // the length, as a machine word, bounds the indices below
    let _len = bytes.len();
    read_u64(bytes, at) as u128 + read_u64(bytes, at + 8) as u128 * 0x1_0000_0000_0000_0000
}

/// The fields of the header in the sector `lba1`.
pub open spec fn header_fields(lba1: Seq<u8>) -> PartitionTableHeader {
    PartitionTableHeader {
        gpt_revision: le_u32(lba1, 8),
        header_size: le_u32(lba1, 12),
        header_checksum: le_u32(lba1, 16),
        this_header_lba: le_u64(lba1, 24),
        alternate_header_lba: le_u64(lba1, 32),
        first_usable_block: le_u64(lba1, 40),
        last_usable_block: le_u64(lba1, 48),
        disk_guid: le_u128(lba1, 56),
        starting_lba_of_array: le_u64(lba1, 72),
        entries_num: le_u32(lba1, 80),
        entry_size: le_u32(lba1, 84),
        array_checksum: le_u32(lba1, 88),
    }
}

/// The bytes that the checksum of the header is taken of: the first
/// `header_size` bytes of the sector, with the four bytes of the checksum
/// itself zero.
pub open spec fn checked_bytes(lba1: Seq<u8>, header_size: int) -> Seq<u8> {
    Seq::new(
        header_size as nat,
        |i: int|
            if 16 <= i < 20 {
                0u8
            } else {
                lba1[i]
            },
    )
}

/// What the second sector of the disk holds: the header, or what is wrong
/// with it: too few bytes, another signature or a header size beyond the
/// sector; else a checksum that does not match; else a header that does not
/// say that it lies in sector 1.
pub open spec fn header_of(lba1: Seq<u8>) -> Result<PartitionTableHeader, GptError> {
    let header = header_fields(lba1);
    if lba1.len() < SECTOR_SIZE || lba1.subrange(0, 8) != efi_signature() || header.header_size
        > SECTOR_SIZE {
        Err(GptError::InvalidPartitionTableHeader)
    } else if crc32(checked_bytes(lba1, header.header_size as int)) != header.header_checksum {
        Err(GptError::InvalidTableHeaderChecksum)
    } else if header.this_header_lba != 1 {
        Err(GptError::InvalidMyLbaHeader)
    } else {
        Ok(header)
    }
}

/// Reads and checks the header of the partition table: see `header_of`.
pub fn parse_header(lba1: &[u8]) -> (r: Result<PartitionTableHeader, GptError>)
    ensures
        r == header_of(lba1@),
{
    if lba1.len() < SECTOR_SIZE {
        return Err(GptError::InvalidPartitionTableHeader);
    }
    let signed = lba1[0] == 0x45 && lba1[1] == 0x46 && lba1[2] == 0x49 && lba1[3] == 0x20 && lba1[4]
        == 0x50 && lba1[5] == 0x41 && lba1[6] == 0x52 && lba1[7] == 0x54;
    assert(signed == (lba1@.subrange(0, 8) =~= efi_signature()));
    if !signed {
        return Err(GptError::InvalidPartitionTableHeader);
    }
    let header = PartitionTableHeader {
        gpt_revision: read_u32(lba1, 8),
        header_size: read_u32(lba1, 12),
        header_checksum: read_u32(lba1, 16),
        this_header_lba: read_u64(lba1, 24),
        alternate_header_lba: read_u64(lba1, 32),
        first_usable_block: read_u64(lba1, 40),
        last_usable_block: read_u64(lba1, 48),
        disk_guid: read_u128(lba1, 56),
        starting_lba_of_array: read_u64(lba1, 72),
        entries_num: read_u32(lba1, 80),
        entry_size: read_u32(lba1, 84),
        array_checksum: read_u32(lba1, 88),
    };
    if header.header_size as usize > SECTOR_SIZE {
        return Err(GptError::InvalidPartitionTableHeader);
    }
    let size = header.header_size as usize;
    let mut bytes: Vec<u8> = Vec::new();
    let mut i: usize = 0;
    while i < size
        invariant
            i <= size <= SECTOR_SIZE <= lba1@.len(),
            bytes@.len() == i,
            forall|k: int| 0 <= k < i ==> #[trigger] bytes@[k] == checked_bytes(lba1@, size as int)[k],
        decreases size - i,
    {
        if 16 <= i && i < 20 {
            bytes.push(0);
        } else {
            bytes.push(lba1[i]);
        }
        i = i + 1;
    }
    assert(bytes@ =~= checked_bytes(lba1@, size as int));
    if calculate_crc32(bytes.as_slice()) != header.header_checksum {
        return Err(GptError::InvalidTableHeaderChecksum);
    }
    if header.this_header_lba != 1 {
        return Err(GptError::InvalidMyLbaHeader);
    }
    Ok(header)
}

/// The number of sectors that hold the partition entries.
pub fn entry_sectors(header: &PartitionTableHeader) -> (sectors: u64)
    ensures
        sectors == (header.entries_num * header.entry_size + 511) / 512,
{
    proof {
        lemma_product_fits(header.entries_num, header.entry_size);
    }
    (header.entries_num as u64 * header.entry_size as u64 + 511) / 512
}

proof fn lemma_product_fits(a: u32, b: u32)
    ensures
        a * b <= 0xFFFF_FFFE_0000_0001,
{
    assert(a * b <= 0xFFFF_FFFF * 0xFFFF_FFFF) by (nonlinear_arith)
        requires
            0 <= a <= 0xFFFF_FFFF,
            0 <= b <= 0xFFFF_FFFF,
    ;
}

/// An entry of the partition table.
#[derive(Debug, Clone, Copy, PartialEq, Eq, Structural)]
pub struct PartitionEntry {
    pub partition_type_guid: u128,
    pub unique_partition_guid: u128,
    pub starting_lba: u64,
    pub ending_lba: u64,
    pub attributes: u64,
}

/// The entry that starts at the byte `at` of the entries.
pub open spec fn entry_at(entries: Seq<u8>, at: int) -> PartitionEntry {
    PartitionEntry {
        partition_type_guid: le_u128(entries, at),
        unique_partition_guid: le_u128(entries, at + 16),
        starting_lba: le_u64(entries, at + 32),
        ending_lba: le_u64(entries, at + 40),
        attributes: le_u64(entries, at + 48),
    }
}

/// The entries in use among the first `n` of the table: those whose type
/// is not zero, in table order.
pub open spec fn used_entries(entries: Seq<u8>, entry_size: int, n: int) -> Seq<PartitionEntry>
    decreases n,
{
    if n <= 0 {
        Seq::empty()
    } else if entry_at(entries, (n - 1) * entry_size).partition_type_guid == 0 {
        used_entries(entries, entry_size, n - 1)
    } else {
        used_entries(entries, entry_size, n - 1).push(entry_at(entries, (n - 1) * entry_size))
    }
}

/// The partitions that the entries of the table describe, or
/// `InvalidEntriesArrayChecksum` where the entries are too short for what
/// the header tells, are too small for the fields of an entry, or have
/// another checksum than the header tells.
pub open spec fn partitions_of(header: PartitionTableHeader, entries: Seq<u8>) -> Result<
    Seq<PartitionEntry>,
    GptError,
> {
    let total = header.entries_num * header.entry_size;
    if header.entry_size < ENTRY_NAME_OFFSET || entries.len() < total || crc32(
        entries.subrange(0, total),
    ) != header.array_checksum {
        Err(GptError::InvalidEntriesArrayChecksum)
    } else {
        Ok(used_entries(entries, header.entry_size as int, header.entries_num as int))
    }
}

/// Checks the entries of the partition table against the header and lists
/// the partitions: see `partitions_of`.
pub fn parse_entries(header: &PartitionTableHeader, entries: &[u8]) -> (r: Result<
    Vec<PartitionEntry>,
    GptError,
>)
    ensures
        match r {
            Ok(partitions) => partitions_of(*header, entries@) == Ok::<Seq<PartitionEntry>, GptError>(
                partitions@,
            ),
            Err(e) => partitions_of(*header, entries@) == Err::<Seq<PartitionEntry>, GptError>(e),
        },
{
    proof {
        lemma_product_fits(header.entries_num, header.entry_size);
    }
    let total = header.entries_num as u64 * header.entry_size as u64;
    if (header.entry_size as usize) < ENTRY_NAME_OFFSET || (entries.len() as u64) < total {
        return Err(GptError::InvalidEntriesArrayChecksum);
    }
    let total = total as usize;
    let listed = vstd::slice::slice_subrange(entries, 0, total);
    if calculate_crc32(listed) != header.array_checksum {
        return Err(GptError::InvalidEntriesArrayChecksum);
    }
    let size = header.entry_size as usize;
    let count = header.entries_num as usize;
    let mut partitions: Vec<PartitionEntry> = Vec::new();
    let mut i: usize = 0;
    while i < count
        invariant
            i <= count,
            size >= ENTRY_NAME_OFFSET,
            count * size == total <= entries@.len(),
            partitions@ == used_entries(entries@, size as int, i as int),
        decreases count - i,
    {
        assert(i * size + size <= count * size) by (nonlinear_arith)
            requires
                i < count,
        ;
        let at = i * size;
        let entry = PartitionEntry {
            partition_type_guid: read_u128(entries, at),
            unique_partition_guid: read_u128(entries, at + 16),
            starting_lba: read_u64(entries, at + 32),
            ending_lba: read_u64(entries, at + 40),
            attributes: read_u64(entries, at + 48),
        };
        if entry.partition_type_guid != 0 {
            partitions.push(entry);
        }
        i = i + 1;
    }
    Ok(partitions)
}

/// Reads the partition table of a disk from its first two sectors and the
/// sectors of its entries: the protective master boot record is checked
/// first, then the header, then the entries.
pub fn parse_gpt(lba0: &[u8], lba1: &[u8], entries: &[u8]) -> (r: Result<Vec<PartitionEntry>, GptError>)
    ensures
        match r {
            Ok(partitions) => is_protective_mbr(lba0@) && header_of(lba1@) is Ok && partitions_of(
                header_of(lba1@)->Ok_0,
                entries@,
            ) == Ok::<Seq<PartitionEntry>, GptError>(partitions@),
            Err(e) => if !is_protective_mbr(lba0@) {
                e == GptError::InvalidProtectiveMBR
            } else if header_of(lba1@) is Err {
                e == header_of(lba1@)->Err_0
            } else {
                partitions_of(header_of(lba1@)->Ok_0, entries@) == Err::<Seq<PartitionEntry>, GptError>(
                    e,
                )
            },
        },
{
    match check_protective_mbr(lba0) {
        Ok(()) => {},
        Err(e) => {
            return Err(e);
        },
    }
    let header = match parse_header(lba1) {
        Ok(header) => header,
        Err(e) => {
            return Err(e);
        },
    };
    parse_entries(&header, entries)
}

} // verus!
