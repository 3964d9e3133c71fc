use rust_os::kernel::gpt::{
    check_protective_mbr, entry_sectors, guid_to_str, parse_entries, parse_gpt, parse_header,
    GptError,
};
use rust_os::kernel::xsdt::{
    direct_map_address, get_xsdt_address, handle_madt, read_u32, read_u64, read_xsdt,
    read_xsdt_entries, wrapping_sum, AcpiError, AcpiSdtHeader, ApicPhysAddrs,
};
use rust_os::shared::addr::{PhysAddr, VirtAddr};
use rust_os::shared::crc::calculate_crc32;
use rust_os::shared::ferr_fs::{
    blocks_to_allocate, chunk_bounds, padding, has_signature, new_blocks_bitmap, to_le_bytes, Error, FileSystem, Read, Seek, SeekFrom, Write,
};
use rust_os::shared::frame_allocator::{FrameAllocator, MemoryMap, MemoryRegion, MemoryType};
use rust_os::shared::page_table::AddressSpace;
use rust_os::shared::VIRT_MAPPING_OFFSET;

fn fix_checksum(bytes: &mut [u8], at: usize) {
    bytes[at] = 0;
    let sum = bytes.iter().fold(0u8, |a, b| a.wrapping_add(*b));
    bytes[at] = 0u8.wrapping_sub(sum);
}

fn rsdp(xsdt: u64) -> Vec<u8> {
    let mut bytes = vec![0u8; 36];
    bytes[..8].copy_from_slice(b"RSD PTR ");
    bytes[9..15].copy_from_slice(b"BOCHS ");
    bytes[15] = 2;
    bytes[20..24].copy_from_slice(&36u32.to_le_bytes());
    bytes[24..32].copy_from_slice(&xsdt.to_le_bytes());
    fix_checksum(&mut bytes[..20], 8);
    fix_checksum(&mut bytes[20..], 12);
    bytes
}

fn sdt(signature: &[u8; 4], body: &[u8]) -> Vec<u8> {
    let mut bytes = vec![0u8; 36];
    bytes[..4].copy_from_slice(signature);
    bytes[4..8].copy_from_slice(&((36 + body.len()) as u32).to_le_bytes());
    bytes[8] = 1;
    bytes[10..16].copy_from_slice(b"BOCHS ");
    bytes[16..24].copy_from_slice(b"BXPC    ");
    bytes[24..28].copy_from_slice(&1u32.to_le_bytes());
    bytes[28..32].copy_from_slice(b"BXPC");
    bytes[32..36].copy_from_slice(&1u32.to_le_bytes());
    bytes.extend_from_slice(body);
    fix_checksum(&mut bytes, 9);
    bytes
}

fn madt_body() -> Vec<u8> {
    let mut body = Vec::new();
    body.extend_from_slice(&0xFEE0_0000u32.to_le_bytes());
    body.extend_from_slice(&1u32.to_le_bytes());
    // a local APIC
    body.extend_from_slice(&[0, 8, 0, 0, 1, 0, 0, 0]);
    // the I/O APIC
    body.extend_from_slice(&[1, 12, 0, 0]);
    body.extend_from_slice(&0xFEC0_0000u32.to_le_bytes());
    body.extend_from_slice(&0u32.to_le_bytes());
    // an interrupt source override
    body.extend_from_slice(&[2, 10, 0, 0, 2, 0, 0, 0, 0, 0]);
    body
}

#[test]
fn root_pointer_names_the_extended_table() {
    assert_eq!(get_xsdt_address(&rsdp(0x7FE_1000)), Ok(0x7FE_1000));
    let mut old = rsdp(0x7FE_1000);
    old[15] = 0;
    assert_eq!(get_xsdt_address(&old), Err(AcpiError::UnsupportedRevision));
    let mut first = rsdp(0x7FE_1000);
    first[9] ^= 1;
    assert_eq!(get_xsdt_address(&first), Err(AcpiError::Rsdp1Checksum));
    let mut second = rsdp(0x7FE_1000);
    second[24] ^= 1;
    assert_eq!(get_xsdt_address(&second), Err(AcpiError::Rsdp2Checksum));
    assert_eq!(get_xsdt_address(&rsdp(0)[..35]), Err(AcpiError::TooShort));
    assert_eq!(direct_map_address(PhysAddr(0x7FE_1000)), Ok(VirtAddr(0x180_07FE_1000)));
    assert_eq!(direct_map_address(PhysAddr(u64::MAX)), Err(AcpiError::BadAddress));
}

#[test]
fn extended_table_lists_the_other_tables() {
    let mut body = Vec::new();
    body.extend_from_slice(&0x7FE_2000u64.to_le_bytes());
    body.extend_from_slice(&0x7FE_3000u64.to_le_bytes());
    let table = sdt(b"XSDT", &body);
    assert_eq!(read_xsdt_entries(&table), Ok(vec![0x7FE_2000, 0x7FE_3000]));
    let mut broken = table.clone();
    broken[40] ^= 0x10;
    assert_eq!(read_xsdt_entries(&broken), Err(AcpiError::XsdtChecksum));
    assert_eq!(read_xsdt_entries(&table[..40]), Err(AcpiError::TooShort));
    assert_eq!(wrapping_sum(&table), 0);
    assert_eq!(wrapping_sum(&[200, 100]), 44);
    assert_eq!(read_u32(&[0x78, 0x56, 0x34, 0x12], 0), 0x1234_5678);
    assert_eq!(read_u64(&[1, 2, 3, 4, 5, 6, 7, 8], 0), 0x0807_0605_0403_0201);
}

#[test]
fn apic_table_tells_where_the_controllers_are() {
    let table = sdt(b"APIC", &madt_body());
    let header = AcpiSdtHeader::parse(&table).unwrap();
    assert!(header.is_madt());
    assert_eq!(header.length as usize, table.len());
    assert_eq!(
        header.get_bytes_sum(),
        table[..36].iter().fold(0u8, |a, b| a.wrapping_add(*b))
    );
    assert_eq!(
        handle_madt(&header, &table[36..]),
        Ok(ApicPhysAddrs { local_apic_addr: PhysAddr(0xFEE0_0000), io_apic_addr: PhysAddr(0xFEC0_0000) })
    );
    let mut broken = table.clone();
    broken[50] ^= 1;
    assert_eq!(handle_madt(&header, &broken[36..]), Err(AcpiError::MadtChecksum));
    assert_eq!(handle_madt(&header, &table[36..50]), Err(AcpiError::TooShort));
    assert!(!AcpiSdtHeader::parse(&sdt(b"FACP", &[0; 8])).unwrap().is_madt());
    assert!(AcpiSdtHeader::parse(&table[..35]).is_none());
}

#[test]
fn apic_table_without_an_io_apic_is_invalid() {
    let mut body = madt_body();
    body[16] = 7;
    let table = sdt(b"APIC", &body);
    let header = AcpiSdtHeader::parse(&table).unwrap();
    assert_eq!(handle_madt(&header, &table[36..]), Err(AcpiError::InvalidMadt));
    let mut endless = madt_body();
    endless[9] = 0;
    let table = sdt(b"APIC", &endless);
    let header = AcpiSdtHeader::parse(&table).unwrap();
    assert_eq!(handle_madt(&header, &table[36..]), Err(AcpiError::InvalidMadt));
}

#[test]
fn controllers_are_mapped_into_the_direct_map() {
    let mut map = MemoryMap::new();
    assert!(map.push(MemoryRegion { ty: MemoryType::Free, addr: 0x100_0000, page_count: 64 }));
    let mut space = AddressSpace::new(FrameAllocator::new(map, 0, 0)).unwrap();
    let apic = ApicPhysAddrs { local_apic_addr: PhysAddr(0xFEE0_0000), io_apic_addr: PhysAddr(0xFEC0_0010) };
    let addresses = read_xsdt(&apic, &mut space).unwrap();
    assert_eq!(addresses.local_apic_addr, VirtAddr(0xFEE0_0000 + VIRT_MAPPING_OFFSET));
    assert_eq!(addresses.io_apic_addr, VirtAddr(0xFEC0_0010 + VIRT_MAPPING_OFFSET));
    assert_eq!(space.translate(addresses.local_apic_addr), Some(0xFEE0_0000));
    assert_eq!(space.translate(VirtAddr(0xFEEF_F000 + VIRT_MAPPING_OFFSET)), Some(0xFEEF_F000));
    assert_eq!(space.translate(VirtAddr(0xFEF0_0000 + VIRT_MAPPING_OFFSET)), None);
    assert_eq!(space.translate(addresses.io_apic_addr), Some(0xFEC0_0000));
    let none = ApicPhysAddrs { local_apic_addr: PhysAddr(0), io_apic_addr: PhysAddr(0xFEC0_0000) };
    assert_eq!(read_xsdt(&none, &mut space), Err(AcpiError::NoLocalApic));
    let far = ApicPhysAddrs { local_apic_addr: PhysAddr(u64::MAX), io_apic_addr: PhysAddr(0) };
    assert_eq!(read_xsdt(&far, &mut space), Err(AcpiError::BadAddress));
    let taken_io = ApicPhysAddrs { local_apic_addr: PhysAddr(0xFEE0_0000), io_apic_addr: PhysAddr(0xFED0_0000) };
    let mut map = MemoryMap::new();
    assert!(map.push(MemoryRegion { ty: MemoryType::Free, addr: 0x100_0000, page_count: 64 }));
    let mut other = AddressSpace::new(FrameAllocator::new(map, 0, 0)).unwrap();
    assert_eq!(other.map_address(VirtAddr(0xFED0_0000 + VIRT_MAPPING_OFFSET), 0x9000), Ok(()));
    assert_eq!(
        read_xsdt(&taken_io, &mut other),
        Err(AcpiError::Unmapped(rust_os::loader::LoadError::Mapping(
            rust_os::shared::page_table::MapError::MappingExists
        )))
    );
    assert_eq!(other.translate(VirtAddr(0xFEE0_0000 + VIRT_MAPPING_OFFSET)), Some(0xFEE0_0000));
    let overflowing = ApicPhysAddrs { local_apic_addr: PhysAddr(0xFEE0_0000), io_apic_addr: PhysAddr(u64::MAX) };
    assert_eq!(read_xsdt(&overflowing, &mut other), Err(AcpiError::BadAddress));
    let mut map = MemoryMap::new();
    assert!(map.push(MemoryRegion { ty: MemoryType::Free, addr: 0x100_0000, page_count: 2 }));
    let mut small = AddressSpace::new(FrameAllocator::new(map, 0, 0)).unwrap();
    assert_eq!(
        read_xsdt(&apic, &mut small),
        Err(AcpiError::Unmapped(rust_os::loader::LoadError::Mapping(
            rust_os::shared::page_table::MapError::OutOfMemory
        )))
    );
}

#[test]
fn guid_is_written_in_mixed_byte_order() {
    let guid = u128::from_le_bytes([
        0x28, 0x73, 0x2A, 0xC1, 0x1F, 0xF8, 0xD2, 0x11, 0xBA, 0x4B, 0x00, 0xA0, 0xC9, 0x3E, 0xC9, 0x3B,
    ]);
    assert_eq!(guid_to_str(guid), "C12A7328-F81F-11D2-BA4B-00A0C93EC93B");
    assert_eq!(guid_to_str(0), "00000000-0000-0000-0000-000000000000");
}

fn protective_mbr() -> Vec<u8> {
    let mut sector = vec![0u8; 512];
    sector[447..450].copy_from_slice(&[0, 2, 0]);
    sector[450] = 0xEE;
    sector[454..458].copy_from_slice(&1u32.to_le_bytes());
    sector[510] = 0x55;
    sector[511] = 0xAA;
    sector
}

fn gpt_entries() -> Vec<u8> {
    let mut entries = vec![0u8; 4 * 128];
    entries[..16].copy_from_slice(&0x1111u128.to_le_bytes());
    entries[16..32].copy_from_slice(&0x2222u128.to_le_bytes());
    entries[32..40].copy_from_slice(&34u64.to_le_bytes());
    entries[40..48].copy_from_slice(&2047u64.to_le_bytes());
    entries[2 * 128..2 * 128 + 16].copy_from_slice(&0x3333u128.to_le_bytes());
    entries[2 * 128 + 32..2 * 128 + 40].copy_from_slice(&2048u64.to_le_bytes());
    entries
}

fn gpt_header(entries: &[u8]) -> Vec<u8> {
    let mut sector = vec![0u8; 512];
    sector[..8].copy_from_slice(b"EFI PART");
    sector[8..12].copy_from_slice(&0x0001_0000u32.to_le_bytes());
    sector[12..16].copy_from_slice(&92u32.to_le_bytes());
    sector[24..32].copy_from_slice(&1u64.to_le_bytes());
    sector[40..48].copy_from_slice(&34u64.to_le_bytes());
    sector[56..72].copy_from_slice(&0xABCDu128.to_le_bytes());
    sector[72..80].copy_from_slice(&2u64.to_le_bytes());
    sector[80..84].copy_from_slice(&4u32.to_le_bytes());
    sector[84..88].copy_from_slice(&128u32.to_le_bytes());
    sector[88..92].copy_from_slice(&calculate_crc32(entries).to_le_bytes());
    let crc = calculate_crc32(&sector[..92]);
    sector[16..20].copy_from_slice(&crc.to_le_bytes());
    sector
}

#[test]
fn partition_table_lists_the_partitions_in_use() {
    let entries = gpt_entries();
    let header = gpt_header(&entries);
    let partitions = parse_gpt(&protective_mbr(), &header, &entries).unwrap();
    assert_eq!(partitions.len(), 2);
    assert_eq!(partitions[0].partition_type_guid, 0x1111);
    assert_eq!(partitions[0].unique_partition_guid, 0x2222);
    assert_eq!((partitions[0].starting_lba, partitions[0].ending_lba), (34, 2047));
    assert_eq!(partitions[1].starting_lba, 2048);
    let parsed = parse_header(&header).unwrap();
    assert_eq!(parsed.disk_guid, 0xABCD);
    assert_eq!(parsed.starting_lba_of_array, 2);
    assert_eq!(entry_sectors(&parsed), 1);
    assert_eq!(parse_entries(&parsed, &entries).unwrap().len(), 2);
}

#[test]
fn partition_table_errors_name_what_is_wrong() {
    let entries = gpt_entries();
    let header = gpt_header(&entries);
    let mut mbr = protective_mbr();
    mbr[450] = 0x83;
    assert_eq!(parse_gpt(&mbr, &header, &entries), Err(GptError::InvalidProtectiveMBR));
    assert_eq!(check_protective_mbr(&protective_mbr()[..511]), Err(GptError::InvalidProtectiveMBR));
    let mut unsigned = header.clone();
    unsigned[0] = b'X';
    assert_eq!(parse_header(&unsigned), Err(GptError::InvalidPartitionTableHeader));
    let mut changed = header.clone();
    changed[40] ^= 1;
    assert_eq!(parse_header(&changed), Err(GptError::InvalidTableHeaderChecksum));
    let mut elsewhere = header.clone();
    elsewhere[24] = 2;
    elsewhere[16..20].copy_from_slice(&[0; 4]);
    let crc = calculate_crc32(&elsewhere[..92]);
    elsewhere[16..20].copy_from_slice(&crc.to_le_bytes());
    assert_eq!(parse_header(&elsewhere), Err(GptError::InvalidMyLbaHeader));
    let mut other_entries = entries.clone();
    other_entries[100] ^= 1;
    assert_eq!(
        parse_gpt(&protective_mbr(), &header, &other_entries),
        Err(GptError::InvalidEntriesArrayChecksum)
    );
}

struct Disk {
    bytes: Vec<u8>,
    position: usize,
}

impl Read for Disk {
    fn read(&mut self, buf: &mut Vec<u8>) -> Result<usize, Error> {
        let end = (self.position + 512).min(self.bytes.len());
        buf.extend_from_slice(&self.bytes[self.position..end]);
        let read = end - self.position;
        self.position = end;
        Ok(read)
    }
}

impl Write for Disk {
    fn write(&mut self, buf: &[u8]) -> Result<usize, Error> {
        self.bytes[self.position..self.position + buf.len()].copy_from_slice(buf);
        self.position += buf.len();
        Ok(buf.len())
    }

    fn flush(&mut self) -> Result<(), Error> {
        Ok(())
    }
}

impl Seek for Disk {
    fn seek(&mut self, pos: SeekFrom) -> Result<u64, Error> {
        self.position = match pos {
            SeekFrom::Start(at) => at as usize,
            SeekFrom::End(back) => (self.bytes.len() as i64 + back) as usize,
            SeekFrom::Current(by) => (self.position as i64 + by) as usize,
        };
        Ok(self.position as u64)
    }
}

#[test]
fn new_file_system_is_empty_and_takes_files_from_the_start() {
    let disk = Disk { bytes: vec![0; 512 * 130], position: 0 };
    let Ok(mut fs) = FileSystem::new(disk) else {
        panic!("an empty partition can be formatted");
    };
    assert_eq!(fs.find_free_block(), Some(0));
    assert_eq!(fs.find_free_inode(), Some(0));
    let name: Vec<char> = "notes".chars().collect();
    let first = fs.create_file(&name).unwrap();
    assert_eq!((first.inode_idx, first.offset), (0, 0));
    let second = fs.create_file(&name).unwrap();
    assert_eq!(second.inode_idx, 1);
    assert_eq!(fs.find_free_block(), Some(2));
    assert_eq!(fs.find_free_inode(), Some(2));
}

#[test]
fn file_system_runs_out_of_blocks_and_of_files() {
    let Ok(mut small) = FileSystem::new(Disk { bytes: vec![0; 512 * 2], position: 0 }) else {
        panic!("an empty partition can be formatted");
    };
    let name: Vec<char> = "a".chars().collect();
    assert!(small.create_file(&name).is_ok());
    assert!(small.create_file(&name).is_ok());
    assert_eq!(small.create_file(&name), Err(Error::OutOfBlocks));
    let Ok(mut large) = FileSystem::new(Disk { bytes: vec![0; 512 * 130], position: 0 }) else {
        panic!("an empty partition can be formatted");
    };
    for _ in 0..64 {
        assert!(large.create_file(&name).is_ok());
    }
    assert_eq!(large.create_file(&name), Err(Error::OutOfFiles));
}

#[test]
fn partitions_that_cannot_be_formatted_are_refused() {
    assert!(matches!(
        FileSystem::new(Disk { bytes: vec![0; 100], position: 0 }),
        Err(Error::PartitionTooSmall)
    ));
    let mut signed = vec![0u8; 1024];
    signed[..8].copy_from_slice(b"FERR__FS");
    assert!(matches!(FileSystem::new(Disk { bytes: signed.clone(), position: 0 }), Err(Error::ExistingFileSystem)));
    assert!(has_signature(&signed));
    assert!(!has_signature(&signed[1..]));
    assert_eq!(to_le_bytes(0x0102_0304_0506_0708), vec![8, 7, 6, 5, 4, 3, 2, 1]);
    assert_eq!(new_blocks_bitmap(130), vec![0, 0, 0]);
}

#[test]
fn the_first_read_decides_whether_a_partition_is_formatted() {
    let blank = vec![0u8; 512];
    assert_eq!(rust_os::shared::ferr_fs::first_block_verdict(512, &blank), Ok(()));
    assert_eq!(
        rust_os::shared::ferr_fs::first_block_verdict(511, &blank),
        Err(Error::PartitionTooSmall)
    );
    assert_eq!(
        rust_os::shared::ferr_fs::first_block_verdict(0, &[]),
        Err(Error::PartitionTooSmall)
    );
    let mut signed = vec![0u8; 512];
    signed[..8].copy_from_slice(b"FERR__FS");
    assert_eq!(
        rust_os::shared::ferr_fs::first_block_verdict(512, &signed),
        Err(Error::ExistingFileSystem)
    );
    assert_eq!(
        rust_os::shared::ferr_fs::first_block_verdict(100, &signed),
        Err(Error::PartitionTooSmall)
    );
    signed[7] = b's';
    assert_eq!(rust_os::shared::ferr_fs::first_block_verdict(512, &signed), Ok(()));
}

#[test]
fn a_partition_has_a_block_for_every_full_512_bytes() {
    assert_eq!(rust_os::shared::ferr_fs::block_count(0), Ok(0));
    assert_eq!(rust_os::shared::ferr_fs::block_count(511), Ok(0));
    assert_eq!(rust_os::shared::ferr_fs::block_count(512), Ok(1));
    assert_eq!(rust_os::shared::ferr_fs::block_count(512 * 130 + 17), Ok(130));
    assert_eq!(rust_os::shared::ferr_fs::block_count(u64::MAX), Ok(u64::MAX / 512));
}

#[test]
fn formatting_writes_the_super_block() {
    struct Shared(std::rc::Rc<std::cell::RefCell<Disk>>);
    impl Read for Shared {
        fn read(&mut self, buf: &mut Vec<u8>) -> Result<usize, Error> {
            self.0.borrow_mut().read(buf)
        }
    }
    impl Write for Shared {
        fn write(&mut self, buf: &[u8]) -> Result<usize, Error> {
            self.0.borrow_mut().write(buf)
        }
        fn flush(&mut self) -> Result<(), Error> {
            Ok(())
        }
    }
    impl Seek for Shared {
        fn seek(&mut self, pos: SeekFrom) -> Result<u64, Error> {
            self.0.borrow_mut().seek(pos)
        }
    }
    let disk = std::rc::Rc::new(std::cell::RefCell::new(Disk { bytes: vec![0xEE; 512 * 4], position: 0 }));
    assert!(FileSystem::new(Shared(disk.clone())).is_ok());
    let bytes = &disk.borrow().bytes;
    assert_eq!(&bytes[..8], b"FERR__FS");
    assert_eq!(&bytes[8..16], &4u64.to_le_bytes());
    assert_eq!(&bytes[16..20], &[0; 4]);
    assert_eq!(&bytes[512..520], &[0; 8]);
    assert_eq!(bytes[520], 0xEE);
}

struct SharedDisk(std::rc::Rc<std::cell::RefCell<Disk>>);

impl Read for SharedDisk {
    fn read(&mut self, buf: &mut Vec<u8>) -> Result<usize, Error> {
        self.0.borrow_mut().read(buf)
    }
}

impl Write for SharedDisk {
    fn write(&mut self, buf: &[u8]) -> Result<usize, Error> {
        self.0.borrow_mut().write(buf)
    }

    fn flush(&mut self) -> Result<(), Error> {
        Ok(())
    }
}

impl Seek for SharedDisk {
    fn seek(&mut self, pos: SeekFrom) -> Result<u64, Error> {
        self.0.borrow_mut().seek(pos)
    }
}

#[test]
fn a_write_fills_the_block_of_the_file_and_takes_more_as_it_grows() {
    let disk = std::rc::Rc::new(std::cell::RefCell::new(Disk { bytes: vec![0xEE; 512 * 8], position: 0 }));
    let Ok(mut fs) = FileSystem::new(SharedDisk(disk.clone())) else {
        panic!("an empty partition can be formatted");
    };
    let name: Vec<char> = "a".chars().collect();
    let mut first = fs.create_file(&name).unwrap();
    let mut second = fs.create_file(&name).unwrap();
    // the files hold the blocks 0 and 1; the next free block is 2
    assert_eq!(fs.find_free_block(), Some(2));
    assert_eq!(second.write(&mut fs, b"hello"), Ok(5));
    assert_eq!(second.flush(), Ok(()));
    assert_eq!(fs.find_free_block(), Some(2));
    {
        let bytes = &disk.borrow().bytes;
        assert_eq!(&bytes[512..517], b"hello");
        assert!(bytes[517..1024].iter().all(|b| *b == 0));
        assert_eq!(bytes[1024], 0xEE);
    }
    let long: Vec<u8> = (0..600u32).map(|i| (i % 251) as u8 + 1).collect();
    assert_eq!(first.write(&mut fs, &long), Ok(600));
    assert_eq!(fs.find_free_block(), Some(3));
    {
        let bytes = &disk.borrow().bytes;
        assert_eq!(&bytes[0..512], &long[..512]);
        assert_eq!(&bytes[1024..1024 + 88], &long[512..]);
        assert!(bytes[1024 + 88..1536].iter().all(|b| *b == 0));
        assert_eq!(bytes[1536], 0xEE);
        assert_eq!(&bytes[512..517], b"hello");
    }
    assert_eq!(first.write(&mut fs, &[]), Ok(0));
    assert_eq!(fs.find_free_block(), Some(3));
}

#[test]
fn a_write_beyond_the_file_or_the_partition_is_refused() {
    let disk = std::rc::Rc::new(std::cell::RefCell::new(Disk { bytes: vec![0; 512 * 3], position: 0 }));
    let Ok(mut fs) = FileSystem::new(SharedDisk(disk.clone())) else {
        panic!("an empty partition can be formatted");
    };
    let name: Vec<char> = "a".chars().collect();
    let mut file = fs.create_file(&name).unwrap();
    file.offset = 512;
    assert_eq!(file.write(&mut fs, b"x"), Err(Error::InvalidFileOffset));
    file.offset = 500;
    // three blocks in all, one taken: a write that needs three more finds two
    assert_eq!(file.write(&mut fs, &vec![7u8; 12 + 512 * 2 + 1]), Err(Error::OutOfBlocks));
    assert_eq!(fs.find_free_block(), Some(1));
    assert_eq!(file.write(&mut fs, &vec![7u8; 12 + 512 * 2]), Ok(12 + 512 * 2));
    assert_eq!(fs.find_free_block(), None);
    let bytes = &disk.borrow().bytes;
    assert!(bytes[500..].iter().all(|b| *b == 7));
}

#[test]
fn blocks_are_taken_from_the_lowest_free_one_on() {
    let mut bitmap = vec![0b1011u64, 0];
    assert_eq!(rust_os::shared::ferr_fs::first_free_block(&bitmap, 70), Some(2));
    assert_eq!(rust_os::shared::ferr_fs::take_blocks(&mut bitmap, 70, 3), Some(vec![2, 4, 5]));
    assert_eq!(bitmap, vec![0b111111u64, 0]);
    let mut full = vec![u64::MAX, 0b1];
    assert_eq!(rust_os::shared::ferr_fs::take_blocks(&mut full, 66, 2), None);
    assert_eq!(full, vec![u64::MAX, 0b1]);
    assert_eq!(rust_os::shared::ferr_fs::take_blocks(&mut full, 66, 1), Some(vec![65]));
    assert_eq!(full, vec![u64::MAX, 0b11]);
    assert_eq!(rust_os::shared::ferr_fs::take_blocks(&mut full, 66, 0), Some(vec![]));
    assert_eq!(rust_os::shared::ferr_fs::first_free_block(&full, 66), None);
}

#[test]
fn a_write_is_cut_at_the_ends_of_the_blocks() {
    assert_eq!(blocks_to_allocate(0, 0), 0);
    assert_eq!(blocks_to_allocate(0, 512), 0);
    assert_eq!(blocks_to_allocate(0, 513), 1);
    assert_eq!(blocks_to_allocate(511, 1), 0);
    assert_eq!(blocks_to_allocate(511, 2), 1);
    assert_eq!(blocks_to_allocate(1024 + 500, 12 + 1024 + 1), 3);
    assert_eq!(chunk_bounds(500, 1037, 0), (0, 12));
    assert_eq!(chunk_bounds(500, 1037, 1), (12, 524));
    assert_eq!(chunk_bounds(500, 1037, 2), (524, 1036));
    assert_eq!(chunk_bounds(500, 1037, 3), (1036, 1037));
    assert_eq!(chunk_bounds(0, 5, 0), (0, 5));
    assert_eq!(padding(0, 5).len(), 507);
    assert_eq!(padding(500, 12).len(), 0);
    assert_eq!(padding(500, 1037).len(), 511);
    assert_eq!(padding(7, 0).len(), 0);
    assert!(padding(0, 5).iter().all(|b| *b == 0));
}
