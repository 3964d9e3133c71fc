//! A small file system on a partition: a super block, a bitmap of inodes,
//! a bitmap of blocks, and blocks of 512 bytes.

use vstd::prelude::*;
use crate::shared::bits::{set_bit, with_bit};

verus! {

/// The bytes of a block.
pub const BLOCK_SIZE: usize = 512;

/// The files that the file system can hold.
pub const MAX_FILES: usize = 64;

/// Why the file system refused a request.
#[derive(Clone, Copy, PartialEq, Eq, Structural, Debug)]
pub enum Error {
    PartitionTooSmall,
    OutOfBlocks,
    OutOfFiles,
    InvalidFileOffset,
    /// The partition holds a file system already; to read one is not
    /// provided for.
    ExistingFileSystem,
    /// The partition failed.
    Partition,
}

/// Something that can be read from.
pub trait Read {
    /// Reads into `buf` and returns the number of bytes read.
    fn read(&mut self, buf: &mut Vec<u8>) -> Result<usize, Error>;
}

/// Something that can be written to.
pub trait Write {
    /// Writes the bytes of `buf` and returns the number of bytes written.
    fn write(&mut self, buf: &[u8]) -> Result<usize, Error>;

    /// Makes sure that what was written has arrived.
    fn flush(&mut self) -> Result<(), Error>;
}

/// Where to seek to.
#[derive(Clone, Copy, PartialEq, Eq, Structural, Debug)]
pub enum SeekFrom {
    Start(u64),
    End(i64),
    Current(i64),
}

/// Something with a position that can be moved.
pub trait Seek {
    /// Moves the position and returns the new position from the start.
    fn seek(&mut self, pos: SeekFrom) -> Result<u64, Error>;
}

/// What the file system knows of a file.
pub struct Inode {
    pub name: Vec<char>,
    pub size: usize,
    pub blocks: Vec<u32>,
}

/// The file system on the partition `partition`.
pub struct FileSystem<Partition: Read + Write + Seek> {
    partition: Partition,
    total_blocks: u64,
    inodes_bitmap: u64,
    inodes: Vec<Inode>,
    blocks_bitmap: Vec<u64>,
}

/// An open file: the inode and the place of the next byte.
#[derive(Clone, Copy, PartialEq, Eq, Structural, Debug)]
pub struct File {
    pub offset: u64,
    pub inode_idx: usize,
}

/// Bit `n` of the word is set.
pub open spec fn bit_set(word: u64, n: int) -> bool {
    (word >> (n as u64)) & 1 != 0
}

/// Block `block` is taken according to the bitmap.
pub open spec fn block_taken(bitmap: Seq<u64>, block: int) -> bool {
    bit_set(bitmap[block / 64], block % 64)
}

/// The first block from `from` on, below `limit`, that is not taken; `limit`
/// where every one is.
pub open spec fn first_free(bitmap: Seq<u64>, from: int, limit: int) -> int
    decreases limit - from,
{
    if from < 0 || from >= limit {
        limit
    } else if !block_taken(bitmap, from) {
        from
    } else {
        first_free(bitmap, from + 1, limit)
    }
}

/// The first bit of the word from `from` on that is clear; 64 where every
/// one is set.
pub open spec fn first_clear(word: u64, from: int) -> int
    decreases 64 - from,
{
    if from < 0 || from >= 64 {
        64
    } else if !bit_set(word, from) {
        from
    } else {
        first_clear(word, from + 1)
    }
}

/// The signature of the file system.
pub open spec fn signature() -> Seq<u8> {
    seq![0x46u8, 0x45u8, 0x52u8, 0x52u8, 0x5Fu8, 0x5Fu8, 0x46u8, 0x53u8]
}

/// The eight bytes of a number, the lowest first.
pub open spec fn le_bytes(x: u64) -> Seq<u8> {
    Seq::new(8, |i: int| ((x >> ((8 * i) as u64)) & 0xff) as u8)
}

proof fn lemma_byte(x: u64, shift: u64)
    by (bit_vector)
    ensures
        (x >> shift) & 0xff <= 0xff,
{
}

/// The eight bytes of a number, the lowest first.
pub fn to_le_bytes(x: u64) -> (bytes: Vec<u8>)
    ensures
        bytes@ == le_bytes(x),
{
    let mut bytes: Vec<u8> = Vec::new();
    let mut i: u64 = 0;
    while i < 8
        invariant
            i <= 8,
            bytes@.len() == i,
            forall|k: int| 0 <= k < i ==> #[trigger] bytes@[k] == le_bytes(x)[k],
        decreases 8 - i,
    {
        proof {
            lemma_byte(x, (8 * i) as u64);
        }
        bytes.push(((x >> (8 * i)) & 0xff) as u8);
        i = i + 1;
    }
    assert(bytes@ =~= le_bytes(x));
    bytes
}

/// Tells whether the first block of a partition starts with the signature
/// of the file system.
pub fn has_signature(block: &[u8]) -> (signed: bool)
    ensures
        signed == (block@.len() >= 8 && block@.subrange(0, 8) == signature()),
{
    if block.len() < 8 {
        return false;
    }
    let signed = block[0] == 0x46 && block[1] == 0x45 && block[2] == 0x52 && block[3] == 0x52 && block[4]
        == 0x5F && block[5] == 0x5F && block[6] == 0x46 && block[7] == 0x53;
    assert(signed == (block@.subrange(0, 8) =~= signature()));
    signed
}

/// What the first read of a partition says of it: `read` bytes came, and
/// `block` holds them. A partition that gives less than a block is too
/// small, and one whose first block starts with the signature holds a file
/// system already.
pub fn first_block_verdict(read: usize, block: &[u8]) -> (r: Result<(), Error>)
    ensures
        r == (if read != BLOCK_SIZE {
            Err::<(), Error>(Error::PartitionTooSmall)
        } else if block@.len() >= 8 && block@.subrange(0, 8) == signature() {
            Err::<(), Error>(Error::ExistingFileSystem)
        } else {
            Ok::<(), Error>(())
        }),
{
    if read != BLOCK_SIZE {
        Err(Error::PartitionTooSmall)
    } else if has_signature(block) {
        Err(Error::ExistingFileSystem)
    } else {
        Ok(())
    }
}

/// The blocks of a partition of `total_bytes` bytes: one for every full 512
/// bytes. Fails where the bitmap for them would have more words than a
/// vector can hold.
pub fn block_count(total_bytes: u64) -> (r: Result<u64, Error>)
    ensures
        r == (if total_bytes / 512 / 64 < usize::MAX {
            Ok::<u64, Error>(total_bytes / 512)
        } else {
            Err::<u64, Error>(Error::Partition)
        }),
{
    let total_blocks = total_bytes / BLOCK_SIZE as u64;
    if total_blocks / 64 >= usize::MAX as u64 {
        Err(Error::Partition)
    } else {
        Ok(total_blocks)
    }
}

/// The words of the bitmap of blocks for a partition of `total_blocks`
/// blocks: one bit for each block, and a word to spare.
pub fn new_blocks_bitmap(total_blocks: u64) -> (bitmap: Vec<u64>)
    requires
        total_blocks / 64 < usize::MAX,
    ensures
        bitmap@.len() == total_blocks / 64 + 1,
        forall|i: int| 0 <= i < bitmap@.len() ==> #[trigger] bitmap@[i] == 0,
{
    let words = total_blocks / 64 + 1;
    let mut bitmap: Vec<u64> = Vec::new();
    let mut i: u64 = 0;
    while i < words
        invariant
            i <= words,
            bitmap@.len() == i,
            forall|k: int| 0 <= k < i ==> #[trigger] bitmap@[k] == 0,
        decreases words - i,
    {
        bitmap.push(0);
        i = i + 1;
    }
    bitmap
}

/// The first of the first `limit` blocks that the bitmap shows as free, or
/// `None` where it shows none.
pub fn first_free_block(bitmap: &Vec<u64>, limit: usize) -> (block: Option<usize>)
    requires
        bitmap@.len() > limit / 64,
    ensures
        match block {
            Some(b) => b == first_free(bitmap@, 0, limit as int) && b < limit,
            None => first_free(bitmap@, 0, limit as int) == limit,
        },
{
    let mut b: usize = 0;
    while b < limit
        invariant
            b <= limit,
            bitmap@.len() > limit / 64,
            first_free(bitmap@, 0, limit as int) == first_free(bitmap@, b as int, limit as int),
        decreases limit - b,
    {
        let word = bitmap[b / 64];
        if (word >> ((b % 64) as u64)) & 1 == 0 {
            return Some(b);
        }
        b = b + 1;
    }
    None
}

/// The bitmap with the bit of `block` set.
pub open spec fn with_block(bitmap: Seq<u64>, block: int) -> Seq<u64> {
    bitmap.update(block / 64, with_bit(bitmap[block / 64], (block % 64) as u8, true))
}

/// The first `count` free blocks below `limit`, the lowest first, each
/// taken before the next is looked for; `None` where fewer are free.
pub open spec fn free_blocks(bitmap: Seq<u64>, limit: int, count: nat) -> Option<Seq<int>>
    decreases count,
{
    if count == 0 {
        Some(Seq::empty())
    } else {
        let block = first_free(bitmap, 0, limit);
        if block >= limit {
            None
        } else {
            match free_blocks(with_block(bitmap, block), limit, (count - 1) as nat) {
                Some(rest) => Some(seq![block] + rest),
                None => None,
            }
        }
    }
}

/// The bitmap with each of the blocks taken, one after the other.
pub open spec fn with_blocks(bitmap: Seq<u64>, blocks: Seq<int>) -> Seq<u64>
    decreases blocks.len(),
{
    if blocks.len() == 0 {
        bitmap
    } else {
        with_blocks(with_block(bitmap, blocks[0]), blocks.subrange(1, blocks.len() as int))
    }
}

/// Takes the first `count` free blocks below `limit` from the bitmap, or
/// none of them where fewer are free.
pub fn take_blocks(bitmap: &mut Vec<u64>, limit: usize, count: usize) -> (taken: Option<Vec<usize>>)
    requires
        old(bitmap)@.len() > limit / 64,
    ensures
        final(bitmap)@.len() == old(bitmap)@.len(),
        match taken {
            Some(blocks) => {
                &&& free_blocks(old(bitmap)@, limit as int, count as nat) is Some
                &&& blocks@.len() == count
                &&& blocks@.map_values(|b: usize| b as int) == free_blocks(
                    old(bitmap)@,
                    limit as int,
                    count as nat,
                )->Some_0
                &&& forall|i: int| 0 <= i < count ==> #[trigger] blocks@[i] < limit
                &&& final(bitmap)@ == with_blocks(old(bitmap)@, blocks@.map_values(|b: usize| b as int))
            },
            None => free_blocks(old(bitmap)@, limit as int, count as nat) is None && final(bitmap)@
                == old(bitmap)@,
        },
    decreases count,
{
    if count == 0 {
        let blocks: Vec<usize> = Vec::new();
        assert(blocks@.map_values(|b: usize| b as int) =~= Seq::<int>::empty());
        return Some(blocks);
    }
    let block = match first_free_block(bitmap, limit) {
        Some(block) => block,
        None => {
            return None;
        },
    };
    let ghost before = bitmap@;
    let old_word = bitmap[block / 64];
    let mut word = old_word;
    set_bit(&mut word, (block % 64) as u8, true);
    bitmap[block / 64] = word;
    assert(bitmap@ == with_block(before, block as int));
    match take_blocks(bitmap, limit, count - 1) {
        Some(rest) => {
            let mut blocks: Vec<usize> = Vec::new();
            blocks.push(block);
            let mut i: usize = 0;
            while i < rest.len()
                invariant
                    i <= rest@.len(),
                    blocks@ == seq![block] + rest@.take(i as int),
                decreases rest@.len() - i,
            {
                blocks.push(rest[i]);
                assert(blocks@ =~= seq![block] + rest@.take(i + 1));
                i = i + 1;
            }
            proof {
                assert(rest@.take(rest@.len() as int) =~= rest@);
                let found = blocks@.map_values(|b: usize| b as int);
                let after = rest@.map_values(|b: usize| b as int);
                assert(found =~= seq![block as int] + after);
                assert(found.subrange(1, found.len() as int) =~= after);
            }
            Some(blocks)
        },
        None => {
            bitmap[block / 64] = old_word;
            assert(bitmap@ =~= before);
            None
        },
    }
}

/// The number of blocks beyond its first that a write of `len` bytes
/// reaches, where the first byte goes `start` bytes into its block.
pub open spec fn blocks_beyond(start: int, len: int) -> int {
    if len <= 0 {
        0
    } else {
        (start + len - 1) / 512
    }
}

/// The number of blocks to allocate for a write of `len` bytes at the
/// offset `offset` of a file: those that it reaches beyond the block of its
/// first byte.
pub fn blocks_to_allocate(offset: u64, len: usize) -> (count: usize)
    ensures
        count == blocks_beyond((offset % 512) as int, len as int),
{
    if len == 0 {
        0
    } else {
        let start = (offset % 512) as usize;
        proof {
            lemma_split_sum(start as int, len - 1);
        }
        (len - 1) / 512 + ((len - 1) % 512 + start) / 512
    }
}

/// The quotient and the remainder of a sum by 512, from those of one of
/// its parts.
proof fn lemma_split_sum(start: int, rest: int)
    requires
        0 <= start < 512,
        0 <= rest,
    ensures
        (start + rest) / 512 == rest / 512 + (rest % 512 + start) / 512,
        (start + rest) % 512 == (rest % 512 + start) % 512,
{
    let low = rest % 512 + start;
    let q = rest / 512 + low / 512;
    let r = low % 512;
    assert(rest == 512 * (rest / 512) + rest % 512);
    assert(low == 512 * (low / 512) + r);
    assert(start + rest == q * 512 + r);
    vstd::arithmetic::div_mod::lemma_fundamental_div_mod_converse(start + rest, 512, q, r);
}

/// The place in the buffer of the first byte that goes to block `i` of a
/// write of `len` bytes whose first byte goes `start` bytes into block 0.
pub open spec fn chunk_start(start: int, len: int, i: int) -> int {
    if i <= 0 {
        0
    } else if 512 * i - start < len {
        512 * i - start
    } else {
        len
    }
}

/// Where in the buffer the bytes for block `i` of a write start and end.
pub fn chunk_bounds(offset: u64, len: usize, i: usize) -> (bounds: (usize, usize))
    requires
        i <= blocks_beyond((offset % 512) as int, len as int),
    ensures
        bounds.0 == chunk_start((offset % 512) as int, len as int, i as int),
        bounds.1 == chunk_start((offset % 512) as int, len as int, i + 1),
        bounds.0 <= bounds.1 <= len,
{
    let start = (offset % 512) as usize;
    let from: usize = if i == 0 {
        0
    } else {
        assert(512 * i <= start + len - 1);
        512 * (i - 1) + (512 - start)
    };
    let to: usize = if len - from <= 512 - (if i == 0 {
        start
    } else {
        0
    }) {
        len
    } else if i == 0 {
        512 - start
    } else {
        from + 512
    };
    (from, to)
}

/// The number of zeros that follow the last byte of a write to the end of
/// its block.
pub open spec fn padding_len(start: int, len: int) -> int {
    if len <= 0 {
        0
    } else {
        511 - (start + len - 1) % 512
    }
}

/// The zeros that fill the block of the last byte of a write.
pub fn padding(offset: u64, len: usize) -> (zeros: Vec<u8>)
    ensures
        zeros@.len() == padding_len((offset % 512) as int, len as int),
        forall|i: int| 0 <= i < zeros@.len() ==> #[trigger] zeros@[i] == 0,
{
    let mut zeros: Vec<u8> = Vec::new();
    if len == 0 {
        return zeros;
    }
    let start = (offset % 512) as usize;
    proof {
        lemma_split_sum(start as int, len - 1);
    }
    let count = 511 - ((len - 1) % 512 + start) % 512;
    let mut i: usize = 0;
    while i < count
        invariant
            i <= count,
            zeros@.len() == i,
            forall|k: int| 0 <= k < i ==> #[trigger] zeros@[k] == 0,
        decreases count - i,
    {
        zeros.push(0);
        i = i + 1;
    }
    zeros
}

impl<T: Read + Write + Seek> FileSystem<T> {
    /// The number of blocks of the partition.
    pub closed spec fn blocks(&self) -> u64 {
        self.total_blocks
    }

    /// The bitmap of inodes: bit `i` is set where inode `i` is in use.
    pub closed spec fn inode_bits(&self) -> u64 {
        self.inodes_bitmap
    }

    /// The bitmap of blocks.
    pub closed spec fn block_bits(&self) -> Seq<u64> {
        self.blocks_bitmap@
    }

    /// The number of files.
    pub closed spec fn file_count(&self) -> int {
        self.inodes@.len() as int
    }

    /// The blocks of the file at place `idx`, in the order of its bytes.
    pub closed spec fn file_blocks(&self, idx: int) -> Seq<u32> {
        self.inodes@[idx].blocks@
    }

    /// The bitmap of blocks has a bit for every block.
    pub closed spec fn wf(&self) -> bool {
        self.blocks_bitmap@.len() == self.total_blocks / 64 + 1
    }

    /// Makes a file system on a partition that holds none: reads the first
    /// block, and unless that holds the signature already writes the super
    /// block and an empty bitmap of blocks. The file system has a block for
    /// every 512 bytes of the partition, and no file.
    ///
    /// An error of the partition is handed on. What the partition answers
    /// decides the rest: `first_block_verdict` judges the first read and
    /// `block_count` the length that the partition reports.
    pub fn new(partition: T) -> (r: Result<Self, Error>)
        ensures
            r is Ok ==> r->Ok_0.wf() && r->Ok_0.inode_bits() == 0 && r->Ok_0.file_count() == 0
                && forall|i: int|
                0 <= i < r->Ok_0.block_bits().len() ==> #[trigger] r->Ok_0.block_bits()[i] == 0,
    {
        let mut partition = partition;
        let mut buffer: Vec<u8> = Vec::new();
        let read = match partition.read(&mut buffer) {
            Ok(read) => read,
            Err(e) => {
                return Err(e);
            },
        };
        match first_block_verdict(read, buffer.as_slice()) {
            Ok(()) => {},
            Err(e) => {
                return Err(e);
            },
        }
        let total_bytes = match partition.seek(SeekFrom::End(0)) {
            Ok(total_bytes) => total_bytes,
            Err(e) => {
                return Err(e);
            },
        };
        let total_blocks = match block_count(total_bytes) {
            Ok(total_blocks) => total_blocks,
            Err(e) => {
                return Err(e);
            },
        };
        let blocks_bitmap = new_blocks_bitmap(total_blocks);
        match partition.seek(SeekFrom::Start(0)) {
            Ok(_) => {},
            Err(e) => {
                return Err(e);
            },
        }
        let signature_bytes: [u8; 8] = [0x46, 0x45, 0x52, 0x52, 0x5F, 0x5F, 0x46, 0x53];
        match partition.write(&signature_bytes) {
            Ok(_) => {},
            Err(e) => {
                return Err(e);
            },
        }
        match partition.write(to_le_bytes(total_blocks).as_slice()) {
            Ok(_) => {},
            Err(e) => {
                return Err(e);
            },
        }
        let no_inodes: [u8; 4] = [0, 0, 0, 0];
        match partition.write(&no_inodes) {
            Ok(_) => {},
            Err(e) => {
                return Err(e);
            },
        }
        match partition.seek(SeekFrom::Start(BLOCK_SIZE as u64)) {
            Ok(_) => {},
            Err(e) => {
                return Err(e);
            },
        }
        let mut i: usize = 0;
        while i < blocks_bitmap.len()
            invariant
                i <= blocks_bitmap@.len(),
            decreases blocks_bitmap@.len() - i,
        {
            match partition.write(to_le_bytes(blocks_bitmap[i]).as_slice()) {
                Ok(_) => {},
                Err(e) => {
                    return Err(e);
                },
            }
            i = i + 1;
        }
        Ok(FileSystem { partition, total_blocks, inodes_bitmap: 0, blocks_bitmap, inodes: Vec::new() })
    }

    /// The first block that is not taken, or `None` where every block of
    /// the partition is.
    pub fn find_free_block(&self) -> (block: Option<usize>)
        requires
            self.wf(),
            self.blocks() <= usize::MAX,
        ensures
            match block {
                Some(b) => b == first_free(self.block_bits(), 0, self.blocks() as int) && b < self.blocks(),
                None => first_free(self.block_bits(), 0, self.blocks() as int) == self.blocks(),
            },
    {
        first_free_block(&self.blocks_bitmap, self.total_blocks as usize)
    }

    /// The first inode that is not in use, or `None` where all 64 are.
    pub fn find_free_inode(&self) -> (inode: Option<usize>)
        ensures
            match inode {
                Some(i) => i == first_clear(self.inode_bits(), 0) && i < MAX_FILES && !bit_set(
                    self.inode_bits(),
                    i as int,
                ) && forall|k: int| 0 <= k < i ==> bit_set(self.inode_bits(), k),
                None => first_clear(self.inode_bits(), 0) == MAX_FILES && forall|k: int|
                    0 <= k < MAX_FILES ==> bit_set(self.inode_bits(), k),
            },
    {
        let mut i: usize = 0;
        while i < MAX_FILES
            invariant
                i <= MAX_FILES,
                forall|k: int| 0 <= k < i ==> bit_set(self.inode_bits(), k),
                first_clear(self.inode_bits(), 0) == first_clear(self.inode_bits(), i as int),
            decreases MAX_FILES - i,
        {
            if (self.inodes_bitmap >> (i as u64)) & 1 == 0 {
                return Some(i);
            }
            i = i + 1;
        }
        None
    }

    /// Creates an empty file with the name `file_name`: it takes the first
    /// free inode and the first free block. Fails, and changes nothing, with
    /// `OutOfBlocks` where no block of the partition is free, and else with
    /// `OutOfFiles` where all inodes are in use.
    pub fn create_file(&mut self, file_name: &Vec<char>) -> (r: Result<File, Error>)
        requires
            old(self).wf(),
            old(self).blocks() <= usize::MAX,
        ensures
            final(self).wf(),
            final(self).blocks() == old(self).blocks(),
            r is Ok <==> first_free(old(self).block_bits(), 0, old(self).blocks() as int) < old(
                self,
            ).blocks() && first_clear(old(self).inode_bits(), 0) < MAX_FILES,
            match r {
                Ok(file) => {
                    let block = first_free(old(self).block_bits(), 0, old(self).blocks() as int);
                    &&& block < old(self).blocks()
                    &&& file.offset == 0
                    &&& file.inode_idx == first_clear(old(self).inode_bits(), 0)
                    &&& file.inode_idx < MAX_FILES
                    &&& !bit_set(old(self).inode_bits(), file.inode_idx as int)
                    &&& final(self).inode_bits() == with_bit(
                        old(self).inode_bits(),
                        file.inode_idx as u8,
                        true,
                    )
                    &&& final(self).block_bits() == old(self).block_bits().update(
                        block / 64,
                        with_bit(old(self).block_bits()[block / 64], (block % 64) as u8, true),
                    )
                    &&& final(self).file_count() == old(self).file_count() + 1
                },
                Err(e) => {
                    &&& final(self).inode_bits() == old(self).inode_bits()
                    &&& final(self).block_bits() == old(self).block_bits()
                    &&& final(self).file_count() == old(self).file_count()
                    &&& e == (if first_free(old(self).block_bits(), 0, old(self).blocks() as int) == old(self).blocks() {
                        Error::OutOfBlocks
                    } else {
                        Error::OutOfFiles
                    })
                },
            },
    {
        let free_block = match self.find_free_block() {
            Some(block) => block,
            None => {
                return Err(Error::OutOfBlocks);
            },
        };
        let free_inode = match self.find_free_inode() {
            Some(inode) => inode,
            None => {
                return Err(Error::OutOfFiles);
            },
        };
        set_bit(&mut self.inodes_bitmap, free_inode as u8, true);
        let mut word = self.blocks_bitmap[free_block / 64];
        set_bit(&mut word, (free_block % 64) as u8, true);
        self.blocks_bitmap[free_block / 64] = word;
        let mut name: Vec<char> = Vec::new();
        let mut i: usize = 0;
        while i < file_name.len()
            invariant
                i <= file_name@.len(),
            decreases file_name@.len() - i,
        {
            name.push(file_name[i]);
            i = i + 1;
        }
        let mut blocks: Vec<u32> = Vec::new();
        blocks.push(#[verifier::truncate] (free_block as u32));
        self.inodes.push(Inode { name, size: 0, blocks });
        Ok(File { offset: 0, inode_idx: free_inode })
    }
}

/// The numbers of the blocks as an inode keeps them.
pub open spec fn as_inode_blocks(blocks: Seq<int>) -> Seq<u32> {
    blocks.map_values(|b: int| b as u32)
}

impl File {
    /// Writes the bytes of `buf` to the file from its offset on.
    ///
    /// The first byte goes to the block of the file that holds the offset;
    /// for the bytes that reach beyond that block the first free blocks of
    /// the partition are taken, marked in the bitmap and added to the file.
    /// Zeros fill the block of the last byte. Returns the number of bytes
    /// written, which is the length of `buf`.
    ///
    /// Fails with `InvalidFileOffset` where the file has no block for its
    /// offset, and with `OutOfBlocks` where the partition has too few free
    /// blocks; neither changes anything. An error of the partition is handed
    /// on, with the blocks taken.
    pub fn write<P: Read + Write + Seek>(&mut self, fs: &mut FileSystem<P>, buf: &[u8]) -> (r: Result<
        usize,
        Error,
    >)
        requires
            old(fs).wf(),
            old(fs).blocks() <= usize::MAX,
            old(self).inode_idx < old(fs).file_count(),
        ensures
            *final(self) == *old(self),
            final(fs).wf(),
            final(fs).blocks() == old(fs).blocks(),
            final(fs).inode_bits() == old(fs).inode_bits(),
            final(fs).file_count() == old(fs).file_count(),
            forall|j: int|
                0 <= j < old(fs).file_count() && j != old(self).inode_idx ==> final(fs).file_blocks(j)
                    == old(fs).file_blocks(j),
            ({
                let idx = old(self).inode_idx as int;
                let count = blocks_beyond((old(self).offset % 512) as int, buf@.len() as int);
                let found = free_blocks(old(fs).block_bits(), old(fs).blocks() as int, count as nat);
                if old(self).offset / 512 >= old(fs).file_blocks(idx).len() {
                    &&& r == Err::<usize, Error>(Error::InvalidFileOffset)
                    &&& final(fs).block_bits() == old(fs).block_bits()
                    &&& final(fs).file_blocks(idx) == old(fs).file_blocks(idx)
                } else if found is None {
                    &&& r == Err::<usize, Error>(Error::OutOfBlocks)
                    &&& final(fs).block_bits() == old(fs).block_bits()
                    &&& final(fs).file_blocks(idx) == old(fs).file_blocks(idx)
                } else {
                    &&& final(fs).block_bits() == with_blocks(old(fs).block_bits(), found->Some_0)
                    &&& final(fs).file_blocks(idx) == old(fs).file_blocks(idx) + as_inode_blocks(
                        found->Some_0,
                    )
                    &&& r is Ok ==> r == Ok::<usize, Error>(buf@.len() as usize)
                }
            }),
    {
        let idx = self.inode_idx;
        let len = buf.len();
        if self.offset / 512 >= fs.inodes[idx].blocks.len() as u64 {
            return Err(Error::InvalidFileOffset);
        }
        let first_block = fs.inodes[idx].blocks[(self.offset / 512) as usize];
        let count = blocks_to_allocate(self.offset, len);
        let extra = match take_blocks(&mut fs.blocks_bitmap, fs.total_blocks as usize, count) {
            Some(extra) => extra,
            None => {
                return Err(Error::OutOfBlocks);
            },
        };
        let ghost found = extra@.map_values(|b: usize| b as int);
        let ghost before = fs.inodes@;
        let mut inode = fs.inodes.remove(idx);
        let ghost kept = inode.blocks@;
        let mut k: usize = 0;
        while k < extra.len()
            invariant
                k <= extra@.len(),
                found == extra@.map_values(|b: usize| b as int),
                inode.blocks@ == kept + as_inode_blocks(found.take(k as int)),
            decreases extra@.len() - k,
        {
            inode.blocks.push(#[verifier::truncate] (extra[k] as u32));
            assert(inode.blocks@ =~= kept + as_inode_blocks(found.take(k + 1)));
            k = k + 1;
        }
        assert(found.take(extra@.len() as int) =~= found);
        fs.inodes.insert(idx, inode);
        assert(fs.inodes@.len() == before.len());
        assert forall|j: int| 0 <= j < before.len() && j != idx implies fs.inodes@[j] == before[j] by {}
        assert(fs.file_blocks(idx as int) == old(fs).file_blocks(idx as int) + as_inode_blocks(found));
        let mut i: usize = 0;
        while i <= count
            invariant
                i <= count + 1,
                count == blocks_beyond((self.offset % 512) as int, len as int),
                len == buf@.len(),
                extra@.len() == count,
                *self == *old(self),
                idx == self.inode_idx,
                idx < old(fs).file_count(),
                self.offset / 512 < old(fs).file_blocks(idx as int).len(),
                fs.wf(),
                fs.blocks() == old(fs).blocks(),
                fs.inode_bits() == old(fs).inode_bits(),
                fs.file_count() == old(fs).file_count(),
                forall|j: int|
                    0 <= j < old(fs).file_count() && j != idx ==> fs.file_blocks(j) == old(fs).file_blocks(
                        j,
                    ),
                free_blocks(old(fs).block_bits(), old(fs).blocks() as int, count as nat) == Some(found),
                fs.block_bits() == with_blocks(old(fs).block_bits(), found),
                fs.file_blocks(idx as int) == old(fs).file_blocks(idx as int) + as_inode_blocks(found),
            decreases count + 1 - i,
        {
            let block: u64 = if i == 0 {
                first_block as u64
            } else {
                extra[i - 1] as u64
            };
            let within: u64 = if i == 0 {
                self.offset % 512
            } else {
                0
            };
            let position = match block.checked_mul(512) {
                Some(base) => match base.checked_add(within) {
                    Some(position) => position,
                    None => {
                        return Err(Error::Partition);
                    },
                },
                None => {
                    return Err(Error::Partition);
                },
            };
            match fs.partition.seek(SeekFrom::Start(position)) {
                Ok(_) => {},
                Err(e) => {
                    return Err(e);
                },
            }
            let (from, to) = chunk_bounds(self.offset, len, i);
            match fs.partition.write(vstd::slice::slice_subrange(buf, from, to)) {
                Ok(_) => {},
                Err(e) => {
                    return Err(e);
                },
            }
            i = i + 1;
        }
        let zeros = padding(self.offset, len);
        if zeros.len() > 0 {
            match fs.partition.write(zeros.as_slice()) {
                Ok(_) => {},
                Err(e) => {
                    return Err(e);
                },
            }
        }
        Ok(len)
    }

    /// Makes sure that what was written has arrived. Every write goes to
    /// the partition at once, so nothing is left to do.
    pub fn flush(&mut self) -> (r: Result<(), Error>)
        ensures
            r == Ok::<(), Error>(()),
            *final(self) == *old(self),
    {
        Ok(())
    }
}


} // verus!
