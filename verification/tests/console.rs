use font8x8::UnicodeFonts;
use rust_os::kernel::allocator::{init_heap, HEAP_SIZE, HEAP_START};
use rust_os::kernel::memory::{active_level_4_table, level_4_table_frame, translate_addr};
use rust_os::shared::addr::VirtAddr;
use rust_os::shared::allocator::{FixedSizeBlockAllocator, Layout};
use rust_os::shared::frame_allocator::{FrameAllocator, MemoryMap, MemoryRegion, MemoryType};
use rust_os::shared::logger::{glyph, is_drawable, FrameBufferInfo, Logger, PixelFormat};
use rust_os::shared::page_table::AddressSpace;
use rust_os::shared::screen::{Screen, WriteMode};
use rust_os::shared::VIRT_MAPPING_OFFSET;

const WIDTH: usize = 41;
const HEIGHT: usize = 25;
const STRIDE: usize = 64;

fn info(pixel_format: PixelFormat) -> FrameBufferInfo {
    FrameBufferInfo { addr: 0, size: STRIDE * HEIGHT * 4, width: WIDTH, height: HEIGHT, pixel_format, stride: STRIDE }
}

fn logger(pixel_format: PixelFormat) -> Logger {
    Logger::new(info(pixel_format), vec![0x55; STRIDE * HEIGHT * 4])
}

fn pixel(logger: &Logger, x: usize, y: usize) -> [u8; 4] {
    let at = (y * STRIDE + x) * 4;
    [logger.pixel_byte(at), logger.pixel_byte(at + 1), logger.pixel_byte(at + 2), logger.pixel_byte(at + 3)]
}

#[test]
fn glyphs_come_from_the_font_of_basic_latin() {
    assert_eq!(glyph('A'), font8x8::BASIC_FONTS.get('A'));
    assert_eq!(glyph('A'), Some([0x0C, 0x1E, 0x33, 0x33, 0x3F, 0x33, 0x33, 0x00]));
    assert_eq!(glyph('\0'), Some([0; 8]));
    assert_eq!(glyph('\u{7f}'), Some([0; 8]));
    assert_eq!(glyph('\u{80}'), None);
    assert_eq!(glyph('é'), None);
}

#[test]
fn new_console_is_blank_with_the_cursor_at_the_start() {
    let logger = logger(PixelFormat::Rgb);
    assert_eq!((logger.width(), logger.height()), (WIDTH, HEIGHT));
    assert_eq!(logger.cursor_position(), (0, 0));
    for at in 0..STRIDE * HEIGHT * 4 {
        assert_eq!(logger.pixel_byte(at), 0);
    }
    assert_eq!(logger.char_at(4, 2), '\0');
}

#[test]
fn a_character_is_drawn_in_its_cell() {
    let mut logger = logger(PixelFormat::Rgb);
    logger.write_char('A');
    logger.write_char('B');
    assert_eq!(logger.cursor_position(), (2, 0));
    assert_eq!(logger.char_at(0, 0), 'A');
    assert_eq!(logger.char_at(1, 0), 'B');
    let rows = font8x8::BASIC_FONTS.get('B').unwrap();
    for (y, row) in rows.iter().enumerate() {
        for x in 0..8 {
            let lit = row & (1 << x) != 0;
            let expected = if lit { [255, 255, 127, 0] } else { [0, 0, 0, 0] };
            assert_eq!(pixel(&logger, 9 + x, 1 + y), expected);
        }
    }
    assert_eq!(pixel(&logger, 3, 1), [255, 255, 127, 0]);
    assert_eq!(pixel(&logger, 0, 0), [0, 0, 0, 0]);
}

#[test]
fn blue_comes_first_in_bgr() {
    let mut logger = logger(PixelFormat::Bgr);
    logger.write_8x8([0x01; 8], 16, 8);
    assert_eq!(pixel(&logger, 16, 8), [127, 255, 255, 0]);
    assert_eq!(pixel(&logger, 17, 8), [0, 0, 0, 0]);
    assert_eq!(pixel(&logger, 16, 15), [127, 255, 255, 0]);
    assert_eq!(pixel(&logger, 16, 16), [0, 0, 0, 0]);
}

#[test]
fn a_full_row_wraps_and_the_last_row_scrolls() {
    let mut logger = logger(PixelFormat::Rgb);
    let text: Vec<char> = "abcdefg".chars().collect();
    logger.write_chars(&text);
    assert_eq!(logger.cursor_position(), (2, 1));
    assert_eq!(logger.char_at(4, 0), 'e');
    assert_eq!(logger.char_at(0, 1), 'f');
    logger.write_char('\n');
    assert_eq!(logger.cursor_position(), (0, 2));
    logger.write_char('x');
    logger.write_char('\r');
    assert_eq!(logger.cursor_position(), (0, 2));
    logger.write_char('\n');
    assert_eq!(logger.cursor_position(), (0, 2));
    assert_eq!(logger.char_at(0, 0), 'f');
    assert_eq!(logger.char_at(0, 1), 'x');
    assert_eq!(logger.char_at(0, 2), '\0');
    let rows = font8x8::BASIC_FONTS.get('x').unwrap();
    for (y, row) in rows.iter().enumerate() {
        for x in 0..8 {
            let lit = row & (1 << x) != 0;
            assert_eq!(pixel(&logger, 1 + x, 9 + y)[0], if lit { 255 } else { 0 });
        }
    }
}

#[test]
fn a_written_null_character_is_a_block_and_clear_blanks_all() {
    let mut logger = logger(PixelFormat::Rgb);
    logger.write_char('\0');
    assert_eq!(pixel(&logger, 1, 1), [255, 255, 127, 0]);
    assert_eq!(pixel(&logger, 8, 8), [255, 255, 127, 0]);
    logger.draw_char_buffer();
    assert_eq!(pixel(&logger, 1, 1), [0, 0, 0, 0]);
    logger.write_char('Q');
    logger.clear();
    assert_eq!(logger.cursor_position(), (0, 0));
    assert_eq!(logger.char_at(1, 0), '\0');
    assert_eq!(pixel(&logger, 10, 2), [0, 0, 0, 0]);
}

fn screen() -> Screen {
    let info = rust_os::shared::screen::FrameBufferInfo {
        addr: 0,
        size: STRIDE * HEIGHT * 4,
        width: WIDTH,
        height: HEIGHT,
        pixel_format: rust_os::shared::screen::PixelFormat::Rgb,
        stride: STRIDE,
    };
    Screen::new(info, vec![0x55; STRIDE * HEIGHT * 4])
}

#[test]
fn screen_moves_on_by_a_character_and_wraps() {
    let mut screen = screen();
    assert_eq!((screen.width(), screen.height()), (WIDTH, HEIGHT));
    assert_eq!(screen.get_cursor_pos(), Some((1, 1)));
    for _ in 0..5 {
        screen.write_char('a', WriteMode::Log);
    }
    assert_eq!(screen.get_cursor_pos(), Some((0, 9)));
    screen.write_char('b', WriteMode::Cli);
    assert_eq!(screen.get_cursor_pos(), Some((8, 9)));
    screen.write_char('\n', WriteMode::Cli);
    assert_eq!(screen.get_cursor_pos(), None);
    screen.write_char('\r', WriteMode::Log);
    screen.write_char('c', WriteMode::Cli);
    assert_eq!(screen.get_cursor_pos(), Some((9, 1)));
    assert_eq!(screen.take_input(), vec!['b', 'c']);
    assert_eq!(screen.take_input(), Vec::<char>::new());
    screen.clear();
    assert_eq!(screen.get_cursor_pos(), Some((1, 1)));
    screen.write_8x8([0xFF; 8], 8, 8);
    assert_eq!(screen.get_cursor_pos(), Some((1, 1)));
}

fn space(frames: usize, offset: u64) -> AddressSpace {
    let mut map = MemoryMap::new();
    assert!(map.push(MemoryRegion { ty: MemoryType::Free, addr: 0x100_0000, page_count: frames }));
    AddressSpace::new(FrameAllocator::new(map, offset, 0)).unwrap()
}

#[test]
fn heap_pages_are_mapped_and_the_heap_takes_the_range() {
    let mut space = space(64, VIRT_MAPPING_OFFSET);
    let mut heap = FixedSizeBlockAllocator::new();
    let frames = init_heap(&mut space, &mut heap).unwrap();
    assert_eq!(frames.len(), 25);
    for (i, frame) in frames.iter().enumerate() {
        assert_eq!(space.translate(VirtAddr(HEAP_START + i as u64 * 4096)), Some(*frame));
    }
    assert_eq!(space.translate(VirtAddr(HEAP_START + HEAP_SIZE)), None);
    assert_eq!(heap.free() as u64, HEAP_SIZE);
    let layout = Layout::from_size_align(8, 8).unwrap();
    assert_eq!(heap.allocate(layout), Some(HEAP_START as usize));
    let mut other = FixedSizeBlockAllocator::new();
    assert!(init_heap(&mut self::space(8, VIRT_MAPPING_OFFSET), &mut other).is_err());
    assert_eq!(other.free(), 0);
}

#[test]
fn heap_mapping_names_what_stopped_it() {
    let mut heap = FixedSizeBlockAllocator::new();
    let mut small = space(8, VIRT_MAPPING_OFFSET);
    assert_eq!(
        init_heap(&mut small, &mut heap),
        Err(rust_os::shared::page_table::MapError::OutOfMemory)
    );
    assert!(small.translate(VirtAddr(HEAP_START)).is_some());
    assert_eq!(small.translate(VirtAddr(HEAP_START + 4 * 4096)), None);
    assert_eq!(heap.free(), 0);

    let mut taken = space(64, VIRT_MAPPING_OFFSET);
    assert_eq!(taken.map_address(VirtAddr(HEAP_START + 2 * 4096), 0x5000), Ok(()));
    assert_eq!(
        init_heap(&mut taken, &mut heap),
        Err(rust_os::shared::page_table::MapError::MappingExists)
    );
    assert!(taken.translate(VirtAddr(HEAP_START + 4096)).is_some());
    assert_eq!(taken.translate(VirtAddr(HEAP_START + 2 * 4096)), Some(0x5000));
    assert_eq!(taken.translate(VirtAddr(HEAP_START + 3 * 4096)), None);
    assert_eq!(heap.free(), 0);
}

#[test]
fn addresses_translate_with_their_offset_in_the_page() {
    let mut space = space(16, 0);
    assert_eq!(space.map_address(VirtAddr(0x40_0000), 0x7000_0000), Ok(()));
    assert_eq!(translate_addr(&space, VirtAddr(0x40_0123)), Some(0x7000_0123));
    assert_eq!(translate_addr(&space, VirtAddr(0x40_1000)), None);
    assert_eq!(level_4_table_frame(0x1234_5018), 0x1234_5000);
    assert_eq!(active_level_4_table(0x1234_5018), 0x180_1234_5000);
    let mut allocator = rust_os::kernel::memory::FrameAllocator::new({
        let mut map = MemoryMap::new();
        assert!(map.push(MemoryRegion { ty: MemoryType::Free, addr: 0x5000, page_count: 2 }));
        map
    });
    assert_eq!(allocator.allocate_frame(), Some(0x5000));
    assert_eq!(allocator.allocate_frame(), Some(0x6000));
    assert_eq!(allocator.allocate_frame(), None);
}

#[test]
fn tables_can_be_read_out_for_their_frames() {
    let mut space = space(16, 0);
    assert_eq!(space.map_address(VirtAddr(0x40_0000), 0x7000_0000), Ok(()));
    assert_eq!(space.table_count(), 4);
    let (root, level, table) = space.table(0);
    assert_eq!((root, level), (space.root(), 4));
    assert_eq!(table.entry(0).addr(), space.table(1).0);
    let (_, leaf_level, leaf) = space.table(3);
    assert_eq!(leaf_level, 1);
    assert_eq!(leaf.entry(0).0, 0x7000_0003);
    assert_eq!(space.mapping_offset(), 0);
    assert_eq!(space.allocate_frame(), Some(0x100_4000));
}

#[test]
fn framebuffer_must_hold_its_shape_and_a_character() {
    assert!(is_drawable(&info(PixelFormat::Rgb), STRIDE * HEIGHT * 4));
    assert!(!is_drawable(&info(PixelFormat::Rgb), STRIDE * HEIGHT * 4 - 1));
    assert!(!is_drawable(&info(PixelFormat::Bitmask), STRIDE * HEIGHT * 4));
    assert!(!is_drawable(&FrameBufferInfo { width: 8, ..info(PixelFormat::Rgb) }, STRIDE * HEIGHT * 4));
    assert!(!is_drawable(&FrameBufferInfo { stride: 40, ..info(PixelFormat::Rgb) }, STRIDE * HEIGHT * 4));
    assert!(!is_drawable(
        &FrameBufferInfo { stride: usize::MAX, ..info(PixelFormat::Rgb) },
        usize::MAX
    ));
}
