//! The text console on the framebuffer.

use vstd::prelude::*;
use std::collections::VecDeque;

verus! {

/// How a pixel is laid out in the framebuffer.
#[derive(Clone, Copy, PartialEq, Eq, Structural, Debug)]
pub enum PixelFormat {
    Rgb,
    Bgr,
    Bitmask,
    BltOnly,
}

/// Where the framebuffer is and what shape it has.
#[derive(Clone, Copy, PartialEq, Eq, Structural, Debug)]
pub struct FrameBufferInfo {
    pub addr: u64,
    pub size: usize,
    pub width: usize,
    pub height: usize,
    pub pixel_format: PixelFormat,
    pub stride: usize,
}

/// The bytes of a pixel.
pub const BYTES_PER_PIXEL: usize = 4;

/// The glyph of the character in the 8x8 font of Basic Latin: eight rows,
/// the leftmost pixel of each in the lowest bit. `None` for a character
/// that the font does not hold.
pub uninterp spec fn basic_glyph(c: char) -> Option<Seq<u8>>;

/// The character is one of Basic Latin, U+0000 to U+007F.
pub open spec fn is_basic_latin(c: char) -> bool {
    (c as u32) < 128
}

/// `font8x8::BASIC_FONTS.get`: looks the character up in the font's table
/// of Basic Latin. The table holds the characters U+0000 to U+007F, so the
/// lookup finds a glyph for these and for no other.
#[verifier::external_body]
fn basic_font(c: char) -> (glyph: Option<[u8; 8]>)
    ensures
        glyph is Some <==> is_basic_latin(c),
        match glyph {
            Some(rows) => basic_glyph(c) == Some(rows@),
            None => basic_glyph(c) is None,
        },
{
    font8x8::UnicodeFonts::get(&font8x8::BASIC_FONTS, c)
}

/// The glyph of a character in the 8x8 font of Basic Latin, or `None` for a
/// character that the font does not hold.
pub fn glyph(c: char) -> (glyph: Option<[u8; 8]>)
    ensures
        glyph is Some <==> is_basic_latin(c),
        match glyph {
            Some(rows) => basic_glyph(c) == Some(rows@),
            None => basic_glyph(c) is None,
        },
{
    basic_font(c)
}

/// The four bytes of a pixel of the given intensity: grey with a blue that
/// is half as bright, in the order of the format.
pub open spec fn pixel_color(format: PixelFormat, intensity: u8) -> Seq<u8> {
    match format {
        PixelFormat::Bgr => seq![intensity / 2, intensity, intensity, 0u8],
        _ => seq![intensity, intensity, intensity / 2, 0u8],
    }
}

/// The intensity of the pixel in column `x` of a row of a glyph: full
/// where the bit is set, none where it is not.
pub open spec fn glyph_intensity(row: u8, x: int) -> u8 {
    if row & (1u8 << (x as u8)) == 0 {
        0
    } else {
        255
    }
}

/// The place in the framebuffer of the first byte of the pixel at `(x, y)`.
pub open spec fn pixel_offset(info: FrameBufferInfo, x: int, y: int) -> int {
    (y * info.stride + x) * BYTES_PER_PIXEL
}

/// The framebuffer with the four bytes from `offset` on replaced by `color`.
pub open spec fn with_pixel(fb: Seq<u8>, offset: int, color: Seq<u8>) -> Seq<u8> {
    Seq::new(
        fb.len(),
        |k: int|
            if offset <= k < offset + 4 {
                color[k - offset]
            } else {
                fb[k]
            },
    )
}

/// The four bytes of the pixel at `(x, y)`.
pub open spec fn pixel_at(fb: Seq<u8>, info: FrameBufferInfo, x: int, y: int) -> Seq<u8> {
    fb.subrange(pixel_offset(info, x, y), pixel_offset(info, x, y) + 4)
}

/// The framebuffer shows the glyph at `(x_pos, y_pos)`: the rows above `rows`
/// in full, and of row `rows` the columns left of `cols`.
pub open spec fn shows_glyph(
    fb: Seq<u8>,
    info: FrameBufferInfo,
    rendered: Seq<u8>,
    x_pos: int,
    y_pos: int,
    rows: int,
    cols: int,
) -> bool {
    forall|x: int, y: int|
        0 <= x < 8 && 0 <= y < 8 && (y < rows || (y == rows && x < cols)) ==> #[trigger] pixel_at(
            fb,
            info,
            x_pos + x,
            y_pos + y,
        ) == pixel_color(info.pixel_format, glyph_intensity(rendered[y], x))
}

/// Every pixel outside the 8x8 cell at `(x_pos, y_pos)` is as it was.
pub open spec fn outside_kept(
    before: Seq<u8>,
    after: Seq<u8>,
    info: FrameBufferInfo,
    x_pos: int,
    y_pos: int,
) -> bool {
    forall|x: int, y: int|
        0 <= x < info.stride && 0 <= y < info.height && !(x_pos <= x < x_pos + 8 && y_pos <= y < y_pos
            + 8) ==> #[trigger] pixel_at(after, info, x, y) == pixel_at(before, info, x, y)
}

/// Pixels at different places do not share a byte.
pub proof fn lemma_pixels_apart(info: FrameBufferInfo, x1: int, y1: int, x2: int, y2: int)
    requires
        0 <= x1 < info.stride,
        0 <= x2 < info.stride,
        0 <= y1,
        0 <= y2,
        x1 != x2 || y1 != y2,
    ensures
        pixel_offset(info, x1, y1) + 4 <= pixel_offset(info, x2, y2) || pixel_offset(info, x2, y2) + 4
            <= pixel_offset(info, x1, y1),
{
    let s = info.stride as int;
    if y1 < y2 {
        assert(y1 * s + x1 < y2 * s + x2) by (nonlinear_arith)
            requires
                y1 < y2,
                0 <= x1 < s,
                0 <= x2,
        ;
    } else if y2 < y1 {
        assert(y2 * s + x2 < y1 * s + x1) by (nonlinear_arith)
            requires
                y2 < y1,
                0 <= x2 < s,
                0 <= x1,
        ;
    }
}

/// What the console holds as text: the characters, row by row, and the
/// column and row of the cursor.
pub struct TextState {
    pub grid: Seq<Seq<char>>,
    pub x: int,
    pub y: int,
}

/// The text after the cursor went to the start of the next row. From the
/// last row the text scrolls: the first row leaves and a blank row joins.
pub open spec fn after_newline(s: TextState, columns: int, rows: int) -> TextState {
    if s.y + 1 >= rows {
        TextState { grid: s.grid.skip(1).push(blank_row(columns)), x: 0, y: rows - 1 }
    } else {
        TextState { grid: s.grid, x: 0, y: s.y + 1 }
    }
}

/// The text after the character `c` was written: a line feed moves the
/// cursor as `after_newline` tells, a carriage return to the start of its
/// row; any other character is put where the cursor is, on the next row if
/// the cursor stood behind the last column, and moves the cursor on.
pub open spec fn after_char(s: TextState, c: char, columns: int, rows: int) -> TextState {
    if c == '\n' {
        after_newline(s, columns, rows)
    } else if c == '\r' {
        TextState { grid: s.grid, x: 0, y: s.y }
    } else {
        let at = if s.x >= columns {
            after_newline(s, columns, rows)
        } else {
            s
        };
        TextState { grid: at.grid.update(at.y, at.grid[at.y].update(at.x, c)), x: at.x + 1, y: at.y }
    }
}

/// The text after the characters of `chars` were written one by one.
pub open spec fn after_text(s: TextState, chars: Seq<char>, columns: int, rows: int) -> TextState
    decreases chars.len(),
{
    if chars.len() == 0 {
        s
    } else {
        after_char(after_text(s, chars.drop_last(), columns, rows), chars.last(), columns, rows)
    }
}

/// The glyph that the console draws for a character: a full block for
/// `'\0'` where `block` is set, the glyph of the font otherwise.
pub open spec fn cell_glyph(c: char, block: bool) -> Seq<u8> {
    if block && c == '\0' {
        seq![0xFFu8, 0xFFu8, 0xFFu8, 0xFFu8, 0xFFu8, 0xFFu8, 0xFFu8, 0xFFu8]
    } else {
        basic_glyph(c)->Some_0
    }
}

/// Drawing the cell at column `x` of row `y` leaves the cells drawn before
/// as they were: after it the cells up to and with this one are shown.
pub proof fn lemma_cell_drawn(before: Logger, after: Logger, x: int, y: int)
    requires
        after.info() == before.info(),
        after.grid() == before.grid(),
        before.info().width <= before.info().stride,
        0 <= x < before.columns(),
        0 <= y < before.rows(),
        before.cells_shown(y, x),
        shows_glyph(
            after.pixels(),
            after.info(),
            cell_glyph(after.grid()[y][x], false),
            1 + 8 * x,
            1 + 8 * y,
            8,
            0,
        ),
        outside_kept(before.pixels(), after.pixels(), after.info(), 1 + 8 * x, 1 + 8 * y),
    ensures
        after.cells_shown(y, x + 1),
{
    let info = after.info();
    assert forall|cx: int, cy: int|
        0 <= cx < after.columns() && 0 <= cy < after.rows() && (cy < y || (cy == y && cx < x + 1)) implies shows_glyph(
        after.pixels(),
        info,
        #[trigger] cell_glyph(after.grid()[cy][cx], false),
        1 + 8 * cx,
        1 + 8 * cy,
        8,
        0,
    ) by {
        if cx != x || cy != y {
            let glyph = cell_glyph(after.grid()[cy][cx], false);
            assert(shows_glyph(before.pixels(), info, glyph, 1 + 8 * cx, 1 + 8 * cy, 8, 0));
            assert forall|px: int, py: int| 0 <= px < 8 && 0 <= py < 8 implies #[trigger] pixel_at(
                after.pixels(),
                info,
                1 + 8 * cx + px,
                1 + 8 * cy + py,
            ) == pixel_color(info.pixel_format, glyph_intensity(glyph[py], px)) by {
                assert(pixel_at(after.pixels(), info, 1 + 8 * cx + px, 1 + 8 * cy + py) == pixel_at(
                    before.pixels(),
                    info,
                    1 + 8 * cx + px,
                    1 + 8 * cy + py,
                ));
            }
        }
    }
}

/// The text console: a grid of characters, a cursor in it, and the
/// framebuffer that shows them.
pub struct Logger {
    fb_info: FrameBufferInfo,
    fb: Vec<u8>,
    x_pos: usize,
    y_pos: usize,
    char_buffer: VecDeque<Vec<char>>,
    char_buffer_width: usize,
    char_buffer_height: usize,
}

/// A row of `width` characters, all `'\0'`.
pub open spec fn blank_row(width: int) -> Seq<char> {
    Seq::new(width as nat, |i: int| '\0')
}

/// The framebuffer is laid out so that the console can draw on it: every
/// pixel of the visible area lies inside the `len` bytes of the buffer, and
/// there is room for a character.
pub open spec fn drawable(info: FrameBufferInfo, len: int) -> bool {
    &&& info.pixel_format == PixelFormat::Rgb || info.pixel_format == PixelFormat::Bgr
    &&& 9 <= info.width <= info.stride
    &&& 9 <= info.height
    &&& info.stride * info.height * BYTES_PER_PIXEL <= len
    &&& len <= usize::MAX
}

/// Tells whether a framebuffer of `len` bytes with the shape `info` can be
/// drawn on.
pub fn is_drawable(info: &FrameBufferInfo, len: usize) -> (ok: bool)
    ensures
        ok == drawable(*info, len as int),
{
    let format_ok = match info.pixel_format {
        PixelFormat::Rgb => true,
        PixelFormat::Bgr => true,
        _ => false,
    };
    if !format_ok || info.width < 9 || info.width > info.stride || info.height < 9 {
        return false;
    }
    match info.stride.checked_mul(info.height) {
        Some(pixels) => match pixels.checked_mul(BYTES_PER_PIXEL) {
            Some(bytes) => bytes <= len,
            None => {
                assert(info.stride * info.height * BYTES_PER_PIXEL > len);
                false
            },
        },
        None => {
            assert(info.stride * info.height * BYTES_PER_PIXEL > len) by (nonlinear_arith)
                requires
                    info.stride * info.height > usize::MAX,
                    len <= usize::MAX,
                    BYTES_PER_PIXEL == 4,
            ;
            false
        },
    }
}

/// Puts `row` in the place of row `i` of the buffer.
fn put_row(buffer: &mut VecDeque<Vec<char>>, i: usize, row: Vec<char>)
    requires
        i < old(buffer)@.len(),
    ensures
        final(buffer)@ == old(buffer)@.update(i as int, row),
{
    let _ = buffer.remove(i);
    buffer.insert(i, row);
    assert(buffer@ =~= old(buffer)@.update(i as int, row));
}

/// Takes row `i` out of the buffer; the rows behind it move up.
fn take_row(buffer: &mut VecDeque<Vec<char>>, i: usize) -> (row: Vec<char>)
    requires
        i < old(buffer)@.len(),
    ensures
        row == old(buffer)@[i as int],
        final(buffer)@ == old(buffer)@.remove(i as int),
{
    match buffer.remove(i) {
        Some(row) => row,
        None => Vec::new(),
    }
}

impl Logger {
    /// The shape of the framebuffer.
    pub closed spec fn info(&self) -> FrameBufferInfo {
        self.fb_info
    }

    /// The bytes of the framebuffer.
    pub closed spec fn pixels(&self) -> Seq<u8> {
        self.fb@
    }

    /// The characters of the console, row by row.
    pub closed spec fn grid(&self) -> Seq<Seq<char>> {
        Seq::new(self.char_buffer@.len(), |i: int| self.char_buffer@[i]@)
    }

    /// The column and the row of the cursor.
    pub closed spec fn cursor(&self) -> (int, int) {
        (self.x_pos as int, self.y_pos as int)
    }

    /// The columns of the console.
    pub open spec fn columns(&self) -> int {
        (self.info().width - 1) / 8
    }

    /// The rows of the console.
    pub open spec fn rows(&self) -> int {
        (self.info().height - 1) / 8
    }

    /// The invariant of the console: the framebuffer can be drawn on, the
    /// grid has the rows and columns that fit it, and the cursor is in a
    /// row of the grid, in or just behind its last column.
    pub closed spec fn wf(&self) -> bool {
        &&& drawable(self.fb_info, self.fb@.len() as int)
        &&& self.char_buffer_width == (self.fb_info.width - 1) / 8
        &&& self.char_buffer_height == (self.fb_info.height - 1) / 8
        &&& self.char_buffer@.len() == self.char_buffer_height
        &&& forall|i: int|
            0 <= i < self.char_buffer@.len() ==> (#[trigger] self.char_buffer@[i])@.len()
                == self.char_buffer_width
        &&& self.x_pos <= self.char_buffer_width
        &&& self.y_pos < self.char_buffer_height
        &&& forall|i: int, j: int|
            0 <= i < self.char_buffer@.len() && 0 <= j < self.char_buffer@[i]@.len()
                ==> is_basic_latin(#[trigger] self.char_buffer@[i]@[j])
    }

    /// What the console holds as text.
    pub open spec fn text(&self) -> TextState {
        TextState { grid: self.grid(), x: self.cursor().0, y: self.cursor().1 }
    }

    /// The framebuffer shows the glyph of the font for every character of
    /// the grid, each in its cell of 8x8 pixels.
    pub open spec fn shows_grid(&self) -> bool {
        forall|cx: int, cy: int|
            0 <= cx < self.columns() && 0 <= cy < self.rows() ==> shows_glyph(
                self.pixels(),
                self.info(),
                #[trigger] cell_glyph(self.grid()[cy][cx], false),
                1 + 8 * cx,
                1 + 8 * cy,
                8,
                0,
            )
    }

    /// A console on the framebuffer `fb`, cleared, with the cursor in the
    /// upper left corner.
    pub fn new(fb_info: FrameBufferInfo, fb: Vec<u8>) -> (logger: Logger)
        requires
            drawable(fb_info, fb@.len() as int),
        ensures
            logger.wf(),
            logger.info() == fb_info,
            logger.cursor() == (0int, 0int),
            logger.pixels().len() == fb@.len(),
            forall|k: int| 0 <= k < logger.pixels().len() ==> #[trigger] logger.pixels()[k] == 0,
            logger.grid().len() == logger.rows(),
            forall|i: int| 0 <= i < logger.rows() ==> #[trigger] logger.grid()[i] == blank_row(
                logger.columns(),
            ),
    {
        let mut fb = fb;
        fill_zero(&mut fb);
        let w = (fb_info.width - 1) / 8;
        let h = (fb_info.height - 1) / 8;
        let mut char_buffer: VecDeque<Vec<char>> = VecDeque::new();
        let mut i: usize = 0;
        while i < h
            invariant
                i <= h,
                char_buffer@.len() == i,
                forall|k: int| 0 <= k < i ==> (#[trigger] char_buffer@[k])@ == blank_row(w as int),
            decreases h - i,
        {
            char_buffer.push_back(new_row(w));
            i = i + 1;
        }
        let logger = Logger {
            fb_info,
            fb,
            x_pos: 0,
            y_pos: 0,
            char_buffer,
            char_buffer_width: w,
            char_buffer_height: h,
        };
        assert forall|i: int| 0 <= i < logger.rows() implies #[trigger] logger.grid()[i] == blank_row(
            logger.columns(),
        ) by {
            assert(logger.char_buffer@[i]@ == blank_row(w as int));
        }
        logger
    }

    /// The width of the framebuffer in pixels.
    pub fn width(&self) -> (width: usize)
        ensures
            width == self.info().width,
    {
        self.fb_info.width
    }

    /// The height of the framebuffer in pixels.
    pub fn height(&self) -> (height: usize)
        ensures
            height == self.info().height,
    {
        self.fb_info.height
    }

    /// The byte of the framebuffer at `index`.
    pub fn pixel_byte(&self, index: usize) -> (byte: u8)
        requires
            index < self.pixels().len(),
        ensures
            byte == self.pixels()[index as int],
    {
        self.fb[index]
    }

    /// The character at the column `x` of the row `y`.
    pub fn char_at(&self, x: usize, y: usize) -> (c: char)
        requires
            self.wf(),
            x < self.columns(),
            y < self.rows(),
        ensures
            c == self.grid()[y as int][x as int],
    {
        self.char_buffer[y][x]
    }

    /// The column and the row of the cursor.
    pub fn cursor_position(&self) -> (position: (usize, usize))
        ensures
            (position.0 as int, position.1 as int) == self.cursor(),
    {
        (self.x_pos, self.y_pos)
    }

    fn carriage_return(&mut self)
        requires
            old(self).wf(),
        ensures
            final(self).wf(),
            final(self).info() == old(self).info(),
            final(self).pixels() == old(self).pixels(),
            final(self).text() == (TextState { x: 0, ..old(self).text() }),
    {
        self.x_pos = 0;
    }

    /// Blanks the framebuffer and the grid and puts the cursor in the upper
    /// left corner.
    pub fn clear(&mut self)
        requires
            old(self).wf(),
        ensures
            final(self).wf(),
            final(self).info() == old(self).info(),
            final(self).cursor() == (0int, 0int),
            final(self).pixels().len() == old(self).pixels().len(),
            forall|k: int| 0 <= k < final(self).pixels().len() ==> #[trigger] final(self).pixels()[k] == 0,
            final(self).grid().len() == final(self).rows(),
            forall|i: int|
                0 <= i < final(self).rows() ==> #[trigger] final(self).grid()[i] == blank_row(
                    final(self).columns(),
                ),
    {
        self.x_pos = 0;
        self.y_pos = 0;
        fill_zero(&mut self.fb);
        let mut i: usize = 0;
        while i < self.char_buffer_height
            invariant
                i <= self.char_buffer_height,
                self.fb_info == old(self).fb_info,
                self.fb@.len() == old(self).fb@.len(),
                forall|k: int| 0 <= k < self.fb@.len() ==> #[trigger] self.fb@[k] == 0,
                self.x_pos == 0,
                self.y_pos == 0,
                self.char_buffer_width == old(self).char_buffer_width,
                self.char_buffer_height == old(self).char_buffer_height,
                old(self).wf(),
                self.char_buffer@.len() == self.char_buffer_height,
                forall|k: int| 0 <= k < i ==> (#[trigger] self.char_buffer@[k])@ == blank_row(
                    self.char_buffer_width as int,
                ),
                forall|k: int|
                    i <= k < self.char_buffer@.len() ==> #[trigger] self.char_buffer@[k]
                        == old(self).char_buffer@[k],
            decreases self.char_buffer_height - i,
        {
            put_row(&mut self.char_buffer, i, new_row(self.char_buffer_width));
            i = i + 1;
        }
        assert forall|i: int| 0 <= i < self.rows() implies #[trigger] self.grid()[i] == blank_row(
            self.columns(),
        ) by {
            assert(self.char_buffer@[i]@ == blank_row(self.char_buffer_width as int));
        }
    }

    /// Draws every character of the grid anew.
    pub fn draw_char_buffer(&mut self)
        requires
            old(self).wf(),
        ensures
            final(self).wf(),
            final(self).info() == old(self).info(),
            final(self).text() == old(self).text(),
            final(self).pixels().len() == old(self).pixels().len(),
            final(self).shows_grid(),
    {
        let columns = self.char_buffer_width;
        let rows = self.char_buffer_height;
        let mut y: usize = 0;
        while y < rows
            invariant
                y <= rows,
                self.wf(),
                columns == self.columns(),
                rows == self.rows(),
                self.info() == old(self).info(),
                self.text() == old(self).text(),
                self.pixels().len() == old(self).pixels().len(),
                self.cells_shown(y as int, 0),
            decreases rows - y,
        {
            let mut x: usize = 0;
            while x < columns
                invariant
                    x <= columns,
                    y < rows,
                    self.wf(),
                    columns == self.columns(),
                    rows == self.rows(),
                    self.info() == old(self).info(),
                    self.text() == old(self).text(),
                    self.pixels().len() == old(self).pixels().len(),
                    self.cells_shown(y as int, x as int),
                decreases columns - x,
            {
                let c = self.char_at(x, y);
                assert(is_basic_latin(c)) by {
                    assert(is_basic_latin(self.char_buffer@[y as int]@[x as int]));
                }
                let rendered = match basic_font(c) {
                    Some(rendered) => rendered,
                    None => [0u8;8],
                };
                let ghost before = *self;
                self.write_8x8(rendered, 1 + x * 8, 1 + y * 8);
                proof {
                    lemma_cell_drawn(before, *self, x as int, y as int);
                }
                x = x + 1;
            }
            y = y + 1;
        }
    }

    /// The cells of the rows above `rows`, and of row `rows` those left of
    /// `cols`, show the glyphs of their characters.
    pub open spec fn cells_shown(&self, rows: int, cols: int) -> bool {
        forall|cx: int, cy: int|
            0 <= cx < self.columns() && 0 <= cy < self.rows() && (cy < rows || (cy == rows && cx
                < cols)) ==> shows_glyph(
                self.pixels(),
                self.info(),
                #[trigger] cell_glyph(self.grid()[cy][cx], false),
                1 + 8 * cx,
                1 + 8 * cy,
                8,
                0,
            )
    }

    fn newline(&mut self)
        requires
            old(self).wf(),
        ensures
            final(self).wf(),
            final(self).info() == old(self).info(),
            final(self).pixels().len() == old(self).pixels().len(),
            final(self).text() == after_newline(old(self).text(), old(self).columns(), old(self).rows()),
    {
        self.y_pos = self.y_pos + 1;
        self.x_pos = 0;
        if self.y_pos >= self.char_buffer_height {
            let ghost before = self.char_buffer@;
            self.char_buffer.pop_front();
            self.char_buffer.push_back(new_row(self.char_buffer_width));
            self.y_pos = self.char_buffer_height - 1;
            proof {
                let now = self.char_buffer@;
                assert forall|i: int| 0 <= i < now.len() implies (#[trigger] now[i])@.len()
                    == self.char_buffer_width by {
                    if i < now.len() - 1 {
                        assert(now[i] == before[i + 1]);
                    }
                }
                assert forall|i: int, j: int|
                    0 <= i < now.len() && 0 <= j < now[i]@.len() implies is_basic_latin(
                    #[trigger] now[i]@[j],
                ) by {
                    if i < now.len() - 1 {
                        assert(now[i] == before[i + 1]);
                    }
                }
                assert(self.grid() =~= old(self).grid().skip(1).push(
                    blank_row(old(self).columns()),
                )) by {
                    assert forall|i: int| 0 <= i < self.grid().len() implies #[trigger] self.grid()[i]
                        == old(self).grid().skip(1).push(blank_row(old(self).columns()))[i] by {
                        if i < now.len() - 1 {
                            assert(now[i] == before[i + 1]);
                        }
                    }
                }
            }
            self.draw_char_buffer();
        }
    }

    /// Writes a character of Basic Latin at the cursor and draws it.
    pub fn write_char(&mut self, c: char)
        requires
            old(self).wf(),
            is_basic_latin(c),
        ensures
            final(self).wf(),
            final(self).info() == old(self).info(),
            final(self).pixels().len() == old(self).pixels().len(),
            final(self).text() == after_char(old(self).text(), c, old(self).columns(), old(self).rows()),
            c != '\n' && c != '\r' ==> shows_glyph(
                final(self).pixels(),
                final(self).info(),
                cell_glyph(c, true),
                1 + 8 * (final(self).cursor().0 - 1),
                1 + 8 * final(self).cursor().1,
                8,
                0,
            ),
    {
        if c == '\n' {
            self.newline();
        } else if c == '\r' {
            self.carriage_return();
        } else {
            if self.x_pos >= self.char_buffer_width {
                self.newline();
            }
            let x = self.x_pos;
            let y = self.y_pos;
            let ghost before_grid = self.grid();
            let ghost before_rows = self.char_buffer@;
            let mut row = take_row(&mut self.char_buffer, y);
            row[x] = c;
            self.char_buffer.insert(y, row);
            proof {
                let now = self.char_buffer@;
                assert(now[y as int]@ == before_rows[y as int]@.update(x as int, c));
                assert forall|i: int| 0 <= i < now.len() && i != y implies #[trigger] now[i]
                    == before_rows[i] by {}
                assert(self.grid() =~= before_grid.update(
                    y as int,
                    before_grid[y as int].update(x as int, c),
                ));
            }
            let rendered = if c != '\0' {
                match basic_font(c) {
                    Some(rendered) => rendered,
                    None => [0u8;8],
                }
            } else {
                [0xFFu8;8]
            };
            assert(rendered@ =~= cell_glyph(c, true));
            self.write_8x8(rendered, 1 + x * 8, 1 + y * 8);
            self.x_pos = self.x_pos + 1;
        }
    }

    /// Writes the characters one by one.
    pub fn write_chars(&mut self, chars: &Vec<char>)
        requires
            old(self).wf(),
            forall|i: int| 0 <= i < chars@.len() ==> is_basic_latin(#[trigger] chars@[i]),
        ensures
            final(self).wf(),
            final(self).info() == old(self).info(),
            final(self).pixels().len() == old(self).pixels().len(),
            final(self).text() == after_text(old(self).text(), chars@, old(self).columns(), old(self).rows()),
    {
        let mut i: usize = 0;
        assert(chars@.take(0) =~= Seq::<char>::empty());
        while i < chars.len()
            invariant
                i <= chars@.len(),
                self.wf(),
                self.info() == old(self).info(),
                self.pixels().len() == old(self).pixels().len(),
                forall|k: int| 0 <= k < chars@.len() ==> is_basic_latin(#[trigger] chars@[k]),
                self.text() == after_text(
                    old(self).text(),
                    chars@.take(i as int),
                    old(self).columns(),
                    old(self).rows(),
                ),
            decreases chars@.len() - i,
        {
            assert(chars@.take(i + 1).drop_last() =~= chars@.take(i as int));
            self.write_char(chars[i]);
            i = i + 1;
        }
        assert(chars@.take(i as int) =~= chars@);
    }

    fn write_pixel(&mut self, x: usize, y: usize, intensity: u8)
        requires
            old(self).wf(),
            x < old(self).fb_info.stride,
            y < old(self).fb_info.height,
        ensures
            final(self).wf(),
            final(self).fb_info == old(self).fb_info,
            final(self).x_pos == old(self).x_pos,
            final(self).y_pos == old(self).y_pos,
            final(self).char_buffer == old(self).char_buffer,
            final(self).fb@ == with_pixel(
                old(self).fb@,
                pixel_offset(old(self).fb_info, x as int, y as int),
                pixel_color(old(self).fb_info.pixel_format, intensity),
            ),
    {
        let stride = self.fb_info.stride;
        let height = self.fb_info.height;
        proof {
            assert((y * stride + x) * 4 + 4 <= stride * height * 4) by (nonlinear_arith)
                requires
                    x < stride,
                    y < height,
            ;
        }
        let byte_offset = (y * stride + x) * BYTES_PER_PIXEL;
        let half = intensity / 2;
        match self.fb_info.pixel_format {
            PixelFormat::Bgr => {
                self.fb[byte_offset] = half;
                self.fb[byte_offset + 1] = intensity;
                self.fb[byte_offset + 2] = intensity;
                self.fb[byte_offset + 3] = 0;
            },
            _ => {
                self.fb[byte_offset] = intensity;
                self.fb[byte_offset + 1] = intensity;
                self.fb[byte_offset + 2] = half;
                self.fb[byte_offset + 3] = 0;
            },
        }
        assert(self.fb@ =~= with_pixel(
            old(self).fb@,
            pixel_offset(old(self).fb_info, x as int, y as int),
            pixel_color(old(self).fb_info.pixel_format, intensity),
        ));
    }

    /// Draws the glyph `rendered` with its upper left corner at
    /// `(x_pos, y_pos)`: a set bit gives a pixel of full intensity, a clear
    /// one a black pixel.
    pub fn write_8x8(&mut self, rendered: [u8; 8], x_pos: usize, y_pos: usize)
        requires
            old(self).wf(),
            x_pos + 8 <= old(self).info().stride,
            y_pos + 8 <= old(self).info().height,
        ensures
            final(self).wf(),
            final(self).info() == old(self).info(),
            final(self).cursor() == old(self).cursor(),
            final(self).grid() == old(self).grid(),
            final(self).pixels().len() == old(self).pixels().len(),
            shows_glyph(final(self).pixels(), final(self).info(), rendered@, x_pos as int, y_pos as int, 8, 0),
            outside_kept(old(self).pixels(), final(self).pixels(), old(self).info(), x_pos as int, y_pos as int),
    {
        let mut y: usize = 0;
        while y < 8
            invariant
                y <= 8,
                self.wf(),
                self.fb_info == old(self).fb_info,
                self.x_pos == old(self).x_pos,
                self.y_pos == old(self).y_pos,
                self.char_buffer == old(self).char_buffer,
                self.fb@.len() == old(self).fb@.len(),
                x_pos + 8 <= self.fb_info.stride,
                y_pos + 8 <= self.fb_info.height,
                shows_glyph(self.fb@, self.fb_info, rendered@, x_pos as int, y_pos as int, y as int, 0),
                outside_kept(old(self).fb@, self.fb@, self.fb_info, x_pos as int, y_pos as int),
            decreases 8 - y,
        {
            let byte = rendered[y];
            let mut x: usize = 0;
            while x < 8
                invariant
                    x <= 8,
                    y < 8,
                    byte == rendered@[y as int],
                    self.wf(),
                    self.fb_info == old(self).fb_info,
                    self.x_pos == old(self).x_pos,
                    self.y_pos == old(self).y_pos,
                    self.char_buffer == old(self).char_buffer,
                    self.fb@.len() == old(self).fb@.len(),
                    x_pos + 8 <= self.fb_info.stride,
                    y_pos + 8 <= self.fb_info.height,
                    shows_glyph(
                        self.fb@,
                        self.fb_info,
                        rendered@,
                        x_pos as int,
                        y_pos as int,
                        y as int,
                        x as int,
                    ),
                    outside_kept(old(self).fb@, self.fb@, self.fb_info, x_pos as int, y_pos as int),
                decreases 8 - x,
            {
                let intensity: u8 = if byte & (1u8 << (x as u8)) == 0 {
                    0
                } else {
                    255
                };
                let ghost before = self.fb@;
                let ghost info = self.fb_info;
                self.write_pixel(x_pos + x, y_pos + y, intensity);
                proof {
                    let here = pixel_offset(info, x_pos + x, y_pos + y);
                    assert((y_pos + y) * info.stride + (x_pos + x) >= 0) by (nonlinear_arith)
                        requires
                            y_pos + y >= 0,
                            info.stride >= 0,
                            x_pos + x >= 0,
                    ;
                    assert(here + 4 <= before.len()) by (nonlinear_arith)
                        requires
                            here == ((y_pos + y) * info.stride + (x_pos + x)) * 4,
                            x_pos + x < info.stride,
                            y_pos + y < info.height,
                            info.stride * info.height * 4 <= before.len(),
                    ;
                    assert forall|ox: int, oy: int|
                        0 <= ox < info.stride && 0 <= oy < info.height && !(x_pos <= ox < x_pos + 8
                            && y_pos <= oy < y_pos + 8) implies #[trigger] pixel_at(
                        self.fb@,
                        info,
                        ox,
                        oy,
                    ) == pixel_at(old(self).fb@, info, ox, oy) by {
                        lemma_pixels_apart(info, ox, oy, x_pos + x, y_pos + y);
                        let there = pixel_offset(info, ox, oy);
                        assert(oy * info.stride + ox >= 0) by (nonlinear_arith)
                            requires
                                oy >= 0,
                                info.stride >= 0,
                                ox >= 0,
                        ;
                        assert(there + 4 <= before.len()) by (nonlinear_arith)
                            requires
                                there == (oy * info.stride + ox) * 4,
                                0 <= ox < info.stride,
                                0 <= oy < info.height,
                                info.stride * info.height * 4 <= before.len(),
                        ;
                        assert(pixel_at(self.fb@, info, ox, oy) =~= pixel_at(before, info, ox, oy));
                    }
                    assert forall|px: int, py: int|
                        0 <= px < 8 && 0 <= py < 8 && (py < y || (py == y && px < x + 1)) implies #[trigger] pixel_at(
                        self.fb@,
                        info,
                        x_pos + px,
                        y_pos + py,
                    ) == pixel_color(info.pixel_format, glyph_intensity(rendered@[py], px)) by {
                        if px == x && py == y {
                            assert(pixel_at(self.fb@, info, x_pos + px, y_pos + py) =~= pixel_color(
                                info.pixel_format,
                                intensity,
                            ));
                        } else {
                            lemma_pixels_apart(info, x_pos + px, y_pos + py, x_pos + x, y_pos + y);
                            let there = pixel_offset(info, x_pos + px, y_pos + py);
                            assert((y_pos + py) * info.stride + (x_pos + px) >= 0) by (nonlinear_arith)
                                requires
                                    y_pos + py >= 0,
                                    info.stride >= 0,
                                    x_pos + px >= 0,
                            ;
                            assert(there + 4 <= before.len()) by (nonlinear_arith)
                                requires
                                    there == ((y_pos + py) * info.stride + (x_pos + px)) * 4,
                                    x_pos + px < info.stride,
                                    y_pos + py < info.height,
                                    info.stride * info.height * 4 <= before.len(),
                            ;
                            assert(pixel_at(self.fb@, info, x_pos + px, y_pos + py) =~= pixel_at(
                                before,
                                info,
                                x_pos + px,
                                y_pos + py,
                            ));
                        }
                    }
                }
                x = x + 1;
            }
            y = y + 1;
        }
    }
}

fn fill_zero(fb: &mut Vec<u8>)
    ensures
        final(fb)@.len() == old(fb)@.len(),
        forall|k: int| 0 <= k < final(fb)@.len() ==> #[trigger] final(fb)@[k] == 0,
{
    let mut i: usize = 0;
    while i < fb.len()
        invariant
            i <= fb@.len(),
            fb@.len() == old(fb)@.len(),
            forall|k: int| 0 <= k < i ==> #[trigger] fb@[k] == 0,
        decreases fb@.len() - i,
    {
        fb[i] = 0;
        i = i + 1;
    }
}

fn new_row(width: usize) -> (row: Vec<char>)
    ensures
        row@ == blank_row(width as int),
{
    let mut row: Vec<char> = Vec::new();
    let mut i: usize = 0;
    while i < width
        invariant
            i <= width,
            row@.len() == i,
            forall|k: int| 0 <= k < i ==> #[trigger] row@[k] == '\0',
        decreases width - i,
    {
        row.push('\0');
        i = i + 1;
    }
    assert(row@ =~= blank_row(width as int));
    row
}

} // verus!
