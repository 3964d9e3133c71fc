//! A plain screen on the framebuffer: characters from left to right, row
//! after row, and the line that is being typed.

use vstd::prelude::*;
use crate::shared::logger::{
    basic_glyph, drawable, is_basic_latin, outside_kept, shows_glyph, Logger,
};

verus! {

/// How a pixel is laid out in the framebuffer.
#[derive(Clone, Copy, PartialEq, Eq, Structural, Debug)]
pub enum PixelFormat {
    Rgb,
    Bgr,
    Bitmask,
    BltOnly,
}

/// Where the framebuffer is and what shape it has.
#[derive(Clone, Copy, PartialEq, Eq, Structural, Debug)]
pub struct FrameBufferInfo {
    pub addr: u64,
    pub size: usize,
    pub width: usize,
    pub height: usize,
    pub pixel_format: PixelFormat,
    pub stride: usize,
}

/// What a character is written for.
#[derive(Clone, Copy, PartialEq, Eq, Structural, Debug)]
pub enum WriteMode {
    /// Output of the kernel.
    Log,
    /// A character that was typed.
    Cli,
}

/// The characters that the line being typed can hold.
pub const INPUT_BUFFER_SIZE: usize = 1000;

/// The same shape, as the console's module names it.
pub open spec fn canvas_info(info: FrameBufferInfo) -> crate::shared::logger::FrameBufferInfo {
    crate::shared::logger::FrameBufferInfo {
        addr: info.addr,
        size: info.size,
        width: info.width,
        height: info.height,
        pixel_format: match info.pixel_format {
            PixelFormat::Rgb => crate::shared::logger::PixelFormat::Rgb,
            PixelFormat::Bgr => crate::shared::logger::PixelFormat::Bgr,
            PixelFormat::Bitmask => crate::shared::logger::PixelFormat::Bitmask,
            PixelFormat::BltOnly => crate::shared::logger::PixelFormat::BltOnly,
        },
        stride: info.stride,
    }
}

/// The screen: the framebuffer, the place of the next character in pixels,
/// and the line that is being typed.
pub struct Screen {
    fb_info: FrameBufferInfo,
    canvas: Logger,
    x_pos: usize,
    y_pos: usize,
    input_buffer: Vec<char>,
}

/// The place of the next character after a line feed at the place `(x, y)`:
/// the start of the row of characters below.
pub open spec fn line_below(y: int) -> (int, int) {
    (0, y + 8)
}

/// Where a character is drawn, seen from the place `(x, y)`: a place where
/// the character would cross the right edge wraps to the row below. `None`
/// where that is in the last eight rows of pixels: the screen is full.
pub open spec fn glyph_place(x: int, y: int, width: int, height: int) -> Option<(int, int)> {
    let (cx, cy) = if x + 8 > width {
        line_below(y)
    } else {
        (x, y)
    };
    if cy >= height - 8 {
        None
    } else {
        Some((cx, cy))
    }
}

/// Where the next character goes, seen from the place `(x, y)`: a place at
/// or behind the right edge wraps to the row below. `None` where that is in
/// the last eight rows of pixels: the screen is full.
pub open spec fn cursor_from(x: int, y: int, width: int, height: int) -> Option<(int, int)> {
    let (cx, cy) = if x >= width {
        line_below(y)
    } else {
        (x, y)
    };
    if cy >= height - 8 {
        None
    } else {
        Some((cx, cy))
    }
}

impl Screen {
    /// The shape of the framebuffer.
    pub closed spec fn info(&self) -> FrameBufferInfo {
        self.fb_info
    }

    /// The bytes of the framebuffer.
    pub closed spec fn pixels(&self) -> Seq<u8> {
        self.canvas.pixels()
    }

    /// The place of the next character, in pixels.
    pub closed spec fn position(&self) -> (int, int) {
        (self.x_pos as int, self.y_pos as int)
    }

    /// The line that is being typed.
    pub closed spec fn input(&self) -> Seq<char> {
        self.input_buffer@
    }

    /// The invariant of the screen: the framebuffer can be drawn on, and
    /// the line being typed is not longer than its buffer.
    pub closed spec fn wf(&self) -> bool {
        &&& self.canvas.wf()
        &&& self.canvas.info() == canvas_info(self.fb_info)
        &&& drawable(canvas_info(self.fb_info), self.canvas.pixels().len() as int)
        &&& self.input_buffer@.len() <= INPUT_BUFFER_SIZE
        &&& self.y_pos < self.fb_info.height
        &&& self.x_pos <= self.fb_info.width + 8
    }

    /// The place of the next character is inside the framebuffer's rows, and
    /// no further right than one character behind the right edge.
    pub proof fn lemma_position(&self)
        requires
            self.wf(),
        ensures
            self.position().1 < self.info().height,
            self.position().0 <= self.info().width + 8,
            self.info().height + 16 <= usize::MAX,
            self.info().stride + 16 <= usize::MAX,
    {
        let stride = self.fb_info.stride as int;
        let height = self.fb_info.height as int;
        assert(stride * 36 <= stride * height * 4 && height * 36 <= stride * height * 4)
            by (nonlinear_arith)
            requires
                stride >= 9,
                height >= 9,
        ;
    }

    /// A screen on the framebuffer `fb`, blanked, with the first character
    /// to go one pixel from the upper left corner.
    pub fn new(fb_info: FrameBufferInfo, fb: Vec<u8>) -> (screen: Screen)
        requires
            drawable(canvas_info(fb_info), fb@.len() as int),
        ensures
            screen.wf(),
            screen.info() == fb_info,
            screen.position() == (1int, 1int),
            screen.input() == Seq::<char>::empty(),
            screen.pixels().len() == fb@.len(),
            forall|k: int| 0 <= k < screen.pixels().len() ==> #[trigger] screen.pixels()[k] == 0,
    {
        let info = crate::shared::logger::FrameBufferInfo {
            addr: fb_info.addr,
            size: fb_info.size,
            width: fb_info.width,
            height: fb_info.height,
            pixel_format: match fb_info.pixel_format {
                PixelFormat::Rgb => crate::shared::logger::PixelFormat::Rgb,
                PixelFormat::Bgr => crate::shared::logger::PixelFormat::Bgr,
                PixelFormat::Bitmask => crate::shared::logger::PixelFormat::Bitmask,
                PixelFormat::BltOnly => crate::shared::logger::PixelFormat::BltOnly,
            },
            stride: fb_info.stride,
        };
        Screen { fb_info, canvas: Logger::new(info, fb), x_pos: 1, y_pos: 1, input_buffer: Vec::new() }
    }

    /// The width of the framebuffer in pixels.
    pub fn width(&self) -> (width: usize)
        ensures
            width == self.info().width,
    {
        self.fb_info.width
    }

    /// The height of the framebuffer in pixels.
    pub fn height(&self) -> (height: usize)
        ensures
            height == self.info().height,
    {
        self.fb_info.height
    }

    /// Blanks the framebuffer and puts the next character one pixel from
    /// the upper left corner.
    pub fn clear(&mut self)
        requires
            old(self).wf(),
        ensures
            final(self).wf(),
            final(self).info() == old(self).info(),
            final(self).input() == old(self).input(),
            final(self).position() == (1int, 1int),
            final(self).pixels().len() == old(self).pixels().len(),
            forall|k: int| 0 <= k < final(self).pixels().len() ==> #[trigger] final(self).pixels()[k] == 0,
    {
        self.x_pos = 1;
        self.y_pos = 1;
        self.canvas.clear();
    }

    /// Where the next character goes: see `cursor_from`.
    pub fn get_cursor_pos(&self) -> (r: Option<(usize, usize)>)
        requires
            self.wf(),
        ensures
            match r {
                Some((x, y)) => cursor_from(
                    self.position().0,
                    self.position().1,
                    self.info().width as int,
                    self.info().height as int,
                ) == Some((x as int, y as int)),
                None => cursor_from(
                    self.position().0,
                    self.position().1,
                    self.info().width as int,
                    self.info().height as int,
                ) is None,
            },
    {
        proof {
            self.lemma_position();
        }
        let mut x_pos = self.x_pos;
        let mut y_pos = self.y_pos;
        if self.x_pos >= self.width() {
            x_pos = 0;
            y_pos = y_pos + 8;
        }
        if y_pos >= self.height() - 8 {
            return None;
        }
        Some((x_pos, y_pos))
    }

    /// Draws the glyph `rendered` with its upper left corner at
    /// `(x_pos, y_pos)`.
    pub fn write_8x8(&mut self, rendered: [u8; 8], x_pos: usize, y_pos: usize)
        requires
            old(self).wf(),
            x_pos + 8 <= old(self).info().stride,
            y_pos + 8 <= old(self).info().height,
        ensures
            final(self).wf(),
            final(self).info() == old(self).info(),
            final(self).position() == old(self).position(),
            final(self).input() == old(self).input(),
            final(self).pixels().len() == old(self).pixels().len(),
            shows_glyph(
                final(self).pixels(),
                canvas_info(final(self).info()),
                rendered@,
                x_pos as int,
                y_pos as int,
                8,
                0,
            ),
            outside_kept(
                old(self).pixels(),
                final(self).pixels(),
                canvas_info(old(self).info()),
                x_pos as int,
                y_pos as int,
            ),
    {
        self.canvas.write_8x8(rendered, x_pos, y_pos);
    }

    fn newline(&mut self)
        requires
            old(self).wf(),
            old(self).y_pos + 8 < old(self).fb_info.height,
        ensures
            final(self).wf(),
            final(self).info() == old(self).info(),
            final(self).input() == old(self).input(),
            final(self).pixels() == old(self).pixels(),
            final(self).position() == line_below(old(self).position().1),
    {
        self.y_pos = self.y_pos + 8;
        self.x_pos = 0;
    }

    /// Writes a character of Basic Latin. A typed character other than a
    /// line feed joins the line being typed first, if that has room. Then a
    /// line feed moves to the start of the row below, or of the same row
    /// where none is below, and a carriage return to the start of the row;
    /// any other character is drawn where `glyph_place` tells,
    /// on a blanked screen where the screen was full, and the place moves on
    /// by the width of a character.
    pub fn write_char(&mut self, c: char, write_mode: WriteMode)
        requires
            old(self).wf(),
            is_basic_latin(c),
        ensures
            final(self).wf(),
            final(self).info() == old(self).info(),
            final(self).pixels().len() == old(self).pixels().len(),
            final(self).input() == (if write_mode == WriteMode::Cli && c != '\n' && old(self).input().len()
                < INPUT_BUFFER_SIZE {
                old(self).input().push(c)
            } else {
                old(self).input()
            }),
            final(self).position() == (if c == '\n' {
                if old(self).position().1 + 8 < old(self).info().height {
                    line_below(old(self).position().1)
                } else {
                    (0int, old(self).position().1)
                }
            } else if c == '\r' {
                (0int, old(self).position().1)
            } else {
                match glyph_place(
                    old(self).position().0,
                    old(self).position().1,
                    old(self).info().width as int,
                    old(self).info().height as int,
                ) {
                    Some((x, y)) => (x + 8, y),
                    None => (9int, 1int),
                }
            }),
            c != '\n' && c != '\r' ==> shows_glyph(
                final(self).pixels(),
                canvas_info(final(self).info()),
                basic_glyph(c)->Some_0,
                final(self).position().0 - 8,
                final(self).position().1,
                8,
                0,
            ),
    {
        proof {
            self.lemma_position();
        }
        if write_mode == WriteMode::Cli && c != '\n' && self.input_buffer.len() < INPUT_BUFFER_SIZE {
            self.input_buffer.push(c);
        }
        if c == '\n' {
            if self.y_pos + 8 < self.fb_info.height {
                self.newline();
            } else {
                self.x_pos = 0;
            }
        } else if c == '\r' {
            self.x_pos = 0;
        } else {
            let fits = self.x_pos <= self.fb_info.width && self.x_pos + 8 <= self.fb_info.width;
            let y = if fits {
                self.y_pos
            } else {
                self.y_pos + 8
            };
            if y >= self.fb_info.height - 8 {
                self.clear();
            } else {
                if !fits {
                    self.x_pos = 0;
                }
                self.y_pos = y;
            }
            let rendered = match glyph_of(c) {
                Some(rendered) => rendered,
                None => [0u8;8],
            };
            let x = self.x_pos;
            let y = self.y_pos;
            self.write_8x8(rendered, x, y);
            self.x_pos = self.x_pos + 8;
        }
    }

    /// Empties the line that is being typed and returns it.
    pub fn take_input(&mut self) -> (line: Vec<char>)
        requires
            old(self).wf(),
        ensures
            final(self).wf(),
            line@ == old(self).input(),
            final(self).input() == Seq::<char>::empty(),
            final(self).info() == old(self).info(),
            final(self).position() == old(self).position(),
            final(self).pixels() == old(self).pixels(),
    {
        let mut line: Vec<char> = Vec::new();
        core::mem::swap(&mut line, &mut self.input_buffer);
        line
    }
}

fn glyph_of(c: char) -> (glyph: Option<[u8; 8]>)
    ensures
        glyph is Some <==> is_basic_latin(c),
        glyph is Some ==> basic_glyph(c) == Some(glyph->Some_0@),
{
    crate::shared::logger::glyph(c)
}

} // verus!
