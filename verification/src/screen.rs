//! The framebuffer text console.
//!
//! A [`Writer`] keeps the text cursor and the framebuffer geometry. Its
//! operations decide what is drawn and hand it back as a list of [`DrawOp`]s;
//! writing those to the framebuffer memory is left to the caller.

use vstd::prelude::*;

verus! {

/// Bitmaps of the capital letters `A`..=`Z`, one byte per row, most significant bit leftmost.
pub const FONT: [[u8; 8]; 26] = [
    [0b00011000, 0b00100100, 0b01000010, 0b01111110, 0b01000010, 0b01000010, 0b01000010, 0b00000000],
    [0b01111100, 0b01000010, 0b01000010, 0b01111100, 0b01000010, 0b01000010, 0b01111100, 0b00000000],
    [0b00111100, 0b01000010, 0b01000000, 0b01000000, 0b01000000, 0b01000010, 0b00111100, 0b00000000],
    [0b01111000, 0b01000100, 0b01000010, 0b01000010, 0b01000010, 0b01000100, 0b01111000, 0b00000000],
    [0b01111110, 0b01000000, 0b01000000, 0b01111100, 0b01000000, 0b01000000, 0b01111110, 0b00000000],
    [0b01111110, 0b01000000, 0b01000000, 0b01111100, 0b01000000, 0b01000000, 0b01000000, 0b00000000],
    [0b00111100, 0b01000010, 0b01000000, 0b01001110, 0b01000010, 0b01000010, 0b00111100, 0b00000000],
    [0b01000010, 0b01000010, 0b01000010, 0b01111110, 0b01000010, 0b01000010, 0b01000010, 0b00000000],
    [0b00011100, 0b00001000, 0b00001000, 0b00001000, 0b00001000, 0b00001000, 0b00011100, 0b00000000],
    [0b00000110, 0b00000010, 0b00000010, 0b00000010, 0b00000010, 0b01000010, 0b00111100, 0b00000000],
    [0b01000100, 0b01001000, 0b01010000, 0b01100000, 0b01010000, 0b01001000, 0b01000100, 0b00000000],
    [0b01000000, 0b01000000, 0b01000000, 0b01000000, 0b01000000, 0b01000000, 0b01111110, 0b00000000],
    [0b01000010, 0b01100110, 0b01011010, 0b01000010, 0b01000010, 0b01000010, 0b01000010, 0b00000000],
    [0b01000010, 0b01100010, 0b01010010, 0b01001010, 0b01000110, 0b01000010, 0b01000010, 0b00000000],
    [0b00111100, 0b01000010, 0b01000010, 0b01000010, 0b01000010, 0b01000010, 0b00111100, 0b00000000],
    [0b01111100, 0b01000010, 0b01000010, 0b01111100, 0b01000000, 0b01000000, 0b01000000, 0b00000000],
    [0b00111100, 0b01000010, 0b01000010, 0b01000010, 0b01001010, 0b01000100, 0b00111010, 0b00000000],
    [0b01111100, 0b01000010, 0b01000010, 0b01111100, 0b01010000, 0b01001000, 0b01000100, 0b00000000],
    [0b00111110, 0b01000000, 0b01000000, 0b00111100, 0b00000010, 0b00000010, 0b01111100, 0b00000000],
    [0b01111110, 0b00011000, 0b00011000, 0b00011000, 0b00011000, 0b00011000, 0b00011000, 0b00000000],
    [0b01000010, 0b01000010, 0b01000010, 0b01000010, 0b01000010, 0b01000010, 0b00111100, 0b00000000],
    [0b01000010, 0b01000010, 0b01000010, 0b01000010, 0b01000010, 0b00100100, 0b00011000, 0b00000000],
    [0b01000010, 0b01000010, 0b01000010, 0b01000010, 0b01011010, 0b01100110, 0b01000010, 0b00000000],
    [0b01000010, 0b00100100, 0b00011000, 0b00011000, 0b00011000, 0b00100100, 0b01000010, 0b00000000],
    [0b01000010, 0b01000010, 0b01000010, 0b00111100, 0b00011000, 0b00011000, 0b00011000, 0b00000000],
    [0b01111110, 0b00000100, 0b00001000, 0b00011100, 0b00100000, 0b01000000, 0b01111110, 0b00000000],
];

/// Bitmap of `.`.
pub const FONT_DOT: [u8; 8] = [
    0b00000000, 0b00000000, 0b00000000, 0b00000000, 0b00000000, 0b00011000, 0b00011000, 0b00000000,
];

/// Bitmap of `/`.
pub const FONT_SLASH: [u8; 8] = [
    0b00000010, 0b00000100, 0b00001000, 0b00010000, 0b00100000, 0b01000000, 0b10000000, 0b00000000,
];

/// Bitmap of `>`.
pub const FONT_GT: [u8; 8] = [
    0b01100000, 0b00011000, 0b00000110, 0b00000110, 0b00011000, 0b01100000, 0b00000000, 0b00000000,
];

/// Bitmap of `<`.
pub const FONT_LT: [u8; 8] = [
    0b00000110, 0b00011000, 0b01100000, 0b01100000, 0b00011000, 0b00000110, 0b00000000, 0b00000000,
];

/// Column and row at which the cursor starts, and to which a new line returns.
pub const MARGIN: u64 = 20;

/// Horizontal advance of one character cell, in pixels.
pub const CHAR_ADVANCE: u64 = 10;

/// Vertical advance of one text line, in pixels.
pub const LINE_ADVANCE: u64 = 12;

/// Largest framebuffer width or height that the console accepts (2^30 pixels).
pub const MAX_SIDE: u64 = 0x4000_0000;

/// Largest framebuffer pitch that the console accepts (4 GiB per row).
pub const MAX_PITCH: u64 = 0x1_0000_0000;

/// One drawing step that a console operation asks for.
#[derive(Clone, Copy, PartialEq, Eq, Debug)]
pub enum DrawOp {
    /// Set the pixel at column `x`, row `y` to `color`, if it lies on the screen.
    Pixel { x: u64, y: u64, color: u32 },
    /// Set every on-screen pixel of the `w` by `h` rectangle whose top-left corner is
    /// (`x`, `y`) to `color`, row by row.
    Rect { x: u64, y: u64, w: u64, h: u64, color: u32 },
    /// Move the framebuffer contents up by one text line and clear the freed bottom rows.
    Scroll,
}

/// The text console over a linear 32-bit framebuffer.
pub struct Writer {
    /// Column of the cursor, in pixels.
    pub x: u64,
    /// Row of the cursor, in pixels.
    pub y: u64,
    /// Colour in which glyphs are drawn.
    pub color: u32,
    /// Address of the framebuffer.
    pub addr: u64,
    /// Width of the screen, in pixels.
    pub width: u64,
    /// Height of the screen, in pixels.
    pub height: u64,
    /// Bytes per framebuffer row.
    pub pitch: u64,
}

/// `c` with an ASCII lower-case letter turned into upper case.
pub open spec fn ascii_upper(c: char) -> char {
    if 'a' <= c <= 'z' {
        ((c as u32) - 32) as char
    } else {
        c
    }
}

/// The bitmap of `c`, for the characters that the console can draw.
pub open spec fn glyph(c: char) -> Option<Seq<u8>> {
    if 'A' <= c <= 'Z' {
        Some(FONT@[(c as int) - ('A' as int)]@)
    } else if c == '.' {
        Some(FONT_DOT@)
    } else if c == '/' {
        Some(FONT_SLASH@)
    } else if c == '>' {
        Some(FONT_GT@)
    } else if c == '<' {
        Some(FONT_LT@)
    } else {
        None
    }
}

/// Whether column `col` of a glyph row is lit.
pub open spec fn lit(row_data: u8, col: int) -> bool {
    (row_data >> ((7 - col) as usize)) & 1u8 == 1u8
}

/// The pixels of the first `ncols` columns of one glyph row drawn at (`x`, `y`), left to right.
pub open spec fn row_ops(row_data: u8, x: u64, y: u64, color: u32, ncols: int) -> Seq<DrawOp>
    decreases ncols,
{
    if ncols <= 0 {
        Seq::empty()
    } else {
        row_ops(row_data, x, y, color, ncols - 1) + if lit(row_data, ncols - 1) {
            seq![DrawOp::Pixel { x: (x + ncols - 1) as u64, y, color }]
        } else {
            Seq::empty()
        }
    }
}

/// The pixels of the first `nrows` rows of a glyph drawn with its top-left corner at (`x`, `y`).
pub open spec fn glyph_ops(rows: Seq<u8>, x: u64, y: u64, color: u32, nrows: int) -> Seq<DrawOp>
    decreases nrows,
{
    if nrows <= 0 {
        Seq::empty()
    } else {
        glyph_ops(rows, x, y, color, nrows - 1) + row_ops(
            rows[nrows - 1],
            x,
            (y + nrows - 1) as u64,
            color,
            8,
        )
    }
}

impl Writer {
    /// The geometry bounds and the cursor bounds that every console operation keeps.
    pub open spec fn wf(&self) -> bool {
        &&& self.width <= MAX_SIDE
        &&& self.height <= MAX_SIDE
        &&& self.pitch <= MAX_PITCH
        &&& self.x <= self.width + 30
        &&& self.y <= self.height + MARGIN
    }

    /// The console with its cursor moved to (`x`, `y`).
    pub open spec fn at(self, x: u64, y: u64) -> Writer {
        Writer { x, y, ..self }
    }

    /// What `new_line` does: the console after it and what it draws.
    pub open spec fn spec_new_line(self) -> (Writer, Seq<DrawOp>) {
        if self.y + 24 >= self.height {
            (self.at(MARGIN, self.y), seq![DrawOp::Scroll])
        } else {
            (self.at(MARGIN, (self.y + LINE_ADVANCE) as u64), Seq::empty())
        }
    }

    /// What `print_char` does: the console after it and what it draws.
    pub open spec fn spec_print_char(self, c0: char) -> (Writer, Seq<DrawOp>) {
        let c = ascii_upper(c0);
        if c == '\n' {
            self.spec_new_line()
        } else if c == ' ' {
            if self.x + CHAR_ADVANCE >= self.width {
                self.spec_new_line()
            } else {
                (self.at((self.x + CHAR_ADVANCE) as u64, self.y), Seq::empty())
            }
        } else {
            let (w, wrap) = if self.x + CHAR_ADVANCE >= self.width {
                self.spec_new_line()
            } else {
                (self, Seq::empty())
            };
            let pixels = match glyph(c) {
                Some(rows) => glyph_ops(rows, w.x, w.y, w.color, 8),
                None => Seq::empty(),
            };
            (w.at((w.x + CHAR_ADVANCE) as u64, w.y), wrap + pixels)
        }
    }

    /// What `print` does: each character of `text` in turn.
    pub open spec fn spec_print(self, text: Seq<char>) -> (Writer, Seq<DrawOp>)
        decreases text.len(),
    {
        if text.len() == 0 {
            (self, Seq::empty())
        } else {
            let (w, ops) = self.spec_print(text.drop_last());
            let (w2, ops2) = w.spec_print_char(text.last());
            (w2, ops + ops2)
        }
    }

    /// What `println` does: `print`, then a new line.
    pub open spec fn spec_println(self, text: Seq<char>) -> (Writer, Seq<DrawOp>) {
        let (w, ops) = self.spec_print(text);
        let (w2, ops2) = w.spec_new_line();
        (w2, ops + ops2)
    }

    /// What `backspace` does: the console after it and what it draws.
    pub open spec fn spec_backspace(self) -> (Writer, Seq<DrawOp>) {
        if self.x > MARGIN {
            let x = (self.x - CHAR_ADVANCE) as u64;
            (self.at(x, self.y), seq![DrawOp::Rect { x, y: self.y, w: 8, h: 8, color: 0 }])
        } else {
            (self, Seq::empty())
        }
    }

    /// The index of the 32-bit framebuffer word of the pixel at (`x`, `y`), if it is on the screen.
    pub open spec fn spec_pixel_index(self, x: u64, y: u64) -> Option<u64> {
        if x >= self.width || y >= self.height {
            None
        } else {
            Some(((y * self.pitch + x * 4) / 4) as u64)
        }
    }

    /// A console for the framebuffer at `addr`, with the cursor at the top-left margin.
    pub fn new(addr: u64, width: u64, height: u64, pitch: u64, color: u32) -> (w: Self)
        requires
            width <= MAX_SIDE,
            height <= MAX_SIDE,
            pitch <= MAX_PITCH,
        ensures
            w == (Writer { x: MARGIN, y: MARGIN, color, addr, width, height, pitch }),
            w.wf(),
    {
        Self { x: MARGIN, y: MARGIN, color, addr, width, height, pitch }
    }

    /// Where the pixel at (`x`, `y`) lives: the index of its 32-bit word from the framebuffer
    /// start, or `None` when the pixel lies off the screen and must not be drawn.
    pub fn pixel_index(&self, x: u64, y: u64) -> (r: Option<u64>)
        requires
            self.wf(),
        ensures
            r == self.spec_pixel_index(x, y),
    {
        if x >= self.width || y >= self.height {
            return None;
        }
        proof {
            assert(y * self.pitch <= MAX_SIDE * MAX_PITCH) by (nonlinear_arith)
                requires
                    y < MAX_SIDE,
                    self.pitch <= MAX_PITCH,
            ;
        }
        let offset = y * self.pitch + x * 4;
        Some(offset / 4)
    }

    /// The byte counts of a scroll: how far the contents move up (one text line of rows) and
    /// the size of the whole framebuffer; `None` when the screen is shorter than a text line.
    pub fn scroll_extent(&self) -> (r: Option<(u64, u64)>)
        requires
            self.wf(),
        ensures
            r == (if self.height < LINE_ADVANCE {
                None
            } else {
                Some(((LINE_ADVANCE * self.pitch) as u64, (self.height * self.pitch) as u64))
            }),
    {
        if self.height < LINE_ADVANCE {
            return None;
        }
        proof {
            assert(self.height * self.pitch <= MAX_SIDE * MAX_PITCH) by (nonlinear_arith)
                requires
                    self.height <= MAX_SIDE,
                    self.pitch <= MAX_PITCH,
            ;
        }
        Some((LINE_ADVANCE * self.pitch, self.height * self.pitch))
    }

    /// Erases the character cell left of the cursor and moves the cursor onto it, unless the
    /// cursor stands at the left margin.
    pub fn backspace(&mut self) -> (ops: Vec<DrawOp>)
        requires
            old(self).wf(),
        ensures
            final(self).wf(),
            (*final(self), ops@) == old(self).spec_backspace(),
    {
        let mut ops = Vec::new();
        if self.x > MARGIN {
            self.x = self.x - CHAR_ADVANCE;
            ops.push(DrawOp::Rect { x: self.x, y: self.y, w: 8, h: 8, color: 0 });
        }
        ops
    }

    /// Paints the whole screen black and returns the cursor to the top-left margin.
    pub fn clear_screen(&mut self) -> (ops: Vec<DrawOp>)
        requires
            old(self).wf(),
        ensures
            final(self).wf(),
            *final(self) == old(self).at(MARGIN, MARGIN),
            ops@ == seq![
                DrawOp::Rect { x: 0, y: 0, w: old(self).width, h: old(self).height, color: 0 },
            ],
    {
        let mut ops = Vec::new();
        ops.push(DrawOp::Rect { x: 0, y: 0, w: self.width, h: self.height, color: 0 });
        self.x = MARGIN;
        self.y = MARGIN;
        ops
    }

    /// Returns the cursor to the left margin of the next line, scrolling when the screen is full.
    pub fn new_line(&mut self) -> (ops: Vec<DrawOp>)
        requires
            old(self).wf(),
        ensures
            final(self).wf(),
            (*final(self), ops@) == old(self).spec_new_line(),
    {
        let mut ops = Vec::new();
        self.push_new_line(&mut ops);
        ops
    }

    fn push_new_line(&mut self, ops: &mut Vec<DrawOp>)
        requires
            old(self).wf(),
        ensures
            final(self).wf(),
            *final(self) == old(self).spec_new_line().0,
            final(ops)@ == old(ops)@ + old(self).spec_new_line().1,
    {
        self.x = MARGIN;
        if self.y + 24 >= self.height {
            ops.push(DrawOp::Scroll);
        } else {
            self.y = self.y + LINE_ADVANCE;
        }
    }

    fn push_glyph(&self, rows: &[u8; 8], ops: &mut Vec<DrawOp>)
        requires
            self.wf(),
            self.x <= self.width + 30,
        ensures
            final(ops)@ == old(ops)@ + glyph_ops(rows@, self.x, self.y, self.color, 8),
    {
        let ghost start = ops@;
        for row in 0..8usize
            invariant
                self.wf(),
                ops@ == start + glyph_ops(rows@, self.x, self.y, self.color, row as int),
        {
            let row_data = rows[row];
            let ghost before = ops@;
            for col in 0..8usize
                invariant
                    self.wf(),
                    row < 8,
                    row_data == rows@[row as int],
                    ops@ == before + row_ops(row_data, self.x, (self.y + row) as u64, self.color, col as int),
            {
                if (row_data >> (7 - col)) & 1 == 1 {
                    ops.push(DrawOp::Pixel { x: self.x + col as u64, y: self.y + row as u64, color: self.color });
                }
                proof {
                    assert(ops@ =~= before + row_ops(row_data, self.x, (self.y + row) as u64, self.color, col + 1));
                }
            }
            proof {
                assert(ops@ =~= start + glyph_ops(rows@, self.x, self.y, self.color, row + 1));
            }
        }
    }

    fn push_char(&mut self, c0: char, ops: &mut Vec<DrawOp>)
        requires
            old(self).wf(),
        ensures
            final(self).wf(),
            *final(self) == old(self).spec_print_char(c0).0,
            final(ops)@ == old(ops)@ + old(self).spec_print_char(c0).1,
    {
        let ghost start = ops@;
        let c = to_ascii_upper(c0);
        if c == '\n' {
            self.push_new_line(ops);
            return;
        }
        if c == ' ' {
            if self.x + CHAR_ADVANCE >= self.width {
                self.push_new_line(ops);
                return;
            }
            self.x = self.x + CHAR_ADVANCE;
            return;
        }
        if self.x + CHAR_ADVANCE >= self.width {
            self.push_new_line(ops);
        }
        let ghost mid = ops@;
        match glyph_rows(c) {
            Some(rows) => self.push_glyph(&rows, ops),
            None => {},
        }
        self.x = self.x + CHAR_ADVANCE;
        proof {
            assert(ops@ =~= start + old(self).spec_print_char(c0).1);
        }
    }

    /// Draws one character at the cursor and advances it. Letters are drawn in upper case;
    /// a line feed starts a new line; a space only advances; a character that would pass the
    /// right edge goes to the next line first. Characters without a glyph only advance.
    pub fn print_char(&mut self, c: char) -> (ops: Vec<DrawOp>)
        requires
            old(self).wf(),
        ensures
            final(self).wf(),
            (*final(self), ops@) == old(self).spec_print_char(c),
    {
        let mut ops = Vec::new();
        self.push_char(c, &mut ops);
        ops
    }

    fn push_text(&mut self, text: &str, ops: &mut Vec<DrawOp>)
        requires
            old(self).wf(),
        ensures
            final(self).wf(),
            *final(self) == old(self).spec_print(text@).0,
            final(ops)@ == old(ops)@ + old(self).spec_print(text@).1,
    {
        let ghost w0 = *self;
        let ghost start = ops@;
        let n = text.unicode_len();
        let mut i: usize = 0;
        while i < n
            invariant
                n == text@.len(),
                i <= n,
                self.wf(),
                *self == w0.spec_print(text@.subrange(0, i as int)).0,
                ops@ == start + w0.spec_print(text@.subrange(0, i as int)).1,
            decreases n - i,
        {
            let c = text.get_char(i);
            proof {
                assert(text@.subrange(0, i + 1).drop_last() =~= text@.subrange(0, i as int));
            }
            self.push_char(c, ops);
            i = i + 1;
            proof {
                assert(ops@ =~= start + w0.spec_print(text@.subrange(0, i as int)).1);
            }
        }
        proof {
            assert(text@.subrange(0, n as int) =~= text@);
        }
    }

    /// Prints each character of `text` in turn.
    pub fn print(&mut self, text: &str) -> (ops: Vec<DrawOp>)
        requires
            old(self).wf(),
        ensures
            final(self).wf(),
            (*final(self), ops@) == old(self).spec_print(text@),
    {
        let mut ops = Vec::new();
        self.push_text(text, &mut ops);
        ops
    }

    /// Prints `text`, then starts a new line.
    pub fn println(&mut self, text: &str) -> (ops: Vec<DrawOp>)
        requires
            old(self).wf(),
        ensures
            final(self).wf(),
            (*final(self), ops@) == old(self).spec_println(text@),
    {
        let mut ops = Vec::new();
        self.push_text(text, &mut ops);
        self.push_new_line(&mut ops);
        ops
    }
}

/// `c` with an ASCII lower-case letter turned into upper case, as `char::to_ascii_uppercase`.
pub fn to_ascii_upper(c: char) -> (r: char)
    ensures
        r == ascii_upper(c),
{
    if 'a' <= c && c <= 'z' {
        let code: u8 = c as u8 - 32;
        code as char
    } else {
        c
    }
}

/// The bitmap that the console draws for `c`, if it has one.
pub fn glyph_rows(c: char) -> (r: Option<[u8; 8]>)
    ensures
        match r {
            Some(rows) => glyph(c) == Some(rows@),
            None => glyph(c) is None,
        },
{
    if 'A' <= c && c <= 'Z' {
        let index = (c as u32 - 'A' as u32) as usize;
        Some(FONT[index])
    } else if c == '.' {
        Some(FONT_DOT)
    } else if c == '/' {
        Some(FONT_SLASH)
    } else if c == '>' {
        Some(FONT_GT)
    } else if c == '<' {
        Some(FONT_LT)
    } else {
        None
    }
}

/// The pixels that `row_ops` draws lie in columns `x .. x + ncols` of row `y`.
proof fn lemma_row_ops_in_cell(row_data: u8, x: u64, y: u64, color: u32, ncols: int)
    requires
        0 <= ncols <= 8,
        x + 8 <= u64::MAX,
    ensures
        forall|k: int|
            0 <= k < row_ops(row_data, x, y, color, ncols).len() ==> {
                let op = #[trigger] row_ops(row_data, x, y, color, ncols)[k];
                op matches DrawOp::Pixel { x: px, y: py, color: pc } && x <= px < x + ncols && py
                    == y && pc == color
            },
    decreases ncols,
{
    if ncols > 0 {
        lemma_row_ops_in_cell(row_data, x, y, color, ncols - 1);
    }
}

/// The pixels that `glyph_ops` draws lie in the `8` by `nrows` cell at (`x`, `y`).
proof fn lemma_glyph_ops_in_cell(rows: Seq<u8>, x: u64, y: u64, color: u32, nrows: int)
    requires
        0 <= nrows <= 8,
        x + 8 <= u64::MAX,
        y + 8 <= u64::MAX,
    ensures
        forall|k: int|
            0 <= k < glyph_ops(rows, x, y, color, nrows).len() ==> {
                let op = #[trigger] glyph_ops(rows, x, y, color, nrows)[k];
                op matches DrawOp::Pixel { x: px, y: py, color: pc } && x <= px < x + 8 && y <= py
                    < y + nrows && pc == color
            },
    decreases nrows,
{
    if nrows > 0 {
        lemma_glyph_ops_in_cell(rows, x, y, color, nrows - 1);
        lemma_row_ops_in_cell(rows[nrows - 1], x, (y + nrows - 1) as u64, color, 8);
        let a = glyph_ops(rows, x, y, color, nrows - 1);
        let b = row_ops(rows[nrows - 1], x, (y + nrows - 1) as u64, color, 8);
        assert forall|k: int| 0 <= k < (a + b).len() implies {
            let op = #[trigger] (a + b)[k];
            op matches DrawOp::Pixel { x: px, y: py, color: pc } && x <= px < x + 8 && y <= py
                < y + nrows && pc == color
        } by {
            if k < a.len() {
                assert((a + b)[k] == a[k]);
            } else {
                assert((a + b)[k] == b[k - a.len()]);
            }
        }
    }
}

/// A character that does not wrap the line draws only inside its own character cell: every
/// pixel it sets lies in the 8 by 8 square whose top-left corner is the cursor, in the
/// console's colour. This is the square that `backspace` erases.
pub proof fn lemma_char_draws_in_its_cell(w: Writer, c: char)
    requires
        w.wf(),
        ascii_upper(c) != '\n',
        w.x + CHAR_ADVANCE < w.width,
    ensures
        forall|k: int|
            0 <= k < w.spec_print_char(c).1.len() ==> {
                let op = #[trigger] w.spec_print_char(c).1[k];
                op matches DrawOp::Pixel { x: px, y: py, color: pc } && w.x <= px < w.x + 8 && w.y
                    <= py < w.y + 8 && pc == w.color
            },
{
    let uc = ascii_upper(c);
    if uc != ' ' {
        match glyph(uc) {
            Some(rows) => {
                lemma_glyph_ops_in_cell(rows, w.x, w.y, w.color, 8);
                assert(w.spec_print_char(c).1 =~= Seq::<DrawOp>::empty() + glyph_ops(rows, w.x, w.y, w.color, 8));
            },
            None => {},
        }
    }
}

/// Backspace undoes a typed character: after a character that stays on the line is printed
/// at or right of the left margin, a backspace returns the console to where it was, erasing
/// the cell the character was drawn in.
pub proof fn lemma_backspace_undoes_char(w: Writer, c: char)
    requires
        w.wf(),
        ascii_upper(c) != '\n',
        w.x + CHAR_ADVANCE < w.width,
        w.x >= MARGIN,
    ensures
        w.spec_print_char(c).0.spec_backspace().0 == w,
        w.spec_print_char(c).0.spec_backspace().1 == seq![
            DrawOp::Rect { x: w.x, y: w.y, w: 8, h: 8, color: 0 },
        ],
{
}

/// Printing a text and then another is printing the two joined together.
pub proof fn lemma_print_concat(w: Writer, a: Seq<char>, b: Seq<char>)
    ensures
        w.spec_print(a + b) == ({
            let (w1, ops1) = w.spec_print(a);
            let (w2, ops2) = w1.spec_print(b);
            (w2, ops1 + ops2)
        }),
    decreases b.len(),
{
    if b.len() == 0 {
        assert(a + b =~= a);
        assert(w.spec_print(a).1 + Seq::<DrawOp>::empty() =~= w.spec_print(a).1);
    } else {
        assert((a + b).drop_last() =~= a + b.drop_last());
        assert((a + b).last() == b.last());
        lemma_print_concat(w, a, b.drop_last());
        let (w1, ops1) = w.spec_print(a);
        let (wb, opsb) = w1.spec_print(b.drop_last());
        let (w3, ops3) = wb.spec_print_char(b.last());
        assert(ops1 + opsb + ops3 =~= ops1 + (opsb + ops3));
    }
}

/// Two different on-screen pixels live in different framebuffer words, as long as a row of
/// pixels fits in the pitch.
pub proof fn lemma_pixel_index_injective(w: Writer, x1: u64, y1: u64, x2: u64, y2: u64)
    requires
        w.wf(),
        w.width * 4 <= w.pitch,
        w.spec_pixel_index(x1, y1) is Some,
        w.spec_pixel_index(x1, y1) == w.spec_pixel_index(x2, y2),
    ensures
        x1 == x2 && y1 == y2,
{
    let p = w.pitch as int;
    let o1 = y1 * p + x1 * 4;
    let o2 = y2 * p + x2 * 4;
    assert(y1 * p <= MAX_SIDE * MAX_PITCH) by (nonlinear_arith)
        requires y1 < MAX_SIDE, p <= MAX_PITCH, y1 >= 0, p >= 0;
    assert(y2 * p <= MAX_SIDE * MAX_PITCH) by (nonlinear_arith)
        requires y2 < MAX_SIDE, p <= MAX_PITCH, y2 >= 0, p >= 0;
    assert(o1 / 4 == o2 / 4);
    assert(o1 - o2 < 4 && o2 - o1 < 4) by (nonlinear_arith)
        requires o1 / 4 == o2 / 4, o1 >= 0, o2 >= 0;
    if y1 < y2 {
        assert(o2 - o1 >= 4) by (nonlinear_arith)
            requires
                y1 < y2, x1 < w.width, x2 >= 0, w.width * 4 <= p,
                o1 == y1 * p + x1 * 4, o2 == y2 * p + x2 * 4;
    } else if y2 < y1 {
        assert(o1 - o2 >= 4) by (nonlinear_arith)
            requires
                y2 < y1, x2 < w.width, x1 >= 0, w.width * 4 <= p,
                o1 == y1 * p + x1 * 4, o2 == y2 * p + x2 * 4;
    }
}

/// The pixel at row `row` and column `col` of the character cell whose top-left corner is
/// (`x`, `y`), in `color`.
pub open spec fn cell_pixel(x: u64, y: u64, color: u32, row: int, col: int) -> DrawOp {
    DrawOp::Pixel { x: (x + col) as u64, y: (y + row) as u64, color }
}

/// Whether `ops` sets exactly the lit pixels of the 8 by 8 bitmap `rows` (bit 7 of a row byte
/// is the leftmost column) placed with its top-left corner at (`x`, `y`), in `color`: every
/// step is such a pixel, and every such pixel is set.
pub open spec fn sets_bitmap(ops: Seq<DrawOp>, rows: Seq<u8>, x: u64, y: u64, color: u32) -> bool {
    &&& forall|k: int|
        #![trigger ops[k]]
        0 <= k < ops.len() ==> exists|row: int, col: int|
            0 <= row < 8 && 0 <= col < 8 && (rows[row] >> ((7 - col) as usize)) & 1u8 == 1u8 && ops[k]
                == #[trigger] cell_pixel(x, y, color, row, col)
    &&& forall|row: int, col: int|
        0 <= row < 8 && 0 <= col < 8 && (rows[row] >> ((7 - col) as usize)) & 1u8 == 1u8 ==> #[trigger] ops.contains(
            cell_pixel(x, y, color, row, col),
        )
}

/// The steps of one glyph row are exactly its lit pixels.
proof fn lemma_row_ops_pixels(row_data: u8, x: u64, y: u64, color: u32, ncols: int)
    requires
        0 <= ncols <= 8,
    ensures
        forall|k: int|
            #![trigger row_ops(row_data, x, y, color, ncols)[k]]
            0 <= k < row_ops(row_data, x, y, color, ncols).len() ==> exists|col: int|
                0 <= col < ncols && lit(row_data, col) && row_ops(row_data, x, y, color, ncols)[k]
                    == #[trigger] cell_pixel(x, y, color, 0, col),
        forall|col: int|
            0 <= col < ncols && lit(row_data, col) ==> #[trigger] row_ops(row_data, x, y, color, ncols).contains(
                cell_pixel(x, y, color, 0, col),
            ),
    decreases ncols,
{
    if ncols > 0 {
        lemma_row_ops_pixels(row_data, x, y, color, ncols - 1);
        let a = row_ops(row_data, x, y, color, ncols - 1);
        let last = ncols - 1;
        let b = if lit(row_data, last) {
            seq![cell_pixel(x, y, color, 0, last)]
        } else {
            Seq::empty()
        };
        let ab = row_ops(row_data, x, y, color, ncols);
        assert(ab == a + b);
        assert forall|k: int| #![trigger ab[k]] 0 <= k < ab.len() implies exists|col: int|
            0 <= col < ncols && lit(row_data, col) && ab[k] == #[trigger] cell_pixel(x, y, color, 0, col) by {
            if k < a.len() {
                assert(ab[k] == a[k]);
                let col = choose|col: int|
                    0 <= col < ncols - 1 && lit(row_data, col) && a[k] == #[trigger] cell_pixel(x, y, color, 0, col);
            } else {
                assert(ab[k] == b[k - a.len()]);
                assert(ab[k] == cell_pixel(x, y, color, 0, last));
            }
        }
        assert forall|col: int| 0 <= col < ncols && lit(row_data, col) implies #[trigger] ab.contains(
            cell_pixel(x, y, color, 0, col),
        ) by {
            let p = cell_pixel(x, y, color, 0, col);
            if col < last {
                assert(a.contains(p));
                let k = choose|k: int| 0 <= k < a.len() && a[k] == p;
                assert(ab[k] == p);
            } else {
                assert(ab[a.len() as int] == p);
            }
        }
    }
}

/// The steps of the first `nrows` rows of a glyph are exactly their lit pixels.
proof fn lemma_glyph_ops_pixels(rows: Seq<u8>, x: u64, y: u64, color: u32, nrows: int)
    requires
        0 <= nrows <= 8,
    ensures
        forall|k: int|
            #![trigger glyph_ops(rows, x, y, color, nrows)[k]]
            0 <= k < glyph_ops(rows, x, y, color, nrows).len() ==> exists|row: int, col: int|
                0 <= row < nrows && 0 <= col < 8 && lit(rows[row], col) && glyph_ops(
                    rows,
                    x,
                    y,
                    color,
                    nrows,
                )[k] == #[trigger] cell_pixel(x, y, color, row, col),
        forall|row: int, col: int|
            0 <= row < nrows && 0 <= col < 8 && lit(rows[row], col) ==> #[trigger] glyph_ops(
                rows,
                x,
                y,
                color,
                nrows,
            ).contains(cell_pixel(x, y, color, row, col)),
    decreases nrows,
{
    if nrows > 0 {
        lemma_glyph_ops_pixels(rows, x, y, color, nrows - 1);
        let last = nrows - 1;
        let a = glyph_ops(rows, x, y, color, last);
        let yl = (y + last) as u64;
        let b = row_ops(rows[last], x, yl, color, 8);
        lemma_row_ops_pixels(rows[last], x, yl, color, 8);
        let ab = glyph_ops(rows, x, y, color, nrows);
        assert(ab == a + b);
        assert forall|k: int| #![trigger ab[k]] 0 <= k < ab.len() implies exists|row: int, col: int|
            0 <= row < nrows && 0 <= col < 8 && lit(rows[row], col) && ab[k] == #[trigger] cell_pixel(x, y, color, row, col) by {
            if k < a.len() {
                assert(ab[k] == a[k]);
                let (row, col) = choose|row: int, col: int|
                    0 <= row < last && 0 <= col < 8 && lit(rows[row], col) && a[k] == #[trigger] cell_pixel(x, y, color, row, col);
            } else {
                assert(ab[k] == b[k - a.len()]);
                let col = choose|col: int|
                    0 <= col < 8 && lit(rows[last], col) && b[k - a.len()] == #[trigger] cell_pixel(x, yl, color, 0, col);
                assert(ab[k] == cell_pixel(x, y, color, last, col));
            }
        }
        assert forall|row: int, col: int| 0 <= row < nrows && 0 <= col < 8 && lit(rows[row], col) implies #[trigger] ab.contains(
            cell_pixel(x, y, color, row, col),
        ) by {
            let p = cell_pixel(x, y, color, row, col);
            if row < last {
                assert(a.contains(p));
                let k = choose|k: int| 0 <= k < a.len() && a[k] == p;
                assert(ab[k] == p);
            } else {
                assert(b.contains(cell_pixel(x, yl, color, 0, col)));
                let k = choose|k: int| 0 <= k < b.len() && b[k] == p;
                assert(ab[a.len() + k] == p);
            }
        }
    }
}

/// A character drawn with room on its line sets exactly the lit pixels of its bitmap.
proof fn lemma_char_sets_bitmap(w: Writer, c: char, rows: Seq<u8>)
    requires
        w.wf(),
        w.x + CHAR_ADVANCE < w.width,
        ascii_upper(c) != '\n',
        ascii_upper(c) != ' ',
        glyph(ascii_upper(c)) == Some(rows),
    ensures
        sets_bitmap(w.spec_print_char(c).1, rows, w.x, w.y, w.color),
{
    lemma_glyph_ops_pixels(rows, w.x, w.y, w.color, 8);
    let ops = w.spec_print_char(c).1;
    assert(ops =~= glyph_ops(rows, w.x, w.y, w.color, 8));
}

/// Each drawable character is drawn with its own bitmap: with room on its line, printing it
/// sets exactly the lit pixels of that bitmap at the cursor, in the console's colour: a
/// capital or small letter those of its capital in `FONT` (`A` the first, `Z` the last),
/// `.` those of `FONT_DOT`, `/` of `FONT_SLASH`, `>` of `FONT_GT` and `<` of `FONT_LT`.
pub proof fn lemma_chars_drawn_with_their_bitmaps(w: Writer, c: char)
    requires
        w.wf(),
        w.x + CHAR_ADVANCE < w.width,
    ensures
        'A' <= c <= 'Z' ==> sets_bitmap(w.spec_print_char(c).1, FONT@[(c as int) - 0x41]@, w.x, w.y, w.color),
        'a' <= c <= 'z' ==> sets_bitmap(w.spec_print_char(c).1, FONT@[(c as int) - 0x61]@, w.x, w.y, w.color),
        c == '.' ==> sets_bitmap(w.spec_print_char(c).1, FONT_DOT@, w.x, w.y, w.color),
        c == '/' ==> sets_bitmap(w.spec_print_char(c).1, FONT_SLASH@, w.x, w.y, w.color),
        c == '>' ==> sets_bitmap(w.spec_print_char(c).1, FONT_GT@, w.x, w.y, w.color),
        c == '<' ==> sets_bitmap(w.spec_print_char(c).1, FONT_LT@, w.x, w.y, w.color),
{
    let u = ascii_upper(c);
    if 'A' <= c <= 'Z' {
        lemma_char_sets_bitmap(w, c, FONT@[(c as int) - 0x41]@);
    } else if 'a' <= c <= 'z' {
        assert(u as int == c as int - 32);
        lemma_char_sets_bitmap(w, c, FONT@[(c as int) - 0x61]@);
    } else if c == '.' {
        lemma_char_sets_bitmap(w, c, FONT_DOT@);
    } else if c == '/' {
        lemma_char_sets_bitmap(w, c, FONT_SLASH@);
    } else if c == '>' {
        lemma_char_sets_bitmap(w, c, FONT_GT@);
    } else if c == '<' {
        lemma_char_sets_bitmap(w, c, FONT_LT@);
    }
}

} // verus!
