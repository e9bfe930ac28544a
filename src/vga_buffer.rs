//! A text-mode screen writer: the character buffer, its cursor and its
//! scrolling. Copying the buffer to the display memory is left to the caller.
use vstd::prelude::*;

verus! {

/// Rows of the text screen.
pub const BUFFER_HEIGHT: usize = 25;

/// Columns of the text screen.
pub const BUFFER_WIDTH: usize = 80;

/// Cells of the text screen, row after row.
pub const BUFFER_CELLS: usize = 2000;

/// The colours of text mode.
#[derive(Clone, Copy, Debug, PartialEq, Eq, Structural)]
pub enum Color {
    Black,
    Blue,
    Green,
    Cyan,
    Red,
    Magenta,
    Brown,
    LightGray,
    DarkGray,
    LightBlue,
    LightGreen,
    LightCyan,
    LightRed,
    Pink,
    Yellow,
    White,
}

/// The hardware number of a colour.
pub open spec fn color_number(c: Color) -> u8 {
    match c {
        Color::Black => 0,
        Color::Blue => 1,
        Color::Green => 2,
        Color::Cyan => 3,
        Color::Red => 4,
        Color::Magenta => 5,
        Color::Brown => 6,
        Color::LightGray => 7,
        Color::DarkGray => 8,
        Color::LightBlue => 9,
        Color::LightGreen => 10,
        Color::LightCyan => 11,
        Color::LightRed => 12,
        Color::Pink => 13,
        Color::Yellow => 14,
        Color::White => 15,
    }
}

impl Color {
    /// The hardware number of the colour.
    pub fn number(&self) -> (r: u8)
        ensures
            r == color_number(*self),
    {
        match self {
            Color::Black => 0,
            Color::Blue => 1,
            Color::Green => 2,
            Color::Cyan => 3,
            Color::Red => 4,
            Color::Magenta => 5,
            Color::Brown => 6,
            Color::LightGray => 7,
            Color::DarkGray => 8,
            Color::LightBlue => 9,
            Color::LightGreen => 10,
            Color::LightCyan => 11,
            Color::LightRed => 12,
            Color::Pink => 13,
            Color::Yellow => 14,
            Color::White => 15,
        }
    }
}

/// A foreground and a background colour in one byte: background in the
/// high four bits.
#[derive(Clone, Copy, Debug, PartialEq, Eq, Structural)]
pub struct ColorCode(pub u8);

impl ColorCode {
    /// The code of `foreground` on `background`.
    pub fn new(foreground: Color, background: Color) -> (r: ColorCode)
        ensures
            r.0 == color_number(background) * 16 + color_number(foreground),
    {
        let f = foreground.number();
        let b = background.number();
        assert((b << 4u8) | f == b * 16 + f) by (bit_vector)
            requires
                f < 16,
                b < 16,
        ;
        ColorCode((b << 4) | f)
    }
}

/// One cell of the screen: a character and its colours.
#[derive(Clone, Copy, Debug, PartialEq, Eq, Structural)]
pub struct ScreenChar {
    pub ascii_character: u8,
    pub color_code: ColorCode,
}

/// The screen after a new line: every row moves up by one and the bottom
/// row is blank.
pub open spec fn scrolled(cells: Seq<ScreenChar>, blank: ScreenChar) -> Seq<ScreenChar> {
    Seq::new(
        2000,
        |i: int|
            if i < 1920 {
                cells[i + 80]
            } else {
                blank
            },
    )
}

/// The cursor column and the cells after writing `byte` with colour `code`.
pub open spec fn write_byte_spec(col: nat, cells: Seq<ScreenChar>, code: ColorCode, byte: u8) -> (
    nat,
    Seq<ScreenChar>,
) {
    let blank = ScreenChar { ascii_character: 32, color_code: code };
    if byte == 10 {
        (0, scrolled(cells, blank))
    } else {
        let (c, s) = if col >= 80 {
            (0nat, scrolled(cells, blank))
        } else {
            (col, cells)
        };
        (c + 1, s.update(1920 + c as int, ScreenChar { ascii_character: byte, color_code: code }))
    }
}

/// The cursor column and the cells after writing each of `bytes` in turn.
pub open spec fn write_bytes_spec(
    col: nat,
    cells: Seq<ScreenChar>,
    code: ColorCode,
    bytes: Seq<u8>,
) -> (nat, Seq<ScreenChar>)
    decreases bytes.len(),
{
    if bytes.len() == 0 {
        (col, cells)
    } else {
        let (c, s) = write_bytes_spec(col, cells, code, bytes.drop_last());
        write_byte_spec(c, s, code, bytes.last())
    }
}

/// Writes text to the bottom row of a screen buffer, scrolling up at each
/// new line and when the row is full.
pub struct Writer {
    column_position: usize,
    color_code: ColorCode,
    buffer: Vec<ScreenChar>,
}

impl Writer {
    /// The cursor column.
    pub closed spec fn column(&self) -> nat {
        self.column_position as nat
    }

    /// The cells of the screen, row after row.
    pub closed spec fn cells(&self) -> Seq<ScreenChar> {
        self.buffer@
    }

    /// The colours the writer writes with.
    pub closed spec fn code(&self) -> ColorCode {
        self.color_code
    }

    /// The buffer holds the whole screen and the cursor lies on it.
    pub closed spec fn wf(&self) -> bool {
        self.buffer@.len() == 2000 && self.column_position <= 80
    }

    /// A writer over a blank screen, writing with `color_code`.
    pub fn new(color_code: ColorCode) -> (r: Writer)
        ensures
            r.wf(),
            r.cells().len() == 2000,
            r.column() == 0,
            r.code() == color_code,
            forall|i: int|
                0 <= i < 2000 ==> #[trigger] r.cells()[i] == (ScreenChar {
                    ascii_character: 32,
                    color_code,
                }),
    {
        let blank = ScreenChar { ascii_character: 0x20u8, color_code };
        let mut buffer: Vec<ScreenChar> = Vec::new();
        while buffer.len() < BUFFER_CELLS
            invariant
                buffer@.len() <= 2000,
                forall|i: int| 0 <= i < buffer@.len() ==> #[trigger] buffer@[i] == blank,
            decreases BUFFER_CELLS - buffer.len(),
        {
            buffer.push(blank);
        }
        Writer { column_position: 0, color_code, buffer }
    }

    /// The cursor column.
    pub fn column_position(&self) -> (r: usize)
        ensures
            r == self.column(),
    {
        self.column_position
    }

    /// The cell at `row` and `col`.
    pub fn char_at(&self, row: usize, col: usize) -> (r: ScreenChar)
        requires
            self.wf(),
            row < BUFFER_HEIGHT,
            col < BUFFER_WIDTH,
        ensures
            r == self.cells()[row * 80 + col],
    {
        self.buffer[row * BUFFER_WIDTH + col]
    }

    /// Writes one byte; a new-line byte moves to a fresh bottom row.
    pub fn write_byte(&mut self, byte: u8)
        requires
            old(self).wf(),
        ensures
            final(self).wf(),
            final(self).cells().len() == 2000,
            final(self).column() <= 80,
            final(self).code() == old(self).code(),
            (final(self).column(), final(self).cells()) == write_byte_spec(
                old(self).column(),
                old(self).cells(),
                old(self).code(),
                byte,
            ),
    {
        if byte == 0x0au8 {
            self.new_line();
        } else {
            if self.column_position >= BUFFER_WIDTH {
                self.new_line();
            }
            let row = BUFFER_HEIGHT - 1;
            let col = self.column_position;
            self.buffer.set(row * BUFFER_WIDTH + col, ScreenChar {
                ascii_character: byte,
                color_code: self.color_code,
            });
            self.column_position = self.column_position + 1;
        }
    }

    /// Moves every row up by one, blanks the bottom row and returns the
    /// cursor to its start.
    fn new_line(&mut self)
        requires
            old(self).wf(),
        ensures
            final(self).wf(),
            final(self).code() == old(self).code(),
            final(self).column() == 0,
            final(self).cells() == scrolled(
                old(self).cells(),
                ScreenChar { ascii_character: 32, color_code: old(self).code() },
            ),
    {
        let mut i: usize = 0;
        while i < BUFFER_CELLS - BUFFER_WIDTH
            invariant
                self.wf(),
                self.color_code == old(self).color_code,
                self.column_position == old(self).column_position,
                i <= 1920,
                forall|j: int| 0 <= j < i ==> #[trigger] self.buffer@[j] == old(self).buffer@[j + 80],
                forall|j: int| i <= j < 2000 ==> #[trigger] self.buffer@[j] == old(self).buffer@[j],
            decreases 1920 - i,
        {
            let c = self.buffer[i + BUFFER_WIDTH];
            self.buffer.set(i, c);
            i = i + 1;
        }
        let ghost mid = self.buffer@;
        self.column_position = 0;
        self.clear_row(BUFFER_HEIGHT - 1);
        let ghost blank = ScreenChar { ascii_character: 32, color_code: old(self).color_code };
        assert forall|j: int| 0 <= j < 2000 implies #[trigger] self.buffer@[j] == scrolled(
            old(self).buffer@,
            blank,
        )[j] by {
            assert(self.cells()[j] == self.buffer@[j]);
            if j < 1920 {
                assert(mid[j] == old(self).buffer@[j + 80]);
            }
        }
        assert(self.buffer@ =~= scrolled(
            old(self).buffer@,
            ScreenChar { ascii_character: 32, color_code: old(self).color_code },
        ));
    }

    /// Blanks row `row`.
    fn clear_row(&mut self, row: usize)
        requires
            old(self).wf(),
            row < BUFFER_HEIGHT,
        ensures
            final(self).wf(),
            final(self).code() == old(self).code(),
            final(self).column() == old(self).column(),
            forall|j: int|
                0 <= j < 2000 ==> #[trigger] final(self).cells()[j] == if row * 80 <= j < row
                    * 80 + 80 {
                    ScreenChar { ascii_character: 32, color_code: old(self).code() }
                } else {
                    old(self).cells()[j]
                },
    {
        let blank = ScreenChar { ascii_character: 0x20u8, color_code: self.color_code };
        let mut col: usize = 0;
        while col < BUFFER_WIDTH
            invariant
                self.wf(),
                self.color_code == old(self).color_code,
                self.column_position == old(self).column_position,
                blank == (ScreenChar { ascii_character: 32, color_code: old(self).color_code }),
                row < 25,
                col <= 80,
                forall|j: int|
                    0 <= j < 2000 ==> #[trigger] self.buffer@[j] == if row * 80 <= j < row * 80
                        + col {
                        blank
                    } else {
                        old(self).buffer@[j]
                    },
            decreases 80 - col,
        {
            self.buffer.set(row * BUFFER_WIDTH + col, blank);
            col = col + 1;
        }
    }

    /// Writes each byte of `s` in turn.
    pub fn write_str(&mut self, s: &[u8])
        requires
            old(self).wf(),
        ensures
            final(self).wf(),
            final(self).cells().len() == 2000,
            final(self).column() <= 80,
            final(self).code() == old(self).code(),
            (final(self).column(), final(self).cells()) == write_bytes_spec(
                old(self).column(),
                old(self).cells(),
                old(self).code(),
                s@,
            ),
    {
        let mut i: usize = 0;
        while i < s.len()
            invariant
                self.wf(),
                self.code() == old(self).code(),
                i <= s@.len(),
                (self.column(), self.cells()) == write_bytes_spec(
                    old(self).column(),
                    old(self).cells(),
                    old(self).code(),
                    s@.take(i as int),
                ),
            decreases s@.len() - i,
        {
            self.write_byte(s[i]);
            assert(s@.take(i + 1).drop_last() =~= s@.take(i as int));
            i = i + 1;
        }
        assert(s@.take(i as int) =~= s@);
    }
}

} // verus!
