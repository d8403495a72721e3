//! The VGA text screen: 25 rows of 80 characters, each with a color code,
//! written to as a terminal that scrolls up at each new line.
use vstd::prelude::*;

use vstd::string::StringSliceAdditionalSpecFns;

verus! {

/// The color of a character.
#[derive(Debug, Clone, Copy, PartialEq, Eq)]
pub enum ForegroundColor {
    Black,
    Blue,
    Green,
    Cyan,
    Red,
    Magenta,
    Brown,
    LightGray,
    DarkGray,
    LightBlue,
    LightGreen,
    LightCyan,
    LightRed,
    Pink,
    Yellow,
    White,
}

/// The color behind a character.
#[derive(Debug, Clone, Copy, PartialEq, Eq)]
pub enum BackgroundColor {
    Black,
    Blue,
    Green,
    Cyan,
    Red,
    Magenta,
    Brown,
    LightGray,
}

impl ForegroundColor {
    /// The color's number: bits 0 to 3 of a color code.
    pub open spec fn spec_value(self) -> u8 {
        match self {
            ForegroundColor::Black => 0x0,
            ForegroundColor::Blue => 0x1,
            ForegroundColor::Green => 0x2,
            ForegroundColor::Cyan => 0x3,
            ForegroundColor::Red => 0x4,
            ForegroundColor::Magenta => 0x5,
            ForegroundColor::Brown => 0x6,
            ForegroundColor::LightGray => 0x7,
            ForegroundColor::DarkGray => 0x8,
            ForegroundColor::LightBlue => 0x9,
            ForegroundColor::LightGreen => 0xa,
            ForegroundColor::LightCyan => 0xb,
            ForegroundColor::LightRed => 0xc,
            ForegroundColor::Pink => 0xd,
            ForegroundColor::Yellow => 0xe,
            ForegroundColor::White => 0xf,
        }
    }

    /// The color's number.
    pub fn value(self) -> (r: u8)
        ensures
            r == self.spec_value(),
    {
        match self {
            ForegroundColor::Black => 0x0,
            ForegroundColor::Blue => 0x1,
            ForegroundColor::Green => 0x2,
            ForegroundColor::Cyan => 0x3,
            ForegroundColor::Red => 0x4,
            ForegroundColor::Magenta => 0x5,
            ForegroundColor::Brown => 0x6,
            ForegroundColor::LightGray => 0x7,
            ForegroundColor::DarkGray => 0x8,
            ForegroundColor::LightBlue => 0x9,
            ForegroundColor::LightGreen => 0xa,
            ForegroundColor::LightCyan => 0xb,
            ForegroundColor::LightRed => 0xc,
            ForegroundColor::Pink => 0xd,
            ForegroundColor::Yellow => 0xe,
            ForegroundColor::White => 0xf,
        }
    }

    /// The color of number `v`, which is below 16.
    pub open spec fn spec_from_value(v: u8) -> Self {
        if v == 0x0 {
            ForegroundColor::Black
        } else if v == 0x1 {
            ForegroundColor::Blue
        } else if v == 0x2 {
            ForegroundColor::Green
        } else if v == 0x3 {
            ForegroundColor::Cyan
        } else if v == 0x4 {
            ForegroundColor::Red
        } else if v == 0x5 {
            ForegroundColor::Magenta
        } else if v == 0x6 {
            ForegroundColor::Brown
        } else if v == 0x7 {
            ForegroundColor::LightGray
        } else if v == 0x8 {
            ForegroundColor::DarkGray
        } else if v == 0x9 {
            ForegroundColor::LightBlue
        } else if v == 0xa {
            ForegroundColor::LightGreen
        } else if v == 0xb {
            ForegroundColor::LightCyan
        } else if v == 0xc {
            ForegroundColor::LightRed
        } else if v == 0xd {
            ForegroundColor::Pink
        } else if v == 0xe {
            ForegroundColor::Yellow
        } else {
            ForegroundColor::White
        }
    }

    /// The color of number `v`, which is below 16.
    fn from_value(v: u8) -> (r: Self)
        requires
            v < 16,
        ensures
            r.spec_value() == v,
            r == Self::spec_from_value(v),
    {
        match v {
            0x0 => ForegroundColor::Black,
            0x1 => ForegroundColor::Blue,
            0x2 => ForegroundColor::Green,
            0x3 => ForegroundColor::Cyan,
            0x4 => ForegroundColor::Red,
            0x5 => ForegroundColor::Magenta,
            0x6 => ForegroundColor::Brown,
            0x7 => ForegroundColor::LightGray,
            0x8 => ForegroundColor::DarkGray,
            0x9 => ForegroundColor::LightBlue,
            0xa => ForegroundColor::LightGreen,
            0xb => ForegroundColor::LightCyan,
            0xc => ForegroundColor::LightRed,
            0xd => ForegroundColor::Pink,
            0xe => ForegroundColor::Yellow,
            _ => ForegroundColor::White,
        }
    }
}

impl BackgroundColor {
    /// The color's number: bits 4 to 6 of a color code.
    pub open spec fn spec_value(self) -> u8 {
        match self {
            BackgroundColor::Black => 0x00,
            BackgroundColor::Blue => 0x10,
            BackgroundColor::Green => 0x20,
            BackgroundColor::Cyan => 0x30,
            BackgroundColor::Red => 0x40,
            BackgroundColor::Magenta => 0x50,
            BackgroundColor::Brown => 0x60,
            BackgroundColor::LightGray => 0x70,
        }
    }

    /// The color's number.
    pub fn value(self) -> (r: u8)
        ensures
            r == self.spec_value(),
    {
        match self {
            BackgroundColor::Black => 0x00,
            BackgroundColor::Blue => 0x10,
            BackgroundColor::Green => 0x20,
            BackgroundColor::Cyan => 0x30,
            BackgroundColor::Red => 0x40,
            BackgroundColor::Magenta => 0x50,
            BackgroundColor::Brown => 0x60,
            BackgroundColor::LightGray => 0x70,
        }
    }

    /// The color of number `v`, which has only bits 4 to 6.
    pub open spec fn spec_from_value(v: u8) -> Self {
        if v == 0x00 {
            BackgroundColor::Black
        } else if v == 0x10 {
            BackgroundColor::Blue
        } else if v == 0x20 {
            BackgroundColor::Green
        } else if v == 0x30 {
            BackgroundColor::Cyan
        } else if v == 0x40 {
            BackgroundColor::Red
        } else if v == 0x50 {
            BackgroundColor::Magenta
        } else if v == 0x60 {
            BackgroundColor::Brown
        } else {
            BackgroundColor::LightGray
        }
    }

    /// The color of number `v`, which has only bits 4 to 6.
    fn from_value(v: u8) -> (r: Self)
        requires
            v & 0x8f == 0,
        ensures
            r.spec_value() == v,
            r == Self::spec_from_value(v),
    {
        assert(v & 0x8f == 0 ==> v == 0x00 || v == 0x10 || v == 0x20 || v == 0x30 || v == 0x40
            || v == 0x50 || v == 0x60 || v == 0x70) by (bit_vector);
        match v {
            0x00 => BackgroundColor::Black,
            0x10 => BackgroundColor::Blue,
            0x20 => BackgroundColor::Green,
            0x30 => BackgroundColor::Cyan,
            0x40 => BackgroundColor::Red,
            0x50 => BackgroundColor::Magenta,
            0x60 => BackgroundColor::Brown,
            _ => BackgroundColor::LightGray,
        }
    }
}

/// A color code: foreground in bits 0 to 3, background in bits 4 to 6,
/// blinking in bit 7.
#[derive(Debug, Clone, Copy, PartialEq, Eq)]
pub struct ColorCode(u8);

impl View for ColorCode {
    type V = u8;

    closed spec fn view(&self) -> u8 {
        self.0
    }
}

/// The code of `foreground` on `background`.
pub open spec fn color_value(foreground: ForegroundColor, background: BackgroundColor) -> u8 {
    foreground.spec_value() | background.spec_value()
}

impl ColorCode {
    /// The color code of value `v`.
    pub closed spec fn of(v: u8) -> ColorCode {
        ColorCode(v)
    }

    pub fn new(foreground: ForegroundColor, background: BackgroundColor) -> (r: ColorCode)
        ensures
            r@ == color_value(foreground, background),
    {
        ColorCode(foreground.value() | background.value())
    }

    /// The code's byte, as the screen holds it.
    pub fn value(&self) -> (r: u8)
        ensures
            r == self@,
    {
        self.0
    }

    /// The code of `foreground` on `background`, blinking.
    pub fn blinking(foreground: ForegroundColor, background: BackgroundColor) -> (r: ColorCode)
        ensures
            r@ == color_value(foreground, background) | 0x80,
    {
        ColorCode(foreground.value() | background.value() | 0x80)
    }

    /// The background color: bits 4 to 6.
    pub fn background(&self) -> (r: BackgroundColor)
        ensures
            r.spec_value() == self@ & 0x70,
            r == background_of(*self),
    {
        let code = self.0;
        let background = code & 0b0111_0000;
        assert(background & 0x8f == 0) by (bit_vector)
            requires
                background == code & 0x70,
        ;
        BackgroundColor::from_value(background)
    }

    /// The foreground color: bits 0 to 3.
    pub fn foreground(&self) -> (r: ForegroundColor)
        ensures
            r.spec_value() == self@ & 0x0f,
            r == foreground_of(*self),
    {
        let code = self.0;
        let foreground = code & 0b0000_1111;
        assert(foreground < 16) by (bit_vector)
            requires
                foreground == code & 0x0f,
        ;
        ForegroundColor::from_value(foreground)
    }
}

/// The colors a code is made of are the ones it gives back, blinking or not.
pub proof fn lemma_color_code_parts(foreground: ForegroundColor, background: BackgroundColor)
    ensures
        color_value(foreground, background) & 0x0f == foreground.spec_value(),
        color_value(foreground, background) & 0x70 == background.spec_value(),
        (color_value(foreground, background) | 0x80) & 0x0f == foreground.spec_value(),
        (color_value(foreground, background) | 0x80) & 0x70 == background.spec_value(),
{
    let f = foreground.spec_value();
    let b = background.spec_value();
    assert(f < 16 && b & 0x8f == 0 ==> (f | b) & 0x0f == f && (f | b) & 0x70 == b && ((f | b)
        | 0x80) & 0x0f == f && ((f | b) | 0x80) & 0x70 == b) by (bit_vector);
    assert(b & 0x8f == 0) by {
        assert(0x00u8 & 0x8f == 0 && 0x10u8 & 0x8f == 0 && 0x20u8 & 0x8f == 0 && 0x30u8 & 0x8f
            == 0 && 0x40u8 & 0x8f == 0 && 0x50u8 & 0x8f == 0 && 0x60u8 & 0x8f == 0 && 0x70u8
            & 0x8f == 0) by (bit_vector);
    }
}

/// A character on the screen with its color code.
#[derive(Debug, Clone, Copy, PartialEq, Eq)]
pub struct ScreenChar {
    pub ascii_character: u8,
    pub color_code: ColorCode,
}

pub const BUFFER_HEIGHT: usize = 25;

pub const BUFFER_WIDTH: usize = 80;

/// The number of characters on the screen.
pub const BUFFER_CELLS: usize = 2000;

/// The position of row `row`, column `col` in the screen, row after row.
pub open spec fn cell(row: int, col: int) -> int {
    80 * row + col
}

/// A space in white on `background`.
pub open spec fn blank(background: BackgroundColor) -> ScreenChar {
    ScreenChar {
        ascii_character: 0x20,
        color_code: ColorCode::of(color_value(ForegroundColor::White, background)),
    }
}

/// The background color of a color code: bits 4 to 6.
pub open spec fn background_of(code: ColorCode) -> BackgroundColor {
    BackgroundColor::spec_from_value(code@ & 0x70)
}

/// The foreground color of a color code: bits 0 to 3.
pub open spec fn foreground_of(code: ColorCode) -> ForegroundColor {
    ForegroundColor::spec_from_value(code@ & 0x0f)
}

/// The screen `s` scrolled up one row, the last row blank on `background`.
pub open spec fn scrolled(s: Seq<ScreenChar>, background: BackgroundColor) -> Seq<ScreenChar> {
    Seq::new(
        BUFFER_CELLS as nat,
        |i: int|
            if i < cell(BUFFER_HEIGHT - 1, 0) {
                s[i + BUFFER_WIDTH]
            } else {
                blank(background)
            },
    )
}

/// The screen's characters, row after row.
struct Buffer {
    cells: Vec<ScreenChar>,
}

impl Buffer {
    fn write(&mut self, row: usize, col: usize, character: ScreenChar)
        requires
            row < BUFFER_HEIGHT,
            col < BUFFER_WIDTH,
            old(self).cells@.len() == BUFFER_CELLS,
        ensures
            final(self).cells@ == old(self).cells@.update(cell(row as int, col as int), character),
    {
        self.cells.set(80 * row + col, character);
    }

    fn read(&self, row: usize, col: usize) -> (r: ScreenChar)
        requires
            row < BUFFER_HEIGHT,
            col < BUFFER_WIDTH,
            self.cells@.len() == BUFFER_CELLS,
        ensures
            r == self.cells@[cell(row as int, col as int)],
    {
        self.cells[80 * row + col]
    }

    fn clear_row(&mut self, row: usize, clear_color: BackgroundColor)
        requires
            row < BUFFER_HEIGHT,
            old(self).cells@.len() == BUFFER_CELLS,
        ensures
            final(self).cells@.len() == BUFFER_CELLS,
            forall|i: int|
                0 <= i < BUFFER_CELLS ==> #[trigger] final(self).cells@[i] == if cell(row as int, 0)
                    <= i < cell(row + 1, 0) {
                    blank(clear_color)
                } else {
                    old(self).cells@[i]
                },
    {
        let blank_char = ScreenChar {
            ascii_character: 0x20,
            color_code: ColorCode::new(ForegroundColor::White, clear_color),
        };
        let mut col: usize = 0;
        while col < BUFFER_WIDTH
            invariant
                row < BUFFER_HEIGHT,
                col <= BUFFER_WIDTH,
                blank_char == blank(clear_color),
                self.cells@.len() == BUFFER_CELLS,
                forall|i: int|
                    0 <= i < BUFFER_CELLS ==> #[trigger] self.cells@[i] == if cell(row as int, 0)
                        <= i < cell(row as int, col as int) {
                        blank(clear_color)
                    } else {
                        old(self).cells@[i]
                    },
            decreases BUFFER_WIDTH - col,
        {
            self.write(row, col, blank_char);
            col = col + 1;
        }
    }

    fn clear(&mut self, clear_color: BackgroundColor)
        requires
            old(self).cells@.len() == BUFFER_CELLS,
        ensures
            final(self).cells@ == Seq::new(BUFFER_CELLS as nat, |i: int| blank(clear_color)),
    {
        let mut row: usize = 0;
        while row < BUFFER_HEIGHT
            invariant
                row <= BUFFER_HEIGHT,
                self.cells@.len() == BUFFER_CELLS,
                forall|i: int|
                    0 <= i < BUFFER_CELLS ==> #[trigger] self.cells@[i] == if i < cell(
                        row as int,
                        0,
                    ) {
                        blank(clear_color)
                    } else {
                        old(self).cells@[i]
                    },
            decreases BUFFER_HEIGHT - row,
        {
            self.clear_row(row, clear_color);
            row = row + 1;
        }
        assert(self.cells@ =~= Seq::new(BUFFER_CELLS as nat, |i: int| blank(clear_color)));
    }
}

/// What the terminal shows: the column of the next character on the last
/// row, the color code it is written in, and the screen.
pub struct Writer {
    column_position: usize,
    color_code: ColorCode,
    buffer: Buffer,
}

/// The terminal after writing byte `b`: a new line for `\n`; any other byte
/// goes on the last row at the current column, after a new line when the
/// row is full.
pub open spec fn write_byte_spec(w: (int, ColorCode, Seq<ScreenChar>), b: u8) -> (
    int,
    ColorCode,
    Seq<ScreenChar>,
) {
    let (col, code, screen) = w;
    if b == 0x0a {
        (0, code, scrolled(screen, background_of(code)))
    } else {
        let (col, screen) = if col >= BUFFER_WIDTH {
            (0, scrolled(screen, background_of(code)))
        } else {
            (col, screen)
        };
        (
            col + 1,
            code,
            screen.update(
                cell(BUFFER_HEIGHT - 1, col),
                ScreenChar { ascii_character: b, color_code: code },
            ),
        )
    }
}

/// The byte the terminal shows for `b`: printable ASCII and `\n` as they
/// are, anything else as a square (0xfe).
pub open spec fn shown(b: u8) -> u8 {
    if (0x20 <= b && b <= 0x7e) || b == 0x0a {
        b
    } else {
        0xfe
    }
}

/// The terminal after writing the bytes `bytes`, each as it is shown.
pub open spec fn write_bytes_spec(w: (int, ColorCode, Seq<ScreenChar>), bytes: Seq<u8>) -> (
    int,
    ColorCode,
    Seq<ScreenChar>,
)
    decreases bytes.len(),
{
    if bytes.len() == 0 {
        w
    } else {
        write_byte_spec(write_bytes_spec(w, bytes.drop_last()), shown(bytes.last()))
    }
}

impl View for Writer {
    type V = (int, ColorCode, Seq<ScreenChar>);

    closed spec fn view(&self) -> (int, ColorCode, Seq<ScreenChar>) {
        (self.column_position as int, self.color_code, self.buffer.cells@)
    }
}

impl Writer {
    /// The screen has all its characters and the column never passes the
    /// row's end.
    pub closed spec fn wf(&self) -> bool {
        &&& self.buffer.cells@.len() == BUFFER_CELLS
        &&& self.column_position <= BUFFER_WIDTH
    }

    /// A well-formed writer's column lies within a row, and its screen has
    /// every cell.
    pub proof fn lemma_wf(&self)
        requires
            self.wf(),
        ensures
            0 <= self@.0 <= BUFFER_WIDTH,
            self@.2.len() == BUFFER_CELLS,
    {
    }

    /// A writer at column 0 in white on black, over a blank screen.
    pub fn vga() -> (r: Writer)
        ensures
            r.wf(),
            r@.0 == 0,
            r@.1@ == color_value(ForegroundColor::White, BackgroundColor::Black),
            r@.2 == Seq::new(BUFFER_CELLS as nat, |i: int| blank(BackgroundColor::Black)),
    {
        let initial = ScreenChar {
            ascii_character: 0x20,
            color_code: ColorCode::new(ForegroundColor::White, BackgroundColor::Black),
        };
        let cells = vec![initial; BUFFER_CELLS];
        let r = Writer {
            column_position: 0,
            color_code: ColorCode::new(ForegroundColor::White, BackgroundColor::Black),
            buffer: Buffer { cells },
        };
        assert(r@.2 =~= Seq::new(BUFFER_CELLS as nat, |i: int| blank(BackgroundColor::Black)));
        r
    }

    /// The screen's character at row `row`, column `col`.
    pub fn read(&self, row: usize, col: usize) -> (r: ScreenChar)
        requires
            self.wf(),
            row < BUFFER_HEIGHT,
            col < BUFFER_WIDTH,
        ensures
            r == self@.2[cell(row as int, col as int)],
    {
        self.buffer.read(row, col)
    }

    /// Scrolls the screen up one row, blanks the last row in the current
    /// background and goes back to column 0.
    pub fn new_line(&mut self)
        requires
            old(self).wf(),
        ensures
            final(self).wf(),
            final(self)@ == (0int, old(self)@.1, scrolled(old(self)@.2, background_of(old(self)@.1))),
    {
        let mut buffer = Buffer { cells: Vec::new() };
        std::mem::swap(&mut buffer, &mut self.buffer);
        let ghost s = buffer.cells@;
        let mut row: usize = 1;
        while row < BUFFER_HEIGHT
            invariant
                1 <= row <= BUFFER_HEIGHT,
                s.len() == BUFFER_CELLS,
                buffer.cells@.len() == BUFFER_CELLS,
                forall|i: int|
                    0 <= i < BUFFER_CELLS ==> #[trigger] buffer.cells@[i] == if i < cell(
                        row - 1,
                        0,
                    ) {
                        s[i + BUFFER_WIDTH]
                    } else {
                        s[i]
                    },
            decreases BUFFER_HEIGHT - row,
        {
            let mut col: usize = 0;
            while col < BUFFER_WIDTH
                invariant
                    1 <= row < BUFFER_HEIGHT,
                    col <= BUFFER_WIDTH,
                    s.len() == BUFFER_CELLS,
                    buffer.cells@.len() == BUFFER_CELLS,
                    forall|i: int|
                        0 <= i < BUFFER_CELLS ==> #[trigger] buffer.cells@[i] == if i < cell(
                            row - 1,
                            col as int,
                        ) {
                            s[i + BUFFER_WIDTH]
                        } else {
                            s[i]
                        },
                decreases BUFFER_WIDTH - col,
            {
                let character = buffer.read(row, col);
                buffer.write(row - 1, col, character);
                col = col + 1;
            }
            row = row + 1;
        }
        let background = self.color_code.background();
        buffer.clear_row(BUFFER_HEIGHT - 1, background);
        proof {
            assert(background == background_of(self.color_code));
            assert(buffer.cells@ =~= scrolled(s, background));
        }
        self.buffer = buffer;
        self.column_position = 0;
    }

    /// Blanks the whole screen in the current background and goes back to
    /// column 0.
    pub fn clear(&mut self)
        requires
            old(self).wf(),
        ensures
            final(self).wf(),
            final(self)@ == (0int, old(self)@.1, Seq::new(
                BUFFER_CELLS as nat,
                |i: int| blank(background_of(old(self)@.1)),
            )),
    {
        let background = self.color_code.background();
        self.buffer.clear(background);
        self.column_position = 0;
    }

    /// Writes white on `color` from now on and blanks the whole screen in
    /// `color`.
    pub fn fill(&mut self, color: BackgroundColor)
        requires
            old(self).wf(),
        ensures
            final(self).wf(),
            final(self)@ == (0int, ColorCode::of(color_value(ForegroundColor::White, color)), Seq::new(
                BUFFER_CELLS as nat,
                |i: int| blank(color),
            )),
    {
        self.color_code = ColorCode::new(ForegroundColor::White, color);
        let mut buffer = Buffer { cells: Vec::new() };
        std::mem::swap(&mut buffer, &mut self.buffer);
        let ghost s = buffer.cells@;
        let mut row: usize = 0;
        while row < BUFFER_HEIGHT
            invariant
                row <= BUFFER_HEIGHT,
                s.len() == BUFFER_CELLS,
                buffer.cells@.len() == BUFFER_CELLS,
                forall|i: int|
                    0 <= i < BUFFER_CELLS ==> #[trigger] buffer.cells@[i] == if i < cell(
                        row as int,
                        0,
                    ) {
                        blank(color)
                    } else {
                        s[i]
                    },
            decreases BUFFER_HEIGHT - row,
        {
            let mut col: usize = 0;
            while col < BUFFER_WIDTH
                invariant
                    row < BUFFER_HEIGHT,
                    col <= BUFFER_WIDTH,
                    s.len() == BUFFER_CELLS,
                    buffer.cells@.len() == BUFFER_CELLS,
                    forall|i: int|
                        0 <= i < BUFFER_CELLS ==> #[trigger] buffer.cells@[i] == if i < cell(
                            row as int,
                            col as int,
                        ) {
                            blank(color)
                        } else {
                            s[i]
                        },
                decreases BUFFER_WIDTH - col,
            {
                buffer.write(
                    row,
                    col,
                    ScreenChar {
                        ascii_character: 0x20,
                        color_code: ColorCode::new(ForegroundColor::White, color),
                    },
                );
                col = col + 1;
            }
            row = row + 1;
        }
        assert(buffer.cells@ =~= Seq::new(BUFFER_CELLS as nat, |i: int| blank(color)));
        self.buffer = buffer;
        self.column_position = 0;
    }

    /// Writes `byte`: `\n` starts a new line; any other byte goes on the last
    /// row at the current column, after a new line when the row is full.
    pub fn write_byte(&mut self, byte: u8)
        requires
            old(self).wf(),
        ensures
            final(self).wf(),
            final(self)@ == write_byte_spec(old(self)@, byte),
    {
        match byte {
            0x0a => self.new_line(),
            byte => {
                if self.column_position >= BUFFER_WIDTH {
                    self.new_line();
                }
                let row = BUFFER_HEIGHT - 1;
                let col = self.column_position;
                self.buffer.write(
                    row,
                    col,
                    ScreenChar { ascii_character: byte, color_code: self.color_code },
                );
                self.column_position = self.column_position + 1;
            },
        }
    }

    /// Writes the bytes of `s`, printable ASCII and `\n` as they are and any
    /// other byte as a square (0xfe).
    pub fn write_string(&mut self, s: &str)
        requires
            old(self).wf(),
        ensures
            final(self).wf(),
            final(self)@ == write_bytes_spec(old(self)@, s.spec_bytes()),
    {
        let bytes = s.as_bytes();
        let mut i: usize = 0;
        while i < bytes.len()
            invariant
                bytes@ == s.spec_bytes(),
                i <= bytes@.len(),
                self.wf(),
                self@ == write_bytes_spec(old(self)@, bytes@.subrange(0, i as int)),
            decreases bytes@.len() - i,
        {
            let byte = bytes[i];
            if (0x20 <= byte && byte <= 0x7e) || byte == 0x0a {
                self.write_byte(byte);
            } else {
                self.write_byte(0xfe);
            }
            proof {
                assert(bytes@.subrange(0, i + 1).drop_last() =~= bytes@.subrange(0, i as int));
            }
            i = i + 1;
        }
        proof {
            assert(bytes@.subrange(0, bytes@.len() as int) =~= bytes@);
        }
    }

    /// Steps back one column and blanks that character in the current color;
    /// does nothing at column 0.
    pub fn erase(&mut self)
        requires
            old(self).wf(),
        ensures
            final(self).wf(),
            old(self)@.0 == 0 ==> final(self)@ == old(self)@,
            old(self)@.0 > 0 ==> final(self)@ == (
                old(self)@.0 - 1,
                old(self)@.1,
                old(self)@.2.update(
                    cell(BUFFER_HEIGHT - 1, old(self)@.0 - 1),
                    ScreenChar { ascii_character: 0x20, color_code: old(self)@.1 },
                ),
            ),
    {
        if self.column_position == 0 {
            return;
        }
        self.column_position = self.column_position - 1;
        let row = BUFFER_HEIGHT - 1;
        let col = self.column_position;
        self.buffer.write(row, col, ScreenChar { ascii_character: 0x20, color_code: self.color_code });
    }
}

/// The terminal `after` is `before` after writing `bytes` in `foreground` on
/// the current background and going back to the previous foreground on that
/// background.
pub open spec fn printed(
    before: (int, ColorCode, Seq<ScreenChar>),
    after: (int, ColorCode, Seq<ScreenChar>),
    bytes: Seq<u8>,
    foreground: ForegroundColor,
) -> bool {
    let (col, code, screen) = before;
    let printing = ColorCode::of(color_value(foreground, background_of(code)));
    let written = write_bytes_spec((col, printing, screen), bytes);
    after == (
        written.0,
        ColorCode::of(color_value(foreground_of(code), background_of(code))),
        written.2,
    )
}

/// Writes `s` in `foreground` on the current background, then goes back to
/// the previous foreground on the current background.
pub fn _print(writer: &mut Writer, s: &str, foreground: ForegroundColor)
    requires
        old(writer).wf(),
    ensures
        final(writer).wf(),
        printed(old(writer)@, final(writer)@, s.spec_bytes(), foreground),
{
    let ghost code = writer.color_code;
    let old_color = writer.color_code.foreground();
    let background = writer.color_code.background();
    writer.color_code = ColorCode::new(foreground, background);
    let ghost printing = writer.color_code;
    proof {
        lemma_color_code_parts(foreground, background);
        assert(printing == ColorCode::of(color_value(foreground, background_of(code))));
        assert(background_of(printing) == background);
    }
    let ghost before = writer@;
    writer.write_string(s);
    proof {
        lemma_write_bytes_keeps_color(before, s.spec_bytes());
        assert(writer.color_code == printing);
    }
    writer.color_code = ColorCode::new(old_color, writer.color_code.background());
    proof {
        assert(writer.color_code == ColorCode::of(color_value(foreground_of(code), background_of(code))));
    }
}

/// Writing keeps the color code.
pub proof fn lemma_write_bytes_keeps_color(w: (int, ColorCode, Seq<ScreenChar>), bytes: Seq<u8>)
    ensures
        write_bytes_spec(w, bytes).1 == w.1,
    decreases bytes.len(),
{
    if bytes.len() > 0 {
        lemma_write_bytes_keeps_color(w, bytes.drop_last());
    }
}

/// Writing `a` then `b` is writing `a + b`.
pub proof fn lemma_write_bytes_append(
    w: (int, ColorCode, Seq<ScreenChar>),
    a: Seq<u8>,
    b: Seq<u8>,
)
    ensures
        write_bytes_spec(w, a + b) == write_bytes_spec(write_bytes_spec(w, a), b),
    decreases b.len(),
{
    if b.len() == 0 {
        assert(a + b =~= a);
    } else {
        lemma_write_bytes_append(w, a, b.drop_last());
        assert((a + b).drop_last() =~= a + b.drop_last());
        assert((a + b).last() == b.last());
    }
}

/// A byte that shows as itself and moves one column on.
pub open spec fn plain(b: u8) -> bool {
    0x20 <= b && b <= 0x7e
}

/// Writing a line of at most 80 plain bytes from column 0 puts them on the
/// last row from column 0 on and leaves the column after them; the rows
/// above stay.
pub proof fn lemma_write_line(w: (int, ColorCode, Seq<ScreenChar>), line: Seq<u8>)
    requires
        w.0 == 0,
        w.2.len() == BUFFER_CELLS,
        line.len() <= BUFFER_WIDTH,
        forall|j: int| 0 <= j < line.len() ==> plain(#[trigger] line[j]),
    ensures
        write_bytes_spec(w, line).0 == line.len(),
        write_bytes_spec(w, line).1 == w.1,
        write_bytes_spec(w, line).2.len() == BUFFER_CELLS,
        forall|j: int|
            0 <= j < line.len() ==> #[trigger] write_bytes_spec(w, line).2[cell(
                BUFFER_HEIGHT - 1,
                j,
            )] == (ScreenChar { ascii_character: line[j], color_code: w.1 }),
        forall|i: int| 0 <= i < cell(BUFFER_HEIGHT - 1, 0) ==> #[trigger] write_bytes_spec(w, line).2[i]
            == w.2[i],
    decreases line.len(),
{
    if line.len() > 0 {
        let prefix = line.drop_last();
        assert forall|j: int| 0 <= j < prefix.len() implies plain(#[trigger] prefix[j]) by {
            assert(prefix[j] == line[j]);
        }
        lemma_write_line(w, prefix);
    }
}

/// A line of at most 80 plain bytes written between two new lines ends up
/// on the second to last row, from column 0 on.
pub proof fn lemma_printed_line_shows(w: (int, ColorCode, Seq<ScreenChar>), line: Seq<u8>)
    requires
        0 <= w.0 <= BUFFER_WIDTH,
        w.2.len() == BUFFER_CELLS,
        line.len() <= BUFFER_WIDTH,
        forall|j: int| 0 <= j < line.len() ==> plain(#[trigger] line[j]),
    ensures
        forall|j: int|
            0 <= j < line.len() ==> #[trigger] write_bytes_spec(
                w,
                seq![0x0au8] + line + seq![0x0au8],
            ).2[cell(BUFFER_HEIGHT - 2, j)].ascii_character == line[j],
{
    let first = write_bytes_spec(w, seq![0x0au8]);
    assert(seq![0x0au8].drop_last() =~= Seq::<u8>::empty());
    assert(first == write_byte_spec(w, 0x0a)) by {
        reveal_with_fuel(write_bytes_spec, 2);
    }
    lemma_write_line(first, line);
    lemma_write_bytes_append(w, seq![0x0au8], line);
    let second = write_bytes_spec(first, line);
    lemma_write_bytes_append(w, seq![0x0au8] + line, seq![0x0au8]);
    assert(write_bytes_spec(second, seq![0x0au8]) == write_byte_spec(second, 0x0a)) by {
        reveal_with_fuel(write_bytes_spec, 2);
    }
    assert forall|j: int| 0 <= j < line.len() implies #[trigger] write_bytes_spec(
        w,
        seq![0x0au8] + line + seq![0x0au8],
    ).2[cell(BUFFER_HEIGHT - 2, j)].ascii_character == line[j] by {
        assert(second.2[cell(BUFFER_HEIGHT - 1, j)] == (ScreenChar {
            ascii_character: line[j],
            color_code: first.1,
        }));
    }
}

/// Erasing right after writing a plain byte on a row that is not full goes
/// back to the same column and leaves a space in the current color there.
pub proof fn lemma_erase_after_write(w: (int, ColorCode, Seq<ScreenChar>), b: u8)
    requires
        0 <= w.0 < BUFFER_WIDTH,
        w.2.len() == BUFFER_CELLS,
        plain(b),
    ensures
        ({
            let after = write_byte_spec(w, b);
            let erased = (
                after.0 - 1,
                after.1,
                after.2.update(
                    cell(BUFFER_HEIGHT - 1, after.0 - 1),
                    ScreenChar { ascii_character: 0x20, color_code: after.1 },
                ),
            );
            erased == (
                w.0,
                w.1,
                w.2.update(
                    cell(BUFFER_HEIGHT - 1, w.0),
                    ScreenChar { ascii_character: 0x20, color_code: w.1 },
                ),
            )
        }),
{
    let after = write_byte_spec(w, b);
    assert(after.2.update(
        cell(BUFFER_HEIGHT - 1, after.0 - 1),
        ScreenChar { ascii_character: 0x20, color_code: after.1 },
    ) =~= w.2.update(
        cell(BUFFER_HEIGHT - 1, w.0),
        ScreenChar { ascii_character: 0x20, color_code: w.1 },
    ));
}

} // verus!
