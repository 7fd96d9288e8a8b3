use vstd::prelude::*;
use vstd::string::StringSliceAdditionalSpecFns;

verus! {

/// The number of columns of the text screen.
pub const VGA_WIDTH: usize = 80;
/// The number of lines of the text screen.
pub const VGA_HEIGHT: usize = 25;
/// The number of characters of the text screen.
pub const VGA_SIZE: usize = 2000;

/// A character of the text screen, with its color code.
#[derive(Debug, Clone, Copy, PartialEq, Eq, Structural)]
pub struct VgaChar {
    /// The character.
    pub ascii_char: u8,
    /// The color code: background in the high nibble, foreground in the low one.
    pub color_code: u8,
}

/// The colors of the text screen.
#[derive(Debug, Clone, Copy, PartialEq, Eq, Structural)]
pub enum Color {
    /// Black (0).
    Blk,
    /// Blue (1).
    Blu,
    /// Green (2).
    Grn,
    /// Cyan (3).
    Cyn,
    /// Red (4).
    Red,
    /// Purple (5).
    Prp,
    /// Brown (6).
    Brn,
    /// Gray (7).
    Gry,
    /// Dark gray (8).
    Dgy,
    /// Light blue (9).
    Lbu,
    /// Light green (10).
    Lgr,
    /// Light cyan (11).
    Lcy,
    /// Light red (12).
    Lrd,
    /// Light purple (13).
    Lpp,
    /// Yellow (14).
    Yel,
    /// White (15).
    Wht,
}

/// The number of a color.
pub open spec fn color_code_of(c: Color) -> u8 {
    match c {
        Color::Blk => 0,
        Color::Blu => 1,
        Color::Grn => 2,
        Color::Cyn => 3,
        Color::Red => 4,
        Color::Prp => 5,
        Color::Brn => 6,
        Color::Gry => 7,
        Color::Dgy => 8,
        Color::Lbu => 9,
        Color::Lgr => 10,
        Color::Lcy => 11,
        Color::Lrd => 12,
        Color::Lpp => 13,
        Color::Yel => 14,
        Color::Wht => 15,
    }
}

impl Color {
    /// The number of the color.
    pub fn code(&self) -> (n: u8)
        ensures
            n == color_code_of(*self),
    {
        match self {
            Color::Blk => 0,
            Color::Blu => 1,
            Color::Grn => 2,
            Color::Cyn => 3,
            Color::Red => 4,
            Color::Prp => 5,
            Color::Brn => 6,
            Color::Gry => 7,
            Color::Dgy => 8,
            Color::Lbu => 9,
            Color::Lgr => 10,
            Color::Lcy => 11,
            Color::Lrd => 12,
            Color::Lpp => 13,
            Color::Yel => 14,
            Color::Wht => 15,
        }
    }
}

/// The palette: the colors in the order Blk, Blu, Grn, Cyn, Red, Prp, Brn,
/// Gry, Dgy, Lbu, Lgr, Lcy, Lrd, Lpp, Yel, Wht have the numbers 0 to 15, so
/// no two colors share a number; and the color code that a foreground
/// `fg` on a background `bg` make is 16 times the number of `bg` plus the
/// number of `fg`.
pub proof fn lemma_palette(i: int, j: int, fg: Color, bg: Color)
    requires
        0 <= i < 16,
        0 <= j < 16,
    ensures
        color_code_of(palette()[i]) == i,
        i != j ==> palette()[i] != palette()[j],
        (color_code_of(bg) << 4u8) | color_code_of(fg) == 16 * color_code_of(bg) + color_code_of(fg),
{
    let p = palette();
    assert(p[0] == Color::Blk && p[1] == Color::Blu && p[2] == Color::Grn && p[3] == Color::Cyn
        && p[4] == Color::Red && p[5] == Color::Prp && p[6] == Color::Brn && p[7] == Color::Gry
        && p[8] == Color::Dgy && p[9] == Color::Lbu && p[10] == Color::Lgr && p[11] == Color::Lcy
        && p[12] == Color::Lrd && p[13] == Color::Lpp && p[14] == Color::Yel && p[15] == Color::Wht);
    let b = color_code_of(bg);
    let f = color_code_of(fg);
    assert((b << 4u8) | f == 16 * b + f) by (bit_vector)
        requires
            b < 16,
            f < 16,
    ;
}

/// The colors in the order of their numbers.
pub open spec fn palette() -> Seq<Color> {
    seq![
        Color::Blk,
        Color::Blu,
        Color::Grn,
        Color::Cyn,
        Color::Red,
        Color::Prp,
        Color::Brn,
        Color::Gry,
        Color::Dgy,
        Color::Lbu,
        Color::Lgr,
        Color::Lcy,
        Color::Lrd,
        Color::Lpp,
        Color::Yel,
        Color::Wht,
    ]
}

/// The text screen as the writer sees it: the cursor, the color, and the
/// characters of the screen, line after line.
pub struct VgaView {
    /// The column of the cursor.
    pub x: int,
    /// The line of the cursor.
    pub y: int,
    /// The color code of what is written.
    pub color: u8,
    /// The characters of the screen.
    pub cells: Seq<VgaChar>,
}

/// The screen `v` scrolled when the cursor is below the last line: every
/// line moves up one, the last line is cleared in the current color, and
/// the cursor goes to the start of the last line.
pub open spec fn scrolled(v: VgaView) -> VgaView {
    if v.y < VGA_HEIGHT {
        v
    } else {
        VgaView {
            x: 0,
            y: VGA_HEIGHT - 1,
            cells: Seq::new(
                VGA_SIZE as nat,
                |i: int|
                    if i < VGA_SIZE - VGA_WIDTH {
                        v.cells[i + VGA_WIDTH]
                    } else {
                        VgaChar { ascii_char: 0x20, color_code: v.color }
                    },
            ),
            ..v
        }
    }
}

/// The screen `v` once `byte` is written: a new line moves to the start of
/// the next line, a carriage return to the start of the line, a tab 4
/// columns on; any other byte is put at the cursor in the current color and
/// the cursor moves one column on; a cursor moved past the end of its line
/// goes to the start of the next line; then the screen scrolls if needed.
pub open spec fn written(v: VgaView, byte: u8) -> VgaView {
    let w = if byte == 0x0A {
        VgaView { x: 0, y: v.y + 1, ..v }
    } else if byte == 0x0D {
        VgaView { x: 0, ..v }
    } else if byte == 0x09 {
        VgaView { x: v.x + 4, ..v }
    } else {
        VgaView {
            x: v.x + 1,
            cells: v.cells.update(v.y * VGA_WIDTH + v.x, VgaChar { ascii_char: byte, color_code: v.color }),
            ..v
        }
    };
    let wrapped = if w.x >= VGA_WIDTH { VgaView { x: 0, y: w.y + 1, ..w } } else { w };
    scrolled(wrapped)
}

/// Whether writing `byte` on the screen `v` stays within the screen and
/// the cursor's range.
pub open spec fn can_write(v: VgaView, byte: u8) -> bool {
    if byte == 0x0A || byte == 0x0D {
        true
    } else if byte == 0x09 {
        v.x + 4 <= usize::MAX
    } else {
        v.y * VGA_WIDTH + v.x < VGA_SIZE
    }
}

/// The screen `v` once the first `n` bytes of `bytes` are written, with
/// whether each write could be made.
pub open spec fn written_all(v: VgaView, bytes: Seq<u8>, n: nat) -> (VgaView, bool)
    decreases n,
{
    if n == 0 {
        (v, true)
    } else {
        let (w, ok) = written_all(v, bytes, (n - 1) as nat);
        (written(w, bytes[n - 1]), ok && can_write(w, bytes[n - 1]))
    }
}

/// The writer of the text screen: the cursor, the color, and the
/// characters of the screen.
pub struct VgaBufferWriter {
    /// The column of the cursor.
    pub cursor_x: usize,
    /// The line of the cursor.
    pub cursor_y: usize,
    /// The color code of what is written.
    pub color_code: u8,
    buffer: Vec<VgaChar>,
}

impl View for VgaBufferWriter {
    type V = VgaView;

    closed spec fn view(&self) -> VgaView {
        VgaView {
            x: self.cursor_x as int,
            y: self.cursor_y as int,
            color: self.color_code,
            cells: self.buffer@,
        }
    }
}

impl VgaBufferWriter {
    /// The screen holds 2000 characters and the cursor is on a line of it.
    pub closed spec fn wf(&self) -> bool {
        &&& self.buffer@.len() == VGA_SIZE
        &&& self.cursor_y < VGA_HEIGHT
    }

    /// A well-formed writer has a screen of [`VGA_SIZE`] cells and its
    /// cursor on one of the screen's lines.
    pub proof fn lemma_screen(&self)
        requires
            self.wf(),
        ensures
            self@.cells.len() == VGA_SIZE,
            0 <= self@.y < VGA_HEIGHT,
            0 <= self@.x,
    {
    }

    /// A writer at the top left of a blank screen, writing white on black.
    pub fn new() -> (w: Self)
        ensures
            w.wf(),
            w@.x == 0 && w@.y == 0,
            w@.color == 0x0F,
            w@.cells == Seq::new(VGA_SIZE as nat, |i: int| VgaChar { ascii_char: 0x20, color_code: 0x0F }),
    {
        let mut buffer: Vec<VgaChar> = Vec::new();
        let mut i: usize = 0;
        while i < VGA_SIZE
            invariant
                i <= VGA_SIZE,
                buffer@ == Seq::new(i as nat, |j: int| VgaChar { ascii_char: 0x20, color_code: 0x0F }),
            decreases VGA_SIZE - i,
        {
            buffer.push(VgaChar { ascii_char: 0x20, color_code: 0x0F });
            i = i + 1;
        }
        VgaBufferWriter { cursor_x: 0, cursor_y: 0, color_code: 0x0F, buffer }
    }

    /// The character at place `i` of the screen.
    pub fn char_at(&self, i: usize) -> (c: VgaChar)
        requires
            self.wf(),
            i < VGA_SIZE,
        ensures
            c == self@.cells[i as int],
    {
        self.buffer[i]
    }

    /// Clears the screen with spaces in the current color and moves the
    /// cursor to the top left.
    pub fn clear_screen(&mut self)
        requires
            old(self).wf(),
        ensures
            final(self).wf(),
            final(self)@ == (VgaView {
                x: 0,
                y: 0,
                cells: Seq::new(
                    VGA_SIZE as nat,
                    |i: int| VgaChar { ascii_char: 0x20, color_code: old(self)@.color },
                ),
                ..old(self)@
            }),
    {
        let clear_char = VgaChar { ascii_char: 0x20, color_code: self.color_code };
        let mut i: usize = 0;
        while i < VGA_SIZE
            invariant
                i <= VGA_SIZE,
                self.buffer@.len() == VGA_SIZE,
                self.color_code == old(self).color_code,
                self.cursor_y == old(self).cursor_y,
                self.cursor_x == old(self).cursor_x,
                clear_char == (VgaChar { ascii_char: 0x20, color_code: old(self)@.color }),
                forall|j: int| 0 <= j < i ==> #[trigger] self.buffer@[j] == clear_char,
            decreases VGA_SIZE - i,
        {
            self.buffer.set(i, clear_char);
            i = i + 1;
        }
        self.move_cursor(0, 0);
        assert(self.buffer@ =~= Seq::new(
            VGA_SIZE as nat,
            |i: int| VgaChar { ascii_char: 0x20, color_code: old(self)@.color },
        ));
    }

    /// Writes `byte` at the cursor (see [`written`]).
    pub fn write_byte(&mut self, byte: u8)
        requires
            old(self).wf(),
            can_write(old(self)@, byte),
        ensures
            final(self).wf(),
            final(self)@ == written(old(self)@, byte),
    {
        if byte == 0x0A {
            self.cursor_x = 0;
            self.cursor_y += 1;
        } else if byte == 0x0D {
            self.cursor_x = 0;
        } else if byte == 0x09 {
            self.cursor_x += 4;
        } else {
            let position = self.cursor_y * VGA_WIDTH + self.cursor_x;
            self.buffer.set(position, VgaChar { ascii_char: byte, color_code: self.color_code });
            self.cursor_x += 1;
        }
        if self.cursor_x >= VGA_WIDTH {
            self.cursor_x = 0;
            self.cursor_y += 1;
        }
        self.scroll();
        let (x, y) = (self.cursor_x, self.cursor_y);
        self.move_cursor(x, y);
    }

    /// Writes the bytes of `s` one after the other (see [`written_all`]).
    pub fn write_str(&mut self, s: &str)
        requires
            old(self).wf(),
            written_all(old(self)@, s.spec_bytes(), s.spec_bytes().len()).1,
        ensures
            final(self).wf(),
            final(self)@ == written_all(old(self)@, s.spec_bytes(), s.spec_bytes().len()).0,
    {
        let bytes = s.as_bytes();
        let ghost v0 = self@;
        let mut i: usize = 0;
        proof {
            lemma_written_all_prefix(v0, bytes@, bytes@.len());
        }
        while i < bytes.len()
            invariant
                self.wf(),
                bytes@ == s.spec_bytes(),
                v0 == old(self)@,
                i <= bytes@.len(),
                self@ == written_all(v0, bytes@, i as nat).0,
                forall|k: nat| k <= bytes@.len() ==> #[trigger] written_all(v0, bytes@, k).1,
            decreases bytes@.len() - i,
        {
            assert(written_all(v0, bytes@, (i + 1) as nat).1);
            self.write_byte(bytes[i]);
            i = i + 1;
        }
    }

    /// Sets the color to `fg` on `bg`.
    pub fn set_color(&mut self, fg: Color, bg: Color)
        ensures
            final(self)@ == (VgaView { color: (color_code_of(bg) << 4u8) | color_code_of(fg), ..old(self)@ }),
            final(self).wf() == old(self).wf(),
    {
        self.color_code = (bg.code() << 4) | fg.code();
    }

    /// Scrolls the screen up one line when the cursor is below the last line.
    fn scroll(&mut self)
        requires
            old(self).buffer@.len() == VGA_SIZE,
        ensures
            final(self).wf(),
            final(self)@ == scrolled(old(self)@),
    {
        if self.cursor_y < VGA_HEIGHT {
            return;
        }
        let ghost old_cells = self.buffer@;
        let mut x: usize = 1;
        while x < VGA_HEIGHT
            invariant
                1 <= x <= VGA_HEIGHT,
                self.buffer@.len() == VGA_SIZE,
                old_cells.len() == VGA_SIZE,
                self.color_code == old(self).color_code,
                self.cursor_y == old(self).cursor_y,
                self.cursor_x == old(self).cursor_x,
                forall|i: int| 0 <= i < (x - 1) * VGA_WIDTH ==> #[trigger] self.buffer@[i] == old_cells[i + VGA_WIDTH],
                forall|i: int| (x - 1) * VGA_WIDTH <= i < VGA_SIZE ==> #[trigger] self.buffer@[i] == old_cells[i],
            decreases VGA_HEIGHT - x,
        {
            let mut y: usize = 0;
            while y < VGA_WIDTH
                invariant
                    1 <= x < VGA_HEIGHT,
                    y <= VGA_WIDTH,
                    self.buffer@.len() == VGA_SIZE,
                    old_cells.len() == VGA_SIZE,
                    self.color_code == old(self).color_code,
                    self.cursor_y == old(self).cursor_y,
                    self.cursor_x == old(self).cursor_x,
                    forall|i: int| 0 <= i < (x - 1) * VGA_WIDTH + y ==> #[trigger] self.buffer@[i] == old_cells[i + VGA_WIDTH],
                    forall|i: int| (x - 1) * VGA_WIDTH + y <= i < VGA_SIZE ==> #[trigger] self.buffer@[i] == old_cells[i],
                decreases VGA_WIDTH - y,
            {
                let to = y + (x - 1) * VGA_WIDTH;
                let from = y + x * VGA_WIDTH;
                let vga_char = self.buffer[from];
                self.buffer.set(to, vga_char);
                y = y + 1;
            }
            x = x + 1;
        }
        let yl = VGA_HEIGHT - 1;
        let color_code = self.color_code;
        let mut x: usize = 0;
        while x < VGA_WIDTH
            invariant
                x <= VGA_WIDTH,
                yl == VGA_HEIGHT - 1,
                self.buffer@.len() == VGA_SIZE,
                old_cells.len() == VGA_SIZE,
                color_code == old(self).color_code,
                self.color_code == old(self).color_code,
                self.cursor_y == old(self).cursor_y,
                self.cursor_x == old(self).cursor_x,
                forall|i: int| 0 <= i < VGA_SIZE - VGA_WIDTH ==> #[trigger] self.buffer@[i] == old_cells[i + VGA_WIDTH],
                forall|i: int|
                    VGA_SIZE - VGA_WIDTH <= i < VGA_SIZE - VGA_WIDTH + x ==> #[trigger] self.buffer@[i]
                        == (VgaChar { ascii_char: 0x20, color_code }),
            decreases VGA_WIDTH - x,
        {
            let pos = x + yl * VGA_WIDTH;
            self.buffer.set(pos, VgaChar { ascii_char: 0x20, color_code });
            x = x + 1;
        }
        self.move_cursor(0, yl);
        assert(self.buffer@ =~= scrolled(old(self)@).cells);
    }

    /// Moves the cursor to column `x` of line `y`.
    fn move_cursor(&mut self, x: usize, y: usize)
        ensures
            final(self).cursor_x == x,
            final(self).cursor_y == y,
            final(self).color_code == old(self).color_code,
            final(self).buffer@ == old(self).buffer@,
    {
        self.cursor_x = x;
        self.cursor_y = y;
    }

    /// The position of the cursor as the screen's cursor registers take it:
    /// line times 80 plus column, in 16 bits.
    pub fn cursor_position(&self) -> (p: u16)
        requires
            self@.x + VGA_WIDTH * self@.y <= usize::MAX,
        ensures
            p == (self@.x + VGA_WIDTH * self@.y) as u16,
    {
        (self.cursor_x + (VGA_WIDTH * self.cursor_y)) as u16
    }
}

proof fn lemma_written_all_prefix(v: VgaView, bytes: Seq<u8>, n: nat)
    ensures
        written_all(v, bytes, n).1 ==> forall|k: nat| k <= n ==> #[trigger] written_all(v, bytes, k).1,
    decreases n,
{
    if n > 0 {
        lemma_written_all_prefix(v, bytes, (n - 1) as nat);
    }
}

} // verus!
