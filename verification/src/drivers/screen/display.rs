use vstd::prelude::*;
use vstd::arithmetic::div_mod::{lemma_fundamental_div_mod, lemma_fundamental_div_mod_converse};
use crate::drivers::screen::framebuffer::Framebuffer;

verus! {

/// The text console drawn on a display: the cursor (column, line), the
/// colors, and the size in characters.
#[derive(Debug, Clone, Copy)]
pub struct Console {
    /// The column and line of the cursor.
    pub cursor: (usize, usize),
    /// The color of the characters.
    pub fg_color: u32,
    /// The color of the background.
    pub bg_color: u32,
    /// The width in characters.
    pub width: usize,
    /// The height in characters.
    pub height: usize,
}

/// A display: its framebuffer, the back buffer drawn into (its pixels,
/// line after line of `pixels_per_scanline` pixels), the glyphs of its font
/// (`char_size` bytes each, a byte per line of pixels, the leftmost pixel in
/// the top bit), and the console drawn on it.
pub struct Display {
    /// The framebuffer shown.
    pub framebuffer: Framebuffer,
    /// The geometry of the back buffer.
    pub backbuffer: Framebuffer,
    /// The pixels of the back buffer.
    pub pixels: Vec<u32>,
    /// The glyphs of the font.
    pub glyphs: Vec<u8>,
    /// The bytes of a glyph.
    pub char_size: u8,
    /// The console.
    pub console: Console,
    /// The width of a character in pixels.
    pub char_width: usize,
    /// The height of a character in pixels.
    pub char_height: usize,
}

/// The pixels of a display and its cursor.
pub struct DisplayView {
    /// The pixels of the back buffer.
    pub pixels: Seq<u32>,
    /// The column and line of the cursor.
    pub cursor: (int, int),
}

impl View for Display {
    type V = DisplayView;

    open spec fn view(&self) -> DisplayView {
        DisplayView {
            pixels: self.pixels@,
            cursor: (self.console.cursor.0 as int, self.console.cursor.1 as int),
        }
    }
}

/// What drawing on a display depends on: the font, the colors, the console's
/// size in characters, a character's size in pixels, and the back buffer's
/// pixels per line, width and height.
pub struct DisplaySetup {
    pub glyphs: Seq<u8>,
    pub char_size: int,
    pub fg: u32,
    pub bg: u32,
    pub columns: int,
    pub lines: int,
    pub cw: int,
    pub ch: int,
    pub pitch: int,
    pub w: int,
    pub h: int,
}

/// The setup of the display `d`.
pub open spec fn setup(d: Display) -> DisplaySetup {
    DisplaySetup {
        glyphs: d.glyphs@,
        char_size: d.char_size as int,
        fg: d.console.fg_color,
        bg: d.console.bg_color,
        columns: d.console.width as int,
        lines: d.console.height as int,
        cw: d.char_width as int,
        ch: d.char_height as int,
        pitch: d.backbuffer.pixels_per_scanline as int,
        w: d.backbuffer.width as int,
        h: d.backbuffer.height as int,
    }
}

/// Whether `a` and `b` differ at most in their pixels and cursor.
pub open spec fn same_setup(a: Display, b: Display) -> bool {
    &&& setup(a) == setup(b)
    &&& a.framebuffer == b.framebuffer
    &&& a.backbuffer == b.backbuffer
    &&& a.char_size == b.char_size
}

/// The pixels `pix` after the first `n` pixels of line `y` of the cell at
/// column `x_off` are drawn with the glyph of `c`: where the glyph's bit is
/// set, the pixel (`pitch` pixels to a line) takes the foreground color.
pub open spec fn glyph_row(s: DisplaySetup, pix: Seq<u32>, c: char, x_off: int, y: int, n: nat) -> Seq<u32>
    decreases n,
{
    if n == 0 {
        pix
    } else {
        let p = glyph_row(s, pix, c, x_off, y, (n - 1) as nat);
        let x = x_off * s.cw + n - 1;
        let byte = s.glyphs[(c as int) * s.char_size + y % s.ch];
        if byte & (0x80u8 >> ((x % s.cw) as u8)) > 0 && 0 <= y * s.pitch + x < p.len() {
            p.update(y * s.pitch + x, s.fg)
        } else {
            p
        }
    }
}

/// The pixels `pix` after the first `m` lines of the cell at column `x_off`
/// and line `y_off` are drawn with the glyph of `c`.
pub open spec fn glyph_drawn(s: DisplaySetup, pix: Seq<u32>, c: char, x_off: int, y_off: int, m: nat) -> Seq<u32>
    decreases m,
{
    if m == 0 {
        pix
    } else {
        glyph_row(s, glyph_drawn(s, pix, c, x_off, y_off, (m - 1) as nat), c, x_off, y_off * s.ch + m - 1, s.cw as nat)
    }
}

/// The pixels `pix` scrolled up by a line of characters: within the width,
/// each line of pixels takes the one a character's height below it, and
/// the last character's height of lines takes the background color; the
/// pixels past the width stay.
pub open spec fn scrolled(s: DisplaySetup, pix: Seq<u32>) -> Seq<u32> {
    Seq::new(
        pix.len(),
        |i: int|
            if i % s.pitch < s.w && i / s.pitch < s.h - s.ch {
                pix[i + s.ch * s.pitch]
            } else if i % s.pitch < s.w && s.h - s.ch <= i / s.pitch < s.h {
                s.bg
            } else {
                pix[i]
            },
    )
}

/// The view `v` of a display after the character `c` is put at the
/// cursor: a newline moves the cursor to the start of the next line;
/// another character is drawn in the cursor's cell and the cursor moves on,
/// to the start of the next line past the last column. A cursor moved below
/// the last line scrolls the display up a line and moves up with it.
pub open spec fn char_put(s: DisplaySetup, v: DisplayView, c: char) -> DisplayView {
    let x = v.cursor.0;
    let y = v.cursor.1;
    let (pix, nx, ny) = if c == '\n' {
        (v.pixels, 0int, y + 1)
    } else {
        let p = glyph_drawn(s, v.pixels, c, x, y, s.ch as nat);
        if x + 1 >= s.columns {
            (p, 0int, y + 1)
        } else {
            (p, x + 1, y)
        }
    };
    if ny >= s.lines {
        DisplayView { pixels: scrolled(s, pix), cursor: (nx, if ny > 0 { ny - 1 } else { 0 }) }
    } else {
        DisplayView { pixels: pix, cursor: (nx, ny) }
    }
}

/// The view `v` of a display after the first `n` characters of `t` are put
/// one after the other.
pub open spec fn chars_put(s: DisplaySetup, v: DisplayView, t: Seq<char>, n: nat) -> DisplayView
    decreases n,
{
    if n == 0 {
        v
    } else {
        char_put(s, chars_put(s, v, t, (n - 1) as nat), t[n - 1])
    }
}

proof fn lemma_glyph_row_len(s: DisplaySetup, pix: Seq<u32>, c: char, x_off: int, y: int, n: nat)
    ensures
        glyph_row(s, pix, c, x_off, y, n).len() == pix.len(),
    decreases n,
{
    if n > 0 {
        lemma_glyph_row_len(s, pix, c, x_off, y, (n - 1) as nat);
    }
}

proof fn lemma_glyph_len(s: DisplaySetup, pix: Seq<u32>, c: char, x_off: int, y_off: int, m: nat)
    ensures
        glyph_drawn(s, pix, c, x_off, y_off, m).len() == pix.len(),
    decreases m,
{
    if m > 0 {
        lemma_glyph_len(s, pix, c, x_off, y_off, (m - 1) as nat);
        lemma_glyph_row_len(s, glyph_drawn(s, pix, c, x_off, y_off, (m - 1) as nat), c, x_off, y_off * s.ch + m - 1, s.cw as nat);
    }
}

/// Whether the font has a glyph for `c`.
pub open spec fn has_glyph(s: DisplaySetup, c: char) -> bool {
    (c as int) * s.char_size + s.ch <= s.glyphs.len()
}

impl Display {
    /// The setup fits: characters of at most 8 pixels of width; the back
    /// buffer holds its lines of `pixels_per_scanline` pixels, at least its
    /// width; the console fits it and has a line and a column; the cursor is
    /// on the console.
    pub open spec fn wf(&self) -> bool {
        &&& self.fits()
        &&& self.console.cursor.0 < self.console.width
        &&& self.console.cursor.1 < self.console.height
    }

    /// The setup fits (see [`Display::wf`]), wherever the cursor is.
    pub open spec fn fits(&self) -> bool {
        let pitch = self.backbuffer.pixels_per_scanline as int;
        &&& 0 < self.char_width <= 8
        &&& 0 < self.char_height
        &&& self.backbuffer.width <= pitch
        &&& self.pixels@.len() == pitch * self.backbuffer.height
        &&& 0 < self.console.width
        &&& 0 < self.console.height
        &&& self.console.width * self.char_width <= self.backbuffer.width
        &&& self.console.height * self.char_height <= self.backbuffer.height
    }

    /// A display with everything zero and empty.
    pub fn default() -> (d: Display)
        ensures
            d.framebuffer == (Framebuffer { pointer: 0, width: 0, height: 0, pixels_per_scanline: 0 }),
            d.backbuffer == d.framebuffer,
            d.pixels@.len() == 0,
            d.glyphs@.len() == 0,
            d.char_size == 0,
            d.console == (Console { cursor: (0, 0), fg_color: 0, bg_color: 0, width: 0, height: 0 }),
            d.char_width == 0,
            d.char_height == 0,
    {
        Display {
            framebuffer: Framebuffer { pointer: 0, width: 0, height: 0, pixels_per_scanline: 0 },
            backbuffer: Framebuffer { pointer: 0, width: 0, height: 0, pixels_per_scanline: 0 },
            pixels: Vec::new(),
            glyphs: Vec::new(),
            char_size: 0,
            console: Console { cursor: (0, 0), fg_color: 0, bg_color: 0, width: 0, height: 0 },
            char_width: 0,
            char_height: 0,
        }
    }

    /// A display of `framebuffer`, whose back buffer is the framebuffer
    /// itself, holding `pixels`, with the font `glyphs` of `char_size` bytes
    /// a glyph: white characters of 8 by 16 pixels on black, the cursor at
    /// the top left.
    pub fn init(framebuffer: Framebuffer, pixels: Vec<u32>, glyphs: Vec<u8>, char_size: u8) -> (d: Display)
        requires
            framebuffer.width >= 8,
            framebuffer.height >= 16,
            framebuffer.width <= framebuffer.pixels_per_scanline,
            pixels@.len() == framebuffer.pixels_per_scanline * framebuffer.height,
        ensures
            d.wf(),
            d.framebuffer == framebuffer,
            d.backbuffer == framebuffer,
            d.pixels@ == pixels@,
            d.glyphs@ == glyphs@,
            d.char_size == char_size,
            d.console == (Console {
                cursor: (0, 0),
                fg_color: 0xFFFFFFFF,
                bg_color: 0xFF000000,
                width: (framebuffer.width / 8) as usize,
                height: (framebuffer.height / 16) as usize,
            }),
            d.char_width == 8,
            d.char_height == 16,
    {
        let backbuffer = Framebuffer {
            pointer: framebuffer.pointer,
            width: framebuffer.width,
            height: framebuffer.height,
            pixels_per_scanline: framebuffer.pixels_per_scanline,
        };
        Display {
            framebuffer,
            backbuffer,
            pixels,
            glyphs,
            char_size,
            console: Console {
                cursor: (0, 0),
                fg_color: 0xFFFFFFFF,
                bg_color: 0xFF000000,
                width: (framebuffer.width / 8) as usize,
                height: (framebuffer.height / 16) as usize,
            },
            char_width: 8,
            char_height: 16,
        }
    }

    /// Draws the glyph of `c` in the cell at column `x_off` and line `y_off`
    /// (see [`glyph_drawn`]).
    fn put_char_at(&mut self, x_off: usize, y_off: usize, c: char)
        requires
            old(self).fits(),
            x_off < old(self).console.width,
            y_off < old(self).console.height,
            has_glyph(setup(*old(self)), c),
        ensures
            same_setup(*final(self), *old(self)),
            final(self).console.cursor == old(self).console.cursor,
            final(self).pixels@ == glyph_drawn(
                setup(*old(self)),
                old(self).pixels@,
                c,
                x_off as int,
                y_off as int,
                old(self).char_height as nat,
            ),
    {
        let ghost s = setup(*self);
        let cw = self.char_width;
        let ch = self.char_height;
        let pitch = self.backbuffer.pixels_per_scanline as usize;
        let hgt = self.backbuffer.height as usize;
        let _glen = self.glyphs.len();
        let _plen = self.pixels.len();
        let base = (c as u32 as usize) * (self.char_size as usize);
        proof {
            assert(y_off * ch + ch <= self.console.height * ch) by (nonlinear_arith)
                requires
                    y_off + 1 <= self.console.height,
            ;
            assert(x_off * cw + cw <= self.console.width * cw) by (nonlinear_arith)
                requires
                    x_off + 1 <= self.console.width,
            ;
        }
        let y0 = y_off * ch;
        let x0 = x_off * cw;
        let mut y = y0;
        while y < y0 + ch
            invariant
                s == setup(*old(self)),
                same_setup(*self, *old(self)),
                self.console.cursor == old(self).console.cursor,
                self.pixels@.len() == old(self).pixels@.len(),
                _plen == self.pixels@.len(),
                _glen == s.glyphs.len(),
                cw == s.cw,
                ch == s.ch,
                pitch == s.pitch,
                hgt == s.h,
                0 < cw <= 8,
                0 < ch,
                self.pixels@.len() == pitch * hgt,
                y0 == y_off * ch,
                x0 == x_off * cw,
                y0 + ch <= hgt,
                x0 + cw <= pitch,
                base + ch <= _glen,
                base == (c as int) * s.char_size,
                y0 <= y <= y0 + ch,
                self.pixels@ == glyph_drawn(s, old(self).pixels@, c, x_off as int, y_off as int, (y - y0) as nat),
            decreases y0 + ch - y,
        {
            let ghost before = self.pixels@;
            let mut x = x0;
            while x < x0 + cw
                invariant
                    s == setup(*old(self)),
                    same_setup(*self, *old(self)),
                    self.console.cursor == old(self).console.cursor,
                    _plen == self.pixels@.len(),
                    _glen == s.glyphs.len(),
                    cw == s.cw,
                    ch == s.ch,
                    pitch == s.pitch,
                    0 < cw <= 8,
                    0 < ch,
                    self.pixels@.len() == pitch * hgt,
                    y0 <= y < y0 + ch,
                    y0 + ch <= hgt,
                    x0 == x_off * cw,
                    x0 + cw <= pitch,
                    base + ch <= _glen,
                    base == (c as int) * s.char_size,
                    x0 <= x <= x0 + cw,
                    self.pixels@ == glyph_row(s, before, c, x_off as int, y as int, (x - x0) as nat),
                decreases x0 + cw - x,
            {
                let font_byte = self.glyphs[base + y % ch];
                if font_byte & (0x80u8 >> ((x % cw) as u8)) > 0 {
                    proof {
                        assert(y * pitch + x < pitch * hgt) by (nonlinear_arith)
                            requires
                                y < hgt,
                                x < pitch,
                        ;
                    }
                    let fg = self.console.fg_color;
                    self.pixels.set(y * pitch + x, fg);
                }
                x = x + 1;
            }
            y = y + 1;
        }
    }

    /// Scrolls the back buffer up a line of characters (see [`scrolled`])
    /// and moves the cursor up a line, unless it is on the first.
    fn scroll_up(&mut self)
        requires
            old(self).fits(),
        ensures
            final(self).fits(),
            same_setup(*final(self), *old(self)),
            final(self).console.cursor.0 == old(self).console.cursor.0,
            final(self).console.cursor.1 == if old(self).console.cursor.1 > 0 {
                old(self).console.cursor.1 - 1
            } else {
                0
            },
            final(self).pixels@ == scrolled(setup(*old(self)), old(self).pixels@),
    {
        let ghost s = setup(*self);
        let ghost old_pix = self.pixels@;
        let w = self.backbuffer.width as usize;
        let h = self.backbuffer.height as usize;
        let pitch = self.backbuffer.pixels_per_scanline as usize;
        let ch = self.char_height;
        let _plen = self.pixels.len();
        proof {
            assert(ch <= h) by (nonlinear_arith)
                requires
                    self.console.height * ch <= h,
                    self.console.height >= 1,
                    ch >= 0,
            ;
            assert(w > 0) by (nonlinear_arith)
                requires
                    self.console.width * self.char_width <= w,
                    self.console.width >= 1,
                    self.char_width >= 1,
            ;
        }
        let mut y: usize = 0;
        while y < h - ch
            invariant
                s == setup(*old(self)),
                same_setup(*self, *old(self)),
                self.console == old(self).console,
                old_pix == old(self).pixels@,
                _plen == self.pixels@.len(),
                w == s.w,
                h == s.h,
                pitch == s.pitch,
                ch == s.ch,
                0 < ch <= h,
                0 < w <= pitch,
                self.pixels@.len() == pitch * h,
                y <= h - ch,
                forall|i: int|
                    0 <= i < self.pixels@.len() ==> #[trigger] self.pixels@[i] == if i % s.pitch < s.w && i
                        / s.pitch < y {
                        old_pix[i + s.ch * s.pitch]
                    } else {
                        old_pix[i]
                    },
            decreases h - ch - y,
        {
            let mut x: usize = 0;
            while x < w
                invariant
                    s == setup(*old(self)),
                    same_setup(*self, *old(self)),
                    self.console == old(self).console,
                    old_pix == old(self).pixels@,
                    _plen == self.pixels@.len(),
                    w == s.w,
                    h == s.h,
                    pitch == s.pitch,
                    ch == s.ch,
                    0 < ch <= h,
                    0 < w <= pitch,
                    self.pixels@.len() == pitch * h,
                    y < h - ch,
                    x <= w,
                    forall|i: int|
                        0 <= i < self.pixels@.len() ==> #[trigger] self.pixels@[i] == if i % s.pitch < s.w && (i
                            / s.pitch < y || (i / s.pitch == y && i % s.pitch < x)) {
                            old_pix[i + s.ch * s.pitch]
                        } else {
                            old_pix[i]
                        },
                decreases w - x,
            {
                proof {
                    assert((y + ch) * pitch + x < pitch * h) by (nonlinear_arith)
                        requires
                            y + ch < h,
                            x < pitch,
                    ;
                    assert((y + ch) * pitch + x == (y * pitch + x) + ch * pitch) by (nonlinear_arith);
                }
                let from = (y + ch) * pitch + x;
                let to = y * pitch + x;
                proof {
                    lemma_fundamental_div_mod_converse(from as int, pitch as int, (y + ch) as int, x as int);
                    lemma_fundamental_div_mod_converse(to as int, pitch as int, y as int, x as int);
                }
                let v = self.pixels[from];
                self.pixels.set(to, v);
                proof {
                    assert forall|i: int| 0 <= i < self.pixels@.len() implies #[trigger] self.pixels@[i] == if i
                        % s.pitch < s.w && (i / s.pitch < y || (i / s.pitch == y && i % s.pitch < x + 1)) {
                        old_pix[i + s.ch * s.pitch]
                    } else {
                        old_pix[i]
                    } by {
                        lemma_fundamental_div_mod(i, pitch as int);
                        if i != to {
                            if i / s.pitch == y && i % s.pitch == x {
                                assert(i == pitch * (i / s.pitch) + i % s.pitch);
                                assert(false) by (nonlinear_arith)
                                    requires
                                        i == pitch * y + x,
                                        i != y * pitch + x,
                                ;
                            }
                        }
                    }
                }
                x = x + 1;
            }
            y = y + 1;
        }
        let clear_color = self.console.bg_color;
        let mut y = h - ch;
        while y < h
            invariant
                s == setup(*old(self)),
                same_setup(*self, *old(self)),
                self.console == old(self).console,
                old_pix == old(self).pixels@,
                clear_color == s.bg,
                _plen == self.pixels@.len(),
                w == s.w,
                h == s.h,
                pitch == s.pitch,
                ch == s.ch,
                0 < ch <= h,
                0 < w <= pitch,
                self.pixels@.len() == pitch * h,
                h - ch <= y <= h,
                forall|i: int|
                    0 <= i < self.pixels@.len() ==> #[trigger] self.pixels@[i] == if i % s.pitch < s.w && i
                        / s.pitch < s.h - s.ch {
                        old_pix[i + s.ch * s.pitch]
                    } else if i % s.pitch < s.w && s.h - s.ch <= i / s.pitch < y {
                        s.bg
                    } else {
                        old_pix[i]
                    },
            decreases h - y,
        {
            assert forall|i: int| 0 <= i < self.pixels@.len() implies #[trigger] self.pixels@[i] == if i % s.pitch
                < s.w && i / s.pitch < s.h - s.ch {
                old_pix[i + s.ch * s.pitch]
            } else if i % s.pitch < s.w && s.h - s.ch <= i / s.pitch && (i / s.pitch < y || (i / s.pitch == y
                && i % s.pitch < 0)) {
                s.bg
            } else {
                old_pix[i]
            } by {}
            let mut x: usize = 0;
            while x < w
                invariant
                    s == setup(*old(self)),
                    same_setup(*self, *old(self)),
                    self.console == old(self).console,
                    old_pix == old(self).pixels@,
                    clear_color == s.bg,
                    _plen == self.pixels@.len(),
                    w == s.w,
                    h == s.h,
                    pitch == s.pitch,
                    ch == s.ch,
                    0 < ch <= h,
                    0 < w <= pitch,
                    self.pixels@.len() == pitch * h,
                    h - ch <= y < h,
                    x <= w,
                    forall|i: int|
                        0 <= i < self.pixels@.len() ==> #[trigger] self.pixels@[i] == if i % s.pitch < s.w && i
                            / s.pitch < s.h - s.ch {
                            old_pix[i + s.ch * s.pitch]
                        } else if i % s.pitch < s.w && s.h - s.ch <= i / s.pitch && (i / s.pitch < y || (i
                            / s.pitch == y && i % s.pitch < x)) {
                            s.bg
                        } else {
                            old_pix[i]
                        },
                decreases w - x,
            {
                proof {
                    assert(y * pitch + x < pitch * h) by (nonlinear_arith)
                        requires
                            y < h,
                            x < pitch,
                    ;
                }
                let to = y * pitch + x;
                proof {
                    lemma_fundamental_div_mod_converse(to as int, pitch as int, y as int, x as int);
                }
                self.pixels.set(to, clear_color);
                proof {
                    assert forall|i: int| 0 <= i < self.pixels@.len() implies #[trigger] self.pixels@[i] == if i
                        % s.pitch < s.w && i / s.pitch < s.h - s.ch {
                        old_pix[i + s.ch * s.pitch]
                    } else if i % s.pitch < s.w && s.h - s.ch <= i / s.pitch && (i / s.pitch < y || (i / s.pitch
                        == y && i % s.pitch < x + 1)) {
                        s.bg
                    } else {
                        old_pix[i]
                    } by {
                        lemma_fundamental_div_mod(i, pitch as int);
                        if i != to {
                            if i / s.pitch == y && i % s.pitch == x {
                                assert(false) by (nonlinear_arith)
                                    requires
                                        i == pitch * y + x,
                                        i != y * pitch + x,
                                ;
                            }
                        }
                    }
                }
                x = x + 1;
            }
            y = y + 1;
        }
        if self.console.cursor.1 > 0 {
            self.console.cursor.1 = self.console.cursor.1 - 1;
        } else {
            self.console.cursor.1 = 0;
        }
        proof {
            assert(self.pixels@ =~= scrolled(s, old_pix));
        }
    }

    /// Puts the character `c` at the cursor (see [`char_put`]).
    fn put_char(&mut self, c: char)
        requires
            old(self).wf(),
            c != '\n' ==> has_glyph(setup(*old(self)), c),
        ensures
            final(self).wf(),
            same_setup(*final(self), *old(self)),
            final(self)@ == char_put(setup(*old(self)), old(self)@, c),
    {
        let (mut x, mut y) = self.console.cursor;
        if c == '\n' {
            x = 0;
            y = y + 1;
        } else {
            self.put_char_at(x, y, c);
            proof {
                lemma_glyph_len(setup(*old(self)), old(self).pixels@, c, x as int, y as int, old(self).char_height as nat);
            }
            x = x + 1;
            if x >= self.console.width {
                x = 0;
                y = y + 1;
            }
        }
        self.console.cursor = (x, y);
        if y >= self.console.height {
            self.scroll_up();
        }
    }

    /// Puts the characters of `s` one after the other (see [`chars_put`]).
    pub fn write_str(&mut self, s: &str)
        requires
            old(self).wf(),
            forall|i: int| 0 <= i < s@.len() && s@[i] != '\n' ==> has_glyph(setup(*old(self)), #[trigger] s@[i]),
        ensures
            final(self).wf(),
            same_setup(*final(self), *old(self)),
            final(self)@ == chars_put(setup(*old(self)), old(self)@, s@, s@.len()),
    {
        proof {
            broadcast use vstd::string::axiom_spec_iter;
        }
        let ghost st = setup(*self);
        let ghost v0 = self@;
        for c in it: s.chars()
            invariant
                it.seq() == s@,
                st == setup(*old(self)),
                v0 == old(self)@,
                self.wf(),
                same_setup(*self, *old(self)),
                forall|i: int| 0 <= i < s@.len() && s@[i] != '\n' ==> has_glyph(st, #[trigger] s@[i]),
                self@ == chars_put(st, v0, s@, it.index() as nat),
        {
            self.put_char(c);
        }
    }

    /// Fills the first width times height pixels of the back buffer with
    /// opaque black.
    pub fn clear_screen(&mut self)
        requires
            old(self).wf(),
        ensures
            final(self).wf(),
            same_setup(*final(self), *old(self)),
            final(self).console.cursor == old(self).console.cursor,
            final(self).pixels@ == Seq::new(
                old(self).pixels@.len(),
                |i: int|
                    if i < old(self).backbuffer.width * old(self).backbuffer.height {
                        0xFF000000u32
                    } else {
                        old(self).pixels@[i]
                    },
            ),
    {
        let clear_char: u32 = 0xFF000000;
        let w = self.backbuffer.width as usize;
        let h = self.backbuffer.height as usize;
        let _len = self.pixels.len();
        proof {
            let pitch = self.backbuffer.pixels_per_scanline as int;
            assert(w * h <= pitch * h) by (nonlinear_arith)
                requires
                    w <= pitch,
                    0 <= h,
            ;
        }
        let n = w * h;
        let mut i: usize = 0;
        while i < n
            invariant
                n == old(self).backbuffer.width * old(self).backbuffer.height,
                n <= self.pixels@.len(),
                clear_char == 0xFF000000u32,
                i <= n,
                same_setup(*self, *old(self)),
                self.console == old(self).console,
                self.pixels@.len() == old(self).pixels@.len(),
                forall|j: int|
                    0 <= j < self.pixels@.len() ==> #[trigger] self.pixels@[j] == if j < i {
                        0xFF000000u32
                    } else {
                        old(self).pixels@[j]
                    },
            decreases n - i,
        {
            self.pixels.set(i, clear_char);
            i = i + 1;
        }
        assert(self.pixels@ =~= Seq::new(
            old(self).pixels@.len(),
            |j: int|
                if j < old(self).backbuffer.width * old(self).backbuffer.height {
                    0xFF000000u32
                } else {
                    old(self).pixels@[j]
                },
        ));
    }
}

} // verus!
